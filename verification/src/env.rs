//! The environment: a chain of symbol-to-value scopes with lexical
//! nesting.
//!
//! Scopes live in an arena owned by the interpreter state; a scope
//! refers to its parent (and a closure to its defining scope) by arena
//! index. Parent indices always point at earlier arena entries, so the
//! chain has no cycles and lookup terminates.

use vstd::prelude::*;

use crate::error::{err, ErrType, MalErr};
use crate::types::{lemma_val_ok_widen, val_ok, val_view, Builtin, Lambda, Val, ValSpec};

verus! {

broadcast use vstd::seq::group_seq_axioms;

/// One scope: its parent (if any) and its bindings. A new binding is
/// prepended, and lookup takes the first match, so rebinding a name in
/// the same scope shadows the older entry.
pub struct Env {
    pub outer: Option<usize>,
    pub table: Vec<(String, Val)>,
}

/// Mathematical model of one scope.
#[verifier::ext_equal]
pub struct ScopeSpec {
    pub outer: Option<int>,
    pub table: Seq<(Seq<char>, ValSpec)>,
}

pub open spec fn table_view(t: Seq<(String, Val)>) -> Seq<(Seq<char>, ValSpec)>
    decreases t,
{
    if t.len() == 0 {
        Seq::empty()
    } else {
        table_view(t.drop_last()).push((t.last().0@, val_view(t.last().1)))
    }
}

/// Pointwise characterization of `table_view`.
pub proof fn lemma_table_view(t: Seq<(String, Val)>)
    ensures
        table_view(t).len() == t.len(),
        forall|i: int| 0 <= i < t.len() ==> table_view(t)[i]
            == (t[i].0@, val_view(t[i].1)),
    decreases t.len(),
{
    if t.len() > 0 {
        lemma_table_view(t.drop_last());
    }
}

pub open spec fn env_view(e: Env) -> ScopeSpec {
    ScopeSpec {
        outer: match e.outer {
            Some(j) => Some(j as int),
            None => None,
        },
        table: table_view(e.table@),
    }
}

/// First-match association lookup in one scope's bindings.
pub open spec fn tbl_get(t: Seq<(Seq<char>, ValSpec)>, key: Seq<char>) -> Option<ValSpec>
    decreases t.len(),
{
    if t.len() == 0 {
        None
    } else if t.first().0 == key {
        Some(t.first().1)
    } else {
        tbl_get(t.drop_first(), key)
    }
}

/// If the first `j` entries do not bind `key`, lookup continues in the
/// rest.
pub proof fn lemma_tbl_get_skip(t: Seq<(Seq<char>, ValSpec)>, j: int, key: Seq<char>)
    requires
        0 <= j <= t.len(),
        forall|m: int| 0 <= m < j ==> t[m].0 != key,
    ensures
        tbl_get(t, key) == tbl_get(t.skip(j), key),
    decreases j,
{
    if j > 0 {
        assert(t.first().0 != key);
        lemma_tbl_get_skip(t.drop_first(), j - 1, key);
        assert(t.drop_first().skip(j - 1) =~= t.skip(j));
        assert(forall|m: int| 0 <= m < j - 1 ==> t.drop_first()[m] == t[m + 1]);
    } else {
        assert(t.skip(0) =~= t);
    }
}

/// The interpreter's mutable state: the scope arena, rooted at the
/// global scope, and the lines emitted by the printing primitive,
/// which the driver drains and displays.
pub struct Interp {
    pub scopes: Vec<Env>,
    pub emitted: Vec<String>,
}

impl Interp {
    /// The number of scopes in the arena.
    pub open spec fn n(self) -> int {
        self.scopes@.len() as int
    }

    /// The model of scope `i`.
    pub open spec fn scope(self, i: int) -> ScopeSpec {
        env_view(self.scopes@[i])
    }

    /// Well-formedness of scope `i`: its parent points strictly
    /// earlier in the arena and every stored value is valid for the
    /// arena.
    pub open spec fn scope_wf(self, i: int) -> bool {
        &&& (self.scope(i).outer matches Some(j) ==> 0 <= j < i)
        &&& forall|k: int| 0 <= k < self.scope(i).table.len()
            ==> val_ok(#[trigger] self.scope(i).table[k].1, self.n())
    }

    /// Well-formedness of the whole arena.
    pub open spec fn wf(self) -> bool {
        forall|i: int| 0 <= i < self.n() ==> #[trigger] self.scope_wf(i)
    }

    /// Lexical lookup: the scope's own bindings first, then the
    /// parent chain; the nearest binding wins.
    pub open spec fn lookup(self, i: int, key: Seq<char>) -> Option<ValSpec>
        decreases i,
    {
        if !(0 <= i < self.n()) {
            None
        } else {
            match tbl_get(self.scope(i).table, key) {
                Some(v) => Some(v),
                None => match self.scope(i).outer {
                    Some(j) => if 0 <= j < i {
                        self.lookup(j, key)
                    } else {
                        None
                    },
                    None => None,
                },
            }
        }
    }

    /// Allocate a new empty scope whose parent is `outer`.
    pub fn child_of(&mut self, outer: usize) -> (i: usize)
        requires
            old(self).wf(),
            outer < old(self).n(),
        ensures
            final(self).wf(),
            i == old(self).n(),
            final(self).n() == old(self).n() + 1,
            forall|j: int| 0 <= j < old(self).n()
                ==> final(self).scope(j) == old(self).scope(j),
            final(self).scope(i as int) == (ScopeSpec {
                outer: Some(outer as int),
                table: Seq::empty(),
            }),
            final(self).emitted == old(self).emitted,
    {
        let i = self.scopes.len();
        self.scopes.push(Env { outer: Some(outer), table: Vec::new() });
        proof {
            assert(table_view(Seq::<(String, Val)>::empty()) =~= Seq::empty());
            assert(self.scope(i as int) =~= ScopeSpec {
                outer: Some(outer as int),
                table: Seq::empty(),
            });
            assert forall|j: int| 0 <= j < self.n() implies #[trigger] self.scope_wf(j) by {
                assert(old(self).wf());
                if j < old(self).n() {
                    assert(old(self).scope_wf(j));
                    assert(self.scope(j) == old(self).scope(j));
                    assert forall|k: int| 0 <= k < self.scope(j).table.len()
                        implies val_ok(#[trigger] self.scope(j).table[k].1, self.n()) by {
                        lemma_val_ok_widen(self.scope(j).table[k].1, old(self).n(), self.n());
                    }
                }
            }
        }
        i
    }

    /// Insert (or shadow) a binding in scope `envt` alone: no ancestor
    /// is ever written.
    pub fn set(&mut self, envt: usize, key: &String, v: Val)
        requires
            old(self).wf(),
            envt < old(self).n(),
            val_ok(v@, old(self).n()),
        ensures
            final(self).wf(),
            final(self).n() == old(self).n(),
            final(self).emitted == old(self).emitted,
            forall|j: int| 0 <= j < final(self).n() && j != envt
                ==> final(self).scope(j) == old(self).scope(j),
            final(self).scope(envt as int).outer == old(self).scope(envt as int).outer,
            final(self).scope(envt as int).table
                == old(self).scope(envt as int).table.insert(0, (key@, v@)),
            tbl_get(final(self).scope(envt as int).table, key@) == Some(v@),
            forall|k: Seq<char>| k != key@
                ==> tbl_get(final(self).scope(envt as int).table, k)
                    == tbl_get(old(self).scope(envt as int).table, k),
    {
        let ghost old_table = self.scope(envt as int).table;
        let kv = (key.clone(), v);
        let ghost kv_view = (key@, v@);
        let r = &mut self.scopes;
        let slot = &mut r[envt];
        slot.table.insert(0, kv);
        proof {
            lemma_table_view(old(self).scopes@[envt as int].table@);
            lemma_table_view(self.scopes@[envt as int].table@);
            assert(self.scope(envt as int).table =~= old_table.insert(0, kv_view));
            let t = self.scope(envt as int).table;
            assert(t.first() == kv_view);
            assert(t.drop_first() =~= old_table);
            assert forall|j: int| 0 <= j < self.n() && j != envt
                implies self.scope(j) == old(self).scope(j) by {
                assert(self.scopes@[j] == old(self).scopes@[j]);
            }
            assert forall|j: int| 0 <= j < self.n() implies #[trigger] self.scope_wf(j) by {
                assert(old(self).scope_wf(j));
                if j == envt {
                    assert forall|k: int| 0 <= k < t.len()
                        implies val_ok(#[trigger] t[k].1, self.n()) by {
                        if k > 0 {
                            assert(t[k] == old_table[k - 1]);
                        }
                    }
                }
            }
        }
    }

    /// Search one scope's own bindings (no parents).
    fn scope_get(&self, i: usize, key: &String) -> (r: Option<Val>)
        requires
            self.wf(),
            i < self.n(),
        ensures
            match r {
                Some(v) => tbl_get(self.scope(i as int).table, key@) == Some(v@)
                    && val_ok(v@, self.n()),
                None => tbl_get(self.scope(i as int).table, key@) is None,
            },
    {
        let t = &self.scopes[i].table;
        proof {
            lemma_table_view(t@);
        }
        let ghost tv = self.scope(i as int).table;
        let mut j: usize = 0;
        while j < t.len()
            invariant
                self.wf(),
                i < self.n(),
                t == &self.scopes@[i as int].table,
                tv == self.scope(i as int).table,
                tv == table_view(t@),
                tv.len() == t@.len(),
                forall|m: int| 0 <= m < t@.len() ==> tv[m] == (t@[m].0@, val_view(t@[m].1)),
                j <= t@.len(),
                forall|m: int| 0 <= m < j ==> tv[m].0 != key@,
            decreases t@.len() - j,
        {
            let hit = t[j].0 == *key;
            if hit {
                proof {
                    lemma_tbl_get_skip(tv, j as int, key@);
                    assert(tv.skip(j as int).first() == tv[j as int]);
                    assert(self.scope_wf(i as int));
                }
                return Some(t[j].1.clone());
            }
            j = j + 1;
        }
        proof {
            lemma_tbl_get_skip(tv, t@.len() as int, key@);
            assert(tv.skip(tv.len() as int) =~= Seq::empty());
        }
        None
    }

    /// Find the nearest scope in the chain that binds `key`.
    pub fn find(&self, envt: usize, key: &String) -> (r: Option<usize>)
        requires
            self.wf(),
            envt < self.n(),
        ensures
            match r {
                Some(j) => j < self.n()
                    && tbl_get(self.scope(j as int).table, key@)
                        == self.lookup(envt as int, key@)
                    && self.lookup(envt as int, key@) is Some,
                None => self.lookup(envt as int, key@) is None,
            },
    {
        let mut cur: usize = envt;
        loop
            invariant
                self.wf(),
                cur < self.n(),
                self.lookup(envt as int, key@) == self.lookup(cur as int, key@),
            decreases cur,
        {
            proof {
                assert(self.scope_wf(cur as int));
            }
            if self.scope_get(cur, key).is_some() {
                return Some(cur);
            }
            match self.scopes[cur].outer {
                Some(j) => {
                    cur = j;
                },
                None => {
                    return None;
                },
            }
        }
    }

    /// Resolve `key` through the chain rooted at `envt`; an unresolved
    /// name is an evaluation error naming it.
    pub fn get(&self, envt: usize, key: &String) -> (r: Result<Val, MalErr>)
        requires
            self.wf(),
            envt < self.n(),
        ensures
            match r {
                Ok(v) => self.lookup(envt as int, key@) == Some(v@)
                    && val_ok(v@, self.n()),
                Err(e) => self.lookup(envt as int, key@) is None
                    && e.kind == ErrType::Eval
                    && e.msg@ == seq!['\''] + key@ + "' not found"@,
            },
    {
        match self.find(envt, key) {
            Some(j) => match self.scope_get(j, key) {
                Some(v) => Ok(v),
                None => {
                    proof {
                        assert(false);
                    }
                    Err(err(ErrType::Eval, "unreachable"))
                },
            },
            None => {
                let mut msg = String::from_str("'");
                msg.append(key.as_str());
                msg.append("' not found");
                proof {
                    reveal_strlit("'");
                    reveal_strlit("' not found");
                    assert(msg@ =~= seq!['\''] + key@ + "' not found"@);
                }
                Err(err(ErrType::Eval, msg.as_str()))
            },
        }
    }
}

impl Interp {
    /// Allocate a child of `outer` pre-populated with the given
    /// bindings, in order: a later binding of the same name shadows an
    /// earlier one, as for the parameters of a call.
    pub fn binding(&mut self, outer: usize, bindings: Vec<(String, Val)>) -> (i: usize)
        requires
            old(self).wf(),
            outer < old(self).n(),
            forall|j: int| 0 <= j < bindings@.len()
                ==> val_ok(val_view(#[trigger] bindings@[j].1), old(self).n() + 1),
        ensures
            final(self).wf(),
            i == old(self).n(),
            final(self).n() == old(self).n() + 1,
            forall|j: int| 0 <= j < old(self).n()
                ==> final(self).scope(j) == old(self).scope(j),
            final(self).scope(i as int).outer == Some(outer as int),
            final(self).scope(i as int).table.len() == bindings@.len(),
            forall|j: int| 0 <= j < bindings@.len()
                ==> final(self).scope(i as int).table[j]
                    == (bindings@[bindings@.len() - 1 - j].0@,
                        val_view(bindings@[bindings@.len() - 1 - j].1)),
            final(self).emitted == old(self).emitted,
    {
        let ghost orig = bindings@;
        let i = self.child_of(outer);
        let mut rest = bindings;
        let ghost n1 = self.n();
        while rest.len() > 0
            invariant
                self.wf(),
                self.n() == n1,
                n1 == old(self).n() + 1,
                i == old(self).n(),
                i < self.n(),
                forall|j: int| 0 <= j < old(self).n()
                    ==> self.scope(j) == old(self).scope(j),
                self.scope(i as int).outer == Some(outer as int),
                rest@.len() <= orig.len(),
                rest@ == orig.skip(orig.len() - rest@.len()),
                forall|j: int| 0 <= j < orig.len() ==> val_ok(val_view(#[trigger] orig[j].1), n1),
                self.scope(i as int).table.len() == orig.len() - rest@.len(),
                forall|j: int| 0 <= j < orig.len() - rest@.len()
                    ==> self.scope(i as int).table[j]
                        == (orig[orig.len() - rest@.len() - 1 - j].0@,
                            val_view(orig[orig.len() - rest@.len() - 1 - j].1)),
                self.emitted == old(self).emitted,
            decreases rest@.len(),
        {
            let ghost done = orig.len() - rest@.len();
            let kv = rest.remove(0);
            proof {
                assert(kv == orig[done]);
                assert(rest@ =~= orig.skip(done + 1));
            }
            self.set(i, &kv.0, kv.1);
        }
        i
    }

    /// Build a fresh interpreter state: one root scope holding the
    /// native callables under their surface names, and nothing
    /// emitted yet.
    pub fn default() -> (r: Interp)
        ensures
            r.wf(),
            r.n() == 1,
            r.emitted@.len() == 0,
            r.scope(0).outer is None,
            r.scope(0).table == root_table(),
    {
        let mut t: Vec<(String, Val)> = Vec::new();
        t.push((String::from_str("list?"), Val::Func(Lambda::Builtin(Builtin::ListP))));
        t.push((String::from_str("count"), Val::Func(Lambda::Builtin(Builtin::Count))));
        t.push((String::from_str("empty?"), Val::Func(Lambda::Builtin(Builtin::EmptyP))));
        t.push((String::from_str("list"), Val::Func(Lambda::Builtin(Builtin::MakeList))));
        t.push((String::from_str("="), Val::Func(Lambda::Builtin(Builtin::Equal))));
        t.push((String::from_str("prn"), Val::Func(Lambda::Builtin(Builtin::Prn))));
        t.push((String::from_str("+"), Val::Func(Lambda::Builtin(Builtin::Add))));
        t.push((String::from_str("-"), Val::Func(Lambda::Builtin(Builtin::Sub))));
        t.push((String::from_str("*"), Val::Func(Lambda::Builtin(Builtin::Mul))));
        t.push((String::from_str("/"), Val::Func(Lambda::Builtin(Builtin::Div))));
        t.push((String::from_str("div"), Val::Func(Lambda::Builtin(Builtin::IntDiv))));
        t.push((String::from_str("mod"), Val::Func(Lambda::Builtin(Builtin::IntMod))));
        t.push((String::from_str("sqrt"), Val::Func(Lambda::Builtin(Builtin::Sqrt))));
        t.push((String::from_str("<"), Val::Func(Lambda::Builtin(Builtin::Lt))));
        t.push((String::from_str("<="), Val::Func(Lambda::Builtin(Builtin::Le))));
        t.push((String::from_str(">"), Val::Func(Lambda::Builtin(Builtin::Gt))));
        t.push((String::from_str(">="), Val::Func(Lambda::Builtin(Builtin::Ge))));
        let root = Env { outer: None, table: t };
        let r = Interp { scopes: vec![root], emitted: Vec::new() };
        proof {
            lemma_table_view(r.scopes@[0].table@);
            assert(r.scope(0).table =~= root_table());
            assert forall|i: int| 0 <= i < r.n() implies #[trigger] r.scope_wf(i) by {
                assert forall|k: int| 0 <= k < r.scope(0).table.len()
                    implies val_ok(#[trigger] r.scope(0).table[k].1, r.n()) by {
                    assert(r.scope(0).table[k] == root_table()[k]);
                }
            }
        }
        r
    }
}

/// The root scope's bindings: every native callable under its surface
/// name.
pub open spec fn root_table() -> Seq<(Seq<char>, ValSpec)> {
    seq![
        ("list?"@, ValSpec::Builtin(Builtin::ListP)),
        ("count"@, ValSpec::Builtin(Builtin::Count)),
        ("empty?"@, ValSpec::Builtin(Builtin::EmptyP)),
        ("list"@, ValSpec::Builtin(Builtin::MakeList)),
        ("="@, ValSpec::Builtin(Builtin::Equal)),
        ("prn"@, ValSpec::Builtin(Builtin::Prn)),
        ("+"@, ValSpec::Builtin(Builtin::Add)),
        ("-"@, ValSpec::Builtin(Builtin::Sub)),
        ("*"@, ValSpec::Builtin(Builtin::Mul)),
        ("/"@, ValSpec::Builtin(Builtin::Div)),
        ("div"@, ValSpec::Builtin(Builtin::IntDiv)),
        ("mod"@, ValSpec::Builtin(Builtin::IntMod)),
        ("sqrt"@, ValSpec::Builtin(Builtin::Sqrt)),
        ("<"@, ValSpec::Builtin(Builtin::Lt)),
        ("<="@, ValSpec::Builtin(Builtin::Le)),
        (">"@, ValSpec::Builtin(Builtin::Gt)),
        (">="@, ValSpec::Builtin(Builtin::Ge)),
    ]
}

/// Law: in a scope chain, the nearest binding of a name wins; a
/// binding in an inner scope shadows any binding of the same name
/// further out.
pub proof fn lemma_shadowing(st: Interp, inner: int, key: Seq<char>, v: ValSpec)
    requires
        st.wf(),
        0 <= inner < st.n(),
        tbl_get(st.scope(inner).table, key) == Some(v),
    ensures
        st.lookup(inner, key) == Some(v),
{
}

/// Law: a name not bound by the inner scope itself resolves exactly as
/// in the parent chain, so leaving an inner scope restores the outer
/// binding untouched.
pub proof fn lemma_fall_through(st: Interp, inner: int, outer: int, key: Seq<char>)
    requires
        st.wf(),
        0 <= inner < st.n(),
        st.scope(inner).outer == Some(outer),
        tbl_get(st.scope(inner).table, key) is None,
    ensures
        st.lookup(inner, key) == st.lookup(outer, key),
{
    assert(st.scope_wf(inner));
}

} // verus!

verus! {

/// Ghost snapshot of the interpreter state: the scope arena and the
/// lines emitted so far.
#[verifier::ext_equal]
pub struct StateS {
    pub scopes: Seq<ScopeSpec>,
    pub emitted: Seq<Seq<char>>,
}

impl Interp {
    /// The snapshot of this state.
    pub open spec fn view_state(self) -> StateS {
        StateS {
            scopes: Seq::new(self.n() as nat, |i: int| self.scope(i)),
            emitted: self.emitted.deep_view(),
        }
    }
}

/// Lexical lookup over a scope snapshot, as `Interp::lookup` walks the
/// live arena.
pub open spec fn lookup_in(sc: Seq<ScopeSpec>, i: int, key: Seq<char>) -> Option<ValSpec>
    decreases i,
{
    if !(0 <= i < sc.len()) {
        None
    } else {
        match tbl_get(sc[i].table, key) {
            Some(v) => Some(v),
            None => match sc[i].outer {
                Some(j) => if 0 <= j < i {
                    lookup_in(sc, j, key)
                } else {
                    None
                },
                None => None,
            },
        }
    }
}

/// The two lookups agree.
pub proof fn lemma_lookup_in(st: Interp, i: int, key: Seq<char>)
    ensures
        lookup_in(st.view_state().scopes, i, key) == st.lookup(i, key),
    decreases i,
{
    if 0 <= i < st.n() {
        if tbl_get(st.scope(i).table, key) is None {
            if let Some(j) = st.scope(i).outer {
                if 0 <= j < i {
                    lemma_lookup_in(st, j, key);
                }
            }
        }
    }
}

/// A scope snapshot with one more binding prepended in scope `i`.
pub open spec fn set_in(sc: Seq<ScopeSpec>, i: int, key: Seq<char>, v: ValSpec)
    -> Seq<ScopeSpec> {
    sc.update(i, ScopeSpec { outer: sc[i].outer, table: sc[i].table.insert(0, (key, v)) })
}

/// A scope snapshot with a fresh empty child of `outer` appended.
pub open spec fn push_child(sc: Seq<ScopeSpec>, outer: int) -> Seq<ScopeSpec> {
    sc.push(ScopeSpec { outer: Some(outer), table: Seq::empty() })
}

} // verus!
