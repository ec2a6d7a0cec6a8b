//! The tagged value representation shared by the reader and the
//! evaluator, and its mathematical model.

use vstd::prelude::*;

use crate::error::MalErr;

verus! {

broadcast use vstd::seq::group_seq_axioms;

/// The result of reading or evaluating: a value, or a structured error.
pub type Res = Result<Val, MalErr>;

/// Identity of a native callable. Dispatch is a closed match, since no
/// further kind of primitive exists.
#[derive(Clone, Copy, Debug, PartialEq, Eq, Structural)]
pub enum Builtin {
    Add,
    Sub,
    Mul,
    Div,
    IntDiv,
    IntMod,
    Sqrt,
    Lt,
    Le,
    Gt,
    Ge,
    Equal,
    ListP,
    Count,
    EmptyP,
    MakeList,
    Prn,
}

/// A user-defined callable: its parameter names (or, for a variadic
/// one, the single name that takes the whole argument list), the index
/// of the scope it captured when it was defined, and its unevaluated
/// body.
pub struct Function {
    pub args: Vec<String>,
    pub variadic: bool,
    pub envt: usize,
    pub form: Box<Val>,
}

/// A callable value: native, or user-defined.
pub enum Lambda {
    Builtin(Builtin),
    Function(Box<Function>),
}

/// A runtime value: atoms, collections, callables. Floats are IEEE 754
/// double bit patterns (see [`crate::floats`]); scope references inside
/// callables are indices into the interpreter's scope arena.
pub enum Val {
    Nil,
    True,
    False,
    Int(i64),
    Float(u64),
    Str(String),
    Keyword(String),
    Symbol(String),
    List(Vec<Val>),
    Vector(Vec<Val>),
    Table(Vec<(Val, Val)>),
    Func(Lambda),
}

/// The mathematical model of a value.
#[verifier::ext_equal]
pub enum ValSpec {
    Nil,
    True,
    False,
    Int(int),
    Float(u64),
    Str(Seq<char>),
    Keyword(Seq<char>),
    Symbol(Seq<char>),
    List(Seq<ValSpec>),
    Vector(Seq<ValSpec>),
    Table(Seq<(ValSpec, ValSpec)>),
    Builtin(Builtin),
    Closure { params: Seq<Seq<char>>, variadic: bool, envt: int, body: Box<ValSpec> },
}

pub open spec fn val_view(v: Val) -> ValSpec
    decreases v,
    via val_view_dec
{
    match v {
        Val::Nil => ValSpec::Nil,
        Val::True => ValSpec::True,
        Val::False => ValSpec::False,
        Val::Int(n) => ValSpec::Int(n as int),
        Val::Float(b) => ValSpec::Float(b),
        Val::Str(s) => ValSpec::Str(s@),
        Val::Keyword(s) => ValSpec::Keyword(s@),
        Val::Symbol(s) => ValSpec::Symbol(s@),
        Val::List(items) => ValSpec::List(vals_view(items@)),
        Val::Vector(items) => ValSpec::Vector(vals_view(items@)),
        Val::Table(pairs) => ValSpec::Table(pairs_view(pairs@)),
        Val::Func(Lambda::Builtin(b)) => ValSpec::Builtin(b),
        Val::Func(Lambda::Function(f)) => ValSpec::Closure {
            params: f.args.deep_view(),
            variadic: f.variadic,
            envt: f.envt as int,
            body: Box::new(val_view(*f.form)),
        },
    }
}

pub open spec fn vals_view(s: Seq<Val>) -> Seq<ValSpec>
    decreases s,
    via vals_view_dec
{
    if s.len() == 0 {
        Seq::empty()
    } else {
        vals_view(s.drop_last()).push(val_view(s.last()))
    }
}

pub open spec fn pairs_view(s: Seq<(Val, Val)>) -> Seq<(ValSpec, ValSpec)>
    decreases s,
    via pairs_view_dec
{
    if s.len() == 0 {
        Seq::empty()
    } else {
        pairs_view(s.drop_last()).push((val_view(s.last().0), val_view(s.last().1)))
    }
}

#[via_fn]
proof fn val_view_dec(v: Val) {
    match v {
        Val::List(items) => {
            assert(decreases_to!(v => v->List_0));
            assert(decreases_to!(v->List_0 => v->List_0@));
        },
        Val::Vector(items) => {
            assert(decreases_to!(v => v->Vector_0));
            assert(decreases_to!(v->Vector_0 => v->Vector_0@));
        },
        Val::Table(pairs) => {
            assert(decreases_to!(v => v->Table_0));
            assert(decreases_to!(v->Table_0 => v->Table_0@));
        },
        Val::Func(Lambda::Function(f)) => {
            assert(decreases_to!(v => v->Func_0));
            assert(decreases_to!(v->Func_0 => v->Func_0->Function_0));
            assert(decreases_to!(v->Func_0->Function_0 => (*v->Func_0->Function_0).form));
        },
        _ => {},
    }
}

#[via_fn]
proof fn vals_view_dec(s: Seq<Val>) {
    if s.len() > 0 {
        assert(decreases_to!(s => s[s.len() - 1]));
    }
}

#[via_fn]
proof fn pairs_view_dec(s: Seq<(Val, Val)>) {
    if s.len() > 0 {
        assert(decreases_to!(s => s[s.len() - 1]));
        assert(decreases_to!(s[s.len() - 1] => s[s.len() - 1].0));
    }
}

impl View for Val {
    type V = ValSpec;

    open spec fn view(&self) -> ValSpec {
        val_view(*self)
    }
}

impl DeepView for Val {
    type V = ValSpec;

    open spec fn deep_view(&self) -> ValSpec {
        val_view(*self)
    }
}

/// The element views of a value sequence, pointwise.
pub proof fn lemma_vals_view(s: Seq<Val>)
    ensures
        vals_view(s).len() == s.len(),
        forall|i: int| 0 <= i < s.len() ==> vals_view(s)[i] == val_view(s[i]),
    decreases s.len(),
{
    if s.len() > 0 {
        lemma_vals_view(s.drop_last());
    }
}

/// The pair views of a pair sequence, pointwise.
pub proof fn lemma_pairs_view(s: Seq<(Val, Val)>)
    ensures
        pairs_view(s).len() == s.len(),
        forall|i: int| 0 <= i < s.len() ==> pairs_view(s)[i]
            == (val_view(s[i].0), val_view(s[i].1)),
    decreases s.len(),
{
    if s.len() > 0 {
        lemma_pairs_view(s.drop_last());
    }
}

/// Validity of a value against a scope arena of `n` scopes: every
/// captured scope index inside it is in bounds.
pub open spec fn val_ok(v: ValSpec, n: int) -> bool
    decreases v,
{
    match v {
        ValSpec::List(s) => vals_ok(s, n),
        ValSpec::Vector(s) => vals_ok(s, n),
        ValSpec::Table(ps) => pairs_ok(ps, n),
        ValSpec::Closure { envt, body, .. } => 0 <= envt < n && val_ok(*body, n),
        _ => true,
    }
}

pub open spec fn vals_ok(s: Seq<ValSpec>, n: int) -> bool
    decreases s,
{
    if s.len() == 0 {
        true
    } else {
        vals_ok(s.drop_last(), n) && val_ok(s.last(), n)
    }
}

pub open spec fn pairs_ok(s: Seq<(ValSpec, ValSpec)>, n: int) -> bool
    decreases s,
    via pairs_ok_dec
{
    if s.len() == 0 {
        true
    } else {
        pairs_ok(s.drop_last(), n) && val_ok(s.last().0, n) && val_ok(s.last().1, n)
    }
}

#[via_fn]
proof fn pairs_ok_dec(s: Seq<(ValSpec, ValSpec)>, n: int) {
    if s.len() > 0 {
        assert(decreases_to!(s => s[s.len() - 1]));
        assert(decreases_to!(s[s.len() - 1] => s[s.len() - 1].0));
    }
}

/// Pointwise characterization of `vals_ok`.
pub proof fn lemma_vals_ok(s: Seq<ValSpec>, n: int)
    ensures
        vals_ok(s, n) == (forall|i: int| 0 <= i < s.len() ==> val_ok(s[i], n)),
    decreases s.len(),
{
    if s.len() > 0 {
        lemma_vals_ok(s.drop_last(), n);
        assert(forall|i: int| 0 <= i < s.len() - 1 ==> s.drop_last()[i] == s[i]);
        assert(s.last() == s[s.len() - 1]);
    }
}

/// Pointwise characterization of `pairs_ok`.
pub proof fn lemma_pairs_ok(s: Seq<(ValSpec, ValSpec)>, n: int)
    ensures
        pairs_ok(s, n) == (forall|i: int| 0 <= i < s.len()
            ==> val_ok(s[i].0, n) && val_ok(s[i].1, n)),
    decreases s.len(),
{
    if s.len() > 0 {
        lemma_pairs_ok(s.drop_last(), n);
        assert(forall|i: int| 0 <= i < s.len() - 1 ==> s.drop_last()[i] == s[i]);
        assert(s.last() == s[s.len() - 1]);
    }
}

/// A value valid against `n` scopes is valid against any larger arena.
pub proof fn lemma_val_ok_widen(v: ValSpec, n: int, m: int)
    requires
        val_ok(v, n),
        n <= m,
    ensures
        val_ok(v, m),
    decreases v,
{
    match v {
        ValSpec::List(s) => lemma_vals_ok_widen(s, n, m),
        ValSpec::Vector(s) => lemma_vals_ok_widen(s, n, m),
        ValSpec::Table(ps) => lemma_pairs_ok_widen(ps, n, m),
        ValSpec::Closure { body, .. } => lemma_val_ok_widen(*body, n, m),
        _ => {},
    }
}

pub proof fn lemma_vals_ok_widen(s: Seq<ValSpec>, n: int, m: int)
    requires
        vals_ok(s, n),
        n <= m,
    ensures
        vals_ok(s, m),
    decreases s,
{
    if s.len() > 0 {
        lemma_vals_ok_widen(s.drop_last(), n, m);
        lemma_val_ok_widen(s.last(), n, m);
    }
}

pub proof fn lemma_pairs_ok_widen(s: Seq<(ValSpec, ValSpec)>, n: int, m: int)
    requires
        pairs_ok(s, n),
        n <= m,
    ensures
        pairs_ok(s, m),
    decreases s,
{
    if s.len() > 0 {
        assert(decreases_to!(s => s[s.len() - 1]));
        lemma_pairs_ok_widen(s.drop_last(), n, m);
        lemma_val_ok_widen(s.last().0, n, m);
        lemma_val_ok_widen(s.last().1, n, m);
    }
}

/// Whether a value holds no float anywhere. Printing and parsing are
/// exactly specified on such values.
pub open spec fn float_free(v: ValSpec) -> bool
    decreases v,
{
    match v {
        ValSpec::Float(_) => false,
        ValSpec::List(s) => vals_float_free(s),
        ValSpec::Vector(s) => vals_float_free(s),
        ValSpec::Table(ps) => pairs_float_free(ps),
        ValSpec::Closure { body, .. } => float_free(*body),
        _ => true,
    }
}

pub open spec fn vals_float_free(s: Seq<ValSpec>) -> bool
    decreases s,
{
    if s.len() == 0 {
        true
    } else {
        vals_float_free(s.drop_last()) && float_free(s.last())
    }
}

pub open spec fn pairs_float_free(s: Seq<(ValSpec, ValSpec)>) -> bool
    decreases s,
    via pairs_float_free_dec
{
    if s.len() == 0 {
        true
    } else {
        pairs_float_free(s.drop_last()) && float_free(s.last().0) && float_free(s.last().1)
    }
}

#[via_fn]
proof fn pairs_float_free_dec(s: Seq<(ValSpec, ValSpec)>) {
    if s.len() > 0 {
        assert(decreases_to!(s => s[s.len() - 1]));
        assert(decreases_to!(s[s.len() - 1] => s[s.len() - 1].0));
    }
}

/// Pointwise characterization of `vals_float_free`.
pub proof fn lemma_vals_float_free(s: Seq<ValSpec>)
    ensures
        vals_float_free(s) == (forall|i: int| 0 <= i < s.len() ==> float_free(s[i])),
    decreases s.len(),
{
    if s.len() > 0 {
        lemma_vals_float_free(s.drop_last());
        assert(forall|i: int| 0 <= i < s.len() - 1 ==> s.drop_last()[i] == s[i]);
        assert(s.last() == s[s.len() - 1]);
    }
}

/// Pointwise characterization of `pairs_float_free`.
pub proof fn lemma_pairs_float_free(s: Seq<(ValSpec, ValSpec)>)
    ensures
        pairs_float_free(s) == (forall|i: int| 0 <= i < s.len()
            ==> float_free(s[i].0) && float_free(s[i].1)),
    decreases s.len(),
{
    if s.len() > 0 {
        lemma_pairs_float_free(s.drop_last());
        assert(forall|i: int| 0 <= i < s.len() - 1 ==> s.drop_last()[i] == s[i]);
        assert(s.last() == s[s.len() - 1]);
    }
}

/// Structural equality of values, as the `=` primitive decides it:
/// atoms and collections compare by content (floats by
/// [`crate::floats::f64_eq`], maps as equal key-to-value associations
/// whatever their insertion order). A native callable equals the same
/// native callable; user-defined callables never compare equal: the
/// value model copies closures, so they have no stable identity to
/// compare by.
pub open spec fn vals_equal(a: ValSpec, b: ValSpec) -> bool
    decreases a, 0int, 0int,
{
    match (a, b) {
        (ValSpec::Nil, ValSpec::Nil) => true,
        (ValSpec::True, ValSpec::True) => true,
        (ValSpec::False, ValSpec::False) => true,
        (ValSpec::Int(x), ValSpec::Int(y)) => x == y,
        (ValSpec::Float(x), ValSpec::Float(y)) => crate::floats::f64_eq(x, y),
        (ValSpec::Str(x), ValSpec::Str(y)) => x == y,
        (ValSpec::Keyword(x), ValSpec::Keyword(y)) => x == y,
        (ValSpec::Symbol(x), ValSpec::Symbol(y)) => x == y,
        (ValSpec::List(x), ValSpec::List(y)) => seq_vals_equal(x, y),
        (ValSpec::Vector(x), ValSpec::Vector(y)) => seq_vals_equal(x, y),
        (ValSpec::Table(x), ValSpec::Table(y)) => x.len() == y.len() && table_sub(x, y),
        (ValSpec::Builtin(x), ValSpec::Builtin(y)) => x == y,
        _ => false,
    }
}

/// Every binding of `x` is answered identically by `y`'s first
/// matching key.
pub open spec fn table_sub(x: Seq<(ValSpec, ValSpec)>, y: Seq<(ValSpec, ValSpec)>) -> bool
    decreases x, 0int, 0int,
{
    if x.len() == 0 {
        true
    } else {
        table_sub(x.drop_last(), y) && table_lookup(y, x.last())
    }
}

/// Whether the first entry of `ys` whose key equals the pair's key
/// carries an equal value.
pub open spec fn table_lookup(ys: Seq<(ValSpec, ValSpec)>, p: (ValSpec, ValSpec)) -> bool
    decreases p, 0int, ys.len(),
{
    if ys.len() == 0 {
        false
    } else if vals_equal(p.0, ys[0].0) {
        vals_equal(p.1, ys[0].1)
    } else {
        table_lookup(ys.drop_first(), p)
    }
}

/// If the first `j` entries of `ys` have keys unequal to the pair's,
/// the lookup continues past them.
pub proof fn lemma_table_lookup_skip(ys: Seq<(ValSpec, ValSpec)>, j: int,
    p: (ValSpec, ValSpec))
    requires
        0 <= j <= ys.len(),
        forall|m: int| 0 <= m < j ==> !vals_equal(p.0, (#[trigger] ys[m]).0),
    ensures
        table_lookup(ys, p) == table_lookup(ys.skip(j), p),
    decreases j,
{
    if j > 0 {
        lemma_table_lookup_skip(ys.drop_first(), j - 1, p);
        assert(ys.drop_first().skip(j - 1) =~= ys.skip(j));
        assert(forall|m: int| 0 <= m < j - 1 ==> ys.drop_first()[m] == ys[m + 1]);
    } else {
        assert(ys.skip(0) =~= ys);
    }
}

/// Pointwise characterization of `table_sub`.
pub proof fn lemma_table_sub(x: Seq<(ValSpec, ValSpec)>, y: Seq<(ValSpec, ValSpec)>)
    ensures
        table_sub(x, y) == (forall|i: int| 0 <= i < x.len()
            ==> table_lookup(y, #[trigger] x[i])),
    decreases x.len(),
{
    if x.len() > 0 {
        lemma_table_sub(x.drop_last(), y);
        assert(forall|i: int| 0 <= i < x.len() - 1 ==> x.drop_last()[i] == x[i]);
        assert(x.last() == x[x.len() - 1]);
    }
}

pub open spec fn seq_vals_equal(x: Seq<ValSpec>, y: Seq<ValSpec>) -> bool
    decreases x, 0int, 0int,
{
    x.len() == y.len() && (x.len() == 0 || (seq_vals_equal(x.drop_last(), y.drop_last())
        && vals_equal(x.last(), y.last())))
}

/// Pointwise characterization of `seq_vals_equal`.
pub proof fn lemma_seq_vals_equal(x: Seq<ValSpec>, y: Seq<ValSpec>)
    ensures
        seq_vals_equal(x, y) == (x.len() == y.len() && forall|i: int| 0 <= i < x.len()
            ==> vals_equal(x[i], y[i])),
    decreases x.len(),
{
    if x.len() > 0 && x.len() == y.len() {
        lemma_seq_vals_equal(x.drop_last(), y.drop_last());
        assert(forall|i: int| 0 <= i < x.len() - 1 ==> x.drop_last()[i] == x[i]);
        assert(forall|i: int| 0 <= i < y.len() - 1 ==> y.drop_last()[i] == y[i]);
        assert(x.last() == x[x.len() - 1] && y.last() == y[y.len() - 1]);
    }
}

/// Decide structural equality of two values.
pub fn val_eq(a: &Val, b: &Val) -> (r: bool)
    ensures
        r == vals_equal(a@, b@),
    decreases *a,
{
    match (a, b) {
        (Val::Nil, Val::Nil) => true,
        (Val::True, Val::True) => true,
        (Val::False, Val::False) => true,
        (Val::Int(x), Val::Int(y)) => *x == *y,
        (Val::Float(x), Val::Float(y)) => crate::floats::eq_bits(*x, *y),
        (Val::Str(x), Val::Str(y)) => *x == *y,
        (Val::Keyword(x), Val::Keyword(y)) => *x == *y,
        (Val::Symbol(x), Val::Symbol(y)) => *x == *y,
        (Val::List(x), Val::List(y)) => {
            proof {
                assert(decreases_to!(*a => a->List_0));
                assert(decreases_to!(a->List_0 => a->List_0@));
            }
            vec_vals_eq(x, y)
        },
        (Val::Vector(x), Val::Vector(y)) => {
            proof {
                assert(decreases_to!(*a => a->Vector_0));
                assert(decreases_to!(a->Vector_0 => a->Vector_0@));
            }
            vec_vals_eq(x, y)
        },
        (Val::Table(x), Val::Table(y)) => {
            proof {
                assert(decreases_to!(*a => a->Table_0));
                assert(decreases_to!(a->Table_0 => a->Table_0@));
            }
            vec_pairs_eq(x, y)
        },
        (Val::Func(Lambda::Builtin(x)), Val::Func(Lambda::Builtin(y))) => *x == *y,
        _ => {
            proof {
                assert(!vals_equal(a@, b@));
            }
            false
        },
    }
}

/// Decide structural equality of two value sequences, elementwise.
fn vec_vals_eq(x: &Vec<Val>, y: &Vec<Val>) -> (r: bool)
    ensures
        r == seq_vals_equal(vals_view(x@), vals_view(y@)),
    decreases x@,
{
    if x.len() != y.len() {
        proof {
            lemma_vals_view(x@);
            lemma_vals_view(y@);
        }
        return false;
    }
    let mut i: usize = 0;
    while i < x.len()
        invariant
            i <= x@.len(),
            x@.len() == y@.len(),
            forall|j: int| 0 <= j < i ==> vals_equal(val_view(x@[j]), val_view(y@[j])),
        decreases x@.len() - i,
    {
        proof {
            assert(decreases_to!(x@ => x@[i as int]));
        }
        if !val_eq(&x[i], &y[i]) {
            proof {
                lemma_vals_view(x@);
                lemma_vals_view(y@);
                lemma_seq_vals_equal(vals_view(x@), vals_view(y@));
                assert(!vals_equal(vals_view(x@)[i as int], vals_view(y@)[i as int]));
            }
            return false;
        }
        i = i + 1;
    }
    proof {
        lemma_vals_view(x@);
        lemma_vals_view(y@);
        lemma_seq_vals_equal(vals_view(x@), vals_view(y@));
    }
    true
}

/// Decide equality of two pair sequences as key-to-value
/// associations: equal lengths, and every binding of the first
/// answered identically by the second's first matching key.
fn vec_pairs_eq(x: &Vec<(Val, Val)>, y: &Vec<(Val, Val)>) -> (r: bool)
    ensures
        r == (pairs_view(x@).len() == pairs_view(y@).len()
            && table_sub(pairs_view(x@), pairs_view(y@))),
    decreases x@,
{
    let ghost xv = pairs_view(x@);
    let ghost yv = pairs_view(y@);
    proof {
        lemma_pairs_view(x@);
        lemma_pairs_view(y@);
        lemma_table_sub(xv, yv);
    }
    if x.len() != y.len() {
        return false;
    }
    let mut i: usize = 0;
    proof {
        lemma_table_sub(xv, yv);
    }
    while i < x.len()
        invariant
            i <= x@.len(),
            x@.len() == y@.len(),
            xv == pairs_view(x@),
            yv == pairs_view(y@),
            xv.len() == x@.len(),
            yv.len() == y@.len(),
            forall|m: int| 0 <= m < x@.len()
                ==> xv[m] == (val_view(x@[m].0), val_view(x@[m].1)),
            forall|m: int| 0 <= m < y@.len()
                ==> yv[m] == (val_view(y@[m].0), val_view(y@[m].1)),
            forall|m: int| 0 <= m < i ==> table_lookup(yv, #[trigger] xv[m]),
        decreases x@.len() - i,
    {
        proof {
            assert(decreases_to!(x@ => x@[i as int]));
            assert(decreases_to!(x@[i as int] => x@[i as int].0));
        }
        let mut j: usize = 0;
        let mut found = false;
        let mut value_eq = false;
        while j < y.len() && !found
            invariant
                i < x@.len(),
                x@.len() == y@.len(),
                xv == pairs_view(x@),
                yv == pairs_view(y@),
                xv.len() == x@.len(),
                yv.len() == y@.len(),
                forall|m: int| 0 <= m < x@.len()
                    ==> xv[m] == (val_view(x@[m].0), val_view(x@[m].1)),
                forall|m: int| 0 <= m < y@.len()
                    ==> yv[m] == (val_view(y@[m].0), val_view(y@[m].1)),
                j <= y@.len(),
                !found ==> forall|m: int| 0 <= m < j
                    ==> !vals_equal(xv[i as int].0, (#[trigger] yv[m]).0),
                found ==> j < y@.len() && vals_equal(xv[i as int].0, yv[j as int].0)
                    && (forall|m: int| 0 <= m < j
                        ==> !vals_equal(xv[i as int].0, (#[trigger] yv[m]).0))
                    && value_eq == vals_equal(xv[i as int].1, yv[j as int].1),
            decreases y@.len() - j, (if found { 0int } else { 1int }),
        {
            proof {
                assert(decreases_to!(x@ => x@[i as int]));
                assert(decreases_to!(x@[i as int] => x@[i as int].0));
            }
            if val_eq(&x[i].0, &y[j].0) {
                value_eq = val_eq(&x[i].1, &y[j].1);
                found = true;
            } else {
                j = j + 1;
            }
        }
        proof {
            if found {
                lemma_table_lookup_skip(yv, j as int, xv[i as int]);
                assert(yv.skip(j as int)[0] == yv[j as int]);
                assert(table_lookup(yv, xv[i as int]) == value_eq);
            } else {
                lemma_table_lookup_skip(yv, y@.len() as int, xv[i as int]);
                assert(yv.skip(yv.len() as int) =~= Seq::<(ValSpec, ValSpec)>::empty());
                assert(!table_lookup(yv, xv[i as int]));
            }
        }
        if !found {
            proof {
                lemma_table_sub(xv, yv);
            }
            return false;
        }
        if !value_eq {
            proof {
                lemma_table_sub(xv, yv);
            }
            return false;
        }
        i = i + 1;
    }
    proof {
        lemma_table_sub(xv, yv);
    }
    true
}

impl Clone for Val {
    /// A deep copy with the same model.
    fn clone(&self) -> (res: Val)
        ensures
            res@ == self@,
        decreases *self,
    {
        match self {
            Val::Nil => Val::Nil,
            Val::True => Val::True,
            Val::False => Val::False,
            Val::Int(n) => Val::Int(*n),
            Val::Float(b) => Val::Float(*b),
            Val::Str(s) => Val::Str(s.clone()),
            Val::Keyword(s) => Val::Keyword(s.clone()),
            Val::Symbol(s) => Val::Symbol(s.clone()),
            Val::List(items) => {
                proof {
                    assert(decreases_to!(*self => self->List_0));
                    assert(decreases_to!(self->List_0 => self->List_0@));
                }
                Val::List(clone_vals(items))
            },
            Val::Vector(items) => {
                proof {
                    assert(decreases_to!(*self => self->Vector_0));
                    assert(decreases_to!(self->Vector_0 => self->Vector_0@));
                }
                Val::Vector(clone_vals(items))
            },
            Val::Table(pairs) => {
                proof {
                    assert(decreases_to!(*self => self->Table_0));
                    assert(decreases_to!(self->Table_0 => self->Table_0@));
                }
                Val::Table(clone_pairs(pairs))
            },
            Val::Func(Lambda::Builtin(b)) => Val::Func(Lambda::Builtin(*b)),
            Val::Func(Lambda::Function(f)) => {
                proof {
                    assert(decreases_to!(*self => self->Func_0));
                    assert(decreases_to!(self->Func_0 => self->Func_0->Function_0));
                    assert(decreases_to!(
                        self->Func_0->Function_0 => (*self->Func_0->Function_0).form));
                }
                let body: Val = (*f.form).clone();
                let args: Vec<String> = f.args.clone();
                proof {
                    assert(args.deep_view() =~= f.args.deep_view());
                }
                Val::Func(Lambda::Function(Box::new(Function {
                    args,
                    variadic: f.variadic,
                    envt: f.envt,
                    form: Box::new(body),
                })))
            },
        }
    }
}

/// Deep-copy a vector of values, keeping the model.
pub(crate) fn clone_vals(items: &Vec<Val>) -> (r: Vec<Val>)
    ensures
        vals_view(r@) == vals_view(items@),
    decreases items@,
{
    let mut out: Vec<Val> = Vec::new();
    let mut i: usize = 0;
    while i < items.len()
        invariant
            i <= items@.len(),
            out@.len() == i,
            forall|j: int| 0 <= j < i ==> val_view(out@[j]) == val_view(items@[j]),
        decreases items@.len() - i,
    {
        proof {
            assert(decreases_to!(items@ => items@[i as int]));
        }
        out.push(items[i].clone());
        i = i + 1;
    }
    proof {
        lemma_vals_view(out@);
        lemma_vals_view(items@);
        assert(vals_view(out@) =~= vals_view(items@));
    }
    out
}

/// Deep-copy a vector of pairs, keeping the model.
fn clone_pairs(pairs: &Vec<(Val, Val)>) -> (r: Vec<(Val, Val)>)
    ensures
        pairs_view(r@) == pairs_view(pairs@),
    decreases pairs@,
{
    let mut out: Vec<(Val, Val)> = Vec::new();
    let mut i: usize = 0;
    while i < pairs.len()
        invariant
            i <= pairs@.len(),
            out@.len() == i,
            forall|j: int| 0 <= j < i ==> val_view(out@[j].0) == val_view(pairs@[j].0)
                && val_view(out@[j].1) == val_view(pairs@[j].1),
        decreases pairs@.len() - i,
    {
        proof {
            assert(decreases_to!(pairs@ => pairs@[i as int]));
            assert(decreases_to!(pairs@[i as int] => pairs@[i as int].0));
        }
        let k = pairs[i].0.clone();
        let v = pairs[i].1.clone();
        out.push((k, v));
        i = i + 1;
    }
    proof {
        lemma_pairs_view(out@);
        lemma_pairs_view(pairs@);
        assert(pairs_view(out@) =~= pairs_view(pairs@));
    }
    out
}

impl Val {
    /// The symbol's name, or an argument error for anything else.
    pub fn unwrap_symbol(&self) -> (r: Result<String, MalErr>)
        ensures
            match r {
                Ok(s) => self@ is Symbol && s@ == self@->Symbol_0,
                Err(e) => !(self@ is Symbol) && e.kind == crate::error::ErrType::Arg
                    && e.msg@ == "expected a symbol"@,
            },
    {
        match self {
            Val::Symbol(s) => Ok(s.clone()),
            _ => crate::error::rerr(crate::error::ErrType::Arg, "expected a symbol"),
        }
    }
}

/// Truthiness: everything is truthy but `nil` and `false`.
pub open spec fn is_truthy(v: ValSpec) -> bool {
    !(v == ValSpec::Nil || v == ValSpec::False)
}

/// Decide truthiness: everything is truthy but `nil` and `false`; in
/// particular the integer `0`, the empty string and the empty list are
/// all truthy.
pub fn truthy(v: &Val) -> (r: bool)
    ensures
        r == is_truthy(v@),
{
    !(matches!(v, Val::Nil) || matches!(v, Val::False))
}

} // verus!

verus! {

/// The outcome of an evaluation step as the semantics sees it: a
/// value, or an error's kind and innermost message. Context lines are
/// display-side decoration (see `MalErr::in_form`) and carry no
/// semantic weight.
pub enum Outcome {
    Val(ValSpec),
    Fail(crate::error::ErrType, Seq<char>),
}

/// The outcome a result denotes.
pub open spec fn outcome_of(r: Res) -> Outcome {
    match r {
        Ok(v) => Outcome::Val(val_view(v)),
        Err(e) => Outcome::Fail(e.kind, e.msg@),
    }
}

} // verus!
