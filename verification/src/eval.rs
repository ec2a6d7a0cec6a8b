//! The evaluator: the central recursive procedure interpreting a value
//! as code against a scope chain.
//!
//! Evaluation carries a fuel bound: every recursive step burns one
//! unit, and exhausting it yields a clean evaluation error instead of
//! unbounded recursion. A call in tail position recurses like any
//! other call, so the fuel a driver supplies bounds the evaluation
//! steps (and with them the recursion depth) for one form; the driver
//! picks a fuel its stack can carry. Special forms (`def!`,
//! `let`/`let*`, `do`, `if`, `fn`/`fn*`) are dispatched on the head
//! symbol; any other non-empty list evaluates head and arguments left
//! to right and applies the callable head.
//!
//! The language's semantics is written down as a fuel-indexed
//! evaluation relation ([`eval_rel`]) over state snapshots; every
//! evaluator function ensures that its outcome and final state stand
//! in that relation to its inputs. The relation is a relation, not a
//! function, because the host computes float arithmetic and float
//! text: wherever a float result or a rendered float enters, the
//! relation pins its shape and everything around it, not its bits.

use vstd::prelude::*;

use crate::env::{lookup_in, push_child, set_in, tbl_get, Interp, ScopeSpec, StateS};
use crate::error::{rerr, ErrType, MalErr};
use crate::floats::FloatOps;
use crate::text::streq;
use crate::types::{
    lemma_val_ok_widen, lemma_vals_ok, lemma_vals_view, lemma_pairs_ok,
    lemma_pairs_view, outcome_of, pairs_ok, pairs_view, truthy, val_ok, val_view, vals_ok,
    vals_view, Function, Lambda, Outcome, Res, Val, ValSpec,
};

verus! {

broadcast use vstd::seq::group_seq_axioms;

/// Forms that evaluate to themselves without touching the environment.
pub open spec fn is_atom_form(v: ValSpec) -> bool {
    !(v is List || v is Vector || v is Table || v is Symbol)
}

/// The outcome of running out of fuel.
pub open spec fn depth_fail() -> Outcome {
    Outcome::Fail(ErrType::Eval, "evaluation depth exceeded"@)
}

/// An argument-kind failure with the given message.
pub open spec fn arg_fail(msg: Seq<char>) -> Outcome {
    Outcome::Fail(ErrType::Arg, msg)
}

/// The outcome of evaluating a run of forms for their values.
#[verifier::ext_equal]
pub enum VecOut {
    Vals(Seq<ValSpec>),
    Fail(ErrType, Seq<char>),
}

/// The outcome of evaluating a map's values.
#[verifier::ext_equal]
pub enum PairsOut {
    Pairs(Seq<(ValSpec, ValSpec)>),
    Fail(ErrType, Seq<char>),
}

/// The outcome of installing a `let`'s bindings.
#[verifier::ext_equal]
pub enum BindOut {
    Done,
    Fail(ErrType, Seq<char>),
}

pub open spec fn vecout_of(r: Result<Vec<Val>, MalErr>) -> VecOut {
    match r {
        Ok(vs) => VecOut::Vals(vals_view(vs@)),
        Err(e) => VecOut::Fail(e.kind, e.msg@),
    }
}

pub open spec fn pairsout_of(r: Result<Vec<(Val, Val)>, MalErr>) -> PairsOut {
    match r {
        Ok(ps) => PairsOut::Pairs(pairs_view(ps@)),
        Err(e) => PairsOut::Fail(e.kind, e.msg@),
    }
}

pub open spec fn bindout_of(r: Result<(), MalErr>) -> BindOut {
    match r {
        Ok(_) => BindOut::Done,
        Err(e) => BindOut::Fail(e.kind, e.msg@),
    }
}

/// What a `fn` form's parameter list denotes: names with a variadic
/// flag, or the error message it earns.
#[verifier::ext_equal]
pub enum ParamsR {
    Ps(Seq<Seq<char>>, bool),
    Bad(Seq<char>),
}

/// The names of a parameter sequence; the first non-symbol is an
/// error.
pub open spec fn sym_names(s: Seq<ValSpec>) -> ParamsR
    decreases s.len(),
{
    if s.len() == 0 {
        ParamsR::Ps(Seq::empty(), false)
    } else if !(s[0] is Symbol) {
        ParamsR::Bad("expected a symbol"@)
    } else {
        match sym_names(s.drop_first()) {
            ParamsR::Ps(ns, _) => ParamsR::Ps(seq![s[0]->Symbol_0] + ns, false),
            ParamsR::Bad(m) => ParamsR::Bad(m),
        }
    }
}

/// A `fn` form's parameter shape: a bare symbol takes the whole
/// argument list, `nil` takes none, a list or vector of symbols takes
/// fixed positional parameters.
pub open spec fn params_of(v: ValSpec) -> ParamsR {
    match v {
        ValSpec::Nil => ParamsR::Ps(Seq::empty(), false),
        ValSpec::Symbol(s) => ParamsR::Ps(seq![s], true),
        ValSpec::List(ps) => sym_names(ps),
        ValSpec::Vector(ps) => sym_names(ps),
        _ => ParamsR::Bad("expected an argument list"@),
    }
}

/// What a `fn`/`fn*` form yields: the closure capturing the scope and
/// the unevaluated body, or the argument error its parameter form
/// earns.
pub open spec fn closure_out(envt: int, items: Seq<ValSpec>) -> Outcome {
    if items.len() < 3 {
        arg_fail("fn takes parameters and a body"@)
    } else {
        match params_of(items[1]) {
            ParamsR::Ps(ns, va) => Outcome::Val(ValSpec::Closure {
                params: ns,
                variadic: va,
                envt,
                body: Box::new(items[2]),
            }),
            ParamsR::Bad(m) => arg_fail(m),
        }
    }
}

/// The evaluation relation: evaluating `form` in scope `envt` starting
/// from state `s0` with the given fuel may end in state `s1` with
/// outcome `r`. Atoms are themselves; a symbol resolves through the
/// chain or fails naming itself; an empty list is itself; vectors and
/// maps evaluate elements and values in order; any other list is a
/// special form or an application.
pub open spec fn eval_rel(s0: StateS, envt: int, form: ValSpec, fuel: nat, s1: StateS,
    r: Outcome) -> bool
    decreases fuel, 0int, 0int,
{
    match form {
        ValSpec::Symbol(name) => s1 == s0 && (match lookup_in(s0.scopes, envt, name) {
            Some(v) => r == Outcome::Val(v),
            None => r == Outcome::Fail(ErrType::Eval, seq!['\''] + name + "' not found"@),
        }),
        ValSpec::List(items) => {
            if items.len() == 0 {
                s1 == s0 && r == Outcome::Val(form)
            } else if fuel == 0 {
                s1 == s0 && r == depth_fail()
            } else {
                apply_rel(s0, envt, items, (fuel - 1) as nat, s1, r)
            }
        },
        ValSpec::Vector(items) => {
            if fuel == 0 {
                s1 == s0 && r == depth_fail()
            } else {
                vector_ex(s0, envt, items, (fuel - 1) as nat, s1, r)
            }
        },
        ValSpec::Table(ps) => {
            if fuel == 0 {
                s1 == s0 && r == depth_fail()
            } else {
                table_ex(s0, envt, ps, (fuel - 1) as nat, s1, r)
            }
        },
        _ => s1 == s0 && r == Outcome::Val(form),
    }
}

/// A vector form's elements evaluated, wrapped back as a vector.
pub open spec fn vector_ex(s0: StateS, envt: int, items: Seq<ValSpec>, fuel: nat,
    s1: StateS, r: Outcome) -> bool
    decreases fuel, 2int, 0int,
{
    exists|o: VecOut|
        #![trigger vstd::pervasive::trigger(o)]
        evalvec_rel(s0, envt, items, fuel, s1, o)
        && (o is Vals ==> r == Outcome::Val(ValSpec::Vector(o->Vals_0)))
        && (o is Fail ==> r == Outcome::Fail(o->Fail_0, o->Fail_1))
}

/// A map form's values evaluated, wrapped back as a map.
pub open spec fn table_ex(s0: StateS, envt: int, ps: Seq<(ValSpec, ValSpec)>, fuel: nat,
    s1: StateS, r: Outcome) -> bool
    decreases fuel, 2int, 0int,
{
    exists|o: PairsOut|
        #![trigger vstd::pervasive::trigger(o)]
        evalpairs_rel(s0, envt, ps, fuel, s1, o)
        && (o is Pairs ==> r == Outcome::Val(ValSpec::Table(o->Pairs_0)))
        && (o is Fail ==> r == Outcome::Fail(o->Fail_0, o->Fail_1))
}

/// Evaluating a run of forms left to right; the first failure stops
/// and propagates.
pub open spec fn evalvec_rel(s0: StateS, envt: int, items: Seq<ValSpec>, fuel: nat,
    s1: StateS, o: VecOut) -> bool
    decreases fuel, 1int, items.len(),
{
    if fuel == 0 {
        s1 == s0 && o == VecOut::Fail(ErrType::Eval, "evaluation depth exceeded"@)
    } else if items.len() == 0 {
        s1 == s0 && o == VecOut::Vals(Seq::empty())
    } else {
        exists|sm: StateS, r1: Outcome|
            #![trigger vstd::pervasive::trigger(sm), vstd::pervasive::trigger(r1)]
            eval_rel(s0, envt, items[0], (fuel - 1) as nat, sm, r1)
            && (r1 is Fail ==> s1 == sm
                && o == VecOut::Fail(r1->Fail_0, r1->Fail_1))
            && (r1 is Val ==> exists|o2: VecOut|
                #![trigger vstd::pervasive::trigger(o2)]
                evalvec_rel(sm, envt, items.drop_first(), fuel, s1, o2)
                && (o2 is Vals ==> o == VecOut::Vals(seq![r1->Val_0] + o2->Vals_0))
                && (o2 is Fail ==> o == o2))
    }
}

/// Evaluating a map's values left to right; keys stay unevaluated.
pub open spec fn evalpairs_rel(s0: StateS, envt: int, ps: Seq<(ValSpec, ValSpec)>,
    fuel: nat, s1: StateS, o: PairsOut) -> bool
    decreases fuel, 1int, ps.len(),
{
    if fuel == 0 {
        s1 == s0 && o == PairsOut::Fail(ErrType::Eval, "evaluation depth exceeded"@)
    } else if ps.len() == 0 {
        s1 == s0 && o == PairsOut::Pairs(Seq::empty())
    } else {
        exists|sm: StateS, r1: Outcome|
            #![trigger vstd::pervasive::trigger(sm), vstd::pervasive::trigger(r1)]
            eval_rel(s0, envt, ps[0].1, (fuel - 1) as nat, sm, r1)
            && (r1 is Fail ==> s1 == sm
                && o == PairsOut::Fail(r1->Fail_0, r1->Fail_1))
            && (r1 is Val ==> exists|o2: PairsOut|
                #![trigger vstd::pervasive::trigger(o2)]
                evalpairs_rel(sm, envt, ps.drop_first(), fuel, s1, o2)
                && (o2 is Pairs ==> o == PairsOut::Pairs(
                    seq![(ps[0].0, r1->Val_0)] + o2->Pairs_0))
                && (o2 is Fail ==> o == o2))
    }
}

/// A non-empty list form: special forms dispatch on the head symbol
/// (which is then not evaluated); everything else evaluates all
/// elements and applies the callable head.
pub open spec fn apply_rel(s0: StateS, envt: int, items: Seq<ValSpec>, fuel: nat,
    s1: StateS, r: Outcome) -> bool
    decreases fuel, 3int, 0int,
{
    if fuel == 0 {
        s1 == s0 && r == depth_fail()
    } else {
        let head = items[0];
        if head == ValSpec::Symbol("def!"@) {
            define_rel(s0, envt, items, (fuel - 1) as nat, s1, r)
        } else if head == ValSpec::Symbol("let"@) || head == ValSpec::Symbol("let*"@) {
            dolet_rel(s0, envt, items, (fuel - 1) as nat, s1, r)
        } else if head == ValSpec::Symbol("do"@) {
            dodo_rel(s0, envt, items, (fuel - 1) as nat, s1, r)
        } else if head == ValSpec::Symbol("if"@) {
            doif_rel(s0, envt, items, (fuel - 1) as nat, s1, r)
        } else if head == ValSpec::Symbol("fn"@) || head == ValSpec::Symbol("fn*"@) {
            s1 == s0 && r == closure_out(envt, items)
        } else {
            apply_ex(s0, envt, items, (fuel - 1) as nat, s1, r)
        }
    }
}

/// Evaluating every element of an application and applying the head.
pub open spec fn apply_ex(s0: StateS, envt: int, items: Seq<ValSpec>, fuel: nat,
    s1: StateS, r: Outcome) -> bool
    decreases fuel, 2int, 0int,
{
    exists|sm: StateS, o: VecOut|
        #![trigger vstd::pervasive::trigger(sm), vstd::pervasive::trigger(o)]
        evalvec_rel(s0, envt, items, fuel, sm, o)
        && (o is Fail ==> s1 == sm
            && r == Outcome::Fail(o->Fail_0, o->Fail_1))
        && (o is Vals ==> apply_val_rel(sm, o->Vals_0, fuel, s1, r))
}

/// Applying an evaluated head to evaluated arguments: a native
/// callable computes (only `prn` touches the state, appending one
/// emitted line); a closure binds its parameters in a fresh child of
/// its captured scope and evaluates its body there; anything else is
/// the distinct `not callable` evaluation error.
pub open spec fn apply_val_rel(sm: StateS, vs: Seq<ValSpec>, fuel: nat, s1: StateS,
    r: Outcome) -> bool
    decreases fuel, 1int, 0int,
{
    let args = vs.skip(1);
    match vs[0] {
        ValSpec::Builtin(b) => s1.scopes == sm.scopes
            && crate::builtin::builtin_rel(b, args, sm.emitted, s1.emitted, r),
        ValSpec::Closure { params, variadic, envt: cenv, body } => {
            if !variadic && args.len() < params.len() {
                s1 == sm && r == arg_fail("not enough arguments"@)
            } else if variadic && params.len() != 1 {
                s1 == sm && r == arg_fail("not enough arguments"@)
            } else {
                let table = if variadic {
                    seq![(params[0], ValSpec::List(args))]
                } else {
                    Seq::new(params.len(), |j: int|
                        (params[params.len() - 1 - j], args[params.len() - 1 - j]))
                };
                let child = sm.scopes.len() as int;
                eval_rel(
                    StateS {
                        scopes: sm.scopes.push(ScopeSpec { outer: Some(cenv), table }),
                        emitted: sm.emitted,
                    },
                    child,
                    *body,
                    fuel,
                    s1,
                    r,
                )
            }
        },
        _ => s1 == sm && r == Outcome::Fail(ErrType::Eval, "not callable"@),
    }
}

/// `def!`: evaluate the expression, bind the symbol in the current
/// scope (never a child), and yield the bound value.
pub open spec fn define_rel(s0: StateS, envt: int, items: Seq<ValSpec>, fuel: nat,
    s1: StateS, r: Outcome) -> bool
    decreases fuel, 3int, 0int,
{
    if fuel == 0 {
        s1 == s0 && r == depth_fail()
    } else if items.len() < 3 {
        s1 == s0 && r == arg_fail("def! takes a symbol and a value"@)
    } else if !(items[1] is Symbol) {
        s1 == s0 && r == arg_fail("expected a symbol"@)
    } else {
        define_ex(s0, envt, items, (fuel - 1) as nat, s1, r)
    }
}

/// The evaluated `def!` expression installed in the current scope.
pub open spec fn define_ex(s0: StateS, envt: int, items: Seq<ValSpec>, fuel: nat,
    s1: StateS, r: Outcome) -> bool
    decreases fuel, 2int, 0int,
{
    exists|sm: StateS, r1: Outcome|
        #![trigger vstd::pervasive::trigger(sm), vstd::pervasive::trigger(r1)]
        eval_rel(s0, envt, items[2], fuel, sm, r1)
        && (r1 is Fail ==> s1 == sm && r == r1)
        && (r1 is Val ==> s1 == (StateS {
            scopes: set_in(sm.scopes, envt, items[1]->Symbol_0, r1->Val_0),
            emitted: sm.emitted,
        }) && r == r1)
}

/// `let`/`let*`: one child scope, created before the binding form is
/// inspected (a malformed binding form leaves the empty child
/// behind); bindings install sequentially in that child; the body (or
/// `nil` when absent) evaluates there.
pub open spec fn dolet_rel(s0: StateS, envt: int, items: Seq<ValSpec>, fuel: nat,
    s1: StateS, r: Outcome) -> bool
    decreases fuel, 3int, 0int,
{
    if fuel == 0 {
        s1 == s0 && r == depth_fail()
    } else if items.len() < 2 {
        s1 == s0 && r == arg_fail("binding form must be a list or a vector"@)
    } else {
        let s0c = StateS { scopes: push_child(s0.scopes, envt), emitted: s0.emitted };
        if !(items[1] is List || items[1] is Vector) {
            s1 == s0c && r == arg_fail("binding form must be a list or a vector"@)
        } else {
            dolet_ex(s0, envt, items, fuel, s1, r)
        }
    }
}

/// A `let`'s bindings installed in the fresh child, then its body (or
/// `nil` when absent) evaluated there.
pub open spec fn dolet_ex(s0: StateS, envt: int, items: Seq<ValSpec>, fuel: nat,
    s1: StateS, r: Outcome) -> bool
    decreases fuel, 2int, 0int,
{
    if fuel == 0 {
        false
    } else {
        let child = s0.scopes.len() as int;
    let s0c = StateS { scopes: push_child(s0.scopes, envt), emitted: s0.emitted };
    let bs = if items[1] is List {
        items[1]->List_0
    } else {
        items[1]->Vector_0
    };
    exists|sm: StateS, bo: BindOut|
        #![trigger vstd::pervasive::trigger(sm), vstd::pervasive::trigger(bo)]
        letbinds_rel(s0c, child, bs, fuel, sm, bo)
        && (bo is Fail ==> s1 == sm
            && r == Outcome::Fail(bo->Fail_0, bo->Fail_1))
        && (bo is Done ==> (if items.len() < 3 {
            s1 == sm && r == Outcome::Val(ValSpec::Nil)
        } else {
            eval_rel(sm, child, items[2], (fuel - 1) as nat, s1, r)
        }))
    }
}

/// Installing a `let`'s bindings, in order, each expression evaluated
/// in the child scope so that later bindings see earlier ones. A flat
/// symbol takes the next element as its expression; a two-element
/// list pairs name and expression; anything else is an argument
/// error.
pub open spec fn letbinds_rel(s0: StateS, child: int, bs: Seq<ValSpec>, fuel: nat,
    s1: StateS, bo: BindOut) -> bool
    decreases fuel, 0int, bs.len(),
{
    if fuel == 0 {
        s1 == s0 && bo == BindOut::Fail(ErrType::Eval, "evaluation depth exceeded"@)
    } else if bs.len() == 0 {
        s1 == s0 && bo == BindOut::Done
    } else if bs[0] is Symbol {
        if bs.len() < 2 {
            s1 == s0 && bo == BindOut::Fail(ErrType::Arg,
                "binding form must contain even number of elements"@)
        } else {
            exists|sm: StateS, r1: Outcome|
                #![trigger vstd::pervasive::trigger(sm), vstd::pervasive::trigger(r1)]
                eval_rel(s0, child, bs[1], (fuel - 1) as nat, sm, r1)
                && (r1 is Fail ==> s1 == sm
                    && bo == BindOut::Fail(r1->Fail_0, r1->Fail_1))
                && (r1 is Val ==> letbinds_rel(
                    StateS {
                        scopes: set_in(sm.scopes, child, bs[0]->Symbol_0, r1->Val_0),
                        emitted: sm.emitted,
                    },
                    child,
                    bs.skip(2),
                    fuel,
                    s1,
                    bo,
                ))
        }
    } else if bs[0] is List {
        let pair = bs[0]->List_0;
        if pair.len() != 2 {
            s1 == s0 && bo == BindOut::Fail(ErrType::Arg, "expected a symbol and an expression"@)
        } else if !(pair[0] is Symbol) {
            s1 == s0 && bo == BindOut::Fail(ErrType::Arg, "expected a symbol"@)
        } else {
            exists|sm: StateS, r1: Outcome|
                #![trigger vstd::pervasive::trigger(sm), vstd::pervasive::trigger(r1)]
                eval_rel(s0, child, pair[1], (fuel - 1) as nat, sm, r1)
                && (r1 is Fail ==> s1 == sm
                    && bo == BindOut::Fail(r1->Fail_0, r1->Fail_1))
                && (r1 is Val ==> letbinds_rel(
                    StateS {
                        scopes: set_in(sm.scopes, child, pair[0]->Symbol_0, r1->Val_0),
                        emitted: sm.emitted,
                    },
                    child,
                    bs.drop_first(),
                    fuel,
                    s1,
                    bo,
                ))
        }
    } else {
        s1 == s0 && bo == BindOut::Fail(ErrType::Arg, "expected a symbol"@)
    }
}

/// `do`: evaluate each form after the head in order, discarding all
/// but the last value; an empty `do` yields `nil`; the first failure
/// stops and propagates.
pub open spec fn dodo_rel(s0: StateS, envt: int, items: Seq<ValSpec>, fuel: nat,
    s1: StateS, r: Outcome) -> bool
    decreases fuel, 3int, 0int,
{
    if fuel == 0 {
        s1 == s0 && r == depth_fail()
    } else {
        doseq_rel(s0, envt, items.skip(1), fuel, s1, r)
    }
}

/// A `do` body: the last form's value, `nil` for none.
pub open spec fn doseq_rel(s0: StateS, envt: int, forms: Seq<ValSpec>, fuel: nat,
    s1: StateS, r: Outcome) -> bool
    decreases fuel, 1int, forms.len(),
{
    if fuel == 0 {
        s1 == s0 && r == depth_fail()
    } else if forms.len() == 0 {
        s1 == s0 && r == Outcome::Val(ValSpec::Nil)
    } else {
        exists|sm: StateS, r1: Outcome|
            #![trigger vstd::pervasive::trigger(sm), vstd::pervasive::trigger(r1)]
            eval_rel(s0, envt, forms[0], (fuel - 1) as nat, sm, r1)
            && (r1 is Fail ==> s1 == sm && r == r1)
            && (r1 is Val ==> (if forms.len() == 1 {
                s1 == sm && r == r1
            } else {
                doseq_rel(sm, envt, forms.drop_first(), fuel, s1, r)
            }))
    }
}

/// `if`: evaluate the condition; everything but `nil` and `false` is
/// truthy and selects the second operand, otherwise the third (or
/// `nil` when there is none); only the selected branch evaluates.
pub open spec fn doif_rel(s0: StateS, envt: int, items: Seq<ValSpec>, fuel: nat,
    s1: StateS, r: Outcome) -> bool
    decreases fuel, 3int, 0int,
{
    if fuel == 0 {
        s1 == s0 && r == depth_fail()
    } else if items.len() < 3 {
        s1 == s0 && r == arg_fail("if takes a condition and a branch"@)
    } else {
        doif_ex(s0, envt, items, (fuel - 1) as nat, s1, r)
    }
}

/// The evaluated condition selecting the branch to evaluate.
pub open spec fn doif_ex(s0: StateS, envt: int, items: Seq<ValSpec>, fuel: nat,
    s1: StateS, r: Outcome) -> bool
    decreases fuel, 2int, 0int,
{
    exists|sm: StateS, r1: Outcome|
        #![trigger vstd::pervasive::trigger(sm), vstd::pervasive::trigger(r1)]
        eval_rel(s0, envt, items[1], fuel, sm, r1)
        && (r1 is Fail ==> s1 == sm && r == r1)
        && (r1 is Val ==> (if crate::types::is_truthy(r1->Val_0) {
            eval_rel(sm, envt, items[2], fuel, s1, r)
        } else if items.len() >= 4 {
            eval_rel(sm, envt, items[3], fuel, s1, r)
        } else {
            s1 == sm && r == Outcome::Val(ValSpec::Nil)
        }))
}
} // verus!

verus! {

/// The state snapshot after one `set`: the binding prepended in place.
proof fn lemma_set_bridge(pre: Interp, post: Interp, envt: int, k: Seq<char>, v: ValSpec)
    requires
        0 <= envt < pre.n(),
        post.n() == pre.n(),
        post.emitted == pre.emitted,
        forall|j: int| 0 <= j < post.n() && j != envt ==> post.scope(j) == pre.scope(j),
        post.scope(envt).outer == pre.scope(envt).outer,
        post.scope(envt).table == pre.scope(envt).table.insert(0, (k, v)),
    ensures
        post.view_state() == (StateS {
            scopes: set_in(pre.view_state().scopes, envt, k, v),
            emitted: pre.view_state().emitted,
        }),
{
    let a = post.view_state().scopes;
    let b = set_in(pre.view_state().scopes, envt, k, v);
    assert forall|j: int| 0 <= j < a.len() implies a[j] == b[j] by {
        assert(pre.view_state().scopes[j] == pre.scope(j));
        if j == envt {
            assert(a[j] == post.scope(envt));
            assert(b[j] == ScopeSpec {
                outer: pre.scope(envt).outer,
                table: pre.scope(envt).table.insert(0, (k, v)),
            });
        }
    }
    assert(a =~= b);
    assert(post.view_state() =~= StateS {
        scopes: b,
        emitted: pre.view_state().emitted,
    });
}

/// The state snapshot after one `child_of`: an empty child appended.
proof fn lemma_child_bridge(pre: Interp, post: Interp, outer: int)
    requires
        0 <= outer < pre.n(),
        post.n() == pre.n() + 1,
        post.emitted == pre.emitted,
        forall|j: int| 0 <= j < pre.n() ==> post.scope(j) == pre.scope(j),
        post.scope(pre.n()) == (ScopeSpec { outer: Some(outer), table: Seq::empty() }),
    ensures
        post.view_state() == (StateS {
            scopes: push_child(pre.view_state().scopes, outer),
            emitted: pre.view_state().emitted,
        }),
{
    let a = post.view_state().scopes;
    let b = push_child(pre.view_state().scopes, outer);
    assert forall|j: int| 0 <= j < a.len() implies a[j] == b[j] by {
        if j < pre.n() {
            assert(pre.view_state().scopes[j] == pre.scope(j));
        }
    }
    assert(a =~= b);
    assert(post.view_state() =~= StateS { scopes: b, emitted: pre.view_state().emitted });
}

/// Evaluate a form. The result and final state stand in [`eval_rel`]
/// to the inputs; the clauses after it restate the non-recursive
/// cases directly.
pub fn eval<F: FloatOps>(ops: &F, st: &mut Interp, envt: usize, ast: &Val, fuel: u64) -> (r: Res)
    requires
        old(st).wf(),
        envt < old(st).n(),
        val_ok(ast@, old(st).n()),
    ensures
        final(st).wf(),
        old(st).n() <= final(st).n(),
        r matches Ok(v) ==> val_ok(v@, final(st).n()),
        eval_rel(old(st).view_state(), envt as int, ast@, fuel as nat,
            final(st).view_state(), outcome_of(r)),
        is_atom_form(ast@) ==> (r matches Ok(v) && v@ == ast@ && *final(st) == *old(st)),
        ast@ is Symbol ==> (match old(st).lookup(envt as int, ast@->Symbol_0) {
            Some(v) => r matches Ok(rv) && rv@ == v && *final(st) == *old(st),
            None => r matches Err(e) && e.kind == ErrType::Eval
                && e.msg@ == seq!['\''] + ast@->Symbol_0 + "' not found"@,
        }),
        ast@ is List && ast@->List_0.len() == 0
            ==> (r matches Ok(v) && v@ == ast@ && *final(st) == *old(st)),
    decreases fuel,
{
    match ast {
        Val::Symbol(s) => {
            let res = st.get(envt, s);
            proof {
                crate::env::lemma_lookup_in(*st, envt as int, s@);
            }
            MalErr::in_form(ops, res, ast)
        },
        Val::List(items) => {
            proof {
                lemma_vals_view(items@);
            }
            if items.len() == 0 {
                Ok(ast.clone())
            } else if fuel == 0 {
                rerr(ErrType::Eval, "evaluation depth exceeded")
            } else {
                let res = apply(ops, st, envt, items, fuel - 1);
                MalErr::in_form(ops, res, ast)
            }
        },
        Val::Vector(items) => {
            if fuel == 0 {
                rerr(ErrType::Eval, "evaluation depth exceeded")
            } else {
                let vs = eval_vec(ops, st, envt, items, fuel - 1);
                proof {
                    lemma_eval_vector(old(st).view_state(), envt as int,
                        vals_view(items@), fuel as nat, st.view_state(), vecout_of(vs));
                }
                match vs {
                    Ok(out) => {
                        proof {
                            lemma_vals_view(out@);
                            lemma_vals_view(items@);
                        }
                        Ok(Val::Vector(out))
                    },
                    Err(e) => MalErr::in_form(ops, Err(e), ast),
                }
            }
        },
        Val::Table(pairs) => {
            if fuel == 0 {
                rerr(ErrType::Eval, "evaluation depth exceeded")
            } else {
                let ps = eval_pairs(ops, st, envt, pairs, fuel - 1);
                proof {
                    lemma_eval_table(old(st).view_state(), envt as int,
                        pairs_view(pairs@), fuel as nat, st.view_state(), pairsout_of(ps));
                }
                match ps {
                    Ok(out) => {
                        proof {
                            lemma_pairs_view(out@);
                            lemma_pairs_view(pairs@);
                        }
                        Ok(Val::Table(out))
                    },
                    Err(e) => MalErr::in_form(ops, Err(e), ast),
                }
            }
        },
        _ => Ok(ast.clone()),
    }
}

/// Evaluate every element of a sequence, left to right.
fn eval_vec<F: FloatOps>(ops: &F, st: &mut Interp, envt: usize, items: &Vec<Val>, fuel: u64)
    -> (r: Result<Vec<Val>, MalErr>)
    requires
        old(st).wf(),
        envt < old(st).n(),
        vals_ok(vals_view(items@), old(st).n()),
    ensures
        final(st).wf(),
        old(st).n() <= final(st).n(),
        r matches Ok(vs) ==> vs@.len() == items@.len()
            && vals_ok(vals_view(vs@), final(st).n())
            && vals_view(vs@).len() == vals_view(items@).len(),
        evalvec_rel(old(st).view_state(), envt as int, vals_view(items@), fuel as nat,
            final(st).view_state(), vecout_of(r)),
    decreases fuel,
{
    let r = eval_vec_from(ops, st, envt, items, 0, fuel);
    proof {
        lemma_vals_view(items@);
        assert(vals_view(items@).skip(0) =~= vals_view(items@));
        if let Ok(vs) = &r {
            lemma_vals_view(vs@);
        }
        assert(evalvec_rel(old(st).view_state(), envt as int, vals_view(items@),
            fuel as nat, st.view_state(), vecout_of(r)));
    }
    r
}

/// Evaluate the elements from index `i` on.
fn eval_vec_from<F: FloatOps>(ops: &F, st: &mut Interp, envt: usize, items: &Vec<Val>,
    i: usize, fuel: u64) -> (r: Result<Vec<Val>, MalErr>)
    requires
        old(st).wf(),
        envt < old(st).n(),
        vals_ok(vals_view(items@), old(st).n()),
        i <= items@.len(),
    ensures
        final(st).wf(),
        old(st).n() <= final(st).n(),
        r matches Ok(vs) ==> vs@.len() == items@.len() - i
            && vals_ok(vals_view(vs@), final(st).n()),
        evalvec_rel(old(st).view_state(), envt as int, vals_view(items@).skip(i as int),
            fuel as nat, final(st).view_state(), vecout_of(r)),
    decreases fuel, items@.len() - i,
{
    let ghost iv = vals_view(items@);
    proof {
        lemma_vals_view(items@);
        lemma_vals_ok(iv, old(st).n());
    }
    if fuel == 0 {
        return Err(crate::error::err(ErrType::Eval, "evaluation depth exceeded"));
    }
    if i >= items.len() {
        let out: Vec<Val> = Vec::new();
        proof {
            assert(iv.skip(i as int).len() == 0);
            lemma_vals_view(out@);
            assert(vals_view(out@) =~= Seq::<ValSpec>::empty());
        }
        return Ok(out);
    }
    proof {
        assert(iv.skip(i as int)[0] == iv[i as int]);
        assert(val_ok(iv[i as int], old(st).n()));
    }
    let v = match eval(ops, st, envt, &items[i], fuel - 1) {
        Ok(v) => v,
        Err(e) => {
            proof {
                lemma_evalvec_fail(old(st).view_state(), envt as int, iv.skip(i as int),
                    fuel as nat, st.view_state(), e.kind, e.msg@);
            }
            return Err(e);
        },
    };
    let ghost mid = st.view_state();
    let ghost mid_n = st.n();
    proof {
        lemma_vals_ok(iv, st.n());
        assert forall|j: int| 0 <= j < iv.len()
            implies val_ok(#[trigger] iv[j], st.n()) by {
            lemma_val_ok_widen(iv[j], old(st).n(), st.n());
        }
    }
    let mut rest = match eval_vec_from(ops, st, envt, items, i + 1, fuel) {
        Ok(rest) => rest,
        Err(e) => {
            proof {
                assert(iv.skip(i as int).drop_first() =~= iv.skip(i as int + 1));
                lemma_evalvec_rest_fail(old(st).view_state(), envt as int,
                    iv.skip(i as int), fuel as nat, mid, v@, st.view_state(),
                    e.kind, e.msg@);
            }
            return Err(e);
        },
    };
    let ghost rest_pre = rest@;
    rest.insert(0, v);
    proof {
        lemma_val_ok_widen(v@, mid_n, st.n());
        lemma_vals_view(rest_pre);
        lemma_vals_view(rest@);
        assert(rest@[0] == v);
        assert forall|j: int| 0 <= j < rest@.len()
            implies vals_view(rest@)[j] == (seq![v@] + vals_view(rest_pre))[j] by {
            if j > 0 {
                assert(rest@[j] == rest_pre[j - 1]);
            }
        }
        assert(vals_view(rest@) =~= seq![v@] + vals_view(rest_pre));
        lemma_vals_ok(vals_view(rest_pre), st.n());
        lemma_vals_ok(vals_view(rest@), st.n());
        assert(iv.skip(i as int).drop_first() =~= iv.skip(i as int + 1));
        lemma_evalvec_step(old(st).view_state(), envt as int, iv.skip(i as int),
            fuel as nat, mid, v@, st.view_state(), vals_view(rest_pre));
    }
    Ok(rest)
}


/// Evaluate every value of a key-value sequence; keys stay unevaluated.
fn eval_pairs<F: FloatOps>(ops: &F, st: &mut Interp, envt: usize, pairs: &Vec<(Val, Val)>,
    fuel: u64) -> (r: Result<Vec<(Val, Val)>, MalErr>)
    requires
        old(st).wf(),
        envt < old(st).n(),
        pairs_ok(pairs_view(pairs@), old(st).n()),
    ensures
        final(st).wf(),
        old(st).n() <= final(st).n(),
        r matches Ok(ps) ==> pairs_ok(pairs_view(ps@), final(st).n())
            && pairs_view(ps@).len() == pairs_view(pairs@).len()
            && (forall|j: int| 0 <= j < pairs_view(pairs@).len()
                ==> (#[trigger] pairs_view(ps@)[j]).0 == pairs_view(pairs@)[j].0),
        evalpairs_rel(old(st).view_state(), envt as int, pairs_view(pairs@), fuel as nat,
            final(st).view_state(), pairsout_of(r)),
    decreases fuel,
{
    let r = eval_pairs_from(ops, st, envt, pairs, 0, fuel);
    proof {
        lemma_pairs_view(pairs@);
        assert(pairs_view(pairs@).skip(0) =~= pairs_view(pairs@));
        if let Ok(ps) = &r {
            lemma_pairs_view(ps@);
            assert forall|j: int| 0 <= j < pairs_view(pairs@).len()
                implies (#[trigger] pairs_view(ps@)[j]).0 == pairs_view(pairs@)[j].0 by {
                assert(pairs_view(ps@)[j].0 == pairs_view(pairs@)[j + 0].0);
            }
        }
        assert(evalpairs_rel(old(st).view_state(), envt as int, pairs_view(pairs@),
            fuel as nat, st.view_state(), pairsout_of(r)));
    }
    r
}

/// Evaluate the values from index `i` on.
fn eval_pairs_from<F: FloatOps>(ops: &F, st: &mut Interp, envt: usize,
    pairs: &Vec<(Val, Val)>, i: usize, fuel: u64) -> (r: Result<Vec<(Val, Val)>, MalErr>)
    requires
        old(st).wf(),
        envt < old(st).n(),
        pairs_ok(pairs_view(pairs@), old(st).n()),
        i <= pairs@.len(),
    ensures
        final(st).wf(),
        old(st).n() <= final(st).n(),
        r matches Ok(ps) ==> ps@.len() == pairs@.len() - i
            && pairs_ok(pairs_view(ps@), final(st).n())
            && (forall|j: int| 0 <= j < pairs_view(ps@).len()
                ==> (#[trigger] pairs_view(ps@)[j]).0 == pairs_view(pairs@)[j + i].0),
        evalpairs_rel(old(st).view_state(), envt as int, pairs_view(pairs@).skip(i as int),
            fuel as nat, final(st).view_state(), pairsout_of(r)),
    decreases fuel, pairs@.len() - i,
{
    let ghost pv = pairs_view(pairs@);
    proof {
        lemma_pairs_view(pairs@);
        lemma_pairs_ok(pv, old(st).n());
    }
    if fuel == 0 {
        return Err(crate::error::err(ErrType::Eval, "evaluation depth exceeded"));
    }
    if i >= pairs.len() {
        let out: Vec<(Val, Val)> = Vec::new();
        proof {
            lemma_pairs_view(out@);
            assert(pairs_view(out@) =~= Seq::<(ValSpec, ValSpec)>::empty());
        }
        return Ok(out);
    }
    proof {
        assert(pv.skip(i as int)[0] == pv[i as int]);
        assert(val_ok(pv[i as int].1, old(st).n()));
    }
    let k = pairs[i].0.clone();
    let v = match eval(ops, st, envt, &pairs[i].1, fuel - 1) {
        Ok(v) => v,
        Err(e) => {
            proof {
                lemma_evalpairs_fail(old(st).view_state(), envt as int, pv.skip(i as int),
                    fuel as nat, st.view_state(), e.kind, e.msg@);
            }
            return Err(e);
        },
    };
    let ghost mid = st.view_state();
    let ghost mid_n = st.n();
    proof {
        lemma_pairs_ok(pv, st.n());
        assert forall|j: int| 0 <= j < pv.len()
            implies val_ok((#[trigger] pv[j]).0, st.n()) && val_ok(pv[j].1, st.n()) by {
            lemma_val_ok_widen(pv[j].0, old(st).n(), st.n());
            lemma_val_ok_widen(pv[j].1, old(st).n(), st.n());
        }
    }
    let mut rest = match eval_pairs_from(ops, st, envt, pairs, i + 1, fuel) {
        Ok(rest) => rest,
        Err(e) => {
            proof {
                assert(pv.skip(i as int).drop_first() =~= pv.skip(i as int + 1));
                lemma_evalpairs_rest_fail(old(st).view_state(), envt as int,
                    pv.skip(i as int), fuel as nat, mid, v@, st.view_state(),
                    e.kind, e.msg@);
            }
            return Err(e);
        },
    };
    let ghost rest_pre = rest@;
    rest.insert(0, (k, v));
    proof {
        lemma_val_ok_widen(v@, mid_n, st.n());
        lemma_val_ok_widen(pv[i as int].0, old(st).n(), st.n());
        lemma_pairs_view(rest_pre);
        lemma_pairs_view(rest@);
        assert forall|j: int| 0 <= j < rest@.len()
            implies pairs_view(rest@)[j]
                == (seq![(pv[i as int].0, v@)] + pairs_view(rest_pre))[j] by {
            if j > 0 {
                assert(rest@[j] == rest_pre[j - 1]);
            } else {
                assert(val_view(rest@[0].0) == pv[i as int].0);
                assert(val_view(rest@[0].1) == v@);
            }
        }
        assert(pairs_view(rest@) =~= seq![(pv[i as int].0, v@)] + pairs_view(rest_pre));
        lemma_pairs_ok(pairs_view(rest_pre), st.n());
        lemma_pairs_ok(pairs_view(rest@), st.n());
        assert(pv.skip(i as int).drop_first() =~= pv.skip(i as int + 1));
        assert(pv.skip(i as int)[0] == pv[i as int]);
        lemma_evalpairs_step(old(st).view_state(), envt as int, pv.skip(i as int),
            fuel as nat, mid, v@, st.view_state(), pairs_view(rest_pre));
    }
    Ok(rest)
}

} // verus!

verus! {

/// A non-empty list: dispatch a special form on the head symbol, or
/// evaluate everything and apply the callable head.
fn apply<F: FloatOps>(ops: &F, st: &mut Interp, envt: usize, items: &Vec<Val>, fuel: u64)
    -> (r: Res)
    requires
        old(st).wf(),
        envt < old(st).n(),
        vals_ok(vals_view(items@), old(st).n()),
        items@.len() >= 1,
    ensures
        final(st).wf(),
        old(st).n() <= final(st).n(),
        r matches Ok(v) ==> val_ok(v@, final(st).n()),
        apply_rel(old(st).view_state(), envt as int, vals_view(items@), fuel as nat,
            final(st).view_state(), outcome_of(r)),
    decreases fuel,
{
    let ghost iv = vals_view(items@);
    proof {
        lemma_vals_view(items@);
    }
    if fuel == 0 {
        return rerr(ErrType::Eval, "evaluation depth exceeded");
    }
    match &items[0] {
        Val::Symbol(s) => {
            proof {
                assert(iv[0] == ValSpec::Symbol(s@));
            }
            if streq(s.as_str(), "def!") {
                return define(ops, st, envt, items, fuel - 1);
            }
            if streq(s.as_str(), "let") || streq(s.as_str(), "let*") {
                return do_let(ops, st, envt, items, fuel - 1);
            }
            if streq(s.as_str(), "do") {
                return do_do(ops, st, envt, items, fuel - 1);
            }
            if streq(s.as_str(), "if") {
                return do_if(ops, st, envt, items, fuel - 1);
            }
            if streq(s.as_str(), "fn") || streq(s.as_str(), "fn*") {
                return make_closure(st, envt, items);
            }
        },
        _ => {},
    }
    proof {
        assert(iv[0] == val_view(items@[0]));
    }
    let ghost not_special = !(iv[0] == ValSpec::Symbol("def!"@))
        && !(iv[0] == ValSpec::Symbol("let"@)) && !(iv[0] == ValSpec::Symbol("let*"@))
        && !(iv[0] == ValSpec::Symbol("do"@)) && !(iv[0] == ValSpec::Symbol("if"@))
        && !(iv[0] == ValSpec::Symbol("fn"@)) && !(iv[0] == ValSpec::Symbol("fn*"@));
    proof {
        assert(not_special);
    }
    let mut vs = match eval_vec(ops, st, envt, items, fuel - 1) {
        Ok(vs) => vs,
        Err(e) => {
            proof {
                lemma_apply_app(old(st).view_state(), envt as int, iv, fuel as nat,
                    st.view_state(), VecOut::Fail(e.kind, e.msg@), st.view_state(),
                    Outcome::Fail(e.kind, e.msg@));
            }
            return Err(e);
        },
    };
    let ghost full = vs@;
    let ghost vsv = vals_view(full);
    let ghost sm = st.view_state();
    proof {
        lemma_vals_view(full);
        lemma_vals_ok(vsv, st.n());
    }
    let head = vs.remove(0);
    let args = vs;
    let ghost n0 = st.n();
    let ghost argsv = vals_view(args@);
    proof {
        assert(args@ =~= full.skip(1));
        lemma_vals_view(args@);
        assert(head == full[0]);
        assert(vsv[0] == val_view(full[0]));
        assert(vals_ok(vsv, n0) == (forall|i: int| 0 <= i < vsv.len() ==> val_ok(vsv[i], n0)));
        assert(val_ok(val_view(head), n0));
        assert forall|j: int| 0 <= j < args@.len()
            implies val_ok(val_view(#[trigger] args@[j]), n0) by {
            assert(args@[j] == full[j + 1]);
            assert(vsv[j + 1] == val_view(full[j + 1]));
        }
        lemma_vals_ok(argsv, n0);
        assert forall|j: int| 0 <= j < argsv.len()
            implies argsv[j] == vsv.skip(1)[j] by {
            assert(argsv[j] == val_view(args@[j]));
            assert(vsv.skip(1)[j] == vsv[j + 1]);
            assert(vsv[j + 1] == val_view(full[j + 1]));
        }
        assert(argsv =~= vsv.skip(1));
    }
    match head {
        Val::Func(Lambda::Builtin(b)) => {
            let ghost pre_call = *st;
            let r = crate::builtin::call(ops, st, b, &args);
            proof {
                assert forall|j: int| 0 <= j < st.n()
                    implies st.view_state().scopes[j] == sm.scopes[j] by {
                    assert(st.view_state().scopes[j] == st.scope(j));
                    assert(sm.scopes[j] == pre_call.scope(j));
                    assert(st.scope(j) == pre_call.scope(j));
                }
                assert(st.view_state().scopes.len() == sm.scopes.len());
                assert(st.view_state().scopes =~= sm.scopes);
                assert(sm.emitted == pre_call.emitted.deep_view());
                assert(st.view_state().emitted == st.emitted.deep_view());
                assert(crate::builtin::builtin_rel(b, vals_view(args@),
                    pre_call.emitted.deep_view(), st.emitted.deep_view(), outcome_of(r)));
                assert(argsv == vals_view(args@));
                assert(crate::builtin::builtin_rel(b, argsv, sm.emitted,
                    st.view_state().emitted, outcome_of(r)));
                assert(apply_val_rel(sm, vsv, (fuel - 1) as nat, st.view_state(),
                    outcome_of(r)));
                lemma_apply_app(old(st).view_state(), envt as int, iv, fuel as nat,
                    sm, VecOut::Vals(vsv), st.view_state(), outcome_of(r));
            }
            r
        },
        Val::Func(Lambda::Function(f)) => {
            proof {
                assert(val_view(Val::Func(Lambda::Function(f))) == vsv[0]);
            }
            if !f.variadic && args.len() < f.args.len() {
                proof {
                    assert(f.args.deep_view().len() == f.args@.len());
                    assert(apply_val_rel(sm, vsv, (fuel - 1) as nat, st.view_state(),
                        arg_fail("not enough arguments"@)));
                    lemma_apply_app(old(st).view_state(), envt as int, iv, fuel as nat,
                        sm, VecOut::Vals(vsv), st.view_state(),
                        arg_fail("not enough arguments"@));
                }
                return rerr(ErrType::Arg, "not enough arguments");
            }
            let mut bindings: Vec<(String, Val)> = Vec::new();
            if f.variadic {
                if f.args.len() != 1 {
                    proof {
                        assert(f.args.deep_view().len() == f.args@.len());
                        assert(apply_val_rel(sm, vsv, (fuel - 1) as nat, st.view_state(),
                            arg_fail("not enough arguments"@)));
                        lemma_apply_app(old(st).view_state(), envt as int, iv,
                            fuel as nat, sm, VecOut::Vals(vsv), st.view_state(),
                            arg_fail("not enough arguments"@));
                    }
                    return rerr(ErrType::Arg, "not enough arguments");
                }
                let name = f.args[0].clone();
                let whole = Val::List(args);
                proof {
                    assert(val_ok(val_view(whole), n0));
                    assert(name@ == f.args.deep_view()[0]);
                }
                bindings.push((name, whole));
            } else {
                let mut i: usize = 0;
                while i < f.args.len()
                    invariant
                        i <= f.args@.len(),
                        f.args@.len() <= args@.len(),
                        argsv == vals_view(args@),
                        argsv.len() == args@.len(),
                        forall|j: int| 0 <= j < args@.len()
                            ==> val_ok(val_view(#[trigger] args@[j]), n0),
                        forall|j: int| 0 <= j < args@.len()
                            ==> argsv[j] == val_view(#[trigger] args@[j]),
                        bindings@.len() == i,
                        forall|j: int| 0 <= j < i
                            ==> val_ok(val_view((#[trigger] bindings@[j]).1), n0),
                        forall|j: int| 0 <= j < i
                            ==> (#[trigger] bindings@[j]).0@ == f.args.deep_view()[j]
                                && val_view(bindings@[j].1) == argsv[j],
                    decreases f.args@.len() - i,
                {
                    let name = f.args[i].clone();
                    let arg = args[i].clone();
                    bindings.push((name, arg));
                    i = i + 1;
                }
            }
            proof {
                assert forall|j: int| 0 <= j < bindings@.len()
                    implies val_ok(val_view(#[trigger] bindings@[j].1), st.n() + 1) by {
                    lemma_val_ok_widen(val_view(bindings@[j].1), n0, st.n() + 1);
                }
                assert(val_view(head)->Closure_envt == f.envt as int);
                assert(f.envt < n0);
            }
            let ghost pre_bind = *st;
            let child = st.binding(f.envt, bindings);
            proof {
                let p = f.args.deep_view().len();
                let table = if f.variadic {
                    seq![(f.args.deep_view()[0], ValSpec::List(argsv))]
                } else {
                    Seq::new(p, |j: int| (f.args.deep_view()[p - 1 - j], argsv[p - 1 - j]))
                };
                let a = st.view_state().scopes;
                let b = sm.scopes.push(ScopeSpec {
                    outer: Some(f.envt as int),
                    table,
                });
                assert forall|j: int| 0 <= j < a.len() implies a[j] == b[j] by {
                    if j < pre_bind.n() {
                        assert(st.scope(j) == pre_bind.scope(j));
                        assert(sm.scopes[j] == pre_bind.scope(j));
                    } else {
                        assert(st.scope(j).outer == Some(f.envt as int));
                        assert(st.scope(j).table.len() == bindings@.len());
                        assert forall|m: int| 0 <= m < st.scope(j).table.len()
                            implies st.scope(j).table[m] == table[m] by {
                            assert(st.scope(j).table[m]
                                == (bindings@[bindings@.len() - 1 - m].0@,
                                    val_view(bindings@[bindings@.len() - 1 - m].1)));
                        }
                        assert(st.scope(j).table =~= table);
                        assert(a[j] =~= b[j]);
                    }
                }
                assert(a =~= b);
                assert(st.view_state() =~= StateS { scopes: b, emitted: sm.emitted });
                assert(val_ok(*val_view(head)->Closure_body, n0));
                assert(*val_view(head)->Closure_body == val_view(*f.form));
                lemma_val_ok_widen(val_view(*f.form), n0, st.n());
            }
            let r = eval(ops, st, child, &f.form, fuel - 1);
            proof {
                assert(apply_val_rel(sm, vsv, (fuel - 1) as nat, st.view_state(),
                    outcome_of(r)));
                lemma_apply_app(old(st).view_state(), envt as int, iv, fuel as nat,
                    sm, VecOut::Vals(vsv), st.view_state(), outcome_of(r));
            }
            r
        },
        _ => {
            proof {
                assert(!(vsv[0] is Builtin) && !(vsv[0] is Closure));
                assert(apply_val_rel(sm, vsv, (fuel - 1) as nat, st.view_state(),
                    Outcome::Fail(ErrType::Eval, "not callable"@)));
                lemma_apply_app(old(st).view_state(), envt as int, iv, fuel as nat,
                    sm, VecOut::Vals(vsv), st.view_state(),
                    Outcome::Fail(ErrType::Eval, "not callable"@));
            }
            rerr(ErrType::Eval, "not callable")
        },
    }
}

/// `def!`: evaluate the expression and bind the symbol in the current
/// scope (never a child), yielding the bound value.
fn define<F: FloatOps>(ops: &F, st: &mut Interp, envt: usize, items: &Vec<Val>, fuel: u64)
    -> (r: Res)
    requires
        old(st).wf(),
        envt < old(st).n(),
        vals_ok(vals_view(items@), old(st).n()),
        items@.len() >= 1,
    ensures
        final(st).wf(),
        old(st).n() <= final(st).n(),
        r matches Ok(v) ==> val_ok(v@, final(st).n()),
        define_rel(old(st).view_state(), envt as int, vals_view(items@), fuel as nat,
            final(st).view_state(), outcome_of(r)),
        items@.len() >= 3 && val_view(items@[1]) is Symbol
            ==> (r matches Ok(v) ==> tbl_get(
                final(st).scope(envt as int).table,
                val_view(items@[1])->Symbol_0) == Some(v@)),
    decreases fuel,
{
    let ghost iv = vals_view(items@);
    proof {
        lemma_vals_view(items@);
        lemma_vals_ok(iv, old(st).n());
    }
    if fuel == 0 {
        return Err(crate::error::err(ErrType::Eval, "evaluation depth exceeded"));
    }
    if items.len() < 3 {
        return rerr(ErrType::Arg, "def! takes a symbol and a value");
    }
    let name = items[1].unwrap_symbol()?;
    proof {
        assert(iv[1] == val_view(items@[1]));
        assert(iv[2] == val_view(items@[2]));
        assert(val_ok(iv[2], old(st).n()));
        assert(name@ == iv[1]->Symbol_0);
    }
    let v = match eval(ops, st, envt, &items[2], fuel - 1) {
        Ok(v) => v,
        Err(e) => {
            proof {
                lemma_define_eval(old(st).view_state(), envt as int, iv, fuel as nat,
                    st.view_state(), Outcome::Fail(e.kind, e.msg@), st.view_state(),
                    Outcome::Fail(e.kind, e.msg@));
            }
            return Err(e);
        },
    };
    let ghost sm = st.view_state();
    let ghost pre_set = *st;
    st.set(envt, &name, v.clone());
    proof {
        lemma_set_bridge(pre_set, *st, envt as int, name@, v@);
        lemma_define_eval(old(st).view_state(), envt as int, iv, fuel as nat,
            sm, Outcome::Val(v@), st.view_state(), Outcome::Val(v@));
    }
    Ok(v)
}

/// `let`/`let*`: one child scope; bindings evaluate sequentially in
/// that child, so later bindings see earlier ones; the body (or `nil`
/// when absent) evaluates there too. Bindings come flat (symbol,
/// expression, ...) or as (symbol expression) pairs; either shape is
/// accepted, an odd tail is an argument error.
fn do_let<F: FloatOps>(ops: &F, st: &mut Interp, envt: usize, items: &Vec<Val>, fuel: u64)
    -> (r: Res)
    requires
        old(st).wf(),
        envt < old(st).n(),
        vals_ok(vals_view(items@), old(st).n()),
        items@.len() >= 1,
    ensures
        final(st).wf(),
        old(st).n() <= final(st).n(),
        r matches Ok(v) ==> val_ok(v@, final(st).n()),
        dolet_rel(old(st).view_state(), envt as int, vals_view(items@), fuel as nat,
            final(st).view_state(), outcome_of(r)),
    decreases fuel,
{
    let ghost iv = vals_view(items@);
    proof {
        lemma_vals_view(items@);
        lemma_vals_ok(iv, old(st).n());
    }
    if fuel == 0 {
        return Err(crate::error::err(ErrType::Eval, "evaluation depth exceeded"));
    }
    if items.len() < 2 {
        return rerr(ErrType::Arg, "binding form must be a list or a vector");
    }
    let ghost pre_child = *st;
    let child = st.child_of(envt);
    proof {
        lemma_child_bridge(pre_child, *st, envt as int);
    }
    let ghost s0c = st.view_state();
    let binders: &Vec<Val> = match &items[1] {
        Val::List(bs) => bs,
        Val::Vector(bs) => bs,
        _ => {
            proof {
                assert(!(iv[1] is List || iv[1] is Vector));
            }
            return rerr(ErrType::Arg, "binding form must be a list or a vector");
        },
    };
    let ghost bv = vals_view(binders@);
    proof {
        assert(iv[1] == val_view(items@[1]));
        assert(val_ok(iv[1], old(st).n()));
        lemma_vals_view(binders@);
        lemma_vals_ok(bv, old(st).n());
        lemma_vals_ok(bv, st.n());
        assert forall|j: int| 0 <= j < bv.len()
            implies val_ok(#[trigger] bv[j], st.n()) by {
            lemma_val_ok_widen(bv[j], old(st).n(), st.n());
        }
        assert(bv.skip(0) =~= bv);
    }
    match let_binds(ops, st, child, binders, 0, fuel) {
        Ok(_) => {},
        Err(e) => {
            proof {
                lemma_dolet_chain(old(st).view_state(), envt as int, iv, fuel as nat,
                    st.view_state(), BindOut::Fail(e.kind, e.msg@), st.view_state(),
                    Outcome::Fail(e.kind, e.msg@));
            }
            return Err(e);
        },
    }
    let ghost sm = st.view_state();
    if items.len() < 3 {
        proof {
            lemma_dolet_chain(old(st).view_state(), envt as int, iv, fuel as nat,
                sm, BindOut::Done, st.view_state(), Outcome::Val(ValSpec::Nil));
        }
        return Ok(Val::Nil);
    }
    proof {
        assert(iv[2] == val_view(items@[2]));
        lemma_val_ok_widen(iv[2], old(st).n(), st.n());
    }
    let r = eval(ops, st, child, &items[2], fuel - 1);
    proof {
        lemma_dolet_chain(old(st).view_state(), envt as int, iv, fuel as nat,
            sm, BindOut::Done, st.view_state(), outcome_of(r));
    }
    r
}

/// Install a `let`'s bindings from index `i` on, sequentially in the
/// child scope.
fn let_binds<F: FloatOps>(ops: &F, st: &mut Interp, child: usize, binders: &Vec<Val>,
    i: usize, fuel: u64) -> (r: Result<(), MalErr>)
    requires
        old(st).wf(),
        child < old(st).n(),
        vals_ok(vals_view(binders@), old(st).n()),
        i <= binders@.len(),
        fuel >= 1,
    ensures
        final(st).wf(),
        old(st).n() <= final(st).n(),
        letbinds_rel(old(st).view_state(), child as int, vals_view(binders@).skip(i as int),
            fuel as nat, final(st).view_state(), bindout_of(r)),
    decreases fuel, binders@.len() - i,
{
    let ghost bv = vals_view(binders@);
    proof {
        lemma_vals_view(binders@);
        lemma_vals_ok(bv, old(st).n());
    }
    if i >= binders.len() {
        proof {
            assert(bv.skip(i as int).len() == 0);
        }
        return Ok(());
    }
    proof {
        assert(bv.skip(i as int)[0] == bv[i as int]);
    }
    match &binders[i] {
        Val::Symbol(s) => {
            if i + 1 >= binders.len() {
                return Err(crate::error::err(
                    ErrType::Arg,
                    "binding form must contain even number of elements",
                ));
            }
            proof {
                assert(bv.skip(i as int)[1] == bv[i as int + 1]);
                assert(val_ok(bv[i as int + 1], old(st).n()));
            }
            let name = s.clone();
            let v = match eval(ops, st, child, &binders[i + 1], fuel - 1) {
                Ok(v) => v,
                Err(e) => {
                    proof {
                        lemma_letbinds_sym(old(st).view_state(), child as int,
                            bv.skip(i as int), fuel as nat, st.view_state(),
                            Outcome::Fail(e.kind, e.msg@), st.view_state(),
                            BindOut::Fail(e.kind, e.msg@));
                    }
                    return Err(e);
                },
            };
            let ghost sm = st.view_state();
            let ghost pre_set = *st;
            st.set(child, &name, v.clone());
            proof {
                lemma_set_bridge(pre_set, *st, child as int, name@, v@);
                lemma_vals_ok(bv, st.n());
                assert forall|j: int| 0 <= j < bv.len()
                    implies val_ok(#[trigger] bv[j], st.n()) by {
                    lemma_val_ok_widen(bv[j], old(st).n(), st.n());
                }
            }
            let r = let_binds(ops, st, child, binders, i + 2, fuel);
            proof {
                assert(bv.skip(i as int).skip(2) =~= bv.skip(i as int + 2));
                lemma_letbinds_sym(old(st).view_state(), child as int,
                    bv.skip(i as int), fuel as nat, sm, Outcome::Val(v@),
                    st.view_state(), bindout_of(r));
            }
            r
        },
        Val::List(pair) => {
            let ghost pv = vals_view(pair@);
            proof {
                assert(bv[i as int] == ValSpec::List(pv));
                assert(val_ok(bv[i as int], old(st).n()));
                lemma_vals_view(pair@);
                lemma_vals_ok(pv, old(st).n());
            }
            if pair.len() != 2 {
                return Err(crate::error::err(
                    ErrType::Arg,
                    "expected a symbol and an expression",
                ));
            }
            let name = pair[0].unwrap_symbol()?;
            proof {
                assert(pv[0] == val_view(pair@[0]));
                assert(pv[1] == val_view(pair@[1]));
                assert(name@ == pv[0]->Symbol_0);
            }
            let v = match eval(ops, st, child, &pair[1], fuel - 1) {
                Ok(v) => v,
                Err(e) => {
                    proof {
                        lemma_letbinds_pair(old(st).view_state(), child as int,
                            bv.skip(i as int), fuel as nat, st.view_state(),
                            Outcome::Fail(e.kind, e.msg@), st.view_state(),
                            BindOut::Fail(e.kind, e.msg@));
                    }
                    return Err(e);
                },
            };
            let ghost sm = st.view_state();
            let ghost pre_set = *st;
            st.set(child, &name, v.clone());
            proof {
                lemma_set_bridge(pre_set, *st, child as int, name@, v@);
                lemma_vals_ok(bv, st.n());
                assert forall|j: int| 0 <= j < bv.len()
                    implies val_ok(#[trigger] bv[j], st.n()) by {
                    lemma_val_ok_widen(bv[j], old(st).n(), st.n());
                }
            }
            let r = let_binds(ops, st, child, binders, i + 1, fuel);
            proof {
                assert(bv.skip(i as int).drop_first() =~= bv.skip(i as int + 1));
                lemma_letbinds_pair(old(st).view_state(), child as int,
                    bv.skip(i as int), fuel as nat, sm, Outcome::Val(v@),
                    st.view_state(), bindout_of(r));
            }
            r
        },
        _ => {
            proof {
                assert(!(bv[i as int] is Symbol) && !(bv[i as int] is List));
            }
            Err(crate::error::err(ErrType::Arg, "expected a symbol"))
        },
    }
}

/// `do`: evaluate each expression in sequence, yielding the last one's
/// value; an empty `do` yields `nil`.
fn do_do<F: FloatOps>(ops: &F, st: &mut Interp, envt: usize, items: &Vec<Val>, fuel: u64)
    -> (r: Res)
    requires
        old(st).wf(),
        envt < old(st).n(),
        vals_ok(vals_view(items@), old(st).n()),
        items@.len() >= 1,
    ensures
        final(st).wf(),
        old(st).n() <= final(st).n(),
        r matches Ok(v) ==> val_ok(v@, final(st).n()),
        dodo_rel(old(st).view_state(), envt as int, vals_view(items@), fuel as nat,
            final(st).view_state(), outcome_of(r)),
    decreases fuel,
{
    if fuel == 0 {
        return Err(crate::error::err(ErrType::Eval, "evaluation depth exceeded"));
    }
    let r = do_seq(ops, st, envt, items, 1, fuel);
    proof {
        lemma_vals_view(items@);
    }
    r
}

/// Evaluate the forms from index `i` on, yielding the last value.
fn do_seq<F: FloatOps>(ops: &F, st: &mut Interp, envt: usize, items: &Vec<Val>, i: usize,
    fuel: u64) -> (r: Res)
    requires
        old(st).wf(),
        envt < old(st).n(),
        vals_ok(vals_view(items@), old(st).n()),
        1 <= i <= items@.len(),
        fuel >= 1,
    ensures
        final(st).wf(),
        old(st).n() <= final(st).n(),
        r matches Ok(v) ==> val_ok(v@, final(st).n()),
        doseq_rel(old(st).view_state(), envt as int, vals_view(items@).skip(i as int),
            fuel as nat, final(st).view_state(), outcome_of(r)),
    decreases fuel, items@.len() - i,
{
    let ghost iv = vals_view(items@);
    proof {
        lemma_vals_view(items@);
        lemma_vals_ok(iv, old(st).n());
    }
    if i >= items.len() {
        proof {
            assert(iv.skip(i as int).len() == 0);
        }
        return Ok(Val::Nil);
    }
    proof {
        assert(iv.skip(i as int)[0] == iv[i as int]);
        assert(val_ok(iv[i as int], old(st).n()));
    }
    let v = match eval(ops, st, envt, &items[i], fuel - 1) {
        Ok(v) => v,
        Err(e) => {
            proof {
                lemma_doseq_fail(old(st).view_state(), envt as int, iv.skip(i as int),
                    fuel as nat, st.view_state(), e.kind, e.msg@);
            }
            return Err(e);
        },
    };
    if i + 1 >= items.len() {
        proof {
            assert(iv.skip(i as int).len() == 1);
            lemma_doseq_last(old(st).view_state(), envt as int, iv.skip(i as int),
                fuel as nat, st.view_state(), v@);
        }
        return Ok(v);
    }
    let ghost sm = st.view_state();
    proof {
        lemma_vals_ok(iv, st.n());
        assert forall|j: int| 0 <= j < iv.len()
            implies val_ok(#[trigger] iv[j], st.n()) by {
            lemma_val_ok_widen(iv[j], old(st).n(), st.n());
        }
    }
    let r = do_seq(ops, st, envt, items, i + 1, fuel);
    proof {
        assert(iv.skip(i as int).drop_first() =~= iv.skip(i as int + 1));
        lemma_doseq_step(old(st).view_state(), envt as int, iv.skip(i as int),
            fuel as nat, sm, v@, st.view_state(), outcome_of(r));
    }
    r
}

/// `if`: evaluate the condition; everything but `nil` and `false` is
/// truthy and selects the second operand, otherwise the third (or
/// `nil` when there is none). Only the selected branch evaluates.
fn do_if<F: FloatOps>(ops: &F, st: &mut Interp, envt: usize, items: &Vec<Val>, fuel: u64)
    -> (r: Res)
    requires
        old(st).wf(),
        envt < old(st).n(),
        vals_ok(vals_view(items@), old(st).n()),
        items@.len() >= 1,
    ensures
        final(st).wf(),
        old(st).n() <= final(st).n(),
        r matches Ok(v) ==> val_ok(v@, final(st).n()),
        doif_rel(old(st).view_state(), envt as int, vals_view(items@), fuel as nat,
            final(st).view_state(), outcome_of(r)),
    decreases fuel,
{
    let ghost iv = vals_view(items@);
    proof {
        lemma_vals_view(items@);
        lemma_vals_ok(iv, old(st).n());
    }
    if fuel == 0 {
        return Err(crate::error::err(ErrType::Eval, "evaluation depth exceeded"));
    }
    if items.len() < 3 {
        return rerr(ErrType::Arg, "if takes a condition and a branch");
    }
    proof {
        assert(iv[1] == val_view(items@[1]) && val_ok(iv[1], old(st).n()));
    }
    let cond = match eval(ops, st, envt, &items[1], fuel - 1) {
        Ok(v) => v,
        Err(e) => {
            proof {
                lemma_doif_eval(old(st).view_state(), envt as int, iv, fuel as nat,
                    st.view_state(), Outcome::Fail(e.kind, e.msg@), st.view_state(),
                    Outcome::Fail(e.kind, e.msg@));
            }
            return Err(e);
        },
    };
    let ghost sm = st.view_state();
    if truthy(&cond) {
        proof {
            assert(iv[2] == val_view(items@[2]));
            lemma_val_ok_widen(iv[2], old(st).n(), st.n());
        }
        let r = eval(ops, st, envt, &items[2], fuel - 1);
        proof {
            lemma_doif_eval(old(st).view_state(), envt as int, iv, fuel as nat,
                sm, Outcome::Val(cond@), st.view_state(), outcome_of(r));
        }
        r
    } else if items.len() >= 4 {
        proof {
            assert(iv[3] == val_view(items@[3]));
            lemma_val_ok_widen(iv[3], old(st).n(), st.n());
        }
        let r = eval(ops, st, envt, &items[3], fuel - 1);
        proof {
            lemma_doif_eval(old(st).view_state(), envt as int, iv, fuel as nat,
                sm, Outcome::Val(cond@), st.view_state(), outcome_of(r));
        }
        r
    } else {
        proof {
            lemma_doif_eval(old(st).view_state(), envt as int, iv, fuel as nat,
                sm, Outcome::Val(cond@), st.view_state(), Outcome::Val(ValSpec::Nil));
        }
        Ok(Val::Nil)
    }
}

/// Collect the parameter names from index `i` on; the first
/// non-symbol is an argument error.
fn collect_syms(ps: &Vec<Val>, i: usize) -> (r: Result<Vec<String>, MalErr>)
    requires
        i <= ps@.len(),
    ensures
        match r {
            Ok(ns) => sym_names(vals_view(ps@).skip(i as int))
                == ParamsR::Ps(ns.deep_view(), false),
            Err(e) => (sym_names(vals_view(ps@).skip(i as int)) matches ParamsR::Bad(m)
                && e.kind == ErrType::Arg && e.msg@ == m),
        },
    decreases ps@.len() - i,
{
    let ghost pv = vals_view(ps@);
    proof {
        lemma_vals_view(ps@);
    }
    if i >= ps.len() {
        let out: Vec<String> = Vec::new();
        proof {
            assert(pv.skip(i as int).len() == 0);
            assert(out.deep_view() =~= Seq::<Seq<char>>::empty());
        }
        return Ok(out);
    }
    proof {
        assert(pv.skip(i as int)[0] == pv[i as int]);
    }
    proof {
        assert(pv.skip(i as int).drop_first() =~= pv.skip(i as int + 1));
    }
    let name = ps[i].unwrap_symbol()?;
    let mut rest = collect_syms(ps, i + 1)?;
    let ghost rest_pre = rest.deep_view();
    rest.insert(0, name);
    proof {
        assert forall|j: int| 0 <= j < rest@.len()
            implies rest.deep_view()[j] == (seq![pv[i as int]->Symbol_0] + rest_pre)[j] by {
            if j > 0 {
                assert(rest@[j] == old_rest(rest@, j));
            }
        }
        assert(rest.deep_view() =~= seq![pv[i as int]->Symbol_0] + rest_pre);
    }
    Ok(rest)
}

/// The element a later index held before an insert at the front.
pub open spec fn old_rest(s: Seq<String>, j: int) -> String {
    s[j]
}

/// `fn`/`fn*`: build a user-defined callable; exactly the
/// [`closure_out`] of the form. The parameter form is a bare symbol
/// (the whole argument list binds to it), `nil` (no parameters), or a
/// list or vector of symbols (fixed positional parameters); the
/// defining scope and the unevaluated body are captured.
fn make_closure(st: &Interp, envt: usize, items: &Vec<Val>) -> (r: Res)
    requires
        st.wf(),
        envt < st.n(),
        vals_ok(vals_view(items@), st.n()),
        items@.len() >= 1,
    ensures
        r matches Ok(v) ==> val_ok(v@, st.n()),
        outcome_of(r) == closure_out(envt as int, vals_view(items@)),
{
    let ghost iv = vals_view(items@);
    proof {
        lemma_vals_view(items@);
        lemma_vals_ok(iv, st.n());
    }
    if items.len() < 3 {
        return rerr(ErrType::Arg, "fn takes parameters and a body");
    }
    proof {
        assert(iv[1] == val_view(items@[1]));
        assert(iv[2] == val_view(items@[2]));
    }
    let mut names: Vec<String> = Vec::new();
    let mut variadic = false;
    match &items[1] {
        Val::Nil => {
            proof {
                assert(names.deep_view() =~= Seq::<Seq<char>>::empty());
            }
        },
        Val::Symbol(s) => {
            names.push(s.clone());
            variadic = true;
            proof {
                assert(names.deep_view() =~= seq![s@]);
            }
        },
        Val::List(ps) => {
            proof {
                lemma_vals_view(ps@);
                assert(vals_view(ps@).skip(0) =~= vals_view(ps@));
                assert(iv[1] == ValSpec::List(vals_view(ps@)));
            }
            let got = collect_syms(ps, 0)?;
            names = got;
        },
        Val::Vector(ps) => {
            proof {
                lemma_vals_view(ps@);
                assert(vals_view(ps@).skip(0) =~= vals_view(ps@));
                assert(iv[1] == ValSpec::Vector(vals_view(ps@)));
            }
            let got = collect_syms(ps, 0)?;
            names = got;
        },
        _ => {
            proof {
                assert(params_of(iv[1]) == ParamsR::Bad("expected an argument list"@));
            }
            return rerr(ErrType::Arg, "expected an argument list");
        },
    }
    let body = items[2].clone();
    proof {
        assert(val_ok(val_view(items@[2]), st.n()));
    }
    let out = Val::Func(Lambda::Function(Box::new(Function {
        args: names,
        variadic,
        envt,
        form: Box::new(body),
    })));
    proof {
        assert(val_view(out) == closure_out(envt as int, iv)->Val_0);
    }
    Ok(out)
}

} // verus!

verus! {

/// Composition steps for the evaluation relation: each lemma
/// introduces the existential witnesses of one unfolding.
#[verifier::rlimit(100)]
#[verifier::spinoff_prover]
proof fn lemma_evalvec_fail(s0: StateS, envt: int, items: Seq<ValSpec>, fuel: nat,
    s1: StateS, k: ErrType, m: Seq<char>)
    requires
        fuel >= 1,
        items.len() >= 1,
        eval_rel(s0, envt, items[0], (fuel - 1) as nat, s1, Outcome::Fail(k, m)),
    ensures
        evalvec_rel(s0, envt, items, fuel, s1, VecOut::Fail(k, m)),
{
    assert(vstd::pervasive::trigger(s1));
    assert(vstd::pervasive::trigger(Outcome::Fail(k, m)));
}

#[verifier::rlimit(100)]
#[verifier::spinoff_prover]
proof fn lemma_evalvec_step(s0: StateS, envt: int, items: Seq<ValSpec>, fuel: nat,
    sm: StateS, v: ValSpec, s1: StateS, vs: Seq<ValSpec>)
    requires
        fuel >= 1,
        items.len() >= 1,
        eval_rel(s0, envt, items[0], (fuel - 1) as nat, sm, Outcome::Val(v)),
        evalvec_rel(sm, envt, items.drop_first(), fuel, s1, VecOut::Vals(vs)),
    ensures
        evalvec_rel(s0, envt, items, fuel, s1, VecOut::Vals(seq![v] + vs)),
{
    assert(vstd::pervasive::trigger(sm));
    assert(vstd::pervasive::trigger(Outcome::Val(v)));
    assert(vstd::pervasive::trigger(VecOut::Vals(vs)));
}

#[verifier::rlimit(100)]
#[verifier::spinoff_prover]
proof fn lemma_evalvec_rest_fail(s0: StateS, envt: int, items: Seq<ValSpec>, fuel: nat,
    sm: StateS, v: ValSpec, s1: StateS, k: ErrType, m: Seq<char>)
    requires
        fuel >= 1,
        items.len() >= 1,
        eval_rel(s0, envt, items[0], (fuel - 1) as nat, sm, Outcome::Val(v)),
        evalvec_rel(sm, envt, items.drop_first(), fuel, s1, VecOut::Fail(k, m)),
    ensures
        evalvec_rel(s0, envt, items, fuel, s1, VecOut::Fail(k, m)),
{
    assert(vstd::pervasive::trigger(sm));
    assert(vstd::pervasive::trigger(Outcome::Val(v)));
    assert(vstd::pervasive::trigger(VecOut::Fail(k, m)));
}

#[verifier::rlimit(100)]
#[verifier::spinoff_prover]
proof fn lemma_evalpairs_fail(s0: StateS, envt: int, ps: Seq<(ValSpec, ValSpec)>, fuel: nat,
    s1: StateS, k: ErrType, m: Seq<char>)
    requires
        fuel >= 1,
        ps.len() >= 1,
        eval_rel(s0, envt, ps[0].1, (fuel - 1) as nat, s1, Outcome::Fail(k, m)),
    ensures
        evalpairs_rel(s0, envt, ps, fuel, s1, PairsOut::Fail(k, m)),
{
    assert(vstd::pervasive::trigger(s1));
    assert(vstd::pervasive::trigger(Outcome::Fail(k, m)));
}

#[verifier::rlimit(100)]
#[verifier::spinoff_prover]
proof fn lemma_evalpairs_step(s0: StateS, envt: int, ps: Seq<(ValSpec, ValSpec)>, fuel: nat,
    sm: StateS, v: ValSpec, s1: StateS, qs: Seq<(ValSpec, ValSpec)>)
    requires
        fuel >= 1,
        ps.len() >= 1,
        eval_rel(s0, envt, ps[0].1, (fuel - 1) as nat, sm, Outcome::Val(v)),
        evalpairs_rel(sm, envt, ps.drop_first(), fuel, s1, PairsOut::Pairs(qs)),
    ensures
        evalpairs_rel(s0, envt, ps, fuel, s1, PairsOut::Pairs(seq![(ps[0].0, v)] + qs)),
{
    assert(vstd::pervasive::trigger(sm));
    assert(vstd::pervasive::trigger(Outcome::Val(v)));
    assert(vstd::pervasive::trigger(PairsOut::Pairs(qs)));
}

#[verifier::rlimit(100)]
#[verifier::spinoff_prover]
proof fn lemma_evalpairs_rest_fail(s0: StateS, envt: int, ps: Seq<(ValSpec, ValSpec)>,
    fuel: nat, sm: StateS, v: ValSpec, s1: StateS, k: ErrType, m: Seq<char>)
    requires
        fuel >= 1,
        ps.len() >= 1,
        eval_rel(s0, envt, ps[0].1, (fuel - 1) as nat, sm, Outcome::Val(v)),
        evalpairs_rel(sm, envt, ps.drop_first(), fuel, s1, PairsOut::Fail(k, m)),
    ensures
        evalpairs_rel(s0, envt, ps, fuel, s1, PairsOut::Fail(k, m)),
{
    assert(vstd::pervasive::trigger(sm));
    assert(vstd::pervasive::trigger(Outcome::Val(v)));
    assert(vstd::pervasive::trigger(PairsOut::Fail(k, m)));
}

#[verifier::rlimit(100)]
#[verifier::spinoff_prover]
proof fn lemma_eval_vector(s0: StateS, envt: int, items: Seq<ValSpec>, fuel: nat,
    s1: StateS, o: VecOut)
    requires
        fuel >= 1,
        evalvec_rel(s0, envt, items, (fuel - 1) as nat, s1, o),
    ensures
        o matches VecOut::Vals(vs) ==> eval_rel(s0, envt, ValSpec::Vector(items), fuel, s1,
            Outcome::Val(ValSpec::Vector(vs))),
        o matches VecOut::Fail(k, m) ==> eval_rel(s0, envt, ValSpec::Vector(items), fuel,
            s1, Outcome::Fail(k, m)),
{
    assert(vstd::pervasive::trigger(o));
    match o {
        VecOut::Vals(vs) => {
            assert(vector_ex(s0, envt, items, (fuel - 1) as nat, s1,
                Outcome::Val(ValSpec::Vector(vs))));
        },
        VecOut::Fail(k, m) => {
            assert(vector_ex(s0, envt, items, (fuel - 1) as nat, s1,
                Outcome::Fail(k, m)));
        },
    }
}

#[verifier::rlimit(100)]
#[verifier::spinoff_prover]
proof fn lemma_eval_table(s0: StateS, envt: int, ps: Seq<(ValSpec, ValSpec)>, fuel: nat,
    s1: StateS, o: PairsOut)
    requires
        fuel >= 1,
        evalpairs_rel(s0, envt, ps, (fuel - 1) as nat, s1, o),
    ensures
        o matches PairsOut::Pairs(qs) ==> eval_rel(s0, envt, ValSpec::Table(ps), fuel, s1,
            Outcome::Val(ValSpec::Table(qs))),
        o matches PairsOut::Fail(k, m) ==> eval_rel(s0, envt, ValSpec::Table(ps), fuel,
            s1, Outcome::Fail(k, m)),
{
    assert(vstd::pervasive::trigger(o));
    match o {
        PairsOut::Pairs(qs) => {
            assert(table_ex(s0, envt, ps, (fuel - 1) as nat, s1,
                Outcome::Val(ValSpec::Table(qs))));
        },
        PairsOut::Fail(k, m) => {
            assert(table_ex(s0, envt, ps, (fuel - 1) as nat, s1, Outcome::Fail(k, m)));
        },
    }
}

#[verifier::rlimit(100)]
#[verifier::spinoff_prover]
proof fn lemma_doseq_fail(s0: StateS, envt: int, forms: Seq<ValSpec>, fuel: nat,
    s1: StateS, k: ErrType, m: Seq<char>)
    requires
        fuel >= 1,
        forms.len() >= 1,
        eval_rel(s0, envt, forms[0], (fuel - 1) as nat, s1, Outcome::Fail(k, m)),
    ensures
        doseq_rel(s0, envt, forms, fuel, s1, Outcome::Fail(k, m)),
{
    assert(vstd::pervasive::trigger(s1));
    assert(vstd::pervasive::trigger(Outcome::Fail(k, m)));
}

#[verifier::rlimit(100)]
#[verifier::spinoff_prover]
proof fn lemma_doseq_last(s0: StateS, envt: int, forms: Seq<ValSpec>, fuel: nat,
    s1: StateS, v: ValSpec)
    requires
        fuel >= 1,
        forms.len() == 1,
        eval_rel(s0, envt, forms[0], (fuel - 1) as nat, s1, Outcome::Val(v)),
    ensures
        doseq_rel(s0, envt, forms, fuel, s1, Outcome::Val(v)),
{
    assert(vstd::pervasive::trigger(s1));
    assert(vstd::pervasive::trigger(Outcome::Val(v)));
}

#[verifier::rlimit(100)]
#[verifier::spinoff_prover]
proof fn lemma_doseq_step(s0: StateS, envt: int, forms: Seq<ValSpec>, fuel: nat,
    sm: StateS, v: ValSpec, s1: StateS, r: Outcome)
    requires
        fuel >= 1,
        forms.len() >= 2,
        eval_rel(s0, envt, forms[0], (fuel - 1) as nat, sm, Outcome::Val(v)),
        doseq_rel(sm, envt, forms.drop_first(), fuel, s1, r),
    ensures
        doseq_rel(s0, envt, forms, fuel, s1, r),
{
    assert(vstd::pervasive::trigger(sm));
    assert(vstd::pervasive::trigger(Outcome::Val(v)));
}

#[verifier::rlimit(100)]
#[verifier::spinoff_prover]
proof fn lemma_define_eval(s0: StateS, envt: int, items: Seq<ValSpec>, fuel: nat,
    sm: StateS, r1: Outcome, s1: StateS, r: Outcome)
    requires
        fuel >= 1,
        items.len() >= 3,
        items[1] is Symbol,
        eval_rel(s0, envt, items[2], (fuel - 1) as nat, sm, r1),
        match r1 {
            Outcome::Fail(k, m) => s1 == sm && r == Outcome::Fail(k, m),
            Outcome::Val(v) => s1 == (StateS {
                scopes: set_in(sm.scopes, envt, items[1]->Symbol_0, v),
                emitted: sm.emitted,
            }) && r == Outcome::Val(v),
        },
    ensures
        define_rel(s0, envt, items, fuel, s1, r),
{
    assert(vstd::pervasive::trigger(sm));
    assert(vstd::pervasive::trigger(r1));
    assert(define_ex(s0, envt, items, (fuel - 1) as nat, s1, r));
}

#[verifier::rlimit(100)]
#[verifier::spinoff_prover]
proof fn lemma_doif_eval(s0: StateS, envt: int, items: Seq<ValSpec>, fuel: nat,
    sm: StateS, r1: Outcome, s1: StateS, r: Outcome)
    requires
        fuel >= 1,
        items.len() >= 3,
        eval_rel(s0, envt, items[1], (fuel - 1) as nat, sm, r1),
        match r1 {
            Outcome::Fail(k, m) => s1 == sm && r == Outcome::Fail(k, m),
            Outcome::Val(c) => if crate::types::is_truthy(c) {
                eval_rel(sm, envt, items[2], (fuel - 1) as nat, s1, r)
            } else if items.len() >= 4 {
                eval_rel(sm, envt, items[3], (fuel - 1) as nat, s1, r)
            } else {
                s1 == sm && r == Outcome::Val(ValSpec::Nil)
            },
        },
    ensures
        doif_rel(s0, envt, items, fuel, s1, r),
{
    assert(vstd::pervasive::trigger(sm));
    assert(vstd::pervasive::trigger(r1));
    assert(doif_ex(s0, envt, items, (fuel - 1) as nat, s1, r));
}

#[verifier::rlimit(100)]
#[verifier::spinoff_prover]
proof fn lemma_dolet_chain(s0: StateS, envt: int, items: Seq<ValSpec>, fuel: nat,
    sm: StateS, bo: BindOut, s1: StateS, r: Outcome)
    requires
        fuel >= 1,
        items.len() >= 2,
        items[1] is List || items[1] is Vector,
        letbinds_rel(
            StateS { scopes: push_child(s0.scopes, envt), emitted: s0.emitted },
            s0.scopes.len() as int,
            if items[1] is List { items[1]->List_0 } else { items[1]->Vector_0 },
            fuel, sm, bo),
        match bo {
            BindOut::Fail(k, m) => s1 == sm && r == Outcome::Fail(k, m),
            BindOut::Done => if items.len() < 3 {
                s1 == sm && r == Outcome::Val(ValSpec::Nil)
            } else {
                eval_rel(sm, s0.scopes.len() as int, items[2], (fuel - 1) as nat, s1, r)
            },
        },
    ensures
        dolet_rel(s0, envt, items, fuel, s1, r),
{
    assert(vstd::pervasive::trigger(sm));
    assert(vstd::pervasive::trigger(bo));
    assert(dolet_ex(s0, envt, items, fuel, s1, r));
}

#[verifier::rlimit(100)]
#[verifier::spinoff_prover]
proof fn lemma_letbinds_sym(s0: StateS, child: int, bs: Seq<ValSpec>, fuel: nat,
    sm: StateS, r1: Outcome, s1: StateS, bo: BindOut)
    requires
        fuel >= 1,
        bs.len() >= 2,
        bs[0] is Symbol,
        eval_rel(s0, child, bs[1], (fuel - 1) as nat, sm, r1),
        match r1 {
            Outcome::Fail(k, m) => s1 == sm && bo == BindOut::Fail(k, m),
            Outcome::Val(v) => letbinds_rel(
                StateS {
                    scopes: set_in(sm.scopes, child, bs[0]->Symbol_0, v),
                    emitted: sm.emitted,
                },
                child, bs.skip(2), fuel, s1, bo),
        },
    ensures
        letbinds_rel(s0, child, bs, fuel, s1, bo),
{
    assert(vstd::pervasive::trigger(sm));
    assert(vstd::pervasive::trigger(r1));
}

#[verifier::rlimit(100)]
#[verifier::spinoff_prover]
proof fn lemma_letbinds_pair(s0: StateS, child: int, bs: Seq<ValSpec>, fuel: nat,
    sm: StateS, r1: Outcome, s1: StateS, bo: BindOut)
    requires
        fuel >= 1,
        bs.len() >= 1,
        bs[0] is List,
        bs[0]->List_0.len() == 2,
        bs[0]->List_0[0] is Symbol,
        eval_rel(s0, child, bs[0]->List_0[1], (fuel - 1) as nat, sm, r1),
        match r1 {
            Outcome::Fail(k, m) => s1 == sm && bo == BindOut::Fail(k, m),
            Outcome::Val(v) => letbinds_rel(
                StateS {
                    scopes: set_in(sm.scopes, child, bs[0]->List_0[0]->Symbol_0, v),
                    emitted: sm.emitted,
                },
                child, bs.drop_first(), fuel, s1, bo),
        },
    ensures
        letbinds_rel(s0, child, bs, fuel, s1, bo),
{
    assert(vstd::pervasive::trigger(sm));
    assert(vstd::pervasive::trigger(r1));
}

#[verifier::rlimit(100)]
#[verifier::spinoff_prover]
proof fn lemma_apply_app(s0: StateS, envt: int, items: Seq<ValSpec>, fuel: nat,
    sm: StateS, o: VecOut, s1: StateS, r: Outcome)
    requires
        fuel >= 1,
        items.len() >= 1,
        !(items[0] == ValSpec::Symbol("def!"@)),
        !(items[0] == ValSpec::Symbol("let"@)),
        !(items[0] == ValSpec::Symbol("let*"@)),
        !(items[0] == ValSpec::Symbol("do"@)),
        !(items[0] == ValSpec::Symbol("if"@)),
        !(items[0] == ValSpec::Symbol("fn"@)),
        !(items[0] == ValSpec::Symbol("fn*"@)),
        evalvec_rel(s0, envt, items, (fuel - 1) as nat, sm, o),
        match o {
            VecOut::Fail(k, m) => s1 == sm && r == Outcome::Fail(k, m),
            VecOut::Vals(vs) => apply_val_rel(sm, vs, (fuel - 1) as nat, s1, r),
        },
    ensures
        apply_rel(s0, envt, items, fuel, s1, r),
{
    assert(vstd::pervasive::trigger(sm));
    assert(vstd::pervasive::trigger(o));
    assert(apply_ex(s0, envt, items, (fuel - 1) as nat, s1, r));
}

} // verus!
