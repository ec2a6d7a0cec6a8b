//! The fixed table of native callables: list and equality primitives
//! here, arithmetic and comparisons in [`math`].

use vstd::prelude::*;

pub mod math;

use crate::error::{rerr, ErrType};
use crate::types::{val_view, vals_view, lemma_vals_view, vals_equal, Res, Val, ValSpec};

verus! {

broadcast use vstd::seq::group_seq_axioms;

/// Whether the first argument is a list.
pub fn list_p(args: &Vec<Val>) -> (r: Res)
    ensures
        r matches Ok(v) ==> (forall|m: int| crate::types::vals_ok(vals_view(args@), m)
            ==> crate::types::val_ok(v@, m)),
        r matches Ok(v) && v@ == (if args@.len() >= 1 && val_view(args@[0]) is List {
            ValSpec::True
        } else {
            ValSpec::False
        }),
{
    proof {
        lemma_vals_view(args@);
    }
    if args.len() >= 1 && matches!(&args[0], Val::List(_)) {
        Ok(Val::True)
    } else {
        Ok(Val::False)
    }
}

/// The length of a list; `nil` counts as empty; anything else is a
/// type error.
pub fn count(args: &Vec<Val>) -> (r: Res)
    ensures
        r matches Ok(v) ==> (forall|m: int| crate::types::vals_ok(vals_view(args@), m)
            ==> crate::types::val_ok(v@, m)),
        args@.len() >= 1 && val_view(args@[0]) is List
            && val_view(args@[0])->List_0.len() <= i64::MAX
            ==> (r matches Ok(v)
                && v@ == ValSpec::Int(val_view(args@[0])->List_0.len() as int)),
        args@.len() >= 1 && val_view(args@[0]) is Nil
            ==> (r matches Ok(v) && v@ == ValSpec::Int(0)),
        args@.len() == 0 || !(val_view(args@[0]) is List || val_view(args@[0]) is Nil)
            ==> (r matches Err(e) && e.kind == ErrType::Type),
{
    if args.len() == 0 {
        return rerr(ErrType::Type, "count requires a countable argument");
    }
    match &args[0] {
        Val::List(items) => {
            proof {
                lemma_vals_view(items@);
                assert(val_view(args@[0]) == ValSpec::List(vals_view(items@)));
                assert(vals_view(items@).len() == items@.len());
            }
            if items.len() as u64 <= i64::MAX as u64 {
                Ok(Val::Int(items.len() as i64))
            } else {
                rerr(ErrType::Type, "count requires a countable argument")
            }
        },
        Val::Nil => Ok(Val::Int(0)),
        _ => rerr(ErrType::Type, "count requires a countable argument"),
    }
}

/// Whether the first argument is an empty list (or `nil`).
pub fn is_empty(args: &Vec<Val>) -> (r: Res)
    ensures
        r matches Ok(v) ==> (forall|m: int| crate::types::vals_ok(vals_view(args@), m)
            ==> crate::types::val_ok(v@, m)),
        args@.len() >= 1 && val_view(args@[0]) is List
            && val_view(args@[0])->List_0.len() <= i64::MAX
            ==> (r matches Ok(v) && v@ == (if val_view(args@[0])->List_0.len() == 0 {
                ValSpec::True
            } else {
                ValSpec::False
            })),
        args@.len() >= 1 && val_view(args@[0]) is Nil
            ==> (r matches Ok(v) && v@ == ValSpec::True),
        args@.len() == 0 || !(val_view(args@[0]) is List || val_view(args@[0]) is Nil)
            ==> (r matches Err(e) && e.kind == ErrType::Type),
{
    let c = count(args)?;
    match c {
        Val::Int(n) => if n == 0 {
            Ok(Val::True)
        } else {
            Ok(Val::False)
        },
        _ => rerr(ErrType::Type, "count requires a countable argument"),
    }
}

/// The arguments, as a list.
pub fn make_list(args: &Vec<Val>) -> (r: Res)
    ensures
        r matches Ok(v) ==> (forall|m: int| crate::types::vals_ok(vals_view(args@), m)
            ==> crate::types::val_ok(v@, m)),
        r matches Ok(v) && v@ == ValSpec::List(vals_view(args@)),
{
    Ok(Val::List(crate::types::clone_vals(args)))
}

/// Structural equality of the first two arguments; callables never
/// compare equal.
pub fn equal(args: &Vec<Val>) -> (r: Res)
    ensures
        r matches Ok(v) ==> (forall|m: int| crate::types::vals_ok(vals_view(args@), m)
            ==> crate::types::val_ok(v@, m)),
        args@.len() >= 2 ==> (r matches Ok(v) && v@ == (
            if vals_equal(val_view(args@[0]), val_view(args@[1])) {
                ValSpec::True
            } else {
                ValSpec::False
            })),
        args@.len() < 2 ==> (r matches Err(e) && e.kind == ErrType::Arg),
{
    if args.len() < 2 {
        return rerr(ErrType::Arg, "= requires two arguments");
    }
    if crate::types::val_eq(&args[0], &args[1]) {
        Ok(Val::True)
    } else {
        Ok(Val::False)
    }
}

/// The line `prn` emits: each argument's text with a leading space.
pub open spec fn prn_line(s: Seq<ValSpec>) -> Seq<char>
    decreases s.len(),
{
    if s.len() == 0 {
        Seq::empty()
    } else {
        prn_line(s.drop_last()) + seq![' '] + crate::printer::print_spec(s.last())
    }
}

/// Render every argument onto one emitted line and yield `nil`. The
/// driver displays the emitted lines.
pub fn prn<F: crate::floats::FloatOps>(ops: &F, emitted: &mut Vec<String>, args: &Vec<Val>)
    -> (r: Res)
    ensures
        r matches Ok(v) ==> (forall|m: int| crate::types::vals_ok(vals_view(args@), m)
            ==> crate::types::val_ok(v@, m)),
        final(emitted)@.len() == old(emitted)@.len() + 1,
        forall|j: int| 0 <= j < old(emitted)@.len()
            ==> final(emitted)@[j] == old(emitted)@[j],
        crate::types::vals_float_free(vals_view(args@))
            ==> final(emitted)@.last()@ == prn_line(vals_view(args@)),
        r matches Ok(v) && v@ == ValSpec::Nil,
{
    let ghost tv = vals_view(args@);
    proof {
        lemma_vals_view(args@);
        crate::types::lemma_vals_float_free(tv);
        assert(tv.take(0) =~= Seq::<ValSpec>::empty());
    }
    let mut line = String::new();
    let mut i: usize = 0;
    while i < args.len()
        invariant
            i <= args@.len(),
            tv == vals_view(args@),
            tv.len() == args@.len(),
            forall|j: int| 0 <= j < tv.len() ==> tv[j] == val_view(args@[j]),
            (forall|j: int| 0 <= j < i ==> crate::types::float_free(#[trigger] tv[j]))
                ==> line@ == prn_line(tv.take(i as int)),
        decreases args@.len() - i,
    {
        let piece = crate::printer::pr_str(ops, &args[i]);
        line.push(' ');
        line.append(piece.as_str());
        i = i + 1;
        proof {
            assert(tv.take(i as int).drop_last() =~= tv.take(i as int - 1));
            assert(tv.take(i as int).last() == tv[i as int - 1]);
            if forall|j: int| 0 <= j < i ==> crate::types::float_free(#[trigger] tv[j]) {
                assert(line@ =~= prn_line(tv.take(i as int)));
            }
        }
    }
    proof {
        assert(tv.take(tv.len() as int) =~= tv);
    }
    emitted.push(line);
    Ok(Val::Nil)
}

} // verus!

verus! {

/// Apply a native callable to already-evaluated arguments. Only `prn`
/// touches the interpreter state, and only its emitted lines.
#[verifier::rlimit(100)]
#[verifier::spinoff_prover]
pub fn call<F: crate::floats::FloatOps>(
    ops: &F,
    st: &mut crate::env::Interp,
    b: crate::types::Builtin,
    args: &Vec<Val>,
) -> (r: Res)
    requires
        old(st).wf(),
        crate::types::vals_ok(vals_view(args@), old(st).n()),
    ensures
        final(st).wf(),
        final(st).n() == old(st).n(),
        final(st).scopes == old(st).scopes,
        r matches Ok(v) ==> crate::types::val_ok(v@, final(st).n()),
        builtin_rel(b, vals_view(args@), old(st).emitted.deep_view(),
            final(st).emitted.deep_view(), crate::types::outcome_of(r)),
{
    let ghost em0 = st.emitted.deep_view();
    proof {
        lemma_vals_view(args@);
    }
    let r = match b {
        crate::types::Builtin::Add => {
            let r = math::add(ops, args);
            proof {
                assert(b == crate::types::Builtin::Add);
                assert(math::all_ints(vals_view(args@))
                    ==> crate::types::outcome_of(r) == crate::types::Outcome::Val(
                        ValSpec::Int(math::sum_wrap(vals_view(args@)))));
                assert(math::all_numeric(vals_view(args@))
                    && !math::all_ints(vals_view(args@))
                    ==> (crate::types::outcome_of(r) matches crate::types::Outcome::Val(v)
                        && v is Float));
                assert(!math::all_numeric(vals_view(args@))
                    ==> fail_arg(crate::types::outcome_of(r)));
                assert(builtin_res_rel(b, vals_view(args@), crate::types::outcome_of(r)));
            }
            r
        },
        crate::types::Builtin::Sub => {
            let r = math::sub(ops, args);
            proof {
                let av = vals_view(args@);
                let oc = crate::types::outcome_of(r);
                assert(av.len() == args@.len());
                assert(args@.len() == 0 ==> fail_arg(oc));
                assert(args@.len() > 0 && math::all_ints(av)
                    ==> oc == crate::types::Outcome::Val(ValSpec::Int(math::sub_fold(av))));
                assert(args@.len() > 0 && math::all_numeric(av) && !math::all_ints(av)
                    ==> (oc matches crate::types::Outcome::Val(v) && v is Float));
                assert(!math::all_numeric(av) ==> fail_arg(oc));
                assert(builtin_res_rel(b, vals_view(args@), crate::types::outcome_of(r)));
            }
            r
        },
        crate::types::Builtin::Mul => {
            let r = math::mul(ops, args);
            proof {
                let av = vals_view(args@);
                let oc = crate::types::outcome_of(r);
                assert(math::all_ints(av)
                    ==> oc == crate::types::Outcome::Val(ValSpec::Int(math::prod_wrap(av))));
                assert(math::all_numeric(av) && !math::all_ints(av)
                    ==> (oc matches crate::types::Outcome::Val(v) && v is Float));
                assert(!math::all_numeric(av) ==> fail_arg(oc));
                assert(builtin_res_rel(b, vals_view(args@), crate::types::outcome_of(r)));
            }
            r
        },
        crate::types::Builtin::Div => {
            let r = math::div(ops, args);
            proof {
                let av = vals_view(args@);
                let oc = crate::types::outcome_of(r);
                assert(av.len() == args@.len());
                assert(args@.len() == 0 ==> fail_arg(oc));
                assert(args@.len() == 1 ==> oc == crate::types::Outcome::Val(av[0]));
                assert(args@.len() >= 2 && av[1] == ValSpec::Int(0) ==> fail_arg(oc));
                assert(args@.len() >= 2 && av[1] is Float
                    && crate::floats::f64_is_zero(av[1]->Float_0) ==> fail_arg(oc));
                assert(args@.len() >= 2 && av[0] is Int && av[1] is Int
                    && av[1]->Int_0 != 0 && math::t_mod(av[0]->Int_0, av[1]->Int_0) == 0
                    ==> oc == crate::types::Outcome::Val(ValSpec::Int(
                        math::w64(math::t_div(av[0]->Int_0, av[1]->Int_0)))));
                assert(args@.len() >= 2 && av[0] is Int && av[1] is Int
                    && av[1]->Int_0 != 0 && math::t_mod(av[0]->Int_0, av[1]->Int_0) != 0
                    ==> (oc matches crate::types::Outcome::Val(v) && v is Float));
                assert(args@.len() >= 2 && math::is_numeric(av[0]) && math::is_numeric(av[1])
                    && !(av[0] is Int && av[1] is Int) && !(av[1] == ValSpec::Int(0))
                    && !(av[1] is Float && crate::floats::f64_is_zero(av[1]->Float_0))
                    ==> (oc matches crate::types::Outcome::Val(v) && v is Float));
                assert(args@.len() >= 2
                    && !(math::is_numeric(av[0]) && math::is_numeric(av[1]))
                    && !(av[1] == ValSpec::Int(0))
                    && !(av[1] is Float && crate::floats::f64_is_zero(av[1]->Float_0))
                    ==> fail_arg(oc));
                assert(builtin_res_rel(b, vals_view(args@), crate::types::outcome_of(r)));
            }
            r
        },
        crate::types::Builtin::IntDiv => {
            let r = math::int_div(args);
            proof {
                let av = vals_view(args@);
                let oc = crate::types::outcome_of(r);
                assert(av.len() == args@.len());
                assert(args@.len() < 2 ==> fail_arg(oc));
                assert(args@.len() >= 2 && av[1] == ValSpec::Int(0) ==> fail_arg(oc));
                assert(args@.len() >= 2 && av[0] is Int && av[1] is Int && av[1]->Int_0 != 0
                    ==> oc == crate::types::Outcome::Val(ValSpec::Int(
                        math::w64(math::t_div(av[0]->Int_0, av[1]->Int_0)))));
                assert(args@.len() >= 2 && !(av[0] is Int && av[1] is Int)
                    && !(av[1] == ValSpec::Int(0)) ==> fail_arg(oc));
                assert(builtin_res_rel(b, vals_view(args@), crate::types::outcome_of(r)));
            }
            r
        },
        crate::types::Builtin::IntMod => {
            let r = math::int_mod(args);
            proof {
                let av = vals_view(args@);
                let oc = crate::types::outcome_of(r);
                assert(av.len() == args@.len());
                assert(args@.len() < 2 ==> fail_arg(oc));
                assert(args@.len() >= 2 && av[1] == ValSpec::Int(0) ==> fail_arg(oc));
                assert(args@.len() >= 2 && av[0] is Int && av[1] is Int && av[1]->Int_0 != 0
                    ==> oc == crate::types::Outcome::Val(ValSpec::Int(
                        math::t_mod(av[0]->Int_0, av[1]->Int_0))));
                assert(args@.len() >= 2 && !(av[0] is Int && av[1] is Int)
                    && !(av[1] == ValSpec::Int(0)) ==> fail_arg(oc));
                assert(builtin_res_rel(b, vals_view(args@), crate::types::outcome_of(r)));
            }
            r
        },
        crate::types::Builtin::Sqrt => {
            let r = math::sqrt(ops, args);
            proof {
                let av = vals_view(args@);
                let oc = crate::types::outcome_of(r);
                assert(av.len() == args@.len());
                assert(args@.len() == 0 ==> fail_arg(oc));
                assert(args@.len() >= 1 && av[0] is Int && av[0]->Int_0 >= 0
                    ==> (oc matches crate::types::Outcome::Val(v) && v is Float));
                assert(args@.len() >= 1 && av[0] is Int && av[0]->Int_0 < 0 ==> fail_arg(oc));
                assert(args@.len() >= 1 && av[0] is Float
                    && !crate::floats::f64_is_neg(av[0]->Float_0)
                    ==> (oc matches crate::types::Outcome::Val(v) && v is Float));
                assert(args@.len() >= 1 && av[0] is Float
                    && crate::floats::f64_is_neg(av[0]->Float_0) ==> fail_arg(oc));
                assert(args@.len() >= 1 && !math::is_numeric(av[0]) ==> fail_arg(oc));
                assert(builtin_res_rel(b, vals_view(args@), crate::types::outcome_of(r)));
            }
            r
        },
        crate::types::Builtin::Lt => {
            let r = math::less_than(ops, args);
            proof {
                let av = vals_view(args@);
                let oc = crate::types::outcome_of(r);
                assert(av.len() == args@.len());
                assert(args@.len() < 2 ==> fail_arg(oc));
                assert(args@.len() >= 2 && av[0] is Int && av[1] is Int
                    ==> oc == crate::types::Outcome::Val(math::int_cmp_val(
                        av[0]->Int_0, av[1]->Int_0, true, false, false)));
                assert(args@.len() >= 2 && av[0] is Float && av[1] is Float
                    ==> oc == crate::types::Outcome::Val(math::float_cmp_val(
                        av[0]->Float_0, av[1]->Float_0, true, false, false)));
                assert(args@.len() >= 2 && math::is_numeric(av[0]) && math::is_numeric(av[1])
                    && !(av[0] is Int && av[1] is Int)
                    && !(av[0] is Float && av[1] is Float)
                    ==> (oc matches crate::types::Outcome::Val(v) && (v is True || v is False)));
                assert(args@.len() >= 2
                    && !(math::is_numeric(av[0]) && math::is_numeric(av[1]))
                    ==> fail_arg(oc));
                assert(builtin_res_rel(b, vals_view(args@), crate::types::outcome_of(r)));
            }
            r
        },
        crate::types::Builtin::Le => {
            let r = math::less_or_eq(ops, args);
            proof {
                let av = vals_view(args@);
                let oc = crate::types::outcome_of(r);
                assert(av.len() == args@.len());
                assert(args@.len() < 2 ==> fail_arg(oc));
                assert(args@.len() >= 2 && av[0] is Int && av[1] is Int
                    ==> oc == crate::types::Outcome::Val(math::int_cmp_val(
                        av[0]->Int_0, av[1]->Int_0, true, true, false)));
                assert(args@.len() >= 2 && av[0] is Float && av[1] is Float
                    ==> oc == crate::types::Outcome::Val(math::float_cmp_val(
                        av[0]->Float_0, av[1]->Float_0, true, true, false)));
                assert(args@.len() >= 2 && math::is_numeric(av[0]) && math::is_numeric(av[1])
                    && !(av[0] is Int && av[1] is Int)
                    && !(av[0] is Float && av[1] is Float)
                    ==> (oc matches crate::types::Outcome::Val(v) && (v is True || v is False)));
                assert(args@.len() >= 2
                    && !(math::is_numeric(av[0]) && math::is_numeric(av[1]))
                    ==> fail_arg(oc));
                assert(builtin_res_rel(b, vals_view(args@), crate::types::outcome_of(r)));
            }
            r
        },
        crate::types::Builtin::Gt => {
            let r = math::greater_than(ops, args);
            proof {
                let av = vals_view(args@);
                let oc = crate::types::outcome_of(r);
                assert(av.len() == args@.len());
                assert(args@.len() < 2 ==> fail_arg(oc));
                assert(args@.len() >= 2 && av[0] is Int && av[1] is Int
                    ==> oc == crate::types::Outcome::Val(math::int_cmp_val(
                        av[0]->Int_0, av[1]->Int_0, false, false, true)));
                assert(args@.len() >= 2 && av[0] is Float && av[1] is Float
                    ==> oc == crate::types::Outcome::Val(math::float_cmp_val(
                        av[0]->Float_0, av[1]->Float_0, false, false, true)));
                assert(args@.len() >= 2 && math::is_numeric(av[0]) && math::is_numeric(av[1])
                    && !(av[0] is Int && av[1] is Int)
                    && !(av[0] is Float && av[1] is Float)
                    ==> (oc matches crate::types::Outcome::Val(v) && (v is True || v is False)));
                assert(args@.len() >= 2
                    && !(math::is_numeric(av[0]) && math::is_numeric(av[1]))
                    ==> fail_arg(oc));
                assert(builtin_res_rel(b, vals_view(args@), crate::types::outcome_of(r)));
            }
            r
        },
        crate::types::Builtin::Ge => {
            let r = math::greater_or_eq(ops, args);
            proof {
                let av = vals_view(args@);
                let oc = crate::types::outcome_of(r);
                assert(av.len() == args@.len());
                assert(args@.len() < 2 ==> fail_arg(oc));
                assert(args@.len() >= 2 && av[0] is Int && av[1] is Int
                    ==> oc == crate::types::Outcome::Val(math::int_cmp_val(
                        av[0]->Int_0, av[1]->Int_0, false, true, true)));
                assert(args@.len() >= 2 && av[0] is Float && av[1] is Float
                    ==> oc == crate::types::Outcome::Val(math::float_cmp_val(
                        av[0]->Float_0, av[1]->Float_0, false, true, true)));
                assert(args@.len() >= 2 && math::is_numeric(av[0]) && math::is_numeric(av[1])
                    && !(av[0] is Int && av[1] is Int)
                    && !(av[0] is Float && av[1] is Float)
                    ==> (oc matches crate::types::Outcome::Val(v) && (v is True || v is False)));
                assert(args@.len() >= 2
                    && !(math::is_numeric(av[0]) && math::is_numeric(av[1]))
                    ==> fail_arg(oc));
                assert(builtin_res_rel(b, vals_view(args@), crate::types::outcome_of(r)));
            }
            r
        },
        crate::types::Builtin::Equal => {
            let r = equal(args);
            proof {
                let av = vals_view(args@);
                let oc = crate::types::outcome_of(r);
                assert(av.len() == args@.len());
                assert(args@.len() >= 2 ==> oc == crate::types::Outcome::Val(
                    if vals_equal(av[0], av[1]) { ValSpec::True } else { ValSpec::False }));
                assert(args@.len() < 2 ==> fail_arg(oc));
                assert(builtin_res_rel(b, vals_view(args@), crate::types::outcome_of(r)));
            }
            r
        },
        crate::types::Builtin::ListP => {
            let r = list_p(args);
            proof {
                let av = vals_view(args@);
                let oc = crate::types::outcome_of(r);
                assert(av.len() == args@.len());
                assert(oc == crate::types::Outcome::Val(if args@.len() >= 1 && av[0] is List {
                    ValSpec::True
                } else {
                    ValSpec::False
                }));
                assert(builtin_res_rel(b, vals_view(args@), crate::types::outcome_of(r)));
            }
            r
        },
        crate::types::Builtin::Count => {
            let r = count(args);
            proof {
                let av = vals_view(args@);
                let oc = crate::types::outcome_of(r);
                assert(av.len() == args@.len());
                assert(args@.len() >= 1 && av[0] is List && av[0]->List_0.len() <= i64::MAX
                    ==> oc == crate::types::Outcome::Val(ValSpec::Int(av[0]->List_0.len() as int)));
                assert(args@.len() >= 1 && av[0] is Nil ==> oc == crate::types::Outcome::Val(ValSpec::Int(0)));
                assert(args@.len() == 0 || !(av[0] is List || av[0] is Nil)
                    ==> (oc matches crate::types::Outcome::Fail(k, _) && k == crate::error::ErrType::Type));
                assert(builtin_res_rel(b, vals_view(args@), crate::types::outcome_of(r)));
            }
            r
        },
        crate::types::Builtin::EmptyP => {
            let r = is_empty(args);
            proof {
                let av = vals_view(args@);
                let oc = crate::types::outcome_of(r);
                assert(av.len() == args@.len());
                assert(args@.len() >= 1 && av[0] is List && av[0]->List_0.len() <= i64::MAX
                    ==> oc == crate::types::Outcome::Val(if av[0]->List_0.len() == 0 { ValSpec::True } else {
                        ValSpec::False
                    }));
                assert(args@.len() >= 1 && av[0] is Nil ==> oc == crate::types::Outcome::Val(ValSpec::True));
                assert(args@.len() == 0 || !(av[0] is List || av[0] is Nil)
                    ==> (oc matches crate::types::Outcome::Fail(k, _) && k == crate::error::ErrType::Type));
                assert(builtin_res_rel(b, vals_view(args@), crate::types::outcome_of(r)));
            }
            r
        },
        crate::types::Builtin::MakeList => {
            let r = make_list(args);
            proof {
                let av = vals_view(args@);
                let oc = crate::types::outcome_of(r);
                assert(oc == crate::types::Outcome::Val(ValSpec::List(av)));
                assert(builtin_res_rel(b, vals_view(args@), crate::types::outcome_of(r)));
            }
            r
        },
        crate::types::Builtin::Prn => prn(ops, &mut st.emitted, args),
    };
    proof {
        assert(forall|i: int| 0 <= i < st.n() ==> st.scope(i) == old(st).scope(i));
        assert forall|i: int| 0 <= i < st.n() implies #[trigger] st.scope_wf(i) by {
            assert(old(st).scope_wf(i));
        }
        if b is Prn {
            let em1 = st.emitted.deep_view();
            let line = st.emitted@.last()@;
            assert(vstd::pervasive::trigger(line));
            assert forall|j: int| 0 <= j < em1.len()
                implies em1[j] == em0.push(line)[j] by {
                if j < em0.len() {
                    assert(st.emitted@[j] == old(st).emitted@[j]);
                }
            }
            assert(em1 =~= em0.push(line));
        } else {
            assert(st.emitted == old(st).emitted);
        }
    }
    r
}

} // verus!

verus! {

/// What each pure native callable yields, as the evaluation relation
/// states it; the clauses restate the callables' own contracts over
/// outcomes.
pub open spec fn builtin_res_rel(b: crate::types::Builtin, args: Seq<ValSpec>,
    r: crate::types::Outcome) -> bool {
    match b {
        crate::types::Builtin::Add => {
            &&& math::all_ints(args) ==> r == crate::types::Outcome::Val(
                ValSpec::Int(math::sum_wrap(args)))
            &&& math::all_numeric(args) && !math::all_ints(args)
                ==> (r matches crate::types::Outcome::Val(v) && v is Float)
            &&& !math::all_numeric(args) ==> fail_arg(r)
        },
        crate::types::Builtin::Sub => {
            &&& args.len() == 0 ==> fail_arg(r)
            &&& args.len() > 0 && math::all_ints(args) ==> r == crate::types::Outcome::Val(
                ValSpec::Int(math::sub_fold(args)))
            &&& args.len() > 0 && math::all_numeric(args) && !math::all_ints(args)
                ==> (r matches crate::types::Outcome::Val(v) && v is Float)
            &&& !math::all_numeric(args) ==> fail_arg(r)
        },
        crate::types::Builtin::Mul => {
            &&& math::all_ints(args) ==> r == crate::types::Outcome::Val(
                ValSpec::Int(math::prod_wrap(args)))
            &&& math::all_numeric(args) && !math::all_ints(args)
                ==> (r matches crate::types::Outcome::Val(v) && v is Float)
            &&& !math::all_numeric(args) ==> fail_arg(r)
        },
        crate::types::Builtin::Div => {
            &&& args.len() == 0 ==> fail_arg(r)
            &&& args.len() == 1 ==> r == crate::types::Outcome::Val(args[0])
            &&& args.len() >= 2 && args[1] == ValSpec::Int(0) ==> fail_arg(r)
            &&& args.len() >= 2 && args[1] is Float
                && crate::floats::f64_is_zero(args[1]->Float_0) ==> fail_arg(r)
            &&& args.len() >= 2 && args[0] is Int && args[1] is Int
                && args[1]->Int_0 != 0
                && math::t_mod(args[0]->Int_0, args[1]->Int_0) == 0
                ==> r == crate::types::Outcome::Val(ValSpec::Int(
                    math::w64(math::t_div(args[0]->Int_0, args[1]->Int_0))))
            &&& args.len() >= 2 && args[0] is Int && args[1] is Int
                && args[1]->Int_0 != 0
                && math::t_mod(args[0]->Int_0, args[1]->Int_0) != 0
                ==> (r matches crate::types::Outcome::Val(v) && v is Float)
            &&& args.len() >= 2 && math::is_numeric(args[0]) && math::is_numeric(args[1])
                && !(args[0] is Int && args[1] is Int)
                && !(args[1] == ValSpec::Int(0))
                && !(args[1] is Float && crate::floats::f64_is_zero(args[1]->Float_0))
                ==> (r matches crate::types::Outcome::Val(v) && v is Float)
            &&& args.len() >= 2
                && !(math::is_numeric(args[0]) && math::is_numeric(args[1]))
                && !(args[1] == ValSpec::Int(0))
                && !(args[1] is Float && crate::floats::f64_is_zero(args[1]->Float_0))
                ==> fail_arg(r)
        },
        crate::types::Builtin::IntDiv => {
            &&& args.len() < 2 ==> fail_arg(r)
            &&& args.len() >= 2 && args[1] == ValSpec::Int(0) ==> fail_arg(r)
            &&& args.len() >= 2 && args[0] is Int && args[1] is Int && args[1]->Int_0 != 0
                ==> r == crate::types::Outcome::Val(ValSpec::Int(
                    math::w64(math::t_div(args[0]->Int_0, args[1]->Int_0))))
            &&& args.len() >= 2 && !(args[0] is Int && args[1] is Int)
                && !(args[1] == ValSpec::Int(0)) ==> fail_arg(r)
        },
        crate::types::Builtin::IntMod => {
            &&& args.len() < 2 ==> fail_arg(r)
            &&& args.len() >= 2 && args[1] == ValSpec::Int(0) ==> fail_arg(r)
            &&& args.len() >= 2 && args[0] is Int && args[1] is Int && args[1]->Int_0 != 0
                ==> r == crate::types::Outcome::Val(ValSpec::Int(
                    math::t_mod(args[0]->Int_0, args[1]->Int_0)))
            &&& args.len() >= 2 && !(args[0] is Int && args[1] is Int)
                && !(args[1] == ValSpec::Int(0)) ==> fail_arg(r)
        },
        crate::types::Builtin::Sqrt => {
            &&& args.len() == 0 ==> fail_arg(r)
            &&& args.len() >= 1 && args[0] is Int && args[0]->Int_0 >= 0
                ==> (r matches crate::types::Outcome::Val(v) && v is Float)
            &&& args.len() >= 1 && args[0] is Int && args[0]->Int_0 < 0 ==> fail_arg(r)
            &&& args.len() >= 1 && args[0] is Float
                && !crate::floats::f64_is_neg(args[0]->Float_0)
                ==> (r matches crate::types::Outcome::Val(v) && v is Float)
            &&& args.len() >= 1 && args[0] is Float
                && crate::floats::f64_is_neg(args[0]->Float_0) ==> fail_arg(r)
            &&& args.len() >= 1 && !math::is_numeric(args[0]) ==> fail_arg(r)
        },
        crate::types::Builtin::Lt => cmp_rel(args, true, false, false, r),
        crate::types::Builtin::Le => cmp_rel(args, true, true, false, r),
        crate::types::Builtin::Gt => cmp_rel(args, false, false, true, r),
        crate::types::Builtin::Ge => cmp_rel(args, false, true, true, r),
        crate::types::Builtin::Equal => {
            &&& args.len() >= 2 ==> r == crate::types::Outcome::Val(
                if vals_equal(args[0], args[1]) {
                    ValSpec::True
                } else {
                    ValSpec::False
                })
            &&& args.len() < 2 ==> fail_arg(r)
        },
        crate::types::Builtin::ListP => r == crate::types::Outcome::Val(
            if args.len() >= 1 && args[0] is List {
                ValSpec::True
            } else {
                ValSpec::False
            }),
        crate::types::Builtin::Count => {
            &&& args.len() >= 1 && args[0] is List && args[0]->List_0.len() <= i64::MAX
                ==> r == crate::types::Outcome::Val(ValSpec::Int(
                    args[0]->List_0.len() as int))
            &&& args.len() >= 1 && args[0] is Nil
                ==> r == crate::types::Outcome::Val(ValSpec::Int(0))
            &&& args.len() == 0 || !(args[0] is List || args[0] is Nil)
                ==> (r matches crate::types::Outcome::Fail(k, _)
                    && k == crate::error::ErrType::Type)
        },
        crate::types::Builtin::EmptyP => {
            &&& args.len() >= 1 && args[0] is List && args[0]->List_0.len() <= i64::MAX
                ==> r == crate::types::Outcome::Val(if args[0]->List_0.len() == 0 {
                    ValSpec::True
                } else {
                    ValSpec::False
                })
            &&& args.len() >= 1 && args[0] is Nil
                ==> r == crate::types::Outcome::Val(ValSpec::True)
            &&& args.len() == 0 || !(args[0] is List || args[0] is Nil)
                ==> (r matches crate::types::Outcome::Fail(k, _)
                    && k == crate::error::ErrType::Type)
        },
        crate::types::Builtin::MakeList => r == crate::types::Outcome::Val(
            ValSpec::List(args)),
        crate::types::Builtin::Prn => r == crate::types::Outcome::Val(ValSpec::Nil),
    }
}

/// An argument-kind failure.
pub open spec fn fail_arg(r: crate::types::Outcome) -> bool {
    r matches crate::types::Outcome::Fail(k, _) && k == crate::error::ErrType::Arg
}

/// A comparison's outcome under the allowed orderings.
pub open spec fn cmp_rel(args: Seq<ValSpec>, lt: bool, eq: bool, gt: bool,
    r: crate::types::Outcome) -> bool {
    &&& args.len() < 2 ==> fail_arg(r)
    &&& args.len() >= 2 && args[0] is Int && args[1] is Int
        ==> r == crate::types::Outcome::Val(math::int_cmp_val(
            args[0]->Int_0, args[1]->Int_0, lt, eq, gt))
    &&& args.len() >= 2 && args[0] is Float && args[1] is Float
        ==> r == crate::types::Outcome::Val(math::float_cmp_val(
            args[0]->Float_0, args[1]->Float_0, lt, eq, gt))
    &&& args.len() >= 2 && math::is_numeric(args[0]) && math::is_numeric(args[1])
        && !(args[0] is Int && args[1] is Int) && !(args[0] is Float && args[1] is Float)
        ==> (r matches crate::types::Outcome::Val(v) && (v is True || v is False))
    &&& args.len() >= 2 && !(math::is_numeric(args[0]) && math::is_numeric(args[1]))
        ==> fail_arg(r)
}

/// What applying a native callable does to the emitted lines and what
/// it yields: only `prn` appends (exactly one line, pinned on
/// float-free arguments); every other callable leaves them alone.
pub open spec fn builtin_rel(b: crate::types::Builtin, args: Seq<ValSpec>,
    em0: Seq<Seq<char>>, em1: Seq<Seq<char>>, r: crate::types::Outcome) -> bool {
    if b is Prn {
        exists|line: Seq<char>|
            #![trigger vstd::pervasive::trigger(line)]
            em1 == em0.push(line)
            && (crate::types::vals_float_free(args) ==> line == prn_line(args))
            && r == crate::types::Outcome::Val(ValSpec::Nil)
    } else {
        em1 == em0 && builtin_res_rel(b, args, r)
    }
}

} // verus!
