//! Built-in arithmetic and comparison primitives.
//!
//! Numeric promotion: an integer-integer operation stays integer
//! (division promotes to float only on a non-zero remainder; `div` and
//! `mod` demand two integers), anything mixing a float promotes to
//! float, and a zero divisor is an argument error, never a panic.
//! Integer arithmetic wraps on 64-bit overflow. Comparisons on two
//! integers are exact integer comparisons; a comparison touching a
//! float goes by the IEEE order on the bit patterns.

use vstd::prelude::*;

use crate::error::{rerr, ErrType};
use crate::floats::{f64_is_nan, f64_is_zero, f64_key, f64_is_neg, is_neg_bits, is_zero_bits,
    FloatOps};
use crate::types::{val_view, vals_view, lemma_vals_view, Res, Val, ValSpec};

verus! {

broadcast use vstd::seq::group_seq_axioms;

/// A number: integer or float.
pub open spec fn is_numeric(v: ValSpec) -> bool {
    v is Int || v is Float
}

pub open spec fn all_numeric(s: Seq<ValSpec>) -> bool {
    forall|i: int| 0 <= i < s.len() ==> is_numeric(#[trigger] s[i])
}

pub open spec fn all_ints(s: Seq<ValSpec>) -> bool {
    forall|i: int| 0 <= i < s.len() ==> (#[trigger] s[i]) is Int
}

/// 64-bit wraparound of a mathematical integer near the i64 range.
pub open spec fn w64(x: int) -> int {
    if x > i64::MAX {
        x - 0x1_0000_0000_0000_0000
    } else if x < i64::MIN {
        x + 0x1_0000_0000_0000_0000
    } else {
        x
    }
}

/// The wrapping sum of a sequence of integers, folded left to right.
pub open spec fn sum_wrap(s: Seq<ValSpec>) -> int
    decreases s.len(),
{
    if s.len() == 0 {
        0
    } else {
        w64(sum_wrap(s.drop_last()) + s.last()->Int_0)
    }
}

/// The wrapping product of a sequence of integers, folded left to
/// right.
pub open spec fn prod_wrap(s: Seq<ValSpec>) -> int
    decreases s.len(),
{
    if s.len() == 0 {
        1
    } else {
        w64_mul(prod_wrap(s.drop_last()), s.last()->Int_0)
    }
}

/// The wrapping difference folded left to right over a non-empty
/// sequence of integers.
pub open spec fn sub_fold(s: Seq<ValSpec>) -> int
    decreases s.len(),
{
    if s.len() <= 1 {
        if s.len() == 1 {
            s[0]->Int_0
        } else {
            0
        }
    } else {
        w64(sub_fold(s.drop_last()) - s.last()->Int_0)
    }
}

/// Truncated (round-toward-zero) integer division, as the host's `/`.
pub open spec fn t_div(x: int, y: int) -> int {
    let q = abs_of(x) / abs_of(y);
    if (x < 0) != (y < 0) {
        -q
    } else {
        q
    }
}

/// The remainder matching `t_div`: its sign follows the dividend.
pub open spec fn t_mod(x: int, y: int) -> int {
    x - y * t_div(x, y)
}

pub open spec fn abs_of(x: int) -> int {
    if x < 0 {
        -x
    } else {
        x
    }
}

/// Truncated division and remainder of two machine integers, computed
/// on magnitudes so that no case can overflow or panic.
fn div_mod_i64(x: i64, y: i64) -> (r: (i64, i64))
    requires
        y != 0,
    ensures
        r.0 as int == w64(t_div(x as int, y as int)),
        r.1 as int == t_mod(x as int, y as int),
{
    let ua: u64 = if x < 0 {
        (-(x as i128)) as u64
    } else {
        x as u64
    };
    let ub: u64 = if y < 0 {
        (-(y as i128)) as u64
    } else {
        y as u64
    };
    let q: u64 = ua / ub;
    let rem: u64 = ua % ub;
    proof {
        assert(ua as int == abs_of(x as int));
        assert(ub as int == abs_of(y as int));
        assert(q as int == abs_of(x as int) / abs_of(y as int));
        assert(abs_of(x as int) == abs_of(y as int) * (q as int) + rem as int) by {
            vstd::arithmetic::div_mod::lemma_fundamental_div_mod(ua as int, ub as int);
        }
        assert(q as int <= ua as int) by {
            vstd::arithmetic::div_mod::lemma_div_is_ordered_by_denominator(
                ua as int, 1, ub as int);
        }
    }
    let neg_q = (x < 0) != (y < 0);
    let qi: i64 = if neg_q {
        (-(q as i128)) as i64
    } else {
        if q == 0x8000_0000_0000_0000u64 {
            // Only i64::MIN / -1 reaches here; the quotient wraps.
            i64::MIN
        } else {
            q as i64
        }
    };
    let ri: i64 = if x < 0 {
        (-(rem as i128)) as i64
    } else {
        rem as i64
    };
    proof {
        let xi = x as int;
        let yi = y as int;
        let td = t_div(xi, yi);
        assert(qi as int == w64(td));
        assert(t_mod(xi, yi) == xi - yi * td);
        assert(yi * td == (if xi < 0 { -(abs_of(yi) * (q as int)) } else { abs_of(yi) * (q as int) }))
            by (nonlinear_arith)
            requires
                yi != 0,
                td == t_div(xi, yi),
                q as int == abs_of(xi) / abs_of(yi),
                td == (if (xi < 0) != (yi < 0) { -(q as int) } else { q as int }),
        ;
        assert(ri as int == t_mod(xi, yi));
    }
    (qi, ri)
}

/// The wrapping sum of two numbers; an argument error when either is
/// no number.
fn num_add<F: FloatOps>(ops: &F, a: &Val, b: &Val) -> (r: Res)
    ensures
        a@ is Int && b@ is Int ==> (r matches Ok(v)
            && v@ == ValSpec::Int(w64(a@->Int_0 + b@->Int_0))),
        is_numeric(a@) && is_numeric(b@) && !(a@ is Int && b@ is Int)
            ==> (r matches Ok(v) && v@ is Float),
        !(is_numeric(a@) && is_numeric(b@)) ==> (r matches Err(e) && e.kind == ErrType::Arg),
{
    match (a, b) {
        (Val::Int(x), Val::Int(y)) => Ok(Val::Int(x.wrapping_add(*y))),
        (Val::Int(x), Val::Float(fb)) => Ok(Val::Float(ops.add(ops.from_int(*x), *fb))),
        (Val::Float(fa), Val::Int(y)) => Ok(Val::Float(ops.add(*fa, ops.from_int(*y)))),
        (Val::Float(fa), Val::Float(fb)) => Ok(Val::Float(ops.add(*fa, *fb))),
        _ => rerr(ErrType::Arg, "numeric arguments required"),
    }
}

/// The wrapping difference of two numbers.
fn num_sub<F: FloatOps>(ops: &F, a: &Val, b: &Val) -> (r: Res)
    ensures
        a@ is Int && b@ is Int ==> (r matches Ok(v)
            && v@ == ValSpec::Int(w64(a@->Int_0 - b@->Int_0))),
        is_numeric(a@) && is_numeric(b@) && !(a@ is Int && b@ is Int)
            ==> (r matches Ok(v) && v@ is Float),
        !(is_numeric(a@) && is_numeric(b@)) ==> (r matches Err(e) && e.kind == ErrType::Arg),
{
    match (a, b) {
        (Val::Int(x), Val::Int(y)) => Ok(Val::Int(x.wrapping_sub(*y))),
        (Val::Int(x), Val::Float(fb)) => Ok(Val::Float(ops.sub(ops.from_int(*x), *fb))),
        (Val::Float(fa), Val::Int(y)) => Ok(Val::Float(ops.sub(*fa, ops.from_int(*y)))),
        (Val::Float(fa), Val::Float(fb)) => Ok(Val::Float(ops.sub(*fa, *fb))),
        _ => rerr(ErrType::Arg, "numeric arguments required"),
    }
}

/// The wrapping product of two numbers.
fn num_mul<F: FloatOps>(ops: &F, a: &Val, b: &Val) -> (r: Res)
    ensures
        a@ is Int && b@ is Int ==> (r matches Ok(v)
            && v@ == ValSpec::Int(w64_mul(a@->Int_0, b@->Int_0))),
        is_numeric(a@) && is_numeric(b@) && !(a@ is Int && b@ is Int)
            ==> (r matches Ok(v) && v@ is Float),
        !(is_numeric(a@) && is_numeric(b@)) ==> (r matches Err(e) && e.kind == ErrType::Arg),
{
    match (a, b) {
        (Val::Int(x), Val::Int(y)) => {
            let p = x.wrapping_mul(*y);
            proof {
                assert(p as int == w64_mul(*x as int, *y as int));
            }
            Ok(Val::Int(p))
        },
        (Val::Int(x), Val::Float(fb)) => Ok(Val::Float(ops.mul(ops.from_int(*x), *fb))),
        (Val::Float(fa), Val::Int(y)) => Ok(Val::Float(ops.mul(*fa, ops.from_int(*y)))),
        (Val::Float(fa), Val::Float(fb)) => Ok(Val::Float(ops.mul(*fa, *fb))),
        _ => rerr(ErrType::Arg, "numeric arguments required"),
    }
}

/// The product of two machine integers under 64-bit wraparound, as a
/// mathematical function.
pub open spec fn w64_mul(x: int, y: int) -> int {
    vstd::wrapping::i64_specs::wrapping_mul(x as i64, y as i64) as int
}

/// Sum all arguments; the sum of none is `0`.
pub fn add<F: FloatOps>(ops: &F, args: &Vec<Val>) -> (r: Res)
    ensures
        r matches Ok(v) ==> (forall|m: int| crate::types::vals_ok(vals_view(args@), m)
            ==> crate::types::val_ok(v@, m)),
        all_ints(vals_view(args@)) ==> (r matches Ok(v)
            && v@ == ValSpec::Int(sum_wrap(vals_view(args@)))),
        all_numeric(vals_view(args@)) && !all_ints(vals_view(args@))
            ==> (r matches Ok(v) && v@ is Float),
        !all_numeric(vals_view(args@)) ==> (r matches Err(e) && e.kind == ErrType::Arg),
{
    let ghost tv = vals_view(args@);
    proof {
        lemma_vals_view(args@);
        assert(tv.take(0) =~= Seq::<ValSpec>::empty());
    }
    let mut acc = Val::Int(0);
    let mut i: usize = 0;
    while i < args.len()
        invariant
            i <= args@.len(),
            tv == vals_view(args@),
            tv.len() == args@.len(),
            forall|j: int| 0 <= j < tv.len() ==> tv[j] == val_view(args@[j]),
            (forall|j: int| 0 <= j < i ==> (#[trigger] tv[j]) is Int)
                ==> acc@ == ValSpec::Int(sum_wrap(tv.take(i as int))),
            (forall|j: int| 0 <= j < i ==> is_numeric(#[trigger] tv[j])),
            !(forall|j: int| 0 <= j < i ==> (#[trigger] tv[j]) is Int) ==> acc@ is Float,
        decreases args@.len() - i,
    {
        let c = &args[i];
        match c {
            Val::Int(_) => {},
            Val::Float(_) => {},
            _ => {
                proof {
                    assert(!is_numeric(tv[i as int]));
                }
                return rerr(ErrType::Arg, "numeric arguments required");
            },
        }
        let next = num_add(ops, &acc, c)?;
        acc = next;
        i = i + 1;
        proof {
            assert(tv.take(i as int).drop_last() =~= tv.take(i as int - 1));
            assert(tv.take(i as int).last() == tv[i as int - 1]);
        }
    }
    proof {
        assert(tv.take(tv.len() as int) =~= tv);
    }
    Ok(acc)
}

/// Multiply all arguments; the product of none is `1`.
pub fn mul<F: FloatOps>(ops: &F, args: &Vec<Val>) -> (r: Res)
    ensures
        r matches Ok(v) ==> (forall|m: int| crate::types::vals_ok(vals_view(args@), m)
            ==> crate::types::val_ok(v@, m)),
        all_ints(vals_view(args@)) ==> (r matches Ok(v)
            && v@ == ValSpec::Int(prod_wrap(vals_view(args@)))),
        all_numeric(vals_view(args@)) && !all_ints(vals_view(args@))
            ==> (r matches Ok(v) && v@ is Float),
        !all_numeric(vals_view(args@)) ==> (r matches Err(e) && e.kind == ErrType::Arg),
{
    let ghost tv = vals_view(args@);
    proof {
        lemma_vals_view(args@);
        assert(tv.take(0) =~= Seq::<ValSpec>::empty());
    }
    let mut acc = Val::Int(1);
    let mut i: usize = 0;
    while i < args.len()
        invariant
            i <= args@.len(),
            tv == vals_view(args@),
            tv.len() == args@.len(),
            forall|j: int| 0 <= j < tv.len() ==> tv[j] == val_view(args@[j]),
            (forall|j: int| 0 <= j < i ==> (#[trigger] tv[j]) is Int)
                ==> acc@ == ValSpec::Int(prod_wrap(tv.take(i as int))),
            (forall|j: int| 0 <= j < i ==> is_numeric(#[trigger] tv[j])),
            !(forall|j: int| 0 <= j < i ==> (#[trigger] tv[j]) is Int) ==> acc@ is Float,
        decreases args@.len() - i,
    {
        let c = &args[i];
        match c {
            Val::Int(_) => {},
            Val::Float(_) => {},
            _ => {
                proof {
                    assert(!is_numeric(tv[i as int]));
                }
                return rerr(ErrType::Arg, "numeric arguments required");
            },
        }
        let next = num_mul(ops, &acc, c)?;
        acc = next;
        i = i + 1;
        proof {
            assert(tv.take(i as int).drop_last() =~= tv.take(i as int - 1));
            assert(tv.take(i as int).last() == tv[i as int - 1]);
        }
    }
    proof {
        assert(tv.take(tv.len() as int) =~= tv);
    }
    Ok(acc)
}

/// Subtract the remaining arguments from the first; at least one
/// argument is required.
pub fn sub<F: FloatOps>(ops: &F, args: &Vec<Val>) -> (r: Res)
    ensures
        r matches Ok(v) ==> (forall|m: int| crate::types::vals_ok(vals_view(args@), m)
            ==> crate::types::val_ok(v@, m)),
        args@.len() == 0 ==> (r matches Err(e) && e.kind == ErrType::Arg),
        args@.len() > 0 && all_ints(vals_view(args@)) ==> (r matches Ok(v)
            && v@ == ValSpec::Int(sub_fold(vals_view(args@)))),
        args@.len() > 0 && all_numeric(vals_view(args@)) && !all_ints(vals_view(args@))
            ==> (r matches Ok(v) && v@ is Float),
        !all_numeric(vals_view(args@)) ==> (r matches Err(e) && e.kind == ErrType::Arg),
{
    let ghost tv = vals_view(args@);
    proof {
        lemma_vals_view(args@);
    }
    if args.len() == 0 {
        return rerr(ErrType::Arg, "requires at least one argument");
    }
    let first = &args[0];
    match first {
        Val::Int(_) => {},
        Val::Float(_) => {},
        _ => {
            proof {
                assert(!is_numeric(tv[0]));
            }
            return rerr(ErrType::Arg, "numeric arguments required");
        },
    }
    let mut acc = first.clone();
    let mut i: usize = 1;
    proof {
        assert(tv.take(1).len() == 1 && tv.take(1)[0] == tv[0]);
    }
    while i < args.len()
        invariant
            1 <= i <= args@.len(),
            tv == vals_view(args@),
            tv.len() == args@.len(),
            forall|j: int| 0 <= j < tv.len() ==> tv[j] == val_view(args@[j]),
            (forall|j: int| 0 <= j < i ==> (#[trigger] tv[j]) is Int)
                ==> acc@ == ValSpec::Int(sub_fold(tv.take(i as int))),
            (forall|j: int| 0 <= j < i ==> is_numeric(#[trigger] tv[j])),
            !(forall|j: int| 0 <= j < i ==> (#[trigger] tv[j]) is Int) ==> acc@ is Float,
        decreases args@.len() - i,
    {
        let c = &args[i];
        match c {
            Val::Int(_) => {},
            Val::Float(_) => {},
            _ => {
                proof {
                    assert(!is_numeric(tv[i as int]));
                }
                return rerr(ErrType::Arg, "numeric arguments required");
            },
        }
        let next = num_sub(ops, &acc, c)?;
        acc = next;
        i = i + 1;
        proof {
            assert(tv.take(i as int).drop_last() =~= tv.take(i as int - 1));
            assert(tv.take(i as int).last() == tv[i as int - 1]);
        }
    }
    proof {
        assert(tv.take(tv.len() as int) =~= tv);
    }
    Ok(acc)
}

} // verus!

verus! {

/// Division. One argument is returned unchanged; two divide: integer
/// by integer stays integer exactly when the remainder is zero and
/// promotes to float otherwise; a zero divisor of either kind is an
/// argument error.
pub fn div<F: FloatOps>(ops: &F, args: &Vec<Val>) -> (r: Res)
    ensures
        r matches Ok(v) ==> (forall|m: int| crate::types::vals_ok(vals_view(args@), m)
            ==> crate::types::val_ok(v@, m)),
        args@.len() == 0 ==> (r matches Err(e) && e.kind == ErrType::Arg),
        args@.len() == 1 ==> (r matches Ok(v) && v@ == val_view(args@[0])),
        args@.len() >= 2 && val_view(args@[1]) == ValSpec::Int(0)
            ==> (r matches Err(e) && e.kind == ErrType::Arg),
        args@.len() >= 2 && val_view(args@[1]) is Float
            && f64_is_zero(val_view(args@[1])->Float_0)
            ==> (r matches Err(e) && e.kind == ErrType::Arg),
        args@.len() >= 2 && val_view(args@[0]) is Int && val_view(args@[1]) is Int
            && val_view(args@[1])->Int_0 != 0
            && t_mod(val_view(args@[0])->Int_0, val_view(args@[1])->Int_0) == 0
            ==> (r matches Ok(v) && v@ == ValSpec::Int(
                w64(t_div(val_view(args@[0])->Int_0, val_view(args@[1])->Int_0)))),
        args@.len() >= 2 && val_view(args@[0]) is Int && val_view(args@[1]) is Int
            && val_view(args@[1])->Int_0 != 0
            && t_mod(val_view(args@[0])->Int_0, val_view(args@[1])->Int_0) != 0
            ==> (r matches Ok(v) && v@ is Float),
        args@.len() >= 2 && is_numeric(val_view(args@[0])) && is_numeric(val_view(args@[1]))
            && !(val_view(args@[0]) is Int && val_view(args@[1]) is Int)
            && !(val_view(args@[1]) == ValSpec::Int(0))
            && !(val_view(args@[1]) is Float && f64_is_zero(val_view(args@[1])->Float_0))
            ==> (r matches Ok(v) && v@ is Float),
        args@.len() >= 2
            && !(is_numeric(val_view(args@[0])) && is_numeric(val_view(args@[1])))
            && !(val_view(args@[1]) == ValSpec::Int(0))
            && !(val_view(args@[1]) is Float && f64_is_zero(val_view(args@[1])->Float_0))
            ==> (r matches Err(e) && e.kind == ErrType::Arg),
{
    proof {
        lemma_vals_view(args@);
    }
    if args.len() == 0 {
        return rerr(ErrType::Arg, "requires at least one argument");
    }
    if args.len() == 1 {
        return Ok(args[0].clone());
    }
    let num = &args[0];
    let den = &args[1];
    match den {
        Val::Int(m) => if *m == 0 {
            return rerr(ErrType::Arg, "division by zero");
        },
        Val::Float(fb) => if is_zero_bits(*fb) {
            return rerr(ErrType::Arg, "division by zero");
        },
        _ => {},
    }
    match (num, den) {
        (Val::Int(n), Val::Int(m)) => {
            let (q, rem) = div_mod_i64(*n, *m);
            if rem == 0 {
                Ok(Val::Int(q))
            } else {
                Ok(Val::Float(ops.div(ops.from_int(*n), ops.from_int(*m))))
            }
        },
        (Val::Int(n), Val::Float(fb)) => Ok(Val::Float(ops.div(ops.from_int(*n), *fb))),
        (Val::Float(fa), Val::Int(m)) => Ok(Val::Float(ops.div(*fa, ops.from_int(*m)))),
        (Val::Float(fa), Val::Float(fb)) => Ok(Val::Float(ops.div(*fa, *fb))),
        _ => rerr(ErrType::Arg, "numeric arguments required"),
    }
}

/// Integer division: exactly two integers, and a zero divisor is an
/// argument error.
pub fn int_div(args: &Vec<Val>) -> (r: Res)
    ensures
        r matches Ok(v) ==> (forall|m: int| crate::types::vals_ok(vals_view(args@), m)
            ==> crate::types::val_ok(v@, m)),
        args@.len() < 2 ==> (r matches Err(e) && e.kind == ErrType::Arg),
        args@.len() >= 2 && val_view(args@[1]) == ValSpec::Int(0)
            ==> (r matches Err(e) && e.kind == ErrType::Arg),
        args@.len() >= 2 && val_view(args@[0]) is Int && val_view(args@[1]) is Int
            && val_view(args@[1])->Int_0 != 0
            ==> (r matches Ok(v) && v@ == ValSpec::Int(
                w64(t_div(val_view(args@[0])->Int_0, val_view(args@[1])->Int_0)))),
        args@.len() >= 2 && !(val_view(args@[0]) is Int && val_view(args@[1]) is Int)
            && !(val_view(args@[1]) == ValSpec::Int(0))
            ==> (r matches Err(e) && e.kind == ErrType::Arg),
{
    proof {
        lemma_vals_view(args@);
    }
    if args.len() < 2 {
        return rerr(ErrType::Arg, "requires two arguments");
    }
    match (&args[0], &args[1]) {
        (_, Val::Int(m)) if *m == 0 => rerr(ErrType::Arg, "division by zero"),
        (Val::Int(n), Val::Int(m)) => {
            let (q, _) = div_mod_i64(*n, *m);
            Ok(Val::Int(q))
        },
        _ => rerr(ErrType::Arg, "requires integer arguments"),
    }
}

/// Integer remainder: exactly two integers, and a zero divisor is an
/// argument error. The remainder's sign follows the dividend.
pub fn int_mod(args: &Vec<Val>) -> (r: Res)
    ensures
        r matches Ok(v) ==> (forall|m: int| crate::types::vals_ok(vals_view(args@), m)
            ==> crate::types::val_ok(v@, m)),
        args@.len() < 2 ==> (r matches Err(e) && e.kind == ErrType::Arg),
        args@.len() >= 2 && val_view(args@[1]) == ValSpec::Int(0)
            ==> (r matches Err(e) && e.kind == ErrType::Arg),
        args@.len() >= 2 && val_view(args@[0]) is Int && val_view(args@[1]) is Int
            && val_view(args@[1])->Int_0 != 0
            ==> (r matches Ok(v) && v@ == ValSpec::Int(
                t_mod(val_view(args@[0])->Int_0, val_view(args@[1])->Int_0))),
        args@.len() >= 2 && !(val_view(args@[0]) is Int && val_view(args@[1]) is Int)
            && !(val_view(args@[1]) == ValSpec::Int(0))
            ==> (r matches Err(e) && e.kind == ErrType::Arg),
{
    proof {
        lemma_vals_view(args@);
    }
    if args.len() < 2 {
        return rerr(ErrType::Arg, "requires two arguments");
    }
    match (&args[0], &args[1]) {
        (_, Val::Int(m)) if *m == 0 => rerr(ErrType::Arg, "division by zero"),
        (Val::Int(n), Val::Int(m)) => {
            let (_, rem) = div_mod_i64(*n, *m);
            Ok(Val::Int(rem))
        },
        _ => rerr(ErrType::Arg, "requires integer arguments"),
    }
}

/// Square root of a non-negative number; always a float.
pub fn sqrt<F: FloatOps>(ops: &F, args: &Vec<Val>) -> (r: Res)
    ensures
        r matches Ok(v) ==> (forall|m: int| crate::types::vals_ok(vals_view(args@), m)
            ==> crate::types::val_ok(v@, m)),
        args@.len() == 0 ==> (r matches Err(e) && e.kind == ErrType::Arg),
        args@.len() >= 1 && val_view(args@[0]) is Int && val_view(args@[0])->Int_0 >= 0
            ==> (r matches Ok(v) && v@ is Float),
        args@.len() >= 1 && val_view(args@[0]) is Int && val_view(args@[0])->Int_0 < 0
            ==> (r matches Err(e) && e.kind == ErrType::Arg),
        args@.len() >= 1 && val_view(args@[0]) is Float
            && !f64_is_neg(val_view(args@[0])->Float_0)
            ==> (r matches Ok(v) && v@ is Float),
        args@.len() >= 1 && val_view(args@[0]) is Float
            && f64_is_neg(val_view(args@[0])->Float_0)
            ==> (r matches Err(e) && e.kind == ErrType::Arg),
        args@.len() >= 1 && !is_numeric(val_view(args@[0]))
            ==> (r matches Err(e) && e.kind == ErrType::Arg),
{
    proof {
        lemma_vals_view(args@);
    }
    if args.len() == 0 {
        return rerr(ErrType::Arg, "requires numeric argument");
    }
    match &args[0] {
        Val::Int(n) => if *n < 0 {
            rerr(ErrType::Arg, "requires non-negative argument")
        } else {
            Ok(Val::Float(ops.sqrt(ops.from_int(*n))))
        },
        Val::Float(fb) => if is_neg_bits(*fb) {
            rerr(ErrType::Arg, "requires non-negative argument")
        } else {
            Ok(Val::Float(ops.sqrt(*fb)))
        },
        _ => rerr(ErrType::Arg, "requires numeric argument"),
    }
}

/// The outcome of comparing two numbers when the allowed orderings are
/// given by the three flags (below, equal, above). Comparisons on two
/// integers are exact; on floats they follow the IEEE order with every
/// comparison against NaN false; a comparison mixing an integer with a
/// float goes through the host's integer-to-float conversion and only
/// its boolean shape is pinned here.
pub open spec fn int_cmp_val(x: int, y: int, lt: bool, eq: bool, gt: bool) -> ValSpec {
    if (lt && x < y) || (eq && x == y) || (gt && x > y) {
        ValSpec::True
    } else {
        ValSpec::False
    }
}

pub open spec fn float_cmp_val(a: u64, b: u64, lt: bool, eq: bool, gt: bool) -> ValSpec {
    if !f64_is_nan(a) && !f64_is_nan(b)
        && ((lt && f64_key(a) < f64_key(b)) || (eq && f64_key(a) == f64_key(b))
            || (gt && f64_key(a) > f64_key(b))) {
        ValSpec::True
    } else {
        ValSpec::False
    }
}

fn bincmp<F: FloatOps>(ops: &F, args: &Vec<Val>, lt: bool, eq: bool, gt: bool) -> (r: Res)
    ensures
        r matches Ok(v) ==> (forall|m: int| crate::types::vals_ok(vals_view(args@), m)
            ==> crate::types::val_ok(v@, m)),
        args@.len() < 2 ==> (r matches Err(e) && e.kind == ErrType::Arg),
        args@.len() >= 2 && val_view(args@[0]) is Int && val_view(args@[1]) is Int
            ==> (r matches Ok(v) && v@ == int_cmp_val(
                val_view(args@[0])->Int_0, val_view(args@[1])->Int_0, lt, eq, gt)),
        args@.len() >= 2 && val_view(args@[0]) is Float && val_view(args@[1]) is Float
            ==> (r matches Ok(v) && v@ == float_cmp_val(
                val_view(args@[0])->Float_0, val_view(args@[1])->Float_0, lt, eq, gt)),
        args@.len() >= 2 && is_numeric(val_view(args@[0])) && is_numeric(val_view(args@[1]))
            && !(val_view(args@[0]) is Int && val_view(args@[1]) is Int)
            && !(val_view(args@[0]) is Float && val_view(args@[1]) is Float)
            ==> (r matches Ok(v) && (v@ is True || v@ is False)),
        args@.len() >= 2
            && !(is_numeric(val_view(args@[0])) && is_numeric(val_view(args@[1])))
            ==> (r matches Err(e) && e.kind == ErrType::Arg),
{
    proof {
        lemma_vals_view(args@);
    }
    if args.len() < 2 {
        return rerr(ErrType::Arg, "requires two arguments");
    }
    match (&args[0], &args[1]) {
        (Val::Int(x), Val::Int(y)) => {
            let hit = (lt && *x < *y) || (eq && *x == *y) || (gt && *x > *y);
            Ok(if hit {
                Val::True
            } else {
                Val::False
            })
        },
        (Val::Float(fa), Val::Float(fb)) => Ok(cmp_bits(*fa, *fb, lt, eq, gt)),
        (Val::Int(x), Val::Float(fb)) => Ok(cmp_bits(ops.from_int(*x), *fb, lt, eq, gt)),
        (Val::Float(fa), Val::Int(y)) => Ok(cmp_bits(*fa, ops.from_int(*y), lt, eq, gt)),
        _ => rerr(ErrType::Arg, "incomparable values"),
    }
}

/// Compare two double bit patterns under the allowed orderings.
fn cmp_bits(a: u64, b: u64, lt: bool, eq: bool, gt: bool) -> (r: Val)
    ensures
        r@ == float_cmp_val(a, b, lt, eq, gt),
{
    if crate::floats::is_nan_bits(a) || crate::floats::is_nan_bits(b) {
        return Val::False;
    }
    let below = crate::floats::lt_bits(a, b);
    let above = crate::floats::lt_bits(b, a);
    let same = !below && !above;
    if (lt && below) || (eq && same) || (gt && above) {
        Val::True
    } else {
        Val::False
    }
}

/// Strictly below.
pub fn less_than<F: FloatOps>(ops: &F, args: &Vec<Val>) -> (r: Res)
    ensures
        r matches Ok(v) ==> (forall|m: int| crate::types::vals_ok(vals_view(args@), m)
            ==> crate::types::val_ok(v@, m)),
        args@.len() < 2 ==> (r matches Err(e) && e.kind == ErrType::Arg),
        args@.len() >= 2 && val_view(args@[0]) is Int && val_view(args@[1]) is Int
            ==> (r matches Ok(v) && v@ == int_cmp_val(
                val_view(args@[0])->Int_0, val_view(args@[1])->Int_0, true, false, false)),
        args@.len() >= 2 && val_view(args@[0]) is Float && val_view(args@[1]) is Float
            ==> (r matches Ok(v) && v@ == float_cmp_val(
                val_view(args@[0])->Float_0, val_view(args@[1])->Float_0, true, false, false)),
        args@.len() >= 2 && is_numeric(val_view(args@[0])) && is_numeric(val_view(args@[1]))
            && !(val_view(args@[0]) is Int && val_view(args@[1]) is Int)
            && !(val_view(args@[0]) is Float && val_view(args@[1]) is Float)
            ==> (r matches Ok(v) && (v@ is True || v@ is False)),
        args@.len() >= 2
            && !(is_numeric(val_view(args@[0])) && is_numeric(val_view(args@[1])))
            ==> (r matches Err(e) && e.kind == ErrType::Arg),
{
    bincmp(ops, args, true, false, false)
}

/// Below or equal.
pub fn less_or_eq<F: FloatOps>(ops: &F, args: &Vec<Val>) -> (r: Res)
    ensures
        r matches Ok(v) ==> (forall|m: int| crate::types::vals_ok(vals_view(args@), m)
            ==> crate::types::val_ok(v@, m)),
        args@.len() < 2 ==> (r matches Err(e) && e.kind == ErrType::Arg),
        args@.len() >= 2 && val_view(args@[0]) is Int && val_view(args@[1]) is Int
            ==> (r matches Ok(v) && v@ == int_cmp_val(
                val_view(args@[0])->Int_0, val_view(args@[1])->Int_0, true, true, false)),
        args@.len() >= 2 && val_view(args@[0]) is Float && val_view(args@[1]) is Float
            ==> (r matches Ok(v) && v@ == float_cmp_val(
                val_view(args@[0])->Float_0, val_view(args@[1])->Float_0, true, true, false)),
        args@.len() >= 2 && is_numeric(val_view(args@[0])) && is_numeric(val_view(args@[1]))
            && !(val_view(args@[0]) is Int && val_view(args@[1]) is Int)
            && !(val_view(args@[0]) is Float && val_view(args@[1]) is Float)
            ==> (r matches Ok(v) && (v@ is True || v@ is False)),
        args@.len() >= 2
            && !(is_numeric(val_view(args@[0])) && is_numeric(val_view(args@[1])))
            ==> (r matches Err(e) && e.kind == ErrType::Arg),
{
    bincmp(ops, args, true, true, false)
}

/// Strictly above.
pub fn greater_than<F: FloatOps>(ops: &F, args: &Vec<Val>) -> (r: Res)
    ensures
        r matches Ok(v) ==> (forall|m: int| crate::types::vals_ok(vals_view(args@), m)
            ==> crate::types::val_ok(v@, m)),
        args@.len() < 2 ==> (r matches Err(e) && e.kind == ErrType::Arg),
        args@.len() >= 2 && val_view(args@[0]) is Int && val_view(args@[1]) is Int
            ==> (r matches Ok(v) && v@ == int_cmp_val(
                val_view(args@[0])->Int_0, val_view(args@[1])->Int_0, false, false, true)),
        args@.len() >= 2 && val_view(args@[0]) is Float && val_view(args@[1]) is Float
            ==> (r matches Ok(v) && v@ == float_cmp_val(
                val_view(args@[0])->Float_0, val_view(args@[1])->Float_0, false, false, true)),
        args@.len() >= 2 && is_numeric(val_view(args@[0])) && is_numeric(val_view(args@[1]))
            && !(val_view(args@[0]) is Int && val_view(args@[1]) is Int)
            && !(val_view(args@[0]) is Float && val_view(args@[1]) is Float)
            ==> (r matches Ok(v) && (v@ is True || v@ is False)),
        args@.len() >= 2
            && !(is_numeric(val_view(args@[0])) && is_numeric(val_view(args@[1])))
            ==> (r matches Err(e) && e.kind == ErrType::Arg),
{
    bincmp(ops, args, false, false, true)
}

/// Above or equal.
pub fn greater_or_eq<F: FloatOps>(ops: &F, args: &Vec<Val>) -> (r: Res)
    ensures
        r matches Ok(v) ==> (forall|m: int| crate::types::vals_ok(vals_view(args@), m)
            ==> crate::types::val_ok(v@, m)),
        args@.len() < 2 ==> (r matches Err(e) && e.kind == ErrType::Arg),
        args@.len() >= 2 && val_view(args@[0]) is Int && val_view(args@[1]) is Int
            ==> (r matches Ok(v) && v@ == int_cmp_val(
                val_view(args@[0])->Int_0, val_view(args@[1])->Int_0, false, true, true)),
        args@.len() >= 2 && val_view(args@[0]) is Float && val_view(args@[1]) is Float
            ==> (r matches Ok(v) && v@ == float_cmp_val(
                val_view(args@[0])->Float_0, val_view(args@[1])->Float_0, false, true, true)),
        args@.len() >= 2 && is_numeric(val_view(args@[0])) && is_numeric(val_view(args@[1]))
            && !(val_view(args@[0]) is Int && val_view(args@[1]) is Int)
            && !(val_view(args@[0]) is Float && val_view(args@[1]) is Float)
            ==> (r matches Ok(v) && (v@ is True || v@ is False)),
        args@.len() >= 2
            && !(is_numeric(val_view(args@[0])) && is_numeric(val_view(args@[1])))
            ==> (r matches Err(e) && e.kind == ErrType::Arg),
{
    bincmp(ops, args, false, true, true)
}

} // verus!
