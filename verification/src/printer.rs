//! Rendering values back into the standard textual syntax: lists as
//! `(a b c)`, vectors as `[a b c]`, maps as `{k v ...}`, strings
//! re-quoted and re-escaped, symbols, keywords and numbers verbatim.
//!
//! The rendering of every float-free value is pinned down exactly by
//! [`print_spec`]; a float is rendered by the host (see
//! [`crate::floats::FloatOps`]), so nothing is claimed about its text.

use vstd::prelude::*;

use crate::floats::FloatOps;
use crate::types::{
    float_free, lemma_pairs_float_free, lemma_pairs_view, lemma_vals_float_free,
    lemma_vals_view, pairs_float_free, pairs_view, val_view, vals_float_free, vals_view,
    Builtin, Lambda, Val, ValSpec,
};

verus! {

broadcast use vstd::seq::group_seq_axioms;

/// One decimal digit as a character.
pub open spec fn digit_char(d: nat) -> char {
    ((48 + d) as u8) as char
}

/// Decimal digits of a natural number, most significant first.
pub open spec fn dec_digits(n: nat) -> Seq<char>
    decreases n,
{
    if n < 10 {
        seq![digit_char(n)]
    } else {
        dec_digits(n / 10).push(digit_char(n % 10))
    }
}

/// The decimal rendering of an integer.
pub open spec fn int_str(n: int) -> Seq<char> {
    if n < 0 {
        seq!['-'] + dec_digits((-n) as nat)
    } else {
        dec_digits(n as nat)
    }
}

/// How one character appears inside a printed string literal: quotes
/// and backslashes carry a backslash escape.
pub open spec fn escape_char(c: char) -> Seq<char> {
    if c == '"' {
        seq!['\\', '"']
    } else if c == '\\' {
        seq!['\\', '\\']
    } else {
        seq![c]
    }
}

/// A string's characters with escapes applied.
pub open spec fn escape_seq(s: Seq<char>) -> Seq<char>
    decreases s.len(),
{
    if s.len() == 0 {
        Seq::empty()
    } else {
        escape_seq(s.drop_last()) + escape_char(s.last())
    }
}

/// The surface name of a native callable.
pub open spec fn builtin_name(b: Builtin) -> Seq<char> {
    match b {
        Builtin::Add => "+"@,
        Builtin::Sub => "-"@,
        Builtin::Mul => "*"@,
        Builtin::Div => "/"@,
        Builtin::IntDiv => "div"@,
        Builtin::IntMod => "mod"@,
        Builtin::Sqrt => "sqrt"@,
        Builtin::Lt => "<"@,
        Builtin::Le => "<="@,
        Builtin::Gt => ">"@,
        Builtin::Ge => ">="@,
        Builtin::Equal => "="@,
        Builtin::ListP => "list?"@,
        Builtin::Count => "count"@,
        Builtin::EmptyP => "empty?"@,
        Builtin::MakeList => "list"@,
        Builtin::Prn => "prn"@,
    }
}

/// The exact text of a printed value. The float case is left empty
/// here: a float's text comes from the host and the printer claims
/// nothing about it.
pub open spec fn print_spec(v: ValSpec) -> Seq<char>
    decreases v,
    via print_spec_dec
{
    match v {
        ValSpec::Nil => "nil"@,
        ValSpec::True => "true"@,
        ValSpec::False => "false"@,
        ValSpec::Int(n) => int_str(n),
        ValSpec::Float(_) => Seq::empty(),
        ValSpec::Str(s) => seq!['"'] + escape_seq(s) + seq!['"'],
        ValSpec::Keyword(s) => seq![':'] + s,
        ValSpec::Symbol(s) => s,
        ValSpec::List(items) => seq!['('] + print_items(items) + seq![')'],
        ValSpec::Vector(items) => seq!['['] + print_items(items) + seq![']'],
        ValSpec::Table(ps) => seq!['{'] + print_pairs(ps) + seq!['}'],
        ValSpec::Builtin(b) => seq!['<'] + builtin_name(b) + " (builtin function)>"@,
        ValSpec::Closure { .. } => "<(anonymous interpreted function)>"@,
    }
}

/// The space-separated texts of a sequence of values.
pub open spec fn print_items(s: Seq<ValSpec>) -> Seq<char>
    decreases s,
    via print_items_dec
{
    if s.len() == 0 {
        Seq::empty()
    } else if s.len() == 1 {
        print_spec(s[0])
    } else {
        print_items(s.drop_last()) + seq![' '] + print_spec(s.last())
    }
}

/// The space-separated texts of a sequence of key-value pairs.
pub open spec fn print_pairs(s: Seq<(ValSpec, ValSpec)>) -> Seq<char>
    decreases s,
    via print_pairs_dec
{
    if s.len() == 0 {
        Seq::empty()
    } else if s.len() == 1 {
        print_spec(s[0].0) + seq![' '] + print_spec(s[0].1)
    } else {
        print_pairs(s.drop_last()) + seq![' '] + print_spec(s.last().0) + seq![' ']
            + print_spec(s.last().1)
    }
}

#[via_fn]
proof fn print_spec_dec(v: ValSpec) {
    match v {
        ValSpec::List(items) => {
            assert(decreases_to!(v => v->List_0));
        },
        ValSpec::Vector(items) => {
            assert(decreases_to!(v => v->Vector_0));
        },
        ValSpec::Table(ps) => {
            assert(decreases_to!(v => v->Table_0));
        },
        _ => {},
    }
}

#[via_fn]
proof fn print_items_dec(s: Seq<ValSpec>) {
    if s.len() >= 1 {
        assert(decreases_to!(s => s[0]));
        assert(decreases_to!(s => s[s.len() - 1]));
    }
}

#[via_fn]
proof fn print_pairs_dec(s: Seq<(ValSpec, ValSpec)>) {
    if s.len() >= 1 {
        assert(decreases_to!(s => s[0]));
        assert(decreases_to!(s[0] => s[0].0));
        assert(decreases_to!(s => s[s.len() - 1]));
        assert(decreases_to!(s[s.len() - 1] => s[s.len() - 1].0));
    }
}

/// Append the decimal digits of `m`.
fn push_dec(s: &mut String, m: u64)
    ensures
        final(s)@ == old(s)@ + dec_digits(m as nat),
    decreases m,
{
    if m < 10 {
        let c = (48 + m as u8) as char;
        proof {
            assert(c == digit_char(m as nat));
        }
        s.push(c);
        proof {
            assert(s@ =~= old(s)@ + dec_digits(m as nat));
        }
    } else {
        push_dec(s, m / 10);
        let c = (48 + (m % 10) as u8) as char;
        proof {
            assert(c == digit_char((m as nat) % 10));
        }
        s.push(c);
        proof {
            assert(s@ =~= old(s)@ + dec_digits(m as nat));
        }
    }
}

/// Append a string's characters with escapes applied.
fn push_escaped(s: &mut String, t: &String)
    ensures
        final(s)@ == old(s)@ + escape_seq(t@),
{
    let n = t.as_str().unicode_len();
    let mut i: usize = 0;
    while i < n
        invariant
            n == t@.len(),
            i <= n,
            s@ == old(s)@ + escape_seq(t@.take(i as int)),
        decreases n - i,
    {
        let c = t.as_str().get_char(i);
        proof {
            assert(t@.take(i + 1).drop_last() =~= t@.take(i as int));
            assert(t@.take(i + 1).last() == t@[i as int]);
        }
        if c == '"' {
            s.push('\\');
            s.push('"');
        } else if c == '\\' {
            s.push('\\');
            s.push('\\');
        } else {
            s.push(c);
        }
        i = i + 1;
        proof {
            assert(s@ =~= old(s)@ + escape_seq(t@.take(i as int)));
        }
    }
    proof {
        assert(t@.take(n as int) =~= t@);
    }
}

/// The display name of a native callable.
fn builtin_display(b: &Builtin) -> (r: String)
    ensures
        r@ == builtin_name(*b),
{
    match b {
        Builtin::Add => String::from_str("+"),
        Builtin::Sub => String::from_str("-"),
        Builtin::Mul => String::from_str("*"),
        Builtin::Div => String::from_str("/"),
        Builtin::IntDiv => String::from_str("div"),
        Builtin::IntMod => String::from_str("mod"),
        Builtin::Sqrt => String::from_str("sqrt"),
        Builtin::Lt => String::from_str("<"),
        Builtin::Le => String::from_str("<="),
        Builtin::Gt => String::from_str(">"),
        Builtin::Ge => String::from_str(">="),
        Builtin::Equal => String::from_str("="),
        Builtin::ListP => String::from_str("list?"),
        Builtin::Count => String::from_str("count"),
        Builtin::EmptyP => String::from_str("empty?"),
        Builtin::MakeList => String::from_str("list"),
        Builtin::Prn => String::from_str("prn"),
    }
}

/// Render a value in the standard textual syntax. For a float-free
/// value the result is exactly [`print_spec`]; a float inside is
/// rendered by the host.
pub fn pr_str<F: FloatOps>(ops: &F, v: &Val) -> (r: String)
    ensures
        float_free(v@) ==> r@ == print_spec(v@),
    decreases *v,
{
    match v {
        Val::Nil => String::from_str("nil"),
        Val::True => String::from_str("true"),
        Val::False => String::from_str("false"),
        Val::Int(n) => {
            let mut s = String::new();
            if *n < 0 {
                s.push('-');
                let m: u64 = (-(*n as i128)) as u64;
                push_dec(&mut s, m);
                proof {
                    assert(s@ =~= int_str(*n as int));
                }
            } else {
                push_dec(&mut s, *n as u64);
                proof {
                    assert(s@ =~= int_str(*n as int));
                }
            }
            s
        },
        Val::Float(b) => ops.render(*b),
        Val::Str(t) => {
            let mut s = String::new();
            s.push('"');
            push_escaped(&mut s, t);
            s.push('"');
            proof {
                assert(s@ =~= print_spec(v@));
            }
            s
        },
        Val::Keyword(t) => {
            let mut s = String::new();
            s.push(':');
            s.append(t.as_str());
            proof {
                assert(s@ =~= print_spec(v@));
            }
            s
        },
        Val::Symbol(t) => t.clone(),
        Val::List(items) => {
            proof {
                assert(decreases_to!(*v => v->List_0));
                assert(decreases_to!(v->List_0 => v->List_0@));
            }
            let body = pr_items(ops, items);
            let mut s = String::new();
            s.push('(');
            s.append(body.as_str());
            s.push(')');
            proof {
                if float_free(v@) {
                    assert(s@ =~= print_spec(v@));
                }
            }
            s
        },
        Val::Vector(items) => {
            proof {
                assert(decreases_to!(*v => v->Vector_0));
                assert(decreases_to!(v->Vector_0 => v->Vector_0@));
            }
            let body = pr_items(ops, items);
            let mut s = String::new();
            s.push('[');
            s.append(body.as_str());
            s.push(']');
            proof {
                if float_free(v@) {
                    assert(s@ =~= print_spec(v@));
                }
            }
            s
        },
        Val::Table(pairs) => {
            proof {
                assert(decreases_to!(*v => v->Table_0));
                assert(decreases_to!(v->Table_0 => v->Table_0@));
            }
            let body = pr_pairs(ops, pairs);
            let mut s = String::new();
            s.push('{');
            s.append(body.as_str());
            s.push('}');
            proof {
                if float_free(v@) {
                    assert(s@ =~= print_spec(v@));
                }
            }
            s
        },
        Val::Func(Lambda::Builtin(b)) => {
            let name = builtin_display(b);
            let mut s = String::new();
            s.push('<');
            s.append(name.as_str());
            s.append(" (builtin function)>");
            proof {
                assert(s@ =~= print_spec(v@));
            }
            s
        },
        Val::Func(Lambda::Function(_)) => String::from_str("<(anonymous interpreted function)>"),
    }
}

/// Render a sequence of values, space-separated.
fn pr_items<F: FloatOps>(ops: &F, items: &Vec<Val>) -> (r: String)
    ensures
        vals_float_free(vals_view(items@)) ==> r@ == print_items(vals_view(items@)),
    decreases items@,
{
    let ghost t = vals_view(items@);
    proof {
        lemma_vals_view(items@);
        lemma_vals_float_free(t);
    }
    let mut out = String::new();
    let mut i: usize = 0;
    while i < items.len()
        invariant
            t == vals_view(items@),
            t.len() == items@.len(),
            forall|j: int| 0 <= j < t.len() ==> t[j] == val_view(items@[j]),
            i <= items@.len(),
            (forall|j: int| 0 <= j < i ==> float_free(t[j]))
                ==> out@ == print_items(t.take(i as int)),
        decreases items@.len() - i,
    {
        proof {
            assert(decreases_to!(items@ => items@[i as int]));
        }
        let piece = pr_str(ops, &items[i]);
        if i > 0 {
            out.push(' ');
        }
        out.append(piece.as_str());
        i = i + 1;
        proof {
            if forall|j: int| 0 <= j < i ==> float_free(t[j]) {
                assert(t.take(i as int).drop_last() =~= t.take(i as int - 1));
                assert(t.take(i as int).last() == t[i - 1]);
                assert(out@ =~= print_items(t.take(i as int)));
            }
        }
    }
    proof {
        if vals_float_free(t) {
            assert(t.take(t.len() as int) =~= t);
        }
    }
    out
}

/// Render a sequence of key-value pairs, space-separated.
fn pr_pairs<F: FloatOps>(ops: &F, pairs: &Vec<(Val, Val)>) -> (r: String)
    ensures
        pairs_float_free(pairs_view(pairs@)) ==> r@ == print_pairs(pairs_view(pairs@)),
    decreases pairs@,
{
    let ghost t = pairs_view(pairs@);
    proof {
        lemma_pairs_view(pairs@);
        lemma_pairs_float_free(t);
    }
    let mut out = String::new();
    let mut i: usize = 0;
    while i < pairs.len()
        invariant
            t == pairs_view(pairs@),
            t.len() == pairs@.len(),
            forall|j: int| 0 <= j < t.len()
                ==> t[j] == (val_view(pairs@[j].0), val_view(pairs@[j].1)),
            i <= pairs@.len(),
            (forall|j: int| 0 <= j < i ==> float_free(t[j].0) && float_free(t[j].1))
                ==> out@ == print_pairs(t.take(i as int)),
        decreases pairs@.len() - i,
    {
        proof {
            assert(decreases_to!(pairs@ => pairs@[i as int]));
            assert(decreases_to!(pairs@[i as int] => pairs@[i as int].0));
        }
        let kpiece = pr_str(ops, &pairs[i].0);
        let vpiece = pr_str(ops, &pairs[i].1);
        if i > 0 {
            out.push(' ');
        }
        out.append(kpiece.as_str());
        out.push(' ');
        out.append(vpiece.as_str());
        i = i + 1;
        proof {
            if forall|j: int| 0 <= j < i ==> float_free(t[j].0) && float_free(t[j].1) {
                assert(t.take(i as int).drop_last() =~= t.take(i as int - 1));
                assert(t.take(i as int).last() == t[i - 1]);
                assert(out@ =~= print_pairs(t.take(i as int)));
            }
        }
    }
    proof {
        if pairs_float_free(t) {
            assert(t.take(t.len() as int) =~= t);
        }
    }
    out
}

} // verus!
