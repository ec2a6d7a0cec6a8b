//! The reader inverts the printer: parsing the printed text of a
//! readable value yields the value back.
//!
//! A value is *readable* when its printed text re-reads as itself:
//! it holds no float (a float's text is host-rendered, and a float
//! with integral value even prints as an integer) and no callable
//! (callables print opaquely), every integer fits the 64-bit range,
//! symbols and keywords hold only atom characters and do not collide
//! with numbers or literal spellings, and map keys are distinct atoms.

use vstd::prelude::*;

use crate::printer::{dec_digits, digit_char, escape_char, escape_seq, int_str, print_items,
    print_pairs, print_spec};
use crate::reader::{all_digits, assemble_into, atom_len, atom_spec, digit_prefix_len,
    digit_val, digits_val, int_syntax, int_tok_val, is_atom_stop, is_float_syntax, is_int_token,
    is_map_key, is_sep, is_special, lex, number_syntax, parse_form_at, parse_until_at, seq_lower,
    str_body_len, tbl_put, tok_len, unesc, AtomR, ParseR, UntilR,
};
use crate::types::{vals_equal, ValSpec};

verus! {

broadcast use vstd::seq::group_seq_axioms;

/// Characters that may stand in an atom token.
pub open spec fn all_atom_chars(s: Seq<char>) -> bool {
    forall|i: int| 0 <= i < s.len() ==> !is_atom_stop(#[trigger] s[i])
}

/// The spellings the reader turns into `nil`, `true` and `false`.
pub open spec fn is_literal_spelling(s: Seq<char>) -> bool {
    s == "nil"@ || s == "Nil"@ || s == "NIL"@ || s == "true"@ || s == "True"@ || s == "TRUE"@
        || s == "false"@ || s == "False"@ || s == "FALSE"@
}

/// A symbol whose printed text reads back as the same symbol.
pub open spec fn readable_sym(s: Seq<char>) -> bool {
    s.len() >= 1 && all_atom_chars(s) && !is_special(s[0]) && s[0] != ':'
        && !is_int_token(s) && !is_float_syntax(s) && !is_literal_spelling(s)
}

/// A value whose printed text reads back as the same value.
pub open spec fn readable(v: ValSpec) -> bool
    decreases v,
{
    match v {
        ValSpec::Nil => true,
        ValSpec::True => true,
        ValSpec::False => true,
        ValSpec::Int(n) => i64::MIN <= n <= i64::MAX,
        ValSpec::Float(_) => false,
        ValSpec::Str(_) => true,
        ValSpec::Keyword(s) => all_atom_chars(s),
        ValSpec::Symbol(s) => readable_sym(s),
        ValSpec::List(items) => vals_readable(items),
        ValSpec::Vector(items) => vals_readable(items),
        ValSpec::Table(ps) => pairs_readable(ps) && (forall|i: int, j: int|
            0 <= i < j < ps.len() ==> !vals_equal(#[trigger] ps[i].0, #[trigger] ps[j].0))
            && (forall|i: int| 0 <= i < ps.len() ==> is_map_key(#[trigger] ps[i].0)),
        ValSpec::Builtin(_) => false,
        ValSpec::Closure { .. } => false,
    }
}

pub open spec fn vals_readable(s: Seq<ValSpec>) -> bool
    decreases s,
{
    if s.len() == 0 {
        true
    } else {
        vals_readable(s.drop_last()) && readable(s.last())
    }
}

pub open spec fn pairs_readable(s: Seq<(ValSpec, ValSpec)>) -> bool
    decreases s,
    via pairs_readable_dec
{
    if s.len() == 0 {
        true
    } else {
        pairs_readable(s.drop_last()) && readable(s.last().0) && readable(s.last().1)
    }
}

#[via_fn]
proof fn pairs_readable_dec(s: Seq<(ValSpec, ValSpec)>) {
    if s.len() > 0 {
        assert(decreases_to!(s => s[s.len() - 1]));
        assert(decreases_to!(s[s.len() - 1] => s[s.len() - 1].0));
    }
}

/// Pointwise characterization of `vals_readable`.
pub proof fn lemma_vals_readable(s: Seq<ValSpec>)
    ensures
        vals_readable(s) == (forall|i: int| 0 <= i < s.len() ==> readable(#[trigger] s[i])),
    decreases s.len(),
{
    if s.len() > 0 {
        lemma_vals_readable(s.drop_last());
        assert(forall|i: int| 0 <= i < s.len() - 1 ==> s.drop_last()[i] == s[i]);
        assert(s.last() == s[s.len() - 1]);
    }
}

/// Pointwise characterization of `pairs_readable`.
pub proof fn lemma_pairs_readable(s: Seq<(ValSpec, ValSpec)>)
    ensures
        pairs_readable(s) == (forall|i: int| 0 <= i < s.len()
            ==> readable((#[trigger] s[i]).0) && readable(s[i].1)),
    decreases s.len(),
{
    if s.len() > 0 {
        lemma_pairs_readable(s.drop_last());
        assert(forall|i: int| 0 <= i < s.len() - 1 ==> s.drop_last()[i] == s[i]);
        assert(s.last() == s[s.len() - 1]);
    }
}

/// `escape_seq` unfolds at the front as well.
pub proof fn lemma_escape_front(s: Seq<char>)
    requires
        s.len() >= 1,
    ensures
        escape_seq(s) == escape_char(s[0]) + escape_seq(s.drop_first()),
    decreases s.len(),
{
    if s.len() == 1 {
        assert(s.drop_last() =~= Seq::<char>::empty());
        assert(s.drop_first() =~= Seq::<char>::empty());
        assert(escape_seq(s) =~= escape_char(s[0]) + escape_seq(s.drop_first()));
    } else {
        lemma_escape_front(s.drop_last());
        assert(s.drop_last()[0] == s[0]);
        assert(s.drop_last().drop_first() =~= s.drop_first().drop_last());
        assert(s.drop_first().last() == s.last());
        assert(escape_seq(s) == escape_seq(s.drop_last()) + escape_char(s.last()));
        assert(escape_seq(s.drop_first())
            == escape_seq(s.drop_first().drop_last()) + escape_char(s.drop_first().last()));
        assert(escape_seq(s) =~= escape_char(s[0]) + escape_seq(s.drop_first()));
    }
}

/// `print_items` unfolds at the front as well.
pub proof fn lemma_print_items_front(s: Seq<ValSpec>)
    requires
        s.len() >= 1,
    ensures
        print_items(s) == (if s.len() == 1 {
            print_spec(s[0])
        } else {
            print_spec(s[0]) + seq![' '] + print_items(s.drop_first())
        }),
    decreases s.len(),
{
    if s.len() >= 2 {
        lemma_print_items_front(s.drop_last());
        assert(s.drop_last()[0] == s[0]);
        assert(s.drop_last().drop_first() =~= s.drop_first().drop_last());
        assert(s.drop_first().last() == s.last());
        if s.len() == 2 {
            assert(s.drop_first() =~= seq![s[1]]);
            assert(print_items(s.drop_first()) == print_spec(s[1]));
            assert(print_items(s) =~= print_spec(s[0]) + seq![' '] + print_items(s.drop_first()));
        } else {
            assert(print_items(s) == print_items(s.drop_last()) + seq![' '] + print_spec(s.last()));
            assert(print_items(s.drop_first())
                == print_items(s.drop_first().drop_last()) + seq![' ']
                    + print_spec(s.drop_first().last()));
            assert(print_items(s) =~= print_spec(s[0]) + seq![' '] + print_items(s.drop_first()));
        }
    }
}

/// `print_pairs` unfolds at the front as well.
pub proof fn lemma_print_pairs_front(s: Seq<(ValSpec, ValSpec)>)
    requires
        s.len() >= 1,
    ensures
        print_pairs(s) == (if s.len() == 1 {
            print_spec(s[0].0) + seq![' '] + print_spec(s[0].1)
        } else {
            print_spec(s[0].0) + seq![' '] + print_spec(s[0].1) + seq![' ']
                + print_pairs(s.drop_first())
        }),
    decreases s.len(),
{
    if s.len() >= 2 {
        lemma_print_pairs_front(s.drop_last());
        assert(s.drop_last()[0] == s[0]);
        assert(s.drop_last().drop_first() =~= s.drop_first().drop_last());
        assert(s.drop_first().last() == s.last());
        if s.len() == 2 {
            assert(s.drop_first() =~= seq![s[1]]);
            assert(print_pairs(s) =~= print_spec(s[0].0) + seq![' '] + print_spec(s[0].1)
                + seq![' '] + print_pairs(s.drop_first()));
        } else {
            assert(print_pairs(s) =~= print_spec(s[0].0) + seq![' '] + print_spec(s[0].1)
                + seq![' '] + print_pairs(s.drop_first()));
        }
    }
}

} // verus!

verus! {

/// The decimal digits of a natural number: at least one, all digits,
/// reading back to the number itself.
pub proof fn lemma_dec_digits(m: nat)
    ensures
        dec_digits(m).len() >= 1,
        all_digits(dec_digits(m)),
        digits_val(dec_digits(m)) == m,
        crate::reader::is_digit(dec_digits(m)[0]),
    decreases m,
{
    if m < 10 {
        assert(dec_digits(m) =~= seq![digit_char(m)]);
        assert(dec_digits(m).drop_last() =~= Seq::<char>::empty());
        assert(crate::reader::is_digit(digit_char(m)));
        assert(digit_val(digit_char(m)) == m);
        assert(digits_val(dec_digits(m))
            == digits_val(Seq::<char>::empty()) * 10 + digit_val(digit_char(m)));
    } else {
        lemma_dec_digits(m / 10);
        let d = dec_digits(m);
        assert(d == dec_digits(m / 10).push(digit_char((m % 10) as nat)));
        assert(d.drop_last() =~= dec_digits(m / 10));
        assert(d.last() == digit_char((m % 10) as nat));
        assert(crate::reader::is_digit(digit_char((m % 10) as nat)));
        assert(digit_val(digit_char((m % 10) as nat)) == m % 10);
        assert forall|i: int| 0 <= i < d.len() implies crate::reader::is_digit(#[trigger] d[i]) by {
            if i < d.len() - 1 {
                assert(d[i] == dec_digits(m / 10)[i]);
            }
        }
        assert(digits_val(d) == digits_val(d.drop_last()) * 10 + digit_val(d.last()));
        assert((m / 10) * 10 + m % 10 == m) by {
            vstd::arithmetic::div_mod::lemma_fundamental_div_mod(m as int, 10);
        }
    }
}

/// A digit is no atom stop and no sign, dot, quote or letter.
pub proof fn lemma_digit_char_facts(c: char)
    requires
        crate::reader::is_digit(c),
    ensures
        !is_atom_stop(c),
        c != '+' && c != '-' && c != '.' && c != ':' && c != '"',
{
}

/// A token that neither starts like a number nor like an infinity or
/// NaN spelling is no integer and no float.
pub proof fn lemma_not_numeric(t: Seq<char>)
    requires
        t.len() >= 1,
        !crate::reader::is_digit(t[0]),
        t[0] != '+' && t[0] != '-' && t[0] != '.',
        crate::reader::lower(t[0]) != 'i' && crate::reader::lower(t[0]) != 'n',
    ensures
        !is_int_token(t),
        !is_float_syntax(t),
{
    reveal_strlit("inf");
    reveal_strlit("infinity");
    reveal_strlit("nan");
    assert(!int_syntax(t));
    assert(seq_lower(t)[0] == crate::reader::lower(t[0]));
    assert(seq_lower(t) != "inf"@);
    assert(seq_lower(t) != "infinity"@);
    assert(seq_lower(t) != "nan"@);
    assert(digit_prefix_len(t) == 0);
    assert(!number_syntax(t));
}

/// A token that starts with none of `n N t T f F` is no literal
/// spelling.
pub proof fn lemma_not_literal(t: Seq<char>)
    requires
        t.len() >= 1,
        t[0] != 'n' && t[0] != 'N' && t[0] != 't' && t[0] != 'T' && t[0] != 'f' && t[0] != 'F',
    ensures
        !is_literal_spelling(t),
{
    reveal_strlit("nil");
    reveal_strlit("Nil");
    reveal_strlit("NIL");
    reveal_strlit("true");
    reveal_strlit("True");
    reveal_strlit("TRUE");
    reveal_strlit("false");
    reveal_strlit("False");
    reveal_strlit("FALSE");
}

/// The printed text of an in-range integer reads back as that integer.
pub proof fn lemma_int_atom(n: int)
    requires
        i64::MIN <= n <= i64::MAX,
    ensures
        atom_spec(int_str(n)) == AtomR::V(ValSpec::Int(n)),
        all_atom_chars(int_str(n)),
        int_str(n).len() >= 1,
        !is_atom_stop(int_str(n)[0]) && !is_special(int_str(n)[0]),
{
    let t = int_str(n);
    if n >= 0 {
        lemma_dec_digits(n as nat);
        assert(t == dec_digits(n as nat));
        assert(crate::reader::is_digit(t[0]));
        lemma_digit_char_facts(t[0]);
        assert(int_syntax(t));
        assert(int_tok_val(t) == n);
        assert(is_int_token(t));
        assert forall|i: int| 0 <= i < t.len() implies !is_atom_stop(#[trigger] t[i]) by {
            lemma_digit_char_facts(t[i]);
        }
        assert(!is_special(t[0]));
    } else {
        lemma_dec_digits((-n) as nat);
        let d = dec_digits((-n) as nat);
        assert(t == seq!['-'] + d);
        assert(t[0] == '-');
        assert(t.skip(1) =~= d);
        assert(int_syntax(t));
        assert(int_tok_val(t) == -digits_val(d));
        assert(is_int_token(t));
        assert forall|i: int| 0 <= i < t.len() implies !is_atom_stop(#[trigger] t[i]) by {
            if i > 0 {
                assert(t[i] == d[i - 1]);
                lemma_digit_char_facts(t[i]);
            }
        }
        assert(!is_special(t[0]));
    }
}

/// Unescaping inverts escaping (with the closing quote appended).
pub proof fn lemma_unesc_escape(s: Seq<char>)
    ensures
        unesc(escape_seq(s) + seq!['"']) == Some(s),
    decreases s.len(),
{
    if s.len() == 0 {
        assert(escape_seq(s) + seq!['"'] =~= seq!['"']);
        assert(unesc(seq!['"']) == Some(Seq::<char>::empty()));
        assert(s =~= Seq::<char>::empty());
    } else {
        lemma_unesc_escape(s.drop_first());
        lemma_escape_front(s);
        let c = s[0];
        let body = escape_seq(s) + seq!['"'];
        let rest = escape_seq(s.drop_first()) + seq!['"'];
        if c == '"' || c == '\\' {
            assert(escape_char(c) =~= seq!['\\', c]);
            assert(body =~= seq!['\\', c] + rest);
            assert(body[0] == '\\' && body[1] == c);
            assert(body.skip(2) =~= rest);
            assert(unesc(body) == Some(seq![c] + s.drop_first()));
            assert(seq![c] + s.drop_first() =~= s);
        } else {
            assert(escape_char(c) =~= seq![c]);
            assert(body =~= seq![c] + rest);
            assert(body[0] == c);
            assert(body.drop_first() =~= rest);
            assert(unesc(body) == Some(seq![c] + s.drop_first()));
            assert(seq![c] + s.drop_first() =~= s);
        }
    }
}

/// The printed text of a readable atom reads back as that atom.
pub proof fn lemma_atom_round_trip(v: ValSpec)
    requires
        readable(v),
        !(v is List || v is Vector || v is Table),
    ensures
        atom_spec(print_spec(v)) == AtomR::V(v),
{
    let t = print_spec(v);
    match v {
        ValSpec::Nil => {
            reveal_strlit("nil");
            reveal_strlit("inf");
            reveal_strlit("infinity");
            reveal_strlit("nan");
            assert(t == "nil"@);
            assert(t.len() == 3 && t[0] == 'n' && t[1] == 'i' && t[2] == 'l');
            assert(!int_syntax(t));
            assert(seq_lower(t)[0] == 'n' && seq_lower(t)[1] == 'i');
            assert(seq_lower(t) != "inf"@ && seq_lower(t) != "infinity"@
                && seq_lower(t) != "nan"@);
            assert(digit_prefix_len(t) == 0);
            assert(!number_syntax(t));
            assert(!is_float_syntax(t));
        },
        ValSpec::True => {
            reveal_strlit("true");
            reveal_strlit("nil");
            reveal_strlit("Nil");
            reveal_strlit("NIL");
            assert(t == "true"@);
            assert(t.len() == 4 && t[0] == 't');
            lemma_not_numeric(t);
            assert(t != "nil"@ && t != "Nil"@ && t != "NIL"@);
        },
        ValSpec::False => {
            reveal_strlit("false");
            reveal_strlit("nil");
            reveal_strlit("Nil");
            reveal_strlit("NIL");
            reveal_strlit("true");
            reveal_strlit("True");
            reveal_strlit("TRUE");
            assert(t == "false"@);
            assert(t.len() == 5 && t[0] == 'f');
            lemma_not_numeric(t);
        },
        ValSpec::Int(n) => {
            lemma_int_atom(n);
        },
        ValSpec::Str(s) => {
            assert(t == seq!['"'] + escape_seq(s) + seq!['"']);
            assert(t[0] == '"');
            lemma_not_numeric(t);
            lemma_not_literal(t);
            assert(t.skip(1) =~= escape_seq(s) + seq!['"']);
            lemma_unesc_escape(s);
            assert(unesc(t.skip(1)) == Some(s));
        },
        ValSpec::Keyword(s) => {
            assert(t == seq![':'] + s);
            assert(t[0] == ':');
            lemma_not_numeric(t);
            lemma_not_literal(t);
            assert(t.skip(1) =~= s);
        },
        ValSpec::Symbol(s) => {
            assert(t == s);
            assert(!is_atom_stop(s[0]));
            assert(s[0] != '"' && s[0] != ':');
            assert(!is_int_token(t) && !is_float_syntax(t) && !is_literal_spelling(t));
        },
        _ => {},
    }
}

} // verus!

verus! {

/// The tokens of a printed value.
pub open spec fn toks_of(v: ValSpec) -> Seq<Seq<char>>
    decreases v,
{
    match v {
        ValSpec::List(items) => seq!["("@] + toks_items(items) + seq![")"@],
        ValSpec::Vector(items) => seq!["["@] + toks_items(items) + seq!["]"@],
        ValSpec::Table(ps) => seq!["{"@] + toks_pairs(ps) + seq!["}"@],
        _ => seq![print_spec(v)],
    }
}

pub open spec fn toks_items(s: Seq<ValSpec>) -> Seq<Seq<char>>
    decreases s, 0int,
{
    if s.len() == 0 {
        Seq::empty()
    } else {
        toks_of(s.first()) + toks_items(s.drop_first())
    }
}

pub open spec fn toks_pairs(s: Seq<(ValSpec, ValSpec)>) -> Seq<Seq<char>>
    decreases s, 0int,
    via toks_pairs_dec
{
    if s.len() == 0 {
        Seq::empty()
    } else {
        toks_of(s.first().0) + toks_of(s.first().1) + toks_pairs(s.drop_first())
    }
}

#[via_fn]
proof fn toks_pairs_dec(s: Seq<(ValSpec, ValSpec)>) {
    if s.len() > 0 {
        assert(decreases_to!(s => s[0]));
        assert(decreases_to!(s[0] => s[0].0));
    }
}

/// What may follow a printed piece so that the lexer cuts it off
/// cleanly: nothing, or a separator or delimiter.
pub open spec fn delimits(rest: Seq<char>) -> bool {
    rest.len() == 0 || is_atom_stop(rest[0])
}

/// An atom run followed by a stop scans to exactly the run.
pub proof fn lemma_atom_len_concat(t: Seq<char>, rest: Seq<char>)
    requires
        all_atom_chars(t),
        delimits(rest),
    ensures
        atom_len(t + rest) == t.len(),
    decreases t.len(),
{
    let s = t + rest;
    if t.len() == 0 {
        assert(s =~= rest);
        if rest.len() > 0 {
            assert(is_atom_stop(s[0]));
        }
    } else {
        assert(s[0] == t[0]);
        assert(!is_atom_stop(s[0]));
        assert(s.drop_first() =~= t.drop_first() + rest);
        assert forall|i: int| 0 <= i < t.drop_first().len()
            implies !is_atom_stop(#[trigger] t.drop_first()[i]) by {
            assert(t.drop_first()[i] == t[i + 1]);
        }
        lemma_atom_len_concat(t.drop_first(), rest);
    }
}

/// One clean atom token, then the rest.
pub proof fn lemma_lex_atom(t: Seq<char>, rest: Seq<char>)
    requires
        t.len() >= 1,
        all_atom_chars(t),
        !is_special(t[0]),
        t[0] != '"',
        delimits(rest),
    ensures
        lex(t + rest) == seq![t] + lex(rest),
{
    let s = t + rest;
    assert(s[0] == t[0]);
    assert(!is_atom_stop(t[0]));
    assert(!is_sep(s[0]) && s[0] != ';');
    assert(!(s.len() >= 2 && s[0] == '~' && s[1] == '@'));
    lemma_atom_len_concat(t, rest);
    assert(tok_len(s) == t.len());
    assert(s.take(t.len() as int) =~= t);
    assert(s.skip(t.len() as int) =~= rest);
    assert(lex(s) == seq![s.take(tok_len(s))] + lex(s.skip(tok_len(s))));
}

/// The scan of an escaped body stops exactly at the closing quote.
pub proof fn lemma_str_body_concat(s: Seq<char>, rest: Seq<char>)
    ensures
        str_body_len(escape_seq(s) + seq!['"'] + rest) == escape_seq(s).len() + 1,
    decreases s.len(),
{
    let body = escape_seq(s) + seq!['"'] + rest;
    if s.len() == 0 {
        assert(body =~= seq!['"'] + rest);
        assert(body[0] == '"');
    } else {
        lemma_escape_front(s);
        lemma_str_body_concat(s.drop_first(), rest);
        let c = s[0];
        let tail = escape_seq(s.drop_first()) + seq!['"'] + rest;
        if c == '"' || c == '\\' {
            assert(escape_char(c) =~= seq!['\\', c]);
            assert(body =~= seq!['\\', c] + tail);
            assert(body[0] == '\\');
            assert(body.len() >= 2);
            assert(body.skip(2) =~= tail);
            assert(escape_seq(s).len() == 2 + escape_seq(s.drop_first()).len());
        } else {
            assert(escape_char(c) =~= seq![c]);
            assert(body =~= seq![c] + tail);
            assert(body[0] == c && c != '"' && c != '\\');
            assert(body.drop_first() =~= tail);
            assert(escape_seq(s).len() == 1 + escape_seq(s.drop_first()).len());
        }
    }
}

/// One string token, then the rest.
pub proof fn lemma_lex_string(s: Seq<char>, rest: Seq<char>)
    ensures
        lex((seq!['"'] + escape_seq(s) + seq!['"']) + rest)
            == seq![seq!['"'] + escape_seq(s) + seq!['"']] + lex(rest),
{
    let t = seq!['"'] + escape_seq(s) + seq!['"'];
    let full = t + rest;
    assert(full[0] == '"');
    assert(!is_sep(full[0]) && full[0] != ';');
    assert(!is_special(full[0]));
    assert(!(full.len() >= 2 && full[0] == '~' && full[1] == '@'));
    assert(full.drop_first() =~= escape_seq(s) + seq!['"'] + rest);
    lemma_str_body_concat(s, rest);
    assert(tok_len(full) == 1 + (escape_seq(s).len() + 1));
    assert(tok_len(full) == t.len());
    assert(full.take(t.len() as int) =~= t);
    assert(full.skip(t.len() as int) =~= rest);
    assert(lex(full) == seq![full.take(tok_len(full))] + lex(full.skip(tok_len(full))));
}

/// One delimiter token, then the rest.
pub proof fn lemma_lex_delim(c: char, rest: Seq<char>)
    requires
        c == '(' || c == ')' || c == '[' || c == ']' || c == '{' || c == '}',
    ensures
        lex(seq![c] + rest) == seq![seq![c]] + lex(rest),
{
    let s = seq![c] + rest;
    assert(s[0] == c);
    assert(!is_sep(c) && c != ';');
    assert(is_special(c));
    assert(!(s.len() >= 2 && s[0] == '~' && s[1] == '@'));
    assert(tok_len(s) == 1);
    assert(s.take(1) =~= seq![c]);
    assert(s.skip(1) =~= rest);
    assert(lex(s) == seq![s.take(tok_len(s))] + lex(s.skip(tok_len(s))));
}

/// A leading blank is discarded.
pub proof fn lemma_lex_space(rest: Seq<char>)
    ensures
        lex(seq![' '] + rest) == lex(rest),
{
    let s = seq![' '] + rest;
    assert(s[0] == ' ' && is_sep(s[0]));
    assert(s.drop_first() =~= rest);
}

/// Lexing the printed text of a readable value, with anything cleanly
/// delimited after it, yields the value's tokens and then the rest's.
pub proof fn lemma_print_lex(v: ValSpec, rest: Seq<char>)
    requires
        readable(v),
        delimits(rest),
    ensures
        lex(print_spec(v) + rest) == toks_of(v) + lex(rest),
    decreases v, 1int,
{
    reveal_strlit("(");
    reveal_strlit(")");
    reveal_strlit("[");
    reveal_strlit("]");
    reveal_strlit("{");
    reveal_strlit("}");
    match v {
        ValSpec::Nil => {
            reveal_strlit("nil");
            lemma_lex_atom(print_spec(v), rest);
            assert(toks_of(v) =~= seq![print_spec(v)]);
        },
        ValSpec::True => {
            reveal_strlit("true");
            lemma_lex_atom(print_spec(v), rest);
            assert(toks_of(v) =~= seq![print_spec(v)]);
        },
        ValSpec::False => {
            reveal_strlit("false");
            lemma_lex_atom(print_spec(v), rest);
            assert(toks_of(v) =~= seq![print_spec(v)]);
        },
        ValSpec::Int(n) => {
            lemma_int_atom(n);
            lemma_lex_atom(print_spec(v), rest);
            assert(toks_of(v) =~= seq![print_spec(v)]);
        },
        ValSpec::Str(s) => {
            lemma_lex_string(s, rest);
            assert(toks_of(v) =~= seq![print_spec(v)]);
        },
        ValSpec::Keyword(s) => {
            let t = print_spec(v);
            assert(t == seq![':'] + s);
            assert(t[0] == ':');
            assert forall|i: int| 0 <= i < t.len() implies !is_atom_stop(#[trigger] t[i]) by {
                if i > 0 {
                    assert(t[i] == s[i - 1]);
                }
            }
            lemma_lex_atom(t, rest);
            assert(toks_of(v) =~= seq![t]);
        },
        ValSpec::Symbol(s) => {
            lemma_lex_atom(print_spec(v), rest);
            assert(toks_of(v) =~= seq![print_spec(v)]);
        },
        ValSpec::List(items) => {
            let tail = seq![')'] + rest;
            let inner = print_items(items) + tail;
            assert(print_spec(v) + rest =~= seq!['('] + inner);
            lemma_lex_delim('(', inner);
            assert(lex(print_spec(v) + rest) == seq![seq!['(']] + lex(inner));
            lemma_items_lex(items, tail);
            assert(lex(inner) == toks_items(items) + lex(tail));
            lemma_lex_delim(')', rest);
            assert(lex(tail) == seq![seq![')']] + lex(rest));
            assert("("@ =~= seq!['(']);
            assert(")"@ =~= seq![')']);
            assert(toks_of(v) =~= seq![seq!['(']] + toks_items(items) + seq![seq![')']]);
            assert(lex(print_spec(v) + rest) =~= toks_of(v) + lex(rest));
        },
        ValSpec::Vector(items) => {
            let tail = seq![']'] + rest;
            let inner = print_items(items) + tail;
            assert(print_spec(v) + rest =~= seq!['['] + inner);
            lemma_lex_delim('[', inner);
            assert(lex(print_spec(v) + rest) == seq![seq!['[']] + lex(inner));
            lemma_items_lex(items, tail);
            assert(lex(inner) == toks_items(items) + lex(tail));
            lemma_lex_delim(']', rest);
            assert(lex(tail) == seq![seq![']']] + lex(rest));
            assert("["@ =~= seq!['[']);
            assert("]"@ =~= seq![']']);
            assert(toks_of(v) =~= seq![seq!['[']] + toks_items(items) + seq![seq![']']]);
            assert(lex(print_spec(v) + rest) =~= toks_of(v) + lex(rest));
        },
        ValSpec::Table(ps) => {
            let tail = seq!['}'] + rest;
            let inner = print_pairs(ps) + tail;
            assert(print_spec(v) + rest =~= seq!['{'] + inner);
            lemma_lex_delim('{', inner);
            assert(lex(print_spec(v) + rest) == seq![seq!['{']] + lex(inner));
            lemma_pairs_lex(ps, tail);
            assert(lex(inner) == toks_pairs(ps) + lex(tail));
            lemma_lex_delim('}', rest);
            assert(lex(tail) == seq![seq!['}']] + lex(rest));
            assert("{"@ =~= seq!['{']);
            assert("}"@ =~= seq!['}']);
            assert(toks_of(v) =~= seq![seq!['{']] + toks_pairs(ps) + seq![seq!['}']]);
            assert(lex(print_spec(v) + rest) =~= toks_of(v) + lex(rest));
        },
        _ => {},
    }
}

/// Lexing printed elements followed by a delimited tail.
pub proof fn lemma_items_lex(s: Seq<ValSpec>, tail: Seq<char>)
    requires
        vals_readable(s),
        tail.len() >= 1,
        is_atom_stop(tail[0]),
    ensures
        lex(print_items(s) + tail) == toks_items(s) + lex(tail),
    decreases s, 2int,
{
    lemma_vals_readable(s);
    if s.len() == 0 {
        assert(print_items(s) + tail =~= tail);
        assert(toks_items(s) + lex(tail) =~= lex(tail));
    } else if s.len() == 1 {
        lemma_print_items_front(s);
        assert(print_items(s) + tail =~= print_spec(s[0]) + tail);
        lemma_print_lex(s[0], tail);
        assert(s.drop_first().len() == 0);
        assert(toks_items(s.drop_first()) =~= Seq::<Seq<char>>::empty());
        assert(toks_items(s) == toks_of(s.first()) + toks_items(s.drop_first()));
        assert(s.first() == s[0]);
        assert(toks_items(s) =~= toks_of(s[0]));
        assert(lex(print_items(s) + tail) =~= toks_items(s) + lex(tail));
    } else {
        lemma_print_items_front(s);
        let tail2 = seq![' '] + print_items(s.drop_first()) + tail;
        assert(print_items(s) + tail =~= print_spec(s[0]) + tail2);
        assert(tail2[0] == ' ' && is_atom_stop(' '));
        lemma_print_lex(s[0], tail2);
        assert(tail2.drop_first() =~= print_items(s.drop_first()) + tail);
        lemma_lex_space(print_items(s.drop_first()) + tail);
        assert(tail2 =~= seq![' '] + (print_items(s.drop_first()) + tail));
        assert forall|i: int| 0 <= i < s.drop_first().len()
            implies readable(#[trigger] s.drop_first()[i]) by {
            assert(s.drop_first()[i] == s[i + 1]);
        }
        lemma_vals_readable(s.drop_first());
        lemma_items_lex(s.drop_first(), tail);
        assert(toks_items(s) =~= toks_of(s[0]) + toks_items(s.drop_first()));
        assert(lex(print_items(s) + tail) =~= toks_items(s) + lex(tail));
    }
}

/// Lexing printed pairs followed by a delimited tail.
#[verifier::rlimit(60)]
pub proof fn lemma_pairs_lex(s: Seq<(ValSpec, ValSpec)>, tail: Seq<char>)
    requires
        pairs_readable(s),
        tail.len() >= 1,
        is_atom_stop(tail[0]),
    ensures
        lex(print_pairs(s) + tail) == toks_pairs(s) + lex(tail),
    decreases s, 2int,
{
    lemma_pairs_readable(s);
    if s.len() == 0 {
        assert(print_pairs(s) + tail =~= tail);
        assert(toks_pairs(s) + lex(tail) =~= lex(tail));
    } else {
        lemma_print_pairs_front(s);
        if s.len() == 1 {
            let mid = seq![' '] + print_spec(s[0].1) + tail;
            assert(print_pairs(s) + tail =~= print_spec(s[0].0) + mid);
            assert(mid[0] == ' ');
            lemma_print_lex(s[0].0, mid);
            assert(mid.drop_first() =~= print_spec(s[0].1) + tail);
            lemma_lex_space(print_spec(s[0].1) + tail);
            assert(mid =~= seq![' '] + (print_spec(s[0].1) + tail));
            lemma_print_lex(s[0].1, tail);
            assert(s.drop_first().len() == 0);
            assert(toks_pairs(s.drop_first()) =~= Seq::<Seq<char>>::empty());
            assert(toks_pairs(s)
                == toks_of(s.first().0) + toks_of(s.first().1) + toks_pairs(s.drop_first()));
            assert(s.first() == s[0]);
            assert(toks_pairs(s) =~= toks_of(s[0].0) + toks_of(s[0].1));
            assert(lex(print_pairs(s) + tail) =~= toks_pairs(s) + lex(tail));
        } else {
            let mid2 = seq![' '] + print_pairs(s.drop_first()) + tail;
            let mid = seq![' '] + print_spec(s[0].1) + mid2;
            assert(print_pairs(s) + tail =~= print_spec(s[0].0) + mid);
            assert(mid[0] == ' ');
            lemma_print_lex(s[0].0, mid);
            assert(mid.drop_first() =~= print_spec(s[0].1) + mid2);
            lemma_lex_space(print_spec(s[0].1) + mid2);
            assert(mid =~= seq![' '] + (print_spec(s[0].1) + mid2));
            assert(mid2[0] == ' ');
            lemma_print_lex(s[0].1, mid2);
            assert(mid2.drop_first() =~= print_pairs(s.drop_first()) + tail);
            lemma_lex_space(print_pairs(s.drop_first()) + tail);
            assert(mid2 =~= seq![' '] + (print_pairs(s.drop_first()) + tail));
            assert forall|i: int| 0 <= i < s.drop_first().len()
                implies readable((#[trigger] s.drop_first()[i]).0)
                    && readable(s.drop_first()[i].1) by {
                assert(s.drop_first()[i] == s[i + 1]);
            }
            lemma_pairs_readable(s.drop_first());
            lemma_pairs_lex(s.drop_first(), tail);
            assert(toks_pairs(s) =~= toks_of(s[0].0) + toks_of(s[0].1)
                + toks_pairs(s.drop_first()));
            assert(lex(print_pairs(s) + tail) =~= toks_pairs(s) + lex(tail));
        }
    }
}

} // verus!

verus! {

/// The values of a pair sequence, flattened in reading order.
pub open spec fn flat_pairs(s: Seq<(ValSpec, ValSpec)>) -> Seq<ValSpec>
    decreases s, 0int,
    via flat_pairs_dec
{
    if s.len() == 0 {
        Seq::empty()
    } else {
        seq![s.first().0, s.first().1] + flat_pairs(s.drop_first())
    }
}

#[via_fn]
proof fn flat_pairs_dec(s: Seq<(ValSpec, ValSpec)>) {
    if s.len() > 0 {
        assert(decreases_to!(s => s[0]));
    }
}

/// A readable value's first token is never a closing delimiter nor the
/// quote mark, and a readable atom's token is no opener either.
pub proof fn lemma_first_tok(v: ValSpec)
    requires
        readable(v),
    ensures
        toks_of(v).len() >= 1,
        toks_of(v)[0] != ")"@ && toks_of(v)[0] != "]"@ && toks_of(v)[0] != "}"@,
        toks_of(v)[0] != "'"@,
        !(v is List || v is Vector || v is Table) ==> toks_of(v)[0] != "("@
            && toks_of(v)[0] != "["@ && toks_of(v)[0] != "{"@,
{
    reveal_strlit("(");
    reveal_strlit(")");
    reveal_strlit("[");
    reveal_strlit("]");
    reveal_strlit("{");
    reveal_strlit("}");
    reveal_strlit("'");
    assert("("@.len() == 1 && "("@[0] == '(');
    assert(")"@.len() == 1 && ")"@[0] == ')');
    assert("["@.len() == 1 && "["@[0] == '[');
    assert("]"@.len() == 1 && "]"@[0] == ']');
    assert("{"@.len() == 1 && "{"@[0] == '{');
    assert("}"@.len() == 1 && "}"@[0] == '}');
    assert("'"@.len() == 1 && "'"@[0] == '\'');
    match v {
        ValSpec::List(items) => {
            assert(toks_of(v)[0] == "("@);
            assert("("@ != ")"@ && "("@ != "]"@ && "("@ != "}"@ && "("@ != "'"@);
        },
        ValSpec::Vector(items) => {
            assert(toks_of(v)[0] == "["@);
            assert("["@ != ")"@ && "["@ != "]"@ && "["@ != "}"@ && "["@ != "'"@);
        },
        ValSpec::Table(ps) => {
            assert(toks_of(v)[0] == "{"@);
            assert("{"@ != ")"@ && "{"@ != "]"@ && "{"@ != "}"@ && "{"@ != "'"@);
        },
        _ => {
            let t = print_spec(v);
            assert(toks_of(v)[0] == t);
            let c = first_char_facts(v);
            assert(t.len() >= 1 && t[0] == c);
            assert("("@.len() == 1 && "("@[0] == '(');
            assert(")"@.len() == 1 && ")"@[0] == ')');
            assert("["@.len() == 1 && "["@[0] == '[');
            assert("]"@.len() == 1 && "]"@[0] == ']');
            assert("{"@.len() == 1 && "{"@[0] == '{');
            assert("}"@.len() == 1 && "}"@[0] == '}');
            assert("'"@.len() == 1 && "'"@[0] == '\'');
            assert(t != "("@ && t != ")"@ && t != "["@ && t != "]"@ && t != "{"@
                && t != "}"@ && t != "'"@);
        },
    }
}

/// The first character of a readable atom's text is never a delimiter
/// or quote-mark character.
pub proof fn first_char_facts(v: ValSpec) -> (c: char)
    requires
        readable(v),
        !(v is List || v is Vector || v is Table),
    ensures
        print_spec(v).len() >= 1,
        print_spec(v)[0] == c,
        c != '(' && c != ')' && c != '[' && c != ']' && c != '{' && c != '}' && c != '\'',
{
    match v {
        ValSpec::Nil => {
            reveal_strlit("nil");
            'n'
        },
        ValSpec::True => {
            reveal_strlit("true");
            't'
        },
        ValSpec::False => {
            reveal_strlit("false");
            'f'
        },
        ValSpec::Int(n) => {
            lemma_int_atom(n);
            assert(!is_atom_stop(print_spec(v)[0]));
            print_spec(v)[0]
        },
        ValSpec::Str(s) => {
            assert(print_spec(v) =~= seq!['"'] + escape_seq(s) + seq!['"']);
            assert(print_spec(v)[0] == '"');
            '"'
        },
        ValSpec::Keyword(s) => {
            assert(print_spec(v)[0] == ':');
            ':'
        },
        ValSpec::Symbol(s) => {
            assert(print_spec(v)[0] == s[0]);
            assert(!is_atom_stop(s[0]));
            s[0]
        },
        _ => {
            'x'
        },
    }
}

} // verus!

verus! {

/// Assembling flattened pairs with fresh, pairwise-distinct keys
/// appends them in order.
pub proof fn lemma_assemble(t: Seq<(ValSpec, ValSpec)>, s: Seq<(ValSpec, ValSpec)>)
    requires
        forall|i: int| 0 <= i < s.len() ==> is_map_key((#[trigger] s[i]).0),
        forall|i: int, j: int| 0 <= i < j < s.len()
            ==> !vals_equal(#[trigger] s[i].0, #[trigger] s[j].0),
        forall|j: int, i: int| 0 <= j < t.len() && 0 <= i < s.len()
            ==> !vals_equal(#[trigger] t[j].0, #[trigger] s[i].0),
    ensures
        assemble_into(t, flat_pairs(s)) == Some(t + s),
    decreases s.len(),
{
    if s.len() == 0 {
        assert(flat_pairs(s).len() == 0);
        assert(t + s =~= t);
    } else {
        let f = flat_pairs(s);
        assert(f == seq![s[0].0, s[0].1] + flat_pairs(s.drop_first()));
        assert(f.len() >= 2);
        assert(f[0] == s[0].0 && f[1] == s[0].1);
        assert(is_map_key(f[0]));
        crate::reader::lemma_tbl_put_shape(t, f[0], f[1], t.len() as int);
        let t2 = t.push((s[0].0, s[0].1));
        assert(tbl_put(t, f[0], f[1]) == t2);
        assert(f.skip(2) =~= flat_pairs(s.drop_first()));
        assert forall|i: int| 0 <= i < s.drop_first().len()
            implies is_map_key((#[trigger] s.drop_first()[i]).0) by {
            assert(s.drop_first()[i] == s[i + 1]);
        }
        assert forall|i: int, j: int| 0 <= i < j < s.drop_first().len()
            implies !vals_equal(#[trigger] s.drop_first()[i].0,
                #[trigger] s.drop_first()[j].0) by {
            assert(s.drop_first()[i] == s[i + 1] && s.drop_first()[j] == s[j + 1]);
        }
        assert forall|j: int, i: int| 0 <= j < t2.len() && 0 <= i < s.drop_first().len()
            implies !vals_equal(#[trigger] t2[j].0, #[trigger] s.drop_first()[i].0) by {
            assert(s.drop_first()[i] == s[i + 1]);
            if j < t.len() {
                assert(t2[j] == t[j]);
            } else {
                assert(t2[j] == s[0]);
            }
        }
        lemma_assemble(t2, s.drop_first());
        assert(t2 + s.drop_first() =~= t + s);
    }
}

/// Parsing a readable value's tokens yields the value.
pub proof fn lemma_parse_toks(v: ValSpec, toks: Seq<Seq<char>>, pos: int)
    requires
        readable(v),
        0 <= pos,
        pos + toks_of(v).len() <= toks.len(),
        forall|k: int| 0 <= k < toks_of(v).len()
            ==> toks[pos + k] == #[trigger] toks_of(v)[k],
    ensures
        parse_form_at(toks, pos) == ParseR::Form(v, pos + toks_of(v).len()),
    decreases v, 1int,
{
    reveal_strlit("(");
    reveal_strlit(")");
    reveal_strlit("[");
    reveal_strlit("]");
    reveal_strlit("{");
    reveal_strlit("}");
    reveal_strlit("'");
    lemma_first_tok(v);
    assert(toks[pos] == toks_of(v)[0]);
    match v {
        ValSpec::List(items) => {
            assert(toks[pos] == "("@);
            assert("("@ != "'"@ && !("("@ == ")"@ || "("@ == "]"@ || "("@ == "}"@));
            lemma_vals_readable(items);
            let inner = toks_items(items);
            assert forall|k: int| 0 <= k < inner.len()
                implies toks[pos + 1 + k] == #[trigger] inner[k] by {
                assert(toks_of(v)[1 + k] == inner[k]);
            }
            assert(toks[pos + 1 + inner.len()] == toks_of(v)[1 + inner.len() as int]);
            assert(toks_of(v)[1 + inner.len() as int] == ")"@);
            lemma_parse_items_toks(items, toks, pos + 1, ")"@);
            assert(parse_until_at(toks, pos + 1, ")"@)
                == UntilR::Items(items, pos + 1 + inner.len() + 1));
            assert(toks_of(v).len() == inner.len() + 2);
        },
        ValSpec::Vector(items) => {
            assert(toks[pos] == "["@);
            assert("["@ != "("@ && "["@ != "'"@
                && !("["@ == ")"@ || "["@ == "]"@ || "["@ == "}"@));
            lemma_vals_readable(items);
            let inner = toks_items(items);
            assert forall|k: int| 0 <= k < inner.len()
                implies toks[pos + 1 + k] == #[trigger] inner[k] by {
                assert(toks_of(v)[1 + k] == inner[k]);
            }
            assert(toks[pos + 1 + inner.len()] == toks_of(v)[1 + inner.len() as int]);
            assert(toks_of(v)[1 + inner.len() as int] == "]"@);
            lemma_parse_items_toks(items, toks, pos + 1, "]"@);
            assert(toks_of(v).len() == inner.len() + 2);
        },
        ValSpec::Table(ps) => {
            assert(toks[pos] == "{"@);
            assert("{"@ != "("@ && "{"@ != "["@ && "{"@ != "'"@
                && !("{"@ == ")"@ || "{"@ == "]"@ || "{"@ == "}"@));
            lemma_pairs_readable(ps);
            let inner = toks_pairs(ps);
            assert forall|k: int| 0 <= k < inner.len()
                implies toks[pos + 1 + k] == #[trigger] inner[k] by {
                assert(toks_of(v)[1 + k] == inner[k]);
            }
            assert(toks[pos + 1 + inner.len()] == toks_of(v)[1 + inner.len() as int]);
            assert(toks_of(v)[1 + inner.len() as int] == "}"@);
            lemma_parse_pairs_toks(ps, toks, pos + 1, "}"@);
            assert(parse_until_at(toks, pos + 1, "}"@)
                == UntilR::Items(flat_pairs(ps), pos + 1 + inner.len() + 1));
            lemma_assemble(Seq::empty(), ps);
            assert(Seq::<(ValSpec, ValSpec)>::empty() + ps =~= ps);
            assert(assemble_into(Seq::empty(), flat_pairs(ps)) == Some(ps));
            assert(toks_of(v).len() == inner.len() + 2);
        },
        _ => {
            let t = toks[pos];
            assert(t == print_spec(v));
            lemma_atom_round_trip(v);
            assert(atom_spec(t) == AtomR::V(v));
            assert(toks_of(v).len() == 1);
        },
    }
}

/// Parsing readable elements' tokens up to the closing token yields
/// the elements.
pub proof fn lemma_parse_items_toks(s: Seq<ValSpec>, toks: Seq<Seq<char>>, pos: int,
    close: Seq<char>)
    requires
        vals_readable(s),
        0 <= pos,
        close == ")"@ || close == "]"@ || close == "}"@,
        pos + toks_items(s).len() + 1 <= toks.len(),
        forall|k: int| 0 <= k < toks_items(s).len()
            ==> toks[pos + k] == #[trigger] toks_items(s)[k],
        toks[pos + toks_items(s).len()] == close,
    ensures
        parse_until_at(toks, pos, close)
            == UntilR::Items(s, pos + toks_items(s).len() + 1),
    decreases s, 2int,
{
    lemma_vals_readable(s);
    if s.len() == 0 {
        assert(toks_items(s).len() == 0);
        assert(toks[pos] == close);
        assert(s =~= Seq::<ValSpec>::empty());
        assert(parse_until_at(toks, pos, close) == UntilR::Items(Seq::empty(), pos + 1));
    } else {
        let head = toks_of(s[0]);
        let restoks = toks_items(s.drop_first());
        assert(s.first() == s[0]);
        assert(toks_items(s) == head + restoks);
        lemma_first_tok(s[0]);
        assert forall|k: int| 0 <= k < head.len()
            implies toks[pos + k] == #[trigger] head[k] by {
            assert(toks_items(s)[k] == head[k]);
        }
        assert(toks[pos] == head[0]);
        assert(toks[pos] != close);
        lemma_parse_toks(s[0], toks, pos);
        let q = pos + head.len();
        assert(parse_form_at(toks, pos) == ParseR::Form(s[0], q));
        assert(pos < q <= toks.len());
        assert forall|i: int| 0 <= i < s.drop_first().len()
            implies readable(#[trigger] s.drop_first()[i]) by {
            assert(s.drop_first()[i] == s[i + 1]);
        }
        lemma_vals_readable(s.drop_first());
        assert forall|k: int| 0 <= k < restoks.len()
            implies toks[q + k] == #[trigger] restoks[k] by {
            assert(toks_items(s)[head.len() + k] == restoks[k]);
        }
        assert(toks[q + restoks.len()] == close);
        lemma_parse_items_toks(s.drop_first(), toks, q, close);
        assert(parse_until_at(toks, q, close)
            == UntilR::Items(s.drop_first(), q + restoks.len() + 1));
        assert(seq![s[0]] + s.drop_first() =~= s);
        assert(parse_until_at(toks, pos, close)
            == UntilR::Items(s, pos + toks_items(s).len() + 1));
    }
}

/// Parsing readable pairs' tokens up to the closing token yields the
/// flattened values.
pub proof fn lemma_parse_pairs_toks(s: Seq<(ValSpec, ValSpec)>, toks: Seq<Seq<char>>, pos: int,
    close: Seq<char>)
    requires
        pairs_readable(s),
        0 <= pos,
        close == ")"@ || close == "]"@ || close == "}"@,
        pos + toks_pairs(s).len() + 1 <= toks.len(),
        forall|k: int| 0 <= k < toks_pairs(s).len()
            ==> toks[pos + k] == #[trigger] toks_pairs(s)[k],
        toks[pos + toks_pairs(s).len()] == close,
    ensures
        parse_until_at(toks, pos, close)
            == UntilR::Items(flat_pairs(s), pos + toks_pairs(s).len() + 1),
    decreases s, 2int,
{
    lemma_pairs_readable(s);
    if s.len() == 0 {
        assert(toks_pairs(s).len() == 0);
        assert(flat_pairs(s).len() == 0);
        assert(toks[pos] == close);
        assert(parse_until_at(toks, pos, close) == UntilR::Items(Seq::empty(), pos + 1));
        assert(flat_pairs(s) =~= Seq::<ValSpec>::empty());
    } else {
        let ktoks = toks_of(s[0].0);
        let vtoks = toks_of(s[0].1);
        let restoks = toks_pairs(s.drop_first());
        assert(s.first() == s[0]);
        assert(toks_pairs(s) == ktoks + vtoks + restoks);
        lemma_first_tok(s[0].0);
        lemma_first_tok(s[0].1);
        assert forall|k: int| 0 <= k < ktoks.len()
            implies toks[pos + k] == #[trigger] ktoks[k] by {
            assert(toks_pairs(s)[k] == ktoks[k]);
        }
        assert(toks[pos] == ktoks[0]);
        assert(toks[pos] != close);
        lemma_parse_toks(s[0].0, toks, pos);
        let q1 = pos + ktoks.len();
        assert(pos < q1 <= toks.len());
        assert forall|k: int| 0 <= k < vtoks.len()
            implies toks[q1 + k] == #[trigger] vtoks[k] by {
            assert(toks_pairs(s)[ktoks.len() + k] == vtoks[k]);
        }
        assert(toks[q1] == vtoks[0]);
        assert(toks[q1] != close);
        lemma_parse_toks(s[0].1, toks, q1);
        let q2 = q1 + vtoks.len();
        assert(q1 < q2 <= toks.len());
        assert forall|i: int| 0 <= i < s.drop_first().len()
            implies readable((#[trigger] s.drop_first()[i]).0)
                && readable(s.drop_first()[i].1) by {
            assert(s.drop_first()[i] == s[i + 1]);
        }
        lemma_pairs_readable(s.drop_first());
        assert forall|k: int| 0 <= k < restoks.len()
            implies toks[q2 + k] == #[trigger] restoks[k] by {
            assert(toks_pairs(s)[ktoks.len() + vtoks.len() + k] == restoks[k]);
        }
        assert(toks[q2 + restoks.len()] == close);
        lemma_parse_pairs_toks(s.drop_first(), toks, q2, close);
        assert(parse_until_at(toks, q2, close)
            == UntilR::Items(flat_pairs(s.drop_first()), q2 + restoks.len() + 1));
        assert(parse_until_at(toks, q1, close)
            == UntilR::Items(seq![s[0].1] + flat_pairs(s.drop_first()),
                q2 + restoks.len() + 1));
        assert(flat_pairs(s)
            =~= seq![s[0].0] + (seq![s[0].1] + flat_pairs(s.drop_first())));
        assert(parse_until_at(toks, pos, close)
            == UntilR::Items(flat_pairs(s), pos + toks_pairs(s).len() + 1));
    }
}

/// Law: the reader inverts the printer. Tokenizing and parsing the
/// printed text of any readable value yields exactly the value back,
/// consuming the whole text.
pub proof fn lemma_round_trip(v: ValSpec)
    requires
        readable(v),
    ensures
        lex(print_spec(v)) == toks_of(v),
        parse_form_at(lex(print_spec(v)), 0)
            == ParseR::Form(v, lex(print_spec(v)).len() as int),
{
    lemma_print_lex(v, Seq::empty());
    assert(print_spec(v) + Seq::<char>::empty() =~= print_spec(v));
    assert(lex(Seq::<char>::empty()) =~= Seq::<Seq<char>>::empty());
    assert(toks_of(v) + Seq::<Seq<char>>::empty() =~= toks_of(v));
    assert(lex(print_spec(v)) == toks_of(v));
    lemma_parse_toks(v, toks_of(v), 0);
}

} // verus!

verus! {

/// No token of a readable value reaches the host's float parser, so
/// the executable reader's exactness applies to printed text.
pub proof fn lemma_toks_float_free(v: ValSpec)
    requires
        readable(v),
    ensures
        crate::reader::tokens_float_free(toks_of(v)),
    decreases v, 1int,
{
    reveal_strlit("(");
    reveal_strlit(")");
    reveal_strlit("[");
    reveal_strlit("]");
    reveal_strlit("{");
    reveal_strlit("}");
    match v {
        ValSpec::List(items) => {
            lemma_vals_readable(items);
            lemma_items_float_free(items);
            lemma_delim_not_float("("@, '(');
            lemma_delim_not_float(")"@, ')');
            assert forall|i: int| 0 <= i < toks_of(v).len()
                implies !((#[trigger] atom_spec(toks_of(v)[i])) is FloatTok) by {
                if i == 0 {
                    assert(toks_of(v)[i] == "("@);
                } else if i == toks_of(v).len() - 1 {
                    assert(toks_of(v)[i] == ")"@);
                } else {
                    assert(toks_of(v)[i] == toks_items(items)[i - 1]);
                }
            }
        },
        ValSpec::Vector(items) => {
            lemma_vals_readable(items);
            lemma_items_float_free(items);
            lemma_delim_not_float("["@, '[');
            lemma_delim_not_float("]"@, ']');
            assert forall|i: int| 0 <= i < toks_of(v).len()
                implies !((#[trigger] atom_spec(toks_of(v)[i])) is FloatTok) by {
                if i == 0 {
                    assert(toks_of(v)[i] == "["@);
                } else if i == toks_of(v).len() - 1 {
                    assert(toks_of(v)[i] == "]"@);
                } else {
                    assert(toks_of(v)[i] == toks_items(items)[i - 1]);
                }
            }
        },
        ValSpec::Table(ps) => {
            lemma_pairs_readable(ps);
            lemma_pairs_float_free_toks(ps);
            lemma_delim_not_float("{"@, '{');
            lemma_delim_not_float("}"@, '}');
            assert forall|i: int| 0 <= i < toks_of(v).len()
                implies !((#[trigger] atom_spec(toks_of(v)[i])) is FloatTok) by {
                if i == 0 {
                    assert(toks_of(v)[i] == "{"@);
                } else if i == toks_of(v).len() - 1 {
                    assert(toks_of(v)[i] == "}"@);
                } else {
                    assert(toks_of(v)[i] == toks_pairs(ps)[i - 1]);
                }
            }
        },
        _ => {
            lemma_atom_round_trip(v);
            assert(toks_of(v)[0] == print_spec(v));
            assert(atom_spec(print_spec(v)) == AtomR::V(v));
        },
    }
}

/// A one-character delimiter token is no float token.
pub proof fn lemma_delim_not_float(t: Seq<char>, c: char)
    requires
        t.len() == 1,
        t[0] == c,
        c == '(' || c == ')' || c == '[' || c == ']' || c == '{' || c == '}',
    ensures
        !(atom_spec(t) is FloatTok),
{
    lemma_not_numeric(t);
}

pub proof fn lemma_items_float_free(s: Seq<ValSpec>)
    requires
        vals_readable(s),
    ensures
        forall|i: int| 0 <= i < toks_items(s).len()
            ==> !((#[trigger] atom_spec(toks_items(s)[i])) is FloatTok),
    decreases s, 2int,
{
    lemma_vals_readable(s);
    if s.len() > 0 {
        lemma_toks_float_free(s[0]);
        assert forall|i: int| 0 <= i < s.drop_first().len()
            implies readable(#[trigger] s.drop_first()[i]) by {
            assert(s.drop_first()[i] == s[i + 1]);
        }
        lemma_vals_readable(s.drop_first());
        lemma_items_float_free(s.drop_first());
        let head = toks_of(s[0]);
        assert(s.first() == s[0]);
        assert forall|i: int| 0 <= i < toks_items(s).len()
            implies !((#[trigger] atom_spec(toks_items(s)[i])) is FloatTok) by {
            if i < head.len() {
                assert(toks_items(s)[i] == head[i]);
                assert(!(atom_spec(head[i]) is FloatTok));
            } else {
                assert(toks_items(s)[i] == toks_items(s.drop_first())[i - head.len()]);
            }
        }
    }
}

pub proof fn lemma_pairs_float_free_toks(s: Seq<(ValSpec, ValSpec)>)
    requires
        pairs_readable(s),
    ensures
        forall|i: int| 0 <= i < toks_pairs(s).len()
            ==> !((#[trigger] atom_spec(toks_pairs(s)[i])) is FloatTok),
    decreases s, 2int,
{
    lemma_pairs_readable(s);
    if s.len() > 0 {
        lemma_toks_float_free(s[0].0);
        lemma_toks_float_free(s[0].1);
        assert forall|i: int| 0 <= i < s.drop_first().len()
            implies readable((#[trigger] s.drop_first()[i]).0)
                && readable(s.drop_first()[i].1) by {
            assert(s.drop_first()[i] == s[i + 1]);
        }
        lemma_pairs_readable(s.drop_first());
        lemma_pairs_float_free_toks(s.drop_first());
        let kt = toks_of(s[0].0);
        let vt = toks_of(s[0].1);
        assert(s.first() == s[0]);
        assert forall|i: int| 0 <= i < toks_pairs(s).len()
            implies !((#[trigger] atom_spec(toks_pairs(s)[i])) is FloatTok) by {
            if i < kt.len() {
                assert(toks_pairs(s)[i] == kt[i]);
                assert(!(atom_spec(kt[i]) is FloatTok));
            } else if i < kt.len() + vt.len() {
                assert(toks_pairs(s)[i] == vt[i - kt.len()]);
                assert(!(atom_spec(vt[i - kt.len()]) is FloatTok));
            } else {
                assert(toks_pairs(s)[i]
                    == toks_pairs(s.drop_first())[i - kt.len() - vt.len()]);
            }
        }
    }
}

} // verus!

verus! {

/// Corollary: re-printing what was parsed from a readable value's
/// printed text yields the original text.
pub proof fn lemma_reprint(v: ValSpec)
    requires
        readable(v),
    ensures
        parse_form_at(lex(print_spec(v)), 0) matches ParseR::Form(w, _)
            && print_spec(w) == print_spec(v),
{
    lemma_round_trip(v);
}

} // verus!
