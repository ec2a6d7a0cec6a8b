//! The reader: lexing source text into tokens, and parsing tokens into
//! values.
//!
//! The token grammar: runs of whitespace and commas separate tokens
//! and are discarded; `~@` is one token; each of `( ) [ ] { } ' ` ~ ^ @`
//! is one token; a double quote opens a string token that runs to the
//! matching unescaped quote (or to the end of input when unterminated,
//! which the atom parser then rejects); `;` opens a comment that runs
//! to the end of the line and is discarded; any other run of
//! characters up to a separator or delimiter is one atom token.

use vstd::prelude::*;

use crate::text::streq;
use crate::types::{val_ok, Val, ValSpec};

verus! {

broadcast use vstd::seq::group_seq_axioms;

/// Whitespace and commas separate tokens.
pub open spec fn is_sep(c: char) -> bool {
    c == ' ' || c == '\t' || c == '\n' || c == '\r' || c == ','
}

/// Characters that form a one-character token by themselves (besides
/// the two-character `~@`).
pub open spec fn is_special(c: char) -> bool {
    c == '(' || c == ')' || c == '[' || c == ']' || c == '{' || c == '}'
        || c == '\'' || c == '`' || c == '~' || c == '^' || c == '@'
}

/// Characters that end an atom token.
pub open spec fn is_atom_stop(c: char) -> bool {
    is_sep(c) || c == '(' || c == ')' || c == '[' || c == ']' || c == '{' || c == '}'
        || c == '\'' || c == '"' || c == ';'
}

/// Length of the maximal atom prefix.
pub open spec fn atom_len(s: Seq<char>) -> int
    decreases s.len(),
{
    if s.len() == 0 || is_atom_stop(s[0]) {
        0
    } else {
        1 + atom_len(s.drop_first())
    }
}

pub proof fn lemma_atom_len(s: Seq<char>)
    ensures
        0 <= atom_len(s) <= s.len(),
    decreases s.len(),
{
    if s.len() > 0 && !is_atom_stop(s[0]) {
        lemma_atom_len(s.drop_first());
    }
}

/// Length of a string token's body, measured from just after the
/// opening quote, including the closing quote when there is one. A
/// backslash carries the next character along.
pub open spec fn str_body_len(s: Seq<char>) -> int
    decreases s.len(),
{
    if s.len() == 0 {
        0
    } else if s[0] == '"' {
        1
    } else if s[0] == '\\' {
        if s.len() == 1 {
            1
        } else {
            2 + str_body_len(s.skip(2))
        }
    } else {
        1 + str_body_len(s.drop_first())
    }
}

pub proof fn lemma_str_body_len(s: Seq<char>)
    ensures
        0 <= str_body_len(s) <= s.len(),
    decreases s.len(),
{
    if s.len() > 0 && s[0] != '"' {
        if s[0] == '\\' {
            if s.len() > 1 {
                lemma_str_body_len(s.skip(2));
            }
        } else {
            lemma_str_body_len(s.drop_first());
        }
    }
}

/// Length of a comment: from the `;` to the end of the line, the
/// newline excluded.
pub open spec fn comment_len(s: Seq<char>) -> int
    decreases s.len(),
{
    if s.len() == 0 || s[0] == '\n' {
        0
    } else {
        1 + comment_len(s.drop_first())
    }
}

pub proof fn lemma_comment_len(s: Seq<char>)
    ensures
        0 <= comment_len(s) <= s.len(),
    decreases s.len(),
{
    if s.len() > 0 && s[0] != '\n' {
        lemma_comment_len(s.drop_first());
    }
}

/// Length of the token that starts at the head of `s`; meaningful when
/// the head is no separator and no comment opener.
pub open spec fn tok_len(s: Seq<char>) -> int {
    if s.len() >= 2 && s[0] == '~' && s[1] == '@' {
        2
    } else if s.len() >= 1 && is_special(s[0]) {
        1
    } else if s.len() >= 1 && s[0] == '"' {
        1 + str_body_len(s.drop_first())
    } else {
        atom_len(s)
    }
}

pub proof fn lemma_tok_len(s: Seq<char>)
    requires
        s.len() > 0,
        !is_sep(s[0]),
        s[0] != ';',
    ensures
        1 <= tok_len(s),
        tok_len(s) <= s.len(),
{
    if s.len() >= 2 && s[0] == '~' && s[1] == '@' {
        assert(tok_len(s) == 2);
    } else if is_special(s[0]) {
        assert(tok_len(s) == 1);
    } else if s[0] == '"' {
        lemma_str_body_len(s.drop_first());
        assert(tok_len(s) == 1 + str_body_len(s.drop_first()));
    } else {
        lemma_atom_len(s);
        lemma_atom_len(s.drop_first());
        assert(!is_atom_stop(s[0]));
        assert(atom_len(s) == 1 + atom_len(s.drop_first()));
    }
}

/// The token sequence of a text.
pub open spec fn lex(s: Seq<char>) -> Seq<Seq<char>>
    decreases s.len(),
    via lex_dec
{
    if s.len() == 0 {
        Seq::empty()
    } else if is_sep(s[0]) {
        lex(s.drop_first())
    } else if s[0] == ';' {
        lex(s.skip(1 + comment_len(s.drop_first())))
    } else {
        seq![s.take(tok_len(s))] + lex(s.skip(tok_len(s)))
    }
}

#[via_fn]
proof fn lex_dec(s: Seq<char>) {
    if s.len() > 0 && !is_sep(s[0]) {
        if s[0] == ';' {
            lemma_comment_len(s.drop_first());
        } else {
            lemma_tok_len(s);
        }
    }
}

/// The characters of a string slice, one by one.
fn str_chars(s: &str) -> (r: Vec<char>)
    ensures
        r@ == s@,
{
    let n = s.unicode_len();
    let mut out: Vec<char> = Vec::new();
    let mut i: usize = 0;
    while i < n
        invariant
            n == s@.len(),
            i <= n,
            out@ == s@.take(i as int),
        decreases n - i,
    {
        out.push(s.get_char(i));
        proof {
            assert(out@ =~= s@.take(i + 1));
        }
        i = i + 1;
    }
    proof {
        assert(s@.take(n as int) =~= s@);
    }
    out
}

/// Copy the characters `cs[a..b)` into a fresh string.
fn chars_string(cs: &Vec<char>, a: usize, b: usize) -> (r: String)
    requires
        a <= b <= cs@.len(),
    ensures
        r@ == cs@.subrange(a as int, b as int),
{
    let mut out = String::new();
    let mut i: usize = a;
    while i < b
        invariant
            a <= i <= b <= cs@.len(),
            out@ == cs@.subrange(a as int, i as int),
        decreases b - i,
    {
        out.push(cs[i]);
        proof {
            assert(out@ =~= cs@.subrange(a as int, i + 1));
        }
        i = i + 1;
    }
    out
}

fn is_sep_x(c: char) -> (r: bool)
    ensures
        r == is_sep(c),
{
    c == ' ' || c == '\t' || c == '\n' || c == '\r' || c == ','
}

fn is_special_x(c: char) -> (r: bool)
    ensures
        r == is_special(c),
{
    c == '(' || c == ')' || c == '[' || c == ']' || c == '{' || c == '}'
        || c == '\'' || c == '`' || c == '~' || c == '^' || c == '@'
}

fn is_atom_stop_x(c: char) -> (r: bool)
    ensures
        r == is_atom_stop(c),
{
    is_sep_x(c) || c == '(' || c == ')' || c == '[' || c == ']' || c == '{' || c == '}'
        || c == '\'' || c == '"' || c == ';'
}

/// Index just past the atom that starts at `i`.
fn scan_atom(cs: &Vec<char>, i: usize) -> (j: usize)
    requires
        i <= cs@.len(),
    ensures
        i <= j <= cs@.len(),
        j - i == atom_len(cs@.skip(i as int)),
{
    let n = cs.len();
    let mut j = i;
    while j < n && !is_atom_stop_x(cs[j])
        invariant
            i <= j <= n,
            n == cs@.len(),
            atom_len(cs@.skip(i as int)) == (j - i) + atom_len(cs@.skip(j as int)),
        decreases n - j,
    {
        proof {
            assert(cs@.skip(j as int).drop_first() =~= cs@.skip(j + 1));
        }
        j = j + 1;
    }
    j
}

/// Index just past the string token whose opening quote sits at `i`.
fn scan_string(cs: &Vec<char>, i: usize) -> (j: usize)
    requires
        i < cs@.len(),
        cs@[i as int] == '"',
    ensures
        i < j <= cs@.len(),
        j - i == 1 + str_body_len(cs@.skip(i + 1)),
{
    let n = cs.len();
    let mut j = i + 1;
    while j < n
        invariant
            i < j <= n,
            n == cs@.len(),
            str_body_len(cs@.skip(i + 1)) == (j - i - 1) + str_body_len(cs@.skip(j as int)),
        decreases n - j,
    {
        let c = cs[j];
        if c == '"' {
            return j + 1;
        }
        if c == '\\' && j + 1 < n {
            proof {
                assert(cs@.skip(j as int).skip(2) =~= cs@.skip(j + 2));
            }
            j = j + 2;
        } else {
            proof {
                if c == '\\' {
                    assert(cs@.skip(j as int).len() == 1);
                } else {
                    assert(cs@.skip(j as int).drop_first() =~= cs@.skip(j + 1));
                }
            }
            j = j + 1;
        }
    }
    j
}

/// Index just past the comment that starts at `i`.
fn scan_comment(cs: &Vec<char>, i: usize) -> (j: usize)
    requires
        i <= cs@.len(),
    ensures
        i <= j <= cs@.len(),
        j - i == comment_len(cs@.skip(i as int)),
{
    let n = cs.len();
    let mut j = i;
    while j < n && cs[j] != '\n'
        invariant
            i <= j <= n,
            n == cs@.len(),
            comment_len(cs@.skip(i as int)) == (j - i) + comment_len(cs@.skip(j as int)),
        decreases n - j,
    {
        proof {
            assert(cs@.skip(j as int).drop_first() =~= cs@.skip(j + 1));
        }
        j = j + 1;
    }
    j
}

/// A stream of tokens with a cursor, as the parser consumes it.
pub struct Reader {
    pub pos: usize,
    pub tokens: Vec<String>,
}

impl Reader {
    /// Lex a whole text into a token stream.
    pub fn tokenize(text: &str) -> (r: Reader)
        ensures
            r.pos == 0,
            r.tokens.deep_view() == lex(text@),
    {
        let cs = str_chars(text);
        let n = cs.len();
        let mut tokens: Vec<String> = Vec::new();
        let mut i: usize = 0;
        proof {
            assert(cs@.skip(0) =~= cs@);
            assert(tokens.deep_view() =~= Seq::<Seq<char>>::empty());
            assert(lex(text@) =~= tokens.deep_view() + lex(cs@.skip(0)));
        }
        while i < n
            invariant
                i <= n,
                n == cs@.len(),
                cs@ == text@,
                lex(text@) == tokens.deep_view() + lex(cs@.skip(i as int)),
            decreases n - i,
        {
            let c = cs[i];
            if is_sep_x(c) {
                proof {
                    assert(cs@.skip(i as int).drop_first() =~= cs@.skip(i + 1));
                }
                i = i + 1;
            } else if c == ';' {
                proof {
                    assert(cs@.skip(i as int).drop_first() =~= cs@.skip(i + 1));
                }
                let j = scan_comment(&cs, i + 1);
                proof {
                    let rest = cs@.skip(i as int);
                    assert(rest.skip(1 + comment_len(cs@.skip(i + 1))) =~= cs@.skip(j as int));
                }
                i = j;
            } else {
                let ghost rest = cs@.skip(i as int);
                let j: usize;
                if c == '~' && i + 1 < n && cs[i + 1] == '@' {
                    j = i + 2;
                    proof {
                        assert(tok_len(rest) == 2);
                    }
                } else if is_special_x(c) {
                    j = i + 1;
                    proof {
                        assert(tok_len(rest) == 1);
                    }
                } else if c == '"' {
                    j = scan_string(&cs, i);
                    proof {
                        assert(rest.drop_first() =~= cs@.skip(i + 1));
                        assert(tok_len(rest) == (j - i) as int);
                    }
                } else {
                    j = scan_atom(&cs, i);
                    proof {
                        assert(!(rest.len() >= 2 && rest[0] == '~' && rest[1] == '@'));
                        assert(tok_len(rest) == (j - i) as int);
                    }
                }
                let tok = chars_string(&cs, i, j);
                tokens.push(tok);
                proof {
                    assert(rest.take((j - i) as int) =~= cs@.subrange(i as int, j as int));
                    assert(rest.skip((j - i) as int) =~= cs@.skip(j as int));
                    assert(tokens.deep_view() =~= tokens.deep_view().drop_last().push(tok@));
                    assert(lex(text@) =~= tokens.deep_view() + lex(cs@.skip(j as int)));
                }
                i = j;
            }
        }
        proof {
            assert(lex(cs@.skip(n as int)) =~= Seq::<Seq<char>>::empty());
            assert(lex(text@) =~= tokens.deep_view());
        }
        Reader { pos: 0, tokens }
    }

    /// The token under the cursor, if any.
    pub fn peek(&self) -> (r: Option<String>)
        ensures
            match r {
                Some(t) => self.pos < self.tokens@.len()
                    && t@ == self.tokens.deep_view()[self.pos as int],
                None => self.pos >= self.tokens@.len(),
            },
    {
        if self.pos < self.tokens.len() {
            let t = self.tokens[self.pos].clone();
            proof {
                assert(self.tokens.deep_view()[self.pos as int] == self.tokens@[self.pos as int]@);
            }
            Some(t)
        } else {
            None
        }
    }

    /// The token under the cursor, advancing past it.
    pub fn next(&mut self) -> (r: Option<String>)
        ensures
            final(self).tokens == old(self).tokens,
            match r {
                Some(t) => old(self).pos < old(self).tokens@.len()
                    && t@ == old(self).tokens.deep_view()[old(self).pos as int]
                    && final(self).pos == old(self).pos + 1,
                None => old(self).pos >= old(self).tokens@.len()
                    && final(self).pos == old(self).pos,
            },
    {
        if self.pos < self.tokens.len() {
            let t = self.tokens[self.pos].clone();
            proof {
                assert(self.tokens.deep_view()[self.pos as int] == self.tokens@[self.pos as int]@);
            }
            self.pos = self.pos + 1;
            Some(t)
        } else {
            None
        }
    }
}

} // verus!

verus! {

/// A decimal digit.
pub open spec fn is_digit(c: char) -> bool {
    48 <= c as u32 && c as u32 <= 57
}

/// The value of one decimal digit.
pub open spec fn digit_val(c: char) -> int {
    c as u32 - 48
}

pub open spec fn all_digits(s: Seq<char>) -> bool {
    forall|i: int| 0 <= i < s.len() ==> is_digit(#[trigger] s[i])
}

/// The value of a run of decimal digits.
pub open spec fn digits_val(s: Seq<char>) -> int
    decreases s.len(),
{
    if s.len() == 0 {
        0
    } else {
        digits_val(s.drop_last()) * 10 + digit_val(s.last())
    }
}

/// An optional sign followed by at least one digit.
pub open spec fn int_syntax(s: Seq<char>) -> bool {
    if s.len() >= 1 && (s[0] == '+' || s[0] == '-') {
        s.len() >= 2 && all_digits(s.skip(1))
    } else {
        s.len() >= 1 && all_digits(s)
    }
}

/// The signed value of an integer-shaped token.
pub open spec fn int_tok_val(s: Seq<char>) -> int {
    if s.len() >= 1 && s[0] == '-' {
        -digits_val(s.skip(1))
    } else if s.len() >= 1 && s[0] == '+' {
        digits_val(s.skip(1))
    } else {
        digits_val(s)
    }
}

/// A token that reads as a 64-bit integer: integer-shaped and in
/// range. An integer-shaped token whose value overflows falls through
/// to the float attempt, as the reader's numeric parse order says.
pub open spec fn is_int_token(s: Seq<char>) -> bool {
    int_syntax(s) && -0x8000_0000_0000_0000 <= int_tok_val(s) < 0x8000_0000_0000_0000
}

/// Length of the maximal digit prefix.
pub open spec fn digit_prefix_len(s: Seq<char>) -> int
    decreases s.len(),
{
    if s.len() == 0 || !is_digit(s[0]) {
        0
    } else {
        1 + digit_prefix_len(s.drop_first())
    }
}

pub proof fn lemma_digit_prefix(s: Seq<char>)
    ensures
        0 <= digit_prefix_len(s) <= s.len(),
        forall|i: int| 0 <= i < digit_prefix_len(s) ==> is_digit(#[trigger] s[i]),
        digit_prefix_len(s) < s.len() ==> !is_digit(s[digit_prefix_len(s)]),
    decreases s.len(),
{
    if s.len() > 0 && is_digit(s[0]) {
        lemma_digit_prefix(s.drop_first());
        assert forall|i: int| 0 <= i < digit_prefix_len(s) implies is_digit(#[trigger] s[i]) by {
            if i > 0 {
                assert(s[i] == s.drop_first()[i - 1]);
            }
        }
        if digit_prefix_len(s) < s.len() {
            assert(s[digit_prefix_len(s)] == s.drop_first()[digit_prefix_len(s) - 1]);
        }
    }
}

/// ASCII lowercase folding of one character.
pub open spec fn lower(c: char) -> char {
    if 65 <= c as u32 && c as u32 <= 90 {
        ((c as u32 + 32) as u8) as char
    } else {
        c
    }
}

pub open spec fn seq_lower(s: Seq<char>) -> Seq<char> {
    s.map_values(|c: char| lower(c))
}

/// An optional exponent: nothing, or `e`/`E` with a signed digit run.
pub open spec fn exp_syntax(u: Seq<char>) -> bool {
    u.len() == 0 || ((u[0] == 'e' || u[0] == 'E') && int_syntax(u.skip(1)))
}

/// The decimal-number shapes the float parser accepts (after the
/// sign): digits, digits-dot-digits, digits-dot, or dot-digits, each
/// with an optional exponent.
pub open spec fn number_syntax(t: Seq<char>) -> bool {
    if digit_prefix_len(t) > 0 {
        if t.skip(digit_prefix_len(t)).len() >= 1 && t.skip(digit_prefix_len(t))[0] == '.' {
            exp_syntax(t.skip(digit_prefix_len(t)).skip(1).skip(
                digit_prefix_len(t.skip(digit_prefix_len(t)).skip(1))))
        } else {
            exp_syntax(t.skip(digit_prefix_len(t)))
        }
    } else {
        t.len() >= 2 && t[0] == '.' && digit_prefix_len(t.skip(1)) > 0
            && exp_syntax(t.skip(1).skip(digit_prefix_len(t.skip(1))))
    }
}

/// A token the float parser accepts: an optional sign, then an
/// infinity or NaN spelling (any case) or a decimal number.
pub open spec fn is_float_syntax(s: Seq<char>) -> bool {
    float_body_syntax(if s.len() >= 1 && (s[0] == '+' || s[0] == '-') {
        s.skip(1)
    } else {
        s
    })
}

pub open spec fn float_body_syntax(t: Seq<char>) -> bool {
    seq_lower(t) == "inf"@ || seq_lower(t) == "infinity"@ || seq_lower(t) == "nan"@
        || number_syntax(t)
}

} // verus!

verus! {

/// Index just past the digit run that starts at `i`.
fn scan_digit_prefix(cs: &Vec<char>, i: usize) -> (j: usize)
    requires
        i <= cs@.len(),
    ensures
        i <= j <= cs@.len(),
        j - i == digit_prefix_len(cs@.skip(i as int)),
{
    let n = cs.len();
    let mut j = i;
    while j < n && 48 <= cs[j] as u32 && cs[j] as u32 <= 57
        invariant
            i <= j <= n,
            n == cs@.len(),
            digit_prefix_len(cs@.skip(i as int)) == (j - i) + digit_prefix_len(cs@.skip(j as int)),
        decreases n - j,
    {
        proof {
            assert(cs@.skip(j as int).drop_first() =~= cs@.skip(j + 1));
        }
        j = j + 1;
    }
    j
}

/// Try to read the token as a 64-bit integer; `None` exactly when the
/// token is not integer-shaped or its value does not fit.
pub fn parse_i64(t: &String) -> (r: Option<i64>)
    ensures
        match r {
            Some(v) => is_int_token(t@) && v as int == int_tok_val(t@),
            None => !is_int_token(t@),
        },
{
    let cs = str_chars(t.as_str());
    let n = cs.len();
    let mut i: usize = 0;
    let mut neg = false;
    if n >= 1 && (cs[0] == '+' || cs[0] == '-') {
        neg = cs[0] == '-';
        i = 1;
    }
    if i >= n {
        return None;
    }
    let ghost digits = cs@.skip(i as int);
    proof {
        if i == 0 {
            assert(digits =~= t@);
        }
    }
    let mut acc: u128 = 0;
    let mut j = i;
    proof {
        assert(digits.take(0) =~= Seq::<char>::empty());
    }
    while j < n
        invariant
            i <= j <= n,
            n == cs@.len(),
            cs@ == t@,
            i == 0 || i == 1,
            i == 1 ==> n >= 2 && (t@[0] == '+' || t@[0] == '-'),
            i == 0 ==> !(t@[0] == '+' || t@[0] == '-'),
            i == 0 ==> digits == t@,
            digits == t@.skip(i as int),
            forall|m: int| 0 <= m < j - i ==> is_digit(#[trigger] digits[m]),
            digits_val(digits.take(j - i)) < 0x1_0000_0000_0000_0000
                ==> acc == digits_val(digits.take(j - i)),
            digits_val(digits.take(j - i)) >= 0x1_0000_0000_0000_0000
                ==> acc >= 0x1_0000_0000_0000_0000,
            digits_val(digits.take(j - i)) >= 0,
            acc < 0x40_0000_0000_0000_0000,
        decreases n - j,
    {
        let c = cs[j];
        let u = c as u32;
        if !(48 <= u && u <= 57) {
            proof {
                assert(!is_digit(digits[j - i]));
            }
            return None;
        }
        let d = (u - 48) as u128;
        let ghost pre = digits.take(j - i);
        let ghost dv = digits_val(pre);
        let ghost dv_new = digits_val(digits.take(j - i + 1));
        proof {
            assert(digits.take(j - i + 1).drop_last() =~= pre);
            assert(digits.take(j - i + 1).last() == digits[j - i]);
            assert(dv_new == dv * 10 + digit_val(digits[j - i]));
            if dv >= 0x1_0000_0000_0000_0000 {
                assert(dv * 10 >= dv) by (nonlinear_arith)
                    requires
                        dv >= 0,
                ;
            }
        }
        if acc < 0x1_0000_0000_0000_0000u128 {
            acc = acc * 10 + d;
        }
        j = j + 1;
    }
    proof {
        assert(digits.take((n - i) as int) =~= digits);
        assert(int_syntax(t@));
    }
    if neg {
        if acc > 0x8000_0000_0000_0000u128 {
            return None;
        }
        let v = (-(acc as i128)) as i64;
        Some(v)
    } else {
        if acc > 0x7fff_ffff_ffff_ffffu128 {
            return None;
        }
        Some(acc as i64)
    }
}

/// ASCII lowercase folding of one character.
fn lower_x(c: char) -> (r: char)
    ensures
        r == lower(c),
{
    let u = c as u32;
    if 65 <= u && u <= 90 {
        ((u + 32) as u8) as char
    } else {
        c
    }
}

/// Whether the characters from `i` on, lowercased, spell out `pat`.
fn eq_lower(cs: &Vec<char>, i: usize, pat: &str) -> (r: bool)
    requires
        i <= cs@.len(),
    ensures
        r == (seq_lower(cs@.skip(i as int)) == pat@),
{
    let n = cs.len();
    let m = pat.unicode_len();
    let ghost body = cs@.skip(i as int);
    if n - i != m {
        proof {
            assert(seq_lower(body).len() == body.len());
        }
        return false;
    }
    let mut k: usize = 0;
    while k < m
        invariant
            i <= n,
            n == cs@.len(),
            m == pat@.len(),
            n - i == m,
            body == cs@.skip(i as int),
            k <= m,
            forall|q: int| 0 <= q < k ==> seq_lower(body)[q] == pat@[q],
        decreases m - k,
    {
        let c = lower_x(cs[i + k]);
        if c != pat.get_char(k) {
            proof {
                assert(seq_lower(body)[k as int] == lower(body[k as int]));
            }
            return false;
        }
        k = k + 1;
    }
    proof {
        assert(seq_lower(body) =~= pat@);
    }
    true
}

/// Whether the characters from `k` on are integer-shaped.
fn int_syntax_at(cs: &Vec<char>, k: usize) -> (r: bool)
    requires
        k <= cs@.len(),
    ensures
        r == int_syntax(cs@.skip(k as int)),
{
    let n = cs.len();
    let ghost u = cs@.skip(k as int);
    let k2: usize = if k < n && (cs[k] == '+' || cs[k] == '-') {
        k + 1
    } else {
        k
    };
    let e = scan_digit_prefix(cs, k2);
    proof {
        lemma_digit_prefix(cs@.skip(k2 as int));
        if k2 > k {
            assert(u.skip(1) =~= cs@.skip(k2 as int));
        }
        if e == n && e > k2 {
            assert(cs@.skip(k2 as int).len() == digit_prefix_len(cs@.skip(k2 as int)));
            assert(all_digits(cs@.skip(k2 as int)));
        } else {
            if e < n {
                assert(!is_digit(cs@.skip(k2 as int)[e - k2]));
            }
        }
    }
    e == n && e > k2
}

/// Whether the characters from `k` on are an optional exponent.
fn exp_syntax_at(cs: &Vec<char>, k: usize) -> (r: bool)
    requires
        k <= cs@.len(),
    ensures
        r == exp_syntax(cs@.skip(k as int)),
{
    let n = cs.len();
    if k == n {
        return true;
    }
    let c = cs[k];
    if !(c == 'e' || c == 'E') {
        return false;
    }
    let r = int_syntax_at(cs, k + 1);
    proof {
        assert(cs@.skip(k as int).skip(1) =~= cs@.skip(k + 1));
    }
    r
}

/// Whether the token is one the float parser accepts.
pub fn is_float_tok(t: &String) -> (r: bool)
    ensures
        r == is_float_syntax(t@),
{
    let cs = str_chars(t.as_str());
    let n = cs.len();
    let mut i: usize = 0;
    if n >= 1 && (cs[0] == '+' || cs[0] == '-') {
        i = 1;
    }
    let ghost body = t@.skip(i as int);
    proof {
        if i == 0 {
            assert(body =~= t@);
        }
    }
    if eq_lower(&cs, i, "inf") || eq_lower(&cs, i, "infinity") || eq_lower(&cs, i, "nan") {
        return true;
    }
    let a_end = scan_digit_prefix(&cs, i);
    proof {
        assert(body =~= cs@.skip(i as int));
    }
    if a_end > i {
        proof {
            assert(body.skip(digit_prefix_len(body)) =~= cs@.skip(a_end as int));
        }
        if a_end < n && cs[a_end] == '.' {
            let b_end = scan_digit_prefix(&cs, a_end + 1);
            let r = exp_syntax_at(&cs, b_end);
            proof {
                let after_dot = cs@.skip(a_end as int).skip(1);
                assert(after_dot =~= cs@.skip(a_end + 1));
                assert(after_dot.skip(digit_prefix_len(after_dot)) =~= cs@.skip(b_end as int));
            }
            r
        } else {
            exp_syntax_at(&cs, a_end)
        }
    } else {
        if i < n && cs[i] == '.' {
            let b_end = scan_digit_prefix(&cs, i + 1);
            proof {
                assert(body.skip(1) =~= cs@.skip(i + 1));
            }
            if b_end > i + 1 {
                let r = exp_syntax_at(&cs, b_end);
                proof {
                    let after_dot = body.skip(1);
                    assert(after_dot.skip(digit_prefix_len(after_dot)) =~= cs@.skip(b_end as int));
                }
                r
            } else {
                false
            }
        } else {
            false
        }
    }
}

} // verus!

verus! {

/// The content of a string literal's body (everything after the
/// opening quote, closing quote included): `\"` and `\\` unescape,
/// any other use of a backslash is malformed, a missing closing quote
/// is unbalanced; both are read errors (`None`).
pub open spec fn unesc(s: Seq<char>) -> Option<Seq<char>>
    decreases s.len(),
{
    if s.len() == 0 {
        None
    } else if s[0] == '"' {
        if s.len() == 1 {
            Some(Seq::empty())
        } else {
            None
        }
    } else if s[0] == '\\' {
        if s.len() >= 2 && (s[1] == '"' || s[1] == '\\') {
            match unesc(s.skip(2)) {
                Some(r) => Some(seq![s[1]] + r),
                None => None,
            }
        } else {
            None
        }
    } else {
        match unesc(s.drop_first()) {
            Some(r) => Some(seq![s[0]] + r),
            None => None,
        }
    }
}

/// Unescape a string token (opening quote included); a read error
/// exactly when the token is unbalanced or an escape is malformed.
fn unescape_string(t: &String) -> (r: Result<String, crate::error::MalErr>)
    requires
        t@.len() >= 1,
        t@[0] == '"',
    ensures
        match r {
            Ok(s) => unesc(t@.skip(1)) == Some(s@),
            Err(e) => unesc(t@.skip(1)) is None && e.kind == crate::error::ErrType::Read,
        },
{
    let cs = str_chars(t.as_str());
    let n = cs.len();
    let mut out = String::new();
    let mut j: usize = 1;
    loop
        invariant
            1 <= j <= n,
            n == cs@.len(),
            cs@ == t@,
            t@.len() >= 1 && t@[0] == '"',
            unesc(t@.skip(1)) == (match unesc(cs@.skip(j as int)) {
                Some(r) => Some(out@ + r),
                None => None::<Seq<char>>,
            }),
        decreases n - j,
    {
        if j >= n {
            proof {
                assert(cs@.skip(j as int).len() == 0);
            }
            return Err(crate::error::err(crate::error::ErrType::Read, "unbalanced string"));
        }
        let c = cs[j];
        proof {
            assert(cs@.skip(j as int)[0] == c);
        }
        if c == '"' {
            if j + 1 == n {
                proof {
                    assert(cs@.skip(j as int).len() == 1);
                    assert(unesc(cs@.skip(j as int)) == Some(Seq::<char>::empty()));
                    assert(out@ + Seq::<char>::empty() =~= out@);
                }
                return Ok(out);
            } else {
                proof {
                    assert(cs@.skip(j as int).len() > 1);
                }
                return Err(crate::error::err(crate::error::ErrType::Read, "unbalanced string"));
            }
        } else if c == '\\' {
            if j + 1 < n && (cs[j + 1] == '"' || cs[j + 1] == '\\') {
                let e = cs[j + 1];
                let ghost before = out@;
                proof {
                    assert(cs@.skip(j as int)[1] == e);
                    assert(cs@.skip(j as int).skip(2) =~= cs@.skip(j + 2));
                }
                out.push(e);
                j = j + 2;
                proof {
                    assert(out@ =~= before.push(e));
                    if let Some(r) = unesc(cs@.skip(j as int)) {
                        assert(out@ + r =~= before + (seq![e] + r));
                    }
                }
            } else {
                proof {
                    let rest = cs@.skip(j as int);
                    assert(!(rest.len() >= 2 && (rest[1] == '"' || rest[1] == '\\')));
                }
                return Err(crate::error::err(crate::error::ErrType::Read, "malformed escape"));
            }
        } else {
            proof {
                assert(cs@.skip(j as int).drop_first() =~= cs@.skip(j + 1));
            }
            out.push(c);
            j = j + 1;
        }
    }
}


/// What an atom token denotes: a value, a float for the host to parse,
/// or a read error.
pub enum AtomR {
    V(ValSpec),
    FloatTok,
    Fail,
}

/// Atom classification, in the reader's order: integer, float,
/// `nil`/`true`/`false` spellings, string, keyword, symbol.
pub open spec fn atom_spec(t: Seq<char>) -> AtomR {
    if is_int_token(t) {
        AtomR::V(ValSpec::Int(int_tok_val(t)))
    } else if is_float_syntax(t) {
        AtomR::FloatTok
    } else if t == "nil"@ || t == "Nil"@ || t == "NIL"@ {
        AtomR::V(ValSpec::Nil)
    } else if t == "true"@ || t == "True"@ || t == "TRUE"@ {
        AtomR::V(ValSpec::True)
    } else if t == "false"@ || t == "False"@ || t == "FALSE"@ {
        AtomR::V(ValSpec::False)
    } else if t.len() >= 1 && t[0] == '"' {
        match unesc(t.skip(1)) {
            Some(r) => AtomR::V(ValSpec::Str(r)),
            None => AtomR::Fail,
        }
    } else if t.len() >= 1 && t[0] == ':' {
        AtomR::V(ValSpec::Keyword(t.skip(1)))
    } else {
        AtomR::V(ValSpec::Symbol(t))
    }
}

/// Read one atom token as a value. The host parses float tokens; every
/// other case is pinned down by [`atom_spec`].
pub fn read_atom<F: crate::floats::FloatOps>(ops: &F, t: String) -> (r: Result<Val, crate::error::MalErr>)
    ensures
        match r {
            Ok(v) => (atom_spec(t@) matches AtomR::V(x) && v@ == x)
                || (atom_spec(t@) is FloatTok && v@ is Float),
            Err(e) => atom_spec(t@) is Fail && e.kind == crate::error::ErrType::Read,
        },
        r matches Ok(v) ==> val_ok(v@, 0),
{
    if let Some(n) = parse_i64(&t) {
        return Ok(Val::Int(n));
    }
    if is_float_tok(&t) {
        let bits = ops.parse(t.as_str());
        return Ok(Val::Float(bits));
    }
    if streq(t.as_str(), "nil") || streq(t.as_str(), "Nil") || streq(t.as_str(), "NIL") {
        return Ok(Val::Nil);
    }
    if streq(t.as_str(), "true") || streq(t.as_str(), "True") || streq(t.as_str(), "TRUE") {
        return Ok(Val::True);
    }
    if streq(t.as_str(), "false") || streq(t.as_str(), "False") || streq(t.as_str(), "FALSE") {
        return Ok(Val::False);
    }
    let n = t.as_str().unicode_len();
    if n >= 1 && t.as_str().get_char(0) == '"' {
        match unescape_string(&t) {
            Ok(s) => {
                return Ok(Val::Str(s));
            },
            Err(e) => {
                return Err(e);
            },
        }
    }
    if n >= 1 && t.as_str().get_char(0) == ':' {
        let rest = t.as_str().substring_char(1, n);
        proof {
            assert(t@.subrange(1, n as int) =~= t@.skip(1));
        }
        return Ok(Val::Keyword(String::from_str(rest)));
    }
    Ok(Val::Symbol(t))
}

} // verus!

verus! {

/// A key of a map literal: an atom.
pub open spec fn is_map_key(v: ValSpec) -> bool {
    v is Int || v is Float || v is Str || v is Keyword || v is Symbol
}

/// Insert into an association sequence: the first entry with an equal
/// key is replaced in place, otherwise the pair is appended, keeping
/// insertion order.
pub open spec fn tbl_put(t: Seq<(ValSpec, ValSpec)>, k: ValSpec, v: ValSpec)
    -> Seq<(ValSpec, ValSpec)>
    decreases t.len(),
{
    if t.len() == 0 {
        seq![(k, v)]
    } else if crate::types::vals_equal(t[0].0, k) {
        seq![(k, v)] + t.drop_first()
    } else {
        seq![t[0]] + tbl_put(t.drop_first(), k, v)
    }
}

/// Assemble a map literal's forms, read in order, onto a table.
pub open spec fn assemble_into(t: Seq<(ValSpec, ValSpec)>, vals: Seq<ValSpec>)
    -> Option<Seq<(ValSpec, ValSpec)>>
    decreases vals.len(),
{
    if vals.len() == 0 {
        Some(t)
    } else if vals.len() == 1 {
        None
    } else if !is_map_key(vals[0]) {
        None
    } else {
        assemble_into(tbl_put(t, vals[0], vals[1]), vals.skip(2))
    }
}

/// What a form starting at token `pos` parses to: a value and the
/// position after it, a clean end of input, or a read error.
pub enum ParseR {
    Form(ValSpec, int),
    End,
    Fail,
}

/// What reading forms up to a closing token yields.
pub enum UntilR {
    Items(Seq<ValSpec>, int),
    Fail,
}

/// Recursive-descent parsing of one form. A float token appears here
/// as a zero placeholder: the host parses the real bits, so the
/// reader's exactness claims are conditioned on float-free input.
pub open spec fn parse_form_at(toks: Seq<Seq<char>>, pos: int) -> ParseR
    decreases toks.len() - pos, 0int
    via parse_form_at_dec
{
    if !(0 <= pos < toks.len()) {
        ParseR::End
    } else {
        let t = toks[pos];
        if t == "("@ {
            match parse_until_at(toks, pos + 1, ")"@) {
                UntilR::Items(vs, q) => ParseR::Form(ValSpec::List(vs), q),
                UntilR::Fail => ParseR::Fail,
            }
        } else if t == "["@ {
            match parse_until_at(toks, pos + 1, "]"@) {
                UntilR::Items(vs, q) => ParseR::Form(ValSpec::Vector(vs), q),
                UntilR::Fail => ParseR::Fail,
            }
        } else if t == "{"@ {
            match parse_until_at(toks, pos + 1, "}"@) {
                UntilR::Items(vs, q) => match assemble_into(Seq::empty(), vs) {
                    Some(ps) => ParseR::Form(ValSpec::Table(ps), q),
                    None => ParseR::Fail,
                },
                UntilR::Fail => ParseR::Fail,
            }
        } else if t == ")"@ || t == "]"@ || t == "}"@ {
            ParseR::Fail
        } else if t == "'"@ {
            match parse_form_at(toks, pos + 1) {
                ParseR::Form(v, q) => ParseR::Form(
                    ValSpec::List(seq![ValSpec::Symbol("quote"@), v]),
                    q,
                ),
                _ => ParseR::Fail,
            }
        } else {
            match atom_spec(t) {
                AtomR::V(v) => ParseR::Form(v, pos + 1),
                AtomR::FloatTok => ParseR::Form(ValSpec::Float(0), pos + 1),
                AtomR::Fail => ParseR::Fail,
            }
        }
    }
}

/// Forms up to (and through) the closing token.
pub open spec fn parse_until_at(toks: Seq<Seq<char>>, pos: int, close: Seq<char>) -> UntilR
    decreases toks.len() - pos, 1int
    via parse_until_at_dec
{
    if !(0 <= pos < toks.len()) {
        UntilR::Fail
    } else if toks[pos] == close {
        UntilR::Items(Seq::empty(), pos + 1)
    } else {
        match parse_form_at(toks, pos) {
            ParseR::Form(v, q) => if pos < q <= toks.len() {
                match parse_until_at(toks, q, close) {
                    UntilR::Items(vs, r) => UntilR::Items(seq![v] + vs, r),
                    UntilR::Fail => UntilR::Fail,
                }
            } else {
                UntilR::Fail
            },
            _ => UntilR::Fail,
        }
    }
}

#[via_fn]
proof fn parse_form_at_dec(toks: Seq<Seq<char>>, pos: int) {
}

#[via_fn]
proof fn parse_until_at_dec(toks: Seq<Seq<char>>, pos: int, close: Seq<char>) {
}

/// A successful parse always advances the cursor and stays in bounds.
pub proof fn lemma_parse_positions(toks: Seq<Seq<char>>, pos: int)
    ensures
        parse_form_at(toks, pos) matches ParseR::Form(_, q) ==> pos < q <= toks.len(),
    decreases toks.len() - pos, 0int,
{
    if 0 <= pos < toks.len() {
        let t = toks[pos];
        if t == "("@ || t == "["@ || t == "{"@ {
            lemma_until_positions(toks, pos + 1, ")"@);
            lemma_until_positions(toks, pos + 1, "]"@);
            lemma_until_positions(toks, pos + 1, "}"@);
        } else if t == ")"@ || t == "]"@ || t == "}"@ {
        } else if t == "'"@ {
            lemma_parse_positions(toks, pos + 1);
        }
    }
}

/// Reading up to a closing token always advances the cursor too.
pub proof fn lemma_until_positions(toks: Seq<Seq<char>>, pos: int, close: Seq<char>)
    ensures
        parse_until_at(toks, pos, close) matches UntilR::Items(_, q) ==> pos < q <= toks.len(),
    decreases toks.len() - pos, 1int,
{
    if 0 <= pos < toks.len() && toks[pos] != close {
        lemma_parse_positions(toks, pos);
        if let ParseR::Form(v, q) = parse_form_at(toks, pos) {
            if pos < q <= toks.len() {
                lemma_until_positions(toks, q, close);
            }
        }
    }
}

/// Whether no token would reach the host's float parser; on such token
/// streams the reader's results are pinned down exactly.
pub open spec fn tokens_float_free(toks: Seq<Seq<char>>) -> bool {
    forall|i: int| 0 <= i < toks.len() ==> !((#[trigger] atom_spec(toks[i])) is FloatTok)
}

} // verus!

verus! {

/// The first entry of `t` whose key equals `k`, if any, as the spec
/// `tbl_put` sees it: replacement in place, else appending.
pub proof fn lemma_tbl_put_shape(t: Seq<(ValSpec, ValSpec)>, k: ValSpec, v: ValSpec, m: int)
    requires
        0 <= m <= t.len(),
        forall|j: int| 0 <= j < m ==> !crate::types::vals_equal(#[trigger] t[j].0, k),
        m < t.len() ==> crate::types::vals_equal(t[m].0, k),
    ensures
        m < t.len() ==> tbl_put(t, k, v) == t.update(m, (k, v)),
        m == t.len() ==> tbl_put(t, k, v) == t.push((k, v)),
    decreases m,
{
    if t.len() == 0 {
        assert(tbl_put(t, k, v) =~= t.push((k, v)));
    } else if m == 0 {
        if m < t.len() {
            assert(tbl_put(t, k, v) =~= t.update(0, (k, v)));
        }
    } else {
        lemma_tbl_put_shape(t.drop_first(), k, v, m - 1);
        assert(forall|j: int| 0 <= j < m - 1 ==> t.drop_first()[j] == t[j + 1]);
        if m < t.len() {
            assert(tbl_put(t, k, v) =~= t.update(m, (k, v)));
        } else {
            assert(tbl_put(t, k, v) =~= t.push((k, v)));
        }
    }
}

/// Whether a value may key a map literal.
fn is_map_key_x(v: &Val) -> (r: bool)
    ensures
        r == is_map_key(v@),
{
    match v {
        Val::Int(_) => true,
        Val::Float(_) => true,
        Val::Str(_) => true,
        Val::Keyword(_) => true,
        Val::Symbol(_) => true,
        _ => false,
    }
}

/// The first entry binding a key equal to `k`, if any.
fn find_key(table: &Vec<(Val, Val)>, k: &Val) -> (r: Option<usize>)
    ensures
        match r {
            Some(m) => m < table@.len()
                && crate::types::vals_equal(crate::types::pairs_view(table@)[m as int].0, k@)
                && forall|j: int| 0 <= j < m ==> !crate::types::vals_equal(
                    #[trigger] crate::types::pairs_view(table@)[j].0, k@),
            None => forall|j: int| 0 <= j < table@.len() ==> !crate::types::vals_equal(
                #[trigger] crate::types::pairs_view(table@)[j].0, k@),
        },
{
    proof {
        crate::types::lemma_pairs_view(table@);
    }
    let n = table.len();
    let mut m: usize = 0;
    while m < n
        invariant
            m <= n,
            n == table@.len(),
            forall|j: int| 0 <= j < table@.len() ==> crate::types::pairs_view(table@)[j]
                == (crate::types::val_view(table@[j].0), crate::types::val_view(table@[j].1)),
            forall|j: int| 0 <= j < m ==> !crate::types::vals_equal(
                #[trigger] crate::types::pairs_view(table@)[j].0, k@),
        decreases n - m,
    {
        if crate::types::val_eq(&table[m].0, k) {
            return Some(m);
        }
        m = m + 1;
    }
    None
}

/// Insert one binding into a table as the map literal is assembled.
fn tbl_put_x(table: &mut Vec<(Val, Val)>, k: Val, v: Val)
    ensures
        crate::types::pairs_view(final(table)@)
            == tbl_put(crate::types::pairs_view(old(table)@), k@, v@),
{
    let ghost tv = crate::types::pairs_view(table@);
    proof {
        crate::types::lemma_pairs_view(table@);
    }
    let hit = find_key(table, &k);
    match hit {
        Some(m) => {
            proof {
                lemma_tbl_put_shape(tv, k@, v@, m as int);
            }
            table[m] = (k, v);
            proof {
                crate::types::lemma_pairs_view(table@);
                assert(crate::types::pairs_view(table@) =~= tv.update(m as int, (k@, v@)));
            }
        },
        None => {
            proof {
                lemma_tbl_put_shape(tv, k@, v@, tv.len() as int);
            }
            table.push((k, v));
            proof {
                assert(table@.drop_last() =~= old(table)@);
                assert(crate::types::pairs_view(table@) =~= tv.push((k@, v@)));
            }
        },
    }
}

/// Assemble the forms read from a map literal, pairwise and in order;
/// an odd count or a non-atom key is a read error.
fn assemble_map(vals: Vec<Val>) -> (r: Result<Vec<(Val, Val)>, crate::error::MalErr>)
    ensures
        match r {
            Ok(ps) => assemble_into(Seq::empty(), crate::types::vals_view(vals@))
                == Some(crate::types::pairs_view(ps@)),
            Err(e) => assemble_into(Seq::empty(), crate::types::vals_view(vals@)) is None
                && e.kind == crate::error::ErrType::Read,
        },
{
    let ghost all = crate::types::vals_view(vals@);
    let mut table: Vec<(Val, Val)> = Vec::new();
    let n = vals.len();
    let mut i: usize = 0;
    proof {
        crate::types::lemma_pairs_view(table@);
        assert(crate::types::pairs_view(table@) =~= Seq::<(ValSpec, ValSpec)>::empty());
        assert(vals@.skip(0) =~= vals@);
    }
    while i < n && i + 1 < n
        invariant
            i <= n,
            n == vals@.len(),
            assemble_into(Seq::empty(), crate::types::vals_view(vals@))
                == assemble_into(crate::types::pairs_view(table@),
                    crate::types::vals_view(vals@.skip(i as int))),
        decreases n - i,
    {
        let ghost tail = vals@.skip(i as int);
        let ghost rv = crate::types::vals_view(tail);
        proof {
            crate::types::lemma_vals_view(tail);
            crate::types::lemma_vals_view(vals@);
        }
        let k = vals[i].clone();
        let v = vals[i + 1].clone();
        proof {
            assert(k@ == rv[0] && v@ == rv[1]);
        }
        if !is_map_key_x(&k) {
            proof {
                assert(rv.len() >= 2);
                assert(!is_map_key(rv[0]));
                assert(assemble_into(crate::types::pairs_view(table@), rv) is None);
            }
            return Err(crate::error::err(crate::error::ErrType::Read, "invalid map key"));
        }
        tbl_put_x(&mut table, k, v);
        i = i + 2;
        proof {
            assert(vals@.skip(i as int) =~= tail.skip(2));
            crate::types::lemma_vals_view(vals@.skip(i as int));
            crate::types::lemma_vals_view(tail.skip(2));
            assert(crate::types::vals_view(vals@.skip(i as int)) =~= rv.skip(2));
        }
    }
    if i < n {
        proof {
            crate::types::lemma_vals_view(vals@.skip(i as int));
        }
        return Err(crate::error::err(
            crate::error::ErrType::Read,
            "map literal must contain an even number of elements",
        ));
    }
    proof {
        crate::types::lemma_vals_view(vals@.skip(i as int));
        assert(crate::types::vals_view(vals@.skip(i as int)).len() == 0);
    }
    Ok(table)
}

} // verus!

verus! {

/// Inserting a valid pair into a valid table keeps it valid.
proof fn lemma_tbl_put_ok(t: Seq<(ValSpec, ValSpec)>, k: ValSpec, v: ValSpec, n: int)
    requires
        crate::types::pairs_ok(t, n),
        val_ok(k, n),
        val_ok(v, n),
    ensures
        crate::types::pairs_ok(tbl_put(t, k, v), n),
    decreases t.len(),
{
    crate::types::lemma_pairs_ok(t, n);
    if t.len() == 0 {
        crate::types::lemma_pairs_ok(tbl_put(t, k, v), n);
    } else if crate::types::vals_equal(t[0].0, k) {
        crate::types::lemma_pairs_ok(tbl_put(t, k, v), n);
        assert(forall|j: int| 0 <= j < t.len() - 1 ==> tbl_put(t, k, v)[j + 1] == t.drop_first()[j]);
        assert(forall|j: int| 0 <= j < t.len() - 1 ==> t.drop_first()[j] == t[j + 1]);
    } else {
        crate::types::lemma_pairs_ok(t.drop_first(), n);
        assert(forall|j: int| 0 <= j < t.len() - 1 ==> t.drop_first()[j] == t[j + 1]);
        lemma_tbl_put_ok(t.drop_first(), k, v, n);
        let rec = tbl_put(t.drop_first(), k, v);
        crate::types::lemma_pairs_ok(rec, n);
        crate::types::lemma_pairs_ok(tbl_put(t, k, v), n);
        assert(forall|j: int| 0 <= j < rec.len() ==> tbl_put(t, k, v)[j + 1] == rec[j]);
    }
}

/// Assembling valid forms yields a valid table.
proof fn lemma_assemble_ok(t: Seq<(ValSpec, ValSpec)>, vals: Seq<ValSpec>, n: int)
    requires
        crate::types::pairs_ok(t, n),
        crate::types::vals_ok(vals, n),
    ensures
        assemble_into(t, vals) matches Some(ps) ==> crate::types::pairs_ok(ps, n),
    decreases vals.len(),
{
    crate::types::lemma_vals_ok(vals, n);
    if vals.len() >= 2 && is_map_key(vals[0]) {
        lemma_tbl_put_ok(t, vals[0], vals[1], n);
        crate::types::lemma_vals_ok(vals.skip(2), n);
        assert(forall|j: int| 0 <= j < vals.len() - 2 ==> vals.skip(2)[j] == vals[j + 2]);
        lemma_assemble_ok(tbl_put(t, vals[0], vals[1]), vals.skip(2), n);
    }
}

/// Parse one form from the token stream, starting at `pos`. The second
/// component is the position after what was consumed. `Ok(None)` is a
/// clean end of input, distinct from a read error.
pub fn parse_form_x<F: crate::floats::FloatOps>(ops: &F, toks: &Vec<String>, pos: usize)
    -> (r: (Result<Option<Val>, crate::error::MalErr>, usize))
    ensures
        match r.0 {
            Ok(Some(v)) => pos < r.1 <= toks@.len() && val_ok(v@, 0)
                && (tokens_float_free(toks.deep_view())
                    ==> parse_form_at(toks.deep_view(), pos as int)
                        == ParseR::Form(v@, r.1 as int)),
            Ok(None) => pos >= toks@.len() && r.1 == pos
                && parse_form_at(toks.deep_view(), pos as int) == ParseR::End,
            Err(e) => e.kind == crate::error::ErrType::Read
                && (tokens_float_free(toks.deep_view())
                    ==> parse_form_at(toks.deep_view(), pos as int) == ParseR::Fail),
        },
    decreases toks@.len() - pos, 0int,
{
    let ghost d = toks.deep_view();
    let ghost ff = tokens_float_free(d);
    if pos >= toks.len() {
        return (Ok(None), pos);
    }
    let t = &toks[pos];
    proof {
        assert(d[pos as int] == toks@[pos as int]@);
    }
    if streq(t.as_str(), "(") {
        let (res, q) = parse_until_x(ops, toks, pos + 1, ")");
        match res {
            Ok(vs) => {
                let ghost vsv = crate::types::vals_view(vs@);
                (Ok(Some(Val::List(vs))), q)
            },
            Err(e) => (Err(e), q),
        }
    } else if streq(t.as_str(), "[") {
        let (res, q) = parse_until_x(ops, toks, pos + 1, "]");
        match res {
            Ok(vs) => (Ok(Some(Val::Vector(vs))), q),
            Err(e) => (Err(e), q),
        }
    } else if streq(t.as_str(), "{") {
        let (res, q) = parse_until_x(ops, toks, pos + 1, "}");
        match res {
            Ok(vs) => {
                let ghost vsv = crate::types::vals_view(vs@);
                match assemble_map(vs) {
                    Ok(ps) => {
                        proof {
                            lemma_assemble_ok(Seq::empty(), vsv, 0);
                        }
                        (Ok(Some(Val::Table(ps))), q)
                    },
                    Err(e) => (Err(e), q),
                }
            },
            Err(e) => (Err(e), q),
        }
    } else if streq(t.as_str(), ")") || streq(t.as_str(), "]") || streq(t.as_str(), "}") {
        (Err(crate::error::err(crate::error::ErrType::Read, "unexpected closing delimiter")), pos)
    } else if streq(t.as_str(), "'") {
        let (res, q) = parse_form_x(ops, toks, pos + 1);
        match res {
            Ok(Some(v)) => {
                let ghost vv = v@;
                let quoted = vec![Val::Symbol(String::from_str("quote")), v];
                proof {
                    crate::types::lemma_vals_view(quoted@);
                    let s2 = seq![ValSpec::Symbol("quote"@), vv];
                    assert(crate::types::vals_view(quoted@) =~= s2);
                    crate::types::lemma_vals_ok(s2, 0);
                    assert(val_ok(s2[0], 0) && val_ok(s2[1], 0));
                    assert(crate::types::vals_ok(s2, 0));
                }
                (Ok(Some(Val::List(quoted))), q)
            },
            Ok(None) => (
                Err(crate::error::err(crate::error::ErrType::Read, "unexpected end of input")),
                q,
            ),
            Err(e) => (Err(e), q),
        }
    } else {
        match read_atom(ops, t.clone()) {
            Ok(v) => (Ok(Some(v)), pos + 1),
            Err(e) => (Err(e), pos),
        }
    }
}

/// Parse forms until the closing token, consuming it; running out of
/// tokens first is a read error.
pub fn parse_until_x<F: crate::floats::FloatOps>(
    ops: &F,
    toks: &Vec<String>,
    pos: usize,
    close: &str,
) -> (r: (Result<Vec<Val>, crate::error::MalErr>, usize))
    requires
        pos <= toks@.len(),
    ensures
        match r.0 {
            Ok(vs) => pos < r.1 <= toks@.len()
                && crate::types::vals_ok(crate::types::vals_view(vs@), 0)
                && (tokens_float_free(toks.deep_view())
                    ==> parse_until_at(toks.deep_view(), pos as int, close@)
                        == UntilR::Items(crate::types::vals_view(vs@), r.1 as int)),
            Err(e) => e.kind == crate::error::ErrType::Read
                && (tokens_float_free(toks.deep_view())
                    ==> parse_until_at(toks.deep_view(), pos as int, close@) == UntilR::Fail),
        },
    decreases toks@.len() - pos, 1int,
{
    let ghost d = toks.deep_view();
    let ghost ff = tokens_float_free(d);
    let mut out: Vec<Val> = Vec::new();
    let mut cur = pos;
    proof {
        crate::types::lemma_vals_view(out@);
        assert(crate::types::vals_view(out@) =~= Seq::<ValSpec>::empty());
    }
    loop
        invariant
            pos <= cur <= toks@.len(),
            d == toks.deep_view(),
            ff == tokens_float_free(d),
            crate::types::vals_ok(crate::types::vals_view(out@), 0),
            ff ==> parse_until_at(d, pos as int, close@) == (
                match parse_until_at(d, cur as int, close@) {
                    UntilR::Items(ws, q) => UntilR::Items(
                        crate::types::vals_view(out@) + ws, q),
                    UntilR::Fail => UntilR::Fail,
                }),
        decreases toks@.len() - cur,
    {
        if cur >= toks.len() {
            return (
                Err(crate::error::err(crate::error::ErrType::Read, "unexpected end of input")),
                cur,
            );
        }
        proof {
            assert(d[cur as int] == toks@[cur as int]@);
        }
        if streq(toks[cur].as_str(), close) {
            proof {
                if ff {
                    assert(parse_until_at(d, cur as int, close@)
                        == UntilR::Items(Seq::empty(), cur + 1));
                    assert(crate::types::vals_view(out@) + Seq::<ValSpec>::empty()
                        =~= crate::types::vals_view(out@));
                }
            }
            return (Ok(out), cur + 1);
        }
        let (res, q) = parse_form_x(ops, toks, cur);
        match res {
            Ok(Some(v)) => {
                let ghost before = out@;
                let ghost prev = crate::types::vals_view(before);
                let ghost vv = v@;
                proof {
                    lemma_parse_positions(d, cur as int);
                    lemma_until_positions(d, q as int, close@);
                }
                out.push(v);
                proof {
                    assert(out@.drop_last() =~= before);
                    assert(out@.last() == out@[out@.len() - 1]);
                    assert(crate::types::vals_view(out@) == prev.push(
                        crate::types::val_view(out@.last())));
                    assert(crate::types::val_view(out@.last()) == vv);
                    assert(crate::types::vals_view(out@).drop_last() =~= prev);
                    if ff {
                        assert(parse_form_at(d, cur as int) == ParseR::Form(v@, q as int));
                        if let UntilR::Items(ws2, rr) = parse_until_at(d, q as int, close@) {
                            assert(parse_until_at(d, cur as int, close@)
                                == UntilR::Items(seq![vv] + ws2, rr));
                            assert(prev + (seq![vv] + ws2)
                                =~= crate::types::vals_view(out@) + ws2);
                        }
                    }
                }
                cur = q;
            },
            Ok(None) => {
                proof {
                    assert(false);
                }
                return (
                    Err(crate::error::err(crate::error::ErrType::Read, "unexpected end of input")),
                    cur,
                );
            },
            Err(e) => {
                return (Err(e), cur);
            },
        }
    }
}

} // verus!

verus! {

impl Reader {
    /// Read one form from the cursor; `Ok(None)` is a clean end of
    /// input, distinct from a read error. A read error abandons the
    /// rest of the stream.
    pub fn read_form<F: crate::floats::FloatOps>(&mut self, ops: &F)
        -> (r: Result<Option<Val>, crate::error::MalErr>)
        requires
            old(self).pos <= old(self).tokens@.len(),
        ensures
            final(self).tokens == old(self).tokens,
            final(self).pos <= final(self).tokens@.len(),
            match r {
                Ok(Some(v)) => val_ok(v@, 0)
                    && (tokens_float_free(old(self).tokens.deep_view())
                        ==> parse_form_at(old(self).tokens.deep_view(), old(self).pos as int)
                            == ParseR::Form(v@, final(self).pos as int)),
                Ok(None) => parse_form_at(old(self).tokens.deep_view(), old(self).pos as int)
                    == ParseR::End,
                Err(e) => e.kind == crate::error::ErrType::Read
                    && (tokens_float_free(old(self).tokens.deep_view())
                        ==> parse_form_at(old(self).tokens.deep_view(), old(self).pos as int)
                            == ParseR::Fail),
            },
    {
        let (res, q) = parse_form_x(ops, &self.tokens, self.pos);
        match res {
            Ok(Some(v)) => {
                self.pos = q;
                Ok(Some(v))
            },
            Ok(None) => {
                Ok(None)
            },
            Err(e) => {
                self.pos = self.tokens.len();
                Err(e)
            },
        }
    }
}

} // verus!
