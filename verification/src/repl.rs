//! One read-evaluate-print step, as a driver loop uses it: the driver
//! supplies a line of text and displays the returned text and any
//! lines the interpreter emitted meanwhile.

use vstd::prelude::*;

use crate::env::{Interp, StateS};
use crate::error::{err, ErrType, MalErr};
use crate::eval::eval_rel;
use crate::floats::FloatOps;
use crate::printer::{pr_str, print_spec};
use crate::reader::{lex, parse_form_at, tokens_float_free, ParseR, Reader};
use crate::types::{float_free, val_ok, Outcome, Val};

verus! {

/// Read the first form of a text; `Ok(None)` when it holds none.
pub fn read<F: FloatOps>(ops: &F, text: &str) -> (r: Result<Option<Val>, MalErr>)
    ensures
        match r {
            Ok(Some(v)) => val_ok(v@, 0)
                && (tokens_float_free(lex(text@))
                    ==> (parse_form_at(lex(text@), 0) matches ParseR::Form(w, _) && w == v@)),
            Ok(None) => parse_form_at(lex(text@), 0) == ParseR::End,
            Err(e) => e.kind == ErrType::Read
                && (tokens_float_free(lex(text@)) ==> parse_form_at(lex(text@), 0)
                    == ParseR::Fail),
        },
{
    let mut r = Reader::tokenize(text);
    r.read_form(ops)
}

/// Render a value in the standard textual syntax.
pub fn print<F: FloatOps>(ops: &F, val: &Val) -> (r: String)
    ensures
        float_free(val@) ==> r@ == print_spec(val@),
{
    pr_str(ops, val)
}

/// One read-evaluate-print step over a line: the text of the line's
/// first form's value, or of the error it raised. `def!` effects and
/// emitted output stay in the interpreter state for the next step.
pub fn rep<F: FloatOps>(ops: &F, st: &mut Interp, envt: usize, line: &str, fuel: u64)
    -> (r: String)
    requires
        old(st).wf(),
        envt < old(st).n(),
    ensures
        final(st).wf(),
        old(st).n() <= final(st).n(),
        envt < final(st).n(),
        lex(line@).len() == 0 ==> *final(st) == *old(st)
            && r@ == crate::error::render_spec(Seq::empty(), "nothing to read"@),
        tokens_float_free(lex(line@)) && parse_form_at(lex(line@), 0) is Form
            ==> exists|s1: StateS, ro: Outcome|
                #![trigger vstd::pervasive::trigger(s1), vstd::pervasive::trigger(ro)]
                eval_rel(old(st).view_state(), envt as int,
                    parse_form_at(lex(line@), 0)->Form_0, fuel as nat, s1, ro)
                && final(st).view_state() == s1
                && (ro matches Outcome::Val(v) ==> (float_free(v) ==> r@ == print_spec(v))),
{
    proof {
        if lex(line@).len() == 0 {
            assert(parse_form_at(lex(line@), 0) == ParseR::End);
        }
    }
    match read(ops, line) {
        Ok(Some(form)) => {
            proof {
                crate::types::lemma_val_ok_widen(form@, 0, st.n());
            }
            match crate::eval::eval(ops, st, envt, &form, fuel) {
                Ok(v) => {
                    let out = pr_str(ops, &v);
                    proof {
                        assert(vstd::pervasive::trigger(st.view_state()));
                        assert(vstd::pervasive::trigger(Outcome::Val(v@)));
                    }
                    out
                },
                Err(e) => {
                    proof {
                        assert(vstd::pervasive::trigger(st.view_state()));
                        assert(vstd::pervasive::trigger(Outcome::Fail(e.kind, e.msg@)));
                    }
                    e.render()
                },
            }
        },
        Ok(None) => {
            let e = err(ErrType::Read, "nothing to read");
            let out = e.render();
            proof {
                assert(e.context.deep_view() =~= Seq::<Seq<char>>::empty());
            }
            out
        },
        Err(e) => e.render(),
    }
}

} // verus!
