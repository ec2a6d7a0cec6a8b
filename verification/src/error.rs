//! The interpreter's structured error type.
//!
//! Errors are values, never process aborts: they propagate by early
//! return through the reader and the evaluator, optionally picking up
//! human-readable context lines on the way out.

use vstd::prelude::*;

verus! {

/// The failure taxonomy: malformed syntax, a bad argument to a form or
/// native callable, a value of the wrong shape, or an evaluation
/// failure (unresolved symbol, application of a non-callable).
#[derive(Clone, Copy, Debug, PartialEq, Eq, Structural)]
pub enum ErrType {
    Read,
    Arg,
    Type,
    Eval,
}

/// An error value: its kind, its innermost message, and the stack of
/// context lines accumulated while propagating outward (innermost
/// first).
pub struct MalErr {
    pub kind: ErrType,
    pub msg: String,
    pub context: Vec<String>,
}

impl MalErr {
    /// Add one line of outward context to an error.
    pub fn wrap(self, line: String) -> (r: MalErr)
        ensures
            r.kind == self.kind,
            r.msg@ == self.msg@,
            r.context.deep_view() == self.context.deep_view().push(line@),
    {
        let mut e = self;
        e.context.push(line);
        proof {
            assert(e.context.deep_view() =~= self.context.deep_view().push(line@));
        }
        e
    }
}

/// Make a fresh error of the given kind with no context.
pub fn err(kind: ErrType, msg: &str) -> (r: MalErr)
    ensures
        r.kind == kind,
        r.msg@ == msg@,
        r.context.deep_view() == Seq::<Seq<char>>::empty(),
{
    let e = MalErr { kind, msg: msg.to_owned(), context: Vec::new() };
    proof {
        assert(e.context.deep_view() =~= Seq::<Seq<char>>::empty());
    }
    e
}

/// Make a fresh error, already wrapped as the `Err` of a `Result`.
pub fn rerr<T>(kind: ErrType, msg: &str) -> (r: Result<T, MalErr>)
    ensures
        r matches Err(e) && e.kind == kind && e.msg@ == msg@
            && e.context.deep_view() == Seq::<Seq<char>>::empty(),
{
    Err(err(kind, msg))
}

} // verus!

verus! {

impl MalErr {
    /// Pass a success through; wrap a failure with one line of context
    /// naming the form it arose in. Kind and innermost message are
    /// kept.
    pub fn in_form<F: crate::floats::FloatOps>(
        ops: &F,
        res: Result<crate::types::Val, MalErr>,
        val: &crate::types::Val,
    ) -> (r: Result<crate::types::Val, MalErr>)
        ensures
            res matches Ok(v) ==> r == Result::<crate::types::Val, MalErr>::Ok(v),
            res matches Err(e) ==> (r matches Err(e2)
                && e2.kind == e.kind && e2.msg@ == e.msg@
                && (exists|line: Seq<char>|
                    e2.context.deep_view() == e.context.deep_view().push(line)
                    && (crate::types::float_free(val@)
                        ==> line == "in form "@ + crate::printer::print_spec(val@)))),
    {
        match res {
            Ok(v) => Ok(v),
            Err(e) => {
                let mut line = String::from_str("in form ");
                let text = crate::printer::pr_str(ops, val);
                line.append(text.as_str());
                proof {
                    if crate::types::float_free(val@) {
                        assert(line@ =~= "in form "@ + crate::printer::print_spec(val@));
                    }
                }
                Err(e.wrap(line))
            },
        }
    }
}

} // verus!

verus! {

/// The rendered display of an error: the context lines outward-first,
/// then the innermost message.
pub open spec fn render_spec(ctx: Seq<Seq<char>>, msg: Seq<char>) -> Seq<char>
    decreases ctx.len(),
{
    if ctx.len() == 0 {
        "ERROR: "@ + msg + seq!['\n']
    } else {
        "! "@ + ctx.last() + seq!['\n'] + render_spec(ctx.drop_last(), msg)
    }
}

impl MalErr {
    /// Render the error for display, newest context first.
    pub fn render(&self) -> (r: String)
        ensures
            r@ == render_spec(self.context.deep_view(), self.msg@),
    {
        let ghost ctx = self.context.deep_view();
        let mut out = String::new();
        let mut i: usize = self.context.len();
        proof {
            assert(ctx.take(i as int) =~= ctx);
        }
        while i > 0
            invariant
                i <= self.context@.len(),
                ctx == self.context.deep_view(),
                ctx.len() == self.context@.len(),
                render_spec(ctx, self.msg@) == out@ + render_spec(ctx.take(i as int), self.msg@),
            decreases i,
        {
            i = i - 1;
            proof {
                assert(ctx.take(i as int + 1).drop_last() =~= ctx.take(i as int));
                assert(ctx.take(i as int + 1).last() == ctx[i as int]);
                assert(ctx[i as int] == self.context@[i as int]@);
            }
            out.append("! ");
            out.append(self.context[i].as_str());
            out.push('\n');
        }
        proof {
            assert(ctx.take(0) =~= Seq::<Seq<char>>::empty());
        }
        out.append("ERROR: ");
        out.append(self.msg.as_str());
        out.push('\n');
        proof {
            assert(out@ =~= render_spec(ctx, self.msg@));
        }
        out
    }
}

} // verus!
