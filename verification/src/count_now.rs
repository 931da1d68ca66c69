//! Counting how often an expression asks for the time at which its
//! statement runs.

use crate::expr::{lemma_call_view, spec_exprs_view, ExprImpl, ExprView, Now};
use vstd::prelude::*;

verus! {

/// How often the expression asks for the time at which the statement runs.
pub open spec fn spec_count_now(e: ExprView) -> nat
    decreases e,
{
    match e {
        ExprView::Now => 1,
        ExprView::FunctionCall { inputs, .. } => spec_count_now_first(inputs, inputs.len()),
        _ => 0,
    }
}

/// How often the first `n` of the expressions ask for it together.
pub open spec fn spec_count_now_first(inputs: Seq<ExprView>, n: nat) -> nat
    decreases inputs, n,
{
    if n == 0 || n > inputs.len() {
        0
    } else {
        spec_count_now_first(inputs, (n - 1) as nat) + spec_count_now(inputs[n - 1])
    }
}

/// The first expressions ask no more often than more of them do.
pub proof fn lemma_count_now_grows(inputs: Seq<ExprView>, m: nat, n: nat)
    requires
        m <= n <= inputs.len(),
    ensures
        spec_count_now_first(inputs, m) <= spec_count_now_first(inputs, n),
    decreases n,
{
    if m < n {
        lemma_count_now_grows(inputs, m, (n - 1) as nat);
    }
}

/// Count `Now`s in the expression.
#[derive(Clone, Default)]
pub struct CountNow {}

impl CountNow {
    /// The count of two parts together.
    pub fn merge(a: usize, b: usize) -> (r: usize)
        requires
            a + b <= usize::MAX,
        ensures
            r == a + b,
    {
        a + b
    }

    /// The count of one `Now`.
    pub fn visit_now(&mut self, _now: &Now) -> (r: usize)
        ensures
            r == 1,
    {
        1
    }

    /// How often the expression asks for the time at which the statement
    /// runs.
    #[verifier::loop_isolation(false)]
    pub fn visit_expr(&mut self, expr: &ExprImpl) -> (r: usize)
        requires
            spec_count_now(expr@) <= usize::MAX,
        ensures
            r == spec_count_now(expr@),
        decreases expr,
    {
        match expr {
            ExprImpl::Now(now) => self.visit_now(now),
            ExprImpl::FunctionCall(call) => {
                proof {
                    lemma_call_view(*call);
                }
                let ghost views = spec_exprs_view(call.inputs@);
                assert(expr@ == (ExprView::FunctionCall {
                    func_type: call.func_type,
                    return_type: call.return_type,
                    inputs: views,
                }));
                let mut count: usize = 0;
                let mut i: usize = 0;
                while i < call.inputs.len()
                    invariant
                        i <= call.inputs@.len(),
                        count == spec_count_now_first(views, i as nat),
                    decreases call.inputs@.len() - i,
                {
                    assert(views[i as int] == call.inputs@[i as int]@);
                    proof {
                        lemma_count_now_grows(views, (i + 1) as nat, views.len());
                    }
                    let part = self.visit_expr(&call.inputs[i]);
                    count = Self::merge(count, part);
                    i += 1;
                }
                count
            },
            _ => 0,
        }
    }
}

} // verus!
