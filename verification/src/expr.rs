//! The expression tree that a rule is parsed into.

use vstd::prelude::*;

verus! {

/// One expression of a rule: a quoted string or a call.
#[derive(Debug, PartialEq, Eq)]
pub enum Expr {
    /// The text between two double quotes.
    Quote(String),
    /// A named call with its arguments.
    Call(Call),
}

/// A call: a name followed by a parenthesised list of arguments.
#[derive(Debug, PartialEq, Eq)]
pub struct Call {
    /// The name before the opening parenthesis.
    pub name: String,
    /// The arguments, in the order written.
    pub args: Vec<Expr>,
}

/// The mathematical model of an [`Expr`].
pub ghost enum ExprView {
    Quote(Seq<char>),
    Call(CallView),
}

/// The mathematical model of a [`Call`].
pub ghost struct CallView {
    pub name: Seq<char>,
    pub args: Seq<ExprView>,
}

/// The model of `expr`.
pub open spec fn expr_view(expr: Expr) -> ExprView
    decreases expr,
{
    match expr {
        Expr::Quote(text) => ExprView::Quote(text@),
        Expr::Call(call) => ExprView::Call(call_view(call)),
    }
}

/// The model of `call`: its name, and the models of its arguments in order.
pub open spec fn call_view(call: Call) -> CallView
    decreases call,
{
    CallView {
        name: call.name@,
        args: call.args@.map_values(
            |arg: Expr|
                if decreases_to!(call => arg) {
                    expr_view(arg)
                } else {
                    arbitrary()
                },
        ),
    }
}

impl View for Expr {
    type V = ExprView;

    open spec fn view(&self) -> ExprView {
        expr_view(*self)
    }
}

impl View for Call {
    type V = CallView;

    open spec fn view(&self) -> CallView {
        call_view(*self)
    }
}

/// The models of `exprs`, in the same order.
pub open spec fn expr_views(exprs: Seq<Expr>) -> Seq<ExprView> {
    Seq::new(exprs.len(), |i: int| exprs[i]@)
}

/// The model of a call lists the models of its arguments.
pub proof fn lemma_call_args(call: Call)
    ensures
        call@.args == expr_views(call.args@),
{
    assert forall|i: int| 0 <= i < call.args@.len() implies call@.args[i] == call.args@[i]@ by {
        assert(decreases_to!(call.args => call.args[i]));
        assert(decreases_to!(call => call.args));
    }
    assert(call@.args =~= expr_views(call.args@));
}

} // verus!
