//! From an expression tree to the predicate that it stands for.

use vstd::prelude::*;
use vstd::string::StringExecFns;
use regex::Regex;
use crate::expr::{expr_views, lemma_call_args, Call, CallView, Expr, ExprView};
use crate::filter::{and, not, or, predicate_views, CompiledPredicate, PredicateView};
use crate::pattern::{error_text, regex_error_text, regex_new};
use crate::text::same_text;

verus! {

/// The shape of argument list that a function of the rule language takes.
#[derive(Clone, Copy, Debug, PartialEq, Eq, Structural)]
pub enum Expectation {
    /// No argument at all.
    NoArguments,
    /// At least one argument.
    OneOrMoreArguments,
    /// Exactly one argument.
    OneArgument,
    /// Exactly one argument, which is a quoted string.
    OneStringArgument,
}

impl Expectation {
    /// How the shape is put in words, behind the name of the function.
    pub open spec fn phrase(self) -> Seq<char> {
        match self {
            Expectation::NoArguments => "() takes no arguments"@,
            Expectation::OneOrMoreArguments => "() takes 1 or more arguments"@,
            Expectation::OneArgument => "() takes 1 argument"@,
            Expectation::OneStringArgument => "() takes exactly one string argument"@,
        }
    }

    /// The words for the shape, to stand behind the name of the function.
    pub fn words(self) -> (words: &'static str)
        ensures
            words@ == self.phrase(),
    {
        match self {
            Expectation::NoArguments => "() takes no arguments",
            Expectation::OneOrMoreArguments => "() takes 1 or more arguments",
            Expectation::OneArgument => "() takes 1 argument",
            Expectation::OneStringArgument => "() takes exactly one string argument",
        }
    }
}

/// Why an expression that reads well still has no meaning.
#[derive(Debug, PartialEq)]
pub enum SemanticError {
    /// A quoted string stands where a call is expected.
    UnexpectedString,
    /// The rule language has no function of this name.
    UnknownFunction { name: String },
    /// The function was given arguments of another shape than it takes.
    WrongArguments { function: String, expected: Expectation },
    /// The argument of `regex` is not a regular expression.
    InvalidPattern { pattern: String, error: regex::Error },
}

/// The mathematical model of a [`SemanticError`].
pub ghost enum SemanticErrorView {
    UnexpectedString,
    UnknownFunction { name: Seq<char> },
    WrongArguments { function: Seq<char>, expected: Expectation },
    InvalidPattern { pattern: Seq<char>, error: regex::Error },
}

impl View for SemanticError {
    type V = SemanticErrorView;

    open spec fn view(&self) -> SemanticErrorView {
        match *self {
            SemanticError::UnexpectedString => SemanticErrorView::UnexpectedString,
            SemanticError::UnknownFunction { name } => SemanticErrorView::UnknownFunction {
                name: name@,
            },
            SemanticError::WrongArguments { function, expected } => SemanticErrorView::WrongArguments {
                function: function@,
                expected,
            },
            SemanticError::InvalidPattern { pattern, error } => SemanticErrorView::InvalidPattern {
                pattern: pattern@,
                error,
            },
        }
    }
}

impl SemanticErrorView {
    /// The error in words.
    pub open spec fn message(self) -> Seq<char> {
        match self {
            SemanticErrorView::UnexpectedString => "unexpected string argument"@,
            SemanticErrorView::UnknownFunction { name } => "unrecognized function: "@ + name,
            SemanticErrorView::WrongArguments { function, expected } => function + expected.phrase(),
            SemanticErrorView::InvalidPattern { pattern, error } =>
                "regex(): could not parse argument: "@ + regex_error_text(error),
        }
    }
}

impl SemanticError {
    /// Says in words what is wrong, naming the function where there is one.
    pub fn message(&self) -> (text: String)
        ensures
            text@ == self@.message(),
    {
        match self {
            SemanticError::UnexpectedString => "unexpected string argument".to_owned(),
            SemanticError::UnknownFunction { name } => "unrecognized function: ".to_owned().concat(
                name.as_str(),
            ),
            SemanticError::WrongArguments { function, expected } => function.clone().concat(
                expected.words(),
            ),
            SemanticError::InvalidPattern { pattern, error } =>
                "regex(): could not parse argument: ".to_owned().concat(error_text(error).as_str()),
        }
    }
}

/// What compiling yields in the model: a predicate, or the reason why there is none.
pub type Compiled = Result<PredicateView, SemanticErrorView>;

/// The model of the outcome of compiling.
pub open spec fn outcome_view(outcome: Result<CompiledPredicate, SemanticError>) -> Compiled {
    match outcome {
        Ok(predicate) => Ok(predicate@),
        Err(error) => Err(error@),
    }
}

/// The error for a function that was given the wrong shape of arguments.
pub open spec fn wrong_arguments(function: Seq<char>, expected: Expectation) -> Compiled {
    Err(SemanticErrorView::WrongArguments { function, expected })
}

/// A function without arguments: `filter` if `args` is empty, else an error.
pub open spec fn no_arg_filter(function: Seq<char>, args: Seq<ExprView>, filter: PredicateView) -> Compiled {
    if args.len() != 0 {
        wrong_arguments(function, Expectation::NoArguments)
    } else {
        Ok(filter)
    }
}

/// What becomes of the argument of `regex` once `regex::Regex::new` has
/// answered with `outcome`.
pub open spec fn regex_outcome(pattern: Seq<char>, outcome: Result<Regex, regex::Error>) -> Compiled {
    match outcome {
        Ok(re) => Ok(PredicateView::NameMatches(re)),
        Err(error) => Err(SemanticErrorView::InvalidPattern { pattern, error }),
    }
}

/// `regex(..)`: exactly one quoted string, which must be a regular expression.
pub open spec fn regex_filter(args: Seq<ExprView>) -> Compiled {
    if args.len() != 1 {
        wrong_arguments("regex"@, Expectation::OneStringArgument)
    } else {
        match args[0] {
            ExprView::Quote(pattern) => regex_outcome(pattern, regex_new(pattern)),
            ExprView::Call(_) => wrong_arguments("regex"@, Expectation::OneStringArgument),
        }
    }
}

/// The predicate that `expr` stands for, or the first error met when its
/// parts are taken from left to right.
pub open spec fn compiled(expr: ExprView) -> Compiled
    decreases expr, 0int,
{
    match expr {
        ExprView::Quote(_) => Err(SemanticErrorView::UnexpectedString),
        ExprView::Call(call) => compiled_call(call),
    }
}

/// The predicate that `call` stands for, by the name of the function called.
pub open spec fn compiled_call(call: CallView) -> Compiled
    decreases call, 0int,
{
    let name = call.name;
    let args = call.args;
    if name == "test"@ {
        no_arg_filter(name, args, PredicateView::HasMarker("test"@))
    } else if name == "bench"@ {
        no_arg_filter(name, args, PredicateView::HasMarker("bench"@))
    } else if name == "regex"@ {
        regex_filter(args)
    } else if name == "fn"@ {
        no_arg_filter(name, args, PredicateView::IsFunctionDecl)
    } else if name == "true"@ {
        no_arg_filter(name, args, PredicateView::Always)
    } else if name == "false"@ {
        no_arg_filter(name, args, PredicateView::Never)
    } else if name == "and"@ {
        and_filter(args)
    } else if name == "or"@ {
        or_filter(args)
    } else if name == "not"@ {
        not_filter(args)
    } else {
        Err(SemanticErrorView::UnknownFunction { name })
    }
}

/// `and(..)`: one or more arguments, all of which must hold.
pub open spec fn and_filter(args: Seq<ExprView>) -> Compiled
    decreases args, 1int,
{
    if args.len() == 0 {
        wrong_arguments("and"@, Expectation::OneOrMoreArguments)
    } else {
        match compiled_list(args) {
            Ok(members) => Ok(PredicateView::AllOf(members)),
            Err(error) => Err(error),
        }
    }
}

/// `or(..)`: one or more arguments, one of which must hold.
pub open spec fn or_filter(args: Seq<ExprView>) -> Compiled
    decreases args, 1int,
{
    if args.len() == 0 {
        wrong_arguments("or"@, Expectation::OneOrMoreArguments)
    } else {
        match compiled_list(args) {
            Ok(members) => Ok(PredicateView::AnyOf(members)),
            Err(error) => Err(error),
        }
    }
}

/// `not(..)`: exactly one argument, which must not hold.
pub open spec fn not_filter(args: Seq<ExprView>) -> Compiled
    decreases args, 1int,
{
    if args.len() != 1 {
        wrong_arguments("not"@, Expectation::OneArgument)
    } else {
        match compiled(args[0]) {
            Ok(inner) => Ok(PredicateView::Not(Box::new(inner))),
            Err(error) => Err(error),
        }
    }
}

/// The predicates that `args` stand for, in order, or the error of the first
/// argument that has one.
pub open spec fn compiled_list(args: Seq<ExprView>) -> Result<Seq<PredicateView>, SemanticErrorView>
    decreases args, 0int,
{
    if args.len() == 0 {
        Ok(Seq::empty())
    } else {
        match compiled_list(args.drop_last()) {
            Err(error) => Err(error),
            Ok(front) => match compiled(args.last()) {
                Ok(last) => Ok(front.push(last)),
                Err(error) => Err(error),
            },
        }
    }
}

/// An error among the first arguments is the error of the whole list.
proof fn lemma_error_stays(args: Seq<ExprView>, n: int)
    requires
        0 <= n <= args.len(),
        compiled_list(args.take(n)) is Err,
    ensures
        compiled_list(args) == compiled_list(args.take(n)),
    decreases args.len() - n,
{
    if n < args.len() {
        assert(args.take(n + 1).drop_last() =~= args.take(n));
        lemma_error_stays(args, n + 1);
    } else {
        assert(args.take(n) =~= args);
    }
}

/// Builds the error for a function that was given the wrong shape of arguments.
fn wrong_shape(function: &str, expected: Expectation) -> (result: Result<
    CompiledPredicate,
    SemanticError,
>)
    ensures
        outcome_view(result) == wrong_arguments(function@, expected),
{
    Err(SemanticError::WrongArguments { function: function.to_owned(), expected })
}

/// Compiles an expression into the predicate that it stands for.
///
/// A quoted string is no predicate. A call is looked up by its name; each
/// function checks the shape of its arguments before it compiles them, and
/// the first error from left to right is the one returned.
pub fn expr_to_filter(expr: &Expr) -> (result: Result<CompiledPredicate, SemanticError>)
    ensures
        outcome_view(result) == compiled(expr@),
    decreases expr, 0int,
{
    match expr {
        Expr::Quote(_) => Err(SemanticError::UnexpectedString),
        Expr::Call(call) => {
            proof {
                lemma_call_args(*call);
            }
            let name = call.name.as_str();
            if same_text(name, "test") {
                mk_no_arg_filter(name, &call.args, CompiledPredicate::HasMarker("test".to_owned()))
            } else if same_text(name, "bench") {
                mk_no_arg_filter(name, &call.args, CompiledPredicate::HasMarker("bench".to_owned()))
            } else if same_text(name, "regex") {
                mk_regex_filter(&call.args)
            } else if same_text(name, "fn") {
                mk_no_arg_filter(name, &call.args, CompiledPredicate::IsFunctionDecl)
            } else if same_text(name, "true") {
                mk_no_arg_filter(name, &call.args, CompiledPredicate::Always)
            } else if same_text(name, "false") {
                mk_no_arg_filter(name, &call.args, CompiledPredicate::Never)
            } else if same_text(name, "and") {
                mk_and_filter(&call.args)
            } else if same_text(name, "or") {
                mk_or_filter(&call.args)
            } else if same_text(name, "not") {
                mk_not_filter(&call.args)
            } else {
                Err(SemanticError::UnknownFunction { name: call.name.clone() })
            }
        },
    }
}

/// Turns the answer of `regex::Regex::new` for `pattern` into a predicate on
/// names, or into the error that carries the pattern and the reason.
pub fn regex_outcome_to_filter(pattern: &str, outcome: Result<Regex, regex::Error>) -> (result: Result<
    CompiledPredicate,
    SemanticError,
>)
    ensures
        outcome_view(result) == regex_outcome(pattern@, outcome),
{
    match outcome {
        Ok(re) => Ok(CompiledPredicate::NameMatches(re)),
        Err(error) => Err(SemanticError::InvalidPattern { pattern: pattern.to_owned(), error }),
    }
}

/// Compiles the arguments of `regex`: one quoted string, handed to `regex::Regex::new`.
pub fn mk_regex_filter(args: &Vec<Expr>) -> (result: Result<CompiledPredicate, SemanticError>)
    ensures
        outcome_view(result) == regex_filter(expr_views(args@)),
{
    if args.len() != 1 {
        return wrong_shape("regex", Expectation::OneStringArgument);
    }
    match &args[0] {
        Expr::Quote(pattern) => regex_outcome_to_filter(pattern.as_str(), Regex::new(pattern.as_str())),
        Expr::Call(_) => wrong_shape("regex", Expectation::OneStringArgument),
    }
}

/// Compiles a function that takes no arguments: `filter`, unless there are arguments.
pub fn mk_no_arg_filter(name: &str, args: &Vec<Expr>, filter: CompiledPredicate) -> (result: Result<
    CompiledPredicate,
    SemanticError,
>)
    ensures
        outcome_view(result) == no_arg_filter(name@, expr_views(args@), filter@),
{
    if args.len() != 0 {
        return wrong_shape(name, Expectation::NoArguments);
    }
    Ok(filter)
}

/// Compiles the arguments of `and`.
pub fn mk_and_filter(args: &Vec<Expr>) -> (result: Result<CompiledPredicate, SemanticError>)
    ensures
        outcome_view(result) == and_filter(expr_views(args@)),
    decreases args, 1int,
{
    if args.len() == 0 {
        return wrong_shape("and", Expectation::OneOrMoreArguments);
    }
    match args_to_filters(args) {
        Ok(filters) => Ok(and(filters)),
        Err(error) => Err(error),
    }
}

/// Compiles the arguments of `or`.
pub fn mk_or_filter(args: &Vec<Expr>) -> (result: Result<CompiledPredicate, SemanticError>)
    ensures
        outcome_view(result) == or_filter(expr_views(args@)),
    decreases args, 1int,
{
    if args.len() == 0 {
        return wrong_shape("or", Expectation::OneOrMoreArguments);
    }
    match args_to_filters(args) {
        Ok(filters) => Ok(or(filters)),
        Err(error) => Err(error),
    }
}

/// Compiles the argument of `not`.
pub fn mk_not_filter(args: &Vec<Expr>) -> (result: Result<CompiledPredicate, SemanticError>)
    ensures
        outcome_view(result) == not_filter(expr_views(args@)),
    decreases args, 1int,
{
    if args.len() != 1 {
        return wrong_shape("not", Expectation::OneArgument);
    }
    assert(decreases_to!(args => args[0]));
    match expr_to_filter(&args[0]) {
        Ok(filter) => Ok(not(filter)),
        Err(error) => Err(error),
    }
}

/// Compiles each argument in turn and stops at the first that has an error.
pub fn args_to_filters(args: &Vec<Expr>) -> (result: Result<Vec<CompiledPredicate>, SemanticError>)
    ensures
        match result {
            Ok(filters) => compiled_list(expr_views(args@)) == Ok::<
                Seq<PredicateView>,
                SemanticErrorView,
            >(predicate_views(filters@)),
            Err(error) => compiled_list(expr_views(args@)) == Err::<
                Seq<PredicateView>,
                SemanticErrorView,
            >(error@),
        },
    decreases args, 0int,
{
    let mut filters: Vec<CompiledPredicate> = Vec::new();
    let ghost all = expr_views(args@);
    let mut i: usize = 0;
    assert(all.take(0) =~= Seq::<ExprView>::empty());
    assert(predicate_views(filters@) =~= Seq::<PredicateView>::empty());
    while i < args.len()
        invariant
            i <= args.len(),
            all == expr_views(args@),
            compiled_list(all.take(i as int)) == Ok::<Seq<PredicateView>, SemanticErrorView>(
                predicate_views(filters@),
            ),
        decreases args.len() - i,
    {
        let ghost sofar = filters@;
        proof {
            assert(decreases_to!(args => args[i as int]));
            assert(all.take(i + 1).drop_last() =~= all.take(i as int));
            assert(all.take(i + 1).last() == args@[i as int]@);
        }
        match expr_to_filter(&args[i]) {
            Ok(filter) => {
                filters.push(filter);
                assert(predicate_views(filters@) =~= predicate_views(sofar).push(filter@));
            },
            Err(error) => {
                proof {
                    lemma_error_stays(all, i + 1);
                }
                return Err(error);
            },
        }
        i += 1;
    }
    assert(all.take(i as int) =~= all);
    Ok(filters)
}

} // verus!
