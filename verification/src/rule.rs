//! From the text of a rule to the filter that a tree is pruned with.

use vstd::prelude::*;
use vstd::slice::slice_subrange;
use vstd::utf8::{
    decode_utf8, decode_utf8_split, encode_utf8, encode_utf8_decode_utf8, encode_utf8_valid_utf8,
    is_char_boundary_start_end_of_seq, valid_utf8_split,
};
use crate::compile::{compiled, expr_to_filter, SemanticError, SemanticErrorView};
use crate::expr::{Call, CallView, Expr, ExprView};
use crate::filter::{
    and, lemma_holds_of_list, not, predicate_views, CompiledPredicate, PredicateView,
};
use crate::node::{is_root, Facts, Node};
use crate::parser::{
    call, lemma_parsed_call_bounds, lemma_parsed_call_on_boundary, parsed_call,
};
use crate::prune::{modify_ast, pruned};
use crate::text::{bytes_to_string, text_of};

verus! {

/// Why a text is not a rule. Both kinds carry the offset of the offending
/// byte and the text from there to the end.
#[derive(Debug, PartialEq, Eq)]
pub enum GrammarError {
    /// The text cannot be read as a call: reading stopped at `position`.
    Malformed { position: usize, fragment: String },
    /// A call was read, and ended at `position`, but the text goes on.
    TrailingInput { position: usize, fragment: String },
}

/// The mathematical model of a [`GrammarError`].
pub ghost enum GrammarErrorView {
    Malformed { position: int, fragment: Seq<char> },
    TrailingInput { position: int, fragment: Seq<char> },
}

impl View for GrammarError {
    type V = GrammarErrorView;

    open spec fn view(&self) -> GrammarErrorView {
        match *self {
            GrammarError::Malformed { position, fragment } => GrammarErrorView::Malformed {
                position: position as int,
                fragment: fragment@,
            },
            GrammarError::TrailingInput { position, fragment } => GrammarErrorView::TrailingInput {
                position: position as int,
                fragment: fragment@,
            },
        }
    }
}

/// Why the text of a rule gave no filter.
#[derive(Debug, PartialEq)]
pub enum FilterError {
    /// The text is not in the grammar.
    Grammar(GrammarError),
    /// The text reads well and means nothing.
    Semantic(SemanticError),
}

/// The mathematical model of a [`FilterError`].
pub ghost enum FilterErrorView {
    Grammar(GrammarErrorView),
    Semantic(SemanticErrorView),
}

impl View for FilterError {
    type V = FilterErrorView;

    open spec fn view(&self) -> FilterErrorView {
        match *self {
            FilterError::Grammar(error) => FilterErrorView::Grammar(error@),
            FilterError::Semantic(error) => FilterErrorView::Semantic(error@),
        }
    }
}

/// The text of `s` from `position` to its end.
pub open spec fn fragment_from(s: Seq<u8>, position: int) -> Seq<char> {
    text_of(s.subrange(position, s.len() as int))
}

/// The call that the whole of `s` reads as. The call starts at the first
/// byte; blank space may follow it, and nothing else.
pub open spec fn parsed_rule(s: Seq<u8>) -> Result<CallView, GrammarErrorView> {
    match parsed_call(s, 0) {
        Ok((call, end)) => {
            if end == s.len() {
                Ok(call)
            } else {
                Err(GrammarErrorView::TrailingInput { position: end, fragment: fragment_from(s, end) })
            }
        },
        Err(at) => Err(GrammarErrorView::Malformed { position: at, fragment: fragment_from(s, at) }),
    }
}

/// The filter that the rule `s` stands for.
pub open spec fn parsed_filter(s: Seq<u8>) -> Result<PredicateView, FilterErrorView> {
    match parsed_rule(s) {
        Ok(call) => match compiled(ExprView::Call(call)) {
            Ok(filter) => Ok(filter),
            Err(error) => Err(FilterErrorView::Semantic(error)),
        },
        Err(error) => Err(FilterErrorView::Grammar(error)),
    }
}

/// The filter to prune with: without a rule, one that removes nothing; with
/// a rule, one that removes what the rule selects, except what looks like
/// the root of a tree.
pub open spec fn filter_of(rule: Option<Seq<u8>>) -> Result<PredicateView, FilterErrorView> {
    match rule {
        None => Ok(PredicateView::Never),
        Some(s) => match parsed_filter(s) {
            Ok(filter) => Ok(
                PredicateView::AllOf(
                    seq![PredicateView::Not(Box::new(PredicateView::IsRootModule)), filter],
                ),
            ),
            Err(error) => Err(error),
        },
    }
}

/// The bytes of the rule that `rule` holds, if it holds one.
pub open spec fn rule_bytes(rule: Option<&str>) -> Option<Seq<u8>> {
    match rule {
        None => None,
        Some(text) => Some(encode_utf8(text@)),
    }
}

/// Reads the whole of `filter` as one call.
pub fn parse(filter: &str) -> (result: Result<Call, GrammarError>)
    ensures
        match result {
            Ok(call) => parsed_rule(encode_utf8(filter@)) == Ok::<CallView, GrammarErrorView>(call@),
            Err(error) => parsed_rule(encode_utf8(filter@)) == Err::<CallView, GrammarErrorView>(
                error@,
            ),
        },
{
    let input = filter.as_bytes();
    proof {
        lemma_parsed_call_bounds(input@, 0);
    }
    match call(input, 0) {
        Ok((call, end)) => {
            if end == input.len() {
                Ok(call)
            } else {
                let fragment = bytes_to_string(slice_subrange(input, end, input.len()));
                Err(GrammarError::TrailingInput { position: end, fragment })
            }
        },
        Err(position) => {
            let fragment = bytes_to_string(slice_subrange(input, position, input.len()));
            Err(GrammarError::Malformed { position, fragment })
        },
    }
}

/// The model of what [`parse_filter`] and [`env_to_filter`] return.
pub open spec fn filter_result_view(result: Result<CompiledPredicate, FilterError>) -> Result<
    PredicateView,
    FilterErrorView,
> {
    match result {
        Ok(filter) => Ok(filter@),
        Err(error) => Err(error@),
    }
}

/// Parses `filter` and compiles it. The top-level expression must be a call.
pub fn parse_filter(filter: &str) -> (result: Result<CompiledPredicate, FilterError>)
    ensures
        filter_result_view(result) == parsed_filter(encode_utf8(filter@)),
{
    match parse(filter) {
        Ok(call) => match expr_to_filter(&Expr::Call(call)) {
            Ok(filter) => Ok(filter),
            Err(error) => Err(FilterError::Semantic(error)),
        },
        Err(error) => Err(FilterError::Grammar(error)),
    }
}

/// Builds the filter to prune with from the configured rule, if there is one.
///
/// Without a rule nothing is filtered. With one, the rule is parsed and
/// compiled, and the result is kept from ever selecting the root module.
pub fn env_to_filter(rule: Option<&str>) -> (result: Result<CompiledPredicate, FilterError>)
    ensures
        filter_result_view(result) == filter_of(rule_bytes(rule)),
{
    match rule {
        Some(text) => match parse_filter(text) {
            Ok(filter) => {
                let ghost inner = filter@;
                let members = vec![not(CompiledPredicate::IsRootModule), filter];
                assert(predicate_views(members@) =~= seq![
                    PredicateView::Not(Box::new(PredicateView::IsRootModule)),
                    inner,
                ]);
                Ok(and(members))
            },
            Err(error) => Err(error),
        },
        None => Ok(CompiledPredicate::Never),
    }
}

/// One whole pass: builds the filter from the configured rule and prunes the
/// tree below `root` with it. A rule that is wrong is reported before
/// anything is changed: the tree is then left as it was.
pub fn prune_with_rule(rule: Option<&str>, root: &mut Node) -> (result: Result<(), FilterError>)
    ensures
        match filter_of(rule_bytes(rule)) {
            Ok(view) => result is Ok && (exists|filter: CompiledPredicate|
                filter@ == view && final(root)@ == pruned(&filter, old(root)@)),
            Err(error) => result matches Err(e) && e@ == error && *final(root) == *old(root),
        },
{
    match env_to_filter(rule) {
        Ok(filter) => {
            modify_ast(&filter, root);
            Ok(())
        },
        Err(error) => Err(error),
    }
}

/// The fragment of a grammar error is the end of the rule: the text of
/// `rule` from some character on.
pub proof fn lemma_fragment_is_tail(rule: Seq<char>)
    ensures
        match parsed_rule(encode_utf8(rule)) {
            Ok(_) => true,
            Err(GrammarErrorView::Malformed { position, fragment }) => fragment.len() <= rule.len()
                && fragment == rule.skip(rule.len() - fragment.len()),
            Err(GrammarErrorView::TrailingInput { position, fragment }) => 0 < fragment.len()
                <= rule.len() && fragment == rule.skip(rule.len() - fragment.len()),
        },
{
    let s = encode_utf8(rule);
    encode_utf8_valid_utf8(rule);
    encode_utf8_decode_utf8(rule);
    is_char_boundary_start_end_of_seq(s);
    lemma_parsed_call_bounds(s, 0);
    lemma_parsed_call_on_boundary(s, 0);
    let at = match parsed_call(s, 0) {
        Ok((_, end)) => end,
        Err(at) => at,
    };
    valid_utf8_split(s, at);
    decode_utf8_split(s, at);
    let head = decode_utf8(s.subrange(0, at));
    let tail = decode_utf8(s.subrange(at, s.len() as int));
    assert(rule == head + tail);
    assert(tail =~= rule.skip(rule.len() - tail.len()));
    if at < s.len() {
        assert(s.subrange(at, s.len() as int).len() > 0);
        assert(tail.len() > 0);
    }
}

/// No filter that [`env_to_filter`] builds removes a container with the
/// empty name, which is how the root of a tree looks.
pub proof fn lemma_root_is_kept(rule: Option<Seq<u8>>, facts: Facts)
    requires
        is_root(facts),
    ensures
        filter_of(rule) matches Ok(filter) ==> !filter.holds(facts),
{
    if let Ok(filter) = filter_of(rule) {
        if let PredicateView::AllOf(members) = filter {
            lemma_holds_of_list(members, facts);
            assert(PredicateView::IsRootModule.holds(facts));
            assert(members[0] == PredicateView::Not(Box::new(PredicateView::IsRootModule)));
            assert(!members[0].holds(facts));
        }
    }
}

} // verus!
