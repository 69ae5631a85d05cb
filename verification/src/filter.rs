//! The predicates that a rule compiles to, and how they are evaluated.

use vstd::prelude::*;
use regex::Regex;
use crate::node::{is_root, looks_like_root, marker_texts, Facts, Kind, Node};
use crate::pattern::regex_is_match;
use crate::prune::Filter;

verus! {

/// A compiled rule: a boolean function of one node's name, markers and kind.
/// Where it holds, the node is to be removed.
#[derive(Debug)]
pub enum CompiledPredicate {
    /// Holds where every member holds; holds for the empty list.
    AllOf(Vec<CompiledPredicate>),
    /// Holds where at least one member holds; fails for the empty list.
    AnyOf(Vec<CompiledPredicate>),
    /// Holds where the inner predicate does not.
    Not(Box<CompiledPredicate>),
    /// Holds for every node.
    Always,
    /// Holds for no node.
    Never,
    /// Holds where the expression matches somewhere in the node's name.
    NameMatches(Regex),
    /// Holds where the node carries this marker.
    HasMarker(String),
    /// Holds for function declarations.
    IsFunctionDecl,
    /// Holds for a container with the empty name, which is how a tree's root looks.
    IsRootModule,
}

/// The mathematical model of a [`CompiledPredicate`].
pub ghost enum PredicateView {
    AllOf(Seq<PredicateView>),
    AnyOf(Seq<PredicateView>),
    Not(Box<PredicateView>),
    Always,
    Never,
    NameMatches(Regex),
    HasMarker(Seq<char>),
    IsFunctionDecl,
    IsRootModule,
}

impl PredicateView {
    /// Whether the predicate holds of a node with these facts.
    pub open spec fn holds(self, facts: Facts) -> bool
        decreases self,
    {
        match self {
            PredicateView::AllOf(members) => forall|i: int|
                0 <= i < members.len() ==> (#[trigger] members[i]).holds(facts),
            PredicateView::AnyOf(members) => exists|i: int|
                0 <= i < members.len() && (#[trigger] members[i]).holds(facts),
            PredicateView::Not(inner) => !inner.holds(facts),
            PredicateView::Always => true,
            PredicateView::Never => false,
            PredicateView::NameMatches(re) => regex_is_match(re, facts.name),
            PredicateView::HasMarker(marker) => facts.markers.contains(marker),
            PredicateView::IsFunctionDecl => facts.kind == Kind::Function,
            PredicateView::IsRootModule => is_root(facts),
        }
    }
}

/// The model of `predicate`.
pub open spec fn predicate_view(predicate: CompiledPredicate) -> PredicateView
    decreases predicate, 1int,
{
    match predicate {
        CompiledPredicate::AllOf(members) => PredicateView::AllOf(member_views(predicate, members@)),
        CompiledPredicate::AnyOf(members) => PredicateView::AnyOf(member_views(predicate, members@)),
        CompiledPredicate::Not(inner) => PredicateView::Not(Box::new(predicate_view(*inner))),
        CompiledPredicate::Always => PredicateView::Always,
        CompiledPredicate::Never => PredicateView::Never,
        CompiledPredicate::NameMatches(re) => PredicateView::NameMatches(re),
        CompiledPredicate::HasMarker(marker) => PredicateView::HasMarker(marker@),
        CompiledPredicate::IsFunctionDecl => PredicateView::IsFunctionDecl,
        CompiledPredicate::IsRootModule => PredicateView::IsRootModule,
    }
}

/// The models of the members of `parent`, in order.
pub open spec fn member_views(
    parent: CompiledPredicate,
    members: Seq<CompiledPredicate>,
) -> Seq<PredicateView>
    decreases parent, 0int,
{
    members.map_values(
        |member: CompiledPredicate|
            if decreases_to!(parent => member) {
                predicate_view(member)
            } else {
                arbitrary()
            },
    )
}

impl View for CompiledPredicate {
    type V = PredicateView;

    open spec fn view(&self) -> PredicateView {
        predicate_view(*self)
    }
}

/// The models of `predicates`, in the same order.
pub open spec fn predicate_views(predicates: Seq<CompiledPredicate>) -> Seq<PredicateView> {
    Seq::new(predicates.len(), |i: int| predicates[i]@)
}

/// The members of a list predicate are modelled one by one.
proof fn lemma_members(parent: CompiledPredicate, members: Vec<CompiledPredicate>)
    requires
        decreases_to!(parent => members),
    ensures
        member_views(parent, members@) == predicate_views(members@),
{
    assert forall|i: int| 0 <= i < members@.len() implies member_views(parent, members@)[i]
        == members@[i]@ by {
        assert(decreases_to!(members => members[i]));
    }
    assert(member_views(parent, members@) =~= predicate_views(members@));
}

/// The model of a list predicate lists the models of its members.
pub proof fn lemma_member_views(predicate: CompiledPredicate)
    ensures
        predicate matches CompiledPredicate::AllOf(members) ==> predicate@
            == PredicateView::AllOf(predicate_views(members@)),
        predicate matches CompiledPredicate::AnyOf(members) ==> predicate@
            == PredicateView::AnyOf(predicate_views(members@)),
{
    match predicate {
        CompiledPredicate::AllOf(members) => lemma_members(predicate, members),
        CompiledPredicate::AnyOf(members) => lemma_members(predicate, members),
        _ => {},
    }
}

/// A conjunction holds where each member holds, a disjunction where some member does.
pub proof fn lemma_holds_of_list(members: Seq<PredicateView>, facts: Facts)
    ensures
        PredicateView::AllOf(members).holds(facts) <==> forall|i: int|
            0 <= i < members.len() ==> (#[trigger] members[i]).holds(facts),
        PredicateView::AnyOf(members).holds(facts) <==> exists|i: int|
            0 <= i < members.len() && (#[trigger] members[i]).holds(facts),
{
    let all = PredicateView::AllOf(members);
    let any = PredicateView::AnyOf(members);
    assert(decreases_to!(all => all->AllOf_0));
    assert(decreases_to!(any => any->AnyOf_0));
    assert forall|i: int| 0 <= i < members.len() implies decreases_to!(all => members[i]) by {
        assert(decreases_to!(members => members[i]));
    }
    assert forall|i: int| 0 <= i < members.len() implies decreases_to!(any => members[i]) by {
        assert(decreases_to!(members => members[i]));
    }
}

/// Tells whether `marker` is among `markers`.
pub fn has_marker(markers: &Vec<String>, marker: &String) -> (found: bool)
    ensures
        found == marker_texts(markers@).to_set().contains(marker@),
{
    let mut i: usize = 0;
    while i < markers.len()
        invariant
            i <= markers.len(),
            forall|j: int| 0 <= j < i ==> (#[trigger] markers@[j])@ != marker@,
        decreases markers.len() - i,
    {
        if markers[i] == *marker {
            assert(marker_texts(markers@)[i as int] == marker@);
            return true;
        }
        i += 1;
    }
    assert(forall|j: int|
        0 <= j < markers.len() ==> (#[trigger] marker_texts(markers@)[j]) == markers@[j]@);
    false
}

impl Filter for CompiledPredicate {
    open spec fn removes(&self, facts: Facts) -> bool {
        self@.holds(facts)
    }

    /// Evaluates the predicate on `node`, reading its name, markers and kind
    /// only. The members of a list are tried in order, up to the first that
    /// settles the answer.
    fn apply(&self, node: &Node) -> (remove: bool)
        decreases self,
    {
        proof {
            lemma_member_views(*self);
            match self@ {
                PredicateView::AllOf(members) => lemma_holds_of_list(members, node@.facts()),
                PredicateView::AnyOf(members) => lemma_holds_of_list(members, node@.facts()),
                _ => {},
            }
        }
        match self {
            CompiledPredicate::AllOf(members) => {
                let mut i: usize = 0;
                while i < members.len()
                    invariant
                        i <= members.len(),
                        *self == CompiledPredicate::AllOf(*members),
                        self@ == PredicateView::AllOf(predicate_views(members@)),
                        forall|j: int| 0 <= j < i ==> (#[trigger] members@[j])@.holds(node@.facts()),
                    decreases members.len() - i,
                {
                    assert(decreases_to!(*members => members[i as int]));
                    if !members[i].apply(node) {
                        proof {
                            lemma_holds_of_list(predicate_views(members@), node@.facts());
                            assert(predicate_views(members@)[i as int] == members@[i as int]@);
                        }
                        return false;
                    }
                    i += 1;
                }
                true
            },
            CompiledPredicate::AnyOf(members) => {
                let mut i: usize = 0;
                while i < members.len()
                    invariant
                        i <= members.len(),
                        *self == CompiledPredicate::AnyOf(*members),
                        self@ == PredicateView::AnyOf(predicate_views(members@)),
                        forall|j: int| 0 <= j < i ==> !(#[trigger] members@[j])@.holds(node@.facts()),
                    decreases members.len() - i,
                {
                    assert(decreases_to!(*members => members[i as int]));
                    if members[i].apply(node) {
                        proof {
                            lemma_holds_of_list(predicate_views(members@), node@.facts());
                            assert(predicate_views(members@)[i as int] == members@[i as int]@);
                        }
                        return true;
                    }
                    i += 1;
                }
                false
            },
            CompiledPredicate::Not(inner) => !inner.apply(node),
            CompiledPredicate::Always => true,
            CompiledPredicate::Never => false,
            CompiledPredicate::NameMatches(re) => re.is_match(node.name.as_str()),
            CompiledPredicate::HasMarker(marker) => has_marker(&node.markers, marker),
            CompiledPredicate::IsFunctionDecl => node.kind == Kind::Function,
            CompiledPredicate::IsRootModule => looks_like_root(node),
        }
    }
}

/// The conjunction of `filters`.
pub fn and(filters: Vec<CompiledPredicate>) -> (filter: CompiledPredicate)
    ensures
        filter@ == PredicateView::AllOf(predicate_views(filters@)),
{
    let filter = CompiledPredicate::AllOf(filters);
    proof {
        lemma_member_views(filter);
    }
    filter
}

/// The disjunction of `filters`.
pub fn or(filters: Vec<CompiledPredicate>) -> (filter: CompiledPredicate)
    ensures
        filter@ == PredicateView::AnyOf(predicate_views(filters@)),
{
    let filter = CompiledPredicate::AnyOf(filters);
    proof {
        lemma_member_views(filter);
    }
    filter
}

/// The negation of `inner`.
pub fn not(inner: CompiledPredicate) -> (filter: CompiledPredicate)
    ensures
        filter@ == PredicateView::Not(Box::new(inner@)),
{
    CompiledPredicate::Not(Box::new(inner))
}

/// Negation: `Not(p)` holds of a node exactly where `p` does not.
pub proof fn lemma_not_negates(p: PredicateView, facts: Facts)
    ensures
        PredicateView::Not(Box::new(p)).holds(facts) == !p.holds(facts),
{
}

/// The empty conjunction holds of every node, the empty disjunction of none.
pub proof fn lemma_empty_lists(facts: Facts)
    ensures
        PredicateView::AllOf(Seq::empty()).holds(facts),
        !PredicateView::AnyOf(Seq::empty()).holds(facts),
{
}

} // verus!
