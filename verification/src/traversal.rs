//! Comparing compound types pair by pair within a budget.
//!
//! A comparison of two types either fails, or is settled, possibly after
//! further pairs of types have been compared. The outcome does not depend on
//! the order in which pairs are taken up: every pair has to be compared without
//! failure, and the number of pairs is bounded, which also bounds the
//! comparison of types that refer to themselves.
use crate::types::TypeId;
use vstd::prelude::*;

verus! {

/// The largest number of pairs that one comparison takes up.
pub const MAX_TYPE_TRAVERSAL_ITERATIONS: usize = 50;

/// An annotated type and an inferred type that are compared.
pub type Pair = (TypeId, TypeId);

/// Both types of every pair are among `size` types.
pub open spec fn pairs_in_range(pairs: Seq<Pair>, size: nat) -> bool {
    forall|i: int|
        0 <= i < pairs.len() ==> (#[trigger] pairs[i]).0 < size && pairs[i].1 < size
}

/// What comparing one pair of types gives.
pub enum Step {
    /// The types cannot be compared.
    Mismatch,
    /// The types agree as far as they go. `widened` tells whether the annotated
    /// one is wider, and `next` holds the pairs that have yet to be compared.
    Checked { widened: bool, next: Seq<Pair> },
}

/// A comparison of pairs of types.
pub type Comparison = spec_fn(Pair) -> Step;

/// What a comparison without mismatch came to.
pub struct Tally {
    /// How many pairs were compared.
    pub pairs: nat,
    /// Whether some pair was found wider.
    pub widened: bool,
}

/// Two tallies together.
pub open spec fn tally_sum(a: Option<Tally>, b: Option<Tally>) -> Option<Tally> {
    match (a, b) {
        (Some(x), Some(y)) => Some(
            Tally { pairs: x.pairs + y.pairs, widened: x.widened || y.widened },
        ),
        _ => None,
    }
}

/// The tally of a pair and of all pairs that it leads to, no more than `depth`
/// levels of them. There is none after a mismatch, nor below these levels.
pub open spec fn tally(compare: Comparison, pair: Pair, depth: nat) -> Option<Tally>
    decreases depth, 0nat,
{
    if depth == 0 {
        None
    } else {
        match compare(pair) {
            Step::Mismatch => None,
            Step::Checked { widened, next } => tally_sum(
                Some(Tally { pairs: 1, widened }),
                tally_all(compare, next, (depth - 1) as nat),
            ),
        }
    }
}

/// The tally of several pairs.
pub open spec fn tally_all(compare: Comparison, pairs: Seq<Pair>, depth: nat) -> Option<Tally>
    decreases depth, pairs.len(),
{
    if pairs.len() == 0 {
        Some(Tally { pairs: 0, widened: false })
    } else {
        tally_sum(
            tally_all(compare, pairs.drop_last(), depth),
            tally(compare, pairs.last(), depth),
        )
    }
}

/// All pairs compare without mismatch, there are no more than `budget` of them,
/// those they lead to included, and something is wider.
pub open spec fn settled(
    compare: Comparison,
    pairs: Seq<Pair>,
    budget: nat,
    widened: bool,
) -> bool {
    match tally_all(compare, pairs, budget) {
        Some(found) => found.pairs <= budget && (widened || found.widened),
        None => false,
    }
}

/// The comparison of one pair of types finds the annotated one wider.
pub open spec fn finds_wider(compare: Comparison, pair: Pair) -> bool {
    settled(compare, seq![pair], MAX_TYPE_TRAVERSAL_ITERATIONS as nat, false)
}

/// The comparison of one pair of types finds no mismatch.
pub open spec fn agrees(compare: Comparison, pair: Pair) -> bool {
    settled(compare, seq![pair], MAX_TYPE_TRAVERSAL_ITERATIONS as nat, true)
}

/// More levels do not change a tally.
pub(crate) proof fn lemma_tally_deeper(compare: Comparison, pair: Pair, depth: nat, deeper: nat)
    requires
        depth <= deeper,
        tally(compare, pair, depth) is Some,
    ensures
        tally(compare, pair, deeper) == tally(compare, pair, depth),
    decreases depth, 0nat,
{
    if let Step::Checked { widened, next } = compare(pair) {
        lemma_tally_all_deeper(compare, next, (depth - 1) as nat, (deeper - 1) as nat);
    }
}

pub(crate) proof fn lemma_tally_all_deeper(
    compare: Comparison,
    pairs: Seq<Pair>,
    depth: nat,
    deeper: nat,
)
    requires
        depth <= deeper,
        tally_all(compare, pairs, depth) is Some,
    ensures
        tally_all(compare, pairs, deeper) == tally_all(compare, pairs, depth),
    decreases depth, pairs.len(),
{
    if pairs.len() > 0 {
        lemma_tally_all_deeper(compare, pairs.drop_last(), depth, deeper);
        lemma_tally_deeper(compare, pairs.last(), depth, deeper);
    }
}

/// There are at least as many pairs as levels.
proof fn lemma_tally_shallow(compare: Comparison, pair: Pair, depth: nat)
    requires
        tally(compare, pair, depth) is Some,
    ensures
        tally(compare, pair, tally(compare, pair, depth)->0.pairs) == tally(compare, pair, depth),
    decreases depth, 0nat,
{
    if let Step::Checked { widened, next } = compare(pair) {
        lemma_tally_all_shallow(compare, next, (depth - 1) as nat);
        let inner = tally_all(compare, next, (depth - 1) as nat)->0;
        assert((inner.pairs + 1 - 1) as nat == inner.pairs);
    }
}

proof fn lemma_tally_all_shallow(compare: Comparison, pairs: Seq<Pair>, depth: nat)
    requires
        tally_all(compare, pairs, depth) is Some,
    ensures
        tally_all(compare, pairs, tally_all(compare, pairs, depth)->0.pairs) == tally_all(
            compare,
            pairs,
            depth,
        ),
    decreases depth, pairs.len(),
{
    if pairs.len() > 0 {
        let first = tally_all(compare, pairs.drop_last(), depth)->0;
        let last = tally(compare, pairs.last(), depth)->0;
        lemma_tally_all_shallow(compare, pairs.drop_last(), depth);
        lemma_tally_shallow(compare, pairs.last(), depth);
        lemma_tally_all_deeper(
            compare,
            pairs.drop_last(),
            first.pairs,
            first.pairs + last.pairs,
        );
        lemma_tally_deeper(compare, pairs.last(), last.pairs, first.pairs + last.pairs);
    }
}

/// A tally of no more than `budget` pairs needs no more than `budget` levels.
pub(crate) proof fn lemma_tally_all_budget(
    compare: Comparison,
    pairs: Seq<Pair>,
    depth: nat,
    budget: nat,
)
    requires
        tally_all(compare, pairs, depth) is Some,
        tally_all(compare, pairs, depth)->0.pairs <= budget,
    ensures
        tally_all(compare, pairs, budget) == tally_all(compare, pairs, depth),
{
    lemma_tally_all_shallow(compare, pairs, depth);
    lemma_tally_all_deeper(
        compare,
        pairs,
        tally_all(compare, pairs, depth)->0.pairs,
        budget,
    );
}

/// The tally of pairs is the sum of the tallies of their parts.
pub(crate) proof fn lemma_tally_all_concat(
    compare: Comparison,
    first: Seq<Pair>,
    second: Seq<Pair>,
    depth: nat,
)
    ensures
        tally_all(compare, first + second, depth) == tally_sum(
            tally_all(compare, first, depth),
            tally_all(compare, second, depth),
        ),
    decreases second.len(),
{
    if second.len() == 0 {
        assert(first + second =~= first);
    } else {
        assert((first + second).drop_last() =~= first + second.drop_last());
        assert((first + second).last() == second.last());
        lemma_tally_all_concat(compare, first, second.drop_last(), depth);
    }
}

/// Without budget only the empty list of pairs is settled.
pub(crate) proof fn lemma_settled_exhausted(compare: Comparison, pairs: Seq<Pair>, widened: bool)
    requires
        pairs.len() > 0,
    ensures
        !settled(compare, pairs, 0, widened),
{
    assert(tally(compare, pairs.last(), 0) is None);
}

/// Taking up the last pair replaces it with the pairs that it leads to.
pub(crate) proof fn lemma_settled_step(
    compare: Comparison,
    pairs: Seq<Pair>,
    budget: nat,
    widened: bool,
)
    requires
        pairs.len() > 0,
        budget > 0,
    ensures
        settled(compare, pairs, budget, widened) == match compare(pairs.last()) {
            Step::Mismatch => false,
            Step::Checked { widened: wider, next } => settled(
                compare,
                pairs.drop_last() + next,
                (budget - 1) as nat,
                widened || wider,
            ),
        },
{
    assert(tally(compare, pairs.last(), budget) == match compare(pairs.last()) {
        Step::Mismatch => None,
        Step::Checked { widened: wider, next } => tally_sum(
            Some(Tally { pairs: 1, widened: wider }),
            tally_all(compare, next, (budget - 1) as nat),
        ),
    });
    if let Step::Checked { widened: wider, next } = compare(pairs.last()) {
        let rest = pairs.drop_last();
        let less = (budget - 1) as nat;
        lemma_tally_all_concat(compare, rest, next, less);
        if tally_all(compare, rest, less) is Some {
            lemma_tally_all_deeper(compare, rest, less, budget);
        }
        if settled(compare, pairs, budget, widened) {
            lemma_tally_all_budget(compare, rest, budget, less);
        }
    }
}

} // verus!
