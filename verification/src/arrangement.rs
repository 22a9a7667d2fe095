//! The worth of a hand does not depend on the order in which its cards are
//! given.

use vstd::prelude::*;
use crate::card::Card;
use crate::classifier::{
    ascending, best_of, classify, has_run_from, is_best, is_flush, is_wheel, lemma_best_is_unique, pick,
    rank_count, ranks_occurring, straight_high_under,
};
use crate::combination::Classification;
use crate::ranking::outranks;

verus! {

/// One if the card has the rank, zero if not.
pub open spec fn counts_as(card: Card, rank: int) -> nat {
    if card.rank() == rank {
        1
    } else {
        0
    }
}

/// In a hand of five, the cards of a rank are counted card by card.
pub proof fn lemma_rank_count_of_five(hand: Seq<Card>, rank: int)
    requires
        hand.len() == 5,
    ensures
        rank_count(hand, rank) == counts_as(hand[0], rank) + counts_as(hand[1], rank) + counts_as(
            hand[2],
            rank,
        ) + counts_as(hand[3], rank) + counts_as(hand[4], rank),
{
    reveal_with_fuel(rank_count, 6);
    let four = hand.drop_last();
    let three = four.drop_last();
    let two = three.drop_last();
    let one = two.drop_last();
    assert(one.drop_last().len() == 0);
}

/// The ranks that occur a given number of times depend on the hand only
/// through how often each rank occurs.
pub proof fn lemma_ranks_occurring_by_counts(g: Seq<Card>, h: Seq<Card>, times: nat, below: nat)
    requires
        forall|rank: int| #[trigger] rank_count(g, rank) == rank_count(h, rank),
    ensures
        ranks_occurring(g, times, below) == ranks_occurring(h, times, below),
    decreases below,
{
    if below > 0 {
        lemma_ranks_occurring_by_counts(g, h, times, (below - 1) as nat);
        assert(rank_count(g, below - 1) == rank_count(h, below - 1));
    }
}

/// Whether a hand holds a straight, and up to which card, depends on the
/// hand only through how often each rank occurs.
pub proof fn lemma_straight_by_counts(g: Seq<Card>, h: Seq<Card>, below: nat)
    requires
        forall|rank: int| #[trigger] rank_count(g, rank) == rank_count(h, rank),
    ensures
        straight_high_under(g, below) == straight_high_under(h, below),
    decreases below,
{
    assert(is_wheel(g) == is_wheel(h)) by {
        assert(rank_count(g, 12) == rank_count(h, 12));
        assert(rank_count(g, 0) == rank_count(h, 0));
        assert(rank_count(g, 1) == rank_count(h, 1));
        assert(rank_count(g, 2) == rank_count(h, 2));
        assert(rank_count(g, 3) == rank_count(h, 3));
    }
    if below > 0 {
        lemma_straight_by_counts(g, h, (below - 1) as nat);
        let low = below - 1;
        assert(has_run_from(g, low) == has_run_from(h, low)) by {
            assert(rank_count(g, low) == rank_count(h, low));
            assert(rank_count(g, low + 1) == rank_count(h, low + 1));
            assert(rank_count(g, low + 2) == rank_count(h, low + 2));
            assert(rank_count(g, low + 3) == rank_count(h, low + 3));
            assert(rank_count(g, low + 4) == rank_count(h, low + 4));
        }
    }
}

/// Two hands in which every rank occurs equally often, and which are both
/// of one suit or both not, are worth the same.
pub proof fn lemma_classify_by_counts(g: Seq<Card>, h: Seq<Card>)
    requires
        forall|rank: int| #[trigger] rank_count(g, rank) == rank_count(h, rank),
        is_flush(g) == is_flush(h),
    ensures
        classify(g) == classify(h),
{
    lemma_ranks_occurring_by_counts(g, h, 4, 13);
    lemma_ranks_occurring_by_counts(g, h, 3, 13);
    lemma_ranks_occurring_by_counts(g, h, 2, 13);
    lemma_ranks_occurring_by_counts(g, h, 1, 13);
    lemma_straight_by_counts(g, h, 9);
}

/// The sequence with the cards at positions `i` and `j` exchanged.
pub open spec fn exchanged(cards: Seq<Card>, i: int, j: int) -> Seq<Card> {
    cards.update(i, cards[j]).update(j, cards[i])
}

/// Exchanging two cards of a hand of five does not change what it is worth.
pub proof fn lemma_classify_exchanged(hand: Seq<Card>, i: int, j: int)
    requires
        hand.len() == 5,
        0 <= i < 5,
        0 <= j < 5,
    ensures
        classify(exchanged(hand, i, j)) == classify(hand),
{
    let other = exchanged(hand, i, j);
    assert forall|rank: int| #[trigger] rank_count(other, rank) == rank_count(hand, rank) by {
        lemma_rank_count_of_five(hand, rank);
        lemma_rank_count_of_five(other, rank);
    }
    assert(is_flush(other) == is_flush(hand)) by {
        if is_flush(hand) {
            assert forall|k: int| 0 <= k < 5 implies (#[trigger] other[k]).suit() == other[0].suit() by {
                assert(hand[i].suit() == hand[0].suit());
                assert(hand[j].suit() == hand[0].suit());
                assert(hand[k].suit() == hand[0].suit());
            }
        }
        if is_flush(other) {
            assert forall|k: int| 0 <= k < 5 implies (#[trigger] hand[k]).suit() == hand[0].suit() by {
                assert(other[i].suit() == other[0].suit());
                assert(other[j].suit() == other[0].suit());
                assert(other[k].suit() == other[0].suit());
            }
        }
    }
    lemma_classify_by_counts(other, hand);
}

/// Where position `i` is found again once the neighbours `k` and `k + 1`
/// have changed places.
pub open spec fn moved(i: int, k: int) -> int {
    if i == k {
        k + 1
    } else if i == k + 1 {
        k
    } else {
        i
    }
}

/// Every choice of five survives an exchange of two neighbouring cards:
/// after the exchange some choice of five is worth what the given choice was
/// worth before.
pub proof fn lemma_pick_after_exchange(
    cards: Seq<Card>,
    k: int,
    a: int,
    b: int,
    c: int,
    d: int,
    e: int,
) -> (t: (int, int, int, int, int))
    requires
        0 <= k,
        k + 1 < cards.len(),
        ascending(a, b, c, d, e, cards.len() as int),
    ensures
        ascending(t.0, t.1, t.2, t.3, t.4, cards.len() as int),
        classify(pick(exchanged(cards, k, k + 1), t.0, t.1, t.2, t.3, t.4)) == classify(
            pick(cards, a, b, c, d, e),
        ),
{
    let after = exchanged(cards, k, k + 1);
    let before_hand = pick(cards, a, b, c, d, e);
    if a == k && b == k + 1 {
        assert(pick(after, a, b, c, d, e) =~= exchanged(before_hand, 0, 1));
        lemma_classify_exchanged(before_hand, 0, 1);
        (a, b, c, d, e)
    } else if b == k && c == k + 1 {
        assert(pick(after, a, b, c, d, e) =~= exchanged(before_hand, 1, 2));
        lemma_classify_exchanged(before_hand, 1, 2);
        (a, b, c, d, e)
    } else if c == k && d == k + 1 {
        assert(pick(after, a, b, c, d, e) =~= exchanged(before_hand, 2, 3));
        lemma_classify_exchanged(before_hand, 2, 3);
        (a, b, c, d, e)
    } else if d == k && e == k + 1 {
        assert(pick(after, a, b, c, d, e) =~= exchanged(before_hand, 3, 4));
        lemma_classify_exchanged(before_hand, 3, 4);
        (a, b, c, d, e)
    } else {
        let t = (moved(a, k), moved(b, k), moved(c, k), moved(d, k), moved(e, k));
        assert(pick(after, t.0, t.1, t.2, t.3, t.4) =~= before_hand);
        t
    }
}

/// Exchanging two neighbouring cards does not change what the best hand of
/// five among the cards is worth.
pub proof fn lemma_best_after_exchange(cards: Seq<Card>, k: int, worth: Classification)
    requires
        0 <= k,
        k + 1 < cards.len(),
        is_best(cards, worth),
    ensures
        is_best(exchanged(cards, k, k + 1), worth),
{
    let after = exchanged(cards, k, k + 1);
    assert(exchanged(after, k, k + 1) =~= cards);
    let (a, b, c, d, e) = choose|a: int, b: int, c: int, d: int, e: int|
        #![trigger pick(cards, a, b, c, d, e)]
        ascending(a, b, c, d, e, cards.len() as int) && classify(pick(cards, a, b, c, d, e)) == worth;
    let t = lemma_pick_after_exchange(cards, k, a, b, c, d, e);
    assert(ascending(t.0, t.1, t.2, t.3, t.4, after.len() as int) && classify(
        pick(after, t.0, t.1, t.2, t.3, t.4),
    ) == worth);
    assert forall|a: int, b: int, c: int, d: int, e: int|
        #![trigger pick(after, a, b, c, d, e)]
        ascending(a, b, c, d, e, after.len() as int) implies !outranks(
        classify(pick(after, a, b, c, d, e)),
        worth,
    ) by {
        let s = lemma_pick_after_exchange(after, k, a, b, c, d, e);
        assert(classify(pick(cards, s.0, s.1, s.2, s.3, s.4)) == classify(pick(after, a, b, c, d, e)));
    }
}

/// Two arrangements of the same distinct cards that already agree on their
/// first `k` cards have the same best hand. `at` says where the card that
/// the second arrangement has at position `k` stands in the first.
proof fn lemma_best_ignores_order_from(
    xs: Seq<Card>,
    ys: Seq<Card>,
    k: int,
    at: int,
    worth: Classification,
)
    requires
        xs.len() == ys.len(),
        xs.no_duplicates(),
        ys.no_duplicates(),
        forall|i: int| 0 <= i < ys.len() ==> xs.contains(#[trigger] ys[i]),
        0 <= k <= at < xs.len(),
        forall|i: int| 0 <= i < k ==> xs[i] == ys[i],
        xs[at] == ys[k],
        is_best(xs, worth),
    ensures
        is_best(ys, worth),
    decreases xs.len() - k, at - k,
{
    if at > k {
        let nearer = exchanged(xs, at - 1, at);
        lemma_best_after_exchange(xs, at - 1, worth);
        assert forall|i: int| 0 <= i < ys.len() implies nearer.contains(#[trigger] ys[i]) by {
            let j = choose|j: int| 0 <= j < xs.len() && xs[j] == ys[i];
            assert(nearer[moved(j, at - 1)] == ys[i]);
        }
        lemma_best_ignores_order_from(nearer, ys, k, at - 1, worth);
    } else if k + 1 == xs.len() {
        assert(xs =~= ys);
    } else {
        let next = choose|j: int| 0 <= j < xs.len() && xs[j] == ys[k + 1];
        assert(xs.contains(ys[k + 1]));
        if next <= k {
            assert(xs[next] == ys[next]);
        }
        lemma_best_ignores_order_from(xs, ys, k + 1, next, worth);
    }
}

/// What the best hand among distinct cards is worth does not depend on the
/// order in which the cards are given: if it is `worth` for one arrangement
/// of the cards, it is `worth` for every other.
pub proof fn lemma_best_ignores_order(xs: Seq<Card>, ys: Seq<Card>, worth: Classification)
    requires
        xs.no_duplicates(),
        xs.to_multiset() == ys.to_multiset(),
        is_best(xs, worth),
    ensures
        is_best(ys, worth),
        best_of(ys) == best_of(xs),
{
    lemma_best_is_unique(xs, worth, worth);
    xs.to_multiset_ensures();
    ys.to_multiset_ensures();
    xs.lemma_multiset_has_no_duplicates();
    ys.lemma_multiset_has_no_duplicates_conv();
    assert forall|i: int| 0 <= i < ys.len() implies xs.contains(#[trigger] ys[i]) by {
        assert(ys.contains(ys[i]));
        assert(ys.to_multiset().count(ys[i]) > 0);
        assert(xs.to_multiset().count(ys[i]) > 0);
    }
    if xs.len() > 0 {
        let first = choose|j: int| 0 <= j < xs.len() && xs[j] == ys[0];
        assert(xs.contains(ys[0]));
        lemma_best_ignores_order_from(xs, ys, 0, first, worth);
        lemma_best_is_unique(ys, worth, worth);
    }
}

} // verus!
