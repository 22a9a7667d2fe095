//! Classifying hands: what five cards are worth, and the best five out of
//! up to seven.

use vstd::prelude::*;
use crate::card::{Card, MAX_RANK};
use crate::combination::{CardCombination, Classification, CombinationKind};
use crate::error::Error;
use crate::ranking::{lemma_not_stronger_carries, lemma_outranks_trichotomy, outranks};

verus! {

/// How many different ranks there are.
pub const RANKS: usize = 13;

/// How many cards make a hand.
pub const HAND_SIZE: usize = 5;

/// The most cards a hand can be chosen from: two private cards and five
/// community cards.
pub const MAX_CARDS: usize = 7;

/// The rank of the five, the high card of the straight ace-to-five.
pub const WHEEL_HIGH: u8 = 3;

/// How many cards of the hand have the given rank.
pub open spec fn rank_count(hand: Seq<Card>, rank: int) -> nat
    decreases hand.len(),
{
    if hand.len() == 0 {
        0
    } else {
        rank_count(hand.drop_last(), rank) + if hand.last().rank() == rank {
            1nat
        } else {
            0nat
        }
    }
}

/// The ranks under `below` that exactly `times` cards of the hand have, the
/// highest first.
pub open spec fn ranks_occurring(hand: Seq<Card>, times: nat, below: nat) -> Seq<u8>
    decreases below,
{
    if below == 0 {
        Seq::empty()
    } else {
        let rank = (below - 1) as nat;
        let lower = ranks_occurring(hand, times, rank);
        if rank_count(hand, rank as int) == times {
            seq![rank as u8] + lower
        } else {
            lower
        }
    }
}

/// The ranks of the hand grouped by how often they occur: the most frequent
/// first, and among equally frequent ranks the highest first.
pub open spec fn ranks_by_frequency(hand: Seq<Card>) -> Seq<u8> {
    ranks_occurring(hand, 4, RANKS as nat) + ranks_occurring(hand, 3, RANKS as nat)
        + ranks_occurring(hand, 2, RANKS as nat) + ranks_occurring(hand, 1, RANKS as nat)
}

/// Whether all cards of the hand share one suit.
pub open spec fn is_flush(hand: Seq<Card>) -> bool {
    forall|i: int| 0 <= i < hand.len() ==> (#[trigger] hand[i]).suit() == hand[0].suit()
}

/// Whether the five consecutive ranks that start at `low` all occur in the
/// hand.
pub open spec fn has_run_from(hand: Seq<Card>, low: int) -> bool {
    &&& rank_count(hand, low) > 0
    &&& rank_count(hand, low + 1) > 0
    &&& rank_count(hand, low + 2) > 0
    &&& rank_count(hand, low + 3) > 0
    &&& rank_count(hand, low + 4) > 0
}

/// Whether the hand holds the ace, the two, the three, the four and the
/// five.
pub open spec fn is_wheel(hand: Seq<Card>) -> bool {
    &&& rank_count(hand, MAX_RANK as int) > 0
    &&& rank_count(hand, 0) > 0
    &&& rank_count(hand, 1) > 0
    &&& rank_count(hand, 2) > 0
    &&& rank_count(hand, 3) > 0
}

/// The high card of the straight in the hand, looking only at runs that
/// start under `below` and at the wheel. The wheel counts as a straight to
/// the five, not to the ace.
pub open spec fn straight_high_under(hand: Seq<Card>, below: nat) -> Option<u8>
    decreases below,
{
    if below == 0 {
        if is_wheel(hand) {
            Some(WHEEL_HIGH)
        } else {
            None
        }
    } else if has_run_from(hand, below - 1) {
        Some((below + 3) as u8)
    } else {
        straight_high_under(hand, (below - 1) as nat)
    }
}

/// The high card of the straight in the hand, if there is one. A run may
/// start at any rank from the two to the ten.
pub open spec fn straight_high(hand: Seq<Card>) -> Option<u8> {
    straight_high_under(hand, (RANKS - 4) as nat)
}

/// What five cards are worth.
///
/// The hand is classified by how many ranks occur four times, three times,
/// twice and once: 4+1 is four of a kind, 3+2 a full house, 3+1+1 three of a
/// kind, 2+2+1 two pair, 2+1+1+1 a pair. Five different ranks are a royal
/// flush, a straight flush, a flush, a straight or a high card, depending on
/// whether they form a straight and whether the suits agree. A straight of
/// any sort is decided by its high card alone; every other hand by its ranks
/// in order of frequency.
pub open spec fn classify(hand: Seq<Card>) -> Classification {
    let fours = ranks_occurring(hand, 4, RANKS as nat).len();
    let threes = ranks_occurring(hand, 3, RANKS as nat).len();
    let twos = ranks_occurring(hand, 2, RANKS as nat).len();
    let ones = ranks_occurring(hand, 1, RANKS as nat).len();
    let grouped = ranks_by_frequency(hand);
    if (fours, threes, twos, ones) == (1nat, 0nat, 0nat, 1nat) {
        Classification { kind: CombinationKind::Four, kickers: grouped }
    } else if (fours, threes, twos, ones) == (0nat, 1nat, 1nat, 0nat) {
        Classification { kind: CombinationKind::FullHouse, kickers: grouped }
    } else if (fours, threes, twos, ones) == (0nat, 1nat, 0nat, 2nat) {
        Classification { kind: CombinationKind::Three, kickers: grouped }
    } else if (fours, threes, twos, ones) == (0nat, 0nat, 2nat, 1nat) {
        Classification { kind: CombinationKind::TwoPair, kickers: grouped }
    } else if (fours, threes, twos, ones) == (0nat, 0nat, 1nat, 3nat) {
        Classification { kind: CombinationKind::Pair, kickers: grouped }
    } else {
        match straight_high(hand) {
            Some(high) => if !is_flush(hand) {
                Classification { kind: CombinationKind::Straight, kickers: seq![high] }
            } else if high == MAX_RANK {
                Classification { kind: CombinationKind::RoyalFlush, kickers: seq![high] }
            } else {
                Classification { kind: CombinationKind::FlushStreet, kickers: seq![high] }
            },
            None => if is_flush(hand) {
                Classification { kind: CombinationKind::Flush, kickers: grouped }
            } else {
                Classification { kind: CombinationKind::HighCard, kickers: grouped }
            },
        }
    }
}

/// The five cards at positions `a`, `b`, `c`, `d` and `e` of `cards`.
pub open spec fn pick(cards: Seq<Card>, a: int, b: int, c: int, d: int, e: int) -> Seq<Card> {
    seq![cards[a], cards[b], cards[c], cards[d], cards[e]]
}

/// Whether the five positions ascend and lie among the first `n`. Each choice
/// of five cards out of `n` is named by exactly one such tuple.
pub open spec fn ascending(a: int, b: int, c: int, d: int, e: int, n: int) -> bool {
    0 <= a < b < c < d < e < n
}

/// Whether `worth` is what the best hand of five among `cards` is worth:
/// some choice of five cards is classified as `worth`, and no choice of five
/// is stronger.
pub open spec fn is_best(cards: Seq<Card>, worth: Classification) -> bool {
    &&& exists|a: int, b: int, c: int, d: int, e: int|
        #![trigger pick(cards, a, b, c, d, e)]
        ascending(a, b, c, d, e, cards.len() as int) && classify(pick(cards, a, b, c, d, e)) == worth
    &&& forall|a: int, b: int, c: int, d: int, e: int|
        #![trigger pick(cards, a, b, c, d, e)]
        ascending(a, b, c, d, e, cards.len() as int) ==> !outranks(
            classify(pick(cards, a, b, c, d, e)),
            worth,
        )
}

/// What the best hand of five among `cards` is worth.
pub open spec fn best_of(cards: Seq<Card>) -> Classification {
    choose|worth: Classification| is_best(cards, worth)
}

/// Whether the first tuple of positions comes before the second when the
/// choices of five are gone through in order.
spec fn precedes(
    a: int,
    b: int,
    c: int,
    d: int,
    e: int,
    a2: int,
    b2: int,
    c2: int,
    d2: int,
    e2: int,
) -> bool {
    a < a2 || (a == a2 && (b < b2 || (b == b2 && (c < c2 || (c == c2 && (d < d2 || (d == d2 && e
        < e2)))))))
}

/// Whether no choice of five that comes before the given tuple is stronger
/// than `worth`.
spec fn unbeaten_before(
    cards: Seq<Card>,
    worth: Classification,
    a2: int,
    b2: int,
    c2: int,
    d2: int,
    e2: int,
) -> bool {
    forall|a: int, b: int, c: int, d: int, e: int|
        #![trigger pick(cards, a, b, c, d, e)]
        ascending(a, b, c, d, e, cards.len() as int) && precedes(a, b, c, d, e, a2, b2, c2, d2, e2)
            ==> !outranks(classify(pick(cards, a, b, c, d, e)), worth)
}

/// Whether the table holds, for each rank, how many cards of the hand have
/// it.
spec fn tallies(table: Seq<u8>, hand: Seq<Card>) -> bool {
    &&& table.len() == RANKS
    &&& forall|rank: int| 0 <= rank < RANKS ==> #[trigger] table[rank] == rank_count(hand, rank)
}

/// Counts the cards of each rank.
fn count_ranks(hand: &[Card; 5]) -> (table: [u8; 13])
    ensures
        tallies(table@, hand@),
{
    let mut table = [0u8; 13];
    let mut i: usize = 0;
    while i < HAND_SIZE
        invariant
            i <= HAND_SIZE,
            forall|rank: int|
                0 <= rank < RANKS ==> #[trigger] table@[rank] == rank_count(hand@.take(i as int), rank),
            forall|rank: int| 0 <= rank < RANKS ==> #[trigger] table@[rank] <= i,
        decreases HAND_SIZE - i,
    {
        let rank = hand[i].rank() as usize;
        proof {
            assert(hand@.take(i + 1).drop_last() =~= hand@.take(i as int));
        }
        table[rank] = table[rank] + 1;
        i = i + 1;
    }
    proof {
        assert(hand@.take(HAND_SIZE as int) =~= hand@);
    }
    table
}

/// Lists the ranks that exactly `times` cards have, the highest first.
fn list_ranks_occurring(table: &[u8; 13], times: u8, Ghost(hand): Ghost<Seq<Card>>) -> (ranks: Vec<u8>)
    requires
        tallies(table@, hand),
    ensures
        ranks@ == ranks_occurring(hand, times as nat, RANKS as nat),
{
    let mut ranks: Vec<u8> = Vec::new();
    let mut below: usize = RANKS;
    while below > 0
        invariant
            below <= RANKS,
            tallies(table@, hand),
            ranks@ + ranks_occurring(hand, times as nat, below as nat) == ranks_occurring(
                hand,
                times as nat,
                RANKS as nat,
            ),
        decreases below,
    {
        let ghost before = ranks@;
        below = below - 1;
        if table[below] == times {
            ranks.push(below as u8);
        }
        proof {
            let lower = ranks_occurring(hand, times as nat, below as nat);
            assert(ranks@ + lower =~= before + ranks_occurring(hand, times as nat, (below + 1) as nat));
        }
    }
    ranks
}

/// Tells whether the five ranks from `low` on all occur.
fn run_from(table: &[u8; 13], low: usize, Ghost(hand): Ghost<Seq<Card>>) -> (run: bool)
    requires
        tallies(table@, hand),
        low + 4 < RANKS,
    ensures
        run == has_run_from(hand, low as int),
{
    table[low] > 0 && table[low + 1] > 0 && table[low + 2] > 0 && table[low + 3] > 0 && table[low + 4]
        > 0
}

/// Finds the high card of the straight, if the ranks form one.
fn find_straight_high(table: &[u8; 13], Ghost(hand): Ghost<Seq<Card>>) -> (high: Option<u8>)
    requires
        tallies(table@, hand),
    ensures
        high == straight_high(hand),
{
    let mut below: usize = RANKS - 4;
    while below > 0
        invariant
            below <= RANKS - 4,
            tallies(table@, hand),
            straight_high(hand) == straight_high_under(hand, below as nat),
        decreases below,
    {
        below = below - 1;
        if run_from(table, below, Ghost(hand)) {
            return Some((below + 4) as u8);
        }
    }
    if table[12] > 0 && table[0] > 0 && table[1] > 0 && table[2] > 0 && table[3] > 0 {
        Some(WHEEL_HIGH)
    } else {
        None
    }
}

/// Tells whether the five cards share one suit.
fn same_suit(hand: &[Card; 5]) -> (flush: bool)
    ensures
        flush == is_flush(hand@),
{
    let suit = hand[0].suit();
    let mut i: usize = 1;
    while i < HAND_SIZE
        invariant
            1 <= i <= HAND_SIZE,
            suit == hand@[0].suit(),
            forall|j: int| 0 <= j < i ==> (#[trigger] hand@[j]).suit() == suit,
        decreases HAND_SIZE - i,
    {
        if hand[i].suit() != suit {
            return false;
        }
        i = i + 1;
    }
    true
}

/// Tells whether five cards form a straight: five consecutive ranks, or the
/// ace with the two, three, four and five.
pub fn is_street(cards: &[Card; 5]) -> (street: bool)
    ensures
        street == straight_high(cards@).is_some(),
{
    let table = count_ranks(cards);
    find_straight_high(&table, Ghost(cards@)).is_some()
}

impl CardCombination {
    /// Classifies a hand of five cards.
    pub fn of_five(hand: &[Card; 5]) -> (worth: CardCombination)
        ensures
            worth@ == classify(hand@),
    {
        let table = count_ranks(hand);
        let fours = list_ranks_occurring(&table, 4, Ghost(hand@));
        let threes = list_ranks_occurring(&table, 3, Ghost(hand@));
        let twos = list_ranks_occurring(&table, 2, Ghost(hand@));
        let ones = list_ranks_occurring(&table, 1, Ghost(hand@));
        let sizes = (fours.len(), threes.len(), twos.len(), ones.len());
        let mut grouped = fours;
        let mut threes = threes;
        let mut twos = twos;
        let mut ones = ones;
        grouped.append(&mut threes);
        grouped.append(&mut twos);
        grouped.append(&mut ones);
        assert(grouped@ == ranks_by_frequency(hand@));
        if sizes.0 == 1 && sizes.1 == 0 && sizes.2 == 0 && sizes.3 == 1 {
            CardCombination::new(CombinationKind::Four, grouped)
        } else if sizes.0 == 0 && sizes.1 == 1 && sizes.2 == 1 && sizes.3 == 0 {
            CardCombination::new(CombinationKind::FullHouse, grouped)
        } else if sizes.0 == 0 && sizes.1 == 1 && sizes.2 == 0 && sizes.3 == 2 {
            CardCombination::new(CombinationKind::Three, grouped)
        } else if sizes.0 == 0 && sizes.1 == 0 && sizes.2 == 2 && sizes.3 == 1 {
            CardCombination::new(CombinationKind::TwoPair, grouped)
        } else if sizes.0 == 0 && sizes.1 == 0 && sizes.2 == 1 && sizes.3 == 3 {
            CardCombination::new(CombinationKind::Pair, grouped)
        } else {
            let flush = same_suit(hand);
            match find_straight_high(&table, Ghost(hand@)) {
                Some(high) => {
                    let mut kickers: Vec<u8> = Vec::new();
                    kickers.push(high);
                    assert(kickers@ =~= seq![high]);
                    if !flush {
                        CardCombination::new(CombinationKind::Straight, kickers)
                    } else if high == MAX_RANK {
                        CardCombination::new(CombinationKind::RoyalFlush, kickers)
                    } else {
                        CardCombination::new(CombinationKind::FlushStreet, kickers)
                    }
                },
                None => if flush {
                    CardCombination::new(CombinationKind::Flush, grouped)
                } else {
                    CardCombination::new(CombinationKind::HighCard, grouped)
                },
            }
        }
    }
}

/// Tells whether some card occurs twice.
fn has_duplicates(cards: &[Card]) -> (twice: bool)
    ensures
        twice == !cards@.no_duplicates(),
{
    let n = cards.len();
    let mut i: usize = 0;
    while i < n
        invariant
            n == cards@.len(),
            i <= n,
            forall|p: int, q: int| 0 <= p < i && p < q < n ==> cards@[p] != cards@[q],
        decreases n - i,
    {
        let mut j: usize = i + 1;
        while j < n
            invariant
                n == cards@.len(),
                i < j <= n,
                forall|q: int| i < q < j ==> cards@[i as int] != cards@[q],
            decreases n - j,
        {
            if cards[i] == cards[j] {
                return true;
            }
            j = j + 1;
        }
        i = i + 1;
    }
    proof {
        assert forall|p: int, q: int| 0 <= p < n && 0 <= q < n && p != q implies cards@[p] != cards@[q] by {
            if p < q {
                assert(cards@[p] != cards@[q]);
            } else {
                assert(cards@[q] != cards@[p]);
            }
        }
    }
    false
}

/// Going on to the next choice of five keeps what was found: if nothing
/// before the tuple was stronger than the old best, the new best is at least
/// as strong as the old, and the hand at the tuple is not stronger than the
/// new best, then nothing up to and including the tuple is stronger than the
/// new best.
proof fn lemma_unbeaten_step(
    cards: Seq<Card>,
    old_best: Classification,
    new_best: Classification,
    a: int,
    b: int,
    c: int,
    d: int,
    e: int,
)
    requires
        unbeaten_before(cards, old_best, a, b, c, d, e),
        !outranks(old_best, new_best),
        !outranks(classify(pick(cards, a, b, c, d, e)), new_best),
    ensures
        unbeaten_before(cards, new_best, a, b, c, d, e + 1),
{
    assert forall|a1: int, b1: int, c1: int, d1: int, e1: int|
        #![trigger pick(cards, a1, b1, c1, d1, e1)]
        ascending(a1, b1, c1, d1, e1, cards.len() as int) && precedes(
            a1,
            b1,
            c1,
            d1,
            e1,
            a,
            b,
            c,
            d,
            e + 1,
        ) implies !outranks(classify(pick(cards, a1, b1, c1, d1, e1)), new_best) by {
        if precedes(a1, b1, c1, d1, e1, a, b, c, d, e) {
            lemma_not_stronger_carries(classify(pick(cards, a1, b1, c1, d1, e1)), old_best, new_best);
        }
    }
}

/// Finds the best hand of five among five or more cards by going through
/// every choice of five.
#[verifier::loop_isolation(false)]
fn search(cards: &[Card]) -> (best: CardCombination)
    requires
        cards@.len() >= HAND_SIZE,
    ensures
        is_best(cards@, best@),
{
    let n = cards.len();
    let first = [cards[0], cards[1], cards[2], cards[3], cards[4]];
    assert(first@ =~= pick(cards@, 0, 1, 2, 3, 4));
    let mut best = CardCombination::of_five(&first);
    let ghost mut at = (0int, 1int, 2int, 3int, 4int);
    let mut a: usize = 0;
    while a + 4 < n
        invariant
            a + 4 <= n,
            ascending(at.0, at.1, at.2, at.3, at.4, n as int),
            classify(pick(cards@, at.0, at.1, at.2, at.3, at.4)) == best@,
            unbeaten_before(cards@, best@, a as int, 0, 0, 0, 0),
        decreases n - a,
    {
        let mut b: usize = a + 1;
        while b + 3 < n
            invariant
                a < b,
                b + 3 <= n,
                ascending(at.0, at.1, at.2, at.3, at.4, n as int),
                classify(pick(cards@, at.0, at.1, at.2, at.3, at.4)) == best@,
                unbeaten_before(cards@, best@, a as int, b as int, 0, 0, 0),
            decreases n - b,
        {
            let mut c: usize = b + 1;
            while c + 2 < n
                invariant
                    b < c,
                    c + 2 <= n,
                    ascending(at.0, at.1, at.2, at.3, at.4, n as int),
                    classify(pick(cards@, at.0, at.1, at.2, at.3, at.4)) == best@,
                    unbeaten_before(cards@, best@, a as int, b as int, c as int, 0, 0),
                decreases n - c,
            {
                let mut d: usize = c + 1;
                while d + 1 < n
                    invariant
                        c < d,
                        d + 1 <= n,
                        ascending(at.0, at.1, at.2, at.3, at.4, n as int),
                        classify(pick(cards@, at.0, at.1, at.2, at.3, at.4)) == best@,
                        unbeaten_before(cards@, best@, a as int, b as int, c as int, d as int, 0),
                    decreases n - d,
                {
                    let mut e: usize = d + 1;
                    while e < n
                        invariant
                            d < e <= n,
                            ascending(at.0, at.1, at.2, at.3, at.4, n as int),
                            classify(pick(cards@, at.0, at.1, at.2, at.3, at.4)) == best@,
                            unbeaten_before(
                                cards@,
                                best@,
                                a as int,
                                b as int,
                                c as int,
                                d as int,
                                e as int,
                            ),
                        decreases n - e,
                    {
                        let hand = [cards[a], cards[b], cards[c], cards[d], cards[e]];
                        assert(hand@ =~= pick(cards@, a as int, b as int, c as int, d as int, e as int));
                        let worth = CardCombination::of_five(&hand);
                        let ghost old_best = best@;
                        proof {
                            lemma_outranks_trichotomy(worth@, old_best);
                        }
                        if worth.outranks(&best) {
                            best = worth;
                            proof {
                                at = (a as int, b as int, c as int, d as int, e as int);
                            }
                        }
                        proof {
                            lemma_outranks_trichotomy(best@, best@);
                            lemma_unbeaten_step(
                                cards@,
                                old_best,
                                best@,
                                a as int,
                                b as int,
                                c as int,
                                d as int,
                                e as int,
                            );
                        }
                        e = e + 1;
                    }
                    d = d + 1;
                }
                c = c + 1;
            }
            b = b + 1;
        }
        a = a + 1;
    }
    best
}

/// The best hand among a set of cards is determined by the cards: whatever
/// two evaluations of the same cards find, they find the same.
pub proof fn lemma_best_is_unique(cards: Seq<Card>, x: Classification, y: Classification)
    requires
        is_best(cards, x),
        is_best(cards, y),
    ensures
        x == y,
        x == best_of(cards),
{
    lemma_outranks_trichotomy(x, y);
    let z = best_of(cards);
    lemma_outranks_trichotomy(x, z);
}

impl CardCombination {
    /// Finds the best hand of five among five to seven distinct cards.
    ///
    /// Fewer than five cards or more than seven are refused as
    /// `InvalidHandSize`; an admissible number of cards among which one
    /// occurs twice is refused as `DuplicateCard`.
    pub fn best_of(cards: &[Card]) -> (res: Result<CardCombination, Error>)
        ensures
            cards@.len() < HAND_SIZE || cards@.len() > MAX_CARDS ==> res == Err::<
                CardCombination,
                Error,
            >(Error::InvalidHandSize),
            HAND_SIZE <= cards@.len() <= MAX_CARDS && !cards@.no_duplicates() ==> res == Err::<
                CardCombination,
                Error,
            >(Error::DuplicateCard),
            HAND_SIZE <= cards@.len() <= MAX_CARDS && cards@.no_duplicates() ==> res is Ok
                && res->Ok_0@ == best_of(cards@) && is_best(cards@, res->Ok_0@),
    {
        if cards.len() < HAND_SIZE || cards.len() > MAX_CARDS {
            return Err(Error::InvalidHandSize);
        }
        if has_duplicates(cards) {
            return Err(Error::DuplicateCard);
        }
        let best = search(cards);
        proof {
            lemma_best_is_unique(cards@, best@, best@);
        }
        Ok(best)
    }
}

} // verus!
