//! The total order over classified hands: by kind, then by tie-break ranks.

use vstd::prelude::*;
use std::cmp::Ordering;
use crate::combination::{CardCombination, Classification, CombinationKind};

verus! {

/// Whether the ranks `a` win against the ranks `b` when both are read from
/// position `i` on: at the first position where they differ the higher rank
/// wins, and ranks that run on where the others have ended win as well.
pub open spec fn kickers_outrank_from(a: Seq<u8>, b: Seq<u8>, i: int) -> bool
    decreases a.len() - i,
{
    if i < 0 || i >= a.len() {
        false
    } else if i >= b.len() {
        true
    } else if a[i] != b[i] {
        a[i] > b[i]
    } else {
        kickers_outrank_from(a, b, i + 1)
    }
}

/// Whether the tie-break ranks `a` win against the tie-break ranks `b`.
pub open spec fn kickers_outrank(a: Seq<u8>, b: Seq<u8>) -> bool {
    kickers_outrank_from(a, b, 0)
}

/// Whether hand `a` is strictly stronger than hand `b`: its kind has the
/// higher precedence, or the kinds agree and its tie-break ranks win.
pub open spec fn outranks(a: Classification, b: Classification) -> bool {
    a.kind.precedence() > b.kind.precedence() || (a.kind == b.kind && kickers_outrank(
        a.kickers,
        b.kickers,
    ))
}

/// How hand `a` stands to hand `b`: `Greater` if it is stronger, `Less` if
/// it is weaker, `Equal` if the two are the same hand.
pub open spec fn standing(a: Classification, b: Classification) -> Ordering {
    if outranks(a, b) {
        Ordering::Greater
    } else if outranks(b, a) {
        Ordering::Less
    } else {
        Ordering::Equal
    }
}

/// Whether the ranks in `a` win against the ranks in `b`.
fn ranks_outrank(a: &Vec<u8>, b: &Vec<u8>) -> (wins: bool)
    ensures
        wins == kickers_outrank(a@, b@),
{
    let mut i: usize = 0;
    while i < a.len() && i < b.len()
        invariant
            i <= a.len(),
            i <= b.len(),
            kickers_outrank(a@, b@) == kickers_outrank_from(a@, b@, i as int),
        decreases a.len() - i,
    {
        if a[i] != b[i] {
            return a[i] > b[i];
        }
        i = i + 1;
    }
    i < a.len()
}

impl CardCombination {
    /// Whether this hand is strictly stronger than the other.
    pub fn outranks(&self, other: &CardCombination) -> (wins: bool)
        ensures
            wins == outranks(self@, other@),
    {
        let mine = self.combination_rank();
        let theirs = other.combination_rank();
        proof {
            CombinationKind::lemma_precedence_injective(self@.kind, other@.kind);
        }
        if mine != theirs {
            mine > theirs
        } else {
            ranks_outrank(self.kickers(), other.kickers())
        }
    }

    /// Compares two hands: by kind, then rank by rank through the tie-break
    /// ranks. `Equal` is an exact tie: same kind, same tie-break ranks.
    pub fn compare(&self, other: &CardCombination) -> (order: Ordering)
        ensures
            order == standing(self@, other@),
            order == Ordering::Greater <==> outranks(self@, other@),
            order == Ordering::Less <==> outranks(other@, self@),
            order == Ordering::Equal <==> self@ == other@,
    {
        proof {
            lemma_outranks_trichotomy(self@, other@);
        }
        if self.outranks(other) {
            Ordering::Greater
        } else if other.outranks(self) {
            Ordering::Less
        } else {
            Ordering::Equal
        }
    }
}

impl PartialOrd for CardCombination {
    /// Compares two hands as `compare` does; any two hands can be compared.
    fn partial_cmp(&self, other: &CardCombination) -> (order: Option<Ordering>) {
        Some(self.compare(other))
    }
}

impl vstd::std_specs::cmp::PartialOrdSpecImpl for CardCombination {
    open spec fn obeys_partial_cmp_spec() -> bool {
        true
    }

    open spec fn partial_cmp_spec(&self, other: &CardCombination) -> Option<Ordering> {
        Some(standing(self@, other@))
    }
}

/// Read from any position on, no ranks win against themselves.
pub proof fn lemma_kickers_irreflexive(a: Seq<u8>, i: int)
    ensures
        !kickers_outrank_from(a, a, i),
    decreases a.len() - i,
{
    if 0 <= i < a.len() {
        lemma_kickers_irreflexive(a, i + 1);
    }
}

/// Read from any position on, two rank sequences cannot both win against
/// each other.
pub proof fn lemma_kickers_asymmetric(a: Seq<u8>, b: Seq<u8>, i: int)
    ensures
        !(kickers_outrank_from(a, b, i) && kickers_outrank_from(b, a, i)),
    decreases a.len() - i,
{
    if 0 <= i < a.len() && i < b.len() && a[i] == b[i] {
        lemma_kickers_asymmetric(a, b, i + 1);
    }
}

/// Where neither of two rank sequences wins from position `i` on, they have
/// the same length and agree from `i` on.
pub proof fn lemma_kickers_tie(a: Seq<u8>, b: Seq<u8>, i: int)
    requires
        0 <= i <= a.len(),
        i <= b.len(),
        !kickers_outrank_from(a, b, i),
        !kickers_outrank_from(b, a, i),
    ensures
        a.len() == b.len(),
        forall|j: int| i <= j < a.len() ==> a[j] == b[j],
    decreases a.len() - i,
{
    if i < a.len() && i < b.len() {
        lemma_kickers_tie(a, b, i + 1);
    }
}

/// Winning carries over: if `a` wins against `b` and `b` against `c`, both
/// read from position `i` on, then `a` wins against `c`.
pub proof fn lemma_kickers_transitive(a: Seq<u8>, b: Seq<u8>, c: Seq<u8>, i: int)
    requires
        kickers_outrank_from(a, b, i),
        kickers_outrank_from(b, c, i),
    ensures
        kickers_outrank_from(a, c, i),
    decreases a.len() - i,
{
    if i < c.len() && a[i] == b[i] && b[i] == c[i] {
        lemma_kickers_transitive(a, b, c, i + 1);
    }
}

/// Of two hands exactly one holds: the first is stronger, the second is
/// stronger, or they are the same hand. In particular no hand is stronger
/// than itself, and identical tie-break ranks within one kind are a tie.
pub proof fn lemma_outranks_trichotomy(a: Classification, b: Classification)
    ensures
        outranks(a, b) || outranks(b, a) || a == b,
        !(outranks(a, b) && outranks(b, a)),
        !(outranks(a, b) && a == b),
        !(outranks(b, a) && a == b),
{
    CombinationKind::lemma_precedence_injective(a.kind, b.kind);
    lemma_kickers_asymmetric(a.kickers, b.kickers, 0);
    lemma_kickers_irreflexive(a.kickers, 0);
    if !outranks(a, b) && !outranks(b, a) {
        lemma_kickers_tie(a.kickers, b.kickers, 0);
        assert(a.kickers =~= b.kickers);
    }
}

/// Hands of different kinds are ordered by the precedence of their kinds
/// alone: exactly one of the two is stronger, whatever their tie-break
/// ranks.
pub proof fn lemma_kinds_decide(a: Classification, b: Classification)
    requires
        a.kind != b.kind,
    ensures
        outranks(a, b) <==> a.kind.precedence() > b.kind.precedence(),
        outranks(b, a) <==> b.kind.precedence() > a.kind.precedence(),
        outranks(a, b) != outranks(b, a),
{
    CombinationKind::lemma_precedence_injective(a.kind, b.kind);
}

/// Strength carries over: if `a` is stronger than `b` and `b` stronger than
/// `c`, then `a` is stronger than `c`.
pub proof fn lemma_outranks_transitive(a: Classification, b: Classification, c: Classification)
    requires
        outranks(a, b),
        outranks(b, c),
    ensures
        outranks(a, c),
{
    if a.kind == b.kind && b.kind == c.kind {
        lemma_kickers_transitive(a.kickers, b.kickers, c.kickers, 0);
    }
}

/// A hand that is not stronger than `b` is not stronger than anything at
/// least as strong as `b`.
pub proof fn lemma_not_stronger_carries(a: Classification, b: Classification, c: Classification)
    requires
        !outranks(a, b),
        !outranks(b, c),
    ensures
        !outranks(a, c),
{
    lemma_outranks_trichotomy(a, b);
    lemma_outranks_trichotomy(b, c);
    if outranks(a, c) {
        if a == b {
        } else if b == c {
        } else {
            lemma_outranks_transitive(c, b, a);
            lemma_outranks_trichotomy(a, c);
        }
    }
}

} // verus!
