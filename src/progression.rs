use vstd::prelude::*;
use crate::types::{ActorId, TamagotchiId};
use crate::pairing::pairs_spec;
use crate::battle::winners_of;

verus! {

/// Entrants left after a round of `n`: one per pair, byes included.
pub open spec fn next_round_size(n: nat) -> nat {
    (n + 1) / 2
}

/// Rounds a battle of `n` participants plays before one is left.
pub open spec fn rounds_needed(n: nat) -> nat
    decreases n,
{
    if n <= 1 { 0 } else { 1 + rounds_needed(next_round_size(n)) }
}

pub open spec fn pow2(k: nat) -> nat
    decreases k,
{
    if k == 0 { 1 } else { 2 * pow2((k - 1) as nat) }
}

/// A round of `n` entrants sends exactly `next_round_size(n)` to the next one.
pub proof fn lemma_round_halves(entrants: Seq<(TamagotchiId, ActorId)>, deadline: u64)
    ensures
        winners_of(pairs_spec(entrants, deadline)).len() == next_round_size(entrants.len()),
{
}

/// Halving with byes from `n >= 2` reaches one entrant after
/// `rounds_needed(n)` rounds, and that count is the ceiling of `log2(n)`:
/// `2^(r-1) < n <= 2^r`.
pub proof fn lemma_rounds_is_ceil_log2(n: nat)
    requires
        n >= 2,
    ensures
        rounds_needed(n) >= 1,
        pow2((rounds_needed(n) - 1) as nat) < n <= pow2(rounds_needed(n)),
    decreases n,
{
    let m = next_round_size(n);
    if n == 2 {
        assert(m == 1);
        assert(rounds_needed(1) == 0);
        assert(pow2(0) == 1);
        assert(pow2(1) == 2) by { assert(pow2(1) == 2 * pow2(0)); }
    } else {
        assert(m >= 2 && m < n);
        lemma_rounds_is_ceil_log2(m);
        let r = rounds_needed(m);
        assert(rounds_needed(n) == r + 1);
        assert(pow2(r + 1) == 2 * pow2(r));
        assert(pow2(r) == 2 * pow2((r - 1) as nat));
    }
}

/// A battle of `n >= 2` participants ends: after `rounds_needed(n)` halvings
/// exactly one entrant remains.
pub proof fn lemma_halving_reaches_one(n: nat)
    requires
        n >= 1,
    ensures
        halve_times(n, rounds_needed(n)) == 1,
    decreases n,
{
    if n > 1 {
        lemma_halving_reaches_one(next_round_size(n));
        lemma_halve_step(n, rounds_needed(next_round_size(n)));
    }
}

/// `counts` is the field size round after round of a battle of `n`: each
/// round of two or more sends one entrant per pair on, and the battle stops
/// at the first field of one. A closed round gives this step
/// (`lemma_round_step`), and the next round keeps its entrants
/// (`Battle::start_new_round`).
pub open spec fn is_round_trace(counts: Seq<nat>, n: nat) -> bool {
    &&& counts.len() >= 1
    &&& counts[0] == n
    &&& forall|i: int| 0 <= i < counts.len() - 1 ==> #[trigger] counts[i] >= 2
        && counts[i + 1] == next_round_size(counts[i])
    &&& counts[counts.len() - 1] == 1
}

/// A battle of `n >= 2` entrants plays exactly `rounds_needed(n)` rounds,
/// `ceil(log2(n))` of them, and ends with a single one.
pub proof fn lemma_trace_rounds(counts: Seq<nat>, n: nat)
    requires
        n >= 2,
        is_round_trace(counts, n),
    ensures
        counts.len() - 1 == rounds_needed(n),
        pow2((rounds_needed(n) - 1) as nat) < n <= pow2(rounds_needed(n)),
    decreases counts.len(),
{
    lemma_rounds_is_ceil_log2(n);
    if counts.len() == 1 {
        assert(counts[0] == 1);
    } else {
        let m = next_round_size(n);
        assert(counts[0] >= 2);
        assert(counts[1] == m);
        let rest = counts.subrange(1, counts.len() as int);
        assert forall|i: int| 0 <= i < rest.len() - 1 implies #[trigger] rest[i] >= 2
            && rest[i + 1] == next_round_size(rest[i]) by {
            assert(counts[i + 1 + 1] == next_round_size(counts[i + 1]));
        }
        assert(rest[rest.len() - 1] == counts[counts.len() - 1]);
        if m >= 2 {
            lemma_trace_rounds(rest, m);
        } else {
            assert(m == 1);
            if rest.len() > 1 {
                assert(rest[0] >= 2);
            }
            assert(rest.len() == 1);
        }
    }
}

/// Entrants left after `k` rounds from `n`.
pub open spec fn halve_times(n: nat, k: nat) -> nat
    decreases k,
{
    if k == 0 { n } else { halve_times(next_round_size(n), (k - 1) as nat) }
}

proof fn lemma_halve_step(n: nat, k: nat)
    ensures
        halve_times(n, k + 1) == halve_times(next_round_size(n), k),
{
}

} // verus!
