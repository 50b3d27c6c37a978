use vstd::prelude::*;
use crate::types::{ActorId, Pair, TamagotchiId};

verus! {

/// Everything in `a` is in `b` and back, at equal length: a reordering when
/// neither has duplicates.
pub open spec fn same_members<T>(a: Seq<T>, b: Seq<T>) -> bool {
    &&& a.len() == b.len()
    &&& forall|k: int| 0 <= k < a.len() ==> b.contains(#[trigger] a[k])
    &&& forall|k: int| 0 <= k < b.len() ==> a.contains(#[trigger] b[k])
}

/// `b` is `a` reordered: position `k` of `b` holds position `perm[k]` of `a`,
/// and no position of `a` is used twice.
pub open spec fn permutes<T>(a: Seq<T>, b: Seq<T>, perm: Seq<int>) -> bool {
    &&& a.len() == b.len()
    &&& perm.len() == a.len()
    &&& forall|k: int| 0 <= k < b.len() ==> 0 <= #[trigger] perm[k] < a.len() && b[k] == a[perm[k]]
    &&& forall|p: int, q: int| 0 <= p < perm.len() && 0 <= q < perm.len() && p != q
        ==> #[trigger] perm[p] != #[trigger] perm[q]
}

pub open spec fn ids_of(entrants: Seq<(TamagotchiId, ActorId)>) -> Seq<TamagotchiId> {
    entrants.map_values(|e: (TamagotchiId, ActorId)| e.0)
}

/// Reordering keeps entrants' tamagotchis distinct.
pub proof fn lemma_permuted_ids_distinct(a: Seq<(TamagotchiId, ActorId)>, b: Seq<(TamagotchiId, ActorId)>, perm: Seq<int>)
    requires
        permutes(a, b, perm),
        ids_of(a).no_duplicates(),
    ensures
        ids_of(b).no_duplicates(),
{
    assert forall|p: int, q: int| 0 <= p < ids_of(b).len() && 0 <= q < ids_of(b).len() && p != q
        implies ids_of(b)[p] != ids_of(b)[q] by {
        assert(b[p] == a[perm[p]]);
        assert(b[q] == a[perm[q]]);
        assert(ids_of(a)[perm[p]] == a[perm[p]].0);
        assert(ids_of(a)[perm[q]] == a[perm[q]].0);
    }
}

/// `s` with positions `i` and `j` exchanged.
pub open spec fn swapped<T>(s: Seq<T>, i: int, j: int) -> Seq<T> {
    s.update(i, s[j]).update(j, s[i])
}

/// The Fisher-Yates pass over the first `i` positions of `s`: position
/// `i - 1` swaps with `seeds[i - 1] % i`, then the pass goes on below it.
pub open spec fn shuffled<T>(s: Seq<T>, seeds: Seq<u8>, i: nat) -> Seq<T>
    decreases i,
{
    if i <= 1 {
        s
    } else {
        let k = i - 1;
        let next = if k < seeds.len() { swapped(s, k, (seeds[k] as int) % (k + 1)) } else { s };
        shuffled(next, seeds, k as nat)
    }
}

/// Reorders `ids` by a Fisher-Yates pass driven by random bytes: position `i`
/// (from the end down) swaps with `seeds[i] % (i + 1)`; a position without a
/// seed stays where it is.
pub fn shuffle<T: Copy>(ids: &mut Vec<T>, seeds: &Vec<u8>)
    ensures
        final(ids)@ == shuffled(old(ids)@, seeds@, old(ids)@.len()),
        exists|perm: Seq<int>| permutes(old(ids)@, final(ids)@, perm),
        same_members(old(ids)@, final(ids)@),
        old(ids)@.no_duplicates() ==> final(ids)@.no_duplicates(),
{
    let ghost orig = ids@;
    let ghost mut perm: Seq<int> = Seq::new(ids@.len(), |k: int| k);
    let n = ids.len();
    let mut i: usize = n;
    while i > 1
        invariant
            0 <= i <= n,
            n == ids@.len(),
            shuffled(ids@, seeds@, i as nat) == shuffled(orig, seeds@, n as nat),
            permutes(orig, ids@, perm),
            same_members(orig, ids@),
            orig.no_duplicates() ==> ids@.no_duplicates(),
        decreases i,
    {
        i = i - 1;
        if i < seeds.len() {
            let j: usize = (seeds[i] as usize) % (i + 1);
            let ghost before = ids@;
            let x = ids[i];
            let y = ids[j];
            ids.set(i, y);
            ids.set(j, x);
            assert(ids@ =~= swapped(before, i as int, j as int));
            proof {
                let pb = perm;
                perm = pb.update(i as int, pb[j as int]).update(j as int, pb[i as int]);
                assert forall|k: int| 0 <= k < n implies 0 <= #[trigger] perm[k] < n && ids@[k] == orig[perm[k]] by {
                    if k == i as int {
                        assert(ids@[k] == before[j as int]);
                    } else if k == j as int {
                        assert(ids@[k] == before[i as int]);
                    } else {
                        assert(ids@[k] == before[k]);
                    }
                }
                assert forall|p: int, q: int| 0 <= p < n && 0 <= q < n && p != q
                    implies #[trigger] perm[p] != #[trigger] perm[q] by {
                    let sp = if p == i as int { j as int } else if p == j as int { i as int } else { p };
                    let sq = if q == i as int { j as int } else if q == j as int { i as int } else { q };
                    assert(perm[p] == pb[sp]);
                    assert(perm[q] == pb[sq]);
                }
            }
            let ghost sw = |k: int| if k == i as int { j as int } else if k == j as int { i as int } else { k };
            assert forall|k: int| 0 <= k < n implies #[trigger] ids@[k] == before[sw(k)] by {}
            assert forall|k: int| 0 <= k < n implies orig.contains(#[trigger] ids@[k]) by {
                assert(before.contains(before[sw(k)]));
            }
            assert forall|k: int| 0 <= k < n implies ids@.contains(#[trigger] orig[k]) by {
                assert(before.contains(orig[k]));
                let m = choose|m: int| 0 <= m < n && before[m] == orig[k];
                assert(ids@[sw(m)] == before[sw(sw(m))]);
            }
            assert(orig.no_duplicates() ==> ids@.no_duplicates()) by {
                if orig.no_duplicates() {
                    assert forall|p: int, q: int| 0 <= p < n && 0 <= q < n && p != q
                        implies ids@[p] != ids@[q] by {
                        assert(ids@[p] == before[sw(p)]);
                        assert(ids@[q] == before[sw(q)]);
                    }
                }
            }
        }
    }
}

/// The pair formed at position `i` of a round from `entrants` (tamagotchi and
/// owner): consecutive entrants meet; an odd one out gets a bye.
pub open spec fn pair_spec(entrants: Seq<(TamagotchiId, ActorId)>, i: int, deadline: u64) -> Pair {
    if 2 * i + 1 < entrants.len() {
        Pair {
            owner_a: entrants[2 * i].1,
            owner_b: entrants[2 * i + 1].1,
            tmg_a: entrants[2 * i].0,
            tmg_b: entrants[2 * i + 1].0,
            bye: false,
            move_a: None,
            move_b: None,
            rounds: 1,
            game_is_over: false,
            winner: entrants[2 * i].0,
            move_deadline: deadline,
        }
    } else {
        Pair {
            owner_a: entrants[2 * i].1,
            owner_b: entrants[2 * i].1,
            tmg_a: entrants[2 * i].0,
            tmg_b: entrants[2 * i].0,
            bye: true,
            move_a: None,
            move_b: None,
            rounds: 1,
            game_is_over: true,
            winner: entrants[2 * i].0,
            move_deadline: deadline,
        }
    }
}

pub open spec fn pairs_spec(entrants: Seq<(TamagotchiId, ActorId)>, deadline: u64) -> Seq<Pair> {
    Seq::new(((entrants.len() + 1) / 2) as nat, |i: int| pair_spec(entrants, i, deadline))
}

/// With every entrant in `good`, every member and winner of every pair is too.
pub proof fn lemma_pairs_members(entrants: Seq<(TamagotchiId, ActorId)>, deadline: u64, good: spec_fn(TamagotchiId) -> bool)
    requires
        forall|k: int| 0 <= k < entrants.len() ==> good(#[trigger] entrants[k].0),
    ensures
        forall|i: int| 0 <= i < pairs_spec(entrants, deadline).len() ==> {
            let p = #[trigger] pairs_spec(entrants, deadline)[i];
            &&& good(p.tmg_a)
            &&& good(p.tmg_b)
            &&& (p.winner == p.tmg_a || p.winner == p.tmg_b)
            &&& (!p.game_is_over ==> p.rounds == 1 && p.move_a is None && p.move_b is None)
        },
{
    assert forall|i: int| 0 <= i < pairs_spec(entrants, deadline).len() implies {
        let p = #[trigger] pairs_spec(entrants, deadline)[i];
        &&& good(p.tmg_a)
        &&& good(p.tmg_b)
        &&& (p.winner == p.tmg_a || p.winner == p.tmg_b)
        &&& (!p.game_is_over ==> p.rounds == 1 && p.move_a is None && p.move_b is None)
    } by {
        assert(good(entrants[2 * i].0));
        if 2 * i + 1 < entrants.len() {
            assert(good(entrants[2 * i + 1].0));
        }
    }
}

/// Whether tamagotchi `id` plays in pair `p`.
pub open spec fn in_pair(p: Pair, id: TamagotchiId) -> bool {
    p.tmg_a == id || p.tmg_b == id
}

/// Splits the entrants of a round into pairs, in order, with a bye for the
/// last one when their number is odd.
pub fn make_pairs(entrants: &Vec<(TamagotchiId, ActorId)>, deadline: u64) -> (r: Vec<Pair>)
    ensures
        r@ == pairs_spec(entrants@, deadline),
{
    let n = entrants.len();
    let mut r: Vec<Pair> = Vec::new();
    let count: usize = n / 2 + n % 2;
    let mut i: usize = 0;
    while i < count
        invariant
            n == entrants@.len(),
            count == (n + 1) / 2,
            i <= count,
            r@.len() == i,
            forall|k: int| 0 <= k < i ==> r@[k] == pair_spec(entrants@, k, deadline),
        decreases count - i,
    {
        let (tmg_a, owner_a) = entrants[2 * i];
        if 2 * i + 1 < n {
            let (tmg_b, owner_b) = entrants[2 * i + 1];
            r.push(Pair {
                owner_a,
                owner_b,
                tmg_a,
                tmg_b,
                bye: false,
                move_a: None,
                move_b: None,
                rounds: 1,
                game_is_over: false,
                winner: tmg_a,
                move_deadline: deadline,
            });
        } else {
            r.push(Pair {
                owner_a,
                owner_b: owner_a,
                tmg_a,
                tmg_b: tmg_a,
                bye: true,
                move_a: None,
                move_b: None,
                rounds: 1,
                game_is_over: true,
                winner: tmg_a,
                move_deadline: deadline,
            });
        }
        i = i + 1;
    }
    assert(r@ =~= pairs_spec(entrants@, deadline));
    r
}

/// Pairing law: `n` entrants make `ceil(n / 2)` pairs, of which exactly the
/// last is a bye and only when `n` is odd; every entrant plays in a pair and
/// every member of a pair is an entrant; with distinct entrants the two sides
/// of a real pair differ and nobody plays in two pairs of the round.
pub proof fn lemma_pairing_shape(entrants: Seq<(TamagotchiId, ActorId)>, deadline: u64)
    ensures
        pairs_spec(entrants, deadline).len() == (entrants.len() + 1) / 2,
        forall|i: int| 0 <= i < pairs_spec(entrants, deadline).len() ==>
            ((#[trigger] pairs_spec(entrants, deadline)[i]).bye
                <==> (entrants.len() % 2 == 1 && i == pairs_spec(entrants, deadline).len() - 1)),
        forall|k: int| 0 <= k < entrants.len() ==>
            #[trigger] in_pair(pairs_spec(entrants, deadline)[k / 2], entrants[k].0),
        forall|i: int, id: TamagotchiId| 0 <= i < pairs_spec(entrants, deadline).len()
            && #[trigger] in_pair(pairs_spec(entrants, deadline)[i], id)
            ==> exists|k: int| 0 <= k < entrants.len() && (#[trigger] entrants[k]).0 == id,
        ids_of(entrants).no_duplicates() ==> forall|i: int| 0 <= i < pairs_spec(entrants, deadline).len()
            && !(#[trigger] pairs_spec(entrants, deadline)[i]).bye
            ==> pairs_spec(entrants, deadline)[i].tmg_a != pairs_spec(entrants, deadline)[i].tmg_b,
        ids_of(entrants).no_duplicates() ==>
            forall|i: int, j: int, id: TamagotchiId|
                0 <= i < pairs_spec(entrants, deadline).len() && 0 <= j < pairs_spec(entrants, deadline).len()
                && i != j && #[trigger] in_pair(pairs_spec(entrants, deadline)[i], id)
                ==> !#[trigger] in_pair(pairs_spec(entrants, deadline)[j], id),
{
    let ps = pairs_spec(entrants, deadline);
    let n = entrants.len() as int;
    assert forall|i: int| 0 <= i < ps.len() implies
        (#[trigger] ps[i]).bye <==> (entrants.len() % 2 == 1 && i == ps.len() - 1) by {
        assert((entrants.len() % 2 == 1) == (n % 2 == 1));
        assert(ps.len() == (n + 1) / 2);
        assert(ps[i] == pair_spec(entrants, i, deadline));
        assert(2 * i + 1 < n <==> !(n % 2 == 1 && i == (n + 1) / 2 - 1)) by (nonlinear_arith)
            requires 0 <= i < (n + 1) / 2, n >= 0;
    }
    assert forall|k: int| 0 <= k < entrants.len() implies
        #[trigger] in_pair(ps[k / 2], entrants[k].0) by {
        assert(ps[k / 2] == pair_spec(entrants, k / 2, deadline));
        assert(k == 2 * (k / 2) || k == 2 * (k / 2) + 1);
    }
    assert forall|i: int, id: TamagotchiId| 0 <= i < ps.len() && #[trigger] in_pair(ps[i], id)
        implies exists|k: int| 0 <= k < entrants.len() && (#[trigger] entrants[k]).0 == id by {
        assert(ps[i] == pair_spec(entrants, i, deadline));
        if ps[i].tmg_a == id {
            assert(entrants[2 * i].0 == id);
        } else {
            assert(entrants[2 * i + 1].0 == id);
        }
    }
    let ids = ids_of(entrants);
    if ids.no_duplicates() {
        assert forall|i: int| 0 <= i < ps.len() && !(#[trigger] ps[i]).bye implies ps[i].tmg_a != ps[i].tmg_b by {
            assert(ids[2 * i] == entrants[2 * i].0);
            assert(ids[2 * i + 1] == entrants[2 * i + 1].0);
        }
        assert forall|i: int, j: int, id: TamagotchiId|
            0 <= i < ps.len() && 0 <= j < ps.len() && i != j && #[trigger] in_pair(ps[i], id)
            implies !#[trigger] in_pair(ps[j], id) by {
            assert(ids[2 * i] == entrants[2 * i].0);
            assert(ids[2 * j] == entrants[2 * j].0);
            if 2 * i + 1 < entrants.len() {
                assert(ids[2 * i + 1] == entrants[2 * i + 1].0);
            }
            if 2 * j + 1 < entrants.len() {
                assert(ids[2 * j + 1] == entrants[2 * j + 1].0);
            }
        }
    }
}

} // verus!
