use vstd::prelude::*;

use crate::candidate_state::{names_of, PREVIEW_SLOT_COUNT};
use crate::clip::ClipId;
use crate::text::{lemma_seq_less_irreflexive, lemma_seq_less_total, lemma_seq_less_transitive, seq_less};

verus! {

/// A clip with its distance from the target features. The distance is an order key:
/// a smaller key is a closer clip.
#[derive(Debug)]
pub struct ClipDistance {
    pub distance: u32,
    pub id: ClipId,
}

/// A candidate by its distance key and its name.
pub open spec fn key_of(candidate: ClipDistance) -> (u32, Seq<char>) {
    (candidate.distance, candidate.id@)
}

/// The keys of a list of candidates.
pub open spec fn keys_of(candidates: Seq<ClipDistance>) -> Seq<(u32, Seq<char>)> {
    candidates.map_values(|c: ClipDistance| key_of(c))
}

/// The names of the candidates at `picks`, in that order.
pub open spec fn picked_names(candidates: Seq<ClipDistance>, picks: Seq<int>) -> Seq<Seq<char>> {
    picks.map_values(|p: int| candidates[p].id@)
}

/// `a` ranks strictly before `b`: it is closer, or as close with a name that sorts first.
pub open spec fn ranks_before(a: (u32, Seq<char>), b: (u32, Seq<char>)) -> bool {
    a.0 < b.0 || (a.0 == b.0 && seq_less(a.1, b.1))
}

/// How many clips a ranking returns: four, or all when there are fewer.
pub open spec fn ranked_len(n: nat) -> nat {
    if n < PREVIEW_SLOT_COUNT {
        n
    } else {
        PREVIEW_SLOT_COUNT as nat
    }
}

/// `picks` lists indices of `keys` that form a ranking: distinct, in ranking order, as many
/// as `ranked_len`, and no index left out ranks before one that was picked.
pub open spec fn is_ranking(keys: Seq<(u32, Seq<char>)>, picks: Seq<int>) -> bool {
    &&& picks.len() == ranked_len(keys.len())
    &&& forall|k: int| 0 <= k < picks.len() ==> 0 <= #[trigger] picks[k] < keys.len()
    &&& picks.no_duplicates()
    &&& forall|k: int, l: int|
        0 <= k < l < picks.len() ==> !ranks_before(keys[#[trigger] picks[l]], keys[#[trigger] picks[k]])
    &&& forall|j: int, k: int|
        0 <= j < keys.len() && !picks.contains(j) && 0 <= k < picks.len() ==> !ranks_before(
            #[trigger] keys[j],
            keys[#[trigger] picks[k]],
        )
}

proof fn lemma_ranks_before_transitive(a: (u32, Seq<char>), b: (u32, Seq<char>), c: (u32, Seq<char>))
    requires
        ranks_before(a, b),
        ranks_before(b, c),
    ensures
        ranks_before(a, c),
{
    if a.0 == b.0 && b.0 == c.0 {
        lemma_seq_less_transitive(a.1, b.1, c.1);
    }
}

/// No two different candidates rank both ways, and a candidate never ranks before itself.
pub proof fn lemma_ranks_before_strict(a: (u32, Seq<char>), b: (u32, Seq<char>))
    ensures
        !(ranks_before(a, b) && ranks_before(b, a)),
        !ranks_before(a, a),
        a != b ==> ranks_before(a, b) || ranks_before(b, a),
{
    lemma_seq_less_total(a.1, b.1);
    lemma_seq_less_irreflexive(a.1);
    lemma_seq_less_irreflexive(b.1);
}

fn ranks_before_exec(a: &ClipDistance, b: &ClipDistance) -> (r: bool)
    ensures
        r == ranks_before(key_of(*a), key_of(*b)),
{
    a.distance < b.distance || (a.distance == b.distance && a.id.less_than(&b.id))
}

/// The identifiers of the closest clips, closest first, names breaking ties, at most four.
pub fn rank_clips(candidates: &[ClipDistance]) -> (ranked: Vec<ClipId>)
    ensures
        exists|picks: Seq<int>|
            #[trigger] is_ranking(keys_of(candidates@), picks) && names_of(ranked@) == picked_names(
                candidates@,
                picks,
            ),
{
    let ghost keys = keys_of(candidates@);
    let n = candidates.len();
    let target = if n < PREVIEW_SLOT_COUNT {
        n
    } else {
        PREVIEW_SLOT_COUNT
    };
    let mut picked: Vec<bool> = Vec::new();
    let mut i: usize = 0;
    while i < n
        invariant
            i <= n,
            picked@.len() == i,
            forall|j: int| 0 <= j < i ==> !picked@[j],
        decreases n - i,
    {
        picked.push(false);
        i = i + 1;
    }
    let mut ranked: Vec<ClipId> = Vec::new();
    let ghost mut picks: Seq<int> = Seq::empty();
    while ranked.len() < target
        invariant
            n == candidates@.len(),
            keys == keys_of(candidates@),
            target == ranked_len(n as nat),
            ranked@.len() <= target,
            picked@.len() == n,
            picks.len() == ranked@.len(),
            forall|k: int| 0 <= k < picks.len() ==> 0 <= #[trigger] picks[k] < n,
            picks.no_duplicates(),
            forall|j: int| 0 <= j < n ==> (picked@[j] <==> picks.contains(j)),
            forall|k: int, l: int|
                0 <= k < l < picks.len() ==> !ranks_before(
                    keys[#[trigger] picks[l]],
                    keys[#[trigger] picks[k]],
                ),
            forall|j: int, k: int|
                0 <= j < n && !picks.contains(j) && 0 <= k < picks.len() ==> !ranks_before(
                    #[trigger] keys[j],
                    keys[#[trigger] picks[k]],
                ),
            names_of(ranked@) == picked_names(candidates@, picks),
        decreases target - ranked@.len(),
    {
        // Some index is still free, since fewer than `n` were picked.
        proof {
            if forall|j: int| 0 <= j < n ==> picks.contains(j) {
                assert(picks.to_set() =~= vstd::set_lib::set_int_range(0, n as int));
                picks.unique_seq_to_set();
                vstd::set_lib::lemma_int_range(0, n as int);
                assert(false);
            }
        }
        let mut best: usize = 0;
        while picked[best]
            invariant
                picked@.len() == n,
                best < n,
                exists|j: int| 0 <= j < n && !picked@[j] && best <= j,
                forall|m: int| 0 <= m < best ==> picked@[m],
            decreases n - best,
        {
            best = best + 1;
        }
        let mut j: usize = best + 1;
        proof {
            lemma_ranks_before_strict(keys[best as int], keys[best as int]);
        }
        while j < n
            invariant
                n == candidates@.len(),
                keys == keys_of(candidates@),
                picked@.len() == n,
                best < n,
                best < j <= n,
                !picked@[best as int],
                forall|m: int|
                    0 <= m < j && !picked@[m] ==> !ranks_before(#[trigger] keys[m], keys[best as int]),
            decreases n - j,
        {
            if !picked[j] && ranks_before_exec(&candidates[j], &candidates[best]) {
                proof {
                    let old_best = best as int;
                    assert forall|m: int| 0 <= m < j && !picked@[m] implies !ranks_before(
                        #[trigger] keys[m],
                        keys[j as int],
                    ) by {
                        if ranks_before(keys[m], keys[j as int]) {
                            lemma_ranks_before_transitive(keys[m], keys[j as int], keys[old_best]);
                        }
                    }
                    lemma_ranks_before_strict(keys[j as int], keys[j as int]);
                }
                best = j;
            }
            j = j + 1;
        }
        proof {
            lemma_ranks_before_strict(keys[best as int], keys[best as int]);
        }
        let ghost before = picks;
        let ghost ranked_before = ranked@;
        picked.set(best, true);
        let chosen = candidates[best].id.clone();
        assert(chosen@ == candidates@[best as int].id@);
        ranked.push(chosen);
        proof {
            picks = picks.push(best as int);
            assert(!before.contains(best as int));
            assert forall|k: int, l: int|
                0 <= k < picks.len() && 0 <= l < picks.len() && k != l implies picks[k]
                != picks[l] by {
                if k == picks.len() - 1 {
                    assert(before.contains(picks[l]));
                } else if l == picks.len() - 1 {
                    assert(before.contains(picks[k]));
                } else {
                    assert(picks[k] == before[k]);
                    assert(picks[l] == before[l]);
                }
            }
            assert forall|m: int| 0 <= m < n implies (picked@[m] <==> picks.contains(m)) by {
                if m == best {
                    assert(picks[picks.len() - 1] == m);
                } else if before.contains(m) {
                    let k = choose|k: int| 0 <= k < before.len() && before[k] == m;
                    assert(picks[k] == m);
                } else if picks.contains(m) {
                    let k = choose|k: int| 0 <= k < picks.len() && picks[k] == m;
                    assert(k < before.len());
                    assert(before[k] == m);
                }
            }
            assert forall|k: int, l: int|
                0 <= k < l < picks.len() implies !ranks_before(
                keys[#[trigger] picks[l]],
                keys[#[trigger] picks[k]],
            ) by {
                if l == picks.len() - 1 {
                    assert(!before.contains(best as int));
                    assert(picks[k] == before[k]);
                } else {
                    assert(picks[k] == before[k]);
                    assert(picks[l] == before[l]);
                }
            }
            assert forall|m: int, k: int|
                0 <= m < n && !picks.contains(m) && 0 <= k < picks.len() implies !ranks_before(
                #[trigger] keys[m],
                keys[#[trigger] picks[k]],
            ) by {
                assert(!before.contains(m)) by {
                    if before.contains(m) {
                        let q = choose|q: int| 0 <= q < before.len() && before[q] == m;
                        assert(picks[q] == m);
                    }
                }
                if k == picks.len() - 1 {
                    assert(m != best);
                    assert(!picked@[m]);
                } else {
                    assert(picks[k] == before[k]);
                }
            }
            assert(names_of(ranked@) =~= names_of(ranked_before).push(candidates@[best as int].id@));
            assert(picked_names(candidates@, picks) =~= picked_names(candidates@, before).push(
                candidates@[best as int].id@,
            ));
        }
    }
    assert(is_ranking(keys, picks));
    ranked
}

} // verus!
