use vstd::prelude::*;

use crate::clip::ClipId;

verus! {

/// How many candidate slots the preview grid shows.
pub const PREVIEW_SLOT_COUNT: usize = 4;

/// A clip identifier by its name, or an empty slot.
pub open spec fn slot_name(slot: Option<ClipId>) -> Option<Seq<char>> {
    match slot {
        Some(id) => Some(id@),
        None => None,
    }
}

/// The names of a list of identifiers.
pub open spec fn names_of(ids: Seq<ClipId>) -> Seq<Seq<char>> {
    ids.map_values(|id: ClipId| id@)
}

/// What a candidate state holds: the clip shown in each slot, whether the
/// candidates are held, and which slot the user selected.
pub struct CandidateView {
    pub slots: Seq<Option<Seq<char>>>,
    pub held: bool,
    pub selected_slot: Option<usize>,
}

/// The candidates that an update considers: the first four of the ranking.
pub open spec fn top_ranked(ranked: Seq<Seq<char>>) -> Seq<Seq<char>> {
    if ranked.len() <= PREVIEW_SLOT_COUNT {
        ranked
    } else {
        ranked.take(PREVIEW_SLOT_COUNT as int)
    }
}

/// Slot `i` keeps its clip through an update when that clip is among `top`.
pub open spec fn keeps_slot(slots: Seq<Option<Seq<char>>>, top: Seq<Seq<char>>, i: int) -> bool {
    slots[i] is Some && top.contains(slots[i]->0)
}

/// The clips of `top` that some slot already shows.
pub open spec fn kept_names(slots: Seq<Option<Seq<char>>>, top: Seq<Seq<char>>) -> Set<Seq<char>> {
    top.to_set().filter(|name: Seq<char>| slots.contains(Some(name)))
}

/// The clips of `top` that no slot keeps, each once, in ranking order.
pub open spec fn pending_names(top: Seq<Seq<char>>, kept: Set<Seq<char>>) -> Seq<Seq<char>>
    decreases top.len(),
{
    if top.len() == 0 {
        Seq::empty()
    } else {
        let earlier = pending_names(top.drop_last(), kept);
        let name = top.last();
        if kept.contains(name) || earlier.contains(name) {
            earlier
        } else {
            earlier.push(name)
        }
    }
}

/// How many of the slots before `i` do not keep their clip.
pub open spec fn free_before(slots: Seq<Option<Seq<char>>>, top: Seq<Seq<char>>, i: int) -> nat
    decreases i,
{
    if i <= 0 {
        0
    } else {
        free_before(slots, top, i - 1) + if keeps_slot(slots, top, i - 1) {
            0nat
        } else {
            1nat
        }
    }
}

/// What slot `i` shows after an update: its own clip when that clip is still among
/// the top four, else the next pending clip, else nothing.
pub open spec fn updated_slot(slots: Seq<Option<Seq<char>>>, top: Seq<Seq<char>>, i: int) -> Option<
    Seq<char>,
> {
    if keeps_slot(slots, top, i) {
        slots[i]
    } else {
        let pending = pending_names(top, kept_names(slots, top));
        let k = free_before(slots, top, i);
        if k < pending.len() {
            Some(pending[k as int])
        } else {
            None
        }
    }
}

/// The slots after an update with ranking `ranked`.
pub open spec fn updated_slots(slots: Seq<Option<Seq<char>>>, ranked: Seq<Seq<char>>) -> Seq<
    Option<Seq<char>>,
> {
    Seq::new(PREVIEW_SLOT_COUNT as nat, |i: int| updated_slot(slots, top_ranked(ranked), i))
}

/// No clip shows in two slots.
pub open spec fn slots_distinct(slots: Seq<Option<Seq<char>>>) -> bool {
    forall|i: int, j: int|
        0 <= i < slots.len() && 0 <= j < slots.len() && i != j && #[trigger] slots[i] is Some
            ==> slots[i] != #[trigger] slots[j]
}

/// The invariant of a candidate state: four slots, no clip twice, and a selected slot
/// only while the candidates are held, on a slot that shows a clip.
pub open spec fn candidate_wf(v: CandidateView) -> bool {
    &&& v.slots.len() == PREVIEW_SLOT_COUNT
    &&& slots_distinct(v.slots)
    &&& match v.selected_slot {
        Some(k) => v.held && k < PREVIEW_SLOT_COUNT && v.slots[k as int] is Some,
        None => true,
    }
}

/// The state after a release: not held, nothing selected, the same slots.
pub open spec fn released(v: CandidateView) -> CandidateView {
    CandidateView { held: false, selected_slot: None, ..v }
}

/// The state after toggling the hold: a held state is released; any other becomes held
/// with no slot selected.
pub open spec fn toggled(v: CandidateView) -> CandidateView {
    if v.held {
        released(v)
    } else {
        CandidateView { held: true, selected_slot: None, ..v }
    }
}

/// Toggling the hold twice from a state that is not held gives that state back.
pub proof fn lemma_toggle_twice_restores(v: CandidateView)
    requires
        candidate_wf(v),
        !v.held,
    ensures
        toggled(toggled(v)) == v,
{
}

/// Toggling the hold never leaves a slot selected.
pub proof fn lemma_toggle_clears_selection(v: CandidateView)
    ensures
        toggled(v).selected_slot is None,
        toggled(v).slots == v.slots,
{
}

/// The clips proposed in the preview slots, and whether the user holds them.
#[derive(Debug)]
pub struct CandidateState {
    slots: [Option<ClipId>; PREVIEW_SLOT_COUNT],
    held: bool,
    selected_slot: Option<usize>,
}

impl View for CandidateState {
    type V = CandidateView;

    closed spec fn view(&self) -> CandidateView {
        CandidateView {
            slots: self.slots@.map_values(|slot: Option<ClipId>| slot_name(slot)),
            held: self.held,
            selected_slot: self.selected_slot,
        }
    }
}

impl CandidateState {
    #[verifier::type_invariant]
    closed spec fn inv(self) -> bool {
        candidate_wf(self@)
    }

    /// The clip of each slot.
    pub fn slots(&self) -> (slots: &[Option<ClipId>; PREVIEW_SLOT_COUNT])
        ensures
            slots@.map_values(|slot: Option<ClipId>| slot_name(slot)) == self@.slots,
            candidate_wf(self@),
    {
        proof {
            use_type_invariant(self);
        }
        &self.slots
    }

    /// Whether the candidates are held, so that updates leave them alone.
    pub fn is_held(&self) -> (held: bool)
        ensures
            held == self@.held,
    {
        self.held
    }

    /// The slot the user selected, if any.
    pub fn selected_slot(&self) -> (slot: Option<usize>)
        ensures
            slot == self@.selected_slot,
    {
        self.selected_slot
    }
}

impl Default for CandidateState {
    fn default() -> (state: Self)
        ensures
            state@.slots == Seq::new(PREVIEW_SLOT_COUNT as nat, |i: int| None::<Seq<char>>),
            !state@.held,
            state@.selected_slot is None,
    {
        let state = CandidateState { slots: [None, None, None, None], held: false, selected_slot: None };
        assert(state@.slots =~= Seq::new(PREVIEW_SLOT_COUNT as nat, |i: int| None::<Seq<char>>));
        state
    }
}

proof fn lemma_pending_names(top: Seq<Seq<char>>, kept: Set<Seq<char>>)
    ensures
        pending_names(top, kept).no_duplicates(),
        forall|x: Seq<char>| #[trigger]
            pending_names(top, kept).contains(x) ==> top.contains(x) && !kept.contains(x),
        forall|x: Seq<char>|
            top.contains(x) && !kept.contains(x) ==> #[trigger] pending_names(top, kept).contains(
                x,
            ),
    decreases top.len(),
{
    if top.len() > 0 {
        let earlier = pending_names(top.drop_last(), kept);
        lemma_pending_names(top.drop_last(), kept);
        assert forall|x: Seq<char>| #[trigger]
            pending_names(top, kept).contains(x) implies top.contains(x) && !kept.contains(x) by {
            if earlier.contains(x) {
                let k = choose|k: int| 0 <= k < top.drop_last().len() && top.drop_last()[k] == x;
                assert(top[k] == x);
            } else {
                assert(x == top.last());
                assert(top[top.len() - 1] == x);
            }
        }
        assert forall|x: Seq<char>|
            top.contains(x) && !kept.contains(x) implies #[trigger] pending_names(
            top,
            kept,
        ).contains(x) by {
            let k = choose|k: int| 0 <= k < top.len() && top[k] == x;
            if k < top.len() - 1 {
                assert(top.drop_last()[k] == x);
                assert(earlier.contains(x));
                let m = choose|m: int| 0 <= m < earlier.len() && earlier[m] == x;
                if !(kept.contains(top.last()) || earlier.contains(top.last())) {
                    assert(earlier.push(top.last())[m] == x);
                }
            } else {
                if earlier.contains(x) {
                    let m = choose|m: int| 0 <= m < earlier.len() && earlier[m] == x;
                    if !(kept.contains(top.last()) || earlier.contains(top.last())) {
                        assert(earlier.push(top.last())[m] == x);
                    }
                } else {
                    assert(earlier.push(top.last())[earlier.len() as int] == x);
                }
            }
        }
    }
}

proof fn lemma_free_before_grows(slots: Seq<Option<Seq<char>>>, top: Seq<Seq<char>>, i: int, j: int)
    requires
        0 <= i < j,
        !keeps_slot(slots, top, i),
    ensures
        free_before(slots, top, j) > free_before(slots, top, i),
    decreases j,
{
    if j - 1 > i {
        lemma_free_before_grows(slots, top, i, j - 1);
    }
}

/// The update of the slots keeps every slot distinct.
proof fn lemma_updated_slots_distinct(slots: Seq<Option<Seq<char>>>, ranked: Seq<Seq<char>>)
    requires
        slots.len() == PREVIEW_SLOT_COUNT,
        slots_distinct(slots),
    ensures
        slots_distinct(updated_slots(slots, ranked)),
        updated_slots(slots, ranked).len() == PREVIEW_SLOT_COUNT,
{
    let top = top_ranked(ranked);
    let kept = kept_names(slots, top);
    let pending = pending_names(top, kept);
    let new = updated_slots(slots, ranked);
    lemma_pending_names(top, kept);
    assert forall|i: int, j: int|
        0 <= i < new.len() && 0 <= j < new.len() && i != j && #[trigger] new[i] is Some implies new[i]
        != #[trigger] new[j] by {
        if keeps_slot(slots, top, i) && keeps_slot(slots, top, j) {
        } else if keeps_slot(slots, top, i) {
            let k = free_before(slots, top, j) as int;
            if k < pending.len() {
                assert(pending.contains(pending[k]));
                assert(slots.contains(slots[i]));
                assert(kept.contains(slots[i]->0));
            }
        } else if keeps_slot(slots, top, j) {
            let k = free_before(slots, top, i) as int;
            assert(pending.contains(pending[k]));
            assert(slots.contains(slots[j]));
            assert(kept.contains(slots[j]->0));
        } else {
            if i < j {
                lemma_free_before_grows(slots, top, i, j);
            } else {
                lemma_free_before_grows(slots, top, j, i);
            }
        }
    }
}

/// The clips of the slots before `n` that an update keeps, in slot order.
spec fn kept_values(slots: Seq<Option<Seq<char>>>, top: Seq<Seq<char>>, n: int) -> Seq<Seq<char>>
    decreases n,
{
    if n <= 0 {
        Seq::empty()
    } else if keeps_slot(slots, top, n - 1) {
        kept_values(slots, top, n - 1).push(slots[n - 1]->0)
    } else {
        kept_values(slots, top, n - 1)
    }
}

proof fn lemma_kept_values(slots: Seq<Option<Seq<char>>>, top: Seq<Seq<char>>, n: int)
    requires
        0 <= n <= slots.len(),
        slots_distinct(slots),
    ensures
        kept_values(slots, top, n).len() + free_before(slots, top, n) == n,
        kept_values(slots, top, n).no_duplicates(),
        forall|x: Seq<char>| #[trigger]
            kept_values(slots, top, n).contains(x) <==> exists|i: int|
                0 <= i < n && keeps_slot(slots, top, i) && slots[i] == Some(x),
    decreases n,
{
    if n > 0 {
        lemma_kept_values(slots, top, n - 1);
        let earlier = kept_values(slots, top, n - 1);
        let now = kept_values(slots, top, n);
        if keeps_slot(slots, top, n - 1) {
            let x = slots[n - 1]->0;
            assert(!earlier.contains(x)) by {
                if earlier.contains(x) {
                    let i = choose|i: int|
                        0 <= i < n - 1 && keeps_slot(slots, top, i) && slots[i] == Some(x);
                    assert(slots[i] != slots[n - 1]);
                }
            }
            assert forall|y: Seq<char>| #[trigger] now.contains(y) <==> exists|i: int|
                0 <= i < n && keeps_slot(slots, top, i) && slots[i] == Some(y) by {
                if now.contains(y) {
                    let k = choose|k: int| 0 <= k < now.len() && now[k] == y;
                    if k < earlier.len() {
                        assert(earlier[k] == y);
                        assert(earlier.contains(y));
                    } else {
                        assert(slots[n - 1] == Some(y));
                    }
                }
                if exists|i: int| 0 <= i < n && keeps_slot(slots, top, i) && slots[i] == Some(y) {
                    let i = choose|i: int|
                        0 <= i < n && keeps_slot(slots, top, i) && slots[i] == Some(y);
                    if i < n - 1 {
                        assert(earlier.contains(y));
                        let k = choose|k: int| 0 <= k < earlier.len() && earlier[k] == y;
                        assert(now[k] == y);
                    } else {
                        assert(now[now.len() - 1] == y);
                    }
                }
            }
        } else {
            assert forall|y: Seq<char>| #[trigger] now.contains(y) <==> exists|i: int|
                0 <= i < n && keeps_slot(slots, top, i) && slots[i] == Some(y) by {
                if exists|i: int| 0 <= i < n && keeps_slot(slots, top, i) && slots[i] == Some(y) {
                    let i = choose|i: int|
                        0 <= i < n && keeps_slot(slots, top, i) && slots[i] == Some(y);
                    assert(i < n - 1);
                }
            }
        }
    }
}

/// Distinct elements that all occur in `t` are no more than `t` has.
proof fn lemma_distinct_within(a: Seq<Seq<char>>, t: Seq<Seq<char>>)
    requires
        a.no_duplicates(),
        forall|x: Seq<char>| #[trigger] a.contains(x) ==> t.contains(x),
    ensures
        a.len() <= t.len(),
{
    a.unique_seq_to_set();
    t.lemma_cardinality_of_set();
    assert(a.to_set().subset_of(t.to_set()));
    vstd::set_lib::lemma_len_subset(a.to_set(), t.to_set());
}

proof fn lemma_free_values(slots: Seq<Option<Seq<char>>>, top: Seq<Seq<char>>, n: int, m: int)
    requires
        0 <= m < free_before(slots, top, n),
    ensures
        exists|i: int|
            0 <= i < n && !keeps_slot(slots, top, i) && free_before(slots, top, i) == m,
    decreases n,
{
    if n > 0 {
        if m < free_before(slots, top, n - 1) {
            lemma_free_values(slots, top, n - 1, m);
        } else {
            assert(!keeps_slot(slots, top, n - 1));
        }
    }
}

/// After an update that applies, the slots show exactly the clips among the first four of
/// the ranking: every shown clip is one of them, and each of them is shown.
pub proof fn lemma_update_shows_top_ranked(slots: Seq<Option<Seq<char>>>, ranked: Seq<Seq<char>>)
    requires
        slots.len() == PREVIEW_SLOT_COUNT,
        slots_distinct(slots),
    ensures
        forall|x: Seq<char>| #[trigger]
            updated_slots(slots, ranked).contains(Some(x)) <==> top_ranked(ranked).contains(x),
{
    let top = top_ranked(ranked);
    let kept = kept_names(slots, top);
    let pending = pending_names(top, kept);
    let new = updated_slots(slots, ranked);
    let n = PREVIEW_SLOT_COUNT as int;
    lemma_pending_names(top, kept);
    lemma_kept_values(slots, top, n);
    let kv = kept_values(slots, top, n);
    // Kept clips and pending clips are distinct clips of the top ones.
    let both = kv + pending;
    assert forall|x: Seq<char>| #[trigger] kv.contains(x) implies kept.contains(x) by {
        let i = choose|i: int| 0 <= i < n && keeps_slot(slots, top, i) && slots[i] == Some(x);
        assert(slots.contains(Some(x)));
    }
    assert(both.no_duplicates()) by {
        assert forall|i: int, j: int|
            0 <= i < both.len() && 0 <= j < both.len() && i != j implies both[i] != both[j] by {
            if i < kv.len() && j >= kv.len() {
                assert(kv.contains(both[i]));
                assert(pending.contains(both[j]));
            } else if j < kv.len() && i >= kv.len() {
                assert(kv.contains(both[j]));
                assert(pending.contains(both[i]));
            } else if i >= kv.len() && j >= kv.len() {
                assert(both[i] == pending[i - kv.len()]);
                assert(both[j] == pending[j - kv.len()]);
            }
        }
    }
    assert forall|x: Seq<char>| #[trigger] both.contains(x) implies top.contains(x) by {
        let k = choose|k: int| 0 <= k < both.len() && both[k] == x;
        if k < kv.len() {
            assert(kv.contains(x));
        } else {
            assert(pending[k - kv.len()] == x);
            assert(pending.contains(x));
        }
    }
    lemma_distinct_within(both, top);
    assert(pending.len() <= free_before(slots, top, n));

    assert forall|x: Seq<char>| #[trigger] new.contains(Some(x)) <==> top.contains(x) by {
        if new.contains(Some(x)) {
            let i = choose|i: int| 0 <= i < new.len() && new[i] == Some(x);
            if !keeps_slot(slots, top, i) {
                let k = free_before(slots, top, i) as int;
                assert(pending.contains(pending[k]));
            }
        }
        if top.contains(x) {
            if kept.contains(x) {
                let i = choose|i: int| 0 <= i < slots.len() && slots[i] == Some(x);
                assert(keeps_slot(slots, top, i));
                assert(new[i] == Some(x));
            } else {
                assert(pending.contains(x));
                let m = choose|m: int| 0 <= m < pending.len() && pending[m] == x;
                lemma_free_values(slots, top, n, m);
                let i = choose|i: int|
                    0 <= i < n && !keeps_slot(slots, top, i) && free_before(slots, top, i) == m;
                assert(new[i] == Some(x));
            }
        }
    }
}

/// A slot whose clip is still among the first four of the ranking keeps that clip.
pub proof fn lemma_update_keeps_positions(
    slots: Seq<Option<Seq<char>>>,
    ranked: Seq<Seq<char>>,
    i: int,
)
    requires
        slots.len() == PREVIEW_SLOT_COUNT,
        0 <= i < PREVIEW_SLOT_COUNT,
        slots[i] is Some,
        top_ranked(ranked).contains(slots[i]->0),
    ensures
        updated_slots(slots, ranked)[i] == slots[i],
{
}

/// Updating twice with the same ranking changes nothing the second time.
pub proof fn lemma_update_idempotent(slots: Seq<Option<Seq<char>>>, ranked: Seq<Seq<char>>)
    requires
        slots.len() == PREVIEW_SLOT_COUNT,
        slots_distinct(slots),
    ensures
        updated_slots(updated_slots(slots, ranked), ranked) == updated_slots(slots, ranked),
{
    let top = top_ranked(ranked);
    let once = updated_slots(slots, ranked);
    let twice = updated_slots(once, ranked);
    lemma_update_shows_top_ranked(slots, ranked);
    lemma_updated_slots_distinct(slots, ranked);
    let kept = kept_names(once, top);
    lemma_pending_names(top, kept);
    assert forall|x: Seq<char>| top.contains(x) implies kept.contains(x) by {
        assert(once.contains(Some(x)));
    }
    assert(pending_names(top, kept).len() == 0) by {
        if pending_names(top, kept).len() > 0 {
            assert(pending_names(top, kept).contains(pending_names(top, kept)[0]));
        }
    }
    assert forall|i: int| 0 <= i < PREVIEW_SLOT_COUNT implies #[trigger] twice[i] == once[i] by {
        if once[i] is Some {
            assert(once.contains(once[i]));
            assert(keeps_slot(once, top, i));
        }
    }
    assert(twice =~= once);
}

/// In `ranked`, clip `x` comes before clip `y`: `x` first appears before `y` does.
pub open spec fn ranked_before(ranked: Seq<Seq<char>>, x: Seq<char>, y: Seq<char>) -> bool {
    exists|p: int|
        0 <= p < ranked.len() && ranked[p] == x && forall|q: int| 0 <= q <= p ==> ranked[q] != y
}

/// The clips waiting for a free slot keep the order of the ranking.
proof fn lemma_pending_in_ranking_order(top: Seq<Seq<char>>, kept: Set<Seq<char>>)
    ensures
        forall|a: int, b: int|
            0 <= a < b < pending_names(top, kept).len() ==> ranked_before(
                top,
                #[trigger] pending_names(top, kept)[a],
                #[trigger] pending_names(top, kept)[b],
            ),
    decreases top.len(),
{
    if top.len() > 0 {
        let rest = top.drop_last();
        let earlier = pending_names(rest, kept);
        let name = top.last();
        let out = pending_names(top, kept);
        lemma_pending_in_ranking_order(rest, kept);
        lemma_pending_names(rest, kept);
        // What holds in the shorter ranking holds in the longer one.
        assert forall|x: Seq<char>, y: Seq<char>| ranked_before(rest, x, y) implies ranked_before(
            top,
            x,
            y,
        ) by {
            let p = choose|p: int|
                0 <= p < rest.len() && rest[p] == x && forall|q: int| 0 <= q <= p ==> rest[q] != y;
            assert(top[p] == x);
            assert forall|q: int| 0 <= q <= p implies top[q] != y by {
                assert(top[q] == rest[q]);
            }
        }
        if !(kept.contains(name) || earlier.contains(name)) {
            assert(out == earlier.push(name));
            // The new clip appears nowhere earlier in the ranking.
            assert forall|q: int| 0 <= q < rest.len() implies rest[q] != name by {
                if rest[q] == name {
                    assert(rest.contains(name));
                }
            }
            assert forall|a: int, b: int|
                0 <= a < b < out.len() implies ranked_before(
                top,
                #[trigger] out[a],
                #[trigger] out[b],
            ) by {
                if b < earlier.len() {
                    assert(out[a] == earlier[a] && out[b] == earlier[b]);
                    assert(ranked_before(rest, earlier[a], earlier[b]));
                } else {
                    let x = earlier[a];
                    assert(out[a] == x && out[b] == name);
                    assert(earlier.contains(x));
                    let p = choose|p: int| 0 <= p < rest.len() && rest[p] == x;
                    assert(top[p] == x);
                    assert forall|q: int| 0 <= q <= p implies top[q] != name by {
                        assert(top[q] == rest[q]);
                    }
                }
            }
        } else {
            assert(out == earlier);
            assert forall|a: int, b: int|
                0 <= a < b < out.len() implies ranked_before(
                top,
                #[trigger] out[a],
                #[trigger] out[b],
            ) by {
                assert(ranked_before(rest, earlier[a], earlier[b]));
            }
        }
    }
}

/// The free slots take the new clips in ranking order: when slots `i < j` both lose their
/// clip (they had none, or one no longer among the first four of the ranking) and both get
/// one, the clip in slot `i` comes before the clip in slot `j` in the ranking. So the
/// closest new clip goes to the first free slot.
pub proof fn lemma_free_slots_follow_ranking(
    slots: Seq<Option<Seq<char>>>,
    ranked: Seq<Seq<char>>,
    i: int,
    j: int,
)
    requires
        slots.len() == PREVIEW_SLOT_COUNT,
        0 <= i < j < PREVIEW_SLOT_COUNT,
        !(slots[i] is Some && top_ranked(ranked).contains(slots[i]->0)),
        !(slots[j] is Some && top_ranked(ranked).contains(slots[j]->0)),
        updated_slots(slots, ranked)[i] is Some,
        updated_slots(slots, ranked)[j] is Some,
    ensures
        ranked_before(
            ranked,
            updated_slots(slots, ranked)[i]->0,
            updated_slots(slots, ranked)[j]->0,
        ),
{
    let top = top_ranked(ranked);
    let pending = pending_names(top, kept_names(slots, top));
    let new = updated_slots(slots, ranked);
    let a = free_before(slots, top, i) as int;
    let b = free_before(slots, top, j) as int;
    lemma_free_before_grows(slots, top, i, j);
    assert(new[i] == Some(pending[a]));
    assert(new[j] == Some(pending[b]));
    lemma_pending_in_ranking_order(top, kept_names(slots, top));
    assert(ranked_before(top, pending[a], pending[b]));
    let p = choose|p: int|
        0 <= p < top.len() && top[p] == pending[a] && forall|q: int| 0 <= q <= p ==> top[q]
            != pending[b];
    assert(ranked[p] == pending[a]);
    assert forall|q: int| 0 <= q <= p implies ranked[q] != pending[b] by {
        assert(ranked[q] == top[q]);
    }
}

/// The state after an update with ranking `ranked`: a held state stays as it is; any
/// other shows the updated slots, with nothing selected.
pub open spec fn ranked_update(v: CandidateView, ranked: Seq<Seq<char>>) -> CandidateView {
    if v.held {
        v
    } else {
        CandidateView { slots: updated_slots(v.slots, ranked), held: false, selected_slot: None }
    }
}

/// An update of candidates that are not held shows exactly the distinct clips among the
/// first four of the ranking, each in one slot: clips further down never show, and a clip
/// listed twice among the first four takes one slot.
pub proof fn lemma_update_shows_exactly_the_top_clips(v: CandidateView, ranked: Seq<Seq<char>>)
    requires
        candidate_wf(v),
        !v.held,
    ensures
        slots_distinct(ranked_update(v, ranked).slots),
        forall|x: Seq<char>| #[trigger]
            ranked_update(v, ranked).slots.contains(Some(x)) <==> top_ranked(ranked).contains(x),
{
    lemma_updated_slots_distinct(v.slots, ranked);
    lemma_update_shows_top_ranked(v.slots, ranked);
}

/// Updating twice with the same ranking changes nothing the second time: the slots, the
/// hold and the selection stay, so the second update reports no change.
pub proof fn lemma_second_update_changes_nothing(v: CandidateView, ranked: Seq<Seq<char>>)
    requires
        candidate_wf(v),
    ensures
        ranked_update(ranked_update(v, ranked), ranked) == ranked_update(v, ranked),
{
    if !v.held {
        lemma_update_idempotent(v.slots, ranked);
    }
}

fn ids_contain(ids: &[ClipId], count: usize, id: &ClipId) -> (r: bool)
    requires
        count <= ids@.len(),
    ensures
        r == names_of(ids@).take(count as int).contains(id@),
{
    let mut j: usize = 0;
    while j < count
        invariant
            j <= count,
            count <= ids@.len(),
            forall|m: int| 0 <= m < j ==> ids@[m]@ != id@,
        decreases count - j,
    {
        if ids[j].same(id) {
            assert(names_of(ids@).take(count as int)[j as int] == id@);
            return true;
        }
        j = j + 1;
    }
    assert forall|m: int| 0 <= m < count implies names_of(ids@).take(count as int)[m] != id@ by {
        assert(names_of(ids@).take(count as int)[m] == ids@[m]@);
    }
    false
}

fn slots_contain(slots: &[Option<ClipId>; PREVIEW_SLOT_COUNT], id: &ClipId) -> (r: bool)
    ensures
        r == slots@.map_values(|slot: Option<ClipId>| slot_name(slot)).contains(Some(id@)),
{
    let ghost names = slots@.map_values(|slot: Option<ClipId>| slot_name(slot));
    let mut i: usize = 0;
    while i < PREVIEW_SLOT_COUNT
        invariant
            i <= PREVIEW_SLOT_COUNT,
            names == slots@.map_values(|slot: Option<ClipId>| slot_name(slot)),
            forall|m: int| 0 <= m < i ==> names[m] != Some(id@),
        decreases PREVIEW_SLOT_COUNT - i,
    {
        match &slots[i] {
            Some(current) => {
                if current.same(id) {
                    assert(names[i as int] == Some(id@));
                    return true;
                }
            },
            None => {},
        }
        i = i + 1;
    }
    false
}

fn same_slot(a: &Option<ClipId>, b: &Option<ClipId>) -> (r: bool)
    ensures
        r == (slot_name(*a) == slot_name(*b)),
{
    match (a, b) {
        (Some(x), Some(y)) => x.same(y),
        (None, None) => true,
        _ => false,
    }
}

impl CandidateState {
    /// Selects slot `slot` when it shows a clip: the candidates become held and the slot
    /// selected. Otherwise nothing changes.
    pub fn select(&mut self, slot: usize) -> (selected: bool)
        ensures
            selected == (slot < PREVIEW_SLOT_COUNT && old(self)@.slots[slot as int] is Some),
            selected ==> final(self)@ == (CandidateView {
                held: true,
                selected_slot: Some(slot),
                ..old(self)@
            }),
            !selected ==> final(self)@ == old(self)@,
            candidate_wf(final(self)@),
    {
        proof {
            use_type_invariant(&*self);
        }
        if slot < PREVIEW_SLOT_COUNT && self.slots[slot].is_some() {
            self.held = true;
            self.selected_slot = Some(slot);
            proof {
                use_type_invariant(&*self);
            }
            true
        } else {
            false
        }
    }

    /// Holds the candidates with no slot selected, or, when they are held, releases them.
    pub fn toggle_hold(&mut self)
        ensures
            final(self)@ == toggled(old(self)@),
            candidate_wf(final(self)@),
    {
        proof {
            use_type_invariant(&*self);
        }
        if self.held {
            self.release();
        } else {
            self.selected_slot = None;
            self.held = true;
        }
        proof {
            use_type_invariant(&*self);
        }
    }

    /// Releases the candidates: updates apply again and no slot is selected.
    pub fn release(&mut self)
        ensures
            final(self)@ == released(old(self)@),
            candidate_wf(final(self)@),
    {
        proof {
            use_type_invariant(&*self);
        }
        self.selected_slot = None;
        self.held = false;
        proof {
            use_type_invariant(&*self);
        }
    }

    /// Shows the first four clips of `ranked` when the candidates are not held. A slot
    /// whose clip is still among them keeps it; the other slots take the remaining clips
    /// in ranking order. Returns whether any slot changed.
    pub fn update_ranked(&mut self, ranked: &[ClipId]) -> (changed: bool)
        ensures
            final(self)@ == ranked_update(old(self)@, names_of(ranked@)),
            changed == (final(self)@.slots != old(self)@.slots),
            candidate_wf(final(self)@),
    {
        proof {
            use_type_invariant(&*self);
        }
        if self.held {
            return false;
        }
        let ghost old_slots = self@.slots;
        let ghost ranked_names = names_of(ranked@);
        let ghost top = top_ranked(ranked_names);
        let ghost kept = kept_names(old_slots, top);
        let count: usize = if ranked.len() < PREVIEW_SLOT_COUNT {
            ranked.len()
        } else {
            PREVIEW_SLOT_COUNT
        };
        assert(top =~= ranked_names.take(count as int));

        // Slots whose clip is still among the top ones keep it.
        let mut next: Vec<Option<ClipId>> = Vec::new();
        let mut i: usize = 0;
        while i < PREVIEW_SLOT_COUNT
            invariant
                i <= PREVIEW_SLOT_COUNT,
                next@.len() == i,
                count <= ranked@.len(),
                old_slots == self@.slots,
                top == names_of(ranked@).take(count as int),
                forall|j: int|
                    0 <= j < i ==> #[trigger] slot_name(next@[j]) == if keeps_slot(
                        old_slots,
                        top,
                        j,
                    ) {
                        old_slots[j]
                    } else {
                        None
                    },
            decreases PREVIEW_SLOT_COUNT - i,
        {
            let kept_slot = match &self.slots[i] {
                Some(id) => {
                    if ids_contain(ranked, count, id) {
                        Some(id.clone())
                    } else {
                        None
                    }
                },
                None => None,
            };
            next.push(kept_slot);
            i = i + 1;
        }

        // The top clips that no slot keeps, once each, in ranking order.
        let mut pending: Vec<ClipId> = Vec::new();
        let mut j: usize = 0;
        while j < count
            invariant
                j <= count,
                count <= ranked@.len(),
                count <= PREVIEW_SLOT_COUNT,
                old_slots == self@.slots,
                top == names_of(ranked@).take(count as int),
                kept == kept_names(old_slots, top),
                names_of(pending@) == pending_names(top.take(j as int), kept),
            decreases count - j,
        {
            let id = &ranked[j];
            let ghost name = id@;
            assert(top[j as int] == name);
            assert(top.contains(name));
            let shown = slots_contain(&self.slots, id);
            assert(shown == kept.contains(name));
            let listed = ids_contain(pending.as_slice(), pending.len(), id);
            assert(names_of(pending@).take(pending@.len() as int) =~= names_of(pending@));
            assert(top.take(j + 1).drop_last() =~= top.take(j as int));
            assert(top.take(j + 1).last() == name);
            if !shown && !listed {
                let ghost before = pending@;
                pending.push(id.clone());
                assert(names_of(pending@) =~= names_of(before).push(name));
            }
            j = j + 1;
        }
        assert(top.take(count as int) =~= top);
        let ghost pending_all = pending_names(top, kept);
        assert(names_of(pending@) == pending_all);

        // The other slots take the pending clips in order.
        let mut taken: usize = 0;
        let mut i: usize = 0;
        while i < PREVIEW_SLOT_COUNT
            invariant
                i <= PREVIEW_SLOT_COUNT,
                next@.len() == PREVIEW_SLOT_COUNT,
                old_slots.len() == PREVIEW_SLOT_COUNT,
                taken == free_before(old_slots, top, i as int),
                taken <= i,
                names_of(pending@) == pending_all,
                pending_all == pending_names(top, kept),
                kept == kept_names(old_slots, top),
                forall|j: int|
                    0 <= j < i ==> #[trigger] slot_name(next@[j]) == updated_slot(old_slots, top, j),
                forall|j: int|
                    i <= j < PREVIEW_SLOT_COUNT ==> #[trigger] slot_name(next@[j]) == if keeps_slot(
                        old_slots,
                        top,
                        j,
                    ) {
                        old_slots[j]
                    } else {
                        None
                    },
            decreases PREVIEW_SLOT_COUNT - i,
        {
            let ghost current = slot_name(next@[i as int]);
            assert(keeps_slot(old_slots, top, i as int) ==> current is Some);
            if next[i].is_none() {
                assert(!keeps_slot(old_slots, top, i as int));
                if taken < pending.len() {
                    let id = pending[taken].clone();
                    assert(names_of(pending@)[taken as int] == id@);
                    next.set(i, Some(id));
                }
                taken = taken + 1;
            }
            i = i + 1;
        }
        assert forall|j: int| 0 <= j < PREVIEW_SLOT_COUNT implies #[trigger] slot_name(next@[j])
            == updated_slots(old_slots, ranked_names)[j] by {}
        let last = next.pop();
        let third = next.pop();
        let second = next.pop();
        let first = next.pop();
        let new_slots = match (first, second, third, last) {
            (Some(a), Some(b), Some(c), Some(d)) => [a, b, c, d],
            _ => {
                assert(false);
                [None, None, None, None]
            },
        };
        let ghost new_names = new_slots@.map_values(|slot: Option<ClipId>| slot_name(slot));
        assert(new_names =~= updated_slots(old_slots, ranked_names));

        let mut changed = false;
        let mut k: usize = 0;
        while k < PREVIEW_SLOT_COUNT
            invariant
                k <= PREVIEW_SLOT_COUNT,
                old_slots == self@.slots,
                old_slots.len() == PREVIEW_SLOT_COUNT,
                new_names == new_slots@.map_values(|slot: Option<ClipId>| slot_name(slot)),
                changed == exists|m: int| 0 <= m < k && old_slots[m] != new_names[m],
            decreases PREVIEW_SLOT_COUNT - k,
        {
            assert(old_slots[k as int] == slot_name(self.slots@[k as int]));
            assert(new_names[k as int] == slot_name(new_slots@[k as int]));
            if !same_slot(&self.slots[k], &new_slots[k]) {
                changed = true;
            }
            k = k + 1;
        }
        proof {
            lemma_updated_slots_distinct(old_slots, ranked_names);
            if !changed {
                assert(old_slots =~= new_names);
            }
        }
        self.slots = new_slots;
        changed
    }
}

} // verus!
