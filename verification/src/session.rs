use vstd::prelude::*;

use std::time::Duration;

use crate::candidate_state::{names_of, toggled, updated_slots, CandidateState, CandidateView};
use crate::clip::ClipId;
use crate::refresh::{duration_nanos, refresh_due, CandidateRefresh};

verus! {

/// The candidates shown, when they were last refreshed, and whether a refresh is owed
/// because the user released them.
#[derive(Debug)]
pub struct CandidateSelection {
    candidates: CandidateState,
    refresh: CandidateRefresh,
    needs_refresh: bool,
}

/// The selection by its plain values.
pub struct SelectionView {
    pub candidates: CandidateView,
    pub last_refresh: Option<u128>,
    pub needs_refresh: bool,
}

impl View for CandidateSelection {
    type V = SelectionView;

    closed spec fn view(&self) -> SelectionView {
        SelectionView {
            candidates: self.candidates@,
            last_refresh: self.refresh@,
            needs_refresh: self.needs_refresh,
        }
    }
}

/// Whether ranking is called for at `now`: the candidates are not held, new search
/// features came (or a refresh is owed), there are features to rank by, and the refresh
/// interval allows it.
pub open spec fn ranking_called_for(
    v: SelectionView,
    now: u128,
    received_features: bool,
    has_features: bool,
) -> bool {
    !v.candidates.held && (received_features || v.needs_refresh) && has_features && refresh_due(
        v.last_refresh,
        now,
    )
}

impl CandidateSelection {
    /// Empty slots, never refreshed, nothing owed.
    pub fn new() -> (s: CandidateSelection)
        ensures
            s@.candidates.slots == Seq::new(4, |i: int| None::<Seq<char>>),
            !s@.candidates.held,
            s@.candidates.selected_slot is None,
            s@.last_refresh is None,
            !s@.needs_refresh,
    {
        CandidateSelection {
            candidates: CandidateState::default(),
            refresh: CandidateRefresh::default(),
            needs_refresh: false,
        }
    }

    /// The candidates.
    pub fn candidates(&self) -> (c: &CandidateState)
        ensures
            c@ == self@.candidates,
    {
        &self.candidates
    }

    /// Whether the candidates should be ranked again now, `elapsed` after the start, given
    /// whether new search features came and whether any are known. When they should, the
    /// time counts as a refresh.
    pub fn ranking_due(&mut self, elapsed: Duration, received_features: bool, has_features: bool) -> (due:
        bool)
        ensures
            due == ranking_called_for(
                old(self)@,
                duration_nanos(elapsed),
                received_features,
                has_features,
            ),
            final(self)@ == (SelectionView {
                last_refresh: if due {
                    Some(duration_nanos(elapsed))
                } else {
                    old(self)@.last_refresh
                },
                ..old(self)@
            }),
    {
        if self.candidates.is_held() || (!received_features && !self.needs_refresh) {
            return false;
        }
        if !has_features {
            return false;
        }
        self.refresh.due_at(elapsed)
    }

    /// Shows a new ranking; the owed refresh is done. Returns whether a slot changed.
    pub fn apply_ranking(&mut self, ranked: &[ClipId]) -> (changed: bool)
        ensures
            final(self)@.candidates == if old(self)@.candidates.held {
                old(self)@.candidates
            } else {
                CandidateView {
                    slots: updated_slots(old(self)@.candidates.slots, names_of(ranked@)),
                    held: false,
                    selected_slot: None,
                }
            },
            changed == (final(self)@.candidates.slots != old(self)@.candidates.slots),
            final(self)@.last_refresh == old(self)@.last_refresh,
            !final(self)@.needs_refresh,
    {
        let changed = self.candidates.update_ranked(ranked);
        self.needs_refresh = false;
        changed
    }

    /// Selects a slot that shows a clip; then no refresh is owed.
    pub fn select_slot(&mut self, slot: usize) -> (selected: bool)
        ensures
            selected == (slot < 4 && old(self)@.candidates.slots[slot as int] is Some),
            selected ==> final(self)@ == (SelectionView {
                candidates: CandidateView {
                    held: true,
                    selected_slot: Some(slot),
                    ..old(self)@.candidates
                },
                needs_refresh: false,
                ..old(self)@
            }),
            !selected ==> final(self)@ == old(self)@,
    {
        let selected = self.candidates.select(slot);
        if selected {
            self.needs_refresh = false;
        }
        selected
    }

    /// Toggles the hold. Releasing forgets the last refresh and owes a new one, so that
    /// the candidates follow the music again at once.
    pub fn toggle_hold(&mut self)
        ensures
            final(self)@.candidates == toggled(old(self)@.candidates),
            old(self)@.candidates.held ==> final(self)@.last_refresh is None
                && final(self)@.needs_refresh,
            !old(self)@.candidates.held ==> final(self)@.last_refresh == old(self)@.last_refresh
                && final(self)@.needs_refresh == old(self)@.needs_refresh,
    {
        let was_held = self.candidates.is_held();
        self.candidates.toggle_hold();
        if was_held {
            self.refresh.reset();
            self.needs_refresh = true;
        }
    }

    /// Forgets the last refresh, as when capture starts.
    pub fn reset_refresh(&mut self)
        ensures
            final(self)@ == (SelectionView { last_refresh: None, ..old(self)@ }),
    {
        self.refresh.reset();
    }
}

/// After the user releases held candidates, the next ranking with features at hand is
/// called for at once.
pub proof fn lemma_release_refreshes_at_once(v: SelectionView, now: u128)
    requires
        v.last_refresh is None,
        v.needs_refresh,
        !v.candidates.held,
    ensures
        ranking_called_for(v, now, false, true),
{
}

/// Without new search features, as during silence or while input is stopped, the
/// candidates stay as they are unless a refresh is owed.
pub proof fn lemma_no_features_keeps_candidates(v: SelectionView, now: u128, has: bool)
    requires
        !v.needs_refresh,
    ensures
        !ranking_called_for(v, now, false, has),
{
}

/// While the candidates are held, no ranking is called for.
pub proof fn lemma_held_never_ranks(v: SelectionView, now: u128, received: bool, has: bool)
    requires
        v.candidates.held,
    ensures
        !ranking_called_for(v, now, received, has),
{
}

/// What the latest analysis says, for the status line.
#[derive(Clone, Copy, Debug, PartialEq, Eq, Structural)]
pub enum ReadingState {
    /// No analysis result yet.
    Waiting,
    /// The latest result found silence.
    Silent,
    /// The latest result found sound.
    Audible,
}

/// The status line of the candidate panel.
pub open spec fn status_line(
    demo: bool,
    capturing: bool,
    reading: ReadingState,
    has_search_features: bool,
    held: bool,
) -> Seq<char> {
    if !demo && !capturing {
        "入力を開始すると候補を提案します"@
    } else {
        match reading {
            ReadingState::Waiting => "音声待機中 — 音源の再生とデバイスを確認してください"@,
            ReadingState::Silent => "無音を検出: 候補を保持中"@,
            ReadingState::Audible => if !has_search_features {
                "有音入力を 1 秒分待機中"@
            } else if held {
                "候補を固定中"@
            } else {
                "候補を自動更新中"@
            },
        }
    }
}

/// The status line of the candidate panel: whether input runs, what the latest analysis
/// found, and whether the candidates follow it.
pub fn analysis_status(
    demo: bool,
    capturing: bool,
    reading: ReadingState,
    has_search_features: bool,
    held: bool,
) -> (text: &'static str)
    ensures
        text@ == status_line(demo, capturing, reading, has_search_features, held),
{
    if !demo && !capturing {
        return "入力を開始すると候補を提案します";
    }
    match reading {
        ReadingState::Waiting => "音声待機中 — 音源の再生とデバイスを確認してください",
        ReadingState::Silent => "無音を検出: 候補を保持中",
        ReadingState::Audible => {
            if !has_search_features {
                "有音入力を 1 秒分待機中"
            } else if held {
                "候補を固定中"
            } else {
                "候補を自動更新中"
            }
        },
    }
}

/// The tempo badge: waiting for input, stable, or still estimating.
pub fn tempo_status(has_levels: bool, stable: bool) -> (text: &'static str)
    ensures
        text@ == if !has_levels {
            "入力待ち"@
        } else if stable {
            "安定"@
        } else {
            "推定中"@
        },
{
    if !has_levels {
        "入力待ち"
    } else if stable {
        "安定"
    } else {
        "推定中"
    }
}

/// How long the beat lamp stays lit after a beat: 100 ms, in nanoseconds.
pub const BEAT_LAMP_NANOS: u64 = 100_000_000;

/// The beat lamp is lit while a tempo is known and less than `BEAT_LAMP_NANOS` passed
/// since the last beat (a beat stamped after `now` counts as just now).
pub open spec fn lamp_lit(has_bpm: bool, last_beat_at: Option<u64>, now: u64) -> bool {
    has_bpm && (last_beat_at matches Some(at) && (now < at || now - at < BEAT_LAMP_NANOS))
}

/// Whether the beat lamp is lit at `now`, given whether a tempo is known and when the
/// last beat came (nanoseconds on one clock).
pub fn beat_lamp_lit(has_bpm: bool, last_beat_at: Option<u64>, now: u64) -> (lit: bool)
    ensures
        lit == lamp_lit(has_bpm, last_beat_at, now),
{
    match last_beat_at {
        Some(at) => has_bpm && (now < at || now - at < BEAT_LAMP_NANOS),
        None => false,
    }
}

/// The clip a preview slot plays and the frame it shows.
#[derive(Debug)]
pub struct PreviewCursor {
    clip_id: Option<ClipId>,
    frame_index: usize,
}

/// A preview cursor by its plain values.
pub struct CursorView {
    pub clip: Option<Seq<char>>,
    pub frame_index: usize,
}

impl View for PreviewCursor {
    type V = CursorView;

    closed spec fn view(&self) -> CursorView {
        CursorView {
            clip: match self.clip_id {
                Some(id) => Some(id@),
                None => None,
            },
            frame_index: self.frame_index,
        }
    }
}

impl PreviewCursor {
    /// A slot with no clip.
    pub fn new() -> (c: PreviewCursor)
        ensures
            c@.clip is None,
            c@.frame_index == 0,
    {
        PreviewCursor { clip_id: None, frame_index: 0 }
    }

    /// The clip the slot plays.
    pub fn clip_id(&self) -> (id: Option<&ClipId>)
        ensures
            match id {
                Some(i) => self@.clip == Some(i@),
                None => self@.clip is None,
            },
    {
        match &self.clip_id {
            Some(id) => Some(id),
            None => None,
        }
    }

    /// The frame the slot shows.
    pub fn frame_index(&self) -> (index: usize)
        ensures
            index == self@.frame_index,
    {
        self.frame_index
    }

    /// Plays `clip` from its first frame, unless it is already the one playing. Returns
    /// whether the clip changed.
    pub fn set_clip(&mut self, clip: Option<ClipId>) -> (changed: bool)
        ensures
            changed == (old(self)@.clip != match clip {
                Some(id) => Some(id@),
                None => None::<Seq<char>>,
            }),
            changed ==> final(self)@ == (CursorView {
                clip: match clip {
                    Some(id) => Some(id@),
                    None => None,
                },
                frame_index: 0,
            }),
            !changed ==> final(self)@ == old(self)@,
    {
        let same = match (&self.clip_id, &clip) {
            (Some(current), Some(next)) => current.same(next),
            (None, None) => true,
            _ => false,
        };
        if same {
            return false;
        }
        self.clip_id = clip;
        self.frame_index = 0;
        true
    }

    /// Moves `frames` frames on, looping over a clip of `frame_count` frames. A clip with
    /// no frames stays where it is.
    pub fn advance(&mut self, frame_count: usize, frames: usize)
        ensures
            final(self)@.clip == old(self)@.clip,
            final(self)@.frame_index == if frame_count > 0 {
                ((old(self)@.frame_index + frames) % (frame_count as int)) as usize
            } else {
                old(self)@.frame_index
            },
    {
        if frame_count > 0 {
            let a = self.frame_index % frame_count;
            let b = frames % frame_count;
            let sum = if a >= frame_count - b {
                a - (frame_count - b)
            } else {
                a + b
            };
            proof {
                let i = self.frame_index as int;
                let f = frames as int;
                let n = frame_count as int;
                vstd::arithmetic::div_mod::lemma_add_mod_noop(i, f, n);
                let x = (a + b) as int;
                if x >= n {
                    vstd::arithmetic::div_mod::lemma_mod_sub_multiples_vanish(x, n);
                    vstd::arithmetic::div_mod::lemma_small_mod((x - n) as nat, n as nat);
                    assert(-n + x == sum);
                } else {
                    vstd::arithmetic::div_mod::lemma_small_mod(x as nat, n as nat);
                }
            }
            self.frame_index = sum;
        }
    }
}

} // verus!
