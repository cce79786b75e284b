use vstd::prelude::*;

verus! {

/// Onsets closer than this many analysis frames to the previous one are ignored.
pub const MIN_ONSET_SPACING: usize = 20;

/// How many analysis frames of history the tempo estimate looks at.
pub const HISTORY_FRAMES: usize = 800;

/// The frame numbers of the onsets detected in the recent past, oldest first.
#[derive(Debug)]
pub struct OnsetHistory {
    onsets: Vec<usize>,
}

/// Each onset follows the one before by at least the minimum spacing.
pub open spec fn well_spaced(onsets: Seq<usize>) -> bool {
    forall|k: int|
        0 <= k < onsets.len() - 1 ==> #[trigger] onsets[k] + MIN_ONSET_SPACING <= onsets[k + 1]
}

/// Whether an onset at `frame` is far enough from the last one kept.
pub open spec fn onset_accepted(onsets: Seq<usize>, frame: usize) -> bool {
    onsets.len() == 0 || (frame >= onsets.last() && frame - onsets.last() >= MIN_ONSET_SPACING)
}

/// Whether an onset at `onset` is too old to keep at `frame`.
pub open spec fn too_old(onset: usize, frame: usize) -> bool {
    frame >= onset && frame - onset > HISTORY_FRAMES
}

/// `after` is `before` without its first `dropped` onsets, which are exactly the leading
/// ones too old to keep at `frame`.
pub open spec fn pruned(before: Seq<usize>, after: Seq<usize>, frame: usize, dropped: int) -> bool {
    &&& 0 <= dropped <= before.len()
    &&& after == before.skip(dropped)
    &&& forall|k: int| 0 <= k < dropped ==> too_old(#[trigger] before[k], frame)
    &&& dropped < before.len() ==> !too_old(before[dropped], frame)
}

impl View for OnsetHistory {
    type V = Seq<usize>;

    closed spec fn view(&self) -> Seq<usize> {
        self.onsets@
    }
}

/// Sorted: later onsets have larger frame numbers.
proof fn lemma_well_spaced_sorted(onsets: Seq<usize>, i: int, j: int)
    requires
        well_spaced(onsets),
        0 <= i < j < onsets.len(),
    ensures
        onsets[i] + MIN_ONSET_SPACING <= onsets[j],
    decreases j - i,
{
    if j > i + 1 {
        lemma_well_spaced_sorted(onsets, i, j - 1);
        assert(onsets[j - 1] + MIN_ONSET_SPACING <= onsets[j]);
    }
}

impl OnsetHistory {
    #[verifier::type_invariant]
    closed spec fn inv(self) -> bool {
        well_spaced(self.onsets@)
    }

    /// No onsets yet.
    pub fn new() -> (h: OnsetHistory)
        ensures
            h@ == Seq::<usize>::empty(),
    {
        OnsetHistory { onsets: Vec::new() }
    }

    /// How many onsets are kept.
    pub fn len(&self) -> (n: usize)
        ensures
            n == self@.len(),
    {
        self.onsets.len()
    }

    /// Keeps an onset detected at `frame` when it comes at least the minimum spacing after
    /// the last one; returns whether it was kept.
    pub fn record(&mut self, frame: usize) -> (kept: bool)
        ensures
            kept == onset_accepted(old(self)@, frame),
            final(self)@ == if kept {
                old(self)@.push(frame)
            } else {
                old(self)@
            },
            well_spaced(final(self)@),
    {
        proof {
            use_type_invariant(&*self);
        }
        let n = self.onsets.len();
        let accepted = if n == 0 {
            true
        } else {
            let last = self.onsets[n - 1];
            frame >= last && frame - last >= MIN_ONSET_SPACING
        };
        if accepted {
            let mut onsets: Vec<usize> = Vec::new();
            std::mem::swap(&mut onsets, &mut self.onsets);
            let ghost before = onsets@;
            onsets.push(frame);
            assert(well_spaced(onsets@)) by {
                assert forall|k: int| 0 <= k < onsets@.len() - 1 implies #[trigger] onsets@[k]
                    + MIN_ONSET_SPACING <= onsets@[k + 1] by {
                    if k < before.len() - 1 {
                        assert(onsets@[k] == before[k] && onsets@[k + 1] == before[k + 1]);
                    }
                }
            }
            self.onsets = onsets;
        }
        proof {
            use_type_invariant(&*self);
        }
        accepted
    }

    /// Drops the onsets that are more than the history length older than `frame`.
    pub fn prune(&mut self, frame: usize)
        ensures
            well_spaced(final(self)@),
            exists|dropped: int| #[trigger] pruned(old(self)@, final(self)@, frame, dropped),
    {
        proof {
            use_type_invariant(&*self);
        }
        let ghost original = self.onsets@;
        let mut dropped: usize = 0;
        while dropped < self.onsets.len() && frame >= self.onsets[dropped] && frame
            - self.onsets[dropped] > HISTORY_FRAMES
            invariant
                original == self.onsets@,
                dropped <= original.len(),
                forall|k: int| 0 <= k < dropped ==> too_old(#[trigger] original[k], frame),
            decreases original.len() - dropped,
        {
            dropped = dropped + 1;
        }
        assert(dropped < original.len() ==> !too_old(original[dropped as int], frame));
        let mut kept: Vec<usize> = Vec::new();
        let mut k: usize = dropped;
        while k < self.onsets.len()
            invariant
                original == self.onsets@,
                dropped <= k <= original.len(),
                kept@ == original.subrange(dropped as int, k as int),
            decreases original.len() - k,
        {
            kept.push(self.onsets[k]);
            assert(original.subrange(dropped as int, k + 1) =~= original.subrange(
                dropped as int,
                k as int,
            ).push(original[k as int]));
            k = k + 1;
        }
        assert(kept@ =~= original.skip(dropped as int));
        assert(well_spaced(kept@)) by {
            assert forall|m: int| 0 <= m < kept@.len() - 1 implies #[trigger] kept@[m]
                + MIN_ONSET_SPACING <= kept@[m + 1] by {
                assert(kept@[m] == original[dropped + m]);
                assert(kept@[m + 1] == original[dropped + m + 1]);
            }
        }
        self.onsets = kept;
        assert(self.onsets@ == original.skip(dropped as int));
        assert(pruned(original, self.onsets@, frame, dropped as int));
        assert(original == old(self)@);
        assert(self@ == self.onsets@);
        assert(pruned(old(self)@, self@, frame, dropped as int));
    }

    /// Forgets every onset.
    pub fn clear(&mut self)
        ensures
            final(self)@ == Seq::<usize>::empty(),
    {
        self.onsets = Vec::new();
    }
}

/// Any two kept onsets are at least the minimum spacing apart.
pub proof fn lemma_onsets_spaced(onsets: Seq<usize>, i: int, j: int)
    requires
        well_spaced(onsets),
        0 <= i < j < onsets.len(),
    ensures
        onsets[i] + MIN_ONSET_SPACING <= onsets[j],
{
    lemma_well_spaced_sorted(onsets, i, j);
}

/// The FFT length of the tempo analysis for `sample_rate`: the power of two at or above a
/// 24th of the rate, within 256 and 4096.
pub open spec fn is_tempo_fft_size(sample_rate: u32, size: usize) -> bool {
    let rate = if sample_rate == 0 {
        1
    } else {
        sample_rate
    };
    let wanted = rate / 24;
    &&& (size == 256 || size == 512 || size == 1024 || size == 2048 || size == 4096)
    &&& (size >= wanted || size == 4096)
    &&& (size == 256 || size / 2 < wanted)
}

/// The FFT length of the tempo analysis for `sample_rate`.
pub fn tempo_fft_size(sample_rate: u32) -> (size: usize)
    ensures
        is_tempo_fft_size(sample_rate, size),
{
    let rate = if sample_rate == 0 {
        1
    } else {
        sample_rate
    };
    let wanted = (rate / 24) as usize;
    let mut size: usize = 256;
    while size < wanted && size < 4096
        invariant
            size == 256 || size == 512 || size == 1024 || size == 2048 || size == 4096,
            size == 256 || size / 2 < wanted,
        decreases 4096 - size,
    {
        size = size * 2;
    }
    size
}

/// An onset is kept exactly when the history is empty or it comes at least the minimum
/// spacing after the last kept onset, however long after: there is no upper limit on the
/// gap, and an onset sooner than the spacing (or before the last one) is dropped.
pub proof fn lemma_spaced_onsets_are_kept(onsets: Seq<usize>, frame: usize)
    ensures
        onsets.len() == 0 ==> onset_accepted(onsets, frame),
        onsets.len() > 0 && frame >= onsets.last() + MIN_ONSET_SPACING ==> onset_accepted(
            onsets,
            frame,
        ),
        onsets.len() > 0 && frame < onsets.last() + MIN_ONSET_SPACING ==> !onset_accepted(
            onsets,
            frame,
        ),
{
}

} // verus!
