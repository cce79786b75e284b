use vstd::prelude::*;

verus! {

/// How long input may pause before the analysis starts afresh: 700 ms, in nanoseconds.
pub const INPUT_IDLE_TIMEOUT_NANOS: u64 = 700_000_000;

/// The sequence number expected after `sequence`, wrapping around.
pub open spec fn next_sequence(sequence: u64) -> u64 {
    if sequence == u64::MAX {
        0
    } else {
        (sequence + 1) as u64
    }
}

/// At least the idle timeout passed from `earlier` to `later` (nanoseconds on one clock);
/// a clock that runs backwards counts as no time passed.
pub open spec fn idle_elapsed(earlier: u64, later: u64) -> bool {
    later >= earlier && later - earlier >= INPUT_IDLE_TIMEOUT_NANOS
}

/// Watches the numbered samples of a capture for lost samples and for pauses between
/// callbacks.
#[derive(Debug)]
pub struct CaptureContinuity {
    next_sequence: Option<u64>,
    last_callback: Option<u64>,
}

/// What the continuity watch remembers: the sequence number it expects next, and when
/// the last callback ran.
pub struct ContinuityView {
    pub next_sequence: Option<u64>,
    pub last_callback: Option<u64>,
}

impl View for CaptureContinuity {
    type V = ContinuityView;

    closed spec fn view(&self) -> ContinuityView {
        ContinuityView { next_sequence: self.next_sequence, last_callback: self.last_callback }
    }
}

/// Whether the sample numbered `sequence`, delivered by a callback at `callback_at`, breaks
/// continuity: samples were lost before it, or its callback came at least the idle timeout
/// after the previous one.
pub open spec fn breaks_continuity(v: ContinuityView, sequence: u64, callback_at: u64) -> bool {
    (v.next_sequence is Some && v.next_sequence->0 != sequence) || (v.last_callback is Some
        && idle_elapsed(v.last_callback->0, callback_at))
}

impl Default for CaptureContinuity {
    fn default() -> (c: Self)
        ensures
            c@.next_sequence is None,
            c@.last_callback is None,
    {
        CaptureContinuity { next_sequence: None, last_callback: None }
    }
}

impl CaptureContinuity {
    /// Whether the sample numbered `sequence`, from a callback at `callback_at`
    /// (nanoseconds on the capture clock), follows a gap. The sample becomes the last one
    /// seen.
    pub fn discontinuous(&mut self, sequence: u64, callback_at: u64) -> (gap: bool)
        ensures
            gap == breaks_continuity(old(self)@, sequence, callback_at),
            final(self)@ == (ContinuityView {
                next_sequence: Some(next_sequence(sequence)),
                last_callback: Some(callback_at),
            }),
    {
        let lost = match self.next_sequence {
            Some(next) => next != sequence,
            None => false,
        };
        let paused = match self.last_callback {
            Some(last) => callback_at >= last && callback_at - last >= INPUT_IDLE_TIMEOUT_NANOS,
            None => false,
        };
        self.next_sequence = Some(if sequence == u64::MAX {
            0
        } else {
            sequence + 1
        });
        self.last_callback = Some(callback_at);
        lost || paused
    }
}

/// Samples delivered in order, each callback soon after the last, never break
/// continuity.
pub proof fn lemma_consecutive_samples_continue(sequence: u64, earlier: u64, later: u64)
    requires
        later >= earlier,
        later - earlier < INPUT_IDLE_TIMEOUT_NANOS,
    ensures
        !breaks_continuity(
            ContinuityView {
                next_sequence: Some(next_sequence(sequence)),
                last_callback: Some(earlier),
            },
            next_sequence(sequence),
            later,
        ),
{
}

/// Decides when the analysis of captured audio starts afresh: after lost samples or a
/// paused callback, and when no analysis result came for the idle timeout.
#[derive(Debug)]
pub struct CaptureMonitor {
    continuity: CaptureContinuity,
    last_analysis_at: Option<u64>,
}

/// What the monitor remembers.
pub struct MonitorView {
    pub continuity: ContinuityView,
    pub last_analysis_at: Option<u64>,
}

impl View for CaptureMonitor {
    type V = MonitorView;

    closed spec fn view(&self) -> MonitorView {
        MonitorView { continuity: self.continuity@, last_analysis_at: self.last_analysis_at }
    }
}

impl CaptureMonitor {
    /// A monitor that has seen nothing.
    pub fn new() -> (m: CaptureMonitor)
        ensures
            m@.continuity.next_sequence is None,
            m@.continuity.last_callback is None,
            m@.last_analysis_at is None,
    {
        CaptureMonitor { continuity: CaptureContinuity::default(), last_analysis_at: None }
    }

    /// A sample arrived; the result says whether the analysis must start afresh before
    /// it.
    pub fn sample_arrived(&mut self, sequence: u64, callback_at: u64) -> (restart: bool)
        ensures
            restart == breaks_continuity(old(self)@.continuity, sequence, callback_at),
            final(self)@ == (MonitorView {
                continuity: ContinuityView {
                    next_sequence: Some(next_sequence(sequence)),
                    last_callback: Some(callback_at),
                },
                last_analysis_at: old(self)@.last_analysis_at,
            }),
    {
        self.continuity.discontinuous(sequence, callback_at)
    }

    /// A sample was analyzed at `now`; `produced` says whether it completed a result. The
    /// time of the last result is kept, and set by the first sample.
    pub fn sample_analyzed(&mut self, produced: bool, now: u64)
        ensures
            final(self)@ == (MonitorView {
                last_analysis_at: if produced || old(self)@.last_analysis_at is None {
                    Some(now)
                } else {
                    old(self)@.last_analysis_at
                },
                ..old(self)@
            }),
    {
        if produced || self.last_analysis_at.is_none() {
            self.last_analysis_at = Some(now);
        }
    }

    /// No sample came for a while; at `now`, the result says whether the analysis must
    /// start afresh because no result came for the idle timeout.
    pub fn waited(&mut self, now: u64) -> (restart: bool)
        ensures
            restart == (old(self)@.last_analysis_at is Some && idle_elapsed(
                old(self)@.last_analysis_at->0,
                now,
            )),
            final(self)@ == (MonitorView {
                last_analysis_at: if restart {
                    None
                } else {
                    old(self)@.last_analysis_at
                },
                ..old(self)@
            }),
    {
        let restart = match self.last_analysis_at {
            Some(last) => now >= last && now - last >= INPUT_IDLE_TIMEOUT_NANOS,
            None => false,
        };
        if restart {
            self.last_analysis_at = None;
        }
        restart
    }
}

/// When the last analysis reading that was shown came in, so that readings go dark once
/// none arrived for the idle timeout.
#[derive(Debug)]
pub struct ReadingFreshness {
    last_reading_at: Option<u64>,
}

impl View for ReadingFreshness {
    type V = Option<u64>;

    closed spec fn view(&self) -> Option<u64> {
        self.last_reading_at
    }
}

impl ReadingFreshness {
    /// Freshness with no reading yet.
    pub fn new() -> (f: ReadingFreshness)
        ensures
            f@ is None,
    {
        ReadingFreshness { last_reading_at: None }
    }

    /// When the last reading came, in nanoseconds on the capture clock.
    pub fn last_reading_at(&self) -> (at: Option<u64>)
        ensures
            at == self@,
    {
        self.last_reading_at
    }

    /// A reading from a callback at `callback_at` reaches the display at `now`. It is
    /// shown, and becomes the last reading, unless it is already the idle timeout old; the
    /// result says whether it is shown.
    pub fn record(&mut self, callback_at: u64, now: u64) -> (recorded: bool)
        ensures
            recorded == !idle_elapsed(callback_at, now),
            recorded ==> final(self)@ == Some(callback_at),
            !recorded ==> final(self)@ == old(self)@,
    {
        let stale = now >= callback_at && now - callback_at >= INPUT_IDLE_TIMEOUT_NANOS;
        if !stale {
            self.last_reading_at = Some(callback_at);
        }
        !stale
    }

    /// At `now`, whether the last reading is the idle timeout old, so that the shown
    /// readings go dark; it is then forgotten.
    pub fn expire(&mut self, now: u64) -> (stale: bool)
        ensures
            stale == (old(self)@ matches Some(t) && idle_elapsed(t, now)),
            stale ==> final(self)@ is None,
            !stale ==> final(self)@ == old(self)@,
    {
        let stale = match self.last_reading_at {
            Some(last) => now >= last && now - last >= INPUT_IDLE_TIMEOUT_NANOS,
            None => false,
        };
        if stale {
            self.last_reading_at = None;
        }
        stale
    }

    /// Forgets the last reading, as when the analysis is cleared.
    pub fn clear(&mut self)
        ensures
            final(self)@ is None,
    {
        self.last_reading_at = None;
    }
}

/// A reading that `record` shows at `now` is not darkened by `expire` at that same
/// `now`: whatever came before, the reading lasts at least the frame that showed it.
pub proof fn lemma_shown_reading_survives_its_frame(callback_at: u64, now: u64)
    requires
        !idle_elapsed(callback_at, now),
    ensures
        !(Some(callback_at) matches Some(t) && idle_elapsed(t, now)),
{
}

} // verus!
