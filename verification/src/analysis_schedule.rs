use vstd::prelude::*;

verus! {

/// How many analysis intervals the search features average: five of 200 ms, one second.
pub const SEARCH_WINDOW_SEGMENTS: usize = 5;

/// When analysis intervals and level-meter intervals complete, and which readings the
/// search features may use. The measurements themselves are made elsewhere; this keeps
/// the count of samples and whether the recent readings were audible.
#[derive(Debug)]
pub struct AnalysisSchedule {
    interval_samples: usize,
    meter_samples: usize,
    interval_filled: usize,
    meter_filled: usize,
    recent_audible: Vec<bool>,
    reading_pending: bool,
}

/// The schedule by its plain values.
pub struct ScheduleView {
    pub interval_samples: usize,
    pub meter_samples: usize,
    pub interval_filled: usize,
    pub meter_filled: usize,
    pub recent_audible: Seq<bool>,
    pub reading_pending: bool,
}

/// Which intervals a sample completed.
#[derive(Clone, Copy, Debug, PartialEq, Eq, Structural)]
pub struct ScheduleEvents {
    /// An analysis interval is complete: measure it, then record the reading.
    pub interval_complete: bool,
    /// A meter interval is complete: report the levels, with what `take_meter_tick` says.
    pub meter_complete: bool,
}

/// What a meter report carries besides the levels.
#[derive(Clone, Copy, Debug, PartialEq, Eq, Structural)]
pub struct MeterTick {
    /// A reading was recorded since the last report; it goes with this one.
    pub reading: bool,
    /// The search features are ready: the last five readings were all audible.
    pub search: bool,
}

/// The readings of the search window are all audible and there are five of them.
pub open spec fn search_ready(recent: Seq<bool>) -> bool {
    recent.len() == SEARCH_WINDOW_SEGMENTS && forall|k: int|
        0 <= k < recent.len() ==> #[trigger] recent[k]
}

/// The last five readings after recording `audible`.
pub open spec fn window_after(recent: Seq<bool>, audible: bool) -> Seq<bool> {
    if recent.len() == SEARCH_WINDOW_SEGMENTS {
        recent.drop_first().push(audible)
    } else {
        recent.push(audible)
    }
}

impl View for AnalysisSchedule {
    type V = ScheduleView;

    closed spec fn view(&self) -> ScheduleView {
        ScheduleView {
            interval_samples: self.interval_samples,
            meter_samples: self.meter_samples,
            interval_filled: self.interval_filled,
            meter_filled: self.meter_filled,
            recent_audible: self.recent_audible@,
            reading_pending: self.reading_pending,
        }
    }
}

/// The invariant of a schedule: both intervals hold at least one sample and are not yet
/// full, and the window holds at most five readings.
pub open spec fn schedule_wf(v: ScheduleView) -> bool {
    &&& 1 <= v.interval_samples
    &&& 1 <= v.meter_samples
    &&& v.interval_filled < v.interval_samples
    &&& v.meter_filled < v.meter_samples
    &&& v.recent_audible.len() <= SEARCH_WINDOW_SEGMENTS
}

/// The schedule after one more sample: both counts move on, and wrap to zero when their
/// interval is complete.
pub open spec fn advanced(v: ScheduleView) -> ScheduleView {
    ScheduleView {
        interval_filled: ((v.interval_filled + 1) % (v.interval_samples as int)) as usize,
        meter_filled: ((v.meter_filled + 1) % (v.meter_samples as int)) as usize,
        ..v
    }
}

/// Which intervals one more sample completes.
pub open spec fn sample_events(v: ScheduleView) -> ScheduleEvents {
    ScheduleEvents {
        interval_complete: v.interval_filled + 1 == v.interval_samples,
        meter_complete: v.meter_filled + 1 == v.meter_samples,
    }
}

/// The schedule after recording a reading: the window moves on and the reading waits for
/// the next meter report.
pub open spec fn recorded(v: ScheduleView, audible: bool) -> ScheduleView {
    ScheduleView {
        recent_audible: window_after(v.recent_audible, audible),
        reading_pending: true,
        ..v
    }
}

/// What the next meter report carries.
pub open spec fn meter_tick(v: ScheduleView) -> MeterTick {
    MeterTick {
        reading: v.reading_pending,
        search: v.reading_pending && search_ready(v.recent_audible),
    }
}

/// The schedule after a meter report: no reading waits any more.
pub open spec fn ticked(v: ScheduleView) -> ScheduleView {
    ScheduleView { reading_pending: false, ..v }
}

/// One sample as the analysis handles it: the schedule advances; when an analysis
/// interval completes, its reading (audible or not) is recorded; when a meter interval
/// completes, a meter report is taken. The new schedule, and the report if one is due.
pub open spec fn sample_step(v: ScheduleView, audible: bool) -> (ScheduleView, Option<MeterTick>) {
    let events = sample_events(v);
    let moved = advanced(v);
    let filled = if events.interval_complete {
        recorded(moved, audible)
    } else {
        moved
    };
    if events.meter_complete {
        (ticked(filled), Some(meter_tick(filled)))
    } else {
        (filled, None)
    }
}

impl AnalysisSchedule {
    #[verifier::type_invariant]
    closed spec fn inv(self) -> bool {
        schedule_wf(self@)
    }

    /// A schedule whose analysis intervals take `interval_samples` samples and whose meter
    /// intervals take `meter_samples`.
    pub fn new(interval_samples: usize, meter_samples: usize) -> (s: AnalysisSchedule)
        requires
            interval_samples >= 1,
            meter_samples >= 1,
        ensures
            s@ == (ScheduleView {
                interval_samples,
                meter_samples,
                interval_filled: 0,
                meter_filled: 0,
                recent_audible: Seq::empty(),
                reading_pending: false,
            }),
    {
        let s = AnalysisSchedule {
            interval_samples,
            meter_samples,
            interval_filled: 0,
            meter_filled: 0,
            recent_audible: Vec::new(),
            reading_pending: false,
        };
        assert(s@.recent_audible =~= Seq::<bool>::empty());
        s
    }

    /// Counts one sample toward both intervals, and says which of them it completes.
    pub fn advance(&mut self) -> (events: ScheduleEvents)
        ensures
            schedule_wf(final(self)@),
            events == sample_events(old(self)@),
            final(self)@ == advanced(old(self)@),
    {
        proof {
            use_type_invariant(&*self);
        }
        let interval_complete = self.interval_filled + 1 == self.interval_samples;
        let meter_complete = self.meter_filled + 1 == self.meter_samples;
        proof {
            let i = self.interval_filled + 1;
            let m = self.meter_filled + 1;
            if interval_complete {
                vstd::arithmetic::div_mod::lemma_mod_self_0(i as int);
            } else {
                vstd::arithmetic::div_mod::lemma_small_mod(i as nat, self.interval_samples as nat);
            }
            if meter_complete {
                vstd::arithmetic::div_mod::lemma_mod_self_0(m as int);
            } else {
                vstd::arithmetic::div_mod::lemma_small_mod(m as nat, self.meter_samples as nat);
            }
        }
        self.interval_filled = if interval_complete {
            0
        } else {
            self.interval_filled + 1
        };
        self.meter_filled = if meter_complete {
            0
        } else {
            self.meter_filled + 1
        };
        ScheduleEvents { interval_complete, meter_complete }
    }

    /// Records whether the reading of a completed analysis interval was audible; the
    /// window keeps the last five, and the reading waits for the next meter report.
    pub fn record_reading(&mut self, audible: bool)
        ensures
            schedule_wf(final(self)@),
            final(self)@ == recorded(old(self)@, audible),
    {
        proof {
            use_type_invariant(&*self);
        }
        let ghost before = self.recent_audible@;
        let len = self.recent_audible.len();
        let start: usize = if len == SEARCH_WINDOW_SEGMENTS {
            1
        } else {
            0
        };
        let mut window: Vec<bool> = Vec::new();
        let mut j: usize = start;
        while j < len
            invariant
                start <= j <= len,
                len == before.len(),
                before == self.recent_audible@,
                window@ == before.subrange(start as int, j as int),
            decreases len - j,
        {
            window.push(self.recent_audible[j]);
            assert(before.subrange(start as int, j + 1) =~= before.subrange(start as int, j as int).push(before[j as int]));
            j = j + 1;
        }
        window.push(audible);
        assert(window@ =~= window_after(before, audible));
        self.recent_audible = window;
        self.reading_pending = true;
    }

    /// What a meter report carries: the reading recorded since the last report, if any,
    /// and with it whether the search features are ready.
    pub fn take_meter_tick(&mut self) -> (tick: MeterTick)
        ensures
            schedule_wf(final(self)@),
            tick == meter_tick(old(self)@),
            final(self)@ == ticked(old(self)@),
    {
        proof {
            use_type_invariant(&*self);
        }
        let reading = self.reading_pending;
        let mut search = reading && self.recent_audible.len() == SEARCH_WINDOW_SEGMENTS;
        let mut k: usize = 0;
        while k < self.recent_audible.len()
            invariant
                k <= self.recent_audible@.len(),
                search == (reading && self.recent_audible@.len() == SEARCH_WINDOW_SEGMENTS
                    && forall|j: int| 0 <= j < k ==> #[trigger] self.recent_audible@[j]),
            decreases self.recent_audible.len() - k,
        {
            if !self.recent_audible[k] {
                search = false;
            }
            k = k + 1;
        }
        self.reading_pending = false;
        MeterTick { reading, search }
    }
}

/// After `n` samples from an empty interval of `size` samples, `n % size` are counted: an
/// interval completes exactly on every `size`-th sample.
pub open spec fn filled_after(n: nat, size: nat) -> nat
    decreases n,
{
    if n == 0 {
        0
    } else {
        (filled_after((n - 1) as nat, size) + 1) % size
    }
}

/// Counting sample by sample agrees with counting all at once.
pub proof fn lemma_filled_after(n: nat, size: nat)
    requires
        size >= 1,
    ensures
        filled_after(n, size) == n % size,
    decreases n,
{
    if n > 0 {
        lemma_filled_after((n - 1) as nat, size);
        vstd::arithmetic::div_mod::lemma_add_mod_noop_right(1, (n - 1) as int, size as int);
        let prev = filled_after((n - 1) as nat, size);
        assert(filled_after(n, size) == (prev + 1) % size);
        assert(prev as int == ((n - 1) as int) % (size as int));
        assert((1 + ((n - 1) as int) % (size as int)) % (size as int) == (1 + (n - 1) as int) % (
        size as int));
        assert(1 + (n - 1) as int == n as int);
    } else {
        vstd::arithmetic::div_mod::lemma_small_mod(0, size);
    }
}

/// The search features are ready only when the last five readings were all audible: one
/// silent reading keeps them back for the next five.
pub proof fn lemma_silence_blocks_search(recent: Seq<bool>)
    requires
        recent.len() <= SEARCH_WINDOW_SEGMENTS,
    ensures
        !search_ready(window_after(recent, false)),
        search_ready(recent) ==> search_ready(window_after(recent, true)),
{
    let after = window_after(recent, false);
    assert(after[after.len() - 1] == false);
    if search_ready(recent) {
        let next = window_after(recent, true);
        assert forall|k: int| 0 <= k < next.len() implies #[trigger] next[k] by {
            if k < next.len() - 1 {
                assert(next[k] == recent[k + 1]);
            }
        }
    }
}

/// The window after recording `readings` in order, starting from an empty one.
pub open spec fn window_of(readings: Seq<bool>) -> Seq<bool>
    decreases readings.len(),
{
    if readings.len() == 0 {
        Seq::empty()
    } else {
        window_after(window_of(readings.drop_last()), readings.last())
    }
}

/// The window holds the last five readings recorded, or all of them when fewer.
pub proof fn lemma_window_holds_last_readings(readings: Seq<bool>)
    ensures
        window_of(readings) == if readings.len() <= SEARCH_WINDOW_SEGMENTS {
            readings
        } else {
            readings.subrange(readings.len() - SEARCH_WINDOW_SEGMENTS, readings.len() as int)
        },
    decreases readings.len(),
{
    if readings.len() > 0 {
        let earlier = readings.drop_last();
        lemma_window_holds_last_readings(earlier);
        if readings.len() <= SEARCH_WINDOW_SEGMENTS {
            assert(earlier.push(readings.last()) =~= readings);
        } else if earlier.len() == SEARCH_WINDOW_SEGMENTS {
            assert(earlier.drop_first().push(readings.last()) =~= readings.subrange(
                readings.len() - SEARCH_WINDOW_SEGMENTS,
                readings.len() as int,
            ));
        } else {
            let w = earlier.subrange(earlier.len() - SEARCH_WINDOW_SEGMENTS, earlier.len() as int);
            assert(w.drop_first().push(readings.last()) =~= readings.subrange(
                readings.len() - SEARCH_WINDOW_SEGMENTS,
                readings.len() as int,
            ));
        }
    }
}

/// After the analysis starts afresh, the search features are ready exactly when at least
/// five readings were recorded and the last five were all audible: one second of new
/// audible sound.
pub proof fn lemma_search_needs_one_audible_second(readings: Seq<bool>)
    ensures
        search_ready(window_of(readings)) <==> (readings.len() >= SEARCH_WINDOW_SEGMENTS && forall|
            k: int,
        |
            readings.len() - SEARCH_WINDOW_SEGMENTS <= k < readings.len() ==> #[trigger] readings[k]),
{
    lemma_window_holds_last_readings(readings);
    let n = readings.len() as int;
    let w = window_of(readings);
    if n >= SEARCH_WINDOW_SEGMENTS {
        assert(search_ready(w) <==> (forall|k: int|
            n - SEARCH_WINDOW_SEGMENTS <= k < n ==> #[trigger] readings[k])) by {
            if search_ready(w) {
                assert forall|k: int| n - SEARCH_WINDOW_SEGMENTS <= k < n implies #[trigger]
                    readings[k] by {
                    assert(w[k - (n - SEARCH_WINDOW_SEGMENTS)] == readings[k]);
                }
            }
            if forall|k: int| n - SEARCH_WINDOW_SEGMENTS <= k < n ==> #[trigger] readings[k] {
                assert forall|j: int| 0 <= j < w.len() implies #[trigger] w[j] by {
                    assert(w[j] == readings[j + (n - SEARCH_WINDOW_SEGMENTS)]);
                }
            }
        }
    }
}

/// The schedule after `k` samples, for analysis intervals of `n` samples and meter
/// intervals of `m`, when the completed analysis intervals read `readings` in order
/// (audible or not): both counts are `k` modulo the interval; the window holds the last
/// readings of the `k / n` intervals completed; and a reading waits for the meter exactly
/// when an analysis interval completed since the last meter report.
pub open spec fn schedule_after(n: usize, m: usize, k: nat, readings: Seq<bool>) -> ScheduleView {
    ScheduleView {
        interval_samples: n,
        meter_samples: m,
        interval_filled: (k % (n as nat)) as usize,
        meter_filled: (k % (m as nat)) as usize,
        recent_audible: window_of(readings.take((k / (n as nat)) as int)),
        reading_pending: k % (n as nat) < k % (m as nat),
    }
}

/// How a count moves from `k - 1` samples to `k`, interval by interval.
proof fn lemma_count_step(k: nat, n: nat)
    requires
        n >= 1,
        k >= 1,
    ensures
        ((k - 1) as nat % n + 1 == n) <==> (k % n == 0),
        (((k - 1) as nat % n + 1) % n) == k % n,
        k % n == 0 ==> k / n == (k - 1) as nat / n + 1,
        k % n != 0 ==> k / n == (k - 1) as nat / n && k % n == (k - 1) as nat % n + 1,
{
    let p = (k - 1) as int;
    let d = n as int;
    vstd::arithmetic::div_mod::lemma_fundamental_div_mod(p, d);
    let q = p / d;
    let r = p % d;
    assert(0 <= r < d);
    if r + 1 == d {
        assert(k == (q + 1) * d + 0) by (nonlinear_arith)
            requires
                p == d * q + r,
                r + 1 == d,
                k == p + 1,
        ;
        vstd::arithmetic::div_mod::lemma_fundamental_div_mod_converse(k as int, d, q + 1, 0);
        vstd::arithmetic::div_mod::lemma_mod_self_0(d);
    } else {
        assert(k == q * d + (r + 1)) by (nonlinear_arith)
            requires
                p == d * q + r,
                k == p + 1,
        ;
        vstd::arithmetic::div_mod::lemma_fundamental_div_mod_converse(k as int, d, q, r + 1);
        vstd::arithmetic::div_mod::lemma_small_mod((r + 1) as nat, n);
    }
}

/// Counts the samples of one analysis: after `k` samples the schedule is
/// `schedule_after(n, m, k, readings)`, starting from the empty schedule at no sample.
/// The `k`-th sample completes an analysis interval exactly when `k` is a multiple of `n`,
/// and gives a meter report exactly when `k` is a multiple of `m`. That report carries a
/// reading exactly when `k % n < m` (see `lemma_reading_in_last_meter_interval`), and the
/// search features exactly when it carries a reading and the last five readings are all
/// audible (see `lemma_search_needs_one_audible_second`).
pub proof fn lemma_schedule_counts_samples(n: usize, m: usize, k: nat, readings: Seq<bool>)
    requires
        n >= 1,
        m >= 1,
        k >= 1,
        readings.len() >= k / (n as nat),
    ensures
        schedule_after(n, m, 0, readings) == (ScheduleView {
            interval_samples: n,
            meter_samples: m,
            interval_filled: 0,
            meter_filled: 0,
            recent_audible: Seq::empty(),
            reading_pending: false,
        }),
        schedule_wf(schedule_after(n, m, k, readings)),
        sample_events(schedule_after(n, m, (k - 1) as nat, readings)).interval_complete == (k % (
        n as nat) == 0),
        sample_events(schedule_after(n, m, (k - 1) as nat, readings)).meter_complete == (k % (
        m as nat) == 0),
        sample_step(
            schedule_after(n, m, (k - 1) as nat, readings),
            readings[k / (n as nat) - 1],
        ).0 == schedule_after(n, m, k, readings),
        sample_step(
            schedule_after(n, m, (k - 1) as nat, readings),
            readings[k / (n as nat) - 1],
        ).1 == if k % (m as nat) == 0 {
            Some(
                MeterTick {
                    reading: k % (n as nat) < m,
                    search: k % (n as nat) < m && search_ready(
                        window_of(readings.take((k / (n as nat)) as int)),
                    ),
                },
            )
        } else {
            None::<MeterTick>
        },
{
    let nn = n as nat;
    let mm = m as nat;
    let before = schedule_after(n, m, (k - 1) as nat, readings);
    let after = schedule_after(n, m, k, readings);
    let audible = readings[k / nn - 1];
    lemma_count_step(k, nn);
    lemma_count_step(k, mm);
    vstd::arithmetic::div_mod::lemma_small_mod(0, nn);
    vstd::arithmetic::div_mod::lemma_small_mod(0, mm);
    assert(0nat / nn == 0) by {
        vstd::arithmetic::div_mod::lemma_div_of0(nn as int);
    }
    assert(readings.take(0) =~= Seq::<bool>::empty());
    assert(schedule_after(n, m, 0, readings).recent_audible =~= Seq::<bool>::empty());
    let old_taken = readings.take(((k - 1) as nat / nn) as int);
    let new_taken = readings.take((k / nn) as int);
    if k % nn == 0 {
        assert(new_taken.drop_last() =~= old_taken);
        assert(new_taken.last() == audible);
        assert(window_of(new_taken) == window_after(window_of(old_taken), audible));
    } else {
        assert(new_taken =~= old_taken);
    }
    lemma_window_holds_last_readings(new_taken);
    let events = sample_events(before);
    let moved = advanced(before);
    let filled = if events.interval_complete {
        recorded(moved, audible)
    } else {
        moved
    };
    assert(filled.recent_audible == after.recent_audible);
    assert(filled.interval_filled == after.interval_filled);
    assert(filled.meter_filled == after.meter_filled);
    if k % mm == 0 {
        assert(filled.reading_pending == (k % nn < mm));
        assert(ticked(filled) == after);
    } else {
        assert(filled.reading_pending == after.reading_pending);
        assert(filled == after);
    }
}

/// A meter report at sample `k` (a multiple of `m`, so `k >= m`) carries a reading exactly
/// when some sample `j` among the last `m`, `k - m < j <= k`, completed an analysis
/// interval, that is, is a multiple of `n`.
pub proof fn lemma_reading_in_last_meter_interval(n: nat, m: nat, k: nat)
    requires
        n >= 1,
        m >= 1,
        k >= m,
    ensures
        (k % n < m) <==> exists|j: int| k - m < j <= k && #[trigger] (j % (n as int)) == 0,
{
    let d = n as int;
    vstd::arithmetic::div_mod::lemma_fundamental_div_mod(k as int, d);
    let q = (k as int) / d;
    let r = (k as int) % d;
    if r < m {
        let j = k - r;
        assert(j == q * d + 0) by (nonlinear_arith)
            requires
                k == d * q + r,
                j == k - r,
        ;
        vstd::arithmetic::div_mod::lemma_fundamental_div_mod_converse(j, d, q, 0);
        assert(k - m < j <= k && j % d == 0);
    } else {
        assert forall|j: int| k - m < j <= k implies #[trigger] (j % d) != 0 by {
            if j % d == 0 {
                vstd::arithmetic::div_mod::lemma_fundamental_div_mod(j, d);
                let p = j / d;
                assert(false) by (nonlinear_arith)
                    requires
                        j == d * p + 0,
                        k == d * q + r,
                        0 <= r < d,
                        r >= m,
                        k - m < j <= k,
                ;
            }
        }
    }
}

} // verus!
