use vstd::prelude::*;

verus! {

/// The sample rate of the demonstration signal.
pub const DEMO_SAMPLE_RATE: u64 = 48_000;

/// How many seconds each part of the demonstration signal lasts.
pub const DEMO_SEGMENT_SECONDS: u64 = 5;

/// The four parts of the demonstration signal, which repeat in this order.
#[derive(Clone, Copy, Debug, PartialEq, Eq, Structural)]
pub enum DemoSegment {
    LowQuiet,
    HighQuiet,
    LowLoud,
    HighLoud,
}

/// Which part of the demonstration signal sample `sample_index` belongs to.
pub open spec fn segment_of(sample_index: u64) -> DemoSegment {
    let part = (sample_index / (DEMO_SAMPLE_RATE * DEMO_SEGMENT_SECONDS) as u64) % 4;
    if part == 0 {
        DemoSegment::LowQuiet
    } else if part == 1 {
        DemoSegment::HighQuiet
    } else if part == 2 {
        DemoSegment::LowLoud
    } else {
        DemoSegment::HighLoud
    }
}

/// Which part of the demonstration signal sample `sample_index` belongs to: five seconds
/// of each, low and quiet, high and quiet, low and loud, high and loud, over again.
pub fn demo_segment(sample_index: u64) -> (segment: DemoSegment)
    ensures
        segment == segment_of(sample_index),
{
    let part = (sample_index / (DEMO_SAMPLE_RATE * DEMO_SEGMENT_SECONDS)) % 4;
    if part == 0 {
        DemoSegment::LowQuiet
    } else if part == 1 {
        DemoSegment::HighQuiet
    } else if part == 2 {
        DemoSegment::LowLoud
    } else {
        DemoSegment::HighLoud
    }
}

/// The tempo of the demonstration signal, in beats per minute.
pub const DEMO_BPM: u64 = 120;

/// How many samples one beat of the demonstration signal lasts.
pub const DEMO_BEAT_SAMPLES: u64 = DEMO_SAMPLE_RATE * 60 / DEMO_BPM;

/// How many samples after the start of its beat sample `sample_index` comes: the signal
/// pulses at `DEMO_BPM`, a beat starting at every multiple of `DEMO_BEAT_SAMPLES`.
pub fn demo_beat_offset(sample_index: u64) -> (offset: u64)
    ensures
        offset == sample_index % DEMO_BEAT_SAMPLES,
        offset < DEMO_BEAT_SAMPLES,
{
    sample_index % DEMO_BEAT_SAMPLES
}

} // verus!
