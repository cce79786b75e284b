use vstd::prelude::*;

use std::time::Duration;

verus! {

/// The total number of nanoseconds in a duration, as `Duration::as_nanos` returns it.
pub uninterp spec fn duration_nanos(d: Duration) -> u128;

/// Calls `Duration::as_nanos`, which returns the total number of whole nanoseconds the
/// duration holds; the contract names that number `duration_nanos`.
#[verifier::external_body]
fn nanos_of(d: Duration) -> (n: u128)
    ensures
        n == duration_nanos(d),
{
    d.as_nanos()
}

/// How long the candidates stay before the next refresh: two seconds.
pub const CANDIDATE_REFRESH_INTERVAL_NANOS: u128 = 2_000_000_000;

/// Whether a refresh is due at `now` when the last one was at `last` (both in
/// nanoseconds since the start): always at first, then once two seconds have passed.
/// A clock that runs backwards counts as no time passed.
pub open spec fn refresh_due(last: Option<u128>, now: u128) -> bool {
    match last {
        None => true,
        Some(at) => now >= at && now - at >= CANDIDATE_REFRESH_INTERVAL_NANOS,
    }
}

/// When the candidates were last refreshed.
#[derive(Debug)]
pub struct CandidateRefresh {
    last_refresh: Option<Duration>,
}

impl View for CandidateRefresh {
    type V = Option<u128>;

    /// The time of the last refresh, in nanoseconds since the start.
    closed spec fn view(&self) -> Option<u128> {
        match self.last_refresh {
            Some(at) => Some(duration_nanos(at)),
            None => None,
        }
    }
}

impl Default for CandidateRefresh {
    fn default() -> (refresh: Self)
        ensures
            refresh@ is None,
    {
        CandidateRefresh { last_refresh: None }
    }
}

impl CandidateRefresh {
    /// Whether the candidates are due for a refresh at `elapsed` since the start; when
    /// they are, `elapsed` becomes the time of the last refresh.
    pub fn due_at(&mut self, elapsed: Duration) -> (due: bool)
        ensures
            due == refresh_due(old(self)@, duration_nanos(elapsed)),
            final(self)@ == if due {
                Some(duration_nanos(elapsed))
            } else {
                old(self)@
            },
    {
        let now = nanos_of(elapsed);
        let due = match self.last_refresh {
            Some(last_refresh) => {
                let at = nanos_of(last_refresh);
                now >= at && now - at >= CANDIDATE_REFRESH_INTERVAL_NANOS
            },
            None => true,
        };
        if due {
            self.last_refresh = Some(elapsed);
        }
        due
    }

    /// Forgets the last refresh, so that the next check is due at once.
    pub fn reset(&mut self)
        ensures
            final(self)@ is None,
    {
        self.last_refresh = None;
    }
}

/// Two refreshes are at least two seconds apart: after a refresh at `first`, no check at
/// a time less than two seconds later is due.
pub proof fn lemma_refresh_spacing(first: u128, second: u128)
    ensures
        refresh_due(Some(first), second) ==> second >= first + CANDIDATE_REFRESH_INTERVAL_NANOS,
        second >= first + CANDIDATE_REFRESH_INTERVAL_NANOS ==> refresh_due(Some(first), second),
{
}

/// After a reset, the next check is due whatever the time.
pub proof fn lemma_reset_makes_due(now: u128)
    ensures
        refresh_due(None, now),
{
}

} // verus!
