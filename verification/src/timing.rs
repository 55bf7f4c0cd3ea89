//! The clock/track timeline: track timing, beats, and the single signed
//! time-to-line computation shared by rendering, hit resolution and the
//! expiry sweep.

use vstd::prelude::*;

verus! {

/// Upper bound, in milliseconds, on every timestamp and schedule offset the
/// engine works with (roughly 127,000 years past the epoch). Keeping all
/// inputs inside this bound keeps every time-to-line computation comfortably
/// inside `i64`.
pub const MAX_TIME_MS: i64 = 4_000_000_000_000_000;

/// Number of parallel lanes, each bound to one key.
pub const LANE_COUNT: usize = 4;

/// Grace threshold: a beat whose time-to-line drops below this has scrolled
/// past the hit line unplayed and is removed by the expiry sweep.
pub const EXPIRY_THRESHOLD_MS: i64 = -1000;

/// Upper edge of the hit window: a press can only claim a beat whose
/// time-to-line is strictly below this.
pub const HIT_WINDOW_MS: i64 = 100;

/// Process-wide track timing: the absolute moment, in milliseconds since the
/// epoch, at which the run began. Immutable after creation.
#[derive(Clone, Copy, Debug, PartialEq, Eq, Structural)]
pub struct TrackInfo {
    pub start_at: i64,
}

impl TrackInfo {
    /// The start moment is a representable timestamp.
    pub open spec fn wf(self) -> bool {
        0 <= self.start_at <= MAX_TIME_MS
    }

    pub fn new(start_at: i64) -> (t: TrackInfo)
        requires
            0 <= start_at <= MAX_TIME_MS,
        ensures
            t.start_at == start_at,
            t.wf(),
    {
        TrackInfo { start_at }
    }
}

/// One upcoming note: the lane it belongs to and its scheduled offset, in
/// milliseconds, from the track's start. Both are fixed for the beat's whole
/// lifetime; only the advancing clock changes its distance from the line.
#[derive(Clone, Copy, Debug, PartialEq, Eq, Structural)]
pub struct Beat {
    pub lane: usize,
    pub hit_at: i64,
}

impl Beat {
    /// The lane is one of the four columns and the schedule offset is a
    /// representable duration.
    pub open spec fn wf(self) -> bool {
        self.lane < LANE_COUNT && 0 <= self.hit_at <= MAX_TIME_MS
    }

    /// Signed distance in time from the hit line at instant `now`.
    pub fn distance_from_line(&self, info: &TrackInfo, now: i64) -> (d: i64)
        requires
            self.wf(),
            info.wf(),
            0 <= now <= MAX_TIME_MS,
        ensures
            d == time_to_line_spec(info.start_at as int, self.hit_at as int, now as int),
    {
        time_to_line(info.start_at, self.hit_at, now)
    }
}

/// Signed time from `now` to the moment a beat scheduled at
/// `start_at + hit_at` crosses the hit line: positive while the beat is
/// still approaching, negative once it has passed.
pub open spec fn time_to_line_spec(start_at: int, hit_at: int, now: int) -> int {
    start_at + hit_at - now
}

/// The one timing computation every consumer shares, so that what is
/// rendered and what is judged can never diverge.
pub fn time_to_line(start_at: i64, hit_at: i64, now: i64) -> (d: i64)
    requires
        0 <= start_at <= MAX_TIME_MS,
        0 <= hit_at <= MAX_TIME_MS,
        0 <= now <= MAX_TIME_MS,
    ensures
        d == time_to_line_spec(start_at as int, hit_at as int, now as int),
{
    start_at + hit_at - now
}

} // verus!
