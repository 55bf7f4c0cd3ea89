//! One play session: the immutable track timing, the set of in-flight
//! beats, the running score, hit resolution and the expiry sweep.

use crate::host;
use crate::judgment::{classify, classify_spec, points_spec, JudgmentTier};
use crate::timing::{
    time_to_line, time_to_line_spec, Beat, TrackInfo, EXPIRY_THRESHOLD_MS, HIT_WINDOW_MS,
    LANE_COUNT, MAX_TIME_MS,
};
use vstd::prelude::*;

verus! {

/// Transient outcome of one successful hit resolution, handed to the
/// presentation layer for the on-screen feedback text and the audio cue.
#[derive(Clone, Copy, Debug, PartialEq, Eq, Structural)]
pub struct FeedbackEvent {
    pub tier: JudgmentTier,
    pub lane: usize,
}

/// Whole state of one play session. Owned and mutated exclusively by the
/// single update loop; the presentation layer only reads from it.
pub struct Session {
    pub timing: TrackInfo,
    pub beats: Vec<Beat>,
    pub score: i64,
}

/// Time-to-line of one beat at instant `now`, given the track's start.
pub open spec fn beat_ttl(start_at: int, b: Beat, now: int) -> int {
    time_to_line_spec(start_at, b.hit_at as int, now)
}

/// Whether the beat at index `i` can be claimed by a press on `lane`: it
/// sits in that lane and has already entered the hit window. There is no
/// lower bound here — a very late beat stays hittable until the expiry
/// sweep takes it.
pub open spec fn hittable_at(
    beats: Seq<Beat>,
    start_at: int,
    lane: int,
    now: int,
    i: int,
) -> bool {
    &&& beats[i].lane == lane
    &&& beat_ttl(start_at, beats[i], now) < HIT_WINDOW_MS
}

/// Whether any beat of the set can be claimed by a press on `lane`.
pub open spec fn has_hittable(beats: Seq<Beat>, start_at: int, lane: int, now: int) -> bool {
    exists|i: int| 0 <= i < beats.len() && hittable_at(beats, start_at, lane, now, i)
}

/// Whether `i` is the first index, in the set's order, that a press on
/// `lane` would claim.
pub open spec fn first_hittable_at(
    beats: Seq<Beat>,
    start_at: int,
    lane: int,
    now: int,
    i: int,
) -> bool {
    &&& 0 <= i < beats.len()
    &&& hittable_at(beats, start_at, lane, now, i)
    &&& forall|j: int| 0 <= j < i ==> !hittable_at(beats, start_at, lane, now, j)
}

/// The beats that survive an expiry sweep at instant `now`: exactly those
/// whose time-to-line has not dropped below the grace threshold, in their
/// original order.
pub open spec fn surviving(beats: Seq<Beat>, start_at: int, now: int) -> Seq<Beat>
    decreases beats.len(),
{
    if beats.len() == 0 {
        Seq::empty()
    } else if beat_ttl(start_at, beats.first(), now) >= EXPIRY_THRESHOLD_MS {
        seq![beats.first()] + surviving(beats.drop_first(), start_at, now)
    } else {
        surviving(beats.drop_first(), start_at, now)
    }
}

/// Every survivor of a sweep comes from the swept set and is still within
/// the grace threshold, and every beat within the threshold survives.
proof fn lemma_surviving_props(beats: Seq<Beat>, start_at: int, now: int)
    ensures
        surviving(beats, start_at, now).len() <= beats.len(),
        forall|k: int|
            0 <= k < surviving(beats, start_at, now).len() ==> {
                let b = #[trigger] surviving(beats, start_at, now)[k];
                beats.contains(b) && beat_ttl(start_at, b, now) >= EXPIRY_THRESHOLD_MS
            },
        forall|j: int|
            0 <= j < beats.len() && beat_ttl(start_at, #[trigger] beats[j], now)
                >= EXPIRY_THRESHOLD_MS ==> surviving(beats, start_at, now).contains(beats[j]),
    decreases beats.len(),
{
    if beats.len() == 0 {
    } else {
        let rest = beats.drop_first();
        lemma_surviving_props(rest, start_at, now);
        let kept = surviving(beats, start_at, now);
        assert forall|k: int| 0 <= k < kept.len() implies {
            let b = #[trigger] kept[k];
            beats.contains(b) && beat_ttl(start_at, b, now) >= EXPIRY_THRESHOLD_MS
        } by {
            if beat_ttl(start_at, beats.first(), now) >= EXPIRY_THRESHOLD_MS && k == 0 {
                assert(kept[0] == beats[0]);
            } else {
                let kr = surviving(rest, start_at, now);
                let b = if beat_ttl(start_at, beats.first(), now) >= EXPIRY_THRESHOLD_MS {
                    kr[k - 1]
                } else {
                    kr[k]
                };
                assert(kept[k] == b);
                let w = choose|w: int| 0 <= w < rest.len() && rest[w] == b;
                assert(beats[w + 1] == b);
            }
        }
        assert forall|j: int|
            0 <= j < beats.len() && beat_ttl(start_at, #[trigger] beats[j], now)
                >= EXPIRY_THRESHOLD_MS implies kept.contains(beats[j]) by {
            if j == 0 {
                assert(kept[0] == beats[0]);
            } else {
                assert(rest[j - 1] == beats[j]);
                assert(surviving(rest, start_at, now).contains(beats[j]));
                let w = choose|w: int|
                    0 <= w < surviving(rest, start_at, now).len() && surviving(
                        rest,
                        start_at,
                        now,
                    )[w] == beats[j];
                if beat_ttl(start_at, beats.first(), now) >= EXPIRY_THRESHOLD_MS {
                    assert(kept[w + 1] == beats[j]);
                } else {
                    assert(kept[w] == beats[j]);
                }
            }
        }
    }
}

/// Appending one beat extends the survivors by that beat exactly when it is
/// still within the grace threshold.
proof fn lemma_surviving_push(beats: Seq<Beat>, start_at: int, now: int, b: Beat)
    ensures
        surviving(beats.push(b), start_at, now) == (if beat_ttl(start_at, b, now)
            >= EXPIRY_THRESHOLD_MS {
            surviving(beats, start_at, now).push(b)
        } else {
            surviving(beats, start_at, now)
        }),
    decreases beats.len(),
{
    let pushed = beats.push(b);
    if beats.len() == 0 {
        assert(pushed.first() == b);
        assert(pushed.drop_first() =~= Seq::<Beat>::empty());
        assert(surviving(Seq::<Beat>::empty(), start_at, now) =~= Seq::<Beat>::empty());
        assert(beats =~= Seq::<Beat>::empty());
        if beat_ttl(start_at, b, now) >= EXPIRY_THRESHOLD_MS {
            assert(surviving(pushed, start_at, now) =~= seq![b]
                + surviving(pushed.drop_first(), start_at, now));
            assert(surviving(pushed, start_at, now) =~= surviving(
                beats,
                start_at,
                now,
            ).push(b));
        }
    } else {
        assert(pushed.first() == beats.first());
        assert(pushed.drop_first() =~= beats.drop_first().push(b));
        lemma_surviving_push(beats.drop_first(), start_at, now, b);
        if beat_ttl(start_at, b, now) >= EXPIRY_THRESHOLD_MS {
            if beat_ttl(start_at, beats.first(), now) >= EXPIRY_THRESHOLD_MS {
                assert(surviving(pushed, start_at, now) =~= surviving(
                    beats,
                    start_at,
                    now,
                ).push(b));
            }
        }
    }
}

impl Session {
    /// Track timing is representable, the score never went negative, and
    /// every in-flight beat is well formed.
    pub open spec fn wf(self) -> bool {
        &&& self.timing.wf()
        &&& 0 <= self.score
        &&& forall|i: int| 0 <= i < self.beats@.len() ==> (#[trigger] self.beats@[i]).wf()
    }

    /// Fresh session: no beats in flight, score zero.
    pub fn new(timing: TrackInfo) -> (s: Session)
        requires
            timing.wf(),
        ensures
            s.wf(),
            s.timing == timing,
            s.beats@.len() == 0,
            s.score == 0,
    {
        Session { timing, beats: Vec::new(), score: 0 }
    }

    /// Start a session at the host's current wall-clock moment. A clock
    /// outside the engine's representable range is clamped to the nearest
    /// bound.
    pub fn start_from_clock() -> (s: Session)
        ensures
            s.wf(),
            s.beats@.len() == 0,
            s.score == 0,
    {
        let raw = host::clock_now_ms();
        let start_at: i64 = if raw < 0 {
            0
        } else if raw > MAX_TIME_MS {
            MAX_TIME_MS
        } else {
            raw
        };
        Session::new(TrackInfo::new(start_at))
    }

    /// Add one beat to the set; nothing else changes.
    pub fn insert_beat(&mut self, b: Beat)
        requires
            old(self).wf(),
            b.wf(),
        ensures
            final(self).wf(),
            final(self).timing == old(self).timing,
            final(self).score == old(self).score,
            final(self).beats@ == old(self).beats@.push(b),
    {
        self.beats.push(b);
    }

    /// Append the default chart the engine ships with: one beat every
    /// 250 ms from 2500 ms after the start, 190 in all, each in a lane
    /// drawn at random, in schedule order.
    pub fn populate_default_chart(&mut self)
        requires
            old(self).wf(),
        ensures
            final(self).wf(),
            final(self).timing == old(self).timing,
            final(self).score == old(self).score,
            final(self).beats@.len() == old(self).beats@.len() + 190,
            forall|k: int|
                0 <= k < old(self).beats@.len() ==> final(self).beats@[k] == old(
                    self,
                ).beats@[k],
            forall|k: int|
                0 <= k < 190 ==> {
                    let b = #[trigger] final(self).beats@[old(self).beats@.len() + k];
                    b.hit_at == (10 + k) * 250 && b.lane < LANE_COUNT
                },
    {
        let ghost orig = self.beats@;
        let mut i: usize = 10;
        while i < 200
            invariant
                10 <= i <= 200,
                self.wf(),
                self.timing == old(self).timing,
                self.score == old(self).score,
                self.beats@.len() == orig.len() + i - 10,
                forall|k: int| 0 <= k < orig.len() ==> self.beats@[k] == orig[k],
                forall|k: int|
                    0 <= k < i - 10 ==> {
                        let b = #[trigger] self.beats@[orig.len() + k];
                        b.hit_at == (10 + k) * 250 && b.lane < LANE_COUNT
                    },
            decreases 200 - i,
        {
            let lane = host::random_below(LANE_COUNT);
            let hit_at: i64 = (i as i64) * 250;
            self.beats.push(Beat { lane, hit_at });
            i += 1;
        }
    }

    /// Find the index of the first beat a press on `lane` would claim at
    /// instant `now`, if any beat in that lane is inside the hit window.
    fn find_first_hittable(&self, lane: usize, now: i64) -> (r: Option<usize>)
        requires
            self.wf(),
            0 <= now <= MAX_TIME_MS,
        ensures
            (r is Some) == has_hittable(
                self.beats@,
                self.timing.start_at as int,
                lane as int,
                now as int,
            ),
            r matches Some(i) ==> first_hittable_at(
                self.beats@,
                self.timing.start_at as int,
                lane as int,
                now as int,
                i as int,
            ),
    {
        let ghost start = self.timing.start_at as int;
        let n = self.beats.len();
        let mut idx: usize = 0;
        while idx < n
            invariant
                self.wf(),
                0 <= now <= MAX_TIME_MS,
                n == self.beats@.len(),
                idx <= n,
                start == self.timing.start_at as int,
                forall|j: int|
                    0 <= j < idx ==> !hittable_at(self.beats@, start, lane as int, now as int, j),
            decreases n - idx,
        {
            let b = self.beats[idx];
            if b.lane == lane {
                let d = time_to_line(self.timing.start_at, b.hit_at, now);
                if d < HIT_WINDOW_MS {
                    proof {
                        assert(hittable_at(self.beats@, start, lane as int, now as int, idx as int));
                    }
                    return Some(idx);
                }
            }
            idx += 1;
        }
        None
    }

    /// Resolve one key press on `lane` at instant `now`: claim the first
    /// hittable beat in that lane, classify it, add the tier's points to
    /// the score, remove the beat, and report the feedback event. A press
    /// with nothing hittable in its lane changes nothing and reports
    /// nothing — it is silently ignored, not an error.
    pub fn press(&mut self, lane: usize, now: i64) -> (r: Option<FeedbackEvent>)
        requires
            old(self).wf(),
            lane < LANE_COUNT,
            0 <= now <= MAX_TIME_MS,
            old(self).score <= i64::MAX - 100,
        ensures
            final(self).wf(),
            final(self).timing == old(self).timing,
            (r is Some) == has_hittable(
                old(self).beats@,
                old(self).timing.start_at as int,
                lane as int,
                now as int,
            ),
            r is None ==> final(self).beats@ == old(self).beats@ && final(self).score == old(
                self,
            ).score,
            r is Some ==> exists|i: int|
                #[trigger] first_hittable_at(
                    old(self).beats@,
                    old(self).timing.start_at as int,
                    lane as int,
                    now as int,
                    i,
                ),
            forall|i: int|
                #[trigger] first_hittable_at(
                    old(self).beats@,
                    old(self).timing.start_at as int,
                    lane as int,
                    now as int,
                    i,
                ) ==> {
                    let tier = classify_spec(
                        beat_ttl(old(self).timing.start_at as int, old(self).beats@[i], now as int),
                    );
                    &&& r == Some((FeedbackEvent { tier, lane }))
                    &&& final(self).beats@ == old(self).beats@.remove(i)
                    &&& final(self).beats@.len() == old(self).beats@.len() - 1
                    &&& final(self).score == old(self).score + points_spec(tier)
                },
    {
        let ghost start = self.timing.start_at as int;
        match self.find_first_hittable(lane, now) {
            None => None,
            Some(idx) => {
                let b = self.beats[idx];
                let d = time_to_line(self.timing.start_at, b.hit_at, now);
                let tier = classify(d);
                let pts = tier.points();
                self.score = self.score + pts;
                self.beats.remove(idx);
                proof {
                    let beats0 = old(self).beats@;
                    assert forall|i: int|
                        first_hittable_at(beats0, start, lane as int, now as int, i) implies i
                        == idx as int by {
                        if i < idx as int {
                            assert(hittable_at(beats0, start, lane as int, now as int, i));
                        } else if i > idx as int {
                            assert(!hittable_at(beats0, start, lane as int, now as int, idx as int));
                        }
                    }
                    assert forall|k: int|
                        0 <= k < self.beats@.len() implies (#[trigger] self.beats@[k]).wf() by {
                        assert(self.beats@ == beats0.remove(idx as int));
                        if k < idx as int {
                            assert(self.beats@[k] == beats0[k]);
                        } else {
                            assert(self.beats@[k] == beats0[k + 1]);
                        }
                    }
                }
                Some(FeedbackEvent { tier, lane })
            },
        }
    }

    /// Expiry sweep: remove exactly those beats whose time-to-line has
    /// dropped below the grace threshold, keeping the rest in order. The
    /// score does not change and no feedback is produced — an expired beat
    /// was never judged.
    pub fn sweep_expired(&mut self, now: i64)
        requires
            old(self).wf(),
            0 <= now <= MAX_TIME_MS,
        ensures
            final(self).wf(),
            final(self).timing == old(self).timing,
            final(self).score == old(self).score,
            final(self).beats@ == surviving(
                old(self).beats@,
                old(self).timing.start_at as int,
                now as int,
            ),
            forall|k: int|
                0 <= k < final(self).beats@.len() ==> beat_ttl(
                    old(self).timing.start_at as int,
                    #[trigger] final(self).beats@[k],
                    now as int,
                ) >= EXPIRY_THRESHOLD_MS && old(self).beats@.contains(final(self).beats@[k]),
            forall|j: int|
                0 <= j < old(self).beats@.len() && beat_ttl(
                    old(self).timing.start_at as int,
                    #[trigger] old(self).beats@[j],
                    now as int,
                ) >= EXPIRY_THRESHOLD_MS ==> final(self).beats@.contains(old(self).beats@[j]),
    {
        let ghost start = self.timing.start_at as int;
        let n = self.beats.len();
        let mut kept: Vec<Beat> = Vec::new();
        let mut i: usize = 0;
        proof {
            assert(self.beats@.take(0) =~= Seq::<Beat>::empty());
        }
        while i < n
            invariant
                self.wf(),
                0 <= now <= MAX_TIME_MS,
                n == self.beats@.len(),
                i <= n,
                start == self.timing.start_at as int,
                kept@ == surviving(self.beats@.take(i as int), start, now as int),
                forall|k: int| 0 <= k < kept@.len() ==> (#[trigger] kept@[k]).wf(),
            decreases n - i,
        {
            let b = self.beats[i];
            let d = time_to_line(self.timing.start_at, b.hit_at, now);
            proof {
                assert(self.beats@.take(i + 1) =~= self.beats@.take(i as int).push(b));
                lemma_surviving_push(self.beats@.take(i as int), start, now as int, b);
            }
            if d >= EXPIRY_THRESHOLD_MS {
                kept.push(b);
            }
            i += 1;
        }
        proof {
            assert(self.beats@.take(n as int) =~= self.beats@);
            lemma_surviving_props(self.beats@, start, now as int);
        }
        self.beats = kept;
    }

    /// Current score, for the read-only display boundary.
    pub fn current_score(&self) -> (s: i64)
        ensures
            s == self.score,
    {
        self.score
    }

    /// Number of beats still in flight.
    pub fn beat_count(&self) -> (n: usize)
        ensures
            n == self.beats@.len(),
    {
        self.beats.len()
    }
}

} // verus!
