use rhythm_core::judgment::JudgmentTier;
use rhythm_core::session::Session;
use rhythm_core::timing::{Beat, TrackInfo, MAX_TIME_MS};

const T0: i64 = 500_000;

fn session_with_beat() -> Session {
    let mut s = Session::new(TrackInfo::new(T0));
    s.insert_beat(Beat { lane: 2, hit_at: 1000 });
    s
}

#[test]
fn press_in_window_scores_perfect() {
    let mut s = session_with_beat();
    let fb = s.press(2, T0 + 1010).expect("beat is hittable");
    assert_eq!(fb.tier, JudgmentTier::Perfect);
    assert_eq!(fb.lane, 2);
    assert_eq!(s.current_score(), 100);
    assert_eq!(s.beat_count(), 0);
}

#[test]
fn late_press_is_miss_but_consumes_beat() {
    let mut s = session_with_beat();
    let fb = s.press(2, T0 + 1120).expect("a late beat stays hittable");
    assert_eq!(fb.tier, JudgmentTier::Miss);
    assert_eq!(s.current_score(), 0);
    assert_eq!(s.beat_count(), 0);
}

#[test]
fn press_on_empty_lane_changes_nothing() {
    let mut s = session_with_beat();
    assert!(s.press(3, T0 + 1010).is_none());
    assert_eq!(s.current_score(), 0);
    assert_eq!(s.beat_count(), 1);
}

#[test]
fn press_before_window_changes_nothing() {
    let mut s = session_with_beat();
    assert!(s.press(2, T0 + 800).is_none());
    assert_eq!(s.beat_count(), 1);
}

#[test]
fn window_edge_is_exclusive() {
    let mut s = session_with_beat();
    assert!(s.press(2, T0 + 900).is_none(), "time-to-line of exactly 100 ms is still outside");
    let fb = s.press(2, T0 + 901).expect("time-to-line of 99 ms is inside the window");
    assert_eq!(fb.tier, JudgmentTier::Meh);
    assert_eq!(s.current_score(), 10);
}

#[test]
fn press_removes_exactly_one_and_takes_the_first() {
    let mut s = Session::new(TrackInfo::new(T0));
    s.insert_beat(Beat { lane: 1, hit_at: 1000 });
    s.insert_beat(Beat { lane: 1, hit_at: 1020 });
    let fb = s.press(1, T0 + 1000).expect("both beats are hittable");
    assert_eq!(fb.tier, JudgmentTier::Perfect, "the first-inserted beat is the one claimed");
    assert_eq!(s.beat_count(), 1);
    assert_eq!(s.beats[0].hit_at, 1020);
    let fb2 = s.press(1, T0 + 1020).expect("the second beat is claimed next");
    assert_eq!(fb2.tier, JudgmentTier::Perfect);
    assert_eq!(s.beat_count(), 0);
    assert_eq!(s.current_score(), 200);
}

#[test]
fn score_accumulates_across_presses() {
    let mut s = Session::new(TrackInfo::new(T0));
    s.insert_beat(Beat { lane: 0, hit_at: 1000 });
    s.insert_beat(Beat { lane: 1, hit_at: 1020 });
    assert!(s.press(0, T0 + 1005).is_some());
    assert!(s.press(1, T0 + 1040).is_some());
    assert_eq!(s.current_score(), 150);
    assert_eq!(s.beat_count(), 0);
}

#[test]
fn sweep_removes_past_grace_threshold() {
    let mut s = session_with_beat();
    s.sweep_expired(T0 + 2001);
    assert_eq!(s.beat_count(), 0, "time-to-line of -1001 ms is past the grace threshold");
    assert_eq!(s.current_score(), 0);
}

#[test]
fn sweep_keeps_beats_at_the_threshold() {
    let mut s = session_with_beat();
    s.sweep_expired(T0 + 2000);
    assert_eq!(s.beat_count(), 1, "time-to-line of exactly -1000 ms survives");
}

#[test]
fn sweep_keeps_order_of_survivors() {
    let mut s = Session::new(TrackInfo::new(T0));
    s.insert_beat(Beat { lane: 0, hit_at: 100 });
    s.insert_beat(Beat { lane: 1, hit_at: 5000 });
    s.insert_beat(Beat { lane: 2, hit_at: 200 });
    s.insert_beat(Beat { lane: 3, hit_at: 6000 });
    s.sweep_expired(T0 + 3000);
    assert_eq!(s.beat_count(), 2);
    assert_eq!(s.beats[0].lane, 1);
    assert_eq!(s.beats[1].lane, 3);
}

#[test]
fn fresh_session_is_empty() {
    let s = Session::new(TrackInfo::new(T0));
    assert_eq!(s.current_score(), 0);
    assert_eq!(s.beat_count(), 0);
    assert_eq!(s.timing.start_at, T0);
}

#[test]
fn clock_started_session_is_in_range() {
    let s = Session::start_from_clock();
    assert_eq!(s.current_score(), 0);
    assert_eq!(s.beat_count(), 0);
    assert!(s.timing.start_at >= 0 && s.timing.start_at <= MAX_TIME_MS);
}

#[test]
fn default_chart_layout() {
    let mut s = Session::new(TrackInfo::new(T0));
    s.populate_default_chart();
    assert_eq!(s.beat_count(), 190);
    for (k, b) in s.beats.iter().enumerate() {
        assert!(b.lane < 4, "every drawn lane is one of the four columns");
        assert_eq!(b.hit_at, (10 + k as i64) * 250);
    }
    assert_eq!(s.beats[0].hit_at, 2500);
    assert_eq!(s.beats[189].hit_at, 49750);
}
