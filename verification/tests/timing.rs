use rhythm_core::timing::{time_to_line, Beat, TrackInfo};

#[test]
fn time_to_line_is_signed() {
    assert_eq!(time_to_line(0, 1000, 400), 600);
    assert_eq!(time_to_line(0, 1000, 1000), 0);
    assert_eq!(time_to_line(0, 1000, 1400), -400);
    assert_eq!(time_to_line(500_000, 2500, 500_000), 2500);
}

#[test]
fn distance_from_line_matches_shared_computation() {
    let info = TrackInfo::new(500_000);
    let b = Beat { lane: 0, hit_at: 2500 };
    assert_eq!(b.distance_from_line(&info, 500_000), 2500);
    assert_eq!(b.distance_from_line(&info, 502_500), 0);
    assert_eq!(b.distance_from_line(&info, 503_700), -1200);
}
