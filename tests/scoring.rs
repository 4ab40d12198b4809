use milburn::game::{aim, Score};
use milburn::shot::Shot;

#[test]
fn three_misses_then_a_hit() {
    let mut s = Score::new();
    let mut seen = Vec::new();
    for _ in 0..3 {
        s.record(false);
        seen.push((s.consecutive_fails, s.taunting()));
    }
    assert_eq!(seen, vec![(1, false), (2, false), (3, true)]);
    s.record(true);
    assert_eq!(s.consecutive_fails, 0);
    assert_eq!(s.score, 1);
    assert!(!s.taunting());
}

#[test]
fn taunt_lasts_until_the_next_hit() {
    let mut s = Score::new();
    for _ in 0..10 {
        s.record(false);
    }
    assert!(s.taunting());
    assert_eq!(s.underline_row(), 2);
    s.record(true);
    assert!(!s.taunting());
    assert_eq!(s.underline_row(), 1);
}

#[test]
fn any_miss_clears_the_score() {
    let mut s = Score::new();
    for _ in 0..7 {
        s.record(true);
    }
    assert_eq!(s.score, 7);
    s.record(false);
    assert_eq!(s.score, 0);
    assert_eq!(s.consecutive_fails, 1);
}

#[test]
fn banner_plural() {
    let mut s = Score::new();
    assert_eq!(s.times_suffix(), "s");
    s.record(true);
    assert_eq!(s.times_suffix(), "");
    s.record(true);
    assert_eq!(s.times_suffix(), "s");
}

#[test]
fn clicks_in_the_left_half_launch() {
    let shot = aim(true, 20, 10, 24, 80).unwrap();
    assert_eq!(shot.launch_row, 4);
    assert_eq!(shot.launch_col, 10);
    assert_eq!(shot.frame, 0);
    assert_eq!(shot.max_y, 24);
    assert_eq!(shot.max_x, 80);
}

#[test]
fn other_clicks_do_nothing() {
    assert!(aim(true, 20, 40, 24, 80).is_none());
    assert!(aim(true, 20, 79, 24, 80).is_none());
    assert!(aim(false, 20, 10, 24, 80).is_none());
    let none: Option<Shot> = aim(false, 0, 0, 24, 80);
    assert!(none.is_none());
}
