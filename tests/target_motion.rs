use milburn::target::Target;

fn ticks(t: &mut Target, max_y: i32, n: usize) {
    for _ in 0..n {
        t.update(max_y);
    }
}

#[test]
fn bounce_from_top_to_bottom_and_back() {
    let mut t = Target::new(70);
    ticks(&mut t, 10, 9);
    assert_eq!(t.y, 9);
    assert!(!t.going_down);
    ticks(&mut t, 10, 9);
    assert_eq!(t.y, 0);
    assert!(t.going_down);
    assert_eq!(t.x, 70);
}

#[test]
fn row_stays_on_screen_and_flips_only_at_edges() {
    let max_y = 7;
    let mut t = Target::new(3);
    for _ in 0..100 {
        let before = t;
        t.update(max_y);
        assert!(t.y >= 0 && t.y < max_y);
        let at_edge = before.y == 0 || before.y == max_y - 1;
        assert_eq!(t.going_down != before.going_down, at_edge);
        assert_eq!((t.y - before.y).abs(), 1);
    }
}

#[test]
fn motion_repeats_every_period() {
    for max_y in 2..12 {
        let mut t = Target::new(5);
        ticks(&mut t, max_y, 3);
        let start = t;
        ticks(&mut t, max_y, (2 * (max_y - 1)) as usize);
        assert_eq!(t.y, start.y);
        assert_eq!(t.going_down, start.going_down);
    }
}

#[test]
fn two_row_screen_alternates() {
    let mut t = Target::new(0);
    t.update(2);
    assert_eq!(t.y, 1);
    t.update(2);
    assert_eq!(t.y, 0);
    assert!(t.going_down);
}
