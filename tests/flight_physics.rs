use milburn::flight::{advance_at, isqrt, rise_at, sprite_at, Sprite};

#[test]
fn square_roots() {
    assert_eq!(isqrt(0), 0);
    assert_eq!(isqrt(1), 1);
    assert_eq!(isqrt(15), 3);
    assert_eq!(isqrt(16), 4);
    assert_eq!(isqrt(49_000_000), 7000);
    assert_eq!(isqrt(u64::MAX), 4294967295);
}

#[test]
fn rise_follows_the_ballistic_arc() {
    // v0y = sqrt(19.6 * 10) = 14; at t = 0.5 the height is 7 - 1.225.
    assert_eq!(rise_at(10, 0), 0);
    assert_eq!(rise_at(10, 5), 5);
    assert_eq!(rise_at(10, 10), 9);
    assert_eq!(rise_at(10, 20), 8);
    assert_eq!(rise_at(10, 25), 4);
}

#[test]
fn rise_truncates_toward_zero_below_the_launch_row() {
    // From the bottom row the fall is 4.9 * t * t: 0.784 at frame 4, 1.225 at frame 5.
    assert_eq!(rise_at(0, 4), 0);
    assert_eq!(rise_at(0, 5), -1);
    assert_eq!(rise_at(0, 6), -1);
    assert_eq!(rise_at(0, 10), -4);
}

#[test]
fn advance_is_half_the_column_per_second() {
    assert_eq!(advance_at(20, 7), 7);
    assert_eq!(advance_at(15, 3), 2);
    assert_eq!(advance_at(1, 50), 0);
    assert_eq!(advance_at(32767, 3162), 5180304);
}

#[test]
fn sprite_follows_the_angle() {
    assert_eq!(sprite_at(10, 20, 0), Sprite::Upright);
    assert_eq!(sprite_at(10, 20, 10), Sprite::Upright);
    assert_eq!(sprite_at(10, 20, 15), Sprite::Angled);
    assert_eq!(sprite_at(10, 20, 20), Sprite::Angled);
    assert_eq!(sprite_at(10, 20, 25), Sprite::Straight);
    assert_eq!(sprite_at(0, 20, 3), Sprite::Straight);
}

#[test]
fn no_horizontal_speed_counts_as_upright() {
    assert_eq!(sprite_at(10, 0, 5), Sprite::Upright);
    assert_eq!(sprite_at(0, 1, 5), Sprite::Upright);
}
