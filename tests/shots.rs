use milburn::flight::Sprite;
use milburn::shot::{resolve_shot, Frame, Shot};
use milburn::target::Target;

#[test]
fn click_at_left_edge_of_bottom_row_misses_at_once() {
    let mut shot = Shot::new(0, 0, 24, 80);
    let mut target = Target::new(64);
    for k in 0..5 {
        assert_eq!(
            shot.step(&mut target),
            Frame::Drawn { row: 24, col: 0, sprite: Sprite::Upright, landed: false }
        );
        assert_eq!(shot.frame, k + 1);
    }
    assert_eq!(
        shot.step(&mut target),
        Frame::Drawn { row: 25, col: 0, sprite: Sprite::Upright, landed: true }
    );
    assert_eq!(target.y, 6);
}

#[test]
fn headless_miss_from_bottom_left() {
    let mut target = Target::new(64);
    assert!(!resolve_shot(&mut target, 24, 80, 0, 0));
    assert_eq!(target.y, 6);
}

#[test]
fn shot_through_the_target_hits() {
    let mut target = Target::new(64);
    assert!(resolve_shot(&mut target, 24, 80, 24, 32));
    // The hit comes at frame 37, after 37 ticks of the target.
    assert_eq!(target.y, 9);
    assert!(target.going_down);
}

#[test]
fn shots_that_leave_the_screen_miss() {
    let mut target = Target::new(64);
    assert!(!resolve_shot(&mut target, 24, 80, 24, 10));
    let mut target = Target::new(64);
    assert!(!resolve_shot(&mut target, 24, 80, 12, 38));
    assert_eq!(target.y, 13);
}

#[test]
fn hit_on_the_first_frame_leaves_the_target_unmoved() {
    let mut target = Target { y: 20, x: 3, going_down: true };
    let mut shot = Shot::new(4, 0, 24, 80);
    assert_eq!(shot.step(&mut target), Frame::Hit);
    assert_eq!(shot.frame, 0);
    assert_eq!(target.y, 20);
    let mut target = Target { y: 20, x: 3, going_down: true };
    assert!(resolve_shot(&mut target, 24, 80, 4, 0));
    assert_eq!(target.y, 20);
}

#[test]
fn proximity_is_five_cells_each_way() {
    // Frame 0 is at row 24, column 0.
    let mut target = Target { y: 19, x: 5, going_down: true };
    assert_eq!(Shot::new(4, 0, 24, 80).step(&mut target), Frame::Hit);
    let mut target = Target { y: 18, x: 5, going_down: true };
    assert_ne!(Shot::new(4, 0, 24, 80).step(&mut target), Frame::Hit);
    let mut target = Target { y: 19, x: 6, going_down: true };
    assert_ne!(Shot::new(4, 0, 24, 80).step(&mut target), Frame::Hit);
}
