use comanche::camera::{forward_step, saturating_add, strafe_step, Camera};
use comanche::geometry::Vec3;
use comanche::keys::{KeyAction, KeyEvent, KEY_A, KEY_D, KEY_S, KEY_W};

fn press(k: i32) -> KeyEvent {
    KeyEvent { key: k, action: KeyAction::Press }
}

fn release(k: i32) -> KeyEvent {
    KeyEvent { key: k, action: KeyAction::Release }
}

fn v(x: i64, y: i64, z: i64) -> Vec3 {
    Vec3 { x, y, z }
}

#[test]
fn forward_tick_from_start_moves_half_a_unit() {
    let mut c = Camera::new();
    assert_eq!(c.position, v(0, 0, 5000));
    assert_eq!(c.direction, v(0, 0, -1000));
    c.on_key(press(KEY_W));
    c.advance();
    assert_eq!(c.position, v(0, 0, 4500));
}

#[test]
fn idle_tick_keeps_position() {
    let mut c = Camera::new();
    c.advance();
    assert_eq!(c.position, v(0, 0, 5000));
    let mut d = Camera::with_pose(v(123, -45, 6789), v(600, 0, -800)).unwrap();
    d.advance();
    assert_eq!(d.position, v(123, -45, 6789));
}

#[test]
fn forward_and_right_add_up() {
    let start = v(0, 0, 5000);
    let mut w = Camera::new();
    w.on_key(press(KEY_W));
    w.advance();
    let mut r = Camera::new();
    r.on_key(press(KEY_D));
    r.advance();
    let mut both = Camera::new();
    both.on_key(press(KEY_W));
    both.on_key(press(KEY_D));
    both.advance();
    assert_eq!(r.position, v(1000, 0, 5000));
    assert_eq!(both.position, v(1000, 0, 4500));
    assert_eq!(
        both.position,
        v(
            start.x + (w.position.x - start.x) + (r.position.x - start.x),
            start.y + (w.position.y - start.y) + (r.position.y - start.y),
            start.z + (w.position.z - start.z) + (r.position.z - start.z),
        )
    );
}

#[test]
fn backward_and_left_move_the_other_way() {
    let mut c = Camera::new();
    c.on_key(press(KEY_S));
    c.on_key(press(KEY_A));
    c.advance();
    assert_eq!(c.position, v(-1000, 0, 5500));
}

#[test]
fn opposite_keys_cancel() {
    let mut c = Camera::new();
    for k in [KEY_W, KEY_A, KEY_S, KEY_D] {
        c.on_key(press(k));
    }
    c.advance();
    assert_eq!(c.position, v(0, 0, 5000));
}

#[test]
fn releasing_unheld_key_changes_nothing() {
    let mut c = Camera::new();
    c.on_key(press(KEY_W));
    c.on_key(release(KEY_D));
    assert_eq!(c.position, v(0, 0, 5000));
    assert!(c.keys.contains(KEY_W));
    assert!(!c.keys.contains(KEY_D));
    c.advance();
    assert_eq!(c.position, v(0, 0, 4500));
}

#[test]
fn released_key_stops_motion() {
    let mut c = Camera::new();
    c.on_key(press(KEY_W));
    c.advance();
    c.on_key(release(KEY_W));
    c.advance();
    assert_eq!(c.position, v(0, 0, 4500));
}

#[test]
fn strafe_is_zero_when_looking_straight_up() {
    assert_eq!(strafe_step(v(0, 1000, 0)), v(0, 0, 0));
    let mut c = Camera::with_pose(v(0, 0, 0), v(0, 1000, 0)).unwrap();
    c.on_key(press(KEY_D));
    c.on_key(press(KEY_W));
    c.advance();
    assert_eq!(c.position, v(0, 500, 0));
}

#[test]
fn strafe_is_unit_length_for_diagonal_view() {
    // forward (300, 0, -400), cross with up (400, 0, 300), length 500
    assert_eq!(forward_step(v(600, 0, -800)), v(300, 0, -400));
    assert_eq!(strafe_step(v(600, 0, -800)), v(800, 0, 600));
}

#[test]
fn forward_step_rounds_toward_zero() {
    assert_eq!(forward_step(v(-3, 3, 1000)), v(-1, 1, 500));
}

#[test]
fn pose_with_long_direction_is_refused() {
    assert!(Camera::with_pose(v(0, 0, 0), v(0, 0, -1001)).is_none());
    assert!(Camera::with_pose(v(0, 0, 0), v(1000, -1000, 1000)).is_some());
}

#[test]
fn position_saturates_at_the_range_end() {
    assert_eq!(saturating_add(i64::MAX - 100, 500), i64::MAX);
    assert_eq!(saturating_add(i64::MIN + 100, -500), i64::MIN);
    assert_eq!(saturating_add(7, -9), -2);
    let mut c = Camera::with_pose(v(0, 0, i64::MIN + 100), v(0, 0, -1000)).unwrap();
    c.on_key(press(KEY_W));
    c.advance();
    assert_eq!(c.position, v(0, 0, i64::MIN));
}

#[test]
fn forward_and_right_add_up_on_a_diagonal_view() {
    let start = v(-7000, 250, 12000);
    let dir = v(600, 0, -800);
    let run = |keys: &[i32]| {
        let mut c = Camera::with_pose(start, dir).unwrap();
        for &k in keys {
            c.on_key(press(k));
        }
        c.advance();
        c.position
    };
    let w = run(&[KEY_W]);
    let r = run(&[KEY_D]);
    let both = run(&[KEY_W, KEY_D]);
    assert_eq!(w, v(-6700, 250, 11600));
    assert_eq!(r, v(-6200, 250, 12600));
    assert_eq!(both, v(-5900, 250, 12200));
}
