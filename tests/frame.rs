use comanche::camera::Camera;
use comanche::frame::{DrawCall, Event, FrameLoop, Step, Viewport, NO_UNIFORM};
use comanche::geometry::Vec3;
use comanche::keys::{KeyAction, KeyEvent, KEY_D, KEY_ESCAPE, KEY_W};
use comanche::mesh::{cube_indices, cube_vertices, INDEX_COUNT};

fn key(k: i32, action: KeyAction) -> Event {
    Event::Key(KeyEvent { key: k, action })
}

fn vp(width: i32, height: i32) -> Viewport {
    Viewport { width, height }
}

#[test]
fn iteration_moves_camera_then_draws() {
    let mut f = FrameLoop::new(vp(800, 600));
    let mut c = Camera::new();
    let step = f.iterate(&mut c, &vec![key(KEY_W, KeyAction::Press)], 3);
    assert_eq!(
        step,
        Step::Draw(DrawCall {
            viewport: vp(800, 600),
            eye: Vec3 { x: 0, y: 0, z: 4500 },
            direction: Vec3 { x: 0, y: 0, z: -1000 },
            upload_mvp: true,
            index_count: 36,
        })
    );
    let step = f.iterate(&mut c, &vec![], 3);
    assert!(matches!(step, Step::Draw(d) if d.eye == Vec3 { x: 0, y: 0, z: 4000 }));
}

#[test]
fn close_request_stops_without_draw() {
    let mut f = FrameLoop::new(vp(800, 600));
    let mut c = Camera::new();
    let events = vec![key(KEY_W, KeyAction::Press), Event::Close];
    assert_eq!(f.iterate(&mut c, &events, 0), Step::Stop);
    assert!(f.terminating);
    assert_eq!(c.position, Vec3 { x: 0, y: 0, z: 5000 });
    assert_eq!(f.iterate(&mut c, &vec![], 0), Step::Stop);
}

#[test]
fn escape_press_stops_without_draw() {
    let mut f = FrameLoop::new(vp(800, 600));
    let mut c = Camera::new();
    let events = vec![key(KEY_ESCAPE, KeyAction::Press), key(KEY_D, KeyAction::Press)];
    assert_eq!(f.iterate(&mut c, &events, 0), Step::Stop);
    assert!(!c.keys.contains(KEY_ESCAPE));
    assert!(c.keys.contains(KEY_D));
}

#[test]
fn escape_release_does_not_stop() {
    let mut f = FrameLoop::new(vp(800, 600));
    let mut c = Camera::new();
    let step = f.iterate(&mut c, &vec![key(KEY_ESCAPE, KeyAction::Release)], 0);
    assert!(matches!(step, Step::Draw(_)));
    assert!(!f.terminating);
}

#[test]
fn resize_applies_in_same_iteration() {
    let mut f = FrameLoop::new(vp(800, 600));
    let mut c = Camera::new();
    let events = vec![
        Event::Resize(vp(1024, 768)),
        Event::Other,
        Event::Resize(vp(640, 480)),
        key(KEY_W, KeyAction::Release),
    ];
    match f.iterate(&mut c, &events, 0) {
        Step::Draw(d) => assert_eq!(d.viewport, vp(640, 480)),
        Step::Stop => panic!("loop stopped"),
    }
    assert_eq!(f.viewport, vp(640, 480));
    match f.iterate(&mut c, &vec![], 0) {
        Step::Draw(d) => assert_eq!(d.viewport, vp(640, 480)),
        Step::Stop => panic!("loop stopped"),
    }
}

#[test]
fn missing_uniform_skips_upload() {
    let mut f = FrameLoop::new(vp(800, 600));
    let mut c = Camera::new();
    match f.iterate(&mut c, &vec![], NO_UNIFORM) {
        Step::Draw(d) => {
            assert!(!d.upload_mvp);
            assert_eq!(d.index_count, 36);
        }
        Step::Stop => panic!("loop stopped"),
    }
}

#[test]
fn cube_mesh_is_well_formed() {
    let idx = cube_indices();
    assert_eq!(idx.len(), INDEX_COUNT as usize);
    assert!(idx.iter().all(|&i| i < 8));
    assert_eq!(
        idx,
        vec![
            0, 1, 2, 2, 3, 0, 5, 6, 7, 7, 4, 5, 3, 2, 6, 6, 7, 3, 4, 5, 1, 1, 0, 4, 1, 5, 6, 6, 2,
            1, 4, 0, 3, 3, 7, 4,
        ]
    );
    let verts = cube_vertices();
    assert_eq!(
        verts,
        vec![
            -500, -500, 500, 500, -500, 500, 500, 500, 500, -500, 500, 500, -500, -500, -500, 500,
            -500, -500, 500, 500, -500, -500, 500, -500,
        ]
    );
}
