use stl_viewer::camera::CameraState;

const AMORTIZATION: f32 = 0.95;
const WHEEL_DRAG: f32 = 512.0;
const TURN: f32 = 2.0 * std::f32::consts::PI;

#[test]
fn new_camera_is_at_rest() {
    let camera = CameraState::new(-5.0f32, 0.0);
    assert_eq!(camera.zoom, -5.0);
    assert_eq!(camera.theta, 0.0);
    assert_eq!(camera.phi, 0.0);
    assert_eq!(camera.dx, 0.0);
    assert_eq!(camera.dy, 0.0);
    assert!(!camera.drag);
}

#[test]
fn velocity_decays_by_the_amortization_each_frame() {
    let mut camera = CameraState::new(-5.0f32, 0.0);
    camera.dx = 0.2;
    camera.dy = -0.4;
    camera.theta = 1.0;
    camera.phi = 2.0;
    camera.on_frame(AMORTIZATION);
    assert_eq!(camera.dx, 0.2f32 * 0.95f32);
    assert_eq!(camera.dy, -0.4f32 * 0.95f32);
    assert_eq!(camera.theta, 1.0f32 + 0.2f32 * 0.95f32);
    assert_eq!(camera.phi, 2.0f32 + -0.4f32 * 0.95f32);
    assert_eq!(camera.zoom, -5.0);
    assert!(!camera.drag);
}

#[test]
fn velocity_comes_to_rest() {
    let mut camera = CameraState::new(-5.0f32, 0.0);
    camera.dx = 3.0;
    camera.dy = -3.0;
    let mut last = (camera.dx.abs(), camera.dy.abs());
    for _ in 0..1000 {
        camera.on_frame(AMORTIZATION);
        assert!(camera.dx.abs() <= last.0);
        assert!(camera.dy.abs() <= last.1);
        last = (camera.dx.abs(), camera.dy.abs());
    }
    assert!(camera.dx.abs() < 1e-20);
    assert!(camera.dy.abs() < 1e-20);
    // The angles have taken up the geometric series 3 * 0.95 / (1 - 0.95).
    assert!((camera.theta - 57.0).abs() < 1e-3);
    assert!((camera.phi + 57.0).abs() < 1e-3);
}

#[test]
fn frame_changes_nothing_during_a_drag() {
    let mut camera = CameraState::new(-5.0f32, 0.0);
    camera.dx = 0.2;
    camera.dy = 0.1;
    camera.on_drag_start();
    assert!(camera.drag);
    camera.on_frame(AMORTIZATION);
    assert_eq!(camera.dx, 0.2);
    assert_eq!(camera.dy, 0.1);
    assert_eq!(camera.theta, 0.0);
    assert_eq!(camera.phi, 0.0);
    camera.on_drag_end();
    assert!(!camera.drag);
    camera.on_frame(AMORTIZATION);
    assert_eq!(camera.dx, 0.2f32 * 0.95f32);
}

#[test]
fn wheel_moves_the_camera_without_bounds() {
    let mut camera = CameraState::new(-5.0f32, 0.0);
    camera.on_wheel(256.0, WHEEL_DRAG);
    assert_eq!(camera.zoom, -4.5);
    camera.on_wheel(-1024.0, WHEEL_DRAG);
    assert_eq!(camera.zoom, -6.5);
    camera.on_wheel(51200.0, WHEEL_DRAG);
    assert_eq!(camera.zoom, 93.5);
    assert_eq!(camera.theta, 0.0);
    assert!(!camera.drag);
}

#[test]
fn pointer_turns_the_camera_only_during_a_drag() {
    let mut camera = CameraState::new(-5.0f32, 0.0);
    camera.on_pointer_move(100.0, 50.0, TURN, 800.0, 600.0);
    assert_eq!(camera.theta, 0.0);
    assert_eq!(camera.phi, 0.0);
    assert_eq!(camera.dx, 0.0);
    camera.on_drag_start();
    camera.on_pointer_move(100.0, -50.0, TURN, 800.0, 600.0);
    let dx = 100.0f32 * 2.0 * std::f32::consts::PI / 800.0;
    let dy = -50.0f32 * 2.0 * std::f32::consts::PI / 600.0;
    assert_eq!(camera.dx, dx);
    assert_eq!(camera.dy, dy);
    assert_eq!(camera.theta, dx);
    assert_eq!(camera.phi, dy);
    camera.on_pointer_move(800.0, 0.0, TURN, 800.0, 600.0);
    assert_eq!(camera.dx, TURN);
    assert_eq!(camera.theta, dx + TURN);
    assert_eq!(camera.phi, dy + 0.0);
    assert_eq!(camera.zoom, -5.0);
}

#[test]
fn integers_serve_as_scalars_too() {
    let mut camera = CameraState::new(-5i64, 0);
    camera.on_wheel(1024, 512);
    assert_eq!(camera.zoom, -3);
    camera.dx = 40;
    camera.on_frame(2);
    assert_eq!(camera.dx, 80);
    assert_eq!(camera.theta, 80);
}

#[test]
fn cameras_compare_field_by_field() {
    let mut camera = CameraState::new(-5.0f32, 0.0);
    let before = camera;
    camera.on_drag_start();
    assert_ne!(camera, before);
    camera.on_drag_end();
    assert_eq!(camera, before);
    camera.on_frame(AMORTIZATION);
    assert_eq!(camera, before);
}
