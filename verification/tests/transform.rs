use stl_viewer::camera::CameraState;
use stl_viewer::scene::Viewport;
use stl_viewer::transform::{identity, model_view_matrix, projection_matrix};

const FIELD_OF_VIEW: f32 = 45.0 * std::f32::consts::PI / 180.0;

fn translate(a: [f32; 16], by: [f32; 3]) -> [f32; 16] {
    let mut out = a;
    mat4::translate(&mut out, &a, &by);
    out
}

fn rotate_x(a: [f32; 16], angle: f32) -> [f32; 16] {
    let mut out = a;
    mat4::rotate_x(&mut out, &a, &angle);
    out
}

fn rotate_y(a: [f32; 16], angle: f32) -> [f32; 16] {
    let mut out = a;
    mat4::rotate_y(&mut out, &a, &angle);
    out
}

fn perspective(fov: f32, aspect: f32, near: f32, far: f32) -> [f32; 16] {
    let mut out = mat4::new_zero();
    mat4::perspective(&mut out, &fov, &aspect, &near, &far);
    out
}

fn model_view(camera: &CameraState<f32>) -> [f32; 16] {
    model_view_matrix(camera, 0.0, 1.0, translate, rotate_x, rotate_y)
}

fn projection(viewport: &Viewport) -> Option<[f32; 16]> {
    projection_matrix(viewport, FIELD_OF_VIEW, 1.0, 100.0, |side: u32| side as f32, perspective)
}

#[test]
fn identity_has_ones_on_the_diagonal() {
    let matrix: [f32; 16] = identity(0.0, 1.0);
    let expected: [f32; 16] = mat4::new_identity();
    assert_eq!(matrix, expected);
    assert_eq!(
        identity(0i32, 7),
        [7, 0, 0, 0, 0, 7, 0, 0, 0, 0, 7, 0, 0, 0, 0, 7]
    );
}

#[test]
fn camera_at_rest_only_moves_the_scene_away() {
    let camera = CameraState::new(-5.0f32, 0.0);
    let matrix = model_view(&camera);
    let mut expected: [f32; 16] = mat4::new_identity();
    expected[14] = -5.0;
    assert_eq!(matrix, expected);
}

#[test]
fn model_view_is_translate_then_rotate_x_then_rotate_y() {
    let mut camera = CameraState::new(-3.5f32, 0.0);
    camera.theta = 0.7;
    camera.phi = -1.2;

    let mut expected: [f32; 16] = mat4::new_identity();
    let to_translate = expected;
    mat4::translate(&mut expected, &to_translate, &[0.0, 0.0, -3.5]);
    let to_rotate = expected;
    mat4::rotate_x(&mut expected, &to_rotate, &-1.2);
    let to_rotate = expected;
    mat4::rotate_y(&mut expected, &to_rotate, &0.7);

    assert_eq!(model_view(&camera), expected);
}

#[test]
fn rotation_order_is_significant() {
    let mut camera = CameraState::new(-5.0f32, 0.0);
    camera.theta = 0.7;
    camera.phi = -1.2;
    let mut swapped = camera;
    swapped.theta = -1.2;
    swapped.phi = 0.7;
    assert_ne!(model_view(&camera), model_view(&swapped));

    let mut other_order: [f32; 16] = mat4::new_identity();
    let a = other_order;
    mat4::translate(&mut other_order, &a, &[0.0, 0.0, -5.0]);
    let a = other_order;
    mat4::rotate_y(&mut other_order, &a, &0.7);
    let a = other_order;
    mat4::rotate_x(&mut other_order, &a, &-1.2);
    assert_ne!(model_view(&camera), other_order);
}

#[test]
fn accumulated_angles_are_not_wrapped() {
    let mut camera = CameraState::new(-5.0f32, 0.0);
    camera.theta = 100.0;
    let mut expected: [f32; 16] = mat4::new_identity();
    let a = expected;
    mat4::translate(&mut expected, &a, &[0.0, 0.0, -5.0]);
    let a = expected;
    mat4::rotate_x(&mut expected, &a, &0.0);
    let a = expected;
    mat4::rotate_y(&mut expected, &a, &100.0);
    assert_eq!(model_view(&camera), expected);
}

#[test]
fn projection_takes_the_aspect_of_the_surface() {
    let viewport = Viewport { width: 800, height: 600 };
    let matrix = projection(&viewport).unwrap();
    let aspect: f32 = 800.0 / 600.0;
    assert_eq!(matrix, perspective(FIELD_OF_VIEW, aspect, 1.0, 100.0));
    assert_eq!(matrix[11], -1.0);
    assert_eq!(matrix[15], 0.0);
    assert!(matrix.iter().all(|entry| entry.is_finite()));
    let square = projection(&Viewport { width: 512, height: 512 }).unwrap();
    assert_eq!(square, perspective(FIELD_OF_VIEW, 1.0, 1.0, 100.0));
    assert_ne!(square, matrix);
}

#[test]
fn surface_without_area_has_no_projection() {
    assert!(projection(&Viewport { width: 800, height: 0 }).is_none());
    assert!(projection(&Viewport { width: 0, height: 600 }).is_none());
    assert!(projection(&Viewport { width: 0, height: 0 }).is_none());
    assert!(projection(&Viewport { width: 1, height: 1 }).is_some());
}
