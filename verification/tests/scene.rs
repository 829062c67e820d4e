use stl_viewer::scene::{get_indices, Viewport};

#[test]
fn every_vertex_is_indexed_once_in_order() {
    assert_eq!(get_indices(0), Vec::<u32>::new());
    assert_eq!(get_indices(6), vec![0, 1, 2, 3, 4, 5]);
    assert_eq!(get_indices(36), (0..36).collect::<Vec<u32>>());
}

#[test]
fn large_meshes_are_indexed_without_wrapping() {
    let many = get_indices(65538);
    assert_eq!(many.len(), 65538);
    assert_eq!(many[65535], 65535);
    assert_eq!(many[65536], 65536);
    assert_eq!(many[65537], 65537);
    assert!(many.iter().enumerate().all(|(at, index)| *index as usize == at));
    let facets = get_indices(3 * 21846);
    assert_eq!(facets.len(), 65538);
    assert_eq!(*facets.last().unwrap(), 65537);
}

#[test]
fn viewport_needs_two_positive_sides() {
    assert!(Viewport { width: 800, height: 600 }.is_drawable());
    assert!(Viewport { width: 1, height: 1 }.is_drawable());
    assert!(!Viewport { width: 800, height: 0 }.is_drawable());
    assert!(!Viewport { width: 0, height: 600 }.is_drawable());
    assert!(!Viewport { width: 0, height: 0 }.is_drawable());
}
