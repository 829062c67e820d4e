use stl_viewer::normalize::{bounding_extent, normalize, Scalars};
use stl_viewer::stl::{
    can_count_vertices, convert_words, extract_data, get_data, get_raw_data, get_vertex_words,
    read_le_word, FormatErrorKind, InvalidFileContentError,
};

type Facet = [[f32; 3]; 3];

fn scalars() -> Scalars<f32> {
    Scalars { zero: 0.0, half: 0.5, lowest: f32::NEG_INFINITY, highest: f32::INFINITY }
}

fn payload_of(facets: &[Facet]) -> Vec<u8> {
    let mut bytes = Vec::new();
    for (n, facet) in facets.iter().enumerate() {
        for k in 0..12 {
            bytes.push(0xA0u8.wrapping_add((n * 12 + k) as u8));
        }
        for vertex in facet {
            for component in vertex {
                bytes.extend_from_slice(&component.to_le_bytes());
            }
        }
        bytes.push(0xEE);
        bytes.push(0xFF);
    }
    bytes
}

fn file_with_count(count: u32, payload: &[u8]) -> Vec<u8> {
    let mut bytes = vec![0x20u8; 80];
    bytes.extend_from_slice(&count.to_le_bytes());
    bytes.extend_from_slice(payload);
    bytes
}

fn file_of(facets: &[Facet]) -> Vec<u8> {
    file_with_count(facets.len() as u32, &payload_of(facets))
}

fn quad(a: [f32; 3], b: [f32; 3], c: [f32; 3], d: [f32; 3]) -> [Facet; 2] {
    [[a, b, c], [a, c, d]]
}

fn cuboid(center: [f32; 3], half: [f32; 3]) -> Vec<Facet> {
    let p = |sx: f32, sy: f32, sz: f32| {
        [center[0] + sx * half[0], center[1] + sy * half[1], center[2] + sz * half[2]]
    };
    let mut facets = Vec::new();
    facets.extend(quad(p(-1., -1., -1.), p(1., -1., -1.), p(1., 1., -1.), p(-1., 1., -1.)));
    facets.extend(quad(p(-1., -1., 1.), p(1., -1., 1.), p(1., 1., 1.), p(-1., 1., 1.)));
    facets.extend(quad(p(-1., -1., -1.), p(1., -1., -1.), p(1., -1., 1.), p(-1., -1., 1.)));
    facets.extend(quad(p(-1., 1., -1.), p(1., 1., -1.), p(1., 1., 1.), p(-1., 1., 1.)));
    facets.extend(quad(p(-1., -1., -1.), p(-1., 1., -1.), p(-1., 1., 1.), p(-1., -1., 1.)));
    facets.extend(quad(p(1., -1., -1.), p(1., 1., -1.), p(1., 1., 1.), p(1., -1., 1.)));
    facets
}

fn decode(bytes: &[u8]) -> Result<(Vec<f32>, u32), InvalidFileContentError> {
    get_data(bytes, f32::from_bits, &scalars())
}

fn kind_of<T>(r: Result<T, InvalidFileContentError>) -> FormatErrorKind {
    match r {
        Ok(_) => panic!("the input was accepted"),
        Err(error) => error.kind,
    }
}

#[test]
fn test_cube_bytes_to_vertices() {
    let cube = file_of(&cuboid([0.0, 0.0, 0.0], [0.5, 0.5, 0.5]));
    assert_eq!(cube.len(), 84 + 12 * 50);

    let (mut vertices, num_vertices) = decode(&cube).unwrap();
    vertices.sort_by(|a, b| b.partial_cmp(a).unwrap_or(std::cmp::Ordering::Equal));

    assert_eq!(num_vertices, 36);
    assert!(vertices.first().unwrap().le(&1.0));
}

#[test]
fn test_box_bytes_to_vertices() {
    let cube = file_of(&cuboid([3.0, -1.0, 0.5], [2.0, 1.0, 0.25]));

    let (mut vertices, _) = decode(&cube).unwrap();
    vertices.sort_by(|a, b| b.partial_cmp(a).unwrap_or(std::cmp::Ordering::Equal));

    assert!(vertices.first().unwrap().le(&1.0));
}

#[test]
fn unit_cube_fills_the_viewing_volume() {
    let cube = file_of(&cuboid([0.0, 0.0, 0.0], [0.5, 0.5, 0.5]));
    let (vertices, num_vertices) = decode(&cube).unwrap();
    assert_eq!(num_vertices, 36);
    assert_eq!(vertices.len(), 108);
    assert!(vertices.iter().all(|v| (-1.0..=1.0).contains(v)));
    let largest = vertices.iter().fold(0.0f32, |m, v| m.max(v.abs()));
    assert_eq!(largest, 1.0);
    assert!(vertices.iter().all(|v| v.abs() == 1.0));
}

#[test]
fn vertex_count_is_three_times_the_facet_count() {
    for n in [1usize, 2, 7, 12, 100] {
        let mut facets = Vec::new();
        for i in 0..n {
            let x = i as f32;
            facets.push([[x, 0.0, 0.0], [x + 1.0, 2.0, 0.0], [x, 0.0, 3.0]]);
        }
        let (vertices, num_vertices) = decode(&file_of(&facets)).unwrap();
        assert_eq!(num_vertices, 3 * n as u32);
        assert_eq!(vertices.len(), 9 * n);
    }
}

#[test]
fn components_lie_in_the_unit_cube_and_touch_it() {
    let facets: Vec<Facet> = vec![
        [[1.0, 10.0, -3.0], [4.0, 12.0, -2.5], [2.5, 11.0, -2.0]],
        [[9.0, 10.5, -2.75], [3.0, 11.5, -2.25], [5.0, 10.0, -3.0]],
    ];
    let (vertices, _) = decode(&file_of(&facets)).unwrap();
    assert!(vertices.iter().all(|v| (-1.0..=1.0).contains(v)));
    assert!(vertices.iter().any(|v| *v == 1.0));
    assert!(vertices.iter().any(|v| *v == -1.0));
    // The x axis is the longest: it alone reaches the faces of the cube.
    assert_eq!(vertices[0], -1.0);
    assert_eq!(vertices[9], 1.0);
    assert_eq!(vertices[1], -0.25);
    assert_eq!(vertices[4], 0.25);
    assert_eq!(vertices[2], -0.125);
    assert_eq!(vertices[8], 0.125);
}

#[test]
fn box_is_recentred_and_divided_by_its_half_side() {
    let center = [1.0f32, 2.0, 3.0];
    let s = 2.0f32;
    let mut facets = cuboid(center, [s, s, s]);
    facets.push([[1.5, 2.25, 3.0], [0.0, 3.5, 4.75], [2.0, 0.5, 1.25]]);
    let (vertices, num_vertices) = decode(&file_of(&facets)).unwrap();
    assert_eq!(num_vertices, 39);
    let mut k = 0;
    for facet in &facets {
        for vertex in facet {
            for axis in 0..3 {
                assert_eq!(vertices[k], (vertex[axis] - center[axis]) / s);
                k += 1;
            }
        }
    }
    assert_eq!(k, vertices.len());
    assert_eq!(&vertices[108..111], &[0.25, 0.125, 0.0]);
}

#[test]
fn misaligned_payload_is_refused() {
    let payload = payload_of(&cuboid([0.0, 0.0, 0.0], [0.5, 0.5, 0.5]));
    for extra in 1..50usize {
        let mut longer = payload.clone();
        longer.extend(std::iter::repeat(0u8).take(extra));
        assert_eq!(kind_of(decode(&file_with_count(12, &longer))), FormatErrorKind::MisalignedPayload);
        assert_eq!(
            kind_of(extract_data(&file_with_count(12, &longer))),
            FormatErrorKind::MisalignedPayload
        );
        let shorter = &payload[..payload.len() - extra];
        assert_eq!(kind_of(decode(&file_with_count(12, shorter))), FormatErrorKind::MisalignedPayload);
        assert_eq!(kind_of(decode(&file_with_count(0, &payload[..extra]))), FormatErrorKind::MisalignedPayload);
    }
}

#[test]
fn altered_facet_count_is_refused() {
    let payload = payload_of(&cuboid([0.0, 0.0, 0.0], [0.5, 0.5, 0.5]));
    assert!(decode(&file_with_count(12, &payload)).is_ok());
    for count in [0u32, 1, 11, 13, 24, 600, 0x0C00, 0x0C00_0000, u32::MAX] {
        assert_eq!(
            kind_of(decode(&file_with_count(count, &payload))),
            FormatErrorKind::FacetCountMismatch
        );
        assert_eq!(
            kind_of(get_raw_data(&file_with_count(count, &payload))),
            FormatErrorKind::FacetCountMismatch
        );
    }
}

#[test]
fn coinciding_vertices_are_degenerate() {
    let point = [1.5f32, -2.0, 0.25];
    let facets: Vec<Facet> = vec![[point, point, point]; 4];
    assert_eq!(kind_of(decode(&file_of(&facets))), FormatErrorKind::DegenerateMesh);
    let origin: Vec<Facet> = vec![[[0.0; 3]; 3]];
    assert_eq!(kind_of(decode(&file_of(&origin))), FormatErrorKind::DegenerateMesh);
}

#[test]
fn flat_mesh_is_not_degenerate() {
    let facets: Vec<Facet> = vec![[[0.0, 0.0, 5.0], [2.0, 0.0, 5.0], [0.0, 1.0, 5.0]]];
    let (vertices, num_vertices) = decode(&file_of(&facets)).unwrap();
    assert_eq!(num_vertices, 3);
    assert_eq!(vertices, vec![-1.0, -0.5, 0.0, 1.0, -0.5, 0.0, -1.0, 0.5, 0.0]);
}

#[test]
fn short_header_is_refused() {
    for len in [0usize, 1, 79, 80, 83] {
        let bytes = vec![0u8; len];
        assert_eq!(kind_of(decode(&bytes)), FormatErrorKind::TruncatedHeader);
        assert_eq!(kind_of(extract_data(&bytes)), FormatErrorKind::TruncatedHeader);
        assert_eq!(kind_of(get_raw_data(&bytes)), FormatErrorKind::TruncatedHeader);
    }
}

#[test]
fn file_without_facets_holds_no_vertices() {
    let bytes = file_with_count(0, &[]);
    assert_eq!(bytes.len(), 84);
    let (payload, count) = extract_data(&bytes).unwrap();
    assert!(payload.is_empty());
    assert_eq!(count, 0);
    let (words, num_vertices) = get_raw_data(&bytes).unwrap();
    assert!(words.is_empty());
    assert_eq!(num_vertices, 0);
    let (vertices, num_vertices) = decode(&bytes).unwrap();
    assert!(vertices.is_empty());
    assert_eq!(num_vertices, 0);
}

#[test]
fn framing_hands_back_payload_and_count() {
    let facets = cuboid([0.0, 0.0, 0.0], [1.0, 2.0, 3.0]);
    let payload = payload_of(&facets);
    let (got, count) = extract_data(&file_of(&facets)).unwrap();
    assert_eq!(got, payload);
    assert_eq!(count, 12);
}

#[test]
fn words_are_read_little_endian() {
    assert_eq!(read_le_word(&[0x01, 0x02, 0x03, 0x04], 0), 0x0403_0201);
    assert_eq!(read_le_word(&[9, 0xFF, 0xFF, 0xFF, 0xFF], 1), u32::MAX);
    assert_eq!(read_le_word(&[0, 0, 0x80, 0x3F], 0), 1.0f32.to_bits());
    let mut bytes = vec![0u8; 84];
    bytes[80] = 0x2C;
    bytes[81] = 0x01;
    bytes.extend(std::iter::repeat(7u8).take(300 * 50));
    let (_, count) = extract_data(&bytes).unwrap();
    assert_eq!(count, 300);
}

#[test]
fn raw_words_are_the_bit_patterns_in_file_order() {
    let facets: Vec<Facet> =
        vec![[[1.0, -2.0, 0.5], [3.25, 0.0, -0.0], [7.0, 8.0, 9.0]], [[10.0, 11.0, 12.0]; 3]];
    let (words, num_vertices) = get_raw_data(&file_of(&facets)).unwrap();
    assert_eq!(num_vertices, 6);
    assert_eq!(words.len(), 18);
    assert_eq!(words[0], 0x3F80_0000);
    assert_eq!(words[1], 0xC000_0000);
    assert_eq!(words[2], 0x3F00_0000);
    assert_eq!(words[5], 0x8000_0000);
    let expected: Vec<u32> = facets.iter().flatten().flatten().map(|v| v.to_bits()).collect();
    assert_eq!(words, expected);
}

#[test]
fn payload_must_hold_exactly_the_declared_facets() {
    let payload = payload_of(&cuboid([0.0, 0.0, 0.0], [0.5, 0.5, 0.5]));
    assert_eq!(get_vertex_words(&payload, 12).unwrap().len(), 108);
    assert_eq!(kind_of(get_vertex_words(&payload, 11)), FormatErrorKind::TrailingData);
    assert_eq!(kind_of(get_vertex_words(&payload, 0)), FormatErrorKind::TrailingData);
    assert_eq!(kind_of(get_vertex_words(&payload, 13)), FormatErrorKind::TruncatedFacet);
    assert_eq!(kind_of(get_vertex_words(&payload[..599], 12)), FormatErrorKind::TruncatedFacet);
    assert_eq!(kind_of(get_vertex_words(&payload[..598], 12)), FormatErrorKind::TruncatedFacet);
    let mut longer = payload.clone();
    longer.push(0);
    assert_eq!(kind_of(get_vertex_words(&longer, 12)), FormatErrorKind::TrailingData);
    assert!(get_vertex_words(&[], 0).unwrap().is_empty());
}

#[test]
fn each_error_has_its_message() {
    let message = |kind| InvalidFileContentError::new(kind).message();
    assert_eq!(message(FormatErrorKind::TruncatedHeader), "STL: header too short");
    assert_eq!(message(FormatErrorKind::MisalignedPayload), "STL: payload is not aligned properly");
    assert_eq!(
        message(FormatErrorKind::FacetCountMismatch),
        "STL: payload does not match specified length"
    );
    assert_eq!(message(FormatErrorKind::TrailingData), "STL: Payload is too large");
    assert_eq!(message(FormatErrorKind::TruncatedFacet), "STL: facet is cut short");
    assert_eq!(message(FormatErrorKind::DegenerateMesh), "STL: mesh has no extent");
    assert_eq!(InvalidFileContentError::new(FormatErrorKind::TrailingData).kind, FormatErrorKind::TrailingData);
}

#[test]
fn words_are_converted_in_order() {
    let words = [1.0f32.to_bits(), (-2.5f32).to_bits(), 0];
    assert_eq!(convert_words(&words, &f32::from_bits), vec![1.0, -2.5, 0.0]);
    assert_eq!(convert_words(&words, &|w: u32| (w >> 24) as i32), vec![0x3F, 0xC0, 0]);
}

#[test]
fn extent_is_taken_axis_by_axis() {
    let values = [1.0f32, 20.0, -3.0, 4.0, 10.0, -2.0, -1.0, 15.0, -9.0];
    let extent = bounding_extent(&values, f32::NEG_INFINITY, f32::INFINITY);
    assert_eq!(extent.min.0, [-1.0, 10.0, -9.0]);
    assert_eq!(extent.max.0, [4.0, 20.0, -2.0]);
    let none: [f32; 0] = [];
    let empty = bounding_extent(&none, f32::NEG_INFINITY, f32::INFINITY);
    assert_eq!(empty.min.0, [f32::INFINITY; 3]);
    assert_eq!(empty.max.0, [f32::NEG_INFINITY; 3]);
    let whole = bounding_extent(&[5i64, 6, 7, 1, 9, 7], i64::MIN, i64::MAX);
    assert_eq!(whole.min.0, [1, 6, 7]);
    assert_eq!(whole.max.0, [5, 9, 7]);
}

#[test]
fn values_without_order_leave_the_extent_alone() {
    let values = [1.0f32, f32::NAN, 3.0, f32::NAN, 2.0, f32::NAN, -1.0, 5.0, 4.0];
    let extent = bounding_extent(&values, f32::NEG_INFINITY, f32::INFINITY);
    assert_eq!(extent.min.0, [-1.0, 2.0, 3.0]);
    assert_eq!(extent.max.0, [1.0, 5.0, 4.0]);
}

#[test]
fn normalizing_moves_then_divides() {
    let values = [0.0f32, 0.0, 0.0, 8.0, 4.0, 2.0, 2.0, 1.0, 2.0];
    let extent = bounding_extent(&values, f32::NEG_INFINITY, f32::INFINITY);
    let out = normalize(&values, &extent, 0.5, 0.0).unwrap();
    assert_eq!(out, vec![-1.0, -0.5, -0.25, 1.0, 0.5, 0.25, -0.5, -0.25, 0.25]);
    let point = [3.0f32, 3.0, 3.0, 3.0, 3.0, 3.0];
    let extent = bounding_extent(&point, f32::NEG_INFINITY, f32::INFINITY);
    assert_eq!(kind_of(normalize(&point, &extent, 0.5, 0.0)), FormatErrorKind::DegenerateMesh);
}

#[test]
fn decoding_agrees_with_plain_single_precision_arithmetic() {
    let mut state: u32 = 0x1234_5678;
    let mut next = || {
        state = state.wrapping_mul(1_664_525).wrapping_add(1_013_904_223);
        ((state >> 8) as f32 / 16_777_216.0 - 0.5) * 200.0
    };
    let mut facets: Vec<Facet> = Vec::new();
    for _ in 0..200 {
        let mut facet = [[0.0f32; 3]; 3];
        for vertex in facet.iter_mut() {
            for component in vertex.iter_mut() {
                *component = next();
            }
        }
        facets.push(facet);
    }
    let flat: Vec<f32> = facets.iter().flatten().flatten().copied().collect();

    let mut min = [f32::INFINITY; 3];
    let mut max = [f32::NEG_INFINITY; 3];
    for (k, v) in flat.iter().enumerate() {
        max[k % 3] = max[k % 3].max(*v);
        min[k % 3] = min[k % 3].min(*v);
    }
    let half: Vec<f32> = (0..3).map(|a| (max[a] - min[a]) * 0.5).collect();
    let shift: Vec<f32> = (0..3).map(|a| half[a] - max[a]).collect();
    let scale = half.iter().fold(f32::NEG_INFINITY, |m, h| m.max(*h));
    let mut expected = flat.clone();
    for (k, v) in expected.iter_mut().enumerate() {
        *v += shift[k % 3];
    }
    for v in expected.iter_mut() {
        *v /= scale;
    }

    let (vertices, num_vertices) = decode(&file_of(&facets)).unwrap();
    assert_eq!(num_vertices, 600);
    assert_eq!(vertices.len(), expected.len());
    for (got, want) in vertices.iter().zip(expected.iter()) {
        assert_eq!(got.to_bits(), want.to_bits());
    }
    assert!(vertices.iter().all(|v| v.abs() <= 1.0 + f32::EPSILON));
}

#[test]
fn rounding_can_leave_the_unit_range_by_one_step() {
    let lo = f32::from_bits(0xBF81_4D89);
    let hi = f32::from_bits(0xBDBA_FA95);
    let values = [lo, 0.0, 0.0, hi, 0.0, 0.0, lo, 0.0, 0.0];
    let extent = bounding_extent(&values, f32::NEG_INFINITY, f32::INFINITY);
    let out = normalize(&values, &extent, 0.5, 0.0).unwrap();
    assert_eq!(out[3], 1.0);
    assert_eq!(out[0].to_bits(), (-1.0f32).to_bits() + 1);
    assert!(out.iter().all(|v| v.abs() <= 1.0 + f32::EPSILON));
}

#[test]
fn vertex_count_of_any_small_file_can_be_reported() {
    assert!(can_count_vertices(&[]));
    assert!(can_count_vertices(&[0u8; 83]));
    assert!(can_count_vertices(&file_with_count(0, &[])));
    assert!(can_count_vertices(&file_with_count(u32::MAX, &[])));
    assert!(can_count_vertices(&file_with_count(u32::MAX, &[0u8; 49])));
    assert!(can_count_vertices(&file_with_count(0x6000_0000, &[0u8; 100])));
    assert!(can_count_vertices(&file_of(&cuboid([0.0, 0.0, 0.0], [0.5, 0.5, 0.5]))));
}
