use rtweekend::mesh::{build_vertex_indices, shear_axes, triangle_corners, triangulate_face, MeshError};

#[test]
fn triangle_face_kept_as_is() {
    assert_eq!(triangulate_face(&vec![4, 7, 9]), Ok(vec![4u32, 7, 9]));
}

#[test]
fn quad_face_split_in_two() {
    assert_eq!(triangulate_face(&vec![0, 1, 2, 3]), Ok(vec![0u32, 1, 2, 3, 0, 2]));
}

#[test]
fn pentagon_face_refused() {
    assert_eq!(
        triangulate_face(&vec![0, 1, 2, 3, 4]),
        Err(MeshError::UnsupportedFace { vertex_count: 5 })
    );
    assert_eq!(triangulate_face(&vec![0, 1]), Err(MeshError::UnsupportedFace { vertex_count: 2 }));
}

#[test]
fn negative_index_refused() {
    assert_eq!(triangulate_face(&vec![0, -1, 2]), Err(MeshError::IndexOutOfRange { index: -1 }));
}

#[test]
fn index_past_u32_refused() {
    let big = u32::MAX as i64 + 1;
    assert_eq!(triangulate_face(&vec![big, -3, 2, 1]), Err(MeshError::IndexOutOfRange { index: big }));
    assert_eq!(triangulate_face(&vec![u32::MAX as i64, 0, 1]), Ok(vec![u32::MAX, 0, 1]));
}

#[test]
fn index_buffer_concatenates_faces() {
    let faces = vec![vec![0, 1, 2], vec![2, 3, 4, 5], vec![5, 6, 7]];
    assert_eq!(
        build_vertex_indices(&faces),
        Ok(vec![0u32, 1, 2, 2, 3, 4, 5, 2, 4, 5, 6, 7])
    );
    assert_eq!(build_vertex_indices(&vec![]), Ok(vec![]));
}

#[test]
fn index_buffer_reports_first_bad_face() {
    let faces = vec![vec![0, 1, 2], vec![0, 1], vec![0, -5, 1]];
    assert_eq!(build_vertex_indices(&faces), Err(MeshError::UnsupportedFace { vertex_count: 2 }));
}

#[test]
fn corners_of_second_triangle() {
    let indices = vec![0u32, 1, 2, 9, 8, 7];
    assert_eq!(triangle_corners(&indices, 1), [9usize, 8, 7]);
    assert_eq!(triangle_corners(&indices, 0), [0usize, 1, 2]);
}

#[test]
fn shear_axes_are_cyclic() {
    assert_eq!(shear_axes(0), (1, 2, 0));
    assert_eq!(shear_axes(1), (2, 0, 1));
    assert_eq!(shear_axes(2), (0, 1, 2));
}
