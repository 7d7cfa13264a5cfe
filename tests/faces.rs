use pathtracer::faces::triangle_faces;

#[test]
fn faces_group_indices_by_three() {
    let indices = vec![0u32, 1, 2, 2, 3, 0];
    assert_eq!(triangle_faces(&indices, 4), Some(vec![(0, 1, 2), (2, 3, 0)]));
}

#[test]
fn trailing_indices_are_ignored() {
    let indices = vec![0u32, 1, 2, 9, 9];
    assert_eq!(triangle_faces(&indices, 3), Some(vec![(0, 1, 2)]));
}

#[test]
fn index_past_vertices_is_refused() {
    let indices = vec![0u32, 1, 2, 1, 2, 3];
    assert_eq!(triangle_faces(&indices, 3), None);
}

#[test]
fn no_indices_no_faces() {
    let indices: Vec<u32> = Vec::new();
    assert_eq!(triangle_faces(&indices, 0), Some(Vec::new()));
}
