use console_renderer::{group_triangles, parse_obj, resolve_faces};

#[test]
fn faces_resolve_to_zero_based_positions() {
    let entries = parse_obj("v 0 0 0\nv 1 0 0\nv 0 1 0\nf 1 2 3\nf 3/1 1 2\n");
    let corners = resolve_faces(&entries, &vec![true, true, true]);
    assert_eq!(corners, vec![0, 1, 2, 2, 0, 1]);
}

#[test]
fn face_with_out_of_range_reference_is_skipped() {
    let entries = parse_obj("v 0 0 0\nv 1 0 0\nv 0 1 0\nf 1 2 4\nf 1 2 3\n");
    let corners = resolve_faces(&entries, &vec![true, true, true]);
    assert_eq!(corners, vec![0, 1, 2]);
}

#[test]
fn face_with_zero_reference_is_skipped() {
    let entries = parse_obj("v 0 0 0\nv 1 0 0\nv 0 1 0\nf 0 1 2\n");
    let corners = resolve_faces(&entries, &vec![true, true, true]);
    assert_eq!(corners, Vec::<usize>::new());
}

#[test]
fn face_cannot_reference_a_later_vertex() {
    let entries = parse_obj("v 0 0 0\nv 1 0 0\nf 1 2 3\nv 0 1 0\nf 1 2 3\n");
    let corners = resolve_faces(&entries, &vec![true, true, true]);
    assert_eq!(corners, vec![0, 1, 2]);
}

#[test]
fn rejected_vertices_take_no_number() {
    // The second vertex line's coordinates did not read as numbers.
    let entries = parse_obj("v 0 0 0\nv a b c\nv 1 0 0\nv 0 1 0\nf 1 2 3\nf 1 2 4\n");
    let corners = resolve_faces(&entries, &vec![true, false, true, true]);
    assert_eq!(corners, vec![0, 1, 2]);
}

#[test]
fn missing_acceptance_counts_as_rejected() {
    let entries = parse_obj("v 0 0 0\nv 1 0 0\nf 1 2\n");
    let corners = resolve_faces(&entries, &vec![true]);
    assert_eq!(corners, Vec::<usize>::new());
}

#[test]
fn corners_group_in_consecutive_triples() {
    let triangles = group_triangles(&vec![0, 1, 2, 2, 3, 0, 4]);
    assert_eq!(triangles, vec![(0, 1, 2), (2, 3, 0)]);
}

#[test]
fn too_few_corners_give_no_triangle() {
    assert_eq!(group_triangles(&vec![]), vec![]);
    assert_eq!(group_triangles(&vec![5, 6]), vec![]);
}

#[test]
fn quad_face_gives_a_triangle_and_a_leftover() {
    let entries = parse_obj("v 0 0 0\nv 1 0 0\nv 1 1 0\nv 0 1 0\nf 1 2 3 4\n");
    let corners = resolve_faces(&entries, &vec![true; 4]);
    assert_eq!(group_triangles(&corners), vec![(0, 1, 2)]);
}

#[test]
fn inserted_entryless_lines_change_nothing() {
    let plain = "v 0 0 0\nv 1 0 0\nv 0 1 0\nf 1 2 3\n";
    let noisy = "# header\nv 0 0 0\n\nv 1.0 2.0\nv 1 0 0\nvt 0.5 0.5\nvn 0 0 1\no part\nv 0 1 0\n   \nf 1 2 3\n";
    let plain_entries = parse_obj(plain);
    let noisy_entries = parse_obj(noisy);
    assert_eq!(noisy_entries, plain_entries);
    let accepted = vec![true; 3];
    assert_eq!(resolve_faces(&noisy_entries, &accepted), resolve_faces(&plain_entries, &accepted));
}

#[test]
fn inserted_rejected_vertex_changes_no_corner() {
    let plain = parse_obj("v 0 0 0\nv 1 0 0\nf 1 2 2\nv 0 1 0\nf 3 2 1\n");
    let noisy = parse_obj("v 0 0 0\nv a b c\nv 1 0 0\nf 1 2 2\nv 0 1 0\nf 3 2 1\n");
    let expected = resolve_faces(&plain, &vec![true, true, true]);
    assert_eq!(expected, vec![0, 1, 1, 2, 1, 0]);
    assert_eq!(resolve_faces(&noisy, &vec![true, false, true, true]), expected);
}
