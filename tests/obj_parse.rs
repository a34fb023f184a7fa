use console_renderer::{parse_obj, ObjEntry};

fn vertex(x: &str, y: &str, z: &str) -> ObjEntry {
    ObjEntry::Vertex { x: x.to_string(), y: y.to_string(), z: z.to_string() }
}

fn face(refs: Vec<usize>) -> ObjEntry {
    ObjEntry::Face { refs }
}

#[test]
fn vertex_missing_a_coordinate_is_skipped() {
    let entries = parse_obj("v 1.0 2.0\nv 1.0 2.0 3.0");
    assert_eq!(entries, vec![vertex("1.0", "2.0", "3.0")]);
}

#[test]
fn extra_vertex_fields_are_ignored() {
    let entries = parse_obj("v 1 2 3 0.5\n");
    assert_eq!(entries, vec![vertex("1", "2", "3")]);
}

#[test]
fn other_lines_give_nothing() {
    let text = "# a cube\nmtllib cube.mtl\no Cube\nvt 0.5 0.5\nvn 0 0 1\n\ns off\nusemtl m\nvertex 1 2 3\n";
    assert_eq!(parse_obj(text), Vec::<ObjEntry>::new());
}

#[test]
fn fields_split_on_any_whitespace() {
    let text = "  v\t-1.5   2e3 \t +0.25  \r\nf 1 2\t3\r\n";
    assert_eq!(parse_obj(text), vec![vertex("-1.5", "2e3", "+0.25"), face(vec![1, 2, 3])]);
}

#[test]
fn face_fields_read_up_to_the_first_slash() {
    let entries = parse_obj("f 1/2/3 4//6 7/ 12/1\n");
    assert_eq!(entries, vec![face(vec![1, 4, 7, 12])]);
}

#[test]
fn unreadable_face_references_are_dropped() {
    let entries = parse_obj("f 1 x 2 -3 /4 +5 6a\n");
    assert_eq!(entries, vec![face(vec![1, 2, 5])]);
}

#[test]
fn face_reference_too_large_for_usize_is_dropped() {
    let entries = parse_obj("f 2 99999999999999999999999999 3");
    assert_eq!(entries, vec![face(vec![2, 3])]);
}

#[test]
fn face_without_fields_is_kept_empty() {
    assert_eq!(parse_obj("f\n"), vec![face(vec![])]);
}

#[test]
fn entries_keep_file_order() {
    let text = "v 0 0 0\nv 1 0 0\nf 1 2 3\nv 0 1 0\nf 3 2 1";
    assert_eq!(
        parse_obj(text),
        vec![
            vertex("0", "0", "0"),
            vertex("1", "0", "0"),
            face(vec![1, 2, 3]),
            vertex("0", "1", "0"),
            face(vec![3, 2, 1]),
        ]
    );
}

#[test]
fn empty_text_has_no_entries() {
    assert_eq!(parse_obj(""), Vec::<ObjEntry>::new());
    assert_eq!(parse_obj("\n\n   \n"), Vec::<ObjEntry>::new());
}

#[test]
fn non_ascii_whitespace_separates_fields() {
    let entries = parse_obj("v\u{3000}1\u{A0}2\u{2003}3");
    assert_eq!(entries, vec![vertex("1", "2", "3")]);
}
