use raytracer::obj::{parse_obj, Face, ObjError, ObjModel};

fn lines(text: &[&str]) -> Vec<String> {
    text.iter().map(|l| l.to_string()).collect()
}

fn parse(text: &[&str]) -> Result<ObjModel, ObjError> {
    parse_obj(&lines(text))
}

#[test]
fn reads_vertices_groups_and_faces() {
    let m = parse(&[
        "# a comment",
        "o first",
        "v 0 0 0",
        "v 1.5 0 0",
        "v 0 1 -2",
        "",
        "f 1 2 3",
        "o second",
        "v 0 0 1",
        "f 4 2 1",
        "f 1 3 4",
    ])
    .unwrap();
    assert_eq!(m.vertices.len(), 4);
    assert_eq!(m.vertices[1].x, "1.5");
    assert_eq!(m.vertices[2].z, "-2");
    assert_eq!(m.groups.len(), 2);
    assert_eq!(m.groups[0].name, "first");
    assert_eq!(m.groups[0].faces, vec![Face { a: 0, b: 1, c: 2 }]);
    assert_eq!(m.groups[1].name, "second");
    assert_eq!(
        m.groups[1].faces,
        vec![Face { a: 3, b: 1, c: 0 }, Face { a: 0, b: 2, c: 3 }]
    );
}

#[test]
fn only_the_field_before_the_slash_counts() {
    let m = parse(&["o t", "v 0 0 0", "v 1 0 0", "v 0 1 0", "f 1/7/9 2//4 3/1"]).unwrap();
    assert_eq!(m.groups[0].faces, vec![Face { a: 0, b: 1, c: 2 }]);
}

#[test]
fn white_space_of_any_kind_separates_words() {
    let m = parse(&["  o\tname  extra ", "v\u{a0}1 2\u{3000}3 4", "\tv 0 0 0\r", "f 1 2 1 9"]).unwrap();
    assert_eq!(m.groups[0].name, "name");
    assert_eq!(m.vertices[0].x, "1");
    assert_eq!(m.vertices[0].y, "2");
    assert_eq!(m.vertices[0].z, "3");
    assert_eq!(m.vertices[1].z, "0");
    assert_eq!(m.groups[0].faces, vec![Face { a: 0, b: 1, c: 0 }]);
}

#[test]
fn other_words_and_empty_groups_are_kept_as_they_come() {
    let m = parse(&["vn 0 0 1", "vt 0 0", "s off", "o a", "o b", "v 1 2 3"]).unwrap();
    assert_eq!(m.vertices.len(), 1);
    assert_eq!(m.groups.len(), 2);
    assert!(m.groups[0].faces.is_empty());
    assert_eq!(m.groups[1].name, "b");
}

#[test]
fn a_plus_sign_and_leading_zeros_are_read() {
    let m = parse(&["o a", "v 0 0 0", "v 0 0 0", "f +1 02 001"]).unwrap();
    assert_eq!(m.groups[0].faces, vec![Face { a: 0, b: 1, c: 0 }]);
}

#[test]
fn object_without_name_is_refused() {
    assert_eq!(parse(&["v 0 0 0", "o"]), Err(ObjError::MissingName { line: 2 }));
}

#[test]
fn vertex_with_two_coordinates_is_refused() {
    assert_eq!(parse(&["o a", "v 0 0"]), Err(ObjError::MissingCoordinate { line: 2 }));
}

#[test]
fn face_with_two_vertices_is_refused() {
    assert_eq!(
        parse(&["o a", "v 0 0 0", "v 0 0 0", "f 1 2"]),
        Err(ObjError::MissingVertexRef { line: 4 })
    );
}

#[test]
fn index_zero_negative_or_not_a_number_is_refused() {
    let base = ["o a", "v 0 0 0"];
    for bad in ["f 0 1 1", "f 1 -1 1", "f 1 1 x", "f + 1 1", "f /1 1 1", "f 99999999999999999999999 1 1"] {
        let mut text = base.to_vec();
        text.push(bad);
        assert_eq!(parse(&text), Err(ObjError::BadIndex { line: 3 }), "{}", bad);
    }
}

#[test]
fn reference_to_a_later_vertex_is_refused() {
    assert_eq!(
        parse(&["o a", "v 0 0 0", "f 1 1 2", "v 0 0 0"]),
        Err(ObjError::UnknownVertex { line: 3 })
    );
}

#[test]
fn references_are_checked_in_order() {
    assert_eq!(
        parse(&["o a", "v 0 0 0", "f 5 x"]),
        Err(ObjError::UnknownVertex { line: 3 })
    );
    assert_eq!(
        parse(&["o a", "v 0 0 0", "f 1 x"]),
        Err(ObjError::BadIndex { line: 3 })
    );
}

#[test]
fn face_before_any_object_is_refused() {
    assert_eq!(
        parse(&["v 0 0 0", "f 1 1 1", "o a"]),
        Err(ObjError::FaceOutsideObject { line: 2 })
    );
}

#[test]
fn text_without_object_is_refused() {
    assert_eq!(parse(&["v 0 0 0"]), Err(ObjError::NoObject));
    assert_eq!(parse(&[]), Err(ObjError::NoObject));
}

#[test]
fn the_first_refused_line_decides() {
    assert_eq!(
        parse(&["o a", "v 1", "o"]),
        Err(ObjError::MissingCoordinate { line: 2 })
    );
}
