use simple_raytracer::mesh_format::{
    find_byte, parse_index, parse_mesh, split_fields, MeshParseError, MeshText,
};

fn lines(src: &[&str]) -> Vec<Vec<u8>> {
    src.iter().map(|s| s.as_bytes().to_vec()).collect()
}

fn parse(src: &[&str]) -> Result<MeshText, MeshParseError> {
    parse_mesh(&lines(src))
}

#[test]
fn single_triangle() {
    let mesh = parse(&["v 0 0 0", "v 1 0 0", "v 0 1 0", "f 1 2 3"]).unwrap();
    assert_eq!(mesh.triangles.len(), 1);
    let t = &mesh.triangles[0];
    assert_eq!(t.vert_a.x, b"0");
    assert_eq!(t.vert_b.x, b"1");
    assert_eq!(t.vert_b.y, b"0");
    assert_eq!(t.vert_c.y, b"1");
    assert!(t.normals.is_none());
    assert!(t.uvs.is_none());
}

#[test]
fn quad_becomes_fan_of_two() {
    let mesh = parse(&["v 0 0 0", "v 1 0 0", "v 1 1 0", "v 0 1 0", "f 1 2 3 4"]).unwrap();
    assert_eq!(mesh.triangles.len(), 2);
    // Both triangles share the anchor corner 1.
    assert_eq!(mesh.triangles[0].vert_a.x, b"0");
    assert_eq!(mesh.triangles[0].vert_b.x, b"1");
    assert_eq!(mesh.triangles[0].vert_c.y, b"1");
    assert_eq!(mesh.triangles[1].vert_a.x, b"0");
    assert_eq!(mesh.triangles[1].vert_b.x, b"1");
    assert_eq!(mesh.triangles[1].vert_b.y, b"1");
    assert_eq!(mesh.triangles[1].vert_c.x, b"0");
    assert_eq!(mesh.triangles[1].vert_c.y, b"1");
}

#[test]
fn full_references_resolve_normals_and_uvs() {
    let mesh = parse(&[
        "v 0 0 0",
        "v 1 0 0",
        "v 0 1 0",
        "vn 0 0 1",
        "vn 0 1 0",
        "vn 1 0 0",
        "vt 0.5 0.25",
        "vt 0.75 0.5",
        "vt 0.125 0.875",
        "f 1/1/1 2/2/2 3/3/3",
    ])
    .unwrap();
    assert_eq!(mesh.triangles.len(), 1);
    let t = &mesh.triangles[0];
    let n = t.normals.as_ref().unwrap();
    assert_eq!(n.a.z, b"1");
    assert_eq!(n.b.y, b"1");
    assert_eq!(n.c.x, b"1");
    let uv = t.uvs.as_ref().unwrap();
    assert_eq!(uv.a.u, b"0.5");
    assert_eq!(uv.a.v, b"0.25");
    assert_eq!(uv.c.v, b"0.875");
}

#[test]
fn corner_without_second_slash_drops_its_uv() {
    // "1/1" has no second slash, so its texture index is dropped; the face
    // then carries a texture index for no corner at all would be ragged,
    // so drop them all alike.
    let mesh = parse(&["v 0 0 0", "v 1 0 0", "v 0 1 0", "f 1/1 2/2 3/3"]).unwrap();
    assert_eq!(mesh.triangles.len(), 1);
    assert!(mesh.triangles[0].uvs.is_none());
    assert!(mesh.triangles[0].normals.is_none());
}

#[test]
fn empty_uv_part_keeps_only_normals() {
    let mesh = parse(&[
        "v 0 0 0",
        "v 1 0 0",
        "v 0 1 0",
        "vn 0 0 1",
        "f 1//1 2//1 3//1",
    ])
    .unwrap();
    assert_eq!(mesh.triangles.len(), 1);
    let t = &mesh.triangles[0];
    assert!(t.uvs.is_none());
    let n = t.normals.as_ref().unwrap();
    assert_eq!(n.a.z, b"1");
    assert_eq!(n.b.z, b"1");
    assert_eq!(n.c.z, b"1");
}

#[test]
fn blank_and_unknown_lines_are_ignored() {
    let mesh = parse(&[
        "",
        "# a comment line",
        "o name",
        "v 0 0 0",
        "v 1 0 0",
        "v 0 1 0",
        "",
        "f 1 2 3",
    ])
    .unwrap();
    assert_eq!(mesh.triangles.len(), 1);
}

#[test]
fn extra_spaces_between_fields() {
    let mesh = parse(&["v  0   0  0", "v 1 0 0", "v 0 1 0", "f  1  2   3"]).unwrap();
    assert_eq!(mesh.triangles.len(), 1);
    assert_eq!(mesh.triangles[0].vert_b.x, b"1");
}

#[test]
fn plus_signed_index_is_accepted() {
    let mesh = parse(&["v 0 0 0", "v 1 0 0", "v 0 1 0", "f +1 +2 +3"]).unwrap();
    assert_eq!(mesh.triangles.len(), 1);
}

#[test]
fn one_byte_line_is_truncated() {
    let r = parse(&["v 0 0 0", "v"]);
    assert_eq!(r.unwrap_err(), MeshParseError::TruncatedLine { line_no: 1 });
}

#[test]
fn vertex_with_wrong_field_count() {
    assert_eq!(
        parse(&["v 0 0"]).unwrap_err(),
        MeshParseError::BadVertex { line_no: 0 }
    );
    assert_eq!(
        parse(&["v 0 0 0 0"]).unwrap_err(),
        MeshParseError::BadVertex { line_no: 0 }
    );
    assert_eq!(
        parse(&["vn 1"]).unwrap_err(),
        MeshParseError::BadVertex { line_no: 0 }
    );
}

#[test]
fn uv_needs_two_fields() {
    assert_eq!(
        parse(&["vt 0.5"]).unwrap_err(),
        MeshParseError::BadUv { line_no: 0 }
    );
    // A third field is tolerated and ignored.
    let mesh = parse(&[
        "v 0 0 0",
        "v 1 0 0",
        "v 0 1 0",
        "vn 0 0 1",
        "vt 1 2 3",
        "f 1/1/1 2/1/1 3/1/1",
    ])
    .unwrap();
    let uv = mesh.triangles[0].uvs.as_ref().unwrap();
    assert_eq!(uv.a.u, b"1");
    assert_eq!(uv.a.v, b"2");
}

#[test]
fn face_with_too_few_corners() {
    assert_eq!(
        parse(&["v 0 0 0", "v 1 0 0", "f 1 2"]).unwrap_err(),
        MeshParseError::ShortFace { line_no: 2 }
    );
}

#[test]
fn face_with_non_numeric_index() {
    assert_eq!(
        parse(&["v 0 0 0", "f 1 2 x"]).unwrap_err(),
        MeshParseError::BadIndex { line_no: 1 }
    );
    assert_eq!(
        parse(&["v 0 0 0", "f 1 -2 3"]).unwrap_err(),
        MeshParseError::BadIndex { line_no: 1 }
    );
}

#[test]
fn face_index_too_large_for_machine() {
    assert_eq!(
        parse(&["v 0 0 0", "f 1 2 99999999999999999999999999"]).unwrap_err(),
        MeshParseError::BadIndex { line_no: 1 }
    );
}

#[test]
fn face_index_out_of_range() {
    assert_eq!(
        parse(&["v 0 0 0", "v 1 0 0", "v 0 1 0", "f 1 2 4"]).unwrap_err(),
        MeshParseError::UnknownIndex { line_no: 3 }
    );
    assert_eq!(
        parse(&["v 0 0 0", "v 1 0 0", "v 0 1 0", "f 0 1 2"]).unwrap_err(),
        MeshParseError::UnknownIndex { line_no: 3 }
    );
}

#[test]
fn face_references_only_earlier_records() {
    // The vertex defined after the face is unknown to it.
    assert_eq!(
        parse(&["v 0 0 0", "v 1 0 0", "f 1 2 3", "v 0 1 0"]).unwrap_err(),
        MeshParseError::UnknownIndex { line_no: 2 }
    );
}

#[test]
fn ragged_face_attributes() {
    assert_eq!(
        parse(&["v 0 0 0", "v 1 0 0", "v 0 1 0", "vn 0 0 1", "f 1//1 2 3"]).unwrap_err(),
        MeshParseError::RaggedFace { line_no: 4 }
    );
    // A corner whose uv reference lacks the second slash is dropped,
    // leaving the others ragged.
    assert_eq!(
        parse(&["v 0 0 0", "v 1 0 0", "v 0 1 0", "vt 0 0", "f 1/1 2/1/1 3/1/1"]).unwrap_err(),
        MeshParseError::RaggedFace { line_no: 4 }
    );
}

#[test]
fn fields_are_maximal_runs_of_non_spaces() {
    let line: Vec<u8> = b"  a bb  c ".to_vec();
    assert_eq!(split_fields(&line, 0), vec![b"a".to_vec(), b"bb".to_vec(), b"c".to_vec()]);
    // Splitting from an offset sees only the tail, even mid-token.
    assert_eq!(split_fields(&line, 5), vec![b"b".to_vec(), b"c".to_vec()]);
    assert_eq!(split_fields(&line, 10), Vec::<Vec<u8>>::new());
}

#[test]
fn find_byte_returns_the_first_occurrence() {
    let tok: Vec<u8> = b"1/2/3".to_vec();
    assert_eq!(find_byte(&tok, b'/'), Some(1));
    assert_eq!(find_byte(&tok, b'3'), Some(4));
    assert_eq!(find_byte(&tok, b'x'), None);
}

#[test]
fn index_parsing_accepts_plain_and_signed_decimals() {
    assert_eq!(parse_index(&b"12".to_vec()), Some(12));
    assert_eq!(parse_index(&b"+12".to_vec()), Some(12));
    assert_eq!(parse_index(&b"0".to_vec()), Some(0));
    assert_eq!(parse_index(&b"".to_vec()), None);
    assert_eq!(parse_index(&b"+".to_vec()), None);
    assert_eq!(parse_index(&b"1x".to_vec()), None);
    assert_eq!(parse_index(&b"-1".to_vec()), None);
    assert_eq!(parse_index(&b"99999999999999999999999999".to_vec()), None);
}

#[test]
fn two_faces_accumulate() {
    let mesh = parse(&[
        "v 0 0 0",
        "v 1 0 0",
        "v 0 1 0",
        "f 1 2 3",
        "v 2 2 2",
        "f 2 3 4",
    ])
    .unwrap();
    assert_eq!(mesh.triangles.len(), 2);
    assert_eq!(mesh.triangles[1].vert_c.x, b"2");
}
