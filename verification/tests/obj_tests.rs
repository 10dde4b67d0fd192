use mesh_engine::obj::{has_obj_extension, parse_obj, ObjError};
use mesh_engine::vec3::Vector3;

fn v3(x: f32, y: f32, z: f32) -> Vector3 {
    Vector3 { x: x.to_bits(), y: y.to_bits(), z: z.to_bits() }
}

fn parse(text: &str) -> Result<Vec<mesh_engine::mesh::Mesh<mesh_engine::vertex::PositionVertex>>, ObjError> {
    parse_obj(&text.as_bytes().to_vec())
}

#[test]
fn obj_single_triangle_flat() {
    let text = "o thing\nv 0 0 0\nv 1 0 0\nv 0 1 0\nvn 0 0 1\nvn 0 0 1\nvn 0 0 1\ns off\nf 1/1/1 2/2/2 3/3/3\n";
    let meshes = parse(text).unwrap();
    assert_eq!(meshes.len(), 1);
    let m = &meshes[0];
    assert_eq!(m.vertices.len(), 3);
    assert_eq!(m.normals.len(), 3);
    assert_eq!(m.indices, vec![0, 1, 2]);
    assert_eq!(m.vertices[0].position, v3(0.0, 0.0, 0.0));
    assert_eq!(m.vertices[1].position, v3(1.0, 0.0, 0.0));
    assert_eq!(m.vertices[2].position, v3(0.0, 1.0, 0.0));
    for n in &m.normals {
        assert_eq!(n.normal, v3(0.0, 0.0, 1.0));
    }
}

#[test]
fn obj_two_objects_index_locally() {
    let text = "o first\nv 0 0 0\nv 1 0 0\nv 0 1 0\nvn 0 0 1\nvn 0 0 1\nvn 0 0 1\nf 1/1/1 2/2/2 3/3/3\no second\nv 0 0 5\nv 1 0 5\nv 0 1 5\nvn 0 0 1\nvn 0 0 1\nvn 0 0 1\nf 4/4/4 5/5/5 6/6/6\n";
    let meshes = parse(text).unwrap();
    assert_eq!(meshes.len(), 2);
    for m in &meshes {
        assert_eq!(m.vertices.len(), 3);
        assert_eq!(m.normals.len(), 3);
        assert_eq!(m.indices, vec![0, 1, 2]);
        assert_eq!(m.indices.len() % 3, 0);
        for &i in &m.indices {
            assert!((i as usize) < m.vertices.len());
        }
    }
    assert_eq!(meshes[0].vertices[0].position, v3(0.0, 0.0, 0.0));
    assert_eq!(meshes[1].vertices[0].position, v3(0.0, 0.0, 5.0));
}

#[test]
fn obj_smooth_group_merges_positions() {
    let text = "v 0 0 0\nv 1 0 0\nv 0 1 0\nv 1 1 0\nvn 0 0 1\ns on\nf 1//1 2//1 3//1\nf 2//1 4//1 3//1\n";
    let meshes = parse(text).unwrap();
    assert_eq!(meshes.len(), 1);
    let m = &meshes[0];
    // The flush duplicates per corner (6 vertices); smooth shading then
    // rewrites the indices onto first occurrences of each position.
    assert_eq!(m.vertices.len(), 6);
    assert_eq!(m.indices, vec![0, 1, 2, 1, 4, 2]);
    assert_eq!(m.normals.len(), 6);
    assert_eq!(m.normals[0].normal, v3(0.0, 0.0, 1.0));
    assert_eq!(m.normals[1].normal, v3(0.0, 0.0, 1.0));
    assert_eq!(m.normals[2].normal, v3(0.0, 0.0, 1.0));
    assert_eq!(m.normals[3].normal, v3(0.0, 0.0, 0.0));
    assert_eq!(m.normals[4].normal, v3(0.0, 0.0, 1.0));
    assert_eq!(m.normals[5].normal, v3(0.0, 0.0, 0.0));
}

#[test]
fn obj_flat_is_the_default() {
    let text = "v 0 0 0\nv 1 0 0\nv 0 1 0\nvn 0 0 1\nf 1//1 2//1 3//1\nf 2//1 1//1 3//1\n";
    let meshes = parse(text).unwrap();
    assert_eq!(meshes.len(), 1);
    // No smoothing: every corner keeps its own duplicated vertex.
    assert_eq!(meshes[0].vertices.len(), 6);
    assert_eq!(meshes[0].indices, vec![0, 1, 2, 3, 4, 5]);
}

#[test]
fn obj_corner_normals_keep_recorded_order() {
    let text = "v 0 0 0\nv 1 0 0\nv 0 1 0\nvn 1 0 0\nvn 0 1 0\nvn 0 0 1\nf 1//1 2//2 3//3\n";
    let meshes = parse(text).unwrap();
    let m = &meshes[0];
    assert_eq!(m.normals.len(), 3);
    assert_eq!(m.normals[0].normal, v3(1.0, 0.0, 0.0));
    assert_eq!(m.normals[1].normal, v3(0.0, 1.0, 0.0));
    assert_eq!(m.normals[2].normal, v3(0.0, 0.0, 1.0));
}

#[test]
fn obj_normals_are_normalised_on_read() {
    let text = "v 0 0 0\nv 1 0 0\nv 0 1 0\nvn 0 0 4\nf 1//1 2//1 3//1\n";
    let meshes = parse(text).unwrap();
    assert_eq!(meshes[0].normals[0].normal, v3(0.0, 0.0, 1.0));
}

#[test]
fn obj_parses_decimal_coordinates() {
    let text = "v 1.5 2.25 -3.5\nv 1 0 0\nv 0 1 0\nvn 0 0 1\nf 1//1 2//1 3//1\n";
    let meshes = parse(text).unwrap();
    assert_eq!(meshes[0].vertices[0].position, v3(1.5, 2.25, -3.5));
}

#[test]
fn obj_empty_input_gives_one_empty_mesh() {
    let meshes = parse("").unwrap();
    assert_eq!(meshes.len(), 1);
    assert_eq!(meshes[0].vertices.len(), 0);
    assert_eq!(meshes[0].normals.len(), 0);
    assert_eq!(meshes[0].indices.len(), 0);
}

#[test]
fn obj_ignores_comments_and_unknown_lines() {
    let text = "# a comment\nmtllib things.mtl\nusemtl stone\nv 0 0 0\nv 1 0 0\nv 0 1 0\nvn 0 0 1\nf 1//1 2//1 3//1\n";
    let meshes = parse(text).unwrap();
    assert_eq!(meshes.len(), 1);
    assert_eq!(meshes[0].vertices.len(), 3);
}

#[test]
fn obj_accepts_crlf_lines() {
    let text = "v 0 0 0\r\nv 1 0 0\r\nv 0 1 0\r\nvn 0 0 1\r\nf 1//1 2//1 3//1\r\n";
    let meshes = parse(text).unwrap();
    assert_eq!(meshes.len(), 1);
    assert_eq!(meshes[0].vertices.len(), 3);
}

#[test]
fn obj_bad_coordinate_is_a_number_error() {
    let r = parse("v 0 x 0\n");
    assert_eq!(r.unwrap_err(), ObjError::Number { line: 1 });
}

#[test]
fn obj_missing_coordinate_is_a_number_error() {
    let r = parse("v 0 0\n");
    assert_eq!(r.unwrap_err(), ObjError::Number { line: 1 });
}

#[test]
fn obj_bad_face_index_is_a_number_error() {
    let r = parse("v 0 0 0\nvn 0 0 1\nf a//1 1//1 1//1\n");
    assert_eq!(r.unwrap_err(), ObjError::Number { line: 3 });
}

#[test]
fn obj_face_index_overflow_is_a_number_error() {
    let r = parse("v 0 0 0\nvn 0 0 1\nf 99999999999999999999//1 1//1 1//1\n");
    assert_eq!(r.unwrap_err(), ObjError::Number { line: 3 });
}

#[test]
fn obj_face_with_too_few_corners_fails() {
    let r = parse("v 0 0 0\nvn 0 0 1\nf 1//1 1//1\n");
    assert_eq!(r.unwrap_err(), ObjError::Face { line: 3 });
}

#[test]
fn obj_face_without_slash_fields_fails() {
    let r = parse("v 0 0 0\nvn 0 0 1\nf 1 1 1\n");
    assert_eq!(r.unwrap_err(), ObjError::Face { line: 3 });
}

#[test]
fn obj_zero_face_index_fails() {
    let r = parse("v 0 0 0\nvn 0 0 1\nf 0//1 1//1 1//1\n");
    assert_eq!(r.unwrap_err(), ObjError::Face { line: 3 });
}

#[test]
fn obj_face_past_gathered_data_is_a_structure_error() {
    // The third corner names a position that was never given; the flush at
    // end of input reports the line count.
    let r = parse("v 0 0 0\nv 1 0 0\nvn 0 0 1\nf 1//1 2//1 3//1\n");
    assert_eq!(r.unwrap_err(), ObjError::Structure { line: 4 });
}

#[test]
fn obj_face_may_not_reach_into_an_earlier_object() {
    let text = "o first\nv 0 0 0\nv 1 0 0\nv 0 1 0\nvn 0 0 1\nf 1//1 2//1 3//1\no second\nv 0 0 5\nv 1 0 5\nv 0 1 5\nvn 0 0 1\nf 1//2 2//2 3//2\n";
    let r = parse(text);
    assert_eq!(r.unwrap_err(), ObjError::Face { line: 12 });
}

#[test]
fn obj_repeated_object_lines_before_data_are_skipped() {
    let text = "o a\no b\nv 0 0 0\nv 1 0 0\nv 0 1 0\nvn 0 0 1\nf 1//1 2//1 3//1\n";
    let meshes = parse(text).unwrap();
    assert_eq!(meshes.len(), 1);
    assert_eq!(meshes[0].vertices.len(), 3);
}

#[test]
fn obj_faces_may_precede_their_data() {
    // Face lines before any vertex data leave their indices pending; an
    // object boundary before data accumulates does not flush, and the data
    // arriving later satisfies the pending indices at end of input.
    let text = "f 1//1 2//1 3//1\no late\nv 0 0 0\nv 1 0 0\nv 0 1 0\nvn 0 0 1\n";
    let meshes = parse(text).unwrap();
    assert_eq!(meshes.len(), 1);
    assert_eq!(meshes[0].vertices.len(), 3);
    assert_eq!(meshes[0].indices, vec![0, 1, 2]);
}

#[test]
fn obj_numeric_smoothing_group_means_smooth() {
    let text = "v 0 0 0\nv 1 0 0\nv 0 1 0\nvn 0 0 1\ns 1\nf 1//1 2//1 3//1\nf 2//1 1//1 3//1\n";
    let meshes = parse(text).unwrap();
    // Any `s` value other than `off` turns smooth shading on, so shared
    // positions are merged back onto their first occurrences.
    assert_eq!(meshes[0].indices, vec![0, 1, 2, 1, 0, 2]);
}

#[test]
fn obj_extra_tokens_are_ignored() {
    // Only the first three coordinates and the first three face corners
    // are read; anything after them on the line is ignored.
    let text = "v 0 0 0 7\nv 1 0 0\nv 0 1 0\nvn 0 0 1\nf 1//1 2//1 3//1 1//1\n";
    let meshes = parse(text).unwrap();
    assert_eq!(meshes[0].vertices.len(), 3);
    assert_eq!(meshes[0].indices, vec![0, 1, 2]);
}

#[test]
fn obj_double_space_is_an_empty_token() {
    // Tokens are the fragments between single spaces, so a run of two
    // spaces yields an empty coordinate token, which does not parse.
    let r = parse("v  1 2 3\n");
    assert_eq!(r.unwrap_err(), ObjError::Number { line: 1 });
}

#[test]
fn obj_extension_check() {
    assert!(has_obj_extension(&b"model.obj".to_vec()));
    assert!(has_obj_extension(&b".obj".to_vec()));
    assert!(!has_obj_extension(&b"model.txt".to_vec()));
    assert!(!has_obj_extension(&b"obj".to_vec()));
    assert!(!has_obj_extension(&b"model.OBJ".to_vec()));
}
