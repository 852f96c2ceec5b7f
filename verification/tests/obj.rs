use raytracer::obj::{Face, ObjBuilder, ObjError};

#[test]
fn read_obj() {
    let text = b"v 1.0 1.0 0.0\nv 1.0 0.0 0.0\nv 0.0 1.0 0.0\nf 1 2 3\n";
    let mut builder = ObjBuilder::default();
    assert!(builder.from_obj_file(text).is_ok());
    let vertices = builder.vertices.unwrap();
    let faces = builder.faces.unwrap();
    assert_eq!(
        (&vertices[0].x[..], &vertices[0].y[..], &vertices[0].z[..]),
        (&b"1.0"[..], &b"1.0"[..], &b"0.0"[..])
    );
    assert_eq!(
        (&vertices[1].x[..], &vertices[1].y[..], &vertices[1].z[..]),
        (&b"1.0"[..], &b"0.0"[..], &b"0.0"[..])
    );
    assert_eq!(
        (&vertices[2].x[..], &vertices[2].y[..], &vertices[2].z[..]),
        (&b"0.0"[..], &b"1.0"[..], &b"0.0"[..])
    );
    assert_eq!(Face { x: 0, y: 1, z: 2 }, faces[0]);
}

#[test]
fn parse_counts_ignored_lines_and_skips_empty_ones() {
    let text = b"# comment\n\nv 1 2 3\n\nusemtl stone\nf 1 1 1\n";
    let data = raytracer::obj::parse_obj(text).unwrap();
    assert_eq!(data.vertices.len(), 1);
    assert_eq!(data.faces.len(), 1);
    assert_eq!(data.ignored, 2);
}

#[test]
fn parse_accepts_crlf_line_endings() {
    let text = b"v 1 2 3\r\nf 1 1 1\r\n";
    let data = raytracer::obj::parse_obj(text).unwrap();
    assert_eq!(data.vertices.len(), 1);
    assert_eq!(&data.vertices[0].z[..], &b"3"[..]);
    assert_eq!(data.faces[0], Face { x: 0, y: 0, z: 0 });
}

#[test]
fn parse_accepts_text_without_final_newline() {
    let data = raytracer::obj::parse_obj(b"v 1 2 3").unwrap();
    assert_eq!(data.vertices.len(), 1);
}

#[test]
fn face_indices_are_rebased_to_zero() {
    let data = raytracer::obj::parse_obj(b"f 7 8 9\n").unwrap();
    assert_eq!(data.faces[0], Face { x: 6, y: 7, z: 8 });
}

#[test]
fn extra_tokens_are_validated_then_dropped() {
    let data = raytracer::obj::parse_obj(b"v 1 2 3 4 5\nf 1 2 3 4\n").unwrap();
    assert_eq!(&data.vertices[0].x[..], &b"1"[..]);
    assert_eq!(&data.vertices[0].z[..], &b"3"[..]);
    assert_eq!(data.faces[0], Face { x: 0, y: 1, z: 2 });
}

#[test]
fn whitespace_only_line_is_an_error() {
    let r = raytracer::obj::parse_obj(b"v 1 2 3\n   \n");
    assert_eq!(r.unwrap_err(), ObjError::BlankLine { line: 1 });
}

#[test]
fn broken_coordinate_is_an_error() {
    let r = raytracer::obj::parse_obj(b"v 1.0 abc 2.0\n");
    assert_eq!(r.unwrap_err(), ObjError::BadCoordinate { line: 0 });
}

#[test]
fn broken_coordinate_outranks_a_shortfall() {
    // Every token of a vertex line is read before the count is checked.
    let r = raytracer::obj::parse_obj(b"v 1.0 abc\n");
    assert_eq!(r.unwrap_err(), ObjError::BadCoordinate { line: 0 });
}

#[test]
fn short_vertex_line_is_an_error() {
    let r = raytracer::obj::parse_obj(b"v 1.0 2.0\n");
    assert_eq!(r.unwrap_err(), ObjError::MissingCoordinates { line: 0 });
}

#[test]
fn broken_index_is_an_error() {
    let r = raytracer::obj::parse_obj(b"f 1 two 3\n");
    assert_eq!(r.unwrap_err(), ObjError::BadIndex { line: 0 });
}

#[test]
fn zero_index_is_an_error() {
    let r = raytracer::obj::parse_obj(b"f 1 0 2\n");
    assert_eq!(r.unwrap_err(), ObjError::ZeroIndex { line: 0 });
}

#[test]
fn first_offending_index_token_decides_the_error() {
    // The zero at the second position is hit before the broken token.
    let r = raytracer::obj::parse_obj(b"f 0 two 3\n");
    assert_eq!(r.unwrap_err(), ObjError::ZeroIndex { line: 0 });
    let r = raytracer::obj::parse_obj(b"f two 0 3\n");
    assert_eq!(r.unwrap_err(), ObjError::BadIndex { line: 0 });
}

#[test]
fn short_face_line_is_an_error() {
    let r = raytracer::obj::parse_obj(b"f 1 2\n");
    assert_eq!(r.unwrap_err(), ObjError::MissingIndices { line: 0 });
}

#[test]
fn builder_is_untouched_by_a_bad_text() {
    let mut builder = ObjBuilder::default();
    let r = builder.from_obj_file(b"f 1 2\n");
    assert_eq!(r.unwrap_err(), ObjError::MissingIndices { line: 0 });
    assert!(builder.vertices.is_none());
    assert!(builder.faces.is_none());
}

#[test]
fn coordinates_may_be_any_float_numeral() {
    let data = raytracer::obj::parse_obj(b"v -1.5e-3 .25 Inf\nv +nan 1. -0\n").unwrap();
    assert_eq!(&data.vertices[0].x[..], &b"-1.5e-3"[..]);
    assert_eq!(&data.vertices[1].x[..], &b"+nan"[..]);
}
