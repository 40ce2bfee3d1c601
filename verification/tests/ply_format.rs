use flowguide::mesh::Tri;
use flowguide::ply::{
    load_ply, parse_element_line, parse_property, parse_property_type, parse_scalar_type,
    PlyError, PropertyType, ScalarType,
};

fn toks(s: &str) -> Vec<Vec<u8>> {
    s.split_whitespace().map(|w| w.as_bytes().to_vec()).collect()
}

fn header_and(payload: &[u8], header: &str) -> Vec<u8> {
    let mut bytes = header.as_bytes().to_vec();
    bytes.extend_from_slice(payload);
    bytes
}

fn triangle_header(fmt: &str) -> String {
    format!(
        "ply\nformat {} 1.0\nelement vertex 3\nproperty float x\nproperty float y\nproperty float z\nelement face 1\nproperty list uchar int vertex_indices\nend_header\n",
        fmt
    )
}

fn le_triangle_payload() -> Vec<u8> {
    let verts: [f32; 9] = [0.0, 0.0, 0.0, 1.0, 0.0, 0.0, 0.0, 1.0, 0.0];
    let mut p = Vec::new();
    for c in verts {
        p.extend_from_slice(&c.to_le_bytes());
    }
    p.push(3u8);
    for i in [0i32, 1, 2] {
        p.extend_from_slice(&i.to_le_bytes());
    }
    p
}

#[test]
fn loads_little_endian_triangle() {
    let bytes = header_and(&le_triangle_payload(), &triangle_header("binary_little_endian"));
    let mesh = load_ply(&bytes).unwrap();
    assert_eq!(mesh.vertices.len(), 3);
    assert_eq!(f32::from_bits(mesh.vertices[1].x), 1.0);
    assert_eq!(f32::from_bits(mesh.vertices[2].y), 1.0);
    assert_eq!(mesh.tris, vec![Tri { a: 0, b: 1, c: 2 }]);
    // The derived normals follow the winding: (v2-v0) x (v1-v0), here -z.
    let expected = (glam::Vec3::new(0.0, 1.0, 0.0).cross(glam::Vec3::new(1.0, 0.0, 0.0)))
        .normalize()
        .normalize();
    for n in &mesh.normals {
        assert_eq!(f32::from_bits(n.x), expected.x);
        assert_eq!(f32::from_bits(n.y), expected.y);
        assert_eq!(f32::from_bits(n.z), expected.z);
    }
}

#[test]
fn loads_big_endian_triangle() {
    let verts: [f32; 9] = [0.0, 0.0, 0.0, 1.0, 0.0, 0.0, 0.0, 1.0, 0.0];
    let mut p = Vec::new();
    for c in verts {
        p.extend_from_slice(&c.to_be_bytes());
    }
    p.push(3u8);
    for i in [0i32, 1, 2] {
        p.extend_from_slice(&i.to_be_bytes());
    }
    let bytes = header_and(&p, &triangle_header("binary_big_endian"));
    let mesh = load_ply(&bytes).unwrap();
    assert_eq!(mesh.vertices.len(), 3);
    assert_eq!(f32::from_bits(mesh.vertices[1].x), 1.0);
    assert_eq!(mesh.tris, vec![Tri { a: 0, b: 1, c: 2 }]);
}

#[test]
fn loads_double_coordinates() {
    let header = "ply\nformat binary_little_endian 1.0\nelement vertex 1\nproperty double x\nproperty double y\nproperty double z\nend_header\n";
    let mut p = Vec::new();
    for c in [0.25f64, -1.5, 3.125] {
        p.extend_from_slice(&c.to_le_bytes());
    }
    let bytes = header_and(&p, header);
    let mesh = load_ply(&bytes).unwrap();
    assert_eq!(mesh.vertices.len(), 1);
    assert_eq!(f32::from_bits(mesh.vertices[0].x), 0.25);
    assert_eq!(f32::from_bits(mesh.vertices[0].y), -1.5);
    assert_eq!(f32::from_bits(mesh.vertices[0].z), 3.125);
}

#[test]
fn rejects_bad_magic() {
    let bytes = header_and(&[], "plz\nformat binary_little_endian 1.0\nend_header\n");
    assert_eq!(load_ply(&bytes).unwrap_err(), PlyError::InvalidMagic);
}

#[test]
fn rejects_missing_format_line() {
    let bytes = header_and(&[], "ply\nelement vertex 0\nend_header\n");
    assert_eq!(load_ply(&bytes).unwrap_err(), PlyError::MissingFormatLine);
}

#[test]
fn rejects_unknown_format() {
    let bytes = header_and(&[], "ply\nformat binary_middle_endian 1.0\nend_header\n");
    assert_eq!(load_ply(&bytes).unwrap_err(), PlyError::UnknownFormat);
}

#[test]
fn rejects_ascii_payload() {
    let bytes = header_and(&[], "ply\nformat ascii 1.0\nelement vertex 0\nend_header\n");
    assert_eq!(load_ply(&bytes).unwrap_err(), PlyError::AsciiUnsupported);
}

#[test]
fn rejects_truncated_payload() {
    let mut payload = le_triangle_payload();
    payload.truncate(10);
    let bytes = header_and(&payload, &triangle_header("binary_little_endian"));
    assert_eq!(load_ply(&bytes).unwrap_err(), PlyError::UnexpectedEnd);
}

#[test]
fn rejects_wrong_face_arity() {
    let verts: [f32; 9] = [0.0; 9];
    let mut p = Vec::new();
    for c in verts {
        p.extend_from_slice(&c.to_le_bytes());
    }
    p.push(4u8);
    for i in [0i32, 1, 2, 2] {
        p.extend_from_slice(&i.to_le_bytes());
    }
    let bytes = header_and(&p, &triangle_header("binary_little_endian"));
    assert_eq!(load_ply(&bytes).unwrap_err(), PlyError::BadFaceArity);
}

#[test]
fn rejects_index_out_of_range() {
    let verts: [f32; 9] = [0.0; 9];
    let mut p = Vec::new();
    for c in verts {
        p.extend_from_slice(&c.to_le_bytes());
    }
    p.push(3u8);
    for i in [0i32, 1, 7] {
        p.extend_from_slice(&i.to_le_bytes());
    }
    let bytes = header_and(&p, &triangle_header("binary_little_endian"));
    assert_eq!(load_ply(&bytes).unwrap_err(), PlyError::IndexOutOfRange);
}

#[test]
fn rejects_property_outside_element() {
    let bytes = header_and(
        &[],
        "ply\nformat binary_little_endian 1.0\nproperty float x\nend_header\n",
    );
    assert_eq!(load_ply(&bytes).unwrap_err(), PlyError::UnexpectedProperty);
}

#[test]
fn rejects_missing_vertex_component() {
    let header = "ply\nformat binary_little_endian 1.0\nelement vertex 1\nproperty float x\nproperty float y\nend_header\n";
    let mut p = Vec::new();
    for c in [1.0f32, 2.0] {
        p.extend_from_slice(&c.to_le_bytes());
    }
    let bytes = header_and(&p, header);
    assert_eq!(load_ply(&bytes).unwrap_err(), PlyError::MissingVertexComponent);
}

#[test]
fn rejects_bad_element_count() {
    let bytes = header_and(
        &[],
        "ply\nformat binary_little_endian 1.0\nelement vertex many\nend_header\n",
    );
    assert_eq!(load_ply(&bytes).unwrap_err(), PlyError::BadElementCount);
}

#[test]
fn rejects_unknown_scalar_type() {
    let bytes = header_and(
        &[],
        "ply\nformat binary_little_endian 1.0\nelement vertex 1\nproperty quad x\nend_header\n",
    );
    assert_eq!(load_ply(&bytes).unwrap_err(), PlyError::UnknownScalarType);
}

#[test]
fn rejects_float_list_length() {
    let header = "ply\nformat binary_little_endian 1.0\nelement face 1\nproperty list float int vertex_indices\nend_header\n";
    let p = 0.5f32.to_le_bytes().to_vec();
    let bytes = header_and(&p, header);
    assert_eq!(load_ply(&bytes).unwrap_err(), PlyError::BadListLength);
}

#[test]
fn rejects_float_face_indices() {
    let header = "ply\nformat binary_little_endian 1.0\nelement face 1\nproperty list uchar float vertex_indices\nend_header\n";
    let mut p = vec![3u8];
    for c in [0.0f32, 1.0, 2.0] {
        p.extend_from_slice(&c.to_le_bytes());
    }
    let bytes = header_and(&p, header);
    assert_eq!(load_ply(&bytes).unwrap_err(), PlyError::BadIndexValue);
}

#[test]
fn rejects_integer_vertex_coordinates() {
    let header = "ply\nformat binary_little_endian 1.0\nelement vertex 1\nproperty int x\nproperty int y\nproperty int z\nend_header\n";
    let mut p = Vec::new();
    for i in [1i32, 2, 3] {
        p.extend_from_slice(&i.to_le_bytes());
    }
    let bytes = header_and(&p, header);
    // Integer scalars carry no coordinate, so the vertex stays
    // incomplete.
    assert_eq!(load_ply(&bytes).unwrap_err(), PlyError::MissingVertexComponent);
}

#[test]
fn rejects_face_without_indices() {
    let header = "ply\nformat binary_little_endian 1.0\nelement face 1\nproperty uchar tag\nend_header\n";
    let bytes = header_and(&[9u8], header);
    assert_eq!(load_ply(&bytes).unwrap_err(), PlyError::MissingFaceIndices);
}

#[test]
fn skips_comments_and_unknown_elements() {
    let header = "ply\nformat binary_little_endian 1.0\ncomment made by hand\nelement edge 1\nproperty int a\nproperty int b\nelement vertex 1\nproperty float x\nproperty float y\nproperty float z\nend_header\n";
    let mut p = Vec::new();
    p.extend_from_slice(&5i32.to_le_bytes());
    p.extend_from_slice(&6i32.to_le_bytes());
    for c in [1.0f32, 2.0, 3.0] {
        p.extend_from_slice(&c.to_le_bytes());
    }
    let bytes = header_and(&p, header);
    let mesh = load_ply(&bytes).unwrap();
    assert_eq!(mesh.vertices.len(), 1);
    assert_eq!(f32::from_bits(mesh.vertices[0].z), 3.0);
    assert_eq!(mesh.tris.len(), 0);
}

#[test]
fn scalar_type_keywords() {
    let cases = [
        ("int8", ScalarType::I8),
        ("char", ScalarType::I8),
        ("uint8", ScalarType::U8),
        ("uchar", ScalarType::U8),
        ("int16", ScalarType::I16),
        ("short", ScalarType::I16),
        ("uint16", ScalarType::U16),
        ("ushort", ScalarType::U16),
        ("int32", ScalarType::I32),
        ("int", ScalarType::I32),
        ("uint32", ScalarType::U32),
        ("uint", ScalarType::U32),
        ("float32", ScalarType::F32),
        ("float", ScalarType::F32),
        ("float64", ScalarType::F64),
        ("double", ScalarType::F64),
    ];
    for (name, expected) in cases {
        assert_eq!(parse_scalar_type(&name.as_bytes().to_vec()).unwrap(), expected);
    }
    assert_eq!(
        parse_scalar_type(&"quad".as_bytes().to_vec()).unwrap_err(),
        PlyError::UnknownScalarType
    );
}

#[test]
fn element_line_parsing() {
    let t = toks("element vertex 128");
    let (name, count) = parse_element_line(&t, 1).unwrap();
    assert_eq!(name, b"vertex".to_vec());
    assert_eq!(count, 128);
    let t2 = toks("element vertex");
    assert_eq!(parse_element_line(&t2, 1).unwrap_err(), PlyError::MissingElementCount);
    let t3 = toks("element");
    assert_eq!(parse_element_line(&t3, 1).unwrap_err(), PlyError::MissingElementName);
    let t4 = toks("element vertex twelve");
    assert_eq!(parse_element_line(&t4, 1).unwrap_err(), PlyError::BadElementCount);
    let t5 = toks("element vertex +7");
    assert_eq!(parse_element_line(&t5, 1).unwrap().1, 7);
}

#[test]
fn property_type_parsing() {
    let t = toks("property float x");
    let (ty, p) = parse_property_type(&t, 1).unwrap();
    assert_eq!(ty, PropertyType::Scalar(ScalarType::F32));
    assert_eq!(p, 2);
    let t2 = toks("property list uchar int vertex_indices");
    let (ty2, p2) = parse_property_type(&t2, 1).unwrap();
    assert_eq!(ty2, PropertyType::List(ScalarType::U8, ScalarType::I32));
    assert_eq!(p2, 4);
    let t3 = toks("property");
    assert_eq!(parse_property_type(&t3, 1).unwrap_err(), PlyError::MissingElementType);
}

#[test]
fn property_parsing() {
    let t = toks("property list uchar int vertex_indices");
    let (prop, p) = parse_property(&t, 1).unwrap();
    assert_eq!(prop.name, b"vertex_indices".to_vec());
    assert_eq!(prop.ty, PropertyType::List(ScalarType::U8, ScalarType::I32));
    assert_eq!(p, 5);
    let t2 = toks("property float");
    assert_eq!(parse_property(&t2, 1).unwrap_err(), PlyError::MissingPropertyName);
}
