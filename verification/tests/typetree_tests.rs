use ak_assets::error::UnpackError;
use ak_assets::unpacker::bundle::read::Reader;
use ak_assets::unpacker::bundle::serialized::TypeTreeNode;
use ak_assets::unpacker::bundle::typetree::{decode, decode_node, direct_children, JsonValue};

fn node(level: u8, typename: &str, name: &str, byte_size: i32, meta_flag: i32) -> TypeTreeNode {
    TypeTreeNode { level, typename: typename.to_string(), name: name.to_string(), byte_size, meta_flag }
}

#[test]
fn children_are_the_nodes_one_level_deeper() {
    let nodes = vec![
        node(0, "Root", "Base", -1, 0),
        node(1, "int", "a", 4, 0),
        node(1, "Pair", "b", 8, 0),
        node(2, "int", "x", 4, 0),
        node(2, "int", "y", 4, 0),
        node(1, "int", "c", 4, 0),
    ];
    assert_eq!(direct_children(&nodes, 0), vec![1, 2, 5]);
    assert_eq!(direct_children(&nodes, 2), vec![3, 4]);
    assert_eq!(direct_children(&nodes, 3), Vec::<usize>::new());
}

#[test]
fn empty_type_tree_decodes_to_null_without_reading() {
    let mut r = Reader::new(vec![1, 2, 3]);
    assert_eq!(decode(&[], &mut r), Ok(JsonValue::Null));
    assert_eq!(r.stream_position(), 0);
}

#[test]
fn scalars_decode_by_their_type_names() {
    let nodes = vec![
        node(0, "Root", "Base", -1, 0),
        node(1, "bool", "flag", 1, 0),
        node(1, "SInt16", "small", 2, 0),
        node(1, "unsigned int", "mid", 4, 0),
        node(1, "SInt64", "big", 8, 0),
        node(1, "float", "ratio", 4, 0),
        node(1, "double", "precise", 8, 0),
    ];
    let mut d = vec![1];
    d.extend_from_slice(&(-3i16).to_le_bytes());
    d.extend_from_slice(&(-1i32).to_le_bytes());
    d.extend_from_slice(&(1i64 << 40).to_le_bytes());
    d.extend_from_slice(&0.5f32.to_bits().to_le_bytes());
    d.extend_from_slice(&f64::INFINITY.to_bits().to_le_bytes());
    let mut r = Reader::new(d);
    let v = decode(&nodes, &mut r).unwrap();
    assert_eq!(
        v,
        JsonValue::Object(vec![
            ("flag".to_string(), JsonValue::Int(1)),
            ("small".to_string(), JsonValue::Int(-3)),
            ("mid".to_string(), JsonValue::Int(-1)),
            ("big".to_string(), JsonValue::Int(1 << 40)),
            ("ratio".to_string(), JsonValue::Float32(0.5f32.to_bits())),
            ("precise".to_string(), JsonValue::Int(0)),
        ])
    );
}

#[test]
fn arrays_vectors_and_typeless_data() {
    let nodes = vec![
        node(0, "vector", "items", -1, 0),
        node(1, "Array", "Array", -1, 0x4000),
        node(2, "int", "size", 4, 0),
        node(2, "UInt8", "data", 1, 0),
    ];
    let mut d = 3i32.to_le_bytes().to_vec();
    d.extend_from_slice(&[7, 8, 9, 0]);
    let mut r = Reader::new(d);
    assert_eq!(
        decode(&nodes, &mut r),
        Ok(JsonValue::Array(vec![JsonValue::Int(7), JsonValue::Int(8), JsonValue::Int(9)]))
    );
    assert_eq!(r.stream_position(), 8);

    let typeless = vec![node(0, "TypelessData", "image", -1, 0)];
    let mut d = 2i32.to_le_bytes().to_vec();
    d.extend_from_slice(&[5, 6, 0, 0]);
    let mut r = Reader::new(d);
    assert_eq!(decode_node(&typeless, 0, &mut r), Ok(JsonValue::Array(vec![JsonValue::Int(5), JsonValue::Int(6)])));
    assert_eq!(r.stream_position(), 8);
}

#[test]
fn malformed_arrays_are_errors() {
    let missing_child = vec![node(0, "Array", "Array", -1, 0), node(1, "int", "size", 4, 0)];
    let mut r = Reader::new(vec![0; 8]);
    assert_eq!(decode(&missing_child, &mut r), Err(UnpackError::MalformedTypeTree));

    let text_size = vec![
        node(0, "Array", "Array", -1, 0),
        node(1, "string", "size", -1, 0),
        node(1, "int", "data", 4, 0),
    ];
    let mut r = Reader::new(vec![0; 8]);
    assert_eq!(decode(&text_size, &mut r), Err(UnpackError::ArraySizeNotInteger));

    let negative = vec![
        node(0, "Array", "Array", -1, 0),
        node(1, "int", "size", 4, 0),
        node(1, "int", "data", 4, 0),
    ];
    let mut r = Reader::new((-1i32).to_le_bytes().to_vec());
    assert_eq!(decode(&negative, &mut r), Err(UnpackError::NegativeArraySize));
}

#[test]
fn object_smaller_than_declared_is_unsupported() {
    let nodes = vec![node(0, "Thing", "Base", 12, 0), node(1, "int", "a", 4, 0)];
    let mut r = Reader::new(vec![0; 4]);
    assert_eq!(decode(&nodes, &mut r), Err(UnpackError::UnsupportedType));
}

#[test]
fn text_fields_keep_invalid_bytes_as_replacement_characters() {
    let nodes = vec![node(0, "string", "s", -1, 0)];
    let mut d = 3u32.to_le_bytes().to_vec();
    d.extend_from_slice(&[b'a', 0xFF, b'b', 0]);
    let mut r = Reader::new(d);
    assert_eq!(decode(&nodes, &mut r), Ok(JsonValue::String("a\u{FFFD}b".to_string())));
}
