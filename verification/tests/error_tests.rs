use packer_parser::Error;
use packer_parser::JsonVal;
use packer_parser::Parser;

fn text(x: &str) -> JsonVal {
    JsonVal::Str(x.to_string())
}

fn integer(x: i64) -> JsonVal {
    JsonVal::Int(x)
}

fn object(entries: Vec<(&str, JsonVal)>) -> JsonVal {
    JsonVal::Obj(entries.into_iter().map(|(k, v)| (k.to_string(), v)).collect())
}

fn array(items: Vec<JsonVal>) -> JsonVal {
    JsonVal::Arr(items)
}

fn leaf(id: &str, fields: Vec<(&str, JsonVal)>) -> JsonVal {
    let names = fields.iter().map(|(k, _)| text(k)).collect();
    object(vec![
        ("id", text(id)),
        ("required", JsonVal::Arr(names)),
        ("properties", object(fields)),
    ])
}

fn typed(kind: &str) -> JsonVal {
    object(vec![("type", text(kind))])
}

fn sized_int(size: JsonVal) -> JsonVal {
    object(vec![("type", text("integer")), ("size", size)])
}

fn expect_encode_error(r: Result<Vec<u8>, Error>, msg: &str, pos: Option<&str>) {
    match r {
        Err(Error::EncodeError { error_msg, error_pos }) => {
            assert_eq!(error_msg, msg);
            assert_eq!(error_pos, pos.map(|p| p.to_string()));
        }
        other => panic!("expected an encode error, got {:?}", other),
    }
}

fn expect_decode_error(r: Result<JsonVal, Error>, msg: &str, pos: Option<&str>) {
    match r {
        Err(Error::EncodeError { error_msg, error_pos }) => {
            assert_eq!(error_msg, msg);
            assert_eq!(error_pos, pos.map(|p| p.to_string()));
        }
        other => panic!("expected an encode error, got {:?}", other),
    }
}

#[test]
fn test_missing_required_field() {
    let parser = Parser::new(object(vec![
        ("id", text("x")),
        ("properties", object(vec![])),
    ]))
    .unwrap();
    expect_encode_error(
        parser.encode(object(vec![])),
        "Missing Required Field",
        Some("x"),
    );
}

#[test]
fn test_required_not_an_array() {
    let parser = Parser::new(object(vec![
        ("id", text("x")),
        ("required", text("oops")),
        ("properties", object(vec![])),
    ]))
    .unwrap();
    expect_encode_error(
        parser.encode(object(vec![])),
        "Required Field must be an array",
        Some("x"),
    );
}

#[test]
fn test_properties_badly_formatted() {
    let parser = Parser::new(object(vec![
        ("id", text("x")),
        ("required", array(vec![])),
        ("properties", text("oops")),
    ]))
    .unwrap();
    expect_encode_error(
        parser.encode(object(vec![])),
        "Properties Field is incorrectly formatted",
        Some("x"),
    );
}

#[test]
fn test_missing_properties() {
    let parser = Parser::new(object(vec![
        ("id", text("x")),
        ("required", array(vec![])),
    ]))
    .unwrap();
    expect_encode_error(
        parser.encode(object(vec![])),
        "Missing properties Field",
        Some("x"),
    );
}

#[test]
fn test_missing_doc_id() {
    let parser = Parser::new(object(vec![("required", array(vec![]))])).unwrap();
    match parser.encode(object(vec![])) {
        Err(Error::ParseError(msg)) => assert_eq!(msg, "Missing an ID value"),
        other => panic!("expected a parse error, got {:?}", other),
    }
}

#[test]
fn test_doc_id_not_a_string() {
    let parser = Parser::new(object(vec![
        ("id", integer(9)),
        ("required", array(vec![])),
    ]))
    .unwrap();
    match parser.encode(object(vec![])) {
        Err(Error::ParseError(msg)) => assert_eq!(msg, "One of the ID values is not a string"),
        other => panic!("expected a parse error, got {:?}", other),
    }
}

#[test]
fn test_integer_size_missing() {
    let parser = Parser::new(leaf("x", vec![("f", typed("integer"))])).unwrap();
    expect_encode_error(
        parser.encode(object(vec![("f", integer(1))])),
        "Integer fields must have a declared size",
        Some("f"),
    );
}

#[test]
fn test_integer_size_not_a_number() {
    let parser = Parser::new(leaf("x", vec![("f", sized_int(text("wide")))])).unwrap();
    expect_encode_error(
        parser.encode(object(vec![("f", integer(1))])),
        "Size Must be a number",
        Some("f"),
    );
}

#[test]
fn test_integer_size_out_of_range() {
    let parser = Parser::new(leaf("x", vec![("f", sized_int(integer(40)))])).unwrap();
    expect_encode_error(
        parser.encode(object(vec![("f", integer(1))])),
        "Size must be smaller than 32 bits",
        Some("f"),
    );
}

#[test]
fn test_integer_value_not_an_integer() {
    let parser = Parser::new(leaf("x", vec![("f", sized_int(integer(8)))])).unwrap();
    expect_encode_error(
        parser.encode(object(vec![("f", JsonVal::Num(13.5f64.to_bits()))])),
        "Provided value cannot be deserialized as an integer",
        Some("f"),
    );
}

#[test]
fn test_boolean_value_not_a_boolean() {
    let parser = Parser::new(leaf("x", vec![("f", typed("boolean"))])).unwrap();
    expect_encode_error(
        parser.encode(object(vec![("f", integer(1))])),
        "Did not provide a valid boolean",
        Some("f"),
    );
}

#[test]
fn test_number_value_not_a_number() {
    let parser = Parser::new(leaf("x", vec![("f", typed("number"))])).unwrap();
    expect_encode_error(
        parser.encode(object(vec![("f", text("fast"))])),
        "Data could not be serialized as a float",
        Some("f"),
    );
}

#[test]
fn test_string_value_not_a_string() {
    let parser = Parser::new(leaf("x", vec![("f", typed("string"))])).unwrap();
    expect_encode_error(
        parser.encode(object(vec![("f", integer(1))])),
        "Could not serialize data as a string",
        Some("f"),
    );
}

#[test]
fn test_field_value_missing_from_message() {
    let parser = Parser::new(leaf("x", vec![("f", typed("boolean"))])).unwrap();
    expect_encode_error(
        parser.encode(object(vec![])),
        "Could not find field value",
        Some("f"),
    );
}

#[test]
fn test_enum_decode_index_out_of_range() {
    let parser = Parser::new(leaf(
        "x",
        vec![("f", object(vec![("enum", array(vec![text("a"), text("b")]))]))],
    ))
    .unwrap();
    expect_decode_error(
        parser.decode(vec![9]),
        "Could not get provided enum index",
        Some("f"),
    );
}

#[test]
fn test_number_decode_too_short() {
    let parser = Parser::new(leaf("x", vec![("f", typed("number"))])).unwrap();
    expect_decode_error(parser.decode(vec![1, 2, 3]), "Message is too short", Some("f"));
}

#[test]
fn test_string_decode_too_short() {
    let parser = Parser::new(leaf("x", vec![("f", typed("string"))])).unwrap();
    expect_decode_error(parser.decode(vec![5, 84]), "Message is too short", Some("f"));
}

#[test]
fn test_empty_bytes_mid_descent() {
    let parser = Parser::new(object(vec![(
        "oneOf",
        array(vec![object(vec![
            ("id", text("outer")),
            (
                "oneOf",
                array(vec![leaf("inner", vec![("f", typed("boolean"))])]),
            ),
        ])]),
    )]))
    .unwrap();
    expect_decode_error(parser.decode(vec![0]), "Message is empty", None);
}

#[test]
fn test_more_than_256_alternatives_refused() {
    let mut subs: Vec<JsonVal> = Vec::new();
    for i in 0..257 {
        subs.push(leaf(&format!("alt{}", i), vec![]));
    }
    match Parser::new(object(vec![("oneOf", JsonVal::Arr(subs))])) {
        Err(Error::ParseError(msg)) => {
            assert_eq!(msg, "Schema has more than 256 subschemas")
        }
        other => panic!("expected a parse error, got {:?}", other),
    }
}

#[test]
fn test_duplicate_names_use_last_binding() {
    // Two alternatives under one name: the name-to-tag table keeps the
    // later binding, so encoding selects tag 1.
    let parser = Parser::new(object(vec![(
        "oneOf",
        array(vec![
            leaf("dup", vec![("a", typed("boolean"))]),
            leaf("dup", vec![("b", typed("boolean"))]),
        ]),
    )]))
    .unwrap();
    let encoded = parser
        .encode(object(vec![("dup", object(vec![("b", JsonVal::Bool(false))]))]))
        .unwrap();
    assert_eq!(encoded, [1, 0]);
}

#[test]
fn test_get_schema_nested_layer() {
    let parser = Parser::new(object(vec![(
        "oneOf",
        array(vec![object(vec![
            ("id", text("outer")),
            (
                "oneOf",
                array(vec![leaf("inner", vec![("f", typed("boolean"))])]),
            ),
        ])]),
    )]))
    .unwrap();
    match parser.get_schema(&"outer".to_string()) {
        packer_parser::MultiLayerSchema::Layer { schemes, lookup } => {
            assert_eq!(schemes.len(), 1);
            assert_eq!(lookup, vec!["inner".to_string()]);
        }
        other => panic!("expected a layer, got {:?}", other),
    }
}

#[test]
fn test_zero_fields_leaf_round_trips() {
    let parser = Parser::new(leaf("empty", vec![])).unwrap();
    let encoded = parser.encode(object(vec![])).unwrap();
    assert_eq!(encoded, [0u8; 0]);
    let decoded = parser.decode(encoded).unwrap();
    assert_eq!(decoded, object(vec![]));
}
