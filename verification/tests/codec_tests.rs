use packer_parser::Error;
use packer_parser::JsonVal;
use packer_parser::Parser;

fn s(x: &str) -> JsonVal {
    JsonVal::Str(x.to_string())
}

fn whole(x: i64) -> JsonVal {
    JsonVal::Int(x)
}

fn num(x: f64) -> JsonVal {
    JsonVal::Num(x.to_bits())
}

fn obj(entries: Vec<(&str, JsonVal)>) -> JsonVal {
    JsonVal::Obj(entries.into_iter().map(|(k, v)| (k.to_string(), v)).collect())
}

fn arr(items: Vec<JsonVal>) -> JsonVal {
    JsonVal::Arr(items)
}

fn int_field(size: i64) -> JsonVal {
    obj(vec![("type", s("integer")), ("size", whole(size))])
}

fn str_field() -> JsonVal {
    obj(vec![("type", s("string"))])
}

fn bool_field() -> JsonVal {
    obj(vec![("type", s("boolean"))])
}

fn num_field() -> JsonVal {
    obj(vec![("type", s("number"))])
}

fn blob_field() -> JsonVal {
    obj(vec![("type", s("blob"))])
}

/// One alternative: a leaf record with an 8-bit integer, a string and a
/// boolean.
fn telemetry_scheme() -> JsonVal {
    obj(vec![(
        "oneOf",
        arr(vec![obj(vec![
            ("id", s("telemetry")),
            ("required", arr(vec![s("value1"), s("value2"), s("value3")])),
            (
                "properties",
                obj(vec![
                    ("value1", int_field(8)),
                    ("value2", str_field()),
                    ("value3", bool_field()),
                ]),
            ),
        ])]),
    )])
}

fn telemetry_message() -> JsonVal {
    obj(vec![(
        "telemetry",
        obj(vec![
            ("value1", whole(50)),
            ("value2", s("Test")),
            ("value3", JsonVal::Bool(true)),
        ]),
    )])
}

/// Four alternatives: a nested layer holding a four-field record, a
/// one-field acknowledgement, a nested layer holding a two-field record,
/// and a field-less singleton.
fn multi_scheme() -> JsonVal {
    obj(vec![(
        "oneOf",
        arr(vec![
            obj(vec![
                ("id", s("power")),
                (
                    "oneOf",
                    arr(vec![obj(vec![
                        ("id", s("telemetry")),
                        (
                            "required",
                            arr(vec![s("value1"), s("value2"), s("value3"), s("value4")]),
                        ),
                        (
                            "properties",
                            obj(vec![
                                ("value1", int_field(8)),
                                ("value2", str_field()),
                                ("value3", bool_field()),
                                ("value4", num_field()),
                            ]),
                        ),
                    ])]),
                ),
            ]),
            obj(vec![
                ("id", s("command_ack")),
                ("required", arr(vec![s("code")])),
                ("properties", obj(vec![("code", int_field(8))])),
            ]),
            obj(vec![
                ("id", s("modes")),
                (
                    "oneOf",
                    arr(vec![obj(vec![
                        ("id", s("set")),
                        ("required", arr(vec![s("mode"), s("confirm")])),
                        (
                            "properties",
                            obj(vec![("mode", int_field(8)), ("confirm", bool_field())]),
                        ),
                    ])]),
                ),
            ]),
            obj(vec![
                ("id", s("ping")),
                ("required", arr(vec![])),
                ("properties", obj(vec![])),
            ]),
        ]),
    )])
}

fn multi_message() -> JsonVal {
    obj(vec![(
        "power",
        obj(vec![(
            "telemetry",
            obj(vec![
                ("value1", whole(50)),
                ("value2", s("Test")),
                ("value3", JsonVal::Bool(true)),
                ("value4", num(13.5)),
            ]),
        )]),
    )])
}

fn ack_message() -> JsonVal {
    obj(vec![("command_ack", obj(vec![("code", whole(5))]))])
}

fn two_layer_message() -> JsonVal {
    obj(vec![(
        "modes",
        obj(vec![(
            "set",
            obj(vec![("mode", whole(1)), ("confirm", JsonVal::Bool(true))]),
        )]),
    )])
}

fn singleton_message() -> JsonVal {
    obj(vec![("ping", obj(vec![]))])
}

#[test]
fn test_loading() {
    Parser::new(telemetry_scheme()).unwrap();
    assert!(true)
}

#[test]
fn test_encoding() {
    let parser = Parser::new(telemetry_scheme()).unwrap();
    let encoded_message = parser.encode(telemetry_message()).unwrap();
    let expected_message = [0, 50, 4, 84, 101, 115, 116, 1];
    assert_eq!(encoded_message, expected_message)
}

#[test]
fn test_decoding() {
    let parser = Parser::new(telemetry_scheme()).unwrap();
    let message = [0, 50, 4, 84, 101, 115, 116, 1];
    let decoded_message = parser.decode(message.to_vec()).unwrap();
    assert_eq!(decoded_message, telemetry_message())
}

#[test]
fn test_encode_then_decode() {
    let parser = Parser::new(telemetry_scheme()).unwrap();
    let encoded = parser.encode(telemetry_message()).unwrap();
    let decoded = parser.decode(encoded).unwrap();
    assert_eq!(decoded, telemetry_message())
}

#[test]
fn test_multi_schema_encode() {
    let parser = Parser::new(multi_scheme()).unwrap();
    let encoded_message = parser.encode(multi_message()).unwrap();
    let expected_message = [0, 0, 50, 4, 84, 101, 115, 116, 1, 0, 0, 0, 0, 0, 0, 43, 64];
    assert_eq!(encoded_message, expected_message)
}

#[test]
fn test_two_message_multi_schema_encode() {
    let parser = Parser::new(multi_scheme()).unwrap();
    let encoded_message1 = parser.encode(multi_message()).unwrap();
    let expected_message1 = [0, 0, 50, 4, 84, 101, 115, 116, 1, 0, 0, 0, 0, 0, 0, 43, 64];
    let encoded_message2 = parser.encode(ack_message()).unwrap();
    let expected_message2 = [1, 5];
    assert_eq!(encoded_message1, expected_message1);
    assert_eq!(encoded_message2, expected_message2)
}

#[test]
fn test_multi_schema_decode() {
    let parser = Parser::new(multi_scheme()).unwrap();
    let message = [0, 0, 50, 4, 84, 101, 115, 116, 1, 0, 0, 0, 0, 0, 0, 43, 64];
    let decoded_message = parser.decode(message.to_vec()).unwrap();
    assert_eq!(decoded_message, multi_message())
}

#[test]
fn test_two_message_multi_schema_decode() {
    let parser = Parser::new(multi_scheme()).unwrap();
    let message1 = [0, 0, 50, 4, 84, 101, 115, 116, 1, 0, 0, 0, 0, 0, 0, 43, 64];
    let decoded_message1 = parser.decode(message1.to_vec()).unwrap();
    let message2 = [1, 5];
    let decoded_message2 = parser.decode(message2.to_vec()).unwrap();
    assert_eq!(decoded_message1, multi_message());
    assert_eq!(decoded_message2, ack_message())
}

#[test]
fn test_multi_schema_encode_two_layer() {
    let parser = Parser::new(multi_scheme()).unwrap();
    let encoded_message = parser.encode(two_layer_message()).unwrap();
    let expected_message = [2, 0, 1, 1];
    assert_eq!(encoded_message, expected_message)
}

#[test]
fn test_multi_schema_decode_two_layer() {
    let parser = Parser::new(multi_scheme()).unwrap();
    let message = [2, 0, 1, 1];
    let decoded_message = parser.decode(message.to_vec()).unwrap();
    assert_eq!(decoded_message, two_layer_message())
}

#[test]
fn test_multi_schema_encode_singleton() {
    let parser = Parser::new(multi_scheme()).unwrap();
    let encoded_message = parser.encode(singleton_message()).unwrap();
    let expected_message = [3];
    assert_eq!(encoded_message, expected_message)
}

#[test]
fn test_multi_schema_decode_singleton() {
    let parser = Parser::new(multi_scheme()).unwrap();
    let message = [3];
    let decoded_message = parser.decode(message.to_vec()).unwrap();
    assert_eq!(decoded_message, singleton_message())
}

/// A bare leaf schema, no layers: a 16-bit integer, a string, a boolean.
fn flat_scheme() -> JsonVal {
    obj(vec![
        ("id", s("flat")),
        ("required", arr(vec![s("value1"), s("value2"), s("value3")])),
        (
            "properties",
            obj(vec![
                ("value1", int_field(16)),
                ("value2", str_field()),
                ("value3", bool_field()),
            ]),
        ),
    ])
}

fn flat_message() -> JsonVal {
    obj(vec![
        ("value1", whole(50)),
        ("value2", s("Test")),
        ("value3", JsonVal::Bool(true)),
    ])
}

#[test]
fn test_flat_record_fixture() {
    let parser = Parser::new(flat_scheme()).unwrap();
    let encoded = parser.encode(flat_message()).unwrap();
    assert_eq!(encoded, [50, 0, 4, 84, 101, 115, 116, 1]);
    let decoded = parser.decode(encoded).unwrap();
    assert_eq!(decoded, flat_message())
}

fn string_only_scheme() -> JsonVal {
    obj(vec![
        ("id", s("text")),
        ("required", arr(vec![s("data")])),
        ("properties", obj(vec![("data", str_field())])),
    ])
}

#[test]
fn test_string_boundary_255_round_trips() {
    let parser = Parser::new(string_only_scheme()).unwrap();
    let long: String = "a".repeat(255);
    let message = obj(vec![("data", JsonVal::Str(long.clone()))]);
    let encoded = parser.encode(message).unwrap();
    assert_eq!(encoded.len(), 256);
    assert_eq!(encoded[0], 255);
    let decoded = parser.decode(encoded).unwrap();
    assert_eq!(decoded, obj(vec![("data", JsonVal::Str(long))]))
}

#[test]
fn test_string_256_fails() {
    let parser = Parser::new(string_only_scheme()).unwrap();
    let long: String = "a".repeat(256);
    let message = obj(vec![("data", JsonVal::Str(long))]);
    let r = parser.encode(message);
    assert!(matches!(r, Err(Error::EncodeError { .. })));
    match r {
        Err(Error::EncodeError { error_msg, error_pos }) => {
            assert_eq!(error_msg, "Provided string is more than 255 bytes long");
            assert_eq!(error_pos, Some("data".to_string()));
        }
        _ => panic!("expected an encode error"),
    }
}

#[test]
fn test_blob_is_string_alias() {
    let schema = obj(vec![
        ("id", s("raw")),
        ("required", arr(vec![s("data")])),
        ("properties", obj(vec![("data", blob_field())])),
    ]);
    let parser = Parser::new(schema).unwrap();
    let message = obj(vec![("data", s("Test"))]);
    let encoded = parser.encode(message).unwrap();
    assert_eq!(encoded, [4, 84, 101, 115, 116]);
    let decoded = parser.decode(encoded).unwrap();
    assert_eq!(decoded, obj(vec![("data", s("Test"))]))
}

#[test]
fn test_two_keys_fails_with_parse_error() {
    let parser = Parser::new(telemetry_scheme()).unwrap();
    let message = obj(vec![
        ("telemetry", obj(vec![("value1", whole(1))])),
        ("extra", obj(vec![])),
    ]);
    let r = parser.encode(message);
    match r {
        Err(Error::ParseError(msg)) => {
            assert_eq!(msg, "Message has more than one signal key")
        }
        _ => panic!("expected a parse error"),
    }
}

#[test]
fn test_short_integer_bytes_fail() {
    let parser = Parser::new(flat_scheme()).unwrap();
    // One byte where the 16-bit integer needs two: no silent zero-filling.
    let r = parser.decode(vec![50]);
    match r {
        Err(Error::EncodeError { error_msg, error_pos }) => {
            assert_eq!(error_msg, "Message is too short");
            assert_eq!(error_pos, Some("value1".to_string()));
        }
        _ => panic!("expected an encode error"),
    }
}

#[test]
fn test_unknown_tag_fails_with_tag_position() {
    let parser = Parser::new(multi_scheme()).unwrap();
    let r = parser.decode(vec![7]);
    match r {
        Err(Error::EncodeError { error_msg, error_pos }) => {
            assert_eq!(error_msg, "Provided Message Bit couldn't be found");
            assert_eq!(error_pos, Some("7".to_string()));
        }
        _ => panic!("expected an encode error"),
    }
}

#[test]
fn test_empty_bytes_fail() {
    let parser = Parser::new(telemetry_scheme()).unwrap();
    let r = parser.decode(vec![]);
    match r {
        Err(Error::EncodeError { error_msg, error_pos }) => {
            assert_eq!(error_msg, "Message is empty");
            assert_eq!(error_pos, None);
        }
        _ => panic!("expected an encode error"),
    }
}

#[test]
fn test_unknown_signal_key_fails() {
    let parser = Parser::new(telemetry_scheme()).unwrap();
    let message = obj(vec![("mystery", obj(vec![]))]);
    let r = parser.encode(message);
    match r {
        Err(Error::EncodeError { error_msg, error_pos }) => {
            assert_eq!(error_msg, "Unable to get scheme id");
            assert_eq!(error_pos, Some("mystery".to_string()));
        }
        _ => panic!("expected an encode error"),
    }
}

#[test]
fn test_schema_not_an_object_fails() {
    let r = Parser::new(whole(5));
    match r {
        Err(Error::ParseError(msg)) => {
            assert_eq!(msg, "Provided Schema is not a valid Key-Value Map")
        }
        _ => panic!("expected a parse error"),
    }
}

#[test]
fn test_one_of_not_an_array_fails() {
    let r = Parser::new(obj(vec![("oneOf", s("wrong"))]));
    match r {
        Err(Error::ParseError(msg)) => {
            assert_eq!(msg, "oneOf is incorrectly declared, unable to parse array")
        }
        _ => panic!("expected a parse error"),
    }
}

#[test]
fn test_missing_id_fails() {
    let r = Parser::new(obj(vec![(
        "oneOf",
        arr(vec![obj(vec![("required", arr(vec![]))])]),
    )]));
    match r {
        Err(Error::ParseError(msg)) => {
            assert_eq!(msg, "Could not find subschema with given key")
        }
        _ => panic!("expected a parse error"),
    }
}

#[test]
fn test_empty_required_with_fields_fails() {
    let schema = obj(vec![
        ("id", s("bad")),
        ("required", arr(vec![])),
        ("properties", obj(vec![("f", bool_field())])),
    ]);
    let parser = Parser::new(schema).unwrap();
    let r = parser.encode(obj(vec![]));
    match r {
        Err(Error::EncodeError { error_msg, error_pos }) => {
            assert_eq!(error_msg, "Required Field is empty!");
            assert_eq!(error_pos, Some("bad".to_string()));
        }
        _ => panic!("expected an encode error"),
    }
}

#[test]
fn test_invalid_property_keyword_fails() {
    let schema = obj(vec![
        ("id", s("bad")),
        ("required", arr(vec![s("f")])),
        ("properties", obj(vec![("f", obj(vec![("type", s("matrix"))]))])),
    ]);
    let parser = Parser::new(schema).unwrap();
    let r = parser.encode(obj(vec![("f", whole(1))]));
    match r {
        Err(Error::EncodeError { error_msg, error_pos }) => {
            assert_eq!(error_msg, "Invalid property keyword");
            assert_eq!(error_pos, Some("f".to_string()));
        }
        _ => panic!("expected an encode error"),
    }
}

#[test]
fn test_integer_above_bound_fails() {
    let schema = obj(vec![
        ("id", s("ints")),
        ("required", arr(vec![s("f")])),
        ("properties", obj(vec![("f", int_field(8))])),
    ]);
    let parser = Parser::new(schema).unwrap();
    let r = parser.encode(obj(vec![("f", whole(300))]));
    match r {
        Err(Error::EncodeError { error_msg, error_pos }) => {
            assert_eq!(error_msg, "Provided value is bigger than maximum");
            assert_eq!(error_pos, Some("f".to_string()));
        }
        _ => panic!("expected an encode error"),
    }
}

#[test]
fn test_negative_integer_decodes_unsigned() {
    // The range check compares a negative value against the positive
    // bound, so it never fires; the two's-complement low byte goes out and
    // comes back as its unsigned reading.
    let schema = obj(vec![
        ("id", s("ints")),
        ("required", arr(vec![s("f")])),
        ("properties", obj(vec![("f", int_field(8))])),
    ]);
    let parser = Parser::new(schema).unwrap();
    let encoded = parser.encode(obj(vec![("f", whole(-1))])).unwrap();
    assert_eq!(encoded, [255]);
    let decoded = parser.decode(encoded).unwrap();
    assert_eq!(decoded, obj(vec![("f", whole(255))]))
}

#[test]
fn test_enum_encodes_position() {
    let schema = obj(vec![
        ("id", s("states")),
        ("required", arr(vec![s("state")])),
        (
            "properties",
            obj(vec![(
                "state",
                obj(vec![("enum", arr(vec![s("idle"), s("armed"), s("firing")]))]),
            )]),
        ),
    ]);
    let parser = Parser::new(schema).unwrap();
    let encoded = parser.encode(obj(vec![("state", s("armed"))])).unwrap();
    assert_eq!(encoded, [1]);
    let decoded = parser.decode(encoded).unwrap();
    assert_eq!(decoded, obj(vec![("state", s("armed"))]))
}

#[test]
fn test_enum_value_not_declared_fails() {
    let schema = obj(vec![
        ("id", s("states")),
        ("required", arr(vec![s("state")])),
        (
            "properties",
            obj(vec![("state", obj(vec![("enum", arr(vec![s("idle")]))]))]),
        ),
    ]);
    let parser = Parser::new(schema).unwrap();
    let r = parser.encode(obj(vec![("state", s("armed"))]));
    match r {
        Err(Error::EncodeError { error_msg, error_pos }) => {
            assert_eq!(error_msg, "Could not get index of provided enum value");
            assert_eq!(error_pos, Some("state".to_string()));
        }
        _ => panic!("expected an encode error"),
    }
}

#[test]
fn test_invalid_utf8_fails() {
    let parser = Parser::new(string_only_scheme()).unwrap();
    let r = parser.decode(vec![2, 0xFF, 0xFE]);
    match r {
        Err(Error::EncodeError { error_msg, error_pos }) => {
            assert_eq!(error_msg, "Can't convert to UTF8");
            assert_eq!(error_pos, Some("data".to_string()));
        }
        _ => panic!("expected an encode error"),
    }
}

#[test]
fn test_number_round_trips_exactly() {
    let schema = obj(vec![
        ("id", s("floats")),
        ("required", arr(vec![s("f")])),
        ("properties", obj(vec![("f", num_field())])),
    ]);
    let parser = Parser::new(schema).unwrap();
    let encoded = parser.encode(obj(vec![("f", num(13.5))])).unwrap();
    assert_eq!(encoded, [0, 0, 0, 0, 0, 0, 43, 64]);
    let decoded = parser.decode(encoded).unwrap();
    assert_eq!(decoded, obj(vec![("f", num(13.5))]))
}

#[test]
fn test_encoded_length_sums_contributions() {
    // One tag byte, one for the 8-bit integer, five for the string, one
    // for the boolean, eight for the number.
    let parser = Parser::new(multi_scheme()).unwrap();
    let encoded = parser.encode(multi_message()).unwrap();
    assert_eq!(encoded.len(), 2 + 1 + (1 + 4) + 1 + 8)
}

#[test]
fn test_get_top_level() {
    let parser = Parser::new(multi_scheme()).unwrap();
    let names = parser.get_top_level();
    assert_eq!(
        names,
        vec![
            "power".to_string(),
            "command_ack".to_string(),
            "modes".to_string(),
            "ping".to_string()
        ]
    )
}

#[test]
fn test_get_top_level_bottom() {
    let parser = Parser::new(flat_scheme()).unwrap();
    assert_eq!(parser.get_top_level(), vec!["flat".to_string()])
}

#[test]
fn test_get_schema() {
    let parser = Parser::new(multi_scheme()).unwrap();
    let sub = parser.get_schema(&"ping".to_string());
    let expected = Parser::new(obj(vec![
        ("id", s("ping")),
        ("required", arr(vec![])),
        ("properties", obj(vec![])),
    ]));
    assert!(expected.is_ok());
    match sub {
        packer_parser::MultiLayerSchema::Bottom(entries) => {
            assert_eq!(entries.len(), 3);
            assert_eq!(entries[0].0, "id".to_string());
        }
        _ => panic!("expected a leaf schema"),
    }
}

#[test]
fn test_eq_val_and_clone_val() {
    let a = multi_message();
    let b = packer_parser::value::clone_val(&a);
    assert!(packer_parser::value::eq_val(&a, &b));
    assert_eq!(a, b);
    let c = ack_message();
    assert!(!packer_parser::value::eq_val(&a, &c))
}

#[test]
fn test_trailing_bytes_are_ignored() {
    let parser = Parser::new(telemetry_scheme()).unwrap();
    let message = [0, 50, 4, 84, 101, 115, 116, 1, 9, 9];
    let decoded = parser.decode(message.to_vec()).unwrap();
    assert_eq!(decoded, telemetry_message())
}
