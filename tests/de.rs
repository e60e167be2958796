use ipld_dagjson::{from_slice, to_vec, DecodeError, Deserializer, Ipld, Json};

const CID_TEXT: &str = "bafkreibme22gw2h7y2h7tg2fhqotaqjucnbc24deqo72b6mkl2egezxhvy";

fn cid_bytes(text: &str) -> Vec<u8> {
    cid::Cid::try_from(text).unwrap().to_bytes()
}

fn text(s: &str) -> Ipld {
    Ipld::String(s.to_string())
}

fn reserved(x: Json) -> Json {
    Json::Object(vec![("/".to_string(), x)])
}

#[test]
fn test_hello_world() {
    let data = br#"{"hello": "world!"}"#;
    let ipld = from_slice(data).unwrap();
    let expected = Ipld::Mapping(vec![("hello".to_string(), text("world!"))]);
    assert_eq!(ipld, expected);
}

#[test]
fn de_test_cid() {
    let data = br#"{"/": "bafkreibme22gw2h7y2h7tg2fhqotaqjucnbc24deqo72b6mkl2egezxhvy"}"#;
    let ipld = from_slice(data).unwrap();
    let expected = Ipld::Link(cid_bytes(CID_TEXT));
    assert_eq!(ipld, expected);
}

#[test]
fn test_direct_cid() {
    let tree = reserved(Json::String(CID_TEXT.to_string()));
    let cid = Deserializer::new(tree).deserialize_cid().unwrap();
    let expected = cid_bytes(CID_TEXT);
    assert_eq!(cid, expected);
}

#[test]
fn de_test_nested_cid() {
    let data =
        br#"{"hello": {"/": "bafkreibme22gw2h7y2h7tg2fhqotaqjucnbc24deqo72b6mkl2egezxhvy"}}"#;
    let ipld = from_slice(data).unwrap();
    let expected = Ipld::Mapping(vec![("hello".to_string(), Ipld::Link(cid_bytes(CID_TEXT)))]);
    assert_eq!(ipld, expected);
}

#[test]
fn test_array_cid() {
    let data = br#"[{"/": "bafkreibme22gw2h7y2h7tg2fhqotaqjucnbc24deqo72b6mkl2egezxhvy"}]"#;
    let ipld = from_slice(data).unwrap();
    let expected = Ipld::List(vec![Ipld::Link(cid_bytes(CID_TEXT))]);
    assert_eq!(ipld, expected);
}

#[test]
fn de_test_bytes() {
    let data = br#"{"/": { "bytes": "dm14"}}"#;
    let ipld = from_slice(data).unwrap();
    let expected = Ipld::Bytes(vec![118, 109, 120]);
    assert_eq!(ipld, expected);
}

#[test]
fn de_test_nested_bytes() {
    let data = br#"{"nested": {"/": {"bytes": "dm14"}}}"#;
    let ipld = from_slice(data).unwrap();
    let expected = Ipld::Mapping(vec![("nested".to_string(), Ipld::Bytes(vec![118, 109, 120]))]);
    assert_eq!(ipld, expected);
}

#[test]
fn test_direct_bytes() {
    let inner = Json::Object(vec![("bytes".to_string(), Json::String("dm14".to_string()))]);
    let bytes = Deserializer::new(reserved(inner)).deserialize_bytes().unwrap();
    let expected = vec![118, 109, 120];
    assert_eq!(bytes, expected);
}

#[test]
fn test_direct_byte_array() {
    let inner = Json::Object(vec![("bytes".to_string(), Json::String("dm14".to_string()))]);
    let bytes = Deserializer::new(reserved(inner)).deserialize_bytes().unwrap();
    let array: [u8; 3] = bytes.try_into().unwrap();
    assert_eq!(array, [118, 109, 120]);
}

#[test]
fn de_test_string() {
    let ipld = from_slice(br#""foobar""#).unwrap();
    assert_eq!(ipld, text("foobar"));
}

#[test]
fn test_numbers1() {
    let ipld = from_slice(b"0").unwrap();
    assert_eq!(ipld, Ipld::Integer(0));
}

#[test]
fn test_numbers2() {
    let ipld = from_slice(b"12345678").unwrap();
    assert_eq!(ipld, Ipld::Integer(12345678));
}

#[test]
fn test_numbers3() {
    let ipld = from_slice(b"-2015").unwrap();
    assert_eq!(ipld, Ipld::Integer(-2015));
}

#[test]
fn test_numbers_large_negative() {
    // Beyond the 64-bit range the JSON reader falls back to a float.
    let ipld = from_slice(b"-11959030306112471732").unwrap();
    let expected: i128 = -11959030306112471732;
    assert!(expected < i128::from(i64::MIN));
    match ipld {
        Ipld::Float(t) => assert_eq!(t.parse::<f64>().unwrap(), expected as f64),
        other => panic!("expected a float, got {:?}", other),
    }
}

#[test]
fn test_bool() {
    let ipld = from_slice(b"false").unwrap();
    assert_eq!(ipld, Ipld::Bool(false));
}

#[test]
fn test_null() {
    let ipld = from_slice(b"null").unwrap();
    assert_eq!(ipld, Ipld::Null);
}

#[test]
fn test_trailing_bytes() {
    let ipld = from_slice(b"falsetrailing");
    assert!(matches!(ipld.unwrap_err(), DecodeError::TrailingData));
}

#[test]
fn trailing_whitespace_is_accepted() {
    assert_eq!(from_slice(b" [1] \n\t").unwrap(), Ipld::List(vec![Ipld::Integer(1)]));
}

#[test]
fn de_test_list() {
    let ipld = from_slice(b"[1,2,3]").unwrap();
    assert_eq!(
        ipld,
        Ipld::List(vec![Ipld::Integer(1), Ipld::Integer(2), Ipld::Integer(3)])
    );
}

#[test]
fn test_list_nested() {
    let ipld = from_slice(b"[1,[2,[3]]]").unwrap();
    assert_eq!(
        ipld,
        Ipld::List(vec![
            Ipld::Integer(1),
            Ipld::List(vec![Ipld::Integer(2), Ipld::List(vec![Ipld::Integer(3)])])
        ])
    );
}

#[test]
fn de_test_object() {
    let ipld = from_slice(br#"{"a":"A","b":"B","c":"C","d":"D","e":"E"}"#).unwrap();
    let expected = Ipld::Mapping(vec![
        ("a".to_string(), text("A")),
        ("b".to_string(), text("B")),
        ("c".to_string(), text("C")),
        ("d".to_string(), text("D")),
        ("e".to_string(), text("E")),
    ]);
    assert_eq!(ipld, expected);
}

#[test]
fn test_empty_map() {
    let ipld = from_slice(b"{}").unwrap();
    let expected = Ipld::Mapping(Vec::new());
    assert_eq!(ipld, expected);
}

#[test]
fn de_test_float() {
    let ipld = from_slice(b"100000.0").unwrap();
    match ipld {
        Ipld::Float(t) => assert_eq!(t.parse::<f64>().unwrap(), 100000.0),
        other => panic!("expected a float, got {:?}", other),
    }
}

#[test]
fn test_crazy_list() {
    let slice = b"[123456789959, -34567897654325468, -456787678, true, null, 23456543.5]";
    let ipld = from_slice(slice).unwrap();
    assert_eq!(
        ipld,
        Ipld::List(vec![
            Ipld::Integer(123456789959),
            Ipld::Integer(-34567897654325468),
            Ipld::Integer(-456787678),
            Ipld::Bool(true),
            Ipld::Null,
            Ipld::Float("23456543.5".to_string()),
        ])
    );
}

#[test]
fn test_option_roundtrip() {
    // A present optional is written as its payload.
    let obj1 = Ipld::Integer(10);

    let v = to_vec(&obj1).unwrap();
    let obj2 = from_slice(&v[..]);

    assert_eq!(obj1, obj2.unwrap());
}

#[test]
fn test_option_none_roundtrip() {
    // An absent optional is written as null.
    let obj1 = Ipld::Null;

    let v = to_vec(&obj1).unwrap();
    let obj2 = from_slice(&v[..]);

    assert_eq!(obj1, obj2.unwrap());
}

#[test]
fn test_unit() {
    let unit = Ipld::Null;
    let v = to_vec(&unit).unwrap();
    assert_eq!(v, b"null", "unit is serialized as NULL.");
    let result = from_slice(&v);
    assert!(result.is_ok(), "unit was successfully deserialized");
}

#[test]
fn test_invalid_reserved_cid() {
    let data = br#"{"/": true}"#;
    let ipld = from_slice(data);
    assert!(ipld.is_err());
}

#[test]
fn test_invalid_reserved_bytes() {
    let data = br#"{"/": {"bytes": false}}"#;
    let ipld = from_slice(data);
    assert!(ipld.is_err());
}

/// The reserved key `"/"` is decoded normally if it's not the first key of a map.
#[test]
fn test_reserved_later() {
    let data =
        br#"{"some": "data", "/": "bafkreibme22gw2h7y2h7tg2fhqotaqjucnbc24deqo72b6mkl2egezxhvy"}"#;
    let ipld = from_slice(data).unwrap();
    let expected = Ipld::Mapping(vec![
        ("some".to_string(), text("data")),
        ("/".to_string(), text(CID_TEXT)),
    ]);
    assert_eq!(ipld, expected);
}

/// The reserved key `"/"` must be the only key in a map, else it's an error.
#[test]
fn test_reserved_trailing() {
    let data =
        br#"{"/": "bafkreibme22gw2h7y2h7tg2fhqotaqjucnbc24deqo72b6mkl2egezxhvy", "trailing": 123}"#;
    let ipld = from_slice(data);
    assert!(ipld.is_err());
}

#[test]
fn test_extract_links() {
    let slice = br#"[123456789959, -34567897654325468, {"/": "bafkreibme22gw2h7y2h7tg2fhqotaqjucnbc24deqo72b6mkl2egezxhvy" }, -456787678, {"nested_bool": true}, null, {"nested": {"/": "bafy2bzacecnamqgqmifpluoeldx7zzglxcljo6oja4vrmtj7332rphldpdmn2" }}, 23456543.5]"#;
    let extracted_links = ipld_dagjson::DagJsonCodec::links(slice).unwrap();
    assert_eq!(
        extracted_links,
        vec![
            cid_bytes(CID_TEXT),
            cid_bytes("bafy2bzacecnamqgqmifpluoeldx7zzglxcljo6oja4vrmtj7332rphldpdmn2"),
        ]
    );
}

#[test]
fn reserved_errors_name_the_offending_text() {
    let bad_cid = from_slice(br#"{"/": "nope"}"#).unwrap_err();
    assert_eq!(bad_cid.message(), "Invalid CID `nope`");
    let bad_bytes = from_slice(br#"{"/": {"bytes": "!!"}}"#).unwrap_err();
    assert_eq!(bad_bytes.message(), "Cannot base decode bytes `!!`");
}

#[test]
fn reserved_shape_errors() {
    let shape = from_slice(br#"{"/": 5}"#).unwrap_err();
    assert_eq!(shape.message(), "Expected a CID or bytes under the reserved key");
    let two_keys = from_slice(br#"{"/": {"bytes": "dm14", "x": 1}}"#).unwrap_err();
    assert_eq!(two_keys.message(), "Expected a CID or bytes under the reserved key");
    let extra = from_slice(br#"{"/": {"bytes": "dm14"}, "b": 1}"#).unwrap_err();
    assert_eq!(extra.message(), "The reserved key must be the only key of its map");
}

#[test]
fn malformed_json_is_a_message() {
    assert!(matches!(from_slice(b"[1,"), Err(DecodeError::Message(_))));
    assert!(matches!(from_slice(b""), Err(DecodeError::Message(_))));
}

#[test]
fn typed_requests_reject_other_shapes() {
    let not_cid = Deserializer::new(Json::Integer(1)).deserialize_cid().unwrap_err();
    assert_eq!(not_cid.message(), "Expected a CID");
    let not_bytes = Deserializer::new(Json::String("x".to_string()))
        .deserialize_bytes()
        .unwrap_err();
    assert_eq!(not_bytes.message(), "Expected bytes");
    let link = reserved(Json::String(CID_TEXT.to_string()));
    let not_bytes = Deserializer::new(link).deserialize_bytes().unwrap_err();
    assert_eq!(not_bytes.message(), "Expected bytes");
}

#[test]
fn deserializer_decodes_any_value() {
    let tree = Json::Array(vec![
        Json::Float("1.5".to_string()),
        Json::Object(vec![("k".to_string(), Json::Null)]),
    ]);
    let d = Deserializer::new(tree);
    assert!(d.is_human_readable());
    assert_eq!(
        d.deserialize_any().unwrap(),
        Ipld::List(vec![
            Ipld::Float("1.5".to_string()),
            Ipld::Mapping(vec![("k".to_string(), Ipld::Null)])
        ])
    );
}

#[test]
fn first_error_in_document_order_wins() {
    let e = from_slice(br#"[{"/": "first"}, {"/": "second"}]"#).unwrap_err();
    assert_eq!(e.message(), "Invalid CID `first`");
}

#[test]
fn escaped_strings_decode() {
    let ipld = from_slice("\"a\\\"b\\n\u{e9}\"".as_bytes()).unwrap();
    assert_eq!(ipld, text("a\"b\n\u{e9}"));
}

#[test]
fn extract_links_accumulates_across_visits() {
    let link = |t: &str| reserved(Json::String(t.to_string()));
    let other = "bafy2bzacecnamqgqmifpluoeldx7zzglxcljo6oja4vrmtj7332rphldpdmn2";
    let mut links = ipld_dagjson::ExtractLinks::new();
    links.visit(&Json::Array(vec![Json::Bool(true), link(CID_TEXT)])).unwrap();
    let bytes_shape = reserved(Json::Object(vec![(
        "bytes".to_string(),
        Json::String("dm14".to_string()),
    )]));
    links
        .visit(&Json::Object(vec![
            ("b".to_string(), bytes_shape),
            ("l".to_string(), link(other)),
        ]))
        .unwrap();
    assert_eq!(links.into_vec(), vec![cid_bytes(CID_TEXT), cid_bytes(other)]);
}
