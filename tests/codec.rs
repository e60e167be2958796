use ipld_dagjson::{CodecError, DagJsonCodec, DecodeError, Ipld, DAG_JSON_CODE};

const CID_TEXT: &str = "bafkreibme22gw2h7y2h7tg2fhqotaqjucnbc24deqo72b6mkl2egezxhvy";

fn cid_bytes(text: &str) -> Vec<u8> {
    cid::Cid::try_from(text).unwrap().to_bytes()
}

#[test]
fn test_codec_encode() {
    let data = Ipld::String("hello world!".to_string());
    let expected = br#""hello world!""#;

    let encoded = DagJsonCodec::encode_to_vec(&data).unwrap();
    assert_eq!(encoded, expected);
}

#[test]
fn test_codec_decode() {
    let data = br#""hello world!""#;
    let expected = Ipld::String("hello world!".to_string());

    let decoded = DagJsonCodec::decode_from_slice(data).unwrap();
    assert_eq!(decoded, expected);
}

#[test]
fn test_codec_links() {
    let cid = cid_bytes(CID_TEXT);
    // Keys in the order an ordered map of the data model holds them.
    let data = Ipld::Mapping(vec![
        ("foo".to_string(), Ipld::Bool(true)),
        (
            "or".to_string(),
            Ipld::List(vec![Ipld::Link(cid.clone()), Ipld::Link(cid.clone())]),
        ),
        (
            "some".to_string(),
            Ipld::Mapping(vec![("nested".to_string(), Ipld::Link(cid.clone()))]),
        ),
    ]);
    let expected = std::iter::repeat(cid).take(3).collect::<Vec<_>>();
    let encoded = DagJsonCodec::encode_to_vec(&data).unwrap();

    let links = DagJsonCodec::links(&encoded).unwrap();
    assert_eq!(links, expected);
}

#[test]
fn codec_code_is_dag_json() {
    assert_eq!(DagJsonCodec::code(), 0x0129);
    assert_eq!(DAG_JSON_CODE, 0x0129);
}

#[test]
fn codec_links_are_the_same_on_every_call() {
    let data = br#"[{"/": "bafkreibme22gw2h7y2h7tg2fhqotaqjucnbc24deqo72b6mkl2egezxhvy"}, {"a": {"/": "bafy2bzacecnamqgqmifpluoeldx7zzglxcljo6oja4vrmtj7332rphldpdmn2"}}]"#;
    let first = DagJsonCodec::links(data).unwrap();
    let second = DagJsonCodec::links(data).unwrap();
    assert_eq!(first, second);
    assert_eq!(
        first,
        vec![
            cid_bytes(CID_TEXT),
            cid_bytes("bafy2bzacecnamqgqmifpluoeldx7zzglxcljo6oja4vrmtj7332rphldpdmn2"),
        ]
    );
}

#[test]
fn codec_links_keep_duplicates_in_document_order() {
    let other = "bafy2bzacecnamqgqmifpluoeldx7zzglxcljo6oja4vrmtj7332rphldpdmn2";
    let data = format!(
        r#"{{"x": [{{"/": "{a}"}}, 1], "y": {{"z": {{"/": "{b}"}}}}, "w": {{"/": "{a}"}}}}"#,
        a = CID_TEXT,
        b = other
    );
    let links = DagJsonCodec::links(data.as_bytes()).unwrap();
    assert_eq!(links, vec![cid_bytes(CID_TEXT), cid_bytes(other), cid_bytes(CID_TEXT)]);
}

#[test]
fn codec_links_ignore_trailing_data() {
    let data = br#"{"/": "bafkreibme22gw2h7y2h7tg2fhqotaqjucnbc24deqo72b6mkl2egezxhvy"} junk"#;
    assert_eq!(DagJsonCodec::links(data).unwrap(), vec![cid_bytes(CID_TEXT)]);
}

#[test]
fn codec_links_report_malformed_json_from_the_reader() {
    let result = DagJsonCodec::links(b"[1, 2");
    assert!(matches!(result, Err(CodecError::UnderlyingFormat(_))));
}

#[test]
fn codec_links_report_bad_reserved_values_as_decode_errors() {
    let result = DagJsonCodec::links(br#"[{"/": "not a cid"}]"#);
    match result {
        Err(CodecError::Decode(DecodeError::Message(m))) => {
            assert_eq!(m, "Invalid CID `not a cid`")
        }
        other => panic!("unexpected {:?}", other),
    }
}

#[test]
fn codec_decode_wraps_decode_errors() {
    let result = DagJsonCodec::decode_from_slice(b"falsetrailing");
    assert!(matches!(result, Err(CodecError::Decode(DecodeError::TrailingData))));
    let error = result.unwrap_err();
    assert_eq!(error.message(), "decode error: trailing data");
}

#[test]
fn codec_encode_wraps_encode_errors() {
    let result = DagJsonCodec::encode_to_vec(&Ipld::Float("NaN".to_string()));
    match result {
        Err(e @ CodecError::Encode(_)) => assert_eq!(
            e.message(),
            "encode error: Float must be a finite number, not Infinity or NaN"
        ),
        other => panic!("unexpected {:?}", other),
    }
}

#[test]
fn codec_errors_convert_from_both_directions() {
    let d: CodecError = DecodeError::TrailingData.into();
    assert!(matches!(d, CodecError::Decode(DecodeError::TrailingData)));
    let e: CodecError = ipld_dagjson::EncodeError::Message("m".to_string()).into();
    assert_eq!(e.message(), "encode error: m");
    let u = CodecError::UnderlyingFormat("eof".to_string());
    assert_eq!(u.message(), "serde_json error: eof");
}
