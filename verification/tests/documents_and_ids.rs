use nodedb::document::Document;
use nodedb::digest::sha256_hex;
use nodedb::provenance::{hex_decode, hex_encode};
use nodedb::storage::{decode_id, encode_id};
use nodedb::value::Value;

fn s(x: &str) -> Value {
    Value::Str(x.to_string())
}

fn sample_doc() -> Document {
    let data = Value::Object(vec![
        (s("name"), s("Alice")),
        (s("age"), Value::Integer(30)),
        (s("address"), Value::Object(vec![(s("city"), s("NYC"))])),
    ]);
    Document::new(1, "users", data)
}

fn text(v: Option<&Value>) -> Option<String> {
    match v {
        Some(Value::Str(t)) => Some(t.clone()),
        _ => None,
    }
}

#[test]
fn test_get_field() {
    let doc = sample_doc();
    assert_eq!(text(doc.get_field("name")), Some("Alice".to_string()));
    assert!(matches!(doc.get_field("age"), Some(Value::Integer(30))));
    assert!(doc.get_field("missing").is_none());
}

#[test]
fn test_get_nested_field() {
    let doc = sample_doc();
    assert_eq!(text(doc.get_field("address.city")), Some("NYC".to_string()));
    assert!(doc.get_field("address.zip").is_none());
    assert!(doc.get_field("name.first").is_none());
}

#[test]
fn new_document_times_are_equal() {
    let doc = sample_doc();
    assert_eq!(doc.created_at, doc.updated_at);
    assert_eq!(doc.collection, "users");
    assert_eq!(doc.id, 1);
}

#[test]
fn test_encode_decode_id() {
    for id in [0i64, 1, -1, i64::MAX, i64::MIN, 42, 100000] {
        let bytes = encode_id(id);
        assert_eq!(bytes.len(), 8);
        let decoded = decode_id(&bytes).unwrap();
        assert_eq!(id, decoded);
    }
}

#[test]
fn encode_id_is_big_endian() {
    assert_eq!(encode_id(258), vec![0, 0, 0, 0, 0, 0, 1, 2]);
    assert_eq!(encode_id(-1), vec![255; 8]);
}

#[test]
fn hex_text_decodes_back() {
    let bytes: Vec<u8> = vec![0x00, 0x0f, 0x10, 0xab, 0xff, 0x7e];
    let text = hex_encode(&bytes);
    assert_eq!(text, "000f10abff7e");
    assert_eq!(hex_decode(&text), Ok(bytes));
    assert_eq!(hex_decode("ABff"), Ok(vec![0xab, 0xff]));
    assert_eq!(hex_decode("abc"), Err("odd length".to_string()));
    assert_eq!(hex_decode("zz"), Err("invalid digit found in string".to_string()));
    assert_eq!(hex_decode("+f"), Ok(vec![0x0f]));
}

#[test]
fn sha256_hex_of_known_inputs() {
    assert_eq!(sha256_hex(b""), "e3b0c44298fc1c149afbf4c8996fb92427ae41e4649b934ca495991b7852b855");
    assert_eq!(sha256_hex(b"abc"), "ba7816bf8f01cfea414140de5dae2223b00361a396177a9cb410ff61f20015ad");
}
