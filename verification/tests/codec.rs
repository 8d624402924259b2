use torrent_summary::bencode::Value;
use torrent_summary::decode::DecodeError;

fn roundtrip(bytes: &[u8]) -> Vec<u8> {
    Value::decode(bytes).expect("decode failed").encode()
}

#[test]
fn roundtrip_integer() {
    assert_eq!(roundtrip(b"i42e"), b"i42e".to_vec());
    assert_eq!(roundtrip(b"i0e"), b"i0e".to_vec());
    assert_eq!(roundtrip(b"i-7e"), b"i-7e".to_vec());
    assert_eq!(
        roundtrip(b"i9223372036854775807e"),
        b"i9223372036854775807e".to_vec()
    );
    assert_eq!(
        roundtrip(b"i-9223372036854775808e"),
        b"i-9223372036854775808e".to_vec()
    );
}

#[test]
fn roundtrip_bytes() {
    assert_eq!(roundtrip(b"4:spam"), b"4:spam".to_vec());
    assert_eq!(roundtrip(b"0:"), b"0:".to_vec());
}

#[test]
fn roundtrip_list_and_dict() {
    assert_eq!(roundtrip(b"l4:spami42ee"), b"l4:spami42ee".to_vec());
    assert_eq!(roundtrip(b"le"), b"le".to_vec());
    assert_eq!(roundtrip(b"de"), b"de".to_vec());
    assert_eq!(
        roundtrip(b"d3:bar4:spam3:fooi42ee"),
        b"d3:bar4:spam3:fooi42ee".to_vec()
    );
}

#[test]
fn roundtrip_constructed_value() {
    let v = Value::Dict(vec![
        (b"a".to_vec(), Value::Int(-3)),
        (
            b"b".to_vec(),
            Value::List(vec![Value::Bytes(b"xy".to_vec()), Value::Int(0)]),
        ),
        (b"c".to_vec(), Value::Dict(vec![])),
    ]);
    let encoded = v.encode();
    assert_eq!(encoded, b"d1:ai-3e1:bl2:xyi0ee1:cdee".to_vec());
    let back = Value::decode(&encoded).expect("decode failed");
    assert_eq!(back.encode(), encoded);
}

#[test]
fn dictionary_key_order_is_preserved() {
    // Non-canonical key order must survive a decode/encode round trip
    // byte for byte: the info-hash depends on it.
    let bytes = b"d3:zzzi1e3:aaai2ee";
    assert_eq!(roundtrip(bytes), bytes.to_vec());
}

#[test]
fn trailing_bytes_are_ignored() {
    let v = Value::decode(b"i42etrailing").expect("decode failed");
    assert_eq!(v.encode(), b"i42e".to_vec());
}

#[test]
fn decode_empty_input_fails() {
    assert_eq!(Value::decode(b"").unwrap_err(), DecodeError::UnexpectedEnd);
}

#[test]
fn decode_unknown_prefix_fails() {
    assert_eq!(Value::decode(b"x").unwrap_err(), DecodeError::UnexpectedByte);
}

#[test]
fn decode_malformed_integer_fails() {
    assert_eq!(
        Value::decode(b"ie").unwrap_err(),
        DecodeError::MalformedInteger
    );
    assert_eq!(
        Value::decode(b"i12").unwrap_err(),
        DecodeError::MalformedInteger
    );
}

#[test]
fn decode_integer_out_of_range_fails() {
    assert_eq!(
        Value::decode(b"i9223372036854775808e").unwrap_err(),
        DecodeError::IntegerOutOfRange
    );
    assert_eq!(
        Value::decode(b"i99999999999999999999999e").unwrap_err(),
        DecodeError::IntegerOutOfRange
    );
}

#[test]
fn decode_bad_length_prefix_fails() {
    // Declared length runs past the end of the input.
    assert_eq!(
        Value::decode(b"5:ab").unwrap_err(),
        DecodeError::BadLengthPrefix
    );
    // Digits not followed by a colon.
    assert_eq!(
        Value::decode(b"12x").unwrap_err(),
        DecodeError::BadLengthPrefix
    );
}

#[test]
fn decode_unterminated_container_fails() {
    assert!(Value::decode(b"l4:spam").is_err());
    assert!(Value::decode(b"d3:foo").is_err());
}

#[test]
fn decode_non_string_dictionary_key_fails() {
    assert_eq!(
        Value::decode(b"di1ei2ee").unwrap_err(),
        DecodeError::UnexpectedByte
    );
}
