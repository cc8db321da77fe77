use metainfo::decode::{decode, decode_prefix, decode_with, DEFAULT_MAX_DEPTH};
use metainfo::errors::DecodeErrorKind;
use metainfo::value::Value;

#[test]
fn integer_zero_decodes() {
    assert_eq!(decode(b"i0e").unwrap(), Value::Integer(0));
}

#[test]
fn negative_integer_decodes() {
    assert_eq!(decode(b"i-42e").unwrap(), Value::Integer(-42));
}

#[test]
fn integer_leading_zero_rejected() {
    let e = decode(b"i01e").unwrap_err();
    assert_eq!(e.kind, DecodeErrorKind::InvalidIntegerFormat);
}

#[test]
fn negative_zero_rejected() {
    let e = decode(b"i-0e").unwrap_err();
    assert_eq!(e.kind, DecodeErrorKind::InvalidIntegerFormat);
}

#[test]
fn empty_integer_rejected() {
    let e = decode(b"ie").unwrap_err();
    assert_eq!(e.kind, DecodeErrorKind::InvalidIntegerFormat);
}

#[test]
fn integer_without_terminator_rejected() {
    let e = decode(b"i42").unwrap_err();
    assert_eq!(e.kind, DecodeErrorKind::UnexpectedEndOfInput);
}

#[test]
fn integer_extreme_values_decode() {
    assert_eq!(
        decode(b"i9223372036854775807e").unwrap(),
        Value::Integer(i64::MAX)
    );
    assert_eq!(
        decode(b"i-9223372036854775808e").unwrap(),
        Value::Integer(i64::MIN)
    );
}

#[test]
fn integer_out_of_range_rejected() {
    let e = decode(b"i9223372036854775808e").unwrap_err();
    assert_eq!(e.kind, DecodeErrorKind::InvalidIntegerFormat);
}

#[test]
fn byte_string_decodes_exactly() {
    assert_eq!(decode(b"4:spam").unwrap(), Value::ByteString(b"spam".to_vec()));
}

#[test]
fn empty_byte_string_decodes() {
    assert_eq!(decode(b"0:").unwrap(), Value::ByteString(Vec::new()));
}

#[test]
fn truncated_byte_string_rejected() {
    let e = decode(b"5:spam").unwrap_err();
    assert_eq!(e.kind, DecodeErrorKind::TruncatedByteString);
}

#[test]
fn length_with_leading_zero_rejected() {
    let e = decode(b"01:a").unwrap_err();
    assert_eq!(e.kind, DecodeErrorKind::InvalidLengthPrefix);
}

#[test]
fn unknown_leading_byte_rejected() {
    let e = decode(b"x").unwrap_err();
    assert_eq!(e.kind, DecodeErrorKind::InvalidLengthPrefix);
    assert_eq!(e.offset, 0);
}

#[test]
fn list_decodes_in_order() {
    assert_eq!(
        decode(b"l4:spami7ee").unwrap(),
        Value::List(vec![Value::ByteString(b"spam".to_vec()), Value::Integer(7)])
    );
}

#[test]
fn unterminated_list_rejected() {
    let e = decode(b"l4:spam").unwrap_err();
    assert_eq!(e.kind, DecodeErrorKind::UnterminatedContainer);
}

#[test]
fn sorted_dictionary_decodes() {
    let v = decode(b"d3:cow3:moo4:spam4:eggse").unwrap();
    assert_eq!(
        v,
        Value::Dictionary(vec![
            (b"cow".to_vec(), Value::ByteString(b"moo".to_vec())),
            (b"spam".to_vec(), Value::ByteString(b"eggs".to_vec())),
        ])
    );
}

#[test]
fn unsorted_dictionary_rejected_in_strict_mode() {
    let e = decode(b"d4:spam4:eggs3:cow3:mooe").unwrap_err();
    assert_eq!(e.kind, DecodeErrorKind::UnsortedOrDuplicateDictionaryKeys);
}

#[test]
fn duplicate_dictionary_keys_rejected_in_strict_mode() {
    let e = decode(b"d3:cow3:moo3:cow4:eggse").unwrap_err();
    assert_eq!(e.kind, DecodeErrorKind::UnsortedOrDuplicateDictionaryKeys);
}

#[test]
fn unsorted_dictionary_accepted_in_lenient_mode() {
    let v = decode_with(b"d4:spam4:eggs3:cow3:mooe", false, DEFAULT_MAX_DEPTH).unwrap();
    assert_eq!(
        v,
        Value::Dictionary(vec![
            (b"spam".to_vec(), Value::ByteString(b"eggs".to_vec())),
            (b"cow".to_vec(), Value::ByteString(b"moo".to_vec())),
        ])
    );
}

#[test]
fn non_byte_string_dictionary_key_rejected() {
    let e = decode(b"di1e3:mooe").unwrap_err();
    assert_eq!(e.kind, DecodeErrorKind::NonByteStringDictionaryKey);
}

#[test]
fn nesting_beyond_cap_rejected_without_crash() {
    let mut deep = Vec::new();
    for _ in 0..(DEFAULT_MAX_DEPTH + 1) {
        deep.push(b'l');
    }
    let e = decode(&deep).unwrap_err();
    assert_eq!(e.kind, DecodeErrorKind::MaxNestingDepthExceeded);
}

#[test]
fn nesting_at_cap_decodes() {
    let mut buf = Vec::new();
    for _ in 0..DEFAULT_MAX_DEPTH {
        buf.push(b'l');
    }
    for _ in 0..DEFAULT_MAX_DEPTH {
        buf.push(b'e');
    }
    assert!(decode(&buf).is_ok());
}

#[test]
fn trailing_data_rejected() {
    let e = decode(b"i1ei2e").unwrap_err();
    assert_eq!(e.kind, DecodeErrorKind::TrailingDataAfterValue);
    assert_eq!(e.offset, 3);
}

#[test]
fn decode_prefix_reports_consumed_bytes() {
    let (v, n) = decode_prefix(b"i1ei2e", true, DEFAULT_MAX_DEPTH).unwrap();
    assert_eq!(v, Value::Integer(1));
    assert_eq!(n, 3);
}

#[test]
fn empty_input_rejected() {
    let e = decode(b"").unwrap_err();
    assert_eq!(e.kind, DecodeErrorKind::UnexpectedEndOfInput);
}
