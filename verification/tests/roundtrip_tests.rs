use metainfo::decode::decode;
use metainfo::encode::encode;
use metainfo::schema::{InfoLayout, Torrent};
use metainfo::value::Value;

/// An in-memory metainfo document shaped like a real archive-distribution
/// torrent: announce URL, creation date, and a single-file info dictionary
/// whose piece hashes are two 20-byte chunks.
fn archive_fixture() -> Vec<u8> {
    let name = "archlinux-2024.01.01-x86_64.iso";
    let announce = "http://tracker.example.org:6969/announce";
    let mut b = Vec::new();
    b.extend_from_slice(b"d8:announce");
    b.extend_from_slice(format!("{}:{}", announce.len(), announce).as_bytes());
    b.extend_from_slice(b"13:creation datei1704067200e4:infod");
    b.extend_from_slice(b"6:lengthi874512384e");
    b.extend_from_slice(format!("4:name{}:{}", name.len(), name).as_bytes());
    b.extend_from_slice(b"12:piece lengthi524288e");
    b.extend_from_slice(b"6:pieces40:");
    for i in 0..40u8 {
        b.push(i.wrapping_mul(7));
    }
    b.extend_from_slice(b"ee");
    b
}

#[test]
fn encoder_produces_canonical_bytes() {
    assert_eq!(encode(&Value::Integer(-42)), b"i-42e".to_vec());
    assert_eq!(encode(&Value::Integer(0)), b"i0e".to_vec());
    assert_eq!(encode(&Value::ByteString(b"spam".to_vec())), b"4:spam".to_vec());
    assert_eq!(
        encode(&Value::List(vec![Value::Integer(7), Value::ByteString(b"a".to_vec())])),
        b"li7e1:ae".to_vec()
    );
    assert_eq!(
        encode(&Value::Dictionary(vec![(
            b"cow".to_vec(),
            Value::ByteString(b"moo".to_vec())
        )])),
        b"d3:cow3:mooe".to_vec()
    );
}

#[test]
fn decoded_values_round_trip_through_the_encoder() {
    let inputs: Vec<&[u8]> = vec![
        b"i0e",
        b"i-9223372036854775808e",
        b"4:spam",
        b"le",
        b"de",
        b"l4:spami7eld3:cow3:mooeee",
        b"d3:cow3:moo4:spam4:eggse",
    ];
    for input in inputs {
        let v = decode(input).unwrap();
        let re = encode(&v);
        let v2 = decode(&re).unwrap();
        assert_eq!(v, v2);
        assert_eq!(re, input.to_vec());
    }
}

#[test]
fn fixture_round_trips_byte_for_byte() {
    let bytes = archive_fixture();
    let v = decode(&bytes).unwrap();
    let re = encode(&v);
    assert_eq!(re, bytes);
    assert_eq!(decode(&re).unwrap(), v);
}

#[test]
fn fixture_maps_end_to_end() {
    let t = Torrent::from_bytes(&archive_fixture()).unwrap();
    assert_eq!(t.info.name, "archlinux-2024.01.01-x86_64.iso".to_string());
    assert!(t.announce.is_some());
    assert_eq!(
        t.announce,
        Some("http://tracker.example.org:6969/announce".to_string())
    );
    assert_eq!(t.creation_date, Some(1704067200));
    assert_eq!(
        t.info.layout,
        InfoLayout::SingleFile { length: 874512384, md5sum: None }
    );
}

#[test]
fn fixture_pieces_are_twenty_byte_aligned() {
    let t = Torrent::from_bytes(&archive_fixture()).unwrap();
    assert_eq!(t.info.pieces.len() % 20, 0);
    assert!(t.info.pieces.len() > 0);
}
