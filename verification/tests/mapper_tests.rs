use metainfo::decode::decode;
use metainfo::errors::{Field, MapError, MetainfoError, ValueKind};
use metainfo::schema::{InfoLayout, Torrent};

fn minimal_single_file() -> Vec<u8> {
    // info keys in canonical order: length < name < piece length < pieces
    let mut b = Vec::new();
    b.extend_from_slice(b"d4:infod6:lengthi1048576e4:name8:test.iso12:piece lengthi262144e6:pieces20:");
    b.extend_from_slice(&[0u8; 20]);
    b.extend_from_slice(b"ee");
    b
}

#[test]
fn minimal_single_file_maps_with_all_optionals_absent() {
    let v = decode(&minimal_single_file()).unwrap();
    let t = Torrent::from_value(&v).unwrap();
    assert_eq!(t.info.name, "test.iso".to_string());
    assert_eq!(t.info.piece_length, 262144);
    assert_eq!(t.info.pieces.len(), 20);
    assert_eq!(
        t.info.layout,
        InfoLayout::SingleFile { length: 1048576, md5sum: None }
    );
    assert_eq!(t.info.private, None);
    assert_eq!(t.info.root_hash, None);
    assert_eq!(t.announce, None);
    assert_eq!(t.announce_list, None);
    assert_eq!(t.nodes, None);
    assert_eq!(t.creation_date, None);
    assert_eq!(t.comment, None);
    assert_eq!(t.created_by, None);
    assert_eq!(t.encoding, None);
    assert_eq!(t.httpseeds, None);
}

#[test]
fn missing_info_is_reported() {
    let v = decode(b"de").unwrap();
    let e = Torrent::from_value(&v).unwrap_err();
    assert_eq!(e, MapError::MissingRequiredField(Field::Info));
}

#[test]
fn non_dictionary_root_is_reported() {
    let v = decode(b"i7e").unwrap();
    let e = Torrent::from_value(&v).unwrap_err();
    assert_eq!(e, MapError::RootNotADictionary);
}

#[test]
fn info_of_wrong_type_is_reported() {
    let v = decode(b"d4:infoi1ee").unwrap();
    let e = Torrent::from_value(&v).unwrap_err();
    assert_eq!(
        e,
        MapError::UnexpectedType {
            field: Field::Info,
            expected: ValueKind::Dictionary,
            actual: ValueKind::Integer,
        }
    );
}

#[test]
fn missing_name_is_reported() {
    let v = decode(b"d4:infod6:lengthi1e12:piece lengthi1e6:pieces0:ee").unwrap();
    let e = Torrent::from_value(&v).unwrap_err();
    assert_eq!(e, MapError::MissingRequiredField(Field::Name));
}

#[test]
fn missing_piece_length_is_reported() {
    let v = decode(b"d4:infod6:lengthi1e4:name1:a6:pieces0:ee").unwrap();
    let e = Torrent::from_value(&v).unwrap_err();
    assert_eq!(e, MapError::MissingRequiredField(Field::PieceLength));
}

#[test]
fn missing_pieces_is_reported() {
    let v = decode(b"d4:infod6:lengthi1e4:name1:a12:piece lengthi1eee").unwrap();
    let e = Torrent::from_value(&v).unwrap_err();
    assert_eq!(e, MapError::MissingRequiredField(Field::Pieces));
}

#[test]
fn invalid_name_encoding_is_reported() {
    // 0xFF 0xFE is not valid UTF-8
    let mut b = Vec::new();
    b.extend_from_slice(b"d4:infod6:lengthi1e4:name2:");
    b.extend_from_slice(&[0xFF, 0xFE]);
    b.extend_from_slice(b"12:piece lengthi1e6:pieces0:ee");
    let v = decode(&b).unwrap();
    let e = Torrent::from_value(&v).unwrap_err();
    assert_eq!(e, MapError::InvalidTextEncoding(Field::Name));
}

#[test]
fn non_ascii_name_decodes_as_text() {
    // "café.iso" spelled in UTF-8 is nine bytes
    let mut b = Vec::new();
    b.extend_from_slice(b"d4:infod6:lengthi1e4:name9:");
    b.extend_from_slice("caf\u{e9}.iso".as_bytes());
    b.extend_from_slice(b"12:piece lengthi1e6:pieces0:ee");
    let v = decode(&b).unwrap();
    let t = Torrent::from_value(&v).unwrap();
    assert_eq!(t.info.name, "caf\u{e9}.iso".to_string());
}

#[test]
fn neither_length_nor_files_is_reported() {
    let v = decode(b"d4:infod4:name1:a12:piece lengthi1e6:pieces0:ee").unwrap();
    let e = Torrent::from_value(&v).unwrap_err();
    assert_eq!(e, MapError::MissingLayout);
}

#[test]
fn both_length_and_files_is_reported() {
    let v =
        decode(b"d4:infod5:filesle6:lengthi1e4:name1:a12:piece lengthi1e6:pieces0:ee").unwrap();
    let e = Torrent::from_value(&v).unwrap_err();
    assert_eq!(e, MapError::ConflictingLayout);
}

#[test]
fn multi_file_layout_maps_files_in_order() {
    let v = decode(
        b"d4:infod5:filesld6:lengthi10e4:pathl1:a3:dir9:inner.binee\
          d6:lengthi20e4:pathl5:b.isoeee\
          4:name3:dir12:piece lengthi1e6:pieces0:ee",
    )
    .unwrap();
    let t = Torrent::from_value(&v).unwrap();
    match &t.info.layout {
        InfoLayout::MultiFile { files } => {
            assert_eq!(files.len(), 2);
            assert_eq!(files[0].length, 10);
            assert_eq!(
                files[0].path,
                vec!["a".to_string(), "dir".to_string(), "inner.bin".to_string()]
            );
            assert_eq!(files[0].md5sum, None);
            assert_eq!(files[1].length, 20);
            assert_eq!(files[1].path, vec!["b.iso".to_string()]);
        },
        other => panic!("expected multi-file layout, got {:?}", other),
    }
}

#[test]
fn file_without_path_is_reported() {
    let v = decode(b"d4:infod5:filesld6:lengthi10eee4:name1:a12:piece lengthi1e6:pieces0:ee")
        .unwrap();
    let e = Torrent::from_value(&v).unwrap_err();
    assert_eq!(e, MapError::MissingRequiredField(Field::Path));
}

#[test]
fn optional_fields_map_when_present() {
    let v = decode(
        b"d8:announce9:http://tr7:comment5:hello13:creation datei1700000000e\
          4:infod6:lengthi1e4:name1:a12:piece lengthi1e6:pieces0:7:privatei1eee",
    )
    .unwrap();
    let t = Torrent::from_value(&v).unwrap();
    assert_eq!(t.announce, Some("http://tr".to_string()));
    assert_eq!(t.comment, Some("hello".to_string()));
    assert_eq!(t.creation_date, Some(1700000000));
    assert_eq!(t.info.private, Some(1));
}

#[test]
fn announce_list_keeps_tier_order() {
    let v = decode(
        b"d13:announce-listll4:http5:httpsel3:udpee\
          4:infod6:lengthi1e4:name1:a12:piece lengthi1e6:pieces0:ee",
    )
    .unwrap();
    let t = Torrent::from_value(&v).unwrap();
    assert_eq!(
        t.announce_list,
        Some(vec![
            vec!["http".to_string(), "https".to_string()],
            vec!["udp".to_string()],
        ])
    );
}

#[test]
fn nodes_map_as_host_port_pairs() {
    let v = decode(
        b"d4:infod6:lengthi1e4:name1:a12:piece lengthi1e6:pieces0:e\
          5:nodesll9:127.0.0.1i6881eel8:10.0.0.2i6882eeee",
    )
    .unwrap();
    let t = Torrent::from_value(&v).unwrap();
    let nodes = t.nodes.unwrap();
    assert_eq!(nodes.len(), 2);
    assert_eq!(nodes[0].host, "127.0.0.1".to_string());
    assert_eq!(nodes[0].port, 6881);
    assert_eq!(nodes[1].host, "10.0.0.2".to_string());
    assert_eq!(nodes[1].port, 6882);
}

#[test]
fn node_of_wrong_arity_is_reported() {
    let v = decode(
        b"d4:infod6:lengthi1e4:name1:a12:piece lengthi1e6:pieces0:e5:nodesll9:127.0.0.1eee",
    )
    .unwrap();
    let e = Torrent::from_value(&v).unwrap_err();
    assert_eq!(
        e,
        MapError::UnexpectedType {
            field: Field::Nodes,
            expected: ValueKind::Pair,
            actual: ValueKind::List,
        }
    );
}

#[test]
fn announce_of_wrong_type_is_reported() {
    let v = decode(b"d8:announcei1e4:infod6:lengthi1e4:name1:a12:piece lengthi1e6:pieces0:ee")
        .unwrap();
    let e = Torrent::from_value(&v).unwrap_err();
    assert_eq!(
        e,
        MapError::UnexpectedType {
            field: Field::Announce,
            expected: ValueKind::ByteString,
            actual: ValueKind::Integer,
        }
    );
}

#[test]
fn remaining_optional_fields_map_when_present() {
    let v = decode(
        b"d10:created by6:mktool8:encoding5:UTF-89:httpseedsl8:http://a8:http://be\
          4:infod6:lengthi1e6:md5sum3:abc4:name1:a12:piece lengthi1e6:pieces0:\
          9:root hash4:beefee",
    )
    .unwrap();
    let t = Torrent::from_value(&v).unwrap();
    assert_eq!(t.created_by, Some("mktool".to_string()));
    assert_eq!(t.encoding, Some("UTF-8".to_string()));
    assert_eq!(
        t.httpseeds,
        Some(vec!["http://a".to_string(), "http://b".to_string()])
    );
    assert_eq!(t.info.root_hash, Some("beef".to_string()));
    assert_eq!(
        t.info.layout,
        InfoLayout::SingleFile { length: 1, md5sum: Some("abc".to_string()) }
    );
}

#[test]
fn private_flag_out_of_byte_range_is_reported() {
    let v = decode(b"d4:infod6:lengthi1e4:name1:a12:piece lengthi1e6:pieces0:7:privatei300eee")
        .unwrap();
    let e = Torrent::from_value(&v).unwrap_err();
    assert_eq!(
        e,
        MapError::UnexpectedType {
            field: Field::Private,
            expected: ValueKind::Integer,
            actual: ValueKind::Integer,
        }
    );
}

#[test]
fn creation_date_of_wrong_type_is_reported() {
    let v = decode(b"d13:creation date3:abc4:infod6:lengthi1e4:name1:a12:piece lengthi1e6:pieces0:ee")
        .unwrap();
    let e = Torrent::from_value(&v).unwrap_err();
    assert_eq!(
        e,
        MapError::UnexpectedType {
            field: Field::CreationDate,
            expected: ValueKind::Integer,
            actual: ValueKind::ByteString,
        }
    );
}

#[test]
fn announce_list_tier_of_wrong_type_is_reported() {
    let v = decode(
        b"d13:announce-listli1ee4:infod6:lengthi1e4:name1:a12:piece lengthi1e6:pieces0:ee",
    )
    .unwrap();
    let e = Torrent::from_value(&v).unwrap_err();
    assert_eq!(
        e,
        MapError::UnexpectedType {
            field: Field::AnnounceList,
            expected: ValueKind::List,
            actual: ValueKind::Integer,
        }
    );
}

#[test]
fn invalid_tracker_url_encoding_is_reported() {
    let mut b = Vec::new();
    b.extend_from_slice(b"d13:announce-listll2:");
    b.extend_from_slice(&[0xC0, 0xC0]);
    b.extend_from_slice(b"ee4:infod6:lengthi1e4:name1:a12:piece lengthi1e6:pieces0:ee");
    let v = decode(&b).unwrap();
    let e = Torrent::from_value(&v).unwrap_err();
    assert_eq!(e, MapError::InvalidTextEncoding(Field::AnnounceList));
}

#[test]
fn from_bytes_separates_the_two_error_taxonomies() {
    match Torrent::from_bytes(b"i01e").unwrap_err() {
        MetainfoError::Syntax(_) => {},
        other => panic!("expected a syntax error, got {:?}", other),
    }
    match Torrent::from_bytes(b"de").unwrap_err() {
        MetainfoError::Schema(e) => {
            assert_eq!(e, MapError::MissingRequiredField(Field::Info));
        },
        other => panic!("expected a schema error, got {:?}", other),
    }
}
