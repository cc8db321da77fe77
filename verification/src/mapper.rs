//! The metainfo mapper: projecting a decoded bencode value tree onto the
//! typed schema.
//!
//! The mapping rules are stated first as spec functions (`spec_torrent` and
//! its helpers): field lookup by exact on-wire key bytes, required versus
//! optional fields, type checks, text decoding, and the single-file /
//! multi-file layout choice. The executable mapper is specified exactly
//! against them: it returns the mapped value precisely when the spec-level
//! mapping does, and otherwise the same error. Fields are examined in a
//! fixed order, so the reported error is deterministic.

use vstd::prelude::*;
use vstd::utf8::{decode_utf8, valid_utf8};

use crate::decode::{decode, DEFAULT_MAX_DEPTH};
use crate::errors::{DecodeErrorKind, Field, MapError, MetainfoError, ValueKind};
use crate::grammar::parse_document;
use crate::schema::{
    File, Info, InfoLayout, Node, SpecFile, SpecInfo, SpecInfoLayout, SpecNode, SpecTorrent,
    Torrent,
};
use crate::value::{lemma_model_dict, lemma_model_list, model, models, pair_models, BValue, Value};

verus! {

broadcast use vstd::std_specs::vec::group_vec_axioms, vstd::seq::group_seq_axioms;

/// The shape of a generic value, for error reports.
pub open spec fn vkind(v: BValue) -> ValueKind {
    match v {
        BValue::Int(_) => ValueKind::Integer,
        BValue::Bytes(_) => ValueKind::ByteString,
        BValue::List(_) => ValueKind::List,
        BValue::Dict(_) => ValueKind::Dictionary,
    }
}

/// The first value stored under `key`, scanning pairs in on-wire order.
pub open spec fn lookup(d: Seq<(Seq<u8>, BValue)>, key: Seq<u8>) -> Option<BValue>
    decreases d.len(),
{
    if d.len() == 0 {
        Option::None
    } else if d[0].0 == key {
        Option::Some(d[0].1)
    } else {
        lookup(d.subrange(1, d.len() as int), key)
    }
}

/// The exact on-wire spelling of each schema field's dictionary key,
/// including the renames with a space or hyphen.
pub open spec fn key_bytes(f: Field) -> Seq<u8> {
    match f {
        Field::Info => seq!['i' as u8, 'n' as u8, 'f' as u8, 'o' as u8],
        Field::Name => seq!['n' as u8, 'a' as u8, 'm' as u8, 'e' as u8],
        Field::PieceLength => seq!['p' as u8, 'i' as u8, 'e' as u8, 'c' as u8, 'e' as u8, ' ' as u8, 'l' as u8, 'e' as u8, 'n' as u8, 'g' as u8, 't' as u8, 'h' as u8],
        Field::Pieces => seq!['p' as u8, 'i' as u8, 'e' as u8, 'c' as u8, 'e' as u8, 's' as u8],
        Field::Private => seq!['p' as u8, 'r' as u8, 'i' as u8, 'v' as u8, 'a' as u8, 't' as u8, 'e' as u8],
        Field::RootHash => seq!['r' as u8, 'o' as u8, 'o' as u8, 't' as u8, ' ' as u8, 'h' as u8, 'a' as u8, 's' as u8, 'h' as u8],
        Field::Length => seq!['l' as u8, 'e' as u8, 'n' as u8, 'g' as u8, 't' as u8, 'h' as u8],
        Field::Md5sum => seq!['m' as u8, 'd' as u8, '5' as u8, 's' as u8, 'u' as u8, 'm' as u8],
        Field::Files => seq!['f' as u8, 'i' as u8, 'l' as u8, 'e' as u8, 's' as u8],
        Field::Path => seq!['p' as u8, 'a' as u8, 't' as u8, 'h' as u8],
        Field::Announce => seq!['a' as u8, 'n' as u8, 'n' as u8, 'o' as u8, 'u' as u8, 'n' as u8, 'c' as u8, 'e' as u8],
        Field::AnnounceList => seq!['a' as u8, 'n' as u8, 'n' as u8, 'o' as u8, 'u' as u8, 'n' as u8, 'c' as u8, 'e' as u8, '-' as u8, 'l' as u8, 'i' as u8, 's' as u8, 't' as u8],
        Field::Nodes => seq!['n' as u8, 'o' as u8, 'd' as u8, 'e' as u8, 's' as u8],
        Field::CreationDate => seq!['c' as u8, 'r' as u8, 'e' as u8, 'a' as u8, 't' as u8, 'i' as u8, 'o' as u8, 'n' as u8, ' ' as u8, 'd' as u8, 'a' as u8, 't' as u8, 'e' as u8],
        Field::CreatedBy => seq!['c' as u8, 'r' as u8, 'e' as u8, 'a' as u8, 't' as u8, 'e' as u8, 'd' as u8, ' ' as u8, 'b' as u8, 'y' as u8],
        Field::Comment => seq!['c' as u8, 'o' as u8, 'm' as u8, 'm' as u8, 'e' as u8, 'n' as u8, 't' as u8],
        Field::Encoding => seq!['e' as u8, 'n' as u8, 'c' as u8, 'o' as u8, 'd' as u8, 'i' as u8, 'n' as u8, 'g' as u8],
        Field::Httpseeds => seq!['h' as u8, 't' as u8, 't' as u8, 'p' as u8, 's' as u8, 'e' as u8, 'e' as u8, 'd' as u8, 's' as u8],
    }
}

/// `r` with `pre` prepended to its elements on success.
pub open spec fn prepend<T>(pre: Seq<T>, r: Result<Seq<T>, MapError>) -> Result<
    Seq<T>,
    MapError,
> {
    match r {
        Ok(rest) => Ok(pre + rest),
        Err(e) => Err(e),
    }
}

/// An optional textual field: absent is fine, a byte string must be valid
/// UTF-8, anything else is a type mismatch.
pub open spec fn spec_opt_text(d: Seq<(Seq<u8>, BValue)>, f: Field) -> Result<
    Option<Seq<char>>,
    MapError,
> {
    match lookup(d, key_bytes(f)) {
        Option::None => Ok(Option::None),
        Option::Some(BValue::Bytes(b)) => if valid_utf8(b) {
            Ok(Option::Some(decode_utf8(b)))
        } else {
            Err(MapError::InvalidTextEncoding(f))
        },
        Option::Some(v) => Err(
            MapError::UnexpectedType {
                field: f,
                expected: ValueKind::ByteString,
                actual: vkind(v),
            },
        ),
    }
}

/// An optional integer field.
pub open spec fn spec_opt_int(d: Seq<(Seq<u8>, BValue)>, f: Field) -> Result<
    Option<i64>,
    MapError,
> {
    match lookup(d, key_bytes(f)) {
        Option::None => Ok(Option::None),
        Option::Some(BValue::Int(i)) => Ok(Option::Some(i as i64)),
        Option::Some(v) => Err(
            MapError::UnexpectedType { field: f, expected: ValueKind::Integer, actual: vkind(v) },
        ),
    }
}

/// A list of textual elements, mapped elementwise in order; the first
/// failing element aborts the whole list.
pub open spec fn spec_texts(items: Seq<BValue>, f: Field) -> Result<Seq<Seq<char>>, MapError>
    decreases items.len(),
{
    if items.len() == 0 {
        Ok(Seq::empty())
    } else {
        match items[0] {
            BValue::Bytes(b) => if valid_utf8(b) {
                prepend(
                    seq![decode_utf8(b)],
                    spec_texts(items.subrange(1, items.len() as int), f),
                )
            } else {
                Err(MapError::InvalidTextEncoding(f))
            },
            v => Err(
                MapError::UnexpectedType {
                    field: f,
                    expected: ValueKind::ByteString,
                    actual: vkind(v),
                },
            ),
        }
    }
}

/// The announce list: a list of tiers, each a list of tracker URLs.
pub open spec fn spec_tiers(items: Seq<BValue>) -> Result<Seq<Seq<Seq<char>>>, MapError>
    decreases items.len(),
{
    if items.len() == 0 {
        Ok(Seq::empty())
    } else {
        match items[0] {
            BValue::List(tier) => match spec_texts(tier, Field::AnnounceList) {
                Ok(urls) => prepend(
                    seq![urls],
                    spec_tiers(items.subrange(1, items.len() as int)),
                ),
                Err(e) => Err(e),
            },
            v => Err(
                MapError::UnexpectedType {
                    field: Field::AnnounceList,
                    expected: ValueKind::List,
                    actual: vkind(v),
                },
            ),
        }
    }
}

/// DHT bootstrap nodes: each entry must be a two-element list of a textual
/// host and an integer port.
pub open spec fn spec_nodes(items: Seq<BValue>) -> Result<Seq<SpecNode>, MapError>
    decreases items.len(),
{
    if items.len() == 0 {
        Ok(Seq::empty())
    } else {
        match items[0] {
            BValue::List(el) => if el.len() == 2 {
                match (el[0], el[1]) {
                    (BValue::Bytes(hb), BValue::Int(p)) => if valid_utf8(hb) {
                        prepend(
                            seq![SpecNode { host: decode_utf8(hb), port: p as i64 }],
                            spec_nodes(items.subrange(1, items.len() as int)),
                        )
                    } else {
                        Err(MapError::InvalidTextEncoding(Field::Nodes))
                    },
                    _ => Err(
                        MapError::UnexpectedType {
                            field: Field::Nodes,
                            expected: ValueKind::Pair,
                            actual: ValueKind::List,
                        },
                    ),
                }
            } else {
                Err(
                    MapError::UnexpectedType {
                        field: Field::Nodes,
                        expected: ValueKind::Pair,
                        actual: ValueKind::List,
                    },
                )
            },
            v => Err(
                MapError::UnexpectedType {
                    field: Field::Nodes,
                    expected: ValueKind::Pair,
                    actual: vkind(v),
                },
            ),
        }
    }
}

/// One file entry of a multi-file torrent: required `path` (a list of
/// textual segments) and `length`, optional `md5sum`.
pub open spec fn spec_file(d: Seq<(Seq<u8>, BValue)>) -> Result<SpecFile, MapError> {
    match lookup(d, key_bytes(Field::Path)) {
        Option::None => Err(MapError::MissingRequiredField(Field::Path)),
        Option::Some(BValue::List(segs)) => match spec_texts(segs, Field::Path) {
            Err(e) => Err(e),
            Ok(path) => match lookup(d, key_bytes(Field::Length)) {
                Option::None => Err(MapError::MissingRequiredField(Field::Length)),
                Option::Some(BValue::Int(l)) => match spec_opt_text(d, Field::Md5sum) {
                    Err(e) => Err(e),
                    Ok(md5sum) => Ok(SpecFile { path, length: l as i64, md5sum }),
                },
                Option::Some(v) => Err(
                    MapError::UnexpectedType {
                        field: Field::Length,
                        expected: ValueKind::Integer,
                        actual: vkind(v),
                    },
                ),
            },
        },
        Option::Some(v) => Err(
            MapError::UnexpectedType {
                field: Field::Path,
                expected: ValueKind::List,
                actual: vkind(v),
            },
        ),
    }
}

/// The file list of a multi-file torrent, mapped elementwise in order.
pub open spec fn spec_files(items: Seq<BValue>) -> Result<Seq<SpecFile>, MapError>
    decreases items.len(),
{
    if items.len() == 0 {
        Ok(Seq::empty())
    } else {
        match items[0] {
            BValue::Dict(fd) => match spec_file(fd) {
                Err(e) => Err(e),
                Ok(file) => prepend(
                    seq![file],
                    spec_files(items.subrange(1, items.len() as int)),
                ),
            },
            v => Err(
                MapError::UnexpectedType {
                    field: Field::Files,
                    expected: ValueKind::Dictionary,
                    actual: vkind(v),
                },
            ),
        }
    }
}

/// The layout of the info dictionary: exactly one of single-file `length`
/// and multi-file `files` must be present.
pub open spec fn spec_layout(d: Seq<(Seq<u8>, BValue)>) -> Result<SpecInfoLayout, MapError> {
    match (lookup(d, key_bytes(Field::Length)), lookup(d, key_bytes(Field::Files))) {
        (Option::None, Option::None) => Err(MapError::MissingLayout),
        (Option::Some(_), Option::Some(_)) => Err(MapError::ConflictingLayout),
        (Option::Some(lv), Option::None) => match lv {
            BValue::Int(l) => match spec_opt_text(d, Field::Md5sum) {
                Err(e) => Err(e),
                Ok(md5sum) => Ok(SpecInfoLayout::SingleFile { length: l as i64, md5sum }),
            },
            v => Err(
                MapError::UnexpectedType {
                    field: Field::Length,
                    expected: ValueKind::Integer,
                    actual: vkind(v),
                },
            ),
        },
        (Option::None, Option::Some(fv)) => match fv {
            BValue::List(items) => match spec_files(items) {
                Err(e) => Err(e),
                Ok(files) => Ok(SpecInfoLayout::MultiFile { files }),
            },
            v => Err(
                MapError::UnexpectedType {
                    field: Field::Files,
                    expected: ValueKind::List,
                    actual: vkind(v),
                },
            ),
        },
    }
}

/// The info dictionary: required `name`, `piece length` and `pieces`
/// (kept as raw bytes), optional `private` flag (one byte) and
/// `root hash`, then the layout.
pub open spec fn spec_info(d: Seq<(Seq<u8>, BValue)>) -> Result<SpecInfo, MapError> {
    let name_r = match lookup(d, key_bytes(Field::Name)) {
        Option::None => Err(MapError::MissingRequiredField(Field::Name)),
        Option::Some(BValue::Bytes(b)) => if valid_utf8(b) {
            Ok(decode_utf8(b))
        } else {
            Err(MapError::InvalidTextEncoding(Field::Name))
        },
        Option::Some(v) => Err(
            MapError::UnexpectedType {
                field: Field::Name,
                expected: ValueKind::ByteString,
                actual: vkind(v),
            },
        ),
    };
    match name_r {
        Err(e) => Err(e),
        Ok(name) => {
            let pl_r = match lookup(d, key_bytes(Field::PieceLength)) {
                Option::None => Err(MapError::MissingRequiredField(Field::PieceLength)),
                Option::Some(BValue::Int(l)) => Ok(l as i64),
                Option::Some(v) => Err(
                    MapError::UnexpectedType {
                        field: Field::PieceLength,
                        expected: ValueKind::Integer,
                        actual: vkind(v),
                    },
                ),
            };
            match pl_r {
                Err(e) => Err(e),
                Ok(piece_length) => {
                    let pieces_r = match lookup(d, key_bytes(Field::Pieces)) {
                        Option::None => Err(MapError::MissingRequiredField(Field::Pieces)),
                        Option::Some(BValue::Bytes(b)) => Ok(b),
                        Option::Some(v) => Err(
                            MapError::UnexpectedType {
                                field: Field::Pieces,
                                expected: ValueKind::ByteString,
                                actual: vkind(v),
                            },
                        ),
                    };
                    match pieces_r {
                        Err(e) => Err(e),
                        Ok(pieces) => {
                            let private_r = match lookup(d, key_bytes(Field::Private)) {
                                Option::None => Ok(Option::None),
                                Option::Some(BValue::Int(p)) => if 0 <= p <= 255 {
                                    Ok(Option::Some(p as u8))
                                } else {
                                    Err(
                                        MapError::UnexpectedType {
                                            field: Field::Private,
                                            expected: ValueKind::Integer,
                                            actual: ValueKind::Integer,
                                        },
                                    )
                                },
                                Option::Some(v) => Err(
                                    MapError::UnexpectedType {
                                        field: Field::Private,
                                        expected: ValueKind::Integer,
                                        actual: vkind(v),
                                    },
                                ),
                            };
                            match private_r {
                                Err(e) => Err(e),
                                Ok(private) => match spec_opt_text(d, Field::RootHash) {
                                    Err(e) => Err(e),
                                    Ok(root_hash) => match spec_layout(d) {
                                        Err(e) => Err(e),
                                        Ok(layout) => Ok(
                                            SpecInfo {
                                                name,
                                                piece_length,
                                                pieces,
                                                private,
                                                root_hash,
                                                layout,
                                            },
                                        ),
                                    },
                                },
                            }
                        },
                    }
                },
            }
        },
    }
}

/// The whole document: the root must be a dictionary; `info` is required
/// and must be a dictionary; every other field is optional, with the listed
/// shapes. Fields are examined in this order, and the first violation is
/// the error reported.
pub open spec fn spec_torrent(v: BValue) -> Result<SpecTorrent, MapError> {
    match v {
        BValue::Dict(d) => {
            let info_r = match lookup(d, key_bytes(Field::Info)) {
                Option::None => Err(MapError::MissingRequiredField(Field::Info)),
                Option::Some(BValue::Dict(di)) => spec_info(di),
                Option::Some(iv) => Err(
                    MapError::UnexpectedType {
                        field: Field::Info,
                        expected: ValueKind::Dictionary,
                        actual: vkind(iv),
                    },
                ),
            };
            match info_r {
                Err(e) => Err(e),
                Ok(info) => match spec_opt_text(d, Field::Announce) {
                    Err(e) => Err(e),
                    Ok(announce) => {
                        let al_r = match lookup(d, key_bytes(Field::AnnounceList)) {
                            Option::None => Ok(Option::None),
                            Option::Some(BValue::List(items)) => match spec_tiers(items) {
                                Err(e) => Err(e),
                                Ok(tiers) => Ok(Option::Some(tiers)),
                            },
                            Option::Some(av) => Err(
                                MapError::UnexpectedType {
                                    field: Field::AnnounceList,
                                    expected: ValueKind::List,
                                    actual: vkind(av),
                                },
                            ),
                        };
                        match al_r {
                            Err(e) => Err(e),
                            Ok(announce_list) => {
                                let nodes_r = match lookup(d, key_bytes(Field::Nodes)) {
                                    Option::None => Ok(Option::None),
                                    Option::Some(BValue::List(items)) => match spec_nodes(items) {
                                        Err(e) => Err(e),
                                        Ok(ns) => Ok(Option::Some(ns)),
                                    },
                                    Option::Some(nv) => Err(
                                        MapError::UnexpectedType {
                                            field: Field::Nodes,
                                            expected: ValueKind::List,
                                            actual: vkind(nv),
                                        },
                                    ),
                                };
                                match nodes_r {
                                    Err(e) => Err(e),
                                    Ok(nodes) => match spec_opt_int(d, Field::CreationDate) {
                                        Err(e) => Err(e),
                                        Ok(creation_date) => match spec_opt_text(
                                            d,
                                            Field::Comment,
                                        ) {
                                            Err(e) => Err(e),
                                            Ok(comment) => match spec_opt_text(
                                                d,
                                                Field::CreatedBy,
                                            ) {
                                                Err(e) => Err(e),
                                                Ok(created_by) => match spec_opt_text(
                                                    d,
                                                    Field::Encoding,
                                                ) {
                                                    Err(e) => Err(e),
                                                    Ok(encoding) => {
                                                        let hs_r = match lookup(
                                                            d,
                                                            key_bytes(Field::Httpseeds),
                                                        ) {
                                                            Option::None => Ok(Option::None),
                                                            Option::Some(
                                                                BValue::List(items),
                                                            ) => match spec_texts(
                                                                items,
                                                                Field::Httpseeds,
                                                            ) {
                                                                Err(e) => Err(e),
                                                                Ok(ss) => Ok(Option::Some(ss)),
                                                            },
                                                            Option::Some(hv) => Err(
                                                                MapError::UnexpectedType {
                                                                    field: Field::Httpseeds,
                                                                    expected: ValueKind::List,
                                                                    actual: vkind(hv),
                                                                },
                                                            ),
                                                        };
                                                        match hs_r {
                                                            Err(e) => Err(e),
                                                            Ok(httpseeds) => Ok(
                                                                SpecTorrent {
                                                                    info,
                                                                    announce,
                                                                    announce_list,
                                                                    nodes,
                                                                    creation_date,
                                                                    comment,
                                                                    created_by,
                                                                    encoding,
                                                                    httpseeds,
                                                                },
                                                            ),
                                                        }
                                                    },
                                                },
                                            },
                                        },
                                    },
                                }
                            },
                        }
                    },
                },
            }
        },
        _ => Err(MapError::RootNotADictionary),
    }
}

/// A fresh copy of `b`.
fn copy_bytes(b: &Vec<u8>) -> (r: Vec<u8>)
    ensures
        r@ == b@,
{
    let mut r: Vec<u8> = Vec::new();
    let mut i: usize = 0;
    while i < b.len()
        invariant
            0 <= i <= b@.len(),
            r@ =~= b@.subrange(0, i as int),
        decreases b@.len() - i,
    {
        r.push(b[i]);
        proof {
            assert(b@.subrange(0, i + 1) =~= b@.subrange(0, i as int).push(b@[i as int]));
        }
        i = i + 1;
    }
    proof {
        assert(b@.subrange(0, b@.len() as int) =~= b@);
    }
    r
}

/// Whether two byte vectors hold the same bytes.
fn bytes_eq(a: &Vec<u8>, b: &Vec<u8>) -> (r: bool)
    ensures
        r == (a@ == b@),
{
    if a.len() != b.len() {
        proof {
            assert(a@ != b@);
        }
        return false;
    }
    let mut i: usize = 0;
    while i < a.len()
        invariant
            a@.len() == b@.len(),
            0 <= i <= a@.len(),
            forall|j: int| 0 <= j < i ==> a@[j] == b@[j],
        decreases a@.len() - i,
    {
        if a[i] != b[i] {
            proof {
                if a@ == b@ {
                    assert(a@[i as int] == b@[i as int]);
                }
            }
            return false;
        }
        i = i + 1;
    }
    proof {
        assert(a@ =~= b@);
    }
    true
}

/// The shape of a value, for error reports.
fn kind_of(v: &Value) -> (k: ValueKind)
    ensures
        k == vkind(v@),
{
    match v {
        Value::Integer(_) => ValueKind::Integer,
        Value::ByteString(_) => ValueKind::ByteString,
        Value::List(_) => ValueKind::List,
        Value::Dictionary(_) => ValueKind::Dictionary,
    }
}

/// The on-wire key bytes of a schema field.
fn field_key(f: Field) -> (k: Vec<u8>)
    ensures
        k@ == key_bytes(f),
{
    let mut k: Vec<u8> = Vec::new();
    match f {
        Field::Info => {
            k.push('i' as u8);
            k.push('n' as u8);
            k.push('f' as u8);
            k.push('o' as u8);
        },
        Field::Name => {
            k.push('n' as u8);
            k.push('a' as u8);
            k.push('m' as u8);
            k.push('e' as u8);
        },
        Field::PieceLength => {
            k.push('p' as u8);
            k.push('i' as u8);
            k.push('e' as u8);
            k.push('c' as u8);
            k.push('e' as u8);
            k.push(' ' as u8);
            k.push('l' as u8);
            k.push('e' as u8);
            k.push('n' as u8);
            k.push('g' as u8);
            k.push('t' as u8);
            k.push('h' as u8);
        },
        Field::Pieces => {
            k.push('p' as u8);
            k.push('i' as u8);
            k.push('e' as u8);
            k.push('c' as u8);
            k.push('e' as u8);
            k.push('s' as u8);
        },
        Field::Private => {
            k.push('p' as u8);
            k.push('r' as u8);
            k.push('i' as u8);
            k.push('v' as u8);
            k.push('a' as u8);
            k.push('t' as u8);
            k.push('e' as u8);
        },
        Field::RootHash => {
            k.push('r' as u8);
            k.push('o' as u8);
            k.push('o' as u8);
            k.push('t' as u8);
            k.push(' ' as u8);
            k.push('h' as u8);
            k.push('a' as u8);
            k.push('s' as u8);
            k.push('h' as u8);
        },
        Field::Length => {
            k.push('l' as u8);
            k.push('e' as u8);
            k.push('n' as u8);
            k.push('g' as u8);
            k.push('t' as u8);
            k.push('h' as u8);
        },
        Field::Md5sum => {
            k.push('m' as u8);
            k.push('d' as u8);
            k.push('5' as u8);
            k.push('s' as u8);
            k.push('u' as u8);
            k.push('m' as u8);
        },
        Field::Files => {
            k.push('f' as u8);
            k.push('i' as u8);
            k.push('l' as u8);
            k.push('e' as u8);
            k.push('s' as u8);
        },
        Field::Path => {
            k.push('p' as u8);
            k.push('a' as u8);
            k.push('t' as u8);
            k.push('h' as u8);
        },
        Field::Announce => {
            k.push('a' as u8);
            k.push('n' as u8);
            k.push('n' as u8);
            k.push('o' as u8);
            k.push('u' as u8);
            k.push('n' as u8);
            k.push('c' as u8);
            k.push('e' as u8);
        },
        Field::AnnounceList => {
            k.push('a' as u8);
            k.push('n' as u8);
            k.push('n' as u8);
            k.push('o' as u8);
            k.push('u' as u8);
            k.push('n' as u8);
            k.push('c' as u8);
            k.push('e' as u8);
            k.push('-' as u8);
            k.push('l' as u8);
            k.push('i' as u8);
            k.push('s' as u8);
            k.push('t' as u8);
        },
        Field::Nodes => {
            k.push('n' as u8);
            k.push('o' as u8);
            k.push('d' as u8);
            k.push('e' as u8);
            k.push('s' as u8);
        },
        Field::CreationDate => {
            k.push('c' as u8);
            k.push('r' as u8);
            k.push('e' as u8);
            k.push('a' as u8);
            k.push('t' as u8);
            k.push('i' as u8);
            k.push('o' as u8);
            k.push('n' as u8);
            k.push(' ' as u8);
            k.push('d' as u8);
            k.push('a' as u8);
            k.push('t' as u8);
            k.push('e' as u8);
        },
        Field::CreatedBy => {
            k.push('c' as u8);
            k.push('r' as u8);
            k.push('e' as u8);
            k.push('a' as u8);
            k.push('t' as u8);
            k.push('e' as u8);
            k.push('d' as u8);
            k.push(' ' as u8);
            k.push('b' as u8);
            k.push('y' as u8);
        },
        Field::Comment => {
            k.push('c' as u8);
            k.push('o' as u8);
            k.push('m' as u8);
            k.push('m' as u8);
            k.push('e' as u8);
            k.push('n' as u8);
            k.push('t' as u8);
        },
        Field::Encoding => {
            k.push('e' as u8);
            k.push('n' as u8);
            k.push('c' as u8);
            k.push('o' as u8);
            k.push('d' as u8);
            k.push('i' as u8);
            k.push('n' as u8);
            k.push('g' as u8);
        },
        Field::Httpseeds => {
            k.push('h' as u8);
            k.push('t' as u8);
            k.push('t' as u8);
            k.push('p' as u8);
            k.push('s' as u8);
            k.push('e' as u8);
            k.push('e' as u8);
            k.push('d' as u8);
            k.push('s' as u8);
        },
    }
    proof {
        assert(k@ =~= key_bytes(f));
    }
    k
}

/// Looks `f`'s on-wire key up in a dictionary, first match wins.
fn dict_get<'a>(d: &'a Vec<(Vec<u8>, Value)>, f: Field) -> (r: Option<&'a Value>)
    ensures
        match r {
            Option::Some(v) => lookup(pair_models(d@), key_bytes(f)) == Option::Some(v@),
            Option::None => lookup(pair_models(d@), key_bytes(f)) is None,
        },
{
    let key = field_key(f);
    let mut i: usize = 0;
    proof {
        assert(pair_models(d@).subrange(0, pair_models(d@).len() as int) =~= pair_models(d@));
    }
    loop
        invariant
            0 <= i <= d@.len(),
            key@ == key_bytes(f),
            lookup(pair_models(d@), key_bytes(f)) == lookup(
                pair_models(d@).subrange(i as int, pair_models(d@).len() as int),
                key_bytes(f),
            ),
        decreases d@.len() - i,
    {
        proof {
            let pm = pair_models(d@);
            if i < d@.len() {
                let sub = pm.subrange(i as int, pm.len() as int);
                assert(sub[0] == pm[i as int]);
                assert(pm[i as int] == (d@[i as int].0@, model(d@[i as int].1)));
                assert(sub.subrange(1, sub.len() as int) =~= pm.subrange(
                    i + 1,
                    pm.len() as int,
                ));
            }
        }
        if i == d.len() {
            return Option::None;
        }
        if bytes_eq(&d[i].0, &key) {
            return Option::Some(&d[i].1);
        }
        i = i + 1;
    }
}

/// Prepending composes by concatenation.
proof fn lemma_prepend_assoc<T>(a: Seq<T>, b: Seq<T>, r: Result<Seq<T>, MapError>)
    ensures
        prepend(a, prepend(b, r)) == prepend(a + b, r),
{
    match r {
        Ok(rest) => {
            assert(a + (b + rest) =~= (a + b) + rest);
        },
        Err(_) => {},
    }
}

/// Relies on `String::from_utf8`: it succeeds exactly on valid UTF-8 and
/// then yields the string those bytes encode.
#[verifier::external_body]
fn bytes_to_string(b: &Vec<u8>) -> (r: Option<String>)
    ensures
        r is Some <==> valid_utf8(b@),
        r matches Some(s) ==> s@ == decode_utf8(b@),
{
    match String::from_utf8(b.clone()) {
        Ok(s) => Option::Some(s),
        Err(_) => Option::None,
    }
}


/// An optional textual field of `d`.
fn opt_text(d: &Vec<(Vec<u8>, Value)>, f: Field) -> (r: Result<Option<String>, MapError>)
    ensures
        match r {
            Ok(t) => spec_opt_text(pair_models(d@), f) == Ok::<_, MapError>(t.deep_view()),
            Err(e) => spec_opt_text(pair_models(d@), f) == Err::<Option<Seq<char>>, _>(e),
        },
{
    match dict_get(d, f) {
        Option::None => Ok(Option::None),
        Option::Some(v) => match v {
            Value::ByteString(b) => match bytes_to_string(b) {
                Option::Some(s) => Ok(Option::Some(s)),
                Option::None => Err(MapError::InvalidTextEncoding(f)),
            },
            _ => Err(
                MapError::UnexpectedType {
                    field: f,
                    expected: ValueKind::ByteString,
                    actual: kind_of(v),
                },
            ),
        },
    }
}

/// An optional integer field of `d`.
fn opt_int(d: &Vec<(Vec<u8>, Value)>, f: Field) -> (r: Result<Option<i64>, MapError>)
    ensures
        match r {
            Ok(t) => spec_opt_int(pair_models(d@), f) == Ok::<_, MapError>(t),
            Err(e) => spec_opt_int(pair_models(d@), f) == Err::<Option<i64>, _>(e),
        },
{
    match dict_get(d, f) {
        Option::None => Ok(Option::None),
        Option::Some(v) => match v {
            Value::Integer(i) => Ok(Option::Some(*i)),
            _ => Err(
                MapError::UnexpectedType {
                    field: f,
                    expected: ValueKind::Integer,
                    actual: kind_of(v),
                },
            ),
        },
    }
}

/// Maps a list of textual elements, in order.
fn map_texts(items: &Vec<Value>, f: Field) -> (r: Result<Vec<String>, MapError>)
    ensures
        match r {
            Ok(ts) => spec_texts(models(items@), f) == Ok::<_, MapError>(ts.deep_view()),
            Err(e) => spec_texts(models(items@), f) == Err::<Seq<Seq<char>>, _>(e),
        },
{
    let mut out: Vec<String> = Vec::new();
    let mut i: usize = 0;
    proof {
        assert(out.deep_view() =~= Seq::<Seq<char>>::empty());
        assert(models(items@).subrange(0, models(items@).len() as int) =~= models(items@));
    }
    loop
        invariant
            0 <= i <= items@.len(),
            spec_texts(models(items@), f) == prepend(
                out.deep_view(),
                spec_texts(
                    models(items@).subrange(i as int, models(items@).len() as int),
                    f,
                ),
            ),
        decreases items@.len() - i,
    {
        proof {
            let ms = models(items@);
            if i < items@.len() {
                assert(ms.subrange(i as int, ms.len() as int)[0] == ms[i as int]);
                assert(ms[i as int] == model(items@[i as int]));
                assert(ms.subrange(i as int, ms.len() as int).subrange(
                    1,
                    ms.len() - i,
                ) =~= ms.subrange(i + 1, ms.len() as int));
            }
        }
        if i == items.len() {
            proof {
                assert(models(items@).subrange(i as int, models(items@).len() as int)
                    =~= Seq::<BValue>::empty());
                assert(out.deep_view() + Seq::<Seq<char>>::empty() =~= out.deep_view());
            }
            return Ok(out);
        }
        match &items[i] {
            Value::ByteString(b) => match bytes_to_string(b) {
                Option::Some(s) => {
                    let ghost dv0 = out.deep_view();
                    let ghost sv = s@;
                    out.push(s);
                    proof {
                        assert(out.deep_view() =~= dv0 + seq![sv]);
                        lemma_prepend_assoc(
                            dv0,
                            seq![sv],
                            spec_texts(
                                models(items@).subrange(
                                    i + 1,
                                    models(items@).len() as int,
                                ),
                                f,
                            ),
                        );
                    }
                },
                Option::None => {
                    return Err(MapError::InvalidTextEncoding(f));
                },
            },
            _ => {
                return Err(
                    MapError::UnexpectedType {
                        field: f,
                        expected: ValueKind::ByteString,
                        actual: kind_of(&items[i]),
                    },
                );
            },
        }
        i = i + 1;
    }
}

/// Maps the announce list: a list of tiers of tracker URLs, in order.
fn map_tiers(items: &Vec<Value>) -> (r: Result<Vec<Vec<String>>, MapError>)
    ensures
        match r {
            Ok(ts) => spec_tiers(models(items@)) == Ok::<_, MapError>(ts.deep_view()),
            Err(e) => spec_tiers(models(items@)) == Err::<Seq<Seq<Seq<char>>>, _>(e),
        },
{
    let mut out: Vec<Vec<String>> = Vec::new();
    let mut i: usize = 0;
    proof {
        assert(out.deep_view() =~= Seq::<Seq<Seq<char>>>::empty());
        assert(models(items@).subrange(0, models(items@).len() as int) =~= models(items@));
    }
    loop
        invariant
            0 <= i <= items@.len(),
            spec_tiers(models(items@)) == prepend(
                out.deep_view(),
                spec_tiers(models(items@).subrange(i as int, models(items@).len() as int)),
            ),
        decreases items@.len() - i,
    {
        proof {
            let ms = models(items@);
            if i < items@.len() {
                assert(ms.subrange(i as int, ms.len() as int)[0] == ms[i as int]);
                assert(ms[i as int] == model(items@[i as int]));
                assert(ms.subrange(i as int, ms.len() as int).subrange(
                    1,
                    ms.len() - i,
                ) =~= ms.subrange(i + 1, ms.len() as int));
            }
        }
        if i == items.len() {
            proof {
                assert(models(items@).subrange(i as int, models(items@).len() as int)
                    =~= Seq::<BValue>::empty());
                assert(out.deep_view() + Seq::<Seq<Seq<char>>>::empty() =~= out.deep_view());
            }
            return Ok(out);
        }
        match &items[i] {
            Value::List(tier) => {
                proof {
                    lemma_model_list(*tier);
                }
                match map_texts(tier, Field::AnnounceList) {
                    Ok(urls) => {
                        let ghost dv0 = out.deep_view();
                        let ghost uv = urls.deep_view();
                        out.push(urls);
                        proof {
                            assert(out.deep_view() =~= dv0 + seq![uv]);
                            lemma_prepend_assoc(
                                dv0,
                                seq![uv],
                                spec_tiers(
                                    models(items@).subrange(
                                        i + 1,
                                        models(items@).len() as int,
                                    ),
                                ),
                            );
                        }
                    },
                    Err(e) => {
                        return Err(e);
                    },
                }
            },
            _ => {
                return Err(
                    MapError::UnexpectedType {
                        field: Field::AnnounceList,
                        expected: ValueKind::List,
                        actual: kind_of(&items[i]),
                    },
                );
            },
        }
        i = i + 1;
    }
}

/// Maps the DHT node list: two-element `[host, port]` entries, in order.
fn map_nodes(items: &Vec<Value>) -> (r: Result<Vec<Node>, MapError>)
    ensures
        match r {
            Ok(ns) => spec_nodes(models(items@)) == Ok::<_, MapError>(ns.deep_view()),
            Err(e) => spec_nodes(models(items@)) == Err::<Seq<SpecNode>, _>(e),
        },
{
    let mut out: Vec<Node> = Vec::new();
    let mut i: usize = 0;
    proof {
        assert(out.deep_view() =~= Seq::<SpecNode>::empty());
        assert(models(items@).subrange(0, models(items@).len() as int) =~= models(items@));
    }
    loop
        invariant
            0 <= i <= items@.len(),
            spec_nodes(models(items@)) == prepend(
                out.deep_view(),
                spec_nodes(models(items@).subrange(i as int, models(items@).len() as int)),
            ),
        decreases items@.len() - i,
    {
        proof {
            let ms = models(items@);
            if i < items@.len() {
                assert(ms.subrange(i as int, ms.len() as int)[0] == ms[i as int]);
                assert(ms[i as int] == model(items@[i as int]));
                assert(ms.subrange(i as int, ms.len() as int).subrange(
                    1,
                    ms.len() - i,
                ) =~= ms.subrange(i + 1, ms.len() as int));
            }
        }
        if i == items.len() {
            proof {
                assert(models(items@).subrange(i as int, models(items@).len() as int)
                    =~= Seq::<BValue>::empty());
                assert(out.deep_view() + Seq::<SpecNode>::empty() =~= out.deep_view());
            }
            return Ok(out);
        }
        match &items[i] {
            Value::List(el) => {
                proof {
                    lemma_model_list(*el);
                    if el@.len() >= 1 {
                        assert(models(el@)[0] == model(el@[0]));
                    }
                    if el@.len() >= 2 {
                        assert(models(el@)[1] == model(el@[1]));
                    }
                }
                if el.len() != 2 {
                    return Err(
                        MapError::UnexpectedType {
                            field: Field::Nodes,
                            expected: ValueKind::Pair,
                            actual: ValueKind::List,
                        },
                    );
                }
                match (&el[0], &el[1]) {
                    (Value::ByteString(hb), Value::Integer(p)) => {
                        match bytes_to_string(hb) {
                            Option::Some(host) => {
                                let ghost dv0 = out.deep_view();
                                let ghost hv = host@;
                                let port: i64 = *p;
                                out.push(Node { host, port });
                                proof {
                                    assert(out.deep_view() =~= dv0 + seq![
                                        SpecNode { host: hv, port: port },
                                    ]);
                                    lemma_prepend_assoc(
                                        dv0,
                                        seq![SpecNode { host: hv, port: port }],
                                        spec_nodes(
                                            models(items@).subrange(
                                                i + 1,
                                                models(items@).len() as int,
                                            ),
                                        ),
                                    );
                                }
                            },
                            Option::None => {
                                return Err(MapError::InvalidTextEncoding(Field::Nodes));
                            },
                        }
                    },
                    _ => {
                        return Err(
                            MapError::UnexpectedType {
                                field: Field::Nodes,
                                expected: ValueKind::Pair,
                                actual: ValueKind::List,
                            },
                        );
                    },
                }
            },
            _ => {
                return Err(
                    MapError::UnexpectedType {
                        field: Field::Nodes,
                        expected: ValueKind::Pair,
                        actual: kind_of(&items[i]),
                    },
                );
            },
        }
        i = i + 1;
    }
}


/// Maps one file entry of a multi-file torrent.
fn map_file(d: &Vec<(Vec<u8>, Value)>) -> (r: Result<File, MapError>)
    ensures
        match r {
            Ok(file) => spec_file(pair_models(d@)) == Ok::<_, MapError>(file.deep_view()),
            Err(e) => spec_file(pair_models(d@)) == Err::<SpecFile, _>(e),
        },
{
    let path = match dict_get(d, Field::Path) {
        Option::None => {
            return Err(MapError::MissingRequiredField(Field::Path));
        },
        Option::Some(v) => match v {
            Value::List(segs) => {
                proof {
                    lemma_model_list(*segs);
                }
                match map_texts(segs, Field::Path) {
                    Ok(path) => path,
                    Err(e) => {
                        return Err(e);
                    },
                }
            },
            _ => {
                return Err(
                    MapError::UnexpectedType {
                        field: Field::Path,
                        expected: ValueKind::List,
                        actual: kind_of(v),
                    },
                );
            },
        },
    };
    let length = match dict_get(d, Field::Length) {
        Option::None => {
            return Err(MapError::MissingRequiredField(Field::Length));
        },
        Option::Some(v) => match v {
            Value::Integer(l) => *l,
            _ => {
                return Err(
                    MapError::UnexpectedType {
                        field: Field::Length,
                        expected: ValueKind::Integer,
                        actual: kind_of(v),
                    },
                );
            },
        },
    };
    let md5sum = match opt_text(d, Field::Md5sum) {
        Ok(m) => m,
        Err(e) => {
            return Err(e);
        },
    };
    let file = File { path, length, md5sum };
    proof {
        assert(file.deep_view() =~= spec_file(pair_models(d@))->Ok_0);
    }
    Ok(file)
}

/// Maps the file list of a multi-file torrent, in order.
fn map_files(items: &Vec<Value>) -> (r: Result<Vec<File>, MapError>)
    ensures
        match r {
            Ok(fs) => spec_files(models(items@)) == Ok::<_, MapError>(fs.deep_view()),
            Err(e) => spec_files(models(items@)) == Err::<Seq<SpecFile>, _>(e),
        },
{
    let mut out: Vec<File> = Vec::new();
    let mut i: usize = 0;
    proof {
        assert(out.deep_view() =~= Seq::<SpecFile>::empty());
        assert(models(items@).subrange(0, models(items@).len() as int) =~= models(items@));
    }
    loop
        invariant
            0 <= i <= items@.len(),
            spec_files(models(items@)) == prepend(
                out.deep_view(),
                spec_files(models(items@).subrange(i as int, models(items@).len() as int)),
            ),
        decreases items@.len() - i,
    {
        proof {
            let ms = models(items@);
            if i < items@.len() {
                assert(ms.subrange(i as int, ms.len() as int)[0] == ms[i as int]);
                assert(ms[i as int] == model(items@[i as int]));
                assert(ms.subrange(i as int, ms.len() as int).subrange(
                    1,
                    ms.len() - i,
                ) =~= ms.subrange(i + 1, ms.len() as int));
            }
        }
        if i == items.len() {
            proof {
                assert(models(items@).subrange(i as int, models(items@).len() as int)
                    =~= Seq::<BValue>::empty());
                assert(out.deep_view() + Seq::<SpecFile>::empty() =~= out.deep_view());
            }
            return Ok(out);
        }
        match &items[i] {
            Value::Dictionary(fd) => {
                proof {
                    lemma_model_dict(*fd);
                }
                match map_file(fd) {
                    Ok(file) => {
                        let ghost dv0 = out.deep_view();
                        let ghost fv = file.deep_view();
                        out.push(file);
                        proof {
                            assert(out.deep_view() =~= dv0 + seq![fv]);
                            lemma_prepend_assoc(
                                dv0,
                                seq![fv],
                                spec_files(
                                    models(items@).subrange(
                                        i + 1,
                                        models(items@).len() as int,
                                    ),
                                ),
                            );
                        }
                    },
                    Err(e) => {
                        return Err(e);
                    },
                }
            },
            _ => {
                return Err(
                    MapError::UnexpectedType {
                        field: Field::Files,
                        expected: ValueKind::Dictionary,
                        actual: kind_of(&items[i]),
                    },
                );
            },
        }
        i = i + 1;
    }
}

/// Maps the info dictionary.
fn map_info(d: &Vec<(Vec<u8>, Value)>) -> (r: Result<Info, MapError>)
    ensures
        match r {
            Ok(info) => spec_info(pair_models(d@)) == Ok::<_, MapError>(info.deep_view()),
            Err(e) => spec_info(pair_models(d@)) == Err::<SpecInfo, _>(e),
        },
{
    let name = match dict_get(d, Field::Name) {
        Option::None => {
            return Err(MapError::MissingRequiredField(Field::Name));
        },
        Option::Some(v) => match v {
            Value::ByteString(b) => match bytes_to_string(b) {
                Option::Some(s) => s,
                Option::None => {
                    return Err(MapError::InvalidTextEncoding(Field::Name));
                },
            },
            _ => {
                return Err(
                    MapError::UnexpectedType {
                        field: Field::Name,
                        expected: ValueKind::ByteString,
                        actual: kind_of(v),
                    },
                );
            },
        },
    };
    let piece_length = match dict_get(d, Field::PieceLength) {
        Option::None => {
            return Err(MapError::MissingRequiredField(Field::PieceLength));
        },
        Option::Some(v) => match v {
            Value::Integer(l) => *l,
            _ => {
                return Err(
                    MapError::UnexpectedType {
                        field: Field::PieceLength,
                        expected: ValueKind::Integer,
                        actual: kind_of(v),
                    },
                );
            },
        },
    };
    let pieces = match dict_get(d, Field::Pieces) {
        Option::None => {
            return Err(MapError::MissingRequiredField(Field::Pieces));
        },
        Option::Some(v) => match v {
            Value::ByteString(b) => copy_bytes(b),
            _ => {
                return Err(
                    MapError::UnexpectedType {
                        field: Field::Pieces,
                        expected: ValueKind::ByteString,
                        actual: kind_of(v),
                    },
                );
            },
        },
    };
    let private = match dict_get(d, Field::Private) {
        Option::None => Option::None,
        Option::Some(v) => match v {
            Value::Integer(p) => {
                if 0 <= *p && *p <= 255 {
                    Option::Some(*p as u8)
                } else {
                    return Err(
                        MapError::UnexpectedType {
                            field: Field::Private,
                            expected: ValueKind::Integer,
                            actual: ValueKind::Integer,
                        },
                    );
                }
            },
            _ => {
                return Err(
                    MapError::UnexpectedType {
                        field: Field::Private,
                        expected: ValueKind::Integer,
                        actual: kind_of(v),
                    },
                );
            },
        },
    };
    let root_hash = match opt_text(d, Field::RootHash) {
        Ok(m) => m,
        Err(e) => {
            return Err(e);
        },
    };
    let layout = match (dict_get(d, Field::Length), dict_get(d, Field::Files)) {
        (Option::None, Option::None) => {
            return Err(MapError::MissingLayout);
        },
        (Option::Some(_), Option::Some(_)) => {
            return Err(MapError::ConflictingLayout);
        },
        (Option::Some(lv), Option::None) => match lv {
            Value::Integer(l) => match opt_text(d, Field::Md5sum) {
                Ok(md5sum) => InfoLayout::SingleFile { length: *l, md5sum },
                Err(e) => {
                    return Err(e);
                },
            },
            _ => {
                return Err(
                    MapError::UnexpectedType {
                        field: Field::Length,
                        expected: ValueKind::Integer,
                        actual: kind_of(lv),
                    },
                );
            },
        },
        (Option::None, Option::Some(fv)) => match fv {
            Value::List(items) => {
                proof {
                    lemma_model_list(*items);
                }
                match map_files(items) {
                    Ok(files) => InfoLayout::MultiFile { files },
                    Err(e) => {
                        return Err(e);
                    },
                }
            },
            _ => {
                return Err(
                    MapError::UnexpectedType {
                        field: Field::Files,
                        expected: ValueKind::List,
                        actual: kind_of(fv),
                    },
                );
            },
        },
    };
    let info = Info { name, piece_length, pieces, private, root_hash, layout };
    proof {
        assert(info.deep_view() =~= spec_info(pair_models(d@))->Ok_0);
    }
    Ok(info)
}

impl Torrent {
    /// Maps a decoded bencode value onto the metainfo schema, per
    /// `spec_torrent`: a pure function of the value, returning the typed
    /// document or the first schema violation in field order.
    pub fn from_value(v: &Value) -> (r: Result<Torrent, MapError>)
        ensures
            match r {
                Ok(t) => spec_torrent(v@) == Ok::<_, MapError>(t.deep_view()),
                Err(e) => spec_torrent(v@) == Err::<SpecTorrent, _>(e),
            },
    {
        let d = match v {
            Value::Dictionary(d) => {
                proof {
                    lemma_model_dict(*d);
                }
                d
            },
            _ => {
                return Err(MapError::RootNotADictionary);
            },
        };
        let info = match dict_get(d, Field::Info) {
            Option::None => {
                return Err(MapError::MissingRequiredField(Field::Info));
            },
            Option::Some(iv) => match iv {
                Value::Dictionary(di) => {
                    proof {
                        lemma_model_dict(*di);
                    }
                    match map_info(di) {
                        Ok(info) => info,
                        Err(e) => {
                            return Err(e);
                        },
                    }
                },
                _ => {
                    return Err(
                        MapError::UnexpectedType {
                            field: Field::Info,
                            expected: ValueKind::Dictionary,
                            actual: kind_of(iv),
                        },
                    );
                },
            },
        };
        let announce = match opt_text(d, Field::Announce) {
            Ok(a) => a,
            Err(e) => {
                return Err(e);
            },
        };
        let announce_list = match dict_get(d, Field::AnnounceList) {
            Option::None => Option::None,
            Option::Some(av) => match av {
                Value::List(items) => {
                    proof {
                        lemma_model_list(*items);
                    }
                    match map_tiers(items) {
                        Ok(tiers) => Option::Some(tiers),
                        Err(e) => {
                            return Err(e);
                        },
                    }
                },
                _ => {
                    return Err(
                        MapError::UnexpectedType {
                            field: Field::AnnounceList,
                            expected: ValueKind::List,
                            actual: kind_of(av),
                        },
                    );
                },
            },
        };
        let nodes = match dict_get(d, Field::Nodes) {
            Option::None => Option::None,
            Option::Some(nv) => match nv {
                Value::List(items) => {
                    proof {
                        lemma_model_list(*items);
                    }
                    match map_nodes(items) {
                        Ok(ns) => Option::Some(ns),
                        Err(e) => {
                            return Err(e);
                        },
                    }
                },
                _ => {
                    return Err(
                        MapError::UnexpectedType {
                            field: Field::Nodes,
                            expected: ValueKind::List,
                            actual: kind_of(nv),
                        },
                    );
                },
            },
        };
        let creation_date = match opt_int(d, Field::CreationDate) {
            Ok(c) => c,
            Err(e) => {
                return Err(e);
            },
        };
        let comment = match opt_text(d, Field::Comment) {
            Ok(c) => c,
            Err(e) => {
                return Err(e);
            },
        };
        let created_by = match opt_text(d, Field::CreatedBy) {
            Ok(c) => c,
            Err(e) => {
                return Err(e);
            },
        };
        let encoding = match opt_text(d, Field::Encoding) {
            Ok(c) => c,
            Err(e) => {
                return Err(e);
            },
        };
        let httpseeds = match dict_get(d, Field::Httpseeds) {
            Option::None => Option::None,
            Option::Some(hv) => match hv {
                Value::List(items) => {
                    proof {
                        lemma_model_list(*items);
                    }
                    match map_texts(items, Field::Httpseeds) {
                        Ok(ss) => Option::Some(ss),
                        Err(e) => {
                            return Err(e);
                        },
                    }
                },
                _ => {
                    return Err(
                        MapError::UnexpectedType {
                            field: Field::Httpseeds,
                            expected: ValueKind::List,
                            actual: kind_of(hv),
                        },
                    );
                },
            },
        };
        let t = Torrent {
            info,
            announce,
            announce_list,
            nodes,
            creation_date,
            comment,
            created_by,
            encoding,
            httpseeds,
        };
        proof {
            assert(t.deep_view() =~= spec_torrent(v@)->Ok_0);
        }
        Ok(t)
    }

    /// Decodes `bytes` strictly under the default nesting cap and maps the
    /// result: the one-call path from a raw buffer to a typed document,
    /// with the two error taxonomies kept apart.
    pub fn from_bytes(bytes: &[u8]) -> (r: Result<Torrent, MetainfoError>)
        ensures
            r matches Ok(t) ==> parse_document(bytes@, DEFAULT_MAX_DEPTH as nat, true)
                matches Ok(bv) && spec_torrent(bv) == Ok::<_, MapError>(t.deep_view()),
            r matches Err(MetainfoError::Syntax(e)) ==> parse_document(
                bytes@,
                DEFAULT_MAX_DEPTH as nat,
                true,
            ) == Err::<BValue, _>((e.kind, e.offset as int)),
            r matches Err(MetainfoError::Schema(e)) ==> parse_document(
                bytes@,
                DEFAULT_MAX_DEPTH as nat,
                true,
            ) matches Ok(bv) && spec_torrent(bv) == Err::<SpecTorrent, _>(e),
    {
        match decode(bytes) {
            Err(e) => Err(MetainfoError::Syntax(e)),
            Ok(val) => match Torrent::from_value(&val) {
                Ok(t) => Ok(t),
                Err(e) => Err(MetainfoError::Schema(e)),
            },
        }
    }
}


} // verus!
