//! The typed metainfo schema: `Torrent`, `Info`, `File`, `Node`, and the
//! single-file / multi-file layout of the info dictionary.
//!
//! All values are immutable once mapped; a mapping either fully succeeds or
//! produces no value at all.

use vstd::prelude::*;

verus! {

/// One DHT bootstrap contact: host and port.
#[derive(Debug, PartialEq, Eq)]
pub struct Node {
    pub host: String,
    pub port: i64,
}

/// One file of a multi-file torrent: path segments, byte length, and an
/// optional md5 checksum.
#[derive(Debug, PartialEq, Eq)]
pub struct File {
    pub path: Vec<String>,
    pub length: i64,
    pub md5sum: Option<String>,
}

/// Which of the two mutually exclusive info-dictionary shapes holds.
#[derive(Debug, PartialEq, Eq)]
pub enum InfoLayout {
    /// The torrent describes one file of the given length.
    SingleFile { length: i64, md5sum: Option<String> },
    /// The torrent describes a directory of files.
    MultiFile { files: Vec<File> },
}

/// The info dictionary: name, piece size, concatenated piece hashes, and
/// the layout.
#[derive(Debug, PartialEq, Eq)]
pub struct Info {
    pub name: String,
    pub piece_length: i64,
    /// Raw bytes, kept unvalidated: each 20-byte chunk is one piece hash.
    pub pieces: Vec<u8>,
    pub private: Option<u8>,
    pub root_hash: Option<String>,
    pub layout: InfoLayout,
}

/// A whole metainfo document.
#[derive(Debug, PartialEq, Eq)]
pub struct Torrent {
    pub info: Info,
    pub announce: Option<String>,
    pub announce_list: Option<Vec<Vec<String>>>,
    pub nodes: Option<Vec<Node>>,
    pub creation_date: Option<i64>,
    pub comment: Option<String>,
    pub created_by: Option<String>,
    pub encoding: Option<String>,
    pub httpseeds: Option<Vec<String>>,
}

/// The model of a [`Node`].
#[verifier::ext_equal]
pub struct SpecNode {
    pub host: Seq<char>,
    pub port: i64,
}

/// The model of a [`File`].
#[verifier::ext_equal]
pub struct SpecFile {
    pub path: Seq<Seq<char>>,
    pub length: i64,
    pub md5sum: Option<Seq<char>>,
}

/// The model of an [`InfoLayout`].
#[verifier::ext_equal]
pub enum SpecInfoLayout {
    SingleFile { length: i64, md5sum: Option<Seq<char>> },
    MultiFile { files: Seq<SpecFile> },
}

/// The model of an [`Info`].
#[verifier::ext_equal]
pub struct SpecInfo {
    pub name: Seq<char>,
    pub piece_length: i64,
    pub pieces: Seq<u8>,
    pub private: Option<u8>,
    pub root_hash: Option<Seq<char>>,
    pub layout: SpecInfoLayout,
}

/// The model of a [`Torrent`].
#[verifier::ext_equal]
pub struct SpecTorrent {
    pub info: SpecInfo,
    pub announce: Option<Seq<char>>,
    pub announce_list: Option<Seq<Seq<Seq<char>>>>,
    pub nodes: Option<Seq<SpecNode>>,
    pub creation_date: Option<i64>,
    pub comment: Option<Seq<char>>,
    pub created_by: Option<Seq<char>>,
    pub encoding: Option<Seq<char>>,
    pub httpseeds: Option<Seq<Seq<char>>>,
}

impl DeepView for Node {
    type V = SpecNode;

    open spec fn deep_view(&self) -> SpecNode {
        SpecNode { host: self.host@, port: self.port }
    }
}

impl DeepView for File {
    type V = SpecFile;

    open spec fn deep_view(&self) -> SpecFile {
        SpecFile {
            path: self.path.deep_view(),
            length: self.length,
            md5sum: self.md5sum.deep_view(),
        }
    }
}

impl DeepView for InfoLayout {
    type V = SpecInfoLayout;

    open spec fn deep_view(&self) -> SpecInfoLayout {
        match self {
            InfoLayout::SingleFile { length, md5sum } => SpecInfoLayout::SingleFile {
                length: *length,
                md5sum: md5sum.deep_view(),
            },
            InfoLayout::MultiFile { files } => SpecInfoLayout::MultiFile {
                files: files.deep_view(),
            },
        }
    }
}

impl DeepView for Info {
    type V = SpecInfo;

    open spec fn deep_view(&self) -> SpecInfo {
        SpecInfo {
            name: self.name@,
            piece_length: self.piece_length,
            pieces: self.pieces@,
            private: self.private,
            root_hash: self.root_hash.deep_view(),
            layout: self.layout.deep_view(),
        }
    }
}

impl DeepView for Torrent {
    type V = SpecTorrent;

    open spec fn deep_view(&self) -> SpecTorrent {
        SpecTorrent {
            info: self.info.deep_view(),
            announce: self.announce.deep_view(),
            announce_list: self.announce_list.deep_view(),
            nodes: self.nodes.deep_view(),
            creation_date: self.creation_date,
            comment: self.comment.deep_view(),
            created_by: self.created_by.deep_view(),
            encoding: self.encoding.deep_view(),
            httpseeds: self.httpseeds.deep_view(),
        }
    }
}

} // verus!
