//! The domain model a descriptor decodes into.
//!
//! The model is built by the schema mapper and checked by the validator;
//! it is immutable once constructed. Each type has a mathematical mirror
//! reached through `@`, and the contracts of the pipeline speak only about
//! those mirrors.

use vstd::prelude::*;

verus! {

/// One entry of a multi-file descriptor: a declared size in bytes and a
/// relative path as text segments, root first.
#[derive(Debug, PartialEq, Eq)]
pub struct FileListItem {
    /// The declared size of the file in bytes.
    pub length: u64,
    /// The path segments; joining them with the platform separator yields
    /// the file's location relative to the torrent's root.
    pub path: Vec<String>,
}

/// The mathematical mirror of [`FileListItem`].
pub struct SpecFileListItem {
    pub length: int,
    pub path: Seq<Seq<char>>,
}

impl View for FileListItem {
    type V = SpecFileListItem;

    open spec fn view(&self) -> SpecFileListItem {
        SpecFileListItem {
            length: self.length as int,
            path: Seq::new(self.path@.len(), |i: int| self.path@[i]@),
        }
    }
}

/// The file layout of a descriptor: exactly one of the two shapes is ever
/// populated, according to which of the mutually exclusive keys `length`
/// and `files` was present.
#[derive(Debug, PartialEq, Eq)]
pub enum FileList {
    /// A one-file descriptor: the single file's size in bytes.
    Single(u64),
    /// A multi-file descriptor: the entries in declared order.
    Multiple(Vec<FileListItem>),
}

/// The mathematical mirror of [`FileList`].
pub enum SpecFileList {
    Single(int),
    Multiple(Seq<SpecFileListItem>),
}

impl View for FileList {
    type V = SpecFileList;

    open spec fn view(&self) -> SpecFileList {
        match self {
            FileList::Single(l) => SpecFileList::Single(*l as int),
            FileList::Multiple(items) => SpecFileList::Multiple(
                Seq::new(items@.len(), |i: int| items@[i]@),
            ),
        }
    }
}

/// The `info` section of a descriptor.
#[derive(Debug, PartialEq, Eq)]
pub struct MetaFileInfo {
    /// The suggested root directory or file name.
    pub name: String,
    /// Bytes per piece; nonzero once validated.
    pub piece_length: u64,
    /// The twenty-byte piece hashes in order.
    pub pieces: Vec<Vec<u8>>,
    /// The declared file layout.
    pub file_list: FileList,
}

/// The mathematical mirror of [`MetaFileInfo`].
pub struct SpecMetaFileInfo {
    pub name: Seq<char>,
    pub piece_length: int,
    pub pieces: Seq<Seq<u8>>,
    pub file_list: SpecFileList,
}

impl View for MetaFileInfo {
    type V = SpecMetaFileInfo;

    open spec fn view(&self) -> SpecMetaFileInfo {
        SpecMetaFileInfo {
            name: self.name@,
            piece_length: self.piece_length as int,
            pieces: Seq::new(self.pieces@.len(), |i: int| self.pieces@[i]@),
            file_list: self.file_list@,
        }
    }
}

/// A decoded descriptor: the announce endpoint and the `info` section.
#[derive(Debug, PartialEq, Eq)]
pub struct TorrentFile {
    /// The tracker endpoint as text.
    pub announce: String,
    /// The decoded `info` section.
    pub info: MetaFileInfo,
}

/// The mathematical mirror of [`TorrentFile`].
pub struct SpecTorrentFile {
    pub announce: Seq<char>,
    pub info: SpecMetaFileInfo,
}

impl View for TorrentFile {
    type V = SpecTorrentFile;

    open spec fn view(&self) -> SpecTorrentFile {
        SpecTorrentFile { announce: self.announce@, info: self.info@ }
    }
}

} // verus!
