//! The error taxonomy of the decoding pipeline.
//!
//! Every failure of the primitive decoder, the schema mapper or the
//! validator is reported through [`TorrentError`]; nothing is downgraded to
//! a default value, and a caller either gets a fully validated model or one
//! of these variants describing the first problem found.

use vstd::prelude::*;

verus! {

/// The recognized dictionary keys of the descriptor schema.
#[derive(Clone, Copy, Debug, PartialEq, Eq, Structural)]
pub enum KeyName {
    Announce,
    Info,
    Name,
    PieceLength,
    Pieces,
    Length,
    Files,
    Path,
}

/// The kind of value the schema expects under a recognized key.
#[derive(Clone, Copy, Debug, PartialEq, Eq, Structural)]
pub enum ExpectedKind {
    /// A byte string that also decodes as UTF-8 text.
    Text,
    /// A raw byte string.
    ByteString,
    /// An integer.
    Integer,
    /// An integer that is not negative.
    Unsigned,
    /// A list.
    ListOfValues,
    /// A dictionary.
    Dictionary,
}

/// Everything that can go wrong between a raw buffer and a validated model.
#[derive(Clone, Copy, Debug, PartialEq, Eq, Structural)]
pub enum TorrentError {
    /// The buffer ended inside a value: a truncated length, body or
    /// terminator.
    UnexpectedEnd,
    /// A byte at a value position starts none of the four encodings.
    InvalidPrefix,
    /// A byte-string length is malformed: a leading zero, or no `:` after
    /// the digits.
    InvalidLength,
    /// An integer is malformed: empty digits, a leading zero, a bare `-0`,
    /// or a missing `e` terminator.
    InvalidInt,
    /// An integer is well formed but does not fit in a signed 64-bit value.
    IntOutOfRange,
    /// A dictionary key is not a byte string.
    NonStringKey,
    /// Containers nest deeper than the configured budget allows.
    DepthExceeded,
    /// The buffer holds no top-level value at all.
    EmptyInput,
    /// Bytes remain after the single top-level value.
    TrailingData,
    /// The top-level value is not a dictionary.
    TopLevelNotDict,
    /// A recognized key's value has the wrong kind, or an integer where an
    /// unsigned value is required is negative, or a text field is not
    /// valid UTF-8.
    WrongKind(KeyName, ExpectedKind),
    /// A recognized key occurs more than once in the same dictionary.
    DuplicateKey(KeyName),
    /// A required key is absent after its dictionary has been consumed.
    MissingKey(KeyName),
    /// The byte length of `pieces` is not a multiple of twenty.
    PiecesLength,
    /// Both of `length` and `files` are present, or neither is.
    ExactlyOneOfLengthFiles,
    /// The descriptor declares no pieces at all.
    EmptyPieces,
    /// The descriptor declares a piece length of zero.
    ZeroPieceLength,
    /// A declared file size, single-file or per entry, is zero.
    ZeroLength,
    /// A multi-file descriptor declares an empty file list.
    EmptyFileList,
    /// A file entry's path has no segments.
    EmptyPath,
}

/// True of the variants the primitive decoder itself can report: the
/// malformations of a single encoded value, as opposed to the whole-buffer,
/// schema and invariant errors raised by the later stages.
pub open spec fn is_primitive_error(e: TorrentError) -> bool {
    ||| e == TorrentError::UnexpectedEnd
    ||| e == TorrentError::InvalidPrefix
    ||| e == TorrentError::InvalidLength
    ||| e == TorrentError::InvalidInt
    ||| e == TorrentError::IntOutOfRange
    ||| e == TorrentError::NonStringKey
    ||| e == TorrentError::DepthExceeded
}

/// True of the variants the file-entry mapper can report: its recognized
/// keys are `length` and `path`.
pub open spec fn is_entry_error(e: TorrentError) -> bool {
    ||| e == TorrentError::DuplicateKey(KeyName::Length)
    ||| e == TorrentError::DuplicateKey(KeyName::Path)
    ||| e == TorrentError::WrongKind(KeyName::Length, ExpectedKind::Unsigned)
    ||| e == TorrentError::WrongKind(KeyName::Path, ExpectedKind::ListOfValues)
    ||| e == TorrentError::WrongKind(KeyName::Path, ExpectedKind::Text)
    ||| e == TorrentError::MissingKey(KeyName::Length)
    ||| e == TorrentError::MissingKey(KeyName::Path)
}

/// True of the variants the `info` mapper can report, the errors of the
/// file entries under `files` included.
pub open spec fn is_info_error(e: TorrentError) -> bool {
    ||| is_entry_error(e)
    ||| e == TorrentError::WrongKind(KeyName::Files, ExpectedKind::Dictionary)
    ||| e == TorrentError::DuplicateKey(KeyName::Name)
    ||| e == TorrentError::DuplicateKey(KeyName::PieceLength)
    ||| e == TorrentError::DuplicateKey(KeyName::Pieces)
    ||| e == TorrentError::DuplicateKey(KeyName::Files)
    ||| e == TorrentError::WrongKind(KeyName::Name, ExpectedKind::Text)
    ||| e == TorrentError::WrongKind(KeyName::PieceLength, ExpectedKind::Unsigned)
    ||| e == TorrentError::WrongKind(KeyName::Pieces, ExpectedKind::ByteString)
    ||| e == TorrentError::PiecesLength
    ||| e == TorrentError::WrongKind(KeyName::Files, ExpectedKind::ListOfValues)
    ||| e == TorrentError::MissingKey(KeyName::Name)
    ||| e == TorrentError::MissingKey(KeyName::PieceLength)
    ||| e == TorrentError::MissingKey(KeyName::Pieces)
    ||| e == TorrentError::ExactlyOneOfLengthFiles
}

/// True of the variants the whole schema mapper can report.
pub open spec fn is_mapper_error(e: TorrentError) -> bool {
    ||| is_info_error(e)
    ||| e == TorrentError::DuplicateKey(KeyName::Announce)
    ||| e == TorrentError::DuplicateKey(KeyName::Info)
    ||| e == TorrentError::WrongKind(KeyName::Announce, ExpectedKind::Text)
    ||| e == TorrentError::WrongKind(KeyName::Info, ExpectedKind::Dictionary)
    ||| e == TorrentError::MissingKey(KeyName::Announce)
    ||| e == TorrentError::MissingKey(KeyName::Info)
}

/// True of the variants the validator can report: the invariant
/// violations of an already well-mapped model.
pub open spec fn is_invariant_error(e: TorrentError) -> bool {
    ||| e == TorrentError::EmptyPieces
    ||| e == TorrentError::ZeroPieceLength
    ||| e == TorrentError::ZeroLength
    ||| e == TorrentError::EmptyFileList
    ||| e == TorrentError::EmptyPath
}

} // verus!
