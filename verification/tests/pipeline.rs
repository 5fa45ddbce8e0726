//! Whole-pipeline tests: schema mapping, validation, and the paths the
//! downstream reconciliation derives from a decoded model.

use torrent_meta::errors::{ExpectedKind, KeyName, TorrentError};
use torrent_meta::model::{FileList, TorrentFile};
use torrent_meta::paths::list_recursive_dirs;
use torrent_meta::torrent::{parse_torrent, parse_torrent_with_depth};

fn enc_bytes(b: &[u8]) -> Vec<u8> {
    let mut v = format!("{}:", b.len()).into_bytes();
    v.extend_from_slice(b);
    v
}

fn enc_str(s: &str) -> Vec<u8> {
    enc_bytes(s.as_bytes())
}

fn enc_int(i: i64) -> Vec<u8> {
    format!("i{}e", i).into_bytes()
}

/// One multi-file entry dictionary: `{length: n, path: segments}`.
fn enc_entry(n: i64, segments: &[&str]) -> Vec<u8> {
    let mut v = b"d".to_vec();
    v.extend_from_slice(&enc_str("length"));
    v.extend_from_slice(&enc_int(n));
    v.extend_from_slice(&enc_str("path"));
    v.push(b'l');
    for s in segments {
        v.extend_from_slice(&enc_str(s));
    }
    v.extend_from_slice(b"ee");
    v
}

/// An `info` dictionary from raw key/value encodings, in the given order.
fn enc_dict(pairs: &[(&str, Vec<u8>)]) -> Vec<u8> {
    let mut v = b"d".to_vec();
    for (k, enc) in pairs {
        v.extend_from_slice(&enc_str(k));
        v.extend_from_slice(enc);
    }
    v.push(b'e');
    v
}

fn twenty_hash_bytes() -> Vec<u8> {
    (0u8..20).collect()
}

/// A minimal valid multi-file descriptor, used as the base of many tests.
fn minimal_multi() -> Vec<u8> {
    let info = enc_dict(&[
        ("name", enc_str("pkg")),
        ("piece_length", enc_int(16384)),
        ("pieces", enc_bytes(&twenty_hash_bytes())),
        ("files", {
            let mut v = b"l".to_vec();
            v.extend_from_slice(&enc_entry(5, &["a.txt"]));
            v.push(b'e');
            v
        }),
    ]);
    enc_dict(&[
        ("announce", enc_str("http://tracker.example/announce")),
        ("info", info),
    ])
}

fn assert_models_equal(a: &TorrentFile, b: &TorrentFile) {
    assert_eq!(a.announce, b.announce);
    assert_eq!(a.info.name, b.info.name);
    assert_eq!(a.info.piece_length, b.info.piece_length);
    assert_eq!(a.info.pieces, b.info.pieces);
    match (&a.info.file_list, &b.info.file_list) {
        (FileList::Single(x), FileList::Single(y)) => assert_eq!(x, y),
        (FileList::Multiple(xs), FileList::Multiple(ys)) => {
            assert_eq!(xs.len(), ys.len());
            for (x, y) in xs.iter().zip(ys.iter()) {
                assert_eq!(x.length, y.length);
                assert_eq!(x.path, y.path);
            }
        },
        _ => panic!("file layouts differ"),
    }
}

#[test]
fn end_to_end_multi_file() {
    let t = parse_torrent(&minimal_multi()).unwrap();
    assert_eq!(t.announce, "http://tracker.example/announce");
    assert_eq!(t.info.name, "pkg");
    assert_eq!(t.info.piece_length, 16384);
    assert_eq!(t.info.pieces, vec![twenty_hash_bytes()]);
    match &t.info.file_list {
        FileList::Multiple(items) => {
            assert_eq!(items.len(), 1);
            assert_eq!(items[0].length, 5);
            assert_eq!(items[0].path, vec!["a.txt".to_string()]);
        },
        _ => panic!("expected a multi-file layout"),
    }
}

#[test]
fn key_order_irrelevant() {
    // The same pairs in two different orders, in both dictionaries,
    // map to the same model.
    let info_a = enc_dict(&[
        ("name", enc_str("pkg")),
        ("piece_length", enc_int(16384)),
        ("pieces", enc_bytes(&twenty_hash_bytes())),
        ("length", enc_int(9)),
    ]);
    let info_b = enc_dict(&[
        ("length", enc_int(9)),
        ("pieces", enc_bytes(&twenty_hash_bytes())),
        ("piece_length", enc_int(16384)),
        ("name", enc_str("pkg")),
    ]);
    let doc_a = enc_dict(&[("announce", enc_str("udp://t")), ("info", info_a)]);
    let doc_b = enc_dict(&[("info", info_b), ("announce", enc_str("udp://t"))]);
    let ta = parse_torrent(&doc_a).unwrap();
    let tb = parse_torrent(&doc_b).unwrap();
    assert_models_equal(&ta, &tb);
}

#[test]
fn pieces_not_multiple_of_twenty_rejected() {
    let mut hashes = twenty_hash_bytes();
    hashes.push(0xAB);
    let info = enc_dict(&[
        ("name", enc_str("pkg")),
        ("piece_length", enc_int(16384)),
        ("pieces", enc_bytes(&hashes)),
        ("length", enc_int(9)),
    ]);
    let doc = enc_dict(&[("announce", enc_str("udp://t")), ("info", info)]);
    assert_eq!(parse_torrent(&doc), Err(TorrentError::PiecesLength));
}

#[test]
fn length_and_files_together_rejected() {
    let mut files = b"l".to_vec();
    files.extend_from_slice(&enc_entry(5, &["a.txt"]));
    files.push(b'e');
    let info = enc_dict(&[
        ("name", enc_str("pkg")),
        ("piece_length", enc_int(16384)),
        ("pieces", enc_bytes(&twenty_hash_bytes())),
        ("length", enc_int(100)),
        ("files", files),
    ]);
    let doc = enc_dict(&[("announce", enc_str("udp://t")), ("info", info)]);
    assert_eq!(parse_torrent(&doc), Err(TorrentError::ExactlyOneOfLengthFiles));
}

#[test]
fn neither_length_nor_files_rejected() {
    let info = enc_dict(&[
        ("name", enc_str("pkg")),
        ("piece_length", enc_int(16384)),
        ("pieces", enc_bytes(&twenty_hash_bytes())),
    ]);
    let doc = enc_dict(&[("announce", enc_str("udp://t")), ("info", info)]);
    assert_eq!(parse_torrent(&doc), Err(TorrentError::ExactlyOneOfLengthFiles));
}

#[test]
fn empty_path_fails_validation() {
    // The descriptor decodes and maps; only the validator rejects it.
    let mut files = b"l".to_vec();
    files.extend_from_slice(&enc_entry(5, &[]));
    files.push(b'e');
    let info = enc_dict(&[
        ("name", enc_str("pkg")),
        ("piece_length", enc_int(16384)),
        ("pieces", enc_bytes(&twenty_hash_bytes())),
        ("files", files),
    ]);
    let doc = enc_dict(&[("announce", enc_str("udp://t")), ("info", info)]);
    assert_eq!(parse_torrent(&doc), Err(TorrentError::EmptyPath));
}

#[test]
fn top_level_list_rejected() {
    assert_eq!(parse_torrent(b"le"), Err(TorrentError::TopLevelNotDict));
}

#[test]
fn trailing_byte_after_document_rejected() {
    let mut doc = minimal_multi();
    doc.push(b'!');
    assert_eq!(parse_torrent(&doc), Err(TorrentError::TrailingData));
}

#[test]
fn unrecognized_key_ignored() {
    let info = enc_dict(&[
        ("name", enc_str("pkg")),
        ("piece_length", enc_int(16384)),
        ("pieces", enc_bytes(&twenty_hash_bytes())),
        ("length", enc_int(9)),
    ]);
    let doc = enc_dict(&[
        ("announce", enc_str("udp://t")),
        ("comment", enc_str("vendor extension")),
        ("info", info),
    ]);
    let t = parse_torrent(&doc).unwrap();
    assert_eq!(t.info.name, "pkg");
    assert!(matches!(t.info.file_list, FileList::Single(9)));
}

#[test]
fn repeated_unrecognized_key_still_ignored() {
    let info = enc_dict(&[
        ("name", enc_str("pkg")),
        ("piece_length", enc_int(16384)),
        ("pieces", enc_bytes(&twenty_hash_bytes())),
        ("length", enc_int(9)),
    ]);
    let doc = enc_dict(&[
        ("comment", enc_str("one")),
        ("announce", enc_str("udp://t")),
        ("comment", enc_str("two")),
        ("info", info),
    ]);
    assert!(parse_torrent(&doc).is_ok());
}

#[test]
fn duplicate_piece_length_rejected() {
    let info = enc_dict(&[
        ("name", enc_str("pkg")),
        ("piece_length", enc_int(16384)),
        ("piece_length", enc_int(32768)),
        ("pieces", enc_bytes(&twenty_hash_bytes())),
        ("length", enc_int(9)),
    ]);
    let doc = enc_dict(&[("announce", enc_str("udp://t")), ("info", info)]);
    assert_eq!(
        parse_torrent(&doc),
        Err(TorrentError::DuplicateKey(KeyName::PieceLength))
    );
}

#[test]
fn first_problem_in_walk_order_reported() {
    // A repeated name occurs before a malformed pieces value: the
    // duplicate, met first while walking the pairs, is the error named.
    let info = enc_dict(&[
        ("name", enc_str("pkg")),
        ("name", enc_str("pkg2")),
        ("pieces", enc_bytes(b"xy")),
        ("piece_length", enc_int(1)),
        ("length", enc_int(9)),
    ]);
    let doc = enc_dict(&[("announce", enc_str("udp://t")), ("info", info)]);
    assert_eq!(parse_torrent(&doc), Err(TorrentError::DuplicateKey(KeyName::Name)));
}

#[test]
fn missing_announce_rejected() {
    let info = enc_dict(&[
        ("name", enc_str("pkg")),
        ("piece_length", enc_int(16384)),
        ("pieces", enc_bytes(&twenty_hash_bytes())),
        ("length", enc_int(9)),
    ]);
    let doc = enc_dict(&[("info", info)]);
    assert_eq!(
        parse_torrent(&doc),
        Err(TorrentError::MissingKey(KeyName::Announce))
    );
}

#[test]
fn missing_name_rejected() {
    let info = enc_dict(&[
        ("piece_length", enc_int(16384)),
        ("pieces", enc_bytes(&twenty_hash_bytes())),
        ("length", enc_int(9)),
    ]);
    let doc = enc_dict(&[("announce", enc_str("udp://t")), ("info", info)]);
    assert_eq!(parse_torrent(&doc), Err(TorrentError::MissingKey(KeyName::Name)));
}

#[test]
fn announce_with_wrong_kind_rejected() {
    let info = enc_dict(&[
        ("name", enc_str("pkg")),
        ("piece_length", enc_int(16384)),
        ("pieces", enc_bytes(&twenty_hash_bytes())),
        ("length", enc_int(9)),
    ]);
    let doc = enc_dict(&[("announce", enc_int(1)), ("info", info)]);
    assert_eq!(
        parse_torrent(&doc),
        Err(TorrentError::WrongKind(KeyName::Announce, ExpectedKind::Text))
    );
}

#[test]
fn info_as_list_rejected() {
    let doc = enc_dict(&[("announce", enc_str("udp://t")), ("info", b"le".to_vec())]);
    assert_eq!(
        parse_torrent(&doc),
        Err(TorrentError::WrongKind(KeyName::Info, ExpectedKind::Dictionary))
    );
}

#[test]
fn path_as_bytes_rejected() {
    let entry = enc_dict(&[("length", enc_int(5)), ("path", enc_str("a.txt"))]);
    let mut files = b"l".to_vec();
    files.extend_from_slice(&entry);
    files.push(b'e');
    let info = enc_dict(&[
        ("name", enc_str("pkg")),
        ("piece_length", enc_int(16384)),
        ("pieces", enc_bytes(&twenty_hash_bytes())),
        ("files", files),
    ]);
    let doc = enc_dict(&[("announce", enc_str("udp://t")), ("info", info)]);
    assert_eq!(
        parse_torrent(&doc),
        Err(TorrentError::WrongKind(KeyName::Path, ExpectedKind::ListOfValues))
    );
}

#[test]
fn negative_length_rejected() {
    let info = enc_dict(&[
        ("name", enc_str("pkg")),
        ("piece_length", enc_int(16384)),
        ("pieces", enc_bytes(&twenty_hash_bytes())),
        ("length", enc_int(-1)),
    ]);
    let doc = enc_dict(&[("announce", enc_str("udp://t")), ("info", info)]);
    assert_eq!(
        parse_torrent(&doc),
        Err(TorrentError::WrongKind(KeyName::Length, ExpectedKind::Unsigned))
    );
}

#[test]
fn name_decodes_multibyte_text() {
    // A two-byte UTF-8 sequence becomes one character, not two.
    let info = enc_dict(&[
        ("name", enc_bytes(b"caf\xc3\xa9")),
        ("piece_length", enc_int(16384)),
        ("pieces", enc_bytes(&twenty_hash_bytes())),
        ("length", enc_int(9)),
    ]);
    let doc = enc_dict(&[("announce", enc_str("udp://t")), ("info", info)]);
    let t = parse_torrent(&doc).unwrap();
    assert_eq!(t.info.name, "café");
    assert_eq!(t.info.name.chars().count(), 4);
}

#[test]
fn invalid_utf8_name_rejected() {
    let info = enc_dict(&[
        ("name", enc_bytes(b"\xff\xfe")),
        ("piece_length", enc_int(16384)),
        ("pieces", enc_bytes(&twenty_hash_bytes())),
        ("length", enc_int(9)),
    ]);
    let doc = enc_dict(&[("announce", enc_str("udp://t")), ("info", info)]);
    assert_eq!(
        parse_torrent(&doc),
        Err(TorrentError::WrongKind(KeyName::Name, ExpectedKind::Text))
    );
}

#[test]
fn empty_pieces_fails_validation() {
    let info = enc_dict(&[
        ("name", enc_str("pkg")),
        ("piece_length", enc_int(16384)),
        ("pieces", enc_bytes(b"")),
        ("length", enc_int(9)),
    ]);
    let doc = enc_dict(&[("announce", enc_str("udp://t")), ("info", info)]);
    assert_eq!(parse_torrent(&doc), Err(TorrentError::EmptyPieces));
}

#[test]
fn zero_piece_length_fails_validation() {
    let info = enc_dict(&[
        ("name", enc_str("pkg")),
        ("piece_length", enc_int(0)),
        ("pieces", enc_bytes(&twenty_hash_bytes())),
        ("length", enc_int(9)),
    ]);
    let doc = enc_dict(&[("announce", enc_str("udp://t")), ("info", info)]);
    assert_eq!(parse_torrent(&doc), Err(TorrentError::ZeroPieceLength));
}

#[test]
fn zero_single_length_fails_validation() {
    let info = enc_dict(&[
        ("name", enc_str("pkg")),
        ("piece_length", enc_int(16384)),
        ("pieces", enc_bytes(&twenty_hash_bytes())),
        ("length", enc_int(0)),
    ]);
    let doc = enc_dict(&[("announce", enc_str("udp://t")), ("info", info)]);
    assert_eq!(parse_torrent(&doc), Err(TorrentError::ZeroLength));
}

#[test]
fn empty_file_list_fails_validation() {
    let info = enc_dict(&[
        ("name", enc_str("pkg")),
        ("piece_length", enc_int(16384)),
        ("pieces", enc_bytes(&twenty_hash_bytes())),
        ("files", b"le".to_vec()),
    ]);
    let doc = enc_dict(&[("announce", enc_str("udp://t")), ("info", info)]);
    assert_eq!(parse_torrent(&doc), Err(TorrentError::EmptyFileList));
}

#[test]
fn zero_entry_length_fails_validation() {
    let mut files = b"l".to_vec();
    files.extend_from_slice(&enc_entry(0, &["a.txt"]));
    files.push(b'e');
    let info = enc_dict(&[
        ("name", enc_str("pkg")),
        ("piece_length", enc_int(16384)),
        ("pieces", enc_bytes(&twenty_hash_bytes())),
        ("files", files),
    ]);
    let doc = enc_dict(&[("announce", enc_str("udp://t")), ("info", info)]);
    assert_eq!(parse_torrent(&doc), Err(TorrentError::ZeroLength));
}

#[test]
fn two_pieces_chunked_in_order() {
    let mut hashes = twenty_hash_bytes();
    hashes.extend((100u8..120).collect::<Vec<u8>>());
    let info = enc_dict(&[
        ("name", enc_str("pkg")),
        ("piece_length", enc_int(16384)),
        ("pieces", enc_bytes(&hashes)),
        ("length", enc_int(9)),
    ]);
    let doc = enc_dict(&[("announce", enc_str("udp://t")), ("info", info)]);
    let t = parse_torrent(&doc).unwrap();
    assert_eq!(t.info.pieces.len(), 2);
    assert_eq!(t.info.pieces[0], twenty_hash_bytes());
    assert_eq!(t.info.pieces[1], (100u8..120).collect::<Vec<u8>>());
}

#[test]
fn single_file_end_to_end() {
    let info = enc_dict(&[
        ("name", enc_str("one.bin")),
        ("piece_length", enc_int(32768)),
        ("pieces", enc_bytes(&twenty_hash_bytes())),
        ("length", enc_int(123)),
    ]);
    let doc = enc_dict(&[("announce", enc_str("udp://t")), ("info", info)]);
    let t = parse_torrent(&doc).unwrap();
    assert_eq!(t.info.name, "one.bin");
    assert_eq!(t.info.file_list, FileList::Single(123));
}

#[test]
fn nesting_budget_applies_to_whole_pipeline() {
    // Top dictionary, info, files, entry, path: five nested containers.
    let doc = minimal_multi();
    assert_eq!(
        parse_torrent_with_depth(&doc, 4),
        Err(TorrentError::DepthExceeded)
    );
    assert!(parse_torrent_with_depth(&doc, 5).is_ok());
}

#[test]
fn empty_input_rejected() {
    assert_eq!(parse_torrent(b""), Err(TorrentError::EmptyInput));
}

#[test]
fn recursive_dirs_lists_every_prefix() {
    let segs = vec!["a".to_string(), "b".to_string(), "c.txt".to_string()];
    let dirs = list_recursive_dirs(&segs);
    assert_eq!(
        dirs,
        vec![
            vec!["a".to_string()],
            vec!["a".to_string(), "b".to_string()],
            vec!["a".to_string(), "b".to_string(), "c.txt".to_string()],
        ]
    );
}
