//! The schema mapper: from decoded generic values to the domain model.
//!
//! Each mapping function walks one dictionary's pairs in buffer order,
//! recognizes the keys of its schema, rejects a recognized key that
//! occurs twice or carries the wrong kind of value, silently consumes
//! unrecognized keys, and reports a required key that never occurred.
//! The contracts state acceptance and the produced model through the
//! lookups of [`crate::schema`], which do not depend on pair order.

use vstd::prelude::*;
use vstd::utf8::valid_utf8;

use crate::errors::{is_entry_error, is_info_error, is_mapper_error, ExpectedKind, KeyName, TorrentError};
use crate::model::{FileList, FileListItem, MetaFileInfo, TorrentFile};
use crate::schema::{
    entries_scan_error, entry_ok, entry_pair_error, entry_scan_error, files_ok, info_ok,
    info_pair_error, info_scan_error, key_announce, key_count, key_files, key_info, key_length,
    key_name, key_path, key_piece_length, key_pieces, key_value, lemma_key_count_nonneg,
    lemma_key_count_push, lemma_key_count_split, lemma_key_value_at, lemma_key_value_push,
    path_segments_ok, pieces_chunks, spec_entries, spec_entries_error, spec_entry,
    spec_entry_error, spec_info, spec_info_error, spec_path, spec_torrent, spec_torrent_error,
    torrent_ok, torrent_pair_error, torrent_scan_error,
};
use crate::text::bytes_to_text;
use crate::value::{
    deep_elems, deep_pairs, lemma_deep_elems, lemma_deep_pairs, SpecValue, Value,
};

verus! {

/// No two recognized keys are the same byte sequence; where two keys have
/// the same length, some byte differs.
proof fn lemma_keys_distinct()
    ensures
        key_announce().len() == 8,
        key_info().len() == 4,
        key_name().len() == 4,
        key_piece_length().len() == 12,
        key_pieces().len() == 6,
        key_length().len() == 6,
        key_files().len() == 5,
        key_path().len() == 4,
        key_info() != key_name(),
        key_info() != key_path(),
        key_name() != key_path(),
        key_pieces() != key_length(),
{
    assert(key_info()[0] == 105 && key_name()[0] == 110 && key_path()[0] == 112);
    assert(key_pieces()[0] == 112 && key_length()[0] == 108);
}

/// Decide which recognized key, if any, the byte string `k` is.
fn classify_key(k: &Vec<u8>) -> (r: Option<KeyName>)
    ensures
        (r == Some(KeyName::Announce)) <==> k@ == key_announce(),
        (r == Some(KeyName::Info)) <==> k@ == key_info(),
        (r == Some(KeyName::Name)) <==> k@ == key_name(),
        (r == Some(KeyName::PieceLength)) <==> k@ == key_piece_length(),
        (r == Some(KeyName::Pieces)) <==> k@ == key_pieces(),
        (r == Some(KeyName::Length)) <==> k@ == key_length(),
        (r == Some(KeyName::Files)) <==> k@ == key_files(),
        (r == Some(KeyName::Path)) <==> k@ == key_path(),
{
    proof {
        lemma_keys_distinct();
    }
    let n = k.len();
    if n == 4 {
        if k[0] == 105 && k[1] == 110 && k[2] == 102 && k[3] == 111 {
            proof {
                assert(k@ =~= key_info());
            }
            Some(KeyName::Info)
        } else if k[0] == 110 && k[1] == 97 && k[2] == 109 && k[3] == 101 {
            proof {
                assert(k@ =~= key_name());
            }
            Some(KeyName::Name)
        } else if k[0] == 112 && k[1] == 97 && k[2] == 116 && k[3] == 104 {
            proof {
                assert(k@ =~= key_path());
            }
            Some(KeyName::Path)
        } else {
            None
        }
    } else if n == 5 {
        if k[0] == 102 && k[1] == 105 && k[2] == 108 && k[3] == 101 && k[4] == 115 {
            proof {
                assert(k@ =~= key_files());
            }
            Some(KeyName::Files)
        } else {
            None
        }
    } else if n == 6 {
        if k[0] == 112 && k[1] == 105 && k[2] == 101 && k[3] == 99 && k[4] == 101 && k[5]
            == 115 {
            proof {
                assert(k@ =~= key_pieces());
            }
            Some(KeyName::Pieces)
        } else if k[0] == 108 && k[1] == 101 && k[2] == 110 && k[3] == 103 && k[4] == 116 && k[5]
            == 104 {
            proof {
                assert(k@ =~= key_length());
            }
            Some(KeyName::Length)
        } else {
            None
        }
    } else if n == 8 {
        if k[0] == 97 && k[1] == 110 && k[2] == 110 && k[3] == 111 && k[4] == 117 && k[5] == 110
            && k[6] == 99 && k[7] == 101 {
            proof {
                assert(k@ =~= key_announce());
            }
            Some(KeyName::Announce)
        } else {
            None
        }
    } else if n == 12 {
        if k[0] == 112 && k[1] == 105 && k[2] == 101 && k[3] == 99 && k[4] == 101 && k[5] == 95
            && k[6] == 108 && k[7] == 101 && k[8] == 110 && k[9] == 103 && k[10] == 116 && k[11]
            == 104 {
            proof {
                assert(k@ =~= key_piece_length());
            }
            Some(KeyName::PieceLength)
        } else {
            None
        }
    } else {
        None
    }
}

/// Map the elements of a decoded `path` list to text segments. Every
/// element must be a byte string holding valid UTF-8.
fn map_path_segments(segs: &Vec<Value>) -> (r: Result<Vec<String>, TorrentError>)
    ensures
        r is Ok <==> path_segments_ok(deep_elems(segs@)),
        r matches Ok(p) ==> {
            &&& p@.len() == segs@.len()
            &&& Seq::new(p@.len(), |i: int| p@[i]@) == spec_path(deep_elems(segs@))
        },
        r matches Err(e) ==> e == TorrentError::WrongKind(KeyName::Path, ExpectedKind::Text),
{
    proof {
        lemma_deep_elems(segs@);
    }
    let ghost ds = deep_elems(segs@);
    let mut out: Vec<String> = Vec::new();
    let mut idx: usize = 0;
    while idx < segs.len()
        invariant
            0 <= idx <= segs@.len(),
            ds == deep_elems(segs@),
            ds.len() == segs@.len(),
            forall|j: int| 0 <= j < ds.len() ==> ds[j] == segs@[j].deep(),
            out@.len() == idx,
            forall|j: int| #![trigger ds[j]]
                0 <= j < idx as int ==> (ds[j] matches SpecValue::Bytes(b) && valid_utf8(b)),
            forall|j: int|
                0 <= j < idx as int ==> out@[j]@ == vstd::utf8::decode_utf8(ds[j]->Bytes_0),
        decreases segs@.len() - idx,
    {
        match &segs[idx] {
            Value::Bytes(b) => {
                match bytes_to_text(b) {
                    Some(s) => {
                        out.push(s);
                    },
                    None => {
                        proof {
                            assert(ds[idx as int] == SpecValue::Bytes(b@));
                            assert(!path_segments_ok(ds));
                        }
                        return Err(TorrentError::WrongKind(KeyName::Path, ExpectedKind::Text));
                    },
                }
            },
            _ => {
                proof {
                    assert(ds[idx as int] == segs@[idx as int].deep());
                    assert(!(ds[idx as int] matches SpecValue::Bytes(bb) && valid_utf8(bb)));
                    assert(!path_segments_ok(ds));
                }
                return Err(TorrentError::WrongKind(KeyName::Path, ExpectedKind::Text));
            },
        }
        idx = idx + 1;
    }
    proof {
        assert(Seq::new(out@.len(), |i: int| out@[i]@) =~= spec_path(ds));
    }
    Ok(out)
}

/// Split the `pieces` byte string into its twenty-byte hashes, in order.
fn chunk_pieces(b: &Vec<u8>) -> (r: Vec<Vec<u8>>)
    requires
        b@.len() % 20 == 0,
    ensures
        r@.len() == b@.len() / 20,
        Seq::new(r@.len(), |i: int| r@[i]@) == pieces_chunks(b@),
{
    let blen = b.len();
    let nchunks = blen / 20;
    let mut out: Vec<Vec<u8>> = Vec::new();
    let mut i: usize = 0;
    while i < nchunks
        invariant
            blen == b@.len(),
            b@.len() % 20 == 0,
            nchunks == b@.len() / 20,
            20 * nchunks == b@.len(),
            0 <= i <= nchunks,
            out@.len() == i,
            forall|x: int| 0 <= x < i as int ==> out@[x]@ == b@.subrange(20 * x, 20 * x + 20),
        decreases nchunks - i,
    {
        let base = i * 20;
        let mut piece: Vec<u8> = Vec::new();
        let mut j: usize = 0;
        while j < 20
            invariant
                blen == b@.len(),
                base == 20 * (i as int),
                base + 20 <= b@.len(),
                0 <= j <= 20,
                piece@ =~= b@.subrange(base as int, base as int + j as int),
            decreases 20 - j,
        {
            piece.push(b[base + j]);
            j = j + 1;
        }
        out.push(piece);
        i = i + 1;
    }
    proof {
        assert(Seq::new(out@.len(), |i: int| out@[i]@) =~= pieces_chunks(b@));
    }
    out
}

/// Map one file-entry dictionary to a [`FileListItem`], expecting one
/// non-negative `length` and one `path` list of text segments, ignoring
/// unrecognized keys.
pub fn map_file_entry(pairs: &Vec<(Vec<u8>, Value)>) -> (r: Result<FileListItem, TorrentError>)
    ensures
        ({
            let dp = deep_pairs(pairs@);
            &&& (r is Ok <==> entry_ok(dp))
            &&& (r matches Ok(item) ==> item@ == spec_entry(dp))
            &&& (r is Ok ==> spec_entry_error(dp) is None)
            &&& (r matches Err(e) ==> is_entry_error(e) && spec_entry_error(dp) == Some(e))
        }),
{
    proof {
        lemma_deep_pairs(pairs@);
    }
    let ghost dp = deep_pairs(pairs@);
    let mut length: Option<u64> = None;
    let mut path: Option<Vec<String>> = None;
    let mut idx: usize = 0;
    while idx < pairs.len()
        invariant
            0 <= idx <= pairs@.len(),
            dp == deep_pairs(pairs@),
            dp.len() == pairs@.len(),
            forall|j: int| 0 <= j < dp.len() ==> dp[j] == (pairs@[j].0@, pairs@[j].1.deep()),
            match length {
                Some(l) => key_count(dp.take(idx as int), key_length()) == 1 && (key_value(
                    dp.take(idx as int),
                    key_length(),
                ) matches SpecValue::Int(v) && v == l as int),
                None => key_count(dp.take(idx as int), key_length()) == 0,
            },
            match path {
                Some(p) => key_count(dp.take(idx as int), key_path()) == 1 && (key_value(
                    dp.take(idx as int),
                    key_path(),
                ) matches SpecValue::List(segs) && path_segments_ok(segs) && p@.len()
                    == segs.len() && Seq::new(p@.len(), |i: int| p@[i]@) == spec_path(segs)),
                None => key_count(dp.take(idx as int), key_path()) == 0,
            },
            entry_scan_error(dp, 0) == entry_scan_error(dp, idx as int),
        decreases pairs@.len() - idx,
    {
        let ghost dpt = dp.take(idx as int);
        let ghost cur = dp[idx as int];
        proof {
            lemma_keys_distinct();
            assert(cur == (pairs@[idx as int].0@, pairs@[idx as int].1.deep()));
            assert(dp.take(idx as int + 1) =~= dpt.push(cur));
            lemma_key_count_push(dpt, key_length(), cur);
            lemma_key_count_push(dpt, key_path(), cur);
            lemma_key_value_push(dpt, key_length(), cur);
            lemma_key_value_push(dpt, key_path(), cur);
            lemma_key_count_nonneg(dp.skip(idx as int + 1), key_length());
            lemma_key_count_nonneg(dp.skip(idx as int + 1), key_path());
            lemma_key_count_split(dp, key_length(), idx as int + 1);
            lemma_key_count_split(dp, key_path(), idx as int + 1);
        }
        let pair = &pairs[idx];
        match classify_key(&pair.0) {
            Some(KeyName::Length) => {
                if length.is_some() {
                    proof {
                        assert(entry_pair_error(dp, idx as int) == Some(
                            TorrentError::DuplicateKey(KeyName::Length),
                        ));
                        assert(entry_scan_error(dp, idx as int) == entry_pair_error(
                            dp,
                            idx as int,
                        ));
                    }
                    return Err(TorrentError::DuplicateKey(KeyName::Length));
                }
                match &pair.1 {
                    Value::Int(v) => {
                        if *v < 0 {
                            proof {
                                lemma_key_value_at(dp, key_length(), idx as int);
                                assert(cur.1 == SpecValue::Int(*v as int));
                                assert(entry_pair_error(dp, idx as int) == Some(
                                    TorrentError::WrongKind(
                                        KeyName::Length,
                                        ExpectedKind::Unsigned,
                                    ),
                                ));
                                assert(entry_scan_error(dp, idx as int) == entry_pair_error(
                                    dp,
                                    idx as int,
                                ));
                            }
                            return Err(
                                TorrentError::WrongKind(KeyName::Length, ExpectedKind::Unsigned),
                            );
                        }
                        length = Some(*v as u64);
                        proof {
                            assert(cur.1 == SpecValue::Int(*v as int));
                            assert(key_value(dp.take(idx as int + 1), key_length()) == cur.1);
                            assert(entry_pair_error(dp, idx as int) is None);
                            assert(entry_scan_error(dp, idx as int) == entry_scan_error(
                                dp,
                                idx as int + 1,
                            ));
                        }
                    },
                    _ => {
                        proof {
                            lemma_key_value_at(dp, key_length(), idx as int);
                            assert(!(cur.1 matches SpecValue::Int(l) && l >= 0));
                            assert(entry_pair_error(dp, idx as int) == Some(
                                TorrentError::WrongKind(KeyName::Length, ExpectedKind::Unsigned),
                            ));
                            assert(entry_scan_error(dp, idx as int) == entry_pair_error(
                                dp,
                                idx as int,
                            ));
                        }
                        return Err(
                            TorrentError::WrongKind(KeyName::Length, ExpectedKind::Unsigned),
                        );
                    },
                }
            },
            Some(KeyName::Path) => {
                if path.is_some() {
                    proof {
                        assert(entry_pair_error(dp, idx as int) == Some(
                            TorrentError::DuplicateKey(KeyName::Path),
                        ));
                        assert(entry_scan_error(dp, idx as int) == entry_pair_error(
                            dp,
                            idx as int,
                        ));
                    }
                    return Err(TorrentError::DuplicateKey(KeyName::Path));
                }
                match &pair.1 {
                    Value::List(segs) => {
                        proof {
                            lemma_key_value_at(dp, key_path(), idx as int);
                            assert(cur.1 == SpecValue::List(deep_elems(segs@)));
                        }
                        match map_path_segments(segs) {
                            Ok(p) => {
                                path = Some(p);
                                proof {
                                    lemma_deep_elems(segs@);
                                    assert(key_value(dp.take(idx as int + 1), key_path())
                                        == cur.1);
                                    assert(entry_pair_error(dp, idx as int) is None);
                                    assert(entry_scan_error(dp, idx as int)
                                        == entry_scan_error(dp, idx as int + 1));
                                }
                            },
                            Err(e) => {
                                proof {
                                    assert(entry_pair_error(dp, idx as int) == Some(e));
                                    assert(entry_scan_error(dp, idx as int) == Some(e));
                                }
                                return Err(e);
                            },
                        }
                    },
                    _ => {
                        proof {
                            lemma_key_value_at(dp, key_path(), idx as int);
                            assert(!(cur.1 is List));
                            assert(entry_pair_error(dp, idx as int) == Some(
                                TorrentError::WrongKind(
                                    KeyName::Path,
                                    ExpectedKind::ListOfValues,
                                ),
                            ));
                            assert(entry_scan_error(dp, idx as int) == entry_pair_error(
                                dp,
                                idx as int,
                            ));
                        }
                        return Err(
                            TorrentError::WrongKind(KeyName::Path, ExpectedKind::ListOfValues),
                        );
                    },
                }
            },
            _ => {
                proof {
                    assert(entry_pair_error(dp, idx as int) is None);
                    assert(entry_scan_error(dp, idx as int) == entry_scan_error(
                        dp,
                        idx as int + 1,
                    ));
                }
            },
        }
        idx = idx + 1;
    }
    proof {
        assert(dp.take(pairs@.len() as int) =~= dp);
        assert(entry_scan_error(dp, pairs@.len() as int) is None);
    }
    let l = match length {
        Some(l) => l,
        None => {
            return Err(TorrentError::MissingKey(KeyName::Length));
        },
    };
    let p = match path {
        Some(p) => p,
        None => {
            return Err(TorrentError::MissingKey(KeyName::Path));
        },
    };
    Ok(FileListItem { length: l, path: p })
}

/// Map each element of a decoded `files` list, which must all be
/// dictionaries, to a file entry, in order.
pub fn map_file_entries(items: &Vec<Value>) -> (r: Result<Vec<FileListItem>, TorrentError>)
    ensures
        ({
            let ds = deep_elems(items@);
            &&& (r is Ok <==> files_ok(ds))
            &&& (r matches Ok(v) ==> v@.len() == ds.len() && Seq::new(
                v@.len(),
                |i: int| v@[i]@,
            ) == spec_entries(ds))
            &&& (r is Ok ==> spec_entries_error(ds) is None)
            &&& (r matches Err(e) ==> (is_entry_error(e) || e == TorrentError::WrongKind(
                KeyName::Files,
                ExpectedKind::Dictionary,
            )) && spec_entries_error(ds) == Some(e))
        }),
{
    proof {
        lemma_deep_elems(items@);
    }
    let ghost ds = deep_elems(items@);
    let mut out: Vec<FileListItem> = Vec::new();
    let mut idx: usize = 0;
    while idx < items.len()
        invariant
            0 <= idx <= items@.len(),
            ds == deep_elems(items@),
            ds.len() == items@.len(),
            forall|j: int| 0 <= j < ds.len() ==> ds[j] == items@[j].deep(),
            out@.len() == idx,
            forall|j: int| #![trigger ds[j]]
                0 <= j < idx as int ==> (ds[j] matches SpecValue::Dict(ps) && entry_ok(ps)),
            forall|j: int| 0 <= j < idx as int ==> out@[j]@ == spec_entry(ds[j]->Dict_0),
            entries_scan_error(ds, 0) == entries_scan_error(ds, idx as int),
        decreases items@.len() - idx,
    {
        match &items[idx] {
            Value::Dict(ps) => {
                proof {
                    lemma_deep_pairs(ps@);
                    assert(ds[idx as int] == SpecValue::Dict(deep_pairs(ps@)));
                }
                match map_file_entry(ps) {
                    Ok(item) => {
                        out.push(item);
                        proof {
                            assert(entries_scan_error(ds, idx as int) == entries_scan_error(
                                ds,
                                idx as int + 1,
                            ));
                        }
                    },
                    Err(e) => {
                        proof {
                            assert(!files_ok(ds));
                            assert(entries_scan_error(ds, idx as int) == Some(e));
                        }
                        return Err(e);
                    },
                }
            },
            _ => {
                proof {
                    assert(ds[idx as int] == items@[idx as int].deep());
                    assert(!(ds[idx as int] is Dict));
                    assert(!files_ok(ds));
                    assert(entries_scan_error(ds, idx as int) == Some(
                        TorrentError::WrongKind(KeyName::Files, ExpectedKind::Dictionary),
                    ));
                }
                return Err(TorrentError::WrongKind(KeyName::Files, ExpectedKind::Dictionary));
            },
        }
        idx = idx + 1;
    }
    proof {
        assert(Seq::new(out@.len(), |i: int| out@[i]@) =~= spec_entries(ds));
        assert(entries_scan_error(ds, items@.len() as int) is None);
    }
    Ok(out)
}

/// Map the `info` dictionary to a [`MetaFileInfo`], expecting one `name`
/// of valid text, one non-negative `piece_length`, one `pieces` byte
/// string chunked into twenty-byte hashes, and exactly one of `length`
/// and `files`, ignoring unrecognized keys.
pub fn map_info(pairs: &Vec<(Vec<u8>, Value)>) -> (r: Result<MetaFileInfo, TorrentError>)
    ensures
        ({
            let dp = deep_pairs(pairs@);
            &&& (r is Ok <==> info_ok(dp))
            &&& (r matches Ok(m) ==> m@ == spec_info(dp))
            &&& (r is Ok ==> spec_info_error(dp) is None)
            &&& (r matches Err(e) ==> is_info_error(e) && spec_info_error(dp) == Some(e))
        }),
{
    proof {
        lemma_deep_pairs(pairs@);
    }
    let ghost dp = deep_pairs(pairs@);
    let mut name: Option<String> = None;
    let mut plen: Option<u64> = None;
    let mut hashes: Option<Vec<Vec<u8>>> = None;
    let mut single: Option<u64> = None;
    let mut multiple: Option<Vec<FileListItem>> = None;
    let mut idx: usize = 0;
    while idx < pairs.len()
        invariant
            0 <= idx <= pairs@.len(),
            dp == deep_pairs(pairs@),
            dp.len() == pairs@.len(),
            forall|j: int| 0 <= j < dp.len() ==> dp[j] == (pairs@[j].0@, pairs@[j].1.deep()),
            match name {
                Some(s) => key_count(dp.take(idx as int), key_name()) == 1 && (key_value(
                    dp.take(idx as int),
                    key_name(),
                ) matches SpecValue::Bytes(nb) && valid_utf8(nb) && s@
                    == vstd::utf8::decode_utf8(nb)),
                None => key_count(dp.take(idx as int), key_name()) == 0,
            },
            match plen {
                Some(l) => key_count(dp.take(idx as int), key_piece_length()) == 1 && (key_value(
                    dp.take(idx as int),
                    key_piece_length(),
                ) matches SpecValue::Int(v) && v == l as int),
                None => key_count(dp.take(idx as int), key_piece_length()) == 0,
            },
            match hashes {
                Some(hv) => key_count(dp.take(idx as int), key_pieces()) == 1 && (key_value(
                    dp.take(idx as int),
                    key_pieces(),
                ) matches SpecValue::Bytes(hb) && hb.len() % 20 == 0 && hv@.len() == hb.len()
                    / 20 && Seq::new(hv@.len(), |i: int| hv@[i]@) == pieces_chunks(hb)),
                None => key_count(dp.take(idx as int), key_pieces()) == 0,
            },
            match single {
                Some(l) => key_count(dp.take(idx as int), key_length()) == 1 && (key_value(
                    dp.take(idx as int),
                    key_length(),
                ) matches SpecValue::Int(v) && v == l as int),
                None => key_count(dp.take(idx as int), key_length()) == 0,
            },
            match multiple {
                Some(mv) => key_count(dp.take(idx as int), key_files()) == 1 && (key_value(
                    dp.take(idx as int),
                    key_files(),
                ) matches SpecValue::List(items) && files_ok(items) && mv@.len() == items.len()
                    && Seq::new(mv@.len(), |i: int| mv@[i]@) == spec_entries(items)),
                None => key_count(dp.take(idx as int), key_files()) == 0,
            },
            info_scan_error(dp, 0) == info_scan_error(dp, idx as int),
        decreases pairs@.len() - idx,
    {
        let ghost dpt = dp.take(idx as int);
        let ghost cur = dp[idx as int];
        proof {
            lemma_keys_distinct();
            assert(cur == (pairs@[idx as int].0@, pairs@[idx as int].1.deep()));
            assert(dp.take(idx as int + 1) =~= dpt.push(cur));
            lemma_key_count_push(dpt, key_name(), cur);
            lemma_key_count_push(dpt, key_piece_length(), cur);
            lemma_key_count_push(dpt, key_pieces(), cur);
            lemma_key_count_push(dpt, key_length(), cur);
            lemma_key_count_push(dpt, key_files(), cur);
            lemma_key_value_push(dpt, key_name(), cur);
            lemma_key_value_push(dpt, key_piece_length(), cur);
            lemma_key_value_push(dpt, key_pieces(), cur);
            lemma_key_value_push(dpt, key_length(), cur);
            lemma_key_value_push(dpt, key_files(), cur);
            lemma_key_count_nonneg(dp.skip(idx as int + 1), key_name());
            lemma_key_count_nonneg(dp.skip(idx as int + 1), key_piece_length());
            lemma_key_count_nonneg(dp.skip(idx as int + 1), key_pieces());
            lemma_key_count_nonneg(dp.skip(idx as int + 1), key_length());
            lemma_key_count_nonneg(dp.skip(idx as int + 1), key_files());
            lemma_key_count_split(dp, key_name(), idx as int + 1);
            lemma_key_count_split(dp, key_piece_length(), idx as int + 1);
            lemma_key_count_split(dp, key_pieces(), idx as int + 1);
            lemma_key_count_split(dp, key_length(), idx as int + 1);
            lemma_key_count_split(dp, key_files(), idx as int + 1);
        }
        let pair = &pairs[idx];
        match classify_key(&pair.0) {
            Some(KeyName::Name) => {
                if name.is_some() {
                    proof {
                        assert(info_pair_error(dp, idx as int) == Some(
                            TorrentError::DuplicateKey(KeyName::Name),
                        ));
                        assert(info_scan_error(dp, idx as int) == info_pair_error(
                            dp,
                            idx as int,
                        ));
                    }
                    return Err(TorrentError::DuplicateKey(KeyName::Name));
                }
                match &pair.1 {
                    Value::Bytes(b) => {
                        proof {
                            assert(cur.1 == SpecValue::Bytes(b@));
                            lemma_key_value_at(dp, key_name(), idx as int);
                        }
                        match bytes_to_text(b) {
                            Some(s) => {
                                name = Some(s);
                                proof {
                                    assert(info_pair_error(dp, idx as int) is None);
                                    assert(info_scan_error(dp, idx as int) == info_scan_error(
                                        dp,
                                        idx as int + 1,
                                    ));
                                }
                            },
                            None => {
                                proof {
                                    assert(info_pair_error(dp, idx as int) == Some(
                                        TorrentError::WrongKind(
                                            KeyName::Name,
                                            ExpectedKind::Text,
                                        ),
                                    ));
                                    assert(info_scan_error(dp, idx as int) == info_pair_error(
                                        dp,
                                        idx as int,
                                    ));
                                }
                                return Err(
                                    TorrentError::WrongKind(KeyName::Name, ExpectedKind::Text),
                                );
                            },
                        }
                    },
                    _ => {
                        proof {
                            lemma_key_value_at(dp, key_name(), idx as int);
                            assert(!(cur.1 matches SpecValue::Bytes(nb) && valid_utf8(nb)));
                            assert(info_pair_error(dp, idx as int) == Some(
                                TorrentError::WrongKind(KeyName::Name, ExpectedKind::Text),
                            ));
                            assert(info_scan_error(dp, idx as int) == info_pair_error(
                                dp,
                                idx as int,
                            ));
                        }
                        return Err(TorrentError::WrongKind(KeyName::Name, ExpectedKind::Text));
                    },
                }
            },
            Some(KeyName::PieceLength) => {
                if plen.is_some() {
                    proof {
                        assert(info_pair_error(dp, idx as int) == Some(
                            TorrentError::DuplicateKey(KeyName::PieceLength),
                        ));
                        assert(info_scan_error(dp, idx as int) == info_pair_error(
                            dp,
                            idx as int,
                        ));
                    }
                    return Err(TorrentError::DuplicateKey(KeyName::PieceLength));
                }
                match &pair.1 {
                    Value::Int(v) => {
                        if *v < 0 {
                            proof {
                                lemma_key_value_at(dp, key_piece_length(), idx as int);
                                assert(cur.1 == SpecValue::Int(*v as int));
                                assert(info_pair_error(dp, idx as int) == Some(
                                    TorrentError::WrongKind(
                                        KeyName::PieceLength,
                                        ExpectedKind::Unsigned,
                                    ),
                                ));
                                assert(info_scan_error(dp, idx as int) == info_pair_error(
                                    dp,
                                    idx as int,
                                ));
                            }
                            return Err(
                                TorrentError::WrongKind(
                                    KeyName::PieceLength,
                                    ExpectedKind::Unsigned,
                                ),
                            );
                        }
                        plen = Some(*v as u64);
                        proof {
                            assert(cur.1 == SpecValue::Int(*v as int));
                            assert(info_pair_error(dp, idx as int) is None);
                            assert(info_scan_error(dp, idx as int) == info_scan_error(
                                dp,
                                idx as int + 1,
                            ));
                        }
                    },
                    _ => {
                        proof {
                            lemma_key_value_at(dp, key_piece_length(), idx as int);
                            assert(!(cur.1 matches SpecValue::Int(pl) && pl >= 0));
                            assert(info_pair_error(dp, idx as int) == Some(
                                TorrentError::WrongKind(
                                    KeyName::PieceLength,
                                    ExpectedKind::Unsigned,
                                ),
                            ));
                            assert(info_scan_error(dp, idx as int) == info_pair_error(
                                dp,
                                idx as int,
                            ));
                        }
                        return Err(
                            TorrentError::WrongKind(KeyName::PieceLength, ExpectedKind::Unsigned),
                        );
                    },
                }
            },
            Some(KeyName::Pieces) => {
                if hashes.is_some() {
                    proof {
                        assert(info_pair_error(dp, idx as int) == Some(
                            TorrentError::DuplicateKey(KeyName::Pieces),
                        ));
                        assert(info_scan_error(dp, idx as int) == info_pair_error(
                            dp,
                            idx as int,
                        ));
                    }
                    return Err(TorrentError::DuplicateKey(KeyName::Pieces));
                }
                match &pair.1 {
                    Value::Bytes(b) => {
                        proof {
                            assert(cur.1 == SpecValue::Bytes(b@));
                            lemma_key_value_at(dp, key_pieces(), idx as int);
                        }
                        if b.len() % 20 != 0 {
                            proof {
                                assert(info_pair_error(dp, idx as int) == Some(
                                    TorrentError::PiecesLength,
                                ));
                                assert(info_scan_error(dp, idx as int) == info_pair_error(
                                    dp,
                                    idx as int,
                                ));
                            }
                            return Err(TorrentError::PiecesLength);
                        }
                        hashes = Some(chunk_pieces(b));
                        proof {
                            assert(info_pair_error(dp, idx as int) is None);
                            assert(info_scan_error(dp, idx as int) == info_scan_error(
                                dp,
                                idx as int + 1,
                            ));
                        }
                    },
                    _ => {
                        proof {
                            lemma_key_value_at(dp, key_pieces(), idx as int);
                            assert(!(cur.1 is Bytes));
                            assert(info_pair_error(dp, idx as int) == Some(
                                TorrentError::WrongKind(
                                    KeyName::Pieces,
                                    ExpectedKind::ByteString,
                                ),
                            ));
                            assert(info_scan_error(dp, idx as int) == info_pair_error(
                                dp,
                                idx as int,
                            ));
                        }
                        return Err(
                            TorrentError::WrongKind(KeyName::Pieces, ExpectedKind::ByteString),
                        );
                    },
                }
            },
            Some(KeyName::Length) => {
                if single.is_some() {
                    proof {
                        assert(info_pair_error(dp, idx as int) == Some(
                            TorrentError::DuplicateKey(KeyName::Length),
                        ));
                        assert(info_scan_error(dp, idx as int) == info_pair_error(
                            dp,
                            idx as int,
                        ));
                    }
                    return Err(TorrentError::DuplicateKey(KeyName::Length));
                }
                match &pair.1 {
                    Value::Int(v) => {
                        if *v < 0 {
                            proof {
                                lemma_key_value_at(dp, key_length(), idx as int);
                                lemma_key_count_nonneg(dp, key_files());
                                assert(cur.1 == SpecValue::Int(*v as int));
                                assert(info_pair_error(dp, idx as int) == Some(
                                    TorrentError::WrongKind(
                                        KeyName::Length,
                                        ExpectedKind::Unsigned,
                                    ),
                                ));
                                assert(info_scan_error(dp, idx as int) == info_pair_error(
                                    dp,
                                    idx as int,
                                ));
                            }
                            return Err(
                                TorrentError::WrongKind(KeyName::Length, ExpectedKind::Unsigned),
                            );
                        }
                        single = Some(*v as u64);
                        proof {
                            assert(cur.1 == SpecValue::Int(*v as int));
                            assert(info_pair_error(dp, idx as int) is None);
                            assert(info_scan_error(dp, idx as int) == info_scan_error(
                                dp,
                                idx as int + 1,
                            ));
                        }
                    },
                    _ => {
                        proof {
                            lemma_key_value_at(dp, key_length(), idx as int);
                            lemma_key_count_nonneg(dp, key_files());
                            assert(!(cur.1 matches SpecValue::Int(l) && l >= 0));
                            assert(info_pair_error(dp, idx as int) == Some(
                                TorrentError::WrongKind(
                                    KeyName::Length,
                                    ExpectedKind::Unsigned,
                                ),
                            ));
                            assert(info_scan_error(dp, idx as int) == info_pair_error(
                                dp,
                                idx as int,
                            ));
                        }
                        return Err(
                            TorrentError::WrongKind(KeyName::Length, ExpectedKind::Unsigned),
                        );
                    },
                }
            },
            Some(KeyName::Files) => {
                if multiple.is_some() {
                    proof {
                        lemma_key_count_nonneg(dp, key_length());
                        assert(info_pair_error(dp, idx as int) == Some(
                            TorrentError::DuplicateKey(KeyName::Files),
                        ));
                        assert(info_scan_error(dp, idx as int) == info_pair_error(
                            dp,
                            idx as int,
                        ));
                    }
                    return Err(TorrentError::DuplicateKey(KeyName::Files));
                }
                match &pair.1 {
                    Value::List(items) => {
                        proof {
                            lemma_deep_elems(items@);
                            assert(cur.1 == SpecValue::List(deep_elems(items@)));
                            lemma_key_value_at(dp, key_files(), idx as int);
                            lemma_key_count_nonneg(dp, key_length());
                        }
                        match map_file_entries(items) {
                            Ok(v) => {
                                multiple = Some(v);
                                proof {
                                    assert(info_pair_error(dp, idx as int) is None);
                                    assert(info_scan_error(dp, idx as int) == info_scan_error(
                                        dp,
                                        idx as int + 1,
                                    ));
                                }
                            },
                            Err(e) => {
                                proof {
                                    assert(info_pair_error(dp, idx as int) == Some(e));
                                    assert(info_scan_error(dp, idx as int) == Some(e));
                                }
                                return Err(e);
                            },
                        }
                    },
                    _ => {
                        proof {
                            lemma_key_value_at(dp, key_files(), idx as int);
                            lemma_key_count_nonneg(dp, key_length());
                            assert(!(cur.1 is List));
                            assert(info_pair_error(dp, idx as int) == Some(
                                TorrentError::WrongKind(
                                    KeyName::Files,
                                    ExpectedKind::ListOfValues,
                                ),
                            ));
                            assert(info_scan_error(dp, idx as int) == info_pair_error(
                                dp,
                                idx as int,
                            ));
                        }
                        return Err(
                            TorrentError::WrongKind(KeyName::Files, ExpectedKind::ListOfValues),
                        );
                    },
                }
            },
            _ => {
                proof {
                    assert(info_pair_error(dp, idx as int) is None);
                    assert(info_scan_error(dp, idx as int) == info_scan_error(
                        dp,
                        idx as int + 1,
                    ));
                }
            },
        }
        idx = idx + 1;
    }
    proof {
        assert(dp.take(pairs@.len() as int) =~= dp);
        assert(info_scan_error(dp, pairs@.len() as int) is None);
        lemma_key_count_nonneg(dp, key_length());
        lemma_key_count_nonneg(dp, key_files());
    }
    let nm = match name {
        Some(s) => s,
        None => {
            return Err(TorrentError::MissingKey(KeyName::Name));
        },
    };
    let pl = match plen {
        Some(l) => l,
        None => {
            return Err(TorrentError::MissingKey(KeyName::PieceLength));
        },
    };
    let hs = match hashes {
        Some(h) => h,
        None => {
            return Err(TorrentError::MissingKey(KeyName::Pieces));
        },
    };
    let file_list = match (single, multiple) {
        (Some(_), Some(_)) => {
            return Err(TorrentError::ExactlyOneOfLengthFiles);
        },
        (None, None) => {
            return Err(TorrentError::ExactlyOneOfLengthFiles);
        },
        (Some(l), None) => FileList::Single(l),
        (None, Some(v)) => FileList::Multiple(v),
    };
    let m = MetaFileInfo { name: nm, piece_length: pl, pieces: hs, file_list };
    proof {
        assert(m@.pieces =~= spec_info(dp).pieces);
        assert(m@.file_list =~= spec_info(dp).file_list);
        assert(m@ == spec_info(dp));
    }
    Ok(m)
}

/// Map the top-level dictionary to a [`TorrentFile`], expecting one
/// `announce` of valid text and one `info` dictionary, ignoring
/// unrecognized keys.
pub fn map_torrent(pairs: &Vec<(Vec<u8>, Value)>) -> (r: Result<TorrentFile, TorrentError>)
    ensures
        ({
            let dp = deep_pairs(pairs@);
            &&& (r is Ok <==> torrent_ok(dp))
            &&& (r matches Ok(t) ==> t@ == spec_torrent(dp))
            &&& (r is Ok ==> spec_torrent_error(dp) is None)
            &&& (r matches Err(e) ==> is_mapper_error(e) && spec_torrent_error(dp) == Some(e))
        }),
{
    proof {
        lemma_deep_pairs(pairs@);
    }
    let ghost dp = deep_pairs(pairs@);
    let mut announce: Option<String> = None;
    let mut info: Option<MetaFileInfo> = None;
    let mut idx: usize = 0;
    while idx < pairs.len()
        invariant
            0 <= idx <= pairs@.len(),
            dp == deep_pairs(pairs@),
            dp.len() == pairs@.len(),
            forall|j: int| 0 <= j < dp.len() ==> dp[j] == (pairs@[j].0@, pairs@[j].1.deep()),
            match announce {
                Some(s) => key_count(dp.take(idx as int), key_announce()) == 1 && (key_value(
                    dp.take(idx as int),
                    key_announce(),
                ) matches SpecValue::Bytes(ab) && valid_utf8(ab) && s@
                    == vstd::utf8::decode_utf8(ab)),
                None => key_count(dp.take(idx as int), key_announce()) == 0,
            },
            match info {
                Some(m) => key_count(dp.take(idx as int), key_info()) == 1 && (key_value(
                    dp.take(idx as int),
                    key_info(),
                ) matches SpecValue::Dict(ips) && info_ok(ips) && m@ == spec_info(ips)),
                None => key_count(dp.take(idx as int), key_info()) == 0,
            },
            torrent_scan_error(dp, 0) == torrent_scan_error(dp, idx as int),
        decreases pairs@.len() - idx,
    {
        let ghost dpt = dp.take(idx as int);
        let ghost cur = dp[idx as int];
        proof {
            lemma_keys_distinct();
            assert(cur == (pairs@[idx as int].0@, pairs@[idx as int].1.deep()));
            assert(dp.take(idx as int + 1) =~= dpt.push(cur));
            lemma_key_count_push(dpt, key_announce(), cur);
            lemma_key_count_push(dpt, key_info(), cur);
            lemma_key_value_push(dpt, key_announce(), cur);
            lemma_key_value_push(dpt, key_info(), cur);
            lemma_key_count_nonneg(dp.skip(idx as int + 1), key_announce());
            lemma_key_count_nonneg(dp.skip(idx as int + 1), key_info());
            lemma_key_count_split(dp, key_announce(), idx as int + 1);
            lemma_key_count_split(dp, key_info(), idx as int + 1);
        }
        let pair = &pairs[idx];
        match classify_key(&pair.0) {
            Some(KeyName::Announce) => {
                if announce.is_some() {
                    proof {
                        assert(torrent_pair_error(dp, idx as int) == Some(
                            TorrentError::DuplicateKey(KeyName::Announce),
                        ));
                        assert(torrent_scan_error(dp, idx as int) == torrent_pair_error(
                            dp,
                            idx as int,
                        ));
                    }
                    return Err(TorrentError::DuplicateKey(KeyName::Announce));
                }
                match &pair.1 {
                    Value::Bytes(b) => {
                        proof {
                            assert(cur.1 == SpecValue::Bytes(b@));
                            lemma_key_value_at(dp, key_announce(), idx as int);
                        }
                        match bytes_to_text(b) {
                            Some(s) => {
                                announce = Some(s);
                                proof {
                                    assert(torrent_pair_error(dp, idx as int) is None);
                                    assert(torrent_scan_error(dp, idx as int)
                                        == torrent_scan_error(dp, idx as int + 1));
                                }
                            },
                            None => {
                                proof {
                                    assert(torrent_pair_error(dp, idx as int) == Some(
                                        TorrentError::WrongKind(
                                            KeyName::Announce,
                                            ExpectedKind::Text,
                                        ),
                                    ));
                                    assert(torrent_scan_error(dp, idx as int)
                                        == torrent_pair_error(dp, idx as int));
                                }
                                return Err(
                                    TorrentError::WrongKind(
                                        KeyName::Announce,
                                        ExpectedKind::Text,
                                    ),
                                );
                            },
                        }
                    },
                    _ => {
                        proof {
                            lemma_key_value_at(dp, key_announce(), idx as int);
                            assert(!(cur.1 matches SpecValue::Bytes(ab) && valid_utf8(ab)));
                            assert(torrent_pair_error(dp, idx as int) == Some(
                                TorrentError::WrongKind(KeyName::Announce, ExpectedKind::Text),
                            ));
                            assert(torrent_scan_error(dp, idx as int) == torrent_pair_error(
                                dp,
                                idx as int,
                            ));
                        }
                        return Err(
                            TorrentError::WrongKind(KeyName::Announce, ExpectedKind::Text),
                        );
                    },
                }
            },
            Some(KeyName::Info) => {
                if info.is_some() {
                    proof {
                        assert(torrent_pair_error(dp, idx as int) == Some(
                            TorrentError::DuplicateKey(KeyName::Info),
                        ));
                        assert(torrent_scan_error(dp, idx as int) == torrent_pair_error(
                            dp,
                            idx as int,
                        ));
                    }
                    return Err(TorrentError::DuplicateKey(KeyName::Info));
                }
                match &pair.1 {
                    Value::Dict(ps) => {
                        proof {
                            lemma_deep_pairs(ps@);
                            assert(cur.1 == SpecValue::Dict(deep_pairs(ps@)));
                            lemma_key_value_at(dp, key_info(), idx as int);
                        }
                        match map_info(ps) {
                            Ok(m) => {
                                info = Some(m);
                                proof {
                                    assert(torrent_pair_error(dp, idx as int) is None);
                                    assert(torrent_scan_error(dp, idx as int)
                                        == torrent_scan_error(dp, idx as int + 1));
                                }
                            },
                            Err(e) => {
                                proof {
                                    assert(torrent_pair_error(dp, idx as int) == Some(e));
                                    assert(torrent_scan_error(dp, idx as int) == Some(e));
                                }
                                return Err(e);
                            },
                        }
                    },
                    _ => {
                        proof {
                            lemma_key_value_at(dp, key_info(), idx as int);
                            assert(!(cur.1 is Dict));
                            assert(torrent_pair_error(dp, idx as int) == Some(
                                TorrentError::WrongKind(
                                    KeyName::Info,
                                    ExpectedKind::Dictionary,
                                ),
                            ));
                            assert(torrent_scan_error(dp, idx as int) == torrent_pair_error(
                                dp,
                                idx as int,
                            ));
                        }
                        return Err(
                            TorrentError::WrongKind(KeyName::Info, ExpectedKind::Dictionary),
                        );
                    },
                }
            },
            _ => {
                proof {
                    assert(torrent_pair_error(dp, idx as int) is None);
                    assert(torrent_scan_error(dp, idx as int) == torrent_scan_error(
                        dp,
                        idx as int + 1,
                    ));
                }
            },
        }
        idx = idx + 1;
    }
    proof {
        assert(dp.take(pairs@.len() as int) =~= dp);
        assert(torrent_scan_error(dp, pairs@.len() as int) is None);
    }
    let a = match announce {
        Some(s) => s,
        None => {
            return Err(TorrentError::MissingKey(KeyName::Announce));
        },
    };
    let m = match info {
        Some(m) => m,
        None => {
            return Err(TorrentError::MissingKey(KeyName::Info));
        },
    };
    let t = TorrentFile { announce: a, info: m };
    proof {
        assert(t@ == spec_torrent(dp));
    }
    Ok(t)
}

} // verus!
