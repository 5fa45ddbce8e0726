//! The descriptor schema, mathematically.
//!
//! A decoded dictionary is a sequence of key/value pairs in buffer order.
//! The schema is stated through two lookups: how often a key occurs
//! ([`key_count`]) and the value at its first occurrence ([`key_value`]).
//! On top of them sit the acceptance predicates — which pair sequences map
//! to a model — and the builders giving the model they map to.

use vstd::prelude::*;
use vstd::utf8::{decode_utf8, valid_utf8};

use crate::errors::{ExpectedKind, KeyName, TorrentError};
use crate::value::SpecValue;
use crate::model::{SpecFileList, SpecFileListItem, SpecMetaFileInfo, SpecTorrentFile};

verus! {

/// The bytes of the key `announce`.
pub open spec fn key_announce() -> Seq<u8> {
    seq![97u8, 110u8, 110u8, 111u8, 117u8, 110u8, 99u8, 101u8]
}

/// The bytes of the key `info`.
pub open spec fn key_info() -> Seq<u8> {
    seq![105u8, 110u8, 102u8, 111u8]
}

/// The bytes of the key `name`.
pub open spec fn key_name() -> Seq<u8> {
    seq![110u8, 97u8, 109u8, 101u8]
}

/// The bytes of the key `piece_length`.
pub open spec fn key_piece_length() -> Seq<u8> {
    seq![112u8, 105u8, 101u8, 99u8, 101u8, 95u8, 108u8, 101u8, 110u8, 103u8, 116u8, 104u8]
}

/// The bytes of the key `pieces`.
pub open spec fn key_pieces() -> Seq<u8> {
    seq![112u8, 105u8, 101u8, 99u8, 101u8, 115u8]
}

/// The bytes of the key `length`.
pub open spec fn key_length() -> Seq<u8> {
    seq![108u8, 101u8, 110u8, 103u8, 116u8, 104u8]
}

/// The bytes of the key `files`.
pub open spec fn key_files() -> Seq<u8> {
    seq![102u8, 105u8, 108u8, 101u8, 115u8]
}

/// The bytes of the key `path`.
pub open spec fn key_path() -> Seq<u8> {
    seq![112u8, 97u8, 116u8, 104u8]
}

/// How many pairs of `ps` carry the key `k`.
pub open spec fn key_count(ps: Seq<(Seq<u8>, SpecValue)>, k: Seq<u8>) -> int
    decreases ps.len(),
{
    if ps.len() == 0 {
        0
    } else {
        (if ps[0].0 == k {
            1int
        } else {
            0int
        }) + key_count(ps.drop_first(), k)
    }
}

/// The value at the first occurrence of the key `k` in `ps`.
pub open spec fn key_value(ps: Seq<(Seq<u8>, SpecValue)>, k: Seq<u8>) -> SpecValue
    decreases ps.len(),
{
    if ps.len() == 0 {
        SpecValue::Int(0)
    } else if ps[0].0 == k {
        ps[0].1
    } else {
        key_value(ps.drop_first(), k)
    }
}

/// A key count is never negative.
pub proof fn lemma_key_count_nonneg(ps: Seq<(Seq<u8>, SpecValue)>, k: Seq<u8>)
    ensures
        key_count(ps, k) >= 0,
    decreases ps.len(),
{
    if ps.len() > 0 {
        lemma_key_count_nonneg(ps.drop_first(), k);
    }
}

/// Appending one pair raises the count of its own key by one and leaves
/// every other count unchanged.
pub proof fn lemma_key_count_push(
    ps: Seq<(Seq<u8>, SpecValue)>,
    k: Seq<u8>,
    p: (Seq<u8>, SpecValue),
)
    ensures
        key_count(ps.push(p), k) == key_count(ps, k) + (if p.0 == k {
            1int
        } else {
            0int
        }),
    decreases ps.len(),
{
    if ps.len() == 0 {
        assert(ps.push(p)[0] == p);
        assert(ps.push(p).drop_first() =~= Seq::<(Seq<u8>, SpecValue)>::empty());
        assert(key_count(Seq::<(Seq<u8>, SpecValue)>::empty(), k) == 0);
    } else {
        assert(ps.push(p)[0] == ps[0]);
        assert(ps.push(p).drop_first() =~= ps.drop_first().push(p));
        lemma_key_count_push(ps.drop_first(), k, p);
    }
}

/// Appending one pair never changes the first occurrence of a key that
/// already occurs, and becomes the first occurrence of its own key where
/// that key did not occur yet.
pub proof fn lemma_key_value_push(
    ps: Seq<(Seq<u8>, SpecValue)>,
    k: Seq<u8>,
    p: (Seq<u8>, SpecValue),
)
    ensures
        key_count(ps, k) >= 1 ==> key_value(ps.push(p), k) == key_value(ps, k),
        key_count(ps, k) == 0 && p.0 == k ==> key_value(ps.push(p), k) == p.1,
    decreases ps.len(),
{
    lemma_key_count_nonneg(ps, k);
    if ps.len() == 0 {
        assert(ps.push(p)[0] == p);
    } else {
        assert(ps.push(p)[0] == ps[0]);
        assert(ps.push(p).drop_first() =~= ps.drop_first().push(p));
        lemma_key_count_nonneg(ps.drop_first(), k);
        lemma_key_value_push(ps.drop_first(), k, p);
    }
}

/// A key's occurrences split over any cut of the sequence.
pub proof fn lemma_key_count_split(ps: Seq<(Seq<u8>, SpecValue)>, k: Seq<u8>, i: int)
    requires
        0 <= i <= ps.len(),
    ensures
        key_count(ps, k) == key_count(ps.take(i), k) + key_count(ps.skip(i), k),
    decreases i,
{
    if i == 0 {
        assert(ps.take(0) =~= Seq::<(Seq<u8>, SpecValue)>::empty());
        assert(ps.skip(0) =~= ps);
    } else {
        lemma_key_count_split(ps, k, i - 1);
        assert(ps.take(i) =~= ps.take(i - 1).push(ps[i - 1]));
        lemma_key_count_push(ps.take(i - 1), k, ps[i - 1]);
        assert(ps.skip(i - 1).drop_first() =~= ps.skip(i));
        assert(ps.skip(i - 1)[0] == ps[i - 1]);
    }
}

/// Where no earlier pair carries the key, position `i` is the key's first
/// occurrence: the lookup returns its value.
pub proof fn lemma_key_value_at(ps: Seq<(Seq<u8>, SpecValue)>, k: Seq<u8>, i: int)
    requires
        0 <= i < ps.len(),
        ps[i].0 == k,
        key_count(ps.take(i), k) == 0,
    ensures
        key_count(ps, k) >= 1,
        key_value(ps, k) == ps[i].1,
    decreases i,
{
    lemma_key_count_nonneg(ps.drop_first(), k);
    if i == 0 {
        lemma_key_count_nonneg(ps, k);
    } else {
        assert(ps.take(i)[0] == ps[0]);
        lemma_key_count_nonneg(ps.take(i).drop_first(), k);
        assert(ps[0].0 != k);
        assert(ps.drop_first().take(i - 1) =~= ps.take(i).drop_first());
        lemma_key_value_at(ps.drop_first(), k, i - 1);
    }
}

/// The recognized keys of a file entry, accepted with their expected
/// kinds: one `length` that is a non-negative integer, and one `path`
/// whose value is a list of valid text segments. Other keys are ignored.
pub open spec fn entry_ok(ps: Seq<(Seq<u8>, SpecValue)>) -> bool {
    &&& key_count(ps, key_length()) == 1
    &&& key_value(ps, key_length()) matches SpecValue::Int(l) && l >= 0
    &&& key_count(ps, key_path()) == 1
    &&& key_value(ps, key_path()) matches SpecValue::List(segs) && path_segments_ok(segs)
}

/// Every path segment is a byte string holding valid UTF-8.
pub open spec fn path_segments_ok(segs: Seq<SpecValue>) -> bool {
    forall|i: int| #![trigger segs[i]]
        0 <= i < segs.len() ==> (segs[i] matches SpecValue::Bytes(b) && valid_utf8(b))
}

/// The entry a file-entry dictionary maps to.
pub open spec fn spec_entry(ps: Seq<(Seq<u8>, SpecValue)>) -> SpecFileListItem {
    SpecFileListItem {
        length: key_value(ps, key_length())->Int_0,
        path: spec_path(key_value(ps, key_path())->List_0),
    }
}

/// The text segments a decoded path list maps to.
pub open spec fn spec_path(segs: Seq<SpecValue>) -> Seq<Seq<char>> {
    Seq::new(segs.len(), |i: int| decode_utf8(segs[i]->Bytes_0))
}

/// Every element of `files` is a dictionary that is an acceptable file
/// entry.
pub open spec fn files_ok(items: Seq<SpecValue>) -> bool {
    forall|i: int| #![trigger items[i]]
        0 <= i < items.len() ==> (items[i] matches SpecValue::Dict(ps) && entry_ok(ps))
}

/// The entries a decoded `files` list maps to.
pub open spec fn spec_entries(items: Seq<SpecValue>) -> Seq<SpecFileListItem> {
    Seq::new(items.len(), |i: int| spec_entry(items[i]->Dict_0))
}

/// The recognized keys of the `info` dictionary, accepted with their
/// expected kinds: one `name` holding valid text, one non-negative
/// `piece_length`, one `pieces` whose byte length is a multiple of
/// twenty, and exactly one of a non-negative `length` or a list of
/// acceptable `files` entries. Other keys are ignored.
pub open spec fn info_ok(ps: Seq<(Seq<u8>, SpecValue)>) -> bool {
    &&& key_count(ps, key_name()) == 1
    &&& key_value(ps, key_name()) matches SpecValue::Bytes(nb) && valid_utf8(nb)
    &&& key_count(ps, key_piece_length()) == 1
    &&& key_value(ps, key_piece_length()) matches SpecValue::Int(pl) && pl >= 0
    &&& key_count(ps, key_pieces()) == 1
    &&& key_value(ps, key_pieces()) matches SpecValue::Bytes(hb) && hb.len() % 20 == 0
    &&& key_count(ps, key_length()) + key_count(ps, key_files()) == 1
    &&& (key_count(ps, key_length()) == 1 ==> (key_value(ps, key_length()) matches
        SpecValue::Int(l) && l >= 0))
    &&& (key_count(ps, key_files()) == 1 ==> (key_value(ps, key_files()) matches
        SpecValue::List(items) && files_ok(items)))
}

/// The twenty-byte chunks of the `pieces` byte string, in order.
pub open spec fn pieces_chunks(b: Seq<u8>) -> Seq<Seq<u8>> {
    Seq::new(b.len() / 20, |i: int| b.subrange(20 * i, 20 * i + 20))
}

/// The `info` section an acceptable `info` dictionary maps to.
pub open spec fn spec_info(ps: Seq<(Seq<u8>, SpecValue)>) -> SpecMetaFileInfo {
    SpecMetaFileInfo {
        name: decode_utf8(key_value(ps, key_name())->Bytes_0),
        piece_length: key_value(ps, key_piece_length())->Int_0,
        pieces: pieces_chunks(key_value(ps, key_pieces())->Bytes_0),
        file_list: if key_count(ps, key_length()) == 1 {
            SpecFileList::Single(key_value(ps, key_length())->Int_0)
        } else {
            SpecFileList::Multiple(spec_entries(key_value(ps, key_files())->List_0))
        },
    }
}

/// The recognized keys of the top-level dictionary: one `announce`
/// holding valid text and one `info` dictionary that is acceptable.
/// Other keys are ignored.
pub open spec fn torrent_ok(ps: Seq<(Seq<u8>, SpecValue)>) -> bool {
    &&& key_count(ps, key_announce()) == 1
    &&& key_value(ps, key_announce()) matches SpecValue::Bytes(ab) && valid_utf8(ab)
    &&& key_count(ps, key_info()) == 1
    &&& key_value(ps, key_info()) matches SpecValue::Dict(ips) && info_ok(ips)
}

/// The descriptor an acceptable top-level dictionary maps to.
pub open spec fn spec_torrent(ps: Seq<(Seq<u8>, SpecValue)>) -> SpecTorrentFile {
    SpecTorrentFile {
        announce: decode_utf8(key_value(ps, key_announce())->Bytes_0),
        info: spec_info(key_value(ps, key_info())->Dict_0),
    }
}

/// The error the mapper raises at pair `i` of a file-entry dictionary,
/// given the pairs before it: a repeated recognized key, or a recognized
/// key whose value has the wrong kind. `None` for an acceptable or
/// unrecognized pair.
pub open spec fn entry_pair_error(ps: Seq<(Seq<u8>, SpecValue)>, i: int) -> Option<TorrentError> {
    let k = ps[i].0;
    let v = ps[i].1;
    if k == key_length() {
        if key_count(ps.take(i), key_length()) >= 1 {
            Some(TorrentError::DuplicateKey(KeyName::Length))
        } else if !(v matches SpecValue::Int(l) && l >= 0) {
            Some(TorrentError::WrongKind(KeyName::Length, ExpectedKind::Unsigned))
        } else {
            None
        }
    } else if k == key_path() {
        if key_count(ps.take(i), key_path()) >= 1 {
            Some(TorrentError::DuplicateKey(KeyName::Path))
        } else if !(v is List) {
            Some(TorrentError::WrongKind(KeyName::Path, ExpectedKind::ListOfValues))
        } else if !path_segments_ok(v->List_0) {
            Some(TorrentError::WrongKind(KeyName::Path, ExpectedKind::Text))
        } else {
            None
        }
    } else {
        None
    }
}

/// The first error of the file-entry walk from pair `i` on.
pub open spec fn entry_scan_error(ps: Seq<(Seq<u8>, SpecValue)>, i: int) -> Option<TorrentError>
    decreases ps.len() - i,
{
    if i < 0 || i >= ps.len() {
        None
    } else if entry_pair_error(ps, i) is Some {
        entry_pair_error(ps, i)
    } else {
        entry_scan_error(ps, i + 1)
    }
}

/// The error a file-entry dictionary is rejected with, `None` where the
/// mapper accepts it: the first error met while walking the pairs in
/// buffer order, else the first missing required key, `length` before
/// `path`.
pub open spec fn spec_entry_error(ps: Seq<(Seq<u8>, SpecValue)>) -> Option<TorrentError> {
    if entry_scan_error(ps, 0) is Some {
        entry_scan_error(ps, 0)
    } else if key_count(ps, key_length()) == 0 {
        Some(TorrentError::MissingKey(KeyName::Length))
    } else if key_count(ps, key_path()) == 0 {
        Some(TorrentError::MissingKey(KeyName::Path))
    } else {
        None
    }
}

/// The first error of the `files` walk from element `j` on: an element
/// that is not a dictionary, else the element's own first error.
pub open spec fn entries_scan_error(items: Seq<SpecValue>, j: int) -> Option<TorrentError>
    decreases items.len() - j,
{
    if j < 0 || j >= items.len() {
        None
    } else if !(items[j] is Dict) {
        Some(TorrentError::WrongKind(KeyName::Files, ExpectedKind::Dictionary))
    } else if spec_entry_error(items[j]->Dict_0) is Some {
        spec_entry_error(items[j]->Dict_0)
    } else {
        entries_scan_error(items, j + 1)
    }
}

/// The error a `files` list is rejected with, `None` where every element
/// maps: elements are checked in declared order.
pub open spec fn spec_entries_error(items: Seq<SpecValue>) -> Option<TorrentError> {
    entries_scan_error(items, 0)
}

/// The error the mapper raises at pair `i` of the `info` dictionary,
/// given the pairs before it.
pub open spec fn info_pair_error(ps: Seq<(Seq<u8>, SpecValue)>, i: int) -> Option<TorrentError> {
    let k = ps[i].0;
    let v = ps[i].1;
    if k == key_name() {
        if key_count(ps.take(i), key_name()) >= 1 {
            Some(TorrentError::DuplicateKey(KeyName::Name))
        } else if !(v matches SpecValue::Bytes(nb) && valid_utf8(nb)) {
            Some(TorrentError::WrongKind(KeyName::Name, ExpectedKind::Text))
        } else {
            None
        }
    } else if k == key_piece_length() {
        if key_count(ps.take(i), key_piece_length()) >= 1 {
            Some(TorrentError::DuplicateKey(KeyName::PieceLength))
        } else if !(v matches SpecValue::Int(pl) && pl >= 0) {
            Some(TorrentError::WrongKind(KeyName::PieceLength, ExpectedKind::Unsigned))
        } else {
            None
        }
    } else if k == key_pieces() {
        if key_count(ps.take(i), key_pieces()) >= 1 {
            Some(TorrentError::DuplicateKey(KeyName::Pieces))
        } else if !(v is Bytes) {
            Some(TorrentError::WrongKind(KeyName::Pieces, ExpectedKind::ByteString))
        } else if v->Bytes_0.len() % 20 != 0 {
            Some(TorrentError::PiecesLength)
        } else {
            None
        }
    } else if k == key_length() {
        if key_count(ps.take(i), key_length()) >= 1 {
            Some(TorrentError::DuplicateKey(KeyName::Length))
        } else if !(v matches SpecValue::Int(l) && l >= 0) {
            Some(TorrentError::WrongKind(KeyName::Length, ExpectedKind::Unsigned))
        } else {
            None
        }
    } else if k == key_files() {
        if key_count(ps.take(i), key_files()) >= 1 {
            Some(TorrentError::DuplicateKey(KeyName::Files))
        } else if !(v is List) {
            Some(TorrentError::WrongKind(KeyName::Files, ExpectedKind::ListOfValues))
        } else {
            spec_entries_error(v->List_0)
        }
    } else {
        None
    }
}

/// The first error of the `info` walk from pair `i` on.
pub open spec fn info_scan_error(ps: Seq<(Seq<u8>, SpecValue)>, i: int) -> Option<TorrentError>
    decreases ps.len() - i,
{
    if i < 0 || i >= ps.len() {
        None
    } else if info_pair_error(ps, i) is Some {
        info_pair_error(ps, i)
    } else {
        info_scan_error(ps, i + 1)
    }
}

/// The error an `info` dictionary is rejected with, `None` where the
/// mapper accepts it: the first error met while walking the pairs in
/// buffer order; else the first missing required key, `name`, then
/// `piece_length`, then `pieces`; else the dedicated error where not
/// exactly one of `length` and `files` occurred.
pub open spec fn spec_info_error(ps: Seq<(Seq<u8>, SpecValue)>) -> Option<TorrentError> {
    if info_scan_error(ps, 0) is Some {
        info_scan_error(ps, 0)
    } else if key_count(ps, key_name()) == 0 {
        Some(TorrentError::MissingKey(KeyName::Name))
    } else if key_count(ps, key_piece_length()) == 0 {
        Some(TorrentError::MissingKey(KeyName::PieceLength))
    } else if key_count(ps, key_pieces()) == 0 {
        Some(TorrentError::MissingKey(KeyName::Pieces))
    } else if key_count(ps, key_length()) + key_count(ps, key_files()) != 1 {
        Some(TorrentError::ExactlyOneOfLengthFiles)
    } else {
        None
    }
}

/// The error the mapper raises at pair `i` of the top-level dictionary,
/// given the pairs before it.
pub open spec fn torrent_pair_error(ps: Seq<(Seq<u8>, SpecValue)>, i: int) -> Option<
    TorrentError,
> {
    let k = ps[i].0;
    let v = ps[i].1;
    if k == key_announce() {
        if key_count(ps.take(i), key_announce()) >= 1 {
            Some(TorrentError::DuplicateKey(KeyName::Announce))
        } else if !(v matches SpecValue::Bytes(ab) && valid_utf8(ab)) {
            Some(TorrentError::WrongKind(KeyName::Announce, ExpectedKind::Text))
        } else {
            None
        }
    } else if k == key_info() {
        if key_count(ps.take(i), key_info()) >= 1 {
            Some(TorrentError::DuplicateKey(KeyName::Info))
        } else if !(v is Dict) {
            Some(TorrentError::WrongKind(KeyName::Info, ExpectedKind::Dictionary))
        } else {
            spec_info_error(v->Dict_0)
        }
    } else {
        None
    }
}

/// The first error of the top-level walk from pair `i` on.
pub open spec fn torrent_scan_error(ps: Seq<(Seq<u8>, SpecValue)>, i: int) -> Option<
    TorrentError,
>
    decreases ps.len() - i,
{
    if i < 0 || i >= ps.len() {
        None
    } else if torrent_pair_error(ps, i) is Some {
        torrent_pair_error(ps, i)
    } else {
        torrent_scan_error(ps, i + 1)
    }
}

/// The error a top-level dictionary is rejected with, `None` where the
/// mapper accepts it: the first error met while walking the pairs in
/// buffer order, else the first missing required key, `announce` before
/// `info`.
pub open spec fn spec_torrent_error(ps: Seq<(Seq<u8>, SpecValue)>) -> Option<TorrentError> {
    if torrent_scan_error(ps, 0) is Some {
        torrent_scan_error(ps, 0)
    } else if key_count(ps, key_announce()) == 0 {
        Some(TorrentError::MissingKey(KeyName::Announce))
    } else if key_count(ps, key_info()) == 0 {
        Some(TorrentError::MissingKey(KeyName::Info))
    } else {
        None
    }
}

} // verus!
