//! The validator: invariant checks over the fully built model.
//!
//! These are the business rules the wire format itself cannot express: a
//! syntactically valid descriptor can still be rejected here. The checks
//! run in a fixed order so the reported violation is deterministic:
//! pieces non-empty, piece length nonzero, then the file layout, entries
//! in their declared order with the path checked before the length.

use vstd::prelude::*;

use crate::errors::{is_invariant_error, TorrentError};
use crate::model::{FileList, SpecFileList, SpecFileListItem, SpecTorrentFile, TorrentFile};

verus! {

/// The first invariant violation of one file entry, if any: an empty
/// path, else a zero length.
pub open spec fn spec_entry_violation(item: SpecFileListItem) -> Option<TorrentError> {
    if item.path.len() == 0 {
        Some(TorrentError::EmptyPath)
    } else if item.length == 0 {
        Some(TorrentError::ZeroLength)
    } else {
        None
    }
}

/// The first invariant violation among the entries, in declared order.
pub open spec fn spec_entries_violation(items: Seq<SpecFileListItem>) -> Option<TorrentError>
    decreases items.len(),
{
    if items.len() == 0 {
        None
    } else if spec_entry_violation(items[0]) is Some {
        spec_entry_violation(items[0])
    } else {
        spec_entries_violation(items.drop_first())
    }
}

/// The first invariant violation of a model, in the validator's fixed
/// order.
pub open spec fn spec_validate(t: SpecTorrentFile) -> Option<TorrentError> {
    if t.info.pieces.len() == 0 {
        Some(TorrentError::EmptyPieces)
    } else if t.info.piece_length == 0 {
        Some(TorrentError::ZeroPieceLength)
    } else {
        match t.info.file_list {
            SpecFileList::Single(l) => if l == 0 {
                Some(TorrentError::ZeroLength)
            } else {
                None
            },
            SpecFileList::Multiple(items) => if items.len() == 0 {
                Some(TorrentError::EmptyFileList)
            } else {
                spec_entries_violation(items)
            },
        }
    }
}

/// A model on which every validator check passes.
pub open spec fn valid_torrent(t: SpecTorrentFile) -> bool {
    spec_validate(t) is None
}

/// Whatever the validator reports is one of the invariant violations.
pub proof fn lemma_entries_violation_variants(items: Seq<SpecFileListItem>)
    ensures
        spec_entries_violation(items) matches Some(e) ==> is_invariant_error(e),
    decreases items.len(),
{
    if items.len() > 0 {
        lemma_entries_violation_variants(items.drop_first());
    }
}

/// Whatever the validator reports is one of the invariant violations.
pub proof fn lemma_validate_variants(t: SpecTorrentFile)
    ensures
        spec_validate(t) matches Some(e) ==> is_invariant_error(e),
{
    match t.info.file_list {
        SpecFileList::Single(_) => {},
        SpecFileList::Multiple(items) => {
            lemma_entries_violation_variants(items);
        },
    }
}

/// Check the structural invariants of a fully built model, reporting the
/// first violation in the validator's fixed order. Never inspects raw
/// bytes; a pure function of the model.
pub fn validate_torrent(t: &TorrentFile) -> (r: Result<(), TorrentError>)
    ensures
        r is Ok <==> valid_torrent(t@),
        r matches Err(e) ==> spec_validate(t@) == Some(e) && is_invariant_error(e),
{
    proof {
        lemma_validate_variants(t@);
    }
    if t.info.pieces.len() == 0 {
        return Err(TorrentError::EmptyPieces);
    }
    if t.info.piece_length == 0 {
        return Err(TorrentError::ZeroPieceLength);
    }
    match &t.info.file_list {
        FileList::Single(l) => {
            if *l == 0 {
                Err(TorrentError::ZeroLength)
            } else {
                Ok(())
            }
        },
        FileList::Multiple(items) => {
            let ghost sitems = t@.info.file_list->Multiple_0;
            proof {
                assert(sitems.len() == items@.len());
            }
            if items.len() == 0 {
                return Err(TorrentError::EmptyFileList);
            }
            proof {
                assert(sitems.skip(0) =~= sitems);
            }
            let mut i: usize = 0;
            while i < items.len()
                invariant
                    0 <= i <= items@.len(),
                    t@.info.pieces.len() != 0,
                    t@.info.piece_length != 0,
                    sitems == t@.info.file_list->Multiple_0,
                    t@.info.file_list is Multiple,
                    sitems.len() == items@.len(),
                    forall|j: int| 0 <= j < sitems.len() ==> sitems[j] == items@[j]@,
                    spec_entries_violation(sitems) == spec_entries_violation(
                        sitems.skip(i as int),
                    ),
                decreases items@.len() - i,
            {
                proof {
                    assert(sitems.skip(i as int)[0] == sitems[i as int]);
                    assert(sitems.skip(i as int).drop_first() =~= sitems.skip(i as int + 1));
                }
                if items[i].path.len() == 0 {
                    proof {
                        assert(spec_entry_violation(sitems[i as int]) == Some(
                            TorrentError::EmptyPath,
                        ));
                        assert(spec_entries_violation(sitems.skip(i as int)) == Some(
                            TorrentError::EmptyPath,
                        ));
                    }
                    return Err(TorrentError::EmptyPath);
                }
                if items[i].length == 0 {
                    proof {
                        assert(spec_entry_violation(sitems[i as int]) == Some(
                            TorrentError::ZeroLength,
                        ));
                        assert(spec_entries_violation(sitems.skip(i as int)) == Some(
                            TorrentError::ZeroLength,
                        ));
                    }
                    return Err(TorrentError::ZeroLength);
                }
                i = i + 1;
            }
            proof {
                assert(sitems.skip(items@.len() as int) =~= Seq::<SpecFileListItem>::empty());
            }
            Ok(())
        },
    }
}

} // verus!
