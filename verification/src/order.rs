//! Order-independence of the schema mapper.
//!
//! A dictionary's pairs arrive in buffer order, but the mapper's outcome
//! is stated through key lookups alone. The laws here make that precise:
//! for any two pair sequences holding the same pairs — one a permutation
//! of the other — an acceptable dictionary stays acceptable and maps to
//! the very same model, at every level of the schema.

use vstd::prelude::*;

use crate::schema::{
    entry_ok, info_ok, key_announce, key_count, key_files, key_info, key_length, key_name,
    key_path, key_piece_length, key_pieces, key_value, lemma_key_count_nonneg, spec_entry,
    spec_info, spec_torrent, torrent_ok,
};
use crate::value::SpecValue;

verus! {

/// A pair whose key is `k` forces the count of `k` above zero.
proof fn lemma_key_count_lower(ps: Seq<(Seq<u8>, SpecValue)>, k: Seq<u8>, i: int)
    requires
        0 <= i < ps.len(),
        ps[i].0 == k,
    ensures
        key_count(ps, k) >= 1,
    decreases i,
{
    lemma_key_count_nonneg(ps.drop_first(), k);
    if i > 0 {
        assert(ps.drop_first()[i - 1] == ps[i]);
        lemma_key_count_lower(ps.drop_first(), k, i - 1);
    }
}

/// Removing one pair lowers its own key's count by one and leaves every
/// other count unchanged.
proof fn lemma_key_count_remove(ps: Seq<(Seq<u8>, SpecValue)>, k: Seq<u8>, j: int)
    requires
        0 <= j < ps.len(),
    ensures
        key_count(ps.remove(j), k) == key_count(ps, k) - (if ps[j].0 == k {
            1int
        } else {
            0int
        }),
    decreases j,
{
    if j == 0 {
        assert(ps.remove(0) =~= ps.drop_first());
    } else {
        assert(ps.remove(j)[0] == ps[0]);
        assert(ps.remove(j).drop_first() =~= ps.drop_first().remove(j - 1));
        assert(ps.drop_first()[j - 1] == ps[j]);
        lemma_key_count_remove(ps.drop_first(), k, j - 1);
    }
}

/// Where a key occurs exactly once, the lookup returns the value of any
/// pair that carries it.
proof fn lemma_key_value_unique(ps: Seq<(Seq<u8>, SpecValue)>, k: Seq<u8>, i: int)
    requires
        key_count(ps, k) == 1,
        0 <= i < ps.len(),
        ps[i].0 == k,
    ensures
        key_value(ps, k) == ps[i].1,
    decreases i,
{
    lemma_key_count_nonneg(ps.drop_first(), k);
    if i > 0 {
        assert(ps.drop_first()[i - 1] == ps[i]);
        lemma_key_count_lower(ps.drop_first(), k, i - 1);
        assert(ps[0].0 != k);
        lemma_key_value_unique(ps.drop_first(), k, i - 1);
    }
}

/// Where a key occurs at all, some pair carries it together with the
/// value the lookup returns.
proof fn lemma_key_value_witness(ps: Seq<(Seq<u8>, SpecValue)>, k: Seq<u8>)
    requires
        key_count(ps, k) >= 1,
    ensures
        exists|i: int|
            0 <= i < ps.len() && #[trigger] ps[i].0 == k && ps[i].1 == key_value(ps, k),
    decreases ps.len(),
{
    lemma_key_count_nonneg(ps.drop_first(), k);
    if ps[0].0 == k {
        assert(ps[0].0 == k && ps[0].1 == key_value(ps, k));
    } else {
        lemma_key_value_witness(ps.drop_first(), k);
        let i = choose|i: int|
            0 <= i < ps.drop_first().len() && #[trigger] ps.drop_first()[i].0 == k
                && ps.drop_first()[i].1 == key_value(ps.drop_first(), k);
        assert(ps[i + 1] == ps.drop_first()[i]);
        assert(ps[i + 1].0 == k && ps[i + 1].1 == key_value(ps, k));
    }
}

/// Two sequences holding the same pairs give every key the same count.
pub proof fn lemma_key_count_permutation(
    ps1: Seq<(Seq<u8>, SpecValue)>,
    ps2: Seq<(Seq<u8>, SpecValue)>,
    k: Seq<u8>,
)
    requires
        ps1.to_multiset() == ps2.to_multiset(),
    ensures
        key_count(ps1, k) == key_count(ps2, k),
    decreases ps1.len(),
{
    ps1.to_multiset_ensures();
    ps2.to_multiset_ensures();
    if ps1.len() == 0 {
        assert(ps2.len() == 0);
    } else {
        let p0 = ps1[0];
        assert(ps1.contains(p0));
        assert(ps2.to_multiset().count(p0) > 0);
        assert(ps2.contains(p0));
        let j = choose|j: int| 0 <= j < ps2.len() && ps2[j] == p0;
        let r1 = ps1.remove(0);
        let r2 = ps2.remove(j);
        assert(r1.to_multiset() =~= ps1.to_multiset().remove(p0));
        assert(r2.to_multiset() =~= ps2.to_multiset().remove(p0));
        assert(r1.to_multiset() == r2.to_multiset());
        lemma_key_count_permutation(r1, r2, k);
        assert(ps1.remove(0) =~= ps1.drop_first());
        lemma_key_count_remove(ps2, k, j);
    }
}

/// Two sequences holding the same pairs agree on the value of a key that
/// occurs exactly once.
pub proof fn lemma_key_value_permutation(
    ps1: Seq<(Seq<u8>, SpecValue)>,
    ps2: Seq<(Seq<u8>, SpecValue)>,
    k: Seq<u8>,
)
    requires
        ps1.to_multiset() == ps2.to_multiset(),
        key_count(ps1, k) == 1,
    ensures
        key_count(ps2, k) == 1,
        key_value(ps2, k) == key_value(ps1, k),
{
    lemma_key_count_permutation(ps1, ps2, k);
    lemma_key_value_witness(ps1, k);
    let i = choose|i: int|
        0 <= i < ps1.len() && #[trigger] ps1[i].0 == k && ps1[i].1 == key_value(ps1, k);
    let p = ps1[i];
    ps1.to_multiset_ensures();
    ps2.to_multiset_ensures();
    assert(ps1.contains(p));
    assert(ps2.to_multiset().count(p) > 0);
    assert(ps2.contains(p));
    let j = choose|j: int| 0 <= j < ps2.len() && ps2[j] == p;
    lemma_key_value_unique(ps2, k, j);
}

/// Law: a file-entry dictionary that the mapper accepts is accepted with
/// its pairs in any other order, and maps to the same entry.
pub proof fn lemma_entry_mapping_order_independent(
    ps1: Seq<(Seq<u8>, SpecValue)>,
    ps2: Seq<(Seq<u8>, SpecValue)>,
)
    requires
        ps1.to_multiset() == ps2.to_multiset(),
        entry_ok(ps1),
    ensures
        entry_ok(ps2),
        spec_entry(ps2) == spec_entry(ps1),
{
    lemma_key_value_permutation(ps1, ps2, key_length());
    lemma_key_value_permutation(ps1, ps2, key_path());
}

/// Law: an `info` dictionary that the mapper accepts is accepted with
/// its pairs in any other order, and maps to the same `info` section.
pub proof fn lemma_info_mapping_order_independent(
    ps1: Seq<(Seq<u8>, SpecValue)>,
    ps2: Seq<(Seq<u8>, SpecValue)>,
)
    requires
        ps1.to_multiset() == ps2.to_multiset(),
        info_ok(ps1),
    ensures
        info_ok(ps2),
        spec_info(ps2) == spec_info(ps1),
{
    lemma_key_value_permutation(ps1, ps2, key_name());
    lemma_key_value_permutation(ps1, ps2, key_piece_length());
    lemma_key_value_permutation(ps1, ps2, key_pieces());
    lemma_key_count_permutation(ps1, ps2, key_length());
    lemma_key_count_permutation(ps1, ps2, key_files());
    lemma_key_count_nonneg(ps1, key_length());
    lemma_key_count_nonneg(ps1, key_files());
    if key_count(ps1, key_length()) == 1 {
        lemma_key_value_permutation(ps1, ps2, key_length());
    } else {
        lemma_key_value_permutation(ps1, ps2, key_files());
    }
}

/// Law: for every valid encoding of a top-level dictionary with the
/// required keys present, the mapper produces the same model whatever
/// the order of the keys: a permutation of the pairs neither changes
/// acceptance nor the model produced.
pub proof fn lemma_torrent_mapping_order_independent(
    ps1: Seq<(Seq<u8>, SpecValue)>,
    ps2: Seq<(Seq<u8>, SpecValue)>,
)
    requires
        ps1.to_multiset() == ps2.to_multiset(),
        torrent_ok(ps1),
    ensures
        torrent_ok(ps2),
        spec_torrent(ps2) == spec_torrent(ps1),
{
    lemma_key_value_permutation(ps1, ps2, key_announce());
    lemma_key_value_permutation(ps1, ps2, key_info());
}

} // verus!
