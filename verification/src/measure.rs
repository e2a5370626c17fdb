//! How much of what was chunked is there more than once.

use crate::digest::ChunkId;
use crate::text::{decimal, decimal_text};
use std::collections::BTreeSet;
use vstd::prelude::*;
use vstd::string::*;

verus! {

broadcast use {
    vstd::laws_cmp::group_laws_cmp,
    vstd::std_specs::btree::group_btree_axioms,
    vstd::slice::group_slice_axioms,
};

/// Adds the length of a chunk to a running sum.
pub open spec fn adding_len() -> spec_fn(nat, ChunkId) -> nat {
    |sum: nat, id: ChunkId| sum + id.len as nat
}

/// The bytes of all chunks listed, repetitions counted.
pub open spec fn listed_len(ids: Seq<ChunkId>) -> nat {
    ids.fold_left(0nat, adding_len())
}

/// The bytes of a set of chunks.
pub open spec fn stored_len(ids: Set<ChunkId>) -> nat {
    ids.fold(0nat, adding_len())
}

/// Chunks listed and chunks distinct, each by number and by bytes.
#[derive(Debug, Clone, Copy, PartialEq, Eq, Structural)]
pub struct DupReport {
    pub total_count: usize,
    pub total_len: usize,
    pub unique_count: usize,
    pub unique_len: usize,
}

/// An identity as integers, which order it.
spec fn order_key(id: ChunkId) -> (u128, u128, usize) {
    (
        vstd::bytes::spec_u128_from_le_bytes(id.hash@.subrange(0, 16)),
        vstd::bytes::spec_u128_from_le_bytes(id.hash@.subrange(16, 32)),
        id.len,
    )
}

/// Identities with equal keys are equal.
proof fn lemma_order_key_injective(a: ChunkId, b: ChunkId)
    requires
        order_key(a) == order_key(b),
    ensures
        a == b,
{
    vstd::bytes::lemma_auto_spec_u128_to_from_le_bytes();
    let word = |s: Seq<u8>| vstd::bytes::spec_u128_from_le_bytes(s);
    assert forall|s: Seq<u8>, t: Seq<u8>|
        s.len() == 16 && t.len() == 16 && #[trigger] word(s) == #[trigger] word(t) implies s == t by {
        assert(vstd::bytes::spec_u128_to_le_bytes(word(s)) == s);
        assert(vstd::bytes::spec_u128_to_le_bytes(word(t)) == t);
    }
    assert(word(a.hash@.subrange(0, 16)) == word(b.hash@.subrange(0, 16)));
    assert(word(a.hash@.subrange(16, 32)) == word(b.hash@.subrange(16, 32)));
    assert forall|i: int| 0 <= i < 32 implies a.hash[i] == b.hash[i] by {
        if i < 16 {
            assert(a.hash@.subrange(0, 16)[i] == b.hash@.subrange(0, 16)[i]);
        } else {
            assert(a.hash@.subrange(16, 32)[i - 16] == b.hash@.subrange(16, 32)[i - 16]);
        }
    }
    assert(a.hash =~= b.hash);
}

/// The integers that order an identity.
fn key_of(id: &ChunkId) -> (key: (u128, u128, usize))
    ensures
        key == order_key(*id),
{
    let hash = id.hash.as_slice();
    let high = vstd::bytes::u128_from_le_bytes(vstd::slice::slice_subrange(hash, 0, 16));
    let low = vstd::bytes::u128_from_le_bytes(vstd::slice::slice_subrange(hash, 16, 32));
    (high, low, id.len)
}

/// Adding lengths does not depend on their order.
proof fn lemma_adding_commutes()
    ensures
        vstd::set::fold::is_fun_commutative(adding_len()),
        vstd::seq_lib::commutative_foldl(adding_len()),
{
}

/// A longer listing has no fewer bytes.
proof fn lemma_listed_len_grows(ids: Seq<ChunkId>, i: int)
    requires
        0 <= i <= ids.len(),
    ensures
        listed_len(ids.take(i)) <= listed_len(ids),
    decreases ids.len(),
{
    if i < ids.len() {
        lemma_listed_len_grows(ids.drop_last(), i);
        assert(ids.drop_last().take(i) =~= ids.take(i));
    } else {
        assert(ids.take(i) =~= ids);
    }
}

/// The distinct chunks of a listing have no more bytes than the listing.
proof fn lemma_stored_len_at_most_listed(ids: Seq<ChunkId>)
    ensures
        ids.to_set().finite(),
        stored_len(ids.to_set()) <= listed_len(ids),
    decreases ids.len(),
{
    vstd::seq_lib::seq_to_set_is_finite(ids);
    lemma_adding_commutes();
    if ids.len() == 0 {
        assert(ids.to_set() =~= Set::<ChunkId>::empty());
        vstd::set::fold::lemma_fold_empty(0nat, adding_len());
    } else {
        let rest = ids.drop_last();
        lemma_stored_len_at_most_listed(rest);
        assert(ids =~= rest.push(ids.last()));
        rest.lemma_push_to_set_commute(ids.last());
        if rest.to_set().contains(ids.last()) {
            assert(ids.to_set() =~= rest.to_set());
        } else {
            vstd::set::fold::lemma_fold_insert(rest.to_set(), 0nat, adding_len(), ids.last());
        }
    }
}

/// Measures a listing of chunks: all of them, and the distinct ones.
pub fn measure_dup(ids: &Vec<ChunkId>) -> (report: DupReport)
    requires
        listed_len(ids@) <= usize::MAX,
    ensures
        report.total_count == ids@.len(),
        report.total_len == listed_len(ids@),
        report.unique_count == ids@.to_set().len(),
        report.unique_len == stored_len(ids@.to_set()),
        report.total_len == ids@.fold_left(0nat, |sum: nat, id: ChunkId| sum + id.len as nat),
        report.unique_len == ids@.to_set().fold(0nat, |sum: nat, id: ChunkId| sum + id.len as nat),
{
    let mut seen: BTreeSet<(u128, u128, usize)> = BTreeSet::new();
    let mut report = DupReport { total_count: ids.len(), total_len: 0, unique_count: 0, unique_len: 0 };
    proof {
        assert(ids@.take(0).to_set() =~= Set::<ChunkId>::empty());
        vstd::set::fold::lemma_fold_empty(0nat, adding_len());
    }
    for i in 0..ids.len()
        invariant
            listed_len(ids@) <= usize::MAX,
            report.total_count == ids@.len(),
            report.total_len == listed_len(ids@.take(i as int)),
            report.unique_count == ids@.take(i as int).to_set().len(),
            report.unique_len == stored_len(ids@.take(i as int).to_set()),
            report.unique_count <= i,
            forall|id: ChunkId| #[trigger]
                seen@.contains(order_key(id)) <==> ids@.take(i as int).to_set().contains(id),
    {
        let id = &ids[i];
        let ghost before = ids@.take(i as int);
        let ghost after = ids@.take(i + 1);
        proof {
            assert(after =~= before.push(*id));
            assert(after.drop_last() =~= before);
            before.lemma_push_to_set_commute(*id);
            vstd::seq_lib::seq_to_set_is_finite(before);
            lemma_adding_commutes();
            lemma_listed_len_grows(ids@, i + 1);
            lemma_stored_len_at_most_listed(after);
            assert(before.to_set().contains(*id) ==> after.to_set() =~= before.to_set());
            if !before.to_set().contains(*id) {
                vstd::set::fold::lemma_fold_insert(before.to_set(), 0nat, adding_len(), *id);
            }
        }
        let ghost old_seen = seen@;
        let fresh = seen.insert(key_of(id));
        proof {
            assert forall|other: ChunkId| #[trigger]
                seen@.contains(order_key(other)) <==> after.to_set().contains(other) by {
                if order_key(other) == order_key(*id) {
                    lemma_order_key_injective(other, *id);
                }
                assert(old_seen.contains(order_key(other)) <==> before.to_set().contains(other));
            }
            assert(old_seen.contains(order_key(*id)) <==> before.to_set().contains(*id));
        }
        report.total_len = report.total_len + id.len;
        if fresh {
            report.unique_count = report.unique_count + 1;
            report.unique_len = report.unique_len + id.len;
        }
    }
    proof {
        assert(ids@.take(ids@.len() as int) =~= ids@);
        assert(adding_len() =~= (|sum: nat, id: ChunkId| sum + id.len as nat));
    }
    report
}

/// A count and a number of bytes, as a report line shows them.
pub open spec fn line_text(label: Seq<char>, count: usize, len: usize) -> Seq<char> {
    label + decimal_text(count as nat) + " ("@ + decimal_text(len as nat) + ")"@
}

/// Writes a report line.
fn line(label: &str, count: usize, len: usize) -> (text: String)
    ensures
        text@ == line_text(label@, count, len),
{
    let mut text = String::from_str(label);
    text.append(decimal(count).as_str());
    text.append(" (");
    text.append(decimal(len).as_str());
    text.append(")");
    text
}

impl DupReport {
    /// The line on everything that was listed.
    pub fn total_line(&self) -> (text: String)
        ensures
            text@ == line_text("total : "@, self.total_count, self.total_len),
            text@ == "total : "@ + decimal_text(self.total_count as nat) + " ("@ + decimal_text(
                self.total_len as nat,
            ) + ")"@,
    {
        line("total : ", self.total_count, self.total_len)
    }

    /// The line on what is distinct.
    pub fn unique_line(&self) -> (text: String)
        ensures
            text@ == line_text("unique: "@, self.unique_count, self.unique_len),
            text@ == "unique: "@ + decimal_text(self.unique_count as nat) + " ("@ + decimal_text(
                self.unique_len as nat,
            ) + ")"@,
    {
        line("unique: ", self.unique_count, self.unique_len)
    }
}

/// Law: what is distinct is never more than what was listed, neither by number
/// nor by bytes, and by number it is as much exactly when nothing repeats.
pub proof fn law_unique_at_most_total(ids: Seq<ChunkId>)
    ensures
        ids.to_set().len() <= ids.len(),
        ids.to_set().len() == ids.len() <==> ids.no_duplicates(),
        stored_len(ids.to_set()) <= listed_len(ids),
{
    ids.lemma_cardinality_of_set();
    lemma_stored_len_at_most_listed(ids);
    if ids.no_duplicates() {
        ids.unique_seq_to_set();
    }
    if ids.to_set().len() == ids.len() {
        ids.lemma_no_dup_set_cardinality();
    }
}

/// Law: the order in which chunks are listed changes no number of the report.
pub proof fn law_order_is_irrelevant(ids: Seq<ChunkId>, others: Seq<ChunkId>)
    requires
        ids.to_multiset() == others.to_multiset(),
    ensures
        ids.len() == others.len(),
        listed_len(ids) == listed_len(others),
        ids.to_set() == others.to_set(),
{
    broadcast use vstd::seq_lib::group_to_multiset_ensures;

    lemma_adding_commutes();
    vstd::seq_lib::lemma_fold_left_permutation(ids, others, adding_len(), 0nat);
    assert(ids.to_multiset().len() == ids.len());
    assert(others.to_multiset().len() == others.len());
    assert forall|id: ChunkId| ids.to_set().contains(id) <==> others.to_set().contains(id) by {
        assert(ids.contains(id) <==> ids.to_multiset().count(id) > 0);
        assert(others.contains(id) <==> others.to_multiset().count(id) > 0);
    }
    assert(ids.to_set() =~= others.to_set());
}

/// Law: listing chunks again that are already listed adds to the totals and
/// leaves what is distinct as it was.
pub proof fn law_repeats_add_nothing_unique(ids: Seq<ChunkId>, again: Seq<ChunkId>)
    requires
        again.to_set().subset_of(ids.to_set()),
    ensures
        (ids + again).to_set() == ids.to_set(),
        listed_len(ids + again) == listed_len(ids) + listed_len(again),
{
    vstd::seq_lib::seq_to_set_distributes_over_add(ids, again);
    assert(ids.to_set() + again.to_set() =~= ids.to_set());
    lemma_listed_len_adds(ids, again);
}

/// The bytes of two listings in a row are those of both.
proof fn lemma_listed_len_adds(ids: Seq<ChunkId>, more: Seq<ChunkId>)
    ensures
        listed_len(ids + more) == listed_len(ids) + listed_len(more),
    decreases more.len(),
{
    if more.len() == 0 {
        assert(ids + more =~= ids);
    } else {
        lemma_listed_len_adds(ids, more.drop_last());
        assert((ids + more).drop_last() =~= ids + more.drop_last());
    }
}

/// Law: a listing has the bytes of its chunks, each counted in full: none where it
/// is empty, and with one chunk more exactly the length of that chunk more.
pub proof fn law_every_listed_byte_counts(ids: Seq<ChunkId>, id: ChunkId)
    ensures
        listed_len(Seq::<ChunkId>::empty()) == 0,
        listed_len(seq![id]) == id.len,
        listed_len(ids.push(id)) == listed_len(ids) + id.len,
{
    assert(ids.push(id).drop_last() =~= ids);
    assert(Seq::<ChunkId>::empty().push(id) =~= seq![id]);
    assert(seq![id].drop_last() =~= Seq::<ChunkId>::empty());
    reveal_with_fuel(Seq::fold_left, 2);
}

/// Law: a set has the bytes of its chunks, each counted in full and once: none
/// where it is empty, with one chunk more exactly the length of that chunk more,
/// and as many as before with a chunk that was in it.
pub proof fn law_every_stored_byte_counts_once(ids: Set<ChunkId>, id: ChunkId)
    requires
        ids.finite(),
    ensures
        stored_len(Set::<ChunkId>::empty()) == 0,
        stored_len(Set::<ChunkId>::empty().insert(id)) == id.len,
        !ids.contains(id) ==> stored_len(ids.insert(id)) == stored_len(ids) + id.len,
        ids.contains(id) ==> stored_len(ids.insert(id)) == stored_len(ids),
{
    lemma_adding_commutes();
    vstd::set::fold::lemma_fold_empty(0nat, adding_len());
    vstd::set::fold::lemma_fold_insert(Set::<ChunkId>::empty(), 0nat, adding_len(), id);
    if ids.contains(id) {
        assert(ids.insert(id) =~= ids);
    } else {
        vstd::set::fold::lemma_fold_insert(ids, 0nat, adding_len(), id);
    }
}

} // verus!
