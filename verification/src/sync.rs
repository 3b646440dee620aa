//! One-directional reconciliation: each discovered source entry is
//! copied when the destination lacks it or holds a different size, and
//! skipped otherwise; destination-only entries are never deleted.
use vstd::prelude::*;

use crate::diff::lookup;
use crate::diff::lookup_meta;
use crate::diff::ObjectMeta;

verus! {

/// Whether a source entry must be transferred: the destination lacks the
/// key, or holds it with a different size.
pub open spec fn spec_needs_sync(dst: Option<ObjectMeta>, size: u64) -> bool {
    match dst {
        Some(m) => m.size != size,
        None => true,
    }
}

/// Decides one source entry against the destination listing.
pub fn needs_sync(dest: &Vec<ObjectMeta>, key: &str, size: u64) -> (r: bool)
    ensures
        r == spec_needs_sync(lookup(dest@, key@), size),
{
    match lookup_meta(dest, key) {
        Some(i) => dest[i].size != size,
        None => true,
    }
}

/// The number of source entries that must be transferred.
pub open spec fn spec_copy_count(src: Seq<ObjectMeta>, dst: Seq<ObjectMeta>) -> int
    decreases src.len(),
{
    if src.len() == 0 {
        0
    } else {
        spec_copy_count(src.drop_last(), dst) + if spec_needs_sync(
            lookup(dst, src.last().key@),
            src.last().size,
        ) {
            1int
        } else {
            0int
        }
    }
}

/// Plans a one-directional sync: one decision per source entry in
/// discovery order — copy when the destination lacks the key or differs
/// in size, skip otherwise — together with how many are copied and how
/// many skipped. Nothing is ever deleted.
pub fn sync_plan(source: &Vec<ObjectMeta>, dest: &Vec<ObjectMeta>) -> (r: (Vec<bool>, u64, u64))
    ensures
        r.0@.len() == source@.len(),
        forall|i: int|
            0 <= i < source@.len() ==> r.0@[i] == spec_needs_sync(
                lookup(dest@, (#[trigger] source@[i]).key@),
                source@[i].size,
            ),
        r.1 == spec_copy_count(source@, dest@),
        r.1 + r.2 == source@.len(),
{
    let mut decisions: Vec<bool> = Vec::new();
    let mut copied: u64 = 0;
    let mut skipped: u64 = 0;
    let mut i: usize = 0;
    while i < source.len()
        invariant
            i <= source@.len(),
            decisions@.len() == i,
            copied <= i,
            copied + skipped == i,
            forall|j: int|
                0 <= j < i ==> decisions@[j] == spec_needs_sync(
                    lookup(dest@, (#[trigger] source@[j]).key@),
                    source@[j].size,
                ),
            copied == spec_copy_count(source@.take(i as int), dest@),
        decreases source@.len() - i,
    {
        proof {
            assert(source@.take(i + 1).drop_last() =~= source@.take(i as int));
            assert(source@.take(i + 1).last() == source@[i as int]);
        }
        let copy = needs_sync(dest, source[i].key.as_str(), source[i].size);
        decisions.push(copy);
        if copy {
            copied = copied + 1;
        } else {
            skipped = skipped + 1;
        }
        i = i + 1;
    }
    proof {
        assert(source@.take(source@.len() as int) =~= source@);
    }
    (decisions, copied, skipped)
}

} // verus!
