//! Store reclamation: blobs that the current records reference are moved
//! from the recycle area, which holds the previous store generation, back
//! into the store. What is not referenced stays behind for the operator;
//! a referenced blob missing from the recycle area is not an error.
//! Rotating the store into the recycle area is left to the operator.

use vstd::prelude::*;

use crate::index::PackageRecord;
use crate::layout::{path_in, StoreLayout};

verus! {

/// The move of one blob: from its place in the recycle area to its place
/// in the store.
#[derive(Clone, Debug)]
pub struct BlobMove {
    pub from: String,
    pub to: String,
}

/// The moves of a reclamation pass, one per record, in record order.
pub fn reclaim_moves(layout: &StoreLayout, records: &Vec<PackageRecord>) -> (r: Vec<BlobMove>)
    ensures
        r@.len() == records@.len(),
        forall|i: int|
            0 <= i < r@.len() ==> {
                &&& (#[trigger] r@[i]).from@ == path_in(
                    layout.recycle@,
                    records@[i].content_hash@,
                )
                &&& r@[i].to@ == path_in(layout.store@, records@[i].content_hash@)
            },
{
    let mut out: Vec<BlobMove> = Vec::new();
    let mut i: usize = 0;
    while i < records.len()
        invariant
            i <= records@.len(),
            out@.len() == i,
            forall|j: int|
                0 <= j < i ==> {
                    &&& (#[trigger] out@[j]).from@ == path_in(
                        layout.recycle@,
                        records@[j].content_hash@,
                    )
                    &&& out@[j].to@ == path_in(layout.store@, records@[j].content_hash@)
                },
        decreases records@.len() - i,
    {
        let hash = records[i].content_hash.as_str();
        out.push(BlobMove { from: layout.recycled_path(hash), to: layout.blob_path(hash) });
        i = i + 1;
    }
    out
}

/// The recycle area and the store, each as a map from content hash to blob.
pub struct Generations {
    pub recycle: Map<Seq<char>, Seq<u8>>,
    pub store: Map<Seq<char>, Seq<u8>>,
}

/// A reclamation pass over the referenced hashes, in order: each blob found
/// in the recycle area moves into the store; a miss changes nothing.
pub open spec fn reclaim(hashes: Seq<Seq<char>>, g: Generations) -> Generations
    decreases hashes.len(),
{
    if hashes.len() == 0 {
        g
    } else {
        let before = reclaim(hashes.drop_last(), g);
        let h = hashes.last();
        if before.recycle.contains_key(h) {
            Generations {
                recycle: before.recycle.remove(h),
                store: before.store.insert(h, before.recycle[h]),
            }
        } else {
            before
        }
    }
}

/// After a reclamation pass: every referenced blob that was in the recycle
/// area is in the store with the same bytes and gone from the recycle area;
/// a referenced hash in neither place is still in neither; a blob that is
/// not referenced keeps its place in the recycle area; and the store loses
/// nothing.
pub proof fn lemma_reclaim_moves_referenced(hashes: Seq<Seq<char>>, g: Generations)
    ensures
        ({
            let after = reclaim(hashes, g);
            &&& forall|h: Seq<char>|
                #[trigger] hashes.contains(h) ==> !after.recycle.contains_key(h)
            &&& forall|h: Seq<char>|
                hashes.contains(h) && #[trigger] g.recycle.contains_key(h) && !g.store.contains_key(
                    h,
                ) ==> after.store.contains_key(h) && after.store[h] == g.recycle[h]
            &&& forall|h: Seq<char>|
                hashes.contains(h) && !g.recycle.contains_key(h) && !#[trigger] g.store.contains_key(
                    h,
                ) ==> !after.store.contains_key(h)
            &&& forall|h: Seq<char>|
                !hashes.contains(h) && #[trigger] g.recycle.contains_key(h) ==> after.recycle.contains_key(
                    h,
                ) && after.recycle[h] == g.recycle[h]
            &&& forall|h: Seq<char>| #[trigger]
                g.store.contains_key(h) ==> after.store.contains_key(h)
            &&& forall|h: Seq<char>| #[trigger]
                after.recycle.contains_key(h) ==> g.recycle.contains_key(h) && after.recycle[h]
                    == g.recycle[h]
            &&& forall|h: Seq<char>| #[trigger]
                after.store.contains_key(h) && !g.store.contains_key(h) ==> g.recycle.contains_key(h)
                    && after.store[h] == g.recycle[h]
        }),
    decreases hashes.len(),
{
    if hashes.len() > 0 {
        let rest = hashes.drop_last();
        let last = hashes.last();
        lemma_reclaim_moves_referenced(rest, g);
        let before = reclaim(rest, g);
        let after = reclaim(hashes, g);
        assert forall|h: Seq<char>| #[trigger] hashes.contains(h) implies !after.recycle.contains_key(h) by {
            if h != last {
                let j = choose|j: int| 0 <= j < hashes.len() && hashes[j] == h;
                assert(rest[j] == h);
                assert(rest.contains(h));
            }
        }
        assert forall|h: Seq<char>|
            hashes.contains(h) && #[trigger] g.recycle.contains_key(h) && !g.store.contains_key(h)
            implies after.store.contains_key(h) && after.store[h] == g.recycle[h] by {
            if h != last {
                let j = choose|j: int| 0 <= j < hashes.len() && hashes[j] == h;
                assert(rest[j] == h);
                assert(rest.contains(h));
            } else if !rest.contains(h) {
                assert(before.recycle.contains_key(h));
            }
        }
        assert forall|h: Seq<char>|
            hashes.contains(h) && !g.recycle.contains_key(h) && !#[trigger] g.store.contains_key(h)
            implies !after.store.contains_key(h) by {
            if h != last {
                let j = choose|j: int| 0 <= j < hashes.len() && hashes[j] == h;
                assert(rest[j] == h);
                assert(rest.contains(h));
            }
        }
        assert forall|h: Seq<char>|
            !hashes.contains(h) && #[trigger] g.recycle.contains_key(h) implies after.recycle.contains_key(h)
            && after.recycle[h] == g.recycle[h] by {
            assert(h != last);
            if rest.contains(h) {
                let j = choose|j: int| 0 <= j < rest.len() && rest[j] == h;
                assert(hashes[j] == h);
            }
        }
    }
}

} // verus!
