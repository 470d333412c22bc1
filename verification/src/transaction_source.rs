//! What a fetch from the transaction store returns: the rows that were
//! accepted after a given watermark, in store order.
//!
//! The store itself is queried by the caller. This module states what the
//! answer has to be, and computes it for rows that are held in memory.

use crate::transaction::{row_views, TxInfo, TxInfoView};
use vstd::prelude::*;

verus! {

/// The test for having been accepted after `watermark`.
pub open spec fn accepted_after(watermark: u64) -> spec_fn(TxInfoView) -> bool {
    |row: TxInfoView| row.accept_time > watermark
}

/// The rows of `store` that were accepted after `watermark`, in store order.
/// This is what a fetch returns.
pub open spec fn rows_after(store: Seq<TxInfoView>, watermark: u64) -> Seq<TxInfoView> {
    store.filter(accepted_after(watermark))
}

/// Selects the rows of `store` that were accepted after `watermark`, in
/// store order. A row at or before the watermark is never returned.
pub fn fetch_since(store: &[TxInfo], watermark: u64) -> (rows: Vec<TxInfo>)
    ensures
        row_views(rows@) == rows_after(row_views(store@), watermark),
        forall|i: int| 0 <= i < rows.len() ==> (#[trigger] rows[i]).accept_time > watermark,
{
    let ghost all = row_views(store@);
    let mut rows: Vec<TxInfo> = Vec::new();
    let mut i: usize = 0;
    proof {
        reveal(Seq::filter);
        assert(row_views(rows@) =~= rows_after(all.take(0), watermark));
    }
    while i < store.len()
        invariant
            i <= store.len(),
            all == row_views(store@),
            row_views(rows@) == rows_after(all.take(i as int), watermark),
            forall|k: int| 0 <= k < rows.len() ==> (#[trigger] rows[k]).accept_time > watermark,
        decreases store.len() - i,
    {
        proof {
            assert(all.take(i + 1) =~= all.take(i as int).push(store[i as int]@));
            all.take(i as int).lemma_filter_push(store[i as int]@, accepted_after(watermark));
        }
        if store[i].accept_time > watermark {
            let ghost before = rows@;
            rows.push(store[i].clone());
            assert(row_views(rows@) =~= row_views(before).push(store[i as int]@));
        }
        i = i + 1;
    }
    assert(all.take(store.len() as int) =~= all);
    rows
}

} // verus!
