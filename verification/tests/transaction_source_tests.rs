use mempool_partitioner::transaction::{Transaction, TransactionPayload, TxInfo};
use mempool_partitioner::transaction_source::fetch_since;

fn row_at(accept_time: u64) -> TxInfo {
    TxInfo {
        tx: Transaction { payload: TransactionPayload::Other, encoded: accept_time.to_be_bytes().to_vec() },
        accept_time,
    }
}

#[test]
fn fetch_returns_the_rows_after_the_watermark_in_order() {
    let store = vec![row_at(10), row_at(20), row_at(30)];
    assert_eq!(fetch_since(&store, 0), vec![row_at(10), row_at(20), row_at(30)]);
    assert_eq!(fetch_since(&store, 10), vec![row_at(20), row_at(30)]);
    assert_eq!(fetch_since(&store, 15), vec![row_at(20), row_at(30)]);
    assert_eq!(fetch_since(&store, 29), vec![row_at(30)]);
}

#[test]
fn fetch_at_or_beyond_the_last_row_is_empty() {
    let store = vec![row_at(10), row_at(20), row_at(30)];
    assert_eq!(fetch_since(&store, 30), Vec::<TxInfo>::new());
    assert_eq!(fetch_since(&store, u64::MAX), Vec::<TxInfo>::new());
    assert_eq!(fetch_since(&[], 0), Vec::<TxInfo>::new());
}

#[test]
fn row_accepted_at_time_zero_is_never_fetched() {
    let store = vec![row_at(0), row_at(5)];
    assert_eq!(fetch_since(&store, 0), vec![row_at(5)]);
}

#[test]
fn fetch_keeps_store_order_even_where_times_are_not_ascending() {
    let store = vec![row_at(30), row_at(10), row_at(20), row_at(20)];
    assert_eq!(fetch_since(&store, 15), vec![row_at(30), row_at(20), row_at(20)]);
}
