use mempool_partitioner::file_processing::{merge, merge_batch, separate_files, PartitionBatch, SmartContract};
use mempool_partitioner::transaction::{Transaction, TransactionPayload, TxInfo};

fn contract_call(name: &str, id: u8) -> Transaction {
    Transaction {
        payload: TransactionPayload::ContractCall { contract_name: name.to_string() },
        encoded: vec![id],
    }
}

fn transfer(id: u8) -> Transaction {
    Transaction { payload: TransactionPayload::Other, encoded: vec![id] }
}

#[test]
fn merge_into_missing_partition_holds_just_the_transaction() {
    assert_eq!(merge(None, contract_call("alpha", 1)), vec![contract_call("alpha", 1)]);
}

#[test]
fn merge_into_empty_partition_holds_just_the_transaction() {
    assert_eq!(merge(Some(vec![]), contract_call("alpha", 1)), vec![contract_call("alpha", 1)]);
}

#[test]
fn merge_appends_after_what_was_there() {
    let existing = vec![contract_call("alpha", 1), contract_call("alpha", 2)];
    assert_eq!(
        merge(Some(existing), contract_call("alpha", 3)),
        vec![contract_call("alpha", 1), contract_call("alpha", 2), contract_call("alpha", 3)]
    );
}

#[test]
fn merge_keeps_duplicates_of_equal_transactions() {
    let existing = vec![contract_call("alpha", 1)];
    assert_eq!(merge(Some(existing), contract_call("alpha", 1)), vec![contract_call("alpha", 1), contract_call("alpha", 1)]);
}

#[test]
fn merge_batch_appends_the_batch_in_order() {
    let existing = vec![contract_call("alpha", 1)];
    let batch = [contract_call("alpha", 2), contract_call("alpha", 3)];
    assert_eq!(
        merge_batch(Some(existing), &batch),
        vec![contract_call("alpha", 1), contract_call("alpha", 2), contract_call("alpha", 3)]
    );
    assert_eq!(merge_batch(None, &batch), vec![contract_call("alpha", 2), contract_call("alpha", 3)]);
}

#[test]
fn merging_an_empty_batch_changes_nothing() {
    let run = [contract_call("alpha", 1), contract_call("alpha", 2), contract_call("alpha", 3)];
    let once = merge_batch(None, &run);
    let again = merge_batch(Some(merge_batch(None, &run)), &[]);
    assert_eq!(again, once);
    assert_eq!(once, run.to_vec());
    assert_eq!(merge_batch(None, &[]), Vec::<Transaction>::new());
}

#[test]
fn merging_one_by_one_equals_merging_the_batch() {
    let run = [contract_call("alpha", 1), contract_call("alpha", 2), contract_call("alpha", 3)];
    let mut document = None;
    for transaction in run.iter() {
        document = Some(merge(document, transaction.clone()));
    }
    assert_eq!(document, Some(merge_batch(None, &run)));
}

#[test]
fn separate_files_groups_by_key_in_order_of_first_appearance() {
    let run = [contract_call("alpha", 10), contract_call("beta", 20), contract_call("alpha", 30)];
    assert_eq!(
        separate_files(&run),
        vec![
            PartitionBatch {
                key: "alpha".to_string(),
                transactions: vec![contract_call("alpha", 10), contract_call("alpha", 30)],
            },
            PartitionBatch { key: "beta".to_string(), transactions: vec![contract_call("beta", 20)] },
        ]
    );
}

#[test]
fn separate_files_of_nothing_is_nothing() {
    assert_eq!(separate_files(&[]), Vec::<PartitionBatch>::new());
}

#[test]
fn separate_files_collects_nameless_transactions_under_the_sentinel() {
    let run = [transfer(1), contract_call("alpha", 2), contract_call("", 3), contract_call("a/b", 4), transfer(5)];
    assert_eq!(
        separate_files(&run),
        vec![
            PartitionBatch {
                key: "NO_NAME".to_string(),
                transactions: vec![transfer(1), contract_call("", 3), contract_call("a/b", 4), transfer(5)],
            },
            PartitionBatch { key: "alpha".to_string(), transactions: vec![contract_call("alpha", 2)] },
        ]
    );
}

#[test]
fn separate_files_loses_and_repeats_nothing() {
    let names = ["a", "b", "c", "a", "b", "a", "d", "c", "a"];
    let run: Vec<Transaction> =
        names.iter().enumerate().map(|(i, name)| contract_call(name, i as u8)).collect();
    let batches = separate_files(&run);
    let keys: Vec<&str> = batches.iter().map(|batch| batch.key.as_str()).collect();
    assert_eq!(keys, vec!["a", "b", "c", "d"]);
    let total: usize = batches.iter().map(|batch| batch.transactions.len()).sum();
    assert_eq!(total, run.len());
    for batch in batches.iter() {
        let expected: Vec<Transaction> = run
            .iter()
            .filter(|tx| tx.payload == TransactionPayload::ContractCall { contract_name: batch.key.clone() })
            .cloned()
            .collect();
        assert_eq!(batch.transactions, expected);
    }
}

#[test]
fn smart_contract_routes_a_row_to_its_partition_file() {
    let info = TxInfo { tx: contract_call("alpha", 10), accept_time: 10 };
    let routed = SmartContract::new(&info, "add");
    assert_eq!(routed.name_of_smart_contract, info);
    assert_eq!(routed.tx_info_tx, contract_call("alpha", 10));
    assert_eq!(routed.filename, "add/alpha.json");
    assert_eq!(routed.contract_name(), "alpha");
}

#[test]
fn smart_contract_without_a_name_goes_to_the_sentinel_file() {
    let info = TxInfo { tx: transfer(7), accept_time: 70 };
    let routed = SmartContract::new(&info, "add");
    assert_eq!(routed.filename, "add/NO_NAME.json");
    assert_eq!(routed.contract_name(), "NO_NAME");
}

#[test]
fn contract_name_is_read_from_the_row() {
    let routed = SmartContract {
        name_of_smart_contract: TxInfo { tx: contract_call("beta", 1), accept_time: 5 },
        tx_info_tx: contract_call("beta", 1),
        filename: String::new(),
    };
    assert_eq!(routed.contract_name(), "beta");
    let hostile = SmartContract {
        name_of_smart_contract: TxInfo { tx: contract_call("../beta", 1), accept_time: 5 },
        tx_info_tx: contract_call("../beta", 1),
        filename: String::new(),
    };
    assert_eq!(hostile.contract_name(), "NO_NAME");
}

#[test]
fn transactions_clone_to_equal_values() {
    let transaction = contract_call("alpha", 9);
    assert_eq!(transaction.clone(), transaction);
    let info = TxInfo { tx: transfer(3), accept_time: 33 };
    assert_eq!(info.clone(), info);
}
