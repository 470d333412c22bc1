//! Partition documents: what a partition file holds after a merge, and how a
//! run of transactions falls apart into partitions.
//!
//! A partition document is the ordered list of the transactions routed to one
//! key. Merging never reorders or drops what the document already holds; it
//! only appends.

use crate::partition_key::{
    is_safe_name, partition_key, partition_key_of, partition_path, partition_path_of,
};
use crate::transaction::{transaction_views, Transaction, TransactionView, TxInfo, TxInfoView};
use vstd::prelude::*;

verus! {

/// The partition key of a transaction.
pub open spec fn key_of(tx: TransactionView) -> Seq<char> {
    partition_key_of(tx.payload)
}

/// The test for belonging to the partition `key`.
pub open spec fn in_partition(key: Seq<char>) -> spec_fn(TransactionView) -> bool {
    |tx: TransactionView| key_of(tx) == key
}

/// The transactions among `txs` that belong to the partition `key`, in the
/// order in which they stand in `txs`.
pub open spec fn partition_of(txs: Seq<TransactionView>, key: Seq<char>) -> Seq<TransactionView> {
    txs.filter(in_partition(key))
}

/// The keys that occur among `txs`, each once, in order of first appearance.
pub open spec fn keys_in_order(txs: Seq<TransactionView>) -> Seq<Seq<char>>
    decreases txs.len(),
{
    if txs.len() == 0 {
        Seq::empty()
    } else {
        let earlier = keys_in_order(txs.drop_last());
        let key = key_of(txs.last());
        if earlier.contains(key) {
            earlier
        } else {
            earlier.push(key)
        }
    }
}

/// What a partition document holds after `batch` was merged into it.
/// `existing` is `None` where there is no document yet, or none that could be
/// read; the merge then starts from nothing.
pub open spec fn merged(
    existing: Option<Seq<TransactionView>>,
    batch: Seq<TransactionView>,
) -> Seq<TransactionView> {
    match existing {
        Some(document) => document + batch,
        None => batch,
    }
}

/// The transactions of one partition, in arrival order.
#[derive(Debug, PartialEq, Eq)]
pub struct PartitionBatch {
    pub key: String,
    pub transactions: Vec<Transaction>,
}

/// Mathematical value of a [`PartitionBatch`].
pub struct PartitionBatchView {
    pub key: Seq<char>,
    pub transactions: Seq<TransactionView>,
}

impl View for PartitionBatch {
    type V = PartitionBatchView;

    open spec fn view(&self) -> PartitionBatchView {
        PartitionBatchView { key: self.key@, transactions: transaction_views(self.transactions@) }
    }
}

/// The values of a sequence of batches, in order.
pub open spec fn batch_views(batches: Seq<PartitionBatch>) -> Seq<PartitionBatchView> {
    batches.map_values(|batch: PartitionBatch| batch@)
}

/// How `txs` falls apart into partitions: one batch per key, the keys in
/// order of first appearance, each batch holding its transactions in order.
pub open spec fn separated(txs: Seq<TransactionView>) -> Seq<PartitionBatchView> {
    keys_in_order(txs).map_values(
        |key: Seq<char>| PartitionBatchView { key, transactions: partition_of(txs, key) },
    )
}

/// A fetched transaction on its way to its partition file.
#[derive(Debug, PartialEq, Eq)]
pub struct SmartContract {
    /// The store row that the contract name is taken from.
    pub name_of_smart_contract: TxInfo,
    /// The transaction to be written.
    pub tx_info_tx: Transaction,
    /// The partition file it is written to.
    pub filename: String,
}

/// Mathematical value of a [`SmartContract`].
pub struct SmartContractView {
    pub name_of_smart_contract: TxInfoView,
    pub tx_info_tx: TransactionView,
    pub filename: Seq<char>,
}

impl SmartContractView {
    /// The partition key that the row's payload gives.
    pub open spec fn key(self) -> Seq<char> {
        key_of(self.name_of_smart_contract.tx)
    }
}

impl View for SmartContract {
    type V = SmartContractView;

    open spec fn view(&self) -> SmartContractView {
        SmartContractView {
            name_of_smart_contract: self.name_of_smart_contract@,
            tx_info_tx: self.tx_info_tx@,
            filename: self.filename@,
        }
    }
}

/// The routing of `row` under `output_dir`: the row, its transaction, and
/// the path of the partition file of its key.
pub open spec fn routing_of(row: TxInfoView, output_dir: Seq<char>) -> SmartContractView {
    SmartContractView {
        name_of_smart_contract: row,
        tx_info_tx: row.tx,
        filename: partition_path_of(output_dir, key_of(row.tx)),
    }
}

impl SmartContract {
    /// Routes a store row: names the partition file under `output_dir` that
    /// its transaction belongs in.
    pub fn new(info: &TxInfo, output_dir: &str) -> (routed: SmartContract)
        ensures
            routed@ == routing_of(info@, output_dir@),
    {
        let key = partition_key(&info.tx.payload);
        SmartContract {
            name_of_smart_contract: info.clone(),
            tx_info_tx: info.tx.clone(),
            filename: partition_path(output_dir, key.as_str()),
        }
    }

    /// The partition key of this transaction: the name of the contract it
    /// calls, or the sentinel key where it names none that is safe to use.
    pub fn contract_name(&self) -> (name: String)
        ensures
            name@ == self@.key(),
            is_safe_name(name@),
    {
        partition_key(&self.name_of_smart_contract.tx.payload)
    }
}

/// Appends one transaction to a partition document. With no document to
/// start from, the result holds just this transaction.
pub fn merge(existing: Option<Vec<Transaction>>, transaction: Transaction) -> (document: Vec<
    Transaction,
>)
    ensures
        transaction_views(document@) == merged(
            match existing {
                Some(old) => Some(transaction_views(old@)),
                None => None,
            },
            seq![transaction@],
        ),
{
    let mut document = match existing {
        Some(old) => old,
        None => Vec::new(),
    };
    document.push(transaction);
    document
}

/// Appends a batch of transactions to a partition document, in order.
pub fn merge_batch(existing: Option<Vec<Transaction>>, batch: &[Transaction]) -> (document: Vec<
    Transaction,
>)
    ensures
        transaction_views(document@) == merged(
            match existing {
                Some(old) => Some(transaction_views(old@)),
                None => None,
            },
            transaction_views(batch@),
        ),
{
    let mut document = match existing {
        Some(old) => old,
        None => Vec::new(),
    };
    let ghost before = document@;
    let mut i: usize = 0;
    while i < batch.len()
        invariant
            i <= batch.len(),
            transaction_views(document@) == transaction_views(before) + transaction_views(
                batch@,
            ).take(i as int),
        decreases batch.len() - i,
    {
        let ghost so_far = document@;
        document.push(batch[i].clone());
        assert(transaction_views(document@) =~= transaction_views(so_far).push(batch@[i as int]@));
        i = i + 1;
    }
    document
}

/// Finds the batch that collects the partition `key`, if there is one yet.
fn find_batch(batches: &Vec<PartitionBatch>, key: &String) -> (found: Option<usize>)
    ensures
        match found {
            Some(j) => j < batches.len() && batches[j as int].key@ == key@,
            None => forall|j: int| 0 <= j < batches.len() ==> batches[j].key@ != key@,
        },
{
    let mut j: usize = 0;
    while j < batches.len()
        invariant
            j <= batches.len(),
            forall|k: int| 0 <= k < j ==> batches[k].key@ != key@,
        decreases batches.len() - j,
    {
        if batches[j].key == *key {
            return Some(j);
        }
        j = j + 1;
    }
    None
}

/// Separates a run of transactions into their partitions.
///
/// Each transaction goes to the batch of its own partition key. The batches
/// come in the order in which their keys first appear, and within a batch the
/// transactions keep the order of the input: nothing is lost and nothing
/// appears twice.
pub fn separate_files(transactions: &[Transaction]) -> (batches: Vec<PartitionBatch>)
    ensures
        batch_views(batches@) == separated(transaction_views(transactions@)),
{
    let ghost txs = transaction_views(transactions@);
    let mut batches: Vec<PartitionBatch> = Vec::new();
    let mut i: usize = 0;
    while i < transactions.len()
        invariant
            i <= transactions.len(),
            txs == transaction_views(transactions@),
            batch_views(batches@) == separated(txs.take(i as int)),
        decreases transactions.len() - i,
    {
        let transaction = &transactions[i];
        let key = partition_key(&transaction.payload);
        let ghost seen = txs.take(i as int);
        let ghost before = batches@;
        proof {
            assert(txs.take(i + 1) =~= seen.push(transaction@));
            lemma_separated_push(seen, transaction@);
            lemma_key_occurs(seen, key@);
            assert(batch_views(before).len() == before.len());
        }
        match find_batch(&batches, &key) {
            Some(j) => {
                assert(batch_views(before)[j as int] == before[j as int]@);
                batches[j].transactions.push(transaction.clone());
                assert(batches[j as int]@.transactions =~= before[j as int]@.transactions.push(
                    transaction@,
                ));
            },
            None => {
                assert(!keys_in_order(seen).contains(key@)) by {
                    if keys_in_order(seen).contains(key@) {
                        let j = choose|j: int|
                            0 <= j < keys_in_order(seen).len() && keys_in_order(seen)[j] == key@;
                        assert(separated(seen)[j].key == key@);
                    }
                }
                let mut first: Vec<Transaction> = Vec::new();
                first.push(transaction.clone());
                assert(transaction_views(first@) =~= seq![transaction@]);
                batches.push(PartitionBatch { key, transactions: first });
            },
        }
        i = i + 1;
    }
    assert(txs.take(transactions.len() as int) =~= txs);
    batches
}

/// Appending a transaction appends its key to the keys seen, unless the key
/// was seen before.
pub proof fn lemma_keys_push(txs: Seq<TransactionView>, tx: TransactionView)
    ensures
        keys_in_order(txs.push(tx)) == if keys_in_order(txs).contains(key_of(tx)) {
            keys_in_order(txs)
        } else {
            keys_in_order(txs).push(key_of(tx))
        },
{
    assert(txs.push(tx).drop_last() =~= txs);
}

/// Appending a transaction appends it to the partition of its key and
/// leaves every other partition as it was.
pub proof fn lemma_partition_push(txs: Seq<TransactionView>, tx: TransactionView, key: Seq<char>)
    ensures
        partition_of(txs.push(tx), key) == if key_of(tx) == key {
            partition_of(txs, key).push(tx)
        } else {
            partition_of(txs, key)
        },
{
    reveal(Seq::filter);
    assert(txs.push(tx).drop_last() =~= txs);
}

/// A key is among the keys seen exactly when some transaction has it, a
/// key that no transaction has owns an empty partition, and no key is listed
/// twice.
pub proof fn lemma_key_occurs(txs: Seq<TransactionView>, key: Seq<char>)
    ensures
        keys_in_order(txs).contains(key) <==> exists|i: int|
            0 <= i < txs.len() && key_of(#[trigger] txs[i]) == key,
        !keys_in_order(txs).contains(key) ==> partition_of(txs, key) == Seq::<
            TransactionView,
        >::empty(),
        keys_in_order(txs).no_duplicates(),
    decreases txs.len(),
{
    reveal(Seq::filter);
    if txs.len() > 0 {
        let earlier = txs.drop_last();
        let keys = keys_in_order(earlier);
        let all = keys_in_order(txs);
        lemma_key_occurs(earlier, key);
        lemma_key_occurs(earlier, key_of(txs.last()));
        assert forall|j: int| 0 <= j < keys.len() implies all[j] == keys[j] by {}
        if exists|i: int| 0 <= i < txs.len() && key_of(#[trigger] txs[i]) == key {
            let i = choose|i: int| 0 <= i < txs.len() && key_of(#[trigger] txs[i]) == key;
            if i < earlier.len() {
                assert(key_of(earlier[i]) == key);
            } else if !keys.contains(key) {
                assert(all[keys.len() as int] == key);
            }
        }
    }
}

/// Appending a transaction either extends the batch of its key by that
/// transaction, or opens a new batch at the end for a key not seen before.
pub proof fn lemma_separated_push(txs: Seq<TransactionView>, tx: TransactionView)
    ensures
        keys_in_order(txs).contains(key_of(tx)) ==> separated(txs.push(tx)) == separated(
            txs,
        ).update(
            keys_in_order(txs).index_of(key_of(tx)),
            PartitionBatchView {
                key: key_of(tx),
                transactions: partition_of(txs, key_of(tx)).push(tx),
            },
        ),
        !keys_in_order(txs).contains(key_of(tx)) ==> separated(txs.push(tx)) == separated(
            txs,
        ).push(PartitionBatchView { key: key_of(tx), transactions: seq![tx] }),
{
    let key = key_of(tx);
    lemma_keys_push(txs, tx);
    lemma_key_occurs(txs, key);
    assert forall|k: Seq<char>| true implies #[trigger] partition_of(txs.push(tx), k) == if key
        == k {
        partition_of(txs, k).push(tx)
    } else {
        partition_of(txs, k)
    } by {
        lemma_partition_push(txs, tx, k);
    }
}

/// The number of transactions in all of `batches` together.
pub open spec fn total_transactions(batches: Seq<PartitionBatchView>) -> nat
    decreases batches.len(),
{
    if batches.len() == 0 {
        0
    } else {
        total_transactions(batches.drop_last()) + batches.last().transactions.len()
    }
}

/// Replacing one batch changes the total by the difference in its size.
pub proof fn lemma_total_after_update(
    batches: Seq<PartitionBatchView>,
    j: int,
    batch: PartitionBatchView,
)
    requires
        0 <= j < batches.len(),
    ensures
        total_transactions(batches.update(j, batch)) + batches[j].transactions.len()
            == total_transactions(batches) + batch.transactions.len(),
    decreases batches.len(),
{
    let updated = batches.update(j, batch);
    if j == batches.len() - 1 {
        assert(updated.drop_last() =~= batches.drop_last());
    } else {
        assert(updated.drop_last() =~= batches.drop_last().update(j, batch));
        lemma_total_after_update(batches.drop_last(), j, batch);
    }
}

/// Separation keeps every transaction and repeats none: the batches hold as
/// many transactions as went in, while each batch holds exactly those of
/// its key.
pub proof fn separated_keeps_the_count(txs: Seq<TransactionView>)
    ensures
        total_transactions(separated(txs)) == txs.len(),
    decreases txs.len(),
{
    if txs.len() > 0 {
        let earlier = txs.drop_last();
        let tx = txs.last();
        let key = key_of(tx);
        assert(earlier.push(tx) =~= txs);
        separated_keeps_the_count(earlier);
        lemma_separated_push(earlier, tx);
        lemma_key_occurs(earlier, key);
        if keys_in_order(earlier).contains(key) {
            let grown = PartitionBatchView { key, transactions: partition_of(earlier, key).push(tx) };
            lemma_total_after_update(
                separated(earlier),
                keys_in_order(earlier).index_of(key),
                grown,
            );
        } else {
            let opened = PartitionBatchView { key, transactions: seq![tx] };
            assert(separated(earlier).push(opened).drop_last() =~= separated(earlier));
        }
    }
}

/// Merging is idempotent on an empty batch: once a run of transactions has
/// been merged into a partition, merging an empty batch leaves the document
/// exactly as that one merge left it. Into an empty partition, the merge
/// gives the run itself.
pub proof fn empty_batch_changes_nothing(
    existing: Option<Seq<TransactionView>>,
    txs: Seq<TransactionView>,
)
    ensures
        merged(Some(merged(existing, txs)), Seq::empty()) == merged(existing, txs),
        existing is None || existing == Some(Seq::<TransactionView>::empty()) ==> merged(
            existing,
            txs,
        ) == txs,
{
}

/// Merging two batches one after the other is merging them joined, so a
/// partition written transaction by transaction holds what one merge of the
/// whole run would have left.
pub proof fn merges_compose(
    existing: Option<Seq<TransactionView>>,
    first: Seq<TransactionView>,
    second: Seq<TransactionView>,
)
    ensures
        merged(Some(merged(existing, first)), second) == merged(existing, first + second),
{
}

} // verus!
