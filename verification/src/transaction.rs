//! Transactions as the poller sees them: an encoded record, the payload that
//! decoding revealed, and the time at which the store accepted it.

use vstd::prelude::*;

verus! {

/// What a transaction asks for, reduced to what routing depends on.
#[derive(Debug, PartialEq, Eq)]
pub enum TransactionPayload {
    /// A call into a deployed contract, carrying that contract's name.
    ContractCall { contract_name: String },
    /// Any other kind of payload. None of them names a contract to route by.
    Other,
}

/// Mathematical value of a [`TransactionPayload`].
pub enum PayloadView {
    ContractCall { contract_name: Seq<char> },
    Other,
}

impl View for TransactionPayload {
    type V = PayloadView;

    open spec fn view(&self) -> PayloadView {
        match self {
            TransactionPayload::ContractCall { contract_name } => PayloadView::ContractCall {
                contract_name: contract_name@,
            },
            TransactionPayload::Other => PayloadView::Other,
        }
    }
}

impl Clone for TransactionPayload {
    fn clone(&self) -> (copy: Self)
        ensures
            copy@ == self@,
    {
        match self {
            TransactionPayload::ContractCall { contract_name } => TransactionPayload::ContractCall {
                contract_name: contract_name.clone(),
            },
            TransactionPayload::Other => TransactionPayload::Other,
        }
    }
}

/// One mempool entry: the bytes it is stored as and its decoded payload.
///
/// The poller never looks inside `encoded`; it only carries the record from
/// the store to the archive and to a partition.
#[derive(Debug, PartialEq, Eq)]
pub struct Transaction {
    pub payload: TransactionPayload,
    pub encoded: Vec<u8>,
}

/// Mathematical value of a [`Transaction`].
pub struct TransactionView {
    pub payload: PayloadView,
    pub encoded: Seq<u8>,
}

impl View for Transaction {
    type V = TransactionView;

    open spec fn view(&self) -> TransactionView {
        TransactionView { payload: self.payload@, encoded: self.encoded@ }
    }
}

impl Clone for Transaction {
    fn clone(&self) -> (copy: Self)
        ensures
            copy@ == self@,
    {
        let encoded = self.encoded.clone();
        assert(encoded@ =~= self.encoded@);
        Transaction { payload: self.payload.clone(), encoded }
    }
}

/// A row of the transaction store: a transaction and the time at which the
/// store accepted it. The accept time is the value the watermark tracks.
#[derive(Debug, PartialEq, Eq)]
pub struct TxInfo {
    pub tx: Transaction,
    pub accept_time: u64,
}

/// Mathematical value of a [`TxInfo`].
pub struct TxInfoView {
    pub tx: TransactionView,
    pub accept_time: u64,
}

impl View for TxInfo {
    type V = TxInfoView;

    open spec fn view(&self) -> TxInfoView {
        TxInfoView { tx: self.tx@, accept_time: self.accept_time }
    }
}

impl Clone for TxInfo {
    fn clone(&self) -> (copy: Self)
        ensures
            copy@ == self@,
    {
        TxInfo { tx: self.tx.clone(), accept_time: self.accept_time }
    }
}

/// The values of a sequence of transactions, in order.
pub open spec fn transaction_views(txs: Seq<Transaction>) -> Seq<TransactionView> {
    txs.map_values(|tx: Transaction| tx@)
}

/// The values of a sequence of store rows, in order.
pub open spec fn row_views(rows: Seq<TxInfo>) -> Seq<TxInfoView> {
    rows.map_values(|row: TxInfo| row@)
}

} // verus!
