//! From a transaction's payload to the partition it belongs in.
//!
//! A contract call is routed by the name of the contract it calls. Everything
//! else, and every name that could not serve as a file name, goes to one
//! shared partition under a fixed sentinel key.

use crate::transaction::{PayloadView, TransactionPayload};
use vstd::prelude::*;

verus! {

/// The key of the partition for transactions that name no usable contract.
pub open spec fn sentinel_key() -> Seq<char> {
    "NO_NAME"@
}

/// Characters that must never reach a file name: both path separators and
/// the null character.
pub open spec fn is_path_hostile(c: char) -> bool {
    c == '/' || c == '\\' || c == '\0'
}

/// A name that can be used as a partition key as it stands: it is not empty
/// and holds no path-hostile character.
pub open spec fn is_safe_name(name: Seq<char>) -> bool {
    name.len() > 0 && forall|i: int| 0 <= i < name.len() ==> !is_path_hostile(#[trigger] name[i])
}

/// Whether the payload carries a contract name at all.
pub open spec fn names_contract(payload: PayloadView) -> bool {
    payload matches PayloadView::ContractCall { contract_name } && contract_name.len() > 0
}

/// The partition key of a payload: the called contract's name where the
/// payload is a contract call with a safe name, the sentinel otherwise.
pub open spec fn partition_key_of(payload: PayloadView) -> Seq<char> {
    match payload {
        PayloadView::ContractCall { contract_name } => if is_safe_name(contract_name) {
            contract_name
        } else {
            sentinel_key()
        },
        PayloadView::Other => sentinel_key(),
    }
}

/// The path of a partition's file: the output directory, a separator, the
/// key, and the `.json` suffix.
pub open spec fn partition_path_of(output_dir: Seq<char>, key: Seq<char>) -> Seq<char> {
    output_dir + "/"@ + key + ".json"@
}

/// Tells whether `c` is path-hostile.
pub fn path_hostile(c: char) -> (hostile: bool)
    ensures
        hostile == is_path_hostile(c),
{
    c == '/' || c == '\\' || c == '\0'
}

/// Tells whether `name` can be used as a partition key as it stands.
pub fn safe_name(name: &str) -> (safe: bool)
    ensures
        safe == is_safe_name(name@),
{
    let mut hostile_seen = false;
    let mut empty = true;
    for c in it: name.chars()
        invariant
            it.seq() == name@,
            empty == (it.index() == 0),
            hostile_seen == exists|i: int| 0 <= i < it.index() && is_path_hostile(#[trigger] name@[i]),
    {
        if path_hostile(c) {
            hostile_seen = true;
        }
        empty = false;
    }
    !hostile_seen && !empty
}

/// The sentinel key as an owned string.
pub fn sentinel() -> (key: String)
    ensures
        key@ == sentinel_key(),
{
    "NO_NAME".to_owned()
}

/// Derives the partition key of a payload. Never fails: a payload that names
/// no contract, or names one unsafely, gets the sentinel key.
pub fn partition_key(payload: &TransactionPayload) -> (key: String)
    ensures
        key@ == partition_key_of(payload@),
        is_safe_name(key@),
{
    proof {
        sentinel_is_safe();
    }
    match payload {
        TransactionPayload::ContractCall { contract_name } => {
            if safe_name(contract_name.as_str()) {
                contract_name.clone()
            } else {
                sentinel()
            }
        },
        TransactionPayload::Other => sentinel(),
    }
}

/// Builds the path of the file that holds the partition `key` under
/// `output_dir`.
pub fn partition_path(output_dir: &str, key: &str) -> (path: String)
    ensures
        path@ == partition_path_of(output_dir@, key@),
{
    let mut path = output_dir.to_owned();
    path.append("/");
    path.append(key);
    path.append(".json");
    path
}

/// The sentinel key is itself a safe name.
pub proof fn sentinel_is_safe()
    ensures
        is_safe_name(sentinel_key()),
{
    reveal_strlit("NO_NAME");
}

/// Every partition key is a safe name, whatever the payload.
pub proof fn partition_key_is_safe(payload: PayloadView)
    ensures
        is_safe_name(partition_key_of(payload)),
{
    sentinel_is_safe();
}

/// Key derivation is a function of the payload's value: equal payloads get
/// equal keys.
pub proof fn key_derivation_is_deterministic(a: PayloadView, b: PayloadView)
    requires
        a == b,
    ensures
        partition_key_of(a) == partition_key_of(b),
{
}

/// A payload that carries no contract name gets the sentinel key.
pub proof fn nameless_payload_gets_sentinel(payload: PayloadView)
    requires
        !names_contract(payload),
    ensures
        partition_key_of(payload) == sentinel_key(),
{
}

/// Two keys that give the same path under one directory are the same key, so
/// distinct partitions never share a file.
pub proof fn partition_path_is_injective(output_dir: Seq<char>, a: Seq<char>, b: Seq<char>)
    requires
        partition_path_of(output_dir, a) == partition_path_of(output_dir, b),
    ensures
        a == b,
{
    reveal_strlit("/");
    reveal_strlit(".json");
    let path_a = partition_path_of(output_dir, a);
    let path_b = partition_path_of(output_dir, b);
    let start = output_dir.len() + 1;
    assert(path_a.len() == start + a.len() + 5);
    assert(path_b.len() == start + b.len() + 5);
    assert forall|i: int| 0 <= i < a.len() implies a[i] == b[i] by {
        assert(path_a[start + i] == a[i]);
        assert(path_b[start + i] == b[i]);
    }
    assert(a =~= b);
}

} // verus!
