use mempool_partitioner::partition_key::{partition_key, partition_path, path_hostile, safe_name, sentinel};
use mempool_partitioner::transaction::TransactionPayload;

fn call(name: &str) -> TransactionPayload {
    TransactionPayload::ContractCall { contract_name: name.to_string() }
}

#[test]
fn contract_call_is_keyed_by_its_contract_name() {
    assert_eq!(partition_key(&call("alpha")), "alpha");
    assert_eq!(partition_key(&call("pox-4")), "pox-4");
    assert_eq!(partition_key(&call("my_contract.v2")), "my_contract.v2");
}

#[test]
fn other_payload_gets_the_sentinel_key() {
    assert_eq!(partition_key(&TransactionPayload::Other), "NO_NAME");
    assert_eq!(sentinel(), "NO_NAME");
}

#[test]
fn empty_name_gets_the_sentinel_key() {
    assert_eq!(partition_key(&call("")), "NO_NAME");
}

#[test]
fn path_hostile_names_get_the_sentinel_key() {
    assert_eq!(partition_key(&call("../etc/passwd")), "NO_NAME");
    assert_eq!(partition_key(&call("a/b")), "NO_NAME");
    assert_eq!(partition_key(&call("a\\b")), "NO_NAME");
    assert_eq!(partition_key(&call("a\0b")), "NO_NAME");
    assert_eq!(partition_key(&call("/")), "NO_NAME");
}

#[test]
fn non_ascii_names_are_kept() {
    assert_eq!(partition_key(&call("caf\u{e9}")), "caf\u{e9}");
}

#[test]
fn same_payload_gives_same_key() {
    let first = partition_key(&call("alpha"));
    let second = partition_key(&call("alpha"));
    assert_eq!(first, second);
    let copy = call("beta").clone();
    assert_eq!(partition_key(&copy), partition_key(&call("beta")));
}

#[test]
fn hostile_characters_are_the_separators_and_null() {
    assert!(path_hostile('/'));
    assert!(path_hostile('\\'));
    assert!(path_hostile('\0'));
    assert!(!path_hostile('a'));
    assert!(!path_hostile('.'));
    assert!(!path_hostile('-'));
}

#[test]
fn safe_names_are_non_empty_and_free_of_hostile_characters() {
    assert!(safe_name("alpha"));
    assert!(safe_name("NO_NAME"));
    assert!(!safe_name(""));
    assert!(!safe_name("al/pha"));
    assert!(!safe_name("alpha\0"));
}

#[test]
fn partition_path_joins_directory_key_and_suffix() {
    assert_eq!(partition_path("add", "alpha"), "add/alpha.json");
    assert_eq!(partition_path("add", "NO_NAME"), "add/NO_NAME.json");
    assert_eq!(partition_path("/var/out", "beta"), "/var/out/beta.json");
}
