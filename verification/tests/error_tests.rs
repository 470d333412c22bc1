use mempool_partitioner::error_handler::MyError;

#[test]
fn messages_name_the_kind_and_the_cause() {
    assert_eq!(
        MyError::DatabaseError("no such table: mempool".to_string()).message(),
        "database error: no such table: mempool"
    );
    assert_eq!(
        MyError::JsonError("expected value at line 1 column 1".to_string()).message(),
        "json error: expected value at line 1 column 1"
    );
    assert_eq!(
        MyError::RusQLite("permission denied".to_string()).message(),
        "file error: permission denied"
    );
    assert_eq!(
        MyError::StacksCoreErr("bad payload".to_string()).message(),
        "stack core error: bad payload"
    );
    assert_eq!(
        MyError::ParseError("invalid digit found in string".to_string()).message(),
        "parse error: invalid digit found in string"
    );
    assert_eq!(
        MyError::ExpandError("environment variable not found".to_string()).message(),
        "path expansion error: environment variable not found"
    );
}

#[test]
fn message_with_empty_cause_is_the_prefix() {
    assert_eq!(MyError::ParseError(String::new()).message(), "parse error: ");
}

#[test]
fn errors_clone_to_equal_values() {
    let error = MyError::ExpandError("HOME".to_string());
    assert_eq!(error.clone(), error);
    assert_ne!(error, MyError::ParseError("HOME".to_string()));
}
