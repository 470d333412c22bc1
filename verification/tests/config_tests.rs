use mempool_partitioner::config::{
    Config, DEFAULT_LAST_ACCEPT_TIME_FILE_NAME, DEFAULT_OUTPUT_FILE_NAME, DEFAULT_PARTITION_DIR,
    DEFAULT_POLL_INTERVAL_SECS,
};
use mempool_partitioner::error_handler::MyError;

fn ok(path: &str) -> Result<String, String> {
    Ok(path.to_string())
}

fn failed(reason: &str) -> Result<String, String> {
    Err(reason.to_string())
}

#[test]
fn defaults_have_their_fixed_values() {
    assert_eq!(DEFAULT_OUTPUT_FILE_NAME, "output.json");
    assert_eq!(DEFAULT_LAST_ACCEPT_TIME_FILE_NAME, "last_accept_time");
    assert_eq!(DEFAULT_PARTITION_DIR, "add");
    assert_eq!(DEFAULT_POLL_INTERVAL_SECS, 5);
}

#[test]
fn three_expanded_paths_make_a_configuration() {
    let config = Config::from_expanded(ok("/data/mempool.sqlite"), ok("/data/last"), ok("/data/out.json"));
    assert_eq!(
        config,
        Ok(Config {
            mempool_db: "/data/mempool.sqlite".to_string(),
            last_accept_file: "/data/last".to_string(),
            output: "/data/out.json".to_string(),
        })
    );
}

#[test]
fn first_failed_expansion_decides_the_error() {
    assert_eq!(
        Config::from_expanded(failed("db"), failed("watermark"), failed("archive")),
        Err(MyError::ExpandError("watermark".to_string()))
    );
    assert_eq!(
        Config::from_expanded(failed("db"), ok("last"), failed("archive")),
        Err(MyError::ExpandError("db".to_string()))
    );
    assert_eq!(
        Config::from_expanded(ok("db"), ok("last"), failed("archive")),
        Err(MyError::ExpandError("archive".to_string()))
    );
    assert_eq!(
        Config::from_expanded(ok("db"), failed("watermark"), ok("out")),
        Err(MyError::ExpandError("watermark".to_string()))
    );
}

#[test]
fn plain_paths_resolve_to_themselves() {
    let config = Config::resolve("mempool.sqlite", "last_accept_time", "output.json");
    assert_eq!(
        config,
        Ok(Config {
            mempool_db: "mempool.sqlite".to_string(),
            last_accept_file: "last_accept_time".to_string(),
            output: "output.json".to_string(),
        })
    );
}

#[test]
fn tilde_inside_a_path_is_left_alone() {
    let config = Config::resolve("data/~backup/db", "a~b", "out~").unwrap();
    assert_eq!(config.mempool_db, "data/~backup/db");
    assert_eq!(config.last_accept_file, "a~b");
    assert_eq!(config.output, "out~");
}

#[test]
fn variable_with_default_is_expanded() {
    let config = Config::resolve(
        "${MEMPOOL_PARTITIONER_TEST_UNSET_DB:-fallback}/mempool.sqlite",
        "last_accept_time",
        "output.json",
    )
    .unwrap();
    assert_eq!(config.mempool_db, "fallback/mempool.sqlite");
    assert_eq!(config.last_accept_file, "last_accept_time");
}

#[test]
fn unknown_variable_stops_the_startup() {
    let outcome = Config::resolve(
        "mempool.sqlite",
        "$MEMPOOL_PARTITIONER_TEST_UNSET_WATERMARK/last",
        "output.json",
    );
    assert!(matches!(outcome, Err(MyError::ExpandError(_))));
    if let Err(error) = outcome {
        assert!(error.message().starts_with("path expansion error: "));
        assert!(error.message().contains("MEMPOOL_PARTITIONER_TEST_UNSET_WATERMARK"));
    }
}

#[test]
fn failing_watermark_path_is_reported_before_the_others() {
    let outcome = Config::resolve(
        "$MEMPOOL_PARTITIONER_TEST_UNSET_ONE",
        "$MEMPOOL_PARTITIONER_TEST_UNSET_TWO",
        "$MEMPOOL_PARTITIONER_TEST_UNSET_THREE",
    );
    match outcome {
        Err(error) => assert!(error.message().contains("MEMPOOL_PARTITIONER_TEST_UNSET_TWO")),
        Ok(_) => panic!("an unset variable must not expand"),
    }
}
