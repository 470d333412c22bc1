//! Where the poller reads and writes: the paths it is configured with.
//!
//! Each configured path may use a leading `~` for the home directory and
//! `$NAME` or `${NAME}` for environment variables. The paths are expanded
//! once, at startup; a path that cannot be expanded stops the startup.

use crate::error_handler::{MyError, MyErrorView};
use vstd::prelude::*;

verus! {

/// The archive file that is used where none is configured.
pub const DEFAULT_OUTPUT_FILE_NAME: &'static str = "output.json";

/// The watermark file that is used where none is configured.
pub const DEFAULT_LAST_ACCEPT_TIME_FILE_NAME: &'static str = "last_accept_time";

/// The directory that holds the partition files.
pub const DEFAULT_PARTITION_DIR: &'static str = "add";

/// The pause between two poll cycles, in seconds.
pub const DEFAULT_POLL_INTERVAL_SECS: u64 = 5;

/// The expanded paths that the poller works with.
#[derive(Debug, PartialEq, Eq)]
pub struct Config {
    /// The transaction store.
    pub mempool_db: String,
    /// The watermark file.
    pub last_accept_file: String,
    /// The archive file.
    pub output: String,
}

/// Mathematical value of a [`Config`].
pub struct ConfigView {
    pub mempool_db: Seq<char>,
    pub last_accept_file: Seq<char>,
    pub output: Seq<char>,
}

impl View for Config {
    type V = ConfigView;

    open spec fn view(&self) -> ConfigView {
        ConfigView {
            mempool_db: self.mempool_db@,
            last_accept_file: self.last_accept_file@,
            output: self.output@,
        }
    }
}

/// Whether `path` refers to a variable: it holds a `$`.
pub open spec fn has_variable(path: Seq<char>) -> bool {
    path.contains('$')
}

/// Whether expansion can change `path` at all: it holds a `$`, or it starts
/// with `~`.
pub open spec fn needs_expansion(path: Seq<char>) -> bool {
    has_variable(path) || (path.len() > 0 && path[0] == '~')
}

/// The outcome of an expansion that left `path` as it was.
pub open spec fn unchanged(path: Seq<char>) -> Result<Seq<char>, Seq<char>> {
    Ok(path)
}

/// The outcome of an expansion as a value: the expanded path, or the text of
/// the failure.
pub open spec fn expansion_view(expanded: Result<String, String>) -> Result<Seq<char>, Seq<char>> {
    match expanded {
        Ok(path) => Ok(path@),
        Err(reason) => Err(reason@),
    }
}

/// The configuration that three expansions give. The paths are taken in the
/// order watermark file, store, archive file: the first that failed decides
/// the error, and only if none failed is there a configuration.
pub open spec fn resolved(
    mempool_db: Result<Seq<char>, Seq<char>>,
    last_accept_file: Result<Seq<char>, Seq<char>>,
    output: Result<Seq<char>, Seq<char>>,
) -> Result<ConfigView, MyErrorView> {
    match (last_accept_file, mempool_db, output) {
        (Err(reason), _, _) => Err(MyErrorView::ExpandError(reason)),
        (Ok(_), Err(reason), _) => Err(MyErrorView::ExpandError(reason)),
        (Ok(_), Ok(_), Err(reason)) => Err(MyErrorView::ExpandError(reason)),
        (Ok(last_accept_file), Ok(mempool_db), Ok(output)) => Ok(
            ConfigView { mempool_db, last_accept_file, output },
        ),
    }
}

/// The outcome of a resolution as a value.
pub open spec fn resolution_view(outcome: Result<Config, MyError>) -> Result<
    ConfigView,
    MyErrorView,
> {
    match outcome {
        Ok(config) => Ok(config@),
        Err(error) => Err(error@),
    }
}

/// Expands `path` with `shellexpand::full`, which replaces a leading `~` by
/// the home directory and `$NAME` or `${NAME}` by the value of the
/// environment variable, and fails where a variable cannot be looked up.
///
/// What comes back depends on the environment, so the contract states only
/// what holds in every environment: without a `$` the expansion succeeds,
/// and a path that has neither a `$` nor a leading `~` comes back unchanged.
#[verifier::external_body]
fn expand_full(path: &str) -> (expanded: Result<String, String>)
    ensures
        !has_variable(path@) ==> expanded is Ok,
        !needs_expansion(path@) ==> expansion_view(expanded) == unchanged(path@),
{
    match shellexpand::full(path) {
        Ok(expanded) => Ok(expanded.into_owned()),
        Err(error) => Err(format!("{error}")),
    }
}

impl Config {
    /// Builds the configuration from the outcomes of the three expansions.
    pub fn from_expanded(
        mempool_db: Result<String, String>,
        last_accept_file: Result<String, String>,
        output: Result<String, String>,
    ) -> (outcome: Result<Config, MyError>)
        ensures
            resolution_view(outcome) == resolved(
                expansion_view(mempool_db),
                expansion_view(last_accept_file),
                expansion_view(output),
            ),
    {
        let last_accept_file = match last_accept_file {
            Ok(path) => path,
            Err(reason) => {
                return Err(MyError::ExpandError(reason));
            },
        };
        let mempool_db = match mempool_db {
            Ok(path) => path,
            Err(reason) => {
                return Err(MyError::ExpandError(reason));
            },
        };
        let output = match output {
            Ok(path) => path,
            Err(reason) => {
                return Err(MyError::ExpandError(reason));
            },
        };
        Ok(Config { mempool_db, last_accept_file, output })
    }

    /// Expands the three configured paths and builds the configuration.
    ///
    /// Paths that need no expansion are taken as they are, and where none of
    /// the three needs any the configuration is certain. Otherwise the
    /// environment decides; the only error is an expansion error.
    pub fn resolve(mempool_db: &str, last_accept_file: &str, output: &str) -> (outcome: Result<
        Config,
        MyError,
    >)
        ensures
            !needs_expansion(mempool_db@) && !needs_expansion(last_accept_file@)
                && !needs_expansion(output@) ==> resolution_view(outcome) == Ok::<
                ConfigView,
                MyErrorView,
            >(
                ConfigView {
                    mempool_db: mempool_db@,
                    last_accept_file: last_accept_file@,
                    output: output@,
                },
            ),
            !has_variable(mempool_db@) && !has_variable(last_accept_file@) && !has_variable(
                output@,
            ) ==> outcome is Ok,
            outcome matches Ok(config) ==> {
                &&& !needs_expansion(mempool_db@) ==> config@.mempool_db == mempool_db@
                &&& !needs_expansion(last_accept_file@) ==> config@.last_accept_file
                    == last_accept_file@
                &&& !needs_expansion(output@) ==> config@.output == output@
            },
            outcome matches Err(error) ==> error@ is ExpandError,
    {
        let expanded_last_accept_file = expand_full(last_accept_file);
        let expanded_mempool_db = expand_full(mempool_db);
        let expanded_output = expand_full(output);
        Config::from_expanded(expanded_mempool_db, expanded_last_accept_file, expanded_output)
    }
}

} // verus!
