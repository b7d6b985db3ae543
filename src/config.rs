//! The run configuration, resolved from the command-line arguments and the
//! case-sensitivity switch of the environment.

use crate::search::{search, search_case_insensitive, search_ci_result, search_result, texts};
use vstd::prelude::*;

verus! {

/// What one run searches for, where, and how.
pub struct Config {
    pub query: String,
    pub filename: String,
    pub case_sensitive: bool,
}

/// Why the arguments do not make a configuration.
#[derive(Debug, Clone, Copy, PartialEq, Eq, Structural)]
pub enum ConfigError {
    /// No query followed the program name.
    MissingQuery,
    /// No file name followed the query.
    MissingFilename,
}

/// The words that describe an argument error.
pub open spec fn error_text(e: ConfigError) -> Seq<char> {
    match e {
        ConfigError::MissingQuery => "didnt get a query string"@,
        ConfigError::MissingFilename => "didnt get filename"@,
    }
}

impl ConfigError {
    /// The words that describe this error.
    pub fn message(&self) -> (r: &'static str)
        ensures
            r@ == error_text(*self),
    {
        match self {
            ConfigError::MissingQuery => "didnt get a query string",
            ConfigError::MissingFilename => "didnt get filename",
        }
    }
}

impl Config {
    /// Resolves the configuration from the argument list, whose first entry
    /// is the program's own name, and from whether the case-insensitivity
    /// switch is set in the environment. The second entry is the query, the
    /// third the file name; any further entries are ignored. The search is
    /// case-sensitive exactly when the switch is absent.
    pub fn new(args: Vec<String>, case_insensitive_set: bool) -> (r: Result<Config, ConfigError>)
        ensures
            args.len() < 2 <==> r == Err::<Config, ConfigError>(ConfigError::MissingQuery),
            args.len() == 2 <==> r == Err::<Config, ConfigError>(ConfigError::MissingFilename),
            args.len() >= 3 <==> r is Ok,
            r is Ok ==> r->Ok_0.query@ == args@[1]@ && r->Ok_0.filename@ == args@[2]@
                && r->Ok_0.case_sensitive == !case_insensitive_set,
    {
        if args.len() < 2 {
            return Err(ConfigError::MissingQuery);
        }
        if args.len() < 3 {
            return Err(ConfigError::MissingFilename);
        }
        let query = args[1].clone();
        let filename = args[2].clone();
        Ok(Config { query, filename, case_sensitive: !case_insensitive_set })
    }
}

/// The lines of `contents` that match the configured query, searched with
/// the configured sensitivity to case.
pub fn run_search<'a>(config: &Config, contents: &'a str) -> (r: Vec<&'a str>)
    ensures
        texts(r@) == if config.case_sensitive {
            search_result(config.query@, contents@)
        } else {
            search_ci_result(config.query@, contents@)
        },
{
    if config.case_sensitive {
        search(config.query.as_str(), contents)
    } else {
        search_case_insensitive(config.query.as_str(), contents)
    }
}

} // verus!
