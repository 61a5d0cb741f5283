//! Run parameters: the environment-derived matching mode and the
//! `Config` resolved from the command-line arguments.

use vstd::prelude::*;

verus! {

/// Settings derived once from the process environment.
pub struct Env {
    pub case_sensitive: bool,
}

impl Env {
    /// Builds the settings from the looked-up value of the
    /// `CASE_INSENSITIVE` environment variable, `None` when it is absent.
    /// Presence under any value switches matching to case-insensitive;
    /// absence keeps the case-sensitive default.
    pub fn new(case_insensitive: Option<String>) -> (env: Env)
        ensures
            env.case_sensitive == (case_insensitive is None),
    {
        Env { case_sensitive: case_insensitive.is_none() }
    }
}

/// Why no `Config` could be built from the argument list.
#[derive(Debug, PartialEq, Eq, Clone, Copy)]
pub enum ConfigError {
    /// No query argument was supplied.
    MissingQuery,
    /// A query was supplied but no file name after it.
    MissingFilename,
}

/// The resolved, immutable parameters of one run: what to search for,
/// where, and in which matching mode.
#[derive(Debug, PartialEq)]
pub struct Config {
    pub query: String,
    pub filename: String,
    pub case_sensitive: bool,
}

impl Config {
    /// Resolves a `Config` from the argument list, whose first element is
    /// the program name and is skipped: the query and the file name are
    /// the two following arguments, in that order, and the matching mode
    /// is taken from the environment settings.  Fails with
    /// `MissingQuery` when no argument follows the program name, and with
    /// `MissingFilename` when only the query does.
    pub fn new(env: &Env, args: Vec<String>) -> (r: Result<Config, ConfigError>)
        ensures
            args@.len() >= 3 ==> {
                &&& r is Ok
                &&& r->Ok_0.query@ == args@[1]@
                &&& r->Ok_0.filename@ == args@[2]@
                &&& r->Ok_0.case_sensitive == env.case_sensitive
            },
            args@.len() < 2 ==> r == Err::<Config, ConfigError>(ConfigError::MissingQuery),
            args@.len() == 2 ==> r == Err::<Config, ConfigError>(ConfigError::MissingFilename),
    {
        if args.len() < 2 {
            Err(ConfigError::MissingQuery)
        } else if args.len() < 3 {
            Err(ConfigError::MissingFilename)
        } else {
            let query = args[1].clone();
            let filename = args[2].clone();
            Ok(Config { query, filename, case_sensitive: env.case_sensitive })
        }
    }
}

} // verus!
