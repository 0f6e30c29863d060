//! Validating the arguments of a search invocation.

use vstd::prelude::*;

verus! {

/// Why an invocation could not be turned into a [`Config`].
#[derive(Debug, Clone, Copy, PartialEq, Eq, Structural)]
pub enum ConfigError {
    /// No query followed the program name.
    MissingQuery,
    /// No file path followed the query.
    MissingPath,
}

impl ConfigError {
    /// The message shown to the user for this error.
    pub fn message(&self) -> (r: &'static str)
        ensures
            *self == ConfigError::MissingQuery ==> r@ == "Missing the query string"@,
            *self == ConfigError::MissingPath ==> r@ == "Missing the file path"@,
    {
        match self {
            ConfigError::MissingQuery => "Missing the query string",
            ConfigError::MissingPath => "Missing the file path",
        }
    }
}

/// The parameters of one search: what to look for, where, and whether
/// letter case is ignored. Once built it is never changed.
pub struct Config {
    query: String,
    file_path: String,
    ignore_case: bool,
}

impl Config {
    /// The query of this configuration.
    pub closed spec fn spec_query(&self) -> Seq<char> {
        self.query@
    }

    /// The document location of this configuration.
    pub closed spec fn spec_file_path(&self) -> Seq<char> {
        self.file_path@
    }

    /// Whether this configuration ignores letter case.
    pub closed spec fn spec_ignore_case(&self) -> bool {
        self.ignore_case
    }

    /// Builds a configuration from the invocation's arguments: the first
    /// (the program name) is skipped, the second is the query and the third
    /// the file path; any further ones are ignored. `ignore_case` tells
    /// whether case-insensitive search was asked for, and is kept as given.
    pub fn build(args: Vec<String>, ignore_case: bool) -> (r: Result<Config, ConfigError>)
        ensures
            args@.len() <= 1 <==> r == Err::<Config, ConfigError>(ConfigError::MissingQuery),
            args@.len() == 2 <==> r == Err::<Config, ConfigError>(ConfigError::MissingPath),
            args@.len() >= 3 <==> r is Ok,
            r is Ok ==> r->Ok_0.spec_query() == args@[1]@ && r->Ok_0.spec_file_path()
                == args@[2]@ && r->Ok_0.spec_ignore_case() == ignore_case,
    {
        if args.len() < 2 {
            return Err(ConfigError::MissingQuery);
        }
        let query = args[1].clone();
        if args.len() < 3 {
            return Err(ConfigError::MissingPath);
        }
        let file_path = args[2].clone();
        Ok(Config { query, file_path, ignore_case })
    }

    /// The text searched for.
    pub fn query(&self) -> (r: &str)
        ensures
            r@ == self.spec_query(),
    {
        self.query.as_str()
    }

    /// Where the document to search is found.
    pub fn file_path(&self) -> (r: &str)
        ensures
            r@ == self.spec_file_path(),
    {
        self.file_path.as_str()
    }

    /// Whether letter case is ignored.
    pub fn ignore_case(&self) -> (r: bool)
        ensures
            r == self.spec_ignore_case(),
    {
        self.ignore_case
    }
}

} // verus!
