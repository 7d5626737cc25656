//! Resolving what to search for, and where, from a list of arguments.

use vstd::prelude::*;

verus! {

/// What to search for, and the file to search in.
pub struct Config {
    pub query: String,
    pub file_path: String,
}

/// Why a list of arguments gives no `Config`.
#[derive(Debug, Clone, Copy, PartialEq, Eq, Structural)]
pub enum ConfigError {
    /// The list holds no argument after the program's name.
    MissingQuery,
    /// The list holds a query and nothing after it.
    MissingFilePath,
}

/// What `args` resolves to. The first argument, the program's name, is passed
/// over; the second is the query and the third the file path. Arguments after
/// the third are not read.
pub open spec fn resolved(args: Seq<String>) -> Result<(Seq<char>, Seq<char>), ConfigError> {
    if args.len() < 2 {
        Err(ConfigError::MissingQuery)
    } else if args.len() < 3 {
        Err(ConfigError::MissingFilePath)
    } else {
        Ok((args[1]@, args[2]@))
    }
}

impl ConfigError {
    /// The reason in words, for a message to the user.
    pub fn message(&self) -> (reason: &'static str)
        ensures
            reason@ == match *self {
                ConfigError::MissingQuery => "Didn't get a query string"@,
                ConfigError::MissingFilePath => "Didn't get a file path"@,
            },
    {
        match self {
            ConfigError::MissingQuery => "Didn't get a query string",
            ConfigError::MissingFilePath => "Didn't get a file path",
        }
    }
}

impl View for Config {
    type V = (Seq<char>, Seq<char>);

    /// The query and the file path as character sequences.
    open spec fn view(&self) -> (Seq<char>, Seq<char>) {
        (self.query@, self.file_path@)
    }
}

impl Config {
    /// Resolves `args`, the arguments of an invocation with the program's name
    /// first, to a `Config`. Nothing is checked of the file path.
    pub fn build(args: Vec<String>) -> (config: Result<Config, ConfigError>)
        ensures
            resolved(args@) == match config {
                Ok(c) => Ok(c@),
                Err(e) => Err(e),
            },
    {
        let mut args = args;
        if args.len() < 2 {
            return Err(ConfigError::MissingQuery);
        }
        if args.len() < 3 {
            return Err(ConfigError::MissingFilePath);
        }
        args.truncate(3);
        let file_path = args.pop().unwrap();
        let query = args.pop().unwrap();
        Ok(Config { query, file_path })
    }
}

} // verus!
