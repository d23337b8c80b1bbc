//! Configuration resolution: positional arguments and the case-sensitivity
//! toggle become a validated, immutable `Config`, or a `MissingArgument`
//! error naming the first absent argument.

use vstd::prelude::*;

verus! {

/// Which positional argument was absent when the configuration was resolved.
#[derive(Clone, Copy, Debug, PartialEq, Eq, Structural)]
pub enum MissingPart {
    Query,
    Filename,
}

/// The closed set of failures: a missing positional argument, or an
/// input/output failure carrying the underlying system message.
#[derive(Debug)]
pub enum AppError {
    MissingArgument(MissingPart),
    IoError(String),
}

impl AppError {
    /// The human-readable message for this error, as the top level prints it.
    pub fn message(&self) -> (r: String)
        ensures
            r@ == (match self {
                AppError::MissingArgument(MissingPart::Query) => "Didn't get a query string"@,
                AppError::MissingArgument(MissingPart::Filename) => "Didn't get a file name"@,
                AppError::IoError(m) => m@,
            }),
    {
        match self {
            AppError::MissingArgument(MissingPart::Query) => "Didn't get a query string".to_owned(),
            AppError::MissingArgument(MissingPart::Filename) => "Didn't get a file name".to_owned(),
            AppError::IoError(m) => m.clone(),
        }
    }
}

/// The resolved run parameters: the query to look for, the name of the file
/// to search, and whether matching is case-sensitive.
pub struct Config {
    pub query: String,
    pub filename: String,
    pub case_sensitive: bool,
}

/// Resolves a configuration from the invocation arguments (the program's own
/// name excluded) and from whether the case-insensitivity variable is present
/// in the environment. The first argument is the query, the second the
/// filename; fewer than two arguments fail, naming the first missing one.
pub fn parse_args(args: &Vec<String>, case_insensitive: bool) -> (r: Result<Config, AppError>)
    ensures
        args@.len() == 0 ==> r == Err::<Config, AppError>(
            AppError::MissingArgument(MissingPart::Query),
        ),
        args@.len() == 1 ==> r == Err::<Config, AppError>(
            AppError::MissingArgument(MissingPart::Filename),
        ),
        args@.len() >= 2 ==> (match r {
            Ok(c) => c.query@ == args@[0]@ && c.filename@ == args@[1]@ && c.case_sensitive
                == !case_insensitive,
            Err(_) => false,
        }),
{
    if args.len() == 0 {
        return Err(AppError::MissingArgument(MissingPart::Query));
    }
    if args.len() == 1 {
        return Err(AppError::MissingArgument(MissingPart::Filename));
    }
    let query = args[0].clone();
    let filename = args[1].clone();
    Ok(Config { query, filename, case_sensitive: !case_insensitive })
}

impl Config {
    /// Builds a configuration from an explicit argument list, exactly as
    /// `parse_args` does.
    pub fn new(args: &Vec<String>, case_insensitive: bool) -> (r: Result<Config, AppError>)
        ensures
            args@.len() == 0 ==> r == Err::<Config, AppError>(
                AppError::MissingArgument(MissingPart::Query),
            ),
            args@.len() == 1 ==> r == Err::<Config, AppError>(
                AppError::MissingArgument(MissingPart::Filename),
            ),
            args@.len() >= 2 ==> (match r {
                Ok(c) => c.query@ == args@[0]@ && c.filename@ == args@[1]@ && c.case_sensitive
                    == !case_insensitive,
                Err(_) => false,
            }),
    {
        parse_args(args, case_insensitive)
    }
}

} // verus!
