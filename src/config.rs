//! The run configuration, resolved from invocation arguments.
use vstd::prelude::*;
use vstd::string::StringSliceAdditionalSpecFns;
use vstd::utf8::encode_utf8;
use crate::search::{search, search_case_insenstive, search_folded_spec, search_spec};
use crate::text::{line_bytes, same_text};

verus! {

/// What to search for, where, and whether case is ignored.
#[derive(Debug)]
pub struct Config {
    pub query: String,
    pub filepath: String,
    pub ignore_case: bool,
}

/// Why arguments could not be resolved into a [`Config`].
#[derive(Clone, Copy, Debug, PartialEq, Eq, Structural)]
pub enum ConfigError {
    /// The query or the path is missing.
    InsufficientArguments,
    /// The optional flag position holds something other than a case flag.
    UnrecognizedArgument,
}

/// The long spelling of the flag that asks for case-insensitive search.
pub const IGNORE_CASE_LONG: &'static str = "--ignore_case";

/// The short spelling of the flag that asks for case-insensitive search.
pub const IGNORE_CASE_SHORT: &'static str = "-i";

/// `s` is one of the two spellings of the case-insensitivity flag.
pub open spec fn is_ignore_case_flag(s: Seq<char>) -> bool {
    s == IGNORE_CASE_LONG@ || s == IGNORE_CASE_SHORT@
}

/// The arguments resolve: query and path are there, and the optional fourth
/// argument, if any, is a case flag.
pub open spec fn args_resolve(args: Seq<String>) -> bool {
    args.len() >= 3 && (args.len() == 3 || is_ignore_case_flag(args[3]@))
}

impl Config {
    /// Resolves `args` (program name, query, path, optional case flag) into a
    /// configuration. Without a flag, `ignore_case_env` tells whether the
    /// environment asks for case-insensitive search.
    pub fn build(args: &[String], ignore_case_env: bool) -> (r: Result<Config, ConfigError>)
        ensures
            args@.len() < 3 ==> r == Err::<Config, ConfigError>(
                ConfigError::InsufficientArguments,
            ),
            args@.len() >= 4 && !is_ignore_case_flag(args@[3]@) ==> r == Err::<Config, ConfigError>(
                ConfigError::UnrecognizedArgument,
            ),
            args_resolve(args@) ==> r is Ok,
            r is Ok ==> {
                &&& r->Ok_0.query@ == args@[1]@
                &&& r->Ok_0.filepath@ == args@[2]@
                &&& r->Ok_0.ignore_case == if args@.len() == 3 {
                    ignore_case_env
                } else {
                    true
                }
            },
    {
        if args.len() < 3 {
            return Err(ConfigError::InsufficientArguments);
        }
        let query = args[1].clone();
        let filepath = args[2].clone();
        let ignore_case = if args.len() > 3 {
            let flag = args[3].as_str();
            if same_text(flag, IGNORE_CASE_LONG) || same_text(flag, IGNORE_CASE_SHORT) {
                true
            } else {
                return Err(ConfigError::UnrecognizedArgument);
            }
        } else {
            ignore_case_env
        };
        Ok(Config { query, filepath, ignore_case })
    }
}

/// The lines of `contents` that match the configured query, in the mode the
/// configuration selects.
pub fn matching_lines<'a>(config: &Config, contents: &'a str) -> (r: Vec<&'a str>)
    ensures
        line_bytes(r@) == if config.ignore_case {
            search_folded_spec(encode_utf8(config.query@), contents.spec_bytes())
        } else {
            search_spec(encode_utf8(config.query@), contents.spec_bytes())
        },
{
    if config.ignore_case {
        search_case_insenstive(config.query.as_str(), contents)
    } else {
        search(config.query.as_str(), contents)
    }
}

} // verus!
