//! Configuration: parse the command-line argument list into a validated
//! configuration value and select the search mode it names.
//!
//! Case-insensitivity is switched on by an optional third positional
//! argument: the switch is set exactly when that argument contains the
//! character `i` anywhere in its text.

use vstd::prelude::*;

use crate::search::{search, search_case_insesitive, search_ci_spec, search_spec};
use crate::text::contains_char;

verus! {

/// The optional behaviour switches of a run.
#[derive(Debug, PartialEq, Eq, Structural)]
pub enum Arguments {
    /// Lines match after simple case folding of both query and line.
    CaseInsensitive,
    /// No optional switch was given: lines match the query exactly.
    CaseSensitive,
}

/// A validated configuration: what to search for, where, and how.
pub struct Config {
    /// The substring to search for within each line.
    pub query: String,
    /// The path of the file whose lines are searched.
    pub file_path: String,
    /// The optional behaviour switches.
    pub arguments: Arguments,
}

/// The switches named by the optional argument text: case-insensitive
/// exactly when the text contains the character `i`.
pub open spec fn arguments_of(extra: Seq<char>) -> Arguments {
    if extra.contains('i') {
        Arguments::CaseInsensitive
    } else {
        Arguments::CaseSensitive
    }
}

/// The switches named by a full argument list: those of the fourth element
/// where one is present, and none otherwise.
pub open spec fn config_arguments_of(args: Seq<String>) -> Arguments {
    if args.len() > 3 {
        arguments_of(args[3]@)
    } else {
        Arguments::CaseSensitive
    }
}

impl Config {
    /// Builds a configuration from the argument list, whose first element is
    /// the program name.  The query and the file path are the first two
    /// positional arguments; fewer than two is an error.  An optional third
    /// positional argument switches on case-insensitive search.
    pub fn build(args: &[String]) -> (result: Result<Config, &'static str>)
        ensures
            match result {
                Ok(config) => {
                    &&& args@.len() >= 3
                    &&& config.query@ == args@[1]@
                    &&& config.file_path@ == args@[2]@
                    &&& config.arguments == config_arguments_of(args@)
                },
                Err(msg) => {
                    &&& args@.len() < 3
                    &&& msg@ == "not enough arguments"@
                },
            },
    {
        if args.len() < 3 {
            return Err("not enough arguments");
        }
        let query = args[1].clone();
        let file_path = args[2].clone();
        let arguments = if args.len() > 3 {
            Config::check_arguments(&args[3])
        } else {
            Arguments::CaseSensitive
        };
        Ok(Config { query, file_path, arguments })
    }

    /// Reads the optional argument text: case-insensitive search is switched
    /// on exactly when the text contains the character `i`.
    pub fn check_arguments(args: &String) -> (arguments: Arguments)
        ensures
            arguments == arguments_of(args@),
    {
        let mut arguments = Arguments::CaseSensitive;
        if contains_char(args.as_str(), 'i') {
            arguments = Arguments::CaseInsensitive;
        }
        arguments
    }

    /// Runs the search mode that this configuration selects over `contents`
    /// and returns the matching lines.
    pub fn search_lines<'a>(&self, contents: &'a str) -> (results: Vec<&'a str>)
        ensures
            results.deep_view() == (if self.arguments is CaseInsensitive {
                search_ci_spec(self.query@, contents@)
            } else {
                search_spec(self.query@, contents@)
            }),
    {
        if self.arguments == Arguments::CaseInsensitive {
            search_case_insesitive(self.query.as_str(), contents)
        } else {
            search(self.query.as_str(), contents)
        }
    }
}

} // verus!
