//! One run over the contents of the file.

use vstd::prelude::*;
use crate::config::{Config, Parameters};
use crate::matcher::{
    matching_lines, matching_lines_ignoring_case, search, search_case_insensitive,
};

verus! {

/// The lines that a run with `parameters` writes for a file that holds
/// `contents`, in the order in which it writes them.
pub open spec fn selected_lines(parameters: Parameters, contents: Seq<char>) -> Seq<Seq<char>> {
    if parameters.case_sensitive {
        matching_lines(parameters.query, contents)
    } else {
        matching_lines_ignoring_case(parameters.query, contents)
    }
}

/// Searches `contents`, the text of the file that `config` names, for the
/// query of `config`, with the search that `config` asks for.  The caller
/// reads the file before and writes the lines after, one per line.
pub fn run<'a>(config: Config, contents: &'a str) -> (out: Vec<&'a str>)
    ensures
        out.deep_view() == selected_lines(config@, contents@),
{
    if config.case_sensitive() {
        search(config.query(), contents)
    } else {
        search_case_insensitive(config.query(), contents)
    }
}

} // verus!
