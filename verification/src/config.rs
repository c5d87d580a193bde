//! The parameters of one run, and how they are made from the command line
//! and the environment.

use vstd::prelude::*;
use vstd::std_specs::iter::IteratorSpec;
use vstd::string::*;

verus! {

/// Name of the environment variable that switches to the case-insensitive
/// search.  Only its presence counts, not its value.
pub const CASE_VARIABLE: &'static str = "LGREP_CASE_INSENSITIVE";

/// What `Config::new` answers where the command line gives no query.
pub const MISSING_QUERY: &'static str = "Did not get a query string";

/// What `Config::new` answers where the command line gives a query and no
/// file name.
pub const MISSING_FILENAME: &'static str = "Did not get a file name";

/// The arguments give a query: an argument that is not empty follows the
/// program name.
pub open spec fn gives_query(args: Seq<String>) -> bool {
    args.len() > 1 && args[1]@.len() > 0
}

/// The arguments give a file name: an argument that is not empty follows
/// the query.
pub open spec fn gives_filename(args: Seq<String>) -> bool {
    args.len() > 2 && args[2]@.len() > 0
}

/// What a `Config` holds.
pub struct Parameters {
    /// The text to look for.
    pub query: Seq<char>,
    /// Path of the file to look in.
    pub filename: Seq<char>,
    /// Whether letter case counts in the search.
    pub case_sensitive: bool,
}

/// The parameters of one run.  They are set when the value is made and
/// stay as they are; neither the query nor the file name is empty.
#[derive(Debug)]
pub struct Config {
    query: String,
    filename: String,
    case_sensitive: bool,
}

impl View for Config {
    type V = Parameters;

    closed spec fn view(&self) -> Parameters {
        Parameters {
            query: self.query@,
            filename: self.filename@,
            case_sensitive: self.case_sensitive,
        }
    }
}

impl Config {
    /// Holds of every `Config`: neither the query nor the file name is
    /// empty.
    #[verifier::type_invariant]
    spec fn query_and_filename_given(self) -> bool {
        self.query@.len() > 0 && self.filename@.len() > 0
    }

    /// Makes the parameters of a run from the arguments of the command line
    /// and from a lookup of environment variables.
    ///
    /// `args` yields the program name, then the query, then the file name;
    /// whatever follows is not looked at.  An empty argument is as good as
    /// none.  `lookup` is asked for `CASE_VARIABLE`, and only where query
    /// and file name are there: the search is case-sensitive exactly where
    /// the variable is not set.
    pub fn new<I, F>(mut args: I, lookup: F) -> (outcome: Result<Config, &'static str>) where
        I: Iterator<Item = String>,
        F: Fn(&str) -> Option<String>,

        requires
            lookup.requires((CASE_VARIABLE,)),
        ensures
            args.obeys_prophetic_iter_laws() ==> match outcome {
                Ok(config) => {
                    &&& gives_query(args.remaining())
                    &&& gives_filename(args.remaining())
                    &&& config@.query == args.remaining()[1]@
                    &&& config@.filename == args.remaining()[2]@
                    &&& exists|value: Option<String>|
                        lookup.ensures((CASE_VARIABLE,), value) && config@.case_sensitive == (
                        value is None)
                },
                Err(message) => if !gives_query(args.remaining()) {
                    message@ == MISSING_QUERY@
                } else {
                    !gives_filename(args.remaining()) && message@ == MISSING_FILENAME@
                },
            },
    {
        args.next();
        let query = match args.next() {
            Some(arg) => arg,
            None => return Err(MISSING_QUERY),
        };
        if query.as_str().is_empty() {
            return Err(MISSING_QUERY);
        }
        let filename = match args.next() {
            Some(arg) => arg,
            None => return Err(MISSING_FILENAME),
        };
        if filename.as_str().is_empty() {
            return Err(MISSING_FILENAME);
        }
        let case_sensitive = lookup(CASE_VARIABLE).is_none();
        Ok(Config { query, filename, case_sensitive })
    }

    /// The text to look for.  It is not empty.
    pub fn query(&self) -> (text: &str)
        ensures
            text@ == self@.query,
            text@.len() > 0,
    {
        proof {
            use_type_invariant(self);
        }
        self.query.as_str()
    }

    /// Path of the file to look in.  It is not empty.
    pub fn filename(&self) -> (path: &str)
        ensures
            path@ == self@.filename,
            path@.len() > 0,
    {
        proof {
            use_type_invariant(self);
        }
        self.filename.as_str()
    }

    /// Whether letter case counts in the search.
    pub fn case_sensitive(&self) -> (flag: bool)
        ensures
            flag == self@.case_sensitive,
    {
        self.case_sensitive
    }
}

} // verus!
