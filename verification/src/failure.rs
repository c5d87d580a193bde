//! How the program ends: the two kinds of failure, what is written for each,
//! and the exit code.

use vstd::prelude::*;
use vstd::string::*;

verus! {

/// What stands before the message where the arguments were at fault.
pub const ARGUMENTS_PREFIX: &'static str = "Problem parsing arguments: ";

/// What stands before the message where the run itself failed.
pub const APPLICATION_PREFIX: &'static str = "Application error: ";

/// Why the program ends without having searched.  Either failure ends it:
/// nothing is tried again, and no line is written to the output.
#[derive(Debug)]
pub enum Failure {
    /// The command line did not give a query and a file name.  Holds the
    /// message of `Config::new`.
    Arguments(&'static str),
    /// The file could not be read as text.  Holds the words of the error,
    /// as the system gave them.
    Application(String),
}

impl Failure {
    /// The line written to the diagnostic stream.
    pub open spec fn text(self) -> Seq<char> {
        match self {
            Failure::Arguments(message) => ARGUMENTS_PREFIX@ + message@,
            Failure::Application(message) => APPLICATION_PREFIX@ + message@,
        }
    }

    /// The line to write to the diagnostic stream: what kind of failure it
    /// was, then its message.
    pub fn message(&self) -> (line: String)
        ensures
            line@ == self.text(),
    {
        match self {
            Failure::Arguments(message) => String::from_str(ARGUMENTS_PREFIX).concat(message),
            Failure::Application(message) => String::from_str(APPLICATION_PREFIX).concat(
                message.as_str(),
            ),
        }
    }
}

/// The exit code of the program: 0 where the run went through, even if no
/// line matched, and 1 after a failure of either kind.
pub fn exit_code(outcome: &Result<(), Failure>) -> (code: i32)
    ensures
        code == (if outcome is Ok { 0i32 } else { 1i32 }),
{
    match outcome {
        Ok(_) => 0,
        Err(_) => 1,
    }
}

} // verus!
