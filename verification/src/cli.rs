//! The command line of the merge tool, as values.

use std::path::PathBuf;
use vstd::prelude::*;

verus! {

/// `std::path::PathBuf`, which is carried and never looked into.
#[verifier::external_type_specification]
#[verifier::external_body]
pub struct ExPathBuf(PathBuf);

/// What was asked for on the command line.
#[derive(Debug)]
pub struct Cli {
    /// The path where the json collection lies
    pub path: PathBuf,
    /// Activate debug mode
    pub debug: bool,
    /// Activate info mode
    pub info: bool,
}

/// How much of what the tool does is reported.
#[derive(Clone, Copy, Debug, PartialEq, Eq)]
pub enum Verbosity {
    /// Warnings and errors only.
    Warn,
    /// The directories as they are taken up and left.
    Info,
    /// Every entry and every list of files as well.
    Debug,
}

impl Cli {
    /// The verbosity that the two flags ask for; `debug` outranks `info`.
    pub fn verbosity(&self) -> (level: Verbosity)
        ensures
            level == if self.debug {
                Verbosity::Debug
            } else if self.info {
                Verbosity::Info
            } else {
                Verbosity::Warn
            },
    {
        let mut level = Verbosity::Warn;
        if self.info {
            level = Verbosity::Info;
        }
        if self.debug {
            level = Verbosity::Debug;
        }
        level
    }
}

} // verus!
