//! The errors of the application.
use vstd::prelude::*;

verus! {

#[verifier::external_type_specification]
#[verifier::external_body]
pub struct ExIoError(std::io::Error);

/// The ways in which the application can stop with an error.
#[derive(Debug)]
pub enum TereError {
    /// An error from the file system or the terminal.
    Io(std::io::Error),
    /// A command line value that cannot be used; the text says why, and ends
    /// with a newline.
    InvalidValue(String),
    /// The history file does not hold a valid history; the text says why.
    HistoryFormat(String),
    /// The user wants to exit without changing the folder.
    ExitWithoutCd(String),
    /// The user cancelled the first-run prompt.
    FirstRunPromptCancelled(String),
}

} // verus!
