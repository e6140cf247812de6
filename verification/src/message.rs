//! What the viewer tells its user.

use std::path::PathBuf;
use vstd::prelude::*;

verus! {

/// `std::path::PathBuf`, carried through as it is: nothing is known of what
/// a path holds.
#[verifier::external_type_specification]
#[verifier::external_body]
pub struct ExPathBuf(PathBuf);

/// `Clone::clone` of `std::path::PathBuf`: the copy is the same path.
pub assume_specification[ <PathBuf as Clone>::clone ](path: &PathBuf) -> (copy: PathBuf)
    ensures
        copy == *path,
;

/// A message for the user, by kind.
#[derive(Debug, Clone)]
pub enum Message {
    Info(String),
    Warning(String),
    Error(String),
    LoadError(String),
    Saved(PathBuf),
}

impl Message {
    /// A piece of information with the text `m`.
    pub fn info(m: &str) -> (msg: Self)
        ensures
            msg matches Message::Info(text) && text@ == m@,
    {
        Self::Info(m.to_owned())
    }

    /// A warning with the text `m`.
    pub fn warn(m: &str) -> (msg: Self)
        ensures
            msg matches Message::Warning(text) && text@ == m@,
    {
        Self::Warning(m.to_owned())
    }

    /// An error with the text `m`.
    pub fn err(m: &str) -> (msg: Self)
        ensures
            msg matches Message::Error(text) && text@ == m@,
    {
        Self::Error(m.to_owned())
    }
}

} // verus!
