//! Identifiers of jj changes and commits.
use vstd::prelude::*;

use crate::text::copy_string;

verus! {

/// A jj change ID (or a unique prefix of one), as jj prints it.
#[derive(Debug, PartialEq, Eq, Hash)]
pub struct ChangeId(pub String);

/// A commit ID (or a unique prefix of one), as jj prints it.
#[derive(Debug, PartialEq, Eq, Hash)]
pub struct CommitId(pub String);

impl View for ChangeId {
    type V = Seq<char>;

    open spec fn view(&self) -> Seq<char> {
        self.0@
    }
}

impl View for CommitId {
    type V = Seq<char>;

    open spec fn view(&self) -> Seq<char> {
        self.0@
    }
}

impl Clone for ChangeId {
    fn clone(&self) -> (res: Self)
        ensures
            res@ == self@,
    {
        ChangeId(copy_string(self.0.as_str()))
    }
}

impl Clone for CommitId {
    fn clone(&self) -> (res: Self)
        ensures
            res@ == self@,
    {
        CommitId(copy_string(self.0.as_str()))
    }
}

impl ChangeId {
    /// The ID as text.
    pub fn as_str(&self) -> (res: &str)
        ensures
            res@ == self@,
    {
        self.0.as_str()
    }
}

impl CommitId {
    /// The ID as text.
    pub fn as_str(&self) -> (res: &str)
        ensures
            res@ == self@,
    {
        self.0.as_str()
    }
}

} // verus!
