//! What a finished row action answers with.

use vstd::prelude::*;

use crate::text::copy;

verus! {

/// How a row action ended.
#[derive(Debug)]
pub enum NoteOutcome {
    /// A file was changed on disk.
    Changed,
    /// Something was done that changed no file.
    Noted,
    /// Nothing was done, and why.
    Failed(String),
}

/// One finished row action.
#[derive(Debug)]
pub struct Note {
    /// What was done.
    pub action: String,
    /// The repository it was done in.
    pub repo: String,
    /// The file it was done to.
    pub what: String,
    pub outcome: NoteOutcome,
}

impl Note {
    /// The note says this of an action on a file.
    pub open spec fn tells(
        &self,
        action: Seq<char>,
        repo: Seq<char>,
        what: Seq<char>,
    ) -> bool {
        self.action@ == action && self.repo@ == repo && self.what@ == what
    }

    /// A file was changed.
    pub fn changed(action: &str, repo: &str, what: &str) -> (r: Self)
        ensures
            r.tells(action@, repo@, what@),
            r.outcome is Changed,
    {
        Note {
            action: copy(action),
            repo: copy(repo),
            what: copy(what),
            outcome: NoteOutcome::Changed,
        }
    }

    /// Something was done that changed no file.
    pub fn noted(action: &str, repo: &str, what: &str) -> (r: Self)
        ensures
            r.tells(action@, repo@, what@),
            r.outcome is Noted,
    {
        Note {
            action: copy(action),
            repo: copy(repo),
            what: copy(what),
            outcome: NoteOutcome::Noted,
        }
    }

    /// Nothing was done.
    pub fn failed(action: &str, repo: &str, what: &str, why: &str) -> (r: Self)
        ensures
            r.tells(action@, repo@, what@),
            r.outcome matches NoteOutcome::Failed(e) && e@ == why@,
    {
        Note {
            action: copy(action),
            repo: copy(repo),
            what: copy(what),
            outcome: NoteOutcome::Failed(copy(why)),
        }
    }
}

} // verus!
