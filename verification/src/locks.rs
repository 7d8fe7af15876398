//! The session-wide lock registry: one consent mechanism for every tab.
//!
//! Every repository starts locked. While it is locked nothing may delete or
//! overwrite its existing files; additions are always allowed. Unlocking is a
//! conscious choice per session, made on the repository's padlock. The registry
//! is shared: an unlock through one handle shows through every handle.

use std::sync::Arc;
use vstd::prelude::*;
use vstd::rwlock::RwLock;

use crate::recent::{distinct, Texts};
use crate::text::{copy, same_text, views};

verus! {

/// The names of the unlocked repositories; an empty list protects everything.
pub struct LockSet {
    pub unlocked: Vec<String>,
}

/// Which repositories are protected, told by the unlocked ones.
pub open spec fn protected(unlocked: Texts, repo: Seq<char>) -> bool {
    !unlocked.contains(repo)
}

/// `repo` changed sides between two lists of unlocked repositories, and no other
/// one did.
pub open spec fn flipped(before: Texts, after: Texts, repo: Seq<char>) -> bool {
    forall|name: Seq<char>| #[trigger]
        protected(after, name) == if name == repo {
            !protected(before, name)
        } else {
            protected(before, name)
        }
}

/// Flipping a repository twice leaves every repository as it was.
pub proof fn law_a_second_toggle_takes_it_back(a: Texts, b: Texts, c: Texts, repo: Seq<char>)
    requires
        flipped(a, b, repo),
        flipped(b, c, repo),
    ensures
        forall|name: Seq<char>| #[trigger] protected(c, name) == protected(a, name),
{
}

impl LockSet {
    /// No name is listed twice.
    pub open spec fn wf(&self) -> bool {
        distinct(views(self.unlocked@))
    }

    /// Everything is locked.
    pub fn new() -> (r: Self)
        ensures
            r.wf(),
            forall|repo: Seq<char>| #[trigger] protected(views(r.unlocked@), repo),
    {
        LockSet { unlocked: Vec::new() }
    }

    fn position(&self, repo: &str) -> (r: Option<usize>)
        ensures
            match r {
                Some(i) => i < self.unlocked@.len() && self.unlocked@[i as int]@ == repo@,
                None => protected(views(self.unlocked@), repo@),
            },
    {
        let mut i: usize = 0;
        while i < self.unlocked.len()
            invariant
                i <= self.unlocked@.len(),
                forall|k: int| 0 <= k < i ==> (#[trigger] self.unlocked@[k])@ != repo@,
            decreases self.unlocked@.len() - i,
        {
            if same_text(self.unlocked[i].as_str(), repo) {
                return Some(i);
            }
            i += 1;
        }
        assert forall|k: int| 0 <= k < views(self.unlocked@).len() implies views(self.unlocked@)[k]
            != repo@ by {
            assert(self.unlocked@[k]@ != repo@);
        }
        None
    }

    /// Whether a repository's existing files are protected.
    pub fn read_only(&self, repo: &str) -> (r: bool)
        ensures
            r == protected(views(self.unlocked@), repo@),
    {
        match self.position(repo) {
            Some(i) => {
                assert(views(self.unlocked@)[i as int] == repo@);
                false
            },
            None => true,
        }
    }

    /// Flips a repository between locked and unlocked; no other one changes.
    pub fn toggle(&mut self, repo: &str)
        requires
            old(self).wf(),
        ensures
            final(self).wf(),
            flipped(views(old(self).unlocked@), views(final(self).unlocked@), repo@),
    {
        let ghost before = views(self.unlocked@);
        match self.position(repo) {
            Some(i) => {
                let _ = self.unlocked.remove(i);
                proof {
                    let now = views(self.unlocked@);
                    assert(now =~= before.remove(i as int));
                    assert(before[i as int] == repo@);
                    assert forall|name: Seq<char>| #[trigger] now.contains(name) == (name != repo@
                        && before.contains(name)) by {
                        if now.contains(name) {
                            let k = now.index_of(name);
                            let p = if k < i {
                                k
                            } else {
                                k + 1
                            };
                            assert(before[p] == name);
                            assert(before[p] != before[i as int]);
                        }
                        if name != repo@ && before.contains(name) {
                            let p = before.index_of(name);
                            assert(p != i);
                            if p < i {
                                assert(now[p] == name);
                            } else {
                                assert(now[p - 1] == name);
                            }
                        }
                    }
                    assert forall|a: int, b: int| 0 <= a < b < now.len() implies now[a]
                        != now[b] by {
                        let p = if a < i {
                            a
                        } else {
                            a + 1
                        };
                        let q = if b < i {
                            b
                        } else {
                            b + 1
                        };
                        assert(now[a] == before[p]);
                        assert(now[b] == before[q]);
                    }
                }
            },
            None => {
                self.unlocked.push(copy(repo));
                proof {
                    let now = views(self.unlocked@);
                    assert(now =~= before.push(repo@));
                    assert forall|name: Seq<char>| #[trigger] now.contains(name) == (name == repo@
                        || before.contains(name)) by {
                        if before.contains(name) {
                            let p = before.index_of(name);
                            assert(now[p] == name);
                        }
                        if name == repo@ {
                            assert(now[before.len() as int] == name);
                        }
                    }
                    assert forall|a: int, b: int| 0 <= a < b < now.len() implies now[a]
                        != now[b] by {
                        assert(now[a] == before[a]);
                        if b == before.len() {
                            assert(before.contains(now[a]));
                        }
                    }
                }
            },
        }
    }
}

/// The shared registry. What it holds may change through any handle at any time,
/// so nothing is claimed of what a call sees beyond what [`LockSet`] claims of a
/// registry that nobody else changes.
pub struct RepoLocks {
    registry: Arc<RwLock<LockSet, spec_fn(LockSet) -> bool>>,
}

impl Clone for RepoLocks {
    /// Another handle to the same registry.
    fn clone(&self) -> (r: Self)
        ensures
            r == *self,
    {
        proof {
            use_type_invariant(self);
        }
        RepoLocks { registry: self.registry.clone() }
    }
}

impl RepoLocks {
    /// The registry only ever holds well-formed lists.
    #[verifier::type_invariant]
    spec fn holds_lists(&self) -> bool {
        forall|set: LockSet| #[trigger] self.registry.inv(set) <==> set.wf()
    }

    /// A registry in which everything is locked.
    pub fn new() -> (r: Self) {
        let registry = RwLock::new(LockSet::new(), Ghost(|set: LockSet| set.wf()));
        RepoLocks { registry: Arc::new(registry) }
    }

    /// Whether a repository's existing files are protected (the default).
    pub fn read_only(&self, repo: &str) -> (r: bool) {
        let handle = self.registry.acquire_read();
        let r = handle.borrow().read_only(repo);
        handle.release_read();
        r
    }

    /// Flips a repository between locked and unlocked.
    pub fn toggle(&self, repo: &str) {
        proof {
            use_type_invariant(self);
        }
        let (mut set, handle) = self.registry.acquire_write();
        set.toggle(repo);
        handle.release_write(set);
    }

    /// The standard words for a padlock, in short and at length.
    pub fn hover_copy(read_only: bool) -> (r: (&'static str, &'static str))
        ensures
            read_only ==> {
                &&& r.0@
                    == "Locked: existing files here are protected — click to allow deleting and overwriting"@
                &&& r.1@
                    == "This repository is locked: none of its existing files can be deleted or overwritten from anywhere in the app. New files can still be added. Click to unlock it for this session — unlocking declares you accept losing data here, so destructive actions will run without further questions."@
            },
            !read_only ==> {
                &&& r.0@
                    == "Unlocked: files here may be deleted or overwritten — click to protect them"@
                &&& r.1@
                    == "This repository is unlocked for this session: deleting and overwriting its files is allowed everywhere in the app, with no further confirmation. Click to lock it again. Every repository starts locked at launch."@
            },
    {
        if read_only {
            (
                "Locked: existing files here are protected — click to allow deleting and overwriting",
                "This repository is locked: none of its existing files can be deleted or overwritten from anywhere in the app. New files can still be added. Click to unlock it for this session — unlocking declares you accept losing data here, so destructive actions will run without further questions.",
            )
        } else {
            (
                "Unlocked: files here may be deleted or overwritten — click to protect them",
                "This repository is unlocked for this session: deleting and overwriting its files is allowed everywhere in the app, with no further confirmation. Click to lock it again. Every repository starts locked at launch.",
            )
        }
    }
}

/// A repository is protected until it is unlocked; a change of sides is of that
/// repository alone.
pub proof fn law_repositories_are_protected_until_unlocked(
    before: Texts,
    after: Texts,
    repo: Seq<char>,
    name: Seq<char>,
)
    ensures
        protected(Seq::empty(), name),
        before.contains(name) ==> !protected(before, name),
        !before.contains(name) ==> protected(before, name),
        flipped(before, after, repo) ==> after.contains(repo) == !before.contains(repo),
        flipped(before, after, repo) && name != repo ==> after.contains(name) == before.contains(
            name,
        ),
{
    if flipped(before, after, repo) {
        assert(protected(after, repo) == !protected(before, repo));
        if name != repo {
            assert(protected(after, name) == protected(before, name));
        }
    }
}

} // verus!
