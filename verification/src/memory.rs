use vstd::prelude::*;

use crate::git::{main_branch_str, user_meta_file, user_meta_file_str, GitProvider};

verus! {

/// The one error the in-memory store reports: the operation was refused,
/// either by an injected failure or by the store's own rules.
#[derive(Clone, Copy, Debug, PartialEq, Eq, Structural)]
pub struct MemoryGitError;

/// An in-memory store holding the single document object, for exercising the
/// protocols without a real backend. Each area holds the document text or
/// nothing; the `fail_*` switches inject a failure into the corresponding
/// operation, to simulate transient backend trouble.
pub struct MemoryGit {
    pub remote_doc: Option<String>,
    pub local_doc: Option<String>,
    pub workdir_doc: Option<String>,
    pub staged_doc: Option<String>,
    pub fail_fetch: bool,
    pub fail_show: bool,
    pub fail_checkout: bool,
    pub fail_write: bool,
    pub fail_add: bool,
    pub fail_commit: bool,
}

/// The map a one-slot area stands for: empty, or the document path bound to
/// the slot's text.
pub open spec fn slot_map(s: Option<String>) -> Map<Seq<char>, Seq<char>> {
    match s {
        None => Map::empty(),
        Some(c) => Map::empty().insert(user_meta_file(), c@),
    }
}

impl MemoryGit {
    /// A store whose remote holds the given document text and nothing else,
    /// with no failure injected.
    pub fn with_remote(doc: Option<String>) -> (g: MemoryGit)
        ensures
            g.remote() == slot_map(doc),
            g.local_copy() == Map::<Seq<char>, Seq<char>>::empty(),
            g.workdir() == Map::<Seq<char>, Seq<char>>::empty(),
            g.staged() == Map::<Seq<char>, Seq<char>>::empty(),
            !g.fail_fetch && !g.fail_show && !g.fail_checkout && !g.fail_write && !g.fail_add
                && !g.fail_commit,
    {
        MemoryGit {
            remote_doc: doc,
            local_doc: None,
            workdir_doc: None,
            staged_doc: None,
            fail_fetch: false,
            fail_show: false,
            fail_checkout: false,
            fail_write: false,
            fail_add: false,
            fail_commit: false,
        }
    }

    /// Replaces the remote content from outside, as a concurrent writer
    /// would.
    pub fn overwrite_remote(&mut self, doc: Option<String>)
        ensures
            final(self).remote() == slot_map(doc),
            final(self).local_copy() == old(self).local_copy(),
            final(self).workdir() == old(self).workdir(),
            final(self).staged() == old(self).staged(),
    {
        self.remote_doc = doc;
    }

    fn clone_slot(s: &Option<String>) -> (r: Option<String>)
        ensures
            slot_map(r) == slot_map(*s),
            r is Some <==> s is Some,
    {
        match s {
            None => None,
            Some(c) => Some(c.clone()),
        }
    }
}

impl GitProvider for MemoryGit {
    type BackendError = MemoryGitError;

    open spec fn remote(&self) -> Map<Seq<char>, Seq<char>> {
        slot_map(self.remote_doc)
    }

    open spec fn local_copy(&self) -> Map<Seq<char>, Seq<char>> {
        slot_map(self.local_doc)
    }

    open spec fn workdir(&self) -> Map<Seq<char>, Seq<char>> {
        slot_map(self.workdir_doc)
    }

    open spec fn staged(&self) -> Map<Seq<char>, Seq<char>> {
        slot_map(self.staged_doc)
    }

    fn fetch(&mut self) -> (r: Result<(), MemoryGitError>) {
        if self.fail_fetch {
            return Err(MemoryGitError);
        }
        self.local_doc = Self::clone_slot(&self.remote_doc);
        Ok(())
    }

    fn show(&self, path: &str) -> (r: Result<String, MemoryGitError>) {
        if self.fail_show {
            return Err(MemoryGitError);
        }
        if !crate::document::str_eq(path, user_meta_file_str()) {
            return Err(MemoryGitError);
        }
        match &self.local_doc {
            None => Err(MemoryGitError),
            Some(c) => Ok(c.clone()),
        }
    }

    fn checkout(&mut self, branch: &str, create: bool) -> (r: Result<(), MemoryGitError>) {
        if self.fail_checkout {
            return Err(MemoryGitError);
        }
        if create || !crate::document::str_eq(branch, main_branch_str()) {
            return Err(MemoryGitError);
        }
        self.workdir_doc = Self::clone_slot(&self.local_doc);
        self.staged_doc = None;
        Ok(())
    }

    fn write_file(&mut self, path: &str, content: &str) -> (r: Result<(), MemoryGitError>) {
        if self.fail_write {
            return Err(MemoryGitError);
        }
        if !crate::document::str_eq(path, user_meta_file_str()) {
            return Err(MemoryGitError);
        }
        self.workdir_doc = Some(content.to_owned());
        proof {
            assert(slot_map(self.workdir_doc) =~= slot_map(old(self).workdir_doc).insert(
                user_meta_file(),
                content@,
            ));
        }
        Ok(())
    }

    fn add(&mut self, path: &str) -> (r: Result<(), MemoryGitError>) {
        if self.fail_add {
            return Err(MemoryGitError);
        }
        if !crate::document::str_eq(path, user_meta_file_str()) {
            return Err(MemoryGitError);
        }
        match &self.workdir_doc {
            None => Err(MemoryGitError),
            Some(c) => {
                let copy = c.clone();
                self.staged_doc = Some(copy);
                proof {
                    assert(slot_map(self.staged_doc) =~= slot_map(
                        old(self).staged_doc,
                    ).insert(user_meta_file(), slot_map(old(self).workdir_doc)[user_meta_file()]));
                }
                Ok(())
            },
        }
    }

    fn commit(&mut self, _message: &str) -> (r: Result<(), MemoryGitError>) {
        if self.fail_commit {
            return Err(MemoryGitError);
        }
        let staged = match &self.staged_doc {
            None => {
                return Err(MemoryGitError);
            },
            Some(c) => c.clone(),
        };
        let fast_forward = match (&self.local_doc, &self.remote_doc) {
            (None, None) => true,
            (Some(a), Some(b)) => crate::document::str_eq(a.as_str(), b.as_str()),
            _ => false,
        };
        if !fast_forward {
            return Err(MemoryGitError);
        }
        proof {
            assert(slot_map(old(self).staged_doc).contains_key(user_meta_file()));
            assert(!Map::<Seq<char>, Seq<char>>::empty().contains_key(user_meta_file()));
            assert(slot_map(old(self).local_doc) =~= slot_map(old(self).remote_doc));
        }
        self.remote_doc = Some(staged.clone());
        self.local_doc = Some(staged);
        self.staged_doc = None;
        proof {
            assert(slot_map(self.remote_doc) =~= slot_map(
                old(self).remote_doc,
            ).union_prefer_right(slot_map(old(self).staged_doc)));
        }
        Ok(())
    }
}

} // verus!
