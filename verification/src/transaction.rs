use vstd::prelude::*;

use crate::codec::{parse, serialize, spec_parse, spec_serialize, supported_version, ParseError};
use crate::document::{UserMeta, UserMetaView};
use crate::git::{main_branch_str, user_meta_file, user_meta_file_str, GitProvider};

verus! {

/// Why a document could not be loaded. One variant per protocol stage, each
/// carrying the backend's own error as its cause; a parse failure carries
/// the reader's error.
#[derive(Debug)]
pub enum GetUserMetaError<B> {
    Fetch(B),
    Show(B),
    Deserialize(ParseError),
}

/// Why a document could not be staged. One variant per protocol stage.
#[derive(Debug)]
pub enum SetUserMetaError<B> {
    Checkout(B),
    OpenUserMetaFile(B),
    Add(B),
}

/// Why a transaction could not be entered or finalized.
#[derive(Debug)]
pub enum TransactionError<B> {
    Prepare(B),
    Commit(B),
}

/// The access state of a handle that only reads.
pub struct ReadOnly;

/// The access state of a handle inside a transaction, whose working copy may
/// be written and staged.
pub struct GitSandBox;

/// A handle on the user-scoped document store: a backend binding together
/// with an access-state tag. Only a `GitSandBox` handle exposes the staging
/// operation, and only an explicit transaction entry produces one; finalizing
/// consumes the sandbox, so a finished transaction cannot be reused.
pub struct Floxmeta<G, A> {
    git: G,
    access: A,
}

impl<G: GitProvider, A> Floxmeta<G, A> {
    /// The backend binding, as a model value for contracts.
    pub closed spec fn git(self) -> G {
        self.git
    }

    /// Loads the document: synchronizes the local branch with its remote,
    /// reads the document object from it, and parses the text. On success the
    /// result is exactly the parse of the just-synchronized remote content;
    /// a load never succeeds unless synchronization did.
    pub fn user_meta(&mut self) -> (r: Result<UserMeta, GetUserMetaError<G::BackendError>>)
        ensures
            final(self).git().remote() == old(self).git().remote(),
            final(self).git().workdir() == old(self).git().workdir(),
            final(self).git().staged() == old(self).git().staged(),
            r matches Ok(m) ==> {
                &&& final(self).git().local_copy() == old(self).git().remote()
                &&& old(self).git().remote().contains_key(user_meta_file())
                &&& spec_parse(old(self).git().remote()[user_meta_file()]) == Ok::<
                    UserMetaView,
                    ParseError,
                >(m@)
            },
            r matches Err(GetUserMetaError::Show(_)) ==> final(self).git().local_copy() == old(
                self,
            ).git().remote(),
            r matches Err(GetUserMetaError::Deserialize(e)) ==> {
                &&& final(self).git().local_copy() == old(self).git().remote()
                &&& old(self).git().remote().contains_key(user_meta_file())
                &&& spec_parse(old(self).git().remote()[user_meta_file()]) == Err::<
                    UserMetaView,
                    ParseError,
                >(e)
            },
    {
        match self.git.fetch() {
            Ok(_) => {},
            Err(e) => {
                return Err(GetUserMetaError::Fetch(e));
            },
        }
        let content = match self.git.show(user_meta_file_str()) {
            Ok(c) => c,
            Err(e) => {
                return Err(GetUserMetaError::Show(e));
            },
        };
        match parse(content.as_str()) {
            Ok(m) => Ok(m),
            Err(e) => Err(GetUserMetaError::Deserialize(e)),
        }
    }

    /// Drops any mutation capability, keeping the backend binding.
    pub fn as_read_only(self) -> (r: Floxmeta<G, ReadOnly>)
        ensures
            r.git() == self.git(),
    {
        Floxmeta { git: self.git, access: ReadOnly }
    }

    /// Gives the backend binding back, dissolving the handle.
    pub fn into_git(self) -> (g: G)
        ensures
            g == self.git(),
    {
        self.git
    }
}

impl<G: GitProvider> Floxmeta<G, ReadOnly> {
    /// Binds a read-only handle to a backend.
    pub fn open(git: G) -> (r: Floxmeta<G, ReadOnly>)
        ensures
            r.git() == git,
    {
        Floxmeta { git, access: ReadOnly }
    }

    /// Enters a transaction: prepares an isolated working copy of the local
    /// branch with a clean staging area, yielding the only kind of handle
    /// that can stage changes.
    pub fn enter_transaction(self) -> (r: Result<
        Floxmeta<G, GitSandBox>,
        TransactionError<G::BackendError>,
    >)
        ensures
            r matches Ok(h) ==> {
                &&& h.git().remote() == self.git().remote()
                &&& h.git().local_copy() == self.git().local_copy()
                &&& h.git().workdir() == self.git().local_copy()
                &&& h.git().staged() == Map::<Seq<char>, Seq<char>>::empty()
            },
    {
        let mut git = self.git;
        match git.checkout(main_branch_str(), false) {
            Ok(_) => Ok(Floxmeta { git, access: GitSandBox }),
            Err(e) => Err(TransactionError::Prepare(e)),
        }
    }
}

impl<G: GitProvider> Floxmeta<G, GitSandBox> {
    /// Stages a new document state: checks out the local branch, writes
    /// the document's canonical text into the working copy, and stages that
    /// path. Nothing becomes durable here; the caller must finalize the
    /// transaction for readers to observe the change.
    pub fn set_user_meta(&mut self, user_meta: &UserMeta) -> (r: Result<
        (),
        SetUserMetaError<G::BackendError>,
    >)
        ensures
            final(self).git().remote() == old(self).git().remote(),
            final(self).git().local_copy() == old(self).git().local_copy(),
            r is Ok ==> {
                &&& final(self).git().workdir() == old(self).git().local_copy().insert(
                    user_meta_file(),
                    spec_serialize(user_meta@, supported_version()),
                )
                &&& final(self).git().staged() == Map::<Seq<char>, Seq<char>>::empty().insert(
                    user_meta_file(),
                    spec_serialize(user_meta@, supported_version()),
                )
            },
    {
        match self.git.checkout(main_branch_str(), false) {
            Ok(_) => {},
            Err(e) => {
                return Err(SetUserMetaError::Checkout(e));
            },
        }
        let content = serialize(user_meta);
        match self.git.write_file(user_meta_file_str(), content.as_str()) {
            Ok(_) => {},
            Err(e) => {
                return Err(SetUserMetaError::OpenUserMetaFile(e));
            },
        }
        match self.git.add(user_meta_file_str()) {
            Ok(_) => {},
            Err(e) => {
                return Err(SetUserMetaError::Add(e));
            },
        }
        Ok(())
    }

    /// Finalizes the transaction: commits what was staged and publishes it,
    /// consuming the sandbox. On success the new remote content is the old
    /// local content overlaid with the staged changes, and the returned
    /// handle is read-only again; a finished sandbox cannot be finalized
    /// twice. A commit can succeed only against an up-to-date local
    /// branch, so of two conflicting writers at most one finalize succeeds.
    pub fn commit_transaction(self, message: &str) -> (r: Result<
        Floxmeta<G, ReadOnly>,
        TransactionError<G::BackendError>,
    >)
        ensures
            r matches Ok(h) ==> {
                &&& self.git().staged() != Map::<Seq<char>, Seq<char>>::empty()
                &&& self.git().local_copy() == self.git().remote()
                &&& h.git().remote() == self.git().remote().union_prefer_right(self.git().staged())
                &&& h.git().local_copy() == h.git().remote()
                &&& h.git().staged() == Map::<Seq<char>, Seq<char>>::empty()
            },
    {
        let mut git = self.git;
        match git.commit(message) {
            Ok(_) => Ok(Floxmeta { git, access: ReadOnly }),
            Err(e) => Err(TransactionError::Commit(e)),
        }
    }
}

} // verus!
