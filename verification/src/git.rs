use vstd::prelude::*;

verus! {

/// The fixed branch that tracks the document.
pub open spec fn main_branch() -> Seq<char> {
    "floxmain"@
}

/// The fixed path of the document object within that branch.
pub open spec fn user_meta_file() -> Seq<char> {
    "floxUserMeta.json"@
}

pub fn main_branch_str() -> (s: &'static str)
    ensures
        s@ == main_branch(),
{
    "floxmain"
}

pub fn user_meta_file_str() -> (s: &'static str)
    ensures
        s@ == user_meta_file(),
{
    "floxUserMeta.json"
}

/// A version-controlled store of text objects, the storage substrate for the
/// document. Implementations bind a working copy of one local branch.
///
/// The model is four path-to-content maps: the remote tip of the local
/// branch, the local copy of it, the working copy, and the staging
/// area. Every operation's contract says what holds of the model whatever the
/// outcome; success is never promised, since a real backend may fail for
/// reasons outside the model (network, locks, disk).
pub trait GitProvider: Sized {
    type BackendError;

    open spec fn remote(&self) -> Map<Seq<char>, Seq<char>> {
        Map::empty()
    }

    open spec fn local_copy(&self) -> Map<Seq<char>, Seq<char>> {
        Map::empty()
    }

    open spec fn workdir(&self) -> Map<Seq<char>, Seq<char>> {
        Map::empty()
    }

    open spec fn staged(&self) -> Map<Seq<char>, Seq<char>> {
        Map::empty()
    }

    /// Synchronizes the local branch with its remote counterpart.
    fn fetch(&mut self) -> (r: Result<(), Self::BackendError>)
        ensures
            final(self).remote() == old(self).remote(),
            final(self).workdir() == old(self).workdir(),
            final(self).staged() == old(self).staged(),
            r is Ok ==> final(self).local_copy() == old(self).remote(),
    ;

    /// Reads the object at `path` as of the local branch. A read can
    /// succeed only on an object that is present, with its exact content.
    fn show(&self, path: &str) -> (r: Result<String, Self::BackendError>)
        ensures
            r matches Ok(c) ==> self.local_copy().contains_key(path@) && c@ == self.local_copy()[path@],
    ;

    /// Checks out the given branch: on success for the local branch, the
    /// working copy equals the local content and the staging area is clean.
    fn checkout(&mut self, branch: &str, create: bool) -> (r: Result<(), Self::BackendError>)
        ensures
            final(self).remote() == old(self).remote(),
            final(self).local_copy() == old(self).local_copy(),
            (r is Ok && branch@ == main_branch() && !create) ==> final(self).workdir() == old(
                self,
            ).local_copy() && final(self).staged() == Map::<Seq<char>, Seq<char>>::empty(),
    ;

    /// Writes `content` to `path` inside the working copy.
    fn write_file(&mut self, path: &str, content: &str) -> (r: Result<(), Self::BackendError>)
        ensures
            final(self).remote() == old(self).remote(),
            final(self).local_copy() == old(self).local_copy(),
            final(self).staged() == old(self).staged(),
            r is Ok ==> final(self).workdir() == old(self).workdir().insert(path@, content@),
    ;

    /// Stages the file at `path` from the working copy.
    fn add(&mut self, path: &str) -> (r: Result<(), Self::BackendError>)
        ensures
            final(self).remote() == old(self).remote(),
            final(self).local_copy() == old(self).local_copy(),
            final(self).workdir() == old(self).workdir(),
            r is Ok ==> old(self).workdir().contains_key(path@) && final(self).staged() == old(
                self,
            ).staged().insert(path@, old(self).workdir()[path@]),
    ;

    /// Commits the staged changes onto the local branch and publishes them.
    /// A commit can succeed only when something is staged and the local
    /// branch is up to date with the remote (fast-forward); a concurrent
    /// writer that moved the remote makes it fail.
    fn commit(&mut self, message: &str) -> (r: Result<(), Self::BackendError>)
        ensures
            final(self).workdir() == old(self).workdir(),
            r is Err ==> final(self).remote() == old(self).remote(),
            r is Ok ==> {
                &&& old(self).staged() != Map::<Seq<char>, Seq<char>>::empty()
                &&& old(self).local_copy() == old(self).remote()
                &&& final(self).remote() == old(self).remote().union_prefer_right(
                    old(self).staged(),
                )
                &&& final(self).local_copy() == final(self).remote()
                &&& final(self).staged() == Map::<Seq<char>, Seq<char>>::empty()
            },
    ;
}

} // verus!
