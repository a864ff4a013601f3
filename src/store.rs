use vstd::prelude::*;
use crate::revision::RevisionId;
use git2::{ErrorCode, ObjectType, Oid};

verus! {

/// git2's handle on a repository, carried through to the calls below.
#[verifier::external_type_specification]
#[verifier::external_body]
pub struct ExRepository(git2::Repository);

/// Kind of an entry of a tree.
#[derive(Clone, Copy, Debug, PartialEq, Eq, Structural)]
pub enum EntryKind {
    File,
    Directory,
    Other,
}

/// One immediate entry of a tree: its name, its kind and its identifier.
#[derive(Clone, Debug)]
pub struct TreeEntry {
    pub name: Vec<u8>,
    pub kind: EntryKind,
    pub id: RevisionId,
}

/// A failure of the object store other than a missing tree, with its message.
#[derive(Clone, Debug)]
pub struct StoreError {
    pub message: String,
}

/// Why a tree could not be loaded.
#[derive(Clone, Debug)]
pub enum LoadError {
    /// No tree has this identifier (it may name a blob).
    NotFound,
    /// Any other failure of the object store.
    Failed(StoreError),
}

/// Relies on git2's `Repository::find_tree` and `Tree::iter`: lists the
/// immediate entries of the tree with the given identifier, or says why it
/// could not be read (`ErrorCode::NotFound`, or another error).
#[verifier::external_body]
pub(crate) fn find_tree_entries(repo: &git2::Repository, id: &RevisionId) -> (r: Result<Vec<TreeEntry>, LoadError>)
{
    let tree = match Oid::from_bytes(&id.bytes).and_then(|o| repo.find_tree(o)) {
        Ok(t) => t,
        Err(e) if e.code() == ErrorCode::NotFound => return Err(LoadError::NotFound),
        Err(e) => return Err(LoadError::Failed(StoreError { message: e.message().into() })),
    };
    Ok(tree.iter().map(|e| TreeEntry {
        name: e.name_bytes().into(),
        kind: match e.kind() {
            Some(ObjectType::Tree) => EntryKind::Directory,
            Some(ObjectType::Blob) => EntryKind::File,
            _ => EntryKind::Other,
        },
        id: RevisionId { bytes: e.id().as_bytes().into() },
    }).collect())
}

/// Whether a byte string holds a NUL byte.
pub open spec fn has_nul(s: Seq<u8>) -> bool {
    exists|i: int| 0 <= i < s.len() && s[i] == 0
}

/// Relies on git2's `Repository::diff_tree_to_tree`, `DiffOptions::pathspec`
/// and `Diff::deltas`: the number of file deltas between the two trees,
/// restricted to the given path specifications (none: the whole tree), or
/// the store's failure. `pathspec` panics on a NUL byte.
#[verifier::external_body]
pub(crate) fn diff_changed_file_count(
    repo: &git2::Repository,
    old: &RevisionId,
    new: &RevisionId,
    pathspecs: &Vec<Vec<u8>>,
) -> (r: Result<usize, StoreError>)
    requires
        forall|i: int| 0 <= i < pathspecs@.len() ==> !has_nul(#[trigger] pathspecs@[i]@),
{
    let fail = |e: git2::Error| StoreError { message: e.message().into() };
    let a = Oid::from_bytes(&old.bytes).and_then(|o| repo.find_tree(o)).map_err(fail)?;
    let b = Oid::from_bytes(&new.bytes).and_then(|o| repo.find_tree(o)).map_err(fail)?;
    let mut opts = git2::DiffOptions::new();
    for p in pathspecs {
        opts.pathspec(p.as_slice());
    }
    let diff = repo.diff_tree_to_tree(Some(&a), Some(&b), Some(&mut opts)).map_err(fail)?;
    Ok(diff.deltas().len())
}

} // verus!
