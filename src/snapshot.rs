use vstd::prelude::*;
use crate::revision::{bytes_equal, RevisionId};

verus! {

/// One named entry of a directory snapshot.
#[derive(Debug)]
pub struct SnapshotEntry {
    pub name: Vec<u8>,
    pub item: Snapshot,
}

/// The shape of a tree at one revision: its files and directories, each
/// with its identifier. Entries of other kinds (such as links to other
/// repositories) are not part of it.
#[derive(Debug)]
pub enum Snapshot {
    File { id: RevisionId },
    Directory { id: RevisionId, entries: Vec<SnapshotEntry> },
}

impl Snapshot {
    pub open spec fn id_view(self) -> Seq<u8> {
        match self {
            Snapshot::File { id } => id@,
            Snapshot::Directory { id, .. } => id@,
        }
    }
}

/// The first entry called `name`, if any.
pub open spec fn snapshot_entry_named(entries: Seq<SnapshotEntry>, name: Seq<u8>) -> Option<Snapshot>
    decreases entries.len(),
{
    if entries.len() == 0 {
        None
    } else if entries[0].name@ == name {
        Some(entries[0].item)
    } else {
        snapshot_entry_named(entries.drop_first(), name)
    }
}

/// Why a directory path could not be followed in a snapshot.
#[derive(Clone, Copy, Debug, PartialEq, Eq, Structural)]
pub enum PathError {
    /// No entry has the name of a path component.
    NotTracked,
    /// A path component names a file, not a directory.
    NotADirectory,
}

/// The directory that `path` names under the directory `s`, or why there is
/// none.
pub open spec fn resolve(s: Snapshot, path: Seq<Seq<u8>>) -> Result<Snapshot, PathError>
    decreases path.len(),
{
    if path.len() == 0 {
        Ok(s)
    } else {
        match s {
            Snapshot::File { .. } => Err(PathError::NotADirectory),
            Snapshot::Directory { entries, .. } => match snapshot_entry_named(entries@, path[0]) {
                None => Err(PathError::NotTracked),
                Some(Snapshot::File { .. }) => Err(PathError::NotADirectory),
                Some(sub) => resolve(sub, path.drop_first()),
            },
        }
    }
}

/// Index of the first entry called `name`, if any.
pub fn find_entry(entries: &Vec<SnapshotEntry>, name: &Vec<u8>) -> (r: Option<usize>)
    ensures
        match r {
            Some(k) => k < entries@.len() && snapshot_entry_named(entries@, name@) == Some(
                entries@[k as int].item,
            ),
            None => snapshot_entry_named(entries@, name@) is None,
        },
{
    let n = entries.len();
    let mut i: usize = 0;
    assert(entries@.subrange(0, n as int) =~= entries@);
    while i < n
        invariant
            n == entries@.len(),
            0 <= i <= n,
            snapshot_entry_named(entries@, name@) == snapshot_entry_named(
                entries@.subrange(i as int, n as int),
                name@,
            ),
        decreases n - i,
    {
        assert(entries@.subrange(i as int, n as int).drop_first() =~= entries@.subrange(i + 1, n as int));
        if bytes_equal(&entries[i].name, name) {
            return Some(i);
        }
        i = i + 1;
    }
    None
}

} // verus!
