use vstd::prelude::*;
use crate::node::{Child, ChurnNode};
use crate::order::{lemma_fresh_ordered, ordered, snapshot_ordered};
use crate::revision::RevisionId;
use crate::snapshot::{find_entry, resolve, snapshot_entry_named, PathError, Snapshot, SnapshotEntry};

verus! {

/// `n` mirrors `s` as first built: same shape and names, each node carrying
/// its own identifier, every file counted zero times.
pub open spec fn is_fresh(s: Snapshot, n: ChurnNode) -> bool
    decreases s,
{
    match s {
        Snapshot::File { id } => match n {
            ChurnNode::File { last_revision, change_count } => last_revision@ == id@ && change_count
                == 0,
            ChurnNode::Directory { .. } => false,
        },
        Snapshot::Directory { id, entries } => match n {
            ChurnNode::File { .. } => false,
            ChurnNode::Directory { last_revision, children } => {
                &&& last_revision@ == id@
                &&& children@.len() == entries@.len()
                &&& forall|i: int|
                    #![trigger children@[i]]
                    0 <= i < entries@.len() ==> {
                        &&& children@[i].name@ == entries@[i].name@
                        &&& is_fresh(entries@[i].item, children@[i].node)
                    }
            },
        },
    }
}

/// The components of a path, as byte strings.
pub open spec fn path_view(path: Seq<Vec<u8>>) -> Seq<Seq<u8>> {
    path.map_values(|c: Vec<u8>| c@)
}

/// `n` is the tree built under `s` for the directory `path`: one directory
/// per component, each holding only the next, down to a fresh mirror of the
/// directory that `path` names.
pub open spec fn rooted_at(s: Snapshot, path: Seq<Seq<u8>>, n: ChurnNode) -> bool
    decreases path.len(),
{
    if path.len() == 0 {
        is_fresh(s, n)
    } else {
        match s {
            Snapshot::File { .. } => false,
            Snapshot::Directory { id, entries } => match n {
                ChurnNode::File { .. } => false,
                ChurnNode::Directory { last_revision, children } => {
                    &&& last_revision@ == id@
                    &&& children@.len() == 1
                    &&& children@[0].name@ == path[0]
                    &&& match snapshot_entry_named(entries@, path[0]) {
                        Some(sub) => rooted_at(sub, path.drop_first(), children@[0].node),
                        None => false,
                    }
                },
            },
        }
    }
}

impl ChurnNode {
    /// A file node that has not changed yet.
    pub fn new_file(last_revision: RevisionId) -> (r: ChurnNode)
        ensures
            r == (ChurnNode::File { last_revision, change_count: 0 }),
    {
        ChurnNode::File { last_revision, change_count: 0 }
    }

    /// Mirrors a snapshot: one node per file and directory, each with the
    /// identifier it has there and a count of zero.
    pub fn from_snapshot(s: &Snapshot) -> (r: ChurnNode)
        ensures
            is_fresh(*s, r),
            snapshot_ordered(*s) ==> ordered(r),
        decreases s, 1nat,
    {
        let r = match s {
            Snapshot::File { id } => ChurnNode::new_file(id.copy()),
            Snapshot::Directory { id, entries } => {
                let children = ChurnNode::mirror_entries(entries);
                ChurnNode::Directory { last_revision: id.copy(), children }
            },
        };
        proof {
            if snapshot_ordered(*s) {
                lemma_fresh_ordered(*s, r);
            }
        }
        r
    }

    fn mirror_entries(entries: &Vec<SnapshotEntry>) -> (children: Vec<Child>)
        ensures
            children@.len() == entries@.len(),
            forall|j: int|
                #![trigger children@[j]]
                0 <= j < entries@.len() ==> {
                    &&& children@[j].name@ == entries@[j].name@
                    &&& is_fresh(entries@[j].item, children@[j].node)
                },
        decreases *entries, 0nat,
    {
        let mut children: Vec<Child> = Vec::new();
        let n = entries.len();
        let mut i: usize = 0;
        while i < n
            invariant
                n == entries@.len(),
                0 <= i <= n,
                children@.len() == i,
                forall|j: int|
                    #![trigger children@[j]]
                    0 <= j < i ==> {
                        &&& children@[j].name@ == entries@[j].name@
                        &&& is_fresh(entries@[j].item, children@[j].node)
                    },
            decreases n - i,
        {
            assert(decreases_to!(*entries => entries@[i as int].item)) by {
                vstd::std_specs::vec::axiom_vec_index_decreases(*entries, i as int);
            }
            let node = ChurnNode::from_snapshot(&entries[i].item);
            children.push(Child { name: entries[i].name.clone(), node });
            i = i + 1;
        }
        children
    }

    /// Builds the tree for the directory `path` (its components, from the
    /// root) of the snapshot `s`: one directory per component holding only
    /// the next one, down to a mirror of the directory the path names. Fails
    /// when a component is missing or names a file.
    pub fn from_snapshot_and_path(s: &Snapshot, path: &Vec<Vec<u8>>) -> (r: Result<ChurnNode, PathError>)
        ensures
            match resolve(*s, path_view(path@)) {
                Err(e) => r == Err::<ChurnNode, PathError>(e),
                Ok(_) => r is Ok && rooted_at(*s, path_view(path@), r->Ok_0),
            },
    {
        assert(path_view(path@).subrange(0, path@.len() as int) =~= path_view(path@));
        ChurnNode::descend(s, path, 0)
    }

    fn descend(s: &Snapshot, path: &Vec<Vec<u8>>, k: usize) -> (r: Result<ChurnNode, PathError>)
        requires
            k <= path@.len(),
        ensures
            match resolve(*s, path_view(path@).subrange(k as int, path@.len() as int)) {
                Err(e) => r == Err::<ChurnNode, PathError>(e),
                Ok(_) => r is Ok && rooted_at(
                    *s,
                    path_view(path@).subrange(k as int, path@.len() as int),
                    r->Ok_0,
                ),
            },
        decreases path@.len() - k,
    {
        let ghost rest = path_view(path@).subrange(k as int, path@.len() as int);
        if k == path.len() {
            return Ok(ChurnNode::from_snapshot(s));
        }
        assert(rest.drop_first() =~= path_view(path@).subrange(k + 1, path@.len() as int));
        assert(rest[0] == path@[k as int]@);
        match s {
            Snapshot::File { .. } => Err(PathError::NotADirectory),
            Snapshot::Directory { id, entries } => {
                match find_entry(entries, &path[k]) {
                    None => Err(PathError::NotTracked),
                    Some(j) => match &entries[j].item {
                        Snapshot::File { .. } => Err(PathError::NotADirectory),
                        Snapshot::Directory { .. } => {
                            let sub = ChurnNode::descend(&entries[j].item, path, k + 1)?;
                            let mut children: Vec<Child> = Vec::new();
                            children.push(Child { name: path[k].clone(), node: sub });
                            Ok(ChurnNode::Directory { last_revision: id.copy(), children })
                        },
                    },
                }
            },
        }
    }
}

} // verus!
