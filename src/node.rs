use vstd::prelude::*;
use crate::revision::{bytes_equal, RevisionId};
use crate::laws::{counts_track, lemma_counts_monotone, lemma_track_bounds, lemma_track_self};
use crate::order::{lemma_track_ordered, ordered};
use crate::store::{find_tree_entries, LoadError, StoreError, TreeEntry};

verus! {

/// A tracked directory entry: its name and the node mirroring it.
#[derive(Debug)]
pub struct Child {
    pub name: Vec<u8>,
    pub node: ChurnNode,
}

/// Mirror of a tree, remembering for each node the identifier it was last
/// inspected at and, for files, how many times that identifier changed.
/// Children keep the order of the snapshot the tree was built from. The set
/// of tracked paths is fixed when the tree is built: entries that appear in
/// other revisions are not added.
#[derive(Debug)]
pub enum ChurnNode {
    File { last_revision: RevisionId, change_count: usize },
    Directory { last_revision: RevisionId, children: Vec<Child> },
}

impl ChurnNode {
    pub open spec fn revision(self) -> Seq<u8> {
        match self {
            ChurnNode::File { last_revision, .. } => last_revision@,
            ChurnNode::Directory { last_revision, .. } => last_revision@,
        }
    }

    pub open spec fn kids(self) -> Seq<Child> {
        match self {
            ChurnNode::File { .. } => Seq::empty(),
            ChurnNode::Directory { children, .. } => children@,
        }
    }
}

/// Every file under `n` has been counted at most `b` times.
pub open spec fn counts_at_most(n: ChurnNode, b: nat) -> bool
    decreases n,
{
    match n {
        ChurnNode::File { change_count, .. } => change_count <= b,
        ChurnNode::Directory { children, .. } => forall|i: int|
            0 <= i < children@.len() ==> counts_at_most(#[trigger] children@[i].node, b),
    }
}

/// The identifier that the first entry called `name` carries, if any.
pub open spec fn entry_id_named(entries: Seq<TreeEntry>, name: Seq<u8>) -> Option<Seq<u8>>
    decreases entries.len(),
{
    if entries.len() == 0 {
        None
    } else if entries[0].name@ == name {
        Some(entries[0].id@)
    } else {
        entry_id_named(entries.drop_first(), name)
    }
}

/// `new` is what applying a revision that differs from `old`'s may leave,
/// whatever trees the store hands out on the way: a file is counted once
/// more; a directory keeps its children's names, and each child either stays
/// as it was or takes another identifier and is itself stepped.
pub open spec fn stepped(old: ChurnNode, new: ChurnNode) -> bool
    decreases old,
{
    match old {
        ChurnNode::File { change_count, .. } => match new {
            ChurnNode::File { change_count: nc, .. } => nc == change_count + 1,
            ChurnNode::Directory { .. } => false,
        },
        ChurnNode::Directory { children, .. } => match new {
            ChurnNode::File { .. } => false,
            ChurnNode::Directory { children: nch, .. } => {
                &&& nch@.len() == children@.len()
                &&& forall|i: int|
                    #![trigger nch@[i]]
                    0 <= i < children@.len() ==> {
                        &&& nch@[i].name == children@[i].name
                        &&& (nch@[i].node == children@[i].node || (nch@[i].node.revision()
                            != children@[i].node.revision() && stepped(children@[i].node, nch@[i].node)))
                    }
            },
        },
    }
}

/// `new` is what applying revision `r` to `old` may leave: an equal
/// identifier changes nothing; otherwise the node takes `r` and is stepped.
pub open spec fn updated(old: ChurnNode, r: Seq<u8>, new: ChurnNode) -> bool {
    if old.revision() == r {
        new == old
    } else {
        new.revision() == r && stepped(old, new)
    }
}

/// The identifier that the first entry named `name` carries, if any.
pub fn entry_id_for(entries: &Vec<TreeEntry>, name: &Vec<u8>) -> (r: Option<RevisionId>)
    ensures
        match r {
            Some(id) => entry_id_named(entries@, name@) == Some(id@),
            None => entry_id_named(entries@, name@) is None,
        },
{
    let n = entries.len();
    let mut i: usize = 0;
    assert(entries@.subrange(0, n as int) =~= entries@);
    while i < n
        invariant
            n == entries@.len(),
            0 <= i <= n,
            entry_id_named(entries@, name@) == entry_id_named(entries@.subrange(i as int, n as int), name@),
        decreases n - i,
    {
        assert(entries@.subrange(i as int, n as int).drop_first() =~= entries@.subrange(i + 1, n as int));
        if bytes_equal(&entries[i].name, name) {
            return Some(entries[i].id.copy());
        }
        i = i + 1;
    }
    None
}

/// How the children of a directory stand after a loaded tree was applied to
/// them: names unchanged, each child with an entry of its name updated to
/// that entry's identifier, the others as they were.
pub open spec fn children_follow(old: Seq<Child>, new: Seq<Child>, entries: Seq<TreeEntry>) -> bool {
    &&& new.len() == old.len()
    &&& forall|i: int| 0 <= i < old.len() ==> {
        &&& #[trigger] new[i].name == old[i].name
        &&& match entry_id_named(entries, old[i].name@) {
            Some(id) => updated(old[i].node, id, new[i].node),
            None => new[i].node == old[i].node,
        }
    }
}

/// Applying `entries` to `kids` needs no further tree from the store: each
/// child with an entry of its name that carries another identifier is a
/// file.
pub open spec fn needs_no_store(kids: Seq<Child>, entries: Seq<TreeEntry>) -> bool {
    forall|j: int|
        #![trigger kids[j]]
        0 <= j < kids.len() ==> match entry_id_named(entries, kids[j].name@) {
            Some(id) => id == kids[j].node.revision() || kids[j].node is File,
            None => true,
        }
}

/// Children keep their names and each tracks the child it was.
pub open spec fn children_track(old: Seq<Child>, new: Seq<Child>) -> bool {
    &&& new.len() == old.len()
    &&& forall|i: int|
        #![trigger new[i]]
        0 <= i < old.len() ==> new[i].name == old[i].name && counts_track(old[i].node, new[i].node)
}

/// Applies a loaded tree's entries to the children of a directory, in order,
/// stopping at the first store failure.
fn update_children(children: &mut Vec<Child>, repo: &git2::Repository, entries: &Vec<TreeEntry>) -> (r: Result<(), StoreError>)
    requires
        forall|j: int| 0 <= j < old(children)@.len() ==> counts_at_most(#[trigger] old(children)@[j].node, (usize::MAX - 1) as nat),
    ensures
        r is Ok ==> children_follow(old(children)@, final(children)@, entries@),
        needs_no_store(old(children)@, entries@) ==> r is Ok,
        children_track(old(children)@, final(children)@),
    decreases *old(children), 0nat,
{
    let ghost old_children = children@;
    let n = children.len();
    let mut i: usize = 0;
    while i < n
        invariant
            n == children@.len(),
            n == old_children.len(),
            old_children == old(children)@,
            0 <= i <= n,
            forall|j: int| 0 <= j < n ==> #[trigger] children@[j].name == old_children[j].name,
            forall|j: int| i <= j < n ==> #[trigger] children@[j].node == old_children[j].node,
            forall|j: int| 0 <= j < n ==> counts_at_most(#[trigger] old_children[j].node, (usize::MAX - 1) as nat),
            forall|j: int| 0 <= j < i ==> match entry_id_named(entries@, old_children[j].name@) {
                Some(id) => updated(old_children[j].node, id, #[trigger] children@[j].node),
                None => children@[j].node == old_children[j].node,
            },
            forall|j: int| 0 <= j < i ==> counts_track(old_children[j].node, #[trigger] children@[j].node),
        decreases n - i,
    {
        let found = entry_id_for(entries, &children[i].name);
        if let Some(id) = found {
            assert(decreases_to!(*old(children) => old(children)@[i as int].node)) by {
                vstd::std_specs::vec::axiom_vec_index_decreases(*old(children), i as int);
            }
            let child = &mut children[i];
            let res = child.node.update_for_revision(repo, &id);
            if let Err(e) = res {
                assert(!needs_no_store(old_children, entries@)) by {
                    assert(old_children[i as int] == old(children)@[i as int]);
                }
                proof {
                    assert forall|j: int| 0 <= j < n implies counts_track(
                        old_children[j].node,
                        #[trigger] children@[j].node,
                    ) by {
                        if j > i {
                            lemma_track_self(old_children[j].node);
                        }
                    }
                }
                return Err(e);
            }
            proof {
                lemma_counts_monotone(old_children[i as int].node, id@, children@[i as int].node, 0);
            }
        } else {
            proof {
                lemma_track_self(old_children[i as int].node);
            }
        }
        i = i + 1;
    }
    assert(children_follow(old_children, children@, entries@));
    Ok(())
}

proof fn lemma_children_counts(n: ChurnNode, b: nat)
    requires
        counts_at_most(n, b),
    ensures
        forall|j: int| 0 <= j < n.kids().len() ==> counts_at_most(#[trigger] n.kids()[j].node, b),
{
    if let ChurnNode::Directory { children, .. } = n {
        assert forall|j: int| 0 <= j < n.kids().len() implies counts_at_most(#[trigger] n.kids()[j].node, b) by {
            reveal_with_fuel(counts_at_most, 2);
            assert(counts_at_most(children@[j].node, b));
        }
    }
}

proof fn lemma_grow_bounds(old: ChurnNode, new: ChurnNode)
    requires
        counts_track(old, new),
    ensures
        forall|b: nat| #[trigger] counts_at_most(old, b) ==> counts_at_most(new, b + 1),
        ordered(old) ==> ordered(new),
{
    assert forall|b: nat| #[trigger] counts_at_most(old, b) implies counts_at_most(new, b + 1) by {
        lemma_track_bounds(old, new, b);
    }
    if ordered(old) {
        lemma_track_ordered(old, new);
    }
}

proof fn lemma_follow_is_update(old: ChurnNode, r: Seq<u8>, new: ChurnNode, entries: Seq<TreeEntry>)
    requires
        old is Directory,
        new is Directory,
        old.revision() != r,
        new.revision() == r,
        children_follow(old.kids(), new.kids(), entries),
    ensures
        updated(old, r, new),
{
    assert forall|i: int| 0 <= i < old.kids().len() implies {
        &&& (#[trigger] new.kids()[i]).name == old.kids()[i].name
        &&& (new.kids()[i].node == old.kids()[i].node || (new.kids()[i].node.revision()
            != old.kids()[i].node.revision() && stepped(old.kids()[i].node, new.kids()[i].node)))
    } by {
        assert(new.kids()[i].name == old.kids()[i].name);
    }
}

impl ChurnNode {
    /// The identifier this node was last inspected at.
    pub fn last_revision(&self) -> (r: &RevisionId)
        ensures
            r@ == self.revision(),
    {
        match self {
            ChurnNode::File { last_revision, .. } => last_revision,
            ChurnNode::Directory { last_revision, .. } => last_revision,
        }
    }

    /// Applies revision `revision` to this node: nothing happens when it
    /// equals the node's last revision; a file is counted once more; a
    /// directory loads the tree of that identifier and goes on with
    /// `apply_loaded_tree`.
    pub fn update_for_revision(&mut self, repo: &git2::Repository, revision: &RevisionId) -> (r: Result<(), StoreError>)
        requires
            counts_at_most(*old(self), (usize::MAX - 1) as nat),
        ensures
            old(self).revision() == revision@ ==> r is Ok && *final(self) == *old(self),
            *old(self) is File ==> r is Ok,
            r is Ok ==> updated(*old(self), revision@, *final(self)),
            r is Err ==> final(self).revision() == old(self).revision(),
            counts_track(*old(self), *final(self)),
            forall|b: nat| #[trigger] counts_at_most(*old(self), b) ==> counts_at_most(*final(self), b + 1),
            ordered(*old(self)) ==> ordered(*final(self)),
        decreases *old(self), 2nat,
    {
        if self.last_revision().same_as(revision) {
            proof {
                lemma_track_self(*self);
                lemma_grow_bounds(*self, *self);
            }
            return Ok(());
        }
        let count = match &*self {
            ChurnNode::File { change_count, .. } => Some(*change_count),
            ChurnNode::Directory { .. } => None,
        };
        match count {
            Some(c) => {
                *self = ChurnNode::File { last_revision: revision.copy(), change_count: c + 1 };
                proof {
                    lemma_grow_bounds(*old(self), *self);
                }
                Ok(())
            },
            None => {
                let loaded = find_tree_entries(repo, revision);
                let ghost g_loaded = loaded;
                let res = self.apply_loaded_tree(repo, revision, loaded);
                proof {
                    if res is Ok && g_loaded is Ok {
                        lemma_follow_is_update(*old(self), revision@, *self, g_loaded->Ok_0@);
                    }
                    lemma_grow_bounds(*old(self), *self);
                }
                res
            },
        }
    }

    /// Applies revision `revision`, whose tree the store answered with
    /// `loaded`, to this directory. A missing tree (the path now names
    /// something else) is absorbed: the directory takes the new identifier
    /// and keeps its children as they were. Any other store failure is
    /// returned and leaves the directory unchanged. A loaded tree updates
    /// each child that has an entry of the same name to that entry's
    /// identifier; children without one stay as they are.
    pub fn apply_loaded_tree(
        &mut self,
        repo: &git2::Repository,
        revision: &RevisionId,
        loaded: Result<Vec<TreeEntry>, LoadError>,
    ) -> (r: Result<(), StoreError>)
        requires
            *old(self) is Directory,
            counts_at_most(*old(self), (usize::MAX - 1) as nat),
        ensures
            *final(self) is Directory,
            loaded matches Err(LoadError::NotFound) ==> {
                &&& r is Ok
                &&& final(self).revision() == revision@
                &&& final(self)->children == old(self)->children
            },
            loaded matches Err(LoadError::Failed(e)) ==> r == Err::<(), StoreError>(e) && *final(self) == *old(self),
            (loaded is Ok && needs_no_store(old(self).kids(), loaded->Ok_0@)) ==> r is Ok,
            (loaded is Ok && r is Ok) ==> {
                &&& final(self).revision() == revision@
                &&& children_follow(old(self).kids(), final(self).kids(), loaded->Ok_0@)
            },
            r is Err ==> final(self).revision() == old(self).revision(),
            counts_track(*old(self), *final(self)),
        decreases *old(self), 1nat,
    {
        match self {
            ChurnNode::File { .. } => Ok(()),
            ChurnNode::Directory { last_revision, children } => {
                match loaded {
                    Err(LoadError::NotFound) => {
                        proof {
                            lemma_track_self(*old(self));
                        }
                        *last_revision = revision.copy();
                        Ok(())
                    },
                    Err(LoadError::Failed(e)) => {
                        proof {
                            lemma_track_self(*old(self));
                        }
                        Err(e)
                    },
                    Ok(entries) => {
                        proof {
                            lemma_children_counts(*old(self), (usize::MAX - 1) as nat);
                            assert(children@ == old(self).kids());
                        }
                        let res = update_children(children, repo, &entries);
                        if res.is_ok() {
                            *last_revision = revision.copy();
                        }
                        res
                    },
                }
            },
        }
    }
}

} // verus!
