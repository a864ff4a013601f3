use vstd::prelude::*;
use crate::node::{Child, ChurnNode};

verus! {

/// A file's path from the root, with its separators, and how often it changed.
#[derive(Clone, Debug)]
pub struct FileCount {
    pub change_count: usize,
    pub path: Vec<u8>,
}

/// The listing was asked of a node that is a file, not a directory.
#[derive(Clone, Copy, Debug, PartialEq, Eq, Structural)]
pub struct NotADirectory;

/// `prefix` followed by `name`, with a `/` between them unless `prefix` is
/// empty.
pub open spec fn join_path(prefix: Seq<u8>, name: Seq<u8>) -> Seq<u8> {
    if prefix.len() == 0 {
        name
    } else {
        prefix.push(47u8) + name
    }
}

/// The files under `n`, in the order of its children, each as its count and
/// its path below `prefix`.
pub open spec fn files_under(n: ChurnNode, prefix: Seq<u8>) -> Seq<(nat, Seq<u8>)>
    decreases n, 1nat,
{
    match n {
        ChurnNode::File { change_count, .. } => seq![(change_count as nat, prefix)],
        ChurnNode::Directory { children, .. } => files_of_children(children@, children@.len() as int, prefix),
    }
}

/// The files under the first `k` children.
pub open spec fn files_of_children(kids: Seq<Child>, k: int, prefix: Seq<u8>) -> Seq<(nat, Seq<u8>)>
    decreases kids, 0nat, k,
{
    if k <= 0 || k > kids.len() {
        Seq::empty()
    } else {
        files_of_children(kids, k - 1, prefix) + files_under(
            kids[k - 1].node,
            join_path(prefix, kids[k - 1].name@),
        )
    }
}

pub open spec fn listing_view(files: Seq<FileCount>) -> Seq<(nat, Seq<u8>)> {
    files.map_values(|f: FileCount| (f.change_count as nat, f.path@))
}

/// The sum of the counts of a listing.
pub open spec fn count_sum(files: Seq<(nat, Seq<u8>)>) -> nat
    decreases files.len(),
{
    if files.len() == 0 {
        0
    } else {
        count_sum(files.drop_last()) + files.last().0
    }
}

fn join_path_exec(prefix: &Vec<u8>, name: &Vec<u8>) -> (r: Vec<u8>)
    ensures
        r@ == join_path(prefix@, name@),
{
    let mut r = prefix.clone();
    if r.len() > 0 {
        r.push(47u8);
    }
    let mut i: usize = 0;
    let ghost start = r@;
    while i < name.len()
        invariant
            0 <= i <= name@.len(),
            r@ == start + name@.subrange(0, i as int),
        decreases name@.len() - i,
    {
        r.push(name[i]);
        i = i + 1;
    }
    assert(name@.subrange(0, name@.len() as int) =~= name@);
    assert(r@ =~= join_path(prefix@, name@));
    r
}

impl ChurnNode {
    /// Lists every file under this directory with its count and its path
    /// (names joined by `/`), depth first in the order of the children,
    /// which is ascending byte order of names in an `ordered` tree. A file
    /// node has no listing.
    pub fn walk_files(&self) -> (r: Result<Vec<FileCount>, NotADirectory>)
        ensures
            *self is File ==> r is Err,
            *self is Directory ==> r is Ok && listing_view(r->Ok_0@) == files_under(*self, Seq::empty()),
    {
        match self {
            ChurnNode::File { .. } => Err(NotADirectory),
            ChurnNode::Directory { .. } => {
                let mut out: Vec<FileCount> = Vec::new();
                self.walk_files_internal(&Vec::new(), &mut out);
                assert(listing_view(out@) =~= files_under(*self, Seq::<u8>::empty()));
                Ok(out)
            },
        }
    }

    fn walk_files_internal(&self, prefix: &Vec<u8>, out: &mut Vec<FileCount>)
        ensures
            listing_view(final(out)@) == listing_view(old(out)@) + files_under(*self, prefix@),
        decreases *self, 1nat,
    {
        match self {
            ChurnNode::File { change_count, .. } => {
                out.push(FileCount { change_count: *change_count, path: prefix.clone() });
                assert(listing_view(out@) =~= listing_view(old(out)@) + files_under(*self, prefix@));
            },
            ChurnNode::Directory { children, .. } => {
                walk_children(children, prefix, out);
            },
        }
    }
}

fn walk_children(children: &Vec<Child>, prefix: &Vec<u8>, out: &mut Vec<FileCount>)
    ensures
        listing_view(final(out)@) == listing_view(old(out)@) + files_of_children(
            children@,
            children@.len() as int,
            prefix@,
        ),
    decreases *children, 0nat,
{
    let n = children.len();
    let mut i: usize = 0;
    while i < n
        invariant
            n == children@.len(),
            0 <= i <= n,
            listing_view(out@) == listing_view(old(out)@) + files_of_children(children@, i as int, prefix@),
        decreases n - i,
    {
        assert(decreases_to!(*children => children@[i as int].node)) by {
            vstd::std_specs::vec::axiom_vec_index_decreases(*children, i as int);
        }
        let path = join_path_exec(prefix, &children[i].name);
        children[i].node.walk_files_internal(&path, out);
        assert(listing_view(out@) =~= listing_view(old(out)@) + files_of_children(children@, i + 1, prefix@));
        i = i + 1;
    }
}

/// The sum of the counts of a listing; it cannot overflow.
pub fn total_change_count(files: &Vec<FileCount>) -> (r: u128)
    ensures
        r == count_sum(listing_view(files@)),
{
    let mut total: u128 = 0;
    let mut i: usize = 0;
    while i < files.len()
        invariant
            0 <= i <= files@.len(),
            total == count_sum(listing_view(files@.subrange(0, i as int))),
            total <= i * 0xffff_ffff_ffff_ffff,
        decreases files@.len() - i,
    {
        assert(listing_view(files@.subrange(0, i + 1)).drop_last() =~= listing_view(files@.subrange(0, i as int)));
        assert(i * 0xffff_ffff_ffff_ffff + 0xffff_ffff_ffff_ffff <= u128::MAX) by (nonlinear_arith)
            requires (i as int) < 0xffff_ffff_ffff_ffff;
        total = total + files[i].change_count as u128;
        i = i + 1;
    }
    assert(files@.subrange(0, files@.len() as int) =~= files@);
    total
}

} // verus!
