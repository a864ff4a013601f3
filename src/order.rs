use vstd::prelude::*;
use crate::revision::bytes_equal;
use crate::construct::is_fresh;
use crate::laws::counts_track;
use crate::node::ChurnNode;
use crate::snapshot::{Snapshot, SnapshotEntry};

verus! {

/// Byte-wise lexicographic order: `a` comes strictly before `b`.
pub open spec fn lex_lt(a: Seq<u8>, b: Seq<u8>) -> bool
    decreases a.len(),
{
    if a.len() == 0 {
        b.len() > 0
    } else if b.len() == 0 {
        false
    } else if a[0] != b[0] {
        a[0] < b[0]
    } else {
        lex_lt(a.drop_first(), b.drop_first())
    }
}

/// Every directory's children have strictly ascending names, so names are
/// unique and a listing follows their byte order.
pub open spec fn ordered(n: ChurnNode) -> bool
    decreases n,
{
    match n {
        ChurnNode::File { .. } => true,
        ChurnNode::Directory { children, .. } => {
            &&& forall|i: int, j: int|
                0 <= i < j < children@.len() ==> lex_lt(
                    #[trigger] children@[i].name@,
                    #[trigger] children@[j].name@,
                )
            &&& forall|i: int| 0 <= i < children@.len() ==> ordered(#[trigger] children@[i].node)
        },
    }
}

/// Every directory's entries have strictly ascending names.
pub open spec fn snapshot_ordered(s: Snapshot) -> bool
    decreases s,
{
    match s {
        Snapshot::File { .. } => true,
        Snapshot::Directory { entries, .. } => {
            &&& forall|i: int, j: int|
                0 <= i < j < entries@.len() ==> lex_lt(
                    #[trigger] entries@[i].name@,
                    #[trigger] entries@[j].name@,
                )
            &&& forall|i: int| 0 <= i < entries@.len() ==> snapshot_ordered(#[trigger] entries@[i].item)
        },
    }
}

/// A mirror of an ordered snapshot is ordered.
pub proof fn lemma_fresh_ordered(s: Snapshot, n: ChurnNode)
    requires
        is_fresh(s, n),
        snapshot_ordered(s),
    ensures
        ordered(n),
    decreases s,
{
    if let Snapshot::Directory { entries, .. } = s {
        let kids = n.kids();
        assert forall|i: int| 0 <= i < kids.len() implies ordered(#[trigger] kids[i].node) by {
            assert(snapshot_ordered(entries@[i].item));
            lemma_fresh_ordered(entries@[i].item, kids[i].node);
        }
        assert forall|i: int, j: int| 0 <= i < j < kids.len() implies lex_lt(
            #[trigger] kids[i].name@,
            #[trigger] kids[j].name@,
        ) by {
            assert(lex_lt(entries@[i].name@, entries@[j].name@));
        }
    }
}

/// Updates keep a tree ordered: they never rename, add or remove a child.
pub proof fn lemma_track_ordered(old: ChurnNode, new: ChurnNode)
    requires
        counts_track(old, new),
        ordered(old),
    ensures
        ordered(new),
    decreases old,
{
    if let ChurnNode::Directory { children, .. } = old {
        let kids = new.kids();
        assert forall|i: int| 0 <= i < kids.len() implies ordered(#[trigger] kids[i].node) by {
            assert(ordered(children@[i].node));
            lemma_track_ordered(children@[i].node, kids[i].node);
        }
        assert forall|i: int, j: int| 0 <= i < j < kids.len() implies lex_lt(
            #[trigger] kids[i].name@,
            #[trigger] kids[j].name@,
        ) by {
            assert(kids[i].name == children@[i].name);
            assert(kids[j].name == children@[j].name);
            assert(lex_lt(children@[i].name@, children@[j].name@));
        }
    }
}

proof fn lemma_lex_total(a: Seq<u8>, b: Seq<u8>)
    ensures
        a == b || lex_lt(a, b) || lex_lt(b, a),
    decreases a.len(),
{
    if a.len() > 0 && b.len() > 0 && a[0] == b[0] {
        lemma_lex_total(a.drop_first(), b.drop_first());
        if a.drop_first() == b.drop_first() {
            assert(a =~= seq![a[0]] + a.drop_first());
            assert(b =~= seq![b[0]] + b.drop_first());
        }
    } else if a.len() == 0 && b.len() == 0 {
        assert(a =~= b);
    }
}

proof fn lemma_lex_transitive(a: Seq<u8>, b: Seq<u8>, c: Seq<u8>)
    requires
        lex_lt(a, b),
        lex_lt(b, c),
    ensures
        lex_lt(a, c),
    decreases a.len(),
{
    if a.len() > 0 && b.len() > 0 && c.len() > 0 && a[0] == b[0] && b[0] == c[0] {
        lemma_lex_transitive(a.drop_first(), b.drop_first(), c.drop_first());
    }
}

/// Whether `a` comes strictly before `b` in byte order.
pub fn bytes_lt(a: &Vec<u8>, b: &Vec<u8>) -> (r: bool)
    ensures
        r == lex_lt(a@, b@),
{
    let mut i: usize = 0;
    assert(a@.subrange(0, a@.len() as int) =~= a@);
    assert(b@.subrange(0, b@.len() as int) =~= b@);
    while i < a.len() && i < b.len()
        invariant
            0 <= i <= a@.len(),
            i <= b@.len(),
            lex_lt(a@, b@) == lex_lt(a@.subrange(i as int, a@.len() as int), b@.subrange(i as int, b@.len() as int)),
        decreases a@.len() - i,
    {
        let ghost sa = a@.subrange(i as int, a@.len() as int);
        let ghost sb = b@.subrange(i as int, b@.len() as int);
        assert(sa.drop_first() =~= a@.subrange(i + 1, a@.len() as int));
        assert(sb.drop_first() =~= b@.subrange(i + 1, b@.len() as int));
        if a[i] != b[i] {
            return a[i] < b[i];
        }
        i = i + 1;
    }
    i < b.len()
}

/// Names of `entries` strictly ascend.
pub open spec fn entries_ascending(entries: Seq<SnapshotEntry>) -> bool {
    forall|i: int, j: int|
        0 <= i < j < entries.len() ==> lex_lt(#[trigger] entries[i].name@, #[trigger] entries[j].name@)
}

/// `new` is `old` with `entry` put in at `p`, or put in place of the entry
/// of the same name at `p`.
pub open spec fn inserted_at(old: Seq<SnapshotEntry>, new: Seq<SnapshotEntry>, entry: SnapshotEntry, p: int) -> bool {
    &&& 0 <= p <= old.len()
    &&& {
        ||| new == old.insert(p, entry)
        ||| (p < old.len() && old[p].name@ == entry.name@ && new == old.update(p, entry))
    }
}

/// Puts `entry` among `entries`, whose names ascend, at the place its name
/// takes in byte order; an entry of the same name is replaced by it.
pub fn insert_ordered(entries: &mut Vec<SnapshotEntry>, entry: SnapshotEntry)
    requires
        entries_ascending(old(entries)@),
    ensures
        entries_ascending(final(entries)@),
        exists|p: int| #[trigger] inserted_at(old(entries)@, final(entries)@, entry, p),
{
    let ghost old_e = entries@;
    let n = entries.len();
    let mut p: usize = 0;
    while p < n && bytes_lt(&entries[p].name, &entry.name)
        invariant
            n == entries@.len(),
            entries@ == old_e,
            0 <= p <= n,
            forall|i: int| 0 <= i < p ==> lex_lt(#[trigger] entries@[i].name@, entry.name@),
        decreases n - p,
    {
        p = p + 1;
    }
    if p < n && bytes_equal(&entries[p].name, &entry.name) {
        entries.set(p, entry);
        assert forall|i: int, j: int| 0 <= i < j < entries@.len() implies lex_lt(
            #[trigger] entries@[i].name@,
            #[trigger] entries@[j].name@,
        ) by {
            assert(lex_lt(old_e[i].name@, old_e[j].name@));
        }
        assert(inserted_at(old_e, entries@, entry, p as int));
    } else {
        proof {
            if p < n {
                lemma_lex_total(old_e[p as int].name@, entry.name@);
            }
        }
        entries.insert(p, entry);
        assert forall|i: int, j: int| 0 <= i < j < entries@.len() implies lex_lt(
            #[trigger] entries@[i].name@,
            #[trigger] entries@[j].name@,
        ) by {
            if j == p {
            } else if i == p {
                assert(lex_lt(entry.name@, old_e[p as int].name@));
                if j - 1 != p {
                    assert(lex_lt(old_e[p as int].name@, old_e[j - 1].name@));
                    lemma_lex_transitive(entry.name@, old_e[p as int].name@, old_e[j - 1].name@);
                }
            } else if i < p && j > p {
                assert(lex_lt(old_e[i].name@, old_e[j - 1].name@));
            } else if i > p {
                assert(lex_lt(old_e[i - 1].name@, old_e[j - 1].name@));
            } else {
                assert(lex_lt(old_e[i].name@, old_e[j].name@));
            }
        }
        assert(inserted_at(old_e, entries@, entry, p as int));
    }
}

} // verus!
