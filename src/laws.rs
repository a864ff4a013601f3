use vstd::prelude::*;
use crate::history::history_applied;
use crate::node::{counts_at_most, stepped, updated, ChurnNode};

verus! {

/// Each file under `new` has the count it had under `old`, plus one exactly
/// when its identifier differs; directories keep their children's names.
pub open spec fn counts_track(old: ChurnNode, new: ChurnNode) -> bool
    decreases old,
{
    match old {
        ChurnNode::File { last_revision, change_count } => match new {
            ChurnNode::File { last_revision: nr, change_count: nc } => nc == change_count + if nr@
                == last_revision@ {
                0int
            } else {
                1int
            },
            ChurnNode::Directory { .. } => false,
        },
        ChurnNode::Directory { children, .. } => match new {
            ChurnNode::File { .. } => false,
            ChurnNode::Directory { children: nch, .. } => {
                &&& nch@.len() == children@.len()
                &&& forall|i: int|
                    #![trigger nch@[i]]
                    0 <= i < children@.len() ==> {
                        &&& nch@[i].name == children@[i].name
                        &&& counts_track(children@[i].node, nch@[i].node)
                    }
            },
        },
    }
}

/// Every node tracks itself.
pub proof fn lemma_track_self(n: ChurnNode)
    ensures
        counts_track(n, n),
    decreases n,
{
    if let ChurnNode::Directory { children, .. } = n {
        assert forall|i: int| 0 <= i < children@.len() implies counts_track(
            children@[i].node,
            (#[trigger] children@[i]).node,
        ) by {
            lemma_track_self(children@[i].node);
        }
    }
}

/// A stepped node whose identifier changed tracks the node it came from.
pub proof fn lemma_stepped_tracks(old: ChurnNode, new: ChurnNode)
    requires
        stepped(old, new),
        new.revision() != old.revision(),
    ensures
        counts_track(old, new),
    decreases old,
{
    if let ChurnNode::Directory { children, .. } = old {
        let nch = new.kids();
        assert forall|i: int| 0 <= i < children@.len() implies counts_track(
            children@[i].node,
            (#[trigger] nch[i]).node,
        ) by {
            if nch[i].node == children@[i].node {
                lemma_track_self(children@[i].node);
            } else {
                lemma_stepped_tracks(children@[i].node, nch[i].node);
            }
        }
    }
}

/// Tracking raises a bound on the counts by at most one.
pub proof fn lemma_track_bounds(old: ChurnNode, new: ChurnNode, b: nat)
    requires
        counts_track(old, new),
        counts_at_most(old, b),
    ensures
        counts_at_most(new, b + 1),
    decreases old,
{
    if let ChurnNode::Directory { children, .. } = old {
        let nch = new.kids();
        assert forall|i: int| 0 <= i < nch.len() implies counts_at_most(#[trigger] nch[i].node, b + 1) by {
            assert(counts_at_most(children@[i].node, b));
            lemma_track_bounds(children@[i].node, nch[i].node, b);
        }
    }
}

/// A bound on the counts holds of every larger bound.
pub proof fn lemma_counts_widen(n: ChurnNode, b: nat, c: nat)
    requires
        counts_at_most(n, b),
        b <= c,
    ensures
        counts_at_most(n, c),
    decreases n,
{
    if let ChurnNode::Directory { children, .. } = n {
        assert forall|i: int| 0 <= i < children@.len() implies counts_at_most(#[trigger] children@[i].node, c) by {
            lemma_counts_widen(children@[i].node, b, c);
        }
    }
}

/// Applying the identifier a node already carries changes nothing in its
/// whole subtree: no count, no identifier.
pub proof fn lemma_pruning(n: ChurnNode, m: ChurnNode)
    requires
        updated(n, n.revision(), m),
    ensures
        m == n,
{
}

/// Applying the same identifier twice in a row leaves what applying it once
/// left.
pub proof fn lemma_idempotent(n: ChurnNode, r: Seq<u8>, once: ChurnNode, twice: ChurnNode)
    requires
        updated(n, r, once),
        updated(once, r, twice),
    ensures
        twice == once,
{
}

/// Across one update, every file keeps its count or gains exactly one, and
/// it gains one exactly when its identifier changed; so no count ever
/// decreases, and a count that was at most `b` is at most `b + 1`.
pub proof fn lemma_counts_monotone(n: ChurnNode, r: Seq<u8>, m: ChurnNode, b: nat)
    requires
        updated(n, r, m),
    ensures
        counts_track(n, m),
        counts_at_most(n, b) ==> counts_at_most(m, b + 1),
{
    if n.revision() == r {
        lemma_track_self(n);
    } else {
        lemma_stepped_tracks(n, m);
    }
    if counts_at_most(n, b) {
        lemma_track_bounds(n, m, b);
    }
}

/// How many revisions of `rs` differ from the one before them, the first
/// being compared with `start`.
pub open spec fn transitions(start: Seq<u8>, rs: Seq<Seq<u8>>) -> nat
    decreases rs.len(),
{
    if rs.len() == 0 {
        0
    } else {
        let prev = if rs.len() == 1 { start } else { rs[rs.len() - 2] };
        transitions(start, rs.drop_last()) + if rs.last() != prev { 1nat } else { 0nat }
    }
}

proof fn lemma_file_prefix(states: Seq<ChurnNode>, rs: Seq<Seq<u8>>, k: int)
    requires
        states.len() == rs.len() + 1,
        states[0] is File,
        0 <= k <= rs.len(),
        forall|i: int| 0 <= i < rs.len() ==> #[trigger] updated(states[i], rs[i], states[i + 1]),
    ensures
        states[k] is File,
        states[k]->change_count == states[0]->change_count + transitions(states[0].revision(), rs.subrange(0, k)),
        states[k].revision() == if k == 0 { states[0].revision() } else { rs[k - 1] },
    decreases k,
{
    if k > 0 {
        lemma_file_prefix(states, rs, k - 1);
        let j = k - 1;
        assert(updated(states[j], rs[j], states[j + 1]));
        assert(j + 1 == k);
        assert(rs.subrange(0, k).drop_last() =~= rs.subrange(0, k - 1));
    }
}

/// Over any sequence of updates, a file's count never decreases, and it
/// grows by exactly the number of revisions at which its identifier differs
/// from the one before.
pub proof fn lemma_file_history(old: ChurnNode, rs: Seq<Seq<u8>>, new: ChurnNode)
    requires
        old is File,
        history_applied(old, rs, new),
    ensures
        new is File,
        new->change_count == old->change_count + transitions(old.revision(), rs),
        new->change_count >= old->change_count,
{
    let states = choose|states: Seq<ChurnNode>|
        {
            &&& states.len() == rs.len() + 1
            &&& states[0] == old
            &&& states.last() == new
            &&& forall|i: int|
                0 <= i < rs.len() ==> #[trigger] updated(states[i], rs[i], states[i + 1])
        };
    lemma_file_prefix(states, rs, rs.len() as int);
    assert(rs.subrange(0, rs.len() as int) =~= rs);
}

} // verus!
