use vstd::prelude::*;
use crate::laws::{lemma_counts_monotone, lemma_counts_widen};
use crate::node::{counts_at_most, updated, ChurnNode};
use crate::order::ordered;
use crate::revision::RevisionId;
use crate::store::StoreError;

verus! {

/// Seconds in a week.
pub const WEEK_SECONDS: i64 = 604800;

/// Whether an integer fits in an `i64`.
pub open spec fn fits_i64(x: int) -> bool {
    i64::MIN <= x <= i64::MAX
}

/// The instant `weeks` weeks before `now` (both in seconds since the epoch),
/// or `None` when the span or the instant does not fit in an `i64`.
pub fn cutoff_epoch(now: i64, weeks: i64) -> (r: Option<i64>)
    ensures
        r == (if fits_i64(weeks * WEEK_SECONDS) && fits_i64(now - weeks * WEEK_SECONDS) {
            Some((now - weeks * WEEK_SECONDS) as i64)
        } else {
            None::<i64>
        }),
{
    match weeks.checked_mul(WEEK_SECONDS) {
        None => None,
        Some(span) => now.checked_sub(span),
    }
}

/// A parent commit as the history walk sees it: its root tree and its
/// commit time in seconds since the epoch.
#[derive(Debug)]
pub struct ParentCommit {
    pub tree: RevisionId,
    pub time: i64,
}

/// Whether a commit made at `time` is the last one the walk takes.
pub open spec fn stops_at(cutoff: Option<i64>, time: i64) -> bool {
    match cutoff {
        Some(c) => time <= c,
        None => false,
    }
}

/// Follows first parents from a starting commit, collecting their trees
/// newest first, until there is no parent or a commit at or before the
/// cutoff has been taken.
#[derive(Debug)]
pub struct HistoryWalk {
    pub cutoff: Option<i64>,
    pub trees: Vec<RevisionId>,
    pub finished: bool,
}

impl HistoryWalk {
    pub fn new(cutoff: Option<i64>) -> (r: HistoryWalk)
        ensures
            r.cutoff == cutoff,
            r.trees@.len() == 0,
            !r.finished,
    {
        HistoryWalk { cutoff, trees: Vec::new(), finished: false }
    }

    /// Takes the next parent (or its absence) and says whether the walk
    /// wants the one after it.
    pub fn observe(&mut self, parent: Option<ParentCommit>) -> (more: bool)
        ensures
            more == !final(self).finished,
            final(self).cutoff == old(self).cutoff,
            old(self).finished ==> final(self).finished && final(self).trees@ == old(self).trees@,
            !old(self).finished ==> match parent {
                None => final(self).finished && final(self).trees@ == old(self).trees@,
                Some(p) => {
                    &&& final(self).trees@ == old(self).trees@.push(p.tree)
                    &&& final(self).finished == stops_at(old(self).cutoff, p.time)
                },
            },
    {
        if self.finished {
            return false;
        }
        match parent {
            None => {
                self.finished = true;
            },
            Some(p) => {
                let stop = match self.cutoff {
                    Some(c) => p.time <= c,
                    None => false,
                };
                self.trees.push(p.tree);
                self.finished = stop;
            },
        }
        !self.finished
    }
}

/// `new` is what applying the revisions `rs`, in order, to `old` may leave:
/// there are states from `old` to `new`, each an update of the one before
/// by the next revision.
pub open spec fn history_applied(old: ChurnNode, rs: Seq<Seq<u8>>, new: ChurnNode) -> bool {
    exists|states: Seq<ChurnNode>|
        {
            &&& states.len() == rs.len() + 1
            &&& states[0] == old
            &&& states.last() == new
            &&& forall|i: int|
                0 <= i < rs.len() ==> #[trigger] updated(states[i], rs[i], states[i + 1])
        }
}

pub open spec fn revision_views(trees: Seq<RevisionId>) -> Seq<Seq<u8>> {
    trees.map_values(|t: RevisionId| t@)
}

/// A revision of a history that could not be applied.
#[derive(Debug)]
pub struct HistoryError {
    pub index: usize,
    pub tree: RevisionId,
    pub error: StoreError,
}

impl ChurnNode {
    /// Applies each tree of `trees`, in order, stopping at the first store
    /// failure, which names the tree.
    pub fn apply_history(&mut self, repo: &git2::Repository, trees: &Vec<RevisionId>) -> (r: Result<(), HistoryError>)
        requires
            counts_at_most(*old(self), (usize::MAX - trees@.len()) as nat),
        ensures
            r is Ok ==> history_applied(*old(self), revision_views(trees@), *final(self)),
            r matches Err(e) ==> e.index < trees@.len() && e.tree@ == trees@[e.index as int]@,
            (*old(self) is File || forall|i: int|
                0 <= i < trees@.len() ==> #[trigger] trees@[i]@ == old(self).revision()) ==> r is Ok,
            ordered(*old(self)) ==> ordered(*final(self)),
    {
        let ghost rs = revision_views(trees@);
        let ghost mut states: Seq<ChurnNode> = seq![*self];
        let n = trees.len();
        let mut i: usize = 0;
        while i < n
            invariant
                n == trees@.len(),
                rs == revision_views(trees@),
                0 <= i <= n,
                states.len() == i + 1,
                states[0] == *old(self),
                states.last() == *self,
                forall|j: int| 0 <= j < i ==> #[trigger] updated(states[j], rs[j], states[j + 1]),
                counts_at_most(*self, (usize::MAX - n + i) as nat),
                *old(self) is File ==> *self is File,
                ordered(*old(self)) ==> ordered(*self),
                (forall|j: int| 0 <= j < n ==> #[trigger] trees@[j]@ == old(self).revision()) ==> *self
                    == *old(self),
            decreases n - i,
        {
            let ghost before = *self;
            proof {
                lemma_counts_widen(*self, (usize::MAX - n + i) as nat, (usize::MAX - 1) as nat);
            }
            match self.update_for_revision(repo, &trees[i]) {
                Ok(()) => {},
                Err(error) => {
                    assert(!(*old(self) is File || forall|j: int|
                        0 <= j < n ==> #[trigger] trees@[j]@ == old(self).revision())) by {
                        if forall|j: int| 0 <= j < n ==> #[trigger] trees@[j]@ == old(self).revision() {
                            assert(trees@[i as int]@ == old(self).revision());
                        }
                    }
                    return Err(HistoryError { index: i, tree: trees[i].copy(), error });
                },
            }
            proof {
                lemma_counts_monotone(before, rs[i as int], *self, (usize::MAX - n + i) as nat);
                states = states.push(*self);
                assert forall|j: int| 0 <= j < i + 1 implies #[trigger] updated(states[j], rs[j], states[j + 1]) by {
                    if j < i {
                        assert(states[j] == states.drop_last()[j]);
                    }
                }
            }
            i = i + 1;
        }
        assert(states.len() == rs.len() + 1);
        Ok(())
    }
}

} // verus!
