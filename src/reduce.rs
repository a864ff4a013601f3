use vstd::prelude::*;
use crate::revision::RevisionId;
use crate::store::{diff_changed_file_count, has_nul, StoreError};

verus! {

/// One full diff to compute: from the older tree to the newer one.
#[derive(Debug)]
pub struct DeltaJob {
    pub old_tree: RevisionId,
    pub new_tree: RevisionId,
}

/// What one diff found: how many files it changed.
#[derive(Clone, Copy, Debug, PartialEq, Eq, Structural)]
pub struct DeltaJobOutput {
    pub changed_file_count: usize,
}

/// One job per adjacent pair of `trees` (newest first): job `i` goes from
/// tree `i + 1` to tree `i`.
pub fn delta_jobs(trees: &Vec<RevisionId>) -> (jobs: Vec<DeltaJob>)
    ensures
        jobs@.len() == if trees@.len() == 0 { 0 } else { trees@.len() - 1 },
        forall|i: int|
            0 <= i < jobs@.len() ==> {
                &&& (#[trigger] jobs@[i]).old_tree@ == trees@[i + 1]@
                &&& jobs@[i].new_tree@ == trees@[i]@
            },
{
    let mut jobs: Vec<DeltaJob> = Vec::new();
    if trees.len() == 0 {
        return jobs;
    }
    let m = trees.len() - 1;
    let mut i: usize = 0;
    while i < m
        invariant
            m == trees@.len() - 1,
            0 <= i <= m,
            jobs@.len() == i,
            forall|j: int|
                0 <= j < i ==> {
                    &&& (#[trigger] jobs@[j]).old_tree@ == trees@[j + 1]@
                    &&& jobs@[j].new_tree@ == trees@[j]@
                },
        decreases trees@.len() - i,
    {
        jobs.push(DeltaJob { old_tree: trees[i + 1].copy(), new_tree: trees[i].copy() });
        i = i + 1;
    }
    jobs
}

/// Finds a NUL byte in `s`.
fn holds_nul(s: &Vec<u8>) -> (r: bool)
    ensures
        r == has_nul(s@),
{
    let mut i: usize = 0;
    while i < s.len()
        invariant
            0 <= i <= s@.len(),
            forall|j: int| 0 <= j < i ==> s@[j] != 0,
        decreases s@.len() - i,
    {
        if s[i] == 0 {
            return true;
        }
        i = i + 1;
    }
    false
}

/// Why a job produced no count.
#[derive(Clone, Debug)]
pub enum JobError {
    /// The directory scope holds a NUL byte, so it names no path.
    NulInScope,
    /// The store failed to load a tree or compute the diff.
    Store(StoreError),
}

/// The path specifications that restrict a diff to `scope`: none for the
/// whole tree, the scope itself otherwise, and `None` for a scope holding a
/// NUL byte.
pub fn scope_pathspecs(scope: &Option<Vec<u8>>) -> (r: Option<Vec<Vec<u8>>>)
    ensures
        match scope {
            None => r matches Some(v) && v@.len() == 0,
            Some(p) => if has_nul(p@) {
                r is None
            } else {
                r matches Some(v) && v@.len() == 1 && v@[0]@ == p@
            },
        },
{
    let mut pathspecs: Vec<Vec<u8>> = Vec::new();
    if let Some(p) = scope {
        if holds_nul(p) {
            return None;
        }
        pathspecs.push(p.clone());
    }
    Some(pathspecs)
}

/// Runs one job against the store: the number of files the diff between
/// its two trees changes, within the directory `scope` if one is given, or
/// why there is none. The diff is asked for exactly the path specifications
/// of `scope_pathspecs`.
pub fn run_delta_job(repo: &git2::Repository, job: &DeltaJob, scope: &Option<Vec<u8>>) -> (r: Result<DeltaJobOutput, JobError>)
    ensures
        r matches Err(JobError::NulInScope) <==> (scope matches Some(p) && has_nul(p@)),
{
    match scope_pathspecs(scope) {
        None => Err(JobError::NulInScope),
        Some(pathspecs) => match diff_changed_file_count(repo, &job.old_tree, &job.new_tree, &pathspecs) {
            Ok(n) => Ok(DeltaJobOutput { changed_file_count: n }),
            Err(e) => Err(JobError::Store(e)),
        },
    }
}

/// Folds job results by addition; failed jobs are counted apart and add
/// nothing. Both sums stop at `u64::MAX`.
#[derive(Debug)]
pub struct Reducer {
    pub total: u64,
    pub failed: u64,
}

pub open spec fn capped(x: int) -> u64 {
    if x > u64::MAX { u64::MAX } else { x as u64 }
}

impl Reducer {
    pub fn new() -> (r: Reducer)
        ensures
            r.total == 0,
            r.failed == 0,
    {
        Reducer { total: 0, failed: 0 }
    }

    /// Adds one job's result to the fold.
    pub fn absorb(&mut self, result: &Result<DeltaJobOutput, JobError>)
        ensures
            match result {
                Ok(out) => {
                    &&& final(self).total == capped(old(self).total + out.changed_file_count)
                    &&& final(self).failed == old(self).failed
                },
                Err(_) => {
                    &&& final(self).total == old(self).total
                    &&& final(self).failed == capped(old(self).failed + 1)
                },
            },
    {
        match result {
            Ok(out) => {
                self.total = self.total.saturating_add(out.changed_file_count as u64);
            },
            Err(_) => {
                self.failed = self.failed.saturating_add(1);
            },
        }
    }
}

/// The sum of the changed-file counts of the jobs that succeeded.
pub open spec fn ok_sum(results: Seq<Result<DeltaJobOutput, JobError>>) -> int
    decreases results.len(),
{
    if results.len() == 0 {
        0
    } else {
        ok_sum(results.drop_last()) + match results.last() {
            Ok(out) => out.changed_file_count as int,
            Err(_) => 0int,
        }
    }
}

proof fn lemma_ok_sum_nonneg(results: Seq<Result<DeltaJobOutput, JobError>>)
    ensures
        ok_sum(results) >= 0,
    decreases results.len(),
{
    if results.len() > 0 {
        lemma_ok_sum_nonneg(results.drop_last());
    }
}

/// Folds a whole list of results, as the reducer does one by one.
pub fn fold_outputs(results: &Vec<Result<DeltaJobOutput, JobError>>) -> (r: u64)
    ensures
        r == capped(ok_sum(results@)),
{
    let mut reducer = Reducer::new();
    let mut i: usize = 0;
    while i < results.len()
        invariant
            0 <= i <= results@.len(),
            reducer.total == capped(ok_sum(results@.subrange(0, i as int))),
        decreases results@.len() - i,
    {
        assert(results@.subrange(0, i + 1).drop_last() =~= results@.subrange(0, i as int));
        proof {
            lemma_ok_sum_nonneg(results@.subrange(0, i as int));
        }
        reducer.absorb(&results[i]);
        i = i + 1;
    }
    assert(results@.subrange(0, results@.len() as int) =~= results@);
    reducer.total
}

} // verus!
