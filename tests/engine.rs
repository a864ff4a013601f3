use churn::snapshot::{PathError, Snapshot, SnapshotEntry};
use churn::path::split_path;
use churn::history::{cutoff_epoch, HistoryWalk, ParentCommit, WEEK_SECONDS};
use churn::node::{Child, ChurnNode};
use churn::order::{bytes_lt, insert_ordered};
use churn::reduce::{delta_jobs, fold_outputs, run_delta_job, scope_pathspecs, DeltaJobOutput, JobError, Reducer};
use churn::report::{total_change_count, FileCount, NotADirectory};
use churn::revision::RevisionId;
use churn::store::{LoadError, StoreError, TreeEntry, EntryKind};
use git2::{Odb, Oid, Repository};

fn rid(b: u8) -> RevisionId {
    RevisionId::from_bytes(vec![b; 20])
}

fn oid_rev(o: Oid) -> RevisionId {
    RevisionId::from_bytes(o.as_bytes().to_vec())
}

fn file_snap(b: u8) -> Snapshot {
    Snapshot::File { id: rid(b) }
}

fn dir_snap(b: u8, entries: Vec<(&str, Snapshot)>) -> Snapshot {
    Snapshot::Directory {
        id: rid(b),
        entries: entries
            .into_iter()
            .map(|(n, s)| SnapshotEntry { name: n.as_bytes().to_vec(), item: s })
            .collect(),
    }
}

fn memory_repo() -> Repository {
    let odb = Odb::new().unwrap();
    odb.add_new_mempack_backend(1000).unwrap();
    Repository::from_odb(odb).unwrap()
}

fn write_tree(repo: &Repository, entries: &[(&str, Oid, i32)]) -> Oid {
    let mut tb = repo.treebuilder(None).unwrap();
    for (name, oid, mode) in entries {
        tb.insert(*name, *oid, *mode).unwrap();
    }
    tb.write().unwrap()
}

fn listing(node: &ChurnNode) -> Vec<(usize, String)> {
    node.walk_files()
        .unwrap()
        .into_iter()
        .map(|f: FileCount| (f.change_count, String::from_utf8(f.path).unwrap()))
        .collect()
}

fn children(node: &ChurnNode) -> &Vec<Child> {
    match node {
        ChurnNode::Directory { children, .. } => children,
        ChurnNode::File { .. } => panic!("not a directory"),
    }
}

// Scenario trees: T0 {a: F1, dir: {b: F2}}, T1 {a: F1, dir: {b: F3}}, T2 {a: F5, dir: {b: F3}}.
struct Scenario {
    repo: Repository,
    t: Vec<Oid>,
    f: Vec<Oid>,
    dirs: Vec<Oid>,
}

fn scenario() -> Scenario {
    let repo = memory_repo();
    let f1 = repo.blob(b"one").unwrap();
    let f2 = repo.blob(b"two").unwrap();
    let f3 = repo.blob(b"three").unwrap();
    let f5 = repo.blob(b"five").unwrap();
    let d0 = write_tree(&repo, &[("b", f2, 0o100644)]);
    let d1 = write_tree(&repo, &[("b", f3, 0o100644)]);
    let t0 = write_tree(&repo, &[("a", f1, 0o100644), ("dir", d0, 0o040000)]);
    let t1 = write_tree(&repo, &[("a", f1, 0o100644), ("dir", d1, 0o040000)]);
    let t2 = write_tree(&repo, &[("a", f5, 0o100644), ("dir", d1, 0o040000)]);
    Scenario { repo, t: vec![t0, t1, t2], f: vec![f1, f2, f3, f5], dirs: vec![d0, d1] }
}

fn scenario_head_snapshot(s: &Scenario) -> Snapshot {
    Snapshot::Directory {
        id: oid_rev(s.t[2]),
        entries: vec![
            SnapshotEntry { name: b"a".to_vec(), item: Snapshot::File { id: oid_rev(s.f[3]) } },
            SnapshotEntry {
                name: b"dir".to_vec(),
                item: Snapshot::Directory {
                    id: oid_rev(s.dirs[1]),
                    entries: vec![SnapshotEntry {
                        name: b"b".to_vec(),
                        item: Snapshot::File { id: oid_rev(s.f[2]) },
                    }],
                },
            },
        ],
    }
}

#[test]
fn same_as_compares_bytes() {
    assert!(rid(1).same_as(&rid(1)));
    assert!(!rid(1).same_as(&rid(2)));
    assert!(!RevisionId::from_bytes(vec![1, 2]).same_as(&RevisionId::from_bytes(vec![1, 2, 3])));
}

#[test]
fn new_file_starts_at_zero() {
    match ChurnNode::new_file(rid(4)) {
        ChurnNode::File { last_revision, change_count } => {
            assert_eq!(change_count, 0);
            assert_eq!(last_revision.bytes, vec![4u8; 20]);
        }
        _ => panic!("expected a file"),
    }
}

#[test]
fn snapshot_mirror_lists_files_with_paths() {
    let s = dir_snap(1, vec![("a", file_snap(2)), ("dir", dir_snap(3, vec![("b", file_snap(4))]))]);
    let node = ChurnNode::from_snapshot(&s);
    assert_eq!(listing(&node), vec![(0, "a".to_string()), (0, "dir/b".to_string())]);
    assert_eq!(node.last_revision().bytes, vec![1u8; 20]);
}

#[test]
fn walk_files_on_a_file_is_an_error() {
    let node = ChurnNode::from_snapshot(&file_snap(9));
    assert!(matches!(node.walk_files(), Err(NotADirectory)));
}

#[test]
fn path_descent_builds_a_chain() {
    let s = dir_snap(1, vec![("a", file_snap(2)), ("dir", dir_snap(3, vec![("b", file_snap(4))]))]);
    let node = ChurnNode::from_snapshot_and_path(&s, &vec![b"dir".to_vec()]).unwrap();
    assert_eq!(listing(&node), vec![(0, "dir/b".to_string())]);
    assert_eq!(node.last_revision().bytes, vec![1u8; 20]);
    assert_eq!(children(&node).len(), 1);
    assert_eq!(children(&node)[0].node.last_revision().bytes, vec![3u8; 20]);
}

#[test]
fn path_descent_errors() {
    let s = dir_snap(1, vec![("a", file_snap(2)), ("dir", dir_snap(3, vec![("b", file_snap(4))]))]);
    assert!(matches!(
        ChurnNode::from_snapshot_and_path(&s, &vec![b"missing".to_vec()]),
        Err(PathError::NotTracked)
    ));
    assert!(matches!(
        ChurnNode::from_snapshot_and_path(&s, &vec![b"a".to_vec()]),
        Err(PathError::NotADirectory)
    ));
    assert!(matches!(
        ChurnNode::from_snapshot_and_path(&s, &vec![b"dir".to_vec(), b"b".to_vec()]),
        Err(PathError::NotADirectory)
    ));
}

#[test]
fn total_change_count_sums() {
    let files = vec![
        FileCount { change_count: 3, path: b"a".to_vec() },
        FileCount { change_count: 4, path: b"b".to_vec() },
        FileCount { change_count: usize::MAX, path: b"c".to_vec() },
    ];
    assert_eq!(total_change_count(&files), 7 + usize::MAX as u128);
    assert_eq!(total_change_count(&vec![]), 0);
}

#[test]
fn cutoff_epoch_values() {
    assert_eq!(WEEK_SECONDS, 604800);
    assert_eq!(cutoff_epoch(1_000_000_000, 2), Some(1_000_000_000 - 1_209_600));
    assert_eq!(cutoff_epoch(0, 0), Some(0));
    assert_eq!(cutoff_epoch(i64::MIN, 1), None);
    assert_eq!(cutoff_epoch(0, i64::MAX), None);
}

#[test]
fn history_walk_stops_at_cutoff_inclusive() {
    let mut w = HistoryWalk::new(Some(100));
    assert!(w.observe(Some(ParentCommit { tree: rid(1), time: 300 })));
    assert!(!w.observe(Some(ParentCommit { tree: rid(2), time: 100 })));
    assert!(!w.observe(Some(ParentCommit { tree: rid(3), time: 50 })));
    assert_eq!(w.trees.len(), 2);
    assert!(w.finished);
}

#[test]
fn history_walk_without_cutoff_runs_to_root() {
    let mut w = HistoryWalk::new(None);
    assert!(w.observe(Some(ParentCommit { tree: rid(1), time: 1 })));
    assert!(w.observe(Some(ParentCommit { tree: rid(2), time: -5 })));
    assert!(!w.observe(None));
    assert_eq!(w.trees.len(), 2);
    assert_eq!(w.trees[1].bytes, vec![2u8; 20]);
}

#[test]
fn delta_jobs_pair_adjacent_trees() {
    let jobs = delta_jobs(&vec![rid(3), rid(2), rid(1)]);
    assert_eq!(jobs.len(), 2);
    assert_eq!(jobs[0].new_tree.bytes, vec![3u8; 20]);
    assert_eq!(jobs[0].old_tree.bytes, vec![2u8; 20]);
    assert_eq!(jobs[1].new_tree.bytes, vec![2u8; 20]);
    assert_eq!(jobs[1].old_tree.bytes, vec![1u8; 20]);
    assert_eq!(delta_jobs(&vec![rid(1)]).len(), 0);
    assert_eq!(delta_jobs(&vec![]).len(), 0);
}

#[test]
fn fold_skips_failed_jobs() {
    let results = vec![
        Ok(DeltaJobOutput { changed_file_count: 2 }),
        Err(JobError::Store(StoreError { message: "broken".to_string() })),
        Ok(DeltaJobOutput { changed_file_count: 5 }),
    ];
    assert_eq!(fold_outputs(&results), 7);
    let mut r = Reducer::new();
    for x in &results {
        r.absorb(x);
    }
    assert_eq!(r.total, 7);
    assert_eq!(r.failed, 1);
}

#[test]
fn reducer_saturates() {
    let mut r = Reducer::new();
    r.total = u64::MAX - 1;
    r.absorb(&Ok(DeltaJobOutput { changed_file_count: 5 }));
    assert_eq!(r.total, u64::MAX);
}

#[test]
fn scenario_counts_and_parallel_sum_agree() {
    let s = scenario();
    let mut node = ChurnNode::from_snapshot(&scenario_head_snapshot(&s));
    node.apply_history(&s.repo, &vec![oid_rev(s.t[1]), oid_rev(s.t[0])]).unwrap();
    let files = listing(&node);
    assert_eq!(files, vec![(1, "a".to_string()), (1, "dir/b".to_string())]);
    let counts = node.walk_files().unwrap();
    assert_eq!(total_change_count(&counts), 2);

    let jobs = delta_jobs(&vec![oid_rev(s.t[2]), oid_rev(s.t[1]), oid_rev(s.t[0])]);
    let results: Vec<_> = jobs.iter().map(|j| run_delta_job(&s.repo, j, &None)).collect();
    assert_eq!(results[0].as_ref().unwrap().changed_file_count, 1);
    assert_eq!(results[1].as_ref().unwrap().changed_file_count, 1);
    assert_eq!(fold_outputs(&results), 2);
}

#[test]
fn same_revision_changes_nothing() {
    let s = scenario();
    let mut node = ChurnNode::from_snapshot(&scenario_head_snapshot(&s));
    node.update_for_revision(&s.repo, &oid_rev(s.t[2])).unwrap();
    assert_eq!(listing(&node), vec![(0, "a".to_string()), (0, "dir/b".to_string())]);
    assert!(node.last_revision().same_as(&oid_rev(s.t[2])));
}

#[test]
fn applying_twice_equals_once() {
    let s = scenario();
    let mut node = ChurnNode::from_snapshot(&scenario_head_snapshot(&s));
    node.update_for_revision(&s.repo, &oid_rev(s.t[1])).unwrap();
    let once = listing(&node);
    node.update_for_revision(&s.repo, &oid_rev(s.t[1])).unwrap();
    assert_eq!(listing(&node), once);
    assert_eq!(once, vec![(1, "a".to_string()), (0, "dir/b".to_string())]);
}

#[test]
fn directory_replaced_by_file_is_absorbed() {
    let s = scenario();
    // An older tree where "dir" is a file.
    let older = write_tree(&s.repo, &[("a", s.f[3], 0o100644), ("dir", s.f[0], 0o100644)]);
    let mut node = ChurnNode::from_snapshot(&scenario_head_snapshot(&s));
    node.update_for_revision(&s.repo, &oid_rev(older)).unwrap();
    assert_eq!(listing(&node), vec![(0, "a".to_string()), (0, "dir/b".to_string())]);
    let dir = &children(&node)[1].node;
    assert!(dir.last_revision().same_as(&oid_rev(s.f[0])));
    assert!(node.last_revision().same_as(&oid_rev(older)));
}

#[test]
fn loaded_tree_not_found_keeps_children() {
    let s = scenario();
    let mut node = ChurnNode::from_snapshot(&scenario_head_snapshot(&s));
    node.apply_loaded_tree(&s.repo, &rid(7), Err(LoadError::NotFound)).unwrap();
    assert!(node.last_revision().same_as(&rid(7)));
    assert_eq!(listing(&node), vec![(0, "a".to_string()), (0, "dir/b".to_string())]);
}

#[test]
fn loaded_tree_failure_is_returned() {
    let s = scenario();
    let mut node = ChurnNode::from_snapshot(&scenario_head_snapshot(&s));
    let err = node
        .apply_loaded_tree(&s.repo, &rid(7), Err(LoadError::Failed(StoreError { message: "bad".to_string() })))
        .unwrap_err();
    assert_eq!(err.message, "bad");
    assert!(node.last_revision().same_as(&oid_rev(s.t[2])));
}

#[test]
fn loaded_tree_entries_update_matching_children() {
    let s = scenario();
    let mut node = ChurnNode::from_snapshot(&scenario_head_snapshot(&s));
    let entries = vec![
        TreeEntry { name: b"a".to_vec(), kind: EntryKind::File, id: rid(8) },
        TreeEntry { name: b"new".to_vec(), kind: EntryKind::File, id: rid(9) },
    ];
    node.apply_loaded_tree(&s.repo, &rid(7), Ok(entries)).unwrap();
    assert_eq!(listing(&node), vec![(1, "a".to_string()), (0, "dir/b".to_string())]);
    assert!(node.last_revision().same_as(&rid(7)));
}

#[test]
fn missing_tree_in_store_is_an_error_in_history() {
    let s = scenario();
    let mut node = ChurnNode::from_snapshot(&scenario_head_snapshot(&s));
    // An identifier that names nothing in the store: the root absorbs it.
    node.apply_history(&s.repo, &vec![rid(6)]).unwrap();
    assert!(node.last_revision().same_as(&rid(6)));
    assert_eq!(listing(&node), vec![(0, "a".to_string()), (0, "dir/b".to_string())]);
}

#[test]
fn split_path_on_separators() {
    assert_eq!(split_path(&b"src/core".to_vec()), vec![b"src".to_vec(), b"core".to_vec()]);
    assert_eq!(split_path(&b"src".to_vec()), vec![b"src".to_vec()]);
    assert_eq!(split_path(&b"".to_vec()), vec![Vec::<u8>::new()]);
    assert_eq!(split_path(&b"a/".to_vec()), vec![b"a".to_vec(), Vec::new()]);
}

#[test]
fn scoped_diff_counts_only_inside_the_directory() {
    let s = scenario();
    let jobs = delta_jobs(&vec![oid_rev(s.t[2]), oid_rev(s.t[1]), oid_rev(s.t[0])]);
    let scope = Some(b"dir".to_vec());
    let results: Vec<_> = jobs.iter().map(|j| run_delta_job(&s.repo, j, &scope)).collect();
    assert_eq!(results[0].as_ref().unwrap().changed_file_count, 0);
    assert_eq!(results[1].as_ref().unwrap().changed_file_count, 1);
    assert_eq!(fold_outputs(&results), 1);
}

#[test]
fn scope_with_nul_byte_fails() {
    let s = scenario();
    let jobs = delta_jobs(&vec![oid_rev(s.t[1]), oid_rev(s.t[0])]);
    assert!(matches!(run_delta_job(&s.repo, &jobs[0], &Some(vec![b'd', 0])), Err(JobError::NulInScope)));
}

#[test]
fn diff_of_unknown_tree_fails() {
    let s = scenario();
    let jobs = delta_jobs(&vec![oid_rev(s.t[1]), rid(5)]);
    assert!(matches!(run_delta_job(&s.repo, &jobs[0], &None), Err(JobError::Store(_))));
}

#[test]
fn store_failure_stops_history_and_names_the_tree() {
    let s = scenario();
    let mut node = ChurnNode::from_snapshot(&scenario_head_snapshot(&s));
    let bad = RevisionId::from_bytes(vec![1, 2, 3]);
    let err = node.apply_history(&s.repo, &vec![oid_rev(s.t[1]), bad]).unwrap_err();
    assert_eq!(err.index, 1);
    assert_eq!(err.tree.bytes, vec![1, 2, 3]);
    assert!(!err.error.message.is_empty());
    assert_eq!(listing(&node), vec![(1, "a".to_string()), (0, "dir/b".to_string())]);
}

#[test]
fn scope_pathspecs_values() {
    assert_eq!(scope_pathspecs(&None), Some(vec![]));
    assert_eq!(scope_pathspecs(&Some(b"src/core".to_vec())), Some(vec![b"src/core".to_vec()]));
    assert_eq!(scope_pathspecs(&Some(vec![b'a', 0, b'b'])), None);
}

#[test]
fn file_node_history_always_succeeds() {
    let s = scenario();
    let mut node = ChurnNode::from_snapshot(&file_snap(1));
    node.apply_history(&s.repo, &vec![rid(2), rid(2), rid(3)]).unwrap();
    match node {
        ChurnNode::File { change_count, last_revision } => {
            assert_eq!(change_count, 2);
            assert_eq!(last_revision.bytes, vec![3u8; 20]);
        }
        _ => panic!("expected a file"),
    }
}

#[test]
fn bytes_lt_is_byte_order() {
    assert!(bytes_lt(&b"a".to_vec(), &b"a.txt".to_vec()));
    assert!(bytes_lt(&b"a.txt".to_vec(), &b"b".to_vec()));
    assert!(!bytes_lt(&b"b".to_vec(), &b"a".to_vec()));
    assert!(!bytes_lt(&b"a".to_vec(), &b"a".to_vec()));
    assert!(bytes_lt(&vec![], &b"a".to_vec()));
}

#[test]
fn insert_ordered_sorts_and_replaces() {
    let mut entries: Vec<SnapshotEntry> = Vec::new();
    for (name, b) in [("b", 1u8), ("a.txt", 2), ("a", 3), ("b", 4)] {
        insert_ordered(&mut entries, SnapshotEntry { name: name.as_bytes().to_vec(), item: file_snap(b) });
    }
    let names: Vec<&[u8]> = entries.iter().map(|e| e.name.as_slice()).collect();
    assert_eq!(names, vec![&b"a"[..], &b"a.txt"[..], &b"b"[..]]);
    match &entries[2].item {
        Snapshot::File { id } => assert_eq!(id.bytes, vec![4u8; 20]),
        _ => panic!("expected a file"),
    }
}
