use ocs::byte_set::ByteStringSet;
use ocs::hotspot::{hotspots, EntryRevisions, HotspotState, RevisionCount};
use ocs::summary::{summarize, SummaryRawData, SummaryState};
use ocs::walker::{observe_entries, CommitRecord, EntryKind, EntryObservation, WalkedEntry};

fn obs(path: &str, blob: &str) -> EntryObservation {
    EntryObservation { path: path.as_bytes().to_vec(), blob: blob.as_bytes().to_vec() }
}

fn commit(author: Option<&str>, entries: Vec<EntryObservation>) -> CommitRecord {
    CommitRecord { author: author.map(|a| a.as_bytes().to_vec()), entries }
}

/// Three commits by two authors: `a.txt` added with X; `a.txt` changed to Y
/// and `b.txt` added with Z; the same trees committed once more.
fn three_commit_history() -> Vec<CommitRecord> {
    vec![
        commit(Some("alice"), vec![obs("a.txt", "X")]),
        commit(Some("bob"), vec![obs("a.txt", "Y"), obs("b.txt", "Z")]),
        commit(Some("alice"), vec![obs("a.txt", "Y"), obs("b.txt", "Z")]),
    ]
}

fn listed(r: &[RevisionCount]) -> Vec<(String, u64)> {
    r.iter().map(|c| (String::from_utf8(c.path.clone()).unwrap(), c.revisions)).collect()
}

#[test]
fn three_commit_summary() {
    let d = summarize(&three_commit_history());
    assert_eq!(
        d,
        SummaryRawData { no_of_commits: 3, no_of_authors: 2, no_of_entries: 2, no_of_entries_changed: 3 }
    );
}

#[test]
fn three_commit_hotspots() {
    let r = hotspots(&three_commit_history());
    assert_eq!(listed(&r), vec![("a.txt".to_string(), 2), ("b.txt".to_string(), 1)]);
}

#[test]
fn empty_history_reports_zero() {
    let d = summarize(&Vec::new());
    assert_eq!(
        d,
        SummaryRawData { no_of_commits: 0, no_of_authors: 0, no_of_entries: 0, no_of_entries_changed: 0 }
    );
    assert!(hotspots(&Vec::new()).is_empty());
}

#[test]
fn summary_runs_agree() {
    let first = summarize(&three_commit_history());
    let second = summarize(&three_commit_history());
    assert_eq!(first, second);
}

#[test]
fn repeating_the_history_repeats_only_the_commit_count() {
    let mut twice = three_commit_history();
    twice.extend(three_commit_history());
    let d = summarize(&twice);
    assert_eq!(
        d,
        SummaryRawData { no_of_commits: 6, no_of_authors: 2, no_of_entries: 2, no_of_entries_changed: 3 }
    );
    assert_eq!(listed(&hotspots(&twice)), listed(&hotspots(&three_commit_history())));
}

#[test]
fn same_observation_twice_counts_once() {
    let mut h = HotspotState::new();
    h.insert(&b"src/x".to_vec(), &b"b1".to_vec());
    assert_eq!(listed(&h.revision_counts()), vec![("src/x".to_string(), 1)]);
    h.insert(&b"src/x".to_vec(), &b"b1".to_vec());
    assert_eq!(listed(&h.revision_counts()), vec![("src/x".to_string(), 1)]);
    h.insert(&b"src/x".to_vec(), &b"b2".to_vec());
    assert_eq!(listed(&h.revision_counts()), vec![("src/x".to_string(), 2)]);
}

#[test]
fn hotspots_are_ordered_by_path() {
    let mut h = HotspotState::new();
    for (p, b) in [("zeta", "1"), ("alpha/b", "2"), ("alpha", "3"), ("mid", "4"), ("alpha/b", "5")] {
        h.insert(&p.as_bytes().to_vec(), &b.as_bytes().to_vec());
    }
    assert_eq!(
        listed(&h.revision_counts()),
        vec![
            ("alpha".to_string(), 1),
            ("alpha/b".to_string(), 2),
            ("mid".to_string(), 1),
            ("zeta".to_string(), 1)
        ]
    );
}

#[test]
fn summary_state_counts_commits_without_author() {
    let mut s = SummaryState::new();
    s.add_commit(&commit(None, vec![obs("a", "1")]));
    s.add_commit(&commit(Some("c"), vec![]));
    assert_eq!(
        s.raw_data(),
        SummaryRawData { no_of_commits: 2, no_of_authors: 1, no_of_entries: 1, no_of_entries_changed: 1 }
    );
}

#[test]
fn entry_revisions_start_empty() {
    let e = EntryRevisions::new(b"dir/file".to_vec());
    assert_eq!(e.name, b"dir/file".to_vec());
    assert_eq!(e.revisions.len(), 0);
}

#[test]
fn byte_set_keeps_sorted_distinct_elements() {
    let mut s = ByteStringSet::new();
    assert!(s.insert(b"b".to_vec()));
    assert!(s.insert(b"a".to_vec()));
    assert!(!s.insert(b"b".to_vec()));
    assert!(s.insert(b"ab".to_vec()));
    assert!(s.insert(Vec::new()));
    assert_eq!(s.len(), 4);
    assert!(s.contains(&b"ab".to_vec()));
    assert!(!s.contains(&b"c".to_vec()));
    assert_eq!(s.elements(), &vec![Vec::new(), b"a".to_vec(), b"ab".to_vec(), b"b".to_vec()]);
}

fn walked(root: &str, name: &str, kind: EntryKind, id: &str) -> WalkedEntry {
    WalkedEntry {
        root: root.as_bytes().to_vec(),
        name: name.as_bytes().to_vec(),
        kind,
        id: id.as_bytes().to_vec(),
    }
}

#[test]
fn walk_keeps_files_under_full_paths() {
    let es = vec![
        walked("", "dir1", EntryKind::Tree, "t1"),
        walked("dir1/", "x", EntryKind::Blob, "b1"),
        walked("", "dir2", EntryKind::Tree, "t2"),
        walked("dir2/", "x", EntryKind::Blob, "b2"),
        walked("", "sub", EntryKind::Other, "s"),
        walked("", "top.txt", EntryKind::Blob, "b3"),
    ];
    let o = observe_entries(&es);
    let got: Vec<(Vec<u8>, Vec<u8>)> = o.iter().map(|e| (e.path.clone(), e.blob.clone())).collect();
    assert_eq!(
        got,
        vec![
            (b"dir1/x".to_vec(), b"b1".to_vec()),
            (b"dir2/x".to_vec(), b"b2".to_vec()),
            (b"top.txt".to_vec(), b"b3".to_vec())
        ]
    );
}

#[test]
fn same_name_in_two_directories_is_two_paths() {
    let es = vec![
        walked("dir1/", "x", EntryKind::Blob, "same"),
        walked("dir2/", "x", EntryKind::Blob, "same"),
    ];
    let d = summarize(&vec![CommitRecord { author: None, entries: observe_entries(&es) }]);
    assert_eq!(d.no_of_entries, 2);
    assert_eq!(d.no_of_entries_changed, 1);
}
