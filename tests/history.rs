use git2::{Oid, Repository, Signature, Time};
use ocs::cli::GitArgs;
use ocs::filter::CommitTime;
use ocs::git::{
    determine_commits_to_analyse, hotspot_commits, seeds_for_specifier, summarize_commits,
    walk_seeds, AnalysisError,
};
use ocs::progress::NoProgress;
use ocs::selector::SeedAction;
use ocs::summary::SummaryRawData;

fn in_memory_repo() -> Repository {
    let odb = git2::Odb::new().unwrap();
    odb.add_new_mempack_backend(1000).unwrap();
    Repository::from_odb(odb).unwrap()
}

/// A commit whose tree holds `files` (path, contents); directories are made
/// for paths with a `/`.
fn commit(repo: &Repository, author: &str, at: i64, msg: &str, files: &[(&str, &str)], parents: &[Oid]) -> Oid {
    let mut top = repo.treebuilder(None).unwrap();
    let mut dirs: Vec<(String, Vec<(String, Oid)>)> = Vec::new();
    for (path, contents) in files {
        let blob = repo.blob(contents.as_bytes()).unwrap();
        match path.split_once('/') {
            None => {
                top.insert(path, blob, 0o100644).unwrap();
            }
            Some((dir, name)) => match dirs.iter_mut().find(|(d, _)| d == dir) {
                Some((_, v)) => v.push((name.to_string(), blob)),
                None => dirs.push((dir.to_string(), vec![(name.to_string(), blob)])),
            },
        }
    }
    for (dir, entries) in dirs {
        let mut sub = repo.treebuilder(None).unwrap();
        for (name, blob) in entries {
            sub.insert(name, blob, 0o100644).unwrap();
        }
        top.insert(dir, sub.write().unwrap(), 0o040000).unwrap();
    }
    let tree = repo.find_tree(top.write().unwrap()).unwrap();
    let sig = Signature::new(author, "dev@example.org", &Time::new(at, 0)).unwrap();
    let parents: Vec<git2::Commit> = parents.iter().map(|p| repo.find_commit(*p).unwrap()).collect();
    let refs: Vec<&git2::Commit> = parents.iter().collect();
    repo.commit(None, &sig, &sig, msg, &tree, &refs).unwrap()
}

/// The commits that a walk seeded with `plan` yields.
fn walk(repo: &Repository, plan: &[SeedAction]) -> Vec<Oid> {
    let mut w = repo.revwalk().unwrap();
    for step in plan {
        match step {
            SeedAction::Push(id) => w.push(*id).unwrap(),
            SeedAction::Exclude(id) => w.hide(*id).unwrap(),
            SeedAction::PushHead => w.push_head().unwrap(),
        }
    }
    let mut ids: Vec<Oid> = w.map(|r| r.unwrap()).collect();
    ids.sort();
    ids
}

fn plan(repo: &Repository, specs: &[String]) -> Vec<SeedAction> {
    match walk_seeds(repo, &specs.to_vec()) {
        Ok(p) => p,
        Err(_) => panic!("specifiers do not resolve"),
    }
}

fn sorted(mut v: Vec<Oid>) -> Vec<Oid> {
    v.sort();
    v
}

fn linear_history(repo: &Repository) -> (Oid, Oid, Oid) {
    let a = commit(repo, "alice", 1000, "add a", &[("a.txt", "X")], &[]);
    let b = commit(repo, "bob", 2000, "change a, add b", &[("a.txt", "Y"), ("b.txt", "Z")], &[a]);
    let c = commit(repo, "alice", 3000, "again", &[("a.txt", "Y"), ("b.txt", "Z")], &[b]);
    (a, b, c)
}

#[test]
fn single_specifier_walks_all_ancestors() {
    let repo = in_memory_repo();
    let (a, b, c) = linear_history(&repo);
    let p = plan(&repo, &[c.to_string()]);
    assert_eq!(walk(&repo, &p), sorted(vec![a, b, c]));
}

#[test]
fn range_specifier_leaves_out_its_start() {
    let repo = in_memory_repo();
    let (a, b, c) = linear_history(&repo);
    let p = plan(&repo, &[format!("{}..{}", a, c)]);
    assert_eq!(p.len(), 2);
    assert!(matches!(p[0], SeedAction::Push(id) if id == c));
    assert!(matches!(p[1], SeedAction::Exclude(id) if id == a));
    assert_eq!(walk(&repo, &p), sorted(vec![b, c]));
}

#[test]
fn exclusion_and_inclusion_match_the_range() {
    let repo = in_memory_repo();
    let (a, b, c) = linear_history(&repo);
    let p = plan(&repo, &[format!("^{}", a), c.to_string()]);
    assert_eq!(p.len(), 2);
    assert!(matches!(p[0], SeedAction::Exclude(id) if id == a));
    assert!(matches!(p[1], SeedAction::Push(id) if id == c));
    assert_eq!(walk(&repo, &p), sorted(vec![b, c]));
}

#[test]
fn merge_base_range_walks_the_base() {
    let repo = in_memory_repo();
    let base = commit(&repo, "alice", 1000, "base", &[("a.txt", "1")], &[]);
    let left = commit(&repo, "alice", 2000, "left", &[("a.txt", "2")], &[base]);
    let right = commit(&repo, "bob", 3000, "right", &[("a.txt", "3")], &[base]);
    let p = plan(&repo, &[format!("{}...{}", left, right)]);
    assert_eq!(p.len(), 3);
    assert!(matches!(p[0], SeedAction::Push(id) if id == right));
    assert!(matches!(p[1], SeedAction::Push(id) if id == base));
    assert!(matches!(p[2], SeedAction::Exclude(id) if id == left));
}

#[test]
fn no_specifier_walks_the_head() {
    let repo = in_memory_repo();
    let p = plan(&repo, &[]);
    assert_eq!(p.len(), 1);
    assert!(matches!(p[0], SeedAction::PushHead));
}

#[test]
fn unresolvable_specifier_is_named() {
    let repo = in_memory_repo();
    linear_history(&repo);
    for spec in ["no-such-branch", "^no-such-branch"] {
        match seeds_for_specifier(&repo, &spec.to_string()) {
            Err(AnalysisError::Resolution { specifier, cause }) => {
                assert_eq!(specifier, spec);
                assert!(cause.is_some());
            }
            _ => panic!("expected a resolution error for {}", spec),
        }
    }
}

fn retained(repo: &Repository, ids: &[Oid], args: &GitArgs) -> Vec<Oid> {
    match determine_commits_to_analyse(repo, &ids.to_vec(), args) {
        Ok(v) => v.iter().map(|c| c.id).collect(),
        Err(_) => panic!("lookup failed"),
    }
}

#[test]
fn filter_keeps_commits_in_walk_order() {
    let repo = in_memory_repo();
    let (a, b, c) = linear_history(&repo);
    let ids = vec![c, b, a];
    let mut args = GitArgs::new();
    assert_eq!(retained(&repo, &ids, &args), vec![c, b, a]);
    args.before = Some(CommitTime::new(3000, 0));
    assert_eq!(retained(&repo, &ids, &args), vec![b, a]);
    args.after = Some(CommitTime::new(1000, 0));
    assert_eq!(retained(&repo, &ids, &args), vec![b]);
    let mut grep = GitArgs::new();
    grep.commit_msg_grep = Some("a".to_string());
    assert_eq!(retained(&repo, &ids, &grep), vec![c, b, a]);
    grep.commit_msg_grep = Some("add b".to_string());
    assert_eq!(retained(&repo, &ids, &grep), vec![b]);
}

#[test]
fn repository_summary_of_three_commits() {
    let repo = in_memory_repo();
    let (a, b, c) = linear_history(&repo);
    let commits = match determine_commits_to_analyse(&repo, &vec![c, b, a], &GitArgs::new()) {
        Ok(v) => v,
        Err(_) => panic!("lookup failed"),
    };
    let d = match summarize_commits(&repo, &commits, &mut NoProgress) {
        Ok(d) => d,
        Err(_) => panic!("walk failed"),
    };
    assert_eq!(
        d,
        SummaryRawData { no_of_commits: 3, no_of_authors: 2, no_of_entries: 2, no_of_entries_changed: 3 }
    );
    let h = match hotspot_commits(&repo, &commits, &mut NoProgress) {
        Ok(h) => h,
        Err(_) => panic!("walk failed"),
    };
    let got: Vec<(Vec<u8>, u64)> = h.iter().map(|r| (r.path.clone(), r.revisions)).collect();
    assert_eq!(got, vec![(b"a.txt".to_vec(), 2), (b"b.txt".to_vec(), 1)]);
}

#[test]
fn repository_paths_include_directories() {
    let repo = in_memory_repo();
    let c = commit(&repo, "alice", 1000, "two x", &[("dir1/x", "same"), ("dir2/x", "same"), ("x", "other")], &[]);
    let commits = match determine_commits_to_analyse(&repo, &vec![c], &GitArgs::new()) {
        Ok(v) => v,
        Err(_) => panic!("lookup failed"),
    };
    let h = match hotspot_commits(&repo, &commits, &mut NoProgress) {
        Ok(h) => h,
        Err(_) => panic!("walk failed"),
    };
    let paths: Vec<Vec<u8>> = h.iter().map(|r| r.path.clone()).collect();
    assert_eq!(paths, vec![b"dir1/x".to_vec(), b"dir2/x".to_vec(), b"x".to_vec()]);
    let d = match summarize_commits(&repo, &commits, &mut NoProgress) {
        Ok(d) => d,
        Err(_) => panic!("walk failed"),
    };
    assert_eq!(d.no_of_entries, 3);
    assert_eq!(d.no_of_entries_changed, 2);
}

#[test]
fn nothing_retained_reports_zero() {
    let repo = in_memory_repo();
    let (a, b, c) = linear_history(&repo);
    let mut args = GitArgs::new();
    args.after = Some(CommitTime::new(5000, 0));
    let commits = match determine_commits_to_analyse(&repo, &vec![c, b, a], &args) {
        Ok(v) => v,
        Err(_) => panic!("lookup failed"),
    };
    assert!(commits.is_empty());
    let d = match summarize_commits(&repo, &commits, &mut NoProgress) {
        Ok(d) => d,
        Err(_) => panic!("walk failed"),
    };
    assert_eq!(
        d,
        SummaryRawData { no_of_commits: 0, no_of_authors: 0, no_of_entries: 0, no_of_entries_changed: 0 }
    );
    match hotspot_commits(&repo, &commits, &mut NoProgress) {
        Ok(h) => assert!(h.is_empty()),
        Err(_) => panic!("walk failed"),
    }
}

#[test]
fn unknown_commit_is_an_access_error() {
    let repo = in_memory_repo();
    let (a, _, _) = linear_history(&repo);
    match determine_commits_to_analyse(&repo, &vec![a, Oid::zero()], &GitArgs::new()) {
        Err(AnalysisError::Access(_)) => {}
        _ => panic!("expected an access error"),
    }
}

#[test]
fn empty_walk_retains_nothing() {
    let repo = in_memory_repo();
    match determine_commits_to_analyse(&repo, &Vec::new(), &GitArgs::new()) {
        Ok(v) => assert!(v.is_empty()),
        Err(_) => panic!("an empty walk needs no lookup"),
    }
}
