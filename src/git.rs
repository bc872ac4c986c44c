//! The library's side of a walk over a repository's history: the revision
//! specifiers are resolved into seeds, each walked commit is looked up and
//! filtered, and the trees of the retained commits feed an aggregator.
use vstd::prelude::*;

use crate::byte_order::copy_bytes;
use crate::cli::GitArgs;
use crate::filter::{commit_passes_filter, filter_admits, string_opt_view, CommitTime};
use crate::hotspot::{count_paths, counts_listing, lemma_insert_all, HotspotState, RevisionCount};
use crate::model::{
    hotspots_of, lemma_empty_history, lemma_pairs_step, lemma_summary_step, pairs_in, summary_of,
    CommitModel,
};
use crate::progress::ProgressSink;
use crate::selector::{classify, range_seeds, ResolvedSpec, SeedAction, Selection};
use crate::summary::{counts_of, SummaryRawData, SummaryState};
use crate::walker::{observe_entries, walked_pairs, CommitRecord, EntryKind, WalkedEntry};

verus! {

#[verifier::external_type_specification]
#[verifier::external_body]
pub struct ExRepository(git2::Repository);

#[verifier::external_type_specification]
#[verifier::external_body]
pub struct ExCommit<'repo>(git2::Commit<'repo>);

#[verifier::external_type_specification]
#[verifier::external_body]
pub struct ExTree<'repo>(git2::Tree<'repo>);

#[verifier::external_type_specification]
#[verifier::external_body]
pub struct ExError(git2::Error);

/// Why a walk over history failed.
pub enum AnalysisError {
    /// A revision specifier could not be resolved (`cause` is `None` for a
    /// range that lacks one of its ends).
    Resolution { specifier: String, cause: Option<git2::Error> },
    /// The repository could not be read.
    Access(git2::Error),
}

/// A commit as the filter sees it.
pub struct CommitInfo {
    pub id: git2::Oid,
    /// The author's name, where it is valid UTF-8.
    pub author: Option<Vec<u8>>,
    /// The message, where it is valid UTF-8.
    pub message: Option<String>,
    pub time: CommitTime,
}

/// Whether the filter of `args` keeps the commit.
pub open spec fn admitted(args: GitArgs, c: CommitInfo) -> bool {
    filter_admits(
        string_opt_view(args.commit_msg_grep),
        args.before,
        args.after,
        string_opt_view(c.message),
        c.time,
    )
}

/// The commits of `cs` that the filter of `args` keeps, in their order.
pub open spec fn retained_of(args: GitArgs, cs: Seq<CommitInfo>) -> Seq<CommitInfo>
    decreases cs.len(),
{
    if cs.len() == 0 {
        Seq::empty()
    } else {
        let prev = retained_of(args, cs.drop_last());
        if admitted(args, cs.last()) {
            prev.push(cs.last())
        } else {
            prev
        }
    }
}

pub open spec fn author_view(a: Option<Vec<u8>>) -> Option<Seq<u8>> {
    match a {
        Some(n) => Some(n@),
        None => None,
    }
}

/// The seeds that one specifier may give: an excluded commit for one with the
/// exclusion marker; else a walked commit, or a range's end walked (with
/// its merge base, in merge-base mode) and its start excluded.
pub open spec fn specifier_seeds_shape(s: Seq<char>, v: Seq<SeedAction>) -> bool {
    if s.len() > 0 && s[0] == '^' {
        v.len() == 1 && v[0] is Exclude
    } else {
        (v.len() == 1 && v[0] is Push) || (v.len() == 2 && v[0] is Push && v[1] is Exclude) || (v.len()
            == 3 && v[0] is Push && v[1] is Push && v[2] is Exclude)
    }
}

/// Relies on `str::strip_prefix` with a `char` pattern: the rest of `s`
/// when it starts with `^`, else nothing.
#[verifier::external_body]
fn strip_exclusion_marker(s: &str) -> (r: Option<&str>)
    ensures
        r matches Some(t) ==> s@.len() > 0 && s@[0] == '^' && t@ == s@.skip(1),
        r is None ==> !(s@.len() > 0 && s@[0] == '^'),
{
    s.strip_prefix('^')
}

/// Relies on `git2::Repository::revparse_single` and `Object::id`: the id of
/// the object that `spec` names.
#[verifier::external_body]
fn resolve_single(repo: &git2::Repository, spec: &str) -> (r: Result<git2::Oid, git2::Error>) {
    repo.revparse_single(spec).map(|o| o.id())
}

/// Relies on `git2::Repository::revparse` and on `Revspec::mode`, `from`
/// and `to`: what `spec` resolves to, single object or range.
#[verifier::external_body]
fn resolve_spec(repo: &git2::Repository, spec: &str) -> (r: Result<ResolvedSpec, git2::Error>) {
    let r = repo.revparse(spec)?;
    Ok(ResolvedSpec {
        single: r.mode().contains(git2::RevparseMode::SINGLE),
        merge_base: r.mode().contains(git2::RevparseMode::MERGE_BASE),
        from: r.from().map(|o| o.id()),
        to: r.to().map(|o| o.id()),
    })
}

/// Relies on `git2::Repository::merge_base`: a best common ancestor of the
/// two commits.
#[verifier::external_body]
fn merge_base_of(repo: &git2::Repository, one: git2::Oid, two: git2::Oid) -> (r: Result<
    git2::Oid,
    git2::Error,
>) {
    repo.merge_base(one, two)
}

/// Relies on `git2::Repository::find_object` with the commit kind, and
/// `Object::id`: the id back, or an error where it names no commit.
#[verifier::external_body]
fn commit_object_id(repo: &git2::Repository, id: git2::Oid) -> (r: Result<git2::Oid, git2::Error>) {
    repo.find_object(id, Some(git2::ObjectType::Commit)).map(|o| o.id())
}

/// Relies on `git2::Repository::find_commit`: the commit that `id` names,
/// or an error where the repository holds none.
#[verifier::external_body]
fn find_commit(repo: &git2::Repository, id: git2::Oid) -> (r: Result<git2::Commit<'_>, git2::Error>) {
    repo.find_commit(id)
}

/// Relies on `git2::Commit::message`: the message, where it is valid UTF-8.
#[verifier::external_body]
fn commit_message(c: &git2::Commit<'_>) -> (r: Option<String>) {
    c.message().map(|m| m.to_string())
}

/// Relies on `git2::Commit::author` and `Signature::name`: the author's
/// name as bytes, where it is valid UTF-8.
#[verifier::external_body]
fn commit_author(c: &git2::Commit<'_>) -> (r: Option<Vec<u8>>) {
    c.author().name().map(|n| n.as_bytes().to_vec())
}

/// Relies on `git2::Commit::time` and `Time::seconds`, `offset_minutes`:
/// the committer's time and time-zone offset.
#[verifier::external_body]
fn commit_time(c: &git2::Commit<'_>) -> (r: CommitTime) {
    let t = c.time();
    CommitTime { seconds: t.seconds(), offset_minutes: t.offset_minutes() }
}

/// Relies on `git2::Commit::tree`: the commit's root tree.
#[verifier::external_body]
fn commit_tree<'repo>(c: &git2::Commit<'repo>) -> (r: Result<git2::Tree<'repo>, git2::Error>) {
    c.tree()
}

/// Relies on `git2::Tree::walk` in pre-order: the entries under the tree,
/// each with the path of the directory that holds it, its name, kind and id.
/// git2 stops the walk, without an error, at a directory path that is not
/// valid UTF-8.
#[verifier::external_body]
fn walk_tree(tree: &git2::Tree<'_>) -> (r: Result<Vec<WalkedEntry>, git2::Error>) {
    let mut out = Vec::new();
    tree.walk(git2::TreeWalkMode::PreOrder, |root, e| {
        let kind = match e.kind() {
            Some(git2::ObjectType::Blob) => EntryKind::Blob,
            Some(git2::ObjectType::Tree) => EntryKind::Tree,
            _ => EntryKind::Other,
        };
        let id = e.id().as_bytes().to_vec();
        out.push(WalkedEntry { root: root.as_bytes().to_vec(), name: e.name_bytes().to_vec(), kind, id });
        git2::TreeWalkResult::Ok
    }).map(|_| out)
}

fn resolution_error(spec: &String, cause: Option<git2::Error>) -> (r: AnalysisError)
    ensures
        r matches AnalysisError::Resolution { specifier, .. } && specifier@ == spec@,
{
    AnalysisError::Resolution { specifier: spec.clone(), cause }
}

/// The seeds that one revision specifier contributes.
pub fn seeds_for_specifier(repo: &git2::Repository, spec: &String) -> (r: Result<
    Vec<SeedAction>,
    AnalysisError,
>)
    ensures
        r matches Ok(v) ==> specifier_seeds_shape(spec@, v@),
        r matches Err(e) ==> e matches AnalysisError::Resolution { specifier, .. } && specifier@
            == spec@,
{
    if let Some(target) = strip_exclusion_marker(spec.as_str()) {
        return match resolve_single(repo, target) {
            Ok(id) => Ok(vec![SeedAction::Exclude(id)]),
            Err(e) => Err(resolution_error(spec, Some(e))),
        };
    }
    let resolved = match resolve_spec(repo, spec.as_str()) {
        Ok(r) => r,
        Err(e) => {
            return Err(resolution_error(spec, Some(e)));
        },
    };
    match classify(&resolved) {
        Selection::Single(id) => Ok(vec![SeedAction::Push(id)]),
        Selection::Range { from, to, merge_base } => {
            if merge_base {
                let base = match merge_base_of(repo, from, to) {
                    Ok(b) => b,
                    Err(e) => {
                        return Err(resolution_error(spec, Some(e)));
                    },
                };
                match commit_object_id(repo, base) {
                    Ok(b) => Ok(range_seeds(from, to, Some(b))),
                    Err(e) => Err(resolution_error(spec, Some(e))),
                }
            } else {
                Ok(range_seeds(from, to, None))
            }
        },
        Selection::Incomplete => Err(resolution_error(spec, None)),
    }
}

/// The seeds of the walk: those of each specifier in turn, or the current
/// head alone where there are no specifiers.
pub fn walk_seeds(repo: &git2::Repository, specs: &Vec<String>) -> (r: Result<
    Vec<SeedAction>,
    AnalysisError,
>)
    ensures
        specs@.len() == 0 ==> (r matches Ok(v) && v@ == seq![SeedAction::PushHead]),
        specs@.len() > 0 ==> (r matches Ok(v) ==> exists|parts: Seq<Seq<SeedAction>>|
            parts.len() == specs@.len() && (forall|i: int|
                0 <= i < parts.len() ==> specifier_seeds_shape(specs@[i]@, #[trigger] parts[i]))
                && v@ == parts.flatten_alt()),
        r matches Err(e) ==> e matches AnalysisError::Resolution { specifier, .. } && exists|i: int|
            0 <= i < specs@.len() && specifier@ == (#[trigger] specs@[i])@,
{
    let mut plan: Vec<SeedAction> = Vec::new();
    if specs.len() == 0 {
        plan.push(SeedAction::PushHead);
        assert(plan@ =~= seq![SeedAction::PushHead]);
        return Ok(plan);
    }
    let ghost mut parts: Seq<Seq<SeedAction>> = Seq::empty();
    let mut i: usize = 0;
    while i < specs.len()
        invariant
            i <= specs@.len(),
            parts.len() == i,
            forall|k: int| 0 <= k < i ==> specifier_seeds_shape(specs@[k]@, #[trigger] parts[k]),
            plan@ == parts.flatten_alt(),
        decreases specs@.len() - i,
    {
        let mut more = match seeds_for_specifier(repo, &specs[i]) {
            Ok(m) => m,
            Err(e) => {
                return Err(e);
            },
        };
        proof {
            let next = parts.push(more@);
            assert(next.drop_last() =~= parts);
            assert(next.flatten_alt() == plan@ + more@);
            parts = next;
        }
        plan.append(&mut more);
        i = i + 1;
    }
    Ok(plan)
}

/// Looks up a commit and reads what the filter and the summary need of it.
pub fn commit_info(repo: &git2::Repository, id: git2::Oid) -> (r: Result<CommitInfo, AnalysisError>)
    ensures
        r matches Ok(c) ==> c.id == id,
{
    match find_commit(repo, id) {
        Ok(c) => Ok(
            CommitInfo {
                id,
                author: commit_author(&c),
                message: commit_message(&c),
                time: commit_time(&c),
            },
        ),
        Err(e) => Err(AnalysisError::Access(e)),
    }
}

/// The commits to analyse, in walk order: each commit of the walk looked
/// up, and those that the filter of `args` rejects left out.
pub fn determine_commits_to_analyse(
    repo: &git2::Repository,
    walked: &Vec<git2::Oid>,
    args: &GitArgs,
) -> (r: Result<Vec<CommitInfo>, AnalysisError>)
    ensures
        r matches Ok(v) ==> exists|looked_up: Seq<CommitInfo>|
            looked_up.len() == walked@.len() && (forall|k: int|
                0 <= k < walked@.len() ==> (#[trigger] looked_up[k]).id == walked@[k]) && v@
                == retained_of(*args, looked_up),
        r matches Ok(v) ==> forall|k: int| 0 <= k < v@.len() ==> admitted(*args, #[trigger] v@[k]),
        walked@.len() == 0 ==> (r matches Ok(v) && v@.len() == 0),
{
    let mut kept: Vec<CommitInfo> = Vec::new();
    let ghost mut looked_up: Seq<CommitInfo> = Seq::empty();
    let mut i: usize = 0;
    while i < walked.len()
        invariant
            i <= walked@.len(),
            looked_up.len() == i,
            forall|k: int| 0 <= k < i ==> (#[trigger] looked_up[k]).id == walked@[k],
            kept@ == retained_of(*args, looked_up),
            forall|k: int| 0 <= k < kept@.len() ==> admitted(*args, #[trigger] kept@[k]),
        decreases walked@.len() - i,
    {
        let info = commit_info(repo, walked[i])?;
        let message = match &info.message {
            Some(m) => Some(m.as_str()),
            None => None,
        };
        let keep = commit_passes_filter(&args.commit_msg_grep, args.before, args.after, message, info.time);
        proof {
            let next = looked_up.push(info);
            assert(next.drop_last() =~= looked_up);
            assert(next.last() == info);
            looked_up = next;
        }
        if keep {
            kept.push(info);
        }
        i = i + 1;
    }
    Ok(kept)
}

/// What a retained commit contributes: its author and one observation per
/// file entry of its tree, keyed by full path.
pub fn commit_record(repo: &git2::Repository, info: &CommitInfo) -> (r: Result<
    CommitRecord,
    AnalysisError,
>)
    ensures
        r matches Ok(c) ==> c@.author == author_view(info.author),
        r matches Ok(c) ==> exists|es: Seq<WalkedEntry>| c@.entries == walked_pairs(es),
{
    let commit = match find_commit(repo, info.id) {
        Ok(c) => c,
        Err(e) => {
            return Err(AnalysisError::Access(e));
        },
    };
    let tree = match commit_tree(&commit) {
        Ok(t) => t,
        Err(e) => {
            return Err(AnalysisError::Access(e));
        },
    };
    let walked = match walk_tree(&tree) {
        Ok(w) => w,
        Err(e) => {
            return Err(AnalysisError::Access(e));
        },
    };
    let author = match &info.author {
        Some(a) => Some(copy_bytes(a)),
        None => None,
    };
    Ok(CommitRecord { author, entries: observe_entries(&walked) })
}

/// The summary of the retained commits: the counts that the summary
/// aggregator reports for their records.
pub fn summarize_commits<P: ProgressSink>(
    repo: &git2::Repository,
    commits: &Vec<CommitInfo>,
    progress: &mut P,
) -> (r: Result<SummaryRawData, AnalysisError>)
    ensures
        r matches Ok(d) ==> exists|cs: Seq<CommitModel>|
            cs.len() == commits@.len() && (forall|k: int|
                0 <= k < cs.len() ==> (#[trigger] cs[k]).author == author_view(commits@[k].author))
                && d.counts() == counts_of(summary_of(cs)),
        commits@.len() == 0 ==> (r matches Ok(d) && d.counts() == (0nat, 0nat, 0nat, 0nat)),
{
    let mut state = SummaryState::new();
    let ghost mut seen: Seq<CommitModel> = Seq::empty();
    progress.start();
    let mut i: usize = 0;
    while i < commits.len()
        invariant
            i <= commits@.len(),
            seen.len() == i,
            forall|k: int| 0 <= k < i ==> (#[trigger] seen[k]).author == author_view(commits@[k].author),
            state.wf(),
            state@ == summary_of(seen),
        decreases commits@.len() - i,
    {
        progress.advance();
        let record = commit_record(repo, &commits[i])?;
        proof {
            let next = seen.push(record@);
            lemma_summary_step(next, i as int);
            assert(next.take(i as int) =~= seen);
            assert(next.take(i + 1) =~= next);
        }
        state.add_commit(&record);
        proof {
            seen = seen.push(record@);
        }
        i = i + 1;
    }
    progress.finish();
    proof {
        if commits@.len() == 0 {
            lemma_empty_history(seen);
        }
    }
    Ok(state.raw_data())
}

/// The per-path revision counts of the retained commits, in ascending
/// order of path.
pub fn hotspot_commits<P: ProgressSink>(
    repo: &git2::Repository,
    commits: &Vec<CommitInfo>,
    progress: &mut P,
) -> (r: Result<Vec<RevisionCount>, AnalysisError>)
    ensures
        r matches Ok(v) ==> exists|cs: Seq<CommitModel>|
            cs.len() == commits@.len() && (forall|k: int|
                0 <= k < cs.len() ==> (#[trigger] cs[k]).author == author_view(commits@[k].author))
                && counts_listing(v@, hotspots_of(cs)),
        commits@.len() == 0 ==> (r matches Ok(v) && v@.len() == 0),
{
    let mut state = HotspotState::new();
    let ghost mut seen: Seq<CommitModel> = Seq::empty();
    progress.start();
    let mut i: usize = 0;
    while i < commits.len()
        invariant
            i <= commits@.len(),
            seen.len() == i,
            forall|k: int| 0 <= k < i ==> (#[trigger] seen[k]).author == author_view(commits@[k].author),
            state.wf(),
            state@ == hotspots_of(seen),
        decreases commits@.len() - i,
    {
        progress.advance();
        let record = commit_record(repo, &commits[i])?;
        proof {
            let next = seen.push(record@);
            lemma_pairs_step(next, i as int);
            assert(next.take(i as int) =~= seen);
            assert(next.take(i + 1) =~= next);
            lemma_insert_all(pairs_in(seen), record@.entries);
        }
        state.add_commit(&record);
        proof {
            seen = seen.push(record@);
        }
        i = i + 1;
    }
    progress.finish();
    let counts = state.revision_counts();
    proof {
        if commits@.len() == 0 && counts@.len() > 0 {
            lemma_empty_history(seen);
            assert(count_paths(counts@)[0] == counts@[0].path@);
            assert(count_paths(counts@).to_set().contains(counts@[0].path@));
        }
    }
    Ok(counts)
}

} // verus!
