//! The mathematical model of a run over retained commits: which author
//! names, paths and content ids were seen, and which content ids each path
//! has had.
use vstd::prelude::*;

verus! {

/// One observed file entry: its full path from the repository root and the
/// id of its content.
pub type PairModel = (Seq<u8>, Seq<u8>);

/// What one retained commit contributes: the author's name, if it has one,
/// and an observation for each file entry of its tree.
pub struct CommitModel {
    pub author: Option<Seq<u8>>,
    pub entries: Seq<PairModel>,
}

/// The author names of the commits.
pub open spec fn authors_in(cs: Seq<CommitModel>) -> Set<Seq<u8>> {
    Set::new(|a: Seq<u8>| exists|i: int| 0 <= i < cs.len() && #[trigger] cs[i].author == Some(a))
}

/// Every (path, content id) pair observed in the commits.
pub open spec fn pairs_in(cs: Seq<CommitModel>) -> Set<PairModel> {
    Set::new(|o: PairModel| exists|i: int| 0 <= i < cs.len() && #[trigger] cs[i].entries.contains(o))
}

/// The paths of the pairs.
pub open spec fn paths_of(ps: Set<PairModel>) -> Set<Seq<u8>> {
    Set::new(|p: Seq<u8>| exists|b: Seq<u8>| #[trigger] ps.contains((p, b)))
}

/// The content ids of the pairs.
pub open spec fn contents_of(ps: Set<PairModel>) -> Set<Seq<u8>> {
    Set::new(|b: Seq<u8>| exists|p: Seq<u8>| #[trigger] ps.contains((p, b)))
}

/// For each path of the pairs, the content ids seen at it.
pub open spec fn revisions_of(ps: Set<PairModel>) -> Map<Seq<u8>, Set<Seq<u8>>> {
    Map::new(
        |p: Seq<u8>| paths_of(ps).contains(p),
        |p: Seq<u8>| Set::new(|b: Seq<u8>| ps.contains((p, b))),
    )
}

/// Recording content id `b` at path `p`.
pub open spec fn hotspot_insert(m: Map<Seq<u8>, Set<Seq<u8>>>, p: Seq<u8>, b: Seq<u8>) -> Map<
    Seq<u8>,
    Set<Seq<u8>>,
> {
    if m.contains_key(p) {
        m.insert(p, m[p].insert(b))
    } else {
        m.insert(p, set![b])
    }
}

/// The number of distinct content ids recorded for `p` (0 for a path never seen).
pub open spec fn revision_count(m: Map<Seq<u8>, Set<Seq<u8>>>, p: Seq<u8>) -> nat {
    if m.contains_key(p) {
        m[p].len()
    } else {
        0
    }
}

/// Every path's set of content ids is finite.
pub open spec fn revisions_finite(m: Map<Seq<u8>, Set<Seq<u8>>>) -> bool {
    forall|p: Seq<u8>| m.contains_key(p) ==> (#[trigger] m[p]).finite()
}

/// The summary of a run: the number of commits and the sets whose sizes are
/// reported.
pub struct SummaryModel {
    pub commits: nat,
    pub authors: Set<Seq<u8>>,
    pub paths: Set<Seq<u8>>,
    pub contents: Set<Seq<u8>>,
}

pub open spec fn summary_of(cs: Seq<CommitModel>) -> SummaryModel {
    SummaryModel {
        commits: cs.len(),
        authors: authors_in(cs),
        paths: paths_of(pairs_in(cs)),
        contents: contents_of(pairs_in(cs)),
    }
}

/// The per-path content ids of a run.
pub open spec fn hotspots_of(cs: Seq<CommitModel>) -> Map<Seq<u8>, Set<Seq<u8>>> {
    revisions_of(pairs_in(cs))
}

pub proof fn lemma_nothing_in_no_commits(cs: Seq<CommitModel>)
    requires
        cs.len() == 0,
    ensures
        authors_in(cs) == Set::<Seq<u8>>::empty(),
        pairs_in(cs) == Set::<PairModel>::empty(),
{
    assert(authors_in(cs) =~= Set::<Seq<u8>>::empty());
    assert(pairs_in(cs) =~= Set::<PairModel>::empty());
}

/// Taking one more commit adds its author.
pub proof fn lemma_authors_step(cs: Seq<CommitModel>, i: int)
    requires
        0 <= i < cs.len(),
    ensures
        authors_in(cs.take(i + 1)) == (match cs[i].author {
            Some(a) => authors_in(cs.take(i)).insert(a),
            None => authors_in(cs.take(i)),
        }),
{
    let next = cs.take(i + 1);
    let prev = cs.take(i);
    assert forall|a: Seq<u8>| #[trigger] authors_in(next).contains(a) implies (match cs[i].author {
        Some(x) => authors_in(prev).insert(x),
        None => authors_in(prev),
    }).contains(a) by {
        if authors_in(next).contains(a) {
            let k = choose|k: int| 0 <= k < next.len() && #[trigger] next[k].author == Some(a);
            if k < i {
                assert(prev[k].author == Some(a));
            }
        }
    }
    assert forall|a: Seq<u8>| #[trigger] authors_in(prev).contains(a) implies authors_in(next).contains(a) by {
        if authors_in(prev).contains(a) {
            let k = choose|k: int| 0 <= k < prev.len() && #[trigger] prev[k].author == Some(a);
            assert(next[k].author == Some(a));
        }
    }
    if let Some(x) = cs[i].author {
        assert(next[i].author == Some(x));
    }
    assert(authors_in(next) =~= (match cs[i].author {
        Some(a) => authors_in(prev).insert(a),
        None => authors_in(prev),
    }));
}

/// Taking one more commit adds the pairs of its entries.
pub proof fn lemma_pairs_step(cs: Seq<CommitModel>, i: int)
    requires
        0 <= i < cs.len(),
    ensures
        pairs_in(cs.take(i + 1)) == pairs_in(cs.take(i)).union(cs[i].entries.to_set()),
{
    let next = cs.take(i + 1);
    let prev = cs.take(i);
    assert forall|o: PairModel| #[trigger] pairs_in(next).contains(o) <==> pairs_in(prev).union(
        cs[i].entries.to_set(),
    ).contains(o) by {
        if pairs_in(next).contains(o) {
            let k = choose|k: int| 0 <= k < next.len() && #[trigger] next[k].entries.contains(o);
            if k < i {
                assert(prev[k].entries.contains(o));
            }
        }
        if pairs_in(prev).contains(o) {
            let k = choose|k: int| 0 <= k < prev.len() && #[trigger] prev[k].entries.contains(o);
            assert(next[k].entries.contains(o));
        }
        if cs[i].entries.contains(o) {
            assert(next[i].entries.contains(o));
        }
    }
    assert(pairs_in(next) =~= pairs_in(prev).union(cs[i].entries.to_set()));
}

/// Adding one pair adds its path and its content id.
pub proof fn lemma_pair_insert(ps: Set<PairModel>, p: Seq<u8>, b: Seq<u8>)
    ensures
        paths_of(ps.insert((p, b))) == paths_of(ps).insert(p),
        contents_of(ps.insert((p, b))) == contents_of(ps).insert(b),
        revisions_of(ps.insert((p, b))) == hotspot_insert(revisions_of(ps), p, b),
{
    let qs = ps.insert((p, b));
    assert forall|x: Seq<u8>| #[trigger] paths_of(qs).contains(x) <==> paths_of(ps).insert(p).contains(x) by {
        if paths_of(qs).contains(x) {
            let y = choose|y: Seq<u8>| #[trigger] qs.contains((x, y));
            if x != p {
                assert(ps.contains((x, y)));
            }
        }
        if paths_of(ps).contains(x) {
            let y = choose|y: Seq<u8>| #[trigger] ps.contains((x, y));
            assert(qs.contains((x, y)));
        }
        assert(qs.contains((p, b)));
    }
    assert(paths_of(qs) =~= paths_of(ps).insert(p));
    assert forall|y: Seq<u8>| #[trigger] contents_of(qs).contains(y) <==> contents_of(ps).insert(b).contains(y) by {
        if contents_of(qs).contains(y) {
            let x = choose|x: Seq<u8>| #[trigger] qs.contains((x, y));
            if y != b {
                assert(ps.contains((x, y)));
            }
        }
        if contents_of(ps).contains(y) {
            let x = choose|x: Seq<u8>| #[trigger] ps.contains((x, y));
            assert(qs.contains((x, y)));
        }
        assert(qs.contains((p, b)));
    }
    assert(contents_of(qs) =~= contents_of(ps).insert(b));
    let m = revisions_of(ps);
    let n = revisions_of(qs);
    let h = hotspot_insert(m, p, b);
    assert forall|x: Seq<u8>| #[trigger] n.contains_key(x) implies n[x] =~= h[x] by {
        if x == p {
            if m.contains_key(p) {
                assert(n[x] =~= m[p].insert(b));
            } else {
                assert forall|y: Seq<u8>| n[x].contains(y) implies y == b by {
                    if y != b {
                        assert(ps.contains((p, y)));
                    }
                }
                assert(n[x] =~= set![b]);
            }
        }
    }
    assert(n =~= h);
}

/// The summary after one more commit.
pub open spec fn summary_step(m: SummaryModel, c: CommitModel) -> SummaryModel {
    SummaryModel {
        commits: m.commits + 1,
        authors: match c.author {
            Some(a) => m.authors.insert(a),
            None => m.authors,
        },
        paths: m.paths.union(paths_of(c.entries.to_set())),
        contents: m.contents.union(contents_of(c.entries.to_set())),
    }
}

pub proof fn lemma_union_of_pairs(xs: Set<PairModel>, ys: Set<PairModel>)
    ensures
        paths_of(xs.union(ys)) == paths_of(xs).union(paths_of(ys)),
        contents_of(xs.union(ys)) == contents_of(xs).union(contents_of(ys)),
{
    let u = xs.union(ys);
    assert forall|p: Seq<u8>| #[trigger] paths_of(u).contains(p) <==> paths_of(xs).union(
        paths_of(ys),
    ).contains(p) by {
        if paths_of(u).contains(p) {
            let b = choose|b: Seq<u8>| #[trigger] u.contains((p, b));
            if xs.contains((p, b)) {
                assert(paths_of(xs).contains(p));
            } else {
                assert(paths_of(ys).contains(p));
            }
        }
        if paths_of(xs).contains(p) {
            let b = choose|b: Seq<u8>| #[trigger] xs.contains((p, b));
            assert(u.contains((p, b)));
        }
        if paths_of(ys).contains(p) {
            let b = choose|b: Seq<u8>| #[trigger] ys.contains((p, b));
            assert(u.contains((p, b)));
        }
    }
    assert(paths_of(u) =~= paths_of(xs).union(paths_of(ys)));
    assert forall|b: Seq<u8>| #[trigger] contents_of(u).contains(b) <==> contents_of(xs).union(
        contents_of(ys),
    ).contains(b) by {
        if contents_of(u).contains(b) {
            let p = choose|p: Seq<u8>| #[trigger] u.contains((p, b));
            if xs.contains((p, b)) {
                assert(contents_of(xs).contains(b));
            } else {
                assert(contents_of(ys).contains(b));
            }
        }
        if contents_of(xs).contains(b) {
            let p = choose|p: Seq<u8>| #[trigger] xs.contains((p, b));
            assert(u.contains((p, b)));
        }
        if contents_of(ys).contains(b) {
            let p = choose|p: Seq<u8>| #[trigger] ys.contains((p, b));
            assert(u.contains((p, b)));
        }
    }
    assert(contents_of(u) =~= contents_of(xs).union(contents_of(ys)));
}

/// The summary of one more commit is one step from the summary before it.
pub proof fn lemma_summary_step(cs: Seq<CommitModel>, i: int)
    requires
        0 <= i < cs.len(),
    ensures
        summary_of(cs.take(i + 1)) == summary_step(summary_of(cs.take(i)), cs[i]),
{
    lemma_authors_step(cs, i);
    lemma_pairs_step(cs, i);
    lemma_union_of_pairs(pairs_in(cs.take(i)), cs[i].entries.to_set());
}

/// Taking one more entry of a commit adds it to the entries seen.
pub proof fn lemma_entries_step(es: Seq<PairModel>, j: int)
    requires
        0 <= j < es.len(),
    ensures
        es.take(j + 1).to_set() == es.take(j).to_set().insert(es[j]),
{
    assert(es.take(j + 1) =~= es.take(j).push(es[j]));
    es.take(j).lemma_push_to_set_commute(es[j]);
}

/// Recording the same (path, content id) pair a second time changes nothing,
/// and recording it once raises the count of its path by at most one.
pub proof fn lemma_hotspot_insert_twice(m: Map<Seq<u8>, Set<Seq<u8>>>, p: Seq<u8>, b: Seq<u8>)
    requires
        revisions_finite(m),
    ensures
        hotspot_insert(hotspot_insert(m, p, b), p, b) == hotspot_insert(m, p, b),
        revision_count(hotspot_insert(m, p, b), p) == revision_count(m, p) + (if m.contains_key(p)
            && m[p].contains(b) {
            0int
        } else {
            1int
        }),
        revision_count(hotspot_insert(m, p, b), p) <= revision_count(m, p) + 1,
        revision_count(hotspot_insert(hotspot_insert(m, p, b), p, b), p) <= revision_count(m, p)
            + 1,
        hotspot_insert(m, p, b)[p] == (if m.contains_key(p) {
            m[p]
        } else {
            Set::<Seq<u8>>::empty()
        }).insert(b),
        forall|q: Seq<u8>|
            q != p ==> revision_count(#[trigger] hotspot_insert(m, p, b), q) == revision_count(m, q),
{
    let once = hotspot_insert(m, p, b);
    assert(once[p].contains(b));
    assert(once[p].insert(b) =~= once[p]);
    assert(hotspot_insert(once, p, b) =~= once);
    if m.contains_key(p) {
        assert(m[p].finite());
    } else {
        assert(set![b] =~= Set::<Seq<u8>>::empty().insert(b));
        assert(set![b].len() == 1);
    }
}

/// Running over a history twice in a row sees exactly the authors, paths
/// and content ids of one run over it.
pub proof fn lemma_summary_repeat(cs: Seq<CommitModel>)
    ensures
        summary_of(cs + cs).authors == summary_of(cs).authors,
        summary_of(cs + cs).paths == summary_of(cs).paths,
        summary_of(cs + cs).contents == summary_of(cs).contents,
        hotspots_of(cs + cs) == hotspots_of(cs),
        summary_of(cs + cs).commits == 2 * summary_of(cs).commits,
{
    let dd = cs + cs;
    assert forall|a: Seq<u8>| #[trigger] authors_in(dd).contains(a) <==> authors_in(cs).contains(a) by {
        if authors_in(dd).contains(a) {
            let k = choose|k: int| 0 <= k < dd.len() && #[trigger] dd[k].author == Some(a);
            if k >= cs.len() {
                assert(cs[k - cs.len()].author == Some(a));
            }
        }
        if authors_in(cs).contains(a) {
            let k = choose|k: int| 0 <= k < cs.len() && #[trigger] cs[k].author == Some(a);
            assert(dd[k].author == Some(a));
        }
    }
    assert(authors_in(dd) =~= authors_in(cs));
    assert forall|o: PairModel| #[trigger] pairs_in(dd).contains(o) <==> pairs_in(cs).contains(o) by {
        if pairs_in(dd).contains(o) {
            let k = choose|k: int| 0 <= k < dd.len() && #[trigger] dd[k].entries.contains(o);
            if k >= cs.len() {
                assert(cs[k - cs.len()].entries.contains(o));
            }
        }
        if pairs_in(cs).contains(o) {
            let k = choose|k: int| 0 <= k < cs.len() && #[trigger] cs[k].entries.contains(o);
            assert(dd[k].entries.contains(o));
        }
    }
    assert(pairs_in(dd) =~= pairs_in(cs));
}

/// With no retained commits every count is zero and no path has a count.
pub proof fn lemma_empty_history(cs: Seq<CommitModel>)
    requires
        cs.len() == 0,
    ensures
        summary_of(cs).commits == 0,
        summary_of(cs).authors.len() == 0,
        summary_of(cs).paths.len() == 0,
        summary_of(cs).contents.len() == 0,
        hotspots_of(cs) == Map::<Seq<u8>, Set<Seq<u8>>>::empty(),
{
    lemma_nothing_in_no_commits(cs);
    assert(paths_of(pairs_in(cs)) =~= Set::<Seq<u8>>::empty());
    assert(contents_of(pairs_in(cs)) =~= Set::<Seq<u8>>::empty());
    assert(hotspots_of(cs) =~= Map::<Seq<u8>, Set<Seq<u8>>>::empty());
}

} // verus!
