//! The hotspot aggregator: for each path, the distinct content ids it has
//! had across the retained commits.
use vstd::prelude::*;

use crate::byte_order::copy_bytes;
use crate::byte_set::{
    keys_view, lemma_sorted_insert, lemma_sorted_no_duplicates, search_sorted, strictly_sorted,
    ByteStringSet, SortKey,
};
use crate::model::{
    hotspot_insert, hotspots_of, lemma_hotspot_insert_twice, lemma_nothing_in_no_commits, revision_count,
    lemma_pair_insert, lemma_pairs_step, pairs_in, revisions_finite, revisions_of, PairModel,
};
use crate::walker::{commits_view, CommitRecord};

verus! {

/// A path and the content ids seen at it.
pub struct EntryRevisions {
    pub name: Vec<u8>,
    pub revisions: ByteStringSet,
}

impl EntryRevisions {
    /// A path with no content id seen yet.
    pub fn new(name: Vec<u8>) -> (r: EntryRevisions)
        ensures
            r.name@ == name@,
            r.revisions.wf(),
            r.revisions@ == Set::<Seq<u8>>::empty(),
    {
        EntryRevisions { name, revisions: ByteStringSet::new() }
    }
}

/// A path and the number of distinct content ids seen at it.
pub struct RevisionCount {
    pub path: Vec<u8>,
    pub revisions: u64,
}

impl SortKey for EntryRevisions {
    open spec fn key_view(&self) -> Seq<u8> {
        self.name@
    }

    fn sort_key(&self) -> (r: &Vec<u8>) {
        &self.name
    }
}

pub open spec fn entry_names(s: Seq<EntryRevisions>) -> Seq<Seq<u8>> {
    keys_view(s)
}

/// The position of `p` among the names.
pub open spec fn index_of(names: Seq<Seq<u8>>, p: Seq<u8>) -> int {
    choose|i: int| 0 <= i < names.len() && names[i] == p
}

proof fn lemma_index_of(names: Seq<Seq<u8>>, i: int)
    requires
        names.no_duplicates(),
        0 <= i < names.len(),
    ensures
        index_of(names, names[i]) == i,
{
    let k = index_of(names, names[i]);
    assert(0 <= k < names.len() && names[k] == names[i]);
}

/// The running state of the hotspot aggregator, its paths in ascending order.
pub struct HotspotState {
    entries: Vec<EntryRevisions>,
}

impl View for HotspotState {
    type V = Map<Seq<u8>, Set<Seq<u8>>>;

    closed spec fn view(&self) -> Map<Seq<u8>, Set<Seq<u8>>> {
        Map::new(
            |p: Seq<u8>| entry_names(self.entries@).contains(p),
            |p: Seq<u8>| self.entries@[index_of(entry_names(self.entries@), p)].revisions@,
        )
    }
}

impl HotspotState {
    /// The paths, in ascending order.
    pub closed spec fn paths(&self) -> Seq<Seq<u8>> {
        entry_names(self.entries@)
    }

    pub closed spec fn wf(&self) -> bool {
        &&& strictly_sorted(entry_names(self.entries@))
        &&& forall|i: int| 0 <= i < self.entries@.len() ==> (#[trigger] self.entries@[i]).revisions.wf()
    }

    /// A well-formed state keeps each path once, and a finite set of
    /// content ids for each.
    pub proof fn lemma_wf(&self)
        requires
            self.wf(),
        ensures
            self.paths().no_duplicates(),
            self.paths().to_set() == self@.dom(),
            revisions_finite(self@),
    {
        lemma_sorted_no_duplicates(self.paths());
        assert(self.paths().to_set() =~= self@.dom());
        assert forall|p: Seq<u8>| self@.contains_key(p) implies (#[trigger] self@[p]).finite() by {
            let i = index_of(self.paths(), p);
            self.entries@[i].revisions.lemma_view();
        }
    }

    /// Recording the same (path, content id) pair twice in a row leaves the
    /// state as recording it once; the count of that path grows by one
    /// exactly when the content id is new to it, and the second recording
    /// adds nothing.
    pub proof fn lemma_insert_twice(&self, p: Seq<u8>, b: Seq<u8>)
        requires
            self.wf(),
        ensures
            hotspot_insert(hotspot_insert(self@, p, b), p, b) == hotspot_insert(self@, p, b),
            revision_count(hotspot_insert(self@, p, b), p) == revision_count(self@, p) + (if self@.contains_key(p)
                && self@[p].contains(b) {
                0int
            } else {
                1int
            }),
            revision_count(hotspot_insert(hotspot_insert(self@, p, b), p, b), p) <= revision_count(
                self@,
                p,
            ) + 1,
    {
        self.lemma_wf();
        lemma_hotspot_insert_twice(self@, p, b);
    }

    /// A state that has seen no commit.
    pub fn new() -> (r: HotspotState)
        ensures
            r.wf(),
            r@ == hotspots_of(Seq::empty()),
    {
        let r = HotspotState { entries: Vec::new() };
        proof {
            lemma_nothing_in_no_commits(Seq::empty());
            assert(r@ =~= revisions_of(Set::empty()));
        }
        r
    }

    /// Records content id `blob` at `path`.
    pub fn insert(&mut self, path: &Vec<u8>, blob: &Vec<u8>)
        requires
            old(self).wf(),
        ensures
            final(self).wf(),
            final(self)@ == hotspot_insert(old(self)@, path@, blob@),
    {
        let ghost m = self@;
        proof {
            self.lemma_wf();
        }
        match search_sorted(&self.entries, path) {
            Ok(i) => {
                let ghost old_entries = self.entries@;
                proof {
                    lemma_index_of(self.paths(), i as int);
                }
                self.entries[i].revisions.insert(copy_bytes(blob));
                proof {
                    assert(entry_names(self.entries@) =~= entry_names(old_entries));
                    assert forall|p: Seq<u8>| #[trigger] self@.contains_key(p) implies self@[p]
                        =~= hotspot_insert(m, path@, blob@)[p] by {
                        let k = index_of(self.paths(), p);
                        if k != i {
                            assert(self.entries@[k] == old_entries[k]);
                        }
                    }
                    assert(self@ =~= hotspot_insert(m, path@, blob@));
                }
            },
            Err(i) => {
                let ghost old_entries = self.entries@;
                let ghost names = self.paths();
                let mut e = EntryRevisions::new(copy_bytes(path));
                e.revisions.insert(copy_bytes(blob));
                assert(e.revisions@ =~= set![blob@]);
                self.entries.insert(i, e);
                proof {
                    assert(entry_names(self.entries@) =~= names.insert(i as int, path@));
                    lemma_sorted_insert(names, i as int, path@);
                    lemma_sorted_no_duplicates(self.paths());
                    lemma_index_of(self.paths(), i as int);
                    assert forall|j: int| 0 <= j < self.entries@.len() implies (#[trigger] self.entries@[j]).revisions.wf() by {
                        if j < i {
                            assert(self.entries@[j] == old_entries[j]);
                        } else if j > i {
                            assert(self.entries@[j] == old_entries[j - 1]);
                        }
                    }
                    assert forall|p: Seq<u8>| #[trigger] self@.contains_key(p) implies self@[p]
                        =~= hotspot_insert(m, path@, blob@)[p] by {
                        if p != path@ {
                            let k = index_of(names, p);
                            lemma_index_of(names, k);
                            if k < i {
                                assert(self.paths()[k] == p);
                                lemma_index_of(self.paths(), k);
                            } else {
                                assert(self.paths()[k + 1] == p);
                                lemma_index_of(self.paths(), k + 1);
                            }
                        }
                    }
                    assert(self@.dom() =~= hotspot_insert(m, path@, blob@).dom());
                    assert(self@ =~= hotspot_insert(m, path@, blob@));
                }
            },
        }
    }

    /// Records every entry of one retained commit.
    pub fn add_commit(&mut self, c: &CommitRecord)
        requires
            old(self).wf(),
        ensures
            final(self).wf(),
            final(self)@ == hotspot_insert_all(old(self)@, c@.entries),
    {
        let ghost start = self@;
        let ghost es = c@.entries;
        assert(es.take(0) =~= Seq::<PairModel>::empty());
        let mut j: usize = 0;
        while j < c.entries.len()
            invariant
                self.wf(),
                es == c@.entries,
                j <= es.len(),
                self@ == hotspot_insert_all(start, es.take(j as int)),
            decreases es.len() - j,
        {
            let e = &c.entries[j];
            assert(es.take(j + 1).drop_last() =~= es.take(j as int));
            self.insert(&e.path, &e.blob);
            j = j + 1;
        }
        assert(es.take(es.len() as int) =~= es);
    }

    /// Each path with its number of distinct content ids, in ascending order
    /// of path.
    pub fn revision_counts(&self) -> (r: Vec<RevisionCount>)
        requires
            self.wf(),
        ensures
            counts_listing(r@, self@),
    {
        proof {
            self.lemma_wf();
        }
        let mut r: Vec<RevisionCount> = Vec::new();
        let mut i: usize = 0;
        while i < self.entries.len()
            invariant
                self.wf(),
                self.paths().no_duplicates(),
                i <= self.entries@.len(),
                r@.len() == i,
                forall|k: int|
                    0 <= k < i ==> (#[trigger] r@[k]).path@ == self.paths()[k]
                        && r@[k].revisions == self@[self.paths()[k]].len(),
            decreases self.entries@.len() - i,
        {
            let e = &self.entries[i];
            proof {
                lemma_index_of(self.paths(), i as int);
                assert(self.paths()[i as int] == e.name@);
                assert(self@.contains_key(e.name@));
            }
            let n: usize = e.revisions.len();
            r.push(RevisionCount { path: copy_bytes(&e.name), revisions: n as u64 });
            i = i + 1;
        }
        proof {
            assert(count_paths(r@) =~= self.paths());
            assert(self.paths().to_set() == self@.dom());
        }
        r
    }
}

/// The paths of a listing of counts.
pub open spec fn count_paths(r: Seq<RevisionCount>) -> Seq<Seq<u8>> {
    r.map_values(|c: RevisionCount| c.path@)
}

/// `r` lists every path of `m` once, in ascending order, with the number of
/// content ids that `m` holds for it.
pub open spec fn counts_listing(r: Seq<RevisionCount>, m: Map<Seq<u8>, Set<Seq<u8>>>) -> bool {
    &&& strictly_sorted(count_paths(r))
    &&& count_paths(r).to_set() == m.dom()
    &&& forall|k: int| 0 <= k < r.len() ==> (#[trigger] r[k]).revisions == m[r[k].path@].len()
}

/// Recording each pair of `es` in turn.
pub open spec fn hotspot_insert_all(m: Map<Seq<u8>, Set<Seq<u8>>>, es: Seq<PairModel>) -> Map<
    Seq<u8>,
    Set<Seq<u8>>,
>
    decreases es.len(),
{
    if es.len() == 0 {
        m
    } else {
        hotspot_insert(hotspot_insert_all(m, es.drop_last()), es.last().0, es.last().1)
    }
}

/// Recording pairs one at a time gives the map of all pairs seen.
pub proof fn lemma_insert_all(ps: Set<PairModel>, es: Seq<PairModel>)
    ensures
        hotspot_insert_all(revisions_of(ps), es) == revisions_of(ps.union(es.to_set())),
    decreases es.len(),
{
    if es.len() == 0 {
        assert(ps.union(es.to_set()) =~= ps);
    } else {
        let init = es.drop_last();
        lemma_insert_all(ps, init);
        lemma_pair_insert(ps.union(init.to_set()), es.last().0, es.last().1);
        assert(es =~= init.push(es.last()));
        init.lemma_push_to_set_commute(es.last());
        assert(ps.union(init.to_set()).insert(es.last()) =~= ps.union(es.to_set()));
    }
}

/// Recording all entries of a commit twice in a row counts each of them
/// once: the second pass leaves the per-path content ids as the first one
/// left them, and each path's set gains exactly the commit's ids for it.
pub proof fn lemma_commit_recorded_twice(ps: Set<PairModel>, es: Seq<PairModel>)
    ensures
        hotspot_insert_all(hotspot_insert_all(revisions_of(ps), es), es) == hotspot_insert_all(
            revisions_of(ps),
            es,
        ),
        forall|p: Seq<u8>|
            #[trigger] hotspot_insert_all(revisions_of(ps), es).contains_key(p) ==> hotspot_insert_all(
                revisions_of(ps),
                es,
            )[p] == Set::new(|b: Seq<u8>| ps.contains((p, b)) || es.contains((p, b))),
{
    let once = ps.union(es.to_set());
    lemma_insert_all(ps, es);
    lemma_insert_all(once, es);
    assert(once.union(es.to_set()) =~= once);
    assert forall|p: Seq<u8>| #[trigger] revisions_of(once).contains_key(p) implies revisions_of(once)[p]
        =~= Set::new(|b: Seq<u8>| ps.contains((p, b)) || es.contains((p, b))) by {}
}

/// The per-path revision counts of a sequence of retained commits, in
/// ascending order of path.
pub fn hotspots(cs: &Vec<CommitRecord>) -> (r: Vec<RevisionCount>)
    ensures
        counts_listing(r@, hotspots_of(commits_view(cs@))),
{
    let ghost cv = commits_view(cs@);
    let mut state = HotspotState::new();
    let mut i: usize = 0;
    proof {
        assert(cv.take(0) =~= Seq::empty());
    }
    while i < cs.len()
        invariant
            cv == commits_view(cs@),
            i <= cs@.len(),
            state.wf(),
            state@ == hotspots_of(cv.take(i as int)),
        decreases cs@.len() - i,
    {
        proof {
            lemma_pairs_step(cv, i as int);
            lemma_insert_all(pairs_in(cv.take(i as int)), cv[i as int].entries);
        }
        state.add_commit(&cs[i]);
        i = i + 1;
    }
    proof {
        assert(cv.take(cs@.len() as int) =~= cv);
    }
    state.revision_counts()
}

} // verus!
