//! The summary aggregator: the number of retained commits, and the numbers
//! of distinct author names, paths and content ids seen in them.
use vstd::prelude::*;

use crate::byte_order::copy_bytes;
use crate::byte_set::ByteStringSet;
use crate::model::{
    contents_of, lemma_entries_step, lemma_nothing_in_no_commits, lemma_pair_insert,
    lemma_summary_step, paths_of, summary_of, summary_step, SummaryModel,
};
use crate::walker::{commits_view, CommitRecord};

verus! {

/// The reported counts of a summary.
#[derive(Clone, Copy, Debug, PartialEq, Eq, Structural)]
pub struct SummaryRawData {
    pub no_of_commits: u64,
    pub no_of_authors: u64,
    pub no_of_entries: u64,
    pub no_of_entries_changed: u64,
}

/// The counts that a summary model reports.
pub open spec fn counts_of(m: SummaryModel) -> (nat, nat, nat, nat) {
    (m.commits, m.authors.len(), m.paths.len(), m.contents.len())
}

impl SummaryRawData {
    pub open spec fn counts(&self) -> (nat, nat, nat, nat) {
        (
            self.no_of_commits as nat,
            self.no_of_authors as nat,
            self.no_of_entries as nat,
            self.no_of_entries_changed as nat,
        )
    }
}

/// The running state of the summary aggregator.
pub struct SummaryState {
    commits: u64,
    authors: ByteStringSet,
    paths: ByteStringSet,
    contents: ByteStringSet,
}

impl View for SummaryState {
    type V = SummaryModel;

    closed spec fn view(&self) -> SummaryModel {
        SummaryModel {
            commits: self.commits as nat,
            authors: self.authors@,
            paths: self.paths@,
            contents: self.contents@,
        }
    }
}

impl SummaryState {
    pub closed spec fn wf(&self) -> bool {
        self.authors.wf() && self.paths.wf() && self.contents.wf()
    }

    /// A state that has seen no commit.
    pub fn new() -> (r: SummaryState)
        ensures
            r.wf(),
            r@ == summary_of(Seq::empty()),
    {
        let r = SummaryState {
            commits: 0,
            authors: ByteStringSet::new(),
            paths: ByteStringSet::new(),
            contents: ByteStringSet::new(),
        };
        proof {
            let e = Seq::<crate::model::CommitModel>::empty();
            lemma_nothing_in_no_commits(e);
            assert(paths_of(Set::empty()) =~= Set::<Seq<u8>>::empty());
            assert(contents_of(Set::empty()) =~= Set::<Seq<u8>>::empty());
        }
        r
    }

    /// Counts one retained commit: its author and every entry of its tree.
    pub fn add_commit(&mut self, c: &CommitRecord)
        requires
            old(self).wf(),
            old(self)@.commits < u64::MAX,
        ensures
            final(self).wf(),
            final(self)@ == summary_step(old(self)@, c@),
    {
        let ghost start = self@;
        let ghost es = c@.entries;
        self.commits = self.commits + 1;
        match &c.author {
            Some(a) => {
                self.authors.insert(copy_bytes(a));
            },
            None => {},
        }
        proof {
            assert(es.take(0).to_set() =~= Set::<crate::model::PairModel>::empty());
            assert(start.paths.union(paths_of(Set::empty())) =~= start.paths);
            assert(start.contents.union(contents_of(Set::empty())) =~= start.contents);
            assert(paths_of(Set::empty()) =~= Set::<Seq<u8>>::empty());
            assert(contents_of(Set::empty()) =~= Set::<Seq<u8>>::empty());
        }
        let mut j: usize = 0;
        while j < c.entries.len()
            invariant
                self.wf(),
                es == c@.entries,
                j <= es.len(),
                self.commits == start.commits + 1,
                self.authors@ == summary_step(start, c@).authors,
                self@.paths == start.paths.union(paths_of(es.take(j as int).to_set())),
                self@.contents == start.contents.union(contents_of(es.take(j as int).to_set())),
            decreases es.len() - j,
        {
            let e = &c.entries[j];
            proof {
                lemma_entries_step(es, j as int);
                lemma_pair_insert(es.take(j as int).to_set(), e.path@, e.blob@);
            }
            self.paths.insert(copy_bytes(&e.path));
            self.contents.insert(copy_bytes(&e.blob));
            j = j + 1;
            proof {
                assert(self@.paths =~= start.paths.union(paths_of(es.take(j as int).to_set())));
                assert(self@.contents =~= start.contents.union(
                    contents_of(es.take(j as int).to_set()),
                ));
            }
        }
        proof {
            assert(es.take(es.len() as int) =~= es);
        }
    }

    /// The counts reached so far.
    pub fn raw_data(&self) -> (r: SummaryRawData)
        requires
            self.wf(),
        ensures
            r.counts() == counts_of(self@),
    {
        SummaryRawData {
            no_of_commits: self.commits,
            no_of_authors: self.authors.len() as u64,
            no_of_entries: self.paths.len() as u64,
            no_of_entries_changed: self.contents.len() as u64,
        }
    }
}

/// The summary of a sequence of retained commits: how many there are, and
/// how many distinct author names, paths and content ids they hold.
pub fn summarize(cs: &Vec<CommitRecord>) -> (r: SummaryRawData)
    ensures
        r.counts() == counts_of(summary_of(commits_view(cs@))),
{
    let ghost cv = commits_view(cs@);
    let mut state = SummaryState::new();
    let mut i: usize = 0;
    proof {
        assert(cv.take(0) =~= Seq::empty());
    }
    while i < cs.len()
        invariant
            cv == commits_view(cs@),
            i <= cs@.len(),
            state.wf(),
            state@ == summary_of(cv.take(i as int)),
        decreases cs@.len() - i,
    {
        proof {
            lemma_summary_step(cv, i as int);
        }
        state.add_commit(&cs[i]);
        i = i + 1;
    }
    proof {
        assert(cv.take(cs@.len() as int) =~= cv);
    }
    state.raw_data()
}

} // verus!
