//! The tree walker's own part: from the entries of one commit's tree, as a
//! pre-order walk hands them over, to one observation per file entry, keyed
//! by the entry's full path.
use vstd::prelude::*;

use crate::byte_order::{concat_bytes, copy_bytes};
use crate::model::{paths_of, CommitModel, PairModel};

verus! {

/// What a tree entry is.
#[derive(Clone, Copy, Debug, PartialEq, Eq, Structural)]
pub enum EntryKind {
    /// File contents.
    Blob,
    /// A subtree; the walk descends into it.
    Tree,
    /// Anything else, such as a submodule link.
    Other,
}

/// One entry of a tree walk: the path of the directory that holds it (empty
/// at the root, else ending in `/`), its own name, its kind and its id.
pub struct WalkedEntry {
    pub root: Vec<u8>,
    pub name: Vec<u8>,
    pub kind: EntryKind,
    pub id: Vec<u8>,
}

/// A file entry seen in a commit: its full path and the id of its contents.
pub struct EntryObservation {
    pub path: Vec<u8>,
    pub blob: Vec<u8>,
}

impl View for EntryObservation {
    type V = PairModel;

    open spec fn view(&self) -> PairModel {
        (self.path@, self.blob@)
    }
}

/// What a retained commit contributes to the statistics.
pub struct CommitRecord {
    pub author: Option<Vec<u8>>,
    pub entries: Vec<EntryObservation>,
}

pub open spec fn observations_view(os: Seq<EntryObservation>) -> Seq<PairModel> {
    os.map_values(|o: EntryObservation| o@)
}

impl View for CommitRecord {
    type V = CommitModel;

    open spec fn view(&self) -> CommitModel {
        CommitModel {
            author: match self.author {
                Some(a) => Some(a@),
                None => None,
            },
            entries: observations_view(self.entries@),
        }
    }
}

pub open spec fn commits_view(cs: Seq<CommitRecord>) -> Seq<CommitModel> {
    cs.map_values(|c: CommitRecord| c@)
}

/// The full path of a walked entry.
pub open spec fn entry_path(e: WalkedEntry) -> Seq<u8> {
    e.root@ + e.name@
}

/// The observations of a walk, in walk order: one per file entry.
pub open spec fn walked_pairs(es: Seq<WalkedEntry>) -> Seq<PairModel>
    decreases es.len(),
{
    if es.len() == 0 {
        Seq::empty()
    } else {
        let e = es.last();
        let prev = walked_pairs(es.drop_last());
        if e.kind == EntryKind::Blob {
            prev.push((entry_path(e), e.id@))
        } else {
            prev
        }
    }
}

proof fn lemma_walked_pairs_contains(es: Seq<WalkedEntry>, i: int)
    requires
        0 <= i < es.len(),
        es[i].kind == EntryKind::Blob,
    ensures
        walked_pairs(es).contains((entry_path(es[i]), es[i].id@)),
    decreases es.len(),
{
    if i == es.len() - 1 {
        assert(walked_pairs(es).last() == (entry_path(es[i]), es[i].id@));
    } else {
        lemma_walked_pairs_contains(es.drop_last(), i);
        let prev = walked_pairs(es.drop_last());
        let k = choose|k: int| 0 <= k < prev.len() && prev[k] == (entry_path(es[i]), es[i].id@);
        if es.last().kind == EntryKind::Blob {
            assert(walked_pairs(es)[k] == prev[k]);
        }
    }
}

/// One observation for each file entry of a walk, in walk order; subtrees
/// and other entries give none.
pub fn observe_entries(es: &Vec<WalkedEntry>) -> (r: Vec<EntryObservation>)
    ensures
        observations_view(r@) == walked_pairs(es@),
{
    let mut r: Vec<EntryObservation> = Vec::new();
    let mut i: usize = 0;
    while i < es.len()
        invariant
            i <= es@.len(),
            observations_view(r@) == walked_pairs(es@.take(i as int)),
        decreases es@.len() - i,
    {
        let e = &es[i];
        assert(es@.take(i + 1).drop_last() =~= es@.take(i as int));
        if e.kind == EntryKind::Blob {
            let o = EntryObservation { path: concat_bytes(&e.root, &e.name), blob: copy_bytes(&e.id) };
            r.push(o);
            assert(observations_view(r@) =~= walked_pairs(es@.take(i + 1)));
        }
        i = i + 1;
    }
    assert(es@.take(es@.len() as int) =~= es@);
    r
}

/// Files of the same name in different directories keep different paths:
/// both are observed, under two distinct paths.
pub proof fn lemma_same_name_distinct_paths(es: Seq<WalkedEntry>, i: int, j: int)
    requires
        0 <= i < es.len(),
        0 <= j < es.len(),
        es[i].kind == EntryKind::Blob,
        es[j].kind == EntryKind::Blob,
        es[i].name@ == es[j].name@,
        es[i].root@ != es[j].root@,
    ensures
        entry_path(es[i]) != entry_path(es[j]),
        paths_of(walked_pairs(es).to_set()).contains(entry_path(es[i])),
        paths_of(walked_pairs(es).to_set()).contains(entry_path(es[j])),
{
    let a = es[i];
    let b = es[j];
    if entry_path(a) == entry_path(b) {
        assert(entry_path(a).len() == a.root@.len() + a.name@.len());
        assert(entry_path(b).len() == b.root@.len() + b.name@.len());
        assert(a.root@.len() == b.root@.len());
        assert(a.root@ =~= entry_path(a).subrange(0, a.root@.len() as int));
        assert(b.root@ =~= entry_path(b).subrange(0, b.root@.len() as int));
    }
    lemma_walked_pairs_contains(es, i);
    lemma_walked_pairs_contains(es, j);
    assert(walked_pairs(es).to_set().contains((entry_path(a), a.id@)));
    assert(walked_pairs(es).to_set().contains((entry_path(b), b.id@)));
}

} // verus!
