//! A deduplicating set of byte strings, kept in ascending lexicographic order.
use vstd::prelude::*;

use crate::byte_order::{compare_bytes, lemma_lex_irreflexive, lemma_lex_transitive, lex_lt};

verus! {

/// Every element sorts strictly before every later element.
pub open spec fn strictly_sorted(s: Seq<Seq<u8>>) -> bool {
    forall|i: int, j: int| 0 <= i < j < s.len() ==> lex_lt(#[trigger] s[i], #[trigger] s[j])
}

/// A value kept in order by a byte-string key.
pub trait SortKey {
    spec fn key_view(&self) -> Seq<u8>;

    fn sort_key(&self) -> (r: &Vec<u8>)
        ensures
            r@ == self.key_view(),
    ;
}

impl SortKey for Vec<u8> {
    open spec fn key_view(&self) -> Seq<u8> {
        self@
    }

    fn sort_key(&self) -> (r: &Vec<u8>) {
        self
    }
}

/// The keys of a sequence of values.
pub open spec fn keys_view<T: SortKey>(v: Seq<T>) -> Seq<Seq<u8>> {
    v.map_values(|t: T| t.key_view())
}

/// The views of a vector of byte strings.
pub open spec fn byte_strings_view(v: Seq<Vec<u8>>) -> Seq<Seq<u8>> {
    keys_view(v)
}

pub proof fn lemma_sorted_no_duplicates(s: Seq<Seq<u8>>)
    requires
        strictly_sorted(s),
    ensures
        s.no_duplicates(),
        s.to_set().len() == s.len(),
{
    assert forall|i: int, j: int| 0 <= i < s.len() && 0 <= j < s.len() && i != j implies s[i]
        != s[j] by {
        if i < j {
            lemma_lex_irreflexive(s[i]);
        } else {
            lemma_lex_irreflexive(s[j]);
        }
    }
    s.unique_seq_to_set();
}

/// Where key `k` stands among values sorted by key: `Ok(i)` when `v[i]`
/// has it, `Err(i)` when it is absent and `i` is the position that keeps the
/// order.
pub fn search_sorted<T: SortKey>(v: &Vec<T>, k: &Vec<u8>) -> (r: Result<usize, usize>)
    requires
        strictly_sorted(keys_view(v@)),
    ensures
        r matches Ok(i) ==> i < v@.len() && v@[i as int].key_view() == k@,
        r matches Err(i) ==> i <= v@.len() && (forall|j: int|
            0 <= j < i ==> lex_lt(#[trigger] v@[j].key_view(), k@)) && (forall|j: int|
            i <= j < v@.len() ==> lex_lt(k@, #[trigger] v@[j].key_view())),
        r is Err ==> !keys_view(v@).contains(k@),
{
    let ghost s = keys_view(v@);
    let mut lo: usize = 0;
    let mut hi: usize = v.len();
    while lo < hi
        invariant
            s == keys_view(v@),
            strictly_sorted(s),
            lo <= hi <= v@.len(),
            forall|j: int| 0 <= j < lo ==> lex_lt(#[trigger] v@[j].key_view(), k@),
            forall|j: int| hi <= j < v@.len() ==> lex_lt(k@, #[trigger] v@[j].key_view()),
        decreases hi - lo,
    {
        let mid: usize = lo + (hi - lo) / 2;
        match compare_bytes(v[mid].sort_key(), k) {
            core::cmp::Ordering::Less => {
                assert forall|j: int| 0 <= j < mid + 1 implies lex_lt(#[trigger] v@[j].key_view(), k@) by {
                    if j < mid {
                        assert(lex_lt(s[j], s[mid as int]));
                        lemma_lex_transitive(v@[j].key_view(), v@[mid as int].key_view(), k@);
                    }
                }
                lo = mid + 1;
            },
            core::cmp::Ordering::Equal => {
                return Ok(mid);
            },
            core::cmp::Ordering::Greater => {
                assert forall|j: int| mid <= j < v@.len() implies lex_lt(k@, #[trigger] v@[j].key_view()) by {
                    if j > mid {
                        assert(lex_lt(s[mid as int], s[j]));
                        lemma_lex_transitive(k@, v@[mid as int].key_view(), v@[j].key_view());
                    }
                }
                hi = mid;
            },
        }
    }
    proof {
        if s.contains(k@) {
            let j = choose|j: int| 0 <= j < s.len() && s[j] == k@;
            lemma_lex_irreflexive(k@);
            assert(v@[j].key_view() == k@);
        }
    }
    Err(lo)
}

/// Inserting `k` at position `i`, where it keeps the order, keeps a
/// sequence strictly sorted and adds exactly `k` to its elements.
pub proof fn lemma_sorted_insert(s: Seq<Seq<u8>>, i: int, k: Seq<u8>)
    requires
        strictly_sorted(s),
        0 <= i <= s.len(),
        forall|j: int| 0 <= j < i ==> lex_lt(#[trigger] s[j], k),
        forall|j: int| i <= j < s.len() ==> lex_lt(k, #[trigger] s[j]),
    ensures
        strictly_sorted(s.insert(i, k)),
        s.insert(i, k).to_set() == s.to_set().insert(k),
{
    let t = s.insert(i, k);
    assert forall|a: int, b: int| 0 <= a < b < t.len() implies lex_lt(#[trigger] t[a], #[trigger] t[b]) by {
        if a < i && b > i {
            lemma_lex_transitive(s[a], k, s[b - 1]);
        }
    }
    assert forall|x: Seq<u8>| t.contains(x) <==> s.to_set().insert(k).contains(x) by {
        if t.contains(x) {
            let j = choose|j: int| 0 <= j < t.len() && t[j] == x;
            if j < i {
                assert(s[j] == x);
            } else if j > i {
                assert(s[j - 1] == x);
            }
        }
        if s.contains(x) {
            let j = choose|j: int| 0 <= j < s.len() && s[j] == x;
            if j < i {
                assert(t[j] == x);
            } else {
                assert(t[j + 1] == x);
            }
        }
        if x == k {
            assert(t[i] == x);
        }
    }
    assert(t.to_set() =~= s.to_set().insert(k));
}

/// A set of byte strings with no two equal elements.
pub struct ByteStringSet {
    items: Vec<Vec<u8>>,
}

impl View for ByteStringSet {
    type V = Set<Seq<u8>>;

    closed spec fn view(&self) -> Set<Seq<u8>> {
        byte_strings_view(self.items@).to_set()
    }
}

impl ByteStringSet {
    /// The elements in ascending order.
    pub closed spec fn ordered(&self) -> Seq<Seq<u8>> {
        byte_strings_view(self.items@)
    }

    pub closed spec fn wf(&self) -> bool {
        strictly_sorted(self.ordered())
    }

    pub proof fn lemma_view(&self)
        requires
            self.wf(),
        ensures
            self@ == self.ordered().to_set(),
            strictly_sorted(self.ordered()),
            self@.finite(),
            self@.len() == self.ordered().len(),
    {
        lemma_sorted_no_duplicates(self.ordered());
    }

    pub fn new() -> (r: ByteStringSet)
        ensures
            r.wf(),
            r@ == Set::<Seq<u8>>::empty(),
    {
        let r = ByteStringSet { items: Vec::new() };
        assert(r@ =~= Set::<Seq<u8>>::empty());
        r
    }

    /// The number of elements.
    pub fn len(&self) -> (r: usize)
        requires
            self.wf(),
        ensures
            r == self@.len(),
    {
        proof {
            lemma_sorted_no_duplicates(self.ordered());
        }
        self.items.len()
    }

    pub fn contains(&self, k: &Vec<u8>) -> (r: bool)
        requires
            self.wf(),
        ensures
            r == self@.contains(k@),
    {
        match search_sorted(&self.items, k) {
            Ok(i) => {
                assert(self.ordered()[i as int] == k@);
                true
            },
            Err(_) => false,
        }
    }

    /// Adds `k`; returns whether it was absent before.
    pub fn insert(&mut self, k: Vec<u8>) -> (r: bool)
        requires
            old(self).wf(),
        ensures
            final(self).wf(),
            final(self)@ == old(self)@.insert(k@),
            r == !old(self)@.contains(k@),
    {
        match search_sorted(&self.items, &k) {
            Ok(i) => {
                proof {
                    assert(self.ordered()[i as int] == k@);
                    assert(self@.insert(k@) =~= self@);
                }
                false
            },
            Err(i) => {
                let ghost s = self.ordered();
                let ghost kv = k@;
                self.items.insert(i, k);
                proof {
                    assert(self.ordered() =~= s.insert(i as int, kv));
                    lemma_sorted_insert(s, i as int, kv);
                }
                true
            },
        }
    }

    /// The elements in ascending order.
    pub fn elements(&self) -> (r: &Vec<Vec<u8>>)
        requires
            self.wf(),
        ensures
            byte_strings_view(r@) == self.ordered(),
            strictly_sorted(byte_strings_view(r@)),
            byte_strings_view(r@).to_set() == self@,
    {
        &self.items
    }
}

} // verus!
