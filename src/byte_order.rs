//! Lexicographic order on byte strings, the order in which paths and
//! identifiers are kept and reported.
use vstd::prelude::*;

verus! {

/// `a` sorts strictly before `b`: at the first differing byte `a` holds the
/// smaller one, or `a` is a proper prefix of `b`.
pub open spec fn lex_lt(a: Seq<u8>, b: Seq<u8>) -> bool
    decreases a.len(),
{
    if a.len() == 0 {
        b.len() > 0
    } else if b.len() == 0 {
        false
    } else if a[0] != b[0] {
        a[0] < b[0]
    } else {
        lex_lt(a.drop_first(), b.drop_first())
    }
}

pub proof fn lemma_lex_irreflexive(a: Seq<u8>)
    ensures
        !lex_lt(a, a),
    decreases a.len(),
{
    if a.len() > 0 {
        lemma_lex_irreflexive(a.drop_first());
    }
}

pub proof fn lemma_lex_asymmetric(a: Seq<u8>, b: Seq<u8>)
    ensures
        lex_lt(a, b) ==> !lex_lt(b, a),
    decreases a.len(),
{
    if a.len() > 0 && b.len() > 0 && a[0] == b[0] {
        lemma_lex_asymmetric(a.drop_first(), b.drop_first());
    }
}

pub proof fn lemma_lex_total(a: Seq<u8>, b: Seq<u8>)
    ensures
        a != b ==> lex_lt(a, b) || lex_lt(b, a),
    decreases a.len(),
{
    if a.len() > 0 && b.len() > 0 && a[0] == b[0] {
        lemma_lex_total(a.drop_first(), b.drop_first());
        if a.drop_first() == b.drop_first() {
            assert(a =~= seq![a[0]] + a.drop_first());
            assert(b =~= seq![b[0]] + b.drop_first());
        }
    } else if a.len() == 0 && b.len() == 0 {
        assert(a =~= b);
    }
}

pub proof fn lemma_lex_transitive(a: Seq<u8>, b: Seq<u8>, c: Seq<u8>)
    requires
        lex_lt(a, b),
        lex_lt(b, c),
    ensures
        lex_lt(a, c),
    decreases a.len(),
{
    if a.len() > 0 && b.len() > 0 && c.len() > 0 && a[0] == b[0] && b[0] == c[0] {
        lemma_lex_transitive(a.drop_first(), b.drop_first(), c.drop_first());
    }
}

proof fn lemma_lex_skip_step(a: Seq<u8>, b: Seq<u8>, i: int)
    requires
        0 <= i < a.len(),
        i < b.len(),
        a[i] == b[i],
    ensures
        lex_lt(a.skip(i), b.skip(i)) == lex_lt(a.skip(i + 1), b.skip(i + 1)),
{
    assert(a.skip(i).drop_first() =~= a.skip(i + 1));
    assert(b.skip(i).drop_first() =~= b.skip(i + 1));
}

/// Compares two byte strings: `Less`, `Equal` or `Greater` as `a` sorts
/// before, equals or sorts after `b`.
pub fn compare_bytes(a: &Vec<u8>, b: &Vec<u8>) -> (r: core::cmp::Ordering)
    ensures
        (r == core::cmp::Ordering::Less) == lex_lt(a@, b@),
        (r == core::cmp::Ordering::Equal) == (a@ == b@),
        (r == core::cmp::Ordering::Greater) == lex_lt(b@, a@),
{
    let mut i: usize = 0;
    assert(a@.skip(0) =~= a@);
    assert(b@.skip(0) =~= b@);
    while i < a.len() && i < b.len() && a[i] == b[i]
        invariant
            i <= a@.len(),
            i <= b@.len(),
            a@.subrange(0, i as int) == b@.subrange(0, i as int),
            lex_lt(a@, b@) == lex_lt(a@.skip(i as int), b@.skip(i as int)),
            lex_lt(b@, a@) == lex_lt(b@.skip(i as int), a@.skip(i as int)),
        decreases a@.len() - i,
    {
        proof {
            lemma_lex_skip_step(a@, b@, i as int);
            lemma_lex_skip_step(b@, a@, i as int);
            assert(a@.subrange(0, i + 1) =~= a@.subrange(0, i as int).push(a@[i as int]));
            assert(b@.subrange(0, i + 1) =~= b@.subrange(0, i as int).push(b@[i as int]));
        }
        i = i + 1;
    }
    proof {
        lemma_lex_irreflexive(a@);
        lemma_lex_asymmetric(a@, b@);
        lemma_lex_total(a@, b@);
    }
    if i < a.len() && i < b.len() {
        proof {
            assert(a@.skip(i as int)[0] == a@[i as int]);
            assert(b@.skip(i as int)[0] == b@[i as int]);
            assert(a@[i as int] != b@[i as int]);
        }
        if a[i] < b[i] {
            core::cmp::Ordering::Less
        } else {
            core::cmp::Ordering::Greater
        }
    } else if i < b.len() {
        proof {
            assert(a@.skip(i as int).len() == 0);
        }
        core::cmp::Ordering::Less
    } else if i < a.len() {
        proof {
            assert(b@.skip(i as int).len() == 0);
        }
        core::cmp::Ordering::Greater
    } else {
        proof {
            assert(a@ =~= a@.subrange(0, i as int));
            assert(b@ =~= b@.subrange(0, i as int));
        }
        core::cmp::Ordering::Equal
    }
}

/// A fresh copy of `a`.
pub fn copy_bytes(a: &Vec<u8>) -> (r: Vec<u8>)
    ensures
        r@ == a@,
{
    concat_bytes(a, &Vec::new())
}

/// `a` followed by `b`, in a fresh vector.
pub fn concat_bytes(a: &Vec<u8>, b: &Vec<u8>) -> (r: Vec<u8>)
    ensures
        r@ == a@ + b@,
{
    let mut r: Vec<u8> = Vec::new();
    let mut i: usize = 0;
    while i < a.len()
        invariant
            i <= a@.len(),
            r@ == a@.subrange(0, i as int),
        decreases a@.len() - i,
    {
        r.push(a[i]);
        i = i + 1;
        assert(r@ =~= a@.subrange(0, i as int));
    }
    let mut j: usize = 0;
    while j < b.len()
        invariant
            i == a@.len(),
            j <= b@.len(),
            r@ == a@ + b@.subrange(0, j as int),
        decreases b@.len() - j,
    {
        r.push(b[j]);
        j = j + 1;
        assert(r@ =~= a@ + b@.subrange(0, j as int));
    }
    assert(r@ =~= a@ + b@);
    r
}

} // verus!
