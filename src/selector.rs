//! The revision selector's own part: from what each revision specifier
//! resolved to, the commits that seed the history walk and the commits whose
//! ancestry is left out of it.
use vstd::prelude::*;

verus! {

#[verifier::external_type_specification]
#[verifier::external_body]
pub struct ExOid(git2::Oid);

/// A step that seeds the history walk.
#[derive(Clone, Copy, Debug)]
pub enum SeedAction {
    /// Walk this commit and its ancestors.
    Push(git2::Oid),
    /// Leave out this commit and its ancestors.
    Exclude(git2::Oid),
    /// Walk the current head and its ancestors.
    PushHead,
}

/// What a revision specifier without the exclusion marker resolved to:
/// whether it names a single commit, whether it asks for the merge base of
/// its two ends, and its two ends.
pub struct ResolvedSpec {
    pub single: bool,
    pub merge_base: bool,
    pub from: Option<git2::Oid>,
    pub to: Option<git2::Oid>,
}

/// What a resolved specifier selects.
#[derive(Clone, Copy, Debug)]
pub enum Selection {
    /// One commit and its ancestry.
    Single(git2::Oid),
    /// The ancestry of `to` without that of `from`; with `merge_base`, the
    /// merge base of the two is walked as well.
    Range { from: git2::Oid, to: git2::Oid, merge_base: bool },
    /// A range that lacks one of its ends.
    Incomplete,
}

pub open spec fn selection_of(r: ResolvedSpec) -> Selection {
    if r.single {
        match r.from {
            Some(id) => Selection::Single(id),
            None => Selection::Incomplete,
        }
    } else {
        match (r.from, r.to) {
            (Some(f), Some(t)) => Selection::Range { from: f, to: t, merge_base: r.merge_base },
            _ => Selection::Incomplete,
        }
    }
}

/// What a resolved specifier selects.
pub fn classify(r: &ResolvedSpec) -> (s: Selection)
    ensures
        s == selection_of(*r),
{
    if r.single {
        match r.from {
            Some(id) => Selection::Single(id),
            None => Selection::Incomplete,
        }
    } else {
        match (r.from, r.to) {
            (Some(f), Some(t)) => Selection::Range { from: f, to: t, merge_base: r.merge_base },
            _ => Selection::Incomplete,
        }
    }
}

pub open spec fn range_seeds_spec(from: git2::Oid, to: git2::Oid, base: Option<git2::Oid>) -> Seq<
    SeedAction,
> {
    match base {
        None => seq![SeedAction::Push(to), SeedAction::Exclude(from)],
        Some(b) => seq![SeedAction::Push(to), SeedAction::Push(b), SeedAction::Exclude(from)],
    }
}

/// The seeds of a range: walk `to`, and the merge base where there is one,
/// and leave out `from`.
pub fn range_seeds(from: git2::Oid, to: git2::Oid, base: Option<git2::Oid>) -> (r: Vec<SeedAction>)
    ensures
        r@ == range_seeds_spec(from, to, base),
{
    let mut r: Vec<SeedAction> = Vec::new();
    r.push(SeedAction::Push(to));
    if let Some(b) = base {
        r.push(SeedAction::Push(b));
    }
    r.push(SeedAction::Exclude(from));
    assert(r@ =~= range_seeds_spec(from, to, base));
    r
}

/// The commits a plan walks from.
pub open spec fn pushed(plan: Seq<SeedAction>) -> Set<git2::Oid> {
    Set::new(|id: git2::Oid| exists|i: int| 0 <= i < plan.len() && #[trigger] plan[i] == SeedAction::Push(id))
}

/// The commits whose ancestry a plan leaves out.
pub open spec fn excluded(plan: Seq<SeedAction>) -> Set<git2::Oid> {
    Set::new(|id: git2::Oid| exists|i: int| 0 <= i < plan.len() && #[trigger] plan[i] == SeedAction::Exclude(id))
}

/// The range `a..c` seeds the walk exactly as the exclusion `^a` followed
/// by the inclusion `c`: both walk from `c` alone and leave out `a` alone.
pub proof fn lemma_range_as_exclusion(a: git2::Oid, c: git2::Oid)
    ensures
        pushed(range_seeds_spec(a, c, None)) == pushed(seq![SeedAction::Exclude(a), SeedAction::Push(c)]),
        excluded(range_seeds_spec(a, c, None)) == excluded(seq![SeedAction::Exclude(a), SeedAction::Push(c)]),
        pushed(range_seeds_spec(a, c, None)) == set![c],
        excluded(range_seeds_spec(a, c, None)) == set![a],
{
    let r = range_seeds_spec(a, c, None);
    let x = seq![SeedAction::Exclude(a), SeedAction::Push(c)];
    assert forall|id: git2::Oid| #[trigger] pushed(r).contains(id) <==> set![c].contains(id) by {
        if id == c {
            assert(r[0] == SeedAction::Push(id));
        }
    }
    assert forall|id: git2::Oid| #[trigger] pushed(x).contains(id) <==> set![c].contains(id) by {
        if id == c {
            assert(x[1] == SeedAction::Push(id));
        }
    }
    assert forall|id: git2::Oid| #[trigger] excluded(r).contains(id) <==> set![a].contains(id) by {
        if id == a {
            assert(r[1] == SeedAction::Exclude(id));
        }
    }
    assert forall|id: git2::Oid| #[trigger] excluded(x).contains(id) <==> set![a].contains(id) by {
        if id == a {
            assert(x[0] == SeedAction::Exclude(id));
        }
    }
    assert(pushed(r) =~= set![c]);
    assert(pushed(x) =~= set![c]);
    assert(excluded(r) =~= set![a]);
    assert(excluded(x) =~= set![a]);
}

} // verus!
