//! Counting the positions of a sequence that satisfy a predicate, used as the
//! progress measure of the search and carving loops.
use vstd::prelude::*;
use vstd::set_lib::*;

verus! {

/// The positions of `s` whose element satisfies `p`.
pub open spec fn index_set<A>(s: Seq<A>, p: spec_fn(A) -> bool) -> Set<int> {
    Set::new(|i: int| 0 <= i < s.len() && p(s[i]))
}

/// The marked positions are a finite set no larger than the sequence.
pub proof fn lemma_index_set_bounds<A>(s: Seq<A>, p: spec_fn(A) -> bool)
    ensures
        index_set(s, p).finite(),
        index_set(s, p).len() <= s.len(),
{
    lemma_int_range(0, s.len() as int);
    lemma_len_subset(index_set(s, p), set_int_range(0, s.len() as int));
}

/// With one unmarked position, fewer positions than the length are marked.
pub proof fn lemma_index_set_strict<A>(s: Seq<A>, p: spec_fn(A) -> bool, j: int)
    requires
        0 <= j < s.len(),
        !p(s[j]),
    ensures
        index_set(s, p).finite(),
        index_set(s, p).len() < s.len(),
{
    lemma_int_range(0, s.len() as int);
    let r = set_int_range(0, s.len() as int);
    lemma_len_subset(index_set(s, p), r.remove(j));
}

/// Marking an unmarked position adds exactly that position.
pub proof fn lemma_index_set_mark<A>(s: Seq<A>, p: spec_fn(A) -> bool, j: int, v: A)
    requires
        0 <= j < s.len(),
        !p(s[j]),
        p(v),
    ensures
        index_set(s.update(j, v), p) == index_set(s, p).insert(j),
        index_set(s.update(j, v), p).len() == index_set(s, p).len() + 1,
{
    lemma_index_set_bounds(s, p);
    assert(index_set(s.update(j, v), p) =~= index_set(s, p).insert(j));
}

} // verus!
