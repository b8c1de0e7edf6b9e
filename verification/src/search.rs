//! The first place in a sequence at which a predicate holds.
use vstd::prelude::*;

verus! {

/// The least index at or after `from` whose element satisfies `p`, or the
/// length of `s` where no element from there on does.
pub open spec fn first_from<A>(s: Seq<A>, p: spec_fn(A) -> bool, from: int) -> int
    decreases s.len() - from,
{
    if from >= s.len() {
        s.len() as int
    } else if p(s[from]) {
        from
    } else {
        first_from(s, p, from + 1)
    }
}

/// The least index whose element satisfies `p`, or the length of `s`.
pub open spec fn first<A>(s: Seq<A>, p: spec_fn(A) -> bool) -> int {
    first_from(s, p, 0)
}

/// Nothing before `first_from(s, p, from)` satisfies `p`, and what stands
/// there does.
pub proof fn lemma_first_from_bounds<A>(s: Seq<A>, p: spec_fn(A) -> bool, from: int)
    requires
        0 <= from <= s.len(),
    ensures
        from <= first_from(s, p, from) <= s.len(),
        forall|j: int| from <= j < first_from(s, p, from) ==> !p(#[trigger] s[j]),
        first_from(s, p, from) < s.len() ==> p(s[first_from(s, p, from)]),
    decreases s.len() - from,
{
    if from < s.len() && !p(s[from]) {
        lemma_first_from_bounds(s, p, from + 1);
    }
}

/// An index is `first_from(s, p, from)` when nothing from `from` up to it
/// satisfies `p` and it is the end of `s` or holds an element that does.
pub proof fn lemma_first_from_is<A>(s: Seq<A>, p: spec_fn(A) -> bool, from: int, to: int)
    requires
        0 <= from <= to <= s.len(),
        forall|j: int| from <= j < to ==> !p(#[trigger] s[j]),
        to == s.len() || p(s[to]),
    ensures
        first_from(s, p, from) == to,
    decreases to - from,
{
    if from < to {
        lemma_first_from_is(s, p, from + 1, to);
    }
}

} // verus!
