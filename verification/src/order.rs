//! What comes before what in a list of steps, and which options a command line has.

use vstd::prelude::*;

verus! {

/// Whether `a` and `b` are both steps of a plan, and `a` is done before `b`.
pub open spec fn comes_before<T>(plan: Seq<T>, a: T, b: T) -> bool {
    &&& plan.contains(a)
    &&& plan.contains(b)
    &&& forall|i: int, k: int|
        0 <= i < plan.len() && 0 <= k < plan.len() && #[trigger] plan[i] == a && #[trigger] plan[k]
            == b ==> i < k
}

/// Of two steps that are done once each, that in the earlier place comes before the
/// other.
pub proof fn lemma_comes_before<T>(plan: Seq<T>, i: int, k: int)
    requires
        plan.no_duplicates(),
        0 <= i < k < plan.len(),
    ensures
        comes_before(plan, plan[i], plan[k]),
        plan.contains(plan[i]),
        plan.contains(plan[k]),
{
    assert forall|x: int, y: int|
        0 <= x < plan.len() && 0 <= y < plan.len() && #[trigger] plan[x] == plan[i]
            && #[trigger] plan[y] == plan[k] implies x < y by {
        assert(x == i);
        assert(y == k);
    }
}

/// Whether a command line has an option with a value: the value stands directly behind
/// the name.
pub open spec fn has_option(line: Seq<Seq<char>>, name: Seq<char>, value: Seq<char>) -> bool {
    exists|i: int|
        0 <= i && i + 1 < line.len() && i % 2 == 0 && #[trigger] line[i] == name && line[i + 1]
            == value
}

/// Whether no option of a command line has a name.
pub open spec fn lacks_option(line: Seq<Seq<char>>, name: Seq<char>) -> bool {
    forall|i: int| 0 <= i < line.len() && i % 2 == 0 ==> #[trigger] line[i] != name
}

/// An option that is there is the one in its place.
pub proof fn lemma_has_option(line: Seq<Seq<char>>, i: int)
    requires
        0 <= i,
        i + 1 < line.len(),
        i % 2 == 0,
    ensures
        has_option(line, line[i], line[i + 1]),
{
}

} // verus!
