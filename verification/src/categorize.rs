//! Categorisation of a measurement value against ordered clinical decision
//! limits. A value belongs to the half-open interval that is closed on the
//! left: a value exactly equal to a limit falls in the interval starting at
//! that limit.

use vstd::prelude::*;

verus! {

/// Index of the category containing `v`: the first index `i` with
/// `v < cdls[i]`, or `cdls.len()` when no limit exceeds `v`.
pub open spec fn spec_categorize(v: i64, cdls: Seq<i64>) -> int
    decreases cdls.len(),
{
    if cdls.len() == 0 {
        0
    } else if v < cdls[0] {
        0
    } else {
        1 + spec_categorize(v, cdls.drop_first())
    }
}

/// The decision limits are strictly ascending.
pub open spec fn strictly_increasing(s: Seq<i64>) -> bool {
    forall|i: int, j: int| 0 <= i < j < s.len() ==> s[i] < s[j]
}

/// Maps `value` to its category index among the intervals cut by `cdls`.
/// Total over all inputs: the result is always a valid index into a name
/// vector of length `cdls.len() + 1`.
pub fn categorize(value: i64, cdls: &Vec<i64>) -> (r: usize)
    ensures
        r == spec_categorize(value, cdls@),
        r <= cdls@.len(),
{
    let ghost s = cdls@;
    let mut i: usize = 0;
    proof {
        assert(s.skip(0) =~= s);
    }
    while i < cdls.len()
        invariant
            0 <= i <= s.len(),
            s == cdls@,
            spec_categorize(value, s) == i + spec_categorize(value, s.skip(i as int)),
        decreases s.len() - i,
    {
        if value < cdls[i] {
            proof {
                assert(s.skip(i as int)[0] == s[i as int]);
                assert(spec_categorize(value, s.skip(i as int)) == 0);
            }
            return i;
        }
        proof {
            assert(s.skip(i as int)[0] == s[i as int]);
            assert(s.skip(i as int).drop_first() =~= s.skip(i as int + 1));
        }
        i = i + 1;
    }
    proof {
        assert(s.skip(i as int) =~= Seq::<i64>::empty());
    }
    i
}

/// Law: the category index is always in range, whatever the limits and the
/// value — categorisation is a total function.
pub proof fn lemma_categorize_total(v: i64, cdls: Seq<i64>)
    ensures
        0 <= spec_categorize(v, cdls) <= cdls.len(),
    decreases cdls.len(),
{
    if cdls.len() > 0 && v >= cdls[0] {
        lemma_categorize_total(v, cdls.drop_first());
    }
}

/// Law: a value exactly equal to the limit `cdls[k]` falls in the interval
/// starting at that limit (closed on the left): its category index is `k + 1`.
pub proof fn lemma_categorize_at_boundary(v: i64, cdls: Seq<i64>, k: int)
    requires
        strictly_increasing(cdls),
        0 <= k < cdls.len(),
        v == cdls[k],
    ensures
        spec_categorize(v, cdls) == k + 1,
    decreases cdls.len(),
{
    if k == 0 {
        let rest = cdls.drop_first();
        if rest.len() > 0 {
            assert(rest[0] == cdls[1]);
            assert(v < rest[0]);
        }
        assert(spec_categorize(v, rest) == 0);
    } else {
        assert(cdls[0] < cdls[k]);
        let rest = cdls.drop_first();
        assert(strictly_increasing(rest)) by {
            assert(forall|i: int, j: int|
                0 <= i < j < rest.len() ==> rest[i] == cdls[i + 1] && rest[j] == cdls[j + 1]);
        }
        assert(rest[k - 1] == cdls[k]);
        lemma_categorize_at_boundary(v, rest, k - 1);
    }
}

} // verus!
