use vstd::prelude::*;

verus! {

/// The sum of a sequence of integers.
pub open spec fn sum_int(s: Seq<int>) -> int
    decreases s.len(),
{
    if s.len() == 0 {
        0
    } else {
        sum_int(s.drop_last()) + s.last()
    }
}

/// How many entries of `s` exceed `t`.
pub open spec fn count_gt(s: Seq<int>, t: int) -> int
    decreases s.len(),
{
    if s.len() == 0 {
        0
    } else {
        count_gt(s.drop_last(), t) + if s.last() > t {
            1int
        } else {
            0int
        }
    }
}

pub proof fn lemma_sum_int_push(s: Seq<int>, v: int)
    ensures
        sum_int(s.push(v)) == sum_int(s) + v,
{
    assert(s.push(v).drop_last() =~= s);
}

pub proof fn lemma_count_gt_push(s: Seq<int>, t: int, v: int)
    ensures
        count_gt(s.push(v), t) == count_gt(s, t) + if v > t {
            1int
        } else {
            0int
        },
{
    assert(s.push(v).drop_last() =~= s);
}

pub proof fn lemma_count_gt_bounds(s: Seq<int>, t: int)
    ensures
        0 <= count_gt(s, t) <= s.len(),
    decreases s.len(),
{
    if s.len() > 0 {
        lemma_count_gt_bounds(s.drop_last(), t);
    }
}

} // verus!
