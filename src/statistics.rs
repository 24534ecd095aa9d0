use vstd::prelude::*;

use crate::error::InputError;

verus! {

/// The sum of a sequence of integers.
pub open spec fn sum(s: Seq<int>) -> int
    decreases s.len(),
{
    if s.len() == 0 {
        0
    } else {
        sum(s.drop_last()) + s.last()
    }
}

/// The values of `s` as integers.
pub open spec fn as_ints(s: Seq<usize>) -> Seq<int> {
    s.map_values(|v: usize| v as int)
}

/// An arithmetic mean held exactly, as a total over a count.
#[derive(Debug, Clone, Copy, PartialEq, Eq, Structural)]
pub struct ExpectedValue {
    /// The sum of the values.
    pub total: u128,
    /// How many values were summed.
    pub count: usize,
}

impl ExpectedValue {
    /// The mean rounded down.
    pub fn floor(&self) -> (r: u128)
        requires
            self.count > 0,
        ensures
            r == self.total as int / self.count as int,
    {
        self.total / (self.count as u128)
    }
}

/// A sum of `i` values below 2^64 stays below `i * 2^64`.
proof fn lemma_sum_bound(s: Seq<int>, i: int)
    requires
        0 <= i <= s.len(),
        forall|k: int| 0 <= k < s.len() ==> 0 <= #[trigger] s[k] <= usize::MAX,
    ensures
        0 <= sum(s.subrange(0, i)) <= i * (usize::MAX as int),
    decreases i,
{
    if i > 0 {
        lemma_sum_bound(s, i - 1);
        assert(s.subrange(0, i).drop_last() =~= s.subrange(0, i - 1));
    }
}

/// The arithmetic mean of `values`, as their exact total and count; fails
/// with `EmptyBatch` when there is no value.
pub fn mean(values: &Vec<usize>) -> (r: Result<ExpectedValue, InputError>)
    ensures
        r is Err <==> values@.len() == 0,
        r is Err ==> r == Err::<ExpectedValue, InputError>(InputError::EmptyBatch),
        r matches Ok(e) ==> e.total == sum(as_ints(values@)) && e.count == values@.len(),
{
    if values.len() == 0 {
        return Err(InputError::EmptyBatch);
    }
    let ghost s = as_ints(values@);
    let mut total: u128 = 0;
    let mut i: usize = 0;
    while i < values.len()
        invariant
            i <= values@.len(),
            s == as_ints(values@),
            total == sum(s.subrange(0, i as int)),
        decreases values@.len() - i,
    {
        proof {
            lemma_sum_bound(s, i as int + 1);
            assert(s.subrange(0, i as int + 1).drop_last() =~= s.subrange(0, i as int));
            assert((i as int + 1) * (usize::MAX as int) <= (usize::MAX as int) * (usize::MAX as int))
                by (nonlinear_arith)
                requires
                    i as int + 1 <= usize::MAX,
            ;
        }
        total = total + values[i] as u128;
        i = i + 1;
    }
    assert(s.subrange(0, values@.len() as int) =~= s);
    Ok(ExpectedValue { total, count: values.len() })
}

} // verus!
