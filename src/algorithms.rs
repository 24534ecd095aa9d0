use vstd::prelude::*;

use crate::batch::{flatten_groups, Batch};
use crate::error::InputError;
use crate::input::InputString;
use crate::periodicity::{
    fractional_period, is_border, is_longest_border, is_period, is_smallest_period,
    lemma_border_extension, lemma_border_of_border, lemma_border_transitive,
    lemma_longest_border_gives_smallest_period, lemma_smallest_period_is_fractional, shift_match,
};
use crate::statistics::{as_ints, mean, sum, ExpectedValue};

verus! {

/// The first naive detector: tries each candidate period `i` from 1 upwards,
/// checks `s[j] == s[j + i]` position by position, stops at the first
/// mismatch, and returns the first candidate that passes (or the length).
pub fn period_naive1(s: &InputString) -> (r: usize)
    requires
        s@.len() >= 1,
    ensures
        1 <= r <= s@.len(),
        is_smallest_period(s@, r as int),
        r == fractional_period(s@),
{
    let n = s.len();
    let mut i: usize = 1;
    while i < n
        invariant
            1 <= i <= n,
            n == s@.len(),
            forall|q: int| 1 <= q < i ==> !#[trigger] is_period(s@, q),
        decreases n - i,
    {
        let mut j: usize = 0;
        let mut matched = true;
        while j < n - i
            invariant
                1 <= i < n,
                n == s@.len(),
                0 <= j <= n - i,
                matched ==> forall|k: int| 0 <= k < j ==> #[trigger] shift_match(s@, i as int, k),
                !matched ==> !is_period(s@, i as int),
            ensures
                matched ==> j == n - i,
            decreases n - i - j,
        {
            if s.at(j) != s.at(j + i) {
                assert(!shift_match(s@, i as int, j as int));
                matched = false;
                break;
            }
            j = j + 1;
        }
        if matched {
            proof {
                lemma_smallest_period_is_fractional(s@, i as int);
            }
            return i;
        }
        i = i + 1;
    }
    proof {
        lemma_smallest_period_is_fractional(s@, n as int);
    }
    n
}

/// The second naive detector: for each candidate period `i` from 1 upwards,
/// compares the prefix of length `n - i` with the suffix that starts at `i`
/// as whole ranges, and returns the first candidate for which they are equal
/// (or the length).
pub fn period_naive2(s: &InputString) -> (r: usize)
    requires
        s@.len() >= 1,
    ensures
        1 <= r <= s@.len(),
        is_smallest_period(s@, r as int),
        r == fractional_period(s@),
{
    let n = s.len();
    let v = s.as_slice();
    let mut i: usize = 1;
    while i < n
        invariant
            1 <= i <= n,
            n == s@.len(),
            v@ == s@,
            forall|q: int| 1 <= q < i ==> !#[trigger] is_period(s@, q),
        decreases n - i,
    {
        let prefix = vstd::slice::slice_subrange(v, 0, n - i);
        let suffix = vstd::slice::slice_subrange(v, i, n);
        let same = ranges_equal(prefix, suffix);
        proof {
            if same {
                assert forall|j: int| 0 <= j < n - i implies #[trigger] shift_match(s@, i as int, j) by {
                    assert(prefix@[j] == suffix@[j]);
                }
            } else {
                let j = choose|j: int| 0 <= j < n - i && prefix@[j] != suffix@[j];
                assert(!shift_match(s@, i as int, j));
            }
        }
        if same {
            proof {
                lemma_smallest_period_is_fractional(s@, i as int);
            }
            return i;
        }
        i = i + 1;
    }
    proof {
        lemma_smallest_period_is_fractional(s@, n as int);
    }
    n
}

/// Whole-range equality of two byte slices.
fn ranges_equal(a: &[u8], b: &[u8]) -> (r: bool)
    ensures
        r == (a@ == b@),
        !r && a@.len() == b@.len() ==> exists|j: int| 0 <= j < a@.len() && a@[j] != b@[j],
{
    if a.len() != b.len() {
        return false;
    }
    let mut j: usize = 0;
    while j < a.len()
        invariant
            a@.len() == b@.len(),
            0 <= j <= a@.len(),
            forall|k: int| 0 <= k < j ==> a@[k] == b@[k],
        decreases a@.len() - j,
    {
        if a[j] != b[j] {
            return false;
        }
        j = j + 1;
    }
    assert(a@ =~= b@);
    true
}

/// The linear-time detector: builds the border array of `s`, where entry `i`
/// is the length of the longest proper border of the prefix `s[0..=i]`, and
/// returns the length of `s` minus the last entry.
pub fn period_smart(s: &InputString) -> (r: usize)
    requires
        s@.len() >= 1,
    ensures
        1 <= r <= s@.len(),
        is_smallest_period(s@, r as int),
        r == fractional_period(s@),
{
    let size = s.len();
    let mut b: Vec<usize> = vec![0; size];
    assert(is_longest_border(s@, 1, 0));
    let mut i: usize = 1;
    while i < size
        invariant
            1 <= i <= size,
            size == s@.len(),
            b@.len() == size,
            forall|t: int| 0 <= t < i ==> is_longest_border(s@, t + 1, #[trigger] b@[t] as int),
        decreases size - i,
    {
        let mut x: usize = b[i - 1];
        while x > 0 && s.at(x) != s.at(i)
            invariant
                1 <= i < size,
                size == s@.len(),
                b@.len() == size,
                forall|t: int| 0 <= t < i ==> is_longest_border(s@, t + 1, #[trigger] b@[t] as int),
                is_border(s@, i as int, x as int),
                forall|k: int|
                    x < k < i && #[trigger] is_border(s@, i as int, k) ==> s@[k] != s@[i as int],
            decreases x,
        {
            let y = b[x - 1];
            proof {
                assert(is_longest_border(s@, x as int, y as int));
                lemma_border_transitive(s@, i as int, x as int, y as int);
                assert forall|k: int|
                    y < k < i && #[trigger] is_border(s@, i as int, k) implies s@[k] != s@[i as int] by {
                    if k < x {
                        lemma_border_of_border(s@, i as int, x as int, k);
                    }
                }
            }
            x = y;
        }
        let ghost m = i as int;
        if s.at(x) == s.at(i) {
            proof {
                lemma_border_extension(s@, m, x as int);
            }
            x = x + 1;
        }
        proof {
            assert forall|k2: int| x < k2 < m + 1 implies !#[trigger] is_border(s@, m + 1, k2) by {
                lemma_border_extension(s@, m, k2 - 1);
            }
            if x == 0 {
                lemma_border_extension(s@, m, 0);
                assert(is_border(s@, m + 1, 0));
            }
        }
        b.set(i, x);
        i = i + 1;
    }
    let max_border = b[size - 1];
    proof {
        assert(is_longest_border(s@, size as int, b@[size - 1] as int));
        lemma_longest_border_gives_smallest_period(s@, max_border as int);
        lemma_smallest_period_is_fractional(s@, size - max_border);
    }
    size - max_border
}

/// The three period detectors, each with a name and the same behaviour on
/// every nonempty sequence.
#[derive(Debug, Clone, Copy, PartialEq, Eq, Structural)]
pub enum Algorithm {
    /// Candidate periods checked position by position.
    PeriodNaive1,
    /// Candidate periods checked as whole-range equality.
    PeriodNaive2,
    /// The border-array method, linear in the length.
    PeriodSmart,
}

/// The first naive detector.
pub const PERIOD_NAIVE1: Algorithm = Algorithm::PeriodNaive1;

/// The second naive detector.
pub const PERIOD_NAIVE2: Algorithm = Algorithm::PeriodNaive2;

/// The linear-time detector.
pub const PERIOD_SMART: Algorithm = Algorithm::PeriodSmart;

/// The name under which each detector is reported.
pub open spec fn spec_name(a: Algorithm) -> Seq<char> {
    match a {
        Algorithm::PeriodNaive1 => "period-naive-1"@,
        Algorithm::PeriodNaive2 => "period-naive-2"@,
        Algorithm::PeriodSmart => "period-smart"@,
    }
}

/// The detectors in their fixed order, for comparing them on one input.
pub fn all_algorithms() -> (r: Vec<Algorithm>)
    ensures
        r@ == seq![PERIOD_NAIVE1, PERIOD_NAIVE2, PERIOD_SMART],
{
    let r = vec![PERIOD_NAIVE1, PERIOD_NAIVE2, PERIOD_SMART];
    assert(r@ =~= seq![PERIOD_NAIVE1, PERIOD_NAIVE2, PERIOD_SMART]);
    r
}

impl Algorithm {
    /// The name of this detector.
    pub fn name(&self) -> (r: &'static str)
        ensures
            r@ == spec_name(*self),
    {
        match self {
            Algorithm::PeriodNaive1 => "period-naive-1",
            Algorithm::PeriodNaive2 => "period-naive-2",
            Algorithm::PeriodSmart => "period-smart",
        }
    }

    /// Runs this detector on `s`.
    pub fn run(&self, s: &InputString) -> (r: usize)
        requires
            s@.len() >= 1,
        ensures
            r == fractional_period(s@),
            1 <= r <= s@.len(),
    {
        match self {
            Algorithm::PeriodNaive1 => period_naive1(s),
            Algorithm::PeriodNaive2 => period_naive2(s),
            Algorithm::PeriodSmart => period_smart(s),
        }
    }
}

/// The fractional periods of a list of sequences.
pub open spec fn periods_of(seqs: Seq<Seq<u8>>) -> Seq<int> {
    seqs.map_values(|s: Seq<u8>| fractional_period(s))
}

impl Algorithm {
    /// The mean period that this detector finds over all sequences of the
    /// batch, as an exact total and count; fails with `EmptyBatch` when the
    /// batch holds no sequence.
    pub fn expected_value(&self, batch: &Batch) -> (r: Result<ExpectedValue, InputError>)
        requires
            batch.all_nonempty(),
        ensures
            r is Err <==> batch.flat().len() == 0,
            r is Err ==> r == Err::<ExpectedValue, InputError>(InputError::EmptyBatch),
            r matches Ok(e) ==> e.total == sum(periods_of(batch.flat())) && e.count == batch.flat().len(),
    {
        let ghost gs = batch.groups@;
        let mut periods: Vec<usize> = Vec::new();
        let mut g: usize = 0;
        while g < batch.groups.len()
            invariant
                gs == batch.groups@,
                batch.all_nonempty(),
                g <= gs.len(),
                as_ints(periods@) == periods_of(flatten_groups(gs.subrange(0, g as int))),
            decreases gs.len() - g,
        {
            let sequences = &batch.groups[g].sequences;
            let ghost before = flatten_groups(gs.subrange(0, g as int));
            let mut k: usize = 0;
            while k < sequences.len()
                invariant
                    gs == batch.groups@,
                    batch.all_nonempty(),
                    g < gs.len(),
                    sequences@ == gs[g as int].sequences@,
                    k <= sequences@.len(),
                    as_ints(periods@) == periods_of(
                        before + sequences@.subrange(0, k as int).map_values(|s: InputString| s@),
                    ),
                decreases sequences@.len() - k,
            {
                assert(sequences@[k as int]@.len() >= 1);
                let p = self.run(&sequences[k]);
                let ghost old_periods = periods@;
                periods.push(p);
                proof {
                    let cur = before + sequences@.subrange(0, k as int).map_values(|s: InputString| s@);
                    let next = before + sequences@.subrange(0, k as int + 1).map_values(|s: InputString| s@);
                    assert(next =~= cur.push(sequences@[k as int]@));
                    assert(as_ints(periods@) =~= as_ints(old_periods).push(p as int));
                    assert(periods_of(next) =~= periods_of(cur).push(fractional_period(sequences@[k as int]@)));
                }
                k = k + 1;
            }
            proof {
                assert(gs.subrange(0, g as int + 1).drop_last() =~= gs.subrange(0, g as int));
                assert(sequences@.subrange(0, sequences@.len() as int) =~= sequences@);
            }
            g = g + 1;
        }
        proof {
            assert(gs.subrange(0, gs.len() as int) =~= gs);
        }
        mean(&periods)
    }
}

} // verus!
