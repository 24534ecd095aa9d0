use vstd::arithmetic::div_mod::lemma_mod_add_multiples_vanish;
use vstd::prelude::*;

verus! {

/// Position `j` agrees with position `j + p`.
pub open spec fn shift_match(s: Seq<u8>, p: int, j: int) -> bool {
    s[j] == s[j + p]
}

/// `p` is a period of `s`: the sequence equals itself shifted left by `p`
/// positions on the overlapping part. Every nonempty sequence has the
/// period `s.len()`.
pub open spec fn is_period(s: Seq<u8>, p: int) -> bool {
    &&& 1 <= p <= s.len()
    &&& forall|j: int| 0 <= j < s.len() - p ==> #[trigger] shift_match(s, p, j)
}

/// `p` is the smallest period of `s`: its fractional period.
pub open spec fn is_smallest_period(s: Seq<u8>, p: int) -> bool {
    &&& is_period(s, p)
    &&& forall|q: int| 1 <= q < p ==> !#[trigger] is_period(s, q)
}

/// The fractional period of a nonempty sequence.
pub open spec fn fractional_period(s: Seq<u8>) -> int {
    choose|p: int| is_smallest_period(s, p)
}

/// Position `j` of the prefix of length `k` agrees with the same position of
/// the suffix of length `k` of the prefix of length `m`.
pub open spec fn border_match(s: Seq<u8>, m: int, k: int, j: int) -> bool {
    s[j] == s[m - k + j]
}

/// `k` is the length of a proper border of the prefix of length `m` of `s`:
/// its first `k` symbols equal its last `k` symbols.
pub open spec fn is_border(s: Seq<u8>, m: int, k: int) -> bool {
    &&& 0 <= k < m <= s.len()
    &&& forall|j: int| 0 <= j < k ==> #[trigger] border_match(s, m, k, j)
}

/// `k` is the length of the longest proper border of the prefix of length `m`.
pub open spec fn is_longest_border(s: Seq<u8>, m: int, k: int) -> bool {
    &&& is_border(s, m, k)
    &&& forall|k2: int| k < k2 < m ==> !#[trigger] is_border(s, m, k2)
}

/// A border of the whole sequence of length `k` is the same thing as a period
/// of length `s.len() - k`.
pub proof fn lemma_border_iff_period(s: Seq<u8>, k: int)
    requires
        0 <= k < s.len(),
    ensures
        is_border(s, s.len() as int, k) <==> is_period(s, s.len() - k),
{
    let n = s.len() as int;
    if is_border(s, n, k) {
        assert forall|j: int| 0 <= j < n - (n - k) implies #[trigger] shift_match(s, n - k, j) by {
            assert(border_match(s, n, k, j));
        }
    }
    if is_period(s, n - k) {
        assert forall|j: int| 0 <= j < k implies #[trigger] border_match(s, n, k, j) by {
            assert(shift_match(s, n - k, j));
        }
    }
}

/// A shorter border of a prefix is a border of each longer border of it.
pub proof fn lemma_border_of_border(s: Seq<u8>, m: int, x: int, k: int)
    requires
        is_border(s, m, x),
        is_border(s, m, k),
        k < x,
    ensures
        is_border(s, x, k),
{
    assert forall|j: int| 0 <= j < k implies #[trigger] border_match(s, x, k, j) by {
        assert(border_match(s, m, k, j));
        assert(border_match(s, m, x, x - k + j));
    }
}

/// A border of a border of a prefix is a border of the prefix.
pub proof fn lemma_border_transitive(s: Seq<u8>, m: int, x: int, k: int)
    requires
        is_border(s, m, x),
        is_border(s, x, k),
    ensures
        is_border(s, m, k),
{
    assert forall|j: int| 0 <= j < k implies #[trigger] border_match(s, m, k, j) by {
        assert(border_match(s, x, k, j));
        assert(border_match(s, m, x, x - k + j));
    }
}

/// A border of the prefix of length `m + 1` that is longer than zero is a
/// border of the prefix of length `m`, extended by one matching symbol.
pub proof fn lemma_border_extension(s: Seq<u8>, m: int, k: int)
    requires
        0 <= k < m,
        m + 1 <= s.len(),
    ensures
        is_border(s, m + 1, k + 1) <==> (is_border(s, m, k) && s[k] == s[m]),
{
    if is_border(s, m + 1, k + 1) {
        assert forall|j: int| 0 <= j < k implies #[trigger] border_match(s, m, k, j) by {
            assert(border_match(s, m + 1, k + 1, j));
        }
        assert(border_match(s, m + 1, k + 1, k));
    }
    if is_border(s, m, k) && s[k] == s[m] {
        assert forall|j: int| 0 <= j < k + 1 implies #[trigger] border_match(s, m + 1, k + 1, j) by {
            if j < k {
                assert(border_match(s, m, k, j));
            }
        }
    }
}

/// The longest border of a whole sequence gives its smallest period.
pub proof fn lemma_longest_border_gives_smallest_period(s: Seq<u8>, k: int)
    requires
        is_longest_border(s, s.len() as int, k),
    ensures
        is_smallest_period(s, s.len() - k),
{
    let n = s.len() as int;
    lemma_border_iff_period(s, k);
    assert forall|q: int| 1 <= q < n - k implies !#[trigger] is_period(s, q) by {
        lemma_border_iff_period(s, n - q);
        assert(!is_border(s, n, n - q));
    }
}

/// Two smallest periods of one sequence are equal.
pub proof fn lemma_smallest_period_unique(s: Seq<u8>, p: int, q: int)
    requires
        is_smallest_period(s, p),
        is_smallest_period(s, q),
    ensures
        p == q,
{
    if p < q {
        assert(!is_period(s, p));
    } else if q < p {
        assert(!is_period(s, q));
    }
}

/// The smallest period is the fractional period.
pub proof fn lemma_smallest_period_is_fractional(s: Seq<u8>, p: int)
    requires
        is_smallest_period(s, p),
    ensures
        fractional_period(s) == p,
{
    lemma_smallest_period_unique(s, p, fractional_period(s));
}

/// Position `i` holds the symbol at position `i % q`.
pub open spec fn tile_match(s: Seq<u8>, q: int, i: int) -> bool {
    s[i] == s[i % q]
}

/// `s` repeats its first `q` symbols: each position holds the symbol at its
/// index modulo `q`.
pub open spec fn is_tiling(s: Seq<u8>, q: int) -> bool {
    &&& 1 <= q <= s.len()
    &&& forall|i: int| 0 <= i < s.len() ==> #[trigger] tile_match(s, q, i)
}

/// `n - 1` copies of `a` followed by one `b`.
pub open spec fn minimal_defect_seq(a: u8, b: u8, n: nat) -> Seq<u8> {
    Seq::new(n, |i: int| if i < n - 1 { a } else { b })
}

/// Every symbol of `s` is the same.
pub open spec fn is_constant(s: Seq<u8>) -> bool {
    forall|i: int| 0 <= i < s.len() ==> #[trigger] s[i] == s[0]
}

/// A sequence with a period has a smallest one, and it is no larger than
/// that period.
pub proof fn lemma_fractional_period_at_most(s: Seq<u8>, p: int)
    requires
        is_period(s, p),
    ensures
        is_smallest_period(s, fractional_period(s)),
        fractional_period(s) <= p,
    decreases p,
{
    if exists|q: int| 1 <= q < p && #[trigger] is_period(s, q) {
        let q = choose|q: int| 1 <= q < p && #[trigger] is_period(s, q);
        lemma_fractional_period_at_most(s, q);
    } else {
        lemma_smallest_period_is_fractional(s, p);
    }
}

/// Every nonempty sequence has a fractional period, and it lies in `[1, n]`.
pub proof fn lemma_fractional_period_bounds(s: Seq<u8>)
    requires
        s.len() >= 1,
    ensures
        is_smallest_period(s, fractional_period(s)),
        1 <= fractional_period(s) <= s.len(),
{
    assert(is_period(s, s.len() as int));
    lemma_fractional_period_at_most(s, s.len() as int);
}

/// The detectors agree: any two results that meet the contract shared by the
/// three detectors on one sequence are equal, and both are the fractional
/// period of that sequence.
pub proof fn lemma_detectors_agree(s: Seq<u8>, r1: int, r2: int)
    requires
        s.len() >= 1,
        is_smallest_period(s, r1),
        is_smallest_period(s, r2),
    ensures
        r1 == r2,
        r1 == fractional_period(s),
{
    lemma_smallest_period_unique(s, r1, r2);
    lemma_smallest_period_is_fractional(s, r1);
}

/// A nonempty sequence of one repeated symbol has fractional period 1.
pub proof fn lemma_constant_sequence_period(s: Seq<u8>)
    requires
        s.len() >= 1,
        is_constant(s),
    ensures
        is_smallest_period(s, 1),
        fractional_period(s) == 1,
{
    assert forall|j: int| 0 <= j < s.len() - 1 implies #[trigger] shift_match(s, 1, j) by {
        assert(s[j] == s[0]);
        assert(s[j + 1] == s[0]);
    }
    lemma_smallest_period_is_fractional(s, 1);
}

/// `n - 1` copies of one symbol followed by a different symbol have no period
/// shorter than `n`.
pub proof fn lemma_minimal_defect_period(a: u8, b: u8, n: nat)
    requires
        a != b,
        n >= 2,
    ensures
        is_smallest_period(minimal_defect_seq(a, b, n), n as int),
        fractional_period(minimal_defect_seq(a, b, n)) == n,
{
    let s = minimal_defect_seq(a, b, n);
    assert(is_period(s, n as int));
    assert forall|q: int| 1 <= q < n implies !#[trigger] is_period(s, q) by {
        assert(!shift_match(s, q, n - 1 - q));
    }
    lemma_smallest_period_is_fractional(s, n as int);
}

/// A sequence that repeats a tile of length `q` has `q` as a period, so its
/// longest border is at least `n - q` long and its fractional period is at
/// most `q`.
pub proof fn lemma_tiling_period(s: Seq<u8>, q: int)
    requires
        is_tiling(s, q),
    ensures
        is_period(s, q),
        is_border(s, s.len() as int, s.len() - q) || q == s.len(),
        fractional_period(s) <= q,
{
    assert forall|j: int| 0 <= j < s.len() - q implies #[trigger] shift_match(s, q, j) by {
        assert(tile_match(s, q, j));
        assert(tile_match(s, q, j + q));
        lemma_mod_add_multiples_vanish(j, q);
        assert((q + j) == (j + q));
    }
    if q < s.len() {
        lemma_border_iff_period(s, s.len() - q);
    }
    lemma_fractional_period_at_most(s, q);
}

} // verus!
