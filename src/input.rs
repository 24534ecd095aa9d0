use vstd::prelude::*;

use rand::Rng;
use vstd::arithmetic::div_mod::{lemma_mod_pos_bound, lemma_small_mod};

use crate::error::InputError;
use crate::periodicity::{
    fractional_period, is_period, is_tiling, lemma_minimal_defect_period, lemma_tiling_period,
    minimal_defect_seq, tile_match,
};

verus! {

/// True when every byte of `s` lies in the 7-bit ASCII range.
pub open spec fn is_ascii_bytes(s: Seq<u8>) -> bool {
    forall|i: int| 0 <= i < s.len() ==> #[trigger] s[i] < 128
}

/// An immutable sequence of ASCII bytes with indexed read access.
pub struct InputString(Vec<u8>);

impl Clone for InputString {
    fn clone(&self) -> (r: Self)
        ensures
            r@ == self@,
    {
        InputString(self.0.clone())
    }
}

impl View for InputString {
    type V = Seq<u8>;

    closed spec fn view(&self) -> Seq<u8> {
        self.0@
    }
}

impl InputString {
    /// Builds a sequence from text, one byte per character; fails with
    /// `InvalidEncoding` when a character lies outside 7-bit ASCII.
    pub fn from_text(text: &str) -> (r: Result<InputString, InputError>)
        ensures
            text.is_ascii() <==> r is Ok,
            r is Err ==> r == Err::<InputString, InputError>(InputError::InvalidEncoding),
            r matches Ok(s) ==> s@ == text@.map_values(|c: char| c as u8) && is_ascii_bytes(s@),
    {
        if text.is_ascii() {
            proof {
                broadcast use vstd::string::is_ascii_spec_bytes;
            }
            let bytes = vstd::slice::slice_to_vec(text.as_bytes());
            assert(bytes@ =~= text@.map_values(|c: char| c as u8));
            Ok(InputString(bytes))
        } else {
            Err(InputError::InvalidEncoding)
        }
    }

    /// Number of symbols in the sequence.
    pub fn len(&self) -> (r: usize)
        ensures
            r == self@.len(),
    {
        self.0.len()
    }

    /// The symbol at position `i`.
    pub fn at(&self, i: usize) -> (r: u8)
        requires
            i < self@.len(),
        ensures
            r == self@[i as int],
    {
        self.0[i]
    }

    /// The symbols as a slice, for whole-range comparisons.
    pub fn as_slice(&self) -> (r: &[u8])
        ensures
            r@ == self@,
    {
        self.0.as_slice()
    }
}

/// The strategies by which a generator fills a sequence.
#[derive(Debug, Clone, Copy, PartialEq, Eq, Structural)]
pub enum StringGenFunction {
    /// Each position is drawn uniformly from the alphabet.
    CreateRandomString1,
    /// A tile of random length `q` in `[1, n]` is drawn from the alphabet and
    /// repeated.
    CreateRandomString2,
    /// As the previous one, but the last symbol of the tile is the lowest
    /// ASCII value outside the alphabet.
    CreateRandomString3,
    /// The first symbol of the alphabet everywhere but at the last position,
    /// which holds the second symbol.
    CreateRandomString4,
}

/// `v` is an ASCII value that `a` does not hold.
pub open spec fn is_unused_symbol(a: Seq<u8>, v: u8) -> bool {
    v < 128 && !a.contains(v)
}

/// `v` is the lowest ASCII value that `a` does not hold.
pub open spec fn is_lowest_unused_symbol(a: Seq<u8>, v: u8) -> bool {
    &&& is_unused_symbol(a, v)
    &&& forall|w: u8| w < v ==> a.contains(w)
}

/// A usable alphabet: nonempty, ASCII, and without repetitions.
pub open spec fn is_valid_alphabet(a: Seq<u8>) -> bool {
    &&& a.len() >= 1
    &&& a.no_duplicates()
    &&& is_ascii_bytes(a)
}

/// What a strategy needs of its alphabet beyond validity: a free ASCII value
/// for the defect symbol, or a second symbol.
pub open spec fn suits_strategy(f: StringGenFunction, a: Seq<u8>) -> bool {
    match f {
        StringGenFunction::CreateRandomString3 => exists|v: u8| is_unused_symbol(a, v),
        StringGenFunction::CreateRandomString4 => a.len() >= 2,
        _ => true,
    }
}

/// The least length that a strategy can generate.
pub open spec fn spec_min_length(f: StringGenFunction) -> nat {
    match f {
        StringGenFunction::CreateRandomString4 => 2,
        _ => 1,
    }
}

/// Every symbol of `s` is in `a`.
pub open spec fn over_alphabet(s: Seq<u8>, a: Seq<u8>) -> bool {
    forall|i: int| 0 <= i < s.len() ==> a.contains(#[trigger] s[i])
}

/// `s` repeats a tile of length `q` drawn from `a`.
pub open spec fn is_periodic_tile(s: Seq<u8>, a: Seq<u8>, q: int) -> bool {
    &&& is_tiling(s, q)
    &&& over_alphabet(s, a)
}

/// `s` repeats a tile of length `q` whose first `q - 1` symbols are drawn
/// from `a` and whose last symbol is the lowest ASCII value outside `a`.
pub open spec fn is_defective_tile(s: Seq<u8>, a: Seq<u8>, q: int) -> bool {
    &&& is_tiling(s, q)
    &&& forall|i: int| 0 <= i < q - 1 ==> a.contains(#[trigger] s[i])
    &&& is_lowest_unused_symbol(a, s[q - 1])
}

/// `s` is a sequence of length `n` that strategy `f` can produce over `a`.
pub open spec fn could_generate(f: StringGenFunction, a: Seq<u8>, n: nat, s: Seq<u8>) -> bool {
    &&& s.len() == n
    &&& match f {
        StringGenFunction::CreateRandomString1 => over_alphabet(s, a),
        StringGenFunction::CreateRandomString2 => exists|q: int| is_periodic_tile(s, a, q),
        StringGenFunction::CreateRandomString3 => exists|q: int| is_defective_tile(s, a, q),
        StringGenFunction::CreateRandomString4 => s == minimal_defect_seq(a[0], a[1], n),
    }
}

/// Relies on rand's `thread_rng` and `Rng::gen_range`: a value drawn from
/// `0..bound`, which panics only on an empty range.
#[verifier::external_body]
fn random_below(bound: usize) -> (r: usize)
    requires
        bound > 0,
    ensures
        r < bound,
{
    rand::thread_rng().gen_range(0..bound)
}

/// `count` random indices into an alphabet of `k` symbols.
fn random_picks(count: usize, k: usize) -> (r: Vec<usize>)
    requires
        k > 0,
    ensures
        r@.len() == count,
        forall|i: int| 0 <= i < count ==> #[trigger] r@[i] < k,
{
    let mut picks: Vec<usize> = Vec::new();
    let mut i: usize = 0;
    while i < count
        invariant
            k > 0,
            i <= count,
            picks@.len() == i,
            forall|j: int| 0 <= j < i ==> #[trigger] picks@[j] < k,
        decreases count - i,
    {
        let p = random_below(k);
        picks.push(p);
        i = i + 1;
    }
    picks
}

/// Whether `a` holds `v`.
fn contains_symbol(a: &Vec<u8>, v: u8) -> (r: bool)
    ensures
        r == a@.contains(v),
{
    let mut i: usize = 0;
    while i < a.len()
        invariant
            i <= a@.len(),
            forall|j: int| 0 <= j < i ==> a@[j] != v,
        decreases a@.len() - i,
    {
        if a[i] == v {
            return true;
        }
        i = i + 1;
    }
    false
}

/// Whether some symbol occurs twice in `a`.
fn has_repetition(a: &Vec<u8>) -> (r: bool)
    ensures
        r == !a@.no_duplicates(),
{
    let mut i: usize = 0;
    while i < a.len()
        invariant
            i <= a@.len(),
            forall|x: int, y: int| 0 <= x < y < i ==> a@[x] != a@[y],
        decreases a@.len() - i,
    {
        let mut j: usize = 0;
        while j < i
            invariant
                i < a@.len(),
                j <= i,
                forall|x: int| 0 <= x < j ==> a@[x] != a@[i as int],
            decreases i - j,
        {
            if a[j] == a[i] {
                return true;
            }
            j = j + 1;
        }
        i = i + 1;
    }
    false
}

/// Whether every symbol of `a` is ASCII.
fn all_ascii(a: &Vec<u8>) -> (r: bool)
    ensures
        r == is_ascii_bytes(a@),
{
    let mut i: usize = 0;
    while i < a.len()
        invariant
            i <= a@.len(),
            forall|j: int| 0 <= j < i ==> #[trigger] a@[j] < 128,
        decreases a@.len() - i,
    {
        if a[i] >= 128 {
            return false;
        }
        i = i + 1;
    }
    true
}

/// The lowest ASCII value that `a` does not hold, if there is one.
pub fn lowest_unused_symbol(a: &Vec<u8>) -> (r: Option<u8>)
    ensures
        r matches Some(v) ==> is_lowest_unused_symbol(a@, v),
        r is None ==> forall|v: u8| !is_unused_symbol(a@, v),
{
    let mut v: u8 = 0;
    while v < 128
        invariant
            v <= 128,
            forall|w: u8| w < v ==> a@.contains(w),
        decreases 128 - v,
    {
        if !contains_symbol(a, v) {
            return Some(v);
        }
        v = v + 1;
    }
    None
}

/// The sequence whose position `i` holds `char_set[picks[i]]`: the uniform
/// strategy, given its draws.
pub fn uniform_string(char_set: &Vec<u8>, picks: &Vec<usize>) -> (r: InputString)
    requires
        forall|i: int| 0 <= i < picks@.len() ==> #[trigger] picks@[i] < char_set@.len(),
    ensures
        r@.len() == picks@.len(),
        forall|i: int| 0 <= i < picks@.len() ==> #[trigger] r@[i] == char_set@[picks@[i] as int],
{
    let mut s: Vec<u8> = Vec::new();
    let mut i: usize = 0;
    while i < picks.len()
        invariant
            i <= picks@.len(),
            s@.len() == i,
            forall|j: int| 0 <= j < picks@.len() ==> #[trigger] picks@[j] < char_set@.len(),
            forall|j: int| 0 <= j < i ==> #[trigger] s@[j] == char_set@[picks@[j] as int],
        decreases picks@.len() - i,
    {
        s.push(char_set[picks[i]]);
        i = i + 1;
    }
    InputString(s)
}

/// Extends `tile` to length `n` by copying, at each new position `i`, the
/// symbol at `i % tile.len()`.
fn repeat_tile(tile: Vec<u8>, n: usize) -> (r: Vec<u8>)
    requires
        1 <= tile@.len() <= n,
    ensures
        r@.len() == n,
        forall|i: int| 0 <= i < n ==> #[trigger] r@[i] == tile@[i % tile@.len() as int],
{
    let q = tile.len();
    let mut s = tile;
    let ghost t = s@;
    let mut i: usize = q;
    proof {
        assert forall|j: int| 0 <= j < q implies #[trigger] s@[j] == t[j % q as int] by {
            lemma_small_mod(j as nat, q as nat);
        }
    }
    while i < n
        invariant
            1 <= q <= i <= n,
            t.len() == q,
            s@.len() == i,
            forall|j: int| 0 <= j < i ==> #[trigger] s@[j] == t[j % q as int],
        decreases n - i,
    {
        let c = s[i % q];
        proof {
            lemma_mod_pos_bound(i as int, q as int);
            let k = (i % q) as int;
            lemma_small_mod(k as nat, q as nat);
            assert(s@[k] == t[k % q as int]);
        }
        s.push(c);
        i = i + 1;
    }
    s
}

/// The periodic-tile strategy, given its draws: the tile is
/// `char_set[picks[0]], ..., char_set[picks[q - 1]]` with `q = picks.len()`,
/// repeated to length `n`.
pub fn periodic_tile_string(char_set: &Vec<u8>, n: usize, picks: &Vec<usize>) -> (r: InputString)
    requires
        1 <= picks@.len() <= n,
        forall|i: int| 0 <= i < picks@.len() ==> #[trigger] picks@[i] < char_set@.len(),
    ensures
        r@.len() == n,
        forall|i: int|
            0 <= i < n ==> #[trigger] r@[i] == char_set@[picks@[i % picks@.len() as int] as int],
{
    let tile = uniform_string(char_set, picks);
    let s = repeat_tile(tile.0, n);
    proof {
        assert forall|i: int| 0 <= i < n implies #[trigger] s@[i] == char_set@[picks@[i
            % picks@.len() as int] as int] by {
            lemma_mod_pos_bound(i, picks@.len() as int);
        }
    }
    InputString(s)
}

/// The defective-tile strategy, given its draws: the tile is
/// `char_set[picks[0]], ..., char_set[picks[q - 2]], defect` with
/// `q = picks.len() + 1`, repeated to length `n`.
pub fn defective_tile_string(char_set: &Vec<u8>, n: usize, picks: &Vec<usize>, defect: u8) -> (r:
    InputString)
    requires
        picks@.len() + 1 <= n,
        forall|i: int| 0 <= i < picks@.len() ==> #[trigger] picks@[i] < char_set@.len(),
    ensures
        r@.len() == n,
        forall|i: int|
            0 <= i < n ==> #[trigger] r@[i] == if i % (picks@.len() as int + 1) < picks@.len() {
                char_set@[picks@[i % (picks@.len() as int + 1)] as int]
            } else {
                defect
            },
{
    let tile = uniform_string(char_set, picks);
    let mut t = tile.0;
    t.push(defect);
    let s = repeat_tile(t, n);
    InputString(s)
}

/// The minimal-defect strategy: `n - 1` copies of the first symbol of the
/// alphabet followed by its second symbol.
pub fn minimal_defect_string(char_set: &Vec<u8>, n: usize) -> (r: InputString)
    requires
        n >= 2,
        char_set@.len() >= 2,
    ensures
        r@ == minimal_defect_seq(char_set@[0], char_set@[1], n as nat),
{
    let mut s: Vec<u8> = vec![char_set[0]; n];
    s.set(n - 1, char_set[1]);
    assert(s@ =~= minimal_defect_seq(char_set@[0], char_set@[1], n as nat));
    InputString(s)
}

/// A uniform random sequence of length `n` over `char_set`.
fn create_random_string1(n: usize, char_set: &Vec<u8>) -> (r: InputString)
    requires
        char_set@.len() >= 1,
    ensures
        r@.len() == n,
        over_alphabet(r@, char_set@),
{
    let picks = random_picks(n, char_set.len());
    let s = uniform_string(char_set, &picks);
    proof {
        assert forall|i: int| 0 <= i < n implies char_set@.contains(#[trigger] s@[i]) by {
            assert(s@[i] == char_set@[picks@[i] as int]);
        }
    }
    s
}

/// A random tile of random length `q` in `[1, n]` over `char_set`, repeated
/// to length `n`.
fn create_random_string2(n: usize, char_set: &Vec<u8>) -> (r: InputString)
    requires
        n >= 1,
        char_set@.len() >= 1,
    ensures
        r@.len() == n,
        exists|q: int| is_periodic_tile(r@, char_set@, q),
{
    let q = random_below(n) + 1;
    let picks = random_picks(q, char_set.len());
    let s = periodic_tile_string(char_set, n, &picks);
    proof {
        assert forall|i: int| 0 <= i < n implies #[trigger] tile_match(s@, q as int, i) by {
            lemma_mod_pos_bound(i, q as int);
            lemma_small_mod((i % q as int) as nat, q as nat);
            assert(s@[i % q as int] == char_set@[picks@[(i % q as int) % q as int] as int]);
        }
        assert forall|i: int| 0 <= i < n implies char_set@.contains(#[trigger] s@[i]) by {
            lemma_mod_pos_bound(i, q as int);
            assert(s@[i] == char_set@[picks@[i % q as int] as int]);
        }
        assert(is_periodic_tile(s@, char_set@, q as int));
    }
    s
}

/// As `create_random_string2`, with the last symbol of the tile replaced by
/// the lowest ASCII value that `char_set` does not hold.
fn create_random_string3(n: usize, char_set: &Vec<u8>) -> (r: InputString)
    requires
        n >= 1,
        char_set@.len() >= 1,
        exists|v: u8| is_unused_symbol(char_set@, v),
    ensures
        r@.len() == n,
        exists|q: int| is_defective_tile(r@, char_set@, q),
{
    let defect = match lowest_unused_symbol(char_set) {
        Some(v) => v,
        None => {
            proof {
                let v = choose|v: u8| is_unused_symbol(char_set@, v);
                assert(!is_unused_symbol(char_set@, v));
            }
            0
        },
    };
    let q = random_below(n) + 1;
    let picks = random_picks(q - 1, char_set.len());
    let s = defective_tile_string(char_set, n, &picks, defect);
    proof {
        let qi = q as int;
        assert forall|i: int| 0 <= i < n implies #[trigger] tile_match(s@, qi, i) by {
            lemma_mod_pos_bound(i, qi);
            lemma_small_mod((i % qi) as nat, q as nat);
        }
        assert forall|i: int| 0 <= i < qi - 1 implies char_set@.contains(#[trigger] s@[i]) by {
            lemma_small_mod(i as nat, q as nat);
            assert(s@[i] == char_set@[picks@[i] as int]);
        }
        lemma_small_mod((qi - 1) as nat, q as nat);
        assert(s@[qi - 1] == defect);
        assert(is_defective_tile(s@, char_set@, qi));
    }
    s
}

/// The minimal-defect sequence of length `n` over `char_set`.
fn create_random_string4(n: usize, char_set: &Vec<u8>) -> (r: InputString)
    requires
        n >= 2,
        char_set@.len() >= 2,
    ensures
        r@ == minimal_defect_seq(char_set@[0], char_set@[1], n as nat),
{
    minimal_defect_string(char_set, n)
}

impl StringGenFunction {
    /// The least length that this strategy can generate.
    pub fn min_length(&self) -> (r: usize)
        ensures
            r == spec_min_length(*self),
    {
        match self {
            StringGenFunction::CreateRandomString4 => 2,
            _ => 1,
        }
    }

    /// Generates one sequence of length `n` over `char_set` by this strategy.
    fn generate(&self, n: usize, char_set: &Vec<u8>) -> (r: InputString)
        requires
            n >= spec_min_length(*self),
            is_valid_alphabet(char_set@),
            suits_strategy(*self, char_set@),
        ensures
            could_generate(*self, char_set@, n as nat, r@),
    {
        match self {
            StringGenFunction::CreateRandomString1 => create_random_string1(n, char_set),
            StringGenFunction::CreateRandomString2 => create_random_string2(n, char_set),
            StringGenFunction::CreateRandomString3 => create_random_string3(n, char_set),
            StringGenFunction::CreateRandomString4 => create_random_string4(n, char_set),
        }
    }
}

/// A generator: a strategy paired with a validated alphabet.
pub struct StringGen {
    function: StringGenFunction,
    char_set: Vec<u8>,
}

impl Clone for StringGen {
    fn clone(&self) -> (r: Self)
        ensures
            r.strategy() == self.strategy(),
            r.alphabet() == self.alphabet(),
    {
        StringGen { function: self.function, char_set: self.char_set.clone() }
    }
}

impl StringGen {
    /// The strategy of this generator.
    pub closed spec fn strategy(&self) -> StringGenFunction {
        self.function
    }

    /// The alphabet of this generator.
    pub closed spec fn alphabet(&self) -> Seq<u8> {
        self.char_set@
    }

    /// The alphabet is valid and suits the strategy.
    pub open spec fn wf(&self) -> bool {
        &&& is_valid_alphabet(self.alphabet())
        &&& suits_strategy(self.strategy(), self.alphabet())
    }

    /// Pairs a strategy with an alphabet; fails with `InvalidAlphabet` when the
    /// alphabet is empty, repeats a symbol, holds a non-ASCII symbol, has no
    /// free ASCII value for the defective-tile strategy, or has fewer than two
    /// symbols for the minimal-defect strategy.
    pub fn new(function: StringGenFunction, char_set: Vec<u8>) -> (r: Result<Self, InputError>)
        ensures
            r is Ok <==> is_valid_alphabet(char_set@) && suits_strategy(function, char_set@),
            r is Err ==> r == Err::<Self, InputError>(InputError::InvalidAlphabet),
            r matches Ok(g) ==> g.wf() && g.strategy() == function && g.alphabet() == char_set@,
    {
        if char_set.len() == 0 || has_repetition(&char_set) || !all_ascii(&char_set) {
            return Err(InputError::InvalidAlphabet);
        }
        let suits = match function {
            StringGenFunction::CreateRandomString3 => lowest_unused_symbol(&char_set).is_some(),
            StringGenFunction::CreateRandomString4 => char_set.len() >= 2,
            _ => true,
        };
        if !suits {
            return Err(InputError::InvalidAlphabet);
        }
        Ok(StringGen { function, char_set })
    }

    /// The strategy of this generator.
    pub fn function(&self) -> (r: StringGenFunction)
        ensures
            r == self.strategy(),
    {
        self.function
    }

    /// The alphabet of this generator.
    pub fn char_set(&self) -> (r: &Vec<u8>)
        ensures
            r@ == self.alphabet(),
    {
        &self.char_set
    }

    /// Generates one sequence of length `n`; fails with `InvalidLength` when
    /// `n` is zero, or below 2 for the minimal-defect strategy.
    pub fn create_random_string(&self, n: usize) -> (r: Result<InputString, InputError>)
        requires
            self.wf(),
        ensures
            r is Ok <==> n >= spec_min_length(self.strategy()),
            r is Err ==> r == Err::<InputString, InputError>(InputError::InvalidLength),
            r matches Ok(s) ==> could_generate(self.strategy(), self.alphabet(), n as nat, s@)
                && is_ascii_bytes(s@),
    {
        if n < self.function.min_length() {
            return Err(InputError::InvalidLength);
        }
        let s = self.function.generate(n, &self.char_set);
        proof {
            lemma_generated_is_ascii(self.strategy(), self.alphabet(), n as nat, s@);
        }
        Ok(s)
    }
}

/// What a strategy generates over a valid alphabet is ASCII.
pub proof fn lemma_generated_is_ascii(f: StringGenFunction, a: Seq<u8>, n: nat, s: Seq<u8>)
    requires
        is_valid_alphabet(a),
        suits_strategy(f, a),
        could_generate(f, a, n, s),
    ensures
        is_ascii_bytes(s),
{
    assert forall|i: int| 0 <= i < s.len() implies #[trigger] s[i] < 128 by {
        let x = s[i];
        match f {
            StringGenFunction::CreateRandomString3 => {
                let q = choose|q: int| is_defective_tile(s, a, q);
                assert(tile_match(s, q, i));
                lemma_mod_pos_bound(i, q);
                if i % q < q - 1 {
                    assert(a.contains(s[i % q]));
                }
            },
            StringGenFunction::CreateRandomString4 => {
                assert(x == a[0] || x == a[1]);
            },
            StringGenFunction::CreateRandomString2 => {
                let q = choose|q: int| is_periodic_tile(s, a, q);
                assert(a.contains(x));
            },
            _ => {
                assert(a.contains(x));
            },
        }
        if a.contains(x) {
            let j = choose|j: int| 0 <= j < a.len() && a[j] == x;
            assert(a[j] < 128);
        }
    }
}

/// A minimal-defect sequence of length `n >= 2` generated over a valid
/// alphabet has fractional period exactly `n`.
pub proof fn lemma_minimal_defect_generated_period(a: Seq<u8>, n: nat, s: Seq<u8>)
    requires
        is_valid_alphabet(a),
        suits_strategy(StringGenFunction::CreateRandomString4, a),
        n >= 2,
        could_generate(StringGenFunction::CreateRandomString4, a, n, s),
    ensures
        fractional_period(s) == n,
{
    assert(a[0] != a[1]);
    lemma_minimal_defect_period(a[0], a[1], n);
}

/// A periodic-tile sequence with tile length `q` has `q` as a period, so its
/// fractional period is at most `q`.
pub proof fn lemma_periodic_tile_generated_period(a: Seq<u8>, s: Seq<u8>, q: int)
    requires
        is_periodic_tile(s, a, q),
    ensures
        is_period(s, q),
        fractional_period(s) <= q,
{
    lemma_tiling_period(s, q);
}

} // verus!
