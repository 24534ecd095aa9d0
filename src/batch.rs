use vstd::prelude::*;

use crate::error::InputError;
use crate::input::{could_generate, spec_min_length, InputString, StringGen};

verus! {

/// The sequences of one requested length, in the order they were generated.
pub struct LengthGroup {
    /// The length of every sequence of the group.
    pub length: usize,
    /// The sequences.
    pub sequences: Vec<InputString>,
}

/// Generated sequences grouped by length, groups in the order in which their
/// lengths were first requested.
pub struct Batch {
    /// The groups.
    pub groups: Vec<LengthGroup>,
}

/// The distinct values of `s`, in the order of their first occurrence.
pub open spec fn first_seen(s: Seq<usize>) -> Seq<usize>
    decreases s.len(),
{
    if s.len() == 0 {
        Seq::empty()
    } else if first_seen(s.drop_last()).contains(s.last()) {
        first_seen(s.drop_last())
    } else {
        first_seen(s.drop_last()).push(s.last())
    }
}

/// How many times `x` occurs in `s`.
pub open spec fn occurrences(s: Seq<usize>, x: usize) -> nat
    decreases s.len(),
{
    if s.len() == 0 {
        0
    } else {
        occurrences(s.drop_last(), x) + if s.last() == x {
            1nat
        } else {
            0nat
        }
    }
}

/// The sequences of a list of groups, one group after another.
pub open spec fn flatten_groups(gs: Seq<LengthGroup>) -> Seq<Seq<u8>>
    decreases gs.len(),
{
    if gs.len() == 0 {
        Seq::empty()
    } else {
        flatten_groups(gs.drop_last()) + gs.last().sequences@.map_values(|s: InputString| s@)
    }
}

impl Batch {
    /// All sequences of the batch, group after group.
    pub open spec fn flat(&self) -> Seq<Seq<u8>> {
        flatten_groups(self.groups@)
    }

    /// Every sequence of the batch is nonempty.
    pub open spec fn all_nonempty(&self) -> bool {
        forall|g: int, k: int|
            0 <= g < self.groups@.len() && 0 <= k < self.groups@[g].sequences@.len()
                ==> #[trigger] self.groups@[g].sequences@[k]@.len() >= 1
    }

    /// `self` is what `gen` can build from the drawn `lengths`, with
    /// `repetitions` sequences per draw: one group per distinct length in the
    /// order of first occurrence, each holding `repetitions` sequences of its
    /// length for each time that length was drawn.
    pub open spec fn built_from(&self, gen: StringGen, lengths: Seq<usize>, repetitions: nat) -> bool {
        &&& self.groups@.len() == first_seen(lengths).len()
        &&& forall|g: int|
            0 <= g < self.groups@.len() ==> {
                let group = #[trigger] self.groups@[g];
                &&& group.length == first_seen(lengths)[g]
                &&& group.sequences@.len() == occurrences(lengths, group.length) * repetitions
                &&& forall|k: int|
                    0 <= k < group.sequences@.len() ==> could_generate(
                        gen.strategy(),
                        gen.alphabet(),
                        group.length as nat,
                        #[trigger] group.sequences@[k]@,
                    )
            }
    }
}

/// Whether `v` holds `x`.
fn contains_length(v: &Vec<usize>, x: usize) -> (r: bool)
    ensures
        r == v@.contains(x),
{
    let mut i: usize = 0;
    while i < v.len()
        invariant
            i <= v@.len(),
            forall|j: int| 0 <= j < i ==> v@[j] != x,
        decreases v@.len() - i,
    {
        if v[i] == x {
            return true;
        }
        i = i + 1;
    }
    false
}

/// The distinct values of `lengths`, in the order of their first occurrence.
fn distinct_lengths(lengths: &Vec<usize>) -> (r: Vec<usize>)
    ensures
        r@ == first_seen(lengths@),
{
    let mut seen: Vec<usize> = Vec::new();
    let mut i: usize = 0;
    while i < lengths.len()
        invariant
            i <= lengths@.len(),
            seen@ == first_seen(lengths@.subrange(0, i as int)),
        decreases lengths@.len() - i,
    {
        assert(lengths@.subrange(0, i as int + 1).drop_last() =~= lengths@.subrange(0, i as int));
        if !contains_length(&seen, lengths[i]) {
            seen.push(lengths[i]);
        }
        i = i + 1;
    }
    assert(lengths@.subrange(0, lengths@.len() as int) =~= lengths@);
    seen
}

/// Whether some value of `lengths` is below `min`.
fn any_below(lengths: &Vec<usize>, min: usize) -> (r: bool)
    ensures
        r == exists|i: int| 0 <= i < lengths@.len() && lengths@[i] < min,
{
    let mut i: usize = 0;
    while i < lengths.len()
        invariant
            i <= lengths@.len(),
            forall|j: int| 0 <= j < i ==> lengths@[j] >= min,
        decreases lengths@.len() - i,
    {
        if lengths[i] < min {
            return true;
        }
        i = i + 1;
    }
    false
}

/// A value of `first_seen(s)` occurs in `s`.
proof fn lemma_first_seen_occurs(s: Seq<usize>, g: int)
    requires
        0 <= g < first_seen(s).len(),
    ensures
        s.contains(first_seen(s)[g]),
    decreases s.len(),
{
    if s.len() > 0 {
        let p = first_seen(s.drop_last());
        if g < p.len() {
            lemma_first_seen_occurs(s.drop_last(), g);
            let j = choose|j: int| 0 <= j < s.drop_last().len() && s.drop_last()[j] == p[g];
            assert(s[j] == p[g]);
        } else {
            assert(s[s.len() - 1] == first_seen(s)[g]);
        }
    }
}

/// The sequences that `gen` generates for each time `length` occurs in
/// `lengths`, `repetitions` at a time.
fn generate_group(gen: &StringGen, lengths: &Vec<usize>, length: usize, repetitions: usize) -> (r: Vec<InputString>)
    requires
        gen.wf(),
        length >= spec_min_length(gen.strategy()),
    ensures
        r@.len() == occurrences(lengths@, length) * repetitions,
        forall|k: int|
            0 <= k < r@.len() ==> could_generate(
                gen.strategy(),
                gen.alphabet(),
                length as nat,
                #[trigger] r@[k]@,
            ),
{
    let mut sequences: Vec<InputString> = Vec::new();
    let mut i: usize = 0;
    assert(occurrences(lengths@.subrange(0, 0), length) == 0);
    assert(0 * repetitions == 0);
    while i < lengths.len()
        invariant
            gen.wf(),
            length >= spec_min_length(gen.strategy()),
            i <= lengths@.len(),
            sequences@.len() == occurrences(lengths@.subrange(0, i as int), length) * repetitions,
            forall|k: int|
                0 <= k < sequences@.len() ==> could_generate(
                    gen.strategy(),
                    gen.alphabet(),
                    length as nat,
                    #[trigger] sequences@[k]@,
                ),
        decreases lengths@.len() - i,
    {
        assert(lengths@.subrange(0, i as int + 1).drop_last() =~= lengths@.subrange(0, i as int));
        if lengths[i] == length {
            let ghost before = sequences@.len();
            let mut j: usize = 0;
            while j < repetitions
                invariant
                    gen.wf(),
                    length >= spec_min_length(gen.strategy()),
                    j <= repetitions,
                    sequences@.len() == before + j,
                    forall|k: int|
                        0 <= k < sequences@.len() ==> could_generate(
                            gen.strategy(),
                            gen.alphabet(),
                            length as nat,
                            #[trigger] sequences@[k]@,
                        ),
                decreases repetitions - j,
            {
                match gen.create_random_string(length) {
                    Ok(s) => {
                        sequences.push(s);
                    },
                    Err(_) => {},
                }
                j = j + 1;
            }
            let ghost c = occurrences(lengths@.subrange(0, i as int), length);
            assert((c + 1) * repetitions == c * repetitions + repetitions) by (nonlinear_arith);
        }
        i = i + 1;
    }
    assert(lengths@.subrange(0, lengths@.len() as int) =~= lengths@);
    sequences
}

impl Batch {
    /// Generates `repetitions` sequences with `gen` for each drawn length and
    /// groups them by length; fails with `InvalidLength` when a drawn length
    /// is too short for the strategy of `gen`.
    pub fn build_with_repetitions(gen: &StringGen, lengths: &Vec<usize>, repetitions: usize) -> (r:
        Result<Batch, InputError>)
        requires
            gen.wf(),
        ensures
            r is Err <==> exists|i: int|
                0 <= i < lengths@.len() && lengths@[i] < spec_min_length(gen.strategy()),
            r is Err ==> r == Err::<Batch, InputError>(InputError::InvalidLength),
            r matches Ok(b) ==> b.built_from(*gen, lengths@, repetitions as nat) && b.all_nonempty(),
    {
        if any_below(lengths, gen.function().min_length()) {
            return Err(InputError::InvalidLength);
        }
        let distinct = distinct_lengths(lengths);
        let mut groups: Vec<LengthGroup> = Vec::new();
        let mut g: usize = 0;
        while g < distinct.len()
            invariant
                gen.wf(),
                distinct@ == first_seen(lengths@),
                forall|i: int|
                    0 <= i < lengths@.len() ==> lengths@[i] >= spec_min_length(gen.strategy()),
                g <= distinct@.len(),
                groups@.len() == g,
                forall|h: int|
                    0 <= h < g ==> {
                        let group = #[trigger] groups@[h];
                        &&& group.length == first_seen(lengths@)[h]
                        &&& group.length >= 1
                        &&& group.sequences@.len() == occurrences(lengths@, group.length)
                            * repetitions
                        &&& forall|k: int|
                            0 <= k < group.sequences@.len() ==> could_generate(
                                gen.strategy(),
                                gen.alphabet(),
                                group.length as nat,
                                #[trigger] group.sequences@[k]@,
                            )
                    },
            decreases distinct@.len() - g,
        {
            let length = distinct[g];
            proof {
                lemma_first_seen_occurs(lengths@, g as int);
            }
            let sequences = generate_group(gen, lengths, length, repetitions);
            groups.push(LengthGroup { length, sequences });
            g = g + 1;
        }
        let b = Batch { groups };
        assert forall|h: int, k: int|
            0 <= h < b.groups@.len() && 0 <= k < b.groups@[h].sequences@.len()
                implies #[trigger] b.groups@[h].sequences@[k]@.len() >= 1 by {
            assert(could_generate(gen.strategy(), gen.alphabet(), b.groups@[h].length as nat, b.groups@[h].sequences@[k]@));
        }
        Ok(b)
    }

    /// Generates one sequence with `gen` for each drawn length and groups them
    /// by length; fails with `InvalidLength` when a drawn length is too short
    /// for the strategy of `gen`.
    pub fn build(gen: &StringGen, lengths: &Vec<usize>) -> (r: Result<Batch, InputError>)
        requires
            gen.wf(),
        ensures
            r is Err <==> exists|i: int|
                0 <= i < lengths@.len() && lengths@[i] < spec_min_length(gen.strategy()),
            r is Err ==> r == Err::<Batch, InputError>(InputError::InvalidLength),
            r matches Ok(b) ==> b.built_from(*gen, lengths@, 1) && b.all_nonempty(),
    {
        Batch::build_with_repetitions(gen, lengths, 1)
    }
}

} // verus!
