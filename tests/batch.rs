use fractional_period::algorithms::{PERIOD_NAIVE1, PERIOD_SMART};
use fractional_period::batch::{Batch, LengthGroup};
use fractional_period::error::InputError;
use fractional_period::input::{InputString, StringGen, StringGenFunction};
use fractional_period::statistics::{mean, ExpectedValue};

fn text(s: &str) -> InputString {
    InputString::from_text(s).unwrap()
}

#[test]
fn empty_batch_fails() {
    let batch = Batch { groups: vec![] };
    assert!(matches!(PERIOD_SMART.expected_value(&batch), Err(InputError::EmptyBatch)));
    let hollow = Batch { groups: vec![LengthGroup { length: 4, sequences: vec![] }] };
    assert!(matches!(PERIOD_NAIVE1.expected_value(&hollow), Err(InputError::EmptyBatch)));
}

#[test]
fn expected_value_of_known_sequences() {
    let batch = Batch {
        groups: vec![
            LengthGroup { length: 3, sequences: vec![text("aaa"), text("aba")] },
            LengthGroup { length: 4, sequences: vec![text("abca")] },
        ],
    };
    let e = PERIOD_SMART.expected_value(&batch).unwrap();
    assert_eq!(e, ExpectedValue { total: 6, count: 3 });
    assert_eq!(e.floor(), 2);
    assert_eq!(PERIOD_NAIVE1.expected_value(&batch).unwrap(), e);
}

#[test]
fn mean_values() {
    assert!(matches!(mean(&vec![]), Err(InputError::EmptyBatch)));
    let e = mean(&vec![1, 2, 4]).unwrap();
    assert_eq!(e, ExpectedValue { total: 7, count: 3 });
    assert_eq!(e.floor(), 2);
    let big = mean(&vec![usize::MAX, usize::MAX]).unwrap();
    assert_eq!(big.total, 2 * (usize::MAX as u128));
    assert_eq!(big.floor(), usize::MAX as u128);
}

#[test]
fn build_groups_by_first_occurrence() {
    let g = StringGen::new(StringGenFunction::CreateRandomString1, vec![b'a', b'b']).unwrap();
    let batch = Batch::build(&g, &vec![5, 3, 5, 7, 3, 5]).unwrap();
    let lengths: Vec<usize> = batch.groups.iter().map(|group| group.length).collect();
    assert_eq!(lengths, vec![5, 3, 7]);
    let sizes: Vec<usize> = batch.groups.iter().map(|group| group.sequences.len()).collect();
    assert_eq!(sizes, vec![3, 2, 1]);
    for group in batch.groups.iter() {
        for s in group.sequences.iter() {
            assert_eq!(s.len(), group.length);
        }
    }
}

#[test]
fn build_with_repetitions_counts() {
    let g = StringGen::new(StringGenFunction::CreateRandomString4, vec![b'a', b'b']).unwrap();
    let batch = Batch::build_with_repetitions(&g, &vec![4, 2, 4], 3).unwrap();
    let lengths: Vec<usize> = batch.groups.iter().map(|group| group.length).collect();
    assert_eq!(lengths, vec![4, 2]);
    let sizes: Vec<usize> = batch.groups.iter().map(|group| group.sequences.len()).collect();
    assert_eq!(sizes, vec![6, 3]);
    // minimal-defect sequences have period equal to their length
    let e = PERIOD_SMART.expected_value(&batch).unwrap();
    assert_eq!(e, ExpectedValue { total: 6 * 4 + 3 * 2, count: 9 });
}

#[test]
fn build_rejects_short_lengths() {
    let g = StringGen::new(StringGenFunction::CreateRandomString4, vec![b'a', b'b']).unwrap();
    assert!(matches!(Batch::build(&g, &vec![3, 1]), Err(InputError::InvalidLength)));
    let u = StringGen::new(StringGenFunction::CreateRandomString1, vec![b'a']).unwrap();
    assert!(matches!(Batch::build(&u, &vec![0]), Err(InputError::InvalidLength)));
}

#[test]
fn build_from_no_draws_is_empty() {
    let g = StringGen::new(StringGenFunction::CreateRandomString2, vec![b'a', b'b']).unwrap();
    let batch = Batch::build(&g, &vec![]).unwrap();
    assert!(batch.groups.is_empty());
    assert!(matches!(PERIOD_SMART.expected_value(&batch), Err(InputError::EmptyBatch)));
}
