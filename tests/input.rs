use fractional_period::error::InputError;
use fractional_period::input::{
    defective_tile_string, lowest_unused_symbol, minimal_defect_string, periodic_tile_string,
    uniform_string, InputString, StringGen, StringGenFunction,
};
use fractional_period::algorithms::{period_naive1, period_naive2, period_smart};

fn bytes(s: &InputString) -> Vec<u8> {
    s.as_slice().to_vec()
}

#[test]
fn text_construction() {
    let s = InputString::from_text("abc").unwrap();
    assert_eq!(s.len(), 3);
    assert_eq!(s.at(0), b'a');
    assert_eq!(s.at(2), b'c');
    assert_eq!(bytes(&s), b"abc".to_vec());
}

#[test]
fn non_ascii_text_is_rejected() {
    assert!(matches!(InputString::from_text("abé"), Err(InputError::InvalidEncoding)));
    assert!(matches!(InputString::from_text("日本"), Err(InputError::InvalidEncoding)));
}

#[test]
fn duplicate_alphabet_is_rejected() {
    let r = StringGen::new(StringGenFunction::CreateRandomString1, vec![b'a', b'a']);
    assert!(matches!(r, Err(InputError::InvalidAlphabet)));
}

#[test]
fn empty_alphabet_is_rejected() {
    let r = StringGen::new(StringGenFunction::CreateRandomString1, vec![]);
    assert!(matches!(r, Err(InputError::InvalidAlphabet)));
}

#[test]
fn non_ascii_alphabet_is_rejected() {
    let r = StringGen::new(StringGenFunction::CreateRandomString2, vec![b'a', 200]);
    assert!(matches!(r, Err(InputError::InvalidAlphabet)));
}

#[test]
fn minimal_defect_needs_two_symbols() {
    let r = StringGen::new(StringGenFunction::CreateRandomString4, vec![b'a']);
    assert!(matches!(r, Err(InputError::InvalidAlphabet)));
    assert!(StringGen::new(StringGenFunction::CreateRandomString4, vec![b'a', b'b']).is_ok());
}

#[test]
fn defective_tile_needs_a_free_symbol() {
    let full: Vec<u8> = (0u8..128).collect();
    let r = StringGen::new(StringGenFunction::CreateRandomString3, full.clone());
    assert!(matches!(r, Err(InputError::InvalidAlphabet)));
    // the same alphabet suits the uniform strategy
    assert!(StringGen::new(StringGenFunction::CreateRandomString1, full).is_ok());
}

#[test]
fn single_symbol_alphabet_gives_constant_sequences() {
    let g = StringGen::new(StringGenFunction::CreateRandomString1, vec![b'q']).unwrap();
    let s = g.create_random_string(20).unwrap();
    assert_eq!(bytes(&s), vec![b'q'; 20]);
    assert_eq!(period_smart(&s), 1);
}

#[test]
fn zero_length_is_rejected() {
    for f in [
        StringGenFunction::CreateRandomString1,
        StringGenFunction::CreateRandomString2,
        StringGenFunction::CreateRandomString3,
        StringGenFunction::CreateRandomString4,
    ] {
        let g = StringGen::new(f, vec![b'a', b'b']).unwrap();
        assert!(matches!(g.create_random_string(0), Err(InputError::InvalidLength)));
    }
}

#[test]
fn minimal_defect_rejects_length_one() {
    let g = StringGen::new(StringGenFunction::CreateRandomString4, vec![b'a', b'b']).unwrap();
    assert!(matches!(g.create_random_string(1), Err(InputError::InvalidLength)));
}

#[test]
fn uniform_strategy_stays_in_alphabet() {
    let g = StringGen::new(StringGenFunction::CreateRandomString1, vec![b'x', b'y', b'z']).unwrap();
    for n in 1..100usize {
        let s = g.create_random_string(n).unwrap();
        assert_eq!(s.len(), n);
        for i in 0..n {
            assert!([b'x', b'y', b'z'].contains(&s.at(i)));
        }
    }
}

#[test]
fn periodic_tile_period_at_most_tile() {
    let g = StringGen::new(StringGenFunction::CreateRandomString2, vec![b'a', b'b']).unwrap();
    for n in 1..200usize {
        let s = g.create_random_string(n).unwrap();
        assert_eq!(s.len(), n);
        let p = period_smart(&s);
        assert_eq!(p, period_naive1(&s));
        // some tile length q <= n makes s[i] == s[i % q] everywhere, and p <= q
        let q = (1..=n)
            .find(|&q| (0..n).all(|i| s.at(i) == s.at(i % q)))
            .unwrap();
        assert!(p <= q);
    }
}

#[test]
fn periodic_tile_from_draws() {
    let s = periodic_tile_string(&vec![b'a', b'b', b'c'], 8, &vec![0, 1, 2]);
    assert_eq!(bytes(&s), b"abcabcab".to_vec());
    assert_eq!(period_smart(&s), 3);
    let t = periodic_tile_string(&vec![b'a', b'b'], 5, &vec![0, 1, 0, 0]);
    assert_eq!(bytes(&t), b"abaaa".to_vec());
    assert!(period_smart(&t) <= 4);
}

#[test]
fn uniform_from_draws() {
    let s = uniform_string(&vec![b'a', b'b', b'c'], &vec![2, 0, 1, 1]);
    assert_eq!(bytes(&s), b"cabb".to_vec());
}

#[test]
fn defective_tile_from_draws() {
    let s = defective_tile_string(&vec![b'a', b'b'], 7, &vec![0, 1], 0);
    assert_eq!(bytes(&s), vec![b'a', b'b', 0, b'a', b'b', 0, b'a']);
    assert_eq!(period_smart(&s), 3);
}

#[test]
fn defective_tile_uses_lowest_free_symbol() {
    let g = StringGen::new(StringGenFunction::CreateRandomString3, vec![0, 1, b'a']).unwrap();
    for n in 1..100usize {
        let s = g.create_random_string(n).unwrap();
        assert_eq!(s.len(), n);
        let defects: Vec<usize> = (0..n).filter(|&i| s.at(i) == 2).collect();
        assert!(!defects.is_empty());
        for i in 0..n {
            assert!([0, 1, 2, b'a'].contains(&s.at(i)));
        }
        // the defect closes the tile: the tile length is the first defect's position plus one
        let q = defects[0] + 1;
        for i in 0..n {
            assert_eq!(s.at(i), s.at(i % q));
        }
    }
}

#[test]
fn lowest_unused_symbol_values() {
    assert_eq!(lowest_unused_symbol(&vec![b'a', b'b']), Some(0));
    assert_eq!(lowest_unused_symbol(&vec![0, 1, 3]), Some(2));
    let full: Vec<u8> = (0u8..128).collect();
    assert_eq!(lowest_unused_symbol(&full), None);
}

#[test]
fn minimal_defect_has_full_period() {
    let g = StringGen::new(StringGenFunction::CreateRandomString4, vec![b'a', b'b']).unwrap();
    for n in 2..120usize {
        let s = g.create_random_string(n).unwrap();
        let mut expected = vec![b'a'; n];
        expected[n - 1] = b'b';
        assert_eq!(bytes(&s), expected);
        assert_eq!(period_naive1(&s), n);
        assert_eq!(period_naive2(&s), n);
        assert_eq!(period_smart(&s), n);
    }
}

#[test]
fn minimal_defect_from_alphabet() {
    let s = minimal_defect_string(&vec![b'x', b'y', b'z'], 4);
    assert_eq!(bytes(&s), b"xxxy".to_vec());
}

#[test]
fn generator_accessors() {
    let g = StringGen::new(StringGenFunction::CreateRandomString2, vec![b'c', b'd']).unwrap();
    assert_eq!(g.function(), StringGenFunction::CreateRandomString2);
    assert_eq!(g.char_set(), &vec![b'c', b'd']);
    assert_eq!(StringGenFunction::CreateRandomString4.min_length(), 2);
    assert_eq!(StringGenFunction::CreateRandomString1.min_length(), 1);
}
