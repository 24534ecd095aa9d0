use fractional_period::algorithms::{
    all_algorithms, period_naive1, period_naive2, period_smart, Algorithm, PERIOD_NAIVE1,
    PERIOD_NAIVE2, PERIOD_SMART,
};
use fractional_period::input::InputString;

/// The algorithms to be tested
const ALGORITHMS: [Algorithm; 3] = [PERIOD_NAIVE1, PERIOD_NAIVE2, PERIOD_SMART];

fn text(s: &str) -> InputString {
    InputString::from_text(s).unwrap()
}

/// Runs every detector on `input` and checks that each finds `expected`.
fn test(input: InputString, expected: usize) {
    for algorithm in ALGORITHMS.iter() {
        let actual = algorithm.run(&input.clone());
        assert_eq!(expected, actual, "{} on {:?}", algorithm.name(), input.as_slice());
    }
}

#[test]
fn test_1() {
    let input = text("abcabcab");
    let expected = 3;
    test(input, expected);
}

#[test]
fn test_2() {
    let input = text("aba");
    let expected = 2;
    test(input, expected);
}

#[test]
fn test_3() {
    let input = text("abca");
    let expected = 3;
    test(input, expected);
}

#[test]
fn test_examples() {
    let cases: [(&str, usize); 20] = [
        ("abcabcabc", 3),
        ("abcabcabca", 3),
        ("abcabcabcab", 3),
        ("abab", 2),
        ("ab", 2),
        ("abababa", 2),
        ("abc", 3),
        ("abca", 3),
        ("aaa", 1),
        ("a", 1),
        ("aaaaaaaa", 1),
        ("ababaaba", 5),
        ("ababaababa", 5),
        ("abcabcaabcabcaabc", 7),
        ("abcabcaabcabcaabcabca", 7),
        ("abcabcaabcabcaabcabcab", 17),
        ("abcabcaabcabcaabcabcabc", 17),
        ("ababaababaababaa", 5),
        ("ababaababaababaaababaababaababa", 16),
        ("abbabaabbaababbabaababbaabbabaab", 24),
    ];
    for (input, expected) in cases.iter() {
        test(text(input), *expected);
    }
}

#[test]
fn literal_scenarios() {
    let cases: [(&str, usize); 9] = [
        ("abcabcab", 3),
        ("aba", 2),
        ("abca", 3),
        ("aaa", 1),
        ("a", 1),
        ("ab", 2),
        ("abababa", 2),
        ("ababaaba", 5),
        ("abbabaabbaababbabaababbaabbabaab", 24),
    ];
    for (input, expected) in cases.iter() {
        let s = text(input);
        assert_eq!(period_naive1(&s), *expected);
        assert_eq!(period_naive2(&s), *expected);
        assert_eq!(period_smart(&s), *expected);
    }
}

#[test]
fn detectors_agree_on_many_sequences() {
    // every sequence over {a, b} of length 1 to 10
    for n in 1..=10usize {
        for bits in 0..(1u32 << n) {
            let word: String = (0..n)
                .map(|i| if bits & (1 << i) != 0 { 'b' } else { 'a' })
                .collect();
            let s = text(&word);
            let p1 = period_naive1(&s);
            let p2 = period_naive2(&s);
            let p3 = period_smart(&s);
            assert_eq!(p1, p2, "{}", word);
            assert_eq!(p1, p3, "{}", word);
            assert!(1 <= p1 && p1 <= n);
        }
    }
}

#[test]
fn constant_sequences_have_period_one() {
    for n in 1..=50usize {
        let s = text(&"z".repeat(n));
        for algorithm in ALGORITHMS.iter() {
            assert_eq!(algorithm.run(&s), 1);
        }
    }
}

#[test]
fn borderless_sequence_has_full_period() {
    let s = text("abcdefg");
    assert_eq!(period_smart(&s), 7);
    assert_eq!(period_naive1(&s), 7);
    assert_eq!(period_naive2(&s), 7);
}

#[test]
fn algorithm_names_and_registry() {
    assert_eq!(PERIOD_NAIVE1.name(), "period-naive-1");
    assert_eq!(PERIOD_NAIVE2.name(), "period-naive-2");
    assert_eq!(PERIOD_SMART.name(), "period-smart");
    let registry = all_algorithms();
    assert_eq!(registry, vec![Algorithm::PeriodNaive1, Algorithm::PeriodNaive2, Algorithm::PeriodSmart]);
}
