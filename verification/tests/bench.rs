use cold_string::bench::random_string;
use cold_string::ColdString;

#[test]
fn random_string_keeps_to_its_range() {
    for (min, max) in [(0, 0), (0, 8), (1, 1), (3, 20), (9, 9), (100, 128)] {
        for _ in 0..50 {
            let s = random_string(min, max);
            assert!(min <= s.len() && s.len() <= max);
            assert!(s.chars().all(|c| c.is_ascii_alphanumeric()));
            let cold = ColdString::new(&s);
            assert_eq!(cold.as_str(), s);
            assert_eq!(cold.is_inline(), s.len() <= 8);
        }
    }
}

#[test]
fn random_strings_differ() {
    let first = random_string(64, 64);
    assert!((0..20).any(|_| random_string(64, 64) != first));
}

#[test]
fn random_lengths_vary_within_the_range() {
    let lengths: Vec<usize> = (0..200).map(|_| random_string(3, 10).len()).collect();
    assert!(lengths.iter().all(|&len| (3..=10).contains(&len)));
    assert!(lengths.iter().any(|&len| len != lengths[0]));
    assert_eq!(random_string(5, 5).len(), 5);
}
