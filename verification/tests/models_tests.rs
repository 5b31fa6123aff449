use word_trainer::models::{distance_to_quality, levenshtein_distance};

#[test]
fn test_levenshtein_identical() {
    assert_eq!(levenshtein_distance("hello", "hello"), 0);
}

#[test]
fn test_levenshtein_one_edit() {
    assert_eq!(levenshtein_distance("hello", "hallo"), 1);
}

#[test]
fn test_levenshtein_completely_different() {
    assert_eq!(levenshtein_distance("abc", "xyz"), 3);
}

#[test]
fn test_distance_to_quality_exact() {
    assert_eq!(distance_to_quality(0, 5), 5);
}

#[test]
fn test_distance_to_quality_close() {
    // distance=1, answer_len=5, normalized=0.2 → quality 3
    assert_eq!(distance_to_quality(1, 5), 3);
}

#[test]
fn test_distance_to_quality_far() {
    assert!(distance_to_quality(4, 5) <= 2);
}

#[test]
fn levenshtein_of_empty_strings_is_the_other_length() {
    assert_eq!(levenshtein_distance("", ""), 0);
    assert_eq!(levenshtein_distance("", "abc"), 3);
    assert_eq!(levenshtein_distance("abcd", ""), 4);
}

#[test]
fn levenshtein_counts_characters_not_bytes() {
    assert_eq!(levenshtein_distance("привет", "привед"), 1);
    assert_eq!(levenshtein_distance("мир", "мира"), 1);
}

#[test]
fn levenshtein_is_symmetric_on_examples() {
    assert_eq!(levenshtein_distance("kitten", "sitting"), 3);
    assert_eq!(levenshtein_distance("sitting", "kitten"), 3);
    assert_eq!(levenshtein_distance("flaw", "lawn"), 2);
    assert_eq!(levenshtein_distance("lawn", "flaw"), 2);
}

#[test]
fn quality_steps_by_fifths_of_the_answer() {
    assert_eq!(distance_to_quality(0, 0), 0);
    assert_eq!(distance_to_quality(3, 0), 0);
    assert_eq!(distance_to_quality(1, 10), 4);
    assert_eq!(distance_to_quality(2, 10), 3);
    assert_eq!(distance_to_quality(3, 10), 3);
    assert_eq!(distance_to_quality(4, 10), 2);
    assert_eq!(distance_to_quality(5, 10), 2);
    assert_eq!(distance_to_quality(6, 10), 1);
    assert_eq!(distance_to_quality(7, 10), 1);
    assert_eq!(distance_to_quality(8, 10), 0);
    assert_eq!(distance_to_quality(20, 10), 0);
}

#[test]
fn quality_never_rises_with_distance() {
    let mut last = 5;
    for d in 0..20 {
        let q = distance_to_quality(d, 12);
        assert!(q <= last);
        assert!(q <= 5);
        last = q;
    }
}
