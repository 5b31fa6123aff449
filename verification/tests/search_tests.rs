use word_trainer::models::Word;
use word_trainer::search::find_words;

fn word(id: i64, en: &str, ru: &str) -> Word {
    Word {
        id,
        english: en.to_string(),
        russian: ru.to_string(),
        ease_factor_bits: 2.5f64.to_bits(),
        interval: 0,
        repetitions: 0,
        next_review: String::new(),
        created_at: String::new(),
        last_quality: None,
    }
}

fn ids(ws: &[Word]) -> Vec<i64> {
    ws.iter().map(|w| w.id).collect()
}

#[test]
fn exact_matches_in_either_language_ignoring_case() {
    let words = vec![word(1, "Hello", "привет"), word(2, "world", "мир"), word(3, "hello", "алло")];
    assert_eq!(ids(&find_words(&words, "HELLO")), vec![1, 3]);
    assert_eq!(ids(&find_words(&words, "Мир")), vec![2]);
}

#[test]
fn without_exact_match_the_most_similar_come_first() {
    let words = vec![
        word(1, "apple", "яблоко"),
        word(2, "application", "приложение"),
        word(3, "zebra", "зебра"),
        word(4, "apply", "применять"),
    ];
    // "app" is a prefix of 1, 2 and 4; the shorter words score higher on length
    let found = ids(&find_words(&words, "app"));
    assert_eq!(found[0], 1);
    assert!(found.contains(&2) && found.contains(&4));
    assert!(found.len() <= 5);
}

#[test]
fn at_most_five_similar_words() {
    let words: Vec<Word> = (0..8).map(|i| word(i, &format!("cat{}", i), "кот")).collect();
    let found = ids(&find_words(&words, "ca"));
    assert_eq!(found, vec![0, 1, 2, 3, 4]);
}

#[test]
fn nothing_similar_finds_nothing() {
    let words = vec![word(1, "dog", "собака")];
    assert!(find_words(&words, "").is_empty());
    assert!(find_words(&Vec::new(), "dog").is_empty());
}
