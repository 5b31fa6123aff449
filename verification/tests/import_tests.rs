use word_trainer::import::parse_markdown;

#[test]
fn test_list_format() {
    let md = "- hello \u{2014} привет\n- world \u{2014} мир";
    let words = parse_markdown(md);
    assert_eq!(words.len(), 2);
    assert_eq!(words[0], ("hello".to_string(), "привет".to_string()));
    assert_eq!(words[1], ("world".to_string(), "мир".to_string()));
}

#[test]
fn test_table_format() {
    let md = "| english | russian |\n|---------|----------|\n| hello | привет |";
    let words = parse_markdown(md);
    assert_eq!(words.len(), 1);
    assert_eq!(words[0], ("hello".to_string(), "привет".to_string()));
}

#[test]
fn test_plain_format() {
    let md = "apple \u{2014} яблоко";
    let words = parse_markdown(md);
    assert_eq!(words.len(), 1);
    assert_eq!(words[0], ("apple".to_string(), "яблоко".to_string()));
}

#[test]
fn test_empty_lines() {
    let md = "\n\n- a \u{2014} b\n\n";
    let words = parse_markdown(md);
    assert_eq!(words.len(), 1);
}

#[test]
fn hyphen_separator_in_list_and_plain_lines() {
    let words = parse_markdown("- cat - кот\ndog - собака");
    assert_eq!(
        words,
        vec![
            ("cat".to_string(), "кот".to_string()),
            ("dog".to_string(), "собака".to_string())
        ]
    );
}

#[test]
fn em_dash_wins_over_hyphen() {
    let words = parse_markdown("- well-known - a \u{2014} b");
    assert_eq!(words, vec![("well-known - a".to_string(), "b".to_string())]);
}

#[test]
fn list_item_without_separator_gives_nothing() {
    assert!(parse_markdown("- just a note").is_empty());
    assert!(parse_markdown("- \u{2014} пусто").is_empty());
    assert!(parse_markdown("word \u{2014}   ").is_empty());
}

#[test]
fn table_headers_rules_and_short_rows_are_skipped() {
    let md = "| EN | RU |\n| English | Russian |\n| --- | --- |\n| only |\n| a | б |";
    let words = parse_markdown(md);
    assert_eq!(words, vec![("a".to_string(), "б".to_string())]);
}

#[test]
fn table_row_keeps_an_empty_translation() {
    let words = parse_markdown("| lonely |  |");
    assert_eq!(words, vec![("lonely".to_string(), "".to_string())]);
}

#[test]
fn carriage_returns_and_indentation_are_trimmed() {
    let words = parse_markdown("  - one \u{2014} один \r\n\ttwo \u{2014} два\r\n");
    assert_eq!(
        words,
        vec![
            ("one".to_string(), "один".to_string()),
            ("two".to_string(), "два".to_string())
        ]
    );
}

#[test]
fn joined_texts_give_joined_entries() {
    let a = "- a \u{2014} б";
    let b = "| c | д |";
    let mut joined = parse_markdown(a);
    joined.extend(parse_markdown(b));
    assert_eq!(parse_markdown(&format!("{}\n{}", a, b)), joined);
}

#[test]
fn lone_bar_lines_give_no_pair() {
    assert!(parse_markdown("|").is_empty());
    assert_eq!(
        parse_markdown("a \u{2014} b\n  |  \nc \u{2014} d"),
        vec![("a".to_string(), "b".to_string()), ("c".to_string(), "d".to_string())]
    );
    assert!(parse_markdown("||").is_empty());
    assert!(parse_markdown("").is_empty());
}
