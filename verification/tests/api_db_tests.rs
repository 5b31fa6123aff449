use word_trainer::api::ApiResponse;
use word_trainer::db::has_last_quality_column;

#[test]
fn deletion_reply_names_the_word() {
    let r = ApiResponse::word_deleted(17);
    assert!(r.success);
    assert_eq!(r.message, "Word 17 deleted");
}

#[test]
fn import_reply_counts_the_words() {
    let r = ApiResponse::words_imported(3);
    assert!(r.success);
    assert_eq!(r.message, "Imported 3 words");
    assert_eq!(ApiResponse::words_imported(0).message, "Imported 0 words");
}

#[test]
fn last_quality_column_is_found_by_exact_name() {
    let cols: Vec<String> =
        ["id", "english", "last_quality"].iter().map(|s| s.to_string()).collect();
    assert!(has_last_quality_column(&cols));
    let old: Vec<String> = ["id", "english", "Last_Quality"].iter().map(|s| s.to_string()).collect();
    assert!(!has_last_quality_column(&old));
    assert!(!has_last_quality_column(&Vec::new()));
}
