use word_trainer::handlers::{Command, Failure, Key};
use word_trainer::models::{ActiveScreen, App, InputField, Word};

fn word(id: i64, en: &str, ru: &str) -> Word {
    Word {
        id,
        english: en.to_string(),
        russian: ru.to_string(),
        ease_factor_bits: 2.5f64.to_bits(),
        interval: 0,
        repetitions: 0,
        next_review: String::new(),
        created_at: String::new(),
        last_quality: None,
    }
}

fn type_text(app: &mut App, text: &str) {
    for c in text.chars() {
        assert!(matches!(app.handle_key(Key::Char(c)), Command::Nothing));
    }
}

#[test]
fn new_app_starts_on_the_main_menu() {
    let app = App::new();
    assert_eq!(app.current_screen, ActiveScreen::Main);
    assert_eq!(app.upcoming_days, 2);
    assert_eq!(app.active_field, InputField::English);
    assert_eq!(app.total_words(), 0);
    assert!(app.current_review_word().is_none());
}

#[test]
fn main_menu_keys() {
    let mut app = App::new();
    app.status_message = "old".to_string();
    assert!(matches!(app.handle_key(Key::Char('1')), Command::Nothing));
    assert_eq!(app.current_screen, ActiveScreen::Add);
    assert_eq!(app.active_field, InputField::English);
    assert_eq!(app.status_message, "");
    assert!(matches!(app.handle_key(Key::Esc), Command::Nothing));
    assert!(matches!(app.handle_key(Key::Char('2')), Command::LoadWords));
    assert_eq!(app.current_screen, ActiveScreen::Delete);
    app.handle_key(Key::Esc);
    assert!(matches!(app.handle_key(Key::Char('3')), Command::LoadWords));
    assert_eq!(app.current_screen, ActiveScreen::UpdateSearch);
    assert_eq!(app.active_field, InputField::ReviewTranslation);
    app.handle_key(Key::Esc);
    assert!(matches!(app.handle_key(Key::Char('4')), Command::LoadReviewQueue));
    assert_eq!(app.current_screen, ActiveScreen::Review);
    app.handle_key(Key::Esc);
    assert!(matches!(app.handle_key(Key::Char('5')), Command::Nothing));
    assert_eq!(app.current_screen, ActiveScreen::Import);
    assert_eq!(app.active_field, InputField::Path);
    app.handle_key(Key::Esc);
    assert!(matches!(app.handle_key(Key::Char('x')), Command::Nothing));
    assert!(!app.should_quit);
    app.handle_key(Key::Char('q'));
    assert!(app.should_quit);
}

#[test]
fn adding_a_word() {
    let mut app = App::new();
    app.refresh_words(Some(vec![word(1, "Cat", "кот")]));
    app.handle_key(Key::Char('1'));
    app.handle_key(Key::Enter);
    assert_eq!(app.status_message, "Заполни оба поля");
    assert!(app.status_is_error);

    type_text(&mut app, " ca t");
    app.handle_key(Key::Tab);
    assert_eq!(app.active_field, InputField::Russian);
    type_text(&mut app, "кошка");
    app.handle_key(Key::Enter);
    assert_eq!(app.status_message, "Слово \"cat\" или \"кошка\" уже существует");
    assert!(app.status_is_error);

    app.handle_key(Key::Tab);
    app.handle_key(Key::Backspace);
    type_text(&mut app, "dog");
    assert_eq!(app.input_english, " ca dog");
    match app.handle_key(Key::Enter) {
        Command::AddWord { english, russian } => {
            assert_eq!(english, "cadog");
            assert_eq!(russian, "кошка");
            app.word_added(&english, &russian, Some(vec![word(1, "Cat", "кот"), word(2, "cadog", "кошка")]));
        }
        other => panic!("unexpected {:?}", other),
    }
    assert_eq!(app.status_message, "Добавлено: cadog — кошка");
    assert!(!app.status_is_error);
    assert_eq!(app.total_words(), 2);
    assert_eq!(app.input_english, "");
    assert_eq!(app.input_russian, "");
}

#[test]
fn reviewing_a_correct_and_a_wrong_answer() {
    let mut app = App::new();
    app.handle_key(Key::Char('4'));
    app.refresh_review_queue(Some(vec![word(1, "hello", "привет"), word(2, "world", "мир")]));
    assert_eq!(app.words_for_review_count(), 2);
    type_text(&mut app, "при вет");
    let cmd = app.handle_key(Key::Enter);
    match cmd {
        Command::SaveReview { word, quality, distance } => {
            assert_eq!(word.id, 1);
            assert_eq!(quality, 5);
            assert_eq!(distance, 0);
            app.record_review(&word, quality, distance, 1);
        }
        other => panic!("unexpected {:?}", other),
    }
    assert_eq!(app.status_message, "Верно! (quality: 5/5) Следующее повторение через 1 дн.");
    assert!(!app.status_is_error);
    assert!(app.show_review_answer);

    assert!(matches!(app.handle_key(Key::Enter), Command::Nothing));
    assert_eq!(app.current_word_index, 1);
    assert_eq!(app.input_review, "");
    type_text(&mut app, "xyz");
    match app.handle_key(Key::Enter) {
        Command::SaveReview { word, quality, distance } => {
            // distance 3 against the 3 characters of "мир"
            assert_eq!(distance, 3);
            assert_eq!(quality, 0);
            app.record_review(&word, quality, distance, 1);
        }
        other => panic!("unexpected {:?}", other),
    }
    assert_eq!(app.status_message, "Почти! (quality: 0/5) Правильно: world — мир");
    assert!(app.status_is_error);
    assert_eq!(app.last_distance, 3);

    assert!(matches!(app.handle_key(Key::Enter), Command::FinishReviewRound));
    app.finish_review_round(Some(Vec::new()));
    assert_eq!(app.current_screen, ActiveScreen::Main);
    assert_eq!(app.status_message, "Все слова повторены!");
}

#[test]
fn review_quality_goes_by_the_answer_length_in_characters() {
    let mut app = App::new();
    app.handle_key(Key::Char('4'));
    app.refresh_review_queue(Some(vec![word(1, "hello", "привет")]));
    type_text(&mut app, "привед");
    match app.handle_key(Key::Enter) {
        // distance 1 against the 6 characters of "привет": 1/6 < 0.2
        Command::SaveReview { quality, distance, .. } => {
            assert_eq!(distance, 1);
            assert_eq!(quality, 4);
        }
        other => panic!("unexpected {:?}", other),
    }
    // an empty answer to "кот": distance 3 of 3 characters
    app.refresh_review_queue(Some(vec![word(2, "cat", "кот")]));
    app.input_review = String::new();
    match app.handle_key(Key::Enter) {
        Command::SaveReview { quality, distance, .. } => {
            assert_eq!(distance, 3);
            assert_eq!(quality, 0);
        }
        other => panic!("unexpected {:?}", other),
    }
    // "ко" for "кот": distance 1 of 3 characters, 1/3 lies in [0.2, 0.4)
    type_text(&mut app, "ко");
    match app.handle_key(Key::Enter) {
        Command::SaveReview { quality, distance, .. } => {
            assert_eq!(distance, 1);
            assert_eq!(quality, 3);
        }
        other => panic!("unexpected {:?}", other),
    }
}

#[test]
fn only_stepping_keys_need_room_to_step() {
    let mut app = App::new();
    app.handle_key(Key::Char('2'));
    app.selected = usize::MAX;
    assert!(!app.key_in_range(Key::Down));
    assert!(!app.key_in_range(Key::Char('j')));
    assert!(app.key_in_range(Key::Up));
    assert!(app.key_in_range(Key::Esc));
    app.handle_key(Key::Up);
    assert_eq!(app.selected, usize::MAX - 1);
    assert!(app.key_in_range(Key::Down));
}

#[test]
fn skipping_past_the_last_word_returns_to_the_menu() {
    let mut app = App::new();
    app.handle_key(Key::Char('4'));
    app.refresh_review_queue(Some(vec![word(1, "a", "б"), word(2, "c", "д")]));
    app.handle_key(Key::Tab);
    assert_eq!(app.current_word_index, 1);
    app.handle_key(Key::Tab);
    assert_eq!(app.current_screen, ActiveScreen::Main);
    assert_eq!(app.status_message, "Нет больше слов для повторения");
    assert!(!app.status_is_error);
}

#[test]
fn updating_through_an_exact_search() {
    let mut app = App::new();
    app.handle_key(Key::Char('3'));
    app.refresh_words(Some(vec![word(4, "House", "дом"), word(5, "mouse", "мышь")]));
    app.handle_key(Key::Enter);
    assert_eq!(app.status_message, "Введи слово для поиска");
    type_text(&mut app, "  house ");
    assert!(matches!(app.handle_key(Key::Enter), Command::Nothing));
    assert_eq!(app.current_screen, ActiveScreen::UpdateEdit);
    assert_eq!(app.input_english, "House");
    assert_eq!(app.input_russian, "дом");
    app.handle_key(Key::Tab);
    app.handle_key(Key::Backspace);
    type_text(&mut app, "мик");
    match app.handle_key(Key::Enter) {
        Command::UpdateWord { id, english, russian } => {
            assert_eq!(id, 4);
            assert_eq!(english, "House");
            assert_eq!(russian, "домик");
            app.word_updated(&english, &russian, Some(vec![word(4, "House", "домик")]));
        }
        other => panic!("unexpected {:?}", other),
    }
    assert_eq!(app.current_screen, ActiveScreen::UpdateSearch);
    assert_eq!(app.status_message, "");
    assert_eq!(app.words[0].russian, "домик");
}

#[test]
fn updating_through_a_list_of_similar_words() {
    let mut app = App::new();
    app.handle_key(Key::Char('3'));
    app.refresh_words(Some(vec![word(1, "table", "стол"), word(2, "tablet", "планшет")]));
    type_text(&mut app, "tab");
    app.handle_key(Key::Enter);
    assert_eq!(app.current_screen, ActiveScreen::Update);
    assert_eq!(app.search_results.len(), 2);
    app.handle_key(Key::Down);
    app.handle_key(Key::Char('j'));
    assert_eq!(app.selected, 1);
    app.handle_key(Key::Up);
    app.handle_key(Key::Char('k'));
    assert_eq!(app.selected, 0);
    app.handle_key(Key::Enter);
    assert_eq!(app.current_screen, ActiveScreen::UpdateEdit);
    assert_eq!(app.input_english, app.search_results[0].english);
    assert!(matches!(app.handle_key(Key::Esc), Command::LoadWords));
    assert_eq!(app.current_screen, ActiveScreen::UpdateSearch);
}

#[test]
fn a_search_that_finds_nothing_says_so() {
    let mut app = App::new();
    app.handle_key(Key::Char('3'));
    app.refresh_words(Some(vec![word(1, "table", "стол")]));
    // far in length and sharing no letter: nothing scores above zero
    type_text(&mut app, "qqqqqqqqqqqqqqq");
    app.handle_key(Key::Enter);
    assert_eq!(app.status_message, "Слово \"qqqqqqqqqqqqqqq\" не найдено");
    assert!(app.status_is_error);
    assert_eq!(app.current_screen, ActiveScreen::UpdateSearch);
}

#[test]
fn deleting_a_word() {
    let mut app = App::new();
    app.handle_key(Key::Char('2'));
    app.refresh_words(Some(vec![word(1, "a", "б"), word(2, "hello", "привет")]));
    app.handle_key(Key::Char('j'));
    app.handle_key(Key::Char('j'));
    assert_eq!(app.selected, 1);
    app.handle_key(Key::Enter);
    assert_eq!(app.current_screen, ActiveScreen::DeleteConfirm);
    assert!(matches!(app.handle_key(Key::Char('n')), Command::Nothing));
    assert_eq!(app.current_screen, ActiveScreen::Delete);
    app.handle_key(Key::Enter);
    match app.handle_key(Key::Char('Y')) {
        Command::DeleteWord { id, label } => {
            assert_eq!(id, 2);
            assert_eq!(label, "hello — привет");
            app.word_deleted(&label, Some(vec![word(1, "a", "б")]));
        }
        other => panic!("unexpected {:?}", other),
    }
    assert_eq!(app.status_message, "Удалено: hello — привет");
    assert_eq!(app.selected, 0);
    assert_eq!(app.current_screen, ActiveScreen::Delete);
}

#[test]
fn importing_a_file() {
    let mut app = App::new();
    app.handle_key(Key::Char('5'));
    app.handle_key(Key::Enter);
    assert_eq!(app.status_message, "Укажи путь к файлу");
    type_text(&mut app, " words.md ");
    match app.handle_key(Key::Enter) {
        Command::ReadImportFile { path } => assert_eq!(path, "words.md"),
        other => panic!("unexpected {:?}", other),
    }
    assert!(matches!(app.import_file_read("no words here"), Command::Nothing));
    assert_eq!(app.status_message, "Не найдено слов в файле");
    assert!(app.status_is_error);
    match app.import_file_read("- one \u{2014} один\n- two \u{2014} два") {
        Command::ImportEntries { entries } => {
            assert_eq!(entries.len(), 2);
            app.words_imported(entries.len(), Some(vec![word(1, "one", "один"), word(2, "two", "два")]));
        }
        other => panic!("unexpected {:?}", other),
    }
    assert_eq!(app.current_screen, ActiveScreen::ImportResult);
    assert_eq!(app.import_count, 2);
    assert_eq!(app.total_words(), 2);
    app.handle_key(Key::Char('x'));
    assert_eq!(app.current_screen, ActiveScreen::ImportResult);
    app.handle_key(Key::Esc);
    assert_eq!(app.current_screen, ActiveScreen::Main);
}

#[test]
fn failures_are_reported_on_the_status_line() {
    let mut app = App::new();
    app.operation_failed(Failure::Storage, "disk full");
    assert_eq!(app.status_message, "Ошибка: disk full");
    assert!(app.status_is_error);
    app.operation_failed(Failure::Import, "x");
    assert_eq!(app.status_message, "Ошибка импорта: x");
    app.operation_failed(Failure::FileRead, "no such file");
    assert_eq!(app.status_message, "Ошибка чтения файла: no such file");
}

#[test]
fn backspace_undoes_typing() {
    let mut app = App::new();
    app.handle_key(Key::Char('5'));
    type_text(&mut app, "ab");
    app.handle_key(Key::Char('c'));
    app.handle_key(Key::Backspace);
    assert_eq!(app.input_path, "ab");
    app.handle_key(Key::Backspace);
    app.handle_key(Key::Backspace);
    app.handle_key(Key::Backspace);
    assert_eq!(app.input_path, "");
}

#[test]
fn a_failed_load_keeps_the_old_lists() {
    let mut app = App::new();
    app.refresh_words(Some(vec![word(1, "a", "б")]));
    app.refresh_words(None);
    assert_eq!(app.total_words(), 1);
    app.refresh_forgotten_queue(Some(vec![word(1, "a", "б")]));
    app.refresh_upcoming(Some(vec![word(1, "a", "б"), word(2, "c", "д")]));
    assert_eq!(app.forgotten_count(), 1);
    assert_eq!(app.upcoming_count(), 2);
    app.current_word_index = 3;
    app.refresh_review_queue(None);
    assert_eq!(app.current_word_index, 3);
}
