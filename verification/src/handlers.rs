//! The key handling of the terminal front end, as a state machine.
//!
//! `App::handle_key` takes the state and a key and gives the next state and
//! a `Command`: the outside work (storage, files) that the key asks for. The
//! caller performs the command and hands its outcome back through the
//! matching method (`refresh_words`, `word_added`, `record_review`, ...),
//! which gives the state that follows.

use vstd::prelude::*;
use crate::import::{markdown_entries, pairs_view, parse_markdown};
use crate::models::{
    cleared, distance_to_quality, edit_distance, levenshtein_distance, quality_for,
    with_review_queue, with_words, loaded_view, ActiveScreen, App, AppView, InputField, Word,
};
use crate::search::search_results;
use crate::text::{
    chars_of, decimal, lowercase, pop_char, push_char, push_decimal, push_signed_decimal,
    push_str, remove_spaces, signed_decimal, string_from_chars, to_lowercase, trim, trim_bounds,
    without_white_space,
};

verus! {

/// A key press, as far as the front end tells keys apart.
#[derive(Clone, Copy, Debug, PartialEq, Eq, Structural)]
pub enum Key {
    Char(char),
    Enter,
    Esc,
    Tab,
    Backspace,
    Up,
    Down,
    Other,
}

/// The outside work that a key press asks for, and how its outcome comes
/// back.
#[derive(Debug)]
pub enum Command {
    /// Nothing to do.
    Nothing,
    /// Load all words; hand them to `refresh_words` (`None` if loading
    /// failed).
    LoadWords,
    /// Load the words due for review; hand them to `refresh_review_queue`.
    LoadReviewQueue,
    /// Load the words due for review; hand them to `finish_review_round`.
    FinishReviewRound,
    /// Reschedule `word` after a review of `quality` (the ease factor and the
    /// scaled interval are computed there), store it, and hand the quality,
    /// the distance and the new interval to `record_review`.
    SaveReview { word: Word, quality: u8, distance: usize },
    /// Store a new word; on success reload all words and call `word_added`,
    /// on failure call `operation_failed` with `Failure::Storage`.
    AddWord { english: String, russian: String },
    /// Change the texts of word `id`; on success reload all words and call
    /// `word_updated`, on failure `operation_failed` with `Failure::Storage`.
    UpdateWord { id: i64, english: String, russian: String },
    /// Delete word `id`; on success reload all words and call
    /// `word_deleted` with `label`, on failure `operation_failed` with
    /// `Failure::Storage`.
    DeleteWord { id: i64, label: String },
    /// Read the file at `path`; hand its text to `import_file_read`, or call
    /// `operation_failed` with `Failure::FileRead`.
    ReadImportFile { path: String },
    /// Store these (english, russian) pairs as new words; on success reload
    /// all words and call `words_imported` with their number, on failure
    /// `operation_failed` with `Failure::Import`.
    ImportEntries { entries: Vec<(String, String)> },
}

/// The mathematical value of a `Command`.
#[verifier::ext_equal]
pub enum CommandView {
    Nothing,
    LoadWords,
    LoadReviewQueue,
    FinishReviewRound,
    SaveReview { word: Word, quality: u8, distance: nat },
    AddWord { english: Seq<char>, russian: Seq<char> },
    UpdateWord { id: i64, english: Seq<char>, russian: Seq<char> },
    DeleteWord { id: i64, label: Seq<char> },
    ReadImportFile { path: Seq<char> },
    ImportEntries { entries: Seq<(Seq<char>, Seq<char>)> },
}

impl View for Command {
    type V = CommandView;

    open spec fn view(&self) -> CommandView {
        match self {
            Command::Nothing => CommandView::Nothing,
            Command::LoadWords => CommandView::LoadWords,
            Command::LoadReviewQueue => CommandView::LoadReviewQueue,
            Command::FinishReviewRound => CommandView::FinishReviewRound,
            Command::SaveReview { word, quality, distance } => CommandView::SaveReview {
                word: *word,
                quality: *quality,
                distance: *distance as nat,
            },
            Command::AddWord { english, russian } => CommandView::AddWord {
                english: english@,
                russian: russian@,
            },
            Command::UpdateWord { id, english, russian } => CommandView::UpdateWord {
                id: *id,
                english: english@,
                russian: russian@,
            },
            Command::DeleteWord { id, label } => CommandView::DeleteWord {
                id: *id,
                label: label@,
            },
            Command::ReadImportFile { path } => CommandView::ReadImportFile { path: path@ },
            Command::ImportEntries { entries } => CommandView::ImportEntries {
                entries: pairs_view(entries@),
            },
        }
    }
}

/// Which outside operation failed.
#[derive(Clone, Copy, Debug, PartialEq, Eq, Structural)]
pub enum Failure {
    /// Adding, changing or deleting a word.
    Storage,
    /// Storing imported words.
    Import,
    /// Reading the file to import.
    FileRead,
}

// ---------------------------------------------------------------------
// Status messages
// ---------------------------------------------------------------------

pub open spec fn msg_fill_both() -> Seq<char> {
    "Заполни оба поля"@
}

pub open spec fn msg_already_exists(en: Seq<char>, ru: Seq<char>) -> Seq<char> {
    "Слово \""@ + en + "\" или \""@ + ru + "\" уже существует"@
}

pub open spec fn msg_added(en: Seq<char>, ru: Seq<char>) -> Seq<char> {
    "Добавлено: "@ + en + " — "@ + ru
}

/// How a word is named in messages: `english — russian`.
pub open spec fn word_label(w: Word) -> Seq<char> {
    w.english@ + " — "@ + w.russian@
}

pub open spec fn msg_deleted(label: Seq<char>) -> Seq<char> {
    "Удалено: "@ + label
}

pub open spec fn msg_correct(quality: u8, interval: i64) -> Seq<char> {
    "Верно! (quality: "@ + decimal(quality as nat) + "/5) Следующее повторение через "@
        + signed_decimal(interval as int) + " дн."@
}

pub open spec fn msg_almost(quality: u8, w: Word) -> Seq<char> {
    "Почти! (quality: "@ + decimal(quality as nat) + "/5) Правильно: "@ + w.english@ + " — "@
        + w.russian@
}

pub open spec fn msg_all_reviewed() -> Seq<char> {
    "Все слова повторены!"@
}

pub open spec fn msg_no_more_words() -> Seq<char> {
    "Нет больше слов для повторения"@
}

pub open spec fn msg_enter_query() -> Seq<char> {
    "Введи слово для поиска"@
}

pub open spec fn msg_not_found(q: Seq<char>) -> Seq<char> {
    "Слово \""@ + q + "\" не найдено"@
}

pub open spec fn msg_enter_path() -> Seq<char> {
    "Укажи путь к файлу"@
}

pub open spec fn msg_no_words_in_file() -> Seq<char> {
    "Не найдено слов в файле"@
}

pub open spec fn msg_failure(kind: Failure, detail: Seq<char>) -> Seq<char> {
    match kind {
        Failure::Storage => "Ошибка: "@ + detail,
        Failure::Import => "Ошибка импорта: "@ + detail,
        Failure::FileRead => "Ошибка чтения файла: "@ + detail,
    }
}

// ---------------------------------------------------------------------
// The transitions
// ---------------------------------------------------------------------

/// `s` with an error shown on the status line.
pub open spec fn with_error(s: AppView, msg: Seq<char>) -> AppView {
    AppView { status_message: msg, status_is_error: true, ..s }
}

/// `s` with a non-error message on the status line.
pub open spec fn with_notice(s: AppView, msg: Seq<char>) -> AppView {
    AppView { status_message: msg, status_is_error: false, ..s }
}

/// `t` without its last character, if it has one (`String::pop`).
pub open spec fn without_last(t: Seq<char>) -> Seq<char> {
    if t.len() > 0 {
        t.drop_last()
    } else {
        t
    }
}

/// The other field of the two-field forms.
pub open spec fn toggled(f: InputField) -> InputField {
    if f == InputField::English {
        InputField::Russian
    } else {
        InputField::English
    }
}

/// `s` with `c` typed into the active field of a two-field form.
pub open spec fn typed_into_form(s: AppView, c: char) -> AppView {
    match s.active_field {
        InputField::English => AppView { input_english: s.input_english.push(c), ..s },
        InputField::Russian => AppView { input_russian: s.input_russian.push(c), ..s },
        _ => s,
    }
}

/// `s` with the last character of the active field of a two-field form
/// erased.
pub open spec fn erased_in_form(s: AppView) -> AppView {
    match s.active_field {
        InputField::English => AppView { input_english: without_last(s.input_english), ..s },
        InputField::Russian => AppView { input_russian: without_last(s.input_russian), ..s },
        _ => s,
    }
}

/// `s` back on the main menu with everything cleared.
pub open spec fn back_to_main(s: AppView) -> AppView {
    AppView { current_screen: ActiveScreen::Main, ..cleared(s) }
}

/// Whether some word has the English side `en` or the Russian side `ru`,
/// ignoring case.
pub open spec fn is_duplicate(words: Seq<Word>, en: Seq<char>, ru: Seq<char>) -> bool {
    exists|k: int| 0 <= k < words.len() && shares_a_side(#[trigger] words[k], en, ru)
}

/// Whether `w` has the English side `en` or the Russian side `ru`, ignoring
/// case.
pub open spec fn shares_a_side(w: Word, en: Seq<char>, ru: Seq<char>) -> bool {
    lowercase(w.english@) == lowercase(en) || lowercase(w.russian@) == lowercase(ru)
}

/// Whether `w` matches the lowercased query exactly on either side.
pub open spec fn matches_exactly(w: Word, query_lower: Seq<char>) -> bool {
    lowercase(w.english@) == query_lower || lowercase(w.russian@) == query_lower
}

/// The position of the first exact match in `rs`, if any.
pub open spec fn first_exact_position(rs: Seq<Word>, query_lower: Seq<char>) -> Option<int> {
    if exists|k: int| 0 <= k < rs.len() && matches_exactly(#[trigger] rs[k], query_lower) {
        Some(
            choose|k: int|
                0 <= k < rs.len() && matches_exactly(#[trigger] rs[k], query_lower) && forall|j: int|
                    0 <= j < k ==> !matches_exactly(#[trigger] rs[j], query_lower),
        )
    } else {
        None
    }
}

/// The grading of the typed answer against `w`: (quality, distance), both
/// answers compared without white space, the distance normalised by the
/// correct answer's length in characters.
pub open spec fn grade(typed: Seq<char>, w: Word) -> (u8, nat) {
    let user = without_white_space(typed);
    let correct = without_white_space(w.russian@);
    let d = edit_distance(user, correct);
    (quality_for(d, correct.len()), d)
}

/// Keys on the main menu: 1 adds a word, 2 deletes one, 3 searches for one
/// to change, 4 reviews, 5 imports a file, q quits.
pub open spec fn main_step(s: AppView, key: Key) -> (AppView, CommandView) {
    match key {
        Key::Char('1') => (
            AppView {
                current_screen: ActiveScreen::Add,
                active_field: InputField::English,
                ..cleared(s)
            },
            CommandView::Nothing,
        ),
        Key::Char('2') => (
            AppView { current_screen: ActiveScreen::Delete, selected: 0, ..cleared(s) },
            CommandView::LoadWords,
        ),
        Key::Char('3') => (
            AppView {
                current_screen: ActiveScreen::UpdateSearch,
                active_field: InputField::ReviewTranslation,
                ..cleared(s)
            },
            CommandView::LoadWords,
        ),
        Key::Char('4') => (
            AppView { current_screen: ActiveScreen::Review, current_word_index: 0, ..cleared(s) },
            CommandView::LoadReviewQueue,
        ),
        Key::Char('5') => (
            AppView {
                current_screen: ActiveScreen::Import,
                active_field: InputField::Path,
                ..cleared(s)
            },
            CommandView::Nothing,
        ),
        Key::Char('q') => (AppView { should_quit: true, ..s }, CommandView::Nothing),
        _ => (s, CommandView::Nothing),
    }
}

/// Keys while reviewing.
pub open spec fn review_step(s: AppView, key: Key) -> (AppView, CommandView) {
    let idx = s.current_word_index;
    match key {
        Key::Esc => (back_to_main(s), CommandView::Nothing),
        Key::Enter => if s.show_review_answer {
            let s1 = AppView { input_review: seq![], show_review_answer: false, ..s };
            if idx + 1 < s.review_queue.len() {
                (AppView { current_word_index: (idx + 1) as usize, ..s1 }, CommandView::Nothing)
            } else {
                (s1, CommandView::FinishReviewRound)
            }
        } else if idx < s.review_queue.len() {
            let w = s.review_queue[idx as int];
            let g = grade(s.input_review, w);
            (s, CommandView::SaveReview { word: w, quality: g.0, distance: g.1 })
        } else {
            (s, CommandView::Nothing)
        },
        Key::Tab => if idx + 1 < s.review_queue.len() {
            (
                AppView {
                    current_word_index: (idx + 1) as usize,
                    input_review: seq![],
                    show_review_answer: false,
                    ..s
                },
                CommandView::Nothing,
            )
        } else {
            (
                AppView {
                    current_screen: ActiveScreen::Main,
                    ..with_notice(s, msg_no_more_words())
                },
                CommandView::Nothing,
            )
        },
        Key::Char(c) => (AppView { input_review: s.input_review.push(c), ..s }, CommandView::Nothing),
        Key::Backspace => (
            AppView { input_review: without_last(s.input_review), ..s },
            CommandView::Nothing,
        ),
        _ => (s, CommandView::Nothing),
    }
}

/// Keys on the form that adds a word.
pub open spec fn add_step(s: AppView, key: Key) -> (AppView, CommandView) {
    match key {
        Key::Esc => (back_to_main(s), CommandView::Nothing),
        Key::Tab => (AppView { active_field: toggled(s.active_field), ..s }, CommandView::Nothing),
        Key::Enter => {
            let en = without_white_space(s.input_english);
            let ru = without_white_space(s.input_russian);
            if en.len() == 0 || ru.len() == 0 {
                (with_error(s, msg_fill_both()), CommandView::Nothing)
            } else if is_duplicate(s.words, en, ru) {
                (with_error(s, msg_already_exists(en, ru)), CommandView::Nothing)
            } else {
                (s, CommandView::AddWord { english: en, russian: ru })
            }
        },
        Key::Char(c) => (typed_into_form(s, c), CommandView::Nothing),
        Key::Backspace => (erased_in_form(s), CommandView::Nothing),
        _ => (s, CommandView::Nothing),
    }
}

/// Keys on the search screen of the update form.
pub open spec fn update_search_step(s: AppView, key: Key) -> (AppView, CommandView) {
    match key {
        Key::Esc => (back_to_main(s), CommandView::Nothing),
        Key::Enter => {
            let q = trim(s.search_query);
            if q.len() == 0 {
                (with_error(s, msg_enter_query()), CommandView::Nothing)
            } else {
                let s1 = AppView { search_results: search_results(s.words, q), ..s };
                if s1.search_results.len() == 0 {
                    (with_error(s1, msg_not_found(q)), CommandView::Nothing)
                } else {
                    match first_exact_position(s1.search_results, lowercase(q)) {
                        Some(p) => (
                            AppView {
                                input_english: s1.search_results[p].english@,
                                input_russian: s1.search_results[p].russian@,
                                active_field: InputField::English,
                                current_screen: ActiveScreen::UpdateEdit,
                                ..s1
                            },
                            CommandView::Nothing,
                        ),
                        None => (
                            AppView {
                                selected: 0,
                                current_screen: ActiveScreen::Update,
                                ..s1
                            },
                            CommandView::Nothing,
                        ),
                    }
                }
            }
        },
        Key::Char(c) => (AppView { search_query: s.search_query.push(c), ..s }, CommandView::Nothing),
        Key::Backspace => (
            AppView { search_query: without_last(s.search_query), ..s },
            CommandView::Nothing,
        ),
        _ => (s, CommandView::Nothing),
    }
}

/// `s` editing the texts of the `k`th search result.
pub open spec fn editing(s: AppView, k: int) -> AppView {
    AppView {
        input_english: s.search_results[k].english@,
        input_russian: s.search_results[k].russian@,
        active_field: InputField::English,
        current_screen: ActiveScreen::UpdateEdit,
        ..s
    }
}

/// Keys on the list of search results.
pub open spec fn update_step(s: AppView, key: Key) -> (AppView, CommandView) {
    match key {
        Key::Esc => (
            AppView { current_screen: ActiveScreen::UpdateSearch, ..cleared(s) },
            CommandView::Nothing,
        ),
        Key::Char('j') | Key::Down => if s.selected + 1 < s.search_results.len() {
            (AppView { selected: (s.selected + 1) as usize, ..s }, CommandView::Nothing)
        } else {
            (s, CommandView::Nothing)
        },
        Key::Char('k') | Key::Up => if s.selected > 0 {
            (AppView { selected: (s.selected - 1) as usize, ..s }, CommandView::Nothing)
        } else {
            (s, CommandView::Nothing)
        },
        Key::Enter => if s.selected < s.search_results.len() {
            (editing(s, s.selected as int), CommandView::Nothing)
        } else {
            (s, CommandView::Nothing)
        },
        _ => (s, CommandView::Nothing),
    }
}

/// Keys on the form that changes a word.
pub open spec fn update_edit_step(s: AppView, key: Key) -> (AppView, CommandView) {
    match key {
        Key::Esc => (
            AppView { current_screen: ActiveScreen::UpdateSearch, ..cleared(s) },
            CommandView::LoadWords,
        ),
        Key::Tab => (AppView { active_field: toggled(s.active_field), ..s }, CommandView::Nothing),
        Key::Enter => {
            let en = without_white_space(s.input_english);
            let ru = without_white_space(s.input_russian);
            if en.len() == 0 || ru.len() == 0 {
                (with_error(s, msg_fill_both()), CommandView::Nothing)
            } else if s.selected < s.search_results.len() {
                (
                    s,
                    CommandView::UpdateWord {
                        id: s.search_results[s.selected as int].id,
                        english: en,
                        russian: ru,
                    },
                )
            } else {
                (s, CommandView::Nothing)
            }
        },
        Key::Char(c) => (typed_into_form(s, c), CommandView::Nothing),
        Key::Backspace => (erased_in_form(s), CommandView::Nothing),
        _ => (s, CommandView::Nothing),
    }
}

/// Keys on the list of words to delete.
pub open spec fn delete_step(s: AppView, key: Key) -> (AppView, CommandView) {
    match key {
        Key::Esc => (back_to_main(s), CommandView::Nothing),
        Key::Char('j') | Key::Down => if s.selected + 1 < s.words.len() {
            (AppView { selected: (s.selected + 1) as usize, ..s }, CommandView::Nothing)
        } else {
            (s, CommandView::Nothing)
        },
        Key::Char('k') | Key::Up => if s.selected > 0 {
            (AppView { selected: (s.selected - 1) as usize, ..s }, CommandView::Nothing)
        } else {
            (s, CommandView::Nothing)
        },
        Key::Enter => if s.selected < s.words.len() {
            (AppView { current_screen: ActiveScreen::DeleteConfirm, ..s }, CommandView::Nothing)
        } else {
            (s, CommandView::Nothing)
        },
        _ => (s, CommandView::Nothing),
    }
}

/// Keys when asked to confirm a deletion.
pub open spec fn delete_confirm_step(s: AppView, key: Key) -> (AppView, CommandView) {
    match key {
        Key::Esc | Key::Char('n') => (
            AppView { current_screen: ActiveScreen::Delete, ..s },
            CommandView::Nothing,
        ),
        Key::Char('y') | Key::Char('Y') => if s.selected < s.words.len() {
            let w = s.words[s.selected as int];
            (s, CommandView::DeleteWord { id: w.id, label: word_label(w) })
        } else {
            (s, CommandView::Nothing)
        },
        _ => (s, CommandView::Nothing),
    }
}

/// Keys on the import screen.
pub open spec fn import_step(s: AppView, key: Key) -> (AppView, CommandView) {
    match key {
        Key::Esc => (back_to_main(s), CommandView::Nothing),
        Key::Enter => {
            let path = trim(s.input_path);
            if path.len() == 0 {
                (with_error(s, msg_enter_path()), CommandView::Nothing)
            } else {
                (s, CommandView::ReadImportFile { path })
            }
        },
        Key::Char(c) => (AppView { input_path: s.input_path.push(c), ..s }, CommandView::Nothing),
        Key::Backspace => (
            AppView { input_path: without_last(s.input_path), ..s },
            CommandView::Nothing,
        ),
        _ => (s, CommandView::Nothing),
    }
}

/// Keys on the screen that reports an import.
pub open spec fn import_result_step(s: AppView, key: Key) -> (AppView, CommandView) {
    if key == Key::Esc {
        (back_to_main(s), CommandView::Nothing)
    } else {
        (s, CommandView::Nothing)
    }
}

/// The state and command that follow a key press.
pub open spec fn key_step(s: AppView, key: Key) -> (AppView, CommandView) {
    match s.current_screen {
        ActiveScreen::Main => main_step(s, key),
        ActiveScreen::Review => review_step(s, key),
        ActiveScreen::Add => add_step(s, key),
        ActiveScreen::Update => update_step(s, key),
        ActiveScreen::UpdateSearch => update_search_step(s, key),
        ActiveScreen::UpdateEdit => update_edit_step(s, key),
        ActiveScreen::Delete => delete_step(s, key),
        ActiveScreen::DeleteConfirm => delete_confirm_step(s, key),
        ActiveScreen::Import => import_step(s, key),
        ActiveScreen::ImportResult => import_result_step(s, key),
        ActiveScreen::Forgot | ActiveScreen::Upcoming => (s, CommandView::Nothing),
    }
}

/// After the review queue is reloaded at the end of a round: the new round
/// starts, or, with nothing left to review, the trainer says so and goes
/// back to the menu.
pub open spec fn after_review_round(s: AppView, loaded: Option<Seq<Word>>) -> AppView {
    let s1 = with_review_queue(s, loaded);
    if s1.review_queue.len() == 0 {
        AppView { current_screen: ActiveScreen::Main, ..with_notice(s1, msg_all_reviewed()) }
    } else {
        s1
    }
}

/// After a review of `w` was graded and stored: the grade is shown, with
/// praise and the next interval for a pass, and the correct answer
/// otherwise.
pub open spec fn after_review_saved(
    s: AppView,
    w: Word,
    quality: u8,
    distance: usize,
    interval: i64,
) -> AppView {
    let s1 = AppView {
        last_quality: quality,
        last_distance: distance,
        last_next_interval: interval,
        ..s
    };
    let s2 = if quality >= 3 {
        with_notice(s1, msg_correct(quality, interval))
    } else {
        with_error(s1, msg_almost(quality, w))
    };
    AppView { show_review_answer: true, ..s2 }
}

/// After a word was added: the trainer says so, shows the reloaded words,
/// and empties the form.
pub open spec fn after_word_added(
    s: AppView,
    en: Seq<char>,
    ru: Seq<char>,
    loaded: Option<Seq<Word>>,
) -> AppView {
    let s1 = with_words(with_notice(s, msg_added(en, ru)), loaded);
    AppView { input_english: seq![], input_russian: seq![], ..s1 }
}

/// After a word was changed: back to the search with everything cleared.
pub open spec fn after_word_updated(s: AppView, loaded: Option<Seq<Word>>) -> AppView {
    cleared(AppView { current_screen: ActiveScreen::UpdateSearch, ..with_words(s, loaded) })
}

/// After a word was deleted: the trainer says so, shows the reloaded words,
/// keeps the selection inside the list, and returns to it.
pub open spec fn after_word_deleted(
    s: AppView,
    label: Seq<char>,
    loaded: Option<Seq<Word>>,
) -> AppView {
    let s1 = with_words(with_notice(s, msg_deleted(label)), loaded);
    let s2 = if s1.selected >= s1.words.len() && s1.selected > 0 {
        AppView { selected: (s1.selected - 1) as usize, ..s1 }
    } else {
        s1
    };
    AppView { current_screen: ActiveScreen::Delete, ..s2 }
}

/// After the file to import was read: its entries are to be stored, unless
/// it has none.
pub open spec fn after_file_read(s: AppView, content: Seq<char>) -> (AppView, CommandView) {
    let entries = markdown_entries(content);
    if entries.len() == 0 {
        (with_error(s, msg_no_words_in_file()), CommandView::Nothing)
    } else {
        (s, CommandView::ImportEntries { entries })
    }
}

/// After `count` words were imported: the result screen, with the reloaded
/// words.
pub open spec fn after_import(s: AppView, count: usize, loaded: Option<Seq<Word>>) -> AppView {
    AppView {
        current_screen: ActiveScreen::ImportResult,
        ..with_words(AppView { import_count: count, ..s }, loaded)
    }
}

/// The counters that keys move stay below the largest `usize`.
pub open spec fn positions_in_range(s: AppView) -> bool {
    s.selected < usize::MAX && s.current_word_index < usize::MAX
}

/// Whether `key` on `s` can step a position forward without passing the
/// largest `usize`: only moving on in a review and moving down a list add
/// one to a position.
pub open spec fn key_in_range(s: AppView, key: Key) -> bool {
    &&& s.current_screen == ActiveScreen::Review && (key == Key::Tab || (key == Key::Enter
        && s.show_review_answer)) ==> s.current_word_index < usize::MAX
    &&& (s.current_screen == ActiveScreen::Update || s.current_screen == ActiveScreen::Delete) && (
    key == Key::Down || key == Key::Char('j')) ==> s.selected < usize::MAX
}

// ---------------------------------------------------------------------
// Executable handlers
// ---------------------------------------------------------------------

fn literal(s: &str) -> (r: String)
    ensures
        r@ == s@,
{
    String::from_str(s)
}

/// The text of `s` without leading and trailing white space.
fn trimmed(s: &String) -> (r: String)
    ensures
        r@ == trim(s@),
{
    let v = chars_of(s.as_str());
    let (a, b) = trim_bounds(&v, 0, v.len());
    assert(v@.subrange(0, v@.len() as int) =~= v@);
    string_from_chars(&v, a, b)
}

/// Whether `en` or `ru` is already a side of some word, ignoring case.
fn has_duplicate(words: &Vec<Word>, en: &String, ru: &String) -> (b: bool)
    ensures
        b == is_duplicate(words@, en@, ru@),
{
    let en_lower = to_lowercase(en.as_str());
    let ru_lower = to_lowercase(ru.as_str());
    let mut i: usize = 0;
    while i < words.len()
        invariant
            i <= words@.len(),
            en_lower@ == lowercase(en@),
            ru_lower@ == lowercase(ru@),
            forall|k: int| 0 <= k < i ==> !shares_a_side(#[trigger] words@[k], en@, ru@),
        decreases words@.len() - i,
    {
        let w_en = to_lowercase(words[i].english.as_str());
        let w_ru = to_lowercase(words[i].russian.as_str());
        if w_en == en_lower || w_ru == ru_lower {
            return true;
        }
        assert(!shares_a_side(words@[i as int], en@, ru@));
        i = i + 1;
    }
    false
}

/// The position of the first exact match of `query_lower` in `rs`.
fn first_exact(rs: &Vec<Word>, query_lower: &String) -> (r: Option<usize>)
    ensures
        match r {
            Some(p) => first_exact_position(rs@, query_lower@) == Some(p as int) && p < rs@.len(),
            None => first_exact_position(rs@, query_lower@) is None,
        },
{
    let mut i: usize = 0;
    while i < rs.len()
        invariant
            i <= rs@.len(),
            forall|k: int| 0 <= k < i ==> !matches_exactly(#[trigger] rs@[k], query_lower@),
        decreases rs@.len() - i,
    {
        let en = to_lowercase(rs[i].english.as_str());
        let ru = to_lowercase(rs[i].russian.as_str());
        if en == *query_lower || ru == *query_lower {
            proof {
                let ql = query_lower@;
                assert(matches_exactly(rs@[i as int], ql));
                let k = choose|k: int|
                    0 <= k < rs@.len() && matches_exactly(#[trigger] rs@[k], ql) && forall|j: int|
                        0 <= j < k ==> !matches_exactly(#[trigger] rs@[j], ql);
                assert(k == i) by {
                    if k < i {
                    } else if k > i {
                        assert(!matches_exactly(rs@[i as int], ql));
                    }
                }
            }
            return Some(i);
        }
        i = i + 1;
    }
    None
}

fn message_already_exists(en: &String, ru: &String) -> (m: String)
    ensures
        m@ == msg_already_exists(en@, ru@),
{
    let mut m = literal("Слово \"");
    push_str(&mut m, en.as_str());
    push_str(&mut m, "\" или \"");
    push_str(&mut m, ru.as_str());
    push_str(&mut m, "\" уже существует");
    m
}

fn message_not_found(q: &String) -> (m: String)
    ensures
        m@ == msg_not_found(q@),
{
    let mut m = literal("Слово \"");
    push_str(&mut m, q.as_str());
    push_str(&mut m, "\" не найдено");
    m
}

fn pair_text(prefix: &str, en: &String, ru: &String) -> (m: String)
    ensures
        m@ == prefix@ + en@ + " — "@ + ru@,
{
    let mut m = literal(prefix);
    push_str(&mut m, en.as_str());
    push_str(&mut m, " — ");
    push_str(&mut m, ru.as_str());
    m
}

fn label_of(w: &Word) -> (m: String)
    ensures
        m@ == word_label(*w),
{
    let mut m = w.english.clone();
    push_str(&mut m, " — ");
    push_str(&mut m, w.russian.as_str());
    m
}

impl App {
    fn show_error(&mut self, msg: String)
        ensures
            final(self)@ == with_error(old(self)@, msg@),
    {
        self.status_message = msg;
        self.status_is_error = true;
    }

    fn show_notice(&mut self, msg: String)
        ensures
            final(self)@ == with_notice(old(self)@, msg@),
    {
        self.status_message = msg;
        self.status_is_error = false;
    }

    fn type_into_form(&mut self, c: char)
        ensures
            final(self)@ == typed_into_form(old(self)@, c),
    {
        match self.active_field {
            InputField::English => push_char(&mut self.input_english, c),
            InputField::Russian => push_char(&mut self.input_russian, c),
            _ => {},
        }
    }

    fn erase_in_form(&mut self)
        ensures
            final(self)@ == erased_in_form(old(self)@),
    {
        match self.active_field {
            InputField::English => {
                pop_char(&mut self.input_english);
            },
            InputField::Russian => {
                pop_char(&mut self.input_russian);
            },
            _ => {},
        }
    }

    fn go_to_main(&mut self)
        ensures
            final(self)@ == back_to_main(old(self)@),
    {
        self.clear_inputs();
        self.current_screen = ActiveScreen::Main;
    }

    fn handle_main(&mut self, key: Key) -> (cmd: Command)
        ensures
            (final(self)@, cmd@) == main_step(old(self)@, key),
    {
        match key {
            Key::Char('1') => {
                self.clear_inputs();
                self.current_screen = ActiveScreen::Add;
                self.active_field = InputField::English;
                Command::Nothing
            },
            Key::Char('2') => {
                self.clear_inputs();
                self.current_screen = ActiveScreen::Delete;
                self.selected = 0;
                Command::LoadWords
            },
            Key::Char('3') => {
                self.clear_inputs();
                self.current_screen = ActiveScreen::UpdateSearch;
                self.active_field = InputField::ReviewTranslation;
                Command::LoadWords
            },
            Key::Char('4') => {
                self.clear_inputs();
                self.current_screen = ActiveScreen::Review;
                self.current_word_index = 0;
                Command::LoadReviewQueue
            },
            Key::Char('5') => {
                self.clear_inputs();
                self.current_screen = ActiveScreen::Import;
                self.active_field = InputField::Path;
                Command::Nothing
            },
            Key::Char('q') => {
                self.should_quit = true;
                Command::Nothing
            },
            _ => Command::Nothing,
        }
    }

    fn handle_review(&mut self, key: Key) -> (cmd: Command)
        requires
            old(self).current_screen == ActiveScreen::Review,
            key_in_range(old(self)@, key),
        ensures
            (final(self)@, cmd@) == review_step(old(self)@, key),
    {
        match key {
            Key::Esc => {
                self.go_to_main();
                Command::Nothing
            },
            Key::Enter => {
                if self.show_review_answer {
                    self.input_review = String::new();
                    self.show_review_answer = false;
                    if self.current_word_index + 1 < self.review_queue.len() {
                        self.current_word_index = self.current_word_index + 1;
                        Command::Nothing
                    } else {
                        Command::FinishReviewRound
                    }
                } else if self.current_word_index < self.review_queue.len() {
                    let word = self.review_queue[self.current_word_index].copy();
                    let user_answer = remove_spaces(self.input_review.as_str());
                    let correct_answer = remove_spaces(word.russian.as_str());
                    let distance = levenshtein_distance(
                        user_answer.as_str(),
                        correct_answer.as_str(),
                    );
                    let answer_len = chars_of(correct_answer.as_str()).len();
                    let quality = distance_to_quality(distance, answer_len);
                    Command::SaveReview { word, quality, distance }
                } else {
                    Command::Nothing
                }
            },
            Key::Tab => {
                if self.current_word_index + 1 < self.review_queue.len() {
                    self.current_word_index = self.current_word_index + 1;
                    self.input_review = String::new();
                    self.show_review_answer = false;
                } else {
                    self.show_notice(literal("Нет больше слов для повторения"));
                    self.current_screen = ActiveScreen::Main;
                }
                Command::Nothing
            },
            Key::Char(c) => {
                push_char(&mut self.input_review, c);
                Command::Nothing
            },
            Key::Backspace => {
                pop_char(&mut self.input_review);
                Command::Nothing
            },
            _ => Command::Nothing,
        }
    }

    fn handle_add(&mut self, key: Key) -> (cmd: Command)
        ensures
            (final(self)@, cmd@) == add_step(old(self)@, key),
    {
        match key {
            Key::Esc => {
                self.go_to_main();
                Command::Nothing
            },
            Key::Tab => {
                self.active_field = match self.active_field {
                    InputField::English => InputField::Russian,
                    _ => InputField::English,
                };
                Command::Nothing
            },
            Key::Enter => {
                let english = remove_spaces(self.input_english.as_str());
                let russian = remove_spaces(self.input_russian.as_str());
                if english.as_str().is_empty() || russian.as_str().is_empty() {
                    self.show_error(literal("Заполни оба поля"));
                    return Command::Nothing;
                }
                if has_duplicate(&self.words, &english, &russian) {
                    self.show_error(message_already_exists(&english, &russian));
                    return Command::Nothing;
                }
                Command::AddWord { english, russian }
            },
            Key::Char(c) => {
                self.type_into_form(c);
                Command::Nothing
            },
            Key::Backspace => {
                self.erase_in_form();
                Command::Nothing
            },
            _ => Command::Nothing,
        }
    }

    fn handle_update_search(&mut self, key: Key) -> (cmd: Command)
        ensures
            (final(self)@, cmd@) == update_search_step(old(self)@, key),
    {
        match key {
            Key::Esc => {
                self.go_to_main();
                Command::Nothing
            },
            Key::Enter => {
                let query = trimmed(&self.search_query);
                if query.as_str().is_empty() {
                    self.show_error(literal("Введи слово для поиска"));
                    return Command::Nothing;
                }
                self.search_words(query.as_str());
                if self.search_results.len() == 0 {
                    self.show_error(message_not_found(&query));
                    return Command::Nothing;
                }
                let query_lower = to_lowercase(query.as_str());
                match first_exact(&self.search_results, &query_lower) {
                    Some(pos) => {
                        let word = self.search_results[pos].copy();
                        self.input_english = word.english;
                        self.input_russian = word.russian;
                        self.active_field = InputField::English;
                        self.current_screen = ActiveScreen::UpdateEdit;
                    },
                    None => {
                        self.selected = 0;
                        self.current_screen = ActiveScreen::Update;
                    },
                }
                Command::Nothing
            },
            Key::Char(c) => {
                push_char(&mut self.search_query, c);
                Command::Nothing
            },
            Key::Backspace => {
                pop_char(&mut self.search_query);
                Command::Nothing
            },
            _ => Command::Nothing,
        }
    }

    fn handle_update(&mut self, key: Key) -> (cmd: Command)
        requires
            old(self).current_screen == ActiveScreen::Update,
            key_in_range(old(self)@, key),
        ensures
            (final(self)@, cmd@) == update_step(old(self)@, key),
    {
        match key {
            Key::Esc => {
                self.clear_inputs();
                self.current_screen = ActiveScreen::UpdateSearch;
            },
            Key::Char('j') | Key::Down => {
                if self.selected + 1 < self.search_results.len() {
                    self.selected = self.selected + 1;
                }
            },
            Key::Char('k') | Key::Up => {
                if self.selected > 0 {
                    self.selected = self.selected - 1;
                }
            },
            Key::Enter => {
                if self.selected < self.search_results.len() {
                    let word = self.search_results[self.selected].copy();
                    self.input_english = word.english;
                    self.input_russian = word.russian;
                    self.active_field = InputField::English;
                    self.current_screen = ActiveScreen::UpdateEdit;
                }
            },
            _ => {},
        }
        Command::Nothing
    }

    fn handle_update_edit(&mut self, key: Key) -> (cmd: Command)
        ensures
            (final(self)@, cmd@) == update_edit_step(old(self)@, key),
    {
        match key {
            Key::Esc => {
                self.clear_inputs();
                self.current_screen = ActiveScreen::UpdateSearch;
                Command::LoadWords
            },
            Key::Tab => {
                self.active_field = match self.active_field {
                    InputField::English => InputField::Russian,
                    _ => InputField::English,
                };
                Command::Nothing
            },
            Key::Enter => {
                let english = remove_spaces(self.input_english.as_str());
                let russian = remove_spaces(self.input_russian.as_str());
                if english.as_str().is_empty() || russian.as_str().is_empty() {
                    self.show_error(literal("Заполни оба поля"));
                    return Command::Nothing;
                }
                if self.selected < self.search_results.len() {
                    let id = self.search_results[self.selected].id;
                    Command::UpdateWord { id, english, russian }
                } else {
                    Command::Nothing
                }
            },
            Key::Char(c) => {
                self.type_into_form(c);
                Command::Nothing
            },
            Key::Backspace => {
                self.erase_in_form();
                Command::Nothing
            },
            _ => Command::Nothing,
        }
    }

    fn handle_delete(&mut self, key: Key) -> (cmd: Command)
        requires
            old(self).current_screen == ActiveScreen::Delete,
            key_in_range(old(self)@, key),
        ensures
            (final(self)@, cmd@) == delete_step(old(self)@, key),
    {
        match key {
            Key::Esc => {
                self.go_to_main();
            },
            Key::Char('j') | Key::Down => {
                if self.selected + 1 < self.words.len() {
                    self.selected = self.selected + 1;
                }
            },
            Key::Char('k') | Key::Up => {
                if self.selected > 0 {
                    self.selected = self.selected - 1;
                }
            },
            Key::Enter => {
                if self.selected < self.words.len() {
                    self.current_screen = ActiveScreen::DeleteConfirm;
                }
            },
            _ => {},
        }
        Command::Nothing
    }

    fn handle_delete_confirm(&mut self, key: Key) -> (cmd: Command)
        ensures
            (final(self)@, cmd@) == delete_confirm_step(old(self)@, key),
    {
        match key {
            Key::Esc | Key::Char('n') => {
                self.current_screen = ActiveScreen::Delete;
                Command::Nothing
            },
            Key::Char('y') | Key::Char('Y') => {
                if self.selected < self.words.len() {
                    let word = &self.words[self.selected];
                    let label = label_of(word);
                    Command::DeleteWord { id: word.id, label }
                } else {
                    Command::Nothing
                }
            },
            _ => Command::Nothing,
        }
    }

    fn handle_import(&mut self, key: Key) -> (cmd: Command)
        ensures
            (final(self)@, cmd@) == import_step(old(self)@, key),
    {
        match key {
            Key::Esc => {
                self.go_to_main();
                Command::Nothing
            },
            Key::Enter => {
                let path = trimmed(&self.input_path);
                if path.as_str().is_empty() {
                    self.show_error(literal("Укажи путь к файлу"));
                    return Command::Nothing;
                }
                Command::ReadImportFile { path }
            },
            Key::Char(c) => {
                push_char(&mut self.input_path, c);
                Command::Nothing
            },
            Key::Backspace => {
                pop_char(&mut self.input_path);
                Command::Nothing
            },
            _ => Command::Nothing,
        }
    }

    fn handle_import_result(&mut self, key: Key) -> (cmd: Command)
        ensures
            (final(self)@, cmd@) == import_result_step(old(self)@, key),
    {
        if key == Key::Esc {
            self.go_to_main();
        }
        Command::Nothing
    }

    /// Handles a key press on the current screen: the state changes as
    /// `key_step` says, and the returned command is the outside work to do.
    pub fn handle_key(&mut self, key: Key) -> (cmd: Command)
        requires
            key_in_range(old(self)@, key),
        ensures
            (final(self)@, cmd@) == key_step(old(self)@, key),
    {
        match self.current_screen {
            ActiveScreen::Main => self.handle_main(key),
            ActiveScreen::Review => self.handle_review(key),
            ActiveScreen::Add => self.handle_add(key),
            ActiveScreen::Update => self.handle_update(key),
            ActiveScreen::UpdateSearch => self.handle_update_search(key),
            ActiveScreen::UpdateEdit => self.handle_update_edit(key),
            ActiveScreen::Delete => self.handle_delete(key),
            ActiveScreen::DeleteConfirm => self.handle_delete_confirm(key),
            ActiveScreen::Import => self.handle_import(key),
            ActiveScreen::ImportResult => self.handle_import_result(key),
            ActiveScreen::Forgot | ActiveScreen::Upcoming => Command::Nothing,
        }
    }

    /// Takes the reloaded review queue at the end of a round
    /// (`Command::FinishReviewRound`).
    pub fn finish_review_round(&mut self, loaded: Option<Vec<Word>>)
        ensures
            final(self)@ == after_review_round(old(self)@, loaded_view(loaded)),
    {
        self.refresh_review_queue(loaded);
        if self.review_queue.len() == 0 {
            self.show_notice(literal("Все слова повторены!"));
            self.current_screen = ActiveScreen::Main;
        }
    }

    /// Takes the outcome of `Command::SaveReview`: the quality and distance
    /// it carried and the interval the word was rescheduled to.
    pub fn record_review(&mut self, word: &Word, quality: u8, distance: usize, new_interval: i64)
        ensures
            final(self)@ == after_review_saved(old(self)@, *word, quality, distance, new_interval),
    {
        self.last_quality = quality;
        self.last_distance = distance;
        self.last_next_interval = new_interval;
        if quality >= 3 {
            let mut m = literal("Верно! (quality: ");
            push_decimal(&mut m, quality as u64);
            push_str(&mut m, "/5) Следующее повторение через ");
            push_signed_decimal(&mut m, new_interval);
            push_str(&mut m, " дн.");
            self.show_notice(m);
        } else {
            let mut m = literal("Почти! (quality: ");
            push_decimal(&mut m, quality as u64);
            push_str(&mut m, "/5) Правильно: ");
            push_str(&mut m, word.english.as_str());
            push_str(&mut m, " — ");
            push_str(&mut m, word.russian.as_str());
            self.show_error(m);
        }
        self.show_review_answer = true;
    }

    /// Takes the outcome of a successful `Command::AddWord` and the reloaded
    /// words.
    pub fn word_added(&mut self, english: &String, russian: &String, loaded: Option<Vec<Word>>)
        ensures
            final(self)@ == after_word_added(old(self)@, english@, russian@, loaded_view(loaded)),
    {
        self.show_notice(pair_text("Добавлено: ", english, russian));
        self.refresh_words(loaded);
        self.input_english = String::new();
        self.input_russian = String::new();
    }

    /// Takes the outcome of a successful `Command::UpdateWord` and the
    /// reloaded words.
    pub fn word_updated(&mut self, english: &String, russian: &String, loaded: Option<Vec<Word>>)
        ensures
            final(self)@ == after_word_updated(old(self)@, loaded_view(loaded)),
    {
        self.show_notice(pair_text("Обновлено: ", english, russian));
        self.refresh_words(loaded);
        self.current_screen = ActiveScreen::UpdateSearch;
        self.clear_inputs();
    }

    /// Takes the outcome of a successful `Command::DeleteWord` and the
    /// reloaded words.
    pub fn word_deleted(&mut self, label: &String, loaded: Option<Vec<Word>>)
        ensures
            final(self)@ == after_word_deleted(old(self)@, label@, loaded_view(loaded)),
    {
        let mut m = literal("Удалено: ");
        push_str(&mut m, label.as_str());
        self.show_notice(m);
        self.refresh_words(loaded);
        if self.selected >= self.words.len() && self.selected > 0 {
            self.selected = self.selected - 1;
        }
        self.current_screen = ActiveScreen::Delete;
    }

    /// Takes the text of the file that `Command::ReadImportFile` read, and
    /// gives the entries to store.
    pub fn import_file_read(&mut self, content: &str) -> (cmd: Command)
        ensures
            (final(self)@, cmd@) == after_file_read(old(self)@, content@),
    {
        let entries = parse_markdown(content);
        if entries.len() == 0 {
            self.show_error(literal("Не найдено слов в файле"));
            return Command::Nothing;
        }
        Command::ImportEntries { entries }
    }

    /// Takes the outcome of a successful `Command::ImportEntries`: how many
    /// words were stored, and the reloaded words.
    pub fn words_imported(&mut self, count: usize, loaded: Option<Vec<Word>>)
        ensures
            final(self)@ == after_import(old(self)@, count, loaded_view(loaded)),
    {
        self.import_count = count;
        self.refresh_words(loaded);
        self.current_screen = ActiveScreen::ImportResult;
    }

    /// Takes the failure of an outside operation, with the error's text.
    pub fn operation_failed(&mut self, kind: Failure, detail: &str)
        ensures
            final(self)@ == with_error(old(self)@, msg_failure(kind, detail@)),
    {
        let mut m = match kind {
            Failure::Storage => literal("Ошибка: "),
            Failure::Import => literal("Ошибка импорта: "),
            Failure::FileRead => literal("Ошибка чтения файла: "),
        };
        push_str(&mut m, detail);
        self.show_error(m);
    }

    /// Whether `key` can be handled without stepping a position past the
    /// largest `usize`, which `handle_key` requires.
    pub fn key_in_range(&self, key: Key) -> (b: bool)
        ensures
            b == key_in_range(self@, key),
    {
        let advances_review = self.current_screen == ActiveScreen::Review && (key == Key::Tab || (
        key == Key::Enter && self.show_review_answer));
        let advances_list = (self.current_screen == ActiveScreen::Update || self.current_screen
            == ActiveScreen::Delete) && (key == Key::Down || key == Key::Char('j'));
        (!advances_review || self.current_word_index < usize::MAX) && (!advances_list
            || self.selected < usize::MAX)
    }
}

// ---------------------------------------------------------------------
// Properties of the state machine
// ---------------------------------------------------------------------

/// Whether typed characters go to a text input on the current screen.
pub open spec fn screen_takes_text(s: AppView) -> bool {
    ||| s.current_screen == ActiveScreen::Review
    ||| s.current_screen == ActiveScreen::UpdateSearch
    ||| s.current_screen == ActiveScreen::Import
    ||| (s.current_screen == ActiveScreen::Add || s.current_screen == ActiveScreen::UpdateEdit) && (
    s.active_field == InputField::English || s.active_field == InputField::Russian)
}

/// Key presses never change the word lists or the review queue: only the
/// outcomes of the commands that they return do.
pub proof fn lemma_keys_keep_word_lists(s: AppView, key: Key)
    ensures
        key_step(s, key).0.words == s.words,
        key_step(s, key).0.review_queue == s.review_queue,
        key_step(s, key).0.forgotten_queue == s.forgotten_queue,
        key_step(s, key).0.upcoming_words == s.upcoming_words,
{
}

/// Backspace undoes a typed character: typing `c` and erasing it again
/// gives back the state before, with nothing to do either time.
pub proof fn lemma_backspace_undoes_typing(s: AppView, c: char)
    requires
        screen_takes_text(s),
    ensures
        key_step(s, Key::Char(c)).1 == CommandView::Nothing,
        key_step(key_step(s, Key::Char(c)).0, Key::Backspace) == (s, CommandView::Nothing),
{
    assert(s.input_review.push(c).drop_last() =~= s.input_review);
    assert(s.search_query.push(c).drop_last() =~= s.search_query);
    assert(s.input_path.push(c).drop_last() =~= s.input_path);
    assert(s.input_english.push(c).drop_last() =~= s.input_english);
    assert(s.input_russian.push(c).drop_last() =~= s.input_russian);
}

/// Keys keep the moving positions below the largest `usize`, so from the
/// initial state on `handle_key` accepts every key.
pub proof fn lemma_key_step_keeps_positions_in_range(s: AppView, key: Key, next: Key)
    requires
        positions_in_range(s),
        s.words.len() <= usize::MAX,
        s.review_queue.len() <= usize::MAX,
        s.search_results.len() <= usize::MAX,
    ensures
        key_in_range(s, key),
        positions_in_range(key_step(s, key).0),
        key_in_range(key_step(s, key).0, next),
{
}

/// Moving up and down a list keeps the selection on an entry of the list.
pub proof fn lemma_navigation_stays_in_list(s: AppView, key: Key)
    requires
        s.current_screen == ActiveScreen::Delete || s.current_screen == ActiveScreen::Update,
        key == Key::Up || key == Key::Down || key == Key::Char('j') || key == Key::Char('k'),
        s.current_screen == ActiveScreen::Delete ==> s.selected < s.words.len(),
        s.current_screen == ActiveScreen::Update ==> s.selected < s.search_results.len(),
    ensures
        s.current_screen == ActiveScreen::Delete ==> key_step(s, key).0.selected < s.words.len(),
        s.current_screen == ActiveScreen::Update ==> key_step(s, key).0.selected
            < s.search_results.len(),
        key_step(s, key).0.current_screen == s.current_screen,
{
}

/// A query that names a word exactly (either side, ignoring case) opens the
/// first such word for editing.
pub proof fn lemma_exact_query_opens_first_match(s: AppView)
    requires
        s.current_screen == ActiveScreen::UpdateSearch,
        trim(s.search_query).len() > 0,
        crate::search::exact_matches(s.words, lowercase(trim(s.search_query))).len() > 0,
    ensures
        ({
            let ql = lowercase(trim(s.search_query));
            let w = crate::search::exact_matches(s.words, ql)[0];
            let next = key_step(s, Key::Enter);
            &&& next.1 == CommandView::Nothing
            &&& next.0.current_screen == ActiveScreen::UpdateEdit
            &&& next.0.input_english == w.english@
            &&& next.0.input_russian == w.russian@
            &&& next.0.active_field == InputField::English
        }),
{
    let q = trim(s.search_query);
    let ql = lowercase(q);
    let rs = crate::search::exact_matches(s.words, ql);
    assert(search_results(s.words, q) == rs);
    let pred = |w: Word| lowercase(w.english@) == ql || lowercase(w.russian@) == ql;
    s.words.lemma_filter_pred(pred, 0);
    assert(matches_exactly(rs[0], ql));
    let k = choose|k: int|
        0 <= k < rs.len() && matches_exactly(#[trigger] rs[k], ql) && forall|j: int|
            0 <= j < k ==> !matches_exactly(#[trigger] rs[j], ql);
    assert(k == 0) by {
        if k > 0 {
            assert(!matches_exactly(rs[0], ql));
        }
    }
    assert(first_exact_position(rs, ql) == Some(0int));
}

/// An answer that equals the correct one once white space is removed earns
/// the top quality at distance 0.
pub proof fn lemma_exact_answer_earns_five(typed: Seq<char>, w: Word)
    requires
        without_white_space(typed) == without_white_space(w.russian@),
        without_white_space(w.russian@).len() > 0,
    ensures
        grade(typed, w) == (5u8, 0nat),
{
    crate::models::lemma_edit_distance_to_itself(without_white_space(w.russian@));
}

/// After a deletion that removed at most the selected word from below it,
/// the selection is on an entry of the reloaded list (or at 0 when the list
/// is empty).
pub proof fn lemma_deletion_keeps_selection_in_list(s: AppView, label: Seq<char>, ws: Seq<Word>)
    requires
        s.selected <= ws.len(),
    ensures
        ({
            let t = after_word_deleted(s, label, Some(ws));
            &&& t.words == ws
            &&& t.current_screen == ActiveScreen::Delete
            &&& t.selected < ws.len() || (ws.len() == 0 && t.selected == 0)
        }),
{
}

/// A review that has shown the answer for the last word of the queue asks
/// for a new round; before that it moves on to the next word.
pub proof fn lemma_enter_after_answer_moves_on(s: AppView)
    requires
        s.current_screen == ActiveScreen::Review,
        s.show_review_answer,
        s.current_word_index < usize::MAX,
    ensures
        ({
            let next = key_step(s, Key::Enter);
            &&& !next.0.show_review_answer
            &&& next.0.input_review.len() == 0
            &&& if s.current_word_index + 1 < s.review_queue.len() {
                next.0.current_word_index == s.current_word_index + 1 && next.1
                    == CommandView::Nothing
            } else {
                next.1 == CommandView::FinishReviewRound
            }
        }),
{
}


/// On the form that changes a word, Enter with both fields filled asks to
/// change the search result being edited, `search_results[selected]`, found
/// by its id, to the two texts without white space; the state stays as it
/// is until the outcome comes back.
pub proof fn lemma_edit_form_changes_edited_result(s: AppView)
    requires
        s.current_screen == ActiveScreen::UpdateEdit,
        without_white_space(s.input_english).len() > 0,
        without_white_space(s.input_russian).len() > 0,
        s.selected < s.search_results.len(),
    ensures
        key_step(s, Key::Enter) == (
            s,
            CommandView::UpdateWord {
                id: s.search_results[s.selected as int].id,
                english: without_white_space(s.input_english),
                russian: without_white_space(s.input_russian),
            },
        ),
{
}

/// A search that names a word exactly, started with the selection at the
/// top (as the menu leaves it), opens that word for editing; Enter then,
/// with its texts unchanged, asks to change that very word: the first word
/// of the list that matches the query exactly on either side, ignoring case.
pub proof fn lemma_exact_search_then_enter_changes_found_word(s: AppView)
    requires
        s.current_screen == ActiveScreen::UpdateSearch,
        s.selected == 0,
        trim(s.search_query).len() > 0,
        crate::search::exact_matches(s.words, lowercase(trim(s.search_query))).len() > 0,
        without_white_space(
            crate::search::exact_matches(s.words, lowercase(trim(s.search_query)))[0].english@,
        ).len() > 0,
        without_white_space(
            crate::search::exact_matches(s.words, lowercase(trim(s.search_query)))[0].russian@,
        ).len() > 0,
    ensures
        ({
            let w = crate::search::exact_matches(s.words, lowercase(trim(s.search_query)))[0];
            let s1 = key_step(s, Key::Enter).0;
            &&& s1.current_screen == ActiveScreen::UpdateEdit
            &&& key_step(s1, Key::Enter) == (
                s1,
                CommandView::UpdateWord {
                    id: w.id,
                    english: without_white_space(w.english@),
                    russian: without_white_space(w.russian@),
                },
            )
        }),
{
    lemma_exact_query_opens_first_match(s);
    let q = trim(s.search_query);
    let rs = crate::search::exact_matches(s.words, lowercase(q));
    assert(search_results(s.words, q) == rs);
    let s1 = key_step(s, Key::Enter).0;
    assert(s1.search_results == rs);
    assert(s1.selected == 0);
}

/// Adding is refused, with the already-exists error and no command, as soon
/// as some word already has the new English side or the new Russian side,
/// ignoring case; either side alone is enough.
pub proof fn lemma_add_refuses_either_side_taken(s: AppView, k: int)
    requires
        s.current_screen == ActiveScreen::Add,
        without_white_space(s.input_english).len() > 0,
        without_white_space(s.input_russian).len() > 0,
        0 <= k < s.words.len(),
        lowercase(s.words[k].english@) == lowercase(without_white_space(s.input_english))
            || lowercase(s.words[k].russian@) == lowercase(without_white_space(s.input_russian)),
    ensures
        key_step(s, Key::Enter) == (
            with_error(
                s,
                msg_already_exists(
                    without_white_space(s.input_english),
                    without_white_space(s.input_russian),
                ),
            ),
            CommandView::Nothing,
        ),
{
    let en = without_white_space(s.input_english);
    let ru = without_white_space(s.input_russian);
    assert(shares_a_side(s.words[k], en, ru));
    assert(is_duplicate(s.words, en, ru));
}

/// Adding a word whose English side and Russian side are both new, ignoring
/// case, asks to store it with the texts without white space.
pub proof fn lemma_add_accepts_new_word(s: AppView)
    requires
        s.current_screen == ActiveScreen::Add,
        without_white_space(s.input_english).len() > 0,
        without_white_space(s.input_russian).len() > 0,
        forall|k: int|
            0 <= k < s.words.len() ==> lowercase(#[trigger] s.words[k].english@) != lowercase(
                without_white_space(s.input_english),
            ) && lowercase(s.words[k].russian@) != lowercase(without_white_space(s.input_russian)),
    ensures
        key_step(s, Key::Enter) == (
            s,
            CommandView::AddWord {
                english: without_white_space(s.input_english),
                russian: without_white_space(s.input_russian),
            },
        ),
{
}

/// The state after typing the characters of `t`, one key each.
pub open spec fn after_typing(s: AppView, t: Seq<char>) -> AppView
    decreases t.len(),
{
    if t.len() == 0 {
        s
    } else {
        key_step(after_typing(s, t.drop_last()), Key::Char(t.last())).0
    }
}

/// Typing on the review screen appends to the answer and changes nothing
/// else.
proof fn lemma_typing_answer(s: AppView, t: Seq<char>)
    requires
        s.current_screen == ActiveScreen::Review,
    ensures
        after_typing(s, t) == (AppView { input_review: s.input_review + t, ..s }),
    decreases t.len(),
{
    if t.len() > 0 {
        lemma_typing_answer(s, t.drop_last());
        assert((s.input_review + t.drop_last()).push(t.last()) =~= s.input_review + t);
    } else {
        assert(s.input_review + t =~= s.input_review);
    }
}

/// Tab on the review screen, with a word after the current one, moves on to
/// it with the answer field empty and the answer hidden, asking for nothing;
/// whatever is typed next is then graded, on Enter, against that word,
/// exactly as typed.
pub proof fn lemma_tab_moves_on_with_empty_answer(s: AppView, t: Seq<char>)
    requires
        s.current_screen == ActiveScreen::Review,
        s.current_word_index < usize::MAX,
        s.current_word_index + 1 < s.review_queue.len(),
    ensures
        ({
            let next = key_step(s, Key::Tab);
            let w = s.review_queue[s.current_word_index + 1];
            &&& next.1 == CommandView::Nothing
            &&& next.0.current_screen == ActiveScreen::Review
            &&& next.0.current_word_index == s.current_word_index + 1
            &&& next.0.input_review.len() == 0
            &&& !next.0.show_review_answer
            &&& key_step(after_typing(next.0, t), Key::Enter).1 == CommandView::SaveReview {
                word: w,
                quality: grade(t, w).0,
                distance: grade(t, w).1,
            }
        }),
{
    let n = key_step(s, Key::Tab).0;
    lemma_typing_answer(n, t);
    assert(n.input_review + t =~= t);
}

} // verus!
