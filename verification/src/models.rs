//! The trainer's data: words, screens, input fields, the application state,
//! and the grading of typed answers (Levenshtein distance and the quality
//! that a distance earns).

use vstd::prelude::*;
use crate::search::{find_words, search_results};
use crate::text::chars_of;

verus! {

/// A word of the vocabulary with its review schedule.
#[derive(Clone, Debug)]
pub struct Word {
    pub id: i64,
    pub english: String,
    pub russian: String,
    /// The SM-2 ease factor, held as the bit pattern of its `f64` value
    /// (`f64::to_bits`); the library never reads it.
    pub ease_factor_bits: u64,
    pub interval: i64,
    pub repetitions: i64,
    pub next_review: String,
    pub created_at: String,
    pub last_quality: Option<i64>,
}

impl Word {
    /// A copy of this word, equal to it in every field.
    pub fn copy(&self) -> (w: Word)
        ensures
            w == *self,
    {
        Word {
            id: self.id,
            english: self.english.clone(),
            russian: self.russian.clone(),
            ease_factor_bits: self.ease_factor_bits,
            interval: self.interval,
            repetitions: self.repetitions,
            next_review: self.next_review.clone(),
            created_at: self.created_at.clone(),
            last_quality: self.last_quality,
        }
    }
}

/// The screens of the terminal front end.
#[derive(Clone, Copy, Debug, PartialEq, Eq, Structural)]
pub enum ActiveScreen {
    Main,
    Review,
    Forgot,
    Upcoming,
    Add,
    Update,
    UpdateSearch,
    UpdateEdit,
    Delete,
    DeleteConfirm,
    Import,
    ImportResult,
}

/// The input field that typed characters go to.
#[derive(Clone, Copy, Debug, PartialEq, Eq, Structural)]
pub enum InputField {
    English,
    Russian,
    Path,
    ReviewTranslation,
}

/// The state of the trainer's front end: the word lists it shows, what the
/// user has typed, the current screen and the status line.
pub struct App {
    pub words: Vec<Word>,
    pub review_queue: Vec<Word>,
    pub forgotten_queue: Vec<Word>,
    pub upcoming_words: Vec<Word>,
    pub upcoming_days: i64,
    pub upcoming_input: String,
    pub current_word_index: usize,
    pub current_screen: ActiveScreen,
    pub selected: usize,
    pub input_english: String,
    pub input_russian: String,
    pub input_path: String,
    pub input_review: String,
    pub search_query: String,
    pub search_results: Vec<Word>,
    pub active_field: InputField,
    pub status_message: String,
    pub status_is_error: bool,
    pub show_review_answer: bool,
    pub last_quality: u8,
    pub last_distance: usize,
    pub last_next_interval: i64,
    pub import_count: usize,
    pub should_quit: bool,
}

/// The mathematical value of an `App`: its texts as character sequences and
/// its lists as sequences.
#[verifier::ext_equal]
pub struct AppView {
    pub words: Seq<Word>,
    pub review_queue: Seq<Word>,
    pub forgotten_queue: Seq<Word>,
    pub upcoming_words: Seq<Word>,
    pub upcoming_days: i64,
    pub upcoming_input: Seq<char>,
    pub current_word_index: usize,
    pub current_screen: ActiveScreen,
    pub selected: usize,
    pub input_english: Seq<char>,
    pub input_russian: Seq<char>,
    pub input_path: Seq<char>,
    pub input_review: Seq<char>,
    pub search_query: Seq<char>,
    pub search_results: Seq<Word>,
    pub active_field: InputField,
    pub status_message: Seq<char>,
    pub status_is_error: bool,
    pub show_review_answer: bool,
    pub last_quality: u8,
    pub last_distance: usize,
    pub last_next_interval: i64,
    pub import_count: usize,
    pub should_quit: bool,
}

impl View for App {
    type V = AppView;

    open spec fn view(&self) -> AppView {
        AppView {
            words: self.words@,
            review_queue: self.review_queue@,
            forgotten_queue: self.forgotten_queue@,
            upcoming_words: self.upcoming_words@,
            upcoming_days: self.upcoming_days,
            upcoming_input: self.upcoming_input@,
            current_word_index: self.current_word_index,
            current_screen: self.current_screen,
            selected: self.selected,
            input_english: self.input_english@,
            input_russian: self.input_russian@,
            input_path: self.input_path@,
            input_review: self.input_review@,
            search_query: self.search_query@,
            search_results: self.search_results@,
            active_field: self.active_field,
            status_message: self.status_message@,
            status_is_error: self.status_is_error,
            show_review_answer: self.show_review_answer,
            last_quality: self.last_quality,
            last_distance: self.last_distance,
            last_next_interval: self.last_next_interval,
            import_count: self.import_count,
            should_quit: self.should_quit,
        }
    }
}

/// The state the trainer starts in: empty lists, the main screen, upcoming
/// words for 2 days, nothing typed.
pub open spec fn initial_view() -> AppView {
    AppView {
        words: seq![],
        review_queue: seq![],
        forgotten_queue: seq![],
        upcoming_words: seq![],
        upcoming_days: 2,
        upcoming_input: seq![],
        current_word_index: 0,
        current_screen: ActiveScreen::Main,
        selected: 0,
        input_english: seq![],
        input_russian: seq![],
        input_path: seq![],
        input_review: seq![],
        search_query: seq![],
        search_results: seq![],
        active_field: InputField::English,
        status_message: seq![],
        status_is_error: false,
        show_review_answer: false,
        last_quality: 0,
        last_distance: 0,
        last_next_interval: 0,
        import_count: 0,
        should_quit: false,
    }
}

/// `s` with every input, the search and the status line cleared.
pub open spec fn cleared(s: AppView) -> AppView {
    AppView {
        input_english: seq![],
        input_russian: seq![],
        input_path: seq![],
        input_review: seq![],
        search_query: seq![],
        search_results: seq![],
        upcoming_input: seq![],
        status_message: seq![],
        status_is_error: false,
        show_review_answer: false,
        selected: 0,
        ..s
    }
}

/// `s` with the word list replaced by `loaded`, when it could be loaded.
pub open spec fn with_words(s: AppView, loaded: Option<Seq<Word>>) -> AppView {
    match loaded {
        Some(ws) => AppView { words: ws, ..s },
        None => s,
    }
}

/// `s` with the review queue replaced by `loaded`, when it could be loaded;
/// the review then starts over at its first word, answer hidden.
pub open spec fn with_review_queue(s: AppView, loaded: Option<Seq<Word>>) -> AppView {
    match loaded {
        Some(ws) => AppView {
            review_queue: ws,
            current_word_index: 0,
            show_review_answer: false,
            ..s
        },
        None => s,
    }
}

/// The view of an optional word list.
pub open spec fn loaded_view(loaded: Option<Vec<Word>>) -> Option<Seq<Word>> {
    match loaded {
        Some(v) => Some(v@),
        None => None,
    }
}

impl App {
    /// A trainer in its initial state.
    pub fn new() -> (app: App)
        ensures
            app@ == initial_view(),
    {
        App {
            words: Vec::new(),
            review_queue: Vec::new(),
            forgotten_queue: Vec::new(),
            upcoming_words: Vec::new(),
            upcoming_days: 2,
            upcoming_input: String::new(),
            current_word_index: 0,
            current_screen: ActiveScreen::Main,
            selected: 0,
            input_english: String::new(),
            input_russian: String::new(),
            input_path: String::new(),
            input_review: String::new(),
            search_query: String::new(),
            search_results: Vec::new(),
            active_field: InputField::English,
            status_message: String::new(),
            status_is_error: false,
            show_review_answer: false,
            last_quality: 0,
            last_distance: 0,
            last_next_interval: 0,
            import_count: 0,
            should_quit: false,
        }
    }

    /// Takes the freshly loaded word list; `None` (the list could not be
    /// loaded) keeps the old one.
    pub fn refresh_words(&mut self, loaded: Option<Vec<Word>>)
        ensures
            final(self)@ == with_words(old(self)@, loaded_view(loaded)),
    {
        if let Some(words) = loaded {
            self.words = words;
        }
    }

    /// Takes the freshly loaded review queue and starts it over; `None`
    /// keeps the old queue and position.
    pub fn refresh_review_queue(&mut self, loaded: Option<Vec<Word>>)
        ensures
            final(self)@ == with_review_queue(old(self)@, loaded_view(loaded)),
    {
        if let Some(queue) = loaded {
            self.review_queue = queue;
            self.current_word_index = 0;
            self.show_review_answer = false;
        }
    }

    /// Takes the freshly loaded list of forgotten words; `None` keeps the
    /// old one.
    pub fn refresh_forgotten_queue(&mut self, loaded: Option<Vec<Word>>)
        ensures
            final(self)@ == match loaded {
                Some(q) => AppView { forgotten_queue: q@, ..old(self)@ },
                None => old(self)@,
            },
    {
        if let Some(queue) = loaded {
            self.forgotten_queue = queue;
        }
    }

    /// Takes the freshly loaded list of upcoming words; `None` keeps the old
    /// one.
    pub fn refresh_upcoming(&mut self, loaded: Option<Vec<Word>>)
        ensures
            final(self)@ == match loaded {
                Some(q) => AppView { upcoming_words: q@, ..old(self)@ },
                None => old(self)@,
            },
    {
        if let Some(words) = loaded {
            self.upcoming_words = words;
        }
    }

    /// The word under review, if the position is inside the queue.
    pub fn current_review_word(&self) -> (w: Option<&Word>)
        ensures
            w == if self.current_word_index < self.review_queue@.len() {
                Some(&self.review_queue@[self.current_word_index as int])
            } else {
                None
            },
    {
        if self.current_word_index < self.review_queue.len() {
            Some(&self.review_queue[self.current_word_index])
        } else {
            None
        }
    }

    /// Clears every input, the search, the status line, and the selection.
    pub fn clear_inputs(&mut self)
        ensures
            final(self)@ == cleared(old(self)@),
    {
        self.input_english = String::new();
        self.input_russian = String::new();
        self.input_path = String::new();
        self.input_review = String::new();
        self.search_query = String::new();
        self.search_results = Vec::new();
        self.upcoming_input = String::new();
        self.status_message = String::new();
        self.status_is_error = false;
        self.show_review_answer = false;
        self.selected = 0;
    }

    /// The number of words in the vocabulary list.
    pub fn total_words(&self) -> (n: usize)
        ensures
            n == self.words@.len(),
    {
        self.words.len()
    }

    /// The number of words due for review.
    pub fn words_for_review_count(&self) -> (n: usize)
        ensures
            n == self.review_queue@.len(),
    {
        self.review_queue.len()
    }

    /// The number of words last answered below quality 3.
    pub fn forgotten_count(&self) -> (n: usize)
        ensures
            n == self.forgotten_queue@.len(),
    {
        self.forgotten_queue.len()
    }

    /// The number of words due within the upcoming days.
    pub fn upcoming_count(&self) -> (n: usize)
        ensures
            n == self.upcoming_words@.len(),
    {
        self.upcoming_words.len()
    }

    /// Fills the search results for `query`: the words whose English or
    /// Russian side equals the query ignoring case, or failing those the
    /// five English words most similar to it.
    pub fn search_words(&mut self, query: &str)
        ensures
            final(self)@ == (AppView {
                search_results: search_results(old(self)@.words, query@),
                ..old(self)@
            }),
    {
        self.search_results = find_words(&self.words, query);
    }
}

/// The smaller of two naturals.
pub open spec fn min_nat(x: nat, y: nat) -> nat {
    if x <= y {
        x
    } else {
        y
    }
}

/// The Levenshtein distance between `a` and `b`: the least number of
/// single-character insertions, deletions and substitutions that turn `a`
/// into `b`.
pub open spec fn edit_distance(a: Seq<char>, b: Seq<char>) -> nat
    decreases a.len() + b.len(),
{
    if a.len() == 0 {
        b.len()
    } else if b.len() == 0 {
        a.len()
    } else {
        min_nat(
            min_nat(edit_distance(a.drop_last(), b) + 1, edit_distance(a, b.drop_last()) + 1),
            edit_distance(a.drop_last(), b.drop_last()) + if a.last() == b.last() {
                0nat
            } else {
                1nat
            },
        )
    }
}

/// The distance never exceeds the longer of the two lengths.
pub proof fn lemma_edit_distance_at_most_longer(a: Seq<char>, b: Seq<char>)
    ensures
        edit_distance(a, b) <= if a.len() >= b.len() {
            a.len()
        } else {
            b.len()
        },
    decreases a.len() + b.len(),
{
    if a.len() > 0 && b.len() > 0 {
        lemma_edit_distance_at_most_longer(a.drop_last(), b.drop_last());
    }
}

/// A string is at distance zero from itself.
pub proof fn lemma_edit_distance_to_itself(a: Seq<char>)
    ensures
        edit_distance(a, a) == 0,
    decreases a.len(),
{
    if a.len() > 0 {
        lemma_edit_distance_to_itself(a.drop_last());
    }
}

/// Distance zero holds of equal strings only.
pub proof fn lemma_edit_distance_zero_iff_equal(a: Seq<char>, b: Seq<char>)
    ensures
        edit_distance(a, b) == 0 <==> a == b,
    decreases a.len() + b.len(),
{
    if a == b {
        lemma_edit_distance_to_itself(a);
    } else if a.len() > 0 && b.len() > 0 {
        lemma_edit_distance_zero_iff_equal(a.drop_last(), b.drop_last());
        if edit_distance(a, b) == 0 {
            assert(a.drop_last() == b.drop_last());
            assert(a =~= a.drop_last().push(a.last()));
            assert(b =~= b.drop_last().push(b.last()));
        }
    } else if a.len() == 0 {
        assert(b.len() != 0) by {
            if b.len() == 0 {
                assert(a =~= b);
            }
        }
    } else {
        assert(a.len() != 0);
    }
}

/// The distance does not depend on the order of its arguments.
pub proof fn lemma_edit_distance_symmetric(a: Seq<char>, b: Seq<char>)
    ensures
        edit_distance(a, b) == edit_distance(b, a),
    decreases a.len() + b.len(),
{
    if a.len() > 0 && b.len() > 0 {
        lemma_edit_distance_symmetric(a.drop_last(), b);
        lemma_edit_distance_symmetric(a, b.drop_last());
        lemma_edit_distance_symmetric(a.drop_last(), b.drop_last());
    }
}

/// The distance is at least the difference of the lengths.
pub proof fn lemma_edit_distance_at_least_length_gap(a: Seq<char>, b: Seq<char>)
    ensures
        edit_distance(a, b) >= a.len() - b.len(),
        edit_distance(a, b) >= b.len() - a.len(),
    decreases a.len() + b.len(),
{
    if a.len() > 0 && b.len() > 0 {
        lemma_edit_distance_at_least_length_gap(a.drop_last(), b);
        lemma_edit_distance_at_least_length_gap(a, b.drop_last());
        lemma_edit_distance_at_least_length_gap(a.drop_last(), b.drop_last());
    }
}

/// The distance obeys the triangle inequality: going from `a` to `c`
/// through `b` is never shorter than going directly.
pub proof fn lemma_edit_distance_triangle(a: Seq<char>, b: Seq<char>, c: Seq<char>)
    ensures
        edit_distance(a, c) <= edit_distance(a, b) + edit_distance(b, c),
    decreases a.len() + b.len() + c.len(),
{
    if a.len() == 0 {
        lemma_edit_distance_at_least_length_gap(b, c);
    } else if b.len() == 0 {
        lemma_edit_distance_at_most_longer(a, c);
    } else if c.len() == 0 {
        lemma_edit_distance_at_least_length_gap(a, b);
    } else {
        let a1 = a.drop_last();
        let b1 = b.drop_last();
        let c1 = c.drop_last();
        let dab = edit_distance(a, b);
        let dbc = edit_distance(b, c);
        let cost_ab: nat = if a.last() == b.last() { 0 } else { 1 };
        let cost_bc: nat = if b.last() == c.last() { 0 } else { 1 };
        let cost_ac: nat = if a.last() == c.last() { 0 } else { 1 };
        assert(cost_ac <= cost_ab + cost_bc);
        if dab == edit_distance(a1, b) + 1 {
            lemma_edit_distance_triangle(a1, b, c);
        } else if dbc == edit_distance(b, c1) + 1 {
            lemma_edit_distance_triangle(a, b, c1);
        } else if dab == edit_distance(a, b1) + 1 {
            lemma_edit_distance_triangle(a, b1, c);
            if dbc == edit_distance(b1, c) + 1 {
            } else {
                // dbc is the diagonal step: d(b1, c) <= d(b1, c1) + 1
                assert(dbc == edit_distance(b1, c1) + cost_bc);
                lemma_edit_distance_insert_last(b1, c);
            }
        } else {
            assert(dab == edit_distance(a1, b1) + cost_ab);
            if dbc == edit_distance(b1, c) + 1 {
                lemma_edit_distance_triangle(a1, b1, c);
            } else {
                assert(dbc == edit_distance(b1, c1) + cost_bc);
                lemma_edit_distance_triangle(a1, b1, c1);
            }
        }
    }
}

/// Adding a character at the end of the target costs at most one step.
proof fn lemma_edit_distance_insert_last(a: Seq<char>, c: Seq<char>)
    requires
        c.len() > 0,
    ensures
        edit_distance(a, c) <= edit_distance(a, c.drop_last()) + 1,
{
}

/// One step of the recurrence, phrased over prefixes of two fixed sequences.
proof fn lemma_edit_distance_prefix_step(a: Seq<char>, b: Seq<char>, i: int, j: int)
    requires
        0 <= i < a.len(),
        0 <= j < b.len(),
    ensures
        edit_distance(a.take(i + 1), b.take(j + 1)) == min_nat(
            min_nat(
                edit_distance(a.take(i), b.take(j + 1)) + 1,
                edit_distance(a.take(i + 1), b.take(j)) + 1,
            ),
            edit_distance(a.take(i), b.take(j)) + if a[i] == b[j] {
                0nat
            } else {
                1nat
            },
        ),
{
    assert(a.take(i + 1).drop_last() =~= a.take(i));
    assert(b.take(j + 1).drop_last() =~= b.take(j));
    assert(a.take(i + 1).last() == a[i]);
    assert(b.take(j + 1).last() == b[j]);
}

/// The distance from the empty sequence is the other sequence's length.
proof fn lemma_edit_distance_from_empty(a: Seq<char>, b: Seq<char>)
    ensures
        edit_distance(Seq::empty(), b) == b.len(),
        edit_distance(a, Seq::empty()) == a.len(),
{
}

/// Levenshtein distance between two strings, counted in characters.
pub fn levenshtein_distance(s1: &str, s2: &str) -> (d: usize)
    ensures
        d == edit_distance(s1@, s2@),
{
    let a = chars_of(s1);
    let b = chars_of(s2);
    let len1 = a.len();
    let len2 = b.len();

    // prev[j] is the distance between a[..i] and b[..j].
    let mut prev: Vec<usize> = Vec::new();
    while prev.len() <= len2
        invariant
            len2 == b@.len(),
            prev@.len() <= len2 + 1,
            forall|k: int| 0 <= k < prev@.len() ==> prev@[k] == k,
        decreases len2 + 1 - prev@.len(),
    {
        let k = prev.len();
        prev.push(k);
    }
    proof {
        assert forall|k: int| 0 <= k <= len2 implies prev@[k] == edit_distance(
            a@.take(0),
            b@.take(k),
        ) by {
            lemma_edit_distance_from_empty(a@.take(0), b@.take(k));
            assert(a@.take(0) =~= Seq::<char>::empty());
        }
    }

    let mut i: usize = 0;
    while i < len1
        invariant
            i <= len1,
            len1 == a@.len(),
            len2 == b@.len(),
            prev@.len() == len2 + 1,
            forall|k: int|
                0 <= k <= len2 ==> #[trigger] prev@[k] == edit_distance(a@.take(i as int), b@.take(k)),
        decreases len1 - i,
    {
        let mut cur: Vec<usize> = Vec::new();
        cur.push(i + 1);
        proof {
            lemma_edit_distance_from_empty(a@.take(i + 1), b@.take(0));
            assert(b@.take(0) =~= Seq::<char>::empty());
        }
        let mut j: usize = 0;
        while j < len2
            invariant
                i < len1,
                j <= len2,
                len1 == a@.len(),
                len2 == b@.len(),
                prev@.len() == len2 + 1,
                forall|k: int|
                    0 <= k <= len2 ==> #[trigger] prev@[k] == edit_distance(
                        a@.take(i as int),
                        b@.take(k),
                    ),
                cur@.len() == j + 1,
                forall|k: int|
                    0 <= k <= j ==> #[trigger] cur@[k] == edit_distance(a@.take(i + 1), b@.take(k)),
            decreases len2 - j,
        {
            let diag = prev[j];
            let up = prev[j + 1];
            let left = cur[j];
            proof {
                lemma_edit_distance_at_most_longer(a@.take(i as int), b@.take(j as int));
                lemma_edit_distance_prefix_step(a@, b@, i as int, j as int);
            }
            let mut best = if a[i] == b[j] {
                diag
            } else {
                diag + 1
            };
            if up < best {
                best = up + 1;
            }
            if left < best {
                best = left + 1;
            }
            cur.push(best);
            j = j + 1;
        }
        prev = cur;
        i = i + 1;
    }
    assert(a@.take(len1 as int) =~= a@);
    assert(b@.take(len2 as int) =~= b@);
    prev[len2]
}

/// The SM-2 quality (0 to 5) that an answer at `distance` from an answer of
/// `answer_len` earns: 5 for an exact answer, then one point less for each
/// fifth of the answer's length that the distance reaches; 0 when the answer
/// is empty.
pub open spec fn quality_for(distance: nat, answer_len: nat) -> u8 {
    if answer_len == 0 {
        0
    } else if distance == 0 {
        5
    } else if 5 * distance < answer_len {
        4
    } else if 5 * distance < 2 * answer_len {
        3
    } else if 5 * distance < 3 * answer_len {
        2
    } else if 5 * distance < 4 * answer_len {
        1
    } else {
        0
    }
}

/// Map Levenshtein distance to SM-2 quality (0-5): the normalized distance
/// `distance / answer_len` is compared with 0.2, 0.4, 0.6 and 0.8.
/// 0 = exact match, higher = more different.
pub fn distance_to_quality(distance: usize, answer_len: usize) -> (q: u8)
    ensures
        q == quality_for(distance as nat, answer_len as nat),
{
    if answer_len == 0 {
        return 0;
    }
    let d: u128 = distance as u128;
    let n: u128 = answer_len as u128;
    if d == 0 {
        5
    } else if 5 * d < n {
        4
    } else if 5 * d < 2 * n {
        3
    } else if 5 * d < 3 * n {
        2
    } else if 5 * d < 4 * n {
        1
    } else {
        0
    }
}

/// Qualities range over 0 to 5.
pub proof fn lemma_quality_at_most_five(distance: nat, answer_len: nat)
    ensures
        quality_for(distance, answer_len) <= 5,
{
}

/// An exact answer to a non-empty question earns 5, and only an exact one.
pub proof fn lemma_quality_five_iff_exact(distance: nat, answer_len: nat)
    requires
        answer_len > 0,
    ensures
        quality_for(distance, answer_len) == 5 <==> distance == 0,
{
}

/// A larger distance never earns a higher quality.
pub proof fn lemma_quality_monotone(d1: nat, d2: nat, answer_len: nat)
    requires
        d1 <= d2,
    ensures
        quality_for(d1, answer_len) >= quality_for(d2, answer_len),
{
}

} // verus!
