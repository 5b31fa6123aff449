//! The markdown word-list format: one `english — russian` pair per line,
//! as a list item (`- english — russian`, or `- english - russian`), as a
//! table row (`| english | russian |`), or as a bare line.

use vstd::prelude::*;
use crate::text::{
    chars_of, lemma_trim_idempotent, lemma_trim_is_subrange, lowercase, string_from_chars, to_lowercase, trim, trim_bounds,
};

verus! {

/// The em dash, U+2014, the preferred separator between the two words.
pub open spec fn em_dash() -> char {
    '\u{2014}'
}

/// The pieces of `s` between line feeds (the last piece may be empty).
/// Trailing carriage returns stay in the pieces; every piece is trimmed
/// before use, so they make no difference to what is read.
pub open spec fn split_lines(s: Seq<char>) -> Seq<Seq<char>>
    decreases s.len(),
{
    if s.len() == 0 {
        seq![Seq::empty()]
    } else {
        let prev = split_lines(s.drop_last());
        if s.last() == '\n' {
            prev.push(Seq::empty())
        } else {
            prev.update(prev.len() - 1, prev.last().push(s.last()))
        }
    }
}

/// The offset of the first occurrence of the non-empty `pat` in `s`.
pub open spec fn find(s: Seq<char>, pat: Seq<char>) -> Option<int>
    decreases s.len(),
{
    if s.len() < pat.len() || pat.len() == 0 {
        if pat.len() == 0 {
            Some(0)
        } else {
            None
        }
    } else if s.take(pat.len() as int) == pat {
        Some(0)
    } else {
        match find(s.drop_first(), pat) {
            Some(k) => Some(k + 1),
            None => None,
        }
    }
}

/// The two sides of a `english — russian` or `english - russian` pair,
/// untrimmed: the first em dash splits the text; failing one, the first
/// `" - "` does.
pub open spec fn split_separator(s: Seq<char>) -> Option<(Seq<char>, Seq<char>)> {
    match find(s, seq![em_dash()]) {
        Some(p) => Some((s.take(p), s.skip(p + 1))),
        None => match find(s, seq![' ', '-', ' ']) {
            Some(p) => Some((s.take(p), s.skip(p + 3))),
            None => None,
        },
    }
}

/// The entry of a list item or bare line: both sides trimmed, and kept only
/// when neither is empty.
pub open spec fn pair_entry(s: Seq<char>) -> Seq<(Seq<char>, Seq<char>)> {
    match split_separator(s) {
        Some((en, ru)) => if trim(en).len() > 0 && trim(ru).len() > 0 {
            seq![(trim(en), trim(ru))]
        } else {
            seq![]
        },
        None => seq![],
    }
}

/// Whether a cell holds nothing but dashes and spaces (a table's rule row).
pub open spec fn dashes_and_spaces(s: Seq<char>) -> bool {
    forall|i: int| 0 <= i < s.len() ==> s[i] == '-' || s[i] == ' '
}

/// The entry of a table row with the outer bars removed: its first two
/// cells, trimmed, unless the first cell is a header (`english` or `en` in
/// any case), a rule, or empty. A row with one cell gives nothing.
pub open spec fn table_entry(inner: Seq<char>) -> Seq<(Seq<char>, Seq<char>)> {
    match find(inner, seq!['|']) {
        None => seq![],
        Some(p) => {
            let en = trim(inner.take(p));
            let rest = inner.skip(p + 1);
            let ru = match find(rest, seq!['|']) {
                Some(q) => trim(rest.take(q)),
                None => trim(rest),
            };
            if lowercase(en) != "english"@ && lowercase(en) != "en"@ && !dashes_and_spaces(en)
                && en.len() > 0 {
                seq![(en, ru)]
            } else {
                seq![]
            }
        },
    }
}

/// The entry (none or one) that a line of the file gives.
pub open spec fn line_entry(line: Seq<char>) -> Seq<(Seq<char>, Seq<char>)> {
    let t = trim(line);
    if t.len() == 0 {
        seq![]
    } else if t.len() >= 2 && t[0] == '-' && t[1] == ' ' {
        pair_entry(t.skip(2))
    } else if t[0] == '|' && t.last() == '|' {
        if t.len() >= 2 {
            table_entry(t.subrange(1, t.len() - 1))
        } else {
            // a lone bar is no table row
            seq![]
        }
    } else {
        pair_entry(t)
    }
}

/// The entries of a sequence of lines, in order.
pub open spec fn entries_of_lines(lines: Seq<Seq<char>>) -> Seq<(Seq<char>, Seq<char>)>
    decreases lines.len(),
{
    if lines.len() == 0 {
        seq![]
    } else {
        entries_of_lines(lines.drop_last()) + line_entry(lines.last())
    }
}

/// The (english, russian) pairs that the markdown text `content` lists.
pub open spec fn markdown_entries(content: Seq<char>) -> Seq<(Seq<char>, Seq<char>)> {
    entries_of_lines(split_lines(content))
}

/// The character views of a list of string pairs.
pub open spec fn pairs_view(v: Seq<(String, String)>) -> Seq<(Seq<char>, Seq<char>)> {
    v.map_values(|p: (String, String)| (p.0@, p.1@))
}

proof fn lemma_split_lines_nonempty(s: Seq<char>)
    ensures
        split_lines(s).len() >= 1,
    decreases s.len(),
{
    if s.len() > 0 {
        lemma_split_lines_nonempty(s.drop_last());
    }
}

/// `find` gives the first place where the pattern occurs.
proof fn lemma_find_at(s: Seq<char>, pat: Seq<char>, i: int)
    requires
        pat.len() > 0,
        0 <= i,
        i + pat.len() <= s.len(),
        s.subrange(i, i + pat.len()) == pat,
        forall|k: int| 0 <= k < i ==> #[trigger] s.subrange(k, k + pat.len()) != pat,
    ensures
        find(s, pat) == Some(i),
    decreases i,
{
    if i > 0 {
        assert(s.subrange(0, 0int + pat.len()) != pat);
        assert(s.take(pat.len() as int) =~= s.subrange(0, pat.len() as int));
        let t = s.drop_first();
        assert(t.subrange(i - 1, i - 1 + pat.len()) =~= s.subrange(i, i + pat.len()));
        assert forall|k: int| 0 <= k < i - 1 implies #[trigger] t.subrange(k, k + pat.len())
            != pat by {
            assert(t.subrange(k, k + pat.len()) =~= s.subrange(k + 1, k + 1 + pat.len()));
        }
        lemma_find_at(t, pat, i - 1);
    } else {
        assert(s.take(pat.len() as int) =~= s.subrange(0, pat.len() as int));
    }
}

/// `find` gives nothing when the pattern occurs nowhere.
proof fn lemma_find_none(s: Seq<char>, pat: Seq<char>)
    requires
        pat.len() > 0,
        forall|k: int|
            0 <= k && k + pat.len() <= s.len() ==> #[trigger] s.subrange(k, k + pat.len()) != pat,
    ensures
        find(s, pat) is None,
    decreases s.len(),
{
    if s.len() >= pat.len() {
        assert(s.subrange(0, 0int + pat.len()) != pat);
        assert(s.take(pat.len() as int) =~= s.subrange(0, pat.len() as int));
        let t = s.drop_first();
        assert forall|k: int| 0 <= k && k + pat.len() <= t.len() implies #[trigger] t.subrange(
            k,
            k + pat.len(),
        ) != pat by {
            assert(t.subrange(k, k + pat.len()) =~= s.subrange(k + 1, k + 1 + pat.len()));
        }
        lemma_find_none(t, pat);
    }
}

/// Whether `pat` occurs in `v` at `i`.
pub(crate) fn occurs_at(v: &Vec<char>, i: usize, pat: &Vec<char>) -> (b: bool)
    requires
        i <= v@.len(),
        pat@.len() <= v@.len() - i,
    ensures
        b == (v@.subrange(i as int, i + pat@.len()) == pat@),
{
    let n = v.len();
    let mut k: usize = 0;
    while k < pat.len()
        invariant
            n == v@.len(),
            k <= pat@.len(),
            i <= v@.len(),
            pat@.len() <= v@.len() - i,
            forall|m: int| 0 <= m < k ==> v@[i + m] == pat@[m],
        decreases pat@.len() - k,
    {
        if v[i + k] != pat[k] {
            assert(v@.subrange(i as int, i + pat@.len())[k as int] != pat@[k as int]);
            return false;
        }
        k = k + 1;
    }
    assert(v@.subrange(i as int, i + pat@.len()) =~= pat@);
    true
}

/// The first place in `v[lo..hi]` where the non-empty `pat` occurs.
pub(crate) fn find_in(v: &Vec<char>, lo: usize, hi: usize, pat: &Vec<char>) -> (r: Option<usize>)
    requires
        lo <= hi <= v@.len(),
        pat@.len() > 0,
    ensures
        match r {
            Some(i) => lo <= i && i + pat@.len() <= hi && find(v@.subrange(lo as int, hi as int), pat@)
                == Some(i - lo),
            None => find(v@.subrange(lo as int, hi as int), pat@) is None,
        },
{
    let ghost s = v@.subrange(lo as int, hi as int);
    let p = pat.len();
    let mut i = lo;
    while i < hi && p <= hi - i
        invariant
            lo <= i <= hi <= v@.len(),
            p == pat@.len(),
            p > 0,
            s == v@.subrange(lo as int, hi as int),
            forall|k: int| 0 <= k < i - lo ==> #[trigger] s.subrange(k, k + p) != pat@,
        decreases hi - i,
    {
        let found = occurs_at(v, i, pat);
        assert(v@.subrange(i as int, i + p) =~= s.subrange(i - lo, i - lo + p));
        if found {
            proof {
                lemma_find_at(s, pat@, i - lo);
            }
            return Some(i);
        }
        i = i + 1;
    }
    proof {
        lemma_find_none(s, pat@);
    }
    None
}

/// The two sides of a separated pair in `v[lo..hi]`, as bounds in `v`.
fn split_separator_bounds(v: &Vec<char>, lo: usize, hi: usize) -> (r: Option<
    ((usize, usize), (usize, usize)),
>)
    requires
        lo <= hi <= v@.len(),
    ensures
        match r {
            Some(((a, b), (c, d))) => lo <= a <= b <= hi && lo <= c <= d <= hi && split_separator(
                v@.subrange(lo as int, hi as int),
            ) == Some((v@.subrange(a as int, b as int), v@.subrange(c as int, d as int))),
            None => split_separator(v@.subrange(lo as int, hi as int)) is None,
        },
{
    let ghost s = v@.subrange(lo as int, hi as int);
    let dash = vec!['\u{2014}'];
    assert(dash@ =~= seq![em_dash()]);
    match find_in(v, lo, hi, &dash) {
        Some(p) => {
            assert(s.take(p - lo) =~= v@.subrange(lo as int, p as int));
            assert(s.skip(p - lo + 1) =~= v@.subrange(p + 1, hi as int));
            Some(((lo, p), (p + 1, hi)))
        },
        None => {
            let spaced = vec![' ', '-', ' '];
            assert(spaced@ =~= seq![' ', '-', ' ']);
            match find_in(v, lo, hi, &spaced) {
                Some(p) => {
                    assert(s.take(p - lo) =~= v@.subrange(lo as int, p as int));
                    assert(s.skip(p - lo + 3) =~= v@.subrange(p + 3, hi as int));
                    Some(((lo, p), (p + 3, hi)))
                },
                None => None,
            }
        },
    }
}

/// The entry of a list item or bare line in `v[lo..hi]`.
fn pair_entry_of(v: &Vec<char>, lo: usize, hi: usize) -> (r: Option<(String, String)>)
    requires
        lo <= hi <= v@.len(),
    ensures
        pair_entry(v@.subrange(lo as int, hi as int)) == match r {
            Some(p) => seq![(p.0@, p.1@)],
            None => Seq::<(Seq<char>, Seq<char>)>::empty(),
        },
{
    match split_separator_bounds(v, lo, hi) {
        Some(((a, b), (c, d))) => {
            let (a2, b2) = trim_bounds(v, a, b);
            let (c2, d2) = trim_bounds(v, c, d);
            if a2 < b2 && c2 < d2 {
                let en = string_from_chars(v, a2, b2);
                let ru = string_from_chars(v, c2, d2);
                Some((en, ru))
            } else {
                None
            }
        },
        None => None,
    }
}

/// Whether `v[lo..hi]` holds nothing but dashes and spaces.
fn all_dashes_and_spaces(v: &Vec<char>, lo: usize, hi: usize) -> (b: bool)
    requires
        lo <= hi <= v@.len(),
    ensures
        b == dashes_and_spaces(v@.subrange(lo as int, hi as int)),
{
    let mut i = lo;
    while i < hi
        invariant
            lo <= i <= hi <= v@.len(),
            forall|k: int| lo <= k < i ==> v@[k] == '-' || v@[k] == ' ',
        decreases hi - i,
    {
        if v[i] != '-' && v[i] != ' ' {
            assert(v@.subrange(lo as int, hi as int)[i - lo] == v@[i as int]);
            return false;
        }
        i = i + 1;
    }
    assert forall|k: int| 0 <= k < hi - lo implies v@.subrange(lo as int, hi as int)[k] == '-'
        || v@.subrange(lo as int, hi as int)[k] == ' ' by {
        assert(v@.subrange(lo as int, hi as int)[k] == v@[lo + k]);
    }
    true
}

/// The entry of a table row whose outer bars are removed, `v[lo..hi]`.
fn table_entry_of(v: &Vec<char>, lo: usize, hi: usize) -> (r: Option<(String, String)>)
    requires
        lo <= hi <= v@.len(),
    ensures
        table_entry(v@.subrange(lo as int, hi as int)) == match r {
            Some(p) => seq![(p.0@, p.1@)],
            None => Seq::<(Seq<char>, Seq<char>)>::empty(),
        },
{
    let ghost inner = v@.subrange(lo as int, hi as int);
    let bar = vec!['|'];
    assert(bar@ =~= seq!['|']);
    match find_in(v, lo, hi, &bar) {
        None => None,
        Some(p) => {
            assert(inner.take(p - lo) =~= v@.subrange(lo as int, p as int));
            assert(inner.skip(p - lo + 1) =~= v@.subrange(p + 1, hi as int));
            let (ea, eb) = trim_bounds(v, lo, p);
            let ru_end = match find_in(v, p + 1, hi, &bar) {
                Some(q) => {
                    assert(v@.subrange(p + 1, hi as int).take(q - (p + 1)) =~= v@.subrange(
                        p + 1,
                        q as int,
                    ));
                    q
                },
                None => hi,
            };
            let (ra, rb) = trim_bounds(v, p + 1, ru_end);
            let en = string_from_chars(v, ea, eb);
            let ru = string_from_chars(v, ra, rb);
            let lower = to_lowercase(en.as_str());
            let header_word = String::from_str("english");
            let header_short = String::from_str("en");
            let is_header = lower == header_word || lower == header_short;
            if !is_header && !all_dashes_and_spaces(v, ea, eb) && ea < eb {
                Some((en, ru))
            } else {
                None
            }
        },
    }
}

/// The entry (none or one) of the line `v[lo..hi]`.
fn line_entry_of(v: &Vec<char>, lo: usize, hi: usize) -> (r: Option<(String, String)>)
    requires
        lo <= hi <= v@.len(),
    ensures
        line_entry(v@.subrange(lo as int, hi as int)) == match r {
            Some(p) => seq![(p.0@, p.1@)],
            None => Seq::<(Seq<char>, Seq<char>)>::empty(),
        },
{
    let (a, b) = trim_bounds(v, lo, hi);
    let ghost t = v@.subrange(a as int, b as int);
    if a == b {
        return None;
    }
    if b - a >= 2 && v[a] == '-' && v[a + 1] == ' ' {
        assert(t.skip(2) =~= v@.subrange(a + 2, b as int));
        pair_entry_of(v, a + 2, b)
    } else if v[a] == '|' && v[b - 1] == '|' {
        if b - a == 1 {
            return None;
        }
        assert(t.subrange(1, t.len() - 1) =~= v@.subrange(a + 1, b - 1));
        table_entry_of(v, a + 1, b - 1)
    } else {
        pair_entry_of(v, a, b)
    }
}

proof fn lemma_split_lines_append(a: Seq<char>, b: Seq<char>)
    ensures
        split_lines(a.push('\n') + b) == split_lines(a) + split_lines(b),
    decreases b.len(),
{
    lemma_split_lines_nonempty(b);
    if b.len() == 0 {
        assert(a.push('\n') + b =~= a.push('\n'));
        assert(a.push('\n').drop_last() =~= a);
        assert(split_lines(a) + split_lines(b) =~= split_lines(a).push(Seq::empty()));
    } else {
        let s = a.push('\n') + b;
        assert(s.drop_last() =~= a.push('\n') + b.drop_last());
        lemma_split_lines_append(a, b.drop_last());
        lemma_split_lines_nonempty(b.drop_last());
        let la = split_lines(a);
        let lb = split_lines(b.drop_last());
        if b.last() == '\n' {
            assert(split_lines(s) =~= la + lb.push(Seq::empty()));
        } else {
            assert(split_lines(s) =~= la + lb.update(lb.len() - 1, lb.last().push(b.last())));
        }
    }
}

proof fn lemma_entries_of_lines_append(l1: Seq<Seq<char>>, l2: Seq<Seq<char>>)
    ensures
        entries_of_lines(l1 + l2) == entries_of_lines(l1) + entries_of_lines(l2),
    decreases l2.len(),
{
    if l2.len() == 0 {
        assert(l1 + l2 =~= l1);
        assert(entries_of_lines(l1) + entries_of_lines(l2) =~= entries_of_lines(l1));
    } else {
        assert((l1 + l2).drop_last() =~= l1 + l2.drop_last());
        lemma_entries_of_lines_append(l1, l2.drop_last());
        assert(entries_of_lines(l1 + l2) =~= entries_of_lines(l1) + entries_of_lines(l2));
    }
}

/// Lines are read one by one: the entries of two texts joined by a line
/// break are the entries of the first followed by those of the second.
pub proof fn lemma_markdown_entries_of_joined_lines(a: Seq<char>, b: Seq<char>)
    ensures
        markdown_entries(a + seq!['\n'] + b) == markdown_entries(a) + markdown_entries(b),
{
    assert(a + seq!['\n'] + b =~= a.push('\n') + b);
    lemma_split_lines_append(a, b);
    lemma_entries_of_lines_append(split_lines(a), split_lines(b));
}

proof fn lemma_line_entry_english_nonempty(line: Seq<char>)
    ensures
        forall|k: int|
            0 <= k < line_entry(line).len() ==> (#[trigger] line_entry(line)[k]).0.len() > 0,
{
}

proof fn lemma_entries_of_lines_english_nonempty(lines: Seq<Seq<char>>)
    ensures
        forall|k: int|
            0 <= k < entries_of_lines(lines).len() ==> (
            #[trigger] entries_of_lines(lines)[k]).0.len() > 0,
    decreases lines.len(),
{
    if lines.len() > 0 {
        lemma_entries_of_lines_english_nonempty(lines.drop_last());
        lemma_line_entry_english_nonempty(lines.last());
        let e1 = entries_of_lines(lines.drop_last());
        let e2 = line_entry(lines.last());
        assert forall|k: int| 0 <= k < entries_of_lines(lines).len() implies (
        #[trigger] entries_of_lines(lines)[k]).0.len() > 0 by {
            if k < e1.len() {
                assert(entries_of_lines(lines)[k] == e1[k]);
            } else {
                assert(entries_of_lines(lines)[k] == e2[k - e1.len()]);
            }
        }
    }
}

/// No entry read from a markdown text has an empty english side.
pub proof fn lemma_markdown_english_nonempty(content: Seq<char>)
    ensures
        forall|k: int|
            0 <= k < markdown_entries(content).len() ==> (
            #[trigger] markdown_entries(content)[k]).0.len() > 0,
{
    lemma_entries_of_lines_english_nonempty(split_lines(content));
}

/// Whether both sides of an entry are free of surrounding white space.
pub open spec fn entry_trimmed(e: (Seq<char>, Seq<char>)) -> bool {
    trim(e.0) == e.0 && trim(e.1) == e.1
}

proof fn lemma_pair_entry_trimmed(s: Seq<char>)
    ensures
        forall|k: int| 0 <= k < pair_entry(s).len() ==> entry_trimmed(#[trigger] pair_entry(s)[k]),
{
    match split_separator(s) {
        Some((en, ru)) => {
            lemma_trim_idempotent(en);
            lemma_trim_idempotent(ru);
            if trim(en).len() > 0 && trim(ru).len() > 0 {
                assert(pair_entry(s) == seq![(trim(en), trim(ru))]);
            }
        },
        None => {},
    }
}

proof fn lemma_table_entry_trimmed(inner: Seq<char>)
    ensures
        forall|k: int|
            0 <= k < table_entry(inner).len() ==> entry_trimmed(#[trigger] table_entry(inner)[k]),
{
    match find(inner, seq!['|']) {
        Some(p) => {
            let rest = inner.skip(p + 1);
            lemma_trim_idempotent(inner.take(p));
            lemma_trim_idempotent(rest);
            match find(rest, seq!['|']) {
                Some(q) => lemma_trim_idempotent(rest.take(q)),
                None => {},
            }
        },
        None => {},
    }
}

proof fn lemma_line_entry_trimmed(line: Seq<char>)
    ensures
        forall|k: int| 0 <= k < line_entry(line).len() ==> entry_trimmed(#[trigger] line_entry(line)[k]),
{
    let t = trim(line);
    if t.len() == 0 {
    } else if t.len() >= 2 && t[0] == '-' && t[1] == ' ' {
        lemma_pair_entry_trimmed(t.skip(2));
    } else if t[0] == '|' && t.last() == '|' {
        lemma_table_entry_trimmed(t.subrange(1, t.len() - 1));
    } else {
        lemma_pair_entry_trimmed(t);
    }
}

proof fn lemma_entries_of_lines_trimmed(lines: Seq<Seq<char>>)
    ensures
        forall|k: int|
            0 <= k < entries_of_lines(lines).len() ==> entry_trimmed(
                #[trigger] entries_of_lines(lines)[k],
            ),
    decreases lines.len(),
{
    if lines.len() > 0 {
        lemma_entries_of_lines_trimmed(lines.drop_last());
        lemma_line_entry_trimmed(lines.last());
        let e1 = entries_of_lines(lines.drop_last());
        let e2 = line_entry(lines.last());
        assert forall|k: int| 0 <= k < entries_of_lines(lines).len() implies entry_trimmed(
            #[trigger] entries_of_lines(lines)[k],
        ) by {
            if k < e1.len() {
                assert(entries_of_lines(lines)[k] == e1[k]);
            } else {
                assert(entries_of_lines(lines)[k] == e2[k - e1.len()]);
            }
        }
    }
}

/// Both sides of every entry read from a markdown text are trimmed.
pub proof fn lemma_markdown_entries_trimmed(content: Seq<char>)
    ensures
        forall|k: int|
            0 <= k < markdown_entries(content).len() ==> entry_trimmed(
                #[trigger] markdown_entries(content)[k],
            ),
{
    lemma_entries_of_lines_trimmed(split_lines(content));
}

/// Whether `s` holds no line feed.
pub open spec fn no_line_feed(s: Seq<char>) -> bool {
    forall|i: int| 0 <= i < s.len() ==> s[i] != '\n'
}

proof fn lemma_no_line_feed_subrange(s: Seq<char>, a: int, b: int)
    requires
        no_line_feed(s),
        0 <= a <= b <= s.len(),
    ensures
        no_line_feed(s.subrange(a, b)),
{
    assert forall|i: int| 0 <= i < b - a implies s.subrange(a, b)[i] != '\n' by {
        assert(s.subrange(a, b)[i] == s[a + i]);
    }
}

proof fn lemma_no_line_feed_trim(s: Seq<char>)
    requires
        no_line_feed(s),
    ensures
        no_line_feed(trim(s)),
{
    let r = lemma_trim_is_subrange(s);
    lemma_no_line_feed_subrange(s, r.0, r.1);
}

proof fn lemma_split_lines_no_line_feed(s: Seq<char>)
    ensures
        forall|k: int| 0 <= k < split_lines(s).len() ==> no_line_feed(#[trigger] split_lines(s)[k]),
    decreases s.len(),
{
    lemma_split_lines_nonempty(s);
    if s.len() > 0 {
        let prev = split_lines(s.drop_last());
        lemma_split_lines_no_line_feed(s.drop_last());
        lemma_split_lines_nonempty(s.drop_last());
        assert forall|k: int| 0 <= k < split_lines(s).len() implies no_line_feed(
            #[trigger] split_lines(s)[k],
        ) by {
            if k < prev.len() - 1 {
                assert(split_lines(s)[k] == prev[k]);
            } else if s.last() != '\n' && k == prev.len() - 1 {
                let l = prev.last().push(s.last());
                assert(split_lines(s)[k] == l);
                assert(no_line_feed(prev[prev.len() - 1]));
                assert forall|i: int| 0 <= i < l.len() implies l[i] != '\n' by {
                    if i < l.len() - 1 {
                        assert(l[i] == prev.last()[i]);
                    }
                }
            } else if s.last() == '\n' && k == prev.len() - 1 {
                assert(split_lines(s)[k] == prev[k]);
            }
        }
    }
}

proof fn lemma_pair_entry_shape(s: Seq<char>)
    requires
        no_line_feed(s),
    ensures
        pair_entry(s).len() <= 1,
        forall|k: int|
            0 <= k < pair_entry(s).len() ==> no_line_feed((#[trigger] pair_entry(s)[k]).0)
                && no_line_feed(pair_entry(s)[k].1),
{
    match split_separator(s) {
        Some((en, ru)) => {
            match find(s, seq![em_dash()]) {
                Some(p) => {
                    lemma_find_bounds(s, seq![em_dash()]);
                    lemma_no_line_feed_subrange(s, 0, p);
                    lemma_no_line_feed_subrange(s, p + 1, s.len() as int);
                },
                None => {
                    let p = find(s, seq![' ', '-', ' ']).unwrap();
                    lemma_find_bounds(s, seq![' ', '-', ' ']);
                    lemma_no_line_feed_subrange(s, 0, p);
                    lemma_no_line_feed_subrange(s, p + 3, s.len() as int);
                },
            }
            lemma_no_line_feed_trim(en);
            lemma_no_line_feed_trim(ru);
        },
        None => {},
    }
}

proof fn lemma_table_entry_shape(inner: Seq<char>)
    requires
        no_line_feed(inner),
    ensures
        table_entry(inner).len() <= 1,
        forall|k: int|
            0 <= k < table_entry(inner).len() ==> no_line_feed((#[trigger] table_entry(inner)[k]).0)
                && no_line_feed(table_entry(inner)[k].1),
{
    match find(inner, seq!['|']) {
        Some(p) => {
            lemma_find_bounds(inner, seq!['|']);
            let rest = inner.skip(p + 1);
            lemma_no_line_feed_subrange(inner, 0, p);
            lemma_no_line_feed_subrange(inner, p + 1, inner.len() as int);
            lemma_no_line_feed_trim(inner.take(p));
            lemma_no_line_feed_trim(rest);
            match find(rest, seq!['|']) {
                Some(q) => {
                    lemma_find_bounds(rest, seq!['|']);
                    lemma_no_line_feed_subrange(rest, 0, q);
                    lemma_no_line_feed_trim(rest.take(q));
                },
                None => {},
            }
        },
        None => {},
    }
}

/// Where `find` finds the pattern, it lies inside the text.
proof fn lemma_find_bounds(s: Seq<char>, pat: Seq<char>)
    ensures
        find(s, pat) matches Some(p) ==> 0 <= p && p + pat.len() <= s.len(),
    decreases s.len(),
{
    if s.len() >= pat.len() && pat.len() > 0 && s.take(pat.len() as int) != pat {
        lemma_find_bounds(s.drop_first(), pat);
    }
}

proof fn lemma_line_entry_shape(line: Seq<char>)
    requires
        no_line_feed(line),
    ensures
        line_entry(line).len() <= if trim(line).len() > 0 {
            1int
        } else {
            0int
        },
        forall|k: int|
            0 <= k < line_entry(line).len() ==> no_line_feed((#[trigger] line_entry(line)[k]).0)
                && no_line_feed(line_entry(line)[k].1),
{
    let t = trim(line);
    lemma_no_line_feed_trim(line);
    if t.len() == 0 {
    } else if t.len() >= 2 && t[0] == '-' && t[1] == ' ' {
        lemma_no_line_feed_subrange(t, 2, t.len() as int);
        lemma_pair_entry_shape(t.skip(2));
    } else if t[0] == '|' && t.last() == '|' {
        if t.len() >= 2 {
            lemma_no_line_feed_subrange(t, 1, t.len() - 1);
            lemma_table_entry_shape(t.subrange(1, t.len() - 1));
        }
    } else {
        lemma_pair_entry_shape(t);
    }
}

/// The number of lines that are not blank once trimmed.
pub open spec fn nonblank_lines(lines: Seq<Seq<char>>) -> nat
    decreases lines.len(),
{
    if lines.len() == 0 {
        0
    } else {
        nonblank_lines(lines.drop_last()) + if trim(lines.last()).len() > 0 {
            1nat
        } else {
            0nat
        }
    }
}

proof fn lemma_entries_of_lines_shape(lines: Seq<Seq<char>>)
    requires
        forall|k: int| 0 <= k < lines.len() ==> no_line_feed(#[trigger] lines[k]),
    ensures
        entries_of_lines(lines).len() <= nonblank_lines(lines),
        forall|k: int|
            0 <= k < entries_of_lines(lines).len() ==> no_line_feed(
                (#[trigger] entries_of_lines(lines)[k]).0,
            ) && no_line_feed(entries_of_lines(lines)[k].1),
    decreases lines.len(),
{
    if lines.len() > 0 {
        let init = lines.drop_last();
        assert forall|k: int| 0 <= k < init.len() implies no_line_feed(#[trigger] init[k]) by {
            assert(init[k] == lines[k]);
        }
        assert(no_line_feed(lines[lines.len() - 1]));
        lemma_entries_of_lines_shape(init);
        lemma_line_entry_shape(lines.last());
        let e1 = entries_of_lines(init);
        let e2 = line_entry(lines.last());
        assert forall|k: int| 0 <= k < entries_of_lines(lines).len() implies no_line_feed(
            (#[trigger] entries_of_lines(lines)[k]).0,
        ) && no_line_feed(entries_of_lines(lines)[k].1) by {
            if k < e1.len() {
                assert(entries_of_lines(lines)[k] == e1[k]);
            } else {
                assert(entries_of_lines(lines)[k] == e2[k - e1.len()]);
            }
        }
    }
}

/// A markdown text gives at most one entry per non-blank line, and no side
/// of an entry holds a line feed.
pub proof fn lemma_markdown_entries_shape(content: Seq<char>)
    ensures
        markdown_entries(content).len() <= nonblank_lines(split_lines(content)),
        forall|k: int|
            0 <= k < markdown_entries(content).len() ==> no_line_feed(
                (#[trigger] markdown_entries(content)[k]).0,
            ) && no_line_feed(markdown_entries(content)[k].1),
{
    lemma_split_lines_no_line_feed(content);
    lemma_entries_of_lines_shape(split_lines(content));
}

/// Where `find` finds a single character, it stands there and nowhere
/// before; where it finds none, the text holds none.
proof fn lemma_find_char(s: Seq<char>, c: char)
    ensures
        match find(s, seq![c]) {
            Some(p) => 0 <= p < s.len() && s[p] == c && forall|k: int| 0 <= k < p ==> s[k] != c,
            None => forall|k: int| 0 <= k < s.len() ==> s[k] != c,
        },
    decreases s.len(),
{
    if s.len() > 0 {
        assert(s.take(1) =~= seq![s[0]]);
        if s[0] != c {
            assert(seq![s[0]][0] != seq![c][0]);
            let t = s.drop_first();
            lemma_find_char(t, c);
            match find(t, seq![c]) {
                Some(p) => {
                    assert forall|k: int| 0 <= k < p + 1 implies s[k] != c by {
                        if k > 0 {
                            assert(s[k] == t[k - 1]);
                        }
                    }
                },
                None => {
                    assert forall|k: int| 0 <= k < s.len() implies s[k] != c by {
                        if k > 0 {
                            assert(s[k] == t[k - 1]);
                        }
                    }
                },
            }
        }
    }
}

/// Whether `s` holds no bar.
pub open spec fn bar_free(s: Seq<char>) -> bool {
    forall|i: int| 0 <= i < s.len() ==> s[i] != '|'
}

/// Whether the bar at `a` and the bar at `b` (or the end, where
/// `b == inner.len()`) bound the first two cells of a table row's inner
/// text `inner`: the first cell is `inner[..a]`, the second `inner[a+1..b]`.
pub open spec fn first_two_cells(inner: Seq<char>, a: int, b: int) -> bool {
    &&& 0 <= a < b <= inner.len()
    &&& inner[a] == '|'
    &&& b == inner.len() || inner[b] == '|'
    &&& forall|i: int| 0 <= i < b && i != a ==> inner[i] != '|'
}

/// Every part of `trim(s)` is a part of `s`.
proof fn lemma_trim_keeps_bar_free(s: Seq<char>)
    requires
        bar_free(s),
    ensures
        bar_free(trim(s)),
{
    let (a, b) = lemma_trim_is_subrange(s);
    assert forall|i: int| 0 <= i < trim(s).len() implies trim(s)[i] != '|' by {
        assert(trim(s)[i] == s[a + i]);
    }
}

/// A table row `| a | b | ... |` gives at most one entry, made of its first
/// two cells, trimmed: the cells are the pieces of the text between the
/// outer bars that the inner bars cut apart, and a row with a single cell
/// gives nothing. So neither side of such an entry holds a bar.
pub proof fn lemma_table_row_cells(line: Seq<char>)
    requires
        trim(line).len() >= 2,
        trim(line)[0] == '|',
        trim(line).last() == '|',
    ensures
        ({
            let inner = trim(line).subrange(1, trim(line).len() - 1);
            &&& line_entry(line).len() <= 1
            &&& line_entry(line).len() == 1 ==> exists|a: int, b: int|
                first_two_cells(inner, a, b)
            &&& forall|a: int, b: int, k: int|
                first_two_cells(inner, a, b) && 0 <= k < line_entry(line).len() ==> (
                #[trigger] line_entry(line)[k]).0 == trim(inner.take(a)) && line_entry(line)[k].1
                    == trim(#[trigger] inner.subrange(a + 1, b))
            &&& forall|k: int|
                0 <= k < line_entry(line).len() ==> bar_free((#[trigger] line_entry(line)[k]).0)
                    && bar_free(line_entry(line)[k].1)
        }),
{
    let t = trim(line);
    let inner = t.subrange(1, t.len() - 1);
    assert(line_entry(line) == table_entry(inner));
    lemma_find_char(inner, '|');
    match find(inner, seq!['|']) {
        None => {},
        Some(p) => {
            let rest = inner.skip(p + 1);
            lemma_find_char(rest, '|');
            let b0: int = match find(rest, seq!['|']) {
                Some(q) => p + 1 + q,
                None => inner.len() as int,
            };
            assert(inner.subrange(p + 1, b0) == match find(rest, seq!['|']) {
                Some(q) => rest.take(q),
                None => rest,
            });
            assert forall|i: int| 0 <= i < b0 && i != p implies inner[i] != '|' by {
                if i > p {
                    assert(inner[i] == rest[i - p - 1]);
                }
            }
            assert(b0 < inner.len() ==> inner[b0] == '|') by {
                if b0 < inner.len() {
                    assert(inner[b0] == rest[b0 - p - 1]);
                }
            }
            assert(first_two_cells(inner, p, b0));
            assert forall|a: int, b: int| first_two_cells(inner, a, b) implies a == p && b
                == b0 by {
                if p < a {
                    assert(inner[p] == '|');
                }
                if b < b0 {
                    assert(inner[b] == rest[b - p - 1]);
                }
                if b0 < b {
                    assert(inner[b0] == '|');
                }
            }
            let first = inner.take(p);
            let second = inner.subrange(p + 1, b0);
            assert forall|i: int| 0 <= i < first.len() implies first[i] != '|' by {
                assert(first[i] == inner[i]);
            }
            assert forall|i: int| 0 <= i < second.len() implies second[i] != '|' by {
                assert(second[i] == inner[p + 1 + i]);
            }
            lemma_trim_keeps_bar_free(inner.take(p));
            lemma_trim_keeps_bar_free(inner.subrange(p + 1, b0));
        },
    }
}

/// Parse markdown content into (english, russian) pairs.
///
/// Supported formats:
///   - `- word — слово` (dash or hyphen separator)
///   - `| english | russian |` table rows
pub fn parse_markdown(content: &str) -> (words: Vec<(String, String)>)
    ensures
        pairs_view(words@) == markdown_entries(content@),
{
    let v = chars_of(content);
    let mut words: Vec<(String, String)> = Vec::new();
    let mut start: usize = 0;
    let mut i: usize = 0;
    proof {
        assert(v@.take(0) =~= Seq::<char>::empty());
        assert(pairs_view(words@) =~= Seq::<(Seq<char>, Seq<char>)>::empty());
    }
    while i < v.len()
        invariant
            v@ == content@,
            start <= i <= v@.len(),
            split_lines(v@.take(i as int)).len() >= 1,
            split_lines(v@.take(i as int)).last() == v@.subrange(start as int, i as int),
            pairs_view(words@) == entries_of_lines(split_lines(v@.take(i as int)).drop_last()),
        decreases v@.len() - i,
    {
        let ghost prev = split_lines(v@.take(i as int));
        proof {
            assert(v@.take(i + 1).drop_last() =~= v@.take(i as int));
        }
        if v[i] == '\n' {
            proof {
                assert(split_lines(v@.take(i + 1)) =~= prev.push(Seq::empty()));
            }
            let entry = line_entry_of(&v, start, i);
            let ghost before = words@;
            match entry {
                Some(p) => {
                    words.push(p);
                },
                None => {},
            }
            proof {
                assert(split_lines(v@.take(i + 1)).drop_last() =~= prev);
                assert(prev =~= prev.drop_last().push(prev.last()));
                assert(pairs_view(words@) =~= pairs_view(before) + line_entry(prev.last()));
            }
            start = i + 1;
        } else {
            proof {
                assert(v@.subrange(start as int, i + 1) =~= v@.subrange(
                    start as int,
                    i as int,
                ).push(v@[i as int]));
                assert(split_lines(v@.take(i + 1)).drop_last() =~= prev.drop_last());
            }
        }
        i = i + 1;
    }
    proof {
        assert(v@.take(i as int) =~= content@);
    }
    let entry = line_entry_of(&v, start, i);
    let ghost before = words@;
    match entry {
        Some(p) => {
            words.push(p);
        },
        None => {},
    }
    proof {
        let lines = split_lines(content@);
        assert(lines =~= lines.drop_last().push(lines.last()));
        assert(pairs_view(words@) =~= pairs_view(before) + line_entry(lines.last()));
    }
    words
}

} // verus!
