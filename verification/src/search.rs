//! Looking a word up by what the user typed: exact matches (in either
//! language, ignoring case) when there are any, otherwise the five English
//! words most similar to the query.

use vstd::prelude::*;
use vstd::relations::{sorted_by, total_ordering};
use vstd::utf8::encode_utf8;
use crate::import::{find, find_in, occurs_at};
use crate::models::Word;
use crate::text::{chars_of, lowercase, to_lowercase};

verus! {

/// The state of the in-order character matching after reading `t`: how many
/// characters of `q` are matched, the points earned, and the position just
/// after the last match.
pub open spec fn in_order_matches(q: Seq<char>, t: Seq<char>) -> (nat, int, int)
    decreases t.len(),
{
    if t.len() == 0 {
        (0, 0, 0)
    } else {
        let prev = in_order_matches(q, t.drop_last());
        let i = t.len() - 1;
        if prev.0 < q.len() && q[prev.0 as int] == t[i] {
            (prev.0 + 1, prev.1 + 1 + if i == prev.2 {
                2int
            } else {
                0int
            }, i + 1)
        } else {
            prev
        }
    }
}

/// The length in bytes of the UTF-8 encoding of `s`, as `str::len` gives it.
pub open spec fn byte_len(s: Seq<char>) -> int {
    (encode_utf8(s).len() as usize) as int
}

/// How well `target` matches `query`: 100 if it starts with the query, 50 if
/// it contains it, one point for each query character found in order (three
/// when it directly follows the previous match), and up to 10 for similar
/// byte lengths. Empty texts score 0.
pub open spec fn similarity(query: Seq<char>, target: Seq<char>) -> int {
    if query.len() == 0 || target.len() == 0 {
        0
    } else {
        let gap = if byte_len(query) >= byte_len(target) {
            byte_len(query) - byte_len(target)
        } else {
            byte_len(target) - byte_len(query)
        };
        (if query.len() <= target.len() && target.take(query.len() as int) == query {
            100int
        } else {
            0int
        }) + (if find(target, query) is Some {
            50int
        } else {
            0int
        }) + in_order_matches(query, target).1 + 10 - if gap < 10 {
            gap
        } else {
            10
        }
    }
}

/// The similarity of the `i`th word's English side to the lowercased query.
pub open spec fn fuzzy_score(words: Seq<Word>, query_lower: Seq<char>, i: int) -> int {
    similarity(query_lower, lowercase(words[i].english@))
}

/// The ranking order: higher similarity first, and among equal ones the
/// earlier word first.
pub open spec fn ranks_before(words: Seq<Word>, query_lower: Seq<char>) -> spec_fn(int, int) -> bool {
    |i: int, j: int|
        fuzzy_score(words, query_lower, i) > fuzzy_score(words, query_lower, j) || (fuzzy_score(
            words,
            query_lower,
            i,
        ) == fuzzy_score(words, query_lower, j) && i <= j)
}

/// The positions of the words with a positive similarity, in list order.
pub open spec fn similar_positions(words: Seq<Word>, query_lower: Seq<char>, n: int) -> Seq<int> {
    Seq::new(n as nat, |i: int| i).filter(|i: int| fuzzy_score(words, query_lower, i) > 0)
}

/// The positions of the similar words, best first.
pub open spec fn ranked_positions(words: Seq<Word>, query_lower: Seq<char>) -> Seq<int> {
    similar_positions(words, query_lower, words.len() as int).sort_by(
        ranks_before(words, query_lower),
    )
}

/// The (at most) five best similar words.
pub open spec fn fuzzy_matches(words: Seq<Word>, query_lower: Seq<char>) -> Seq<Word> {
    let r = ranked_positions(words, query_lower);
    r.take(if r.len() < 5 {
        r.len() as int
    } else {
        5
    }).map_values(|i: int| words[i])
}

/// The words whose English or Russian side, lowercased, is the lowercased
/// query, in list order.
pub open spec fn exact_matches(words: Seq<Word>, query_lower: Seq<char>) -> Seq<Word> {
    words.filter(
        |w: Word| lowercase(w.english@) == query_lower || lowercase(w.russian@) == query_lower,
    )
}

/// What a search for `query` among `words` finds: the exact matches if
/// there are any, otherwise the five most similar words.
pub open spec fn search_results(words: Seq<Word>, query: Seq<char>) -> Seq<Word> {
    let ql = lowercase(query);
    if exact_matches(words, ql).len() > 0 {
        exact_matches(words, ql)
    } else {
        fuzzy_matches(words, ql)
    }
}

/// Every exact match names the query on one of its sides.
pub proof fn lemma_exact_matches_match(words: Seq<Word>, ql: Seq<char>)
    ensures
        forall|k: int|
            0 <= k < exact_matches(words, ql).len() ==> lowercase(
                (#[trigger] exact_matches(words, ql)[k]).english@,
            ) == ql || lowercase(exact_matches(words, ql)[k].russian@) == ql,
{
    let pred = |w: Word| lowercase(w.english@) == ql || lowercase(w.russian@) == ql;
    assert forall|k: int| 0 <= k < exact_matches(words, ql).len() implies lowercase(
        (#[trigger] exact_matches(words, ql)[k]).english@,
    ) == ql || lowercase(exact_matches(words, ql)[k].russian@) == ql by {
        words.lemma_filter_pred(pred, k);
    }
}

/// The similar words come best first, all with a positive similarity, and
/// at most five of them are shown.
pub proof fn lemma_fuzzy_matches_best_first(words: Seq<Word>, ql: Seq<char>)
    ensures
        fuzzy_matches(words, ql).len() <= 5,
        forall|i: int, j: int|
            0 <= i < j < ranked_positions(words, ql).len() ==> fuzzy_score(
                words,
                ql,
                #[trigger] ranked_positions(words, ql)[i],
            ) >= fuzzy_score(words, ql, #[trigger] ranked_positions(words, ql)[j]),
        forall|i: int|
            0 <= i < ranked_positions(words, ql).len() ==> fuzzy_score(
                words,
                ql,
                #[trigger] ranked_positions(words, ql)[i],
            ) > 0,
{
    let leq = ranks_before(words, ql);
    let cands = similar_positions(words, ql, words.len() as int);
    lemma_ranks_before_total(words, ql);
    cands.lemma_sort_by_ensures(leq);
    let r = ranked_positions(words, ql);
    assert forall|i: int, j: int| 0 <= i < j < r.len() implies fuzzy_score(
        words,
        ql,
        #[trigger] r[i],
    ) >= fuzzy_score(words, ql, #[trigger] r[j]) by {
        assert(leq(r[i], r[j]));
    }
    assert forall|i: int| 0 <= i < r.len() implies fuzzy_score(words, ql, #[trigger] r[i]) > 0 by {
        assert(r.contains(r[i]));
        assert(cands.contains(r[i]));
        let m = choose|m: int| 0 <= m < cands.len() && cands[m] == r[i];
        Seq::new(words.len() as nat, |k: int| k).lemma_filter_pred(
            |k: int| fuzzy_score(words, ql, k) > 0,
            m,
        );
    }
}

/// Filtering by two tests that agree on every element gives the same.
proof fn lemma_filter_agreeing(s: Seq<int>, f1: spec_fn(int) -> bool, f2: spec_fn(int) -> bool)
    requires
        forall|k: int| 0 <= k < s.len() ==> f1(#[trigger] s[k]) == f2(s[k]),
    ensures
        s.filter(f1) == s.filter(f2),
    decreases s.len(),
{
    reveal(Seq::filter);
    if s.len() > 0 {
        let t = s.drop_last();
        assert forall|k: int| 0 <= k < t.len() implies f1(#[trigger] t[k]) == f2(t[k]) by {
            assert(t[k] == s[k]);
        }
        lemma_filter_agreeing(t, f1, f2);
    }
}

/// The fuzzy ranking reads the English sides only through their lowercase
/// forms: two word lists of the same length whose English sides agree once
/// lowercased (they differ at most in the case of letters) rank the same
/// positions in the same order.
pub proof fn lemma_fuzzy_ranking_ignores_case(ws1: Seq<Word>, ws2: Seq<Word>, ql: Seq<char>)
    requires
        ws1.len() == ws2.len(),
        forall|i: int|
            0 <= i < ws1.len() ==> lowercase(#[trigger] ws1[i].english@) == lowercase(
                ws2[i].english@,
            ),
    ensures
        ranked_positions(ws1, ql) == ranked_positions(ws2, ql),
{
    let n = ws1.len() as int;
    let ids = Seq::new(n as nat, |i: int| i);
    let f1 = |i: int| fuzzy_score(ws1, ql, i) > 0;
    let f2 = |i: int| fuzzy_score(ws2, ql, i) > 0;
    assert forall|k: int| 0 <= k < ids.len() implies f1(#[trigger] ids[k]) == f2(ids[k]) by {
        assert(lowercase(ws1[k].english@) == lowercase(ws2[k].english@));
    }
    lemma_filter_agreeing(ids, f1, f2);
    let c = similar_positions(ws1, ql, n);
    assert(c == similar_positions(ws2, ql, n));
    let leq1 = ranks_before(ws1, ql);
    let leq2 = ranks_before(ws2, ql);
    lemma_ranks_before_total(ws1, ql);
    lemma_ranks_before_total(ws2, ql);
    c.lemma_sort_by_ensures(leq1);
    c.lemma_sort_by_ensures(leq2);
    let r1 = c.sort_by(leq1);
    let r2 = c.sort_by(leq2);
    assert forall|m: int| 0 <= m < r2.len() implies 0 <= #[trigger] r2[m] < n by {
        assert(r2.contains(r2[m]));
        assert(c.contains(r2[m]));
        ids.lemma_filter_contains_rev(f1, r2[m]);
        let j = choose|j: int| 0 <= j < ids.len() && ids[j] == r2[m];
    }
    assert forall|a: int, b: int| 0 <= a < b < r2.len() implies #[trigger] leq1(r2[a], r2[b]) by {
        assert(leq2(r2[a], r2[b]));
        let x = r2[a];
        let y = r2[b];
        assert(0 <= x < n && 0 <= y < n);
        assert(lowercase(ws1[x].english@) == lowercase(ws2[x].english@));
        assert(lowercase(ws1[y].english@) == lowercase(ws2[y].english@));
    }
    assert(sorted_by(r2, leq1));
    lemma_sorted_unique(r1, r2, leq1);
}

proof fn lemma_in_order_matches_bounds(q: Seq<char>, t: Seq<char>)
    ensures
        in_order_matches(q, t).0 <= q.len(),
        in_order_matches(q, t).0 <= t.len(),
        0 <= in_order_matches(q, t).1 <= 3 * in_order_matches(q, t).0,
    decreases t.len(),
{
    if t.len() > 0 {
        lemma_in_order_matches_bounds(q, t.drop_last());
    }
}

proof fn lemma_in_order_matches_self(q: Seq<char>, i: int)
    requires
        0 <= i <= q.len(),
    ensures
        in_order_matches(q, q.take(i)) == (i as nat, 3 * i, i),
    decreases i,
{
    if i > 0 {
        assert(q.take(i).drop_last() =~= q.take(i - 1));
        lemma_in_order_matches_self(q, i - 1);
    }
}

/// Scores are never negative and at most 160 plus three points per
/// character of the shorter text; empty texts score 0; a non-empty query
/// scores most against itself, 160 plus three points per character.
pub proof fn lemma_similarity_bounds(query: Seq<char>, target: Seq<char>)
    ensures
        0 <= similarity(query, target) <= 160 + 3 * (if query.len() <= target.len() {
            query.len()
        } else {
            target.len()
        }),
        query.len() == 0 || target.len() == 0 ==> similarity(query, target) == 0,
        query.len() > 0 ==> similarity(query, query) == 160 + 3 * query.len(),
        query.len() > 0 ==> similarity(query, target) <= similarity(query, query),
{
    lemma_in_order_matches_bounds(query, target);
    if query.len() > 0 {
        assert(query.take(query.len() as int) =~= query);
        lemma_in_order_matches_self(query, query.len() as int);
        assert(find(query, query) == Some(0int));
    }
}

/// How well `target` matches `query` (see `similarity`).
fn similarity_score(query: &str, target: &str) -> (score: i128)
    ensures
        score == similarity(query@, target@),
{
    if query.is_empty() || target.is_empty() {
        return 0;
    }
    let q = chars_of(query);
    let t = chars_of(target);
    let mut score: i128 = 0;

    // Prefix match
    if q.len() <= t.len() && occurs_at(&t, 0, &q) {
        score = score + 100;
    }
    // Contains match
    assert(t@.subrange(0, t@.len() as int) =~= t@);
    if find_in(&t, 0, t.len(), &q).is_some() {
        score = score + 50;
    }
    // Characters of the query found in order
    let mut k: usize = 0;
    let mut matches: i128 = 0;
    let mut last_pos: usize = 0;
    let mut i: usize = 0;
    while i < t.len()
        invariant
            i <= t@.len(),
            q@ == query@,
            t@ == target@,
            q@.len() > 0,
            k as nat == in_order_matches(q@, t@.take(i as int)).0,
            matches as int == in_order_matches(q@, t@.take(i as int)).1,
            last_pos as int == in_order_matches(q@, t@.take(i as int)).2,
            k <= i,
            last_pos <= i,
            0 <= matches <= 3 * i,
            score <= 150,
        decreases t@.len() - i,
    {
        assert(t@.take(i + 1).drop_last() =~= t@.take(i as int));
        if k < q.len() && q[k] == t[i] {
            matches = matches + 1;
            if i == last_pos {
                matches = matches + 2;
            }
            last_pos = i + 1;
            k = k + 1;
        }
        i = i + 1;
    }
    assert(t@.take(t@.len() as int) =~= t@);
    score = score + matches;
    // Similar byte lengths
    let ql = query.len() as i128;
    let tl = target.len() as i128;
    let gap = if ql >= tl {
        ql - tl
    } else {
        tl - ql
    };
    score + 10 - if gap < 10 {
        gap
    } else {
        10
    }
}

/// The ranking order is a total order.
proof fn lemma_ranks_before_total(words: Seq<Word>, ql: Seq<char>)
    ensures
        total_ordering(ranks_before(words, ql)),
{
}

/// Two sequences sorted by the same total order and holding the same
/// elements are equal.
proof fn lemma_sorted_unique(a: Seq<int>, b: Seq<int>, leq: spec_fn(int, int) -> bool)
    requires
        total_ordering(leq),
        sorted_by(a, leq),
        sorted_by(b, leq),
        a.to_multiset() == b.to_multiset(),
    ensures
        a == b,
    decreases a.len(),
{
    broadcast use vstd::seq_lib::group_to_multiset_ensures;
    broadcast use vstd::multiset::group_multiset_properties;

    a.to_multiset_ensures();
    b.to_multiset_ensures();
    assert(a.len() == b.len());
    if a.len() > 0 {
        let x = a.last();
        let y = b.last();
        assert(a.contains(x));
        assert(b.to_multiset().count(x) > 0);
        assert(b.contains(x));
        let j = choose|j: int| 0 <= j < b.len() && b[j] == x;
        assert(a.to_multiset().count(y) > 0);
        let i = choose|i: int| 0 <= i < a.len() && a[i] == y;
        if j < b.len() - 1 {
            assert(leq(b[j], b[b.len() - 1]));
        }
        if i < a.len() - 1 {
            assert(leq(a[i], a[a.len() - 1]));
        }
        assert(leq(x, y));
        assert(leq(y, x));
        assert(x == y);
        let a2 = a.drop_last();
        let b2 = b.drop_last();
        assert(a =~= a2.push(x));
        assert(b =~= b2.push(x));
        let ma = a2.to_multiset();
        let mb = b2.to_multiset();
        assert(a.to_multiset() == ma.insert(x)) by {
            assert(a2.push(x).to_multiset() =~= ma.insert(x));
        }
        assert(b.to_multiset() == mb.insert(x)) by {
            assert(b2.push(x).to_multiset() =~= mb.insert(x));
        }
        assert(ma =~= mb) by {
            assert forall|e: int| ma.count(e) == mb.count(e) by {
                if e == x {
                    assert(ma.insert(x).count(x) == ma.count(x) + 1);
                    assert(mb.insert(x).count(x) == mb.count(x) + 1);
                } else {
                    assert(ma.insert(x).count(e) == ma.count(e));
                    assert(mb.insert(x).count(e) == mb.count(e));
                }
            }
        }
        assert(sorted_by(a2, leq));
        assert(sorted_by(b2, leq));
        lemma_sorted_unique(a2, b2, leq);
    }
}

/// A ranking entry: a position below `n` with its similarity.
spec fn scored_entry(ws: Seq<Word>, ql: Seq<char>, e: (i128, usize), n: int) -> bool {
    e.0 == fuzzy_score(ws, ql, e.1 as int) && e.1 < n
}

/// The five words most similar to `query_lower` (already lowercased), best
/// first.
fn best_fuzzy_matches(words: &Vec<Word>, query_lower: &String) -> (r: Vec<Word>)
    ensures
        r@ == fuzzy_matches(words@, query_lower@),
{
    let ghost ws = words@;
    let ghost ql = query_lower@;
    let ghost leq = ranks_before(ws, ql);
    // (score, position) pairs, best first
    let mut ranked: Vec<(i128, usize)> = Vec::new();
    let mut i: usize = 0;
    proof {
        lemma_ranks_before_total(ws, ql);
        assert(similar_positions(ws, ql, 0) =~= Seq::<int>::empty()) by {
            reveal_with_fuel(Seq::filter, 1);
            assert(Seq::new(0nat, |i: int| i) =~= Seq::<int>::empty());
        }
        assert(ranked@.map_values(|p: (i128, usize)| p.1 as int) =~= Seq::<int>::empty());
    }
    while i < words.len()
        invariant
            i <= ws.len(),
            ws == words@,
            ql == query_lower@,
            leq == ranks_before(ws, ql),
            total_ordering(leq),
            forall|k: int|
                0 <= k < ranked@.len() ==> scored_entry(ws, ql, #[trigger] ranked@[k], i as int),
            sorted_by(ranked@.map_values(|p: (i128, usize)| p.1 as int), leq),
            ranked@.map_values(|p: (i128, usize)| p.1 as int).to_multiset()
                == similar_positions(ws, ql, i as int).to_multiset(),
        decreases ws.len() - i,
    {
        let lower = to_lowercase(words[i].english.as_str());
        let s = similarity_score(query_lower.as_str(), lower.as_str());
        let ghost before = ranked@;
        let ghost pos_before = before.map_values(|p: (i128, usize)| p.1 as int);
        proof {
            let f = |k: int| fuzzy_score(ws, ql, k) > 0;
            assert(Seq::new((i + 1) as nat, |k: int| k) =~= Seq::new(i as nat, |k: int| k).push(
                i as int,
            ));
            Seq::new(i as nat, |k: int| k).lemma_filter_push(i as int, f);
        }
        if s > 0 {
            // insert after every entry that scores at least as much
            let mut p: usize = 0;
            while p < ranked.len() && ranked[p].0 >= s
                invariant
                    p <= ranked@.len(),
                    ranked@ == before,
                    forall|k: int| 0 <= k < p ==> #[trigger] ranked@[k].0 >= s,
                decreases ranked@.len() - p,
            {
                p = p + 1;
            }
            ranked.insert(p, (s, i));
            proof {
                assert(ranked@ == before.insert(p as int, (s, i)));
                assert forall|k: int| 0 <= k < ranked@.len() implies scored_entry(
                    ws,
                    ql,
                    #[trigger] ranked@[k],
                    i + 1,
                ) by {
                    if k < p {
                        assert(ranked@[k] == before[k]);
                    } else if k > p {
                        assert(ranked@[k] == before[k - 1]);
                    }
                }
                let pos_after = ranked@.map_values(|p: (i128, usize)| p.1 as int);
                assert(pos_after =~= pos_before.insert(p as int, i as int));
                assert(pos_after.remove(p as int) =~= pos_before);
                broadcast use vstd::seq_lib::group_to_multiset_ensures;
                broadcast use vstd::multiset::group_multiset_properties;

                assert(pos_after.to_multiset() =~= pos_before.to_multiset().insert(i as int)) by {
                    assert(pos_after.to_multiset().remove(i as int) =~= pos_before.to_multiset());
                    assert(pos_after.to_multiset().count(i as int) > 0) by {
                        assert(pos_after[p as int] == i as int);
                        assert(pos_after.contains(i as int));
                    }
                }
                assert forall|a: int, b: int| 0 <= a < b < pos_after.len() implies #[trigger] leq(
                    pos_after[a],
                    pos_after[b],
                ) by {
                    if b < p {
                        assert(leq(pos_before[a], pos_before[b]));
                    } else if a > p {
                        assert(leq(pos_before[a - 1], pos_before[b - 1]));
                    } else if a < p && b > p {
                        assert(leq(pos_before[a], pos_before[b - 1]));
                    } else if a == p {
                        assert(scored_entry(ws, ql, before[b - 1], i as int));
                        if b - 1 > p {
                            assert(leq(pos_before[p as int], pos_before[b - 1]));
                        }
                    } else {
                        assert(scored_entry(ws, ql, before[a], i as int));
                    }
                }
            }
        } else {
        }
        i = i + 1;
    }
    let ghost positions = ranked@.map_values(|p: (i128, usize)| p.1 as int);
    assert forall|m: int| 0 <= m < ranked@.len() implies #[trigger] ranked@[m].1 < ws.len() by {
        assert(scored_entry(ws, ql, ranked@[m], i as int));
    }
    proof {
        let cands = similar_positions(ws, ql, ws.len() as int);
        cands.lemma_sort_by_ensures(leq);
        lemma_sorted_unique(positions, cands.sort_by(leq), leq);
    }
    let n = if ranked.len() < 5 {
        ranked.len()
    } else {
        5
    };
    let mut r: Vec<Word> = Vec::new();
    let mut k: usize = 0;
    while k < n
        invariant
            k <= n <= ranked@.len(),
            n == if ranked@.len() < 5 { ranked@.len() } else { 5 },
            ws == words@,
            positions == ranked@.map_values(|p: (i128, usize)| p.1 as int),
            forall|m: int| 0 <= m < ranked@.len() ==> #[trigger] ranked@[m].1 < ws.len(),
            r@ == positions.take(k as int).map_values(|j: int| ws[j]),
        decreases n - k,
    {
        let j = ranked[k].1;
        r.push(words[j].copy());
        assert(positions.take(k + 1) =~= positions.take(k as int).push(positions[k as int]));
        assert(r@ =~= positions.take(k + 1).map_values(|j: int| ws[j]));
        k = k + 1;
    }
    r
}

/// The exact matches of `query_lower` (already lowercased) among `words`.
fn exact_word_matches(words: &Vec<Word>, query_lower: &String) -> (r: Vec<Word>)
    ensures
        r@ == exact_matches(words@, query_lower@),
{
    let ghost ws = words@;
    let ghost ql = query_lower@;
    let ghost pred = |w: Word| lowercase(w.english@) == ql || lowercase(w.russian@) == ql;
    let mut r: Vec<Word> = Vec::new();
    let mut i: usize = 0;
    while i < words.len()
        invariant
            i <= ws.len(),
            ws == words@,
            ql == query_lower@,
            pred == (|w: Word| lowercase(w.english@) == ql || lowercase(w.russian@) == ql),
            r@ == ws.take(i as int).filter(pred),
        decreases ws.len() - i,
    {
        let en = to_lowercase(words[i].english.as_str());
        let ru = to_lowercase(words[i].russian.as_str());
        proof {
            ws.take(i as int).lemma_filter_push(ws[i as int], pred);
            assert(ws.take(i as int).push(ws[i as int]) =~= ws.take(i + 1));
        }
        if en == *query_lower || ru == *query_lower {
            r.push(words[i].copy());
        }
        i = i + 1;
    }
    assert(ws.take(ws.len() as int) =~= ws);
    r
}

/// The words found for `query`: the exact matches (either side, ignoring
/// case) if there are any, otherwise the five most similar English words.
pub fn find_words(words: &Vec<Word>, query: &str) -> (r: Vec<Word>)
    ensures
        r@ == search_results(words@, query@),
{
    let query_lower = to_lowercase(query);
    let exact = exact_word_matches(words, &query_lower);
    if exact.len() > 0 {
        exact
    } else {
        best_fuzzy_matches(words, &query_lower)
    }
}

} // verus!
