//! Grapheme windows of a text, and where a query first occurs among the
//! whitespace-separated words of a name.

use crate::app_string::{
    fold_case, folded_case, grapheme_count, graphemes_of, join_range, same_identity,
    push_char, split_graphemes, string_views, window, windows, AppString, AppSubstr,
};
use vstd::prelude::*;

verus! {

broadcast use vstd::string::axiom_spec_iter;

/// Every run of `n` consecutive clusters of `gs`, each joined into one
/// string, left to right; none for `n == 0` or `n` beyond `gs.len()`.
pub fn windows_of(gs: &Vec<String>, n: usize) -> (r: Vec<String>)
    ensures
        string_views(r@) == windows(string_views(gs@), n as int),
        (forall|t: int| 0 <= t < gs@.len() ==> (#[trigger] gs@[t])@.len() > 0) ==> forall|i: int|
            0 <= i < r@.len() ==> (#[trigger] r@[i])@.len() > 0,
{
    let ghost views = string_views(gs@);
    let mut r: Vec<String> = Vec::new();
    if n == 0 || n > gs.len() {
        assert(string_views(r@) =~= windows(views, n as int));
        return r;
    }
    let last = gs.len() - n;
    let mut i: usize = 0;
    while i <= last
        invariant
            1 <= n <= gs.len(),
            last == gs.len() - n,
            i <= last + 1,
            string_views(gs@) == views,
            r@.len() == i,
            forall|k: int| 0 <= k < i ==> #[trigger] r@[k]@ == window(views, k, n as int),
        decreases last + 1 - i,
    {
        let w = join_range(gs, i, i + n);
        proof {
            let part = views.subrange(i as int, i + n);
            assert(part.last() == gs@[i + n - 1]@);
            if forall|t: int| 0 <= t < gs@.len() ==> (#[trigger] gs@[t])@.len() > 0 {
                assert(gs@[i + n - 1]@.len() > 0);
                crate::app_string::lemma_concat_nonempty(part);
            }
        }
        r.push(w);
        i = i + 1;
    }
    assert(string_views(r@) =~= windows(views, n as int));
    r
}

/// Every run of `n` consecutive grapheme clusters of `string`, left to right.
pub fn substrings(string: &str, n: usize) -> (r: Vec<String>)
    ensures
        string_views(r@) == windows(graphemes_of(string@), n as int),
        n == 0 ==> r@.len() == 0,
        n > grapheme_count(string@) ==> r@.len() == 0,
        1 <= n <= grapheme_count(string@) ==> r@.len() == grapheme_count(string@) - n + 1,
        forall|i: int|
            0 <= i < r@.len() ==> #[trigger] r@[i]@ == window(graphemes_of(string@), i, n as int),
        forall|i: int| 0 <= i < r@.len() ==> (#[trigger] r@[i])@.len() > 0,
{
    let gs = split_graphemes(string);
    let r = windows_of(&gs, n);
    proof {
        assert(string_views(r@).len() == r@.len());
        assert(windows(graphemes_of(string@), n as int).len() == r@.len());
        assert forall|i: int| 0 <= i < r@.len() implies #[trigger] r@[i]@ == window(graphemes_of(string@), i, n as int) by {
            assert(string_views(r@)[i] == r@[i]@);
        }
    }
    r
}

/// ASCII whitespace, as `char::is_ascii_whitespace` defines it.
pub open spec fn is_ascii_space(c: char) -> bool {
    c == ' ' || c == '\t' || c == '\n' || c == '\x0C' || c == '\r'
}

/// Words completed so far while scanning `s`, and the word still open at its end.
pub open spec fn scan_words(s: Seq<char>) -> (Seq<Seq<char>>, Seq<char>)
    decreases s.len(),
{
    if s.len() == 0 {
        (Seq::empty(), Seq::empty())
    } else {
        let (done, open) = scan_words(s.drop_last());
        if is_ascii_space(s.last()) {
            if open.len() > 0 {
                (done.push(open), Seq::empty())
            } else {
                (done, Seq::empty())
            }
        } else {
            (done, open.push(s.last()))
        }
    }
}

/// The maximal runs of non-whitespace characters of `s`, left to right.
pub open spec fn words_of(s: Seq<char>) -> Seq<Seq<char>> {
    let (done, open) = scan_words(s);
    if open.len() > 0 {
        done.push(open)
    } else {
        done
    }
}

/// The clusters of `word` starting at cluster `j` spell the query, ignoring case.
pub open spec fn occurs_at(word: Seq<char>, query: Seq<char>, j: int) -> bool {
    let gs = graphemes_of(word);
    &&& 0 <= j
    &&& j + grapheme_count(query) <= gs.len()
    &&& same_identity(window(gs, j, grapheme_count(query) as int), query)
}

pub open spec fn occurs_in(word: Seq<char>, query: Seq<char>) -> bool {
    exists|j: int| occurs_at(word, query, j)
}

/// `(i, j)` is the first occurrence: word `i` at cluster `j`, with no
/// occurrence in an earlier word nor earlier in word `i`.
pub open spec fn first_occurrence(name: Seq<char>, query: Seq<char>, i: int, j: int) -> bool {
    let ws = words_of(name);
    &&& 0 <= i < ws.len()
    &&& occurs_at(ws[i], query, j)
    &&& forall|k: int| 0 <= k < i ==> !occurs_in(#[trigger] ws[k], query)
    &&& forall|l: int| 0 <= l < j ==> !occurs_at(ws[i], query, l)
}

/// Word index and offset of the first occurrence of the query in the name's
/// words; `(0, number of clusters of the name)` where there is none.
pub open spec fn positional_distance(query: Seq<char>, name: Seq<char>) -> (int, int) {
    if exists|i: int, j: int| first_occurrence(name, query, i, j) {
        let (i, j) = choose|i: int, j: int| first_occurrence(name, query, i, j);
        (i, j)
    } else {
        (0, grapheme_count(name) as int)
    }
}

proof fn lemma_first_occurrence_unique(name: Seq<char>, query: Seq<char>, i: int, j: int, i2: int, j2: int)
    requires
        first_occurrence(name, query, i, j),
        first_occurrence(name, query, i2, j2),
    ensures
        i == i2 && j == j2,
{
    let ws = words_of(name);
    if i < i2 {
        assert(!occurs_in(ws[i], query));
    } else if i2 < i {
        assert(!occurs_in(ws[i2], query));
    }
}

/// Splits `s` into its whitespace-separated words.
pub fn split_words(s: &str) -> (r: Vec<String>)
    ensures
        string_views(r@) == words_of(s@),
{
    let mut done: Vec<String> = Vec::new();
    let mut open = String::new();
    let ghost mut seen: Seq<char> = Seq::empty();
    for c in it: s.chars()
        invariant
            it.seq() == s@,
            seen == s@.take(it.index() as int),
            (string_views(done@), open@) == scan_words(seen),
    {
        proof {
            assert(s@.take(it.index() + 1).drop_last() =~= seen);
            seen = s@.take(it.index() + 1);
        }
        if c == ' ' || c == '\t' || c == '\n' || c == '\x0C' || c == '\r' {
            if !open.as_str().is_empty() {
                let ghost before = string_views(done@);
                done.push(open);
                assert(string_views(done@) =~= before.push(open@));
            }
            open = String::new();
        } else {
            push_char(&mut open, c);
        }
    }
    assert(seen =~= s@);
    if !open.as_str().is_empty() {
        let ghost before = string_views(done@);
        done.push(open);
        assert(string_views(done@) =~= before.push(open@));
    }
    done
}

/// The character sequences of a list of lists of strings.
pub open spec fn nested_views(rows: Seq<Vec<String>>) -> Seq<Seq<Seq<char>>> {
    rows.map_values(|v: Vec<String>| string_views(v@))
}

/// `(i, j)` is the first place, row by row and left to right, where `rows`
/// holds `target`.
pub open spec fn first_equal_at(rows: Seq<Seq<Seq<char>>>, target: Seq<char>, i: int, j: int) -> bool {
    &&& 0 <= i < rows.len()
    &&& 0 <= j < rows[i].len()
    &&& rows[i][j] == target
    &&& forall|k: int| 0 <= k < i ==> !(#[trigger] rows[k]).contains(target)
    &&& forall|l: int| 0 <= l < j ==> #[trigger] rows[i][l] != target
}

/// The first place where `rows` holds `target`: on the case-folded windows
/// of each word and the folded query, the word index and offset of the
/// first occurrence.
pub fn first_equal(rows: &Vec<Vec<String>>, target: &String) -> (r: Option<(usize, usize)>)
    ensures
        match r {
            Some((i, j)) => first_equal_at(nested_views(rows@), target@, i as int, j as int),
            None => forall|k: int|
                0 <= k < rows@.len() ==> !(#[trigger] nested_views(rows@)[k]).contains(target@),
        },
{
    let ghost rv = nested_views(rows@);
    for i in 0..rows.len()
        invariant
            rv == nested_views(rows@),
            forall|k: int| 0 <= k < i ==> !(#[trigger] rv[k]).contains(target@),
    {
        let row = &rows[i];
        assert(rv[i as int] == string_views(row@));
        for j in 0..row.len()
            invariant
                rv == nested_views(rows@),
                0 <= i < rows@.len(),
                rv[i as int] == string_views(row@),
                forall|k: int| 0 <= k < i ==> !(#[trigger] rv[k]).contains(target@),
                forall|l: int| 0 <= l < j ==> #[trigger] rv[i as int][l] != target@,
        {
            assert(rv[i as int][j as int] == row@[j as int]@);
            if row[j] == *target {
                return Some((i, j));
            }
        }
        proof {
            if rv[i as int].contains(target@) {
                let l = choose|l: int| 0 <= l < rv[i as int].len() && #[trigger] rv[i as int][l] == target@;
            }
        }
    }
    None
}

/// The case foldings of the windows of `n` clusters of `word`, left to right
/// (for `n == 0`, one empty window at each cluster boundary).
pub open spec fn window_folds(word: Seq<char>, n: int) -> Seq<Seq<char>> {
    let gs = graphemes_of(word);
    if 0 <= n <= gs.len() {
        Seq::new((gs.len() - n + 1) as nat, |l: int| folded_case(window(gs, l, n)))
    } else {
        Seq::empty()
    }
}

proof fn lemma_rows_locate(rows: Seq<Seq<Seq<char>>>, ws: Seq<Seq<char>>, q: Seq<char>)
    requires
        rows.len() == ws.len(),
        forall|k: int| 0 <= k < ws.len() ==> #[trigger] rows[k] == window_folds(ws[k], grapheme_count(q) as int),
    ensures
        forall|k: int, l: int|
            0 <= k < ws.len() ==> (occurs_at(#[trigger] ws[k], q, l) <==> (0 <= l < rows[k].len() && #[trigger] rows[k][l]
                == folded_case(q))),
        forall|k: int| 0 <= k < ws.len() ==> (occurs_in(#[trigger] ws[k], q) <==> rows[k].contains(folded_case(q))),
{
    assert forall|k: int, l: int|
        0 <= k < ws.len() implies (occurs_at(#[trigger] ws[k], q, l) <==> (0 <= l < rows[k].len() && #[trigger] rows[k][l]
            == folded_case(q))) by {
        assert(rows[k] == window_folds(ws[k], grapheme_count(q) as int));
    }
    assert forall|k: int| 0 <= k < ws.len() implies (occurs_in(#[trigger] ws[k], q) <==> rows[k].contains(folded_case(q))) by {
        assert(rows[k] == window_folds(ws[k], grapheme_count(q) as int));
        if occurs_in(ws[k], q) {
            let l = choose|l: int| occurs_at(ws[k], q, l);
            assert(rows[k][l] == folded_case(q));
        }
        if rows[k].contains(folded_case(q)) {
            let l = choose|l: int| 0 <= l < rows[k].len() && #[trigger] rows[k][l] == folded_case(q);
            assert(occurs_at(ws[k], q, l));
        }
    }
}

/// The case foldings of the windows of `n` clusters of `word`.
fn folds_of_windows(word: &str, n: usize) -> (r: Vec<String>)
    ensures
        string_views(r@) == window_folds(word@, n as int),
{
    let gs = split_graphemes(word);
    let ghost views = graphemes_of(word@);
    let mut row: Vec<String> = Vec::new();
    if n > gs.len() {
        assert(string_views(row@) =~= window_folds(word@, n as int));
        return row;
    }
    let limit = gs.len() - n;
    let mut j: usize = 0;
    loop
        invariant_except_break
            row@.len() == j,
        invariant
            string_views(gs@) == views,
            views == graphemes_of(word@),
            n <= gs.len(),
            limit == gs.len() - n,
            j <= limit,
            forall|l: int| 0 <= l < row@.len() ==> #[trigger] row@[l]@ == folded_case(window(views, l, n as int)),
        ensures
            row@.len() == limit + 1,
        decreases limit - j,
    {
        let w = join_range(&gs, j, j + n);
        row.push(fold_case(w.as_str()));
        if j == limit {
            break;
        }
        j = j + 1;
    }
    assert(string_views(row@) =~= window_folds(word@, n as int));
    row
}

/// Substring distance from the beginning of a word of the name: the index
/// of the first word where `substr` occurs and the cluster offset of its
/// first occurrence there.
pub fn beginning_distance(substr: &AppSubstr, name: &AppString) -> (r: (usize, usize))
    ensures
        (r.0 as int, r.1 as int) == positional_distance(substr@, name@),
        (exists|i: int, j: int| first_occurrence(name@, substr@, i, j)) ==> first_occurrence(
            name@,
            substr@,
            r.0 as int,
            r.1 as int,
        ),
{
    let words = split_words(name.as_str());
    let qn = split_graphemes(substr.as_str()).len();
    let qf = fold_case(substr.as_str());
    let ghost ws = words_of(name@);
    let ghost q = substr@;
    let mut rows: Vec<Vec<String>> = Vec::new();
    for i in 0..words.len()
        invariant
            string_views(words@) == ws,
            qn == grapheme_count(q),
            rows@.len() == i,
            forall|k: int| 0 <= k < i ==> #[trigger] nested_views(rows@)[k] == window_folds(ws[k], qn as int),
    {
        assert(words@[i as int]@ == ws[i as int]);
        let row = folds_of_windows(words[i].as_str(), qn);
        let ghost before = rows@;
        let ghost rowv = string_views(row@);
        rows.push(row);
        assert forall|k: int| 0 <= k < i + 1 implies #[trigger] nested_views(rows@)[k] == window_folds(ws[k], qn as int) by {
            assert(nested_views(rows@)[k] == string_views(rows@[k]@));
            if k < i {
                assert(rows@[k] == before[k]);
                assert(nested_views(before)[k] == string_views(before[k]@));
            } else {
                assert(string_views(rows@[k]@) == rowv);
            }
        }
    }
    proof {
        assert(nested_views(rows@).len() == ws.len());
        lemma_rows_locate(nested_views(rows@), ws, q);
    }
    match first_equal(&rows, &qf) {
        Some((i, j)) => {
            proof {
                let rv = nested_views(rows@);
                assert(occurs_at(ws[i as int], q, j as int));
                assert forall|k: int| 0 <= k < i implies !occurs_in(#[trigger] ws[k], q) by {
                    assert(!rv[k].contains(qf@));
                }
                assert forall|l: int| 0 <= l < j implies !occurs_at(ws[i as int], q, l) by {
                    assert(rv[i as int][l] != qf@);
                }
                assert(first_occurrence(name@, q, i as int, j as int));
                let (a, b) = choose|a: int, b: int| first_occurrence(name@, q, a, b);
                lemma_first_occurrence_unique(name@, q, i as int, j as int, a, b);
            }
            (i, j)
        },
        None => {
            proof {
                if exists|a: int, b: int| first_occurrence(name@, q, a, b) {
                    let (a, b) = choose|a: int, b: int| first_occurrence(name@, q, a, b);
                    assert(occurs_in(ws[a], q));
                }
            }
            (0, split_graphemes(name.as_str()).len())
        },
    }
}

/// Positional distance ignores case: two queries that fold alike and have
/// as many clusters are at the same distance from any name.
pub proof fn lemma_distance_ignores_case(q1: Seq<char>, q2: Seq<char>, name: Seq<char>)
    requires
        same_identity(q1, q2),
        grapheme_count(q1) == grapheme_count(q2),
    ensures
        positional_distance(q1, name) == positional_distance(q2, name),
{
    assert forall|w: Seq<char>, j: int| occurs_at(w, q1, j) == occurs_at(w, q2, j) by {}
    assert forall|w: Seq<char>| occurs_in(w, q1) == occurs_in(w, q2) by {
        if occurs_in(w, q1) {
            let j = choose|j: int| occurs_at(w, q1, j);
            assert(occurs_at(w, q2, j));
        }
        if occurs_in(w, q2) {
            let j = choose|j: int| occurs_at(w, q2, j);
            assert(occurs_at(w, q1, j));
        }
    }
    assert forall|i: int, j: int| first_occurrence(name, q1, i, j) == first_occurrence(name, q2, i, j) by {}
    if exists|i: int, j: int| first_occurrence(name, q1, i, j) {
        let (a1, b1) = choose|i: int, j: int| first_occurrence(name, q1, i, j);
        let (a2, b2) = choose|i: int, j: int| first_occurrence(name, q2, i, j);
        assert(first_occurrence(name, q1, a2, b2));
        lemma_first_occurrence_unique(name, q1, a1, b1, a2, b2);
    }
}

} // verus!
