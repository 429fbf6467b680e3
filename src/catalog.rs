//! The computing part of catalog enumeration: reading the outputs of the
//! system's listing tools, naming an application after its bundle path, and
//! picking the icon variant to show.

use crate::app_string::{push_char, string_views, AppString};
use crate::apps::App;
use vstd::prelude::*;

verus! {

broadcast use vstd::string::axiom_spec_iter;

/// The characters of a text.
pub fn chars_of(s: &str) -> (r: Vec<char>)
    ensures
        r@ == s@,
{
    let mut r: Vec<char> = Vec::new();
    for c in it: s.chars()
        invariant
            it.seq() == s@,
            r@ == s@.take(it.index() as int),
    {
        r.push(c);
        assert(r@ =~= s@.take(it.index() + 1));
    }
    assert(s@.take(s@.len() as int) =~= s@);
    r
}

/// The string of `cs[from..to]`.
pub fn string_of(cs: &Vec<char>, from: usize, to: usize) -> (r: String)
    requires
        from <= to <= cs.len(),
    ensures
        r@ == cs@.subrange(from as int, to as int),
{
    let mut r = String::new();
    for k in from..to
        invariant
            to <= cs.len(),
            r@ == cs@.subrange(from as int, k as int),
    {
        push_char(&mut r, cs[k]);
        assert(r@ =~= cs@.subrange(from as int, k + 1));
    }
    r
}

/// Lines completed while scanning `s` (each ended by a newline), and the
/// line still open at its end.
pub open spec fn scan_lines(s: Seq<char>) -> (Seq<Seq<char>>, Seq<char>)
    decreases s.len(),
{
    if s.len() == 0 {
        (Seq::empty(), Seq::empty())
    } else {
        let (done, open) = scan_lines(s.drop_last());
        if s.last() == '\n' {
            (done.push(open), Seq::empty())
        } else {
            (done, open.push(s.last()))
        }
    }
}

/// The pieces of `s` between newlines, as `str::split('\n')` gives them.
pub open spec fn lines_of(s: Seq<char>) -> Seq<Seq<char>> {
    let (done, open) = scan_lines(s);
    done.push(open)
}

/// The character sequences of a list of lines.
pub open spec fn line_views(v: Seq<Vec<char>>) -> Seq<Seq<char>> {
    v.map_values(|l: Vec<char>| l@)
}

/// Splits a text at its newlines.
pub fn split_lines(s: &str) -> (r: Vec<Vec<char>>)
    ensures
        line_views(r@) == lines_of(s@),
{
    let cs = chars_of(s);
    let mut done: Vec<Vec<char>> = Vec::new();
    let mut open: Vec<char> = Vec::new();
    for i in 0..cs.len()
        invariant
            cs@ == s@,
            (line_views(done@), open@) == scan_lines(s@.take(i as int)),
    {
        assert(s@.take(i + 1).drop_last() =~= s@.take(i as int));
        let c = cs[i];
        if c == '\n' {
            let ghost before = line_views(done@);
            let ghost o = open@;
            done.push(open);
            assert(line_views(done@) =~= before.push(o));
            open = Vec::new();
            assert(open@ =~= Seq::<char>::empty());
        } else {
            open.push(c);
        }
    }
    assert(s@.take(cs.len() as int) =~= s@);
    let ghost before = line_views(done@);
    let ghost o = open@;
    done.push(open);
    assert(line_views(done@) =~= before.push(o));
    done
}

/// The start of a line of the running-application listing that names a
/// bundle path.
pub open spec fn bundle_prefix() -> Seq<char> {
    seq![' ', ' ', ' ', ' ', 'b', 'u', 'n', 'd', 'l', 'e', ' ', 'p', 'a', 't', 'h', '=']
}

/// The line names a bundle path: it starts with the prefix and holds a
/// quoted path after it.
pub open spec fn is_bundle_line(l: Seq<char>) -> bool {
    l.len() >= bundle_prefix().len() + 2 && l.take(bundle_prefix().len() as int) == bundle_prefix()
}

/// The path of a bundle line, without the prefix and the quotes.
pub open spec fn bundle_path(l: Seq<char>) -> Seq<char> {
    l.subrange(bundle_prefix().len() + 1int, l.len() - 1)
}

/// The bundle paths named by a list of lines, in order.
pub open spec fn bundle_paths(ls: Seq<Seq<char>>) -> Seq<Seq<char>>
    decreases ls.len(),
{
    if ls.len() == 0 {
        Seq::empty()
    } else if is_bundle_line(ls.last()) {
        bundle_paths(ls.drop_last()).push(bundle_path(ls.last()))
    } else {
        bundle_paths(ls.drop_last())
    }
}

fn starts_with_bundle_prefix(l: &Vec<char>) -> (r: bool)
    ensures
        r == is_bundle_line(l@),
{
    let prefix: Vec<char> = vec![' ', ' ', ' ', ' ', 'b', 'u', 'n', 'd', 'l', 'e', ' ', 'p', 'a', 't', 'h', '='];
    assert(prefix@ =~= bundle_prefix());
    if l.len() < prefix.len() + 2 {
        return false;
    }
    for k in 0..prefix.len()
        invariant
            prefix@ == bundle_prefix(),
            l.len() >= prefix.len() + 2,
            forall|t: int| 0 <= t < k ==> l@[t] == prefix@[t],
    {
        if l[k] != prefix[k] {
            assert(l@.take(16)[k as int] != bundle_prefix()[k as int]);
            return false;
        }
    }
    assert(l@.take(16) =~= bundle_prefix());
    true
}

/// The bundle paths that the running-application listing names, in order.
pub fn parse_running_app_paths(listing: &str) -> (r: Vec<String>)
    ensures
        string_views(r@) == bundle_paths(lines_of(listing@)),
{
    let lines = split_lines(listing);
    let ghost ls = line_views(lines@);
    let mut r: Vec<String> = Vec::new();
    for i in 0..lines.len()
        invariant
            ls == line_views(lines@),
            ls == lines_of(listing@),
            string_views(r@) == bundle_paths(ls.take(i as int)),
    {
        assert(ls.take(i + 1).drop_last() =~= ls.take(i as int));
        assert(ls.take(i + 1).last() == lines@[i as int]@);
        let line = &lines[i];
        if starts_with_bundle_prefix(line) {
            let p = string_of(line, 17, line.len() - 1);
            let ghost before = string_views(r@);
            r.push(p);
            assert(string_views(r@) =~= before.push(bundle_path(line@)));
        }
    }
    assert(ls.take(lines.len() as int) =~= ls);
    r
}

/// Whether `list` holds a string with the text of `s`.
fn holds_text(list: &Vec<String>, s: &String) -> (r: bool)
    ensures
        r == string_views(list@).contains(s@),
{
    for i in 0..list.len()
        invariant
            forall|t: int| 0 <= t < i ==> list@[t]@ != s@,
    {
        if list[i] == *s {
            assert(string_views(list@)[i as int] == s@);
            return true;
        }
    }
    proof {
        let v = string_views(list@);
        if v.contains(s@) {
            let t = choose|t: int| 0 <= t < v.len() && v[t] == s@;
            assert(list@[t]@ == s@);
        }
    }
    false
}

proof fn lemma_push_contains<A>(s: Seq<A>, v: A, x: A)
    ensures
        s.push(v).contains(x) <==> (s.contains(x) || x == v),
{
    if s.push(v).contains(x) {
        let t = choose|t: int| 0 <= t < s.len() + 1 && #[trigger] s.push(v)[t] == x;
        if t < s.len() {
            assert(s[t] == x);
        }
    }
    if s.contains(x) {
        let t = choose|t: int| 0 <= t < s.len() && #[trigger] s[t] == x;
        assert(s.push(v)[t] == x);
    }
    assert(s.push(v)[s.len() as int] == v);
}

proof fn lemma_take_next<A>(s: Seq<A>, i: int, x: A)
    requires
        0 <= i < s.len(),
    ensures
        s.take(i + 1).contains(x) <==> (s.take(i).contains(x) || x == s[i]),
{
    assert(s.take(i + 1) =~= s.take(i).push(s[i]));
    lemma_push_contains(s.take(i), s[i], x);
}

/// Appends `p` unless `r` already holds its text.
fn push_new(r: &mut Vec<String>, p: String)
    requires
        string_views(old(r)@).no_duplicates(),
    ensures
        string_views(final(r)@).no_duplicates(),
        forall|x: Seq<char>| #[trigger] string_views(final(r)@).contains(x) <==> (string_views(old(r)@).contains(x) || x == p@),
{
    let ghost before = string_views(r@);
    let ghost v = p@;
    if !holds_text(r, &p) {
        r.push(p);
        assert(string_views(r@) =~= before.push(v));
    }
    assert forall|x: Seq<char>| #[trigger] string_views(r@).contains(x) <==> (before.contains(x) || x == v) by {
        lemma_push_contains(before, v, x);
    }
}

/// The paths to examine: each line of the search tool's output and each
/// extra path, every one once.
pub fn candidate_paths(search_output: &str, extra: &Vec<String>) -> (r: Vec<String>)
    ensures
        string_views(r@).no_duplicates(),
        forall|p: Seq<char>|
            #[trigger] string_views(r@).contains(p) <==> (lines_of(search_output@).contains(p)
                || string_views(extra@).contains(p)),
{
    let lines = split_lines(search_output);
    let ghost ls = line_views(lines@);
    let ghost ex = string_views(extra@);
    let mut r: Vec<String> = Vec::new();
    for i in 0..lines.len()
        invariant
            ls == line_views(lines@),
            ls == lines_of(search_output@),
            string_views(r@).no_duplicates(),
            forall|p: Seq<char>| #[trigger] string_views(r@).contains(p) <==> ls.take(i as int).contains(p),
    {
        let p = string_of(&lines[i], 0, lines[i].len());
        assert(lines@[i as int]@.subrange(0, lines@[i as int]@.len() as int) =~= lines@[i as int]@);
        push_new(&mut r, p);
        assert forall|x: Seq<char>| #[trigger] string_views(r@).contains(x) <==> ls.take(i + 1).contains(x) by {
            lemma_take_next(ls, i as int, x);
        }
    }
    assert(ls.take(lines.len() as int) =~= ls);
    for j in 0..extra.len()
        invariant
            ls == lines_of(search_output@),
            ex == string_views(extra@),
            string_views(r@).no_duplicates(),
            forall|p: Seq<char>| #[trigger] string_views(r@).contains(p) <==> (ls.contains(p) || ex.take(j as int).contains(p)),
    {
        push_new(&mut r, extra[j].clone());
        assert forall|x: Seq<char>| #[trigger] string_views(r@).contains(x) <==> (ls.contains(x) || ex.take(j + 1).contains(x)) by {
            lemma_take_next(ex, j as int, x);
        }
    }
    assert(ex.take(extra.len() as int) =~= ex);
    r
}

/// The last component of a path: the text after its last `/`.
pub open spec fn file_name(p: Seq<char>) -> Seq<char>
    decreases p.len(),
{
    if p.len() == 0 {
        p
    } else if p.last() == '/' {
        Seq::empty()
    } else {
        file_name(p.drop_last()).push(p.last())
    }
}

/// `s` ends with `suffix`.
pub open spec fn ends_with(s: Seq<char>, suffix: Seq<char>) -> bool {
    s.len() >= suffix.len() && s.subrange(s.len() - suffix.len(), s.len() as int) == suffix
}

pub open spec fn app_extension() -> Seq<char> {
    seq!['.', 'a', 'p', 'p']
}

pub open spec fn icns_extension() -> Seq<char> {
    seq!['.', 'i', 'c', 'n', 's']
}

/// The application name of a bundle path: its file name without the `.app`
/// extension; none where the file name has no such extension or nothing
/// before it.
pub open spec fn app_stem(path: Seq<char>) -> Option<Seq<char>> {
    let f = file_name(path);
    if f.len() > app_extension().len() && ends_with(f, app_extension()) {
        Some(f.take(f.len() - app_extension().len()))
    } else {
        None
    }
}

/// Whether the characters end with `suffix`.
fn chars_end_with(cs: &Vec<char>, from: usize, suffix: &Vec<char>) -> (r: bool)
    requires
        from <= cs.len(),
    ensures
        r == ends_with(cs@.subrange(from as int, cs.len() as int), suffix@),
{
    let ghost f = cs@.subrange(from as int, cs.len() as int);
    if cs.len() - from < suffix.len() {
        return false;
    }
    let base = cs.len() - suffix.len();
    for k in 0..suffix.len()
        invariant
            base == cs.len() - suffix.len(),
            base >= from,
            f == cs@.subrange(from as int, cs.len() as int),
            forall|t: int| 0 <= t < k ==> cs@[base + t] == suffix@[t],
    {
        if cs[base + k] != suffix[k] {
            assert(f.subrange(f.len() - suffix.len(), f.len() as int)[k as int] != suffix@[k as int]);
            return false;
        }
    }
    assert(f.subrange(f.len() - suffix.len(), f.len() as int) =~= suffix@);
    true
}

/// The path names an application bundle: its file name has the `.app`
/// extension after a non-empty stem.
pub fn is_dir_entry_app(path: &str) -> (r: bool)
    ensures
        r == app_stem(path@) is Some,
{
    app_name_from_path(path).is_some()
}

/// The application name of a bundle path, where it names an `.app` bundle.
pub fn app_name_from_path(path: &str) -> (r: Option<String>)
    ensures
        match app_stem(path@) {
            Some(stem) => r matches Some(n) && n@ == stem,
            None => r is None,
        },
{
    let cs = chars_of(path);
    let mut start: usize = 0;
    for i in 0..cs.len()
        invariant
            cs@ == path@,
            start <= i,
            file_name(cs@.take(i as int)) == cs@.subrange(start as int, i as int),
    {
        assert(cs@.take(i + 1).drop_last() =~= cs@.take(i as int));
        if cs[i] == '/' {
            start = i + 1;
            assert(cs@.subrange(start as int, i + 1) =~= Seq::<char>::empty());
        } else {
            assert(cs@.subrange(start as int, i + 1) =~= cs@.subrange(start as int, i as int).push(cs@[i as int]));
        }
    }
    assert(cs@.take(cs.len() as int) =~= cs@);
    let ext: Vec<char> = vec!['.', 'a', 'p', 'p'];
    assert(ext@ =~= app_extension());
    if cs.len() - start > 4 && chars_end_with(&cs, start, &ext) {
        let n = string_of(&cs, start, cs.len() - 4);
        assert(n@ =~= file_name(path@).take(file_name(path@).len() - 4));
        Some(n)
    } else {
        None
    }
}

/// The record of the bundle at `path`: named after it, running where the
/// running-application list holds the path, with the icon given.
pub fn make_app(path: String, running: &Vec<String>, icon: Option<Vec<u8>>) -> (r: Option<App>)
    ensures
        match app_stem(path@) {
            Some(stem) => r matches Some(a) && a.name@ == stem && a.path@ == path@ && a.is_running
                == string_views(running@).contains(path@) && a.icon == icon,
            None => r is None,
        },
{
    match app_name_from_path(path.as_str()) {
        Some(name) => {
            let is_running = holds_text(running, &path);
            Some(App::new(AppString::from_string(name), path, is_running, icon))
        },
        None => None,
    }
}

/// The icon file named in a bundle's `Info.plist`, with the `.icns` extension
/// added where it is missing.
pub fn icon_file_name(icon_name: &str) -> (r: String)
    ensures
        ends_with(icon_name@, icns_extension()) ==> r@ == icon_name@,
        !ends_with(icon_name@, icns_extension()) ==> r@ == icon_name@ + icns_extension(),
{
    let cs = chars_of(icon_name);
    let ext: Vec<char> = vec!['.', 'i', 'c', 'n', 's'];
    assert(ext@ =~= icns_extension());
    assert(cs@.subrange(0, cs.len() as int) =~= cs@);
    let mut r = icon_name.to_owned();
    if !chars_end_with(&cs, 0, &ext) {
        for k in 0..ext.len()
            invariant
                ext@ == icns_extension(),
                r@ == icon_name@ + ext@.take(k as int),
        {
            push_char(&mut r, ext[k]);
            assert(ext@.take(k + 1) =~= ext@.take(k as int).push(ext@[k as int]));
            assert(r@ =~= icon_name@ + ext@.take(k + 1));
        }
        assert(ext@.take(5) =~= ext@);
    }
    r
}

/// Icons this narrow or narrower are used only where nothing larger exists.
pub const MIN_ICON_WIDTH: u32 = 32;

/// Variant `i` is preferred to variant `j`: wider than the minimum before
/// not, then narrower, then earlier.
pub open spec fn icon_preferred(widths: Seq<u32>, i: int, j: int) -> bool {
    let small_i = widths[i] <= MIN_ICON_WIDTH;
    let small_j = widths[j] <= MIN_ICON_WIDTH;
    if small_i != small_j {
        !small_i
    } else if widths[i] != widths[j] {
        widths[i] < widths[j]
    } else {
        i < j
    }
}

/// The icon variant to show, by position among the variants' pixel widths:
/// the narrowest one wider than the minimum, or else the narrowest of all.
pub fn choose_icon(widths: &Vec<u32>) -> (r: Option<usize>)
    ensures
        r is None <==> widths@.len() == 0,
        r matches Some(i) ==> i < widths@.len() && forall|j: int|
            0 <= j < widths@.len() && j != i ==> icon_preferred(widths@, i as int, j),
{
    if widths.len() == 0 {
        return None;
    }
    let mut best: usize = 0;
    for k in 1..widths.len()
        invariant
            widths@.len() > 0,
            best < k,
            forall|j: int| 0 <= j < k && j != best ==> icon_preferred(widths@, best as int, j),
    {
        let small_k = widths[k] <= MIN_ICON_WIDTH;
        let small_b = widths[best] <= MIN_ICON_WIDTH;
        let better = if small_k != small_b { !small_k } else { widths[k] < widths[best] };
        if better {
            proof {
                assert forall|j: int| 0 <= j < k + 1 && j != k implies icon_preferred(widths@, k as int, j) by {
                    if j != best {
                        assert(icon_preferred(widths@, best as int, j));
                    }
                }
            }
            best = k;
        }
    }
    Some(best)
}

} // verus!
