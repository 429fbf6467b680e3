//! The substring index: every grapheme window of every catalog name, case
//! folded, mapped to the names that contain it.

use crate::app_string::{
    fold_case, same_identity, folded_case, grapheme_count, graphemes_of, string_views, window, AppString,
};
use crate::apps::{app_names, App, AppName};
use crate::matching::substrings;
use vstd::prelude::*;

verus! {

#[verifier::external_type_specification]
#[verifier::external_body]
#[verifier::reject_recursive_types(K)]
#[verifier::reject_recursive_types(V)]
#[verifier::reject_recursive_types(H)]
pub struct ExConcurrentHashMap<K, V, H: std::hash::BuildHasher>(scc::HashMap<K, V, H>);

/// Concurrent map from a folded window to the names listed under it.
pub type NameLists = scc::HashMap<String, Vec<String>>;

/// What a [`NameLists`] map holds.
pub uninterp spec fn name_lists(m: NameLists) -> Map<Seq<char>, Seq<Seq<char>>>;

/// The list under `key`, empty where there is none.
pub open spec fn listed(c: Map<Seq<char>, Seq<Seq<char>>>, key: Seq<char>) -> Seq<Seq<char>> {
    if c.contains_key(key) {
        c[key]
    } else {
        Seq::empty()
    }
}

/// `name` is listed under `key`.
pub open spec fn lists_in(c: Map<Seq<char>, Seq<Seq<char>>>, key: Seq<char>, name: Seq<char>) -> bool {
    c.contains_key(key) && c[key].contains(name)
}

/// No key is the empty text.
pub open spec fn keys_nonempty(c: Map<Seq<char>, Seq<Seq<char>>>) -> bool {
    forall|key: Seq<char>| #[trigger] c.contains_key(key) ==> key.len() > 0
}

/// Relies on `scc::HashMap::new`: the map starts empty.
#[verifier::external_body]
fn lists_new() -> (r: NameLists)
    ensures
        name_lists(r).dom() == Set::<Seq<char>>::empty(),
{
    scc::HashMap::new()
}

/// Relies on `scc::HashMap::entry_sync` and `Entry::or_default`: appends
/// `name` to the list under `key`, which starts empty where there is none.
#[verifier::external_body]
fn lists_push(m: &mut NameLists, key: String, name: String)
    ensures
        name_lists(*final(m)) == name_lists(*old(m)).insert(
            key@,
            listed(name_lists(*old(m)), key@).push(name@),
        ),
{
    m.entry_sync(key).or_default().push(name);
}

/// Relies on `scc::HashMap::read_sync`: a copy of the list under `key`.
#[verifier::external_body]
fn lists_get(m: &NameLists, key: &String) -> (r: Option<Vec<String>>)
    ensures
        match r {
            Some(v) => name_lists(*m).contains_key(key@) && string_views(v@) == name_lists(*m)[key@],
            None => !name_lists(*m).contains_key(key@),
        },
{
    m.read_sync(key, |_, v| v.clone())
}

/// Some window of `name` of `m` clusters at offset `i`, with `(m, i)` before
/// `(m_lim, i_lim)`, folds to `key`.
pub open spec fn window_key_before(name: Seq<char>, key: Seq<char>, m_lim: int, i_lim: int) -> bool {
    exists|m: int, i: int|
        1 <= m && 0 <= i && i + m <= grapheme_count(name) && (m < m_lim || (m == m_lim && i
            < i_lim)) && #[trigger] folded_case(window(graphemes_of(name), i, m)) == key
}

/// Some grapheme window of `name` folds to `key`.
pub open spec fn has_window_key(name: Seq<char>, key: Seq<char>) -> bool {
    window_key_before(name, key, grapheme_count(name) + 1int, 0)
}

/// `name` contains `query` as a run of grapheme clusters, ignoring case.
pub open spec fn name_contains(name: Seq<char>, query: Seq<char>) -> bool {
    has_window_key(name, folded_case(query))
}

proof fn lemma_push_lists(c: Map<Seq<char>, Seq<Seq<char>>>, key0: Seq<char>, name0: Seq<char>)
    ensures
        forall|key: Seq<char>, name: Seq<char>|
            lists_in(c.insert(key0, listed(c, key0).push(name0)), key, name) <==> (lists_in(
                c,
                key,
                name,
            ) || (key == key0 && name == name0)),
{
    let c2 = c.insert(key0, listed(c, key0).push(name0));
    assert forall|key: Seq<char>, name: Seq<char>|
        lists_in(c2, key, name) <==> (lists_in(c, key, name) || (key == key0 && name == name0)) by {
        if key == key0 {
            let l = listed(c, key0);
            assert(c2[key] == l.push(name0));
            if l.push(name0).contains(name) && name != name0 {
                let t = choose|t: int| 0 <= t < l.push(name0).len() && l.push(name0)[t] == name;
                assert(l[t] == name);
            }
            if lists_in(c, key, name) {
                let t = choose|t: int| 0 <= t < l.len() && l[t] == name;
                assert(l.push(name0)[t] == name);
            }
            if name == name0 {
                assert(l.push(name0)[l.len() as int] == name0);
            }
        }
    }
}

proof fn lemma_window_step(name: Seq<char>, key: Seq<char>, m: int, i: int)
    requires
        1 <= m,
        0 <= i,
        i + m <= grapheme_count(name),
    ensures
        window_key_before(name, key, m, i + 1) <==> (window_key_before(name, key, m, i)
            || folded_case(window(graphemes_of(name), i, m)) == key),
{
    if folded_case(window(graphemes_of(name), i, m)) == key {
        assert(window_key_before(name, key, m, i + 1));
    }
    if window_key_before(name, key, m, i) {
        let (m2, i2) = choose|m2: int, i2: int|
            1 <= m2 && 0 <= i2 && i2 + m2 <= grapheme_count(name) && (m2 < m || (m2 == m && i2
                < i)) && #[trigger] folded_case(window(graphemes_of(name), i2, m2)) == key;
        assert(folded_case(window(graphemes_of(name), i2, m2)) == key);
    }
    if window_key_before(name, key, m, i + 1) {
        let (m2, i2) = choose|m2: int, i2: int|
            1 <= m2 && 0 <= i2 && i2 + m2 <= grapheme_count(name) && (m2 < m || (m2 == m && i2
                < i + 1)) && #[trigger] folded_case(window(graphemes_of(name), i2, m2)) == key;
        if !(m2 == m && i2 == i) {
            assert(window_key_before(name, key, m, i));
        }
    }
}

proof fn lemma_window_next_len(name: Seq<char>, key: Seq<char>, m: int)
    requires
        1 <= m <= grapheme_count(name) + 1,
    ensures
        window_key_before(name, key, m, grapheme_count(name) - m + 1int) <==> window_key_before(
            name,
            key,
            m + 1,
            0,
        ),
{
    if window_key_before(name, key, m + 1, 0) {
        let (m2, i2) = choose|m2: int, i2: int|
            1 <= m2 && 0 <= i2 && i2 + m2 <= grapheme_count(name) && (m2 < m + 1 || (m2 == m + 1
                && i2 < 0)) && #[trigger] folded_case(window(graphemes_of(name), i2, m2)) == key;
        assert(folded_case(window(graphemes_of(name), i2, m2)) == key);
    }
    if window_key_before(name, key, m, grapheme_count(name) - m + 1) {
        let (m2, i2) = choose|m2: int, i2: int|
            1 <= m2 && 0 <= i2 && i2 + m2 <= grapheme_count(name) && (m2 < m || (m2 == m && i2
                < grapheme_count(name) - m + 1)) && #[trigger] folded_case(
                window(graphemes_of(name), i2, m2),
            ) == key;
        assert(folded_case(window(graphemes_of(name), i2, m2)) == key);
    }
}

proof fn lemma_take_push<A>(s: Seq<A>, a: int, x: A)
    requires
        0 <= a < s.len(),
    ensures
        s.take(a + 1).contains(x) <==> (s.take(a).contains(x) || s[a] == x),
{
    if s.take(a + 1).contains(x) {
        let t = choose|t: int| 0 <= t < a + 1 && #[trigger] s.take(a + 1)[t] == x;
        if t < a {
            assert(s.take(a)[t] == x);
        }
    }
    if s.take(a).contains(x) {
        let t = choose|t: int| 0 <= t < a && #[trigger] s.take(a)[t] == x;
        assert(s.take(a + 1)[t] == x);
    }
    if s[a] == x {
        assert(s.take(a + 1)[a] == x);
    }
}

/// Inverted index from case-folded grapheme windows to the names that hold them.
pub struct SubstringIndex {
    lists: NameLists,
}

impl SubstringIndex {
    /// What the index holds: each folded window and the names listed under it.
    pub closed spec fn contents(&self) -> Map<Seq<char>, Seq<Seq<char>>> {
        name_lists(self.lists)
    }

    /// The index lists exactly, under each key, the given names that have a
    /// window folding to that key.
    pub open spec fn indexes(&self, names: Seq<Seq<char>>) -> bool {
        &&& forall|key: Seq<char>, name: Seq<char>|
            #[trigger] lists_in(self.contents(), key, name) <==> (names.contains(name)
                && has_window_key(name, key))
        &&& keys_nonempty(self.contents())
    }

    /// Builds the index of every window of every name of the catalog.
    pub fn build(apps: &Vec<App>) -> (r: SubstringIndex)
        ensures
            r.indexes(app_names(apps@)),
    {
        let mut lists = lists_new();
        let ghost names = app_names(apps@);
        for a in 0..apps.len()
            invariant
                names == app_names(apps@),
                keys_nonempty(name_lists(lists)),
                forall|key: Seq<char>, name: Seq<char>|
                    #[trigger] lists_in(name_lists(lists), key, name) <==> (names.take(
                        a as int,
                    ).contains(name) && has_window_key(name, key)),
        {
            let name = &apps[a].name;
            let ghost nm = name@;
            assert(names[a as int] == nm);
            let glen = name.grapheme_len();
            let mut done: usize = 0;
            while done < glen
                invariant
                    names == app_names(apps@),
                    keys_nonempty(name_lists(lists)),
                    0 <= a < apps.len(),
                    names[a as int] == nm,
                    nm == name@,
                    glen == grapheme_count(nm),
                    done <= glen,
                    forall|key: Seq<char>, nm2: Seq<char>|
                        #[trigger] lists_in(name_lists(lists), key, nm2) <==> ((names.take(
                            a as int,
                        ).contains(nm2) && has_window_key(nm2, key)) || (nm2 == nm
                            && window_key_before(nm, key, done + 1, 0))),
                decreases glen - done,
            {
                let n = done + 1;
                let subs = substrings(name.as_str(), n);
                for k in 0..subs.len()
                    invariant
                        names == app_names(apps@),
                        keys_nonempty(name_lists(lists)),
                        forall|t: int| 0 <= t < subs@.len() ==> (#[trigger] subs@[t])@.len() > 0,
                        0 <= a < apps.len(),
                        names[a as int] == nm,
                        nm == name@,
                        glen == grapheme_count(nm),
                        1 <= n <= glen,
                        subs@.len() == glen - n + 1,
                        forall|t: int|
                            0 <= t < subs@.len() ==> #[trigger] subs@[t]@ == window(
                                graphemes_of(nm),
                                t,
                                n as int,
                            ),
                        forall|key: Seq<char>, nm2: Seq<char>|
                            #[trigger] lists_in(name_lists(lists), key, nm2) <==> ((names.take(
                                a as int,
                            ).contains(nm2) && has_window_key(nm2, key)) || (nm2 == nm
                                && window_key_before(nm, key, n as int, k as int))),
                {
                    let key = fold_case(subs[k].as_str());
                    let ghost before = name_lists(lists);
                    lists_push(&mut lists, key, name.text());
                    proof {
                        lemma_push_lists(before, key@, nm);
                        assert forall|key2: Seq<char>, nm2: Seq<char>|
                            #[trigger] lists_in(name_lists(lists), key2, nm2) <==> ((names.take(
                                a as int,
                            ).contains(nm2) && has_window_key(nm2, key2)) || (nm2 == nm
                                && window_key_before(nm, key2, n as int, k + 1))) by {
                            lemma_window_step(nm, key2, n as int, k as int);
                            assert(lists_in(before, key2, nm2) <==> ((names.take(
                                a as int,
                            ).contains(nm2) && has_window_key(nm2, key2)) || (nm2 == nm
                                && window_key_before(nm, key2, n as int, k as int))));
                        }
                    }
                }
                proof {
                    assert forall|key2: Seq<char>|
                        #[trigger] window_key_before(nm, key2, n as int, glen - n + 1) <==> window_key_before(
                            nm,
                            key2,
                            n + 1,
                            0,
                        ) by {
                        lemma_window_next_len(nm, key2, n as int);
                    }
                }
                done = n;
            }
            proof {
                assert forall|nm2: Seq<char>|
                    #[trigger] names.take(a + 1).contains(nm2) <==> (names.take(a as int).contains(nm2)
                        || names[a as int] == nm2) by {
                    lemma_take_push(names, a as int, nm2);
                }
            }
        }
        assert(names.take(apps.len() as int) =~= names);
        SubstringIndex { lists }
    }

    /// The names listed under the folded query, in the index's order.
    pub fn names_under(&self, query: &AppString) -> (r: Vec<String>)
        ensures
            string_views(r@) == listed(self.contents(), folded_case(query@)),
            keys_nonempty(self.contents()) && query@.len() == 0 ==> r@.len() == 0,
    {
        let key = fold_case(query.as_str());
        match lists_get(&self.lists, &key) {
            Some(v) => v,
            None => Vec::new(),
        }
    }

    /// Some name listed under the query's folded text is `name`, ignoring case.
    pub fn contains(&self, query: &AppString, name: &AppName) -> (r: bool)
        ensures
            r == lists_identity(self.contents(), folded_case(query@), name@),
    {
        let list = self.names_under(query);
        list_holds_identity(&list, name)
    }
}

/// Some name listed under `key` is `name`, ignoring case.
pub open spec fn lists_identity(c: Map<Seq<char>, Seq<Seq<char>>>, key: Seq<char>, name: Seq<char>) -> bool {
    exists|t: int| 0 <= t < listed(c, key).len() && same_identity(#[trigger] listed(c, key)[t], name)
}

/// Some string of `list` is `name`, ignoring case.
pub fn list_holds_identity(list: &Vec<String>, name: &AppName) -> (r: bool)
    ensures
        r == exists|t: int| 0 <= t < list@.len() && same_identity(#[trigger] string_views(list@)[t], name@),
{
    for i in 0..list.len()
        invariant
            forall|t: int| 0 <= t < i ==> !same_identity(#[trigger] string_views(list@)[t], name@),
    {
        assert(string_views(list@)[i as int] == list@[i as int]@);
        if name.identity_equals(&list[i]) {
            return true;
        }
    }
    false
}

/// `name`'s text is one of `list`.
pub fn list_holds(list: &Vec<String>, name: &AppName) -> (r: bool)
    ensures
        r == string_views(list@).contains(name@),
{
    for i in 0..list.len()
        invariant
            forall|t: int| 0 <= t < i ==> list@[t]@ != name@,
    {
        if name.text_equals(&list[i]) {
            assert(string_views(list@)[i as int] == name@);
            return true;
        }
    }
    proof {
        if string_views(list@).contains(name@) {
            let t = choose|t: int|
                0 <= t < string_views(list@).len() && string_views(list@)[t] == name@;
            assert(list@[t]@ == name@);
        }
    }
    false
}

/// Rebuilding the index from an unchanged catalog changes no filter result:
/// two indexes of the same names list a name under a query alike.
pub proof fn lemma_rebuild_same_filter(
    first: SubstringIndex,
    second: SubstringIndex,
    names: Seq<Seq<char>>,
    query: Seq<char>,
    name: Seq<char>,
)
    requires
        first.indexes(names),
        second.indexes(names),
    ensures
        lists_in(first.contents(), folded_case(query), name) == lists_in(
            second.contents(),
            folded_case(query),
            name,
        ),
{
    assert(lists_in(first.contents(), folded_case(query), name) == (names.contains(name)
        && has_window_key(name, folded_case(query))));
    assert(lists_in(second.contents(), folded_case(query), name) == (names.contains(name)
        && has_window_key(name, folded_case(query))));
}

} // verus!
