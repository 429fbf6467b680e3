//! Ranking: filter the catalog through the substring index, then order the
//! matches by learned preference, exactness, position of the query among the
//! words of the name, and name.

use crate::app_string::{folded_case, same_identity, AppString, AppSubstr};
use crate::apps::{app_names, app_views, App, AppView};
use crate::learned_index::LearnedIndex;
use crate::matching::{beginning_distance, positional_distance};
use crate::substring_index::{keys_nonempty, list_holds, lists_in, name_contains, SubstringIndex};
use rayon::slice::ParallelSliceMut;
use vstd::prelude::*;

verus! {

broadcast use vstd::seq_lib::group_to_multiset_ensures;

/// Sort key of a candidate: learned promotion (0 first), exactness (0 first),
/// word index, offset, folded name, catalog position.
pub type RankKey = (u8, u8, usize, usize, String, usize);

/// A [`RankKey`] as plain values.
pub type RankView = (int, int, int, int, Seq<char>, int);

pub open spec fn key_view(k: RankKey) -> RankView {
    (k.0 as int, k.1 as int, k.2 as int, k.3 as int, k.4@, k.5 as int)
}

/// Lexicographic order of texts by code point, a proper prefix first.
pub open spec fn chars_lt(a: Seq<char>, b: Seq<char>) -> bool
    decreases a.len(),
{
    if a.len() == 0 {
        b.len() > 0
    } else if b.len() == 0 {
        false
    } else if a[0] != b[0] {
        (a[0] as int) < (b[0] as int)
    } else {
        chars_lt(a.drop_first(), b.drop_first())
    }
}

/// Lexicographic order of rank keys.
pub open spec fn view_lt(x: RankView, y: RankView) -> bool {
    if x.0 != y.0 {
        x.0 < y.0
    } else if x.1 != y.1 {
        x.1 < y.1
    } else if x.2 != y.2 {
        x.2 < y.2
    } else if x.3 != y.3 {
        x.3 < y.3
    } else if x.4 != y.4 {
        chars_lt(x.4, y.4)
    } else {
        x.5 < y.5
    }
}

/// Relies on rayon's `ParallelSliceMut::par_sort`: sorts by `Ord`, keeping the
/// same elements; tuples compare lexicographically, integers by value and
/// strings by code point (std's `Ord for str`).
#[verifier::external_body]
fn sort_keys(v: &mut Vec<RankKey>)
    ensures
        final(v)@.to_multiset() == old(v)@.to_multiset(),
        forall|i: int, j: int|
            0 <= i < j < final(v)@.len() ==> !view_lt(
                key_view(#[trigger] final(v)@[j]),
                key_view(#[trigger] final(v)@[i]),
            ),
{
    v.par_sort();
}

/// The learned index names an application for the query, and it has this name.
pub open spec fn is_promoted(learned: Map<Seq<char>, AppView>, query: Seq<char>, name: Seq<char>) -> bool {
    learned.contains_key(folded_case(query)) && same_identity(
        learned[folded_case(query)].name,
        name,
    )
}

/// The name is the query, ignoring case.
pub open spec fn is_exact(query: Seq<char>, name: Seq<char>) -> bool {
    same_identity(query, name)
}

/// The rank key of the application named `name` at catalog position `i`.
pub open spec fn rank_of(learned: Map<Seq<char>, AppView>, query: Seq<char>, name: Seq<char>, i: int) -> RankView {
    let d = positional_distance(query, name);
    let exact = is_exact(query, name);
    (
        if is_promoted(learned, query, name) { 0 } else { 1 },
        if exact { 0 } else { 1 },
        if exact { 0 } else { d.0 },
        if exact { 0 } else { d.1 },
        folded_case(name),
        i,
    )
}

/// Catalog position `i` ranks before position `j`.
pub open spec fn ranks_before(apps: Seq<AppView>, learned: Map<Seq<char>, AppView>, query: Seq<char>, i: int, j: int) -> bool {
    view_lt(rank_of(learned, query, apps[i].name, i), rank_of(learned, query, apps[j].name, j))
}

/// `order` lists each catalog position whose name contains the query once,
/// strictly in rank order.
pub open spec fn is_ranking(apps: Seq<AppView>, learned: Map<Seq<char>, AppView>, query: Seq<char>, order: Seq<int>) -> bool {
    &&& order.no_duplicates()
    &&& forall|x: int| #[trigger] order.contains(x) <==> (0 <= x < apps.len() && name_contains(apps[x].name, query))
    &&& forall|t: int, u: int|
        0 <= t < u < order.len() ==> ranks_before(apps, learned, query, #[trigger] order[t], #[trigger] order[u])
}

/// The catalog positions of the matches, in rank order.
pub open spec fn ranking(apps: Seq<AppView>, learned: Map<Seq<char>, AppView>, query: Seq<char>) -> Seq<int> {
    choose|order: Seq<int>| is_ranking(apps, learned, query, order)
}

/// The records at the given catalog positions.
pub open spec fn records_at(apps: Seq<AppView>, order: Seq<int>) -> Seq<AppView> {
    order.map_values(|i: int| apps[i])
}

/// The search result: the matching records in rank order.
pub open spec fn ranked(apps: Seq<AppView>, learned: Map<Seq<char>, AppView>, query: Seq<char>) -> Seq<AppView> {
    records_at(apps, ranking(apps, learned, query))
}

/// Word index and offset, compared lexicographically.
pub open spec fn distance_le(a: (int, int), b: (int, int)) -> bool {
    a.0 < b.0 || (a.0 == b.0 && a.1 <= b.1)
}

/// The order that a result list keeps: the learned match first; then exact
/// names; then smaller word index and offset of the query.
pub open spec fn in_rank_order(results: Seq<AppView>, learned: Map<Seq<char>, AppView>, query: Seq<char>) -> bool {
    forall|t: int, u: int|
        0 <= t < u < results.len() ==> {
            let a = #[trigger] results[t].name;
            let b = #[trigger] results[u].name;
            &&& is_promoted(learned, query, b) ==> is_promoted(learned, query, a)
            &&& is_promoted(learned, query, a) == is_promoted(learned, query, b) && is_exact(query, b)
                ==> is_exact(query, a)
            &&& is_promoted(learned, query, a) == is_promoted(learned, query, b) && !is_exact(query, a)
                && !is_exact(query, b) ==> distance_le(
                positional_distance(query, a),
                positional_distance(query, b),
            )
        }
}

proof fn lemma_chars_lt_asym(a: Seq<char>, b: Seq<char>)
    ensures
        !(chars_lt(a, b) && chars_lt(b, a)),
    decreases a.len(),
{
    if a.len() > 0 && b.len() > 0 && a[0] == b[0] {
        lemma_chars_lt_asym(a.drop_first(), b.drop_first());
    }
}

proof fn lemma_chars_lt_total(a: Seq<char>, b: Seq<char>)
    requires
        a != b,
    ensures
        chars_lt(a, b) || chars_lt(b, a),
    decreases a.len(),
{
    if a.len() > 0 && b.len() > 0 {
        if a[0] == b[0] {
            if a.drop_first() == b.drop_first() {
                assert(a =~= seq![a[0]] + a.drop_first());
                assert(b =~= seq![b[0]] + b.drop_first());
            }
            lemma_chars_lt_total(a.drop_first(), b.drop_first());
        } else {
        }
    } else if a.len() == 0 && b.len() == 0 {
        assert(a =~= b);
    }
}

proof fn lemma_view_lt_asym(x: RankView, y: RankView)
    ensures
        !(view_lt(x, y) && view_lt(y, x)),
{
    lemma_chars_lt_asym(x.4, y.4);
}

proof fn lemma_view_lt_total(x: RankView, y: RankView)
    requires
        x != y,
    ensures
        view_lt(x, y) || view_lt(y, x),
{
    if x.4 != y.4 {
        lemma_chars_lt_total(x.4, y.4);
    }
}

/// Two strictly ordered lists of the same distinct elements are equal.
proof fn lemma_ranking_unique(apps: Seq<AppView>, learned: Map<Seq<char>, AppView>, query: Seq<char>, o1: Seq<int>, o2: Seq<int>)
    requires
        o1.no_duplicates(),
        o2.no_duplicates(),
        forall|x: int| o1.contains(x) <==> o2.contains(x),
        forall|t: int, u: int|
            0 <= t < u < o1.len() ==> ranks_before(apps, learned, query, #[trigger] o1[t], #[trigger] o1[u]),
        forall|t: int, u: int|
            0 <= t < u < o2.len() ==> ranks_before(apps, learned, query, #[trigger] o2[t], #[trigger] o2[u]),
    ensures
        o1 == o2,
    decreases o1.len(),
{
    if o1.len() == 0 {
        if o2.len() > 0 {
            assert(o2.contains(o2[0]));
        }
        assert(o1 =~= o2);
    } else {
        assert(o1.contains(o1[0]));
        assert(o2.len() > 0);
        let x = o1[0];
        let y = o2[0];
        if x != y {
            assert(o2.contains(y));
            let p = choose|p: int| 0 <= p < o1.len() && o1[p] == y;
            let q = choose|q: int| 0 <= q < o2.len() && o2[q] == x;
            assert(ranks_before(apps, learned, query, o1[0], o1[p]));
            assert(ranks_before(apps, learned, query, o2[0], o2[q]));
            lemma_view_lt_asym(
                rank_of(learned, query, apps[x].name, x),
                rank_of(learned, query, apps[y].name, y),
            );
        }
        let r1 = o1.drop_first();
        let r2 = o2.drop_first();
        assert forall|z: int| r1.contains(z) <==> r2.contains(z) by {
            if r1.contains(z) {
                let p = choose|p: int| 0 <= p < r1.len() && r1[p] == z;
                assert(o1[p + 1] == z);
                assert(o1.contains(z));
                let q = choose|q: int| 0 <= q < o2.len() && o2[q] == z;
                assert(q != 0);
                assert(r2[q - 1] == z);
            }
            if r2.contains(z) {
                let p = choose|p: int| 0 <= p < r2.len() && r2[p] == z;
                assert(o2[p + 1] == z);
                assert(o2.contains(z));
                let q = choose|q: int| 0 <= q < o1.len() && o1[q] == z;
                assert(q != 0);
                assert(r1[q - 1] == z);
            }
        }
        assert forall|t: int, u: int| 0 <= t < u < r1.len() implies ranks_before(apps, learned, query, #[trigger] r1[t], #[trigger] r1[u]) by {
            assert(r1[t] == o1[t + 1] && r1[u] == o1[u + 1]);
        }
        assert forall|t: int, u: int| 0 <= t < u < r2.len() implies ranks_before(apps, learned, query, #[trigger] r2[t], #[trigger] r2[u]) by {
            assert(r2[t] == o2[t + 1] && r2[u] == o2[u + 1]);
        }
        lemma_ranking_unique(apps, learned, query, r1, r2);
        assert(o1.len() == o2.len());
        assert forall|i: int| 0 <= i < o1.len() implies o1[i] == o2[i] by {
            if i > 0 {
                assert(r1[i - 1] == r2[i - 1]);
            }
        }
        assert(o1 =~= o2);
    }
}

/// The keys built for the matching catalog positions, in catalog order.
pub open spec fn keys_of_matches(apps: Seq<AppView>, learned: Map<Seq<char>, AppView>, query: Seq<char>, keys: Seq<RankKey>, upto: int) -> bool {
    &&& forall|t: int|
        #![trigger keys[t]]
        0 <= t < keys.len() ==> {
            &&& 0 <= keys[t].5 < upto
            &&& upto <= apps.len()
            &&& name_contains(apps[keys[t].5 as int].name, query)
            &&& key_view(keys[t]) == rank_of(learned, query, apps[keys[t].5 as int].name, keys[t].5 as int)
        }
    &&& forall|t: int, u: int| 0 <= t < u < keys.len() ==> #[trigger] keys[t].5 < #[trigger] keys[u].5
    &&& forall|x: int|
        0 <= x < upto && name_contains(apps[x].name, query) ==> exists|t: int|
            0 <= t < keys.len() && #[trigger] keys[t].5 == x
}

/// The catalog positions carried by a list of keys.
pub open spec fn positions(keys: Seq<RankKey>) -> Seq<int> {
    keys.map_values(|k: RankKey| k.5 as int)
}

proof fn lemma_sorted_keys_rank(
    apps: Seq<AppView>,
    learned: Map<Seq<char>, AppView>,
    query: Seq<char>,
    k0: Seq<RankKey>,
    s: Seq<RankKey>,
)
    requires
        keys_of_matches(apps, learned, query, k0, apps.len() as int),
        s.to_multiset() == k0.to_multiset(),
        forall|i: int, j: int|
            0 <= i < j < s.len() ==> !view_lt(key_view(#[trigger] s[j]), key_view(#[trigger] s[i])),
    ensures
        is_ranking(apps, learned, query, positions(s)),
        positions(s) == ranking(apps, learned, query),
        forall|t: int| 0 <= t < s.len() ==> 0 <= #[trigger] s[t].5 < apps.len(),
{
    let o = positions(s);
    assert(k0.no_duplicates()) by {
        assert forall|a: int, b: int| 0 <= a < k0.len() && 0 <= b < k0.len() && a != b implies k0[a] != k0[b] by {
            if a < b {
                assert(k0[a].5 < k0[b].5);
            } else {
                assert(k0[b].5 < k0[a].5);
            }
        }
    }
    k0.lemma_multiset_has_no_duplicates();
    s.lemma_multiset_has_no_duplicates_conv();
    // every sorted key is one of the built keys
    assert forall|t: int| #![trigger s[t]] 0 <= t < s.len() implies exists|a: int| 0 <= a < k0.len() && #[trigger] k0[a] == s[t] by {
        assert(s.contains(s[t]));
        assert(s.to_multiset().count(s[t]) > 0);
        assert(k0.to_multiset().count(s[t]) > 0);
        assert(k0.contains(s[t]));
    }
    assert forall|t: int| 0 <= t < s.len() implies {
        &&& 0 <= #[trigger] s[t].5 < apps.len()
        &&& name_contains(apps[s[t].5 as int].name, query)
        &&& key_view(s[t]) == rank_of(learned, query, apps[s[t].5 as int].name, s[t].5 as int)
    } by {
        let a = choose|a: int| 0 <= a < k0.len() && #[trigger] k0[a] == s[t];
        assert(k0[a] == s[t]);
    }
    assert(o.no_duplicates()) by {
        assert forall|t: int, u: int| 0 <= t < o.len() && 0 <= u < o.len() && t != u implies o[t] != o[u] by {
            let a = choose|a: int| 0 <= a < k0.len() && #[trigger] k0[a] == s[t];
            let b = choose|b: int| 0 <= b < k0.len() && #[trigger] k0[b] == s[u];
            assert(s[t] != s[u]);
            if a < b {
                assert(k0[a].5 < k0[b].5);
            } else if b < a {
                assert(k0[b].5 < k0[a].5);
            }
        }
    }
    assert forall|x: int| #[trigger] o.contains(x) <==> (0 <= x < apps.len() && name_contains(apps[x].name, query)) by {
        if o.contains(x) {
            let t = choose|t: int| 0 <= t < o.len() && o[t] == x;
            assert(s[t].5 == x);
        }
        if 0 <= x < apps.len() && name_contains(apps[x].name, query) {
            let a = choose|a: int| 0 <= a < k0.len() && #[trigger] k0[a].5 == x;
            assert(k0.contains(k0[a]));
            assert(k0.to_multiset().count(k0[a]) > 0);
            assert(s.to_multiset().count(k0[a]) > 0);
            assert(s.contains(k0[a]));
            let t = choose|t: int| 0 <= t < s.len() && s[t] == k0[a];
            assert(o[t] == x);
        }
    }
    assert forall|t: int, u: int| 0 <= t < u < o.len() implies ranks_before(apps, learned, query, #[trigger] o[t], #[trigger] o[u]) by {
        assert(!view_lt(key_view(s[u]), key_view(s[t])));
        assert(o[t] != o[u]);
        lemma_view_lt_total(key_view(s[t]), key_view(s[u]));
    }
    assert(is_ranking(apps, learned, query, o));
    let chosen = ranking(apps, learned, query);
    assert(is_ranking(apps, learned, query, chosen));
    lemma_ranking_unique(apps, learned, query, o, chosen);
}

proof fn lemma_ranking_in_order(apps: Seq<AppView>, learned: Map<Seq<char>, AppView>, query: Seq<char>, order: Seq<int>)
    requires
        is_ranking(apps, learned, query, order),
    ensures
        in_rank_order(records_at(apps, order), learned, query),
        forall|t: int|
            0 <= t < order.len() ==> name_contains(#[trigger] records_at(apps, order)[t].name, query),
{
    let res = records_at(apps, order);
    assert forall|t: int| 0 <= t < order.len() implies name_contains(#[trigger] res[t].name, query) by {
        assert(order.contains(order[t]));
    }
    assert forall|t: int, u: int| 0 <= t < u < res.len() implies {
        let a = #[trigger] res[t].name;
        let b = #[trigger] res[u].name;
        &&& is_promoted(learned, query, b) ==> is_promoted(learned, query, a)
        &&& is_promoted(learned, query, a) == is_promoted(learned, query, b) && is_exact(query, b)
            ==> is_exact(query, a)
        &&& is_promoted(learned, query, a) == is_promoted(learned, query, b) && !is_exact(query, a)
            && !is_exact(query, b) ==> distance_le(
            positional_distance(query, a),
            positional_distance(query, b),
        )
    } by {
        assert(ranks_before(apps, learned, query, order[t], order[u]));
    }
}

/// Searches the catalog: the applications whose name contains the query
/// (through the index: an application is kept when its own name is listed
/// under the folded query, so each result holds the query itself; two names
/// that fold alike, such as "Straße" and "STRASSE", can differ in that), the learned match first, then exact names, then by
/// word index and offset of the query, then by folded name, then by catalog
/// position.
pub fn rank(apps: &Vec<App>, index: &SubstringIndex, learned: &LearnedIndex, query: &AppString) -> (r: Vec<App>)
    requires
        index.indexes(app_names(apps@)),
    ensures
        is_ranking(
            app_views(apps@),
            learned.contents(),
            query@,
            ranking(app_views(apps@), learned.contents(), query@),
        ),
        app_views(r@) == ranked(app_views(apps@), learned.contents(), query@),
        forall|t: int| 0 <= t < r@.len() ==> name_contains(#[trigger] r@[t].name@, query@),
        in_rank_order(app_views(r@), learned.contents(), query@),
        query@.len() == 0 ==> r@.len() == 0,
{
    let ghost av = app_views(apps@);
    let ghost lc = learned.contents();
    let ghost q = query@;
    let listed = index.names_under(query);
    if listed.len() == 0 {
        proof {
            let order = Seq::<int>::empty();
            assert forall|x: int| #[trigger] order.contains(x) <==> (0 <= x < av.len() && name_contains(av[x].name, q)) by {
                if 0 <= x < av.len() && name_contains(av[x].name, q) {
                    assert(app_names(apps@)[x] == av[x].name);
                    assert(app_names(apps@).contains(av[x].name));
                    assert(lists_in(index.contents(), folded_case(q), av[x].name));
                    assert(crate::substring_index::listed(index.contents(), folded_case(q)).len() > 0);
                }
            }
            assert(is_ranking(av, lc, q, order));
            lemma_ranking_unique(av, lc, q, order, ranking(av, lc, q));
            assert(ranked(av, lc, q) =~= Seq::<AppView>::empty());
        }
        let r: Vec<App> = Vec::new();
        assert(app_views(r@) =~= Seq::<AppView>::empty());
        return r;
    }
    assert(keys_nonempty(index.contents()));
    assert(q.len() > 0);
    let target = learned.lookup(query);
    let qsub = AppSubstr::new(query.as_str());
    let mut keys: Vec<RankKey> = Vec::new();
    for i in 0..apps.len()
        invariant
            av == app_views(apps@),
            lc == learned.contents(),
            q == query@,
            qsub@ == q,
            q.len() > 0,
            index.indexes(app_names(apps@)),
            crate::app_string::string_views(listed@) == crate::substring_index::listed(index.contents(), folded_case(q)),
            match target {
                Some(a) => lc.contains_key(folded_case(q)) && a@ == lc[folded_case(q)],
                None => !lc.contains_key(folded_case(q)),
            },
            keys_of_matches(av, lc, q, keys@, i as int),
    {
        let app = &apps[i];
        assert(av[i as int].name == app.name@);
        assert(app_names(apps@)[i as int] == app.name@);
        assert(app_names(apps@).contains(app.name@));
        assert(lists_in(index.contents(), folded_case(q), app.name@) <==> name_contains(app.name@, q));
        if list_holds(&listed, &app.name) {
            let promo: u8 = match &target {
                Some(t) => if t.name.eq_ignore_case(&app.name) { 0 } else { 1 },
                None => 1,
            };
            let exact = query.eq_ignore_case(&app.name);
            let (word, offset) = if exact { (0usize, 0usize) } else { beginning_distance(&qsub, &app.name) };
            let key: RankKey = (promo, if exact { 0 } else { 1 }, word, offset, app.name.folded(), i);
            let ghost before = keys@;
            keys.push(key);
            proof {
                assert(key_view(key) == rank_of(lc, q, av[i as int].name, i as int));
                assert forall|x: int| 0 <= x < i + 1 && name_contains(av[x].name, q) implies exists|t: int|
                    0 <= t < keys@.len() && #[trigger] keys@[t].5 == x by {
                    if x < i {
                        let t = choose|t: int| 0 <= t < before.len() && #[trigger] before[t].5 == x;
                        assert(keys@[t] == before[t]);
                    } else {
                        assert(keys@[before.len() as int].5 == x);
                    }
                }
            }
        } else {
            proof {
                assert forall|x: int| 0 <= x < i + 1 && name_contains(av[x].name, q) implies exists|t: int|
                    0 <= t < keys@.len() && #[trigger] keys@[t].5 == x by {
                    if x < i {
                    } else {
                        assert(!name_contains(av[x].name, q));
                    }
                }
            }
        }
    }
    let ghost k0 = keys@;
    sort_keys(&mut keys);
    proof {
        lemma_sorted_keys_rank(av, lc, q, k0, keys@);
        lemma_ranking_in_order(av, lc, q, positions(keys@));
    }
    let ghost order = positions(keys@);
    let mut r: Vec<App> = Vec::new();
    for t in 0..keys.len()
        invariant
            order == positions(keys@),
            av == app_views(apps@),
            q.len() > 0,
            q == query@,
            forall|u: int| 0 <= u < keys@.len() ==> 0 <= #[trigger] keys@[u].5 < apps@.len(),
            app_views(r@) == records_at(av, order.take(t as int)),
            r@.len() == t,
    {
        let pos = keys[t].5;
        let ghost before = r@;
        r.push(apps[pos].duplicate());
        proof {
            assert(order[t as int] == pos as int);
            assert(av[pos as int] == apps@[pos as int]@);
            assert(r@ =~= before.push(r@[t as int]));
            assert(app_views(r@) =~= app_views(before).push(av[pos as int]));
            assert(order.take(t + 1) =~= order.take(t as int).push(pos as int));
            assert(records_at(av, order.take(t + 1)) =~= records_at(av, order.take(t as int)).push(av[pos as int]));
        }
    }
    assert(order.take(keys.len() as int) =~= order);
    assert forall|t: int| 0 <= t < r@.len() implies name_contains(#[trigger] r@[t].name@, query@) by {
        assert(app_views(r@)[t].name == r@[t].name@);
    }
    r
}

} // verus!
