//! The learned-rank index: for each query the user typed, the application
//! finally opened after it (last write wins).

use crate::app_string::{fold_case, folded_case, AppString};
use crate::apps::{App, AppName, AppView};
use vstd::prelude::*;

verus! {

/// Concurrent map from a folded query to the application opened after it.
pub type LearnedMap = scc::HashMap<String, App>;

/// What a [`LearnedMap`] holds.
pub uninterp spec fn learned_map(m: LearnedMap) -> Map<Seq<char>, AppView>;

/// Relies on `scc::HashMap::new`: the map starts empty.
#[verifier::external_body]
fn learned_new() -> (r: LearnedMap)
    ensures
        learned_map(r).dom() == Set::<Seq<char>>::empty(),
{
    scc::HashMap::new()
}

/// Relies on `scc::HashMap::upsert_sync`: sets the value under `key`,
/// replacing any earlier one.
#[verifier::external_body]
fn learned_upsert(m: &mut LearnedMap, key: String, app: App)
    ensures
        learned_map(*final(m)) == learned_map(*old(m)).insert(key@, app@),
{
    let _ = m.upsert_sync(key, app);
}

/// Relies on `scc::HashMap::read_sync`: a copy of the value under `key`.
#[verifier::external_body]
fn learned_get(m: &LearnedMap, key: &String) -> (r: Option<App>)
    ensures
        match r {
            Some(a) => learned_map(*m).contains_key(key@) && a@ == learned_map(*m)[key@],
            None => !learned_map(*m).contains_key(key@),
        },
{
    m.read_sync(key, |_, a| a.clone())
}

/// Relies on `scc::HashMap::iter_sync`: a copy of every entry, each key once,
/// in the order the map walks them.
#[verifier::external_body]
fn learned_pairs(m: &LearnedMap) -> (r: Vec<(String, App)>)
    ensures
        describes(pair_views(r@), learned_map(*m)),
{
    let mut pairs = Vec::new();
    m.iter_sync(|k, a| {
        pairs.push((k.clone(), a.clone()));
        true
    });
    pairs
}

/// The plain values of a list of entries.
pub open spec fn pair_views(v: Seq<(String, App)>) -> Seq<(Seq<char>, AppView)> {
    v.map_values(|p: (String, App)| (p.0@, p.1@))
}

/// `pairs` lists every entry of `c` exactly once.
pub open spec fn describes(pairs: Seq<(Seq<char>, AppView)>, c: Map<Seq<char>, AppView>) -> bool {
    &&& forall|i: int|
        0 <= i < pairs.len() ==> c.contains_key(#[trigger] pairs[i].0) && c[pairs[i].0]
            == pairs[i].1
    &&& forall|k: Seq<char>| c.contains_key(k) ==> exists|i: int| 0 <= i < pairs.len() && #[trigger] pairs[i].0 == k
    &&& forall|i: int, j: int| 0 <= i < j < pairs.len() ==> pairs[i].0 != pairs[j].0
}

/// The map that results from writing each of `pairs` in turn into `c`.
pub open spec fn loaded(c: Map<Seq<char>, AppView>, pairs: Seq<(Seq<char>, AppView)>) -> Map<Seq<char>, AppView>
    decreases pairs.len(),
{
    if pairs.len() == 0 {
        c
    } else {
        loaded(c, pairs.drop_last()).insert(pairs.last().0, pairs.last().1)
    }
}

/// The map after recording `app` under each query of `history`.
pub open spec fn recorded(c: Map<Seq<char>, AppView>, history: Seq<Seq<char>>, app: AppView) -> Map<Seq<char>, AppView>
    decreases history.len(),
{
    if history.len() == 0 {
        c
    } else {
        recorded(c, history.drop_last(), app).insert(folded_case(history.last()), app)
    }
}

/// Query history, folded, to the application opened after it.
pub struct LearnedIndex {
    entries: LearnedMap,
}

impl LearnedIndex {
    pub closed spec fn contents(&self) -> Map<Seq<char>, AppView> {
        learned_map(self.entries)
    }

    pub fn new() -> (r: LearnedIndex)
        ensures
            r.contents().dom() == Set::<Seq<char>>::empty(),
    {
        LearnedIndex { entries: learned_new() }
    }

    /// Records that `opened_app` was opened after each query of `query_history`.
    pub fn record(&mut self, query_history: &Vec<AppName>, opened_app: &App)
        ensures
            final(self).contents() == recorded(
                old(self).contents(),
                query_history@.map_values(|q: AppName| q@),
                opened_app@,
            ),
    {
        let ghost hist = query_history@.map_values(|q: AppName| q@);
        for i in 0..query_history.len()
            invariant
                hist == query_history@.map_values(|q: AppName| q@),
                self.contents() == recorded(old(self).contents(), hist.take(i as int), opened_app@),
        {
            let key = fold_case(query_history[i].as_str());
            learned_upsert(&mut self.entries, key, opened_app.duplicate());
            assert(hist.take(i + 1).drop_last() =~= hist.take(i as int));
        }
        assert(hist.take(query_history.len() as int) =~= hist);
    }

    /// The application last opened after `query`, matched through case folding.
    pub fn lookup(&self, query: &AppString) -> (r: Option<App>)
        ensures
            match r {
                Some(a) => self.contents().contains_key(folded_case(query@)) && a@
                    == self.contents()[folded_case(query@)],
                None => !self.contents().contains_key(folded_case(query@)),
            },
    {
        let key = fold_case(query.as_str());
        learned_get(&self.entries, &key)
    }

    /// Every entry, each key once, for saving.
    pub fn to_entries(&self) -> (r: Vec<(String, App)>)
        ensures
            describes(pair_views(r@), self.contents()),
    {
        learned_pairs(&self.entries)
    }

    /// The index holding the saved entries, written in order.
    pub fn from_entries(saved: Vec<(String, App)>) -> (r: LearnedIndex)
        ensures
            r.contents() == loaded(Map::empty(), pair_views(saved@)),
    {
        let mut r = LearnedIndex::new();
        let ghost pv = pair_views(saved@);
        assert(r.contents() =~= loaded(Map::empty(), pv.take(0)));
        for i in 0..saved.len()
            invariant
                pv == pair_views(saved@),
                r.contents() == loaded(Map::empty(), pv.take(i as int)),
        {
            let key = saved[i].0.clone();
            let app = saved[i].1.duplicate();
            learned_upsert(&mut r.entries, key, app);
            assert(pv.take(i + 1).drop_last() =~= pv.take(i as int));
        }
        assert(pv.take(saved.len() as int) =~= pv);
        r
    }
}

proof fn lemma_loaded_lookup(pairs: Seq<(Seq<char>, AppView)>, i: int)
    requires
        0 <= i < pairs.len(),
        forall|a: int, b: int| 0 <= a < b < pairs.len() ==> pairs[a].0 != pairs[b].0,
    ensures
        loaded(Map::empty(), pairs).contains_key(pairs[i].0),
        loaded(Map::empty(), pairs)[pairs[i].0] == pairs[i].1,
    decreases pairs.len(),
{
    if i < pairs.len() - 1 {
        let init = pairs.drop_last();
        assert(init[i] == pairs[i]);
        lemma_loaded_lookup(init, i);
        assert(pairs.last().0 != pairs[i].0);
    }
}

proof fn lemma_loaded_keys(pairs: Seq<(Seq<char>, AppView)>, k: Seq<char>)
    requires
        loaded(Map::empty(), pairs).contains_key(k),
    ensures
        exists|i: int| 0 <= i < pairs.len() && #[trigger] pairs[i].0 == k,
    decreases pairs.len(),
{
    if pairs.len() > 0 && pairs.last().0 != k {
        let init = pairs.drop_last();
        lemma_loaded_keys(init, k);
        let i = choose|i: int| 0 <= i < init.len() && #[trigger] init[i].0 == k;
        assert(pairs[i].0 == k);
    }
    if pairs.len() > 0 && pairs.last().0 == k {
        assert(pairs[pairs.len() - 1].0 == k);
    }
}

/// Reloading a saved copy of the index restores it exactly: writing, in
/// turn, entries that list each key of a map once rebuilds that map.
pub proof fn lemma_reload_restores(saved: Seq<(Seq<char>, AppView)>, c: Map<Seq<char>, AppView>)
    requires
        describes(saved, c),
    ensures
        loaded(Map::empty(), saved) == c,
{
    let l = loaded(Map::empty(), saved);
    assert forall|k: Seq<char>| l.contains_key(k) implies c.contains_key(k) && l[k] == c[k] by {
        lemma_loaded_keys(saved, k);
        let i = choose|i: int| 0 <= i < saved.len() && #[trigger] saved[i].0 == k;
        lemma_loaded_lookup(saved, i);
    }
    assert forall|k: Seq<char>| c.contains_key(k) implies l.contains_key(k) by {
        let i = choose|i: int| 0 <= i < saved.len() && #[trigger] saved[i].0 == k;
        lemma_loaded_lookup(saved, i);
    }
    assert forall|k: Seq<char>| #[trigger] l.dom().contains(k) <==> c.dom().contains(k) by {
        if l.contains_key(k) {
            lemma_loaded_keys(saved, k);
            let i = choose|i: int| 0 <= i < saved.len() && #[trigger] saved[i].0 == k;
            lemma_loaded_lookup(saved, i);
        }
        if c.contains_key(k) {
            let i = choose|i: int| 0 <= i < saved.len() && #[trigger] saved[i].0 == k;
            lemma_loaded_lookup(saved, i);
        }
    }
    assert(l.dom() =~= c.dom());
    assert(l =~= c);
}

proof fn lemma_recorded_query(c: Map<Seq<char>, AppView>, history: Seq<Seq<char>>, app: AppView, q: Seq<char>)
    requires
        history.contains(q),
    ensures
        recorded(c, history, app).contains_key(folded_case(q)),
        recorded(c, history, app)[folded_case(q)] == app,
    decreases history.len(),
{
    if history.last() != q {
        let t = choose|t: int| 0 <= t < history.len() && history[t] == q;
        assert(history.drop_last()[t] == q);
        lemma_recorded_query(c, history.drop_last(), app, q);
    }
}

/// Learning survives a save and reload: after `app` is recorded for every
/// query of a session and the saved entries are loaded again, looking up
/// any of those queries gives `app`.
pub proof fn lemma_record_then_reload(
    before: Map<Seq<char>, AppView>,
    history: Seq<Seq<char>>,
    app: AppView,
    saved: Seq<(Seq<char>, AppView)>,
    q: Seq<char>,
)
    requires
        describes(saved, recorded(before, history, app)),
        history.contains(q),
    ensures
        loaded(Map::empty(), saved).contains_key(folded_case(q)),
        loaded(Map::empty(), saved)[folded_case(q)] == app,
{
    lemma_recorded_query(before, history, app, q);
    lemma_reload_restores(saved, recorded(before, history, app));
}

} // verus!
