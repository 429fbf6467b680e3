//! The search engine: the catalog, its substring index and the learned-rank
//! index, searched and kept current together.

pub use crate::matching::{beginning_distance, substrings};

use crate::app_string::AppString;
use crate::apps::{app_names, app_views, same_app_record, App, AppName, AppView};
use crate::learned_index::{describes, pair_views, recorded, LearnedIndex};
use crate::ranking::{in_rank_order, is_ranking, rank, ranked, ranking};
use crate::substring_index::{name_contains, SubstringIndex};
use vstd::prelude::*;

verus! {

/// Some record of `list` is `app` (full-record equality).
pub open spec fn holds_app(list: Seq<AppView>, app: AppView) -> bool {
    exists|t: int| 0 <= t < list.len() && same_app_record(#[trigger] list[t], app)
}

/// Every record of `a` is one of `b`.
pub open spec fn covered_by(a: Seq<AppView>, b: Seq<AppView>) -> bool {
    forall|i: int| 0 <= i < a.len() ==> holds_app(b, #[trigger] a[i])
}

/// The two catalogs hold the same records, in any order.
pub open spec fn same_records(a: Seq<AppView>, b: Seq<AppView>) -> bool {
    covered_by(a, b) && covered_by(b, a)
}

/// The record is one of the list.
fn holds_record(list: &Vec<App>, app: &App) -> (r: bool)
    ensures
        r == holds_app(app_views(list@), app@),
{
    for i in 0..list.len()
        invariant
            forall|k: int| 0 <= k < i ==> !same_app_record(#[trigger] app_views(list@)[k], app@),
    {
        assert(app_views(list@)[i as int] == list@[i as int]@);
        if list[i].same_record(app) {
            return true;
        }
    }
    false
}

/// Every record of `a` is one of `b`.
fn all_held(a: &Vec<App>, b: &Vec<App>) -> (r: bool)
    ensures
        r == covered_by(app_views(a@), app_views(b@)),
{
    for i in 0..a.len()
        invariant
            forall|k: int| 0 <= k < i ==> holds_app(app_views(b@), #[trigger] app_views(a@)[k]),
    {
        assert(app_views(a@)[i as int] == a@[i as int]@);
        if !holds_record(b, &a[i]) {
            return false;
        }
    }
    true
}

/// The two catalogs hold the same records.
pub fn same_catalog(a: &Vec<App>, b: &Vec<App>) -> (r: bool)
    ensures
        r == same_records(app_views(a@), app_views(b@)),
{
    all_held(a, b) && all_held(b, a)
}

/// Catalog, substring index and learned-rank index.
pub struct SearchEngine {
    apps: Vec<App>,
    learned_substring_index: LearnedIndex,
    substring_index: SubstringIndex,
}

impl SearchEngine {
    /// The catalog's records, in order.
    pub closed spec fn catalog(&self) -> Seq<AppView> {
        app_views(self.apps@)
    }

    /// What the learned-rank index holds.
    pub closed spec fn learned(&self) -> Map<Seq<char>, AppView> {
        self.learned_substring_index.contents()
    }

    /// What the substring index holds.
    pub closed spec fn index(&self) -> Map<Seq<char>, Seq<Seq<char>>> {
        self.substring_index.contents()
    }

    /// The substring index is the index of the current catalog.
    pub closed spec fn well_formed(&self) -> bool {
        self.substring_index.indexes(app_names(self.apps@))
    }

    /// An engine over `apps` that has learned nothing yet.
    pub fn build(apps: Vec<App>) -> (r: SearchEngine)
        ensures
            r.well_formed(),
            r.catalog() == app_views(apps@),
            r.learned().dom() == Set::<Seq<char>>::empty(),
    {
        SearchEngine::with_learned(apps, LearnedIndex::new())
    }

    /// An engine over `apps` that starts from what `learned` holds.
    pub fn with_learned(apps: Vec<App>, learned: LearnedIndex) -> (r: SearchEngine)
        ensures
            r.well_formed(),
            r.catalog() == app_views(apps@),
            r.learned() == learned.contents(),
    {
        let substring_index = SubstringIndex::build(&apps);
        SearchEngine { apps, learned_substring_index: learned, substring_index }
    }

    /// The matching applications, ranked.
    pub fn search(&self, query: &AppString) -> (r: Vec<App>)
        requires
            self.well_formed(),
        ensures
            is_ranking(self.catalog(), self.learned(), query@, ranking(self.catalog(), self.learned(), query@)),
            app_views(r@) == ranked(self.catalog(), self.learned(), query@),
            forall|t: int| 0 <= t < r@.len() ==> name_contains(#[trigger] r@[t].name@, query@),
            in_rank_order(app_views(r@), self.learned(), query@),
            query@.len() == 0 ==> r@.len() == 0,
    {
        rank(&self.apps, &self.substring_index, &self.learned_substring_index, query)
    }

    /// Learns that `opened_app` was opened after each query of `query_history`.
    pub fn selected(&mut self, query_history: &Vec<AppName>, opened_app: &App)
        requires
            old(self).well_formed(),
        ensures
            final(self).well_formed(),
            final(self).catalog() == old(self).catalog(),
            final(self).index() == old(self).index(),
            final(self).learned() == recorded(
                old(self).learned(),
                query_history@.map_values(|q: AppName| q@),
                opened_app@,
            ),
    {
        self.learned_substring_index.record(query_history, opened_app);
    }

    /// Takes a freshly enumerated catalog. Where it holds the same records as
    /// the current one nothing changes and `false` is returned; otherwise the
    /// catalog is replaced, the index rebuilt, and `true` returned.
    pub fn update(&mut self, new_apps: Vec<App>) -> (changed: bool)
        requires
            old(self).well_formed(),
        ensures
            final(self).well_formed(),
            changed == !same_records(old(self).catalog(), app_views(new_apps@)),
            !changed ==> final(self).catalog() == old(self).catalog() && final(self).index()
                == old(self).index(),
            changed ==> final(self).catalog() == app_views(new_apps@),
            final(self).learned() == old(self).learned(),
    {
        if same_catalog(&self.apps, &new_apps) {
            return false;
        }
        self.substring_index = SubstringIndex::build(&new_apps);
        self.apps = new_apps;
        true
    }

    /// Every learned entry, each query once, for saving.
    pub fn learned_entries(&self) -> (r: Vec<(String, App)>)
        ensures
            describes(pair_views(r@), self.learned()),
    {
        self.learned_substring_index.to_entries()
    }
}

} // verus!
