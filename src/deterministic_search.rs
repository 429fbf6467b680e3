//! The deterministic search engine: the ranking engine together with the
//! coordinator of deferred searches.

pub use crate::matching::{beginning_distance, substrings};

use crate::app_string::AppString;
use crate::apps::{app_views, App, AppName, AppView};
use crate::deferred::{step, DeferredSlot, DeferredToken, SlotEvent, SlotModel};
use crate::extensions::SearchEngine as Engine;
use crate::learned_index::{describes, pair_views, recorded, LearnedIndex};
use crate::ranking::{in_rank_order, is_ranking, ranked, ranking};
use crate::search::{same_records, SearchEngine};
use crate::substring_index::name_contains;
use vstd::prelude::*;

verus! {

/// Ranking engine plus deferred-search coordinator.
pub struct DeterministicSearchEngine {
    engine: SearchEngine,
    deferred: DeferredSlot,
}

impl DeterministicSearchEngine {
    /// An engine over `apps` that starts from what `learned` holds.
    pub fn build(apps: Vec<App>, learned: LearnedIndex) -> (r: DeterministicSearchEngine)
        ensures
            r.ready(),
            r.catalog() == app_views(apps@),
            r.learned() == learned.contents(),
            r.slot() == (SlotModel { next: 0, token: 0, results: Seq::empty() }),
    {
        DeterministicSearchEngine {
            engine: SearchEngine::with_learned(apps, learned),
            deferred: DeferredSlot::new(),
        }
    }

    /// The matching applications, ranked.
    pub fn search(&self, query: &AppString) -> (r: Vec<App>)
        requires
            self.ready(),
        ensures
            is_ranking(self.catalog(), self.learned(), query@, ranking(self.catalog(), self.learned(), query@)),
            app_views(r@) == ranked(self.catalog(), self.learned(), query@),
            forall|t: int| 0 <= t < r@.len() ==> name_contains(#[trigger] r@[t].name@, query@),
            in_rank_order(app_views(r@), self.learned(), query@),
            query@.len() == 0 ==> r@.len() == 0,
    {
        self.engine.search(query)
    }

    /// Another deferred request can be given a token.
    pub fn deferred_available(&self) -> (r: bool)
        ensures
            r == (self.slot().next < usize::MAX),
    {
        self.deferred.next_token() < usize::MAX
    }

    /// Starts a deferred search: takes the next token, clears the slot under
    /// it, and publishes the ranked results there one by one.
    pub fn search_deferred(&mut self, query: &AppString) -> (token: DeferredToken)
        requires
            old(self).ready(),
            old(self).slot().next < usize::MAX,
        ensures
            final(self).ready(),
            token == old(self).slot().next,
            final(self).slot() == (SlotModel {
                next: old(self).slot().next + 1,
                token: token as int,
                results: ranked(old(self).catalog(), old(self).learned(), query@),
            }),
            final(self).catalog() == old(self).catalog(),
            final(self).learned() == old(self).learned(),
    {
        let token = self.deferred.issue();
        let results = self.engine.search(query);
        let ghost rv = app_views(results@);
        assert(rv.take(0) =~= Seq::<AppView>::empty());
        for i in 0..results.len()
            invariant
                rv == app_views(results@),
                self.engine == old(self).engine,
                self.engine.well_formed(),
                rv == ranked(old(self).catalog(), old(self).learned(), query@),
                self.deferred@ == (SlotModel { next: token + 1, token: token as int, results: rv.take(i as int) }),
        {
            self.deferred.publish(token, results[i].duplicate());
            assert(rv.take(i + 1) =~= rv.take(i as int).push(rv[i as int]));
        }
        assert(rv.take(results.len() as int) =~= rv);
        token
    }

    /// Learns that `opened_app` was opened after each query of `query_history`.
    pub fn record_selection(&mut self, query_history: &Vec<AppName>, opened_app: &App)
        requires
            old(self).ready(),
        ensures
            final(self).ready(),
            final(self).catalog() == old(self).catalog(),
            final(self).slot() == old(self).slot(),
            final(self).learned() == recorded(
                old(self).learned(),
                query_history@.map_values(|q: AppName| q@),
                opened_app@,
            ),
    {
        self.engine.selected(query_history, opened_app);
    }

    /// Restarts the token counter and takes a freshly enumerated catalog,
    /// which replaces the current one (and its index) only where the records
    /// differ.
    pub fn refresh(&mut self, new_apps: Vec<App>) -> (changed: bool)
        requires
            old(self).ready(),
        ensures
            final(self).ready(),
            final(self).slot() == step(old(self).slot(), SlotEvent::Reset),
            changed == !same_records(old(self).catalog(), app_views(new_apps@)),
            !changed ==> final(self).catalog() == old(self).catalog(),
            changed ==> final(self).catalog() == app_views(new_apps@),
            final(self).learned() == old(self).learned(),
    {
        self.deferred.reset();
        self.engine.update(new_apps)
    }

    /// The latest published token and results.
    pub fn latest(&self) -> (r: (DeferredToken, Vec<App>))
        ensures
            r.0 == self.slot().token,
            app_views(r.1@) == self.slot().results,
    {
        self.deferred.latest()
    }

    /// Every learned entry, each query once, for saving.
    pub fn learned_entries(&self) -> (r: Vec<(String, App)>)
        ensures
            describes(pair_views(r@), self.learned()),
    {
        self.engine.learned_entries()
    }
}

impl Engine for DeterministicSearchEngine {
    closed spec fn ready(&self) -> bool {
        self.engine.well_formed()
    }

    closed spec fn catalog(&self) -> Seq<AppView> {
        self.engine.catalog()
    }

    closed spec fn learned(&self) -> Map<Seq<char>, AppView> {
        self.engine.learned()
    }

    closed spec fn slot(&self) -> SlotModel {
        self.deferred@
    }

    fn blocking_search(&self, query: &AppString) -> Vec<App> {
        self.search(query)
    }

    fn deferred_search(&mut self, query: &AppString) -> DeferredToken {
        self.search_deferred(query)
    }

    fn selected(&mut self, query_history: &Vec<AppName>, opened_app: &App) {
        self.record_selection(query_history, opened_app);
    }

    fn update(&mut self, new_apps: Vec<App>) -> bool {
        self.refresh(new_apps)
    }
}

} // verus!
