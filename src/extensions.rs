//! The capability interface of a search engine, and the types of deferred
//! searches.

pub use crate::deferred::{observe, DeferredToken, Observation};

use crate::app_string::AppString;
use crate::apps::{app_views, App, AppName, AppView};
use crate::deferred::{step, SlotEvent, SlotModel};
use crate::learned_index::recorded;
use crate::ranking::{in_rank_order, is_ranking, ranked, ranking};
use crate::search::same_records;
use crate::substring_index::name_contains;
use vstd::prelude::*;

verus! {

/// A published deferred result: the request's token and its results.
pub type DeferredMessage = (DeferredToken, Vec<App>);

/// What an interchangeable search engine offers its users.
pub trait SearchEngine {
    /// The engine's internal invariant holds.
    spec fn ready(&self) -> bool;

    /// The catalog's records, in order.
    spec fn catalog(&self) -> Seq<AppView>;

    /// The learned-rank index: folded query to the application opened after it.
    spec fn learned(&self) -> Map<Seq<char>, AppView>;

    /// The deferred-search coordinator.
    spec fn slot(&self) -> SlotModel;

    /// Searches at once: the catalog's matches for the query, ranked.
    fn blocking_search(&self, query: &AppString) -> (r: Vec<App>)
        requires
            self.ready(),
        ensures
            is_ranking(self.catalog(), self.learned(), query@, ranking(self.catalog(), self.learned(), query@)),
            app_views(r@) == ranked(self.catalog(), self.learned(), query@),
            forall|t: int| 0 <= t < r@.len() ==> name_contains(#[trigger] r@[t].name@, query@),
            in_rank_order(app_views(r@), self.learned(), query@),
            query@.len() == 0 ==> r@.len() == 0,
    ;

    /// Starts a deferred search: takes the next token, and publishes the
    /// ranked results under it in the slot.
    fn deferred_search(&mut self, query: &AppString) -> (token: DeferredToken)
        requires
            old(self).ready(),
            old(self).slot().next < usize::MAX,
        ensures
            final(self).ready(),
            token == old(self).slot().next,
            final(self).slot() == (SlotModel {
                next: old(self).slot().next + 1,
                token: token as int,
                results: ranked(old(self).catalog(), old(self).learned(), query@),
            }),
            final(self).catalog() == old(self).catalog(),
            final(self).learned() == old(self).learned(),
    ;

    /// A search session ended with `opened_app` being opened: each query of
    /// the session now leads to it.
    fn selected(&mut self, query_history: &Vec<AppName>, opened_app: &App)
        requires
            old(self).ready(),
        ensures
            final(self).ready(),
            final(self).catalog() == old(self).catalog(),
            final(self).slot() == old(self).slot(),
            final(self).learned() == recorded(
                old(self).learned(),
                query_history@.map_values(|q: AppName| q@),
                opened_app@,
            ),
    ;

    /// Takes a freshly enumerated catalog and restarts the token counter. The
    /// catalog (and its index) is replaced only where its records differ;
    /// returns whether it was.
    fn update(&mut self, new_apps: Vec<App>) -> (changed: bool)
        requires
            old(self).ready(),
        ensures
            final(self).ready(),
            final(self).slot() == step(old(self).slot(), SlotEvent::Reset),
            changed == !same_records(old(self).catalog(), app_views(new_apps@)),
            !changed ==> final(self).catalog() == old(self).catalog(),
            changed ==> final(self).catalog() == app_views(new_apps@),
            final(self).learned() == old(self).learned(),
    ;
}

} // verus!
