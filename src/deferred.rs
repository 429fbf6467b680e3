//! Deferred searches: a token per request and a single "latest value wins"
//! slot of published results. A watcher abandons its request as soon as it
//! sees a newer token.

use crate::apps::{app_views, App, AppView};
use vstd::prelude::*;

verus! {

/// Identifies a deferred request; larger is more recent.
pub type DeferredToken = usize;

/// What a watcher does with a publish it observes.
#[derive(Debug, Clone, Copy, PartialEq, Eq, Structural)]
pub enum Observation {
    /// The results belong to this request or an older one: hand them over.
    Deliver,
    /// A newer request has started: stop watching.
    Abandon,
}

/// The decision of a watcher of request `token` that observes `published`.
pub open spec fn observation_of(token: int, published: int) -> Observation {
    if published > token {
        Observation::Abandon
    } else {
        Observation::Deliver
    }
}

/// Decides what the watcher of request `token` does on observing a publish
/// under `published`.
pub fn observe(token: DeferredToken, published: DeferredToken) -> (r: Observation)
    ensures
        r == observation_of(token as int, published as int),
{
    if published > token {
        Observation::Abandon
    } else {
        Observation::Deliver
    }
}

/// The coordinator as plain values: the next token to hand out, and the
/// slot's token and results.
pub struct SlotModel {
    pub next: int,
    pub token: int,
    pub results: Seq<AppView>,
}

/// What happens to the coordinator.
pub enum SlotEvent {
    /// A new deferred request takes the next token and clears the slot.
    Issue,
    /// Request `token` publishes one more result.
    Publish(int, AppView),
    /// The catalog was refreshed: the counter starts again at zero.
    Reset,
}

pub open spec fn step(s: SlotModel, e: SlotEvent) -> SlotModel {
    match e {
        SlotEvent::Issue => SlotModel { next: s.next + 1, token: s.next, results: Seq::empty() },
        SlotEvent::Publish(t, a) => if t == s.token {
            SlotModel { results: s.results.push(a), ..s }
        } else {
            s
        },
        SlotEvent::Reset => SlotModel { next: 0, ..s },
    }
}

pub open spec fn run(s: SlotModel, events: Seq<SlotEvent>) -> SlotModel
    decreases events.len(),
{
    if events.len() == 0 {
        s
    } else {
        step(run(s, events.drop_last()), events.last())
    }
}

proof fn lemma_tokens_stay_at_least(s: SlotModel, events: Seq<SlotEvent>, b: int)
    requires
        s.token >= b,
        s.next > s.token,
        forall|k: int| 0 <= k < events.len() ==> !(#[trigger] events[k] is Reset),
    ensures
        run(s, events).token >= b,
        run(s, events).next > run(s, events).token,
    decreases events.len(),
{
    if events.len() > 0 {
        let init = events.drop_last();
        assert forall|k: int| 0 <= k < init.len() implies !(#[trigger] init[k] is Reset) by {
            assert(init[k] == events[k]);
        }
        lemma_tokens_stay_at_least(s, init, b);
        assert(!(events[events.len() - 1] is Reset));
    }
}

/// A newer search cancels an older one: once request B is issued right after
/// request A, and no refresh resets the counter, every publish that A's
/// watcher can observe from then on carries a newer token, so the watcher
/// abandons A without delivering anything.
pub proof fn lemma_newer_search_cancels_older(s: SlotModel, events: Seq<SlotEvent>)
    requires
        forall|k: int| 0 <= k < events.len() ==> !(#[trigger] events[k] is Reset),
    ensures
        ({
            let after_a = step(s, SlotEvent::Issue);
            let after_b = step(after_a, SlotEvent::Issue);
            forall|k: int|
                0 <= k <= events.len() ==> observation_of(after_a.token, #[trigger] run(after_b, events.take(k)).token)
                    == Observation::Abandon
        }),
{
    let after_a = step(s, SlotEvent::Issue);
    let after_b = step(after_a, SlotEvent::Issue);
    assert forall|k: int|
        0 <= k <= events.len() implies observation_of(after_a.token, #[trigger] run(after_b, events.take(k)).token)
            == Observation::Abandon by {
        let pre = events.take(k);
        assert forall|j: int| 0 <= j < pre.len() implies !(#[trigger] pre[j] is Reset) by {
            assert(pre[j] == events[j]);
        }
        lemma_tokens_stay_at_least(after_b, pre, after_a.token + 1);
    }
}

/// Token counter and single-slot cell of the latest published results.
pub struct DeferredSlot {
    next_token: DeferredToken,
    token: DeferredToken,
    results: Vec<App>,
}

impl View for DeferredSlot {
    type V = SlotModel;

    closed spec fn view(&self) -> SlotModel {
        SlotModel {
            next: self.next_token as int,
            token: self.token as int,
            results: app_views(self.results@),
        }
    }
}

impl DeferredSlot {
    pub fn new() -> (r: DeferredSlot)
        ensures
            r@ == (SlotModel { next: 0, token: 0, results: Seq::empty() }),
    {
        let r = DeferredSlot { next_token: 0, token: 0, results: Vec::new() };
        assert(r@.results =~= Seq::<AppView>::empty());
        r
    }

    /// Starts a request: hands out the next token and clears the slot under it.
    pub fn issue(&mut self) -> (token: DeferredToken)
        requires
            old(self)@.next < usize::MAX,
        ensures
            token == old(self)@.next,
            final(self)@ == step(old(self)@, SlotEvent::Issue),
    {
        let token = self.next_token;
        self.next_token = token + 1;
        self.token = token;
        self.results = Vec::new();
        assert(self@.results =~= Seq::<AppView>::empty());
        token
    }

    /// Adds one result of request `token`, unless a newer request owns the slot.
    pub fn publish(&mut self, token: DeferredToken, entry: App)
        ensures
            final(self)@ == step(old(self)@, SlotEvent::Publish(token as int, entry@)),
    {
        if token == self.token {
            let ghost before = self.results@;
            self.results.push(entry);
            assert(app_views(self.results@) =~= app_views(before).push(entry@));
        }
    }

    /// The counter starts again at zero (the slot keeps what it holds).
    pub fn reset(&mut self)
        ensures
            final(self)@ == step(old(self)@, SlotEvent::Reset),
    {
        self.next_token = 0;
    }

    /// The next token to hand out.
    pub fn next_token(&self) -> (r: DeferredToken)
        ensures
            r == self@.next,
    {
        self.next_token
    }

    /// A copy of the latest published token and results.
    pub fn latest(&self) -> (r: (DeferredToken, Vec<App>))
        ensures
            r.0 == self@.token,
            app_views(r.1@) == self@.results,
    {
        let mut out: Vec<App> = Vec::new();
        for i in 0..self.results.len()
            invariant
                app_views(out@) == app_views(self.results@).take(i as int),
                out@.len() == i,
        {
            let ghost before = out@;
            out.push(self.results[i].duplicate());
            assert(out@ =~= before.push(out@[i as int]));
            assert(app_views(out@) =~= app_views(self.results@).take(i + 1));
        }
        assert(app_views(self.results@).take(self.results.len() as int) =~= app_views(self.results@));
        (self.token, out)
    }
}

} // verus!
