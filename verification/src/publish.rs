//! The streaming publisher: what one subscription is served.
//!
//! A subscription snapshots the store once when it is accepted and then
//! streams each exchange's summary from that snapshot, in entry order,
//! before closing — it does not tail later updates.  The transport around
//! it owns the channel and its backpressure; the state machine here decides
//! what is emitted and when the stream ends.

use vstd::prelude::*;

use crate::book::{
    all_asks, all_bids, clone_summary, lemma_all_levels_congruent, merge_summaries, summary_eq,
    summary_wf, Summary,
};
use crate::store::Store;

verus! {

/// The phases of one subscription's stream.
#[derive(Clone, Copy, Debug, PartialEq, Eq, Structural)]
pub enum StreamState {
    /// Accepted; nothing emitted yet.
    Open,
    /// Some items emitted, more remain.
    Streaming,
    /// Every item emitted; the stream is over.
    Closed,
}

/// One subscription: the snapshot taken when it was accepted, and how far
/// into it the stream has got.
pub struct Subscription {
    items: Vec<Summary>,
    cursor: usize,
}

impl Subscription {
    /// The items this subscription streams, in order.
    pub closed spec fn items_view(&self) -> Seq<Summary> {
        self.items@
    }

    /// How many items have been emitted.
    pub closed spec fn pos(&self) -> int {
        self.cursor as int
    }

    pub open spec fn wf(&self) -> bool {
        0 <= self.pos() <= self.items_view().len()
    }

    /// `Open` before the first item, `Streaming` while items remain,
    /// `Closed` from the last item on.
    pub open spec fn state(&self) -> StreamState {
        if self.pos() >= self.items_view().len() {
            StreamState::Closed
        } else if self.pos() == 0 {
            StreamState::Open
        } else {
            StreamState::Streaming
        }
    }

    /// Accepts a subscription: snapshots the store; the stream will emit
    /// each exchange's current summary, in entry order, and then close.
    pub fn subscribe(store: &Store) -> (r: Subscription)
        ensures
            r.wf(),
            r.pos() == 0,
            r.items_view().len() == store.values().len(),
            forall|i: int|
                0 <= i < r.items_view().len() ==> summary_eq(
                    #[trigger] r.items_view()[i],
                    store.values()[i],
                ),
    {
        Subscription { items: store.snapshot(), cursor: 0 }
    }

    /// Emits the next item, or closes: the item at the cursor while one
    /// remains, nothing once all have been emitted.  The stream only moves
    /// forward: `Open` to `Streaming` to `Closed`.
    pub fn next_item(&mut self) -> (r: Option<Summary>)
        requires
            old(self).wf(),
        ensures
            final(self).wf(),
            final(self).items_view() == old(self).items_view(),
            match r {
                Some(s) => old(self).pos() < old(self).items_view().len() && summary_eq(
                    s,
                    old(self).items_view()[old(self).pos()],
                ) && final(self).pos() == old(self).pos() + 1 && final(self).state()
                    != StreamState::Open,
                None => old(self).pos() == old(self).items_view().len() && final(self).pos()
                    == old(self).pos() && old(self).state() == StreamState::Closed
                    && final(self).state() == StreamState::Closed,
            },
    {
        if self.cursor < self.items.len() {
            let s = clone_summary(&self.items[self.cursor]);
            self.cursor = self.cursor + 1;
            Some(s)
        } else {
            None
        }
    }

    /// The stream's current phase.
    pub fn state_now(&self) -> (r: StreamState)
        ensures
            r == self.state(),
    {
        if self.cursor >= self.items.len() {
            StreamState::Closed
        } else if self.cursor == 0 {
            StreamState::Open
        } else {
            StreamState::Streaming
        }
    }
}

/// Merges the store's current entries into the one aggregate summary: the
/// alternative publishing mode, one ranked book over all exchanges.
pub fn merged_summary(store: &Store) -> (r: Summary)
    ensures
        summary_wf(r),
        r.bids@.to_multiset() == all_bids(store.values()).to_multiset(),
        r.asks@.to_multiset() == all_asks(store.values()).to_multiset(),
{
    let snap = store.snapshot();
    proof {
        lemma_all_levels_congruent(snap@, store.values());
    }
    merge_summaries(snap)
}

} // verus!
