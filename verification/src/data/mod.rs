//! Market data: identifiers, bars and the feeds that produce them.
pub mod csv_feed;
pub mod fast_hash;
pub mod symbol_table;
pub mod types;

use crate::events::MarketEvent;
use vstd::prelude::*;

verus! {

/// A source of chronologically ordered market data.
///
/// Implementations must yield bars in non-decreasing timestamp order; once
/// a bar has been returned there is no way to ask the feed for anything
/// out of order. `pending` is the sequence of events the feed has still to
/// yield, in order; it is finite, so a run over a feed always ends. A
/// verified implementation defines it and declares, through
/// `obeys_feed_laws`, that `next` yields exactly it; nothing is known of
/// a feed that does not.
pub trait DataFeed {
    /// Whether `next` is known to yield the events of `pending`, in order.
    open spec fn obeys_feed_laws() -> bool {
        false
    }

    /// The events still to come, in the order they will be yielded.
    open spec fn pending(&self) -> Seq<MarketEvent> {
        Seq::empty()
    }

    /// Returns the next market event, or `None` when the feed is exhausted.
    fn next(&mut self) -> (r: Option<MarketEvent>)
        ensures
            Self::obeys_feed_laws() ==> {
                &&& old(self).pending().len() == 0 ==> r is None && final(self).pending() == old(self).pending()
                &&& old(self).pending().len() > 0 ==> r == Some(old(self).pending()[0]) && final(self).pending()
                    == old(self).pending().drop_first()
            },
    ;
}

} // verus!
