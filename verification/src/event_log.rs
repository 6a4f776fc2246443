//! Append-only audit trail of every state-changing book event.
//!
//! Each event mirrors one line of the durable log:
//! `ts,kind,order_id,side,order_px,original_qty,remaining_after,fill_px,fill_qty`.
//! The log is recorded in memory before any book mutation becomes
//! permanent (log-before-mutate); writing the lines to durable storage
//! is the caller's concern.

use vstd::prelude::*;
use crate::order::Side;
use crate::clock::current_timestamp_ns;

verus! {

/// The kind of a logged event: a new resting order, or a single fill.
#[derive(Clone, Copy, PartialEq, Eq, Structural, Debug)]
pub enum EventKind {
    New,
    Fill,
}

/// One log record. `rest` is the order's remaining quantity after the
/// event; `fill_px` and `fill_qty` are 0 for `New` events.
#[derive(Clone, Copy, PartialEq, Eq, Structural, Debug)]
pub struct Event {
    pub ts: u128,
    pub kind: EventKind,
    pub id: u64,
    pub side: Side,
    pub px: u64,
    pub qty: u64,
    pub rest: u64,
    pub fill_px: u64,
    pub fill_qty: u64,
}

/// The append-only event log. `last_ts` is the timestamp of the most
/// recent record; it clamps wall-clock readings so that recorded
/// timestamps never decrease.
pub struct EventLog {
    pub events: Vec<Event>,
    pub last_ts: u128,
}

impl EventLog {
    /// Timestamps never decrease along the log, and none exceeds `last_ts`.
    pub open spec fn wf(self) -> bool {
        &&& forall|i: int, j: int|
            0 <= i < j < self.events@.len() ==> (#[trigger] self.events@[i]).ts <= (
            #[trigger] self.events@[j]).ts
        &&& forall|i: int|
            0 <= i < self.events@.len() ==> (#[trigger] self.events@[i]).ts <= self.last_ts
    }

    /// An empty log.
    pub fn new() -> (r: EventLog)
        ensures
            r.wf(),
            r.events@.len() == 0,
            r.last_ts == 0,
    {
        EventLog { events: Vec::new(), last_ts: 0 }
    }

    /// Appends one record. The timestamp is taken from the wall clock,
    /// clamped so it never runs backwards. Everything but the timestamp
    /// is pinned by the arguments; nothing already logged changes.
    pub fn record(
        &mut self,
        kind: EventKind,
        id: u64,
        side: Side,
        px: u64,
        qty: u64,
        rest: u64,
        fill_px: u64,
        fill_qty: u64,
    )
        requires
            old(self).wf(),
        ensures
            final(self).wf(),
            final(self).events@.len() == old(self).events@.len() + 1,
            final(self).events@ == old(self).events@.push(final(self).events@.last()),
            ({
                let e = final(self).events@.last();
                &&& e.kind == kind
                &&& e.id == id
                &&& e.side == side
                &&& e.px == px
                &&& e.qty == qty
                &&& e.rest == rest
                &&& e.fill_px == fill_px
                &&& e.fill_qty == fill_qty
                &&& e.ts >= old(self).last_ts
            }),
            final(self).last_ts >= old(self).last_ts,
            final(self).last_ts == final(self).events@.last().ts,
    {
        let now = current_timestamp_ns();
        let ts: u128 = if now > self.last_ts {
            now
        } else {
            self.last_ts
        };
        self.last_ts = ts;
        let e = Event { ts, kind, id, side, px, qty, rest, fill_px, fill_qty };
        self.events.push(e);
    }
}

} // verus!
