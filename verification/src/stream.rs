//! The live stream's state machine: a queue of pending slot records, a
//! cursor for the next fetch, and a countdown of events still owed.
//!
//! Every turn of the machine emits exactly one event — a record when one is
//! queued, else an empty heartbeat — and both kinds count against the
//! client's limit, so a stream opened with limit N delivers exactly N
//! events and closes.

use vstd::prelude::*;
use crate::schema::Slot;

verus! {

/// How many slots one stream fetch asks for.
pub const STREAM_FETCH_CHUNK_SIZE: u16 = 128;

/// How many events a stream delivers when the client names no limit.
pub const DEFAULT_STREAM_LIMIT: u64 = 256;

/// A fetched chunk the stream cannot use; both are fatal for the stream.
#[derive(Debug, Clone, Copy, PartialEq, Eq, Structural)]
pub enum StreamError {
    /// The fetch returned nothing, not even the cursor slot.
    EmptyFetch,
    /// The fetch did not return the cursor slot first.
    FirstSlotMismatch,
}

/// One event sent to the client.
#[derive(Debug, Clone, PartialEq, Eq)]
pub enum StreamEvent {
    /// One slot's record.
    Data(String),
    /// An empty keep-alive event.
    Heartbeat,
}

/// Validate a fetched chunk against the cursor: the first slot must be the
/// cursor slot itself, and only what follows it is new.
pub fn stream_take_chunk(latest_fetched_slot: u64, fetched: Vec<Slot>) -> (r: Result<
    Vec<Slot>,
    StreamError,
>)
    ensures
        r == Err::<Vec<Slot>, StreamError>(StreamError::EmptyFetch) <==> fetched@.len() == 0,
        fetched@.len() > 0 ==> ((r == Err::<Vec<Slot>, StreamError>(StreamError::FirstSlotMismatch))
            <==> fetched@[0].slot != latest_fetched_slot),
        r is Ok ==> r->Ok_0@ == fetched@.drop_first(),
{
    if fetched.len() == 0 {
        Err(StreamError::EmptyFetch)
    } else if fetched[0].slot != latest_fetched_slot {
        Err(StreamError::FirstSlotMismatch)
    } else {
        let ghost f0 = fetched@;
        let mut rest = fetched;
        rest.remove(0);
        proof {
            assert(f0.remove(0) =~= f0.drop_first());
        }
        Ok(rest)
    }
}

/// The stream's state between events.
pub struct StreamState {
    queue: Vec<String>,
    latest_fetched_slot: u64,
    remaining: u64,
}

impl StreamState {
    /// The queued records, oldest first.
    pub closed spec fn spec_queue(self) -> Seq<String> {
        self.queue@
    }

    /// The slot the next fetch starts from.
    pub closed spec fn spec_latest(self) -> u64 {
        self.latest_fetched_slot
    }

    /// Events still owed to the client.
    pub closed spec fn spec_remaining(self) -> u64 {
        self.remaining
    }

    /// Open a stream at a slot with an event budget.
    pub fn open(start_slot: u64, limit: u64) -> (r: StreamState)
        ensures
            r.spec_queue().len() == 0,
            r.spec_latest() == start_slot,
            r.spec_remaining() == limit,
    {
        StreamState { queue: Vec::new(), latest_fetched_slot: start_slot, remaining: limit }
    }

    /// The slot the next fetch starts from.
    pub fn latest_fetched_slot(&self) -> (r: u64)
        ensures
            r == self.spec_latest(),
    {
        self.latest_fetched_slot
    }

    /// Events still owed.
    pub fn remaining(&self) -> (r: u64)
        ensures
            r == self.spec_remaining(),
    {
        self.remaining
    }

    /// Whether any record is queued.
    pub fn queue_is_empty(&self) -> (r: bool)
        ensures
            r == (self.spec_queue().len() == 0),
    {
        self.queue.len() == 0
    }

    /// Admit a fetched chunk's records: queue each slot's line and move the
    /// cursor to the chunk's last slot.
    pub fn enqueue_records(&mut self, records: Vec<(Slot, String)>)
        requires
            records@.len() > 0,
        ensures
            final(self).spec_queue() == old(self).spec_queue() + records@.map_values(
                |r: (Slot, String)| r.1,
            ),
            final(self).spec_latest() == records@.last().0.slot,
            final(self).spec_remaining() == old(self).spec_remaining(),
    {
        let n = records.len();
        let last_slot = records[n - 1].0.slot;
        let ghost rs = records@;
        let mut records = records;
        let mut i: usize = 0;
        while records.len() > 0
            invariant
                rs.len() == n,
                i <= rs.len(),
                records@ == rs.skip(i as int),
                self.queue@ == old(self).queue@ + rs.take(i as int).map_values(
                    |r: (Slot, String)| r.1,
                ),
                self.latest_fetched_slot == old(self).latest_fetched_slot,
                self.remaining == old(self).remaining,
            decreases records.len(),
        {
            proof {
                assert(rs.skip(i as int).len() == rs.len() - i);
            }
            let (_, line) = records.remove(0);
            self.queue.push(line);
            proof {
                assert(rs.skip(i as int).remove(0) =~= rs.skip(i as int + 1));
                assert(rs.take(i as int + 1).drop_last() =~= rs.take(i as int));
                assert(self.queue@ =~= old(self).queue@ + rs.take(i as int + 1).map_values(
                    |r: (Slot, String)| r.1,
                ));
            }
            i = i + 1;
        }
        proof {
            assert(rs.take(i as int) =~= rs);
        }
        self.latest_fetched_slot = last_slot;
    }

    /// Emit one event: the front of the queue when one is there, else a
    /// heartbeat; each event spends one unit of the budget. A spent stream
    /// emits nothing and closes.
    pub fn next_event(&mut self) -> (r: Option<StreamEvent>)
        ensures
            old(self).spec_remaining() == 0 ==> r is None && *final(self) == *old(self),
            old(self).spec_remaining() > 0 ==> {
                &&& r is Some
                &&& final(self).spec_remaining() == old(self).spec_remaining() - 1
                &&& final(self).spec_latest() == old(self).spec_latest()
                &&& (old(self).spec_queue().len() > 0 ==> r == Some(
                    StreamEvent::Data(old(self).spec_queue()[0]),
                ) && final(self).spec_queue() == old(self).spec_queue().drop_first())
                &&& (old(self).spec_queue().len() == 0 ==> r == Some(StreamEvent::Heartbeat)
                    && final(self).spec_queue() == old(self).spec_queue())
            },
    {
        if self.remaining == 0 {
            return None;
        }
        self.remaining = self.remaining - 1;
        if self.queue.len() > 0 {
            let ghost q0 = self.queue@;
            let line = self.queue.remove(0);
            proof {
                assert(q0.remove(0) =~= q0.drop_first());
            }
            Some(StreamEvent::Data(line))
        } else {
            Some(StreamEvent::Heartbeat)
        }
    }
}

/// The events a stream emits, turn by turn: when the queue is empty and a
/// feed is left, the next feed's records are admitted first; then the front
/// record goes out as data, or a heartbeat when none is queued; each event
/// spends one unit of the budget.
pub open spec fn spec_stream_events(
    queue: Seq<String>,
    feeds: Seq<Vec<(Slot, String)>>,
    remaining: nat,
) -> Seq<StreamEvent>
    decreases remaining,
{
    if remaining == 0 {
        Seq::empty()
    } else {
        let takes_feed = queue.len() == 0 && feeds.len() > 0;
        let q1 = if takes_feed && feeds[0]@.len() > 0 {
            feeds[0]@.map_values(|r: (Slot, String)| r.1)
        } else {
            queue
        };
        let f1 = if takes_feed {
            feeds.drop_first()
        } else {
            feeds
        };
        if q1.len() > 0 {
            seq![StreamEvent::Data(q1[0])] + spec_stream_events(
                q1.drop_first(),
                f1,
                (remaining - 1) as nat,
            )
        } else {
            seq![StreamEvent::Heartbeat] + spec_stream_events(q1, f1, (remaining - 1) as nat)
        }
    }
}

/// Run a whole stream against prepared chunk feeds. The events are exactly
/// `spec_stream_events` of the feeds, and however the feeds fall, the client
/// receives exactly `limit` events: this is the stream's limit guarantee.
pub fn stream_run(start_slot: u64, limit: u64, feeds: Vec<Vec<(Slot, String)>>) -> (events: Vec<
    StreamEvent,
>)
    ensures
        events@.len() == limit,
        events@ == spec_stream_events(Seq::empty(), feeds@, limit as nat),
{
    let ghost trace = spec_stream_events(Seq::empty(), feeds@, limit as nat);
    let mut st = StreamState::open(start_slot, limit);
    let mut feeds = feeds;
    let mut events: Vec<StreamEvent> = Vec::new();
    proof {
        assert(st.spec_queue() =~= Seq::<String>::empty());
        assert(events@ + trace =~= trace);
    }
    while st.remaining() > 0
        invariant
            st.spec_remaining() + events@.len() == limit,
            trace == events@ + spec_stream_events(
                st.spec_queue(),
                feeds@,
                st.spec_remaining() as nat,
            ),
        decreases st.spec_remaining(),
    {
        let ghost q0 = st.spec_queue();
        let ghost f0 = feeds@;
        let ghost rem0 = st.spec_remaining();
        if st.queue_is_empty() && feeds.len() > 0 {
            let feed = feeds.remove(0);
            proof {
                assert(f0.remove(0) =~= f0.drop_first());
            }
            if feed.len() > 0 {
                st.enqueue_records(feed);
                proof {
                    assert(st.spec_queue() =~= feed@.map_values(|r: (Slot, String)| r.1));
                }
            }
        }
        let ghost q1 = st.spec_queue();
        match st.next_event() {
            Some(ev) => {
                events.push(ev);
            },
            None => {
            },
        }
        proof {
            assert(spec_stream_events(q0, f0, rem0 as nat) == (if q1.len() > 0 {
                seq![StreamEvent::Data(q1[0])] + spec_stream_events(
                    q1.drop_first(),
                    feeds@,
                    (rem0 - 1) as nat,
                )
            } else {
                seq![StreamEvent::Heartbeat] + spec_stream_events(q1, feeds@, (rem0 - 1) as nat)
            }));
            assert(events@ + spec_stream_events(st.spec_queue(), feeds@, st.spec_remaining() as nat)
                =~= events@.drop_last() + spec_stream_events(q0, f0, rem0 as nat));
        }
    }
    proof {
        assert(spec_stream_events(st.spec_queue(), feeds@, 0) =~= Seq::<StreamEvent>::empty());
        assert(trace =~= events@);
    }
    events
}

} // verus!
