//! The server-sent events stream: the subscriber registry and its fan-out.
//!
//! The engine side pushes onto a **bounded** per-subscriber queue and returns; a slow
//! client stalls only itself. On overflow the **oldest** frame is dropped and the
//! subscriber is flagged as lagged, so that its writer tells the client to re-sync:
//! the newest frame is the one that carries current truth.

use vstd::prelude::*;

use std::collections::VecDeque;

use crate::json::{json_text, write_json, Json, JsonV};
use crate::text::cat5;

verus! {

/// Frames buffered per subscriber before the oldest is dropped.
pub const QUEUE_CAPACITY: usize = 256;

/// One frame: an event name and its payload.
#[derive(Debug, PartialEq)]
pub struct Frame {
    pub event: &'static str,
    pub data: Json,
}

/// [`Frame`] as a mathematical value.
pub struct FrameV {
    pub event: Seq<char>,
    pub data: JsonV,
}

impl View for Frame {
    type V = FrameV;

    open spec fn view(&self) -> FrameV {
        FrameV { event: self.event@, data: self.data@ }
    }
}

impl Clone for Frame {
    fn clone(&self) -> (r: Self)
        ensures
            r@ == self@,
    {
        Frame { event: self.event, data: self.data.copy() }
    }
}

/// A frame on the wire: `event:` and `data:` lines, and a blank line.
pub open spec fn encoded(f: FrameV) -> Seq<char> {
    "event: "@ + f.event + "\ndata: "@ + json_text(f.data) + "\n\n"@
}

impl Frame {
    /// The wire form: `event:` and `data:` lines, terminated by a blank line. The data
    /// is always on one line: JSON text never contains a raw newline.
    pub fn encode(&self) -> (r: String)
        ensures
            r@ == encoded(self@),
    {
        let data = write_json(&self.data);
        cat5("event: ", self.event, "\ndata: ", data.as_str(), "\n\n")
    }
}

pub open spec fn frame_views(s: Seq<Frame>) -> Seq<FrameV> {
    s.map_values(|f: Frame| f@)
}

/// One subscriber's mailbox.
struct Subscriber {
    id: u64,
    queue: VecDeque<Frame>,
    /// Set when a push overflowed and dropped a frame.
    lagged: bool,
}

/// A subscriber's mailbox as a mathematical value.
pub struct SubscriberV {
    pub id: u64,
    pub queue: Seq<FrameV>,
    pub lagged: bool,
}

impl View for Subscriber {
    type V = SubscriberV;

    closed spec fn view(&self) -> SubscriberV {
        SubscriberV { id: self.id, queue: frame_views(self.queue@), lagged: self.lagged }
    }
}

/// A mailbox after one more frame: the oldest makes room.
pub open spec fn received(s: SubscriberV, f: FrameV) -> SubscriberV {
    if s.queue.len() >= QUEUE_CAPACITY {
        SubscriberV { queue: s.queue.drop_first().push(f), lagged: true, ..s }
    } else {
        SubscriberV { queue: s.queue.push(f), ..s }
    }
}

/// A mailbox that was just emptied.
pub open spec fn emptied(s: SubscriberV) -> SubscriberV {
    SubscriberV { queue: Seq::empty(), lagged: false, ..s }
}

impl Subscriber {
    fn receive(&mut self, frame: &Frame)
        ensures
            final(self)@ == received(old(self)@, frame@),
    {
        let ghost was = self.queue@;
        if self.queue.len() >= QUEUE_CAPACITY {
            self.queue.pop_front();
            self.lagged = true;
            assert(frame_views(self.queue@) =~= frame_views(was).drop_first());
        }
        let ghost mid = self.queue@;
        let copy = frame.clone();
        self.queue.push_back(copy);
        assert(frame_views(self.queue@) =~= frame_views(mid).push(frame@));
    }

    /// Everything pending, in one batch.
    fn drain(&mut self) -> (r: (Vec<Frame>, bool))
        ensures
            frame_views(r.0@) == old(self)@.queue,
            r.1 == old(self)@.lagged,
            final(self)@ == emptied(old(self)@),
    {
        let ghost was = self.queue@;
        let mut frames: Vec<Frame> = Vec::new();
        while self.queue.len() > 0
            invariant
                frames@ + self.queue@ == was,
                self.lagged == old(self).lagged,
                self.id == old(self).id,
            decreases self.queue@.len(),
        {
            let ghost before = frames@;
            let ghost rest = self.queue@;
            if let Some(f) = self.queue.pop_front() {
                frames.push(f);
                assert(frames@ + self.queue@ =~= before + rest);
            }
        }
        assert(frames@ =~= was);
        let lagged = self.lagged;
        self.lagged = false;
        assert(frame_views(self.queue@) =~= Seq::empty());
        (frames, lagged)
    }
}

/// Every live subscriber.
pub struct Registry {
    subscribers: Vec<Subscriber>,
    next_id: u64,
}

/// The registry of subscribers, and whether the host is shutting down.
pub struct Broadcaster {
    registry: Registry,
    shutdown: bool,
}

/// [`Broadcaster`] as a mathematical value.
pub struct BroadcasterV {
    pub subscribers: Seq<SubscriberV>,
    pub next_id: u64,
    pub shutdown: bool,
}

impl View for Broadcaster {
    type V = BroadcasterV;

    closed spec fn view(&self) -> BroadcasterV {
        BroadcasterV {
            subscribers: subscriber_views(self.registry.subscribers@),
            next_id: self.registry.next_id,
            shutdown: self.shutdown,
        }
    }
}

spec fn subscriber_views(s: Seq<Subscriber>) -> Seq<SubscriberV> {
    s.map_values(|x: Subscriber| x@)
}

/// What one streaming connection holds. It is handed back to
/// [`Broadcaster::remove`] when the connection ends.
#[derive(Debug, PartialEq)]
pub struct Subscription {
    pub id: u64,
}

/// What a subscription has to write.
#[derive(Debug, PartialEq)]
pub enum Batch {
    /// Frames to write, and whether a lagged notice should precede them.
    Frames { frames: Vec<Frame>, lagged: bool },
    /// Nothing is pending.
    Idle,
    /// The host is shutting down, or the subscriber was removed. Stop.
    Done,
}

/// [`Batch`] as a mathematical value.
pub enum BatchV {
    Frames { frames: Seq<FrameV>, lagged: bool },
    Idle,
    Done,
}

impl View for Batch {
    type V = BatchV;

    open spec fn view(&self) -> BatchV {
        match *self {
            Batch::Frames { frames, lagged } => BatchV::Frames {
                frames: frame_views(frames@),
                lagged,
            },
            Batch::Idle => BatchV::Idle,
            Batch::Done => BatchV::Done,
        }
    }
}

/// No subscribers.
pub open spec fn silent() -> BroadcasterV {
    BroadcasterV { subscribers: Seq::empty(), next_id: 0, shutdown: false }
}

/// One more subscriber, with an empty mailbox.
pub open spec fn subscribed(b: BroadcasterV) -> BroadcasterV {
    BroadcasterV {
        subscribers: b.subscribers.push(
            SubscriberV { id: b.next_id, queue: Seq::empty(), lagged: false },
        ),
        next_id: if b.next_id == u64::MAX {
            0
        } else {
            (b.next_id + 1) as u64
        },
        ..b
    }
}

/// A frame in every mailbox.
pub open spec fn broadcasted(b: BroadcasterV, f: FrameV) -> BroadcasterV {
    BroadcasterV { subscribers: b.subscribers.map_values(|s: SubscriberV| received(s, f)), ..b }
}

pub open spec fn other_subscriber(id: u64) -> spec_fn(SubscriberV) -> bool {
    |s: SubscriberV| s.id != id
}

/// Without the subscribers of an id.
pub open spec fn removed(b: BroadcasterV, id: u64) -> BroadcasterV {
    BroadcasterV { subscribers: b.subscribers.filter(other_subscriber(id)), ..b }
}

/// Where the first subscriber with an id is, or the number of subscribers.
pub open spec fn seat(s: Seq<SubscriberV>, id: u64) -> nat
    decreases s.len(),
{
    if s.len() == 0 || s[0].id == id {
        0
    } else {
        1 + seat(s.drop_first(), id)
    }
}

/// What a subscriber has to write now.
pub open spec fn batch_of(b: BroadcasterV, id: u64) -> BatchV {
    let at = seat(b.subscribers, id);
    if b.shutdown || at >= b.subscribers.len() {
        BatchV::Done
    } else if b.subscribers[at as int].queue.len() > 0 || b.subscribers[at as int].lagged {
        BatchV::Frames {
            frames: b.subscribers[at as int].queue,
            lagged: b.subscribers[at as int].lagged,
        }
    } else {
        BatchV::Idle
    }
}

/// After a subscriber took what it had to write.
pub open spec fn taken(b: BroadcasterV, id: u64) -> BroadcasterV {
    match batch_of(b, id) {
        BatchV::Frames { .. } => {
            let at = seat(b.subscribers, id) as int;
            BroadcasterV {
                subscribers: b.subscribers.update(at, emptied(b.subscribers[at])),
                ..b
            }
        },
        _ => b,
    }
}

proof fn lemma_seat(s: Seq<SubscriberV>, id: u64, i: nat)
    requires
        i <= s.len(),
        forall|k: int| 0 <= k < i ==> (#[trigger] s[k]).id != id,
        i < s.len() ==> s[i as int].id == id,
    ensures
        seat(s, id) == i,
    decreases i,
{
    if i > 0 {
        let rest = s.drop_first();
        assert(s[0].id != id);
        assert forall|k: int| 0 <= k < i - 1 implies (#[trigger] rest[k]).id != id by {
            assert(rest[k] == s[k + 1]);
        }
        if i < s.len() {
            assert(rest[i - 1] == s[i as int]);
        }
        lemma_seat(rest, id, (i - 1) as nat);
    }
}

impl Default for Broadcaster {
    fn default() -> (r: Self)
        ensures
            r@ == silent(),
    {
        let r = Broadcaster {
            registry: Registry { subscribers: Vec::new(), next_id: 0 },
            shutdown: false,
        };
        assert(r@.subscribers =~= silent().subscribers);
        r
    }
}

impl Broadcaster {
    /// How many subscribers are attached. Used to enforce the stream budget.
    pub fn subscriber_count(&self) -> (r: usize)
        ensures
            r == self@.subscribers.len(),
    {
        self.registry.subscribers.len()
    }

    /// Register a new subscriber, returning its handle.
    ///
    /// Register before serializing the snapshot, not after: deltas that land during
    /// serialization queue behind it. A superseded value is harmless, a missing one is
    /// not.
    pub fn subscribe(&mut self) -> (r: Subscription)
        ensures
            final(self)@ == subscribed(old(self)@),
            r.id == old(self)@.next_id,
    {
        let ghost was = self.registry.subscribers@;
        let id = self.registry.next_id;
        self.registry.next_id = id.wrapping_add(1);
        let fresh = Subscriber { id, queue: VecDeque::new(), lagged: false };
        assert(fresh@.queue =~= Seq::empty());
        self.registry.subscribers.push(fresh);
        assert(subscriber_views(self.registry.subscribers@) =~= subscribed(old(self)@).subscribers);
        Subscription { id }
    }

    /// Queue a frame for every subscriber.
    pub fn broadcast(&mut self, frame: Frame)
        ensures
            final(self)@ == broadcasted(old(self)@, frame@),
    {
        let ghost was = self.registry.subscribers@;
        let ghost all = old(self)@;
        let mut i: usize = 0;
        while i < self.registry.subscribers.len()
            invariant
                i <= self.registry.subscribers@.len() == was.len(),
                self.registry.next_id == old(self).registry.next_id,
                self.shutdown == old(self).shutdown,
                was == old(self).registry.subscribers@,
                forall|k: int|
                    0 <= k < i ==> (#[trigger] self.registry.subscribers@[k])@ == received(
                        was[k]@,
                        frame@,
                    ),
                forall|k: int|
                    i <= k < was.len() ==> (#[trigger] self.registry.subscribers@[k]) == was[k],
            decreases was.len() - i,
        {
            self.registry.subscribers[i].receive(&frame);
            i += 1;
        }
        assert(subscriber_views(self.registry.subscribers@) =~= broadcasted(
            old(self)@,
            frame@,
        ).subscribers);
    }

    /// Tell every writer to stop.
    pub fn shutdown(&mut self)
        ensures
            final(self)@ == (BroadcasterV { shutdown: true, ..old(self)@ }),
    {
        self.shutdown = true;
    }

    /// Drop a subscriber and release its slot.
    pub fn remove(&mut self, subscription: Subscription)
        ensures
            final(self)@ == removed(old(self)@, subscription.id),
    {
        let id = subscription.id;
        let ghost all = subscriber_views(self.registry.subscribers@);
        let ghost keep = other_subscriber(id);
        let mut kept: Vec<Subscriber> = Vec::new();
        let mut rest: Vec<Subscriber> = Vec::new();
        std::mem::swap(&mut rest, &mut self.registry.subscribers);
        // From the back, so that each step moves one subscriber; then turned round.
        while rest.len() > 0
            invariant
                rest@.len() <= all.len(),
                subscriber_views(rest@) == all.take(rest@.len() as int),
                keep == other_subscriber(id),
                subscriber_views(kept@.reverse()) == all.skip(rest@.len() as int).filter(keep),
                self.registry.next_id == old(self).registry.next_id,
                self.shutdown == old(self).shutdown,
            decreases rest@.len(),
        {
            let ghost n = rest@.len() as int;
            let ghost before = kept@;
            if let Some(s) = rest.pop() {
                proof {
                    assert(subscriber_views(rest@) =~= all.take(n - 1));
                    assert(all.take(n)[n - 1] == s@);
                    assert(all.skip(n - 1) =~= seq![s@] + all.skip(n));
                    lemma_filter_front(s@, all.skip(n), keep);
                }
                if s.id != id {
                    kept.push(s);
                    assert(kept@.reverse() =~= seq![s] + before.reverse());
                    assert(subscriber_views(kept@.reverse()) =~= seq![s@] + subscriber_views(
                        before.reverse(),
                    ));
                }
            }
        }
        assert(all.skip(0) =~= all);
        let ghost backwards = kept@;
        while kept.len() > 0
            invariant
                self.registry.subscribers@ + kept@.reverse() == backwards.reverse(),
                self.registry.next_id == old(self).registry.next_id,
                self.shutdown == old(self).shutdown,
            decreases kept@.len(),
        {
            let ghost before = self.registry.subscribers@;
            let ghost left = kept@;
            if let Some(s) = kept.pop() {
                self.registry.subscribers.push(s);
                assert(self.registry.subscribers@ + kept@.reverse() =~= before + left.reverse());
            }
        }
        assert(self.registry.subscribers@ =~= backwards.reverse());
    }
}

proof fn lemma_filter_front(x: SubscriberV, s: Seq<SubscriberV>, keep: spec_fn(SubscriberV) -> bool)
    ensures
        (seq![x] + s).filter(keep) == (if keep(x) {
            seq![x]
        } else {
            Seq::empty()
        }) + s.filter(keep),
{
    Seq::filter_distributes_over_add(seq![x], s, keep);
    reveal_with_fuel(Seq::filter, 2);
    assert(seq![x].drop_last() =~= Seq::empty());
    assert(seq![x].filter(keep) =~= (if keep(x) {
        seq![x]
    } else {
        Seq::empty()
    }));
}

impl Subscription {
    /// Everything that is pending for this subscriber, in one batch, so that a burst
    /// costs one write.
    pub fn next_batch(&self, broadcaster: &mut Broadcaster) -> (r: Batch)
        ensures
            r@ == batch_of(old(broadcaster)@, self.id),
            final(broadcaster)@ == taken(old(broadcaster)@, self.id),
    {
        if broadcaster.shutdown {
            return Batch::Done;
        }
        let ghost all = broadcaster@.subscribers;
        let mut i: usize = 0;
        while i < broadcaster.registry.subscribers.len()
            invariant
                i <= broadcaster.registry.subscribers@.len(),
                *broadcaster == *old(broadcaster),
                all == subscriber_views(broadcaster.registry.subscribers@),
                all == broadcaster@.subscribers,
                !broadcaster.shutdown,
                forall|k: int| 0 <= k < i ==> (#[trigger] all[k]).id != self.id,
            decreases broadcaster.registry.subscribers@.len() - i,
        {
            assert(all[i as int] == broadcaster.registry.subscribers@[i as int]@);
            if broadcaster.registry.subscribers[i].id == self.id {
                proof {
                    lemma_seat(all, self.id, i as nat);
                }
                if broadcaster.registry.subscribers[i].queue.len() > 0
                    || broadcaster.registry.subscribers[i].lagged {
                    let (frames, lagged) = broadcaster.registry.subscribers[i].drain();
                    assert(broadcaster@.subscribers =~= taken(
                        old(broadcaster)@,
                        self.id,
                    ).subscribers);
                    return Batch::Frames { frames, lagged };
                }
                return Batch::Idle;
            }
            i += 1;
        }
        proof {
            lemma_seat(all, self.id, all.len());
        }
        Batch::Done
    }
}

// ------------------------------------------------------------ frames

pub open spec fn state_frame_of(device: Seq<char>, capability: Seq<char>, value: JsonV) -> FrameV {
    FrameV {
        event: "state"@,
        data: JsonV::object().with("device"@, JsonV::Text(device)).with(
            "capability"@,
            JsonV::Text(capability),
        ).with("value"@, value),
    }
}

pub fn state_frame(device: &str, capability: &str, value: Json) -> (r: Frame)
    ensures
        r@ == state_frame_of(device@, capability@, value@),
{
    Frame {
        event: "state",
        data: Json::object().with("device", Json::text(device)).with(
            "capability",
            Json::text(capability),
        ).with("value", value),
    }
}

pub open spec fn rule_frame_of(rule: Seq<char>, truth: Seq<char>, fired: bool) -> FrameV {
    FrameV {
        event: "rule"@,
        data: JsonV::object().with("rule"@, JsonV::Text(rule)).with(
            "truth"@,
            JsonV::Text(truth),
        ).with("fired"@, JsonV::Flag(fired)),
    }
}

pub fn rule_frame(rule: &str, truth: &str, fired: bool) -> (r: Frame)
    ensures
        r@ == rule_frame_of(rule@, truth@, fired),
{
    Frame {
        event: "rule",
        data: Json::object().with("rule", Json::text(rule)).with("truth", Json::text(truth)).with(
            "fired",
            Json::Flag(fired),
        ),
    }
}

pub open spec fn action_frame_of(device: Seq<char>, event: Seq<char>, depth: u32) -> FrameV {
    FrameV {
        event: "action"@,
        data: JsonV::object().with("device"@, JsonV::Text(device)).with(
            "event"@,
            JsonV::Text(event),
        ).with("depth"@, JsonV::Whole(depth as u64)),
    }
}

/// A device action. `depth` tells an event that *started* a causal chain (0) from one
/// of a cascade, not a physical press from a requested one.
pub fn action_frame(device: &str, event: &str, depth: u32) -> (r: Frame)
    ensures
        r@ == action_frame_of(device@, event@, depth),
{
    Frame {
        event: "action",
        data: Json::object().with("device", Json::text(device)).with(
            "event",
            Json::text(event),
        ).with("depth", Json::Whole(depth as u64)),
    }
}

pub open spec fn command_failed_frame_of(command: JsonV, reason: Seq<char>, attempts: u32) -> FrameV {
    FrameV {
        event: "command_failed"@,
        data: JsonV::object().with("command"@, command).with("reason"@, JsonV::Text(reason)).with(
            "attempts"@,
            JsonV::Whole(attempts as u64),
        ),
    }
}

pub fn command_failed_frame(command: Json, reason: &str, attempts: u32) -> (r: Frame)
    ensures
        r@ == command_failed_frame_of(command@, reason@, attempts),
{
    Frame {
        event: "command_failed",
        data: Json::object().with("command", command).with("reason", Json::text(reason)).with(
            "attempts",
            Json::Whole(attempts as u64),
        ),
    }
}

pub open spec fn snapshot_frame_of(devices: JsonV) -> FrameV {
    FrameV { event: "snapshot"@, data: JsonV::object().with("devices"@, devices) }
}

pub fn snapshot_frame(devices: Json) -> (r: Frame)
    ensures
        r@ == snapshot_frame_of(devices@),
{
    Frame { event: "snapshot", data: Json::object().with("devices", devices) }
}

pub open spec fn lagged_frame_of() -> FrameV {
    FrameV {
        event: "lagged"@,
        data: JsonV::object().with(
            "message"@,
            JsonV::Text("frames were dropped; re-sync with GET /devices"@),
        ),
    }
}

/// Its subscriber's view has a hole, so it should re-sync with `GET /devices`.
pub fn lagged_frame() -> (r: Frame)
    ensures
        r@ == lagged_frame_of(),
{
    Frame {
        event: "lagged",
        data: Json::object().with(
            "message",
            Json::text("frames were dropped; re-sync with GET /devices"),
        ),
    }
}

// ------------------------------------------------------------ laws

/// Whether no mailbox holds more than the capacity.
pub open spec fn bounded(b: BroadcasterV) -> bool {
    forall|k: int|
        0 <= k < b.subscribers.len() ==> (#[trigger] b.subscribers[k]).queue.len()
            <= QUEUE_CAPACITY
}

/// A client that stopped reading cannot grow its queue without bound: whatever is
/// called, no mailbox ever holds more than the capacity.
pub proof fn queues_stay_bounded(b: BroadcasterV, f: FrameV, id: u64)
    requires
        bounded(b),
    ensures
        bounded(silent()),
        bounded(subscribed(b)),
        bounded(broadcasted(b, f)),
        bounded(removed(b, id)),
        bounded(taken(b, id)),
{
    let after = broadcasted(b, f).subscribers;
    assert forall|k: int| 0 <= k < after.len() implies (#[trigger] after[k]).queue.len()
        <= QUEUE_CAPACITY by {
        assert(after[k] == received(b.subscribers[k], f));
    }
    let left = removed(b, id).subscribers;
    assert forall|k: int| 0 <= k < left.len() implies (#[trigger] left[k]).queue.len()
        <= QUEUE_CAPACITY by {
        assert(b.subscribers.contains(left[k])) by {
            b.subscribers.lemma_filter_contains_rev(other_subscriber(id), left[k]);
        }
    }
}

/// A mailbox after some frames, in their order.
pub open spec fn received_all(s: SubscriberV, frames: Seq<FrameV>) -> SubscriberV
    decreases frames.len(),
{
    if frames.len() == 0 {
        s
    } else {
        received(received_all(s, frames.drop_last()), frames.last())
    }
}

/// What a subscriber that read nothing yet finds: the newest frames, as many as fit,
/// in order, and a lagged mark if and only if some did not fit.
pub proof fn newest_frames_are_kept(s: SubscriberV, frames: Seq<FrameV>)
    requires
        s.queue.len() == 0,
        !s.lagged,
    ensures
        received_all(s, frames).queue == (if frames.len() <= QUEUE_CAPACITY {
            frames
        } else {
            frames.skip(frames.len() - QUEUE_CAPACITY)
        }),
        received_all(s, frames).lagged == (frames.len() > QUEUE_CAPACITY),
        received_all(s, frames).id == s.id,
    decreases frames.len(),
{
    if frames.len() == 0 {
        assert(s.queue =~= frames);
    } else {
        let before = frames.drop_last();
        newest_frames_are_kept(s, before);
        if frames.len() <= QUEUE_CAPACITY {
            assert(before.push(frames.last()) =~= frames);
        } else {
            assert(received_all(s, frames).queue =~= frames.skip(frames.len() - QUEUE_CAPACITY));
        }
    }
}

/// A broadcast reaches every subscriber: each finds the frame last in its mailbox.
pub proof fn broadcasts_reach_everyone(b: BroadcasterV, f: FrameV)
    ensures
        broadcasted(b, f).subscribers.len() == b.subscribers.len(),
        forall|k: int|
            0 <= k < b.subscribers.len() ==> {
                &&& (#[trigger] broadcasted(b, f).subscribers[k]).id == b.subscribers[k].id
                &&& broadcasted(b, f).subscribers[k].queue.len() > 0
                &&& broadcasted(b, f).subscribers[k].queue.last() == f
            },
{
}

/// A batch is handed out once: right after it, the subscriber is idle.
pub proof fn batches_are_handed_out_once(b: BroadcasterV, id: u64)
    requires
        batch_of(b, id) is Frames,
    ensures
        batch_of(taken(b, id), id) == BatchV::Idle,
{
    let at = seat(b.subscribers, id);
    lemma_seat_is_first(b.subscribers, id);
    let after = taken(b, id).subscribers;
    assert forall|k: int| 0 <= k < at implies (#[trigger] after[k]).id != id by {
        assert(after[k] == b.subscribers[k]);
    }
    lemma_seat(after, id, at);
}

proof fn lemma_seat_is_first(s: Seq<SubscriberV>, id: u64)
    ensures
        seat(s, id) <= s.len(),
        forall|k: int| 0 <= k < seat(s, id) ==> (#[trigger] s[k]).id != id,
        seat(s, id) < s.len() ==> s[seat(s, id) as int].id == id,
    decreases s.len(),
{
    if s.len() > 0 && s[0].id != id {
        let rest = s.drop_first();
        lemma_seat_is_first(rest, id);
        assert forall|k: int| 0 <= k < seat(s, id) implies (#[trigger] s[k]).id != id by {
            if k > 0 {
                assert(rest[k - 1] == s[k]);
            }
        }
        if seat(s, id) < s.len() {
            assert(rest[seat(rest, id) as int] == s[seat(s, id) as int]);
        }
    }
}

/// A subscriber that was removed, or whose host is shutting down, is told to stop.
pub proof fn removed_subscribers_stop(b: BroadcasterV, id: u64)
    ensures
        batch_of(removed(b, id), id) == BatchV::Done,
        batch_of((BroadcasterV { shutdown: true, ..b }), id) == BatchV::Done,
{
    broadcast use vstd::seq_lib::group_filter_ensures;

    let left = removed(b, id).subscribers;
    lemma_seat_is_first(left, id);
    let at = seat(left, id);
    if at < left.len() {
        assert(other_subscriber(id)(left[at as int]));
    }
}

} // verus!
