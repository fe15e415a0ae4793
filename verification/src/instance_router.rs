//! One agent instance: its state machine, the buffer of events it cannot
//! take yet, the stack of turn ids, and the channel that feeds it.
use vstd::prelude::*;
use vstd::string::*;
pub use crate::feed::{FeedItem, FeedItemKind, FeedBuffer, MAX_BUFFER_SIZE, FEED_CHANNEL_SIZE};
pub use crate::state_machine::{InstanceState, PendingWait, StateError, StateMachine};
use crate::feed::{
    is_response_event, is_ignored_event, kind_of, deliverable, buffered, deliverable_items, held_items,
    classify, is_ignored, should_deliver,
};
use crate::json::{json_str_member, json_with_str_member, get_str_member, with_str_member};
use crate::state_machine::StateMachineView;
use crate::text::{has_prefix, starts_with};
use crate::channel::{feed_channel, feed_try_send, feed_send_open, feed_take, feed_queue, feed_pair, feed_capacity, new_uuid};

verus! {

/// The `type` member of an event, empty when it has none.
pub open spec fn event_type_of(event: Seq<char>) -> Seq<char> {
    match json_str_member(event, "type"@) {
        Some(t) => t,
        None => Seq::empty(),
    }
}

/// Outbound events that carry the current turn id.
pub open spec fn carries_turn_id(t: Seq<char>) -> bool {
    has_prefix(t, "agent.output."@) || is_response_event(t)
}

/// An outbound event after tagging with the innermost turn of `turns`.
pub open spec fn tagged_event(turns: Seq<Seq<char>>, event: Seq<char>) -> Seq<char> {
    match json_str_member(event, "type"@) {
        Some(t) => if turns.len() > 0 && carries_turn_id(t) {
            json_with_str_member(event, "turn_id"@, turns.last()).unwrap()
        } else {
            event
        },
        None => event,
    }
}

pub struct InstanceRouterView {
    pub instance_id: Seq<char>,
    pub machine: StateMachineView,
    pub buffer: Seq<FeedItem>,
    pub turns: Seq<Seq<char>>,
    /// Every item handed to the feed channel, in order.
    pub fed: Seq<FeedItem>,
}

/// The router after an inbound event: ignored signals change nothing,
/// items the agent takes now go to the feed, the rest are buffered.
pub open spec fn after_receive(r: InstanceRouterView, event: String) -> InstanceRouterView {
    let t = event_type_of(event@);
    if is_ignored_event(t) {
        r
    } else {
        let item = FeedItem { kind: kind_of(t), event };
        if deliverable(item.kind, r.machine.state) {
            InstanceRouterView { fed: r.fed.push(item), ..r }
        } else {
            InstanceRouterView { buffer: buffered(r.buffer, item), ..r }
        }
    }
}

/// The router after a flush in its current state.
pub open spec fn after_flush(r: InstanceRouterView) -> InstanceRouterView {
    InstanceRouterView {
        fed: r.fed + deliverable_items(r.buffer, r.machine.state),
        buffer: held_items(r.buffer, r.machine.state),
        ..r
    }
}

/// What a change of a router that feeds nothing keeps of its feed.
pub open spec fn keeps_feed(a: InstanceRouter, b: InstanceRouter) -> bool {
    b.hosted() == a.hosted() && b.feed_queue() == a.feed_queue()
}

/// What a change of a router that feeds the items of `fed` beyond `from`
/// does to its feed: a hosted router queues them as room allows.
pub open spec fn feeds_on(a: InstanceRouter, b: InstanceRouter) -> bool {
    &&& b.hosted() == a.hosted()
    &&& a.hosted() ==> b.feed_queue() == enqueue_all(a.feed_queue(), fed_since(a@, b@))
}

/// The items fed between `a` and `b`.
pub open spec fn fed_since(a: InstanceRouterView, b: InstanceRouterView) -> Seq<FeedItem> {
    b.fed.subrange(a.fed.len() as int, b.fed.len() as int)
}

/// The feed queue after offering `items` in order: each goes to the back
/// while fewer than `FEED_CHANNEL_SIZE` items wait, else it is dropped.
pub open spec fn enqueue_all(q: Seq<FeedItem>, items: Seq<FeedItem>) -> Seq<FeedItem>
    decreases items.len(),
{
    if items.len() == 0 {
        q
    } else {
        let before = enqueue_all(q, items.drop_last());
        if before.len() < FEED_CHANNEL_SIZE {
            before.push(items.last())
        } else {
            before
        }
    }
}

/// Offering one more item is offering it to the queue the others left.
proof fn lemma_enqueue_one(q: Seq<FeedItem>, items: Seq<FeedItem>, x: FeedItem)
    ensures
        enqueue_all(q, items.push(x)) == enqueue_all(enqueue_all(q, items), seq![x]),
{
    assert(items.push(x).drop_last() =~= items);
    assert(seq![x].drop_last() =~= Seq::<FeedItem>::empty());
    assert(enqueue_all(enqueue_all(q, items), Seq::<FeedItem>::empty()) == enqueue_all(q, items));
}

pub open spec fn string_views(v: Seq<String>) -> Seq<Seq<char>> {
    v.map_values(|s: String| s@)
}

/// A newly created router for `id`: idle, nothing buffered, no turns.
pub open spec fn fresh_router(id: Seq<char>) -> InstanceRouterView {
    InstanceRouterView {
        instance_id: id,
        machine: StateMachineView {
            state: InstanceState::Idle,
            pending: None,
            changes: Seq::empty(),
            hooked: false,
            listener: 0,
            notified: Seq::empty(),
        },
        buffer: Seq::empty(),
        turns: Seq::empty(),
        fed: Seq::empty(),
    }
}

pub struct InstanceRouter {
    instance_id: String,
    history: Vec<String>,
    sm: StateMachine,
    buffer: FeedBuffer,
    turn_stack: Vec<String>,
    feed: Feed,
    fed: Ghost<Seq<FeedItem>>,
}

/// The sending end of an instance's feed, with the receiving end when the
/// router keeps it itself.
struct Feed {
    tx: tokio::sync::mpsc::Sender<FeedItem>,
    rx: Option<tokio::sync::mpsc::Receiver<FeedItem>>,
}

impl Feed {
    #[verifier::type_invariant]
    spec fn consistent(self) -> bool {
        &&& feed_capacity(self.tx) == FEED_CHANNEL_SIZE
        &&& self.rx matches Some(rx) ==> feed_pair(self.tx, rx)
    }

    spec fn queue(self) -> Seq<FeedItem> {
        feed_queue(self.tx)
    }

    spec fn kept(self) -> bool {
        self.rx is Some
    }

    /// A feed channel; its receiving end is kept here or handed back.
    fn open(keep: bool) -> (r: (Feed, Option<tokio::sync::mpsc::Receiver<FeedItem>>))
        ensures
            r.0.queue() == Seq::<FeedItem>::empty(),
            r.0.kept() == keep,
            r.1 is Some <==> !keep,
    {
        let (tx, rx) = feed_channel(FEED_CHANNEL_SIZE);
        if keep {
            (Feed { tx, rx: Some(rx) }, None)
        } else {
            (Feed { tx, rx: None }, Some(rx))
        }
    }

    fn put(&mut self, item: FeedItem)
        ensures
            final(self).kept() == old(self).kept(),
            old(self).kept() ==> final(self).queue() == enqueue_all(old(self).queue(), seq![item]),
    {
        proof { use_type_invariant(&*self); }
        let ghost it = item;
        let ghost q0 = self.queue();
        proof {
            assert(seq![it].drop_last() =~= Seq::<FeedItem>::empty());
            assert(enqueue_all(q0, Seq::<FeedItem>::empty()) == q0);
        }
        let mut rx_slot: Option<tokio::sync::mpsc::Receiver<FeedItem>> = None;
        std::mem::swap(&mut rx_slot, &mut self.rx);
        match rx_slot {
            Some(rx) => {
                let _accepted = feed_send_open(&mut self.tx, &rx, item);
                self.rx = Some(rx);
            },
            None => {
                let _accepted = feed_try_send(&mut self.tx, item);
            },
        }
        proof {
            assert(seq![it].drop_last() =~= Seq::<FeedItem>::empty());
        }
    }

    fn take(&mut self) -> (r: Option<FeedItem>)
        ensures
            final(self).kept() == old(self).kept(),
            r == if old(self).kept() && old(self).queue().len() > 0 {
                Some(old(self).queue()[0])
            } else {
                None::<FeedItem>
            },
            final(self).queue() == if old(self).kept() && old(self).queue().len() > 0 {
                old(self).queue().drop_first()
            } else {
                old(self).queue()
            },
    {
        proof { use_type_invariant(&*self); }
        let mut rx_slot: Option<tokio::sync::mpsc::Receiver<FeedItem>> = None;
        std::mem::swap(&mut rx_slot, &mut self.rx);
        match rx_slot {
            Some(mut rx) => {
                let item = feed_take(&mut self.tx, &mut rx);
                self.rx = Some(rx);
                item
            },
            None => None,
        }
    }
}

impl View for InstanceRouter {
    type V = InstanceRouterView;

    closed spec fn view(&self) -> InstanceRouterView {
        InstanceRouterView {
            instance_id: self.instance_id@,
            machine: self.sm@,
            buffer: self.buffer@,
            turns: string_views(self.turn_stack@),
            fed: self.fed@,
        }
    }
}

impl InstanceRouter {
    /// The items waiting in the feed channel, oldest first. For a router that
    /// keeps its own receiving end (`hosted`) this is exactly what its agent
    /// gets next, in order; for one whose receiver was handed out it counts
    /// only what was taken out through the router.
    pub closed spec fn feed_queue(&self) -> Seq<FeedItem> {
        self.feed.queue()
    }

    /// The router keeps the receiving end of its own feed.
    pub closed spec fn hosted(&self) -> bool {
        self.feed.kept()
    }

    /// A router for `instance_id`, with the receiving end of its feed.
    /// `history` is the conversation the instance was spawned with.
    pub fn new(instance_id: String, history: Vec<String>) -> (r: (InstanceRouter, tokio::sync::mpsc::Receiver<FeedItem>))
        ensures
            r.0@ == fresh_router(instance_id@),
            r.0.feed_queue() == Seq::<FeedItem>::empty(),
            !r.0.hosted(),
    {
        let (feed, rx) = Feed::open(false);
        let router = InstanceRouter {
            instance_id,
            history,
            sm: StateMachine::new(),
            buffer: FeedBuffer::new(),
            turn_stack: Vec::new(),
            feed,
            fed: Ghost(Seq::empty()),
        };
        assert(router@.turns =~= Seq::<Seq<char>>::empty());
        (router, rx.unwrap())
    }

    /// A router that keeps the receiving end of its feed; its agent's items
    /// are taken out with `take_fed`.
    pub(crate) fn new_hosted(instance_id: String, history: Vec<String>) -> (r: InstanceRouter)
        ensures
            r@ == fresh_router(instance_id@),
            r.feed_queue() == Seq::<FeedItem>::empty(),
            r.hosted(),
    {
        let (feed, _none) = Feed::open(true);
        let router = InstanceRouter {
            instance_id,
            history,
            sm: StateMachine::new(),
            buffer: FeedBuffer::new(),
            turn_stack: Vec::new(),
            feed,
            fed: Ghost(Seq::empty()),
        };
        assert(router@.turns =~= Seq::<Seq<char>>::empty());
        router
    }

    /// The oldest item waiting for the agent of a hosted router; none for a
    /// router whose receiver was handed out.
    pub(crate) fn take_fed(&mut self) -> (r: Option<FeedItem>)
        ensures
            final(self)@ == old(self)@,
            final(self).hosted() == old(self).hosted(),
            r == if old(self).hosted() && old(self).feed_queue().len() > 0 {
                Some(old(self).feed_queue()[0])
            } else {
                None::<FeedItem>
            },
            final(self).feed_queue() == if old(self).hosted() && old(self).feed_queue().len() > 0 {
                old(self).feed_queue().drop_first()
            } else {
                old(self).feed_queue()
            },
    {
        self.feed.take()
    }

    pub fn instance_id(&self) -> (r: &str)
        ensures
            r@ == self@.instance_id,
    {
        self.instance_id.as_str()
    }

    pub fn state_machine(&self) -> (r: &StateMachine)
        ensures
            r@ == self@.machine,
    {
        &self.sm
    }

    /// The state machine, for driving the instance's lifecycle. A state
    /// change does not flush the buffer by itself: call `flush`.
    pub fn state_machine_mut(&mut self) -> (r: &mut StateMachine)
        ensures
            r@ == old(self)@.machine,
            final(self)@ == (InstanceRouterView { machine: final(r)@, ..old(self)@ }),
            keeps_feed(*old(self), *final(self)),
    {
        &mut self.sm
    }

    pub fn buffer_len(&self) -> (r: usize)
        ensures
            r == self@.buffer.len(),
    {
        self.buffer.len()
    }

    /// A copy of the buffered items, oldest first.
    pub fn peek_buffer(&self) -> (r: Vec<FeedItem>)
        ensures
            r@ == self@.buffer,
    {
        let mut out: Vec<FeedItem> = Vec::new();
        let mut i: usize = 0;
        while i < self.buffer.len()
            invariant
                i <= self.buffer@.len(),
                out@ == self.buffer@.take(i as int),
            decreases self.buffer@.len() - i,
        {
            let item = self.buffer.get(i).clone();
            out.push(item);
            i += 1;
            assert(out@ =~= self.buffer@.take(i as int));
        }
        assert(self.buffer@.take(i as int) =~= self.buffer@);
        out
    }

    // ── Turn ids ─────────────────────────────────────────────────────

    /// The innermost open turn.
    pub fn current_turn_id(&self) -> (r: Option<String>)
        ensures
            match r {
                Some(t) => self@.turns.len() > 0 && t@ == self@.turns.last(),
                None => self@.turns.len() == 0,
            },
    {
        let n = self.turn_stack.len();
        if n == 0 {
            None
        } else {
            Some(self.turn_stack[n - 1].clone())
        }
    }

    /// Opens a turn with the given id, or a fresh 12-character one.
    pub fn push_turn(&mut self, turn_id: Option<String>) -> (r: String)
        ensures
            final(self)@ == (InstanceRouterView { turns: old(self)@.turns.push(r@), ..old(self)@ }),
            keeps_feed(*old(self), *final(self)),
            match turn_id {
                Some(t) => r@ == t@,
                None => r@.len() == 12,
            },
    {
        let tid = match turn_id {
            Some(t) => t,
            None => {
                let id = new_uuid();
                String::from_str(id.as_str().substring_char(0, 12))
            },
        };
        self.turn_stack.push(tid.clone());
        proof {
            assert(string_views(self.turn_stack@) =~= string_views(old(self).turn_stack@).push(tid@));
        }
        tid
    }

    /// Closes the innermost turn.
    pub fn pop_turn(&mut self) -> (r: Option<String>)
        ensures
            match r {
                Some(t) => old(self)@.turns.len() > 0 && t@ == old(self)@.turns.last()
                    && final(self)@ == (InstanceRouterView { turns: old(self)@.turns.drop_last(), ..old(self)@ }),
                None => old(self)@.turns.len() == 0 && final(self)@ == old(self)@,
            },
            keeps_feed(*old(self), *final(self)),
    {
        let r = self.turn_stack.pop();
        proof {
            if r is Some {
                assert(string_views(self.turn_stack@) =~= string_views(old(self).turn_stack@).drop_last());
            }
        }
        r
    }

    /// Stamps output events and replies with the innermost turn id.
    pub fn tag_outbound(&self, event: String) -> (r: String)
        ensures
            r@ == tagged_event(self@.turns, event@),
            self@.turns.len() > 0 && json_str_member(event@, "type"@) is Some && carries_turn_id(
                event_type_of(event@),
            ) ==> {
                &&& json_str_member(r@, "turn_id"@) == Some(self@.turns.last())
                &&& forall|k: Seq<char>| k != "turn_id"@ ==> json_str_member(r@, k) == json_str_member(event@, k)
            },
    {
        let n = self.turn_stack.len();
        if n == 0 {
            return event;
        }
        let etype = match get_str_member(event.as_str(), "type") {
            Some(t) => t,
            None => return event,
        };
        if starts_with(etype.as_str(), "agent.output.") || crate::feed::is_response_type(etype.as_str()) {
            match with_str_member(event.as_str(), "turn_id", self.turn_stack[n - 1].as_str()) {
                Some(tagged) => tagged,
                None => event,
            }
        } else {
            event
        }
    }

    // ── Inbound routing ──────────────────────────────────────────────

    /// Routes one inbound event (JSON text) by its type and the current state.
    pub fn receive(&mut self, event: String)
        ensures
            final(self)@ == after_receive(old(self)@, event),
            feeds_on(*old(self), *final(self)),
    {
        let ghost v0 = self@;
        let ghost q0 = self.feed_queue();
        proof {
            assert(v0.fed.subrange(v0.fed.len() as int, v0.fed.len() as int) =~= Seq::<FeedItem>::empty());
            assert(enqueue_all(q0, Seq::<FeedItem>::empty()) == q0);
        }
        let event_type = match get_str_member(event.as_str(), "type") {
            Some(t) => t,
            None => String::new(),
        };
        if is_ignored(event_type.as_str()) {
            return;
        }
        let item = FeedItem { kind: classify(event_type.as_str()), event };
        let state = self.sm.state();
        if should_deliver(&item, state) {
            let ghost it = item;
            self.feed_put(item);
            assert(fed_since(v0, self@) =~= seq![it]);
        } else {
            self.buffer_insert(item);
        }
    }

    /// Hands every buffered item that the agent takes in its current state
    /// to the feed; the others stay, in order.
    pub fn flush(&mut self)
        ensures
            final(self)@ == after_flush(old(self)@),
            feeds_on(*old(self), *final(self)),
    {
        let ghost q0 = self.feed_queue();
        let ghost hosted = self.hosted();
        let state = self.sm.state();
        let ghost before = self.buffer@;
        let now = self.buffer.take_deliverable(state);
        let mut items = now;
        let ghost fed0 = self.fed@;
        let ghost all = items@;
        let ghost v0 = self@;
        let ghost mut i: int = 0;
        while items.len() > 0
            invariant
                0 <= i <= all.len(),
                items@ == all.subrange(i, all.len() as int),
                self@ == (InstanceRouterView { fed: fed0 + all.take(i), ..v0 }),
                self.hosted() == hosted,
                hosted ==> self.feed_queue() == enqueue_all(q0, all.take(i)),
            decreases items@.len(),
        {
            let item = items.pop_front().unwrap();
            self.feed_put(item);
            proof {
                lemma_enqueue_one(q0, all.take(i), all[i]);
                assert(all.take(i + 1) =~= all.take(i).push(all[i]));
                assert(all.take(i + 1).drop_last() =~= all.take(i));
                assert(seq![all[i]].drop_last() =~= Seq::<FeedItem>::empty());
                i = i + 1;
                assert(items@ =~= all.subrange(i, all.len() as int));
            }
        }
        assert(all.take(i) =~= all);
        assert(self@.fed =~= old(self)@.fed + deliverable_items(old(self)@.buffer, old(self)@.machine.state));
        assert(self@.fed.subrange(old(self)@.fed.len() as int, self@.fed.len() as int) =~= all);
    }

    fn feed_put(&mut self, item: FeedItem)
        ensures
            final(self)@ == (InstanceRouterView { fed: old(self)@.fed.push(item), ..old(self)@ }),
            final(self).hosted() == old(self).hosted(),
            old(self).hosted() ==> final(self).feed_queue() == enqueue_all(old(self).feed_queue(), seq![item]),
    {
        let ghost it = item;
        self.feed.put(item);
        self.fed = Ghost(self.fed@.push(it));
    }

    fn buffer_insert(&mut self, item: FeedItem)
        ensures
            final(self)@ == (InstanceRouterView { buffer: buffered(old(self)@.buffer, item), ..old(self)@ }),
            keeps_feed(*old(self), *final(self)),
    {
        self.buffer.insert(item);
    }
}

} // verus!
