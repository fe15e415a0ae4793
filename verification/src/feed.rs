//! Classification of inbound events and the rules that decide whether an
//! event reaches the agent now or waits in the instance's buffer.
use vstd::prelude::*;
use std::collections::VecDeque;
use crate::state_machine::InstanceState;
use crate::text::str_eq;

verus! {

/// What an inbound event means to a running agent.
#[derive(Debug, Clone, Copy, PartialEq, Eq, Structural)]
pub enum FeedItemKind {
    Response,
    InquiryInterrupt,
    Input,
    Termination,
}

/// An inbound event with its kind; `event` is the event's JSON text.
#[derive(Debug)]
pub struct FeedItem {
    pub kind: FeedItemKind,
    pub event: String,
}

impl Clone for FeedItem {
    fn clone(&self) -> (r: FeedItem)
        ensures
            r == *self,
    {
        FeedItem { kind: self.kind, event: self.event.clone() }
    }
}

/// Most items the buffer of one instance holds.
pub const MAX_BUFFER_SIZE: usize = 5000;

/// Capacity of the channel that feeds one instance.
pub const FEED_CHANNEL_SIZE: usize = 5000;

pub open spec fn is_response_event(t: Seq<char>) -> bool {
    t == "agent.event.talk_to.response"@ || t == "agent.event.inquiry.response"@
}

pub open spec fn is_inquiry_event(t: Seq<char>) -> bool {
    t == "agent.event.inquiry.request"@
}

pub open spec fn is_termination_event(t: Seq<char>) -> bool {
    t == "agent.event.request.failed"@ || t == "agent.event.inquiry.failed"@
}

pub open spec fn is_control_event(t: Seq<char>) -> bool {
    t == "agent.signal.state_query"@ || t == "agent.signal.terminate"@ || t == "agent.signal.drain"@
        || t == "agent.signal.interrupt"@
}

pub open spec fn is_keepalive_event(t: Seq<char>) -> bool {
    t == "agent.event.request.alive"@ || t == "agent.event.inquiry.alive"@
}

/// Events that a router never hands to an agent.
pub open spec fn is_ignored_event(t: Seq<char>) -> bool {
    is_control_event(t) || is_keepalive_event(t)
}

pub open spec fn kind_of(t: Seq<char>) -> FeedItemKind {
    if is_response_event(t) {
        FeedItemKind::Response
    } else if is_inquiry_event(t) {
        FeedItemKind::InquiryInterrupt
    } else if is_termination_event(t) {
        FeedItemKind::Termination
    } else {
        FeedItemKind::Input
    }
}

/// Whether an item of `kind` goes straight to an agent in `state`.
pub open spec fn deliverable(kind: FeedItemKind, state: InstanceState) -> bool {
    match state {
        InstanceState::Idle => kind == FeedItemKind::Input || kind == FeedItemKind::InquiryInterrupt,
        InstanceState::WaitingForAgent | InstanceState::WaitingForInquiry => kind == FeedItemKind::Response
            || kind == FeedItemKind::Termination || kind == FeedItemKind::InquiryInterrupt,
        InstanceState::Generating => false,
    }
}

fn is_one_of_two(t: &str, a: &str, b: &str) -> (r: bool)
    ensures
        r == (t@ == a@ || t@ == b@),
{
    str_eq(t, a) || str_eq(t, b)
}

pub(crate) fn classify(event_type: &str) -> (r: FeedItemKind)
    ensures
        r == kind_of(event_type@),
{
    if is_one_of_two(event_type, "agent.event.talk_to.response", "agent.event.inquiry.response") {
        FeedItemKind::Response
    } else if str_eq(event_type, "agent.event.inquiry.request") {
        FeedItemKind::InquiryInterrupt
    } else if is_one_of_two(event_type, "agent.event.request.failed", "agent.event.inquiry.failed") {
        FeedItemKind::Termination
    } else {
        FeedItemKind::Input
    }
}

pub(crate) fn is_response_type(event_type: &str) -> (r: bool)
    ensures
        r == is_response_event(event_type@),
{
    is_one_of_two(event_type, "agent.event.talk_to.response", "agent.event.inquiry.response")
}

pub(crate) fn is_ignored(event_type: &str) -> (r: bool)
    ensures
        r == is_ignored_event(event_type@),
{
    is_one_of_two(event_type, "agent.signal.state_query", "agent.signal.terminate")
        || is_one_of_two(event_type, "agent.signal.drain", "agent.signal.interrupt")
        || is_one_of_two(event_type, "agent.event.request.alive", "agent.event.inquiry.alive")
}

pub(crate) fn should_deliver(item: &FeedItem, state: InstanceState) -> (r: bool)
    ensures
        r == deliverable(item.kind, state),
{
    match state {
        InstanceState::Idle => item.kind == FeedItemKind::Input || item.kind == FeedItemKind::InquiryInterrupt,
        InstanceState::WaitingForAgent | InstanceState::WaitingForInquiry => item.kind == FeedItemKind::Response
            || item.kind == FeedItemKind::Termination || item.kind == FeedItemKind::InquiryInterrupt,
        InstanceState::Generating => false,
    }
}

// ── Buffer ──────────────────────────────────────────────────────────────

/// `p` is the position of the first `Input` item of `s`.
pub open spec fn first_input_at(s: Seq<FeedItem>, p: int) -> bool {
    &&& 0 <= p < s.len()
    &&& s[p].kind == FeedItemKind::Input
    &&& forall|j: int| 0 <= j < p ==> s[j].kind != FeedItemKind::Input
}

pub open spec fn has_input(s: Seq<FeedItem>) -> bool {
    exists|j: int| 0 <= j < s.len() && s[j].kind == FeedItemKind::Input
}

/// Position of the first `Input` item, -1 when there is none.
pub open spec fn first_input(s: Seq<FeedItem>) -> int {
    if exists|p: int| first_input_at(s, p) {
        choose|p: int| first_input_at(s, p)
    } else {
        -1
    }
}

/// A full buffer makes room by dropping its oldest `Input`, or else its oldest item.
pub open spec fn make_room(s: Seq<FeedItem>) -> Seq<FeedItem> {
    if s.len() >= MAX_BUFFER_SIZE {
        if has_input(s) {
            s.remove(first_input(s))
        } else {
            s.remove(0)
        }
    } else {
        s
    }
}

/// Where a new item goes: an inquiry interrupt jumps ahead of the first
/// `Input`; everything else goes to the back.
pub open spec fn insert_position(s: Seq<FeedItem>, kind: FeedItemKind) -> int {
    if kind == FeedItemKind::InquiryInterrupt && has_input(s) {
        first_input(s)
    } else {
        s.len() as int
    }
}

/// The buffer after `item` was added to `s`.
pub open spec fn buffered(s: Seq<FeedItem>, item: FeedItem) -> Seq<FeedItem> {
    let b = make_room(s);
    b.insert(insert_position(b, item.kind), item)
}

/// Items of `s` that an agent in `state` takes now, in order.
pub open spec fn deliverable_items(s: Seq<FeedItem>, state: InstanceState) -> Seq<FeedItem>
    decreases s.len(),
{
    if s.len() == 0 {
        s
    } else if deliverable(s.last().kind, state) {
        deliverable_items(s.drop_last(), state).push(s.last())
    } else {
        deliverable_items(s.drop_last(), state)
    }
}

/// Items of `s` that stay buffered for an agent in `state`, in order.
pub open spec fn held_items(s: Seq<FeedItem>, state: InstanceState) -> Seq<FeedItem>
    decreases s.len(),
{
    if s.len() == 0 {
        s
    } else if deliverable(s.last().kind, state) {
        held_items(s.drop_last(), state)
    } else {
        held_items(s.drop_last(), state).push(s.last())
    }
}

pub proof fn lemma_first_input_unique(s: Seq<FeedItem>, p: int)
    requires
        first_input_at(s, p),
    ensures
        first_input(s) == p,
        has_input(s),
{
    let q = choose|q: int| first_input_at(s, q);
    assert(first_input_at(s, q));
    if q < p {
        assert(s[q].kind != FeedItemKind::Input);
    } else if p < q {
        assert(s[p].kind != FeedItemKind::Input);
    }
}

proof fn lemma_no_input(s: Seq<FeedItem>)
    requires
        forall|j: int| 0 <= j < s.len() ==> s[j].kind != FeedItemKind::Input,
    ensures
        !has_input(s),
        first_input(s) == -1,
{
    if exists|p: int| first_input_at(s, p) {
        let p = choose|p: int| first_input_at(s, p);
        assert(s[p].kind == FeedItemKind::Input);
    }
}

fn find_first_input(buf: &VecDeque<FeedItem>) -> (r: Option<usize>)
    ensures
        match r {
            Some(p) => first_input_at(buf@, p as int) && first_input(buf@) == p,
            None => !has_input(buf@) && first_input(buf@) == -1,
        },
{
    let mut i: usize = 0;
    while i < buf.len()
        invariant
            i <= buf@.len(),
            forall|j: int| 0 <= j < i ==> buf@[j].kind != FeedItemKind::Input,
        decreases buf@.len() - i,
    {
        if buf[i].kind == FeedItemKind::Input {
            proof { lemma_first_input_unique(buf@, i as int); }
            return Some(i);
        }
        i += 1;
    }
    proof { lemma_no_input(buf@); }
    None
}

/// Adds `item` to a buffer that is not over its cap.
pub(crate) fn buffer_insert_capped(buf: &mut VecDeque<FeedItem>, item: FeedItem)
    requires
        old(buf)@.len() <= MAX_BUFFER_SIZE,
    ensures
        final(buf)@ == buffered(old(buf)@, item),
        final(buf)@.len() <= MAX_BUFFER_SIZE,
{
    if buf.len() >= MAX_BUFFER_SIZE {
        match find_first_input(buf) {
            Some(pos) => {
                buf.remove(pos);
            },
            None => {
                buf.remove(0);
            },
        }
    }
    assert(buf@ == make_room(old(buf)@));
    if item.kind == FeedItemKind::InquiryInterrupt {
        match find_first_input(buf) {
            Some(pos) => {
                buf.insert(pos, item);
                return;
            },
            None => {},
        }
    }
    buf.push_back(item);
}

proof fn lemma_partition_step(s: Seq<FeedItem>, k: int, state: InstanceState)
    requires
        0 <= k < s.len(),
    ensures
        deliverable_items(s.take(k + 1), state) == if deliverable(s[k].kind, state) {
            deliverable_items(s.take(k), state).push(s[k])
        } else {
            deliverable_items(s.take(k), state)
        },
        held_items(s.take(k + 1), state) == if deliverable(s[k].kind, state) {
            held_items(s.take(k), state)
        } else {
            held_items(s.take(k), state).push(s[k])
        },
{
    assert(s.take(k + 1).drop_last() =~= s.take(k));
    assert(s.take(k + 1).last() == s[k]);
}

/// Splits `buf` into what an agent in `state` takes now and what stays.
pub(crate) fn split_deliverable(buf: VecDeque<FeedItem>, state: InstanceState) -> (r: (VecDeque<FeedItem>, VecDeque<FeedItem>))
    ensures
        r.0@ == deliverable_items(buf@, state),
        r.1@ == held_items(buf@, state),
{
    let ghost s = buf@;
    let mut rest = buf;
    let mut now: VecDeque<FeedItem> = VecDeque::new();
    let mut kept: VecDeque<FeedItem> = VecDeque::new();
    let ghost mut k: int = 0;
    assert(s.take(0) =~= Seq::<FeedItem>::empty());
    while rest.len() > 0
        invariant
            0 <= k <= s.len(),
            rest@ == s.subrange(k, s.len() as int),
            now@ == deliverable_items(s.take(k), state),
            kept@ == held_items(s.take(k), state),
        decreases rest@.len(),
    {
        let item = rest.pop_front().unwrap();
        proof {
            assert(item == s[k]);
            lemma_partition_step(s, k, state);
        }
        if should_deliver(&item, state) {
            now.push_back(item);
        } else {
            kept.push_back(item);
        }
        proof {
            k = k + 1;
            assert(rest@ =~= s.subrange(k, s.len() as int));
        }
    }
    proof {
        assert(s.take(k) =~= s);
    }
    (now, kept)
}

/// The items an instance holds back, never more than `MAX_BUFFER_SIZE`.
pub struct FeedBuffer {
    items: VecDeque<FeedItem>,
}

impl View for FeedBuffer {
    type V = Seq<FeedItem>;

    closed spec fn view(&self) -> Seq<FeedItem> {
        self.items@
    }
}

impl FeedBuffer {
    #[verifier::type_invariant]
    spec fn within_cap(self) -> bool {
        self.items@.len() <= MAX_BUFFER_SIZE
    }

    pub fn new() -> (r: FeedBuffer)
        ensures
            r@ == Seq::<FeedItem>::empty(),
    {
        FeedBuffer { items: VecDeque::new() }
    }

    pub fn len(&self) -> (r: usize)
        ensures
            r == self@.len(),
            r <= MAX_BUFFER_SIZE,
    {
        proof { use_type_invariant(self); }
        self.items.len()
    }

    pub fn get(&self, i: usize) -> (r: &FeedItem)
        requires
            i < self@.len(),
        ensures
            *r == self@[i as int],
    {
        &self.items[i]
    }

    /// Adds an item, making room first when the buffer is full.
    pub fn insert(&mut self, item: FeedItem)
        ensures
            final(self)@ == buffered(old(self)@, item),
            final(self)@.len() <= MAX_BUFFER_SIZE,
    {
        proof { use_type_invariant(&*self); }
        let mut items: VecDeque<FeedItem> = VecDeque::new();
        std::mem::swap(&mut items, &mut self.items);
        buffer_insert_capped(&mut items, item);
        self.items = items;
    }

    /// Removes and returns the items an agent in `state` takes now.
    pub fn take_deliverable(&mut self, state: InstanceState) -> (r: VecDeque<FeedItem>)
        ensures
            r@ == deliverable_items(old(self)@, state),
            final(self)@ == held_items(old(self)@, state),
    {
        proof { use_type_invariant(&*self); }
        let mut buf: VecDeque<FeedItem> = VecDeque::new();
        std::mem::swap(&mut buf, &mut self.items);
        let ghost before = buf@;
        let (now, kept) = split_deliverable(buf, state);
        proof { law_split_keeps_every_item(before, state); }
        self.items = kept;
        now
    }
}

/// No item that stays buffered is one the agent would take now.
pub proof fn law_held_items_wait(s: Seq<FeedItem>, state: InstanceState)
    ensures
        forall|i: int| 0 <= i < held_items(s, state).len() ==> !deliverable(#[trigger] held_items(s, state)[i].kind, state),
        forall|i: int| 0 <= i < deliverable_items(s, state).len() ==> deliverable(#[trigger] deliverable_items(s, state)[i].kind, state),
    decreases s.len(),
{
    if s.len() > 0 {
        law_held_items_wait(s.drop_last(), state);
    }
}

/// Flushing loses nothing: the items taken and the items kept together
/// number exactly the buffered ones.
pub proof fn law_split_keeps_every_item(s: Seq<FeedItem>, state: InstanceState)
    ensures
        deliverable_items(s, state).len() + held_items(s, state).len() == s.len(),
    decreases s.len(),
{
    if s.len() > 0 {
        law_split_keeps_every_item(s.drop_last(), state);
    }
}

/// The buffer never grows past its cap.
pub proof fn law_buffer_capped(s: Seq<FeedItem>, item: FeedItem)
    requires
        s.len() <= MAX_BUFFER_SIZE,
    ensures
        buffered(s, item).len() <= MAX_BUFFER_SIZE,
        s.len() < MAX_BUFFER_SIZE ==> buffered(s, item).len() == s.len() + 1,
{
    if s.len() >= MAX_BUFFER_SIZE && has_input(s) {
        let j = choose|j: int| 0 <= j < s.len() && s[j].kind == FeedItemKind::Input;
        lemma_first_input_exists(s, j);
    }
    lemma_insert_position_in_range(make_room(s), item.kind);
}

proof fn lemma_first_input_exists(s: Seq<FeedItem>, j: int)
    requires
        0 <= j < s.len(),
        s[j].kind == FeedItemKind::Input,
    ensures
        first_input_at(s, first_input(s)),
    decreases j,
{
    if forall|i: int| 0 <= i < j ==> s[i].kind != FeedItemKind::Input {
        assert(first_input_at(s, j));
        lemma_first_input_unique(s, j);
    } else {
        let i = choose|i: int| 0 <= i < j && s[i].kind == FeedItemKind::Input;
        lemma_first_input_exists(s, i);
    }
}

proof fn lemma_insert_position_in_range(s: Seq<FeedItem>, kind: FeedItemKind)
    ensures
        0 <= insert_position(s, kind) <= s.len(),
        insert_position(s, kind) < s.len() ==> first_input_at(s, insert_position(s, kind)),
{
    if kind == FeedItemKind::InquiryInterrupt && has_input(s) {
        let j = choose|j: int| 0 <= j < s.len() && s[j].kind == FeedItemKind::Input;
        lemma_first_input_exists(s, j);
    }
}

/// An inquiry interrupt is queued ahead of every buffered `Input`.
pub proof fn law_interrupt_precedes_input(s: Seq<FeedItem>, item: FeedItem)
    requires
        s.len() <= MAX_BUFFER_SIZE,
        item.kind == FeedItemKind::InquiryInterrupt,
    ensures
        ({
            let b = make_room(s);
            let p = insert_position(b, item.kind);
            &&& buffered(s, item)[p] == item
            &&& forall|j: int| 0 <= j < buffered(s, item).len() && (#[trigger] buffered(s, item)[j]).kind
                == FeedItemKind::Input ==> p < j
        }),
{
    let b = make_room(s);
    lemma_insert_position_in_range(b, item.kind);
    let p = insert_position(b, item.kind);
    let r = buffered(s, item);
    assert forall|j: int| 0 <= j < r.len() && (#[trigger] r[j]).kind == FeedItemKind::Input implies p < j by {
        if j < p {
            assert(r[j] == b[j]);
            if p < b.len() {
                assert(first_input_at(b, p));
            } else {
                assert(b[j].kind != FeedItemKind::Input) by {
                    if b[j].kind == FeedItemKind::Input {
                        assert(has_input(b));
                    }
                }
            }
        }
    }
}

} // verus!
