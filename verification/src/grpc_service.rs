//! What the router's RPCs decide, between the awaits that the transport
//! performs: completing a turn, relaying output, the two halves of a
//! talk_to and of an inquiry, and turning fed items into router events.
use vstd::prelude::*;
use vstd::string::*;
use crate::laws::keys_unique;
use crate::host_router::{
    HostRouter, HostRouterView, instance_host, instance_view, with_instance, lemma_instance_view_after_update, talk_target, lemma_update_keeps_supervisor, host_position,
    supervisor_host, agent_of_instance, after_resolve, after_send, talk_to_started,
    visited_agents, inquiry_started,
};
use crate::instance_router::{InstanceRouterView, after_flush, enqueue_all, fed_since};
use crate::json::{json_canonical, canonical_json, 
    json_has_member, json_str_member, json_with_i64_member, json_i64_member, json_array_member, json_str_value,
    with_i64_member, get_str_member, get_i64_member, get_array_member, get_str_value,
};
use crate::feed::FeedItem;
use crate::text::str_eq;
use crate::state_machine::{
    InstanceState, StateMachineView, valid_transition, after_set, is_waiting, waits_for, talk_to_wait, inquiry_wait,
};
use crate::wire::{object_text, build_object, str_views, string_views, str_member_or_empty};
use crate::channel::new_uuid;
use crate::output::{OutputEvent, output_event_to_json, report_text};

verus! {

/// The router after closing the innermost turn (when one is open).
pub open spec fn after_pop(r: InstanceRouterView) -> InstanceRouterView {
    if r.turns.len() > 0 {
        InstanceRouterView { turns: r.turns.drop_last(), ..r }
    } else {
        r
    }
}

/// The router after a change to `to`, when its state machine allows it.
pub open spec fn after_enter(r: InstanceRouterView, to: InstanceState) -> InstanceRouterView {
    if valid_transition(r.machine.state, to) {
        InstanceRouterView { machine: after_set(r.machine, to), ..r }
    } else {
        r
    }
}

/// The router after the awaited reply `id` arrived, when it waited for it.
pub open spec fn after_exit_waiting(r: InstanceRouterView, id: Seq<char>) -> InstanceRouterView {
    if is_waiting(r.machine.state) && waits_for(r.machine, id) {
        InstanceRouterView {
            machine: StateMachineView { pending: None, ..after_set(r.machine, InstanceState::Generating) },
            ..r
        }
    } else {
        r
    }
}

/// The router after a reply nothing waited for.
pub open spec fn after_unexpected(r: InstanceRouterView) -> InstanceRouterView {
    InstanceRouterView { machine: after_set(r.machine, InstanceState::Generating), ..r }
}

/// Puts `r` in place of instance `iid` when some host runs it.
pub open spec fn update_instance(v: HostRouterView, iid: Seq<char>, r: InstanceRouterView) -> HostRouterView {
    if instance_host(v.hosts, iid) >= 0 {
        with_instance(v, iid, r)
    } else {
        v
    }
}

/// The reply that a completed turn carries back to its caller.
pub open spec fn turn_result_text(result: Seq<char>, instance_id: Seq<char>) -> Seq<char> {
    object_text(seq!["response"@, "instance_id"@], seq![result, instance_id])
}

/// The router after the agent of `iid` completed turn `tid`: the turn is
/// closed, the instance goes idle and takes what it buffered; a result
/// answers the talk_to request the turn served.
pub open spec fn after_complete_turn(v: HostRouterView, iid: Seq<char>, tid: Seq<char>, result: Option<Seq<char>>) -> HostRouterView {
    let v1 = update_instance(
        v,
        iid,
        after_flush(after_enter(after_pop(instance_view(v, iid)), InstanceState::Idle)),
    );
    match result {
        Some(r) => after_resolve(v1, tid, turn_result_text(r, iid)),
        None => v1,
    }
}

/// An output event as relayed: tagged with the instance's turn, stamped
/// with `ts`.
pub open spec fn stamped_output(v: HostRouterView, iid: Seq<char>, event: Seq<char>, ts: i64) -> Seq<char> {
    let tagged = if instance_host(v.hosts, iid) >= 0 {
        crate::instance_router::tagged_event(instance_view(v, iid).turns, event)
    } else {
        event
    };
    match json_with_i64_member(tagged, "ts"@, ts) {
        Some(t) => t,
        None => tagged,
    }
}

/// The router after relaying report `output` at time `ts`.
pub open spec fn after_output(v: HostRouterView, output: OutputEvent, ts: i64) -> HostRouterView {
    let out = stamped_output(v, output.instance_id@, report_text(output), ts);
    if json_has_member(out, "type"@) {
        after_send(v, out)
    } else {
        v
    }
}

pub open spec fn inquire_success(o: InquireOutcome, id: Seq<char>, response: Seq<char>) -> bool {
    match o {
        InquireOutcome::Success { inquiry_id, response_text, suggestion_index } => inquiry_id@ == id
            && response_text.deep_view() == json_str_member(response, "response_text"@) && suggestion_index == match json_i64_member(
            response,
            "suggestion_index"@,
        ) {
            Some(n) => Some(n as i32),
            None => None,
        },
        _ => false,
    }
}

pub open spec fn inquire_error(o: InquireOutcome, id: Seq<char>, reason: Seq<char>) -> bool {
    match o {
        InquireOutcome::Error { inquiry_id, reason: why } => inquiry_id@ == id && why@ == reason,
        _ => false,
    }
}

/// The router once instance `iid` waits for inquiry `id`.
pub open spec fn waiting_for_inquiry(v: HostRouterView, iid: Seq<char>, id: Seq<char>) -> HostRouterView {
    let iv = instance_view(v, iid);
    update_instance(
        v,
        iid,
        InstanceRouterView {
            machine: StateMachineView { pending: Some(inquiry_wait(id)), ..after_set(iv.machine, InstanceState::WaitingForInquiry) },
            ..iv
        },
    )
}

/// The answer to a talk_to RPC.
#[derive(Debug, Clone)]
pub enum TalkToOutcome {
    Success { request_id: String, response: String, conversation_id: String },
    Error { request_id: String, reason: String },
    /// An inquiry that interrupts the caller while it waits.
    Interrupt {
        inquiry_id: String,
        from_agent: String,
        content_markdown: String,
        suggestions: Vec<String>,
        priority: String,
    },
}

pub open spec fn is_success(o: TalkToOutcome, rid: Seq<char>, response: Seq<char>) -> bool {
    match o {
        TalkToOutcome::Success { request_id, response: text, conversation_id } => request_id@ == rid && text@
            == str_member_or_empty(response, "response"@) && conversation_id@ == str_member_or_empty(
            response,
            "conversation_id"@,
        ),
        _ => false,
    }
}

pub open spec fn is_error(o: TalkToOutcome, rid: Seq<char>, reason: Seq<char>) -> bool {
    match o {
        TalkToOutcome::Error { request_id, reason: why } => request_id@ == rid && why@ == reason,
        _ => false,
    }
}

/// How a talk_to RPC goes on after its first half.
pub enum TalkToStart {
    /// The request is out; await the receiver and call `finish_talk_to`.
    Waiting(String, tokio::sync::oneshot::Receiver<String>),
    /// The request was refused; this is the answer.
    Replied(TalkToOutcome),
    /// The caller's state forbids waiting.
    FailedPrecondition(String),
}

/// The answer to an inquire RPC.
#[derive(Debug, Clone)]
pub enum InquireOutcome {
    Success { inquiry_id: String, response_text: Option<String>, suggestion_index: Option<i32> },
    Error { inquiry_id: String, reason: String },
}

/// How an inquire RPC goes on after its first half.
pub enum InquireStart {
    Waiting(String, tokio::sync::oneshot::Receiver<String>),
    FailedPrecondition(String),
}

fn success_outcome(request_id: String, response: &str) -> (r: TalkToOutcome)
    ensures
        is_success(r, request_id@, response@),
{
    let text = match get_str_member(response, "response") {
        Some(t) => t,
        None => String::new(),
    };
    let conversation_id = match get_str_member(response, "conversation_id") {
        Some(t) => t,
        None => String::new(),
    };
    TalkToOutcome::Success { request_id, response: text, conversation_id }
}

fn inquire_success_outcome(inquiry_id: String, response: &str) -> (r: InquireOutcome)
    ensures
        inquire_success(r, inquiry_id@, response@),
{
    let response_text = get_str_member(response, "response_text");
    let suggestion_index = match get_i64_member(response, "suggestion_index") {
        Some(n) => Some(n as i32),
        None => None,
    };
    InquireOutcome::Success { inquiry_id, response_text, suggestion_index }
}

// ── Router events ────────────────────────────────────────────────────────

/// One message of the conversation history handed with user input.
#[derive(Debug, Clone)]
pub struct HistoryMessage {
    pub id: String,
    pub role: String,
    pub content: String,
}

/// What a fed item asks of the agent.
#[derive(Debug, Clone)]
pub enum RouterEventKind {
    UserInput { text: String, history: Vec<HistoryMessage> },
    TalkToRequest { request_id: String, caller_agent: String, text: String },
    InquiryRequest {
        inquiry_id: String,
        from_agent: String,
        content_markdown: String,
        suggestions: Vec<String>,
        priority: String,
    },
    Drain,
    Terminate,
    Interrupt,
}

/// A fed item as the agent's event stream carries it.
#[derive(Debug, Clone)]
pub struct RouterEvent {
    pub instance_id: String,
    pub turn_id: String,
    pub event: RouterEventKind,
}

/// The history entries of the elements that have string `id`, `role` and
/// `content` members, in order.
pub open spec fn history_of(elems: Seq<Seq<char>>) -> Seq<(Seq<char>, Seq<char>, Seq<char>)>
    decreases elems.len(),
{
    if elems.len() == 0 {
        Seq::empty()
    } else {
        let e = elems.last();
        let rest = history_of(elems.drop_last());
        match (json_str_member(e, "id"@), json_str_member(e, "role"@), json_str_member(e, "content"@)) {
            (Some(i), Some(r), Some(c)) => rest.push((i, r, c)),
            _ => rest,
        }
    }
}

/// The elements that are JSON strings, as strings, in order.
pub open spec fn strings_of(elems: Seq<Seq<char>>) -> Seq<Seq<char>>
    decreases elems.len(),
{
    if elems.len() == 0 {
        Seq::empty()
    } else {
        match json_str_value(elems.last()) {
            Some(x) => strings_of(elems.drop_last()).push(x),
            None => strings_of(elems.drop_last()),
        }
    }
}

pub open spec fn history_view(h: Seq<HistoryMessage>) -> Seq<(Seq<char>, Seq<char>, Seq<char>)> {
    h.map_values(|m: HistoryMessage| (m.id@, m.role@, m.content@))
}

/// `k` is what an event of JSON text `ev` asks of the agent.
pub open spec fn kind_describes(k: RouterEventKind, ev: Seq<char>) -> bool {
    let t = str_member_or_empty(ev, "type"@);
    if t == "agent.event.user_input"@ {
        match k {
            RouterEventKind::UserInput { text, history } => text@ == str_member_or_empty(ev, "text"@)
                && history_view(history@) == history_of(json_array_member(ev, "history"@)),
            _ => false,
        }
    } else if t == "agent.event.talk_to.request"@ {
        match k {
            RouterEventKind::TalkToRequest { request_id, caller_agent, text } => request_id@ == str_member_or_empty(
                ev,
                "request_id"@,
            ) && caller_agent@ == str_member_or_empty(ev, "caller_agent"@) && text@ == str_member_or_empty(ev, "text"@),
            _ => false,
        }
    } else if t == "agent.event.inquiry.request"@ {
        match k {
            RouterEventKind::InquiryRequest { inquiry_id, from_agent, content_markdown, suggestions, priority } =>
                inquiry_id@ == str_member_or_empty(ev, "inquiry_id"@) && from_agent@ == str_member_or_empty(
                ev,
                "from_agent"@,
            ) && content_markdown@ == str_member_or_empty(ev, "content_markdown"@) && string_views(suggestions@)
                == strings_of(json_array_member(ev, "suggestions"@)) && priority@ == match json_str_member(ev, "priority"@) {
                Some(p) => p,
                None => "normal"@,
            },
            _ => false,
        }
    } else if t == "agent.signal.drain"@ {
        k is Drain
    } else if t == "agent.signal.terminate"@ {
        k is Terminate
    } else if t == "agent.signal.interrupt"@ {
        k is Interrupt
    } else {
        match k {
            RouterEventKind::UserInput { text, history } => text@ == match json_canonical(ev) {
                Some(c) => c,
                None => ev,
            } && history@.len() == 0,
            _ => false,
        }
    }
}

/// The history entries of the given JSON elements.
fn history_messages(elems: &Vec<String>) -> (r: Vec<HistoryMessage>)
    ensures
        history_view(r@) == history_of(elems.deep_view()),
{
    let ghost es = elems.deep_view();
    let mut out: Vec<HistoryMessage> = Vec::new();
    let mut i: usize = 0;
    assert(es.take(0) =~= Seq::<Seq<char>>::empty());
    while i < elems.len()
        invariant
            i <= elems@.len(),
            es == elems.deep_view(),
            history_view(out@) == history_of(es.take(i as int)),
        decreases elems@.len() - i,
    {
        proof {
            assert(es.take(i + 1).drop_last() =~= es.take(i as int));
            assert(es.take(i + 1).last() == elems@[i as int]@);
        }
        let e = elems[i].as_str();
        let id = get_str_member(e, "id");
        let role = get_str_member(e, "role");
        let content = get_str_member(e, "content");
        match (id, role, content) {
            (Some(id), Some(role), Some(content)) => {
                let ghost prev = out@;
                let m = HistoryMessage { id, role, content };
                let ghost mv = m;
                out.push(m);
                assert(history_view(out@) =~= history_view(prev).push((mv.id@, mv.role@, mv.content@)));
            },
            _ => {},
        }
        i += 1;
    }
    assert(es.take(i as int) =~= es);
    out
}

/// The elements that are JSON strings.
fn string_elements(elems: &Vec<String>) -> (r: Vec<String>)
    ensures
        string_views(r@) == strings_of(elems.deep_view()),
{
    let ghost es = elems.deep_view();
    let mut out: Vec<String> = Vec::new();
    let mut i: usize = 0;
    assert(es.take(0) =~= Seq::<Seq<char>>::empty());
    while i < elems.len()
        invariant
            i <= elems@.len(),
            es == elems.deep_view(),
            string_views(out@) == strings_of(es.take(i as int)),
        decreases elems@.len() - i,
    {
        proof {
            assert(es.take(i + 1).drop_last() =~= es.take(i as int));
            assert(es.take(i + 1).last() == elems@[i as int]@);
        }
        match get_str_value(elems[i].as_str()) {
            Some(x) => {
                let ghost prev = out@;
                let ghost xv = x@;
                out.push(x);
                assert(string_views(out@) =~= string_views(prev).push(xv));
            },
            None => {},
        }
        i += 1;
    }
    assert(es.take(i as int) =~= es);
    out
}

fn member_or_empty(ev: &str, key: &str) -> (r: String)
    ensures
        r@ == str_member_or_empty(ev@, key@),
{
    match get_str_member(ev, key) {
        Some(s) => s,
        None => String::new(),
    }
}

/// A fed item for instance `instance_id` as its event stream carries it.
pub fn feed_item_to_router_event(instance_id: &str, item: FeedItem) -> (r: RouterEvent)
    ensures
        r.instance_id@ == instance_id@,
        r.turn_id@ == str_member_or_empty(item.event@, "turn_id"@),
        kind_describes(r.event, item.event@),
{
    let ev = item.event;
    let event_type = member_or_empty(ev.as_str(), "type");
    let turn_id = member_or_empty(ev.as_str(), "turn_id");
    let t = event_type.as_str();
    let event = if str_eq(t, "agent.event.user_input") {
        let text = member_or_empty(ev.as_str(), "text");
        let elems = get_array_member(ev.as_str(), "history");
        RouterEventKind::UserInput { text, history: history_messages(&elems) }
    } else if str_eq(t, "agent.event.talk_to.request") {
        RouterEventKind::TalkToRequest {
            request_id: member_or_empty(ev.as_str(), "request_id"),
            caller_agent: member_or_empty(ev.as_str(), "caller_agent"),
            text: member_or_empty(ev.as_str(), "text"),
        }
    } else if str_eq(t, "agent.event.inquiry.request") {
        let elems = get_array_member(ev.as_str(), "suggestions");
        let priority = match get_str_member(ev.as_str(), "priority") {
            Some(p) => p,
            None => String::from_str("normal"),
        };
        RouterEventKind::InquiryRequest {
            inquiry_id: member_or_empty(ev.as_str(), "inquiry_id"),
            from_agent: member_or_empty(ev.as_str(), "from_agent"),
            content_markdown: member_or_empty(ev.as_str(), "content_markdown"),
            suggestions: string_elements(&elems),
            priority,
        }
    } else if str_eq(t, "agent.signal.drain") {
        RouterEventKind::Drain
    } else if str_eq(t, "agent.signal.terminate") {
        RouterEventKind::Terminate
    } else if str_eq(t, "agent.signal.interrupt") {
        RouterEventKind::Interrupt
    } else {
        let text = match canonical_json(ev.as_str()) {
            Some(c) => c,
            None => ev.clone(),
        };
        RouterEventKind::UserInput { text, history: Vec::new() }
    };
    RouterEvent { instance_id: String::from_str(instance_id), turn_id, event }
}

/// The router behind the RPCs.
pub struct DspatchRouterService {
    router: HostRouter,
}

impl View for DspatchRouterService {
    type V = HostRouterView;

    closed spec fn view(&self) -> HostRouterView {
        self.router@
    }
}

impl DspatchRouterService {
    pub fn new(router: HostRouter) -> (r: DspatchRouterService)
        ensures
            r@ == router@,
            r.inner() == router,
    {
        DspatchRouterService { router }
    }

    /// The router behind the service.
    pub closed spec fn inner(&self) -> HostRouter {
        self.router
    }

    /// EventStream: the oldest item waiting for an instance's agent, taken
    /// out of its feed and turned into the event the stream carries.
    pub fn next_router_event(&mut self, instance_id: &str) -> (r: Option<RouterEvent>)
        ensures
            keys_unique(old(self)@) ==> keys_unique(final(self)@),
            final(self)@ == old(self)@,
            final(self).inner().feed_ready(instance_id@) == old(self).inner().feed_ready(instance_id@),
            ({
                let q = old(self).inner().feed_of(instance_id@);
                let some = old(self).inner().feed_ready(instance_id@) && q.len() > 0;
                &&& r is Some <==> some
                &&& r matches Some(e) ==> e.instance_id@ == instance_id@ && e.turn_id@ == str_member_or_empty(
                    q[0].event@,
                    "turn_id"@,
                ) && kind_describes(e.event, q[0].event@)
                &&& final(self).inner().feed_of(instance_id@) == if some { q.drop_first() } else { q }
            }),
            forall|k: Seq<char>| k != instance_id@ ==> #[trigger] final(self).inner().feed_of(k) == old(self).inner().feed_of(k),
            forall|k: Seq<char>| k != instance_id@ ==> #[trigger] final(self).inner().feed_ready(k) == old(
                self,
            ).inner().feed_ready(k),
    {
        match self.router.take_feed_item(instance_id) {
            Some(item) => Some(feed_item_to_router_event(instance_id, item)),
            None => None,
        }
    }

    pub fn router(&self) -> (r: &HostRouter)
        ensures
            r@ == self@,
            *r == self.inner(),
    {
        &self.router
    }

    pub fn router_mut(&mut self) -> (r: &mut HostRouter)
        ensures
            r@ == old(self)@,
            final(self)@ == final(r)@,
            *r == old(self).inner(),
            final(self).inner() == *final(r),
    {
        &mut self.router
    }

    /// CompleteTurn: closes the turn, returns the instance to idle, feeds
    /// it what it buffered, and hands a result to the waiting caller.
    pub fn complete_turn(&mut self, instance_id: &str, turn_id: &str, result: Option<String>)
        ensures
            final(self).inner().feed_ready(instance_id@) == old(self).inner().feed_ready(instance_id@),
            old(self).inner().feed_ready(instance_id@) ==> final(self).inner().feed_of(instance_id@) == enqueue_all(
                old(self).inner().feed_of(instance_id@),
                fed_since(instance_view(old(self)@, instance_id@), instance_view(final(self)@, instance_id@)),
            ),
            forall|k: Seq<char>| k != instance_id@ ==> #[trigger] final(self).inner().feed_of(k) == old(self).inner().feed_of(k),
            forall|k: Seq<char>| k != instance_id@ ==> #[trigger] final(self).inner().feed_ready(k) == old(
                self,
            ).inner().feed_ready(k),
            keys_unique(old(self)@) ==> keys_unique(final(self)@),
            final(self)@ == after_complete_turn(old(self)@, instance_id@, turn_id@, result.deep_view()),
    {
        match self.router.get_instance_router_mut(instance_id) {
            Some(ir) => {
                let ghost r0 = *ir;
                ir.pop_turn();
                let _ = ir.state_machine_mut().enter_idle();
                let ghost r1 = *ir;
                ir.flush();
                proof {
                    lemma_instance_view_after_update(old(self)@, instance_id@, ir@);
                    assert(fed_since(r0@, ir@) == fed_since(r1@, ir@));
                }
            },
            None => {},
        }
        match result {
            Some(r) => {
                let keys: Vec<&str> = vec!["response", "instance_id"];
                let values: Vec<String> = vec![r, String::from_str(instance_id)];
                let response = build_object(&keys, &values);
                proof {
                    assert(str_views(keys@) =~= seq!["response"@, "instance_id"@]);
                    assert(string_views(values@) =~= seq![values@[0]@, instance_id@]);
                }
                self.router.resolve_talk_to(turn_id, response);
            },
            None => {},
        }
    }

    /// TalkTo, first half: starts the request and puts the caller in the
    /// waiting state.
    pub fn begin_talk_to(&mut self, caller_instance_id: &str, target_agent: &str, text: &str, continue_conversation: bool) -> (r: TalkToStart)
        ensures
            ({
                let inst = talk_target(old(self)@, caller_instance_id@, target_agent@, continue_conversation);
                let hp = host_position(old(self)@.hosts, target_agent@);
                !(r is Replied) && hp >= 0 && hp == instance_host(old(self)@.hosts, inst) && inst != caller_instance_id@
                    ==> {
                    &&& final(self).inner().feed_ready(inst) == old(self).inner().feed_ready(inst)
                    &&& old(self).inner().feed_ready(inst) ==> final(self).inner().feed_of(inst) == enqueue_all(
                        old(self).inner().feed_of(inst),
                        fed_since(instance_view(old(self)@, inst), instance_view(final(self)@, inst)),
                    )
                }
            }),
            forall|k: Seq<char>| k != talk_target(old(self)@, caller_instance_id@, target_agent@, continue_conversation)
                ==> #[trigger] final(self).inner().feed_of(k) == old(self).inner().feed_of(k),
            forall|k: Seq<char>| k != talk_target(old(self)@, caller_instance_id@, target_agent@, continue_conversation)
                ==> #[trigger] final(self).inner().feed_ready(k) == old(self).inner().feed_ready(k),
            keys_unique(old(self)@) ==> keys_unique(final(self)@),
            ({
                let v = old(self)@;
                let caller = caller_instance_id@;
                if visited_agents(v, caller).contains(target_agent@) {
                    final(self)@ == v && (r matches TalkToStart::Replied(o) && is_error(o, Seq::empty(), "cycle_detected"@))
                } else if instance_host(v.hosts, caller) == -1 {
                    final(self)@ == v && (r matches TalkToStart::Replied(o) && is_error(o, Seq::empty(), "caller_not_found"@))
                } else {
                    exists|v1: HostRouterView, rid: Seq<char>|
                        #![trigger talk_to_started(v, v1, caller, target_agent@, text@, continue_conversation, rid)]
                        talk_to_started(v, v1, caller, target_agent@, text@, continue_conversation, rid) && {
                            let iv = instance_view(v1, caller);
                            if instance_host(v1.hosts, caller) >= 0 && !valid_transition(
                                iv.machine.state,
                                InstanceState::WaitingForAgent,
                            ) {
                                final(self)@ == v1 && (r matches TalkToStart::FailedPrecondition(m) && m@ == "State error: "@
                                    + crate::state_machine::transition_error_text(iv.machine.state, InstanceState::WaitingForAgent))
                            } else {
                                (r matches TalkToStart::Waiting(id, _) && id@ == rid) && final(self)@ == update_instance(
                                    v1,
                                    caller,
                                    InstanceRouterView {
                                        machine: StateMachineView {
                                            pending: Some(talk_to_wait(rid, target_agent@)),
                                            ..after_set(iv.machine, InstanceState::WaitingForAgent)
                                        },
                                        ..iv
                                    },
                                )
                            }
                        }
                }
            }),
    {
        let ghost v0 = self@;
        match self.router.initiate_talk_to(caller_instance_id, target_agent, text, continue_conversation) {
            Ok((request_id, rx)) => {
                let ghost v1 = self@;
                assert(talk_to_started(v0, v1, caller_instance_id@, target_agent@, text@, continue_conversation, request_id@));
                let ghost mid = *self;
                proof {
                    let inst = talk_target(v0, caller_instance_id@, target_agent@, continue_conversation);
                    mid.inner().lemma_ready_is_hosted(inst);
                }
                let entered = match self.router.get_instance_router_mut(caller_instance_id) {
                    Some(ir) => {
                        let e = ir.state_machine_mut().enter_waiting_for_agent(request_id.clone(), String::from_str(target_agent));
                        proof { lemma_instance_view_after_update(v1, caller_instance_id@, ir@); }
                        e
                    },
                    None => Ok(()),
                };
                match entered {
                    Ok(()) => {},
                    Err(e) => {
                        proof {
                            let iv = instance_view(v1, caller_instance_id@);
                            let p = instance_host(v1.hosts, caller_instance_id@);
                            let h = v1.hosts[p];
                            assert(h.routers.update(crate::agent_host::position_of(h.routers, caller_instance_id@), iv) =~= h.routers);
                            assert(v1.hosts.update(p, crate::agent_host::AgentHostView { routers: h.routers, ..h }) =~= v1.hosts);
                            assert(self@ == v1);
                        }
                        let m = String::from_str("State error: ").concat(e.message().as_str());
                        return TalkToStart::FailedPrecondition(m);
                    },
                }
                TalkToStart::Waiting(request_id, rx)
            },
            Err(reason) => TalkToStart::Replied(TalkToOutcome::Error { request_id: String::new(), reason }),
        }
    }

    /// TalkTo, second half: the reply arrived (or its channel closed).
    pub fn finish_talk_to(&mut self, caller_instance_id: &str, request_id: String, response: Option<String>) -> (r: TalkToOutcome)
        ensures
            final(self).inner().feed_ready(caller_instance_id@) == old(self).inner().feed_ready(caller_instance_id@),
            old(self).inner().feed_ready(caller_instance_id@) ==> final(self).inner().feed_of(caller_instance_id@)
                == enqueue_all(
                old(self).inner().feed_of(caller_instance_id@),
                fed_since(instance_view(old(self)@, caller_instance_id@), instance_view(final(self)@, caller_instance_id@)),
            ),
            forall|k: Seq<char>| k != caller_instance_id@ ==> #[trigger] final(self).inner().feed_of(k) == old(
                self,
            ).inner().feed_of(k),
            forall|k: Seq<char>| k != caller_instance_id@ ==> #[trigger] final(self).inner().feed_ready(k) == old(
                self,
            ).inner().feed_ready(k),
            keys_unique(old(self)@) ==> keys_unique(final(self)@),
            ({
                let v = old(self)@;
                let iv = instance_view(v, caller_instance_id@);
                match response {
                    Some(resp) => is_success(r, request_id@, resp@) && final(self)@ == update_instance(
                        v,
                        caller_instance_id@,
                        after_flush(after_exit_waiting(iv, request_id@)),
                    ),
                    None => is_error(r, Seq::empty(), "channel_closed"@) && final(self)@ == update_instance(
                        v,
                        caller_instance_id@,
                        after_flush(after_unexpected(iv)),
                    ),
                }
            }),
    {
        match response {
            Some(resp) => {
                match self.router.get_instance_router_mut(caller_instance_id) {
                    Some(ir) => {
                        let ghost r0 = *ir;
                        let _ = ir.state_machine_mut().exit_waiting(request_id.as_str());
                        let ghost r1 = *ir;
                        ir.flush();
                        proof {
                            lemma_instance_view_after_update(old(self)@, caller_instance_id@, ir@);
                            assert(fed_since(r0@, ir@) == fed_since(r1@, ir@));
                        }
                    },
                    None => {},
                }
                success_outcome(request_id, resp.as_str())
            },
            None => {
                match self.router.get_instance_router_mut(caller_instance_id) {
                    Some(ir) => {
                        let ghost r0 = *ir;
                        ir.state_machine_mut().receive_unexpected();
                        let ghost r1 = *ir;
                        ir.flush();
                        proof {
                            lemma_instance_view_after_update(old(self)@, caller_instance_id@, ir@);
                            assert(fed_since(r0@, ir@) == fed_since(r1@, ir@));
                        }
                    },
                    None => {},
                }
                TalkToOutcome::Error { request_id: String::new(), reason: String::from_str("channel_closed") }
            },
        }
    }

    /// ResumeTalkTo, first half: waits again on an open request.
    pub fn resume_talk_to(&mut self, instance_id: &str, request_id: &str) -> (r: Result<tokio::sync::oneshot::Receiver<String>, TalkToOutcome>)
        ensures
            forall|k: Seq<char>| #[trigger] final(self).inner().feed_of(k) == old(self).inner().feed_of(k),
            forall|k: Seq<char>| #[trigger] final(self).inner().feed_ready(k) == old(self).inner().feed_ready(k),
            keys_unique(old(self)@) ==> keys_unique(final(self)@),
            ({
                let v = old(self)@;
                let p = crate::host_router::link_position(v.links, request_id@);
                if p >= 0 {
                    r is Ok && final(self)@ == (HostRouterView {
                        links: v.links.update(p, crate::host_router::LinkView { has_waiter: true, ..v.links[p] }),
                        ..v
                    })
                } else {
                    final(self)@ == v && (r matches Err(o) && is_error(o, request_id@, "no_pending_request"@))
                }
            }),
    {
        match self.router.resume_wait(instance_id, request_id) {
            Ok(rx) => Ok(rx),
            Err(reason) => Err(TalkToOutcome::Error { request_id: String::from_str(request_id), reason }),
        }
    }

    /// ResumeTalkTo, second half.
    pub fn finish_resume_talk_to(&mut self, instance_id: &str, request_id: String, response: Option<String>) -> (r: TalkToOutcome)
        ensures
            final(self).inner().feed_ready(instance_id@) == old(self).inner().feed_ready(instance_id@),
            old(self).inner().feed_ready(instance_id@) ==> final(self).inner().feed_of(instance_id@) == enqueue_all(
                old(self).inner().feed_of(instance_id@),
                fed_since(instance_view(old(self)@, instance_id@), instance_view(final(self)@, instance_id@)),
            ),
            forall|k: Seq<char>| k != instance_id@ ==> #[trigger] final(self).inner().feed_of(k) == old(self).inner().feed_of(k),
            forall|k: Seq<char>| k != instance_id@ ==> #[trigger] final(self).inner().feed_ready(k) == old(
                self,
            ).inner().feed_ready(k),
            keys_unique(old(self)@) ==> keys_unique(final(self)@),
            ({
                let v = old(self)@;
                match response {
                    Some(resp) => is_success(r, request_id@, resp@) && final(self)@ == update_instance(
                        v,
                        instance_id@,
                        after_flush(after_exit_waiting(instance_view(v, instance_id@), request_id@)),
                    ),
                    None => is_error(r, request_id@, "channel_closed"@) && final(self)@ == v,
                }
            }),
    {
        match response {
            Some(resp) => {
                match self.router.get_instance_router_mut(instance_id) {
                    Some(ir) => {
                        let ghost r0 = *ir;
                        let _ = ir.state_machine_mut().exit_waiting(request_id.as_str());
                        let ghost r1 = *ir;
                        ir.flush();
                        proof {
                            lemma_instance_view_after_update(old(self)@, instance_id@, ir@);
                            assert(fed_since(r0@, ir@) == fed_since(r1@, ir@));
                        }
                    },
                    None => {},
                }
                success_outcome(request_id, resp.as_str())
            },
            None => TalkToOutcome::Error { request_id, reason: String::from_str("channel_closed") },
        }
    }

    /// Inquire, first half: the asking instance starts waiting and the
    /// inquiry goes out under a fresh id.
    pub fn begin_inquire(
        &mut self,
        instance_id: &str,
        content_markdown: &str,
        suggestions: &[String],
        file_paths: &[String],
        priority: &str,
    ) -> (r: InquireStart)
        ensures
            ({
                let hp = supervisor_host(old(self)@, agent_of_instance(old(self)@.hosts, instance_id@));
                let sup = old(self)@.hosts[hp].routers[0].instance_id;
                r is Waiting && hp >= 0 && hp == instance_host(old(self)@.hosts, sup) && sup != instance_id@ ==> {
                    &&& final(self).inner().feed_ready(sup) == old(self).inner().feed_ready(sup)
                    &&& old(self).inner().feed_ready(sup) ==> final(self).inner().feed_of(sup) == enqueue_all(
                        old(self).inner().feed_of(sup),
                        fed_since(instance_view(old(self)@, sup), instance_view(final(self)@, sup)),
                    )
                }
            }),
            ({
                let hp = supervisor_host(old(self)@, agent_of_instance(old(self)@.hosts, instance_id@));
                forall|k: Seq<char>|
                    #![trigger final(self).inner().feed_of(k)]
                    #![trigger final(self).inner().feed_ready(k)]
                    (hp < 0 || k != old(self)@.hosts[hp].routers[0].instance_id) ==> final(self).inner().feed_of(k)
                        == old(self).inner().feed_of(k) && final(self).inner().feed_ready(k) == old(self).inner().feed_ready(k)
            }),
            keys_unique(old(self)@) ==> keys_unique(final(self)@),
            ({
                let v = old(self)@;
                let iid = instance_id@;
                let refused = instance_host(v.hosts, iid) >= 0 && !valid_transition(
                    instance_view(v, iid).machine.state,
                    InstanceState::WaitingForInquiry,
                );
                &&& refused ==> final(self)@ == v && (r matches InquireStart::FailedPrecondition(m) && m@ == "State error: "@
                    + crate::state_machine::transition_error_text(instance_view(v, iid).machine.state, InstanceState::WaitingForInquiry))
                &&& !refused ==> (r matches InquireStart::Waiting(id, _) && id@.len() == 36 && inquiry_started(
                    waiting_for_inquiry(v, iid, id@),
                    final(self)@,
                    iid,
                    id@,
                    content_markdown@,
                    string_views(suggestions@),
                    string_views(file_paths@),
                    priority@,
                ))
            }),
    {
        let ghost v = self@;
        let inquiry_id = new_uuid();
        let entered = match self.router.get_instance_router_mut(instance_id) {
            Some(ir) => {
                let e = ir.state_machine_mut().enter_waiting_for_inquiry(inquiry_id.clone());
                proof {
                    lemma_instance_view_after_update(v, instance_id@, ir@);
                    lemma_update_keeps_supervisor(v, instance_id@, ir@, instance_id@);
                }
                e
            },
            None => Ok(()),
        };
        match entered {
            Ok(()) => {},
            Err(e) => {
                proof {
                    let iv = instance_view(v, instance_id@);
                    let p = instance_host(v.hosts, instance_id@);
                    let h = v.hosts[p];
                    assert(h.routers.update(crate::agent_host::position_of(h.routers, instance_id@), iv) =~= h.routers);
                    assert(v.hosts.update(p, crate::agent_host::AgentHostView { routers: h.routers, ..h }) =~= v.hosts);
                    assert(self@ == v);
                }
                let m = String::from_str("State error: ").concat(e.message().as_str());
                return InquireStart::FailedPrecondition(m);
            },
        }
        assert(self@ == waiting_for_inquiry(v, instance_id@, inquiry_id@));
        let ghost mid = *self;
        proof {
            assert forall|k: Seq<char>|
                #![trigger mid.inner().feed_of(k)]
                #![trigger mid.inner().feed_ready(k)]
                mid.inner().feed_of(k) == old(self).inner().feed_of(k) && mid.inner().feed_ready(k) == old(
                    self,
                ).inner().feed_ready(k) by {}
        }
        let rx = self.router.initiate_inquiry(
            instance_id,
            inquiry_id.as_str(),
            content_markdown,
            suggestions,
            file_paths,
            priority,
        );
        proof {
            let hp = supervisor_host(v, agent_of_instance(v.hosts, instance_id@));
            let hp2 = supervisor_host(mid@, agent_of_instance(mid@.hosts, instance_id@));
            assert(hp2 == hp);
            assert(hp >= 0 ==> mid@.hosts[hp].routers[0].instance_id == v.hosts[hp].routers[0].instance_id);
            assert forall|k: Seq<char>|
                #![trigger self.inner().feed_of(k)]
                #![trigger self.inner().feed_ready(k)]
                (hp < 0 || k != v.hosts[hp].routers[0].instance_id) implies self.inner().feed_of(k) == old(
                    self,
                ).inner().feed_of(k) && self.inner().feed_ready(k) == old(self).inner().feed_ready(k) by {
                assert(mid.inner().feed_of(k) == old(self).inner().feed_of(k));
                assert(mid.inner().feed_ready(k) == old(self).inner().feed_ready(k));
            }
        }
        InquireStart::Waiting(inquiry_id, rx)
    }

    /// Inquire, second half: the answer arrived (or its channel closed).
    pub fn finish_inquire(&mut self, instance_id: &str, inquiry_id: String, response: Option<String>) -> (r: InquireOutcome)
        ensures
            final(self).inner().feed_ready(instance_id@) == old(self).inner().feed_ready(instance_id@),
            old(self).inner().feed_ready(instance_id@) ==> final(self).inner().feed_of(instance_id@) == enqueue_all(
                old(self).inner().feed_of(instance_id@),
                fed_since(instance_view(old(self)@, instance_id@), instance_view(final(self)@, instance_id@)),
            ),
            forall|k: Seq<char>| k != instance_id@ ==> #[trigger] final(self).inner().feed_of(k) == old(self).inner().feed_of(k),
            forall|k: Seq<char>| k != instance_id@ ==> #[trigger] final(self).inner().feed_ready(k) == old(
                self,
            ).inner().feed_ready(k),
            keys_unique(old(self)@) ==> keys_unique(final(self)@),
            ({
                let v = old(self)@;
                let iv = instance_view(v, instance_id@);
                match response {
                    Some(resp) => inquire_success(r, inquiry_id@, resp@) && final(self)@ == update_instance(
                        v,
                        instance_id@,
                        after_flush(after_exit_waiting(iv, inquiry_id@)),
                    ),
                    None => inquire_error(r, inquiry_id@, "channel_closed"@) && final(self)@ == update_instance(
                        v,
                        instance_id@,
                        after_flush(after_unexpected(iv)),
                    ),
                }
            }),
    {
        match response {
            Some(resp) => {
                match self.router.get_instance_router_mut(instance_id) {
                    Some(ir) => {
                        let ghost r0 = *ir;
                        let _ = ir.state_machine_mut().exit_waiting(inquiry_id.as_str());
                        let ghost r1 = *ir;
                        ir.flush();
                        proof {
                            lemma_instance_view_after_update(old(self)@, instance_id@, ir@);
                            assert(fed_since(r0@, ir@) == fed_since(r1@, ir@));
                        }
                    },
                    None => {},
                }
                inquire_success_outcome(inquiry_id, resp.as_str())
            },
            None => {
                match self.router.get_instance_router_mut(instance_id) {
                    Some(ir) => {
                        let ghost r0 = *ir;
                        ir.state_machine_mut().receive_unexpected();
                        let ghost r1 = *ir;
                        ir.flush();
                        proof {
                            lemma_instance_view_after_update(old(self)@, instance_id@, ir@);
                            assert(fed_since(r0@, ir@) == fed_since(r1@, ir@));
                        }
                    },
                    None => {},
                }
                InquireOutcome::Error { inquiry_id, reason: String::from_str("channel_closed") }
            },
        }
    }

    /// ResumeInquire, first half: waits again on an open request.
    pub fn resume_inquire(&mut self, instance_id: &str, inquiry_id: &str) -> (r: Result<tokio::sync::oneshot::Receiver<String>, InquireOutcome>)
        ensures
            forall|k: Seq<char>| #[trigger] final(self).inner().feed_of(k) == old(self).inner().feed_of(k),
            forall|k: Seq<char>| #[trigger] final(self).inner().feed_ready(k) == old(self).inner().feed_ready(k),
            keys_unique(old(self)@) ==> keys_unique(final(self)@),
            ({
                let v = old(self)@;
                let p = crate::host_router::link_position(v.links, inquiry_id@);
                if p >= 0 {
                    r is Ok && final(self)@ == (HostRouterView {
                        links: v.links.update(p, crate::host_router::LinkView { has_waiter: true, ..v.links[p] }),
                        ..v
                    })
                } else {
                    final(self)@ == v && (r matches Err(o) && inquire_error(o, inquiry_id@, "no_pending_request"@))
                }
            }),
    {
        match self.router.resume_wait(instance_id, inquiry_id) {
            Ok(rx) => Ok(rx),
            Err(reason) => Err(InquireOutcome::Error { inquiry_id: String::from_str(inquiry_id), reason }),
        }
    }

    /// ResumeInquire, second half.
    pub fn finish_resume_inquire(&mut self, instance_id: &str, inquiry_id: String, response: Option<String>) -> (r: InquireOutcome)
        ensures
            final(self).inner().feed_ready(instance_id@) == old(self).inner().feed_ready(instance_id@),
            old(self).inner().feed_ready(instance_id@) ==> final(self).inner().feed_of(instance_id@) == enqueue_all(
                old(self).inner().feed_of(instance_id@),
                fed_since(instance_view(old(self)@, instance_id@), instance_view(final(self)@, instance_id@)),
            ),
            forall|k: Seq<char>| k != instance_id@ ==> #[trigger] final(self).inner().feed_of(k) == old(self).inner().feed_of(k),
            forall|k: Seq<char>| k != instance_id@ ==> #[trigger] final(self).inner().feed_ready(k) == old(
                self,
            ).inner().feed_ready(k),
            keys_unique(old(self)@) ==> keys_unique(final(self)@),
            ({
                let v = old(self)@;
                match response {
                    Some(resp) => inquire_success(r, inquiry_id@, resp@) && final(self)@ == update_instance(
                        v,
                        instance_id@,
                        after_flush(after_exit_waiting(instance_view(v, instance_id@), inquiry_id@)),
                    ),
                    None => inquire_error(r, inquiry_id@, "channel_closed"@) && final(self)@ == v,
                }
            }),
    {
        match response {
            Some(resp) => {
                match self.router.get_instance_router_mut(instance_id) {
                    Some(ir) => {
                        let ghost r0 = *ir;
                        let _ = ir.state_machine_mut().exit_waiting(inquiry_id.as_str());
                        let ghost r1 = *ir;
                        ir.flush();
                        proof {
                            lemma_instance_view_after_update(old(self)@, instance_id@, ir@);
                            assert(fed_since(r0@, ir@) == fed_since(r1@, ir@));
                        }
                    },
                    None => {},
                }
                inquire_success_outcome(inquiry_id, resp.as_str())
            },
            None => InquireOutcome::Error { inquiry_id, reason: String::from_str("channel_closed") },
        }
    }

    /// SendOutput at time `ts_ms`: the report's package, tagged with the
    /// instance's turn and stamped with the time, goes to the engine.
    pub fn send_output_at(&mut self, output: &OutputEvent, ts_ms: i64)
        ensures
            forall|k: Seq<char>| #[trigger] final(self).inner().feed_of(k) == old(self).inner().feed_of(k),
            forall|k: Seq<char>| #[trigger] final(self).inner().feed_ready(k) == old(self).inner().feed_ready(k),
            keys_unique(old(self)@) ==> keys_unique(final(self)@),
            final(self)@ == after_output(old(self)@, *output, ts_ms),
    {
        let event = output_event_to_json(output);
        let instance_id = output.instance_id.as_str();
        let tagged = match self.router.get_instance_router(instance_id) {
            Some(ir) => ir.tag_outbound(event),
            None => event,
        };
        let stamped = match with_i64_member(tagged.as_str(), "ts", ts_ms) {
            Some(t) => t,
            None => tagged,
        };
        self.router.relay_output(stamped);
    }

    /// SendOutput: relays the report stamped with the current time.
    pub fn send_output(&mut self, output: &OutputEvent)
        ensures
            forall|k: Seq<char>| #[trigger] final(self).inner().feed_of(k) == old(self).inner().feed_of(k),
            forall|k: Seq<char>| #[trigger] final(self).inner().feed_ready(k) == old(self).inner().feed_ready(k),
            keys_unique(old(self)@) ==> keys_unique(final(self)@),
            exists|ts: i64| ts >= 0 && final(self)@ == #[trigger] after_output(old(self)@, *output, ts),
    {
        let ts = now_millis();
        self.send_output_at(output, ts);
    }
}

/// `chrono::Utc::now().timestamp_millis()`: milliseconds since the Unix
/// epoch. chrono reads the clock through `SystemTime::now()` and panics when
/// it is before the epoch, so a returned value is never negative; nothing
/// more is claimed of it.
#[verifier::external_body]
fn now_millis() -> (r: i64)
    ensures
        r >= 0,
{
    chrono::Utc::now().timestamp_millis()
}

} // verus!
