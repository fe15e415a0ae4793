//! The central routing authority of a container: agent hosts and their
//! instances, cross-agent talk_to chains with cycle detection, the
//! conversation an agent continues, inquiry bubbling up the supervision
//! hierarchy, and relaying packages to the engine.
use vstd::prelude::*;
use vstd::string::*;
use crate::agent_host::{AgentHostRouter, AgentHostView, position_of, after_spawn, after_dispatch, heartbeat_of};
use crate::config::{AgentMeta, supervision_of, hierarchy_of, hierarchy_view, names_distinct};
use crate::feed::FeedItem;
use crate::instance_router::{InstanceRouter, InstanceRouterView};
use crate::json::{get_str_member, get_array_member, json_has_member, json_str_member, json_is_value, json_with_member, json_string_array_text, with_member, string_array_of};
use crate::lookup::{first_index, is_first, lemma_first_index_is, lemma_first_index_none, lemma_first_index_after_upsert, lemma_first_index_range};
use crate::laws::{
    keys_unique, law_route_keeps_keys_unique, law_link_record_keeps_keys_unique, law_talk_to_keeps_keys_unique,
    law_resume_and_resolve_keep_keys_unique, law_inquiry_record_keeps_keys_unique, law_inquiry_keeps_keys_unique,
    law_inquiry_resolve_keeps_keys_unique, law_spawn_keeps_keys_unique, law_new_router_keys_unique,
};
use crate::instance_router::{enqueue_all, fed_since};
use crate::text::{has_prefix, starts_with, str_eq};
use crate::wire::{HeartbeatInstance, WirePackage, str_member_or_empty, package_text, string_views, str_views, object_text, build_object, distinct};
use crate::feed::is_ignored_event;
use crate::instance_router::{event_type_of, after_receive};
use crate::channel::{try_send, new_uuid, oneshot_channel, oneshot_send};

verus! {

pub open spec fn has_agent_key(key: Seq<char>) -> spec_fn(AgentHostView) -> bool {
    |h: AgentHostView| h.agent_key == key
}

pub open spec fn hosts_instance(id: Seq<char>) -> spec_fn(AgentHostView) -> bool {
    |h: AgentHostView| position_of(h.routers, id) >= 0
}

/// The host of agent `key`, -1 when there is none.
pub open spec fn host_position(hosts: Seq<AgentHostView>, key: Seq<char>) -> int {
    first_index(hosts, has_agent_key(key))
}

/// The first host that runs instance `id`, -1 when none does.
pub open spec fn instance_host(hosts: Seq<AgentHostView>, id: Seq<char>) -> int {
    first_index(hosts, hosts_instance(id))
}

/// Hosts after spawning instance `id` of agent `key`; the host is created
/// on first use.
pub open spec fn hosts_after_spawn(hosts: Seq<AgentHostView>, key: Seq<char>, id: Seq<char>) -> Seq<AgentHostView> {
    let p = host_position(hosts, key);
    if p >= 0 {
        hosts.update(p, AgentHostView { routers: after_spawn(hosts[p].routers, id), ..hosts[p] })
    } else {
        hosts.push(AgentHostView { agent_key: key, routers: after_spawn(Seq::empty(), id) })
    }
}

/// Hosts after host `p` dispatched `event`.
pub open spec fn hosts_after_dispatch(hosts: Seq<AgentHostView>, p: int, event: String) -> Seq<AgentHostView> {
    hosts.update(p, AgentHostView { routers: after_dispatch(hosts[p].routers, event), ..hosts[p] })
}

pub open spec fn has_agent(key: Seq<char>) -> spec_fn((Seq<char>, Option<Seq<char>>)) -> bool {
    |e: (Seq<char>, Option<Seq<char>>)| e.0 == key
}

/// The supervisor the hierarchy names for agent `key`.
pub open spec fn supervisor_in(h: Seq<(Seq<char>, Option<Seq<char>>)>, key: Seq<char>) -> Option<Seq<char>> {
    let p = first_index(h, has_agent(key));
    if p >= 0 {
        h[p].1
    } else {
        None
    }
}

/// The router after a package was handed to the engine channel, when
/// one is connected.
pub open spec fn after_send(v: HostRouterView, pkg: Seq<char>) -> HostRouterView {
    if v.engine_connected {
        HostRouterView { to_engine: v.to_engine.push(pkg), ..v }
    } else {
        v
    }
}

/// The router after an inbound package from the engine: a spawn command
/// starts the instance and reports it; an agent event goes to the host
/// running its instance; anything else is ignored.
pub open spec fn after_route(v: HostRouterView, event: String) -> HostRouterView {
    let t = str_member_or_empty(event@, "type"@);
    let iid = str_member_or_empty(event@, "instance_id"@);
    if t == "connection.spawn_instance"@ {
        let ak = str_member_or_empty(event@, "agent_key"@);
        after_send(
            HostRouterView { hosts: hosts_after_spawn(v.hosts, ak, iid), ..v },
            package_text("agent.signal.instance_spawned"@, "instance_id"@, iid, "agent_key"@, ak),
        )
    } else if has_prefix(t, "agent."@) {
        let p = instance_host(v.hosts, iid);
        if p >= 0 {
            HostRouterView { hosts: hosts_after_dispatch(v.hosts, p, event), ..v }
        } else {
            v
        }
    } else {
        v
    }
}

// ── Chains ───────────────────────────────────────────────────────────────

pub open spec fn has_request_id(id: Seq<char>) -> spec_fn(LinkView) -> bool {
    |l: LinkView| l.request_id == id
}

/// Where the link of request `id` sits, -1 when there is none.
pub open spec fn link_position(links: Seq<LinkView>, id: Seq<char>) -> int {
    first_index(links, has_request_id(id))
}

/// Links after recording `l`, replacing a link of the same request.
pub open spec fn upsert_link(links: Seq<LinkView>, l: LinkView) -> Seq<LinkView> {
    let p = link_position(links, l.request_id);
    if p >= 0 {
        links.update(p, l)
    } else {
        links.push(l)
    }
}

pub open spec fn owns_chains(inst: Seq<char>) -> spec_fn((Seq<char>, Seq<Seq<char>>)) -> bool {
    |e: (Seq<char>, Seq<Seq<char>>)| e.0 == inst
}

pub open spec fn chain_entry(chains: Seq<(Seq<char>, Seq<Seq<char>>)>, inst: Seq<char>) -> int {
    first_index(chains, owns_chains(inst))
}

/// The requests that instance `inst` started and that are still open.
pub open spec fn chain_ids_of(chains: Seq<(Seq<char>, Seq<Seq<char>>)>, inst: Seq<char>) -> Seq<Seq<char>> {
    let p = chain_entry(chains, inst);
    if p >= 0 {
        chains[p].1
    } else {
        Seq::empty()
    }
}

pub open spec fn chains_after_append(
    chains: Seq<(Seq<char>, Seq<Seq<char>>)>,
    inst: Seq<char>,
    rid: Seq<char>,
) -> Seq<(Seq<char>, Seq<Seq<char>>)> {
    let p = chain_entry(chains, inst);
    if p >= 0 {
        chains.update(p, (inst, chains[p].1.push(rid)))
    } else {
        chains.push((inst, seq![rid]))
    }
}

/// `ids` without any occurrence of `rid`.
pub open spec fn without_id(ids: Seq<Seq<char>>, rid: Seq<char>) -> Seq<Seq<char>>
    decreases ids.len(),
{
    if ids.len() == 0 {
        ids
    } else if ids.last() == rid {
        without_id(ids.drop_last(), rid)
    } else {
        without_id(ids.drop_last(), rid).push(ids.last())
    }
}

/// The agent running instance `inst`, empty when no host runs it.
pub open spec fn agent_of_instance(hosts: Seq<AgentHostView>, inst: Seq<char>) -> Seq<char> {
    let p = instance_host(hosts, inst);
    if p >= 0 {
        hosts[p].agent_key
    } else {
        Seq::empty()
    }
}

/// The agent chain recorded for request `rid`.
pub open spec fn linked_chain(links: Seq<LinkView>, rid: Seq<char>) -> Seq<Seq<char>> {
    let p = link_position(links, rid);
    if p >= 0 {
        links[p].chain
    } else {
        Seq::empty()
    }
}

/// The chains of the requests `ids`, one after the other.
pub open spec fn inherited_chain(links: Seq<LinkView>, ids: Seq<Seq<char>>) -> Seq<Seq<char>>
    decreases ids.len(),
{
    if ids.len() == 0 {
        Seq::empty()
    } else {
        inherited_chain(links, ids.drop_last()) + linked_chain(links, ids.last())
    }
}

/// The chains of every link whose target is `agent`, in link order.
pub open spec fn chains_targeting(links: Seq<LinkView>, agent: Seq<char>) -> Seq<Seq<char>>
    decreases links.len(),
{
    if links.len() == 0 {
        Seq::empty()
    } else {
        chains_targeting(links.drop_last(), agent) + if links.last().target_agent == agent {
            links.last().chain
        } else {
            Seq::empty()
        }
    }
}

/// The agents an instance must not call: those on the chains it started,
/// those on every chain that called its agent, and its agent itself.
pub open spec fn visited_agents(v: HostRouterView, caller: Seq<char>) -> Seq<Seq<char>> {
    let own = inherited_chain(v.links, chain_ids_of(v.instance_chains, caller));
    let p = instance_host(v.hosts, caller);
    if p >= 0 {
        own + chains_targeting(v.links, v.hosts[p].agent_key) + seq![v.hosts[p].agent_key]
    } else {
        own
    }
}

// ── Conversations, talk_to and inquiries ────────────────────────────────

pub open spec fn same_pair(a: Seq<char>, b: Seq<char>) -> spec_fn((Seq<char>, Seq<char>, Seq<char>)) -> bool {
    |e: (Seq<char>, Seq<char>, Seq<char>)| e.0 == a && e.1 == b
}

pub open spec fn conversation_position(convs: Seq<(Seq<char>, Seq<char>, Seq<char>)>, a: Seq<char>, b: Seq<char>) -> int {
    first_index(convs, same_pair(a, b))
}

pub open spec fn upsert_conversation(
    convs: Seq<(Seq<char>, Seq<char>, Seq<char>)>,
    a: Seq<char>,
    b: Seq<char>,
    inst: Seq<char>,
) -> Seq<(Seq<char>, Seq<char>, Seq<char>)> {
    let p = conversation_position(convs, a, b);
    if p >= 0 {
        convs.update(p, (a, b, inst))
    } else {
        convs.push((a, b, inst))
    }
}

/// The instance a talk_to from `caller` to `target` goes to: the one it
/// talked to before when continuing, else the target's first instance,
/// else `<target>-0`.
pub open spec fn talk_target(v: HostRouterView, caller: Seq<char>, target: Seq<char>, cont: bool) -> Seq<char> {
    let c = conversation_position(v.conversations, caller, target);
    let hp = host_position(v.hosts, target);
    if cont && c >= 0 {
        v.conversations[c].2
    } else if hp >= 0 && v.hosts[hp].routers.len() > 0 {
        v.hosts[hp].routers[0].instance_id
    } else {
        target + "-0"@
    }
}

pub open spec fn talk_to_request_text(inst: Seq<char>, rid: Seq<char>, caller_agent: Seq<char>, text: Seq<char>) -> Seq<char> {
    object_text(
        seq!["type"@, "instance_id"@, "request_id"@, "caller_agent"@, "text"@],
        seq!["agent.event.talk_to.request"@, inst, rid, caller_agent, text],
    )
}

/// The effect of a talk_to request `rid` that passed the cycle check.
pub open spec fn talk_to_started(
    v: HostRouterView,
    f: HostRouterView,
    caller: Seq<char>,
    target: Seq<char>,
    text: Seq<char>,
    cont: bool,
    rid: Seq<char>,
) -> bool {
    let ca = agent_of_instance(v.hosts, caller);
    let chain = seq![ca] + inherited_chain(v.links, chain_ids_of(v.instance_chains, caller));
    let inst = talk_target(v, caller, target, cont);
    let hp = host_position(v.hosts, target);
    &&& f.links == upsert_link(
        v.links,
        LinkView {
            request_id: rid,
            caller_agent: ca,
            caller_instance: caller,
            target_agent: target,
            chain,
            has_waiter: true,
        },
    )
    &&& f.instance_chains == chains_after_append(v.instance_chains, caller, rid)
    &&& f.conversations == upsert_conversation(v.conversations, caller, target, inst)
    &&& if hp >= 0 {
        exists|ev: String| ev@ == talk_to_request_text(inst, rid, ca, text) && f.hosts == hosts_after_dispatch(v.hosts, hp, ev)
    } else {
        f.hosts == v.hosts
    }
    &&& f.hierarchy == v.hierarchy
    &&& f.bubbles == v.bubbles
    &&& f.engine_connected == v.engine_connected
    &&& f.to_engine == v.to_engine
    &&& f.replies == v.replies
}

pub open spec fn has_inquiry_id(id: Seq<char>) -> spec_fn(BubbleView) -> bool {
    |b: BubbleView| b.inquiry_id == id
}

pub open spec fn bubble_position(bubbles: Seq<BubbleView>, id: Seq<char>) -> int {
    first_index(bubbles, has_inquiry_id(id))
}

pub open spec fn upsert_bubble(bubbles: Seq<BubbleView>, b: BubbleView) -> Seq<BubbleView> {
    let p = bubble_position(bubbles, b.inquiry_id);
    if p >= 0 {
        bubbles.update(p, b)
    } else {
        bubbles.push(b)
    }
}

pub open spec fn registered_inquiry_text(inquiry_id: Seq<char>, instance_id: Seq<char>) -> Seq<char> {
    object_text(
        seq!["type"@, "inquiry_id"@, "instance_id"@],
        seq!["agent.event.inquiry.request"@, inquiry_id, instance_id],
    )
}

/// The inquiry as the asking instance raised it.
pub open spec fn inquiry_record_text(
    instance_id: Seq<char>,
    inquiry_id: Seq<char>,
    content: Seq<char>,
    priority: Seq<char>,
    suggestions: Seq<Seq<char>>,
    file_paths: Seq<Seq<char>>,
) -> Seq<char> {
    let base = object_text(
        seq!["type"@, "instance_id"@, "inquiry_id"@, "content_markdown"@, "priority"@],
        seq!["agent.event.inquiry.request"@, instance_id, inquiry_id, content, priority],
    );
    json_with_member(
        json_with_member(base, "suggestions"@, json_string_array_text(suggestions)).unwrap(),
        "file_paths"@,
        json_string_array_text(file_paths),
    ).unwrap()
}

/// The inquiry as a supervisor instance receives it.
pub open spec fn supervisor_inquiry_text(
    supervisor_instance: Seq<char>,
    inquiry_id: Seq<char>,
    from_agent: Seq<char>,
    content: Seq<char>,
    priority: Seq<char>,
    suggestions: Seq<Seq<char>>,
) -> Seq<char> {
    let base = object_text(
        seq!["type"@, "instance_id"@, "inquiry_id"@, "from_agent"@, "content_markdown"@, "priority"@],
        seq!["agent.event.inquiry.request"@, supervisor_instance, inquiry_id, from_agent, content, priority],
    );
    json_with_member(base, "suggestions"@, json_string_array_text(suggestions)).unwrap()
}

/// The host of the supervisor of `agent`, when it has an instance to ask.
pub open spec fn supervisor_host(v: HostRouterView, agent: Seq<char>) -> int {
    match supervisor_in(v.hierarchy, agent) {
        Some(s) => {
            let hp = host_position(v.hosts, s);
            if hp >= 0 && v.hosts[hp].routers.len() > 0 {
                hp
            } else {
                -1
            }
        },
        None => -1,
    }
}

/// The effect of raising inquiry `inquiry_id` from `instance_id`: it is
/// recorded, then asked of the supervisor's first instance, or else
/// relayed to the engine.
pub open spec fn inquiry_started(
    v: HostRouterView,
    f: HostRouterView,
    instance_id: Seq<char>,
    inquiry_id: Seq<char>,
    content: Seq<char>,
    suggestions: Seq<Seq<char>>,
    file_paths: Seq<Seq<char>>,
    priority: Seq<char>,
) -> bool {
    let ak = agent_of_instance(v.hosts, instance_id);
    let rec = inquiry_record_text(instance_id, inquiry_id, content, priority, suggestions, file_paths);
    let v1 = HostRouterView {
        bubbles: upsert_bubble(
            v.bubbles,
            BubbleView {
                inquiry_id,
                origin_agent_key: ak,
                origin_instance_id: instance_id,
                event: rec,
                has_waiter: true,
            },
        ),
        ..v
    };
    let hp = supervisor_host(v, ak);
    if hp >= 0 {
        exists|ev: String|
            ev@ == supervisor_inquiry_text(v.hosts[hp].routers[0].instance_id, inquiry_id, ak, content, priority, suggestions)
                && f == (HostRouterView { hosts: hosts_after_dispatch(v.hosts, hp, ev), ..v1 })
    } else {
        f == after_send(v1, rec)
    }
}

/// The router after request `rid` was answered with `response`: its link
/// goes, the caller's list of open requests drops it, and a waiting
/// caller gets the reply.
pub open spec fn after_resolve(v: HostRouterView, rid: Seq<char>, response: Seq<char>) -> HostRouterView {
    let p = link_position(v.links, rid);
    let l = v.links[p];
    let q = chain_entry(v.instance_chains, l.caller_instance);
    if p >= 0 {
        HostRouterView {
            links: v.links.remove(p),
            instance_chains: if q >= 0 {
                v.instance_chains.update(q, (v.instance_chains[q].0, without_id(v.instance_chains[q].1, rid)))
            } else {
                v.instance_chains
            },
            replies: if l.has_waiter { v.replies.push((rid, response)) } else { v.replies },
            ..v
        }
    } else {
        v
    }
}

/// The router of instance `iid`, as the first host running it holds it.
pub open spec fn instance_view(v: HostRouterView, iid: Seq<char>) -> InstanceRouterView {
    let p = instance_host(v.hosts, iid);
    v.hosts[p].routers[position_of(v.hosts[p].routers, iid)]
}

/// The router with instance `iid` replaced by `r`; unchanged when no host runs it.
pub open spec fn with_instance(v: HostRouterView, iid: Seq<char>, r: InstanceRouterView) -> HostRouterView {
    let p = instance_host(v.hosts, iid);
    let h = v.hosts[p];
    if p >= 0 {
        HostRouterView {
            hosts: v.hosts.update(p, AgentHostView { routers: h.routers.update(position_of(h.routers, iid), r), ..h }),
            ..v
        }
    } else {
        v
    }
}

/// The router after inquiry `id` was answered with `response`: the
/// pending inquiry goes and a waiting asker gets the reply.
pub open spec fn after_resolve_inquiry(v: HostRouterView, id: Seq<char>, response: Seq<char>) -> HostRouterView {
    let p = bubble_position(v.bubbles, id);
    if p >= 0 {
        HostRouterView {
            bubbles: v.bubbles.remove(p),
            replies: if v.bubbles[p].has_waiter { v.replies.push((id, response)) } else { v.replies },
            ..v
        }
    } else {
        v
    }
}

/// Every instance of every host, host by host.
pub open spec fn all_routers(hosts: Seq<AgentHostView>) -> Seq<InstanceRouterView>
    decreases hosts.len(),
{
    if hosts.len() == 0 {
        Seq::empty()
    } else {
        all_routers(hosts.drop_last()) + hosts.last().routers
    }
}

pub struct LinkView {
    pub request_id: Seq<char>,
    pub caller_agent: Seq<char>,
    pub caller_instance: Seq<char>,
    pub target_agent: Seq<char>,
    pub chain: Seq<Seq<char>>,
    /// A caller waits for the reply.
    pub has_waiter: bool,
}

pub struct BubbleView {
    pub inquiry_id: Seq<char>,
    pub origin_agent_key: Seq<char>,
    pub origin_instance_id: Seq<char>,
    pub event: Seq<char>,
    pub has_waiter: bool,
}

pub struct HostRouterView {
    pub hierarchy: Seq<(Seq<char>, Option<Seq<char>>)>,
    pub hosts: Seq<AgentHostView>,
    pub links: Seq<LinkView>,
    pub instance_chains: Seq<(Seq<char>, Seq<Seq<char>>)>,
    pub conversations: Seq<(Seq<char>, Seq<char>, Seq<char>)>,
    pub bubbles: Seq<BubbleView>,
    pub engine_connected: bool,
    /// Every package handed to the engine channel, in order.
    pub to_engine: Seq<Seq<char>>,
    /// Every reply handed to a waiting caller, as (request or inquiry id, reply).
    pub replies: Seq<(Seq<char>, Seq<char>)>,
}

struct ChainLink {
    request_id: String,
    caller_agent: String,
    caller_instance: String,
    target_agent: String,
    chain: Vec<String>,
    response_tx: Option<tokio::sync::oneshot::Sender<String>>,
}

struct PendingInquiryBubble {
    inquiry_id: String,
    origin_agent_key: String,
    origin_instance_id: String,
    event: String,
    response_tx: Option<tokio::sync::oneshot::Sender<String>>,
}

spec fn link_view(l: ChainLink) -> LinkView {
    LinkView {
        request_id: l.request_id@,
        caller_agent: l.caller_agent@,
        caller_instance: l.caller_instance@,
        target_agent: l.target_agent@,
        chain: string_views(l.chain@),
        has_waiter: l.response_tx is Some,
    }
}

spec fn bubble_view(b: PendingInquiryBubble) -> BubbleView {
    BubbleView {
        inquiry_id: b.inquiry_id@,
        origin_agent_key: b.origin_agent_key@,
        origin_instance_id: b.origin_instance_id@,
        event: b.event@,
        has_waiter: b.response_tx is Some,
    }
}

spec fn hosts_view(v: Seq<AgentHostRouter>) -> Seq<AgentHostView> {
    v.map_values(|h: AgentHostRouter| h@)
}

/// The router of one container.
pub struct HostRouter {
    hierarchy: Vec<(String, Option<String>)>,
    agent_hosts: Vec<AgentHostRouter>,
    chain_links: Vec<ChainLink>,
    instance_chains: Vec<(String, Vec<String>)>,
    conversation_instances: Vec<(String, String, String)>,
    pending_bubbles: Vec<PendingInquiryBubble>,
    engine_tx: Option<tokio::sync::mpsc::Sender<WirePackage>>,
    to_engine: Ghost<Seq<Seq<char>>>,
    replies: Ghost<Seq<(Seq<char>, Seq<char>)>>,
}

impl View for HostRouter {
    type V = HostRouterView;

    closed spec fn view(&self) -> HostRouterView {
        HostRouterView {
            hierarchy: hierarchy_view(self.hierarchy@),
            hosts: hosts_view(self.agent_hosts@),
            links: self.chain_links@.map_values(|l: ChainLink| link_view(l)),
            instance_chains: self.instance_chains@.map_values(
                |e: (String, Vec<String>)| (e.0@, string_views(e.1@)),
            ),
            conversations: self.conversation_instances@.map_values(
                |e: (String, String, String)| (e.0@, e.1@, e.2@),
            ),
            bubbles: self.pending_bubbles@.map_values(|b: PendingInquiryBubble| bubble_view(b)),
            engine_connected: self.engine_tx is Some,
            to_engine: self.to_engine@,
            replies: self.replies@,
        }
    }
}

proof fn lemma_hosts_view_update()
    ensures
        forall|s: Seq<AgentHostRouter>, i: int, h: AgentHostRouter| 0 <= i < s.len() ==> #[trigger] hosts_view(
            s.update(i, h),
        ) == hosts_view(s).update(i, h@),
        forall|s: Seq<AgentHostRouter>, h: AgentHostRouter| #[trigger] hosts_view(s.push(h)) == hosts_view(s).push(h@),
{
    assert forall|s: Seq<AgentHostRouter>, i: int, h: AgentHostRouter| 0 <= i < s.len() implies #[trigger] hosts_view(
        s.update(i, h),
    ) == hosts_view(s).update(i, h@) by {
        assert(hosts_view(s.update(i, h)) =~= hosts_view(s).update(i, h@));
    }
    assert forall|s: Seq<AgentHostRouter>, h: AgentHostRouter| #[trigger] hosts_view(s.push(h)) == hosts_view(
        s,
    ).push(h@) by {
        assert(hosts_view(s.push(h)) =~= hosts_view(s).push(h@));
    }
}

/// The member names of the events the router builds are distinct.
proof fn lemma_event_keys()
    ensures
        distinct(seq!["type"@, "instance_id"@, "request_id"@, "caller_agent"@, "text"@]),
        distinct(seq!["type"@, "inquiry_id"@, "instance_id"@]),
        distinct(seq!["type"@, "instance_id"@, "inquiry_id"@, "content_markdown"@, "priority"@]),
        distinct(seq!["type"@, "instance_id"@, "inquiry_id"@, "from_agent"@, "content_markdown"@, "priority"@]),
        distinct(seq!["type"@, "instance_id"@, "request_id"@]),
        "suggestions"@ != "type"@,
        "file_paths"@ != "type"@,
        "suggestions"@ != "instance_id"@,
        "suggestions"@ != "inquiry_id"@,
        "suggestions"@ != "from_agent"@,
        "suggestions"@ != "content_markdown"@,
        "suggestions"@ != "priority"@,
        "file_paths"@ != "instance_id"@,
        "file_paths"@ != "inquiry_id"@,
        "file_paths"@ != "content_markdown"@,
{
    reveal_strlit("type");
    reveal_strlit("instance_id");
    reveal_strlit("request_id");
    reveal_strlit("caller_agent");
    reveal_strlit("text");
    reveal_strlit("inquiry_id");
    reveal_strlit("content_markdown");
    reveal_strlit("priority");
    reveal_strlit("from_agent");
    reveal_strlit("suggestions");
    reveal_strlit("file_paths");
    assert("type"@.len() == 4 && "text"@.len() == 4 && "type"@[1] != "text"@[1]);
    assert("instance_id"@.len() == 11 && "suggestions"@.len() == 11);
    assert("request_id"@.len() == 10 && "inquiry_id"@.len() == 10 && "from_agent"@.len() == 10 && "file_paths"@.len() == 10);
    assert("request_id"@[0] != "inquiry_id"@[0] && "request_id"@[0] != "from_agent"@[0]);
    assert("inquiry_id"@[0] != "from_agent"@[0]);
    assert("caller_agent"@.len() == 12 && "content_markdown"@.len() == 16 && "priority"@.len() == 8);
    assert("suggestions"@[0] != "instance_id"@[0]);
    assert("file_paths"@[0] != "inquiry_id"@[0]);
}

/// A keep-alive leaves every instance as it was.
proof fn lemma_ignored_dispatch(hosts: Seq<AgentHostView>, h: int, ev: String)
    requires
        0 <= h < hosts.len(),
        json_str_member(ev@, "type"@) == Some("agent.event.request.alive"@),
    ensures
        hosts_after_dispatch(hosts, h, ev) == hosts,
{
    let routers = hosts[h].routers;
    let p = position_of(routers, str_member_or_empty(ev@, "instance_id"@));
    assert(is_ignored_event(event_type_of(ev@)));
    if p >= 0 {
        assert(routers.update(p, after_receive(routers[p], ev)) =~= routers);
    }
    assert(hosts_after_dispatch(hosts, h, ev) =~= hosts);
}

fn without(ids: &Vec<String>, rid: &str) -> (r: Vec<String>)
    ensures
        string_views(r@) == without_id(string_views(ids@), rid@),
{
    let ghost s = string_views(ids@);
    let mut out: Vec<String> = Vec::new();
    let mut i: usize = 0;
    assert(s.take(0) =~= Seq::<Seq<char>>::empty());
    while i < ids.len()
        invariant
            i <= ids@.len(),
            s == string_views(ids@),
            string_views(out@) == without_id(s.take(i as int), rid@),
        decreases ids@.len() - i,
    {
        proof {
            assert(s.take(i + 1).drop_last() =~= s.take(i as int));
            assert(s.take(i + 1).last() == ids@[i as int]@);
        }
        if !str_eq(ids[i].as_str(), rid) {
            let ghost prev = out@;
            out.push(ids[i].clone());
            assert(string_views(out@) =~= string_views(prev).push(ids@[i as int]@));
        }
        i += 1;
    }
    assert(s.take(i as int) =~= s);
    out
}

fn copy_strings(v: &Vec<String>) -> (r: Vec<String>)
    ensures
        string_views(r@) == string_views(v@),
{
    let mut out: Vec<String> = Vec::new();
    extend_strings(&mut out, v);
    assert(string_views(out@) =~= string_views(v@));
    out
}

fn extend_strings(out: &mut Vec<String>, v: &Vec<String>)
    ensures
        string_views(final(out)@) == string_views(old(out)@) + string_views(v@),
{
    let mut i: usize = 0;
    while i < v.len()
        invariant
            i <= v@.len(),
            string_views(out@) == string_views(old(out)@) + string_views(v@).take(i as int),
        decreases v@.len() - i,
    {
        let ghost prev = out@;
        let item = v[i].clone();
        out.push(item);
        assert(out@ == prev.push(v@[i as int]));
        assert(string_views(v@).take(i + 1) =~= string_views(v@).take(i as int).push(v@[i as int]@));
        assert(string_views(out@) =~= string_views(prev).push(v@[i as int]@));
        i += 1;
        assert(string_views(out@) =~= string_views(old(out)@) + string_views(v@).take(i as int));
    }
    assert(string_views(v@).take(i as int) =~= string_views(v@));
}

fn contains_str(v: &Vec<String>, s: &str) -> (r: bool)
    ensures
        r == string_views(v@).contains(s@),
{
    let mut i: usize = 0;
    while i < v.len()
        invariant
            i <= v@.len(),
            forall|j: int| 0 <= j < i ==> string_views(v@)[j] != s@,
        decreases v@.len() - i,
    {
        if str_eq(v[i].as_str(), s) {
            assert(string_views(v@)[i as int] == s@);
            return true;
        }
        i += 1;
    }
    false
}

/// Replacing the first host that runs `iid` by one that still runs it keeps
/// that host first.
proof fn lemma_instance_host_after_update(hosts: Seq<AgentHostView>, iid: Seq<char>, h: AgentHostView)
    requires
        instance_host(hosts, iid) >= 0,
        position_of(h.routers, iid) >= 0,
    ensures
        instance_host(hosts.update(instance_host(hosts, iid), h), iid) == instance_host(hosts, iid),
{
    lemma_first_index_after_upsert(hosts, hosts_instance(iid), h);
}

/// Replacing instance `iid` by a router of the same id leaves it found
/// under its id, as the new router.
pub proof fn lemma_instance_view_after_update(v: HostRouterView, iid: Seq<char>, x: InstanceRouterView)
    requires
        instance_host(v.hosts, iid) >= 0,
        x.instance_id == iid,
    ensures
        instance_host(with_instance(v, iid, x).hosts, iid) == instance_host(v.hosts, iid),
        instance_view(with_instance(v, iid, x), iid) == x,
        forall|k: Seq<char>| k != iid && instance_host(v.hosts, k) >= 0 ==> #[trigger] instance_view(with_instance(v, iid, x), k)
            == instance_view(v, k),
{
    let p = instance_host(v.hosts, iid);
    let h = v.hosts[p];
    lemma_first_index_range(v.hosts, hosts_instance(iid));
    lemma_first_index_range(h.routers, crate::agent_host::has_id(iid));
    lemma_first_index_after_upsert(h.routers, crate::agent_host::has_id(iid), x);
    let h2 = AgentHostView { routers: h.routers.update(position_of(h.routers, iid), x), ..h };
    lemma_instance_host_after_update(v.hosts, iid, h2);
    let w = with_instance(v, iid, x);
    let q = position_of(h.routers, iid);
    let r2 = h.routers.update(q, x);
    assert forall|k: Seq<char>| k != iid && instance_host(v.hosts, k) >= 0 implies #[trigger] instance_view(w, k) == instance_view(v, k) by {
        assert forall|j: int| 0 <= j < h.routers.len() implies crate::agent_host::has_id(k)(#[trigger] h.routers[j])
            == crate::agent_host::has_id(k)(r2[j]) by {
            if j == q {
                assert(h.routers[j].instance_id == iid);
            }
        }
        crate::lookup::lemma_first_index_same(h.routers, r2, crate::agent_host::has_id(k));
        assert forall|j: int| 0 <= j < v.hosts.len() implies hosts_instance(k)(#[trigger] v.hosts[j]) == hosts_instance(k)(
            w.hosts[j],
        ) by {
            if j != p {
                assert(w.hosts[j] == v.hosts[j]);
            }
        }
        crate::lookup::lemma_first_index_same(v.hosts, w.hosts, hosts_instance(k));
        let hk = instance_host(v.hosts, k);
        if hk == p {
            lemma_first_index_range(h.routers, crate::agent_host::has_id(k));
            let pk = position_of(h.routers, k);
            if pk >= 0 {
                assert(pk != q);
            }
        }
    }
}

/// Replacing instance `iid` by a router of the same id changes neither
/// which agent an instance belongs to nor where a supervisor is asked.
pub proof fn lemma_update_keeps_supervisor(v: HostRouterView, iid: Seq<char>, x: InstanceRouterView, inst: Seq<char>)
    requires
        instance_host(v.hosts, iid) >= 0,
        x.instance_id == iid,
    ensures
        agent_of_instance(with_instance(v, iid, x).hosts, inst) == agent_of_instance(v.hosts, inst),
        forall|k: Seq<char>| #[trigger] instance_host(with_instance(v, iid, x).hosts, k) == instance_host(v.hosts, k),
        forall|a: Seq<char>| #[trigger] supervisor_host(with_instance(v, iid, x), a) == supervisor_host(v, a),
        forall|j: int| 0 <= j < v.hosts.len() ==> #[trigger] with_instance(v, iid, x).hosts[j].routers.len()
            == v.hosts[j].routers.len(),
        forall|j: int| 0 <= j < v.hosts.len() && v.hosts[j].routers.len() > 0 ==> (#[trigger] with_instance(
            v,
            iid,
            x,
        ).hosts[j]).routers[0].instance_id == v.hosts[j].routers[0].instance_id,
{
    let p = instance_host(v.hosts, iid);
    let h = v.hosts[p];
    let w = with_instance(v, iid, x);
    lemma_first_index_range(h.routers, crate::agent_host::has_id(iid));
    lemma_first_index_range(v.hosts, hosts_instance(iid));
    let q = position_of(h.routers, iid);
    let r2 = h.routers.update(q, x);
    assert forall|k: Seq<char>| #[trigger] instance_host(w.hosts, k) == instance_host(v.hosts, k) by {
        assert forall|j: int| 0 <= j < h.routers.len() implies crate::agent_host::has_id(k)(#[trigger] h.routers[j])
            == crate::agent_host::has_id(k)(r2[j]) by {
            if j == q {
                assert(h.routers[j].instance_id == iid);
            }
        }
        crate::lookup::lemma_first_index_same(h.routers, r2, crate::agent_host::has_id(k));
        assert forall|j: int| 0 <= j < v.hosts.len() implies hosts_instance(k)(#[trigger] v.hosts[j]) == hosts_instance(k)(
            w.hosts[j],
        ) by {
            if j != p {
                assert(w.hosts[j] == v.hosts[j]);
            }
        }
        crate::lookup::lemma_first_index_same(v.hosts, w.hosts, hosts_instance(k));
    }
    assert(instance_host(w.hosts, inst) == instance_host(v.hosts, inst));
    assert forall|a: Seq<char>| #[trigger] host_position(w.hosts, a) == host_position(v.hosts, a) by {
        assert forall|j: int| 0 <= j < v.hosts.len() implies has_agent_key(a)(#[trigger] v.hosts[j]) == has_agent_key(a)(
            w.hosts[j],
        ) by {}
        crate::lookup::lemma_first_index_same(v.hosts, w.hosts, has_agent_key(a));
    }
    assert forall|a: Seq<char>| #[trigger] supervisor_host(w, a) == supervisor_host(v, a) by {
        match supervisor_in(v.hierarchy, a) {
            Some(sv) => {
                assert(host_position(w.hosts, sv) == host_position(v.hosts, sv));
            },
            None => {},
        }
    }
    assert forall|j: int| 0 <= j < v.hosts.len() && v.hosts[j].routers.len() > 0 implies (#[trigger] w.hosts[j]).routers[0].instance_id
        == v.hosts[j].routers[0].instance_id by {
        if j == p {
            if q == 0 {
                assert(h.routers[0].instance_id == iid);
            }
        }
    }
}

impl HostRouter {
    /// The items waiting for the agent of instance `iid`, oldest first; none
    /// when no host runs it.
    pub closed spec fn feed_of(&self, iid: Seq<char>) -> Seq<FeedItem> {
        let p = instance_host(self@.hosts, iid);
        if p >= 0 {
            self.agent_hosts@[p].feed_of(iid)
        } else {
            Seq::empty()
        }
    }

    /// A host runs instance `iid` and its agent's items are taken out
    /// through this router (`take_feed_item`).
    pub closed spec fn feed_ready(&self, iid: Seq<char>) -> bool {
        let p = instance_host(self@.hosts, iid);
        p >= 0 && self.agent_hosts@[p].feed_ready(iid)
    }

    /// An instance whose items are taken out here runs on some host.
    pub proof fn lemma_ready_is_hosted(&self, iid: Seq<char>)
        ensures
            self.feed_ready(iid) ==> instance_host(self@.hosts, iid) >= 0,
    {
    }

    /// A router for the agents of a run, with the supervision hierarchy
    /// they imply; no instances yet.
    pub fn new(agents_meta: Vec<(String, AgentMeta)>) -> (r: HostRouter)
        requires
            names_distinct(agents_meta@),
        ensures
            r@.hierarchy == hierarchy_of(agents_meta@),
            r@.hosts.len() == 0,
            r@.links.len() == 0,
            r@.instance_chains.len() == 0,
            r@.conversations.len() == 0,
            r@.bubbles.len() == 0,
            !r@.engine_connected,
            r@.to_engine.len() == 0,
            r@.replies.len() == 0,
            keys_unique(r@),
    {
        let hierarchy = supervision_of(&agents_meta);
        let r = HostRouter {
            hierarchy,
            agent_hosts: Vec::new(),
            chain_links: Vec::new(),
            instance_chains: Vec::new(),
            conversation_instances: Vec::new(),
            pending_bubbles: Vec::new(),
            engine_tx: None,
            to_engine: Ghost(Seq::empty()),
            replies: Ghost(Seq::empty()),
        };
        proof { law_new_router_keys_unique(r@, agents_meta@); }
        r
    }

    /// Connects the channel that carries packages to the engine.
    pub fn set_engine_tx(&mut self, tx: tokio::sync::mpsc::Sender<WirePackage>)
        ensures
            forall|k: Seq<char>| #[trigger] final(self).feed_of(k) == old(self).feed_of(k),
            forall|k: Seq<char>| #[trigger] final(self).feed_ready(k) == old(self).feed_ready(k),
            keys_unique(old(self)@) ==> keys_unique(final(self)@),
            final(self)@ == (HostRouterView { engine_connected: true, ..old(self)@ }),
    {
        self.engine_tx = Some(tx);
    }

    fn find_host(&self, agent_key: &str) -> (r: Option<usize>)
        ensures
            match r {
                Some(i) => i == host_position(self@.hosts, agent_key@) && i < self@.hosts.len(),
                None => host_position(self@.hosts, agent_key@) == -1,
            },
    {
        let ghost hosts = self@.hosts;
        let ghost p = has_agent_key(agent_key@);
        let mut i: usize = 0;
        while i < self.agent_hosts.len()
            invariant
                i <= self.agent_hosts@.len(),
                hosts == hosts_view(self.agent_hosts@),
                p == has_agent_key(agent_key@),
                forall|j: int| 0 <= j < i ==> !p(#[trigger] hosts[j]),
            decreases self.agent_hosts@.len() - i,
        {
            if str_eq(self.agent_hosts[i].agent_key(), agent_key) {
                proof {
                    assert(is_first(hosts, p, i as int));
                    lemma_first_index_is(hosts, p, i as int);
                }
                return Some(i);
            }
            i += 1;
        }
        proof { lemma_first_index_none(hosts, p); }
        None
    }

    fn find_instance_host(&self, instance_id: &str) -> (r: Option<usize>)
        ensures
            match r {
                Some(i) => i == instance_host(self@.hosts, instance_id@) && i < self@.hosts.len(),
                None => instance_host(self@.hosts, instance_id@) == -1,
            },
    {
        let ghost hosts = self@.hosts;
        let ghost p = hosts_instance(instance_id@);
        let mut i: usize = 0;
        while i < self.agent_hosts.len()
            invariant
                i <= self.agent_hosts@.len(),
                hosts == hosts_view(self.agent_hosts@),
                p == hosts_instance(instance_id@),
                forall|j: int| 0 <= j < i ==> !p(#[trigger] hosts[j]),
            decreases self.agent_hosts@.len() - i,
        {
            if self.agent_hosts[i].instance_state(instance_id).is_some() {
                proof {
                    assert(is_first(hosts, p, i as int));
                    lemma_first_index_is(hosts, p, i as int);
                }
                return Some(i);
            }
            i += 1;
        }
        proof { lemma_first_index_none(hosts, p); }
        None
    }

    /// Starts instance `instance_id` of agent `agent_key`.
    pub fn spawn_instance(&mut self, agent_key: &str, instance_id: &str, history: Vec<String>)
        ensures
            keys_unique(old(self)@) ==> keys_unique(final(self)@),
            final(self)@ == (HostRouterView {
                hosts: hosts_after_spawn(old(self)@.hosts, agent_key@, instance_id@),
                ..old(self)@
            }),
            instance_host(old(self)@.hosts, instance_id@) == -1 ==> final(self).feed_ready(instance_id@)
                && final(self).feed_of(instance_id@) == Seq::<FeedItem>::empty(),
            forall|k: Seq<char>| k != instance_id@ ==> #[trigger] final(self).feed_of(k) == old(self).feed_of(k),
            forall|k: Seq<char>| k != instance_id@ ==> #[trigger] final(self).feed_ready(k) == old(self).feed_ready(k),
    {
        proof {
            lemma_hosts_view_update();
            lemma_first_index_range(old(self)@.hosts, hosts_instance(instance_id@));
            if keys_unique(self@) {
                law_spawn_keeps_keys_unique(self@, agent_key@, instance_id@);
            }
        }
        let ghost iid = instance_id@;
        match self.find_host(agent_key) {
            Some(i) => {
                let mut host = self.agent_hosts.remove(i);
                host.spawn_instance(String::from_str(instance_id), history);
                let ghost after = host;
                self.agent_hosts.insert(i, host);
                assert(self.agent_hosts@ =~= old(self).agent_hosts@.update(i as int, after));
                assert(self@.hosts =~= hosts_after_spawn(old(self)@.hosts, agent_key@, instance_id@));
                proof {
                    let h1 = old(self)@.hosts;
                    let h2 = self@.hosts;
                    assert forall|k: Seq<char>|
                        #![trigger self.feed_of(k)]
                        #![trigger self.feed_ready(k)]
                        k != iid implies self.feed_of(k) == old(self).feed_of(k) && self.feed_ready(k) == old(self).feed_ready(k) by {
                        crate::agent_host::lemma_spawn_keeps_others(h1[i as int].routers, iid, k);
                        assert forall|j: int| 0 <= j < h1.len() implies hosts_instance(k)(#[trigger] h1[j]) == hosts_instance(k)(h2[j]) by {
                            if j != i {
                                assert(h2[j] == h1[j]);
                            }
                        }
                        crate::lookup::lemma_first_index_same(h1, h2, hosts_instance(k));
                        let q = instance_host(h1, k);
                        if q >= 0 && q != i {
                            assert(self.agent_hosts@[q] == old(self).agent_hosts@[q]);
                        }
                    }
                    if instance_host(old(self)@.hosts, iid) == -1 {
                        lemma_first_index_after_upsert(Seq::<InstanceRouterView>::empty(), crate::agent_host::has_id(iid), crate::instance_router::fresh_router(iid));
                        lemma_first_index_after_upsert(old(self)@.hosts[i as int].routers, crate::agent_host::has_id(iid), crate::instance_router::fresh_router(iid));
                        assert(is_first(self@.hosts, hosts_instance(iid), i as int)) by {
                            assert forall|j: int| 0 <= j < i implies !hosts_instance(iid)(#[trigger] self@.hosts[j]) by {
                                assert(self@.hosts[j] == old(self)@.hosts[j]);
                            }
                        }
                        lemma_first_index_is(self@.hosts, hosts_instance(iid), i as int);
                    }
                }
            },
            None => {
                let mut host = AgentHostRouter::new(String::from_str(agent_key));
                host.spawn_instance(String::from_str(instance_id), history);
                let ghost after = host;
                self.agent_hosts.push(host);
                assert(self.agent_hosts@ =~= old(self).agent_hosts@.push(after));
                proof {
                    let h1 = old(self)@.hosts;
                    let h2 = self@.hosts;
                    assert forall|k: Seq<char>|
                        #![trigger self.feed_of(k)]
                        #![trigger self.feed_ready(k)]
                        k != iid implies self.feed_of(k) == old(self).feed_of(k) && self.feed_ready(k) == old(self).feed_ready(k) by {
                        crate::agent_host::lemma_spawn_keeps_others(Seq::<InstanceRouterView>::empty(), iid, k);
                        lemma_first_index_range(h1, hosts_instance(k));
                        let q = instance_host(h1, k);
                        if q >= 0 {
                            assert(is_first(h2, hosts_instance(k), q)) by {
                                assert forall|j: int| 0 <= j < q implies !hosts_instance(k)(#[trigger] h2[j]) by {
                                    assert(h2[j] == h1[j]);
                                }
                                assert(h2[q] == h1[q]);
                            }
                            lemma_first_index_is(h2, hosts_instance(k), q);
                            assert(self.agent_hosts@[q] == old(self).agent_hosts@[q]);
                        } else {
                            assert forall|j: int| 0 <= j < h2.len() implies !hosts_instance(k)(#[trigger] h2[j]) by {
                                if j < h1.len() {
                                    assert(h2[j] == h1[j]);
                                }
                            }
                            lemma_first_index_none(h2, hosts_instance(k));
                        }
                    }
                    if instance_host(old(self)@.hosts, iid) == -1 {
                        let n = old(self)@.hosts.len() as int;
                        lemma_first_index_after_upsert(Seq::<InstanceRouterView>::empty(), crate::agent_host::has_id(iid), crate::instance_router::fresh_router(iid));
                        assert(is_first(self@.hosts, hosts_instance(iid), n)) by {
                            assert forall|j: int| 0 <= j < n implies !hosts_instance(iid)(#[trigger] self@.hosts[j]) by {
                                assert(self@.hosts[j] == old(self)@.hosts[j]);
                            }
                        }
                        lemma_first_index_is(self@.hosts, hosts_instance(iid), n);
                    }
                }
            },
        }
    }

    pub fn instance_exists(&self, instance_id: &str) -> (r: bool)
        ensures
            r == (instance_host(self@.hosts, instance_id@) >= 0),
    {
        self.find_instance_host(instance_id).is_some()
    }

    /// The agent whose host runs the instance.
    pub fn agent_key_for_instance(&self, instance_id: &str) -> (r: Option<String>)
        ensures
            ({
                let p = instance_host(self@.hosts, instance_id@);
                r.deep_view() == if p >= 0 { Some(self@.hosts[p].agent_key) } else { None::<Seq<char>> }
            }),
    {
        match self.find_instance_host(instance_id) {
            Some(i) => Some(String::from_str(self.agent_hosts[i].agent_key())),
            None => None,
        }
    }

    pub fn get_instance_router(&self, instance_id: &str) -> (r: Option<&InstanceRouter>)
        ensures
            ({
                let p = instance_host(self@.hosts, instance_id@);
                match r {
                    Some(router) => p >= 0 && router@ == self@.hosts[p].routers[position_of(
                        self@.hosts[p].routers,
                        instance_id@,
                    )],
                    None => p == -1,
                }
            }),
    {
        match self.find_instance_host(instance_id) {
            Some(i) => self.agent_hosts[i].get_instance_router(instance_id),
            None => None,
        }
    }

    /// The router of an instance, for driving its lifecycle.
    pub fn get_instance_router_mut(&mut self, instance_id: &str) -> (r: Option<&mut InstanceRouter>)
        ensures
            keys_unique(old(self)@) ==> keys_unique(final(self)@),
            match r {
                Some(router) => instance_host(old(self)@.hosts, instance_id@) >= 0 && router@ == instance_view(
                    old(self)@,
                    instance_id@,
                ) && final(self)@ == with_instance(old(self)@, instance_id@, final(router)@)
                    && old(self).feed_of(instance_id@) == router.feed_queue() && old(self).feed_ready(instance_id@)
                    == router.hosted() && (final(router)@.instance_id == instance_id@ ==> {
                    &&& final(self).feed_of(instance_id@) == final(router).feed_queue()
                    &&& final(self).feed_ready(instance_id@) == final(router).hosted()
                    &&& forall|k: Seq<char>|
                        #![trigger final(self).feed_of(k)]
                        #![trigger final(self).feed_ready(k)]
                        k != instance_id@ ==> final(self).feed_of(k) == old(self).feed_of(k) && final(self).feed_ready(k)
                            == old(self).feed_ready(k)
                }),
                None => instance_host(old(self)@.hosts, instance_id@) == -1 && final(self)@ == old(self)@ && forall|
                    k: Seq<char>,
                |
                    #![trigger final(self).feed_of(k)]
                    #![trigger final(self).feed_ready(k)]
                    final(self).feed_of(k) == old(self).feed_of(k) && final(self).feed_ready(k) == old(self).feed_ready(k),
            },
    {
        proof { lemma_hosts_view_update(); }
        match self.find_instance_host(instance_id) {
            Some(i) => {
                proof {
                    let hosts = old(self)@.hosts;
                    let id = instance_id@;
                    let h = hosts[i as int];
                    let p = position_of(h.routers, id);
                    lemma_first_index_range(hosts, hosts_instance(id));
                    lemma_first_index_range(h.routers, crate::agent_host::has_id(id));
                    assert forall|x: InstanceRouterView, k: Seq<char>| x.instance_id == id implies #[trigger] instance_host(
                        hosts.update(i as int, AgentHostView { routers: h.routers.update(p, x), ..h }),
                        k,
                    ) == instance_host(hosts, k) by {
                        let hs2 = hosts.update(i as int, AgentHostView { routers: h.routers.update(p, x), ..h });
                        let r2 = h.routers.update(p, x);
                        assert forall|j: int| 0 <= j < h.routers.len() implies crate::agent_host::has_id(k)(
                            #[trigger] h.routers[j],
                        ) == crate::agent_host::has_id(k)(r2[j]) by {
                            if j == p {
                                assert(h.routers[j].instance_id == id);
                            }
                        }
                        crate::lookup::lemma_first_index_same(h.routers, r2, crate::agent_host::has_id(k));
                        assert forall|j: int| 0 <= j < hosts.len() implies hosts_instance(k)(#[trigger] hosts[j]) == hosts_instance(
                            k,
                        )(hs2[j]) by {
                            if j != i {
                                assert(hs2[j] == hosts[j]);
                            }
                        }
                        crate::lookup::lemma_first_index_same(hosts, hs2, hosts_instance(k));
                    }
                }
                self.agent_hosts[i].get_instance_router_mut(instance_id)
            },
            None => None,
        }
    }

    /// The supervisor of agent `agent_key`, none for a root or an unknown agent.
    pub fn supervisor_for(&self, agent_key: &str) -> (r: Option<String>)
        ensures
            r.deep_view() == supervisor_in(self@.hierarchy, agent_key@),
    {
        let ghost h = self@.hierarchy;
        let ghost p = has_agent(agent_key@);
        let mut i: usize = 0;
        while i < self.hierarchy.len()
            invariant
                i <= self.hierarchy@.len(),
                h == hierarchy_view(self.hierarchy@),
                p == has_agent(agent_key@),
                forall|j: int| 0 <= j < i ==> !p(#[trigger] h[j]),
            decreases self.hierarchy@.len() - i,
        {
            if str_eq(self.hierarchy[i].0.as_str(), agent_key) {
                proof {
                    assert(is_first(h, p, i as int));
                    lemma_first_index_is(h, p, i as int);
                }
                return match &self.hierarchy[i].1 {
                    Some(s) => Some(s.clone()),
                    None => None,
                };
            }
            i += 1;
        }
        proof { lemma_first_index_none(h, p); }
        None
    }

    /// Hands a package to the engine channel; a full channel drops it.
    pub fn send_to_engine(&mut self, pkg: WirePackage)
        ensures
            keys_unique(old(self)@) ==> keys_unique(final(self)@),
            final(self)@ == after_send(old(self)@, pkg@),
            forall|k: Seq<char>| #[trigger] final(self).feed_of(k) == old(self).feed_of(k),
            forall|k: Seq<char>| #[trigger] final(self).feed_ready(k) == old(self).feed_ready(k),
    {
        let ghost text = pkg@;
        match &self.engine_tx {
            Some(tx) => {
                let _accepted = try_send(tx, pkg);
                self.to_engine = Ghost(self.to_engine@.push(text));
            },
            None => {},
        }
    }

    /// Relays an agent's output (JSON text) to the engine when it is a package.
    pub fn relay_output(&mut self, event: String)
        ensures
            keys_unique(old(self)@) ==> keys_unique(final(self)@),
            final(self)@ == if json_has_member(event@, "type"@) { after_send(old(self)@, event@) } else { old(self)@ },
            forall|k: Seq<char>| #[trigger] final(self).feed_of(k) == old(self).feed_of(k),
            forall|k: Seq<char>| #[trigger] final(self).feed_ready(k) == old(self).feed_ready(k),
    {
        match WirePackage::from_json(event) {
            Ok(pkg) => self.send_to_engine(pkg),
            Err(_) => {},
        }
    }

    /// Routes one package (JSON text) that came from the engine.
    pub fn route_from_engine(&mut self, event: String)
        ensures
            keys_unique(old(self)@) ==> keys_unique(final(self)@),
            final(self)@ == after_route(old(self)@, event),
            ({
                let t = str_member_or_empty(event@, "type"@);
                let iid = str_member_or_empty(event@, "instance_id"@);
                t != "connection.spawn_instance"@ && has_prefix(t, "agent."@) && instance_host(old(self)@.hosts, iid)
                    >= 0 ==> {
                    &&& final(self).feed_ready(iid) == old(self).feed_ready(iid)
                    &&& old(self).feed_ready(iid) ==> final(self).feed_of(iid) == enqueue_all(
                        old(self).feed_of(iid),
                        fed_since(instance_view(old(self)@, iid), instance_view(final(self)@, iid)),
                    )
                }
            }),
            forall|k: Seq<char>| k != str_member_or_empty(event@, "instance_id"@) ==> #[trigger] final(self).feed_of(k)
                == old(self).feed_of(k),
            forall|k: Seq<char>| k != str_member_or_empty(event@, "instance_id"@) ==> #[trigger] final(self).feed_ready(k)
                == old(self).feed_ready(k),
    {
        proof {
            if keys_unique(self@) {
                law_route_keeps_keys_unique(self@, event);
            }
        }
        proof { lemma_hosts_view_update(); }
        let pkg_type = match get_str_member(event.as_str(), "type") {
            Some(t) => t,
            None => String::new(),
        };
        let instance_id = match get_str_member(event.as_str(), "instance_id") {
            Some(t) => t,
            None => String::new(),
        };
        if str_eq(pkg_type.as_str(), "connection.spawn_instance") {
            let agent_key = match get_str_member(event.as_str(), "agent_key") {
                Some(t) => t,
                None => String::new(),
            };
            let history = get_array_member(event.as_str(), "history");
            self.spawn_instance(agent_key.as_str(), instance_id.as_str(), history);
            self.send_to_engine(WirePackage::instance_spawned(agent_key.as_str(), instance_id.as_str()));
        } else if starts_with(pkg_type.as_str(), "agent.") {
            match self.find_instance_host(instance_id.as_str()) {
                Some(i) => {
                    let mut host = self.agent_hosts.remove(i);
                    host.dispatch(event);
                    let ghost after = host;
                    self.agent_hosts.insert(i, host);
                    assert(self.agent_hosts@ =~= old(self).agent_hosts@.update(i as int, after));
                    assert(self@.hosts =~= hosts_after_dispatch(old(self)@.hosts, i as int, event));
                    proof {
                        let iid = instance_id@;
                        let h0 = old(self)@.hosts[i as int];
                        let q = position_of(h0.routers, iid);
                        lemma_first_index_range(h0.routers, crate::agent_host::has_id(iid));
                        lemma_first_index_after_upsert(
                            h0.routers,
                            crate::agent_host::has_id(iid),
                            after_receive(h0.routers[q], event),
                        );
                        lemma_instance_host_after_update(old(self)@.hosts, iid, after@);
                        let h1 = old(self)@.hosts;
                        let h2 = self@.hosts;
                        assert forall|k: Seq<char>|
                            #![trigger self.feed_of(k)]
                            #![trigger self.feed_ready(k)]
                            k != iid implies self.feed_of(k) == old(self).feed_of(k) && self.feed_ready(k) == old(
                                self,
                            ).feed_ready(k) by {
                            let r1 = h1[i as int].routers;
                            let r2 = h2[i as int].routers;
                            assert forall|j: int| 0 <= j < r1.len() implies crate::agent_host::has_id(k)(#[trigger] r1[j])
                                == crate::agent_host::has_id(k)(r2[j]) by {
                                assert(r2[j].instance_id == r1[j].instance_id);
                            }
                            crate::lookup::lemma_first_index_same(r1, r2, crate::agent_host::has_id(k));
                            assert forall|j: int| 0 <= j < h1.len() implies hosts_instance(k)(#[trigger] h1[j]) == hosts_instance(
                                k,
                            )(h2[j]) by {
                                if j != i {
                                    assert(h2[j] == h1[j]);
                                }
                            }
                            crate::lookup::lemma_first_index_same(h1, h2, hosts_instance(k));
                            let q = instance_host(h1, k);
                            if q >= 0 && q != i {
                                assert(self.agent_hosts@[q] == old(self).agent_hosts@[q]);
                            }
                        }
                    }
                },
                None => {},
            }
        }
    }

    fn find_link(&self, request_id: &str) -> (r: Option<usize>)
        ensures
            match r {
                Some(i) => i == link_position(self@.links, request_id@) && i < self@.links.len(),
                None => link_position(self@.links, request_id@) == -1,
            },
    {
        let ghost links = self@.links;
        let ghost p = has_request_id(request_id@);
        let mut i: usize = 0;
        while i < self.chain_links.len()
            invariant
                i <= self.chain_links@.len(),
                links == self.chain_links@.map_values(|l: ChainLink| link_view(l)),
                p == has_request_id(request_id@),
                forall|j: int| 0 <= j < i ==> !p(#[trigger] links[j]),
            decreases self.chain_links@.len() - i,
        {
            if str_eq(self.chain_links[i].request_id.as_str(), request_id) {
                proof {
                    assert(is_first(links, p, i as int));
                    lemma_first_index_is(links, p, i as int);
                }
                return Some(i);
            }
            i += 1;
        }
        proof { lemma_first_index_none(links, p); }
        None
    }

    fn find_chain_entry(&self, inst: &str) -> (r: Option<usize>)
        ensures
            match r {
                Some(i) => i == chain_entry(self@.instance_chains, inst@) && i < self@.instance_chains.len(),
                None => chain_entry(self@.instance_chains, inst@) == -1,
            },
    {
        let ghost chains = self@.instance_chains;
        let ghost p = owns_chains(inst@);
        let mut i: usize = 0;
        while i < self.instance_chains.len()
            invariant
                i <= self.instance_chains@.len(),
                chains == self.instance_chains@.map_values(|e: (String, Vec<String>)| (e.0@, string_views(e.1@))),
                p == owns_chains(inst@),
                forall|j: int| 0 <= j < i ==> !p(#[trigger] chains[j]),
            decreases self.instance_chains@.len() - i,
        {
            if str_eq(self.instance_chains[i].0.as_str(), inst) {
                proof {
                    assert(is_first(chains, p, i as int));
                    lemma_first_index_is(chains, p, i as int);
                }
                return Some(i);
            }
            i += 1;
        }
        proof { lemma_first_index_none(chains, p); }
        None
    }

    fn upsert_link_exec(&mut self, link: ChainLink)
        ensures
            final(self).agent_hosts == old(self).agent_hosts,
            final(self)@ == (HostRouterView { links: upsert_link(old(self)@.links, link_view(link)), ..old(self)@ }),
    {
        let ghost lv = link_view(link);
        match self.find_link(link.request_id.as_str()) {
            Some(i) => {
                self.chain_links.set(i, link);
            },
            None => {
                self.chain_links.push(link);
            },
        }
        assert(self@.links =~= upsert_link(old(self)@.links, lv));
    }

    fn append_chain(&mut self, inst: &str, rid: &str)
        ensures
            final(self).agent_hosts == old(self).agent_hosts,
            final(self)@ == (HostRouterView {
                instance_chains: chains_after_append(old(self)@.instance_chains, inst@, rid@),
                ..old(self)@
            }),
    {
        match self.find_chain_entry(inst) {
            Some(i) => {
                let (key, mut ids) = self.instance_chains.remove(i);
                let ghost old_ids = ids@;
                ids.push(String::from_str(rid));
                assert(string_views(ids@) =~= string_views(old_ids).push(rid@));
                self.instance_chains.insert(i, (key, ids));
            },
            None => {
                let mut ids: Vec<String> = Vec::new();
                ids.push(String::from_str(rid));
                assert(string_views(ids@) =~= seq![rid@]);
                self.instance_chains.push((String::from_str(inst), ids));
            },
        }
        assert(self@.instance_chains =~= chains_after_append(old(self)@.instance_chains, inst@, rid@));
    }

    fn chain_ids(&self, inst: &str) -> (r: Vec<String>)
        ensures
            string_views(r@) == chain_ids_of(self@.instance_chains, inst@),
    {
        match self.find_chain_entry(inst) {
            Some(i) => copy_strings(&self.instance_chains[i].1),
            None => Vec::new(),
        }
    }

    fn inherited(&self, caller: &str) -> (r: Vec<String>)
        ensures
            string_views(r@) == inherited_chain(self@.links, chain_ids_of(self@.instance_chains, caller@)),
    {
        let ids = self.chain_ids(caller);
        let ghost idv = string_views(ids@);
        let mut out: Vec<String> = Vec::new();
        let mut i: usize = 0;
        assert(idv.take(0) =~= Seq::<Seq<char>>::empty());
        while i < ids.len()
            invariant
                i <= ids@.len(),
                idv == string_views(ids@),
                string_views(out@) == inherited_chain(self@.links, idv.take(i as int)),
            decreases ids@.len() - i,
        {
            match self.find_link(ids[i].as_str()) {
                Some(k) => extend_strings(&mut out, &self.chain_links[k].chain),
                None => {},
            }
            proof {
                assert(idv.take(i + 1).drop_last() =~= idv.take(i as int));
                assert(idv.take(i + 1).last() == ids@[i as int]@);
            }
            i += 1;
        }
        assert(idv.take(i as int) =~= idv);
        out
    }

    fn targeting(&self, agent: &str) -> (r: Vec<String>)
        ensures
            string_views(r@) == chains_targeting(self@.links, agent@),
    {
        let ghost links = self@.links;
        let mut out: Vec<String> = Vec::new();
        let mut i: usize = 0;
        assert(links.take(0) =~= Seq::<LinkView>::empty());
        while i < self.chain_links.len()
            invariant
                i <= self.chain_links@.len(),
                links == self.chain_links@.map_values(|l: ChainLink| link_view(l)),
                string_views(out@) == chains_targeting(links.take(i as int), agent@),
            decreases self.chain_links@.len() - i,
        {
            if str_eq(self.chain_links[i].target_agent.as_str(), agent) {
                extend_strings(&mut out, &self.chain_links[i].chain);
            }
            proof {
                assert(links.take(i + 1).drop_last() =~= links.take(i as int));
                assert(string_views(out@) =~= chains_targeting(links.take(i + 1), agent@));
            }
            i += 1;
        }
        assert(links.take(i as int) =~= links);
        out
    }

    /// Records that request `request_id` of `caller_instance` calls
    /// `target_agent` along `chain`; no caller waits for its reply.
    pub fn add_chain_link(&mut self, request_id: &str, caller_instance: &str, target_agent: &str, chain: Vec<String>)
        ensures
            forall|k: Seq<char>| #[trigger] final(self).feed_of(k) == old(self).feed_of(k),
            forall|k: Seq<char>| #[trigger] final(self).feed_ready(k) == old(self).feed_ready(k),
            keys_unique(old(self)@) ==> keys_unique(final(self)@),
            final(self)@ == (HostRouterView {
                links: upsert_link(
                    old(self)@.links,
                    LinkView {
                        request_id: request_id@,
                        caller_agent: agent_of_instance(old(self)@.hosts, caller_instance@),
                        caller_instance: caller_instance@,
                        target_agent: target_agent@,
                        chain: string_views(chain@),
                        has_waiter: false,
                    },
                ),
                instance_chains: chains_after_append(old(self)@.instance_chains, caller_instance@, request_id@),
                ..old(self)@
            }),
    {
        proof {
            if keys_unique(self@) {
                law_link_record_keeps_keys_unique(
                    self@,
                    LinkView {
                        request_id: request_id@,
                        caller_agent: agent_of_instance(self@.hosts, caller_instance@),
                        caller_instance: caller_instance@,
                        target_agent: target_agent@,
                        chain: string_views(chain@),
                        has_waiter: false,
                    },
                );
            }
        }
        let caller_agent = match self.agent_key_for_instance(caller_instance) {
            Some(a) => a,
            None => String::new(),
        };
        let link = ChainLink {
            request_id: String::from_str(request_id),
            caller_agent,
            caller_instance: String::from_str(caller_instance),
            target_agent: String::from_str(target_agent),
            chain,
            response_tx: None,
        };
        self.upsert_link_exec(link);
        self.append_chain(caller_instance, request_id);
    }

    /// The instance waits on a request it started.
    pub fn has_active_chain(&self, instance_id: &str) -> (r: bool)
        ensures
            r == (chain_ids_of(self@.instance_chains, instance_id@).len() > 0),
    {
        match self.find_chain_entry(instance_id) {
            Some(i) => self.instance_chains[i].1.len() > 0,
            None => false,
        }
    }

    /// Calling `target_agent` from `caller_instance_id` would close a loop.
    pub fn would_create_cycle(&self, caller_instance_id: &str, target_agent: &str) -> (r: bool)
        ensures
            r == visited_agents(self@, caller_instance_id@).contains(target_agent@),
    {
        let caller_agent = self.agent_key_for_instance(caller_instance_id);
        let mut visited = self.inherited(caller_instance_id);
        let ghost p = instance_host(self@.hosts, caller_instance_id@);
        match caller_agent {
            Some(agent) => {
                assert(p >= 0 && agent@ == self@.hosts[p].agent_key);
                let mut via = self.targeting(agent.as_str());
                let ghost v0 = visited@;
                let ghost w0 = via@;
                visited.append(&mut via);
                assert(string_views(visited@) =~= string_views(v0) + string_views(w0));
                let ghost v1 = visited@;
                visited.push(agent);
                assert(string_views(visited@) =~= string_views(v1).push(self@.hosts[instance_host(
                    self@.hosts,
                    caller_instance_id@,
                )].agent_key));
            },
            None => {
                assert(p == -1);
            },
        }
        assert(string_views(visited@) == visited_agents(self@, caller_instance_id@));
        contains_str(&visited, target_agent)
    }

    fn find_conversation(&self, a: &str, b: &str) -> (r: Option<usize>)
        ensures
            match r {
                Some(i) => i == conversation_position(self@.conversations, a@, b@) && i < self@.conversations.len(),
                None => conversation_position(self@.conversations, a@, b@) == -1,
            },
    {
        let ghost convs = self@.conversations;
        let ghost p = same_pair(a@, b@);
        let mut i: usize = 0;
        while i < self.conversation_instances.len()
            invariant
                i <= self.conversation_instances@.len(),
                convs == self.conversation_instances@.map_values(|e: (String, String, String)| (e.0@, e.1@, e.2@)),
                p == same_pair(a@, b@),
                forall|j: int| 0 <= j < i ==> !p(#[trigger] convs[j]),
            decreases self.conversation_instances@.len() - i,
        {
            if str_eq(self.conversation_instances[i].0.as_str(), a) && str_eq(self.conversation_instances[i].1.as_str(), b) {
                proof {
                    assert(is_first(convs, p, i as int));
                    lemma_first_index_is(convs, p, i as int);
                }
                return Some(i);
            }
            i += 1;
        }
        proof { lemma_first_index_none(convs, p); }
        None
    }

    fn talk_target_exec(&self, caller: &str, target: &str, cont: bool) -> (r: String)
        ensures
            r@ == talk_target(self@, caller@, target@, cont),
    {
        if cont {
            match self.find_conversation(caller, target) {
                Some(c) => return self.conversation_instances[c].2.clone(),
                None => {},
            }
        }
        match self.find_host(target) {
            Some(h) => {
                let ids = self.agent_hosts[h].instance_ids();
                proof {
                    assert(ids.deep_view().len() == ids@.len());
                    assert(self@.hosts[h as int].routers.map_values(|r: InstanceRouterView| r.instance_id).len()
                        == self@.hosts[h as int].routers.len());
                }
                if ids.len() > 0 {
                    assert(ids.deep_view()[0] == ids@[0]@);
                    assert(self@.hosts[h as int].routers.map_values(|r: InstanceRouterView| r.instance_id)[0]
                        == self@.hosts[h as int].routers[0].instance_id);
                    return ids[0].clone();
                }
            },
            None => {},
        }
        String::from_str(target).concat("-0")
    }

    fn remember_conversation(&mut self, a: &str, b: &str, inst: String)
        ensures
            final(self).agent_hosts == old(self).agent_hosts,
            final(self)@ == (HostRouterView {
                conversations: upsert_conversation(old(self)@.conversations, a@, b@, inst@),
                ..old(self)@
            }),
    {
        let entry = (String::from_str(a), String::from_str(b), inst);
        match self.find_conversation(a, b) {
            Some(i) => {
                self.conversation_instances.set(i, entry);
            },
            None => {
                self.conversation_instances.push(entry);
            },
        }
        assert(self@.conversations =~= upsert_conversation(old(self)@.conversations, a@, b@, inst@));
    }

    fn dispatch_to_host(&mut self, i: usize, event: String)
        requires
            i < old(self)@.hosts.len(),
        ensures
            forall|k: Seq<char>| k != str_member_or_empty(event@, "instance_id"@) ==> #[trigger] final(self).feed_of(k)
                == old(self).feed_of(k),
            forall|k: Seq<char>| k != str_member_or_empty(event@, "instance_id"@) ==> #[trigger] final(self).feed_ready(k)
                == old(self).feed_ready(k),
            final(self)@ == (HostRouterView { hosts: hosts_after_dispatch(old(self)@.hosts, i as int, event), ..old(self)@ }),
            ({
                let t = str_member_or_empty(event@, "instance_id"@);
                i == instance_host(old(self)@.hosts, t) ==> {
                    &&& final(self).feed_ready(t) == old(self).feed_ready(t)
                    &&& old(self).feed_ready(t) ==> final(self).feed_of(t) == enqueue_all(
                        old(self).feed_of(t),
                        fed_since(instance_view(old(self)@, t), instance_view(final(self)@, t)),
                    )
                }
            }),
    {
        proof { lemma_hosts_view_update(); }
        let ghost iid = str_member_or_empty(event@, "instance_id"@);
        let mut host = self.agent_hosts.remove(i);
        host.dispatch(event);
        let ghost after = host;
        self.agent_hosts.insert(i, host);
        assert(self.agent_hosts@ =~= old(self).agent_hosts@.update(i as int, after));
        assert(self@.hosts =~= hosts_after_dispatch(old(self)@.hosts, i as int, event));
        proof {
            let h1 = old(self)@.hosts;
            let h2 = self@.hosts;
            assert forall|k: Seq<char>|
                #![trigger self.feed_of(k)]
                #![trigger self.feed_ready(k)]
                k != iid implies self.feed_of(k) == old(self).feed_of(k) && self.feed_ready(k) == old(self).feed_ready(k) by {
                let r1 = h1[i as int].routers;
                let r2 = h2[i as int].routers;
                assert forall|j: int| 0 <= j < r1.len() implies crate::agent_host::has_id(k)(#[trigger] r1[j])
                    == crate::agent_host::has_id(k)(r2[j]) by {
                    assert(r2[j].instance_id == r1[j].instance_id);
                }
                crate::lookup::lemma_first_index_same(r1, r2, crate::agent_host::has_id(k));
                assert forall|j: int| 0 <= j < h1.len() implies hosts_instance(k)(#[trigger] h1[j]) == hosts_instance(k)(
                    h2[j],
                ) by {
                    if j != i {
                        assert(h2[j] == h1[j]);
                    }
                }
                crate::lookup::lemma_first_index_same(h1, h2, hosts_instance(k));
                let q = instance_host(h1, k);
                if q >= 0 && q != i {
                    assert(self.agent_hosts@[q] == old(self).agent_hosts@[q]);
                }
            }
            if i == instance_host(h1, iid) {
                let h0 = h1[i as int];
                let q = position_of(h0.routers, iid);
                lemma_first_index_range(h1, hosts_instance(iid));
                lemma_first_index_range(h0.routers, crate::agent_host::has_id(iid));
                lemma_first_index_after_upsert(h0.routers, crate::agent_host::has_id(iid), after_receive(h0.routers[q], event));
                lemma_instance_host_after_update(h1, iid, after@);
            }
        }
    }

    /// Starts a talk_to from `caller_instance_id` to `target_agent` unless
    /// that would close a loop or the caller is unknown. The request is
    /// recorded as a chain link and delivered to the target instance; the
    /// receiver gets the reply once `resolve_talk_to` is called.
    pub fn initiate_talk_to(
        &mut self,
        caller_instance_id: &str,
        target_agent: &str,
        text: &str,
        continue_conversation: bool,
    ) -> (r: Result<(String, tokio::sync::oneshot::Receiver<String>), String>)
        ensures
            r is Ok ==> ({
                let inst = talk_target(old(self)@, caller_instance_id@, target_agent@, continue_conversation);
                let hp = host_position(old(self)@.hosts, target_agent@);
                hp >= 0 && hp == instance_host(old(self)@.hosts, inst) ==> {
                    &&& final(self).feed_ready(inst) == old(self).feed_ready(inst)
                    &&& old(self).feed_ready(inst) ==> final(self).feed_of(inst) == enqueue_all(
                        old(self).feed_of(inst),
                        fed_since(instance_view(old(self)@, inst), instance_view(final(self)@, inst)),
                    )
                }
            }),
            forall|k: Seq<char>| k != talk_target(old(self)@, caller_instance_id@, target_agent@, continue_conversation)
                ==> #[trigger] final(self).feed_of(k) == old(self).feed_of(k),
            forall|k: Seq<char>| k != talk_target(old(self)@, caller_instance_id@, target_agent@, continue_conversation)
                ==> #[trigger] final(self).feed_ready(k) == old(self).feed_ready(k),
            keys_unique(old(self)@) ==> keys_unique(final(self)@),
            visited_agents(old(self)@, caller_instance_id@).contains(target_agent@) ==> final(self)@ == old(self)@
                && (r matches Err(e) && e@ == "cycle_detected"@),
            !visited_agents(old(self)@, caller_instance_id@).contains(target_agent@) && instance_host(
                old(self)@.hosts,
                caller_instance_id@,
            ) == -1 ==> final(self)@ == old(self)@ && (r matches Err(e) && e@ == "caller_not_found"@),
            r is Ok <==> !visited_agents(old(self)@, caller_instance_id@).contains(target_agent@) && instance_host(
                old(self)@.hosts,
                caller_instance_id@,
            ) >= 0,
            r matches Ok((rid, _)) ==> rid@.len() == 36 && talk_to_started(
                old(self)@,
                final(self)@,
                caller_instance_id@,
                target_agent@,
                text@,
                continue_conversation,
                rid@,
            ),
            r matches Ok((rid, _)) ==> ({
                let inst = talk_target(old(self)@, caller_instance_id@, target_agent@, continue_conversation);
                let ev = talk_to_request_text(inst, rid@, agent_of_instance(old(self)@.hosts, caller_instance_id@), text@);
                &&& json_str_member(ev, "type"@) == Some("agent.event.talk_to.request"@)
                &&& json_str_member(ev, "instance_id"@) == Some(inst)
                &&& json_str_member(ev, "request_id"@) == Some(rid@)
                &&& json_str_member(ev, "text"@) == Some(text@)
            }),
    {
        if self.would_create_cycle(caller_instance_id, target_agent) {
            return Err(String::from_str("cycle_detected"));
        }
        let caller_agent = match self.agent_key_for_instance(caller_instance_id) {
            Some(a) => a,
            None => return Err(String::from_str("caller_not_found")),
        };
        let ghost v = self@;
        assert(caller_agent@ == agent_of_instance(v.hosts, caller_instance_id@));
        let request_id = new_uuid();
        let mut chain: Vec<String> = Vec::new();
        chain.push(caller_agent.clone());
        let inherited = self.inherited(caller_instance_id);
        extend_strings(&mut chain, &inherited);
        assert(string_views(chain@) =~= seq![caller_agent@] + string_views(inherited@));
        let (tx, rx) = oneshot_channel();
        let link = ChainLink {
            request_id: request_id.clone(),
            caller_agent: caller_agent.clone(),
            caller_instance: String::from_str(caller_instance_id),
            target_agent: String::from_str(target_agent),
            chain,
            response_tx: Some(tx),
        };
        self.upsert_link_exec(link);
        self.append_chain(caller_instance_id, request_id.as_str());
        let target_instance = self.talk_target_exec(caller_instance_id, target_agent, continue_conversation);
        assert(target_instance@ == talk_target(v, caller_instance_id@, target_agent@, continue_conversation));
        self.remember_conversation(caller_instance_id, target_agent, target_instance.clone());
        let keys: Vec<&str> = vec!["type", "instance_id", "request_id", "caller_agent", "text"];
        let values: Vec<String> = vec![
            String::from_str("agent.event.talk_to.request"),
            target_instance,
            request_id.clone(),
            caller_agent,
            String::from_str(text),
        ];
        let event = build_object(&keys, &values);
        proof {
            lemma_event_keys();
            assert(keys@[0]@ == "type"@ && keys@[1]@ == "instance_id"@ && keys@[2]@ == "request_id"@ && keys@[4]@ == "text"@);
            assert(str_views(keys@) =~= seq!["type"@, "instance_id"@, "request_id"@, "caller_agent"@, "text"@]);
            assert(string_views(values@) =~= seq![
                "agent.event.talk_to.request"@,
                talk_target(v, caller_instance_id@, target_agent@, continue_conversation),
                request_id@,
                agent_of_instance(v.hosts, caller_instance_id@),
                text@,
            ]);
        }
        let ghost ev = event;
        let ghost before_dispatch = self@;
        match self.find_host(target_agent) {
            Some(h) => {
                self.dispatch_to_host(h, event);
                assert(ev@ == talk_to_request_text(
                    talk_target(v, caller_instance_id@, target_agent@, continue_conversation),
                    request_id@,
                    agent_of_instance(v.hosts, caller_instance_id@),
                    text@,
                ));
                assert(self@.hosts == hosts_after_dispatch(v.hosts, h as int, ev));
            },
            None => {},
        }
        assert(self@.links == upsert_link(
            v.links,
            LinkView {
                request_id: request_id@,
                caller_agent: agent_of_instance(v.hosts, caller_instance_id@),
                caller_instance: caller_instance_id@,
                target_agent: target_agent@,
                chain: seq![agent_of_instance(v.hosts, caller_instance_id@)] + inherited_chain(
                    v.links,
                    chain_ids_of(v.instance_chains, caller_instance_id@),
                ),
                has_waiter: true,
            },
        ));
        assert(self@.instance_chains == chains_after_append(v.instance_chains, caller_instance_id@, request_id@));
        proof {
            if keys_unique(v) {
                law_talk_to_keeps_keys_unique(
                    v,
                    self@,
                    caller_instance_id@,
                    target_agent@,
                    text@,
                    continue_conversation,
                    request_id@,
                );
            }
        }
        Ok((request_id, rx))
    }

    /// Waits again on an open request: a fresh receiver replaces the old one.
    pub fn resume_wait(&mut self, instance_id: &str, request_id: &str) -> (r: Result<tokio::sync::oneshot::Receiver<String>, String>)
        ensures
            forall|k: Seq<char>| #[trigger] final(self).feed_of(k) == old(self).feed_of(k),
            forall|k: Seq<char>| #[trigger] final(self).feed_ready(k) == old(self).feed_ready(k),
            keys_unique(old(self)@) ==> keys_unique(final(self)@),
            ({
                let p = link_position(old(self)@.links, request_id@);
                if p >= 0 {
                    r is Ok && final(self)@ == (HostRouterView {
                        links: old(self)@.links.update(p, LinkView { has_waiter: true, ..old(self)@.links[p] }),
                        ..old(self)@
                    })
                } else {
                    final(self)@ == old(self)@ && (r matches Err(e) && e@ == "no_pending_request"@)
                }
            }),
    {
        proof {
            if keys_unique(self@) {
                law_resume_and_resolve_keep_keys_unique(self@, request_id@, Seq::empty());
            }
        }
        match self.find_link(request_id) {
            Some(i) => {
                let (tx, rx) = oneshot_channel();
                let mut link = self.chain_links.remove(i);
                link.response_tx = Some(tx);
                self.chain_links.insert(i, link);
                assert(self@.links =~= old(self)@.links.update(i as int, LinkView { has_waiter: true, ..old(self)@.links[i as int] }));
                Ok(rx)
            },
            None => Err(String::from_str("no_pending_request")),
        }
    }

    /// Closes request `request_id`: its link goes, the caller's list of
    /// open requests drops it, and a waiting caller gets `response`.
    pub fn resolve_talk_to(&mut self, request_id: &str, response: String)
        ensures
            forall|k: Seq<char>| #[trigger] final(self).feed_of(k) == old(self).feed_of(k),
            forall|k: Seq<char>| #[trigger] final(self).feed_ready(k) == old(self).feed_ready(k),
            keys_unique(old(self)@) ==> keys_unique(final(self)@),
            final(self)@ == after_resolve(old(self)@, request_id@, response@),
    {
        proof {
            if keys_unique(self@) {
                law_resume_and_resolve_keep_keys_unique(self@, request_id@, response@);
            }
        }
        let ghost v = self@;
        match self.find_link(request_id) {
            Some(i) => {
                let link = self.chain_links.remove(i);
                assert(self@.links =~= v.links.remove(i as int));
                match self.find_chain_entry(link.caller_instance.as_str()) {
                    Some(q) => {
                        let (key, ids) = self.instance_chains.remove(q);
                        let kept = without(&ids, request_id);
                        self.instance_chains.insert(q, (key, kept));
                        assert(self@.instance_chains =~= v.instance_chains.update(
                            q as int,
                            (v.instance_chains[q as int].0, without_id(v.instance_chains[q as int].1, request_id@)),
                        ));
                    },
                    None => {},
                }
                match link.response_tx {
                    Some(tx) => {
                        let ghost reply = (request_id@, response@);
                        let _delivered = oneshot_send(tx, response);
                        self.replies = Ghost(self.replies@.push(reply));
                    },
                    None => {},
                }
            },
            None => {},
        }
    }

    fn find_bubble(&self, inquiry_id: &str) -> (r: Option<usize>)
        ensures
            match r {
                Some(i) => i == bubble_position(self@.bubbles, inquiry_id@) && i < self@.bubbles.len(),
                None => bubble_position(self@.bubbles, inquiry_id@) == -1,
            },
    {
        let ghost bubbles = self@.bubbles;
        let ghost p = has_inquiry_id(inquiry_id@);
        let mut i: usize = 0;
        while i < self.pending_bubbles.len()
            invariant
                i <= self.pending_bubbles@.len(),
                bubbles == self.pending_bubbles@.map_values(|b: PendingInquiryBubble| bubble_view(b)),
                p == has_inquiry_id(inquiry_id@),
                forall|j: int| 0 <= j < i ==> !p(#[trigger] bubbles[j]),
            decreases self.pending_bubbles@.len() - i,
        {
            if str_eq(self.pending_bubbles[i].inquiry_id.as_str(), inquiry_id) {
                proof {
                    assert(is_first(bubbles, p, i as int));
                    lemma_first_index_is(bubbles, p, i as int);
                }
                return Some(i);
            }
            i += 1;
        }
        proof { lemma_first_index_none(bubbles, p); }
        None
    }

    fn upsert_bubble_exec(&mut self, bubble: PendingInquiryBubble)
        ensures
            final(self).agent_hosts == old(self).agent_hosts,
            final(self)@ == (HostRouterView { bubbles: upsert_bubble(old(self)@.bubbles, bubble_view(bubble)), ..old(self)@ }),
    {
        let ghost bv = bubble_view(bubble);
        match self.find_bubble(bubble.inquiry_id.as_str()) {
            Some(i) => {
                self.pending_bubbles.set(i, bubble);
            },
            None => {
                self.pending_bubbles.push(bubble);
            },
        }
        assert(self@.bubbles =~= upsert_bubble(old(self)@.bubbles, bv));
    }

    /// Records an inquiry raised by `instance_id` of `agent_key`; the reply,
    /// when it comes, goes to `response_tx`.
    pub fn register_pending_inquiry(
        &mut self,
        inquiry_id: &str,
        agent_key: &str,
        instance_id: &str,
        response_tx: Option<tokio::sync::oneshot::Sender<String>>,
    )
        ensures
            forall|k: Seq<char>| #[trigger] final(self).feed_of(k) == old(self).feed_of(k),
            forall|k: Seq<char>| #[trigger] final(self).feed_ready(k) == old(self).feed_ready(k),
            keys_unique(old(self)@) ==> keys_unique(final(self)@),
            final(self)@ == (HostRouterView {
                bubbles: upsert_bubble(
                    old(self)@.bubbles,
                    BubbleView {
                        inquiry_id: inquiry_id@,
                        origin_agent_key: agent_key@,
                        origin_instance_id: instance_id@,
                        event: registered_inquiry_text(inquiry_id@, instance_id@),
                        has_waiter: response_tx is Some,
                    },
                ),
                ..old(self)@
            }),
    {
        proof {
            if keys_unique(self@) {
                law_inquiry_record_keeps_keys_unique(
                    self@,
                    BubbleView {
                        inquiry_id: inquiry_id@,
                        origin_agent_key: agent_key@,
                        origin_instance_id: instance_id@,
                        event: registered_inquiry_text(inquiry_id@, instance_id@),
                        has_waiter: response_tx is Some,
                    },
                );
            }
        }
        let keys: Vec<&str> = vec!["type", "inquiry_id", "instance_id"];
        let values: Vec<String> = vec![
            String::from_str("agent.event.inquiry.request"),
            String::from_str(inquiry_id),
            String::from_str(instance_id),
        ];
        let event = build_object(&keys, &values);
        proof {
            assert(str_views(keys@) =~= seq!["type"@, "inquiry_id"@, "instance_id"@]);
            assert(string_views(values@) =~= seq!["agent.event.inquiry.request"@, inquiry_id@, instance_id@]);
        }
        let bubble = PendingInquiryBubble {
            inquiry_id: String::from_str(inquiry_id),
            origin_agent_key: String::from_str(agent_key),
            origin_instance_id: String::from_str(instance_id),
            event,
            response_tx,
        };
        self.upsert_bubble_exec(bubble);
    }

    /// Answers a pending inquiry: it is removed and a waiting asker gets
    /// `response`. False when no such inquiry is pending.
    pub fn resolve_inquiry(&mut self, inquiry_id: &str, response: String) -> (r: bool)
        ensures
            forall|k: Seq<char>| #[trigger] final(self).feed_of(k) == old(self).feed_of(k),
            forall|k: Seq<char>| #[trigger] final(self).feed_ready(k) == old(self).feed_ready(k),
            keys_unique(old(self)@) ==> keys_unique(final(self)@),
            r == (bubble_position(old(self)@.bubbles, inquiry_id@) >= 0),
            final(self)@ == after_resolve_inquiry(old(self)@, inquiry_id@, response@),
    {
        proof {
            if keys_unique(self@) {
                law_inquiry_resolve_keeps_keys_unique(self@, inquiry_id@, response@);
            }
        }
        let ghost v = self@;
        match self.find_bubble(inquiry_id) {
            Some(i) => {
                let bubble = self.pending_bubbles.remove(i);
                assert(self@.bubbles =~= v.bubbles.remove(i as int));
                match bubble.response_tx {
                    Some(tx) => {
                        let ghost reply = (inquiry_id@, response@);
                        let _delivered = oneshot_send(tx, response);
                        self.replies = Ghost(self.replies@.push(reply));
                    },
                    None => {},
                }
                true
            },
            None => false,
        }
    }

    /// Raises inquiry `inquiry_id` for `instance_id`. It bubbles to the
    /// first instance of the asking agent's supervisor, or to the engine
    /// when there is none; the receiver gets the reply once
    /// `resolve_inquiry` is called.
    pub fn initiate_inquiry(
        &mut self,
        instance_id: &str,
        inquiry_id: &str,
        content_markdown: &str,
        suggestions: &[String],
        file_paths: &[String],
        priority: &str,
    ) -> (r: tokio::sync::oneshot::Receiver<String>)
        ensures
            ({
                let hp = supervisor_host(old(self)@, agent_of_instance(old(self)@.hosts, instance_id@));
                let sup = old(self)@.hosts[hp].routers[0].instance_id;
                hp >= 0 && hp == instance_host(old(self)@.hosts, sup) ==> {
                    &&& final(self).feed_ready(sup) == old(self).feed_ready(sup)
                    &&& old(self).feed_ready(sup) ==> final(self).feed_of(sup) == enqueue_all(
                        old(self).feed_of(sup),
                        fed_since(instance_view(old(self)@, sup), instance_view(final(self)@, sup)),
                    )
                }
            }),
            ({
                let hp = supervisor_host(old(self)@, agent_of_instance(old(self)@.hosts, instance_id@));
                forall|k: Seq<char>|
                    (hp < 0 || k != old(self)@.hosts[hp].routers[0].instance_id) ==> #[trigger] final(self).feed_of(k)
                        == old(self).feed_of(k) && final(self).feed_ready(k) == old(self).feed_ready(k)
            }),
            keys_unique(old(self)@) ==> keys_unique(final(self)@),
            inquiry_started(
                old(self)@,
                final(self)@,
                instance_id@,
                inquiry_id@,
                content_markdown@,
                string_views(suggestions@),
                string_views(file_paths@),
                priority@,
            ),
            ({
                let ak = agent_of_instance(old(self)@.hosts, instance_id@);
                let hp = supervisor_host(old(self)@, ak);
                let ev = supervisor_inquiry_text(
                    old(self)@.hosts[hp].routers[0].instance_id,
                    inquiry_id@,
                    ak,
                    content_markdown@,
                    priority@,
                    string_views(suggestions@),
                );
                hp >= 0 ==> {
                    &&& json_str_member(ev, "type"@) == Some("agent.event.inquiry.request"@)
                    &&& json_str_member(ev, "instance_id"@) == Some(old(self)@.hosts[hp].routers[0].instance_id)
                    &&& json_str_member(ev, "inquiry_id"@) == Some(inquiry_id@)
                    &&& json_str_member(ev, "from_agent"@) == Some(ak)
                    &&& json_str_member(ev, "content_markdown"@) == Some(content_markdown@)
                    &&& json_str_member(ev, "priority"@) == Some(priority@)
                }
            }),
            ({
                let rec = inquiry_record_text(
                    instance_id@,
                    inquiry_id@,
                    content_markdown@,
                    priority@,
                    string_views(suggestions@),
                    string_views(file_paths@),
                );
                &&& json_str_member(rec, "type"@) == Some("agent.event.inquiry.request"@)
                &&& json_str_member(rec, "instance_id"@) == Some(instance_id@)
                &&& json_str_member(rec, "inquiry_id"@) == Some(inquiry_id@)
                &&& json_str_member(rec, "content_markdown"@) == Some(content_markdown@)
            }),
    {
        proof { lemma_event_keys(); }
        let ghost v = self@;
        let (tx, rx) = oneshot_channel();
        let agent_key = match self.agent_key_for_instance(instance_id) {
            Some(a) => a,
            None => String::new(),
        };
        assert(agent_key@ == agent_of_instance(v.hosts, instance_id@));
        let sugg = string_array_of(suggestions);
        let files = string_array_of(file_paths);
        let keys: Vec<&str> = vec!["type", "instance_id", "inquiry_id", "content_markdown", "priority"];
        let values: Vec<String> = vec![
            String::from_str("agent.event.inquiry.request"),
            String::from_str(instance_id),
            String::from_str(inquiry_id),
            String::from_str(content_markdown),
            String::from_str(priority),
        ];
        let base = build_object(&keys, &values);
        proof {
            assert(str_views(keys@) =~= seq!["type"@, "instance_id"@, "inquiry_id"@, "content_markdown"@, "priority"@]);
            assert(string_views(values@) =~= seq![
                "agent.event.inquiry.request"@,
                instance_id@,
                inquiry_id@,
                content_markdown@,
                priority@,
            ]);
            assert(keys@[0]@ == "type"@);
        }
        let with_sugg = with_member(base.as_str(), "suggestions", sugg.as_str()).unwrap();
        let record = with_member(with_sugg.as_str(), "file_paths", files.as_str()).unwrap();
        proof {
            assert(json_is_value(with_sugg@));
            assert(json_is_value(record@));
            assert(distinct(str_views(keys@)));
            assert(json_str_member(base@, keys@[0]@) == Some(values@[0]@));
            assert(json_str_member(base@, keys@[1]@) == Some(values@[1]@));
            assert(json_str_member(base@, keys@[2]@) == Some(values@[2]@));
            assert(json_str_member(base@, keys@[3]@) == Some(values@[3]@));
        }
        assert(json_has_member(record@, "type"@));
        let bubble = PendingInquiryBubble {
            inquiry_id: String::from_str(inquiry_id),
            origin_agent_key: agent_key.clone(),
            origin_instance_id: String::from_str(instance_id),
            event: record.clone(),
            response_tx: Some(tx),
        };
        self.upsert_bubble_exec(bubble);
        let ghost v1 = self@;
        match self.supervisor_for(agent_key.as_str()) {
            Some(supervisor) => {
                match self.find_host(supervisor.as_str()) {
                    Some(h) => {
                        let ids = self.agent_hosts[h].instance_ids();
                        proof {
                            assert(ids.deep_view().len() == ids@.len());
                            assert(self@.hosts[h as int].routers.map_values(|r: InstanceRouterView| r.instance_id).len()
                                == self@.hosts[h as int].routers.len());
                        }
                        if ids.len() > 0 {
                            proof {
                                assert(ids.deep_view()[0] == ids@[0]@);
                                assert(self@.hosts[h as int].routers.map_values(|r: InstanceRouterView| r.instance_id)[0]
                                    == self@.hosts[h as int].routers[0].instance_id);
                            }
                            let skeys: Vec<&str> = vec![
                                "type",
                                "instance_id",
                                "inquiry_id",
                                "from_agent",
                                "content_markdown",
                                "priority",
                            ];
                            let svalues: Vec<String> = vec![
                                String::from_str("agent.event.inquiry.request"),
                                ids[0].clone(),
                                String::from_str(inquiry_id),
                                agent_key,
                                String::from_str(content_markdown),
                                String::from_str(priority),
                            ];
                            let sbase = build_object(&skeys, &svalues);
                            proof {
                                assert(str_views(skeys@) =~= seq![
                                    "type"@,
                                    "instance_id"@,
                                    "inquiry_id"@,
                                    "from_agent"@,
                                    "content_markdown"@,
                                    "priority"@,
                                ]);
                                assert(string_views(svalues@) =~= seq![
                                    "agent.event.inquiry.request"@,
                                    v.hosts[h as int].routers[0].instance_id,
                                    inquiry_id@,
                                    agent_of_instance(v.hosts, instance_id@),
                                    content_markdown@,
                                    priority@,
                                ]);
                            }
                            let event = with_member(sbase.as_str(), "suggestions", sugg.as_str()).unwrap();
                            let ghost ev = event;
                            proof {
                                assert(json_is_value(event@));
                                assert(distinct(str_views(skeys@)));
                                assert(json_str_member(sbase@, skeys@[0]@) == Some(svalues@[0]@));
                                assert(json_str_member(sbase@, skeys@[1]@) == Some(svalues@[1]@));
                                assert(json_str_member(sbase@, skeys@[2]@) == Some(svalues@[2]@));
                                assert(json_str_member(sbase@, skeys@[3]@) == Some(svalues@[3]@));
                                assert(json_str_member(sbase@, skeys@[4]@) == Some(svalues@[4]@));
                                assert(json_str_member(sbase@, skeys@[5]@) == Some(svalues@[5]@));
                            }
                            self.dispatch_to_host(h, event);
                            assert(self@ == (HostRouterView { hosts: hosts_after_dispatch(v.hosts, h as int, ev), ..v1 }));
                            proof {
                                if keys_unique(v) {
                                    law_inquiry_keeps_keys_unique(
                    v,
                    self@,
                    instance_id@,
                    inquiry_id@,
                    content_markdown@,
                    string_views(suggestions@),
                    string_views(file_paths@),
                    priority@,
                );
                                }
                            }
                            return rx;
                        }
                    },
                    None => {},
                }
            },
            None => {},
        }
        self.relay_output(record);
        proof {
            if keys_unique(v) {
                law_inquiry_keeps_keys_unique(
                    v,
                    self@,
                    instance_id@,
                    inquiry_id@,
                    content_markdown@,
                    string_views(suggestions@),
                    string_views(file_paths@),
                    priority@,
                );
            }
        }
        rx
    }

    /// Sends a keep-alive for every open request to the instance that made it.
    pub fn send_chain_heartbeats(&mut self)
        ensures
            forall|k: Seq<char>| #[trigger] final(self).feed_ready(k) == old(self).feed_ready(k),
            forall|k: Seq<char>| old(self).feed_ready(k) ==> #[trigger] final(self).feed_of(k) == old(self).feed_of(k),
            keys_unique(old(self)@) ==> keys_unique(final(self)@),
            final(self)@ == old(self)@,
    {
        proof { lemma_event_keys(); }
        let mut i: usize = 0;
        while i < self.chain_links.len()
            invariant
                self@ == old(self)@,
                i <= self.chain_links@.len(),
                forall|k: Seq<char>| #[trigger] self.feed_ready(k) == old(self).feed_ready(k),
                forall|k: Seq<char>| old(self).feed_ready(k) ==> #[trigger] self.feed_of(k) == old(self).feed_of(k),
            decreases self.chain_links@.len() - i,
        {
            let caller = self.chain_links[i].caller_instance.clone();
            let keys: Vec<&str> = vec!["type", "instance_id", "request_id"];
            let values: Vec<String> = vec![
                String::from_str("agent.event.request.alive"),
                caller.clone(),
                self.chain_links[i].request_id.clone(),
            ];
            let alive = build_object(&keys, &values);
            proof {
                lemma_event_keys();
                assert(str_views(keys@) =~= seq!["type"@, "instance_id"@, "request_id"@]);
                assert(distinct(str_views(keys@)));
                assert(keys@[0]@ == "type"@);
                assert(json_str_member(alive@, keys@[0]@) == Some(values@[0]@));
            }
            match self.find_instance_host(caller.as_str()) {
                Some(h) => {
                    proof { lemma_ignored_dispatch(self@.hosts, h as int, alive); }
                    let ghost prev = *self;
                    self.dispatch_to_host(h, alive);
                    proof {
                        let t = caller@;
                        assert(str_member_or_empty(alive@, "instance_id"@) == t);
                        assert(instance_view(self@, t) == instance_view(prev@, t));
                        let iv = instance_view(prev@, t);
                        assert(fed_since(iv, iv) =~= Seq::<FeedItem>::empty());
                    }
                },
                None => {},
            }
            assert(self.chain_links@.len() == self@.links.len());
            i += 1;
        }
    }

    /// The state of every instance of every host.
    pub fn collect_heartbeat(&self) -> (r: Vec<HeartbeatInstance>)
        ensures
            heartbeat_of(r@, all_routers(self@.hosts)),
    {
        let mut all: Vec<HeartbeatInstance> = Vec::new();
        let mut i: usize = 0;
        while i < self.agent_hosts.len()
            invariant
                i <= self.agent_hosts@.len(),
                heartbeat_of(all@, all_routers(hosts_view(self.agent_hosts@).take(i as int))),
            decreases self.agent_hosts@.len() - i,
        {
            let mut hb = self.agent_hosts[i].collect_heartbeat();
            let ghost before = all@;
            proof {
                let hs = hosts_view(self.agent_hosts@);
                assert(hs.take(i + 1).drop_last() =~= hs.take(i as int));
            }
            all.append(&mut hb);
            i += 1;
        }
        assert(hosts_view(self.agent_hosts@).take(i as int) =~= self@.hosts);
        all
    }

    /// The oldest item waiting for the agent of instance `instance_id`,
    /// taken out of its feed; none when nothing waits or no host runs it.
    pub fn take_feed_item(&mut self, instance_id: &str) -> (r: Option<FeedItem>)
        ensures
            keys_unique(old(self)@) ==> keys_unique(final(self)@),
            final(self)@ == old(self)@,
            final(self).feed_ready(instance_id@) == old(self).feed_ready(instance_id@),
            ({
                let q = old(self).feed_of(instance_id@);
                let some = old(self).feed_ready(instance_id@) && q.len() > 0;
                &&& r == if some { Some(q[0]) } else { None::<FeedItem> }
                &&& final(self).feed_of(instance_id@) == if some { q.drop_first() } else { q }
            }),
            forall|k: Seq<char>| k != instance_id@ ==> #[trigger] final(self).feed_of(k) == old(self).feed_of(k),
            forall|k: Seq<char>| k != instance_id@ ==> #[trigger] final(self).feed_ready(k) == old(self).feed_ready(k),
    {
        proof { lemma_hosts_view_update(); }
        match self.find_instance_host(instance_id) {
            Some(i) => {
                let mut host = self.agent_hosts.remove(i);
                let ghost before = host;
                let item = host.take_feed_item(instance_id);
                let ghost after = host;
                self.agent_hosts.insert(i, host);
                assert(self.agent_hosts@ =~= old(self).agent_hosts@.update(i as int, after));
                assert(self@.hosts =~= old(self)@.hosts);
                proof {
                    assert forall|k: Seq<char>|
                        #![trigger self.feed_of(k)]
                        #![trigger self.feed_ready(k)]
                        k != instance_id@ implies self.feed_of(k) == old(self).feed_of(k)
                        && self.feed_ready(k) == old(self).feed_ready(k) by {
                        let q = instance_host(self@.hosts, k);
                        if q >= 0 && q != i {
                            assert(self.agent_hosts@[q] == old(self).agent_hosts@[q]);
                        }
                        if q == i {
                            assert(after.feed_of(k) == before.feed_of(k));
                            assert(after.feed_ready(k) == before.feed_ready(k));
                        }
                    }
                }
                item
            },
            None => None,
        }
    }
}

} // verus!
