//! Properties of the router that span several operations.
use vstd::prelude::*;
use crate::agent_host::{AgentHostView, has_id, position_of, after_spawn, after_kill};
use crate::config::{AgentMeta, hierarchy_of, root_agent, names_distinct};
use crate::host_router::{
    HostRouterView, LinkView, BubbleView, has_request_id, link_position, upsert_link, owns_chains, chain_entry,
    chain_ids_of, chains_after_append, without_id, agent_of_instance, chains_targeting, visited_agents,
    instance_host, talk_to_started, after_resolve, has_inquiry_id, bubble_position, upsert_bubble, inquiry_started,
    after_resolve_inquiry, has_agent, supervisor_in, talk_target, same_pair, inherited_chain, after_route,
};
use crate::instance_router::{InstanceRouterView, fresh_router, after_receive, event_type_of, tagged_event};
use crate::feed::{FeedItem, FeedItemKind, kind_of};
use crate::json::{json_str_member, json_with_str_member, json_str_value};
use crate::grpc_service::{history_of, strings_of, after_complete_turn, kind_describes, RouterEventKind};
use crate::state_machine::{InstanceState, StateMachineView, after_set, after_listen};
use crate::lookup::{
    first_index, is_first, lemma_first_index_after_upsert, lemma_first_index_is, lemma_first_index_range, lemma_first_index_none,
    unique_by, lemma_push_keeps_unique, lemma_update_keeps_unique, lemma_remove_keeps_unique, lemma_upsert_keeps_unique,
};

verus! {

proof fn lemma_without_id_excludes(ids: Seq<Seq<char>>, rid: Seq<char>)
    ensures
        !without_id(ids, rid).contains(rid),
    decreases ids.len(),
{
    if ids.len() > 0 {
        lemma_without_id_excludes(ids.drop_last(), rid);
        let w = without_id(ids.drop_last(), rid);
        if ids.last() != rid {
            assert forall|k: int| 0 <= k < w.push(ids.last()).len() implies w.push(ids.last())[k] != rid by {
                if k < w.len() {
                    assert(w.push(ids.last())[k] == w[k]);
                }
            }
        }
    }
}

/// A talk_to's reply reaches the caller: once a request is started, the
/// caller has it open, and answering it hands the reply to the caller and
/// closes the request.
pub proof fn law_talk_to_reply_reaches_caller(
    v: HostRouterView,
    f: HostRouterView,
    caller: Seq<char>,
    target: Seq<char>,
    text: Seq<char>,
    cont: bool,
    rid: Seq<char>,
    response: Seq<char>,
)
    requires
        talk_to_started(v, f, caller, target, text, cont, rid),
    ensures
        chain_ids_of(f.instance_chains, caller).contains(rid),
        link_position(f.links, rid) >= 0,
        after_resolve(f, rid, response).replies == f.replies.push((rid, response)),
        !chain_ids_of(after_resolve(f, rid, response).instance_chains, caller).contains(rid),
{
    let ca = agent_of_instance(v.hosts, caller);
    let chain = seq![ca] + crate::host_router::inherited_chain(v.links, chain_ids_of(v.instance_chains, caller));
    let l = LinkView { request_id: rid, caller_agent: ca, caller_instance: caller, target_agent: target, chain, has_waiter: true };
    lemma_first_index_after_upsert(v.links, has_request_id(rid), l);
    let p = link_position(f.links, rid);
    assert(f.links[p] == l);
    let q0 = chain_entry(v.instance_chains, caller);
    let entry = if q0 >= 0 {
        (caller, v.instance_chains[q0].1.push(rid))
    } else {
        (caller, seq![rid])
    };
    lemma_first_index_after_upsert(v.instance_chains, owns_chains(caller), entry);
    let q = chain_entry(f.instance_chains, caller);
    assert(f.instance_chains[q] == entry);
    assert(entry.1.contains(rid)) by {
        assert(entry.1[entry.1.len() - 1] == rid);
    }
    let g = after_resolve(f, rid, response);
    let updated = (f.instance_chains[q].0, without_id(f.instance_chains[q].1, rid));
    assert(g.instance_chains == f.instance_chains.update(q, updated));
    lemma_first_index_range(f.instance_chains, owns_chains(caller));
    lemma_first_index_after_upsert(f.instance_chains, owns_chains(caller), updated);
    lemma_without_id_excludes(f.instance_chains[q].1, rid);
}

/// An inquiry's answer reaches the asker: once raised, the inquiry is
/// pending with a waiting asker, and resolving it hands over the reply.
pub proof fn law_inquiry_reply_reaches_asker(
    v: HostRouterView,
    f: HostRouterView,
    instance_id: Seq<char>,
    inquiry_id: Seq<char>,
    content: Seq<char>,
    suggestions: Seq<Seq<char>>,
    file_paths: Seq<Seq<char>>,
    priority: Seq<char>,
    response: Seq<char>,
)
    requires
        inquiry_started(v, f, instance_id, inquiry_id, content, suggestions, file_paths, priority),
    ensures
        bubble_position(f.bubbles, inquiry_id) >= 0,
        f.bubbles[bubble_position(f.bubbles, inquiry_id)].origin_instance_id == instance_id,
        after_resolve_inquiry(f, inquiry_id, response).replies == f.replies.push((inquiry_id, response)),
{
    let ak = agent_of_instance(v.hosts, instance_id);
    let rec = crate::host_router::inquiry_record_text(instance_id, inquiry_id, content, priority, suggestions, file_paths);
    let b = BubbleView { inquiry_id, origin_agent_key: ak, origin_instance_id: instance_id, event: rec, has_waiter: true };
    lemma_first_index_after_upsert(v.bubbles, has_inquiry_id(inquiry_id), b);
    assert(f.bubbles == upsert_bubble(v.bubbles, b));
}

proof fn lemma_targeting_contains(links: Seq<LinkView>, agent: Seq<char>, i: int, a: Seq<char>)
    requires
        0 <= i < links.len(),
        links[i].target_agent == agent,
        links[i].chain.contains(a),
    ensures
        chains_targeting(links, agent).contains(a),
    decreases links.len(),
{
    let rest = links.drop_last();
    let last = links.last();
    let tail = if last.target_agent == agent { last.chain } else { Seq::<Seq<char>>::empty() };
    assert(chains_targeting(links, agent) == chains_targeting(rest, agent) + tail);
    if i == links.len() - 1 {
        let k = choose|k: int| 0 <= k < last.chain.len() && last.chain[k] == a;
        assert((chains_targeting(rest, agent) + tail)[chains_targeting(rest, agent).len() + k] == a);
    } else {
        assert(rest[i] == links[i]);
        lemma_targeting_contains(rest, agent, i, a);
        let k = choose|k: int| 0 <= k < chains_targeting(rest, agent).len() && chains_targeting(rest, agent)[k] == a;
        assert((chains_targeting(rest, agent) + tail)[k] == a);
    }
}

/// A recorded chain blocks calls back along it: after a link from a caller
/// to `target` along `chain`, any instance of `target` that calls an agent
/// of `chain` would close a loop.
pub proof fn law_chain_blocks_calls_back(
    v: HostRouterView,
    rid: Seq<char>,
    caller_instance: Seq<char>,
    target: Seq<char>,
    chain: Seq<Seq<char>>,
    x: Seq<char>,
    a: Seq<char>,
)
    requires
        instance_host(v.hosts, x) >= 0,
        v.hosts[instance_host(v.hosts, x)].agent_key == target,
        chain.contains(a),
    ensures
        visited_agents(
            HostRouterView {
                links: upsert_link(
                    v.links,
                    LinkView {
                        request_id: rid,
                        caller_agent: agent_of_instance(v.hosts, caller_instance),
                        caller_instance,
                        target_agent: target,
                        chain,
                        has_waiter: false,
                    },
                ),
                instance_chains: chains_after_append(v.instance_chains, caller_instance, rid),
                ..v
            },
            x,
        ).contains(a),
{
    let l = LinkView {
        request_id: rid,
        caller_agent: agent_of_instance(v.hosts, caller_instance),
        caller_instance,
        target_agent: target,
        chain,
        has_waiter: false,
    };
    let links = upsert_link(v.links, l);
    lemma_first_index_after_upsert(v.links, has_request_id(rid), l);
    let i = first_index(links, has_request_id(rid));
    lemma_targeting_contains(links, target, i, a);
    let f = HostRouterView { links, instance_chains: chains_after_append(v.instance_chains, caller_instance, rid), ..v };
    let own = crate::host_router::inherited_chain(f.links, chain_ids_of(f.instance_chains, x));
    let t = chains_targeting(f.links, target);
    let k = choose|k: int| 0 <= k < t.len() && t[k] == a;
    assert((own + t + seq![target])[own.len() + k] == a);
}

/// A caller cannot repeat an agent of a chain it started: after it
/// records a request along `chain`, calling any agent of `chain` from the
/// same instance would close a loop.
pub proof fn law_chain_blocks_caller_repeats(
    v: HostRouterView,
    rid: Seq<char>,
    caller_instance: Seq<char>,
    target: Seq<char>,
    chain: Seq<Seq<char>>,
    a: Seq<char>,
)
    requires
        chain.contains(a),
    ensures
        visited_agents(
            HostRouterView {
                links: upsert_link(
                    v.links,
                    LinkView {
                        request_id: rid,
                        caller_agent: agent_of_instance(v.hosts, caller_instance),
                        caller_instance,
                        target_agent: target,
                        chain,
                        has_waiter: false,
                    },
                ),
                instance_chains: chains_after_append(v.instance_chains, caller_instance, rid),
                ..v
            },
            caller_instance,
        ).contains(a),
{
    let l = LinkView {
        request_id: rid,
        caller_agent: agent_of_instance(v.hosts, caller_instance),
        caller_instance,
        target_agent: target,
        chain,
        has_waiter: false,
    };
    let links = upsert_link(v.links, l);
    lemma_first_index_after_upsert(v.links, has_request_id(rid), l);
    assert(crate::host_router::linked_chain(links, rid) == chain);
    let c = v.instance_chains;
    let c2 = chains_after_append(c, caller_instance, rid);
    let own_ids = chain_ids_of(c, caller_instance);
    lemma_first_index_range(c, owns_chains(caller_instance));
    let p = chain_entry(c, caller_instance);
    if p >= 0 {
        assert forall|j: int| 0 <= j < c.len() implies owns_chains(caller_instance)(#[trigger] c[j]) == owns_chains(
            caller_instance,
        )(c2[j]) by {
            if j == p {
                assert(c2[j].0 == caller_instance);
            }
        }
        crate::lookup::lemma_first_index_same(c, c2, owns_chains(caller_instance));
    } else {
        assert(is_first(c2, owns_chains(caller_instance), c.len() as int)) by {
            assert forall|j: int| 0 <= j < c.len() implies !owns_chains(caller_instance)(#[trigger] c2[j]) by {
                assert(c2[j] == c[j]);
            }
        }
        lemma_first_index_is(c2, owns_chains(caller_instance), c.len() as int);
    }
    let ids = chain_ids_of(c2, caller_instance);
    assert(ids == own_ids.push(rid));
    assert(ids.drop_last() == own_ids);
    let own = inherited_chain(links, ids);
    assert(own == inherited_chain(links, own_ids) + chain);
    let k = choose|k: int| 0 <= k < chain.len() && chain[k] == a;
    assert(own[inherited_chain(links, own_ids).len() + k] == a);
    let f = HostRouterView { links, instance_chains: c2, ..v };
    let q = instance_host(v.hosts, caller_instance);
    if q >= 0 {
        let vis = own + chains_targeting(links, v.hosts[q].agent_key) + seq![v.hosts[q].agent_key];
        assert(vis[inherited_chain(links, own_ids).len() + k] == a);
    }
}

/// No instance may call its own agent.
pub proof fn law_no_call_to_own_agent(v: HostRouterView, x: Seq<char>)
    requires
        instance_host(v.hosts, x) >= 0,
    ensures
        visited_agents(v, x).contains(v.hosts[instance_host(v.hosts, x)].agent_key),
{
    let own = crate::host_router::inherited_chain(v.links, chain_ids_of(v.instance_chains, x));
    let ak = v.hosts[instance_host(v.hosts, x)].agent_key;
    let t = chains_targeting(v.links, ak);
    assert((own + t + seq![ak])[own.len() + t.len() as int] == ak);
}

/// With distinct agent names, a root has no supervisor and every other
/// agent reports to the (first) root.
pub proof fn law_supervisor_is_root(agents: Seq<(String, AgentMeta)>, i: int)
    requires
        0 <= i < agents.len(),
        forall|j: int| 0 <= j < agents.len() && j != i ==> (#[trigger] agents[j]).0@ != agents[i].0@,
    ensures
        supervisor_in(hierarchy_of(agents), agents[i].0@) == if agents[i].1.is_root {
            None::<Seq<char>>
        } else {
            root_agent(agents)
        },
{
    let h = hierarchy_of(agents);
    let k = agents[i].0@;
    assert(is_first(h, has_agent(k), i)) by {
        assert forall|j: int| 0 <= j < i implies !has_agent(k)(#[trigger] h[j]) by {
            assert(h[j].0 == agents[j].0@);
        }
    }
    lemma_first_index_is(h, has_agent(k), i);
}

pub open spec fn unique_ids(routers: Seq<InstanceRouterView>) -> bool {
    forall|i: int, j: int| 0 <= i < j < routers.len() ==> routers[i].instance_id != routers[j].instance_id
}

/// A spawned instance starts fresh: it is found under its id, idle,
/// with nothing buffered or fed.
pub proof fn law_spawned_instance_is_fresh(routers: Seq<InstanceRouterView>, id: Seq<char>)
    ensures
        position_of(after_spawn(routers, id), id) >= 0,
        after_spawn(routers, id)[position_of(after_spawn(routers, id), id)] == fresh_router(id),
{
    lemma_first_index_after_upsert(routers, has_id(id), fresh_router(id));
}

/// Spawning and killing keep instance ids unique, and a killed instance
/// is gone.
pub proof fn law_instance_ids_stay_unique(routers: Seq<InstanceRouterView>, id: Seq<char>)
    requires
        unique_ids(routers),
    ensures
        unique_ids(after_spawn(routers, id)),
        unique_ids(after_kill(routers, id)),
        position_of(after_kill(routers, id), id) == -1,
{
    lemma_first_index_range(routers, has_id(id));
    let p = position_of(routers, id);
    let s = after_spawn(routers, id);
    assert forall|i: int, j: int| 0 <= i < j < s.len() implies s[i].instance_id != s[j].instance_id by {
        if p >= 0 {
            if i == p {
                assert(routers[p].instance_id == id);
            } else if j == p {
                assert(routers[p].instance_id == id);
            }
        } else {
            if j == routers.len() {
                assert(!has_id(id)(routers[i]));
            }
        }
    }
    let k = after_kill(routers, id);
    assert forall|i: int, j: int| 0 <= i < j < k.len() implies k[i].instance_id != k[j].instance_id by {
        if p >= 0 {
            let a = if i < p { i } else { i + 1 };
            let b = if j < p { j } else { j + 1 };
            assert(k[i] == routers[a] && k[j] == routers[b]);
        }
    }
    assert forall|j: int| 0 <= j < k.len() implies !has_id(id)(#[trigger] k[j]) by {
        if p >= 0 {
            if j < p {
                assert(k[j] == routers[j]);
            } else {
                assert(k[j] == routers[j + 1]);
                assert(routers[p].instance_id == id);
            }
        } else {
            assert(k[j] == routers[j]);
        }
    }
    crate::lookup::lemma_first_index_none(k, has_id(id));
}

/// Every listener reported to was installed: its number is at most the
/// number of listeners installed so far.
pub open spec fn reports_valid(m: StateMachineView) -> bool {
    forall|i: int| 0 <= i < m.notified.len() ==> #[trigger] m.notified[i].0 <= m.listener
}

/// A new listener replaces the old one. Installing it changes neither the
/// state nor the pending wait and reports nothing; the next state change
/// is reported once, to the new listener alone, whose number is above that
/// of every listener reported to before. Both steps keep the reports valid.
pub proof fn law_new_listener_replaces_old(m: StateMachineView, to: InstanceState)
    requires
        reports_valid(m),
    ensures
        after_listen(m).state == m.state,
        after_listen(m).pending == m.pending,
        after_listen(m).changes == m.changes,
        after_listen(m).notified == m.notified,
        after_set(after_listen(m), to).notified == m.notified.push((after_listen(m).listener, m.state, to)),
        forall|i: int| 0 <= i < m.notified.len() ==> #[trigger] m.notified[i].0 < after_listen(m).listener,
        reports_valid(after_listen(m)),
        reports_valid(after_set(m, to)),
{
    let n = after_set(m, to).notified;
    assert forall|i: int| 0 <= i < n.len() implies #[trigger] n[i].0 <= m.listener by {
        if i < m.notified.len() {
            assert(n[i] == m.notified[i]);
        }
    }
}

/// A state change is reported exactly when a listener is installed, once,
/// as (old, new) to the installed listener.
pub proof fn law_change_reported_once(m: StateMachineView, to: InstanceState)
    ensures
        after_set(m, to).notified.len() == m.notified.len() + if m.hooked { 1int } else { 0int },
        m.hooked ==> after_set(m, to).notified.last() == (m.listener, m.state, to),
        after_set(m, to).listener == m.listener,
{
}

/// Closing a turn undoes opening it: after `push_turn` the innermost turn
/// is the new one, and the `pop_turn` that follows hands it back and
/// leaves the router as it was before the push.
pub proof fn law_pop_undoes_push(v: InstanceRouterView, t: Seq<char>)
    ensures
        ({
            let pushed = InstanceRouterView { turns: v.turns.push(t), ..v };
            &&& pushed.turns.len() > 0
            &&& pushed.turns.last() == t
            &&& (InstanceRouterView { turns: pushed.turns.drop_last(), ..pushed }) == v
        }),
{
    assert(v.turns.push(t).drop_last() =~= v.turns);
}

/// A continued conversation goes back to the same instance: after a
/// talk_to from `caller` to `target`, the next one that continues the
/// conversation is delivered to the instance the first one went to.
pub proof fn law_continued_conversation_reuses_instance(
    v: HostRouterView,
    f: HostRouterView,
    caller: Seq<char>,
    target: Seq<char>,
    text: Seq<char>,
    cont: bool,
    rid: Seq<char>,
)
    requires
        talk_to_started(v, f, caller, target, text, cont, rid),
    ensures
        talk_target(f, caller, target, true) == talk_target(v, caller, target, cont),
{
    let inst = talk_target(v, caller, target, cont);
    lemma_first_index_after_upsert(v.conversations, same_pair(caller, target), (caller, target, inst));
}

/// The key of an agent host: its agent.
pub open spec fn host_key() -> spec_fn(AgentHostView) -> Seq<char> {
    |h: AgentHostView| h.agent_key
}

/// The key of a link: its request.
pub open spec fn request_key() -> spec_fn(LinkView) -> Seq<char> {
    |l: LinkView| l.request_id
}

/// The key of an instance's list of open requests: the instance.
pub open spec fn chains_key() -> spec_fn((Seq<char>, Seq<Seq<char>>)) -> Seq<char> {
    |e: (Seq<char>, Seq<Seq<char>>)| e.0
}

/// The key of a conversation: its caller and target.
pub open spec fn pair_key() -> spec_fn((Seq<char>, Seq<char>, Seq<char>)) -> (Seq<char>, Seq<char>) {
    |c: (Seq<char>, Seq<char>, Seq<char>)| (c.0, c.1)
}

/// The key of a pending inquiry: its id.
pub open spec fn inquiry_key() -> spec_fn(BubbleView) -> Seq<char> {
    |b: BubbleView| b.inquiry_id
}

/// No two links belong to the same request.
pub open spec fn requests_unique(links: Seq<LinkView>) -> bool {
    unique_by(links, request_key())
}

/// The key of a hierarchy entry: its agent.
pub open spec fn agent_entry_key() -> spec_fn((Seq<char>, Option<Seq<char>>)) -> Seq<char> {
    |e: (Seq<char>, Option<Seq<char>>)| e.0
}

/// Every keyed record of the router occurs once under its key: one
/// hierarchy entry and at most one host per agent, one link per request,
/// one list of open requests per instance, one conversation per caller and
/// target, one pending inquiry per id.
pub open spec fn keys_unique(v: HostRouterView) -> bool {
    &&& unique_by(v.hierarchy, agent_entry_key())
    &&& unique_by(v.hosts, host_key())
    &&& requests_unique(v.links)
    &&& unique_by(v.instance_chains, chains_key())
    &&& unique_by(v.conversations, pair_key())
    &&& unique_by(v.bubbles, inquiry_key())
}

/// A new router over agents that are listed once holds no keyed record
/// twice.
pub proof fn law_new_router_keys_unique(v: HostRouterView, agents: Seq<(String, AgentMeta)>)
    requires
        names_distinct(agents),
        v.hierarchy == hierarchy_of(agents),
        v.hosts.len() == 0,
        v.links.len() == 0,
        v.instance_chains.len() == 0,
        v.conversations.len() == 0,
        v.bubbles.len() == 0,
    ensures
        keys_unique(v),
{
    let h = v.hierarchy;
    assert forall|i: int, j: int| 0 <= i < j < h.len() implies agent_entry_key()(#[trigger] h[i]) != agent_entry_key()(
        #[trigger] h[j],
    ) by {
        assert(h[i].0 == agents[i].0@ && h[j].0 == agents[j].0@);
    }
}

/// Spawning an instance keeps every key unique: the agent's host is
/// created on first use only.
pub proof fn law_spawn_keeps_keys_unique(v: HostRouterView, key: Seq<char>, id: Seq<char>)
    requires
        keys_unique(v),
    ensures
        keys_unique(HostRouterView { hosts: crate::host_router::hosts_after_spawn(v.hosts, key, id), ..v }),
{
    lemma_first_index_range(v.hosts, crate::host_router::has_agent_key(key));
    let p = crate::host_router::host_position(v.hosts, key);
    if p >= 0 {
        lemma_update_keeps_unique(
            v.hosts,
            host_key(),
            p,
            AgentHostView { routers: after_spawn(v.hosts[p].routers, id), ..v.hosts[p] },
        );
    } else {
        let h = AgentHostView { agent_key: key, routers: after_spawn(Seq::empty(), id) };
        assert forall|j: int| 0 <= j < v.hosts.len() implies host_key()(#[trigger] v.hosts[j]) != host_key()(h) by {
            assert(!crate::host_router::has_agent_key(key)(v.hosts[j]));
        }
        lemma_push_keeps_unique(v.hosts, host_key(), h);
    }
}

/// Handing an event to a host keeps every key unique.
pub proof fn law_dispatch_keeps_keys_unique(v: HostRouterView, p: int, event: String)
    requires
        keys_unique(v),
        0 <= p < v.hosts.len(),
    ensures
        keys_unique(HostRouterView { hosts: crate::host_router::hosts_after_dispatch(v.hosts, p, event), ..v }),
{
    lemma_update_keeps_unique(
        v.hosts,
        host_key(),
        p,
        AgentHostView { routers: crate::agent_host::after_dispatch(v.hosts[p].routers, event), ..v.hosts[p] },
    );
}

/// Recording a link keeps request ids unique: a link of a known request
/// replaces the old one.
pub proof fn law_links_stay_unique(links: Seq<LinkView>, l: LinkView)
    requires
        requests_unique(links),
    ensures
        requests_unique(upsert_link(links, l)),
{
    lemma_upsert_keeps_unique(links, request_key(), has_request_id(l.request_id), l);
}

/// Recording a link and adding its request to the caller's open requests
/// keeps every key unique.
pub proof fn law_link_record_keeps_keys_unique(v: HostRouterView, l: LinkView)
    requires
        keys_unique(v),
    ensures
        keys_unique(
            HostRouterView {
                links: upsert_link(v.links, l),
                instance_chains: chains_after_append(v.instance_chains, l.caller_instance, l.request_id),
                ..v
            },
        ),
{
    law_links_stay_unique(v.links, l);
    let c = v.instance_chains;
    let inst = l.caller_instance;
    lemma_first_index_range(c, owns_chains(inst));
    let p = chain_entry(c, inst);
    if p >= 0 {
        lemma_update_keeps_unique(c, chains_key(), p, (inst, c[p].1.push(l.request_id)));
    } else {
        assert forall|j: int| 0 <= j < c.len() implies chains_key()(#[trigger] c[j]) != chains_key()(
            (inst, seq![l.request_id]),
        ) by {
            assert(!owns_chains(inst)(c[j]));
        }
        lemma_push_keeps_unique(c, chains_key(), (inst, seq![l.request_id]));
    }
}

/// Starting a talk_to keeps every key unique.
pub proof fn law_talk_to_keeps_keys_unique(
    v: HostRouterView,
    f: HostRouterView,
    caller: Seq<char>,
    target: Seq<char>,
    text: Seq<char>,
    cont: bool,
    rid: Seq<char>,
)
    requires
        keys_unique(v),
        talk_to_started(v, f, caller, target, text, cont, rid),
    ensures
        keys_unique(f),
{
    let ca = agent_of_instance(v.hosts, caller);
    let l = LinkView {
        request_id: rid,
        caller_agent: ca,
        caller_instance: caller,
        target_agent: target,
        chain: seq![ca] + inherited_chain(v.links, chain_ids_of(v.instance_chains, caller)),
        has_waiter: true,
    };
    law_link_record_keeps_keys_unique(v, l);
    let inst = talk_target(v, caller, target, cont);
    lemma_upsert_keeps_unique(v.conversations, pair_key(), same_pair(caller, target), (caller, target, inst));
    let hp = crate::host_router::host_position(v.hosts, target);
    if hp >= 0 {
        lemma_first_index_range(v.hosts, crate::host_router::has_agent_key(target));
        let ev = choose|ev: String| ev@ == crate::host_router::talk_to_request_text(inst, rid, ca, text)
            && f.hosts == crate::host_router::hosts_after_dispatch(v.hosts, hp, ev);
        law_dispatch_keeps_keys_unique(v, hp, ev);
    }
}

/// Waiting again on a request and resolving one keep every key unique:
/// the first only marks a waiter, the second drops a link and a request
/// from its caller's list.
pub proof fn law_resume_and_resolve_keep_keys_unique(v: HostRouterView, rid: Seq<char>, response: Seq<char>)
    requires
        keys_unique(v),
    ensures
        link_position(v.links, rid) >= 0 ==> keys_unique(
            HostRouterView {
                links: v.links.update(
                    link_position(v.links, rid),
                    LinkView { has_waiter: true, ..v.links[link_position(v.links, rid)] },
                ),
                ..v
            },
        ),
        keys_unique(after_resolve(v, rid, response)),
{
    lemma_first_index_range(v.links, has_request_id(rid));
    let p = link_position(v.links, rid);
    if p >= 0 {
        lemma_update_keeps_unique(v.links, request_key(), p, LinkView { has_waiter: true, ..v.links[p] });
        lemma_remove_keeps_unique(v.links, request_key(), p);
        let c = v.instance_chains;
        let q = chain_entry(c, v.links[p].caller_instance);
        lemma_first_index_range(c, owns_chains(v.links[p].caller_instance));
        if q >= 0 {
            lemma_update_keeps_unique(c, chains_key(), q, (c[q].0, without_id(c[q].1, rid)));
        }
    }
}

/// Recording an inquiry keeps every key unique: one of a known id
/// replaces the old one.
pub proof fn law_inquiry_record_keeps_keys_unique(v: HostRouterView, b: BubbleView)
    requires
        keys_unique(v),
    ensures
        keys_unique(HostRouterView { bubbles: upsert_bubble(v.bubbles, b), ..v }),
{
    lemma_upsert_keeps_unique(v.bubbles, inquiry_key(), has_inquiry_id(b.inquiry_id), b);
}

/// Raising an inquiry keeps every key unique.
pub proof fn law_inquiry_keeps_keys_unique(
    v: HostRouterView,
    f: HostRouterView,
    instance_id: Seq<char>,
    inquiry_id: Seq<char>,
    content: Seq<char>,
    suggestions: Seq<Seq<char>>,
    file_paths: Seq<Seq<char>>,
    priority: Seq<char>,
)
    requires
        keys_unique(v),
        inquiry_started(v, f, instance_id, inquiry_id, content, suggestions, file_paths, priority),
    ensures
        keys_unique(f),
{
    let ak = agent_of_instance(v.hosts, instance_id);
    let b = BubbleView {
        inquiry_id,
        origin_agent_key: ak,
        origin_instance_id: instance_id,
        event: crate::host_router::inquiry_record_text(instance_id, inquiry_id, content, priority, suggestions, file_paths),
        has_waiter: true,
    };
    law_inquiry_record_keeps_keys_unique(v, b);
    let v1 = HostRouterView { bubbles: upsert_bubble(v.bubbles, b), ..v };
    let hp = crate::host_router::supervisor_host(v, ak);
    if hp >= 0 {
        lemma_first_index_range(v.hosts, crate::host_router::has_agent_key(supervisor_in(v.hierarchy, ak).unwrap()));
        let ev = choose|ev: String| ev@ == crate::host_router::supervisor_inquiry_text(
            v.hosts[hp].routers[0].instance_id,
            inquiry_id,
            ak,
            content,
            priority,
            suggestions,
        ) && f == (HostRouterView { hosts: crate::host_router::hosts_after_dispatch(v.hosts, hp, ev), ..v1 });
        law_dispatch_keeps_keys_unique(v1, hp, ev);
    }
}

/// Resolving an inquiry keeps every key unique.
pub proof fn law_inquiry_resolve_keeps_keys_unique(v: HostRouterView, inquiry_id: Seq<char>, response: Seq<char>)
    requires
        keys_unique(v),
    ensures
        keys_unique(after_resolve_inquiry(v, inquiry_id, response)),
{
    lemma_first_index_range(v.bubbles, has_inquiry_id(inquiry_id));
    let p = bubble_position(v.bubbles, inquiry_id);
    if p >= 0 {
        lemma_remove_keeps_unique(v.bubbles, inquiry_key(), p);
    }
}

/// What the engine sends keeps every key unique: it only starts and feeds
/// instances.
pub proof fn law_route_keeps_keys_unique(v: HostRouterView, event: String)
    requires
        keys_unique(v),
    ensures
        keys_unique(after_route(v, event)),
{
    let iid = crate::wire::str_member_or_empty(event@, "instance_id"@);
    law_spawn_keeps_keys_unique(v, crate::wire::str_member_or_empty(event@, "agent_key"@), iid);
    let p = instance_host(v.hosts, iid);
    lemma_first_index_range(v.hosts, crate::host_router::hosts_instance(iid));
    if p >= 0 {
        law_dispatch_keeps_keys_unique(v, p, event);
    }
}

/// A resolved request is gone: with request ids unique, once
/// `resolve_talk_to` closed a request no link of it is left, so
/// `resume_wait` on it answers `no_pending_request` and a second resolve
/// changes nothing.
pub proof fn law_resolved_request_is_gone(v: HostRouterView, rid: Seq<char>, response: Seq<char>, later: Seq<char>)
    requires
        requests_unique(v.links),
    ensures
        link_position(after_resolve(v, rid, response).links, rid) == -1,
        after_resolve(after_resolve(v, rid, response), rid, later) == after_resolve(v, rid, response),
{
    lemma_first_index_range(v.links, has_request_id(rid));
    let p = link_position(v.links, rid);
    let f = after_resolve(v, rid, response);
    if p >= 0 {
        assert forall|j: int| 0 <= j < f.links.len() implies !has_request_id(rid)(#[trigger] f.links[j]) by {
            if j < p {
                assert(f.links[j] == v.links[j]);
            } else {
                assert(f.links[j] == v.links[j + 1]);
                assert(v.links[p].request_id == rid);
            }
        }
    }
    lemma_first_index_none(f.links, has_request_id(rid));
}

// ── What blocks a talk_to ────────────────────────────────────────────────

/// An agent is on the chains that target `agent` exactly when some open
/// link whose target is `agent` carries it on its chain.
pub proof fn lemma_targeting_members(links: Seq<LinkView>, agent: Seq<char>, a: Seq<char>)
    ensures
        chains_targeting(links, agent).contains(a) <==> exists|i: int|
            0 <= i < links.len() && (#[trigger] links[i]).target_agent == agent && links[i].chain.contains(a),
    decreases links.len(),
{
    if links.len() > 0 {
        let rest = links.drop_last();
        let last = links.last();
        lemma_targeting_members(rest, agent, a);
        let head = chains_targeting(rest, agent);
        let tail = if last.target_agent == agent { last.chain } else { Seq::<Seq<char>>::empty() };
        assert(chains_targeting(links, agent) == head + tail);
        if chains_targeting(links, agent).contains(a) {
            let k = choose|k: int| 0 <= k < (head + tail).len() && (head + tail)[k] == a;
            if k < head.len() {
                assert(head[k] == a);
                let i = choose|i: int| 0 <= i < rest.len() && (#[trigger] rest[i]).target_agent == agent && rest[i].chain.contains(a);
                assert(links[i] == rest[i]);
            } else {
                assert(tail[k - head.len()] == a);
                assert(links[links.len() - 1] == last);
            }
        }
        if exists|i: int| 0 <= i < links.len() && (#[trigger] links[i]).target_agent == agent && links[i].chain.contains(a) {
            let i = choose|i: int| 0 <= i < links.len() && (#[trigger] links[i]).target_agent == agent && links[i].chain.contains(a);
            if i == links.len() - 1 {
                let k = choose|k: int| 0 <= k < last.chain.len() && last.chain[k] == a;
                assert((head + tail)[head.len() + k] == a);
            } else {
                assert(rest[i] == links[i]);
                let k = choose|k: int| 0 <= k < head.len() && head[k] == a;
                assert((head + tail)[k] == a);
            }
        }
    }
}

/// An agent is on the chains of the requests `ids` exactly when one of
/// those requests has an open link whose chain carries it.
pub proof fn lemma_inherited_members(links: Seq<LinkView>, ids: Seq<Seq<char>>, a: Seq<char>)
    ensures
        inherited_chain(links, ids).contains(a) ==> exists|i: int|
            0 <= i < links.len() && ids.contains((#[trigger] links[i]).request_id) && links[i].chain.contains(a),
    decreases ids.len(),
{
    if ids.len() > 0 {
        let rest = ids.drop_last();
        let id = ids.last();
        lemma_inherited_members(links, rest, a);
        let head = inherited_chain(links, rest);
        let tail = crate::host_router::linked_chain(links, id);
        assert(inherited_chain(links, ids) == head + tail);
        if inherited_chain(links, ids).contains(a) {
            let k = choose|k: int| 0 <= k < (head + tail).len() && (head + tail)[k] == a;
            if k < head.len() {
                assert(head[k] == a);
                let i = choose|i: int| 0 <= i < links.len() && rest.contains((#[trigger] links[i]).request_id) && links[i].chain.contains(a);
                let j = choose|j: int| 0 <= j < rest.len() && rest[j] == links[i].request_id;
                assert(ids[j] == rest[j]);
            } else {
                lemma_first_index_range(links, has_request_id(id));
                let p = link_position(links, id);
                assert(p >= 0);
                assert(tail[k - head.len()] == a);
                assert(links[p].chain.contains(a));
                assert(ids[ids.len() - 1] == id);
            }
        }
    }
}

/// Only three things stop an instance from calling an agent: it is the
/// instance's own agent, it is on the chain of a request the instance
/// started, or it is on the chain of an open link whose target is the
/// instance's agent. The chains of other open links do not count.
pub proof fn law_cycle_check_counts_only_related_chains(v: HostRouterView, x: Seq<char>, t: Seq<char>)
    requires
        visited_agents(v, x).contains(t),
    ensures
        (instance_host(v.hosts, x) >= 0 && t == agent_of_instance(v.hosts, x)) || exists|i: int|
            0 <= i < v.links.len() && (#[trigger] v.links[i]).chain.contains(t) && (chain_ids_of(
                v.instance_chains,
                x,
            ).contains(v.links[i].request_id) || (instance_host(v.hosts, x) >= 0 && v.links[i].target_agent
                == agent_of_instance(v.hosts, x))),
{
    let own = inherited_chain(v.links, chain_ids_of(v.instance_chains, x));
    let p = instance_host(v.hosts, x);
    lemma_inherited_members(v.links, chain_ids_of(v.instance_chains, x), t);
    if p >= 0 {
        let ak = v.hosts[p].agent_key;
        let tg = chains_targeting(v.links, ak);
        lemma_targeting_members(v.links, ak, t);
        let all = own + tg + seq![ak];
        let k = choose|k: int| 0 <= k < all.len() && all[k] == t;
        if k < own.len() {
            assert(own[k] == t);
        } else if k < own.len() + tg.len() {
            assert(tg[k - own.len()] == t);
        } else {
            assert(t == ak);
        }
    }
}

/// And each of those three does stop it: its own agent, every agent on the
/// chain of an open link that targets its agent, and (with request ids
/// unique) every agent on the chain of a request it started.
pub proof fn law_cycle_check_counts_every_related_chain(v: HostRouterView, x: Seq<char>, i: int, t: Seq<char>)
    requires
        instance_host(v.hosts, x) >= 0,
        requests_unique(v.links),
        0 <= i < v.links.len(),
        v.links[i].chain.contains(t),
    ensures
        visited_agents(v, x).contains(agent_of_instance(v.hosts, x)),
        v.links[i].target_agent == agent_of_instance(v.hosts, x) ==> visited_agents(v, x).contains(t),
        chain_ids_of(v.instance_chains, x).contains(v.links[i].request_id) ==> visited_agents(v, x).contains(t),
{
    let p = instance_host(v.hosts, x);
    let ak = v.hosts[p].agent_key;
    let ids = chain_ids_of(v.instance_chains, x);
    let own = inherited_chain(v.links, ids);
    let tg = chains_targeting(v.links, ak);
    let all = own + tg + seq![ak];
    assert(visited_agents(v, x) == all);
    assert(all[all.len() - 1] == ak);
    if v.links[i].target_agent == ak {
        lemma_targeting_members(v.links, ak, t);
        let k = choose|k: int| 0 <= k < tg.len() && tg[k] == t;
        assert(all[own.len() + k] == t);
    }
    if ids.contains(v.links[i].request_id) {
        let rid = v.links[i].request_id;
        lemma_first_index_range(v.links, has_request_id(rid));
        let q = link_position(v.links, rid);
        assert(q == i) by {
            if q != i {
                assert(v.links[q].request_id == rid);
                if q < i {
                    assert(request_key()(v.links[q]) != request_key()(v.links[i]));
                } else {
                    assert(request_key()(v.links[i]) != request_key()(v.links[q]));
                }
            }
        }
        lemma_inherited_contains(v.links, ids, rid, t);
        let k = choose|k: int| 0 <= k < own.len() && own[k] == t;
        assert(all[k] == t);
    }
}

proof fn lemma_inherited_contains(links: Seq<LinkView>, ids: Seq<Seq<char>>, rid: Seq<char>, t: Seq<char>)
    requires
        ids.contains(rid),
        crate::host_router::linked_chain(links, rid).contains(t),
    ensures
        inherited_chain(links, ids).contains(t),
    decreases ids.len(),
{
    let rest = ids.drop_last();
    let head = inherited_chain(links, rest);
    let tail = crate::host_router::linked_chain(links, ids.last());
    assert(inherited_chain(links, ids) == head + tail);
    if ids.last() == rid {
        let k = choose|k: int| 0 <= k < tail.len() && tail[k] == t;
        assert((head + tail)[head.len() + k] == t);
    } else {
        let j = choose|j: int| 0 <= j < ids.len() && ids[j] == rid;
        assert(j < ids.len() - 1);
        assert(rest[j] == rid);
        lemma_inherited_contains(links, rest, rid, t);
        let k = choose|k: int| 0 <= k < head.len() && head[k] == t;
        assert((head + tail)[k] == t);
    }
}

/// An instance that started no request, and whose agent no open link
/// targets, may call every agent but its own.
pub proof fn law_unlinked_caller_is_blocked_only_by_itself(v: HostRouterView, x: Seq<char>, t: Seq<char>)
    requires
        instance_host(v.hosts, x) >= 0,
        chain_ids_of(v.instance_chains, x).len() == 0,
        forall|i: int| 0 <= i < v.links.len() ==> (#[trigger] v.links[i]).target_agent != agent_of_instance(v.hosts, x),
    ensures
        visited_agents(v, x).contains(t) <==> t == agent_of_instance(v.hosts, x),
{
    let p = instance_host(v.hosts, x);
    let ak = v.hosts[p].agent_key;
    let ids = chain_ids_of(v.instance_chains, x);
    assert(inherited_chain(v.links, ids) =~= Seq::<Seq<char>>::empty());
    lemma_targeting_members(v.links, ak, t);
    let tg = chains_targeting(v.links, ak);
    if tg.len() > 0 {
        lemma_targeting_members(v.links, ak, tg[0]);
        assert(tg.contains(tg[0]));
    }
    assert(tg.len() == 0);
    let all = inherited_chain(v.links, ids) + tg + seq![ak];
    assert(all =~= seq![ak]);
    assert(visited_agents(v, x) == all);
    assert(agent_of_instance(v.hosts, x) == ak);
    if t == ak {
        assert(all[0] == t);
    }
}

// ── How inbound events reach an agent ────────────────────────────────────

proof fn lemma_event_names_differ()
    ensures
        "agent.event.talk_to.response"@ != "agent.event.inquiry.response"@,
        "agent.event.inquiry.request"@ != "agent.event.talk_to.response"@,
        "agent.event.inquiry.request"@ != "agent.event.inquiry.response"@,
        "agent.event.request.failed"@ != "agent.event.talk_to.response"@,
        "agent.event.request.failed"@ != "agent.event.inquiry.response"@,
        "agent.event.request.failed"@ != "agent.event.inquiry.request"@,
        "agent.event.inquiry.failed"@ != "agent.event.talk_to.response"@,
        "agent.event.inquiry.failed"@ != "agent.event.inquiry.response"@,
        "agent.event.inquiry.failed"@ != "agent.event.inquiry.request"@,
        !crate::feed::is_ignored_event("agent.event.talk_to.response"@),
        !crate::feed::is_ignored_event("agent.event.inquiry.response"@),
        !crate::feed::is_ignored_event("agent.event.inquiry.request"@),
        !crate::feed::is_ignored_event("agent.event.user_input"@),
        "agent.event.user_input"@ != "agent.event.talk_to.response"@,
        "agent.event.user_input"@ != "agent.event.inquiry.response"@,
        "agent.event.user_input"@ != "agent.event.inquiry.request"@,
        "agent.event.user_input"@ != "agent.event.request.failed"@,
        "agent.event.user_input"@ != "agent.event.inquiry.failed"@,
{
    reveal_strlit("agent.event.talk_to.response");
    reveal_strlit("agent.event.inquiry.response");
    reveal_strlit("agent.event.inquiry.request");
    reveal_strlit("agent.event.request.failed");
    reveal_strlit("agent.event.inquiry.failed");
    reveal_strlit("agent.event.user_input");
    reveal_strlit("agent.signal.state_query");
    reveal_strlit("agent.signal.terminate");
    reveal_strlit("agent.signal.drain");
    reveal_strlit("agent.signal.interrupt");
    reveal_strlit("agent.event.request.alive");
    reveal_strlit("agent.event.inquiry.alive");
    assert("agent.event.talk_to.response"@.len() == 28);
    assert("agent.event.inquiry.response"@.len() == 28);
    assert("agent.event.inquiry.request"@.len() == 27);
    assert("agent.event.request.failed"@.len() == 26);
    assert("agent.event.inquiry.failed"@.len() == 26);
    assert("agent.event.user_input"@.len() == 22);
    assert("agent.signal.state_query"@.len() == 24);
    assert("agent.signal.terminate"@.len() == 22);
    assert("agent.signal.drain"@.len() == 18);
    assert("agent.signal.interrupt"@.len() == 22);
    assert("agent.event.request.alive"@.len() == 25);
    assert("agent.event.inquiry.alive"@.len() == 25);
    assert("agent.event.talk_to.response"@[12] != "agent.event.inquiry.response"@[12]);
    assert("agent.event.request.failed"@[12] != "agent.event.inquiry.failed"@[12]);
    assert("agent.event.user_input"@[6] != "agent.signal.terminate"@[6]);
    assert("agent.event.user_input"@[6] != "agent.signal.interrupt"@[6]);
    assert("agent.signal.terminate"@[13] != "agent.signal.interrupt"@[13]);
    assert("agent.event.request.alive"@[12] != "agent.event.inquiry.alive"@[12]);
}

/// What an inbound event is to an agent, by its type: both kinds of reply
/// (to a talk_to and to an inquiry) are responses, an inquiry request
/// interrupts, a failed request or inquiry terminates the wait, and every
/// other type is input.
pub proof fn law_event_kinds(t: Seq<char>)
    ensures
        kind_of(t) == FeedItemKind::Response <==> (t == "agent.event.talk_to.response"@ || t
            == "agent.event.inquiry.response"@),
        kind_of(t) == FeedItemKind::InquiryInterrupt <==> t == "agent.event.inquiry.request"@,
        kind_of(t) == FeedItemKind::Termination <==> (t == "agent.event.request.failed"@ || t
            == "agent.event.inquiry.failed"@),
        kind_of(t) == FeedItemKind::Input <==> !(t == "agent.event.talk_to.response"@ || t
            == "agent.event.inquiry.response"@ || t == "agent.event.inquiry.request"@ || t
            == "agent.event.request.failed"@ || t == "agent.event.inquiry.failed"@),
{
    lemma_event_names_differ();
}

/// A waiting agent gets its reply at once: an instance waiting for an
/// agent or for an inquiry hands either kind of reply straight to its
/// feed as a response, and keeps its buffer as it was.
pub proof fn law_reply_reaches_waiting_agent(r: InstanceRouterView, event: String)
    requires
        r.machine.state == InstanceState::WaitingForAgent || r.machine.state == InstanceState::WaitingForInquiry,
        event_type_of(event@) == "agent.event.talk_to.response"@ || event_type_of(event@)
            == "agent.event.inquiry.response"@,
    ensures
        after_receive(r, event) == (InstanceRouterView {
            fed: r.fed.push(FeedItem { kind: FeedItemKind::Response, event }),
            ..r
        }),
{
    lemma_event_names_differ();
    law_event_kinds(event_type_of(event@));
}

/// An idle agent takes user input at once; a generating agent takes
/// nothing and every non-signal event waits in its buffer.
pub proof fn law_input_reaches_idle_agent(r: InstanceRouterView, event: String)
    requires
        event_type_of(event@) == "agent.event.user_input"@,
    ensures
        r.machine.state == InstanceState::Idle ==> after_receive(r, event) == (InstanceRouterView {
            fed: r.fed.push(FeedItem { kind: FeedItemKind::Input, event }),
            ..r
        }),
        r.machine.state == InstanceState::Generating ==> after_receive(r, event).fed == r.fed
            && after_receive(r, event).buffer.contains(FeedItem { kind: FeedItemKind::Input, event }),
{
    lemma_event_names_differ();
    law_event_kinds(event_type_of(event@));
    if r.machine.state == InstanceState::Generating {
        let item = FeedItem { kind: FeedItemKind::Input, event };
        let b = crate::feed::make_room(r.buffer);
        let p = crate::feed::insert_position(b, item.kind);
        assert(p == b.len());
        assert(b.insert(p, item)[p] == item);
    }
}

/// Signals and keep-alives never reach an agent: these six types leave
/// the router as it was, and every other type is handled.
pub proof fn law_ignored_events(r: InstanceRouterView, event: String)
    ensures
        crate::feed::is_ignored_event(event_type_of(event@)) <==> ({
            let t = event_type_of(event@);
            t == "agent.signal.state_query"@ || t == "agent.signal.terminate"@ || t == "agent.signal.drain"@ || t
                == "agent.signal.interrupt"@ || t == "agent.event.request.alive"@ || t == "agent.event.inquiry.alive"@
        }),
        crate::feed::is_ignored_event(event_type_of(event@)) ==> after_receive(r, event) == r,
{
}

/// Which items an agent takes at once, by its state: an idle agent takes
/// input and inquiry interrupts, a waiting agent takes replies,
/// terminations and inquiry interrupts, a generating agent takes nothing.
/// What it takes goes to the feed with the buffer untouched; what it does
/// not take stays out of the feed.
pub proof fn law_delivery_by_state(r: InstanceRouterView, event: String)
    requires
        !crate::feed::is_ignored_event(event_type_of(event@)),
    ensures
        ({
            let k = kind_of(event_type_of(event@));
            let s = r.machine.state;
            let takes = match s {
                InstanceState::Idle => k == FeedItemKind::Input || k == FeedItemKind::InquiryInterrupt,
                InstanceState::Generating => false,
                _ => k == FeedItemKind::Response || k == FeedItemKind::Termination || k == FeedItemKind::InquiryInterrupt,
            };
            &&& takes ==> after_receive(r, event) == (InstanceRouterView {
                fed: r.fed.push(FeedItem { kind: k, event }),
                ..r
            })
            &&& !takes ==> after_receive(r, event).fed == r.fed && after_receive(r, event).machine == r.machine
        }),
{
}

// ── Outbound events and turns ────────────────────────────────────────────

/// Outbound tagging: while a turn is open, every agent output (type
/// starting with `agent.output.`) and every reply (to a talk_to or to an
/// inquiry) gets member `turn_id` set to the innermost open turn; any
/// other event, or any event while no turn is open, goes out unchanged.
pub proof fn law_outbound_tagging(turns: Seq<Seq<char>>, event: Seq<char>, t: Seq<char>)
    requires
        json_str_member(event, "type"@) == Some(t),
    ensures
        tagged_event(turns, event) == if turns.len() > 0 && (crate::text::has_prefix(t, "agent.output."@) || t
            == "agent.event.talk_to.response"@ || t == "agent.event.inquiry.response"@) {
            json_with_str_member(event, "turn_id"@, turns[turns.len() - 1]).unwrap()
        } else {
            event
        },
{
}

// ── The agent's event stream ─────────────────────────────────────────────

/// The history handed with user input keeps the conversation's order: when
/// every element carries string `id`, `role` and `content`, message `i` is
/// element `i`.
pub proof fn law_history_keeps_order(elems: Seq<Seq<char>>)
    requires
        forall|i: int| 0 <= i < elems.len() ==> (#[trigger] json_str_member(elems[i], "id"@)) is Some
            && json_str_member(elems[i], "role"@) is Some && json_str_member(elems[i], "content"@) is Some,
    ensures
        history_of(elems).len() == elems.len(),
        forall|i: int| 0 <= i < elems.len() ==> #[trigger] history_of(elems)[i] == (
            json_str_member(elems[i], "id"@).unwrap(),
            json_str_member(elems[i], "role"@).unwrap(),
            json_str_member(elems[i], "content"@).unwrap(),
        ),
    decreases elems.len(),
{
    if elems.len() > 0 {
        let rest = elems.drop_last();
        assert forall|i: int| 0 <= i < rest.len() implies (#[trigger] json_str_member(rest[i], "id"@)) is Some
            && json_str_member(rest[i], "role"@) is Some && json_str_member(rest[i], "content"@) is Some by {
            assert(rest[i] == elems[i]);
            assert(json_str_member(elems[i], "id"@) is Some);
        }
        law_history_keeps_order(rest);
        let n = elems.len() - 1;
        assert(json_str_member(elems[n], "id"@) is Some);
        assert forall|i: int| 0 <= i < elems.len() implies #[trigger] history_of(elems)[i] == (
            json_str_member(elems[i], "id"@).unwrap(),
            json_str_member(elems[i], "role"@).unwrap(),
            json_str_member(elems[i], "content"@).unwrap(),
        ) by {
            if i < n {
                assert(rest[i] == elems[i]);
                assert(history_of(rest)[i] == (
                    json_str_member(rest[i], "id"@).unwrap(),
                    json_str_member(rest[i], "role"@).unwrap(),
                    json_str_member(rest[i], "content"@).unwrap(),
                ));
            }
        }
    }
}

/// Messages of consecutive parts of a history come one part after the
/// other: elements that lack a member drop out, the others keep their order.
pub proof fn law_history_of_parts(a: Seq<Seq<char>>, b: Seq<Seq<char>>)
    ensures
        history_of(a + b) == history_of(a) + history_of(b),
    decreases b.len(),
{
    if b.len() == 0 {
        assert(a + b =~= a);
        assert(history_of(a) + history_of(b) =~= history_of(a));
    } else {
        law_history_of_parts(a, b.drop_last());
        assert((a + b).drop_last() =~= a + b.drop_last());
        assert((a + b).last() == b.last());
        let e = b.last();
        match (json_str_member(e, "id"@), json_str_member(e, "role"@), json_str_member(e, "content"@)) {
            (Some(i), Some(r), Some(c)) => {
                assert(history_of(a) + history_of(b.drop_last()).push((i, r, c)) =~= (history_of(a) + history_of(
                    b.drop_last(),
                )).push((i, r, c)));
            },
            _ => {},
        }
    }
}

/// The suggestions of an inquiry keep their order: when every element is
/// a JSON string, suggestion `i` is element `i`.
pub proof fn law_suggestions_keep_order(elems: Seq<Seq<char>>)
    requires
        forall|i: int| 0 <= i < elems.len() ==> (#[trigger] json_str_value(elems[i])) is Some,
    ensures
        strings_of(elems).len() == elems.len(),
        forall|i: int| 0 <= i < elems.len() ==> #[trigger] strings_of(elems)[i] == json_str_value(elems[i]).unwrap(),
    decreases elems.len(),
{
    if elems.len() > 0 {
        let rest = elems.drop_last();
        assert forall|i: int| 0 <= i < rest.len() implies (#[trigger] json_str_value(rest[i])) is Some by {
            assert(rest[i] == elems[i]);
            assert(json_str_value(elems[i]) is Some);
        }
        law_suggestions_keep_order(rest);
        let n = elems.len() - 1;
        assert(json_str_value(elems[n]) is Some);
        assert forall|i: int| 0 <= i < elems.len() implies #[trigger] strings_of(elems)[i] == json_str_value(
            elems[i],
        ).unwrap() by {
            if i < n {
                assert(rest[i] == elems[i]);
                assert(strings_of(rest)[i] == json_str_value(rest[i]).unwrap());
            }
        }
    }
}

// ── Completing a turn ────────────────────────────────────────────────────

/// Items an idle agent takes: input and inquiry interrupts.
pub open spec fn taken_when_idle() -> spec_fn(FeedItem) -> bool {
    |x: FeedItem| x.kind == FeedItemKind::Input || x.kind == FeedItemKind::InquiryInterrupt
}

/// Items an idle agent leaves waiting: replies and terminations.
pub open spec fn left_when_idle() -> spec_fn(FeedItem) -> bool {
    |x: FeedItem| !(x.kind == FeedItemKind::Input || x.kind == FeedItemKind::InquiryInterrupt)
}

proof fn lemma_idle_flush_splits(s: Seq<FeedItem>)
    ensures
        crate::feed::deliverable_items(s, InstanceState::Idle) == s.filter(taken_when_idle()),
        crate::feed::held_items(s, InstanceState::Idle) == s.filter(left_when_idle()),
    decreases s.len(),
{
    reveal(Seq::filter);
    if s.len() > 0 {
        lemma_idle_flush_splits(s.drop_last());
    }
}

/// Completing a turn closes the innermost turn and, once the instance is
/// idle, hands it what waited while it generated: every buffered input and
/// inquiry interrupt goes to its feed, in the order they arrived, and only
/// replies and terminations stay buffered. A generating instance becomes
/// idle.
pub proof fn law_completed_turn_hands_over_the_buffer(
    v: HostRouterView,
    iid: Seq<char>,
    tid: Seq<char>,
    result: Option<Seq<char>>,
)
    requires
        instance_host(v.hosts, iid) >= 0,
    ensures
        ({
            let before = crate::host_router::instance_view(v, iid);
            let after = crate::host_router::instance_view(after_complete_turn(v, iid, tid, result), iid);
            &&& before.machine.state == InstanceState::Generating ==> after.machine.state == InstanceState::Idle
            &&& before.turns.len() > 0 ==> after.turns == before.turns.drop_last()
            &&& after.machine.state == InstanceState::Idle ==> {
                &&& forall|i: int| 0 <= i < after.buffer.len() ==> (#[trigger] after.buffer[i]).kind != FeedItemKind::Input
                    && after.buffer[i].kind != FeedItemKind::InquiryInterrupt
                &&& after.fed == before.fed + before.buffer.filter(taken_when_idle())
                &&& after.buffer == before.buffer.filter(left_when_idle())
            }
        }),
{
    let before = crate::host_router::instance_view(v, iid);
    let p = instance_host(v.hosts, iid);
    let h = v.hosts[p];
    lemma_first_index_range(v.hosts, crate::host_router::hosts_instance(iid));
    lemma_first_index_range(h.routers, has_id(iid));
    assert(before.instance_id == iid);
    let x = crate::instance_router::after_flush(
        crate::grpc_service::after_enter(crate::grpc_service::after_pop(before), InstanceState::Idle),
    );
    crate::host_router::lemma_instance_view_after_update(v, iid, x);
    let after = crate::host_router::instance_view(after_complete_turn(v, iid, tid, result), iid);
    assert(after == x);
    let mid = crate::grpc_service::after_enter(crate::grpc_service::after_pop(before), InstanceState::Idle);
    assert(mid.buffer == before.buffer && mid.fed == before.fed);
    lemma_idle_flush_splits(mid.buffer);
    if after.machine.state == InstanceState::Idle {
        assert forall|i: int| 0 <= i < after.buffer.len() implies (#[trigger] after.buffer[i]).kind != FeedItemKind::Input
            && after.buffer[i].kind != FeedItemKind::InquiryInterrupt by {
            mid.buffer.lemma_filter_pred(left_when_idle(), i);
        }
    }
}

/// Where a talk_to goes: a continued conversation goes to the instance the
/// caller talked to before, when there was one; otherwise to the target
/// agent's first running instance, or to `<target>-0` when none runs.
pub proof fn law_talk_to_destination(v: HostRouterView, caller: Seq<char>, target: Seq<char>, cont: bool)
    ensures
        ({
            let c = crate::host_router::conversation_position(v.conversations, caller, target);
            let hp = crate::host_router::host_position(v.hosts, target);
            &&& cont && c >= 0 ==> talk_target(v, caller, target, cont) == v.conversations[c].2
            &&& !(cont && c >= 0) && hp >= 0 && v.hosts[hp].routers.len() > 0 ==> talk_target(v, caller, target, cont)
                == v.hosts[hp].routers[0].instance_id
            &&& !(cont && c >= 0) && !(hp >= 0 && v.hosts[hp].routers.len() > 0) ==> talk_target(v, caller, target, cont)
                == target + "-0"@
        }),
{
}

proof fn lemma_stream_types_differ()
    ensures
        "agent.event.user_input"@ != "agent.event.talk_to.request"@,
        "agent.event.user_input"@ != "agent.event.inquiry.request"@,
        "agent.event.user_input"@ != "agent.signal.drain"@,
        "agent.event.user_input"@ != "agent.signal.terminate"@,
        "agent.event.user_input"@ != "agent.signal.interrupt"@,
        "agent.event.talk_to.request"@ != "agent.event.inquiry.request"@,
        "agent.event.talk_to.request"@ != "agent.signal.drain"@,
        "agent.event.talk_to.request"@ != "agent.signal.terminate"@,
        "agent.event.talk_to.request"@ != "agent.signal.interrupt"@,
        "agent.event.inquiry.request"@ != "agent.signal.drain"@,
        "agent.event.inquiry.request"@ != "agent.signal.terminate"@,
        "agent.event.inquiry.request"@ != "agent.signal.interrupt"@,
        "agent.signal.drain"@ != "agent.signal.terminate"@,
        "agent.signal.drain"@ != "agent.signal.interrupt"@,
        "agent.signal.terminate"@ != "agent.signal.interrupt"@,
{
    reveal_strlit("agent.event.user_input");
    reveal_strlit("agent.event.talk_to.request");
    reveal_strlit("agent.event.inquiry.request");
    reveal_strlit("agent.signal.drain");
    reveal_strlit("agent.signal.terminate");
    reveal_strlit("agent.signal.interrupt");
    assert("agent.event.user_input"@.len() == 22);
    assert("agent.event.talk_to.request"@.len() == 27);
    assert("agent.event.inquiry.request"@.len() == 27);
    assert("agent.signal.drain"@.len() == 18);
    assert("agent.signal.terminate"@.len() == 22);
    assert("agent.signal.interrupt"@.len() == 22);
    assert("agent.event.user_input"@[6] != "agent.signal.terminate"@[6]);
    assert("agent.event.user_input"@[6] != "agent.signal.interrupt"@[6]);
    assert("agent.event.talk_to.request"@[12] != "agent.event.inquiry.request"@[12]);
    assert("agent.signal.terminate"@[13] != "agent.signal.interrupt"@[13]);
}

/// What the agent's event stream carries for each type of fed event: user
/// input with its text and history, a talk_to request with its id, caller
/// and text, an inquiry with its id, asker, content, suggestions and
/// priority (`normal` when none is given), the three signals as such, and
/// any other event as input holding the event's compact JSON.
pub proof fn law_stream_events(k: RouterEventKind, ev: Seq<char>)
    requires
        kind_describes(k, ev),
    ensures
        ({
            let t = crate::wire::str_member_or_empty(ev, "type"@);
            let m = |key: Seq<char>| crate::wire::str_member_or_empty(ev, key);
            &&& t == "agent.event.user_input"@ ==> (k matches RouterEventKind::UserInput { text, history } && text@ == m(
                "text"@,
            ) && crate::grpc_service::history_view(history@) == history_of(crate::json::json_array_member(ev, "history"@)))
            &&& t == "agent.event.talk_to.request"@ ==> (k matches RouterEventKind::TalkToRequest {
                request_id,
                caller_agent,
                text,
            } && request_id@ == m("request_id"@) && caller_agent@ == m("caller_agent"@) && text@ == m("text"@))
            &&& t == "agent.event.inquiry.request"@ ==> (k matches RouterEventKind::InquiryRequest {
                inquiry_id,
                from_agent,
                content_markdown,
                suggestions,
                priority,
            } && inquiry_id@ == m("inquiry_id"@) && from_agent@ == m("from_agent"@) && content_markdown@ == m(
                "content_markdown"@,
            ) && crate::wire::string_views(suggestions@) == strings_of(crate::json::json_array_member(ev, "suggestions"@))
                && priority@ == (if json_str_member(ev, "priority"@) is Some {
                json_str_member(ev, "priority"@).unwrap()
            } else {
                "normal"@
            }))
            &&& t == "agent.signal.drain"@ ==> k is Drain
            &&& t == "agent.signal.terminate"@ ==> k is Terminate
            &&& t == "agent.signal.interrupt"@ ==> k is Interrupt
        }),
{
    lemma_stream_types_differ();
}

/// The lifecycle of an instance: idle goes to generating; generating goes
/// back to idle or waits for an agent or an inquiry; a waiting state is
/// left only by its reply. States travel under their snake_case names.
pub proof fn law_lifecycle(from: InstanceState, to: InstanceState)
    ensures
        crate::state_machine::valid_transition(from, to) <==> (from == InstanceState::Idle && to
            == InstanceState::Generating) || (from == InstanceState::Generating && (to == InstanceState::Idle || to
            == InstanceState::WaitingForAgent || to == InstanceState::WaitingForInquiry)),
        crate::state_machine::state_name(from) == match from {
            InstanceState::Idle => "idle"@,
            InstanceState::Generating => "generating"@,
            InstanceState::WaitingForAgent => "waiting_for_agent"@,
            InstanceState::WaitingForInquiry => "waiting_for_inquiry"@,
        },
{
}

} // verus!
