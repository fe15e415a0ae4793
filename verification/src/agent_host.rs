//! All instances of one agent type: spawning, killing, dispatching events
//! to the right instance, and heartbeat reporting.
use vstd::prelude::*;
use vstd::string::*;
use crate::feed::FeedItem;
use crate::instance_router::{InstanceRouter, InstanceRouterView, fresh_router, after_receive, enqueue_all, fed_since};
use crate::lookup::lemma_first_index_after_upsert;
use crate::json::get_str_member;
use crate::lookup::{first_index, is_first, lemma_first_index_is, lemma_first_index_none, lemma_first_index_range};
use crate::state_machine::{InstanceState, state_name};
use crate::text::str_eq;
use crate::wire::{HeartbeatInstance, str_member_or_empty};

verus! {

/// The router belongs to instance `id`.
pub open spec fn has_id(id: Seq<char>) -> spec_fn(InstanceRouterView) -> bool {
    |r: InstanceRouterView| r.instance_id == id
}

/// Where instance `id` sits among `routers`, -1 when absent.
pub open spec fn position_of(routers: Seq<InstanceRouterView>, id: Seq<char>) -> int {
    first_index(routers, has_id(id))
}

/// The routers after spawning `id`: a fresh router replaces an existing
/// instance of that id in place, or is appended.
pub open spec fn after_spawn(routers: Seq<InstanceRouterView>, id: Seq<char>) -> Seq<InstanceRouterView> {
    let p = position_of(routers, id);
    if p >= 0 {
        routers.update(p, fresh_router(id))
    } else {
        routers.push(fresh_router(id))
    }
}

pub open spec fn after_kill(routers: Seq<InstanceRouterView>, id: Seq<char>) -> Seq<InstanceRouterView> {
    let p = position_of(routers, id);
    if p >= 0 {
        routers.remove(p)
    } else {
        routers
    }
}

/// Spawning `id` leaves where every other instance is found.
pub proof fn lemma_spawn_keeps_others(routers: Seq<InstanceRouterView>, id: Seq<char>, k: Seq<char>)
    requires
        k != id,
    ensures
        position_of(after_spawn(routers, id), k) == position_of(routers, k),
{
    let s2 = after_spawn(routers, id);
    let i = position_of(routers, id);
    lemma_first_index_range(routers, has_id(id));
    lemma_first_index_range(routers, has_id(k));
    if i >= 0 {
        assert forall|j: int| 0 <= j < routers.len() implies has_id(k)(#[trigger] routers[j]) == has_id(k)(s2[j]) by {
            if j == i {
                assert(s2[j].instance_id == id);
            }
        }
        crate::lookup::lemma_first_index_same(routers, s2, has_id(k));
    } else {
        let q = position_of(routers, k);
        if q >= 0 {
            assert(is_first(s2, has_id(k), q)) by {
                assert forall|j: int| 0 <= j < q implies !has_id(k)(#[trigger] s2[j]) by {
                    assert(s2[j] == routers[j]);
                }
                assert(s2[q] == routers[q]);
            }
            lemma_first_index_is(s2, has_id(k), q);
        } else {
            assert forall|j: int| 0 <= j < s2.len() implies !has_id(k)(#[trigger] s2[j]) by {
                if j < routers.len() {
                    assert(s2[j] == routers[j]);
                } else {
                    assert(s2[j].instance_id == id);
                }
            }
            lemma_first_index_none(s2, has_id(k));
        }
    }
}

/// The routers after an event addressed by its `instance_id` member; an
/// event for an unknown instance is dropped.
pub open spec fn after_dispatch(routers: Seq<InstanceRouterView>, event: String) -> Seq<InstanceRouterView> {
    let p = position_of(routers, str_member_or_empty(event@, "instance_id"@));
    if p >= 0 {
        routers.update(p, after_receive(routers[p], event))
    } else {
        routers
    }
}

/// Each instance with its state name, in table order.
pub open spec fn heartbeat_of(r: Seq<HeartbeatInstance>, routers: Seq<InstanceRouterView>) -> bool {
    &&& r.len() == routers.len()
    &&& forall|i: int| 0 <= i < r.len() ==> (#[trigger] r[i]).instance_id@ == routers[i].instance_id
        && r[i].state@ == state_name(routers[i].machine.state)
}

pub struct AgentHostView {
    pub agent_key: Seq<char>,
    pub routers: Seq<InstanceRouterView>,
}

spec fn routers_of(handles: Seq<InstanceRouter>) -> Seq<InstanceRouterView> {
    handles.map_values(|h: InstanceRouter| h@)
}

proof fn lemma_routers_of_update()
    ensures
        forall|s: Seq<InstanceRouter>, i: int, h: InstanceRouter| 0 <= i < s.len() ==> #[trigger] routers_of(s.update(i, h))
            == routers_of(s).update(i, h@),
{
    assert forall|s: Seq<InstanceRouter>, i: int, h: InstanceRouter| 0 <= i < s.len() implies #[trigger] routers_of(
        s.update(i, h),
    ) == routers_of(s).update(i, h@) by {
        assert(routers_of(s.update(i, h)) =~= routers_of(s).update(i, h@));
    }
}

/// The instances of one agent type.
pub struct AgentHostRouter {
    agent_key: String,
    instances: Vec<InstanceRouter>,
}

impl View for AgentHostRouter {
    type V = AgentHostView;

    closed spec fn view(&self) -> AgentHostView {
        AgentHostView { agent_key: self.agent_key@, routers: routers_of(self.instances@) }
    }
}

impl AgentHostRouter {
    pub fn new(agent_key: String) -> (r: AgentHostRouter)
        ensures
            r@.agent_key == agent_key@,
            r@.routers == Seq::<InstanceRouterView>::empty(),
    {
        let r = AgentHostRouter { agent_key, instances: Vec::new() };
        assert(r@.routers =~= Seq::<InstanceRouterView>::empty());
        r
    }

    /// The items waiting for the agent of instance `id`, oldest first; none
    /// when no such instance runs here.
    pub closed spec fn feed_of(&self, id: Seq<char>) -> Seq<FeedItem> {
        let p = position_of(self@.routers, id);
        if p >= 0 {
            self.instances@[p].feed_queue()
        } else {
            Seq::empty()
        }
    }

    /// Instance `id` runs here and its agent's items are taken out through
    /// this host (`take_feed_item`).
    pub closed spec fn feed_ready(&self, id: Seq<char>) -> bool {
        let p = position_of(self@.routers, id);
        p >= 0 && self.instances@[p].hosted()
    }

    pub fn agent_key(&self) -> (r: &str)
        ensures
            r@ == self@.agent_key,
    {
        self.agent_key.as_str()
    }

    pub fn instance_count(&self) -> (r: usize)
        ensures
            r == self@.routers.len(),
    {
        self.instances.len()
    }

    fn find(&self, instance_id: &str) -> (r: Option<usize>)
        ensures
            match r {
                Some(i) => i == position_of(self@.routers, instance_id@) && i < self@.routers.len(),
                None => position_of(self@.routers, instance_id@) == -1,
            },
    {
        let ghost routers = self@.routers;
        let ghost p = has_id(instance_id@);
        let mut i: usize = 0;
        while i < self.instances.len()
            invariant
                i <= self.instances@.len(),
                routers == routers_of(self.instances@),
                p == has_id(instance_id@),
                forall|j: int| 0 <= j < i ==> !p(#[trigger] routers[j]),
            decreases self.instances@.len() - i,
        {
            if str_eq(self.instances[i].instance_id(), instance_id) {
                proof {
                    assert(p(routers[i as int]));
                    assert(is_first(routers, p, i as int));
                    lemma_first_index_is(routers, p, i as int);
                }
                return Some(i);
            }
            i += 1;
        }
        proof { lemma_first_index_none(routers, p); }
        None
    }

    pub fn instance_state(&self, instance_id: &str) -> (r: Option<InstanceState>)
        ensures
            ({
                let p = position_of(self@.routers, instance_id@);
                r == if p >= 0 { Some(self@.routers[p].machine.state) } else { None::<InstanceState> }
            }),
    {
        match self.find(instance_id) {
            Some(i) => Some(self.instances[i].state_machine().state()),
            None => None,
        }
    }

    /// Starts a fresh instance; one already running under the same id is replaced.
    pub fn spawn_instance(&mut self, instance_id: String, history: Vec<String>)
        ensures
            final(self)@ == (AgentHostView { routers: after_spawn(old(self)@.routers, instance_id@), ..old(self)@ }),
            final(self).feed_ready(instance_id@),
            final(self).feed_of(instance_id@) == Seq::<FeedItem>::empty(),
            forall|k: Seq<char>| k != instance_id@ ==> #[trigger] final(self).feed_of(k) == old(self).feed_of(k),
            forall|k: Seq<char>| k != instance_id@ ==> #[trigger] final(self).feed_ready(k) == old(self).feed_ready(k),
    {
        let router = InstanceRouter::new_hosted(instance_id.clone(), history);
        let ghost nr = router;
        match self.find(instance_id.as_str()) {
            Some(i) => {
                self.instances.set(i, router);
                assert(self.instances@ == old(self).instances@.update(i as int, nr));
            },
            None => {
                self.instances.push(router);
                assert(self.instances@ == old(self).instances@.push(nr));
            },
        }
        assert(self@.routers =~= after_spawn(old(self)@.routers, instance_id@));
        proof {
            lemma_first_index_after_upsert(old(self)@.routers, has_id(instance_id@), fresh_router(instance_id@));
            let p = position_of(self@.routers, instance_id@);
            assert(self@.routers[p] == nr@);
            assert(self.instances@[p]@ == nr@);
            if position_of(old(self)@.routers, instance_id@) >= 0 {
                assert(self.instances@[p] == nr);
            } else {
                assert(p == old(self)@.routers.len());
                assert(self.instances@[p] == nr);
            }
            let t = instance_id@;
            let s1 = old(self)@.routers;
            let s2 = self@.routers;
            let i = position_of(s1, t);
            assert forall|k: Seq<char>|
                #![trigger self.feed_of(k)]
                #![trigger self.feed_ready(k)]
                k != t implies self.feed_of(k) == old(self).feed_of(k) && self.feed_ready(k) == old(self).feed_ready(k) by {
                crate::lookup::lemma_first_index_range(s1, has_id(k));
                let q = position_of(s1, k);
                if i >= 0 {
                    assert forall|j: int| 0 <= j < s1.len() implies has_id(k)(#[trigger] s1[j]) == has_id(k)(s2[j]) by {
                        if j == i {
                            assert(s1[j].instance_id == t);
                            assert(s2[j].instance_id == t);
                        }
                    }
                    crate::lookup::lemma_first_index_same(s1, s2, has_id(k));
                    if q >= 0 {
                        assert(q != i);
                        assert(self.instances@[q] == old(self).instances@[q]);
                    }
                } else {
                    crate::lookup::lemma_first_index_range(s2, has_id(k));
                    if q >= 0 {
                        assert(is_first(s2, has_id(k), q)) by {
                            assert forall|j: int| 0 <= j < q implies !has_id(k)(#[trigger] s2[j]) by {
                                assert(s2[j] == s1[j]);
                            }
                            assert(s2[q] == s1[q]);
                        }
                        crate::lookup::lemma_first_index_is(s2, has_id(k), q);
                        assert(self.instances@[q] == old(self).instances@[q]);
                    } else {
                        assert forall|j: int| 0 <= j < s2.len() implies !has_id(k)(#[trigger] s2[j]) by {
                            if j < s1.len() {
                                assert(s2[j] == s1[j]);
                            } else {
                                assert(s2[j].instance_id == t);
                            }
                        }
                        crate::lookup::lemma_first_index_none(s2, has_id(k));
                    }
                }
            }
        }
    }

    pub fn kill_instance(&mut self, instance_id: &str)
        ensures
            final(self)@ == (AgentHostView { routers: after_kill(old(self)@.routers, instance_id@), ..old(self)@ }),
    {
        match self.find(instance_id) {
            Some(i) => {
                self.instances.remove(i);
            },
            None => {},
        }
        assert(self@.routers =~= after_kill(old(self)@.routers, instance_id@));
    }

    /// Hands an event (JSON text) to the instance its `instance_id` names.
    pub fn dispatch(&mut self, event: String)
        ensures
            final(self)@ == (AgentHostView { routers: after_dispatch(old(self)@.routers, event), ..old(self)@ }),
            ({
                let t = str_member_or_empty(event@, "instance_id"@);
                let p = position_of(old(self)@.routers, t);
                &&& final(self).feed_ready(t) == old(self).feed_ready(t)
                &&& old(self).feed_ready(t) ==> final(self).feed_of(t) == enqueue_all(
                    old(self).feed_of(t),
                    fed_since(old(self)@.routers[p], final(self)@.routers[p]),
                )
            }),
            forall|k: Seq<char>| k != str_member_or_empty(event@, "instance_id"@) ==> #[trigger] final(self).feed_of(k)
                == old(self).feed_of(k),
            forall|k: Seq<char>| k != str_member_or_empty(event@, "instance_id"@) ==> #[trigger] final(self).feed_ready(k)
                == old(self).feed_ready(k),
    {
        let instance_id = match get_str_member(event.as_str(), "instance_id") {
            Some(s) => s,
            None => String::new(),
        };
        match self.find(instance_id.as_str()) {
            Some(i) => {
                let mut router = self.instances.remove(i);
                let ghost before = router;
                router.receive(event);
                let ghost after = router;
                self.instances.insert(i, router);
                assert(self.instances@ =~= old(self).instances@.update(i as int, after));
                assert(self@.routers =~= after_dispatch(old(self)@.routers, event));
                proof {
                    let t = instance_id@;
                    lemma_first_index_after_upsert(old(self)@.routers, has_id(t), after@);
                    assert(before == old(self).instances@[i as int]);
                    assert forall|k: Seq<char>|
                        #![trigger self.feed_of(k)]
                        #![trigger self.feed_ready(k)]
                        k != instance_id@ implies self.feed_of(k) == old(self).feed_of(k)
                        && self.feed_ready(k) == old(self).feed_ready(k) by {
                        let s1 = old(self)@.routers;
                        let s2 = self@.routers;
                        assert forall|j: int| 0 <= j < s1.len() implies has_id(k)(#[trigger] s1[j]) == has_id(k)(s2[j]) by {
                            if j == i {
                                assert(s1[j].instance_id == t);
                                assert(s2[j].instance_id == t);
                            }
                        }
                        crate::lookup::lemma_first_index_same(s1, s2, has_id(k));
                        crate::lookup::lemma_first_index_range(s1, has_id(k));
                        let q = position_of(s1, k);
                        if q >= 0 {
                            assert(q != i);
                            assert(self.instances@[q] == old(self).instances@[q]);
                        }
                    }
                }
            },
            None => {},
        }
    }

    pub fn get_instance_router(&self, instance_id: &str) -> (r: Option<&InstanceRouter>)
        ensures
            match r {
                Some(router) => position_of(self@.routers, instance_id@) >= 0 && router@ == self@.routers[position_of(
                    self@.routers,
                    instance_id@,
                )],
                None => position_of(self@.routers, instance_id@) == -1,
            },
    {
        match self.find(instance_id) {
            Some(i) => Some(&self.instances[i]),
            None => None,
        }
    }

    /// The router of an instance, for driving its lifecycle.
    pub fn get_instance_router_mut(&mut self, instance_id: &str) -> (r: Option<&mut InstanceRouter>)
        ensures
            ({
                let p = position_of(old(self)@.routers, instance_id@);
                match r {
                    Some(router) => p >= 0 && router@ == old(self)@.routers[p] && final(self)@ == (AgentHostView {
                        routers: old(self)@.routers.update(p, final(router)@),
                        ..old(self)@
                    }) && old(self).feed_of(instance_id@) == router.feed_queue() && old(self).feed_ready(instance_id@)
                        == router.hosted() && (final(router)@.instance_id == instance_id@ ==> final(self).feed_of(
                        instance_id@,
                    ) == final(router).feed_queue() && final(self).feed_ready(instance_id@) == final(router).hosted())
                        && (final(router)@.instance_id == instance_id@ ==> forall|k: Seq<char>|
                        #![trigger final(self).feed_of(k)]
                        #![trigger final(self).feed_ready(k)]
                        k != instance_id@ ==> final(self).feed_of(k) == old(self).feed_of(k)
                        && final(self).feed_ready(k) == old(self).feed_ready(k)),
                    None => p == -1 && final(self)@ == old(self)@,
                }
            }),
    {
        match self.find(instance_id) {
            Some(i) => {
                proof {
                    lemma_routers_of_update();
                    let routers = old(self)@.routers;
                    let id = instance_id@;
                    assert forall|x: InstanceRouterView| x.instance_id == id implies #[trigger] position_of(
                        routers.update(i as int, x),
                        id,
                    ) == i by {
                        lemma_first_index_after_upsert(routers, has_id(id), x);
                    }
                    assert forall|x: InstanceRouterView, k: Seq<char>| x.instance_id == id && k != id implies #[trigger] position_of(
                        routers.update(i as int, x),
                        k,
                    ) == position_of(routers, k) && position_of(routers, k) != i by {
                        let r2 = routers.update(i as int, x);
                        assert forall|j: int| 0 <= j < routers.len() implies has_id(k)(#[trigger] routers[j]) == has_id(k)(r2[j]) by {
                            if j == i {
                                assert(routers[j].instance_id == id);
                            }
                        }
                        crate::lookup::lemma_first_index_same(routers, r2, has_id(k));
                        lemma_first_index_range(routers, has_id(k));
                        assert(routers[i as int].instance_id == id);
                    }
                }
                Some(&mut self.instances[i])
            },
            None => None,
        }
    }

    /// The oldest item waiting for the agent of instance `id`, taken out of
    /// its feed; none when nothing waits or no such instance runs here.
    pub fn take_feed_item(&mut self, instance_id: &str) -> (r: Option<FeedItem>)
        ensures
            final(self)@ == old(self)@,
            final(self).feed_ready(instance_id@) == old(self).feed_ready(instance_id@),
            ({
                let q = old(self).feed_of(instance_id@);
                let some = old(self).feed_ready(instance_id@) && q.len() > 0;
                &&& r == if some { Some(q[0]) } else { None::<FeedItem> }
                &&& final(self).feed_of(instance_id@) == if some { q.drop_first() } else { q }
            }),
            forall|k: Seq<char>| k != instance_id@ ==> #[trigger] final(self).feed_of(k) == old(self).feed_of(k),
            forall|k: Seq<char>| k != instance_id@ ==> #[trigger] final(self).feed_ready(k) == old(self).feed_ready(k),
    {
        match self.find(instance_id) {
            Some(i) => {
                let mut router = self.instances.remove(i);
                let item = router.take_fed();
                let ghost after = router;
                self.instances.insert(i, router);
                assert(self.instances@ =~= old(self).instances@.update(i as int, after));
                assert(self@.routers =~= old(self)@.routers);
                proof {
                    let rs = old(self)@.routers;
                    assert(rs[i as int].instance_id == instance_id@);
                    assert forall|k: Seq<char>|
                        #![trigger self.feed_of(k)]
                        #![trigger self.feed_ready(k)]
                        k != instance_id@ implies self.feed_of(k) == old(self).feed_of(k)
                        && self.feed_ready(k) == old(self).feed_ready(k) by {
                        crate::lookup::lemma_first_index_range(rs, has_id(k));
                        let q = position_of(rs, k);
                        if q >= 0 {
                            assert(q != i);
                            assert(self.instances@[q] == old(self).instances@[q]);
                        }
                    }
                }
                item
            },
            None => None,
        }
    }

    pub fn collect_heartbeat(&self) -> (r: Vec<HeartbeatInstance>)
        ensures
            heartbeat_of(r@, self@.routers),
    {
        let mut out: Vec<HeartbeatInstance> = Vec::new();
        let mut i: usize = 0;
        while i < self.instances.len()
            invariant
                i <= self.instances@.len(),
                heartbeat_of(out@, routers_of(self.instances@).take(i as int)),
            decreases self.instances@.len() - i,
        {
            let router = &self.instances[i];
            let state = router.state_machine().state();
            out.push(HeartbeatInstance {
                instance_id: String::from_str(router.instance_id()),
                state: String::from_str(state.as_str()),
            });
            i += 1;
        }
        assert(routers_of(self.instances@).take(i as int) =~= self@.routers);
        out
    }

    pub fn instance_ids(&self) -> (r: Vec<String>)
        ensures
            r.deep_view() == self@.routers.map_values(|r: InstanceRouterView| r.instance_id),
    {
        let mut out: Vec<String> = Vec::new();
        let mut i: usize = 0;
        while i < self.instances.len()
            invariant
                i <= self.instances@.len(),
                out@.len() == i,
                forall|j: int| 0 <= j < i ==> (#[trigger] out@[j])@ == routers_of(self.instances@)[j].instance_id,
            decreases self.instances@.len() - i,
        {
            out.push(String::from_str(self.instances[i].instance_id()));
            i += 1;
        }
        assert(out.deep_view() =~= self@.routers.map_values(|r: InstanceRouterView| r.instance_id));
        out
    }
}

} // verus!
