//! Packages exchanged with the engine. The router reads little of a
//! package: its `type` and `instance_id`; the rest travels as JSON text.
use vstd::prelude::*;
use crate::json::{
    json_is_object, json_is_value, json_depth, json_parse_error, json_has_member, json_str_member, json_with_str_member, json_with_member,
    json_array_text, json_empty_object, get_str_member, has_member, with_str_member, with_member, array_of,
};
use crate::text::{has_prefix, starts_with};

verus! {

/// One instance's entry in a heartbeat.
#[derive(Debug, Clone)]
pub struct HeartbeatInstance {
    pub instance_id: String,
    pub state: String,
}

/// The string member `key`, or empty text when there is none.
pub open spec fn str_member_or_empty(text: Seq<char>, key: Seq<char>) -> Seq<char> {
    match json_str_member(text, key) {
        Some(s) => s,
        None => Seq::empty(),
    }
}

/// `text` with the string member `key` set to `value`.
pub open spec fn with_str(text: Seq<char>, key: Seq<char>, value: Seq<char>) -> Seq<char> {
    json_with_str_member(text, key, value).unwrap()
}

/// A package object with a `type` member and two more string members.
pub open spec fn package_text(ptype: Seq<char>, k1: Seq<char>, v1: Seq<char>, k2: Seq<char>, v2: Seq<char>) -> Seq<char> {
    with_str(with_str(with_str("{}"@, "type"@, ptype), k1, v1), k2, v2)
}

pub open spec fn heartbeat_entry_text(i: HeartbeatInstance) -> Seq<char> {
    with_str(with_str("{}"@, "instance_id"@, i.instance_id@), "state"@, i.state@)
}

pub open spec fn heartbeat_text(instances: Seq<HeartbeatInstance>) -> Seq<char> {
    json_with_member(
        with_str("{}"@, "type"@, "connection.heartbeat"@),
        "instances"@,
        json_array_text(instances.map_values(|i: HeartbeatInstance| heartbeat_entry_text(i))).unwrap(),
    ).unwrap()
}

/// A package that carries the given type and the two string members.
pub open spec fn carries(p: Seq<char>, ptype: Seq<char>, k1: Seq<char>, v1: Seq<char>, k2: Seq<char>, v2: Seq<char>) -> bool {
    &&& json_str_member(p, "type"@) == Some(ptype)
    &&& json_str_member(p, k1) == Some(v1)
    &&& json_str_member(p, k2) == Some(v2)
}

/// Sets a string member of an object, which always succeeds.
pub(crate) fn set_str(text: String, key: &str, value: &str) -> (r: String)
    requires
        json_is_object(text@),
    ensures
        r@ == with_str(text@, key@, value@),
        json_is_object(r@),
        json_is_value(r@),
        json_depth(r@) <= json_depth(text@),
        json_str_member(r@, key@) == Some(value@),
        json_has_member(r@, key@),
        forall|k: Seq<char>| k != key@ ==> json_str_member(r@, k) == json_str_member(text@, k)
            && json_has_member(r@, k) == json_has_member(text@, k),
{
    with_str_member(text.as_str(), key, value).unwrap()
}

fn build_package(ptype: &str, k1: &str, v1: &str, k2: &str, v2: &str) -> (r: String)
    requires
        "type"@ != k1@,
        "type"@ != k2@,
        k1@ != k2@,
    ensures
        r@ == package_text(ptype@, k1@, v1@, k2@, v2@),
        json_is_object(r@),
        json_has_member(r@, "type"@),
        carries(r@, ptype@, k1@, v1@, k2@, v2@),
{
    let t = set_str(json_empty_object(), "type", ptype);
    let t = set_str(t, k1, v1);
    set_str(t, k2, v2)
}

/// An object holding the string members `keys[i]: values[i]`, set in order.
pub open spec fn object_text(keys: Seq<Seq<char>>, values: Seq<Seq<char>>) -> Seq<char>
    decreases keys.len(),
{
    if keys.len() == 0 || values.len() == 0 {
        "{}"@
    } else {
        with_str(object_text(keys.drop_last(), values.drop_last()), keys.last(), values.last())
    }
}

pub open spec fn distinct(keys: Seq<Seq<char>>) -> bool {
    forall|i: int, j: int| 0 <= i < j < keys.len() ==> keys[i] != keys[j]
}

pub open spec fn str_views(v: Seq<&str>) -> Seq<Seq<char>> {
    v.map_values(|k: &str| k@)
}

pub open spec fn string_views(v: Seq<String>) -> Seq<Seq<char>> {
    v.map_values(|k: String| k@)
}

/// Builds an object of string members; with distinct keys each member
/// reads back as its value and no other member is there.
pub(crate) fn build_object(keys: &Vec<&str>, values: &Vec<String>) -> (r: String)
    requires
        keys@.len() == values@.len(),
    ensures
        r@ == object_text(str_views(keys@), string_views(values@)),
        json_is_object(r@),
        json_is_value(r@),
        json_depth(r@) <= 1,
        distinct(str_views(keys@)) ==> forall|i: int| 0 <= i < keys@.len() ==> json_str_member(r@, #[trigger] keys@[i]@) == Some(values@[i]@),
        forall|k: Seq<char>| !str_views(keys@).contains(k) ==> json_str_member(r@, k) is None && !json_has_member(r@, k),
        forall|i: int| 0 <= i < keys@.len() ==> json_has_member(r@, #[trigger] keys@[i]@),
{
    let ghost ks = str_views(keys@);
    let ghost vs = string_views(values@);
    let mut t = json_empty_object();
    let mut i: usize = 0;
    assert forall|k: Seq<char>| !ks.take(0).contains(k) implies json_str_member(t@, k) is None && !json_has_member(
        t@,
        k,
    ) by {
        assert(!json_has_member(t@, k) && json_str_member(t@, k) is None);
    }
    assert(object_text(ks.take(0), vs.take(0)) == "{}"@);
    while i < keys.len()
        invariant
            i <= keys@.len(),
            keys@.len() == values@.len(),
            ks == str_views(keys@),
            vs == string_views(values@),
            t@ == object_text(ks.take(i as int), vs.take(i as int)),
            json_is_object(t@),
            json_is_value(t@),
            json_depth(t@) <= 1,
            distinct(ks) ==> forall|j: int| 0 <= j < i ==> json_str_member(t@, #[trigger] ks[j]) == Some(vs[j]),
            forall|j: int| 0 <= j < i ==> json_has_member(t@, #[trigger] ks[j]),
            forall|k: Seq<char>| !(#[trigger] ks.take(i as int).contains(k)) ==> json_str_member(t@, k) is None
                && !json_has_member(t@, k),
        decreases keys@.len() - i,
    {
        let ghost prev = t@;
        t = set_str(t, keys[i], values[i].as_str());
        proof {
            assert(ks.take(i + 1).drop_last() =~= ks.take(i as int));
            assert(vs.take(i + 1).drop_last() =~= vs.take(i as int));
            assert(ks[i as int] == keys@[i as int]@);
            assert(vs[i as int] == values@[i as int]@);
            assert forall|k: Seq<char>| !ks.take(i + 1).contains(k) implies json_str_member(t@, k) is None
                && !json_has_member(t@, k) by {
                assert(k != ks[i as int]) by {
                    if k == ks[i as int] {
                        assert(ks.take(i + 1)[i as int] == k);
                    }
                }
                if ks.take(i as int).contains(k) {
                    let m = choose|m: int| 0 <= m < ks.take(i as int).len() && ks.take(i as int)[m] == k;
                    assert(ks.take(i + 1)[m] == k);
                }
            }
        }
        i += 1;
    }
    proof {
        assert(ks.take(i as int) =~= ks);
        assert(vs.take(i as int) =~= vs);
        assert forall|k: Seq<char>| !str_views(keys@).contains(k) implies json_str_member(t@, k) is None
            && !json_has_member(t@, k) by {
            assert(!ks.take(i as int).contains(k));
            assert(json_str_member(t@, k) is None && !json_has_member(t@, k));
        }
        assert forall|j: int| 0 <= j < keys@.len() implies json_has_member(t@, #[trigger] keys@[j]@) by {
            assert(ks[j] == keys@[j]@);
        }
        if distinct(ks) {
            assert forall|j: int| 0 <= j < keys@.len() implies json_str_member(t@, #[trigger] keys@[j]@) == Some(
                values@[j]@,
            ) by {
                assert(ks[j] == keys@[j]@);
                assert(vs[j] == values@[j]@);
            }
        }
    }
    t
}

/// One package exchanged with the engine.
#[derive(Debug)]
pub struct WirePackage {
    inner: String,
}

impl Clone for WirePackage {
    fn clone(&self) -> (r: WirePackage)
        ensures
            r@ == self@,
    {
        proof { use_type_invariant(self); }
        WirePackage { inner: self.inner.clone() }
    }
}

/// The member names a package is built from are distinct.
proof fn lemma_member_names_distinct()
    ensures
        "type"@ != "api_key"@,
        "type"@ != "name"@,
        "type"@ != "role"@,
        "name"@ != "role"@,
        "type"@ != "instance_id"@,
        "type"@ != "state"@,
        "type"@ != "agent_key"@,
        "type"@ != "instances"@,
        "instance_id"@ != "state"@,
        "instance_id"@ != "agent_key"@,
{
    reveal_strlit("type");
    reveal_strlit("api_key");
    reveal_strlit("name");
    reveal_strlit("role");
    reveal_strlit("instance_id");
    reveal_strlit("state");
    reveal_strlit("agent_key");
    reveal_strlit("instances");
    assert("type"@.len() == 4);
    assert("api_key"@.len() == 7);
    assert("name"@[0] != "type"@[0]);
    assert("role"@[0] != "type"@[0]);
    assert("name"@[0] != "role"@[0]);
    assert("instance_id"@.len() == 11);
    assert("state"@.len() == 5);
    assert("agent_key"@.len() == 9);
    assert("instances"@.len() == 9);
    assert("agent_key"@[0] != "instance_id"@[0]);
}

impl View for WirePackage {
    type V = Seq<char>;

    closed spec fn view(&self) -> Seq<char> {
        self.inner@
    }
}

impl WirePackage {
    #[verifier::type_invariant]
    spec fn is_typed_object(self) -> bool {
        json_is_object(self.inner@) && json_has_member(self.inner@, "type"@)
    }

    /// A package is a JSON object with a `type` member.
    pub fn from_json(json: String) -> (r: Result<WirePackage, &'static str>)
        ensures
            r is Ok <==> json_has_member(json@, "type"@),
            match r {
                Ok(p) => p@ == json@,
                Err(e) => e@ == "Missing 'type' field"@,
            },
    {
        if !has_member(json.as_str(), "type") {
            return Err("Missing 'type' field");
        }
        Ok(WirePackage { inner: json })
    }

    pub fn to_json(&self) -> (r: String)
        ensures
            r@ == self@,
    {
        self.inner.clone()
    }

    pub fn to_string(&self) -> (r: String)
        ensures
            r@ == self@,
    {
        self.inner.clone()
    }

    /// The `type`, empty when it is not a string.
    pub fn package_type(&self) -> (r: String)
        ensures
            r@ == str_member_or_empty(self@, "type"@),
    {
        match get_str_member(self.inner.as_str(), "type") {
            Some(t) => t,
            None => String::new(),
        }
    }

    pub fn instance_id(&self) -> (r: Option<String>)
        ensures
            r.deep_view() == json_str_member(self@, "instance_id"@),
    {
        get_str_member(self.inner.as_str(), "instance_id")
    }

    pub fn is_output(&self) -> (r: bool)
        ensures
            r == has_prefix(str_member_or_empty(self@, "type"@), "agent.output."@),
    {
        starts_with(self.package_type().as_str(), "agent.output.")
    }

    pub fn is_event(&self) -> (r: bool)
        ensures
            r == has_prefix(str_member_or_empty(self@, "type"@), "agent.event."@),
    {
        starts_with(self.package_type().as_str(), "agent.event.")
    }

    pub fn is_signal(&self) -> (r: bool)
        ensures
            r == has_prefix(str_member_or_empty(self@, "type"@), "agent.signal."@),
    {
        starts_with(self.package_type().as_str(), "agent.signal.")
    }

    pub fn is_connection(&self) -> (r: bool)
        ensures
            r == has_prefix(str_member_or_empty(self@, "type"@), "connection."@),
    {
        starts_with(self.package_type().as_str(), "connection.")
    }
}

impl WirePackage {
    pub fn auth(api_key: &str) -> (r: WirePackage)
        ensures
            r@ == with_str(with_str("{}"@, "type"@, "connection.auth"@), "api_key"@, api_key@),
            json_str_member(r@, "type"@) == Some("connection.auth"@),
            json_str_member(r@, "api_key"@) == Some(api_key@),
    {
        proof { lemma_member_names_distinct(); }
        let t = set_str(json_empty_object(), "type", "connection.auth");
        let t = set_str(t, "api_key", api_key);
        WirePackage { inner: t }
    }

    pub fn register(name: &str, role: &str) -> (r: WirePackage)
        ensures
            r@ == package_text("connection.register"@, "name"@, name@, "role"@, role@),
            carries(r@, "connection.register"@, "name"@, name@, "role"@, role@),
    {
        proof { lemma_member_names_distinct(); }
        WirePackage { inner: build_package("connection.register", "name", name, "role", role) }
    }

    pub fn state_report(instance_id: &str, state: &str) -> (r: WirePackage)
        ensures
            r@ == package_text("agent.signal.state_report"@, "instance_id"@, instance_id@, "state"@, state@),
            carries(r@, "agent.signal.state_report"@, "instance_id"@, instance_id@, "state"@, state@),
    {
        proof { lemma_member_names_distinct(); }
        WirePackage {
            inner: build_package("agent.signal.state_report", "instance_id", instance_id, "state", state),
        }
    }

    pub fn instance_spawned(agent_key: &str, instance_id: &str) -> (r: WirePackage)
        ensures
            r@ == package_text("agent.signal.instance_spawned"@, "instance_id"@, instance_id@, "agent_key"@, agent_key@),
            carries(r@, "agent.signal.instance_spawned"@, "instance_id"@, instance_id@, "agent_key"@, agent_key@),
    {
        proof { lemma_member_names_distinct(); }
        WirePackage {
            inner: build_package("agent.signal.instance_spawned", "instance_id", instance_id, "agent_key", agent_key),
        }
    }

    /// The heartbeat listing every instance with its state.
    pub fn heartbeat(instances: Vec<HeartbeatInstance>) -> (r: WirePackage)
        ensures
            r@ == heartbeat_text(instances@),
            json_str_member(r@, "type"@) == Some("connection.heartbeat"@),
            json_has_member(r@, "instances"@),
    {
        proof { lemma_member_names_distinct(); }
        let mut entries: Vec<String> = Vec::new();
        let mut i: usize = 0;
        while i < instances.len()
            invariant
                i <= instances@.len(),
                entries@.len() == i,
                forall|j: int| 0 <= j < i ==> (#[trigger] entries@[j])@ == heartbeat_entry_text(instances@[j])
                    && json_is_value(entries@[j]@) && json_depth(entries@[j]@) <= 1,
            decreases instances@.len() - i,
        {
            let e = set_str(json_empty_object(), "instance_id", instances[i].instance_id.as_str());
            let e = set_str(e, "state", instances[i].state.as_str());
            entries.push(e);
            i += 1;
        }
        assert(entries.deep_view() =~= instances@.map_values(|i: HeartbeatInstance| heartbeat_entry_text(i)));
        proof {
            assert forall|j: int| 0 <= j < entries.deep_view().len() implies json_depth(
                #[trigger] entries.deep_view()[j],
            ) <= 1 by {
                assert(entries.deep_view()[j] == entries@[j]@);
            }
            crate::json::lemma_max_depth_bound(entries.deep_view(), 1);
        }
        let arr = array_of(&entries).unwrap();
        let head = set_str(json_empty_object(), "type", "connection.heartbeat");
        WirePackage { inner: with_member(head.as_str(), "instances", arr.as_str()).unwrap() }
    }

    /// Sets member `key` to the JSON value in `value_json`; refused when
    /// that is not JSON, or when the package would then nest deeper than
    /// serde_json reads back.
    pub fn set_field(&mut self, key: &str, value_json: &str) -> (r: Result<(), &'static str>)
        ensures
            r is Ok <==> json_is_value(value_json@) && json_is_value(
                json_with_member(old(self)@, key@, value_json@).unwrap(),
            ),
            match r {
                Ok(()) => final(self)@ == json_with_member(old(self)@, key@, value_json@).unwrap()
                    && json_has_member(final(self)@, key@),
                Err(e) => final(self)@ == old(self)@ && e@ == "Invalid JSON value"@,
            },
    {
        proof { use_type_invariant(&*self); }
        match with_member(self.inner.as_str(), key, value_json) {
            Some(t) => {
                if json_parse_error(t.as_str()).is_none() {
                    proof { lemma_member_names_distinct(); }
                    self.inner = t;
                    Ok(())
                } else {
                    Err("Invalid JSON value")
                }
            },
            None => Err("Invalid JSON value"),
        }
    }
}

} // verus!
