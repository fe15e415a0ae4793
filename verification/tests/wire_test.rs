use dspatch_router::wire::{HeartbeatInstance, WirePackage};

fn parse(text: &str) -> serde_json::Value {
    serde_json::from_str(text).unwrap()
}

#[test]
fn serialize_auth_package() {
    let pkg = WirePackage::auth("test-key");
    let j = parse(&pkg.to_json());
    assert_eq!(j["type"], "connection.auth");
    assert_eq!(j["api_key"], "test-key");
}

#[test]
fn serialize_register_package() {
    let pkg = WirePackage::register("router", "container_router");
    let j = parse(&pkg.to_json());
    assert_eq!(j["type"], "connection.register");
    assert_eq!(j["name"], "router");
    assert_eq!(j["role"], "container_router");
}

#[test]
fn serialize_heartbeat() {
    let instances = vec![HeartbeatInstance { instance_id: "lead-0".into(), state: "idle".into() }];
    let pkg = WirePackage::heartbeat(instances);
    let j = parse(&pkg.to_json());
    assert_eq!(j["type"], "connection.heartbeat");
    assert_eq!(j["instances"][0]["instance_id"], "lead-0");
    assert_eq!(j["instances"][0]["state"], "idle");
}

#[test]
fn parse_inbound_user_input() {
    let raw = r#"{"type":"agent.event.user_input","instance_id":"lead-0","text":"hello"}"#.to_string();
    let pkg = WirePackage::from_json(raw).unwrap();
    assert_eq!(pkg.package_type(), "agent.event.user_input");
    assert_eq!(pkg.instance_id(), Some("lead-0".to_string()));
}

#[test]
fn parse_inbound_spawn_instance() {
    let raw = r#"{"type":"connection.spawn_instance","agent_key":"coder","instance_id":"coder-0"}"#.to_string();
    let pkg = WirePackage::from_json(raw).unwrap();
    assert_eq!(pkg.package_type(), "connection.spawn_instance");
}

#[test]
fn output_package_roundtrip() {
    let raw = r#"{"type":"agent.output.message","instance_id":"lead-0","id":"msg-1","role":"assistant","content":"Hello","is_delta":false,"turn_id":"t1","ts":1234567890}"#;
    let pkg = WirePackage::from_json(raw.to_string()).unwrap();
    let reserialized = parse(&pkg.to_json());
    let sent = parse(raw);
    assert_eq!(reserialized["type"], sent["type"]);
    assert_eq!(reserialized["instance_id"], sent["instance_id"]);
    assert_eq!(reserialized, sent);
}

#[test]
fn package_without_type_is_refused() {
    let err = WirePackage::from_json(r#"{"instance_id":"lead-0"}"#.to_string()).unwrap_err();
    assert_eq!(err, "Missing 'type' field");
    assert!(WirePackage::from_json("[1,2]".to_string()).is_err());
    assert!(WirePackage::from_json("not json".to_string()).is_err());
}

#[test]
fn package_families() {
    let out = WirePackage::from_json(r#"{"type":"agent.output.log"}"#.to_string()).unwrap();
    assert!(out.is_output() && !out.is_event() && !out.is_signal() && !out.is_connection());
    let ev = WirePackage::from_json(r#"{"type":"agent.event.user_input"}"#.to_string()).unwrap();
    assert!(ev.is_event() && !ev.is_output());
    let sig = WirePackage::from_json(r#"{"type":"agent.signal.drain"}"#.to_string()).unwrap();
    assert!(sig.is_signal() && !sig.is_event());
    let con = WirePackage::from_json(r#"{"type":"connection.ack"}"#.to_string()).unwrap();
    assert!(con.is_connection() && !con.is_signal());
    let odd = WirePackage::from_json(r#"{"type":7}"#.to_string()).unwrap();
    assert_eq!(odd.package_type(), "");
    assert!(!odd.is_output() && !odd.is_event() && !odd.is_signal() && !odd.is_connection());
    assert_eq!(odd.instance_id(), None);
}

#[test]
fn signal_packages() {
    let j = parse(&WirePackage::state_report("lead-0", "generating").to_json());
    assert_eq!(j["type"], "agent.signal.state_report");
    assert_eq!(j["instance_id"], "lead-0");
    assert_eq!(j["state"], "generating");
    let j = parse(&WirePackage::instance_spawned("coder", "coder-3").to_json());
    assert_eq!(j["type"], "agent.signal.instance_spawned");
    assert_eq!(j["agent_key"], "coder");
    assert_eq!(j["instance_id"], "coder-3");
}

#[test]
fn set_field_adds_a_member() {
    let mut pkg = WirePackage::auth("k");
    pkg.set_field("seq", "42").unwrap();
    pkg.set_field("meta", r#"{"a":[1,2]}"#).unwrap();
    let j = parse(&pkg.to_string());
    assert_eq!(j["seq"], 42);
    assert_eq!(j["meta"]["a"][1], 2);
    assert_eq!(j["api_key"], "k");
}

#[test]
fn set_field_refuses_text_that_is_not_json() {
    let mut pkg = WirePackage::auth("k");
    let before = pkg.to_json();
    assert_eq!(pkg.set_field("seq", "{oops").unwrap_err(), "Invalid JSON value");
    assert_eq!(pkg.to_json(), before);
}

#[test]
fn heartbeat_of_no_instances() {
    let j = parse(&WirePackage::heartbeat(vec![]).to_json());
    assert_eq!(j["type"], "connection.heartbeat");
    assert_eq!(j["instances"].as_array().unwrap().len(), 0);
}

#[test]
fn strings_are_escaped_in_packages() {
    let j = parse(&WirePackage::auth("a\"b\\c").to_json());
    assert_eq!(j["api_key"], "a\"b\\c");
}

#[test]
fn set_field_refuses_nesting_serde_json_cannot_read_back() {
    let mut pkg = WirePackage::auth("k");
    let before = pkg.to_json();
    let deep = format!("{}{}", "[".repeat(127), "]".repeat(127));
    assert_eq!(pkg.set_field("x", &deep).unwrap_err(), "Invalid JSON value");
    assert_eq!(pkg.to_json(), before);
    let ok = format!("{}{}", "[".repeat(126), "]".repeat(126));
    pkg.set_field("x", &ok).unwrap();
    assert!(serde_json::from_str::<serde_json::Value>(&pkg.to_json()).is_ok());
}
