use dspatch_router::config::{supervision_of, AgentMeta, ConfigError, RouterConfig};

fn meta(is_root: bool, peers: &[&str]) -> AgentMeta {
    AgentMeta { is_root, peers: peers.iter().map(|p| p.to_string()).collect(), fields: vec![] }
}

fn some(s: &str) -> Option<String> {
    Some(s.to_string())
}

#[test]
fn parse_config_from_env() {
    let agents = vec![("lead".to_string(), meta(true, &["coder"])), ("coder".to_string(), meta(false, &["lead"]))];
    let config = RouterConfig::from_values(
        agents,
        some("ws://host.docker.internal:9847"),
        some("test-key-123"),
        some("run-abc"),
        some("ws-xyz"),
        None,
        None,
    )
    .unwrap();
    assert_eq!(config.api_url, "ws://host.docker.internal:9847");
    assert_eq!(config.api_key, "test-key-123");
    assert_eq!(config.run_id, "run-abc");
    assert_eq!(config.workspace_id, "ws-xyz");
    assert_eq!(config.wal_path, "/data/dspatch.wal");
    assert_eq!(config.grpc_addr, "127.0.0.1:50051");
    assert_eq!(config.agents_meta.len(), 2);
    let lead = &config.agents_meta.iter().find(|(k, _)| k == "lead").unwrap().1;
    assert!(lead.is_root);
    assert_eq!(lead.peers, vec!["coder"]);
}

#[test]
fn parse_config_custom_paths() {
    let config = RouterConfig::from_values(
        vec![],
        some("ws://localhost:1234"),
        some("k"),
        some("r"),
        some("w"),
        some("/custom/wal"),
        some("0.0.0.0:9999"),
    )
    .unwrap();
    assert_eq!(config.wal_path, "/custom/wal");
    assert_eq!(config.grpc_addr, "0.0.0.0:9999");
}

#[test]
fn missing_settings_are_named_in_order() {
    let r = RouterConfig::from_values(vec![], None, None, None, None, None, None);
    assert_eq!(r.unwrap_err(), ConfigError::Missing("DSPATCH_API_URL"));
    let r = RouterConfig::from_values(vec![], some("u"), None, some("r"), some("w"), None, None);
    assert_eq!(r.unwrap_err(), ConfigError::Missing("DSPATCH_API_KEY"));
    let r = RouterConfig::from_values(vec![], some("u"), some("k"), None, some("w"), None, None);
    assert_eq!(r.unwrap_err(), ConfigError::Missing("DSPATCH_RUN_ID"));
    let r = RouterConfig::from_values(vec![], some("u"), some("k"), some("r"), None, None, None);
    let err = r.unwrap_err();
    assert_eq!(err, ConfigError::Missing("DSPATCH_WORKSPACE_ID"));
    assert_eq!(err.message(), "DSPATCH_WORKSPACE_ID not set");
}

#[test]
fn ws_url_switches_scheme_and_appends_the_run() {
    let cfg = |url: &str| {
        RouterConfig::from_values(vec![], some(url), some("k"), some("run-7"), some("w"), None, None).unwrap()
    };
    assert_eq!(cfg("http://engine:9847").ws_url(), "ws://engine:9847/ws/run-7");
    assert_eq!(cfg("https://engine.example//").ws_url(), "wss://engine.example/ws/run-7");
    assert_eq!(cfg("ws://host.docker.internal:9847").ws_url(), "ws://host.docker.internal:9847/ws/run-7");
}

#[test]
fn supervision_hierarchy_points_every_other_agent_at_the_root() {
    let agents = vec![
        ("coder".to_string(), meta(false, &[])),
        ("lead".to_string(), meta(true, &[])),
        ("intern".to_string(), meta(false, &[])),
    ];
    let config = RouterConfig::from_values(agents.clone(), some("u"), some("k"), some("r"), some("w"), None, None).unwrap();
    let h = config.supervision_hierarchy();
    assert_eq!(
        h,
        vec![
            ("coder".to_string(), Some("lead".to_string())),
            ("lead".to_string(), None),
            ("intern".to_string(), Some("lead".to_string())),
        ]
    );
    assert_eq!(supervision_of(&agents), h);
}

#[test]
fn without_a_root_nobody_has_a_supervisor() {
    let agents = vec![("a".to_string(), meta(false, &[])), ("b".to_string(), meta(false, &[]))];
    assert_eq!(supervision_of(&agents), vec![("a".to_string(), None), ("b".to_string(), None)]);
}
