use lau_agent_unify::agent::compose_id;
use lau_agent_unify::text::{join, to_lowercase};
use lau_agent_unify::{
    AgentBridge, AgentCapability, AgentLocation, AgentMessage, AgentRegistry, AgentStatus,
    AgentType, BridgeError, ConnectionTable, InterShellConfig, UnifiedAgent,
};

fn room(r: &str) -> AgentLocation {
    AgentLocation::Room {
        room_id: r.into(),
        shell_id: "s".into(),
    }
}

fn message(from: &str, to: &str) -> AgentMessage {
    AgentMessage {
        from: from.into(),
        to: to.into(),
        payload: "p".into(),
        timestamp: 7,
    }
}

fn three_agent_bridge() -> (AgentBridge, String, String, String) {
    let mut reg = AgentRegistry::new();
    let a = UnifiedAgent::new("A", AgentType::Hermes, room("r1"));
    let b = UnifiedAgent::new("B", AgentType::RoomEnsign, room("r2"));
    let c = UnifiedAgent::new("C", AgentType::GitNative, room("r3"));
    let (a_id, b_id, c_id) = (a.id.clone(), b.id.clone(), c.id.clone());
    reg.register(a);
    reg.register(b);
    reg.register(c);
    (AgentBridge::new(reg), a_id, b_id, c_id)
}

// -- identifiers and text --

#[test]
fn new_agent_id_lowercases_and_dashes_the_name_only() {
    let a = UnifiedAgent::new("Big Bird", AgentType::Custom("My Type".into()), room("r"));
    assert_eq!(a.id, "my type-big-bird");
    assert_eq!(a.name, "Big Bird");
    assert!(a.children.is_empty());
    assert!(a.connections.is_empty());
    assert!(a.parent.is_none());
    assert_eq!(f64::from_bits(a.conservation_used), 0.0);
}

#[test]
fn compose_id_turns_spaces_into_hyphens() {
    assert_eq!(compose_id("roomensign", "alpha beta  gamma"), "roomensign-alpha-beta--gamma");
    assert_eq!(compose_id("", ""), "-");
}

#[test]
fn to_lowercase_lowers_unicode() {
    assert_eq!(to_lowercase("ÀB c"), "àb c");
}

#[test]
fn join_puts_the_separator_between_items() {
    assert_eq!(join(&vec![], ","), "");
    assert_eq!(join(&vec!["a".to_string()], ","), "a");
    assert_eq!(
        join(&vec!["a".to_string(), "b".to_string(), "c".to_string()], ", "),
        "a, b, c"
    );
}

#[test]
fn capability_labels_with_lists() {
    assert_eq!(AgentCapability::FileSystem { paths: vec![] }.label(), "FileSystem()");
    assert_eq!(
        AgentCapability::FileSystem {
            paths: vec!["/a".into(), "/b".into()]
        }
        .label(),
        "FileSystem(/a,/b)"
    );
    assert_eq!(AgentCapability::Provenance.label(), "Provenance");
    assert_eq!(AgentCapability::Delegate.label(), "Delegate");
    assert_eq!(AgentCapability::Math.label(), "Math");
}

#[test]
fn structural_equality() {
    assert!(AgentType::Custom("a".into()).equals(&AgentType::Custom("a".into())));
    assert!(!AgentType::Custom("a".into()).equals(&AgentType::Custom("b".into())));
    assert!(!AgentType::Hermes.equals(&AgentType::ZeroClaw));
    let n1 = AgentCapability::Network {
        protocols: vec!["http".into()],
    };
    let n2 = AgentCapability::Network {
        protocols: vec!["http".into(), "mqtt".into()],
    };
    assert!(n1.equals(&n1.clone()));
    assert!(!n1.equals(&n2));
    assert!(!AgentCapability::Compute { gpu: true }.equals(&AgentCapability::Compute { gpu: false }));
}

#[test]
fn describe_exact_text() {
    let mut a = UnifiedAgent::new(
        "Echo",
        AgentType::GitNative,
        AgentLocation::Repo {
            repo_path: "/r".into(),
            branch: Some("dev".into()),
        },
    );
    a.add_capability(AgentCapability::Chat);
    a.add_capability(AgentCapability::Compute { gpu: true });
    assert_eq!(
        a.describe("Dormant", "0", "10"),
        "[gitnative-echo] Echo (GitNative) @ repo /r on dev — Dormant | caps: [Chat, Compute(GPU)] | budget: 0/10"
    );
    a.model = Some("m1".into());
    assert!(a.describe("Ready", "1", "2").ends_with("| budget: 1/2 | model: m1"));
}

// -- statuses --

#[test]
fn no_status_is_both_active_and_alarming() {
    let all = vec![
        AgentStatus::Dormant,
        AgentStatus::Waking,
        AgentStatus::Orienting,
        AgentStatus::Ready,
        AgentStatus::Working {
            task: "t".into(),
            progress: 0.25f64.to_bits(),
        },
        AgentStatus::YellowAlert,
        AgentStatus::RedAlert { reason: "r".into() },
        AgentStatus::StandingDown { report: "x".into() },
        AgentStatus::Error("e".into()),
        AgentStatus::Offline,
    ];
    for s in &all {
        assert!(!(s.is_active() && s.needs_attention()));
    }
    assert!(!AgentStatus::StandingDown { report: "x".into() }.is_active());
    assert!(!AgentStatus::StandingDown { report: "x".into() }.needs_attention());
}

#[test]
fn grant_connection_keeps_order_of_distinct_targets() {
    let mut a = UnifiedAgent::new("X", AgentType::Hermes, room("r"));
    a.grant_connection("t1");
    a.grant_connection("t2");
    a.grant_connection("t1");
    assert_eq!(a.connections, vec!["t1".to_string(), "t2".to_string()]);
}

// -- registry --

#[test]
fn register_replaces_the_agent_with_the_same_id() {
    let mut reg = AgentRegistry::default();
    reg.register(UnifiedAgent::new("A", AgentType::Hermes, room("r1")));
    let mut again = UnifiedAgent::new("A", AgentType::Hermes, room("r2"));
    again.status = AgentStatus::Ready;
    reg.register(again);
    assert_eq!(reg.count(), 1);
    let got = reg.get("hermes-a").unwrap();
    assert_eq!(got.status, AgentStatus::Ready);
    assert_eq!(reg.route_to("hermes-a"), Some(room("r2")));
    assert!(reg.contains("hermes-a"));
}

#[test]
fn unregister_of_unknown_id_changes_nothing() {
    let mut reg = AgentRegistry::new();
    reg.register(UnifiedAgent::new("A", AgentType::Hermes, room("r1")));
    reg.unregister("nobody");
    assert_eq!(reg.count(), 1);
    assert!(reg.get("hermes-a").is_some());
    assert!(!reg.contains("nobody"));
}

#[test]
fn agents_keep_registration_order() {
    let mut reg = AgentRegistry::new();
    reg.register(UnifiedAgent::new("B", AgentType::Hermes, room("r1")));
    reg.register(UnifiedAgent::new("A", AgentType::Hermes, room("r2")));
    reg.register(UnifiedAgent::new("C", AgentType::Hermes, room("r3")));
    reg.unregister("hermes-a");
    let ids: Vec<&str> = reg.agents().iter().map(|a| a.id.as_str()).collect();
    assert_eq!(ids, vec!["hermes-b", "hermes-c"]);
    let by_type: Vec<&str> = reg
        .find_by_type(&AgentType::Hermes)
        .iter()
        .map(|a| a.id.as_str())
        .collect();
    assert_eq!(by_type, vec!["hermes-b", "hermes-c"]);
}

#[test]
fn count_by_type_totals_the_count() {
    let mut reg = AgentRegistry::new();
    reg.register(UnifiedAgent::new("A", AgentType::Custom("Bob".into()), room("r")));
    reg.register(UnifiedAgent::new("B", AgentType::Hermes, room("r")));
    reg.register(UnifiedAgent::new("C", AgentType::Custom("Bob".into()), room("r")));
    reg.register(UnifiedAgent::new("D", AgentType::Custom("Hermes".into()), room("r")));
    let counts = reg.count_by_type();
    assert_eq!(
        counts,
        vec![("Bob".to_string(), 2), ("Hermes".to_string(), 2)]
    );
    assert_eq!(counts.iter().map(|(_, n)| n).sum::<usize>(), reg.count());
    assert!(AgentRegistry::new().count_by_type().is_empty());
}

#[test]
fn find_by_location_names_are_exact() {
    let mut reg = AgentRegistry::new();
    reg.register(UnifiedAgent::new("A", AgentType::Hermes, room("r")));
    reg.register(UnifiedAgent::new(
        "B",
        AgentType::Hermes,
        AgentLocation::Remote {
            address: "h".into(),
            protocol: "ssh".into(),
        },
    ));
    assert_eq!(reg.find_by_location("room").len(), 1);
    assert_eq!(reg.find_by_location("remote").len(), 1);
    assert_eq!(reg.find_by_location("Room").len(), 0);
    assert_eq!(reg.find_by_location("").len(), 0);
}

#[test]
fn find_capable_needs_every_capability_and_readiness() {
    let mut reg = AgentRegistry::new();
    let mut a = UnifiedAgent::new("A", AgentType::Hermes, room("r"));
    a.add_capability(AgentCapability::Code);
    a.add_capability(AgentCapability::Chat);
    a.status = AgentStatus::Ready;
    let mut b = UnifiedAgent::new("B", AgentType::Hermes, room("r"));
    b.add_capability(AgentCapability::Code);
    b.status = AgentStatus::Ready;
    let mut c = UnifiedAgent::new("C", AgentType::Hermes, room("r"));
    c.add_capability(AgentCapability::Code);
    c.add_capability(AgentCapability::Chat);
    reg.register(a);
    reg.register(b);
    reg.register(c);
    let both: Vec<&str> = reg
        .find_capable(&[AgentCapability::Code, AgentCapability::Chat])
        .iter()
        .map(|a| a.id.as_str())
        .collect();
    assert_eq!(both, vec!["hermes-a"]);
    assert_eq!(reg.find_capable(&[AgentCapability::Code]).len(), 2);
    assert_eq!(reg.find_capable(&[]).len(), reg.find_available().len());
    assert!(reg.find_capable(&[AgentCapability::Audio]).is_empty());
}

// -- connections --

#[test]
fn connection_table_from_entries() {
    let lists = vec![
        ("a".to_string(), vec!["b".to_string(), "c".to_string(), "b".to_string()]),
        ("d".to_string(), vec!["a".to_string()]),
        ("a".to_string(), vec!["z".to_string()]),
    ];
    let t = ConnectionTable::from_entries(&lists);
    assert_eq!(t.peers_of("a"), vec!["b", "c", "b"]);
    assert_eq!(t.peers_of("d"), vec!["a"]);
    assert!(t.peers_of("zz").is_empty());
    assert!(t.is_connected("a", "c"));
    assert!(!t.is_connected("c", "a"));
    assert_eq!(t.entries(), lists);
    assert!(ConnectionTable::new().entries().is_empty());
}

#[test]
fn connect_goes_both_ways_and_repeats() {
    let (mut bridge, a, b, _) = three_agent_bridge();
    bridge.connect(&a, &b).unwrap();
    bridge.connect(&a, &b).unwrap();
    assert_eq!(bridge.connections_of(&a), vec![b.clone(), b.clone()]);
    assert_eq!(bridge.connections_of(&b), vec![a.clone(), a.clone()]);
    bridge.disconnect(&b, &a);
    assert!(bridge.connections_of(&a).is_empty());
    assert!(bridge.connections_of(&b).is_empty());
}

#[test]
fn connect_to_self_lists_self_twice() {
    let (mut bridge, a, _, _) = three_agent_bridge();
    bridge.connect(&a, &a).unwrap();
    assert_eq!(bridge.connections_of(&a), vec![a.clone(), a.clone()]);
    assert!(bridge.send(&a, &a, message(&a, &a)).is_ok());
}

#[test]
fn connect_reports_the_missing_agent() {
    let (mut bridge, a, _, _) = three_agent_bridge();
    assert_eq!(
        bridge.connect("ghost", &a),
        Err(BridgeError::AgentNotFound("ghost".into()))
    );
    assert_eq!(
        bridge.connect(&a, "ghost"),
        Err(BridgeError::AgentNotFound("ghost".into()))
    );
    assert!(bridge.connections_of(&a).is_empty());
}

#[test]
fn send_errors_in_order() {
    let (mut bridge, a, b, _) = three_agent_bridge();
    assert_eq!(
        bridge.send("x", "y", message("x", "y")),
        Err(BridgeError::AgentNotFound("x".into()))
    );
    assert_eq!(
        bridge.send(&a, "y", message(&a, "y")),
        Err(BridgeError::AgentNotFound("y".into()))
    );
    assert_eq!(
        bridge.send(&a, &b, message(&a, &b)),
        Err(BridgeError::NotConnected(a.clone(), b.clone()))
    );
    bridge.connect(&a, &b).unwrap();
    assert!(bridge.send(&b, &a, message(&b, &a)).is_ok());
    bridge.disconnect(&a, &b);
    assert_eq!(
        bridge.send(&a, &b, message(&a, &b)),
        Err(BridgeError::NotConnected(a.clone(), b.clone()))
    );
}

#[test]
fn send_to_remote_follows_the_protocol() {
    let mut reg = AgentRegistry::new();
    let a = UnifiedAgent::new("A", AgentType::Hermes, room("r"));
    let b = UnifiedAgent::new(
        "B",
        AgentType::Hermes,
        AgentLocation::Remote {
            address: "10.0.0.2".into(),
            protocol: "ssh".into(),
        },
    );
    let (a_id, b_id) = (a.id.clone(), b.id.clone());
    reg.register(a);
    reg.register(b);
    let mut bridge = AgentBridge::new(reg);
    bridge.connect(&a_id, &b_id).unwrap();
    // Without an inter-shell configuration, any remote protocol goes.
    assert!(bridge.send(&a_id, &b_id, message(&a_id, &b_id)).is_ok());
    bridge.inter_shell = Some(InterShellConfig {
        local_id: "here".into(),
        default_protocol: "ssh".into(),
    });
    assert!(bridge.send(&a_id, &b_id, message(&a_id, &b_id)).is_ok());
    bridge.inter_shell = Some(InterShellConfig {
        local_id: "here".into(),
        default_protocol: "grpc".into(),
    });
    assert_eq!(
        bridge.send(&a_id, &b_id, message(&a_id, &b_id)),
        Err(BridgeError::LocationUnreachable(b_id.clone()))
    );
    // The sender's own location does not matter.
    assert!(bridge.send(&b_id, &a_id, message(&b_id, &a_id)).is_ok());
}

#[test]
fn broadcast_needs_a_registered_sender() {
    let (mut bridge, a, b, c) = three_agent_bridge();
    assert_eq!(
        bridge.broadcast("ghost", message("ghost", "all")),
        Err(BridgeError::AgentNotFound("ghost".into()))
    );
    assert!(bridge.broadcast(&a, message(&a, "all")).is_ok());
    bridge.connect(&a, &b).unwrap();
    bridge.connect(&a, &c).unwrap();
    bridge.registry.unregister(&c);
    assert!(bridge.broadcast(&a, message(&a, "all")).is_ok());
    assert_eq!(bridge.connections_of(&a), vec![b.clone(), c.clone()]);
}

#[test]
fn copies_keep_every_value() {
    let mut a = UnifiedAgent::new(
        "Copy Me",
        AgentType::Custom("Kind".into()),
        AgentLocation::Repo {
            repo_path: "/x".into(),
            branch: Some("b".into()),
        },
    );
    a.add_capability(AgentCapability::Hardware {
        devices: vec!["gpio".into(), "i2c".into()],
    });
    a.status = AgentStatus::Working {
        task: "t".into(),
        progress: 0.75f64.to_bits(),
    };
    a.model = Some("m".into());
    a.parent = Some("p".into());
    a.children = vec!["c1".into()];
    a.conservation_budget = 12.5f64.to_bits();
    let b = a.duplicate();
    assert_eq!(a, b);

    let mut reg = AgentRegistry::new();
    reg.register(a);
    reg.register(UnifiedAgent::new("Other", AgentType::Hermes, room("r")));
    let mut copy = reg.clone();
    assert_eq!(copy.count(), 2);
    assert_eq!(copy.agents(), reg.agents());
    copy.unregister("kind-copy-me");
    assert_eq!(copy.count(), 1);
    assert_eq!(reg.count(), 2);
}

#[test]
fn bridge_copy_is_independent() {
    let (mut bridge, a, b, _) = three_agent_bridge();
    bridge.connect(&a, &b).unwrap();
    let mut copy = bridge.clone();
    copy.disconnect(&a, &b);
    assert!(copy.connections_of(&a).is_empty());
    assert_eq!(bridge.connections_of(&a), vec![b.clone()]);
}

#[test]
fn connections_stay_symmetric() {
    let (mut bridge, a, b, c) = three_agent_bridge();
    bridge.connect(&a, &b).unwrap();
    bridge.connect(&b, &c).unwrap();
    bridge.connect(&a, &b).unwrap();
    bridge.connect(&c, &c).unwrap();
    bridge.disconnect(&c, &b);
    let ids = [a.clone(), b.clone(), c.clone()];
    for x in &ids {
        for y in &ids {
            let xy = bridge.connections_of(x).iter().filter(|p| *p == y).count();
            let yx = bridge.connections_of(y).iter().filter(|p| *p == x).count();
            assert_eq!(xy, yx);
        }
    }
    assert_eq!(bridge.connections_of(&a), vec![b.clone(), b.clone()]);
    assert_eq!(bridge.connections_of(&c), vec![c.clone(), c.clone()]);
}

#[test]
fn location_kinds_partition_the_registry() {
    let mut reg = AgentRegistry::new();
    reg.register(UnifiedAgent::new("A", AgentType::Hermes, room("r")));
    reg.register(UnifiedAgent::new(
        "B",
        AgentType::Hermes,
        AgentLocation::Repo {
            repo_path: "/r".into(),
            branch: None,
        },
    ));
    reg.register(UnifiedAgent::new(
        "C",
        AgentType::Hermes,
        AgentLocation::Shell {
            shell_id: "s".into(),
            universe_path: "/u".into(),
        },
    ));
    reg.register(UnifiedAgent::new(
        "D",
        AgentType::Hermes,
        AgentLocation::Remote {
            address: "h".into(),
            protocol: "ssh".into(),
        },
    ));
    reg.register(UnifiedAgent::new("E", AgentType::Hermes, room("q")));
    let kinds = ["room", "repo", "shell", "remote"];
    let total: usize = kinds.iter().map(|k| reg.find_by_location(k).len()).sum();
    assert_eq!(total, reg.count());
    let mut seen: Vec<String> = Vec::new();
    for k in kinds {
        for a in reg.find_by_location(k) {
            assert!(!seen.contains(&a.id));
            seen.push(a.id.clone());
        }
    }
}

#[test]
fn more_requirements_never_add_candidates() {
    let mut reg = AgentRegistry::new();
    let mut a = UnifiedAgent::new("A", AgentType::Hermes, room("r"));
    a.add_capability(AgentCapability::Code);
    a.status = AgentStatus::Ready;
    reg.register(a);
    assert!(reg.find_capable(&[AgentCapability::Vision]).is_empty());
    assert!(reg
        .find_capable(&[AgentCapability::Vision, AgentCapability::Code])
        .is_empty());
    assert_eq!(reg.find_capable(&[AgentCapability::Code]).len(), 1);
}
