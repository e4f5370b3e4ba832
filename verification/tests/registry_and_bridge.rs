use std::collections::HashMap;

use lau_agent_unify::{
    AgentBridge, AgentCapability, AgentLocation, AgentMessage, AgentRegistry, AgentStatus,
    AgentType, BridgeError, InterShellConfig, UnifiedAgent,
};

fn sample_agent(name: &str, atype: AgentType, loc: AgentLocation) -> UnifiedAgent {
    UnifiedAgent::new(name, atype, loc)
}

// -- AgentRegistry --

#[test]
fn registry_register_and_get() {
    let mut reg = AgentRegistry::new();
    let a = sample_agent(
        "A",
        AgentType::RoomEnsign,
        AgentLocation::Room {
            room_id: "r".into(),
            shell_id: "s".into(),
        },
    );
    let id = a.id.clone();
    reg.register(a);
    assert!(reg.get(&id).is_some());
    assert_eq!(reg.count(), 1);
}

#[test]
fn registry_unregister() {
    let mut reg = AgentRegistry::new();
    let a = sample_agent(
        "A",
        AgentType::GitNative,
        AgentLocation::Repo {
            repo_path: "/r".into(),
            branch: None,
        },
    );
    let id = a.id.clone();
    reg.register(a);
    reg.unregister(&id);
    assert!(reg.get(&id).is_none());
    assert_eq!(reg.count(), 0);
}

#[test]
fn registry_find_by_type() {
    let mut reg = AgentRegistry::new();
    reg.register(sample_agent(
        "A",
        AgentType::RoomEnsign,
        AgentLocation::Room {
            room_id: "r".into(),
            shell_id: "s".into(),
        },
    ));
    reg.register(sample_agent(
        "B",
        AgentType::RoomEnsign,
        AgentLocation::Room {
            room_id: "r2".into(),
            shell_id: "s2".into(),
        },
    ));
    reg.register(sample_agent(
        "C",
        AgentType::GitNative,
        AgentLocation::Repo {
            repo_path: "/r".into(),
            branch: None,
        },
    ));
    assert_eq!(reg.find_by_type(&AgentType::RoomEnsign).len(), 2);
    assert_eq!(reg.find_by_type(&AgentType::GitNative).len(), 1);
    assert_eq!(reg.find_by_type(&AgentType::Hermes).len(), 0);
}

#[test]
fn registry_find_by_capability() {
    let mut reg = AgentRegistry::new();
    let mut a = sample_agent(
        "A",
        AgentType::RoomEnsign,
        AgentLocation::Room {
            room_id: "r".into(),
            shell_id: "s".into(),
        },
    );
    a.add_capability(AgentCapability::Code);
    a.add_capability(AgentCapability::Vision);
    reg.register(a);
    let b = sample_agent(
        "B",
        AgentType::GitNative,
        AgentLocation::Repo {
            repo_path: "/r".into(),
            branch: None,
        },
    );
    reg.register(b);
    assert_eq!(reg.find_by_capability(&AgentCapability::Code).len(), 1);
    assert_eq!(reg.find_by_capability(&AgentCapability::Vision).len(), 1);
    assert_eq!(reg.find_by_capability(&AgentCapability::Audio).len(), 0);
}

#[test]
fn registry_find_by_location() {
    let mut reg = AgentRegistry::new();
    reg.register(sample_agent(
        "A",
        AgentType::RoomEnsign,
        AgentLocation::Room {
            room_id: "r".into(),
            shell_id: "s".into(),
        },
    ));
    reg.register(sample_agent(
        "B",
        AgentType::GitNative,
        AgentLocation::Repo {
            repo_path: "/r".into(),
            branch: None,
        },
    ));
    reg.register(sample_agent(
        "C",
        AgentType::ZeroClaw,
        AgentLocation::Shell {
            shell_id: "sh".into(),
            universe_path: "/u".into(),
        },
    ));
    assert_eq!(reg.find_by_location("room").len(), 1);
    assert_eq!(reg.find_by_location("repo").len(), 1);
    assert_eq!(reg.find_by_location("shell").len(), 1);
    assert_eq!(reg.find_by_location("remote").len(), 0);
    assert_eq!(reg.find_by_location("bogus").len(), 0);
}

#[test]
fn registry_find_available() {
    let mut reg = AgentRegistry::new();
    let mut a = sample_agent(
        "A",
        AgentType::RoomEnsign,
        AgentLocation::Room {
            room_id: "r".into(),
            shell_id: "s".into(),
        },
    );
    a.status = AgentStatus::Ready;
    reg.register(a);
    reg.register(sample_agent(
        "B",
        AgentType::GitNative,
        AgentLocation::Repo {
            repo_path: "/r".into(),
            branch: None,
        },
    ));
    assert_eq!(reg.find_available().len(), 1);
}

#[test]
fn registry_route_to() {
    let mut reg = AgentRegistry::new();
    let a = sample_agent(
        "A",
        AgentType::RoomEnsign,
        AgentLocation::Room {
            room_id: "r1".into(),
            shell_id: "s1".into(),
        },
    );
    let id = a.id.clone();
    reg.register(a);
    let route = reg.route_to(&id).unwrap();
    assert_eq!(
        route,
        AgentLocation::Room {
            room_id: "r1".into(),
            shell_id: "s1".into()
        }
    );
    assert!(reg.route_to("nonexistent").is_none());
}

#[test]
fn registry_count_by_type() {
    let mut reg = AgentRegistry::new();
    reg.register(sample_agent(
        "A",
        AgentType::RoomEnsign,
        AgentLocation::Room {
            room_id: "r".into(),
            shell_id: "s".into(),
        },
    ));
    reg.register(sample_agent(
        "B",
        AgentType::RoomEnsign,
        AgentLocation::Room {
            room_id: "r2".into(),
            shell_id: "s2".into(),
        },
    ));
    reg.register(sample_agent(
        "C",
        AgentType::Hermes,
        AgentLocation::Shell {
            shell_id: "sh".into(),
            universe_path: "/u".into(),
        },
    ));
    let counts: HashMap<String, usize> = reg.count_by_type().into_iter().collect();
    assert_eq!(counts.get("RoomEnsign"), Some(&2));
    assert_eq!(counts.get("Hermes"), Some(&1));
}

// -- AgentBridge --

#[test]
fn bridge_connect_and_send() {
    let mut reg = AgentRegistry::new();
    let a = sample_agent(
        "A",
        AgentType::Hermes,
        AgentLocation::Shell {
            shell_id: "s1".into(),
            universe_path: "/u".into(),
        },
    );
    let b = sample_agent(
        "B",
        AgentType::RoomEnsign,
        AgentLocation::Room {
            room_id: "r".into(),
            shell_id: "s".into(),
        },
    );
    let a_id = a.id.clone();
    let b_id = b.id.clone();
    reg.register(a);
    reg.register(b);

    let mut bridge = AgentBridge::new(reg);
    assert!(bridge.connect(&a_id, &b_id).is_ok());
    let msg = AgentMessage {
        from: a_id.clone(),
        to: b_id.clone(),
        payload: "hello".into(),
        timestamp: 1,
    };
    assert!(bridge.send(&a_id, &b_id, msg).is_ok());
}

#[test]
fn bridge_connect_missing_agent() {
    let mut reg = AgentRegistry::new();
    let a = sample_agent(
        "A",
        AgentType::Hermes,
        AgentLocation::Shell {
            shell_id: "s".into(),
            universe_path: "/u".into(),
        },
    );
    let a_id = a.id.clone();
    reg.register(a);
    let mut bridge = AgentBridge::new(reg);
    assert!(matches!(
        bridge.connect(&a_id, "ghost"),
        Err(BridgeError::AgentNotFound(_))
    ));
}

#[test]
fn bridge_send_not_connected() {
    let mut reg = AgentRegistry::new();
    let a = sample_agent(
        "A",
        AgentType::Hermes,
        AgentLocation::Shell {
            shell_id: "s".into(),
            universe_path: "/u".into(),
        },
    );
    let b = sample_agent(
        "B",
        AgentType::RoomEnsign,
        AgentLocation::Room {
            room_id: "r".into(),
            shell_id: "s".into(),
        },
    );
    let a_id = a.id.clone();
    let b_id = b.id.clone();
    reg.register(a);
    reg.register(b);
    let mut bridge = AgentBridge::new(reg);
    let msg = AgentMessage {
        from: a_id.clone(),
        to: b_id.clone(),
        payload: "hello".into(),
        timestamp: 1,
    };
    assert!(matches!(
        bridge.send(&a_id, &b_id, msg),
        Err(BridgeError::NotConnected(_, _))
    ));
}

#[test]
fn bridge_disconnect() {
    let mut reg = AgentRegistry::new();
    let a = sample_agent(
        "A",
        AgentType::Hermes,
        AgentLocation::Shell {
            shell_id: "s".into(),
            universe_path: "/u".into(),
        },
    );
    let b = sample_agent(
        "B",
        AgentType::RoomEnsign,
        AgentLocation::Room {
            room_id: "r".into(),
            shell_id: "s".into(),
        },
    );
    let a_id = a.id.clone();
    let b_id = b.id.clone();
    reg.register(a);
    reg.register(b);
    let mut bridge = AgentBridge::new(reg);
    bridge.connect(&a_id, &b_id).unwrap();
    bridge.disconnect(&a_id, &b_id);
    assert!(bridge.connections_of(&a_id).is_empty());
    assert!(bridge.connections_of(&b_id).is_empty());
}

#[test]
fn bridge_broadcast() {
    let mut reg = AgentRegistry::new();
    let a = sample_agent(
        "A",
        AgentType::Hermes,
        AgentLocation::Shell {
            shell_id: "s".into(),
            universe_path: "/u".into(),
        },
    );
    let b = sample_agent(
        "B",
        AgentType::RoomEnsign,
        AgentLocation::Room {
            room_id: "r1".into(),
            shell_id: "s1".into(),
        },
    );
    let c = sample_agent(
        "C",
        AgentType::GitNative,
        AgentLocation::Repo {
            repo_path: "/r".into(),
            branch: None,
        },
    );
    let a_id = a.id.clone();
    let b_id = b.id.clone();
    let c_id = c.id.clone();
    reg.register(a);
    reg.register(b);
    reg.register(c);
    let mut bridge = AgentBridge::new(reg);
    bridge.connect(&a_id, &b_id).unwrap();
    bridge.connect(&a_id, &c_id).unwrap();
    let msg = AgentMessage {
        from: a_id.clone(),
        to: "all".into(),
        payload: "ping".into(),
        timestamp: 1,
    };
    assert!(bridge.broadcast(&a_id, msg).is_ok());
    assert_eq!(bridge.connections_of(&a_id).len(), 2);
}

#[test]
fn bridge_connections_of() {
    let bridge = AgentBridge::new(AgentRegistry::new());
    assert!(bridge.connections_of("nobody").is_empty());
}

#[test]
fn bridge_send_agent_not_found() {
    let mut reg = AgentRegistry::new();
    let a = sample_agent(
        "A",
        AgentType::Hermes,
        AgentLocation::Shell {
            shell_id: "s".into(),
            universe_path: "/u".into(),
        },
    );
    reg.register(a);
    let mut bridge = AgentBridge::new(reg);
    let msg = AgentMessage {
        from: "ghost".into(),
        to: "also-ghost".into(),
        payload: "hello".into(),
        timestamp: 1,
    };
    assert!(matches!(
        bridge.send("ghost", "also-ghost", msg),
        Err(BridgeError::AgentNotFound(_))
    ));
}

#[test]
fn bridge_send_remote_protocol_mismatch() {
    let mut reg = AgentRegistry::new();
    let a = sample_agent(
        "A",
        AgentType::Hermes,
        AgentLocation::Shell {
            shell_id: "s".into(),
            universe_path: "/u".into(),
        },
    );
    let mut b = sample_agent(
        "B",
        AgentType::RoomEnsign,
        AgentLocation::Remote {
            address: "10.0.0.1".into(),
            protocol: "grpc".into(),
        },
    );
    b.status = AgentStatus::Ready;
    let a_id = a.id.clone();
    let b_id = b.id.clone();
    reg.register(a);
    reg.register(b);
    let mut bridge = AgentBridge::new(reg);
    bridge.inter_shell = Some(InterShellConfig {
        local_id: "local".into(),
        default_protocol: "ssh".into(),
    });
    bridge.connect(&a_id, &b_id).unwrap();
    let msg = AgentMessage {
        from: a_id.clone(),
        to: b_id.clone(),
        payload: "hi".into(),
        timestamp: 1,
    };
    // Protocol mismatch: bridge expects ssh, target is grpc
    assert!(matches!(
        bridge.send(&a_id, &b_id, msg),
        Err(BridgeError::LocationUnreachable(_))
    ));
}
