//! A single type system that treats room ensigns and git-native agents as the same thing:
//! an agent is an agent whether it lives in a room or a repo.
//!
//! - [`kinds`]: agent types, locations, capabilities and statuses;
//! - [`agent`]: the unified agent;
//! - [`registry`]: the registry that knows every agent;
//! - [`bridge`]: connections between agents and message routing;
//! - [`text`]: the text helpers that labels, descriptions and identifiers are built with.

pub mod agent;
pub mod bridge;
pub mod kinds;
pub mod registry;
pub mod text;

pub use agent::UnifiedAgent;
pub use bridge::{AgentBridge, AgentMessage, BridgeError, ConnectionTable, InterShellConfig};
pub use kinds::{AgentCapability, AgentLocation, AgentStatus, AgentType};
pub use registry::AgentRegistry;
