use vstd::prelude::*;

use crate::text::{clone_strings, join, joined, strings_eq, views_of};
use vstd::std_specs::cmp::PartialEqSpecImpl;

verus! {

/// What kind of agent this is.
#[derive(Debug, Clone, PartialEq, Eq, Hash)]
pub enum AgentType {
    /// Lives in a PLATO room, fast, focused.
    RoomEnsign,
    /// Lives in a git repo, state in refs, memory in orphan branches.
    GitNative,
    /// Child shell, sandboxed.
    ZeroClaw,
    /// GPU-accelerated child shell.
    CUDAClaw,
    /// The captain / club manager.
    Hermes,
    /// Anything else.
    Custom(String),
}

/// The mathematical value of an [`AgentType`]: strings become character sequences.
pub enum AgentTypeView {
    RoomEnsign,
    GitNative,
    ZeroClaw,
    CUDAClaw,
    Hermes,
    Custom(Seq<char>),
}

impl View for AgentType {
    type V = AgentTypeView;

    open spec fn view(&self) -> AgentTypeView {
        match self {
            AgentType::RoomEnsign => AgentTypeView::RoomEnsign,
            AgentType::GitNative => AgentTypeView::GitNative,
            AgentType::ZeroClaw => AgentTypeView::ZeroClaw,
            AgentType::CUDAClaw => AgentTypeView::CUDAClaw,
            AgentType::Hermes => AgentTypeView::Hermes,
            AgentType::Custom(s) => AgentTypeView::Custom(s@),
        }
    }
}

impl AgentTypeView {
    /// The label of an agent type: the variant's name, or the custom text.
    pub open spec fn label(self) -> Seq<char> {
        match self {
            AgentTypeView::RoomEnsign => "RoomEnsign"@,
            AgentTypeView::GitNative => "GitNative"@,
            AgentTypeView::ZeroClaw => "ZeroClaw"@,
            AgentTypeView::CUDAClaw => "CUDAClaw"@,
            AgentTypeView::Hermes => "Hermes"@,
            AgentTypeView::Custom(s) => s,
        }
    }
}

impl AgentType {
    /// Only a `ZeroClaw` runs sandboxed.
    pub fn is_sandboxed(&self) -> (r: bool)
        ensures
            r == (self@ is ZeroClaw),
    {
        match self {
            AgentType::ZeroClaw => true,
            _ => false,
        }
    }

    /// Only a `RoomEnsign` needs a room.
    pub fn needs_room(&self) -> (r: bool)
        ensures
            r == (self@ is RoomEnsign),
    {
        match self {
            AgentType::RoomEnsign => true,
            _ => false,
        }
    }

    pub fn label(&self) -> (r: String)
        ensures
            r@ == self@.label(),
    {
        match self {
            AgentType::RoomEnsign => String::from_str("RoomEnsign"),
            AgentType::GitNative => String::from_str("GitNative"),
            AgentType::ZeroClaw => String::from_str("ZeroClaw"),
            AgentType::CUDAClaw => String::from_str("CUDAClaw"),
            AgentType::Hermes => String::from_str("Hermes"),
            AgentType::Custom(s) => s.clone(),
        }
    }
}


impl AgentType {
    /// A copy of this type with the same value.
    pub fn duplicate(&self) -> (r: AgentType)
        ensures
            r@ == self@,
    {
        match self {
            AgentType::RoomEnsign => AgentType::RoomEnsign,
            AgentType::GitNative => AgentType::GitNative,
            AgentType::ZeroClaw => AgentType::ZeroClaw,
            AgentType::CUDAClaw => AgentType::CUDAClaw,
            AgentType::Hermes => AgentType::Hermes,
            AgentType::Custom(s) => AgentType::Custom(s.clone()),
        }
    }

    /// Structural equality: same variant, and the same text for `Custom`.
    pub fn equals(&self, other: &AgentType) -> (r: bool)
        ensures
            r == (self@ == other@),
    {
        match (self, other) {
            (AgentType::RoomEnsign, AgentType::RoomEnsign) => true,
            (AgentType::GitNative, AgentType::GitNative) => true,
            (AgentType::ZeroClaw, AgentType::ZeroClaw) => true,
            (AgentType::CUDAClaw, AgentType::CUDAClaw) => true,
            (AgentType::Hermes, AgentType::Hermes) => true,
            (AgentType::Custom(a), AgentType::Custom(b)) => *a == *b,
            _ => false,
        }
    }
}

/// Where an agent lives.
#[derive(Debug, Clone, PartialEq, Eq, Hash)]
pub enum AgentLocation {
    Room { room_id: String, shell_id: String },
    Repo { repo_path: String, branch: Option<String> },
    Shell { shell_id: String, universe_path: String },
    Remote { address: String, protocol: String },
}

/// The mathematical value of an [`AgentLocation`].
pub enum AgentLocationView {
    Room { room_id: Seq<char>, shell_id: Seq<char> },
    Repo { repo_path: Seq<char>, branch: Option<Seq<char>> },
    Shell { shell_id: Seq<char>, universe_path: Seq<char> },
    Remote { address: Seq<char>, protocol: Seq<char> },
}

impl View for AgentLocation {
    type V = AgentLocationView;

    open spec fn view(&self) -> AgentLocationView {
        match self {
            AgentLocation::Room { room_id, shell_id } => AgentLocationView::Room {
                room_id: room_id@,
                shell_id: shell_id@,
            },
            AgentLocation::Repo { repo_path, branch } => AgentLocationView::Repo {
                repo_path: repo_path@,
                branch: match branch {
                    Some(b) => Some(b@),
                    None => None,
                },
            },
            AgentLocation::Shell { shell_id, universe_path } => AgentLocationView::Shell {
                shell_id: shell_id@,
                universe_path: universe_path@,
            },
            AgentLocation::Remote { address, protocol } => AgentLocationView::Remote {
                address: address@,
                protocol: protocol@,
            },
        }
    }
}

impl AgentLocationView {
    /// The human-readable description of a location.
    pub open spec fn describe(self) -> Seq<char> {
        match self {
            AgentLocationView::Room { room_id, shell_id } => "room "@ + room_id + " (shell "@
                + shell_id + ")"@,
            AgentLocationView::Repo { repo_path, branch } => match branch {
                Some(b) => "repo "@ + repo_path + " on "@ + b,
                None => "repo "@ + repo_path,
            },
            AgentLocationView::Shell { shell_id, universe_path } => "shell "@ + shell_id
                + " at "@ + universe_path,
            AgentLocationView::Remote { address, protocol } => protocol + "://"@ + address,
        }
    }
}

impl AgentLocation {
    pub fn describe(&self) -> (r: String)
        ensures
            r@ == self@.describe(),
    {
        match self {
            AgentLocation::Room { room_id, shell_id } => String::from_str("room ").concat(
                room_id.as_str(),
            ).concat(" (shell ").concat(shell_id.as_str()).concat(")"),
            AgentLocation::Repo { repo_path, branch } => match branch {
                Some(b) => String::from_str("repo ").concat(repo_path.as_str()).concat(
                    " on ",
                ).concat(b.as_str()),
                None => String::from_str("repo ").concat(repo_path.as_str()),
            },
            AgentLocation::Shell { shell_id, universe_path } => String::from_str("shell ").concat(
                shell_id.as_str(),
            ).concat(" at ").concat(universe_path.as_str()),
            AgentLocation::Remote { address, protocol } => protocol.clone().concat("://").concat(
                address.as_str(),
            ),
        }
    }

    /// Every location but a remote one is local.
    pub fn is_local(&self) -> (r: bool)
        ensures
            r == !(self@ is Remote),
    {
        match self {
            AgentLocation::Remote { .. } => false,
            _ => true,
        }
    }

    /// A copy of this location with the same value.
    pub fn duplicate(&self) -> (r: AgentLocation)
        ensures
            r@ == self@,
    {
        match self {
            AgentLocation::Room { room_id, shell_id } => AgentLocation::Room {
                room_id: room_id.clone(),
                shell_id: shell_id.clone(),
            },
            AgentLocation::Repo { repo_path, branch } => AgentLocation::Repo {
                repo_path: repo_path.clone(),
                branch: match branch {
                    Some(b) => Some(b.clone()),
                    None => None,
                },
            },
            AgentLocation::Shell { shell_id, universe_path } => AgentLocation::Shell {
                shell_id: shell_id.clone(),
                universe_path: universe_path.clone(),
            },
            AgentLocation::Remote { address, protocol } => AgentLocation::Remote {
                address: address.clone(),
                protocol: protocol.clone(),
            },
        }
    }
}

impl AgentLocation {
    /// Structural equality: same variant and the same texts.
    pub fn equals(&self, other: &AgentLocation) -> (r: bool)
        ensures
            r == (self@ == other@),
    {
        match (self, other) {
            (
                AgentLocation::Room { room_id: a1, shell_id: a2 },
                AgentLocation::Room { room_id: b1, shell_id: b2 },
            ) => *a1 == *b1 && *a2 == *b2,
            (
                AgentLocation::Repo { repo_path: a1, branch: a2 },
                AgentLocation::Repo { repo_path: b1, branch: b2 },
            ) => *a1 == *b1 && match (a2, b2) {
                (Some(x), Some(y)) => *x == *y,
                (None, None) => true,
                _ => false,
            },
            (
                AgentLocation::Shell { shell_id: a1, universe_path: a2 },
                AgentLocation::Shell { shell_id: b1, universe_path: b2 },
            ) => *a1 == *b1 && *a2 == *b2,
            (
                AgentLocation::Remote { address: a1, protocol: a2 },
                AgentLocation::Remote { address: b1, protocol: b2 },
            ) => *a1 == *b1 && *a2 == *b2,
            _ => false,
        }
    }
}

/// Whether the IEEE 754 double with bit pattern `b` is a NaN: all exponent bits set and
/// a nonzero fraction.
pub open spec fn is_nan_bits(b: u64) -> bool {
    (b / 0x10_0000_0000_0000) % 0x800 == 0x7FF && b % 0x10_0000_0000_0000 != 0
}

/// Whether the IEEE 754 double with bit pattern `b` is a zero, positive or negative.
pub open spec fn is_zero_bits(b: u64) -> bool {
    b % 0x8000_0000_0000_0000 == 0
}

/// Whether the IEEE 754 doubles with bit patterns `a` and `b` compare equal with `==`:
/// a NaN equals nothing, the two zeros are equal, and any other value equals only itself.
pub open spec fn same_number(a: u64, b: u64) -> bool {
    !is_nan_bits(a) && !is_nan_bits(b) && (a == b || (is_zero_bits(a) && is_zero_bits(b)))
}

/// Compares two IEEE 754 doubles, given by their bit patterns, as `==` on doubles does.
pub fn same_number_bits(a: u64, b: u64) -> (r: bool)
    ensures
        r == same_number(a, b),
{
    let a_nan = (a / 0x10_0000_0000_0000) % 0x800 == 0x7FF && a % 0x10_0000_0000_0000 != 0;
    let b_nan = (b / 0x10_0000_0000_0000) % 0x800 == 0x7FF && b % 0x10_0000_0000_0000 != 0;
    if a_nan || b_nan {
        return false;
    }
    a == b || (a % 0x8000_0000_0000_0000 == 0 && b % 0x8000_0000_0000_0000 == 0)
}

/// What an agent can do.
#[derive(Debug, Clone, PartialEq, Eq, Hash)]
pub enum AgentCapability {
    Chat,
    Code,
    Vision,
    Audio,
    Math,
    Creative,
    Hardware { devices: Vec<String> },
    Compute { gpu: bool },
    Network { protocols: Vec<String> },
    FileSystem { paths: Vec<String> },
    Git,
    Provenance,
    Delegate,
    Escalate,
}

/// The mathematical value of an [`AgentCapability`].
pub enum AgentCapabilityView {
    Chat,
    Code,
    Vision,
    Audio,
    Math,
    Creative,
    Hardware { devices: Seq<Seq<char>> },
    Compute { gpu: bool },
    Network { protocols: Seq<Seq<char>> },
    FileSystem { paths: Seq<Seq<char>> },
    Git,
    Provenance,
    Delegate,
    Escalate,
}

impl View for AgentCapability {
    type V = AgentCapabilityView;

    open spec fn view(&self) -> AgentCapabilityView {
        match self {
            AgentCapability::Chat => AgentCapabilityView::Chat,
            AgentCapability::Code => AgentCapabilityView::Code,
            AgentCapability::Vision => AgentCapabilityView::Vision,
            AgentCapability::Audio => AgentCapabilityView::Audio,
            AgentCapability::Math => AgentCapabilityView::Math,
            AgentCapability::Creative => AgentCapabilityView::Creative,
            AgentCapability::Hardware { devices } => AgentCapabilityView::Hardware {
                devices: views_of(devices@),
            },
            AgentCapability::Compute { gpu } => AgentCapabilityView::Compute { gpu: *gpu },
            AgentCapability::Network { protocols } => AgentCapabilityView::Network {
                protocols: views_of(protocols@),
            },
            AgentCapability::FileSystem { paths } => AgentCapabilityView::FileSystem {
                paths: views_of(paths@),
            },
            AgentCapability::Git => AgentCapabilityView::Git,
            AgentCapability::Provenance => AgentCapabilityView::Provenance,
            AgentCapability::Delegate => AgentCapabilityView::Delegate,
            AgentCapability::Escalate => AgentCapabilityView::Escalate,
        }
    }
}

impl AgentCapabilityView {
    /// The label of a capability; list-carrying capabilities join their items with commas.
    pub open spec fn label(self) -> Seq<char> {
        match self {
            AgentCapabilityView::Chat => "Chat"@,
            AgentCapabilityView::Code => "Code"@,
            AgentCapabilityView::Vision => "Vision"@,
            AgentCapabilityView::Audio => "Audio"@,
            AgentCapabilityView::Math => "Math"@,
            AgentCapabilityView::Creative => "Creative"@,
            AgentCapabilityView::Hardware { devices } => "Hardware("@ + joined(devices, ","@)
                + ")"@,
            AgentCapabilityView::Compute { gpu } => if gpu {
                "Compute(GPU)"@
            } else {
                "Compute(CPU)"@
            },
            AgentCapabilityView::Network { protocols } => "Network("@ + joined(protocols, ","@)
                + ")"@,
            AgentCapabilityView::FileSystem { paths } => "FileSystem("@ + joined(paths, ","@)
                + ")"@,
            AgentCapabilityView::Git => "Git"@,
            AgentCapabilityView::Provenance => "Provenance"@,
            AgentCapabilityView::Delegate => "Delegate"@,
            AgentCapabilityView::Escalate => "Escalate"@,
        }
    }
}

impl AgentCapability {
    pub fn label(&self) -> (r: String)
        ensures
            r@ == self@.label(),
    {
        match self {
            AgentCapability::Chat => String::from_str("Chat"),
            AgentCapability::Code => String::from_str("Code"),
            AgentCapability::Vision => String::from_str("Vision"),
            AgentCapability::Audio => String::from_str("Audio"),
            AgentCapability::Math => String::from_str("Math"),
            AgentCapability::Creative => String::from_str("Creative"),
            AgentCapability::Hardware { devices } => String::from_str("Hardware(").concat(
                join(devices, ",").as_str(),
            ).concat(")"),
            AgentCapability::Compute { gpu } => if *gpu {
                String::from_str("Compute(GPU)")
            } else {
                String::from_str("Compute(CPU)")
            },
            AgentCapability::Network { protocols } => String::from_str("Network(").concat(
                join(protocols, ",").as_str(),
            ).concat(")"),
            AgentCapability::FileSystem { paths } => String::from_str("FileSystem(").concat(
                join(paths, ",").as_str(),
            ).concat(")"),
            AgentCapability::Git => String::from_str("Git"),
            AgentCapability::Provenance => String::from_str("Provenance"),
            AgentCapability::Delegate => String::from_str("Delegate"),
            AgentCapability::Escalate => String::from_str("Escalate"),
        }
    }

    /// A copy of this capability with the same value.
    pub fn duplicate(&self) -> (r: AgentCapability)
        ensures
            r@ == self@,
    {
        match self {
            AgentCapability::Chat => AgentCapability::Chat,
            AgentCapability::Code => AgentCapability::Code,
            AgentCapability::Vision => AgentCapability::Vision,
            AgentCapability::Audio => AgentCapability::Audio,
            AgentCapability::Math => AgentCapability::Math,
            AgentCapability::Creative => AgentCapability::Creative,
            AgentCapability::Hardware { devices } => AgentCapability::Hardware {
                devices: clone_strings(devices),
            },
            AgentCapability::Compute { gpu } => AgentCapability::Compute { gpu: *gpu },
            AgentCapability::Network { protocols } => AgentCapability::Network {
                protocols: clone_strings(protocols),
            },
            AgentCapability::FileSystem { paths } => AgentCapability::FileSystem {
                paths: clone_strings(paths),
            },
            AgentCapability::Git => AgentCapability::Git,
            AgentCapability::Provenance => AgentCapability::Provenance,
            AgentCapability::Delegate => AgentCapability::Delegate,
            AgentCapability::Escalate => AgentCapability::Escalate,
        }
    }

    /// Structural equality: same variant and equal payloads.
    pub fn equals(&self, other: &AgentCapability) -> (r: bool)
        ensures
            r == (self@ == other@),
    {
        match (self, other) {
            (AgentCapability::Chat, AgentCapability::Chat) => true,
            (AgentCapability::Code, AgentCapability::Code) => true,
            (AgentCapability::Vision, AgentCapability::Vision) => true,
            (AgentCapability::Audio, AgentCapability::Audio) => true,
            (AgentCapability::Math, AgentCapability::Math) => true,
            (AgentCapability::Creative, AgentCapability::Creative) => true,
            (AgentCapability::Hardware { devices: a }, AgentCapability::Hardware { devices: b }) =>
                strings_eq(a, b),
            (AgentCapability::Compute { gpu: a }, AgentCapability::Compute { gpu: b }) => *a == *b,
            (
                AgentCapability::Network { protocols: a },
                AgentCapability::Network { protocols: b },
            ) => strings_eq(a, b),
            (AgentCapability::FileSystem { paths: a }, AgentCapability::FileSystem { paths: b }) =>
                strings_eq(a, b),
            (AgentCapability::Git, AgentCapability::Git) => true,
            (AgentCapability::Provenance, AgentCapability::Provenance) => true,
            (AgentCapability::Delegate, AgentCapability::Delegate) => true,
            (AgentCapability::Escalate, AgentCapability::Escalate) => true,
            _ => false,
        }
    }
}

/// The agent's current state.
///
/// The progress of a `Working` agent is a fraction, held here by the bit pattern of its
/// IEEE 754 double (`f64::to_bits`), so that the value round-trips exactly; `==` compares
/// the progress as doubles compare (see [`same_number`]).
#[derive(Debug, Clone)]
pub enum AgentStatus {
    Dormant,
    Waking,
    Orienting,
    Ready,
    Working { task: String, progress: u64 },
    YellowAlert,
    RedAlert { reason: String },
    StandingDown { report: String },
    Error(String),
    Offline,
}

/// The mathematical value of an [`AgentStatus`].
pub enum AgentStatusView {
    Dormant,
    Waking,
    Orienting,
    Ready,
    Working { task: Seq<char>, progress: u64 },
    YellowAlert,
    RedAlert { reason: Seq<char> },
    StandingDown { report: Seq<char> },
    Error(Seq<char>),
    Offline,
}

impl View for AgentStatus {
    type V = AgentStatusView;

    open spec fn view(&self) -> AgentStatusView {
        match self {
            AgentStatus::Dormant => AgentStatusView::Dormant,
            AgentStatus::Waking => AgentStatusView::Waking,
            AgentStatus::Orienting => AgentStatusView::Orienting,
            AgentStatus::Ready => AgentStatusView::Ready,
            AgentStatus::Working { task, progress } => AgentStatusView::Working {
                task: task@,
                progress: *progress,
            },
            AgentStatus::YellowAlert => AgentStatusView::YellowAlert,
            AgentStatus::RedAlert { reason } => AgentStatusView::RedAlert { reason: reason@ },
            AgentStatus::StandingDown { report } => AgentStatusView::StandingDown {
                report: report@,
            },
            AgentStatus::Error(e) => AgentStatusView::Error(e@),
            AgentStatus::Offline => AgentStatusView::Offline,
        }
    }
}

impl AgentStatusView {
    /// Whether two statuses compare equal: the same variant with equal texts, and for
    /// `Working` a progress that compares equal as a double.
    pub open spec fn same_as(self, other: AgentStatusView) -> bool {
        match (self, other) {
            (
                AgentStatusView::Working { task: a, progress: p },
                AgentStatusView::Working { task: b, progress: q },
            ) => a == b && same_number(p, q),
            _ => self == other,
        }
    }

    /// Waking, orienting, ready or working.
    pub open spec fn is_active(self) -> bool {
        ||| self is Waking
        ||| self is Orienting
        ||| self is Ready
        ||| self is Working
    }

    /// A yellow or red alert, or an error.
    pub open spec fn needs_attention(self) -> bool {
        ||| self is YellowAlert
        ||| self is RedAlert
        ||| self is Error
    }
}

impl PartialEq for AgentStatus {
    fn eq(&self, other: &AgentStatus) -> (r: bool) {
        match (self, other) {
            (AgentStatus::Dormant, AgentStatus::Dormant) => true,
            (AgentStatus::Waking, AgentStatus::Waking) => true,
            (AgentStatus::Orienting, AgentStatus::Orienting) => true,
            (AgentStatus::Ready, AgentStatus::Ready) => true,
            (
                AgentStatus::Working { task: a, progress: p },
                AgentStatus::Working { task: b, progress: q },
            ) => *a == *b && same_number_bits(*p, *q),
            (AgentStatus::YellowAlert, AgentStatus::YellowAlert) => true,
            (AgentStatus::RedAlert { reason: a }, AgentStatus::RedAlert { reason: b }) => *a == *b,
            (
                AgentStatus::StandingDown { report: a },
                AgentStatus::StandingDown { report: b },
            ) => *a == *b,
            (AgentStatus::Error(a), AgentStatus::Error(b)) => *a == *b,
            (AgentStatus::Offline, AgentStatus::Offline) => true,
            _ => false,
        }
    }
}

impl PartialEqSpecImpl for AgentStatus {
    open spec fn obeys_eq_spec() -> bool {
        true
    }

    open spec fn eq_spec(&self, other: &AgentStatus) -> bool {
        self@.same_as(other@)
    }
}

impl AgentStatus {
    /// A copy of this status with the same value.
    pub fn duplicate(&self) -> (r: AgentStatus)
        ensures
            r@ == self@,
    {
        match self {
            AgentStatus::Dormant => AgentStatus::Dormant,
            AgentStatus::Waking => AgentStatus::Waking,
            AgentStatus::Orienting => AgentStatus::Orienting,
            AgentStatus::Ready => AgentStatus::Ready,
            AgentStatus::Working { task, progress } => AgentStatus::Working {
                task: task.clone(),
                progress: *progress,
            },
            AgentStatus::YellowAlert => AgentStatus::YellowAlert,
            AgentStatus::RedAlert { reason } => AgentStatus::RedAlert { reason: reason.clone() },
            AgentStatus::StandingDown { report } => AgentStatus::StandingDown {
                report: report.clone(),
            },
            AgentStatus::Error(e) => AgentStatus::Error(e.clone()),
            AgentStatus::Offline => AgentStatus::Offline,
        }
    }

    pub fn is_active(&self) -> (r: bool)
        ensures
            r == self@.is_active(),
    {
        match self {
            AgentStatus::Waking | AgentStatus::Orienting | AgentStatus::Ready
            | AgentStatus::Working { .. } => true,
            _ => false,
        }
    }

    pub fn needs_attention(&self) -> (r: bool)
        ensures
            r == self@.needs_attention(),
    {
        match self {
            AgentStatus::YellowAlert | AgentStatus::RedAlert { .. } | AgentStatus::Error(_) => true,
            _ => false,
        }
    }
}

/// An available agent is active, and no status is both active and in need of attention.
pub proof fn lemma_status_classes(s: AgentStatusView)
    ensures
        (s is Ready) ==> s.is_active(),
        !(s.is_active() && s.needs_attention()),
{
}

/// Each capability is labelled by the name of its variant; a list-carrying one adds its
/// items, joined by commas, in brackets, and `Compute` says whether it is a GPU or a CPU.
pub proof fn lemma_capability_label_names(c: AgentCapabilityView)
    ensures
        c is Chat ==> c.label() == "Chat"@,
        c is Code ==> c.label() == "Code"@,
        c is Vision ==> c.label() == "Vision"@,
        c is Audio ==> c.label() == "Audio"@,
        c is Math ==> c.label() == "Math"@,
        c is Creative ==> c.label() == "Creative"@,
        c is Git ==> c.label() == "Git"@,
        c is Provenance ==> c.label() == "Provenance"@,
        c is Delegate ==> c.label() == "Delegate"@,
        c is Escalate ==> c.label() == "Escalate"@,
        c matches AgentCapabilityView::Compute { gpu } ==> c.label() == if gpu {
            "Compute(GPU)"@
        } else {
            "Compute(CPU)"@
        },
        c matches AgentCapabilityView::Hardware { devices } ==> c.label() == "Hardware("@
            + joined(devices, ","@) + ")"@,
        c matches AgentCapabilityView::Network { protocols } ==> c.label() == "Network("@
            + joined(protocols, ","@) + ")"@,
        c matches AgentCapabilityView::FileSystem { paths } ==> c.label() == "FileSystem("@
            + joined(paths, ","@) + ")"@,
{
}

/// Each built-in agent type is labelled by the name of its variant, and a custom type by
/// its own text.
pub proof fn lemma_type_label_names(t: AgentTypeView)
    ensures
        t is RoomEnsign ==> t.label() == "RoomEnsign"@,
        t is GitNative ==> t.label() == "GitNative"@,
        t is ZeroClaw ==> t.label() == "ZeroClaw"@,
        t is CUDAClaw ==> t.label() == "CUDAClaw"@,
        t is Hermes ==> t.label() == "Hermes"@,
        t matches AgentTypeView::Custom(s) ==> t.label() == s,
{
}

/// Which statuses are active and which need attention: waking, orienting, ready and working
/// agents are active; yellow and red alerts and errors need attention; dormant, standing
/// down and offline agents are neither.
pub proof fn lemma_status_kinds(s: AgentStatusView)
    ensures
        s.is_active() <==> (s is Waking || s is Orienting || s is Ready || s is Working),
        s.needs_attention() <==> (s is YellowAlert || s is RedAlert || s is Error),
        (s is Dormant || s is StandingDown || s is Offline) ==> !s.is_active()
            && !s.needs_attention(),
{
}

/// How each location reads: a room with its shell, a repository with its branch if it has
/// one, a shell with its universe, and a remote agent as a URL.
pub proof fn lemma_location_descriptions(l: AgentLocationView)
    ensures
        l matches AgentLocationView::Room { room_id, shell_id } ==> l.describe() == "room "@
            + room_id + " (shell "@ + shell_id + ")"@,
        l matches AgentLocationView::Repo { repo_path, branch } ==> l.describe() == match branch {
            Some(b) => "repo "@ + repo_path + " on "@ + b,
            None => "repo "@ + repo_path,
        },
        l matches AgentLocationView::Shell { shell_id, universe_path } ==> l.describe()
            == "shell "@ + shell_id + " at "@ + universe_path,
        l matches AgentLocationView::Remote { address, protocol } ==> l.describe() == protocol
            + "://"@ + address,
{
}

} // verus!
