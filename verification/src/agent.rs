use vstd::prelude::*;

use crate::kinds::{
    AgentCapability, AgentCapabilityView, AgentLocation, AgentLocationView, AgentStatus,
    AgentStatusView, AgentType, AgentTypeView, same_number, same_number_bits,
};
use vstd::std_specs::cmp::PartialEqSpecImpl;
use crate::text::{
    append_dashed, clone_opt, clone_strings, dashed, strings_eq, join, joined, lowercase, str_eq,
    to_lowercase, views_of,
};

verus! {

/// An agent, regardless of where it lives.
///
/// The conservation budget and the amount used of it are real numbers; each is held by
/// the bit pattern of its IEEE 754 double (`f64::to_bits`). The arithmetic on them is
/// floating point, and is done outside this library; `==` compares them as doubles
/// compare (see [`same_number`]).
#[derive(Debug, Clone)]
pub struct UnifiedAgent {
    pub id: String,
    pub name: String,
    pub agent_type: AgentType,
    pub location: AgentLocation,
    pub status: AgentStatus,
    pub capabilities: Vec<AgentCapability>,
    pub model: Option<String>,
    pub conservation_budget: u64,
    pub conservation_used: u64,
    pub parent: Option<String>,
    pub children: Vec<String>,
    pub connections: Vec<String>,
}

/// The mathematical value of a [`UnifiedAgent`].
pub struct UnifiedAgentView {
    pub id: Seq<char>,
    pub name: Seq<char>,
    pub agent_type: AgentTypeView,
    pub location: AgentLocationView,
    pub status: AgentStatusView,
    pub capabilities: Seq<AgentCapabilityView>,
    pub model: Option<Seq<char>>,
    pub conservation_budget: u64,
    pub conservation_used: u64,
    pub parent: Option<Seq<char>>,
    pub children: Seq<Seq<char>>,
    pub connections: Seq<Seq<char>>,
}

/// The value of an optional string.
pub open spec fn opt_view(o: Option<String>) -> Option<Seq<char>> {
    match o {
        Some(s) => Some(s@),
        None => None,
    }
}

/// The values of a list of capabilities.
pub open spec fn caps_view(v: Seq<AgentCapability>) -> Seq<AgentCapabilityView> {
    v.map_values(|c: AgentCapability| c@)
}

impl View for UnifiedAgent {
    type V = UnifiedAgentView;

    open spec fn view(&self) -> UnifiedAgentView {
        UnifiedAgentView {
            id: self.id@,
            name: self.name@,
            agent_type: self.agent_type@,
            location: self.location@,
            status: self.status@,
            capabilities: caps_view(self.capabilities@),
            model: opt_view(self.model),
            conservation_budget: self.conservation_budget,
            conservation_used: self.conservation_used,
            parent: opt_view(self.parent),
            children: views_of(self.children@),
            connections: views_of(self.connections@),
        }
    }
}

/// The identifier of an agent: its type's label, lowercased, a hyphen, and its name,
/// lowercased with spaces turned into hyphens.
pub open spec fn agent_id(agent_type: AgentTypeView, name: Seq<char>) -> Seq<char> {
    composed_id(lowercase(agent_type.label()), lowercase(name))
}

/// The identifier made of an already lowercased label and name.
pub open spec fn composed_id(lower_label: Seq<char>, lower_name: Seq<char>) -> Seq<char> {
    lower_label + "-"@ + dashed(lower_name)
}

/// The text that ends a description: the model, where there is one.
pub open spec fn model_suffix(model: Option<Seq<char>>) -> Seq<char> {
    match model {
        Some(m) => " | model: "@ + m,
        None => Seq::empty(),
    }
}

/// `caps` with `cap` added, unless an equal capability is already there.
pub open spec fn with_capability(
    caps: Seq<AgentCapabilityView>,
    cap: AgentCapabilityView,
) -> Seq<AgentCapabilityView> {
    if caps.contains(cap) {
        caps
    } else {
        caps.push(cap)
    }
}

/// `ids` with `id` added, unless it is already there.
pub open spec fn with_id(ids: Seq<Seq<char>>, id: Seq<char>) -> Seq<Seq<char>> {
    if ids.contains(id) {
        ids
    } else {
        ids.push(id)
    }
}

impl UnifiedAgentView {
    /// Whether two agents compare equal: every field equal, except that the status and the
    /// budget figures compare as doubles do.
    pub open spec fn same_as(self, other: UnifiedAgentView) -> bool {
        &&& self.id == other.id
        &&& self.name == other.name
        &&& self.agent_type == other.agent_type
        &&& self.location == other.location
        &&& self.status.same_as(other.status)
        &&& self.capabilities == other.capabilities
        &&& self.model == other.model
        &&& same_number(self.conservation_budget, other.conservation_budget)
        &&& same_number(self.conservation_used, other.conservation_used)
        &&& self.parent == other.parent
        &&& self.children == other.children
        &&& self.connections == other.connections
    }

    /// The labels of the agent's capabilities, in order.
    pub open spec fn cap_labels(self) -> Seq<Seq<char>> {
        self.capabilities.map_values(|c: AgentCapabilityView| c.label())
    }

    /// The one-line description of an agent, given the texts that render its status and
    /// its budget figures.
    pub open spec fn describe(
        self,
        status_text: Seq<char>,
        used_text: Seq<char>,
        budget_text: Seq<char>,
    ) -> Seq<char> {
        "["@ + self.id + "] "@ + self.name + " ("@ + self.agent_type.label() + ") @ "@
            + self.location.describe() + " — "@ + status_text + " | caps: ["@ + joined(
            self.cap_labels(),
            ", "@,
        ) + "] | budget: "@ + used_text + "/"@ + budget_text + model_suffix(self.model)
    }

    /// Whether the agent is ready to take work.
    pub open spec fn is_available(self) -> bool {
        self.status is Ready
    }
}

/// Builds an agent identifier from a lowercased type label and a lowercased name.
pub fn compose_id(lower_label: &str, lower_name: &str) -> (r: String)
    ensures
        r@ == composed_id(lower_label@, lower_name@),
{
    let mut id = String::from_str(lower_label);
    id.append("-");
    append_dashed(&mut id, lower_name);
    id
}

/// Whether `caps` holds a capability equal to `cap`.
pub fn has_capability(caps: &Vec<AgentCapability>, cap: &AgentCapability) -> (r: bool)
    ensures
        r == caps_view(caps@).contains(cap@),
{
    let n = caps.len();
    let mut i: usize = 0;
    while i < n
        invariant
            n == caps@.len(),
            i <= n,
            forall|j: int| 0 <= j < i ==> (#[trigger] caps@[j])@ != cap@,
        decreases n - i,
    {
        if caps[i].equals(cap) {
            assert(caps_view(caps@)[i as int] == cap@);
            return true;
        }
        i = i + 1;
    }
    proof {
        if caps_view(caps@).contains(cap@) {
            let k = choose|k: int| 0 <= k < caps_view(caps@).len() && caps_view(caps@)[k] == cap@;
            assert(caps@[k]@ == cap@);
        }
    }
    false
}

/// Whether two lists of capabilities are equal, element by element.
pub fn capabilities_eq(a: &Vec<AgentCapability>, b: &Vec<AgentCapability>) -> (r: bool)
    ensures
        r == (caps_view(a@) == caps_view(b@)),
{
    if a.len() != b.len() {
        assert(caps_view(a@).len() != caps_view(b@).len());
        return false;
    }
    let n = a.len();
    let mut i: usize = 0;
    while i < n
        invariant
            n == a@.len(),
            n == b@.len(),
            i <= n,
            forall|j: int| 0 <= j < i ==> (#[trigger] a@[j])@ == b@[j]@,
        decreases n - i,
    {
        if !a[i].equals(&b[i]) {
            assert(caps_view(a@)[i as int] != caps_view(b@)[i as int]);
            return false;
        }
        i = i + 1;
    }
    assert(caps_view(a@) =~= caps_view(b@));
    true
}

/// Whether two optional strings are equal.
pub fn opt_eq(a: &Option<String>, b: &Option<String>) -> (r: bool)
    ensures
        r == (opt_view(*a) == opt_view(*b)),
{
    match (a, b) {
        (Some(x), Some(y)) => *x == *y,
        (None, None) => true,
        _ => false,
    }
}

impl PartialEq for UnifiedAgent {
    fn eq(&self, other: &UnifiedAgent) -> (r: bool) {
        self.id == other.id && self.name == other.name && self.agent_type.equals(
            &other.agent_type,
        ) && self.location.equals(&other.location) && self.status.eq(&other.status)
            && capabilities_eq(&self.capabilities, &other.capabilities) && opt_eq(
            &self.model,
            &other.model,
        ) && same_number_bits(self.conservation_budget, other.conservation_budget)
            && same_number_bits(self.conservation_used, other.conservation_used) && opt_eq(
            &self.parent,
            &other.parent,
        ) && strings_eq(&self.children, &other.children) && strings_eq(
            &self.connections,
            &other.connections,
        )
    }
}

impl PartialEqSpecImpl for UnifiedAgent {
    open spec fn obeys_eq_spec() -> bool {
        true
    }

    open spec fn eq_spec(&self, other: &UnifiedAgent) -> bool {
        self@.same_as(other@)
    }
}

/// Whether `list` holds a string with the characters of `s`.
pub fn has_string(list: &Vec<String>, s: &str) -> (r: bool)
    ensures
        r == views_of(list@).contains(s@),
{
    let n = list.len();
    let mut i: usize = 0;
    while i < n
        invariant
            n == list@.len(),
            i <= n,
            forall|j: int| 0 <= j < i ==> (#[trigger] list@[j])@ != s@,
        decreases n - i,
    {
        if str_eq(list[i].as_str(), s) {
            assert(views_of(list@)[i as int] == s@);
            return true;
        }
        i = i + 1;
    }
    proof {
        if views_of(list@).contains(s@) {
            let k = choose|k: int| 0 <= k < views_of(list@).len() && views_of(list@)[k] == s@;
            assert(list@[k]@ == s@);
        }
    }
    false
}

impl UnifiedAgent {
    /// A dormant agent with no capabilities, no model, a zero budget, nothing used of it,
    /// and no parent, children or connections. Its identifier is [`agent_id`].
    pub fn new(name: &str, agent_type: AgentType, location: AgentLocation) -> (r: UnifiedAgent)
        ensures
            r@ == (UnifiedAgentView {
                id: agent_id(agent_type@, name@),
                name: name@,
                agent_type: agent_type@,
                location: location@,
                status: AgentStatusView::Dormant,
                capabilities: Seq::empty(),
                model: None,
                conservation_budget: 0,
                conservation_used: 0,
                parent: None,
                children: Seq::empty(),
                connections: Seq::empty(),
            }),
    {
        let label = agent_type.label();
        let lower_label = to_lowercase(label.as_str());
        let lower_name = to_lowercase(name);
        let id = compose_id(lower_label.as_str(), lower_name.as_str());
        let r = UnifiedAgent {
            id,
            name: String::from_str(name),
            agent_type,
            location,
            status: AgentStatus::Dormant,
            capabilities: Vec::new(),
            model: None,
            conservation_budget: 0,
            conservation_used: 0,
            parent: None,
            children: Vec::new(),
            connections: Vec::new(),
        };
        assert(caps_view(r.capabilities@) =~= Seq::empty());
        assert(views_of(r.children@) =~= Seq::empty());
        assert(views_of(r.connections@) =~= Seq::empty());
        r
    }

    /// A copy of this agent with the same value.
    pub fn duplicate(&self) -> (r: UnifiedAgent)
        ensures
            r@ == self@,
    {
        let mut caps: Vec<AgentCapability> = Vec::new();
        let n = self.capabilities.len();
        let mut i: usize = 0;
        while i < n
            invariant
                n == self.capabilities@.len(),
                i <= n,
                caps_view(caps@) == caps_view(self.capabilities@).take(i as int),
            decreases n - i,
        {
            let ghost prev = caps_view(caps@);
            let c = self.capabilities[i].duplicate();
            caps.push(c);
            assert(caps_view(caps@) =~= prev.push(self.capabilities@[i as int]@));
            assert(caps_view(self.capabilities@).take(i + 1) =~= caps_view(
                self.capabilities@,
            ).take(i as int).push(self.capabilities@[i as int]@));
            i = i + 1;
        }
        assert(caps_view(self.capabilities@).take(n as int) =~= caps_view(self.capabilities@));
        UnifiedAgent {
            id: self.id.clone(),
            name: self.name.clone(),
            agent_type: self.agent_type.duplicate(),
            location: self.location.duplicate(),
            status: self.status.duplicate(),
            capabilities: caps,
            model: clone_opt(&self.model),
            conservation_budget: self.conservation_budget,
            conservation_used: self.conservation_used,
            parent: clone_opt(&self.parent),
            children: clone_strings(&self.children),
            connections: clone_strings(&self.connections),
        }
    }

    /// Adds `cap` unless an equal capability is already there.
    pub fn add_capability(&mut self, cap: AgentCapability)
        ensures
            final(self)@ == (UnifiedAgentView {
                capabilities: with_capability(old(self)@.capabilities, cap@),
                ..old(self)@
            }),
    {
        if !has_capability(&self.capabilities, &cap) {
            let ghost cap_v = cap@;
            self.capabilities.push(cap);
            assert(caps_view(self.capabilities@) =~= caps_view(old(self).capabilities@).push(cap_v));
        }
    }

    /// Records a connection to `target` unless it is already recorded.
    pub fn grant_connection(&mut self, target: &str)
        ensures
            final(self)@ == (UnifiedAgentView {
                connections: with_id(old(self)@.connections, target@),
                ..old(self)@
            }),
    {
        if !has_string(&self.connections, target) {
            self.connections.push(String::from_str(target));
            assert(views_of(self.connections@) =~= views_of(old(self).connections@).push(target@));
        }
    }

    /// An agent is available when its status is `Ready`.
    pub fn is_available(&self) -> (r: bool)
        ensures
            r == self@.is_available(),
    {
        match self.status {
            AgentStatus::Ready => true,
            _ => false,
        }
    }

    /// The labels of this agent's capabilities, in order.
    pub fn capability_labels(&self) -> (r: Vec<String>)
        ensures
            views_of(r@) == self@.cap_labels(),
    {
        let mut r: Vec<String> = Vec::new();
        let n = self.capabilities.len();
        let mut i: usize = 0;
        while i < n
            invariant
                n == self.capabilities@.len(),
                i <= n,
                views_of(r@) == self@.cap_labels().take(i as int),
            decreases n - i,
        {
            let label = self.capabilities[i].label();
            assert(self@.cap_labels()[i as int] == label@);
            let ghost prev = views_of(r@);
            let ghost lv = label@;
            r.push(label);
            assert(views_of(r@) =~= prev.push(lv));
            assert(views_of(r@) =~= self@.cap_labels().take(i + 1));
            i = i + 1;
        }
        assert(self@.cap_labels().take(n as int) =~= self@.cap_labels());
        r
    }

    /// The one-line description of this agent. The status, as `Debug` renders it, and
    /// the amounts used and budgeted, as `Display` renders them, are given as texts.
    pub fn describe(&self, status_text: &str, used_text: &str, budget_text: &str) -> (r: String)
        ensures
            r@ == self@.describe(status_text@, used_text@, budget_text@),
    {
        let caps = join(&self.capability_labels(), ", ");
        let mut r = String::from_str("[");
        r.append(self.id.as_str());
        r.append("] ");
        r.append(self.name.as_str());
        r.append(" (");
        r.append(self.agent_type.label().as_str());
        r.append(") @ ");
        r.append(self.location.describe().as_str());
        r.append(" — ");
        r.append(status_text);
        r.append(" | caps: [");
        r.append(caps.as_str());
        r.append("] | budget: ");
        r.append(used_text);
        r.append("/");
        r.append(budget_text);
        match &self.model {
            Some(m) => {
                r.append(" | model: ");
                r.append(m.as_str());
            },
            None => {},
        }
        r
    }
}

/// An identifier is the lowercased type label, a hyphen, and the lowercased name with each
/// space turned into a hyphen; the description lists, in order, the identifier in
/// brackets, the name, the type label in parentheses, the location, the status, the
/// capability labels joined by ", ", the budget figures as used/budget, and the model if
/// there is one.
pub proof fn lemma_identifier_and_description(
    a: UnifiedAgentView,
    status_text: Seq<char>,
    used_text: Seq<char>,
    budget_text: Seq<char>,
)
    ensures
        agent_id(a.agent_type, a.name) == lowercase(a.agent_type.label()) + "-"@ + lowercase(
            a.name,
        ).map_values(|c: char| if c == ' ' { '-' } else { c }),
        a.describe(status_text, used_text, budget_text) == "["@ + a.id + "] "@ + a.name + " ("@
            + a.agent_type.label() + ") @ "@ + a.location.describe() + " — "@ + status_text
            + " | caps: ["@ + joined(
            a.capabilities.map_values(|c: AgentCapabilityView| c.label()),
            ", "@,
        ) + "] | budget: "@ + used_text + "/"@ + budget_text + match a.model {
            Some(m) => " | model: "@ + m,
            None => Seq::empty(),
        },
{
}

/// Adding a capability a second time changes nothing, the capability is present
/// afterwards, and a list without duplicates stays without duplicates.
pub proof fn lemma_add_capability_idempotent(
    caps: Seq<AgentCapabilityView>,
    cap: AgentCapabilityView,
)
    ensures
        with_capability(with_capability(caps, cap), cap) == with_capability(caps, cap),
        with_capability(caps, cap).contains(cap),
        caps.no_duplicates() ==> with_capability(caps, cap).no_duplicates(),
{
    let r = with_capability(caps, cap);
    if !caps.contains(cap) {
        assert(r[caps.len() as int] == cap);
    }
    assert(r.contains(cap));
}

/// Granting a connection a second time changes nothing, the connection is present
/// afterwards, and a list without duplicates stays without duplicates.
pub proof fn lemma_grant_connection_idempotent(ids: Seq<Seq<char>>, id: Seq<char>)
    ensures
        with_id(with_id(ids, id), id) == with_id(ids, id),
        with_id(ids, id).contains(id),
        ids.no_duplicates() ==> with_id(ids, id).no_duplicates(),
{
    let r = with_id(ids, id);
    if !ids.contains(id) {
        assert(r[ids.len() as int] == id);
    }
    assert(r.contains(id));
}

} // verus!
