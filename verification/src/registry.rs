use vstd::prelude::*;

use crate::agent::{caps_view, has_capability, UnifiedAgent, UnifiedAgentView};
use crate::kinds::{
    AgentCapability, AgentCapabilityView, AgentLocation, AgentLocationView, AgentType,
};
use crate::text::{str_eq, views_of};

verus! {

/// Whether an agent with identifier `id` is among `agents`.
pub open spec fn has_agent(agents: Seq<UnifiedAgentView>, id: Seq<char>) -> bool {
    exists|i: int| 0 <= i < agents.len() && (#[trigger] agents[i]).id == id
}

/// The position of the agent with identifier `id` among `agents`.
pub open spec fn agent_index(agents: Seq<UnifiedAgentView>, id: Seq<char>) -> int {
    choose|i: int| 0 <= i < agents.len() && (#[trigger] agents[i]).id == id
}

/// The agent with identifier `id`, if one is among `agents`.
pub open spec fn lookup(agents: Seq<UnifiedAgentView>, id: Seq<char>) -> Option<UnifiedAgentView> {
    if has_agent(agents, id) {
        Some(agents[agent_index(agents, id)])
    } else {
        None
    }
}

/// No identifier occurs twice among `agents`.
pub open spec fn ids_distinct(agents: Seq<UnifiedAgentView>) -> bool {
    forall|i: int, j: int|
        0 <= i < agents.len() && 0 <= j < agents.len() && i != j ==> (#[trigger] agents[i]).id
            != (#[trigger] agents[j]).id
}

/// `agents` after registering `agent`: it replaces the agent with its identifier, or
/// joins at the end.
pub open spec fn with_registered(
    agents: Seq<UnifiedAgentView>,
    agent: UnifiedAgentView,
) -> Seq<UnifiedAgentView> {
    if has_agent(agents, agent.id) {
        agents.update(agent_index(agents, agent.id), agent)
    } else {
        agents.push(agent)
    }
}

/// `agents` after removing the agent with identifier `id`, if there is one.
pub open spec fn without_agent(agents: Seq<UnifiedAgentView>, id: Seq<char>) -> Seq<
    UnifiedAgentView,
> {
    if has_agent(agents, id) {
        agents.remove(agent_index(agents, id))
    } else {
        agents
    }
}

/// The value an optional reference to an agent stands for.
pub open spec fn found_view(r: Option<&UnifiedAgent>) -> Option<UnifiedAgentView> {
    match r {
        Some(a) => Some(a@),
        None => None,
    }
}

/// The values of a list of agent references.
pub open spec fn refs_view(r: Seq<&UnifiedAgent>) -> Seq<UnifiedAgentView> {
    r.map_values(|a: &UnifiedAgent| a@)
}

/// Whether a location is of the kind named `kind`: "room", "repo", "shell" or "remote".
pub open spec fn location_is(location: AgentLocationView, kind: Seq<char>) -> bool {
    ||| kind == "room"@ && location is Room
    ||| kind == "repo"@ && location is Repo
    ||| kind == "shell"@ && location is Shell
    ||| kind == "remote"@ && location is Remote
}

/// Whether `have` holds every capability of `wanted`.
pub open spec fn has_all(have: Seq<AgentCapabilityView>, wanted: Seq<AgentCapabilityView>) -> bool {
    forall|k: int| 0 <= k < wanted.len() ==> have.contains(#[trigger] wanted[k])
}

/// The type labels of `agents`, in order.
pub open spec fn type_labels(agents: Seq<UnifiedAgentView>) -> Seq<Seq<char>> {
    agents.map_values(|a: UnifiedAgentView| a.agent_type.label())
}

/// How many of `agents` have a type labelled `label`.
pub open spec fn label_count(agents: Seq<UnifiedAgentView>, label: Seq<char>) -> nat {
    agents.filter(|a: UnifiedAgentView| a.agent_type.label() == label).len()
}

/// The labels of a tally, in order.
pub open spec fn tally_labels(tally: Seq<(String, usize)>) -> Seq<Seq<char>> {
    tally.map_values(|e: (String, usize)| e.0@)
}

/// The agents of `agents`, in order, whose location is of the kind named `kind`.
pub open spec fn located(agents: Seq<UnifiedAgentView>, kind: Seq<char>) -> Seq<UnifiedAgentView> {
    agents.filter(|a: UnifiedAgentView| location_is(a.location, kind))
}

/// The agents of `agents`, in order, that are available.
pub open spec fn available_agents(agents: Seq<UnifiedAgentView>) -> Seq<UnifiedAgentView> {
    agents.filter(|a: UnifiedAgentView| a.is_available())
}

/// The agents of `agents`, in order, that are available and have every capability of
/// `wanted`.
pub open spec fn capable_agents(
    agents: Seq<UnifiedAgentView>,
    wanted: Seq<AgentCapabilityView>,
) -> Seq<UnifiedAgentView> {
    agents.filter(|a: UnifiedAgentView| has_all(a.capabilities, wanted) && a.is_available())
}

/// Knows all agents across all locations.
///
/// The agents are kept in the order in which they were first registered; no identifier
/// occurs twice.
#[derive(Debug)]
pub struct AgentRegistry {
    agents: Vec<UnifiedAgent>,
}

impl View for AgentRegistry {
    type V = Seq<UnifiedAgentView>;

    closed spec fn view(&self) -> Seq<UnifiedAgentView> {
        self.agents@.map_values(|a: UnifiedAgent| a@)
    }
}

/// `s.take(i + 1)` filtered is `s.take(i)` filtered, followed by `s[i]` when it passes.
pub proof fn lemma_filter_take_step<A>(s: Seq<A>, pred: spec_fn(A) -> bool, i: int)
    requires
        0 <= i < s.len(),
    ensures
        s.take(i + 1).filter(pred) == if pred(s[i]) {
            s.take(i).filter(pred).push(s[i])
        } else {
            s.take(i).filter(pred)
        },
{
    reveal(Seq::filter);
    assert(s.take(i + 1).drop_last() =~= s.take(i));
}

impl AgentRegistry {
    #[verifier::type_invariant]
    spec fn well_formed(self) -> bool {
        ids_distinct(self@)
    }

    /// An empty registry.
    pub fn new() -> (r: AgentRegistry)
        ensures
            r@ == Seq::<UnifiedAgentView>::empty(),
            ids_distinct(r@),
    {
        let r = AgentRegistry { agents: Vec::new() };
        assert(r@ =~= Seq::<UnifiedAgentView>::empty());
        r
    }

    /// The position of the agent with identifier `id`.
    fn find_index(&self, id: &str) -> (r: Option<usize>)
        ensures
            match r {
                Some(i) => i == agent_index(self@, id@) && i < self@.len() && has_agent(
                    self@,
                    id@,
                ),
                None => !has_agent(self@, id@),
            },
    {
        proof {
            use_type_invariant(self);
        }
        let n = self.agents.len();
        let mut i: usize = 0;
        while i < n
            invariant
                n == self@.len(),
                i <= n,
                ids_distinct(self@),
                forall|j: int| 0 <= j < i ==> (#[trigger] self@[j]).id != id@,
            decreases n - i,
        {
            if str_eq(self.agents[i].id.as_str(), id) {
                assert(self@[i as int].id == id@);
                let ghost k = agent_index(self@, id@);
                assert(self@[k].id == id@);
                return Some(i);
            }
            i = i + 1;
        }
        None
    }

    /// Adds `agent`, replacing the agent registered under the same identifier.
    pub fn register(&mut self, agent: UnifiedAgent)
        ensures
            final(self)@ == with_registered(old(self)@, agent@),
            ids_distinct(final(self)@),
            lookup(final(self)@, agent@.id) == Some(agent@),
            forall|id: Seq<char>|
                id != agent@.id ==> #[trigger] lookup(final(self)@, id) == lookup(old(self)@, id),
            final(self)@.len() == old(self)@.len() + if has_agent(old(self)@, agent@.id) {
                0int
            } else {
                1int
            },
    {
        proof {
            use_type_invariant(&*self);
            lemma_register_then_lookup(self@, agent@);
        }
        let idx = self.find_index(agent.id.as_str());
        let ghost before = self@;
        let ghost av = agent@;
        let mut agents: Vec<UnifiedAgent> = Vec::new();
        std::mem::swap(&mut agents, &mut self.agents);
        assert(agents@.map_values(|a: UnifiedAgent| a@) == before);
        match idx {
            Some(i) => {
                agents.set(i, agent);
            },
            None => {
                agents.push(agent);
            },
        }
        assert(agents@.map_values(|a: UnifiedAgent| a@) =~= with_registered(before, av));
        proof {
            lemma_registered_keeps_ids_distinct(before, av);
        }
        self.agents = agents;
    }

    /// Removes the agent registered under `id`, if there is one.
    pub fn unregister(&mut self, id: &str)
        ensures
            final(self)@ == without_agent(old(self)@, id@),
            ids_distinct(final(self)@),
            lookup(final(self)@, id@) is None,
            forall|other: Seq<char>|
                other != id@ ==> #[trigger] lookup(final(self)@, other) == lookup(
                    old(self)@,
                    other,
                ),
            final(self)@.len() == old(self)@.len() - if has_agent(old(self)@, id@) {
                1int
            } else {
                0int
            },
    {
        proof {
            use_type_invariant(&*self);
            lemma_unregister_then_lookup(self@, id@);
        }
        let idx = self.find_index(id);
        let ghost before = self@;
        match idx {
            Some(i) => {
                let mut agents: Vec<UnifiedAgent> = Vec::new();
                std::mem::swap(&mut agents, &mut self.agents);
                assert(agents@.map_values(|a: UnifiedAgent| a@) == before);
                agents.remove(i);
                assert(agents@.map_values(|a: UnifiedAgent| a@) =~= without_agent(before, id@));
                proof {
                    lemma_unregistered_keeps_ids_distinct(before, id@);
                }
                self.agents = agents;
            },
            None => {},
        }
    }

    /// The agent registered under `id`.
    pub fn get(&self, id: &str) -> (r: Option<&UnifiedAgent>)
        ensures
            found_view(r) == lookup(self@, id@),
            ids_distinct(self@),
    {
        proof {
            use_type_invariant(self);
        }
        match self.find_index(id) {
            Some(i) => Some(&self.agents[i]),
            None => None,
        }
    }

    /// Where the agent registered under `id` lives.
    pub fn route_to(&self, agent_id: &str) -> (r: Option<AgentLocation>)
        ensures
            match lookup(self@, agent_id@) {
                Some(a) => r is Some && r->0@ == a.location,
                None => r is None,
            },
    {
        match self.find_index(agent_id) {
            Some(i) => Some(self.agents[i].location.duplicate()),
            None => None,
        }
    }

    /// The registered agents, in the order in which they were first registered.
    pub fn agents(&self) -> (r: &Vec<UnifiedAgent>)
        ensures
            r@.map_values(|a: UnifiedAgent| a@) == self@,
            ids_distinct(self@),
    {
        proof {
            use_type_invariant(self);
        }
        &self.agents
    }

    /// The number of registered agents.
    pub fn count(&self) -> (r: usize)
        ensures
            r == self@.len(),
            ids_distinct(self@),
    {
        proof {
            use_type_invariant(self);
        }
        self.agents.len()
    }

    /// The registered agents, in order, that `keep` accepts; `keep` decides as `pred` does.
    fn select<F: Fn(&UnifiedAgent) -> bool>(
        &self,
        keep: F,
        Ghost(pred): Ghost<spec_fn(UnifiedAgentView) -> bool>,
    ) -> (r: Vec<&UnifiedAgent>)
        requires
            forall|a: &UnifiedAgent| #[trigger] keep.requires((a,)),
            forall|a: &UnifiedAgent, b: bool| keep.ensures((a,), b) ==> b == pred(a@),
        ensures
            refs_view(r@) == self@.filter(pred),
            ids_distinct(refs_view(r@)),
    {
        proof {
            use_type_invariant(self);
        }
        let mut r: Vec<&UnifiedAgent> = Vec::new();
        let n = self.agents.len();
        let mut i: usize = 0;
        while i < n
            invariant
                n == self@.len(),
                i <= n,
                forall|a: &UnifiedAgent| #[trigger] keep.requires((a,)),
                forall|a: &UnifiedAgent, b: bool| keep.ensures((a,), b) ==> b == pred(a@),
                refs_view(r@) == self@.take(i as int).filter(pred),
                ids_distinct(self@),
                ids_distinct(refs_view(r@)),
                forall|k: int|
                    0 <= k < r@.len() ==> exists|j: int|
                        0 <= j < i && (#[trigger] refs_view(r@)[k]).id == self@[j].id,
            decreases n - i,
        {
            let a = &self.agents[i];
            proof {
                lemma_filter_take_step(self@, pred, i as int);
            }
            if keep(a) {
                let ghost prev = refs_view(r@);
                r.push(a);
                assert(refs_view(r@) =~= prev.push(a@));
                assert forall|k: int| 0 <= k < prev.len() implies (#[trigger] prev[k]).id
                    != a@.id by {
                    let j = choose|j: int| 0 <= j < i && prev[k].id == self@[j].id;
                    assert(self@[j].id != self@[i as int].id);
                }
                assert forall|x: int, y: int|
                    0 <= x < refs_view(r@).len() && 0 <= y < refs_view(r@).len() && x != y
                        implies (#[trigger] refs_view(r@)[x]).id != (
                    #[trigger] refs_view(r@)[y]).id by {
                    if x < prev.len() && y < prev.len() {
                        assert(prev[x].id != prev[y].id);
                    } else if x < prev.len() {
                        assert(prev[x].id != a@.id);
                    } else {
                        assert(prev[y].id != a@.id);
                    }
                }
                assert forall|k: int| 0 <= k < r@.len() implies exists|j: int|
                    0 <= j < i + 1 && (#[trigger] refs_view(r@)[k]).id == self@[j].id by {
                    if k < prev.len() {
                        let j = choose|j: int| 0 <= j < i && prev[k].id == self@[j].id;
                        assert(refs_view(r@)[k] == prev[k]);
                    } else {
                        assert(refs_view(r@)[k].id == self@[i as int].id);
                    }
                }
            }
            i = i + 1;
        }
        assert(self@.take(n as int) =~= self@);
        r
    }

    /// The registered agents, in order, whose type equals `agent_type`.
    pub fn find_by_type(&self, agent_type: &AgentType) -> (r: Vec<&UnifiedAgent>)
        ensures
            refs_view(r@) == self@.filter(|a: UnifiedAgentView| a.agent_type == agent_type@),
            ids_distinct(refs_view(r@)),
    {
        let ghost pred = |a: UnifiedAgentView| a.agent_type == agent_type@;
        let keep = |a: &UnifiedAgent| -> (b: bool)
            ensures
                b == (a@.agent_type == agent_type@),
            { a.agent_type.equals(agent_type) };
        self.select(keep, Ghost(pred))
    }

    /// The registered agents, in order, that have a capability equal to `cap`.
    pub fn find_by_capability(&self, cap: &AgentCapability) -> (r: Vec<&UnifiedAgent>)
        ensures
            refs_view(r@) == self@.filter(|a: UnifiedAgentView| a.capabilities.contains(cap@)),
            ids_distinct(refs_view(r@)),
    {
        let ghost pred = |a: UnifiedAgentView| a.capabilities.contains(cap@);
        let keep = |a: &UnifiedAgent| -> (b: bool)
            ensures
                b == a@.capabilities.contains(cap@),
            { has_capability(&a.capabilities, cap) };
        self.select(keep, Ghost(pred))
    }

    /// The registered agents, in order, whose location is of the kind `location_type`
    /// names: "room", "repo", "shell" or "remote". Any other name selects none.
    pub fn find_by_location(&self, location_type: &str) -> (r: Vec<&UnifiedAgent>)
        ensures
            refs_view(r@) == located(self@, location_type@),
            ids_distinct(refs_view(r@)),
    {
        let room = str_eq(location_type, "room");
        let repo = str_eq(location_type, "repo");
        let shell = str_eq(location_type, "shell");
        let remote = str_eq(location_type, "remote");
        let ghost pred = |a: UnifiedAgentView| location_is(a.location, location_type@);
        let keep = |a: &UnifiedAgent| -> (b: bool)
            ensures
                b == location_is(a@.location, location_type@),
            {
                match &a.location {
                    AgentLocation::Room { .. } => room,
                    AgentLocation::Repo { .. } => repo,
                    AgentLocation::Shell { .. } => shell,
                    AgentLocation::Remote { .. } => remote,
                }
            };
        self.select(keep, Ghost(pred))
    }

    /// The registered agents, in order, that are available.
    pub fn find_available(&self) -> (r: Vec<&UnifiedAgent>)
        ensures
            refs_view(r@) == available_agents(self@),
            ids_distinct(refs_view(r@)),
    {
        let ghost pred = |a: UnifiedAgentView| a.is_available();
        let keep = |a: &UnifiedAgent| -> (b: bool)
            ensures
                b == a@.is_available(),
            { a.is_available() };
        self.select(keep, Ghost(pred))
    }

    /// The registered agents, in order, that are available and have every capability of
    /// `caps`: those among which the cheapest is chosen.
    pub fn find_capable(&self, caps: &[AgentCapability]) -> (r: Vec<&UnifiedAgent>)
        ensures
            refs_view(r@) == capable_agents(self@, caps_view(caps@)),
            ids_distinct(refs_view(r@)),
    {
        let ghost wanted = caps_view(caps@);
        let ghost pred = |a: UnifiedAgentView| has_all(a.capabilities, wanted) && a.is_available();
        let keep = |a: &UnifiedAgent| -> (b: bool)
            ensures
                b == (has_all(a@.capabilities, caps_view(caps@)) && a@.is_available()),
            { has_every_capability(&a.capabilities, caps) && a.is_available() };
        self.select(keep, Ghost(pred))
    }

    /// How many agents there are of each type, by type label: each label of a registered
    /// agent's type occurs once, with the number of agents whose type has that label.
    pub fn count_by_type(&self) -> (r: Vec<(String, usize)>)
        ensures
            tally_labels(r@).no_duplicates(),
            forall|l: Seq<char>|
                #![trigger tally_labels(r@).contains(l)]
                tally_labels(r@).contains(l) <==> type_labels(self@).contains(l),
            forall|k: int|
                0 <= k < r@.len() ==> (#[trigger] r@[k]).1 == label_count(self@, r@[k].0@),
    {
        let mut keys: Vec<String> = Vec::new();
        let mut counts: Vec<usize> = Vec::new();
        let n = self.agents.len();
        let mut i: usize = 0;
        while i < n
            invariant
                n == self@.len(),
                i <= n,
                keys@.len() == counts@.len(),
                views_of(keys@).no_duplicates(),
                forall|l: Seq<char>|
                    #![trigger views_of(keys@).contains(l)]
                    views_of(keys@).contains(l) <==> type_labels(self@.take(i as int)).contains(l),
                forall|k: int|
                    0 <= k < keys@.len() ==> (#[trigger] counts@[k]) == label_count(
                        self@.take(i as int),
                        keys@[k]@,
                    ),
                forall|l: Seq<char>|
                    !views_of(keys@).contains(l) ==> #[trigger] label_count(
                        self@.take(i as int),
                        l,
                    ) == 0,
            decreases n - i,
        {
            let label = self.agents[i].agent_type.label();
            let ghost lv = label@;
            let ghost before = self@.take(i as int);
            let ghost after = self@.take(i + 1);
            assert(self@[i as int].agent_type.label() == lv);
            assert(type_labels(after) =~= type_labels(before).push(lv));
            assert forall|l: Seq<char>| #[trigger]
                label_count(after, l) == label_count(before, l) + if l == lv {
                    1int
                } else {
                    0int
                } by {
                lemma_filter_take_step(
                    self@,
                    |a: UnifiedAgentView| a.agent_type.label() == l,
                    i as int,
                );
            }
            match find_string(&keys, label.as_str()) {
                Some(k) => {
                    proof {
                        before.lemma_filter_len(|a: UnifiedAgentView| a.agent_type.label() == lv);
                    }
                    let c = counts[k];
                    counts.set(k, c + 1);
                    assert forall|l: Seq<char>|
                        #![trigger views_of(keys@).contains(l)]
                        views_of(keys@).contains(l) <==> type_labels(after).contains(l) by {
                        if type_labels(after).contains(l) && l != lv {
                            let j = choose|j: int|
                                0 <= j < type_labels(after).len() && type_labels(after)[j] == l;
                            assert(type_labels(before)[j] == l);
                        }
                        if views_of(keys@).contains(l) {
                            let j = choose|j: int|
                                0 <= j < views_of(keys@).len() && views_of(keys@)[j] == l;
                            assert(type_labels(before).contains(l));
                            let m = choose|m: int|
                                0 <= m < type_labels(before).len() && type_labels(before)[m] == l;
                            assert(type_labels(after)[m] == l);
                        }
                        if l == lv {
                            assert(views_of(keys@)[k as int] == lv);
                            assert(type_labels(after)[i as int] == lv);
                        }
                    }
                    assert forall|k2: int| 0 <= k2 < keys@.len() implies (#[trigger] counts@[k2])
                        == label_count(after, keys@[k2]@) by {
                        if k2 != k {
                            assert(views_of(keys@)[k2] != views_of(keys@)[k as int]);
                        }
                    }
                    assert forall|l: Seq<char>|
                        !views_of(keys@).contains(l) implies #[trigger] label_count(after, l)
                        == 0 by {
                        if l == lv {
                            assert(views_of(keys@)[k as int] == lv);
                        }
                    }
                },
                None => {
                    let ghost prev_keys = views_of(keys@);
                    keys.push(label);
                    counts.push(1);
                    assert(views_of(keys@) =~= prev_keys.push(lv));
                    assert forall|l: Seq<char>|
                        #![trigger views_of(keys@).contains(l)]
                        views_of(keys@).contains(l) <==> type_labels(after).contains(l) by {
                        if type_labels(after).contains(l) && l != lv {
                            let j = choose|j: int|
                                0 <= j < type_labels(after).len() && type_labels(after)[j] == l;
                            assert(type_labels(before)[j] == l);
                            assert(prev_keys.contains(l));
                            let m = choose|m: int| 0 <= m < prev_keys.len() && prev_keys[m] == l;
                            assert(views_of(keys@)[m] == l);
                        }
                        if views_of(keys@).contains(l) && l != lv {
                            let j = choose|j: int|
                                0 <= j < views_of(keys@).len() && views_of(keys@)[j] == l;
                            assert(prev_keys[j] == l);
                            assert(prev_keys.contains(l));
                            assert(type_labels(before).contains(l));
                            let m = choose|m: int|
                                0 <= m < type_labels(before).len() && type_labels(before)[m] == l;
                            assert(type_labels(after)[m] == l);
                        }
                        if l == lv {
                            assert(views_of(keys@)[prev_keys.len() as int] == lv);
                            assert(type_labels(after)[i as int] == lv);
                        }
                    }
                    assert forall|k2: int| 0 <= k2 < keys@.len() implies (#[trigger] counts@[k2])
                        == label_count(after, keys@[k2]@) by {
                        if k2 < prev_keys.len() {
                            assert(prev_keys[k2] != lv);
                        } else {
                            assert(!prev_keys.contains(lv));
                        }
                    }
                    assert forall|l: Seq<char>|
                        !views_of(keys@).contains(l) implies #[trigger] label_count(after, l)
                        == 0 by {
                        if l == lv {
                            assert(views_of(keys@)[prev_keys.len() as int] == lv);
                        } else if prev_keys.contains(l) {
                            let m = choose|m: int| 0 <= m < prev_keys.len() && prev_keys[m] == l;
                            assert(views_of(keys@)[m] == l);
                        }
                    }
                },
            }
            i = i + 1;
        }
        assert(self@.take(n as int) =~= self@);
        let mut r: Vec<(String, usize)> = Vec::new();
        let m = keys.len();
        let mut j: usize = 0;
        while j < m
            invariant
                m == keys@.len(),
                m == counts@.len(),
                j <= m,
                r@.len() == j,
                forall|k: int| 0 <= k < j ==> (#[trigger] r@[k]).0@ == keys@[k]@ && r@[k].1
                    == counts@[k],
            decreases m - j,
        {
            r.push((keys[j].clone(), counts[j]));
            j = j + 1;
        }
        assert(tally_labels(r@) =~= views_of(keys@));
        r
    }

    /// Whether an agent is registered under `id`.
    pub fn contains(&self, id: &str) -> (r: bool)
        ensures
            r == has_agent(self@, id@),
    {
        self.find_index(id).is_some()
    }
}

/// Whether `have` holds a capability equal to each of `wanted`.
pub fn has_every_capability(have: &Vec<AgentCapability>, wanted: &[AgentCapability]) -> (r: bool)
    ensures
        r == has_all(caps_view(have@), caps_view(wanted@)),
{
    let n = wanted.len();
    let mut k: usize = 0;
    while k < n
        invariant
            n == wanted@.len(),
            k <= n,
            forall|j: int| 0 <= j < k ==> caps_view(have@).contains(#[trigger] caps_view(wanted@)[j]),
        decreases n - k,
    {
        if !has_capability(have, &wanted[k]) {
            assert(!caps_view(have@).contains(caps_view(wanted@)[k as int]));
            return false;
        }
        k = k + 1;
    }
    true
}

/// The position in `list` of a string with the characters of `s`.
pub fn find_string(list: &Vec<String>, s: &str) -> (r: Option<usize>)
    ensures
        match r {
            Some(k) => k < list@.len() && list@[k as int]@ == s@,
            None => !views_of(list@).contains(s@),
        },
{
    let n = list.len();
    let mut i: usize = 0;
    while i < n
        invariant
            n == list@.len(),
            i <= n,
            forall|j: int| 0 <= j < i ==> (#[trigger] list@[j])@ != s@,
        decreases n - i,
    {
        if str_eq(list[i].as_str(), s) {
            return Some(i);
        }
        i = i + 1;
    }
    proof {
        if views_of(list@).contains(s@) {
            let k = choose|k: int| 0 <= k < views_of(list@).len() && views_of(list@)[k] == s@;
            assert(list@[k]@ == s@);
        }
    }
    None
}

impl Clone for AgentRegistry {
    /// A registry with copies of the same agents, in the same order.
    fn clone(&self) -> (r: AgentRegistry)
        ensures
            r@ == self@,
            ids_distinct(r@),
    {
        proof {
            use_type_invariant(self);
        }
        let mut agents: Vec<UnifiedAgent> = Vec::new();
        let n = self.agents.len();
        let mut i: usize = 0;
        while i < n
            invariant
                n == self@.len(),
                i <= n,
                agents@.map_values(|a: UnifiedAgent| a@) == self@.take(i as int),
            decreases n - i,
        {
            let ghost prev = agents@.map_values(|a: UnifiedAgent| a@);
            agents.push(self.agents[i].duplicate());
            assert(agents@.map_values(|a: UnifiedAgent| a@) =~= prev.push(self@[i as int]));
            assert(self@.take(i + 1) =~= self@.take(i as int).push(self@[i as int]));
            i = i + 1;
        }
        assert(self@.take(n as int) =~= self@);
        AgentRegistry { agents }
    }
}

impl Default for AgentRegistry {
    /// An empty registry.
    fn default() -> (r: AgentRegistry)
        ensures
            r@ == Seq::<UnifiedAgentView>::empty(),
            ids_distinct(r@),
    {
        AgentRegistry::new()
    }
}

/// What a read gives back of a write: once `agent` is registered, looking up its
/// identifier gives it; every other identifier gives what it gave before; the count grows
/// by one exactly when the identifier was new; and identifiers stay distinct.
pub proof fn lemma_register_then_lookup(agents: Seq<UnifiedAgentView>, agent: UnifiedAgentView)
    requires
        ids_distinct(agents),
    ensures
        lookup(with_registered(agents, agent), agent.id) == Some(agent),
        forall|id: Seq<char>|
            id != agent.id ==> #[trigger] lookup(with_registered(agents, agent), id) == lookup(
                agents,
                id,
            ),
        with_registered(agents, agent).len() == agents.len() + if has_agent(agents, agent.id) {
            0int
        } else {
            1int
        },
        ids_distinct(with_registered(agents, agent)),
{
    lemma_registered_keeps_ids_distinct(agents, agent);
    let r = with_registered(agents, agent);
    let k = if has_agent(agents, agent.id) {
        agent_index(agents, agent.id)
    } else {
        agents.len() as int
    };
    assert(r[k] == agent);
    assert(has_agent(r, agent.id));
    let c = agent_index(r, agent.id);
    assert(r[c].id == agent.id);
    assert(c == k);
    assert forall|id: Seq<char>| id != agent.id implies #[trigger] lookup(r, id) == lookup(
        agents,
        id,
    ) by {
        if has_agent(agents, id) {
            let i = agent_index(agents, id);
            assert(i != k);
            assert(r[i] == agents[i]);
            assert(has_agent(r, id));
            let j = agent_index(r, id);
            assert(r[j].id == id);
            assert(j != k);
            assert(agents[j] == r[j]);
        }
        if has_agent(r, id) {
            let j = agent_index(r, id);
            assert(j != k);
            assert(agents[j] == r[j]);
            assert(has_agent(agents, id));
        }
    }
}

/// Once the agent with identifier `id` is removed, looking `id` up gives nothing, every
/// other identifier gives what it gave before, and identifiers stay distinct.
pub proof fn lemma_unregister_then_lookup(agents: Seq<UnifiedAgentView>, id: Seq<char>)
    requires
        ids_distinct(agents),
    ensures
        lookup(without_agent(agents, id), id) is None,
        forall|other: Seq<char>|
            other != id ==> #[trigger] lookup(without_agent(agents, id), other) == lookup(
                agents,
                other,
            ),
        without_agent(agents, id).len() == agents.len() - if has_agent(agents, id) {
            1int
        } else {
            0int
        },
        ids_distinct(without_agent(agents, id)),
{
    lemma_unregistered_keeps_ids_distinct(agents, id);
    let r = without_agent(agents, id);
    if has_agent(agents, id) {
        let k = agent_index(agents, id);
        assert forall|i: int| 0 <= i < r.len() implies (#[trigger] r[i]).id != id by {
            let a = if i < k { i } else { i + 1 };
            assert(r[i] == agents[a]);
            assert(a != k);
        }
        assert forall|other: Seq<char>| other != id implies #[trigger] lookup(r, other)
            == lookup(agents, other) by {
            if has_agent(agents, other) {
                let i = agent_index(agents, other);
                assert(i != k);
                let ir = if i < k { i } else { i - 1 };
                assert(r[ir] == agents[i]);
                assert(has_agent(r, other));
                let j = agent_index(r, other);
                let ja = if j < k { j } else { j + 1 };
                assert(r[j] == agents[ja]);
                assert(ja == i);
            }
            if has_agent(r, other) {
                let j = agent_index(r, other);
                let ja = if j < k { j } else { j + 1 };
                assert(r[j] == agents[ja]);
                assert(has_agent(agents, other));
            }
        }
    }
}

/// Asking for no capabilities selects exactly the available agents.
pub proof fn lemma_capable_without_requirements(agents: Seq<UnifiedAgentView>)
    ensures
        capable_agents(agents, Seq::empty()) == agents.filter(
            |a: UnifiedAgentView| a.is_available(),
        ),
{
    let p = |a: UnifiedAgentView| has_all(a.capabilities, Seq::empty()) && a.is_available();
    let q = |a: UnifiedAgentView| a.is_available();
    assert(p =~= q);
}

/// The sum of the counts of a tally.
pub open spec fn tally_sum(tally: Seq<(String, usize)>) -> int
    decreases tally.len(),
{
    if tally.len() == 0 {
        0
    } else {
        tally_sum(tally.drop_last()) + tally.last().1
    }
}

/// The number of `agents` of each of `labels`, added up.
pub open spec fn labels_total(agents: Seq<UnifiedAgentView>, labels: Seq<Seq<char>>) -> int
    decreases labels.len(),
{
    if labels.len() == 0 {
        0
    } else {
        labels_total(agents, labels.drop_last()) + label_count(agents, labels.last())
    }
}

/// One more agent adds one to the total of the labels exactly when its label is among them.
proof fn lemma_labels_total_push(
    agents: Seq<UnifiedAgentView>,
    a: UnifiedAgentView,
    labels: Seq<Seq<char>>,
)
    requires
        labels.no_duplicates(),
    ensures
        labels_total(agents.push(a), labels) == labels_total(agents, labels) + if labels.contains(
            a.agent_type.label(),
        ) {
            1int
        } else {
            0int
        },
    decreases labels.len(),
{
    if labels.len() > 0 {
        let init = labels.drop_last();
        let x = labels.last();
        assert(init.no_duplicates()) by {
            assert forall|i: int, j: int|
                0 <= i < init.len() && 0 <= j < init.len() && i != j implies init[i] != init[j] by {
                assert(labels[i] == init[i] && labels[j] == init[j]);
            }
        }
        lemma_labels_total_push(agents, a, init);
        let pred = |v: UnifiedAgentView| v.agent_type.label() == x;
        assert(agents.push(a).drop_last() =~= agents);
        lemma_filter_take_step(agents.push(a), pred, agents.len() as int);
        assert(agents.push(a).take(agents.len() as int) =~= agents);
        assert(agents.push(a).take(agents.len() + 1int) =~= agents.push(a));
        let la = a.agent_type.label();
        if init.contains(la) {
            let i = choose|i: int| 0 <= i < init.len() && init[i] == la;
            assert(labels[i] == la);
            if x == la {
                assert(labels[labels.len() - 1] == la);
            }
            assert(labels.contains(la));
        } else if x == la {
            assert(labels[labels.len() - 1] == la);
        } else {
            if labels.contains(la) {
                let i = choose|i: int| 0 <= i < labels.len() && labels[i] == la;
                assert(init[i] == la);
            }
        }
    }
}

/// The total over distinct labels counts the agents whose label is among them.
proof fn lemma_labels_total(agents: Seq<UnifiedAgentView>, labels: Seq<Seq<char>>)
    requires
        labels.no_duplicates(),
    ensures
        labels_total(agents, labels) == agents.filter(
            |a: UnifiedAgentView| labels.contains(a.agent_type.label()),
        ).len(),
    decreases agents.len(),
{
    let pred = |a: UnifiedAgentView| labels.contains(a.agent_type.label());
    if agents.len() == 0 {
        lemma_labels_total_empty(agents, labels);
        reveal(Seq::filter);
    } else {
        let init = agents.drop_last();
        let a = agents.last();
        lemma_labels_total(init, labels);
        assert(init.push(a) =~= agents);
        lemma_labels_total_push(init, a, labels);
        lemma_filter_take_step(agents, pred, init.len() as int);
        assert(agents.take(init.len() as int) =~= init);
        assert(agents.take(agents.len() as int) =~= agents);
    }
}

/// With no agents every total is zero.
proof fn lemma_labels_total_empty(agents: Seq<UnifiedAgentView>, labels: Seq<Seq<char>>)
    requires
        agents.len() == 0,
    ensures
        labels_total(agents, labels) == 0,
    decreases labels.len(),
{
    if labels.len() > 0 {
        lemma_labels_total_empty(agents, labels.drop_last());
        reveal(Seq::filter);
        assert(agents.filter(|a: UnifiedAgentView| a.agent_type.label() == labels.last()).len()
            == 0);
    }
}

/// The sum of a tally is the total of its labels, when each count is the label's count.
proof fn lemma_tally_sum_is_labels_total(
    agents: Seq<UnifiedAgentView>,
    tally: Seq<(String, usize)>,
)
    requires
        forall|k: int|
            0 <= k < tally.len() ==> (#[trigger] tally[k]).1 == label_count(agents, tally[k].0@),
    ensures
        tally_sum(tally) == labels_total(agents, tally_labels(tally)),
    decreases tally.len(),
{
    if tally.len() > 0 {
        let init = tally.drop_last();
        assert forall|k: int| 0 <= k < init.len() implies (#[trigger] init[k]).1 == label_count(
            agents,
            init[k].0@,
        ) by {
            assert(init[k] == tally[k]);
        }
        lemma_tally_sum_is_labels_total(agents, init);
        assert(tally_labels(tally).drop_last() =~= tally_labels(init));
        assert(tally[tally.len() - 1].1 == label_count(agents, tally.last().0@));
    }
}

/// The counts by type add up to the number of agents: a tally that lists each type label
/// of `agents` once, with the number of agents of that label, sums to `agents.len()`.
pub proof fn lemma_counts_by_type_add_up(
    agents: Seq<UnifiedAgentView>,
    tally: Seq<(String, usize)>,
)
    requires
        tally_labels(tally).no_duplicates(),
        forall|l: Seq<char>|
            #![trigger tally_labels(tally).contains(l)]
            tally_labels(tally).contains(l) <==> type_labels(agents).contains(l),
        forall|k: int|
            0 <= k < tally.len() ==> (#[trigger] tally[k]).1 == label_count(agents, tally[k].0@),
    ensures
        tally_sum(tally) == agents.len(),
{
    let labels = tally_labels(tally);
    lemma_tally_sum_is_labels_total(agents, tally);
    lemma_labels_total(agents, labels);
    let pred = |a: UnifiedAgentView| labels.contains(a.agent_type.label());
    assert forall|i: int| 0 <= i < agents.len() implies #[trigger] pred(agents[i]) by {
        assert(type_labels(agents)[i] == agents[i].agent_type.label());
        assert(type_labels(agents).contains(agents[i].agent_type.label()));
        assert(tally_labels(tally).contains(agents[i].agent_type.label()));
    }
    lemma_filter_all(agents, pred);
}

/// Filtering by a predicate that every element meets keeps everything.
proof fn lemma_filter_all<A>(s: Seq<A>, pred: spec_fn(A) -> bool)
    requires
        forall|i: int| 0 <= i < s.len() ==> #[trigger] pred(s[i]),
    ensures
        s.filter(pred) == s,
    decreases s.len(),
{
    reveal(Seq::filter);
    if s.len() > 0 {
        let init = s.drop_last();
        assert forall|i: int| 0 <= i < init.len() implies #[trigger] pred(init[i]) by {
            assert(pred(s[i]));
        }
        lemma_filter_all(init, pred);
        assert(pred(s[s.len() - 1]));
        assert(init.push(s.last()) =~= s);
    }
}

/// A name that is none of "room", "repo", "shell" and "remote" selects no agent.
pub proof fn lemma_unknown_location_kind_selects_none(
    agents: Seq<UnifiedAgentView>,
    kind: Seq<char>,
)
    requires
        kind != "room"@,
        kind != "repo"@,
        kind != "shell"@,
        kind != "remote"@,
    ensures
        agents.filter(|a: UnifiedAgentView| location_is(a.location, kind)).len() == 0,
{
    let pred = |a: UnifiedAgentView| location_is(a.location, kind);
    let f = agents.filter(pred);
    if f.len() > 0 {
        agents.lemma_filter_pred(pred, 0);
    }
}

/// The four location kinds partition the agents: every agent is selected by exactly one
/// of "room", "repo", "shell" and "remote", so the four selections add up to all agents
/// and no agent is in two of them.
pub proof fn lemma_location_kinds_partition(agents: Seq<UnifiedAgentView>)
    ensures
        located(agents, "room"@).len() + located(agents, "repo"@).len() + located(
            agents,
            "shell"@,
        ).len() + located(agents, "remote"@).len() == agents.len(),
        forall|a: UnifiedAgentView, k1: Seq<char>, k2: Seq<char>|
            #![trigger located(agents, k1).contains(a), located(agents, k2).contains(a)]
            located(agents, k1).contains(a) && located(agents, k2).contains(a) ==> k1 == k2,
    decreases agents.len(),
{
    assert forall|a: UnifiedAgentView, k1: Seq<char>, k2: Seq<char>|
        located(agents, k1).contains(a) && located(agents, k2).contains(a) implies k1 == k2 by {
        lemma_located_kind(agents, k1, a);
        lemma_located_kind(agents, k2, a);
    }
    if agents.len() > 0 {
        let init = agents.drop_last();
        let a = agents.last();
        lemma_location_kinds_partition(init);
        let n = init.len() as int;
        assert(agents.take(n) =~= init);
        assert(agents.take(n + 1) =~= agents);
        lemma_filter_take_step(agents, |v: UnifiedAgentView| location_is(v.location, "room"@), n);
        lemma_filter_take_step(agents, |v: UnifiedAgentView| location_is(v.location, "repo"@), n);
        lemma_filter_take_step(agents, |v: UnifiedAgentView| location_is(v.location, "shell"@), n);
        lemma_filter_take_step(
            agents,
            |v: UnifiedAgentView| location_is(v.location, "remote"@),
            n,
        );
        reveal_strlit("room");
        reveal_strlit("repo");
        reveal_strlit("shell");
        reveal_strlit("remote");
        assert("room"@ != "repo"@) by {
            assert("room"@[1] != "repo"@[1]);
        }
        assert("room"@ != "shell"@) by {
            assert("room"@[0] != "shell"@[0]);
        }
        assert("room"@ != "remote"@) by {
            assert("room"@[1] != "remote"@[1]);
        }
        assert("repo"@ != "shell"@) by {
            assert("repo"@[0] != "shell"@[0]);
        }
        assert("repo"@ != "remote"@) by {
            assert("repo"@[2] != "remote"@[2]);
        }
        assert("shell"@ != "remote"@) by {
            assert("shell"@[0] != "remote"@[0]);
        }
    } else {
        reveal(Seq::filter);
    }
}

/// An agent in a location selection has a location of that kind.
proof fn lemma_located_kind(agents: Seq<UnifiedAgentView>, kind: Seq<char>, a: UnifiedAgentView)
    requires
        located(agents, kind).contains(a),
    ensures
        location_is(a.location, kind),
{
    let f = located(agents, kind);
    let i = choose|i: int| 0 <= i < f.len() && f[i] == a;
    agents.lemma_filter_pred(|v: UnifiedAgentView| location_is(v.location, kind), i);
}

/// Requiring more capabilities never adds a candidate: every agent that has all of
/// `wanted` and `more` is a candidate for `wanted` alone, so where no agent has `wanted`,
/// none has both.
pub proof fn lemma_more_requirements_fewer_candidates(
    agents: Seq<UnifiedAgentView>,
    wanted: Seq<AgentCapabilityView>,
    more: Seq<AgentCapabilityView>,
)
    ensures
        forall|a: UnifiedAgentView|
            #[trigger] capable_agents(agents, wanted + more).contains(a) ==> capable_agents(
                agents,
                wanted,
            ).contains(a),
        capable_agents(agents, wanted).len() == 0 ==> capable_agents(agents, wanted + more).len()
            == 0,
{
    let p2 = |v: UnifiedAgentView| has_all(v.capabilities, wanted + more) && v.is_available();
    let p1 = |v: UnifiedAgentView| has_all(v.capabilities, wanted) && v.is_available();
    assert forall|a: UnifiedAgentView|
        #[trigger] capable_agents(agents, wanted + more).contains(a) implies capable_agents(
        agents,
        wanted,
    ).contains(a) by {
        let f = capable_agents(agents, wanted + more);
        let i = choose|i: int| 0 <= i < f.len() && f[i] == a;
        agents.lemma_filter_pred(p2, i);
        assert forall|k: int| 0 <= k < wanted.len() implies a.capabilities.contains(
            #[trigger] wanted[k],
        ) by {
            assert((wanted + more)[k] == wanted[k]);
        }
        agents.lemma_filter_contains_rev(p2, a);
        let j = choose|j: int| 0 <= j < agents.len() && agents[j] == a;
        agents.lemma_filter_contains(p1, j);
    }
    if capable_agents(agents, wanted + more).len() > 0 {
        let a = capable_agents(agents, wanted + more)[0];
        assert(capable_agents(agents, wanted + more).contains(a));
        assert(capable_agents(agents, wanted).contains(a));
    }
}

/// An element is kept by a filter exactly when it is in the sequence and meets the
/// predicate.
pub proof fn lemma_filter_contains_iff<A>(s: Seq<A>, pred: spec_fn(A) -> bool, a: A)
    ensures
        s.filter(pred).contains(a) <==> s.contains(a) && pred(a),
{
    if s.filter(pred).contains(a) {
        s.lemma_filter_contains_rev(pred, a);
        let f = s.filter(pred);
        let i = choose|i: int| 0 <= i < f.len() && f[i] == a;
        s.lemma_filter_pred(pred, i);
    }
    if s.contains(a) && pred(a) {
        let j = choose|j: int| 0 <= j < s.len() && s[j] == a;
        s.lemma_filter_contains(pred, j);
    }
}

/// The candidates for a set of required capabilities are exactly the registered agents
/// whose status is `Ready` and whose capabilities include every required one, in whatever
/// order either list holds them.
pub proof fn lemma_capable_means_ready_with_every_capability(
    agents: Seq<UnifiedAgentView>,
    wanted: Seq<AgentCapabilityView>,
)
    ensures
        forall|a: UnifiedAgentView|
            #[trigger] capable_agents(agents, wanted).contains(a) <==> {
                &&& agents.contains(a)
                &&& a.status is Ready
                &&& forall|k: int|
                    0 <= k < wanted.len() ==> a.capabilities.contains(#[trigger] wanted[k])
            },
{
    assert forall|a: UnifiedAgentView|
        #[trigger] capable_agents(agents, wanted).contains(a) <==> {
            &&& agents.contains(a)
            &&& a.status is Ready
            &&& forall|k: int|
                0 <= k < wanted.len() ==> a.capabilities.contains(#[trigger] wanted[k])
        } by {
        lemma_filter_contains_iff(
            agents,
            |v: UnifiedAgentView| has_all(v.capabilities, wanted) && v.is_available(),
            a,
        );
    }
}

/// Whether an agent has every required capability depends on the capabilities held, not
/// on their order: reversing either list changes nothing.
pub proof fn lemma_has_all_ignores_order(
    have: Seq<AgentCapabilityView>,
    wanted: Seq<AgentCapabilityView>,
)
    ensures
        has_all(have, wanted) == has_all(have.reverse(), wanted),
        has_all(have, wanted) == has_all(have, wanted.reverse()),
        has_all(have, wanted) <==> forall|c: AgentCapabilityView|
            wanted.contains(c) ==> #[trigger] have.contains(c),
{
    let r = have.reverse();
    assert forall|c: AgentCapabilityView| have.contains(c) <==> #[trigger] r.contains(c) by {
        if have.contains(c) {
            let i = choose|i: int| 0 <= i < have.len() && have[i] == c;
            assert(r[have.len() - 1 - i] == c);
        }
        if r.contains(c) {
            let i = choose|i: int| 0 <= i < r.len() && r[i] == c;
            assert(have[have.len() - 1 - i] == c);
        }
    }
    let w = wanted.reverse();
    if has_all(have, wanted) {
        assert forall|k: int| 0 <= k < w.len() implies have.contains(#[trigger] w[k]) by {
            assert(w[k] == wanted[wanted.len() - 1 - k]);
        }
        assert forall|c: AgentCapabilityView| wanted.contains(c) implies #[trigger] have.contains(
            c,
        ) by {
            let i = choose|i: int| 0 <= i < wanted.len() && wanted[i] == c;
        }
    }
    if has_all(have, w) {
        assert forall|k: int| 0 <= k < wanted.len() implies have.contains(#[trigger] wanted[k]) by {
            assert(wanted[k] == w[wanted.len() - 1 - k]);
        }
    }
    if forall|c: AgentCapabilityView| wanted.contains(c) ==> #[trigger] have.contains(c) {
        assert forall|k: int| 0 <= k < wanted.len() implies have.contains(#[trigger] wanted[k]) by {
            assert(wanted.contains(wanted[k]));
        }
    }
}

/// An agent is available exactly when its status is `Ready`: the available agents of a
/// registry are its `Ready` agents, and an agent waking, orienting or working is not among
/// them.
pub proof fn lemma_available_means_ready(agents: Seq<UnifiedAgentView>)
    ensures
        forall|a: UnifiedAgentView| #[trigger] a.is_available() <==> a.status is Ready,
        forall|a: UnifiedAgentView|
            #[trigger] available_agents(agents).contains(a) <==> (agents.contains(a)
                && a.status is Ready),
{
    assert forall|a: UnifiedAgentView|
        #[trigger] available_agents(agents).contains(a) <==> (agents.contains(a)
            && a.status is Ready) by {
        lemma_filter_contains_iff(agents, |v: UnifiedAgentView| v.is_available(), a);
    }
}

/// Each location name selects the agents whose location is the variant of that name:
/// "room" the rooms, "repo" the repositories, "shell" the shells and "remote" the remote
/// agents.
pub proof fn lemma_location_names_select_their_variant(agents: Seq<UnifiedAgentView>)
    ensures
        forall|a: UnifiedAgentView|
            #[trigger] located(agents, "room"@).contains(a) <==> (agents.contains(a)
                && a.location is Room),
        forall|a: UnifiedAgentView|
            #[trigger] located(agents, "repo"@).contains(a) <==> (agents.contains(a)
                && a.location is Repo),
        forall|a: UnifiedAgentView|
            #[trigger] located(agents, "shell"@).contains(a) <==> (agents.contains(a)
                && a.location is Shell),
        forall|a: UnifiedAgentView|
            #[trigger] located(agents, "remote"@).contains(a) <==> (agents.contains(a)
                && a.location is Remote),
{
    reveal_strlit("room");
    reveal_strlit("repo");
    reveal_strlit("shell");
    reveal_strlit("remote");
    assert("room"@ != "repo"@) by {
        assert("room"@[1] != "repo"@[1]);
    }
    assert("room"@ != "shell"@) by {
        assert("room"@[0] != "shell"@[0]);
    }
    assert("room"@ != "remote"@) by {
        assert("room"@[1] != "remote"@[1]);
    }
    assert("repo"@ != "shell"@) by {
        assert("repo"@[0] != "shell"@[0]);
    }
    assert("repo"@ != "remote"@) by {
        assert("repo"@[2] != "remote"@[2]);
    }
    assert("shell"@ != "remote"@) by {
        assert("shell"@[0] != "remote"@[0]);
    }
    assert forall|a: UnifiedAgentView|
        #[trigger] located(agents, "room"@).contains(a) <==> (agents.contains(a)
            && a.location is Room) by {
        lemma_filter_contains_iff(
            agents,
            |v: UnifiedAgentView| location_is(v.location, "room"@),
            a,
        );
    }
    assert forall|a: UnifiedAgentView|
        #[trigger] located(agents, "repo"@).contains(a) <==> (agents.contains(a)
            && a.location is Repo) by {
        lemma_filter_contains_iff(
            agents,
            |v: UnifiedAgentView| location_is(v.location, "repo"@),
            a,
        );
    }
    assert forall|a: UnifiedAgentView|
        #[trigger] located(agents, "shell"@).contains(a) <==> (agents.contains(a)
            && a.location is Shell) by {
        lemma_filter_contains_iff(
            agents,
            |v: UnifiedAgentView| location_is(v.location, "shell"@),
            a,
        );
    }
    assert forall|a: UnifiedAgentView|
        #[trigger] located(agents, "remote"@).contains(a) <==> (agents.contains(a)
            && a.location is Remote) by {
        lemma_filter_contains_iff(
            agents,
            |v: UnifiedAgentView| location_is(v.location, "remote"@),
            a,
        );
    }
}

/// Looking an identifier up gives a registered agent with that identifier, and gives
/// nothing exactly when no registered agent has it.
pub proof fn lemma_lookup_finds_the_identifier(agents: Seq<UnifiedAgentView>, id: Seq<char>)
    ensures
        lookup(agents, id) matches Some(a) ==> a.id == id && agents.contains(a),
        lookup(agents, id) is None <==> forall|i: int|
            0 <= i < agents.len() ==> (#[trigger] agents[i]).id != id,
{
    if has_agent(agents, id) {
        let k = agent_index(agents, id);
        assert(agents[k].id == id);
        assert(agents.contains(agents[k]));
    }
}

/// Registering keeps identifiers distinct.
pub proof fn lemma_registered_keeps_ids_distinct(
    agents: Seq<UnifiedAgentView>,
    agent: UnifiedAgentView,
)
    requires
        ids_distinct(agents),
    ensures
        ids_distinct(with_registered(agents, agent)),
{
    let r = with_registered(agents, agent);
    if has_agent(agents, agent.id) {
        let k = agent_index(agents, agent.id);
        assert forall|i: int, j: int|
            0 <= i < r.len() && 0 <= j < r.len() && i != j implies (#[trigger] r[i]).id != (
            #[trigger] r[j]).id by {
            assert(agents[k].id == agent.id);
            if i != k && j != k {
                assert(agents[i].id != agents[j].id);
            } else if i == k {
                assert(agents[j].id != agents[k].id);
            } else {
                assert(agents[i].id != agents[k].id);
            }
        }
    } else {
        assert forall|i: int, j: int|
            0 <= i < r.len() && 0 <= j < r.len() && i != j implies (#[trigger] r[i]).id != (
            #[trigger] r[j]).id by {
            if i < agents.len() && j < agents.len() {
                assert(agents[i].id != agents[j].id);
            } else if i < agents.len() {
                assert(agents[i].id != agent.id);
            } else {
                assert(agents[j].id != agent.id);
            }
        }
    }
}

/// Removing an agent keeps identifiers distinct.
pub proof fn lemma_unregistered_keeps_ids_distinct(agents: Seq<UnifiedAgentView>, id: Seq<char>)
    requires
        ids_distinct(agents),
    ensures
        ids_distinct(without_agent(agents, id)),
{
    let r = without_agent(agents, id);
    if has_agent(agents, id) {
        let k = agent_index(agents, id);
        assert forall|i: int, j: int|
            0 <= i < r.len() && 0 <= j < r.len() && i != j implies (#[trigger] r[i]).id != (
            #[trigger] r[j]).id by {
            let a = if i < k { i } else { i + 1 };
            let b = if j < k { j } else { j + 1 };
            assert(r[i] == agents[a]);
            assert(r[j] == agents[b]);
            assert(agents[a].id != agents[b].id);
        }
    }
}

} // verus!
