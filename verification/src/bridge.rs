use vstd::prelude::*;

use crate::agent::{has_string, UnifiedAgentView};
use crate::kinds::{AgentLocation, AgentLocationView};
use crate::registry::{has_agent, lookup, AgentRegistry};
use crate::text::{clone_strings, str_eq, views_of};

verus! {

/// A message from one agent to another.
#[derive(Debug, Clone, PartialEq)]
pub struct AgentMessage {
    pub from: String,
    pub to: String,
    pub payload: String,
    pub timestamp: u64,
}

/// Why the bridge refused a request.
#[derive(Debug, Clone, PartialEq)]
pub enum BridgeError {
    AgentNotFound(String),
    NotConnected(String, String),
    LocationUnreachable(String),
}

/// The mathematical value of a [`BridgeError`].
pub enum BridgeErrorView {
    AgentNotFound(Seq<char>),
    NotConnected(Seq<char>, Seq<char>),
    LocationUnreachable(Seq<char>),
}

impl View for BridgeError {
    type V = BridgeErrorView;

    open spec fn view(&self) -> BridgeErrorView {
        match self {
            BridgeError::AgentNotFound(id) => BridgeErrorView::AgentNotFound(id@),
            BridgeError::NotConnected(a, b) => BridgeErrorView::NotConnected(a@, b@),
            BridgeError::LocationUnreachable(id) => BridgeErrorView::LocationUnreachable(id@),
        }
    }
}

impl BridgeErrorView {
    /// The text that reports the error.
    pub open spec fn message(self) -> Seq<char> {
        match self {
            BridgeErrorView::AgentNotFound(id) => "agent not found: "@ + id,
            BridgeErrorView::NotConnected(a, b) => a + " is not connected to "@ + b,
            BridgeErrorView::LocationUnreachable(id) => "location unreachable for "@ + id,
        }
    }
}

impl BridgeError {
    /// The text that reports the error.
    pub fn message(&self) -> (r: String)
        ensures
            r@ == self@.message(),
    {
        match self {
            BridgeError::AgentNotFound(id) => String::from_str("agent not found: ").concat(
                id.as_str(),
            ),
            BridgeError::NotConnected(a, b) => a.clone().concat(" is not connected to ").concat(
                b.as_str(),
            ),
            BridgeError::LocationUnreachable(id) => String::from_str(
                "location unreachable for ",
            ).concat(id.as_str()),
        }
    }
}

/// The value of the outcome of a bridge request.
pub open spec fn outcome(r: Result<(), BridgeError>) -> Result<(), BridgeErrorView> {
    match r {
        Ok(()) => Ok(()),
        Err(e) => Err(e@),
    }
}

/// How this shell reaches agents in other shells.
#[derive(Debug, Clone, PartialEq)]
pub struct InterShellConfig {
    pub local_id: String,
    pub default_protocol: String,
}

/// The agents an agent is connected to, in the order the connections were made.
#[derive(Debug, Clone)]
struct PeerList {
    owner: String,
    peers: Vec<String>,
}

/// `i` is the first position of `lists` whose owner is `id`.
pub open spec fn is_first(lists: Seq<(Seq<char>, Seq<Seq<char>>)>, id: Seq<char>, i: int) -> bool {
    &&& 0 <= i < lists.len()
    &&& lists[i].0 == id
    &&& forall|j: int| 0 <= j < i ==> (#[trigger] lists[j]).0 != id
}

/// The peers recorded for `id`: the list of the first entry that `id` owns, or none.
pub open spec fn peers_in(lists: Seq<(Seq<char>, Seq<Seq<char>>)>, id: Seq<char>) -> Seq<Seq<char>> {
    if exists|i: int| is_first(lists, id, i) {
        lists[choose|i: int| is_first(lists, id, i)].1
    } else {
        Seq::empty()
    }
}

/// Which agents are connected to which: for each agent, the agents it is connected to.
#[derive(Debug, Clone)]
pub struct ConnectionTable {
    lists: Vec<PeerList>,
}

/// Connects agents across locations.
#[derive(Debug, Clone)]
pub struct AgentBridge {
    pub registry: AgentRegistry,
    pub inter_shell: Option<InterShellConfig>,
    /// Tracks which agents are connected to which.
    pub connections: ConnectionTable,
}

/// At most one position is the first one owned by `id`.
proof fn lemma_first_unique(lists: Seq<(Seq<char>, Seq<Seq<char>>)>, id: Seq<char>, i: int, k: int)
    requires
        is_first(lists, id, i),
        is_first(lists, id, k),
    ensures
        i == k,
{
    if i < k {
        assert(lists[i].0 != id);
    } else if k < i {
        assert(lists[k].0 != id);
    }
}

/// Changing the peers at the first position an owner has changes that owner's peers
/// alone.
proof fn lemma_peers_after_update(
    lists: Seq<(Seq<char>, Seq<Seq<char>>)>,
    k: int,
    peers: Seq<Seq<char>>,
    id: Seq<char>,
)
    requires
        is_first(lists, lists[k].0, k),
    ensures
        peers_in(lists.update(k, (lists[k].0, peers)), id) == if id == lists[k].0 {
            peers
        } else {
            peers_in(lists, id)
        },
{
    let new = lists.update(k, (lists[k].0, peers));
    assert forall|i: int| is_first(new, id, i) <==> is_first(lists, id, i) by {
        if is_first(new, id, i) {
            assert forall|j: int| 0 <= j < i implies (#[trigger] lists[j]).0 != id by {
                assert(new[j].0 != id);
            }
        }
        if is_first(lists, id, i) {
            assert forall|j: int| 0 <= j < i implies (#[trigger] new[j]).0 != id by {
                assert(lists[j].0 != id);
            }
        }
    }
    if exists|i: int| is_first(lists, id, i) {
        let c = choose|i: int| is_first(lists, id, i);
        let c2 = choose|i: int| is_first(new, id, i);
        lemma_first_unique(lists, id, c, c2);
        if id == lists[k].0 {
            lemma_first_unique(lists, id, c, k);
        }
    }
}

/// Adding an entry for a new owner keeps the peers of every other owner.
proof fn lemma_peers_after_push(
    lists: Seq<(Seq<char>, Seq<Seq<char>>)>,
    owner: Seq<char>,
    peers: Seq<Seq<char>>,
    id: Seq<char>,
)
    requires
        forall|j: int| 0 <= j < lists.len() ==> (#[trigger] lists[j]).0 != owner,
    ensures
        peers_in(lists.push((owner, peers)), id) == if id == owner {
            peers
        } else {
            peers_in(lists, id)
        },
{
    let new = lists.push((owner, peers));
    if id == owner {
        assert(is_first(new, id, lists.len() as int));
        let c = choose|i: int| is_first(new, id, i);
        lemma_first_unique(new, id, c, lists.len() as int);
    } else {
        assert forall|i: int| is_first(new, id, i) <==> is_first(lists, id, i) by {
            if is_first(new, id, i) {
                assert(i < lists.len());
                assert forall|j: int| 0 <= j < i implies (#[trigger] lists[j]).0 != id by {
                    assert(new[j].0 != id);
                }
            }
            if is_first(lists, id, i) {
                assert forall|j: int| 0 <= j < i implies (#[trigger] new[j]).0 != id by {
                    assert(lists[j].0 != id);
                }
            }
        }
        if exists|i: int| is_first(lists, id, i) {
            let c = choose|i: int| is_first(lists, id, i);
            let c2 = choose|i: int| is_first(new, id, i);
            lemma_first_unique(lists, id, c, c2);
        }
    }
}

impl ConnectionTable {
    /// The owners and peers of the lists, in order.
    pub closed spec fn lists(self) -> Seq<(Seq<char>, Seq<Seq<char>>)> {
        self.lists@.map_values(|e: PeerList| (e.owner@, views_of(e.peers@)))
    }

    /// The agents that `id` is connected to, in the order the connections were made
    /// (an agent connected twice is listed twice).
    pub closed spec fn peers(self, id: Seq<char>) -> Seq<Seq<char>> {
        peers_in(self.lists(), id)
    }

    /// A table with no connections.
    pub fn new() -> (r: ConnectionTable)
        ensures
            forall|id: Seq<char>| #[trigger] r.peers(id) == Seq::<Seq<char>>::empty(),
            r.symmetric(),
    {
        let r = ConnectionTable { lists: Vec::new() };
        assert forall|id: Seq<char>| #[trigger] r.peers(id) == Seq::<Seq<char>>::empty() by {
            assert(r.lists().len() == 0);
        }
        proof {
            lemma_empty_table_symmetric(r);
        }
        r
    }

    /// A table with the given lists: each entry is an owner and the owner's peers, in the
    /// order given (what [`ConnectionTable::entries`] hands out).
    pub fn from_entries(entries: &Vec<(String, Vec<String>)>) -> (r: ConnectionTable)
        ensures
            r.lists() == entries@.map_values(|e: (String, Vec<String>)| (e.0@, views_of(e.1@))),
    {
        let ghost want = entries@.map_values(|e: (String, Vec<String>)| (e.0@, views_of(e.1@)));
        let mut lists: Vec<PeerList> = Vec::new();
        let n = entries.len();
        let mut k: usize = 0;
        while k < n
            invariant
                n == entries@.len(),
                want == entries@.map_values(|e: (String, Vec<String>)| (e.0@, views_of(e.1@))),
                k <= n,
                lists@.map_values(|e: PeerList| (e.owner@, views_of(e.peers@))) == want.take(
                    k as int,
                ),
            decreases n - k,
        {
            let ghost prev = lists@.map_values(|e: PeerList| (e.owner@, views_of(e.peers@)));
            let entry = PeerList { owner: entries[k].0.clone(), peers: clone_strings(&entries[k].1) };
            lists.push(entry);
            assert(lists@.map_values(|e: PeerList| (e.owner@, views_of(e.peers@))) =~= prev.push(
                want[k as int],
            ));
            assert(want.take(k + 1) =~= want.take(k as int).push(want[k as int]));
            k = k + 1;
        }
        assert(want.take(n as int) =~= want);
        ConnectionTable { lists }
    }

    /// The position of the first list that `id` owns.
    fn find_list(&self, id: &str) -> (r: Option<usize>)
        ensures
            match r {
                Some(i) => is_first(self.lists(), id@, i as int),
                None => forall|j: int|
                    0 <= j < self.lists().len() ==> (#[trigger] self.lists()[j]).0 != id@,
            },
    {
        let n = self.lists.len();
        let mut i: usize = 0;
        while i < n
            invariant
                n == self.lists().len(),
                i <= n,
                forall|j: int| 0 <= j < i ==> (#[trigger] self.lists()[j]).0 != id@,
            decreases n - i,
        {
            if str_eq(self.lists[i].owner.as_str(), id) {
                return Some(i);
            }
            i = i + 1;
        }
        None
    }

    /// The peers of the list at position `k`.
    fn list_peers(&self, k: usize) -> (r: Vec<String>)
        requires
            k < self.lists().len(),
        ensures
            views_of(r@) == self.lists()[k as int].1,
    {
        let src = &self.lists[k].peers;
        let mut r: Vec<String> = Vec::new();
        let n = src.len();
        let mut i: usize = 0;
        while i < n
            invariant
                n == src@.len(),
                i <= n,
                views_of(r@) == views_of(src@).take(i as int),
            decreases n - i,
        {
            let ghost prev = views_of(r@);
            r.push(src[i].clone());
            assert(views_of(r@) =~= prev.push(src@[i as int]@));
            assert(views_of(src@).take(i + 1) =~= views_of(src@).take(i as int).push(
                src@[i as int]@,
            ));
            i = i + 1;
        }
        assert(views_of(src@).take(n as int) =~= views_of(src@));
        r
    }

    /// Every list: its owner and the owner's peers, in the order the lists were started.
    pub fn entries(&self) -> (r: Vec<(String, Vec<String>)>)
        ensures
            r@.map_values(|e: (String, Vec<String>)| (e.0@, views_of(e.1@))) == self.lists(),
    {
        let mut r: Vec<(String, Vec<String>)> = Vec::new();
        let n = self.lists.len();
        let mut k: usize = 0;
        while k < n
            invariant
                n == self.lists().len(),
                k <= n,
                r@.map_values(|e: (String, Vec<String>)| (e.0@, views_of(e.1@))) == self.lists().take(
                    k as int,
                ),
            decreases n - k,
        {
            let peers = self.list_peers(k);
            let ghost prev = r@.map_values(|e: (String, Vec<String>)| (e.0@, views_of(e.1@)));
            r.push((self.lists[k].owner.clone(), peers));
            assert(r@.map_values(|e: (String, Vec<String>)| (e.0@, views_of(e.1@))) =~= prev.push(
                self.lists()[k as int],
            ));
            assert(self.lists().take(k + 1) =~= self.lists().take(k as int).push(
                self.lists()[k as int],
            ));
            k = k + 1;
        }
        assert(self.lists().take(n as int) =~= self.lists());
        r
    }

    /// The agents that `id` is connected to.
    pub fn peers_of(&self, id: &str) -> (r: Vec<String>)
        ensures
            views_of(r@) == self.peers(id@),
    {
        match self.find_list(id) {
            Some(k) => {
                let r = self.list_peers(k);
                proof {
                    let c = choose|i: int| is_first(self.lists(), id@, i);
                    lemma_first_unique(self.lists(), id@, c, k as int);
                }
                r
            },
            None => {
                let r: Vec<String> = Vec::new();
                assert(views_of(r@) =~= Seq::<Seq<char>>::empty());
                r
            },
        }
    }

    /// Whether `owner` is connected to `peer`.
    pub fn is_connected(&self, owner: &str, peer: &str) -> (r: bool)
        ensures
            r == self.peers(owner@).contains(peer@),
    {
        match self.find_list(owner) {
            Some(k) => {
                proof {
                    let c = choose|i: int| is_first(self.lists(), owner@, i);
                    lemma_first_unique(self.lists(), owner@, c, k as int);
                }
                has_string(&self.lists[k].peers, peer)
            },
            None => false,
        }
    }

    /// Appends `peer` to the peers of `owner`.
    pub(crate) fn add_peer(&mut self, owner: &str, peer: &str)
        ensures
            forall|id: Seq<char>|
                #[trigger] final(self).peers(id) == if id == owner@ {
                    old(self).peers(id).push(peer@)
                } else {
                    old(self).peers(id)
                },
    {
        let ghost before = self.lists();
        match self.find_list(owner) {
            Some(k) => {
                let mut entry = PeerList { owner: String::new(), peers: Vec::new() };
                self.lists.set_and_swap(k, &mut entry);
                let ghost old_peers = views_of(entry.peers@);
                entry.peers.push(String::from_str(peer));
                assert(views_of(entry.peers@) =~= old_peers.push(peer@));
                self.lists.set_and_swap(k, &mut entry);
                assert(self.lists() =~= before.update(
                    k as int,
                    (before[k as int].0, old_peers.push(peer@)),
                ));
                assert forall|id: Seq<char>|
                    #[trigger] self.peers(id) == if id == owner@ {
                        peers_in(before, id).push(peer@)
                    } else {
                        peers_in(before, id)
                    } by {
                    lemma_peers_after_update(before, k as int, old_peers.push(peer@), id);
                    let c = choose|i: int| is_first(before, owner@, i);
                    lemma_first_unique(before, owner@, c, k as int);
                }
            },
            None => {
                let mut peers: Vec<String> = Vec::new();
                peers.push(String::from_str(peer));
                assert(views_of(peers@) =~= seq![peer@]);
                self.lists.push(PeerList { owner: String::from_str(owner), peers });
                assert(self.lists() =~= before.push((owner@, seq![peer@])));
                assert forall|id: Seq<char>|
                    #[trigger] self.peers(id) == if id == owner@ {
                        peers_in(before, id).push(peer@)
                    } else {
                        peers_in(before, id)
                    } by {
                    lemma_peers_after_push(before, owner@, seq![peer@], id);
                    assert(!(exists|i: int| is_first(before, owner@, i)));
                    assert(Seq::<Seq<char>>::empty().push(peer@) =~= seq![peer@]);
                }
            },
        }
    }

    /// Removes every occurrence of `peer` from the peers of `owner`.
    pub(crate) fn remove_peer(&mut self, owner: &str, peer: &str)
        ensures
            forall|id: Seq<char>|
                #[trigger] final(self).peers(id) == if id == owner@ {
                    old(self).peers(id).filter(other_than(peer@))
                } else {
                    old(self).peers(id)
                },
    {
        let ghost before = self.lists();
        let ghost pred = other_than(peer@);
        match self.find_list(owner) {
            Some(k) => {
                let mut entry = PeerList { owner: String::new(), peers: Vec::new() };
                self.lists.set_and_swap(k, &mut entry);
                let ghost old_peers = views_of(entry.peers@);
                let mut kept: Vec<String> = Vec::new();
                let n = entry.peers.len();
                let mut i: usize = 0;
                while i < n
                    invariant
                        n == entry.peers@.len(),
                        old_peers == views_of(entry.peers@),
                        i <= n,
                        pred == other_than(peer@),
                        views_of(kept@) == old_peers.take(i as int).filter(pred),
                    decreases n - i,
                {
                    proof {
                        crate::registry::lemma_filter_take_step(old_peers, pred, i as int);
                    }
                    if !str_eq(entry.peers[i].as_str(), peer) {
                        let ghost prev = views_of(kept@);
                        kept.push(entry.peers[i].clone());
                        assert(views_of(kept@) =~= prev.push(old_peers[i as int]));
                    }
                    i = i + 1;
                }
                assert(old_peers.take(n as int) =~= old_peers);
                entry.peers = kept;
                self.lists.set_and_swap(k, &mut entry);
                assert(self.lists() =~= before.update(
                    k as int,
                    (before[k as int].0, old_peers.filter(pred)),
                ));
                assert forall|id: Seq<char>|
                    #[trigger] self.peers(id) == if id == owner@ {
                        peers_in(before, id).filter(pred)
                    } else {
                        peers_in(before, id)
                    } by {
                    lemma_peers_after_update(before, k as int, old_peers.filter(pred), id);
                    let c = choose|i: int| is_first(before, owner@, i);
                    lemma_first_unique(before, owner@, c, k as int);
                }
            },
            None => {
                assert(!(exists|i: int| is_first(before, owner@, i)));
                proof {
                    reveal(Seq::filter);
                }
                assert(Seq::<Seq<char>>::empty().filter(pred) =~= Seq::<Seq<char>>::empty());
            },
        }
    }
}

/// What a connection request is answered: both agents must be registered.
pub open spec fn connect_outcome(
    agents: Seq<UnifiedAgentView>,
    from: Seq<char>,
    to: Seq<char>,
) -> Result<(), BridgeErrorView> {
    if !has_agent(agents, from) {
        Err(BridgeErrorView::AgentNotFound(from))
    } else if !has_agent(agents, to) {
        Err(BridgeErrorView::AgentNotFound(to))
    } else {
        Ok(())
    }
}

/// The peers of `id`, given its peers `p` before, once `from` and `to` are connected both
/// ways.
pub open spec fn connected_peers(
    p: Seq<Seq<char>>,
    id: Seq<char>,
    from: Seq<char>,
    to: Seq<char>,
) -> Seq<Seq<char>> {
    let p1 = if id == from {
        p.push(to)
    } else {
        p
    };
    if id == to {
        p1.push(from)
    } else {
        p1
    }
}

/// The peers of `id`, given its peers `p` before, once `from` and `to` are disconnected
/// both ways.
pub open spec fn disconnected_peers(
    p: Seq<Seq<char>>,
    id: Seq<char>,
    from: Seq<char>,
    to: Seq<char>,
) -> Seq<Seq<char>> {
    let p1 = if id == from {
        p.filter(other_than(to))
    } else {
        p
    };
    if id == to {
        p1.filter(other_than(from))
    } else {
        p1
    }
}

/// Whether a bridge with the inter-shell configuration `config` cannot reach `location`:
/// it is remote, over another protocol than the configured default.
pub open spec fn unreachable(location: AgentLocationView, config: Option<InterShellConfig>) -> bool {
    match location {
        AgentLocationView::Remote { protocol, .. } => match config {
            Some(c) => c.default_protocol@ != protocol,
            None => false,
        },
        _ => false,
    }
}

/// What a send request is answered.
pub open spec fn send_outcome(
    agents: Seq<UnifiedAgentView>,
    config: Option<InterShellConfig>,
    from_peers: Seq<Seq<char>>,
    from: Seq<char>,
    to: Seq<char>,
) -> Result<(), BridgeErrorView> {
    if !has_agent(agents, from) {
        Err(BridgeErrorView::AgentNotFound(from))
    } else if !has_agent(agents, to) {
        Err(BridgeErrorView::AgentNotFound(to))
    } else if !from_peers.contains(to) {
        Err(BridgeErrorView::NotConnected(from, to))
    } else if unreachable(lookup(agents, to)->0.location, config) {
        Err(BridgeErrorView::LocationUnreachable(to))
    } else {
        Ok(())
    }
}

/// Connections go both ways: once `from` and `to` are connected, each lists the other.
pub proof fn lemma_connect_both_ways(
    from_peers: Seq<Seq<char>>,
    to_peers: Seq<Seq<char>>,
    from: Seq<char>,
    to: Seq<char>,
)
    ensures
        connected_peers(from_peers, from, from, to).contains(to),
        connected_peers(to_peers, to, from, to).contains(from),
{
    let a = connected_peers(from_peers, from, from, to);
    let b = connected_peers(to_peers, to, from, to);
    if from == to {
        assert(a[a.len() - 1] == from);
        assert(b[b.len() - 1] == from);
    } else {
        assert(a[a.len() - 1] == to);
        assert(b[b.len() - 1] == from);
    }
}

/// Disconnecting goes both ways: afterwards neither lists the other.
pub proof fn lemma_disconnect_both_ways(
    from_peers: Seq<Seq<char>>,
    to_peers: Seq<Seq<char>>,
    from: Seq<char>,
    to: Seq<char>,
)
    ensures
        !disconnected_peers(from_peers, from, from, to).contains(to),
        !disconnected_peers(to_peers, to, from, to).contains(from),
{
    broadcast use vstd::seq_lib::group_filter_ensures;

    let a = disconnected_peers(from_peers, from, from, to);
    let b = disconnected_peers(to_peers, to, from, to);
    if a.contains(to) {
        let i = choose|i: int| 0 <= i < a.len() && a[i] == to;
        if from == to {
            let p1 = from_peers.filter(|x: Seq<char>| x != to);
            assert(a == p1.filter(|x: Seq<char>| x != from));
        }
    }
    if b.contains(from) {
        let i = choose|i: int| 0 <= i < b.len() && b[i] == from;
    }
}

/// Once two registered agents are connected, a send between them succeeds unless the
/// target is remote over another protocol than the configured default.
pub proof fn lemma_send_after_connect(
    agents: Seq<UnifiedAgentView>,
    config: Option<InterShellConfig>,
    from_peers: Seq<Seq<char>>,
    from: Seq<char>,
    to: Seq<char>,
)
    requires
        connect_outcome(agents, from, to) is Ok,
    ensures
        send_outcome(agents, config, connected_peers(from_peers, from, from, to), from, to) == if unreachable(lookup(agents, to)->0.location, config) {
            Err(BridgeErrorView::LocationUnreachable(to))
        } else {
            Ok::<(), BridgeErrorView>(())
        },
{
    lemma_connect_both_ways(from_peers, from_peers, from, to);
}

/// A send between registered, connected agents to a remote target over protocol
/// `protocol` succeeds exactly when the bridge has no inter-shell configuration or its
/// default protocol has the same characters; otherwise the target is unreachable. A
/// target that is not remote is always reached.
pub proof fn lemma_send_reaches_by_protocol(
    agents: Seq<UnifiedAgentView>,
    config: Option<InterShellConfig>,
    from_peers: Seq<Seq<char>>,
    from: Seq<char>,
    to: Seq<char>,
)
    requires
        has_agent(agents, from),
        has_agent(agents, to),
        from_peers.contains(to),
    ensures
        lookup(agents, to)->0.location matches AgentLocationView::Remote { protocol, .. } ==> (
        send_outcome(agents, config, from_peers, from, to) == match config {
            Some(c) => if c.default_protocol@ == protocol {
                Ok::<(), BridgeErrorView>(())
            } else {
                Err(BridgeErrorView::LocationUnreachable(to))
            },
            None => Ok(()),
        }),
        !(lookup(agents, to)->0.location is Remote) ==> send_outcome(
            agents,
            config,
            from_peers,
            from,
            to,
        ) == Ok::<(), BridgeErrorView>(()),
{
}

/// The checks of a send come in order: an unknown sender, then an unknown target, then a
/// missing connection; each is reported with the identifiers it concerns.
pub proof fn lemma_send_refusals(
    agents: Seq<UnifiedAgentView>,
    config: Option<InterShellConfig>,
    from_peers: Seq<Seq<char>>,
    from: Seq<char>,
    to: Seq<char>,
)
    ensures
        !has_agent(agents, from) ==> send_outcome(agents, config, from_peers, from, to) == Err::<
            (),
            BridgeErrorView,
        >(BridgeErrorView::AgentNotFound(from)),
        has_agent(agents, from) && !has_agent(agents, to) ==> send_outcome(
            agents,
            config,
            from_peers,
            from,
            to,
        ) == Err::<(), BridgeErrorView>(BridgeErrorView::AgentNotFound(to)),
        has_agent(agents, from) && has_agent(agents, to) && !from_peers.contains(to)
            ==> send_outcome(agents, config, from_peers, from, to) == Err::<(), BridgeErrorView>(
            BridgeErrorView::NotConnected(from, to),
        ),
{
}

/// A connection is made exactly when both agents are registered; otherwise the first
/// unknown one, the sender before the target, is reported.
pub proof fn lemma_connect_refusals(agents: Seq<UnifiedAgentView>, from: Seq<char>, to: Seq<char>)
    ensures
        connect_outcome(agents, from, to) is Ok <==> has_agent(agents, from) && has_agent(
            agents,
            to,
        ),
        !has_agent(agents, from) ==> connect_outcome(agents, from, to) == Err::<
            (),
            BridgeErrorView,
        >(BridgeErrorView::AgentNotFound(from)),
        has_agent(agents, from) && !has_agent(agents, to) ==> connect_outcome(agents, from, to)
            == Err::<(), BridgeErrorView>(BridgeErrorView::AgentNotFound(to)),
{
}

/// How each refusal reads.
pub proof fn lemma_error_messages(e: BridgeErrorView)
    ensures
        e matches BridgeErrorView::AgentNotFound(id) ==> e.message() == "agent not found: "@ + id,
        e matches BridgeErrorView::NotConnected(a, b) ==> e.message() == a
            + " is not connected to "@ + b,
        e matches BridgeErrorView::LocationUnreachable(id) ==> e.message()
            == "location unreachable for "@ + id,
{
}

/// Once two registered agents are disconnected, a send between them is refused as not
/// connected.
pub proof fn lemma_send_after_disconnect(
    agents: Seq<UnifiedAgentView>,
    config: Option<InterShellConfig>,
    from_peers: Seq<Seq<char>>,
    from: Seq<char>,
    to: Seq<char>,
)
    requires
        has_agent(agents, from),
        has_agent(agents, to),
    ensures
        send_outcome(agents, config, disconnected_peers(from_peers, from, from, to), from, to)
            == Err::<(), BridgeErrorView>(BridgeErrorView::NotConnected(from, to)),
{
    lemma_disconnect_both_ways(from_peers, from_peers, from, to);
}

/// Whether a peer is `y`.
pub open spec fn is_peer(y: Seq<char>) -> spec_fn(Seq<char>) -> bool {
    |z: Seq<char>| z == y
}

/// Whether a peer is other than `t`.
pub open spec fn other_than(t: Seq<char>) -> spec_fn(Seq<char>) -> bool {
    |z: Seq<char>| z != t
}

/// How many times `y` occurs in `s`.
pub open spec fn occurrences(s: Seq<Seq<char>>, y: Seq<char>) -> nat {
    s.filter(is_peer(y)).len()
}

impl ConnectionTable {
    /// Connections are symmetric: `y` is among the peers of `x` as often as `x` is among
    /// the peers of `y`.
    pub open spec fn symmetric(self) -> bool {
        forall|x: Seq<char>, y: Seq<char>|
            #[trigger] occurrences(self.peers(x), y) == occurrences(self.peers(y), x)
    }
}

/// Appending `a` adds one occurrence of `a` and none of anything else.
proof fn lemma_occurrences_push(s: Seq<Seq<char>>, a: Seq<char>, y: Seq<char>)
    ensures
        occurrences(s.push(a), y) == occurrences(s, y) + if a == y {
            1int
        } else {
            0int
        },
{
    s.lemma_filter_push(a, is_peer(y));
}

/// Leaving out `t` removes every occurrence of `t` and keeps the others.
proof fn lemma_occurrences_without(s: Seq<Seq<char>>, t: Seq<char>, y: Seq<char>)
    ensures
        occurrences(s.filter(other_than(t)), y) == if y == t {
            0
        } else {
            occurrences(s, y)
        },
    decreases s.len(),
{
    let ne = other_than(t);
    if s.len() == 0 {
        reveal(Seq::filter);
        assert(s.filter(ne) =~= s);
    } else {
        let init = s.drop_last();
        let a = s.last();
        lemma_occurrences_without(init, t, y);
        assert(init.push(a) =~= s);
        init.lemma_filter_push(a, ne);
        lemma_occurrences_push(init, a, y);
        if a != t {
            lemma_occurrences_push(init.filter(ne), a, y);
        }
    }
}

/// With no connections at all, connections are symmetric.
pub proof fn lemma_empty_table_symmetric(t: ConnectionTable)
    requires
        forall|id: Seq<char>| #[trigger] t.peers(id) == Seq::<Seq<char>>::empty(),
    ensures
        t.symmetric(),
{
    assert forall|x: Seq<char>, y: Seq<char>| #[trigger]
        occurrences(t.peers(x), y) == occurrences(t.peers(y), x) by {
        reveal(Seq::filter);
        assert(t.peers(x) == Seq::<Seq<char>>::empty());
        assert(t.peers(y) == Seq::<Seq<char>>::empty());
    }
}

/// Connecting two agents keeps connections symmetric.
pub proof fn lemma_connect_keeps_symmetry(
    before: ConnectionTable,
    after: ConnectionTable,
    from: Seq<char>,
    to: Seq<char>,
)
    requires
        before.symmetric(),
        forall|id: Seq<char>|
            #[trigger] after.peers(id) == connected_peers(before.peers(id), id, from, to),
    ensures
        after.symmetric(),
{
    assert forall|x: Seq<char>, y: Seq<char>| #[trigger]
        occurrences(after.peers(x), y) == occurrences(after.peers(y), x) by {
        assert(occurrences(before.peers(x), y) == occurrences(before.peers(y), x));
        let px = before.peers(x);
        let py = before.peers(y);
        let px1 = if x == from { px.push(to) } else { px };
        let py1 = if y == from { py.push(to) } else { py };
        lemma_occurrences_push(px, to, y);
        lemma_occurrences_push(py, to, x);
        lemma_occurrences_push(px1, from, y);
        lemma_occurrences_push(py1, from, x);
    }
}

/// Disconnecting two agents keeps connections symmetric.
pub proof fn lemma_disconnect_keeps_symmetry(
    before: ConnectionTable,
    after: ConnectionTable,
    from: Seq<char>,
    to: Seq<char>,
)
    requires
        before.symmetric(),
        forall|id: Seq<char>|
            #[trigger] after.peers(id) == disconnected_peers(before.peers(id), id, from, to),
    ensures
        after.symmetric(),
{
    assert forall|x: Seq<char>, y: Seq<char>| #[trigger]
        occurrences(after.peers(x), y) == occurrences(after.peers(y), x) by {
        assert(occurrences(before.peers(x), y) == occurrences(before.peers(y), x));
        let px = before.peers(x);
        let py = before.peers(y);
        let px1 = if x == from { px.filter(other_than(to)) } else { px };
        let py1 = if y == from { py.filter(other_than(to)) } else { py };
        lemma_occurrences_without(px, to, y);
        lemma_occurrences_without(py, to, x);
        lemma_occurrences_without(px1, from, y);
        lemma_occurrences_without(py1, from, x);
    }
}

impl AgentBridge {
    /// A bridge over `registry`, with no inter-shell configuration and no connections.
    pub fn new(registry: AgentRegistry) -> (r: AgentBridge)
        ensures
            r.registry@ == registry@,
            r.inter_shell is None,
            forall|id: Seq<char>| #[trigger] r.connections.peers(id) == Seq::<Seq<char>>::empty(),
            r.connections.symmetric(),
    {
        let r = AgentBridge { registry, inter_shell: None, connections: ConnectionTable::new() };
        proof {
            lemma_empty_table_symmetric(r.connections);
        }
        r
    }

    /// Connects `from` and `to` both ways, when both are registered.
    pub fn connect(&mut self, from: &str, to: &str) -> (r: Result<(), BridgeError>)
        ensures
            outcome(r) == connect_outcome(old(self).registry@, from@, to@),
            final(self).registry == old(self).registry,
            final(self).inter_shell == old(self).inter_shell,
            r is Err ==> final(self).connections == old(self).connections,
            r is Ok ==> forall|id: Seq<char>|
                #[trigger] final(self).connections.peers(id) == connected_peers(
                    old(self).connections.peers(id),
                    id,
                    from@,
                    to@,
                ),
            old(self).connections.symmetric() ==> final(self).connections.symmetric(),
    {
        if !self.registry.contains(from) {
            return Err(BridgeError::AgentNotFound(String::from_str(from)));
        }
        if !self.registry.contains(to) {
            return Err(BridgeError::AgentNotFound(String::from_str(to)));
        }
        let ghost before = self.connections;
        self.connections.add_peer(from, to);
        self.connections.add_peer(to, from);
        proof {
            if before.symmetric() {
                lemma_connect_keeps_symmetry(before, self.connections, from@, to@);
            }
        }
        Ok(())
    }

    /// Removes every connection from `from` to `to` and from `to` to `from`.
    pub fn disconnect(&mut self, from: &str, to: &str)
        ensures
            final(self).registry == old(self).registry,
            final(self).inter_shell == old(self).inter_shell,
            forall|id: Seq<char>|
                #[trigger] final(self).connections.peers(id) == disconnected_peers(
                    old(self).connections.peers(id),
                    id,
                    from@,
                    to@,
                ),
            old(self).connections.symmetric() ==> final(self).connections.symmetric(),
    {
        let ghost before = self.connections;
        self.connections.remove_peer(from, to);
        self.connections.remove_peer(to, from);
        proof {
            if before.symmetric() {
                lemma_disconnect_keeps_symmetry(before, self.connections, from@, to@);
            }
        }
    }

    /// Checks that `message` can go from `from` to `to`: both registered, connected, and
    /// the target reachable. Nothing is dispatched.
    pub fn send(&mut self, from: &str, to: &str, message: AgentMessage) -> (r: Result<
        (),
        BridgeError,
    >)
        ensures
            outcome(r) == send_outcome(
                old(self).registry@,
                old(self).inter_shell,
                old(self).connections.peers(from@),
                from@,
                to@,
            ),
            *final(self) == *old(self),
    {
        if !self.registry.contains(from) {
            return Err(BridgeError::AgentNotFound(String::from_str(from)));
        }
        if !self.registry.contains(to) {
            return Err(BridgeError::AgentNotFound(String::from_str(to)));
        }
        if !self.connections.is_connected(from, to) {
            return Err(BridgeError::NotConnected(String::from_str(from), String::from_str(to)));
        }
        match self.registry.get(to) {
            Some(target) => {
                if let AgentLocation::Remote { protocol, .. } = &target.location {
                    if let Some(cfg) = &self.inter_shell {
                        if !str_eq(cfg.default_protocol.as_str(), protocol.as_str()) {
                            return Err(BridgeError::LocationUnreachable(String::from_str(to)));
                        }
                    }
                }
            },
            None => {},
        }
        let _ = message;
        Ok(())
    }

    /// Sends `message` from `from` to each of its peers that is registered; the outcome of
    /// each send is not reported.
    pub fn broadcast(&mut self, from: &str, message: AgentMessage) -> (r: Result<(), BridgeError>)
        ensures
            outcome(r) == if has_agent(old(self).registry@, from@) {
                Ok::<(), BridgeErrorView>(())
            } else {
                Err(BridgeErrorView::AgentNotFound(from@))
            },
            *final(self) == *old(self),
    {
        if !self.registry.contains(from) {
            return Err(BridgeError::AgentNotFound(String::from_str(from)));
        }
        let targets = self.connections.peers_of(from);
        if targets.len() == 0 {
            return Ok(());
        }
        let ghost start = *self;
        let n = targets.len();
        let mut i: usize = 0;
        while i < n
            invariant
                n == targets@.len(),
                i <= n,
                *self == start,
            decreases n - i,
        {
            if self.registry.contains(targets[i].as_str()) {
                let _ = self.send(from, targets[i].as_str(), message.clone());
            }
            i = i + 1;
        }
        Ok(())
    }

    /// The agents that `agent_id` is connected to.
    pub fn connections_of(&self, agent_id: &str) -> (r: Vec<String>)
        ensures
            views_of(r@) == self.connections.peers(agent_id@),
    {
        self.connections.peers_of(agent_id)
    }
}

} // verus!
