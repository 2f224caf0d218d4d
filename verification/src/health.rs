//! How a node is doing: its sources, its peers, and what it computes.

use vstd::prelude::*;

use crate::names::{ascending, keys_of, lemma_entry, lemma_place, map_of, sort_by_name, sorted_by_name};
use crate::names::{str_equal, NameMap, Named};
use crate::network::{initiates, NodeId};

pub mod laws;

verus! {

/// What a status is about.
#[derive(Debug)]
pub enum Origin {
    Source(String),
    Peer(NodeId),
    Currency(String),
    SyntheticConfig(String),
}

#[derive(Debug)]
pub struct HealthInfo {
    pub origin: Origin,
    pub status: HealthStatus,
}

#[derive(Debug)]
pub enum HealthStatus {
    Healthy,
    Unhealthy(String),
}

pub enum OriginView {
    Source(Seq<char>),
    Peer(Seq<char>),
    Currency(Seq<char>),
    SyntheticConfig(Seq<char>),
}

pub enum StatusView {
    Healthy,
    Unhealthy(Seq<char>),
}

pub struct HealthInfoView {
    pub origin: OriginView,
    pub status: StatusView,
}

impl View for Origin {
    type V = OriginView;

    open spec fn view(&self) -> OriginView {
        match self {
            Origin::Source(name) => OriginView::Source(name@),
            Origin::Peer(id) => OriginView::Peer(id@),
            Origin::Currency(name) => OriginView::Currency(name@),
            Origin::SyntheticConfig(name) => OriginView::SyntheticConfig(name@),
        }
    }
}

impl View for HealthStatus {
    type V = StatusView;

    open spec fn view(&self) -> StatusView {
        match self {
            HealthStatus::Healthy => StatusView::Healthy,
            HealthStatus::Unhealthy(reason) => StatusView::Unhealthy(reason@),
        }
    }
}

impl View for HealthInfo {
    type V = HealthInfoView;

    open spec fn view(&self) -> HealthInfoView {
        HealthInfoView { origin: self.origin@, status: self.status@ }
    }
}

/// A peer, as a report shows it.
#[derive(Debug)]
pub struct PeerInfo {
    pub id: NodeId,
    pub label: String,
    pub address: String,
}

pub struct PeerInfoView {
    pub id: Seq<char>,
    pub label: Seq<char>,
    pub address: Seq<char>,
}

impl View for PeerInfo {
    type V = PeerInfoView;

    open spec fn view(&self) -> PeerInfoView {
        PeerInfoView { id: self.id@, label: self.label@, address: self.address@ }
    }
}

impl Clone for PeerInfo {
    fn clone(&self) -> (r: Self)
        ensures
            r == *self,
    {
        PeerInfo { id: self.id.clone(), label: self.label.clone(), address: self.address.clone() }
    }
}

/// The status of everything, as far as it is known.
#[derive(Debug)]
pub struct HealthState {
    id: NodeId,
    peers: Vec<PeerInfo>,
    sources: NameMap<String, HealthStatus>,
    connections: NameMap<String, HealthStatus>,
    currencies: NameMap<String, HealthStatus>,
    configs: NameMap<String, HealthStatus>,
}

/// What is known of everything.
pub struct HealthView {
    pub id: Seq<char>,
    pub peers: Seq<PeerInfo>,
    pub statuses: Map<OriginView, StatusView>,
}

/// The map that has the statuses of such things.
spec fn status_in(
    state: HealthState,
    origin: OriginView,
) -> Option<StatusView> {
    let (map, name) = match origin {
        OriginView::Source(name) => (state.sources@, name),
        OriginView::Peer(name) => (state.connections@, name),
        OriginView::Currency(name) => (state.currencies@, name),
        OriginView::SyntheticConfig(name) => (state.configs@, name),
    };
    if map.contains_key(name) {
        Some(map[name]@)
    } else {
        None
    }
}

impl View for HealthState {
    type V = HealthView;

    closed spec fn view(&self) -> HealthView {
        HealthView {
            id: self.id@,
            peers: self.peers@,
            statuses: Map::new(
                |origin: OriginView| status_in(*self, origin) is Some,
                |origin: OriginView| status_in(*self, origin)->0,
            ),
        }
    }
}

impl Named for PeerInfo {
    open spec fn name(&self) -> Seq<char> {
        self.label@
    }

    fn as_name(&self) -> (r: &str) {
        self.label.as_str()
    }
}

/// The peers in alphabetical order of their labels.
fn sort_peers(peers: &Vec<PeerInfo>) -> (r: Vec<PeerInfo>)
    ensures
        r@ == sorted_by_name(peers@),
{
    let mut copies: Vec<PeerInfo> = Vec::new();
    let mut i: usize = 0;
    while i < peers.len()
        invariant
            i <= peers.len(),
            copies@ == peers@.take(i as int),
        decreases peers.len() - i,
    {
        copies.push(peers[i].clone());
        i += 1;
        assert(peers@.take(i as int) =~= peers@.take(i - 1).push(peers@[i - 1]));
    }
    assert(peers@.take(i as int) =~= peers@);
    sort_by_name(copies)
}

/// Kinds of origins.
#[derive(Clone, Copy)]
enum Kind {
    Source,
    Peer,
    Currency,
    SyntheticConfig,
}

/// The origin of a kind and name.
spec fn origin_of(kind: Kind, name: Seq<char>) -> OriginView {
    match kind {
        Kind::Source => OriginView::Source(name),
        Kind::Peer => OriginView::Peer(name),
        Kind::Currency => OriginView::Currency(name),
        Kind::SyntheticConfig => OriginView::SyntheticConfig(name),
    }
}

/// Whether this is the first peer with this id.
pub open spec fn is_peer(peers: Seq<PeerInfo>, id: Seq<char>, at: int) -> bool {
    &&& 0 <= at < peers.len()
    &&& peers[at].id@ == id
    &&& forall|j: int| 0 <= j < at ==> (#[trigger] peers[j]).id@ != id
}

/// What an origin is called in a report: peers that are known by their labels, everything else by its name.
pub open spec fn label_for(peers: Seq<PeerInfo>, origin: OriginView) -> Seq<char> {
    match origin {
        OriginView::Source(name) => name,
        OriginView::Peer(id) => if exists|at: int| is_peer(peers, id, at) {
            peers[choose|at: int| is_peer(peers, id, at)].label@
        } else {
            id
        },
        OriginView::Currency(name) => name,
        OriginView::SyntheticConfig(name) => name,
    }
}

/// Whether an origin is unhealthy, for this reason.
pub open spec fn is_unhealthy(state: HealthView, origin: OriginView, reason: Seq<char>) -> bool {
    state.statuses.contains_key(origin) && state.statuses[origin] == StatusView::Unhealthy(reason)
}

/// Whether this reason of an unhealthy origin stands under its label.
pub open spec fn explains(state: HealthView, origin: OriginView, label: Seq<char>, reason: Seq<char>) -> bool {
    is_unhealthy(state, origin, reason) && label_for(state.peers, origin) == label
}

/// How the connection to a peer is doing.
#[derive(Debug, Clone, Copy, PartialEq, Eq, Structural)]
pub enum PeerConnectionStatus {
    Connected,
    WaitingForIncomingConnection,
    TryingToConnect,
}

/// How the connection to a peer is doing: where it is not there, one of the two sides tries to connect.
pub open spec fn connection_of(state: HealthView, peer: Seq<char>) -> PeerConnectionStatus {
    if state.statuses.contains_key(OriginView::Peer(peer)) && state.statuses[OriginView::Peer(peer)] is Healthy {
        PeerConnectionStatus::Connected
    } else if initiates(state.id, peer) {
        PeerConnectionStatus::TryingToConnect
    } else {
        PeerConnectionStatus::WaitingForIncomingConnection
    }
}

#[derive(Debug)]
pub struct PeerStatus {
    pub name: String,
    pub id: NodeId,
    pub address: String,
    pub connection: PeerConnectionStatus,
}

/// How a node is doing.
#[derive(Debug)]
pub struct ServerHealth {
    pub id: NodeId,
    pub healthy: bool,
    pub peers: Vec<PeerStatus>,
    pub errors: NameMap<String, String>,
}

impl ServerHealth {
    /// The status code of a report.
    pub fn status_code(&self) -> (r: u16)
        ensures
            r == (if self.healthy {
                200u16
            } else {
                503u16
            }),
    {
        if self.healthy {
            200
        } else {
            503
        }
    }
}

/// What is known of the peers at the start.
pub open spec fn initial_statuses(peers: Seq<PeerInfo>) -> Map<OriginView, StatusView> {
    Map::new(
        |origin: OriginView|
            match origin {
                OriginView::Peer(id) => exists|i: int| 0 <= i < peers.len() && (#[trigger] peers[i]).id@ == id,
                _ => false,
            },
        |origin: OriginView| StatusView::Unhealthy("Not yet connected"@),
    )
}

impl HealthState {
    /// Every peer is unhealthy until there is a connection to it.
    pub fn new(id: NodeId, peers: &Vec<PeerInfo>) -> (r: Self)
        ensures
            r@.id == id@,
            r@.peers == sorted_by_name(peers@),
            r@.statuses == initial_statuses(peers@),
    {
        let mut connections: NameMap<String, HealthStatus> = NameMap::new();
        let mut i: usize = 0;
        while i < peers.len()
            invariant
                i <= peers.len(),
                forall|name: Seq<char>| #[trigger]
                    connections@.contains_key(name) <==> exists|j: int| 0 <= j < i && (#[trigger] peers@[j]).id@ == name,
                forall|name: Seq<char>| #[trigger]
                    connections@.contains_key(name) ==> connections@[name]@ == StatusView::Unhealthy(
                        "Not yet connected"@,
                    ),
            decreases peers.len() - i,
        {
            let ghost before = connections@;
            let reason = "Not yet connected".to_owned();
            connections.insert(peers[i].id.as_str().to_owned(), HealthStatus::Unhealthy(reason));
            proof {
                let new = peers@[i as int].id@;
                assert forall|name: Seq<char>| #[trigger] connections@.contains_key(name) <==> exists|j: int|
                    0 <= j < i + 1 && (#[trigger] peers@[j]).id@ == name by {
                    if name == new {
                        assert(peers@[i as int].id@ == name);
                    } else {
                        assert(before.contains_key(name) <==> exists|j: int|
                            0 <= j < i && (#[trigger] peers@[j]).id@ == name);
                    }
                }
            }
            i += 1;
        }
        let r = HealthState {
            id,
            peers: sort_peers(peers),
            sources: NameMap::new(),
            connections,
            currencies: NameMap::new(),
            configs: NameMap::new(),
        };
        assert(r@.statuses =~= initial_statuses(peers@));
        r
    }

    /// Takes note of a status.
    pub fn update(&mut self, info: HealthInfo)
        ensures
            final(self)@.id == old(self)@.id,
            final(self)@.peers == old(self)@.peers,
            final(self)@.statuses == old(self)@.statuses.insert(info.origin@, info.status@),
    {
        let ghost before = *self;
        match info.origin {
            Origin::Source(name) => {
                self.sources.insert(name, info.status);
            },
            Origin::Peer(id) => {
                self.connections.insert(id.as_str().to_owned(), info.status);
            },
            Origin::Currency(name) => {
                self.currencies.insert(name, info.status);
            },
            Origin::SyntheticConfig(name) => {
                self.configs.insert(name, info.status);
            },
        }
        assert(self@.statuses =~= before@.statuses.insert(info.origin@, info.status@));
    }

    /// The label of a peer, or its id if it is not known.
    fn peer_label(&self, id: &String) -> (r: String)
        ensures
            r@ == label_for(self@.peers, OriginView::Peer(id@)),
    {
        let mut i: usize = 0;
        while i < self.peers.len()
            invariant
                i <= self.peers.len(),
                forall|j: int| 0 <= j < i ==> (#[trigger] self.peers@[j]).id@ != id@,
            decreases self.peers.len() - i,
        {
            if str_equal(self.peers[i].id.as_str(), id.as_str()) {
                proof {
                    let peers = self.peers@;
                    assert(is_peer(peers, id@, i as int));
                    let chosen = choose|at: int| is_peer(peers, id@, at);
                    assert(is_peer(peers, id@, chosen));
                    if chosen < i {
                        assert(peers[chosen].id@ != id@);
                    } else if chosen > i {
                        assert(peers[i as int].id@ != id@);
                    }
                }
                return self.peers[i].label.clone();
            }
            i += 1;
        }
        proof {
            assert forall|at: int| !is_peer(self.peers@, id@, at) by {
                if 0 <= at < self.peers@.len() {
                    assert(self.peers@[at].id@ != id@);
                }
            }
        }
        id.clone()
    }

    /// The statuses of a kind of origins.
    fn statuses_of(&self, kind: Kind) -> (r: &NameMap<String, HealthStatus>)
        ensures
            forall|name: Seq<char>| #[trigger]
                r@.contains_key(name) <==> self@.statuses.contains_key(origin_of(kind, name)),
            forall|name: Seq<char>| #[trigger]
                r@.contains_key(name) ==> r@[name]@ == self@.statuses[origin_of(kind, name)],
    {
        match kind {
            Kind::Source => &self.sources,
            Kind::Peer => &self.connections,
            Kind::Currency => &self.currencies,
            Kind::SyntheticConfig => &self.configs,
        }
    }

    /// Puts the reasons of a kind of origins under their labels.
    fn add_errors(&self, kind: Kind, errors: &mut NameMap<String, String>)
        ensures
            forall|label: Seq<char>| #[trigger] old(errors)@.contains_key(label) ==> final(errors)@.contains_key(label),
            forall|name: Seq<char>, reason: Seq<char>| #[trigger]
                is_unhealthy(self@, origin_of(kind, name), reason) ==> final(errors)@.contains_key(
                    label_for(self@.peers, origin_of(kind, name)),
                ),
            forall|label: Seq<char>| #[trigger]
                final(errors)@.contains_key(label) ==> (old(errors)@.contains_key(label) && final(errors)@[label] == old(
                    errors,
                )@[label]) || exists|name: Seq<char>| #[trigger]
                    explains(self@, origin_of(kind, name), label, final(errors)@[label]@),
    {
        let ghost start = errors@;
        let statuses = self.statuses_of(kind);
        let entries = statuses.entries();
        let mut i: usize = 0;
        while i < entries.len()
            invariant
                i <= entries.len(),
                entries@ == statuses.listed(),
                statuses@ == map_of(entries@),
                ascending(keys_of(entries@)),
                forall|name: Seq<char>| #[trigger]
                    statuses@.contains_key(name) <==> self@.statuses.contains_key(origin_of(kind, name)),
                forall|name: Seq<char>| #[trigger]
                    statuses@.contains_key(name) ==> statuses@[name]@ == self@.statuses[origin_of(kind, name)],
                forall|label: Seq<char>| #[trigger] start.contains_key(label) ==> errors@.contains_key(label),
                forall|j: int|
                    0 <= j < i && (#[trigger] entries@[j]).1@ is Unhealthy ==> errors@.contains_key(
                        label_for(self@.peers, origin_of(kind, entries@[j].0@)),
                    ),
                forall|label: Seq<char>| #[trigger]
                    errors@.contains_key(label) ==> (start.contains_key(label) && errors@[label] == start[label])
                        || exists|name: Seq<char>| #[trigger]
                        explains(self@, origin_of(kind, name), label, errors@[label]@),
            decreases entries.len() - i,
        {
            let ghost before = errors@;
            let (name, status) = &entries[i];
            proof {
                lemma_entry(entries@, i as int);
                assert(statuses@.contains_key(name@));
            }
            if let HealthStatus::Unhealthy(reason) = status {
                let label = match kind {
                    Kind::Peer => self.peer_label(name),
                    _ => name.clone(),
                };
                assert(label@ == label_for(self@.peers, origin_of(kind, name@)));
                let ghost new = label@;
                errors.insert(label, reason.clone());
                proof {
                    assert(explains(self@, origin_of(kind, name@), new, reason@));
                    assert forall|other: Seq<char>| #[trigger] errors@.contains_key(other) implies (start.contains_key(
                        other,
                    ) && errors@[other] == start[other]) || exists|name: Seq<char>| #[trigger]
                        explains(self@, origin_of(kind, name), other, errors@[other]@) by {
                        if other != new {
                            assert(before.contains_key(other));
                            assert(errors@[other] == before[other]);
                        } else {
                            assert(errors@[other]@ == reason@);
                            assert(explains(self@, origin_of(kind, name@), other, errors@[other]@));
                        }
                    }
                }
            }
            i += 1;
        }
        proof {
            assert forall|name: Seq<char>, reason: Seq<char>| #[trigger]
                is_unhealthy(self@, origin_of(kind, name), reason) implies errors@.contains_key(
                label_for(self@.peers, origin_of(kind, name)),
            ) by {
                assert(statuses@.contains_key(name));
                let at = lemma_place(entries@, name);
                lemma_entry(entries@, at);
                assert(entries@[at].1@ is Unhealthy);
            }
        }
    }

    /// How this node is doing. It is healthy if nothing is unhealthy; whatever is stands among the errors under its
    /// label. Of several origins with the same label, one stands there.
    pub fn report(&self) -> (r: ServerHealth)
        ensures
            r.id@ == self@.id,
            r.healthy <==> forall|origin: OriginView, reason: Seq<char>| !#[trigger] is_unhealthy(self@, origin, reason),
            forall|origin: OriginView, reason: Seq<char>| #[trigger]
                is_unhealthy(self@, origin, reason) ==> r.errors@.contains_key(label_for(self@.peers, origin)),
            forall|label: Seq<char>| #[trigger]
                r.errors@.contains_key(label) ==> exists|origin: OriginView| #[trigger]
                    explains(self@, origin, label, r.errors@[label]@),
            r.peers.len() == self@.peers.len(),
            forall|i: int|
                0 <= i < r.peers.len() ==> {
                    &&& (#[trigger] r.peers@[i]).name@ == self@.peers[i].label@
                    &&& r.peers@[i].id@ == self@.peers[i].id@
                    &&& r.peers@[i].address@ == self@.peers[i].address@
                    &&& r.peers@[i].connection == connection_of(self@, self@.peers[i].id@)
                },
    {
        let mut errors: NameMap<String, String> = NameMap::new();
        self.add_errors(Kind::Source, &mut errors);
        let ghost first = errors@;
        self.add_errors(Kind::Peer, &mut errors);
        let ghost second = errors@;
        self.add_errors(Kind::Currency, &mut errors);
        let ghost third = errors@;
        self.add_errors(Kind::SyntheticConfig, &mut errors);
        proof {
            assert forall|origin: OriginView, reason: Seq<char>| #[trigger]
                is_unhealthy(self@, origin, reason) implies errors@.contains_key(label_for(self@.peers, origin)) by {
                match origin {
                    OriginView::Source(name) => {
                        assert(is_unhealthy(self@, origin_of(Kind::Source, name), reason));
                        assert(first.contains_key(label_for(self@.peers, origin)));
                        assert(second.contains_key(label_for(self@.peers, origin)));
                        assert(third.contains_key(label_for(self@.peers, origin)));
                    },
                    OriginView::Peer(name) => {
                        assert(is_unhealthy(self@, origin_of(Kind::Peer, name), reason));
                        assert(second.contains_key(label_for(self@.peers, origin)));
                        assert(third.contains_key(label_for(self@.peers, origin)));
                    },
                    OriginView::Currency(name) => {
                        assert(is_unhealthy(self@, origin_of(Kind::Currency, name), reason));
                        assert(third.contains_key(label_for(self@.peers, origin)));
                    },
                    OriginView::SyntheticConfig(name) => {
                        assert(is_unhealthy(self@, origin_of(Kind::SyntheticConfig, name), reason));
                    },
                }
            }
            assert forall|label: Seq<char>| #[trigger] errors@.contains_key(label) implies exists|origin: OriginView| #[trigger]
                explains(self@, origin, label, errors@[label]@) by {
                if third.contains_key(label) && errors@[label] == third[label] {
                    if second.contains_key(label) && third[label] == second[label] {
                        if first.contains_key(label) && second[label] == first[label] {
                            let name = choose|name: Seq<char>| #[trigger]
                                explains(self@, origin_of(Kind::Source, name), label, first[label]@);
                            assert(explains(self@, origin_of(Kind::Source, name), label, errors@[label]@));
                        } else {
                            let name = choose|name: Seq<char>| #[trigger]
                                explains(self@, origin_of(Kind::Peer, name), label, second[label]@);
                            assert(explains(self@, origin_of(Kind::Peer, name), label, errors@[label]@));
                        }
                    } else {
                        let name = choose|name: Seq<char>| #[trigger]
                            explains(self@, origin_of(Kind::Currency, name), label, third[label]@);
                        assert(explains(self@, origin_of(Kind::Currency, name), label, errors@[label]@));
                    }
                } else {
                    let name = choose|name: Seq<char>| #[trigger]
                        explains(self@, origin_of(Kind::SyntheticConfig, name), label, errors@[label]@);
                    assert(explains(self@, origin_of(Kind::SyntheticConfig, name), label, errors@[label]@));
                }
            }
        }
        let mut peers: Vec<PeerStatus> = Vec::new();
        let mut i: usize = 0;
        while i < self.peers.len()
            invariant
                i <= self.peers.len(),
                peers.len() == i,
                forall|j: int|
                    0 <= j < i ==> {
                        &&& (#[trigger] peers@[j]).name@ == self@.peers[j].label@
                        &&& peers@[j].id@ == self@.peers[j].id@
                        &&& peers@[j].address@ == self@.peers[j].address@
                        &&& peers@[j].connection == connection_of(self@, self@.peers[j].id@)
                    },
            decreases self.peers.len() - i,
        {
            let peer = &self.peers[i];
            let connected = match self.connections.get(peer.id.as_str()) {
                Some(HealthStatus::Healthy) => true,
                _ => false,
            };
            let connection = if connected {
                PeerConnectionStatus::Connected
            } else if self.id.should_initiate_connection_to(&peer.id) {
                PeerConnectionStatus::TryingToConnect
            } else {
                PeerConnectionStatus::WaitingForIncomingConnection
            };
            assert(self@.statuses.contains_key(OriginView::Peer(peer.id@)) <==> self.connections@.contains_key(peer.id@));
            peers.push(
                PeerStatus {
                    name: peer.label.clone(),
                    id: peer.id.clone(),
                    address: peer.address.clone(),
                    connection,
                },
            );
            i += 1;
        }
        let count: usize = errors.len();
        proof {
            if count == 0 {
                assert forall|origin: OriginView, reason: Seq<char>| !#[trigger] is_unhealthy(self@, origin, reason) by {
                    if is_unhealthy(self@, origin, reason) {
                        assert(errors@.dom().contains(label_for(self@.peers, origin)));
                        assert(errors@.dom().len() > 0) by {
                            vstd::set_lib::lemma_set_empty_equivalency_len(errors@.dom());
                        }
                    }
                }
            } else {
                vstd::set_lib::lemma_set_empty_equivalency_len(errors@.dom());
                let label = errors@.dom().choose();
                assert(errors@.contains_key(label));
                let origin = choose|origin: OriginView| #[trigger] explains(self@, origin, label, errors@[label]@);
                assert(is_unhealthy(self@, origin, errors@[label]@));
            }
        }
        ServerHealth { id: self.id.clone(), healthy: count == 0, peers, errors }
    }
}

/// A report is healthy again once every status is.
pub proof fn law_healthy_when_everything_is(state: HealthView)
    ensures
        (forall|origin: OriginView| #[trigger] state.statuses.contains_key(origin) ==> state.statuses[origin] is Healthy)
            <==> (forall|origin: OriginView, reason: Seq<char>| !#[trigger] is_unhealthy(state, origin, reason)),
{
    if forall|origin: OriginView, reason: Seq<char>| !#[trigger] is_unhealthy(state, origin, reason) {
        assert forall|origin: OriginView| #[trigger] state.statuses.contains_key(origin) implies state.statuses[origin] is Healthy by {
            if let StatusView::Unhealthy(reason) = state.statuses[origin] {
                assert(is_unhealthy(state, origin, reason));
            }
        }
    }
}

} // verus!
