//! Finding the other instances by their sockets.

use vstd::prelude::*;

use crate::instances::peers::PeerTable;
use crate::instances::routing::lemma_take_contains;
use crate::instances::sockets::{peer_from_socket_name, peer_of_socket};
use crate::instances::InstanceId;
use crate::text::text_views;

verus! {

/// Seconds between looks at the socket directory while changes are reported.
pub const DISCOVERY_INTERVAL_SECS: u64 = 60;

/// Seconds between looks at the socket directory otherwise.
pub const DISCOVERY_FALLBACK_INTERVAL_SECS: u64 = 5;

/// What wakes the discovery loop.
#[derive(Clone, Copy, Debug, PartialEq, Eq, Structural)]
pub enum DiscoveryEvent {
    /// The loop starts.
    Started,
    /// The first look is over and watching the socket directory was tried;
    /// whether changes are reported from now on.
    Watching(bool),
    /// The coordinator shuts down.
    Cancelled,
    /// The interval has passed.
    Tick,
    /// A socket file was created, changed or removed.
    SocketChanged,
    /// Changes are no longer reported.
    WatcherClosed,
}

/// What the discovery loop does next.
#[derive(Clone, Copy, Debug, PartialEq, Eq, Structural)]
pub enum DiscoveryAction {
    /// End.
    Stop,
    /// Look at the socket directory.
    Discover,
    /// Start a new interval of the current length.
    RestartInterval,
}

/// The discovery loop between two events.
#[derive(Clone, Copy, Debug, PartialEq, Eq, Structural)]
pub struct DiscoveryLoop {
    /// Whether changes to the socket directory are reported.
    pub events_alive: bool,
    /// Seconds between looks.
    pub interval_secs: u64,
}

impl DiscoveryLoop {
    /// The loop looks often exactly when nobody reports changes.
    pub open spec fn wf(self) -> bool {
        self.interval_secs == if self.events_alive {
            DISCOVERY_INTERVAL_SECS
        } else {
            DISCOVERY_FALLBACK_INTERVAL_SECS
        }
    }

    /// The loop at its start. Nobody reports changes yet.
    pub fn new() -> (l: Self)
        ensures
            l.wf(),
            !l.events_alive,
    {
        DiscoveryLoop {
            events_alive: false,
            interval_secs: DISCOVERY_FALLBACK_INTERVAL_SECS,
        }
    }

    /// Takes an event. The start leads to a first look at once; what then
    /// comes of watching decides how often the loop looks again.
    pub fn step(&mut self, event: DiscoveryEvent) -> (action: DiscoveryAction)
        requires
            old(self).wf(),
        ensures
            final(self).wf(),
            final(self).events_alive == match event {
                DiscoveryEvent::Watching(alive) => alive,
                DiscoveryEvent::WatcherClosed => false,
                _ => old(self).events_alive,
            },
            action == match event {
                DiscoveryEvent::Started => DiscoveryAction::Discover,
                DiscoveryEvent::Watching(_) => DiscoveryAction::RestartInterval,
                DiscoveryEvent::Cancelled => DiscoveryAction::Stop,
                DiscoveryEvent::Tick => DiscoveryAction::Discover,
                DiscoveryEvent::SocketChanged => DiscoveryAction::Discover,
                DiscoveryEvent::WatcherClosed => DiscoveryAction::RestartInterval,
            },
    {
        match event {
            DiscoveryEvent::Started => DiscoveryAction::Discover,
            DiscoveryEvent::Watching(alive) => {
                self.events_alive = alive;
                self.interval_secs = if alive {
                    DISCOVERY_INTERVAL_SECS
                } else {
                    DISCOVERY_FALLBACK_INTERVAL_SECS
                };
                DiscoveryAction::RestartInterval
            },
            DiscoveryEvent::Cancelled => DiscoveryAction::Stop,
            DiscoveryEvent::Tick => DiscoveryAction::Discover,
            DiscoveryEvent::SocketChanged => DiscoveryAction::Discover,
            DiscoveryEvent::WatcherClosed => {
                self.events_alive = false;
                self.interval_secs = DISCOVERY_FALLBACK_INTERVAL_SECS;
                DiscoveryAction::RestartInterval
            },
        }
    }
}

/// A file in the socket directory.
#[derive(Debug)]
pub struct SocketEntry {
    /// The name of the file, if it is UTF-8.
    pub file_name: Option<String>,
    pub path: String,
}

/// Another instance and the path of its socket.
#[derive(Debug)]
pub struct FoundPeer {
    pub instance_id: InstanceId,
    pub socket_path: String,
}

impl View for SocketEntry {
    type V = (Option<Seq<char>>, Seq<char>);

    open spec fn view(&self) -> (Option<Seq<char>>, Seq<char>) {
        (
            match self.file_name {
                Some(name) => Some(name@),
                None => None,
            },
            self.path@,
        )
    }
}

impl View for FoundPeer {
    type V = (Seq<char>, Seq<char>);

    open spec fn view(&self) -> (Seq<char>, Seq<char>) {
        (self.instance_id@, self.socket_path@)
    }
}

/// What the entries say.
pub open spec fn entry_views(entries: Seq<SocketEntry>) -> Seq<(Option<Seq<char>>, Seq<char>)> {
    entries.map_values(|e: SocketEntry| e@)
}

/// What the found peers are.
pub open spec fn peer_views(peers: Seq<FoundPeer>) -> Seq<(Seq<char>, Seq<char>)> {
    peers.map_values(|p: FoundPeer| p@)
}

/// The instance whose socket an entry is, unless it is `own`.
pub open spec fn peer_of_entry(
    entry: (Option<Seq<char>>, Seq<char>),
    own: Seq<char>,
) -> Option<Seq<char>> {
    match entry.0 {
        Some(name) => peer_of_socket(name, own),
        None => None,
    }
}

/// The other instances whose sockets are among the entries, in their order.
pub open spec fn found_peers(
    entries: Seq<(Option<Seq<char>>, Seq<char>)>,
    own: Seq<char>,
) -> Seq<(Seq<char>, Seq<char>)>
    decreases entries.len(),
{
    if entries.len() == 0 {
        seq![]
    } else {
        let found = found_peers(entries.drop_last(), own);
        match peer_of_entry(entries.last(), own) {
            Some(id) => found.push((id, entries.last().1)),
            None => found,
        }
    }
}

/// Whether the instance is among the found ones.
pub open spec fn is_found(found: Seq<(Seq<char>, Seq<char>)>, instance_id: Seq<char>) -> bool {
    exists|i: int| 0 <= i < found.len() && (#[trigger] found[i]).0 == instance_id
}

/// What a look at the socket directory leads to.
#[derive(Debug)]
pub struct DiscoveryPlan {
    /// The instances to connect to.
    pub connect: Vec<FoundPeer>,
    /// The peers that are gone.
    pub gone: Vec<InstanceId>,
}

impl DiscoveryPlan {
    /// Those found that are not connected are to be connected, in the order of
    /// their sockets; those connected that were not found are gone, each once.
    pub open spec fn is_for(
        self,
        entries: Seq<(Option<Seq<char>>, Seq<char>)>,
        own: Seq<char>,
        connected: Set<Seq<char>>,
    ) -> bool {
        let found = found_peers(entries, own);
        &&& peer_views(self.connect@) == found.filter(
            |p: (Seq<char>, Seq<char>)| !connected.contains(p.0),
        )
        &&& text_views(self.gone@).no_duplicates()
        &&& forall|id: Seq<char>|
            #[trigger] text_views(self.gone@).contains(id) <==> connected.contains(id)
                && !is_found(found, id)
    }
}

/// The other instances whose sockets are among the entries.
fn find_peers(entries: &Vec<SocketEntry>, own: &InstanceId) -> (found: Vec<FoundPeer>)
    ensures
        peer_views(found@) == found_peers(entry_views(entries@), own@),
{
    let n: usize = entries.len();
    let ghost views = entry_views(entries@);
    let mut found: Vec<FoundPeer> = Vec::new();
    assert(peer_views(found@) == found_peers(views.take(0), own@));
    for i in 0..n
        invariant
            n == entries.len(),
            views == entry_views(entries@),
            peer_views(found@) == found_peers(views.take(i as int), own@),
    {
        let ghost before = found@;
        assert(views.take(i + 1).drop_last() == views.take(i as int));
        assert(views.take(i + 1).last() == entries[i as int]@);
        if let Some(name) = &entries[i].file_name {
            if let Some(instance_id) = peer_from_socket_name(name.as_str(), own) {
                let peer = FoundPeer { instance_id, socket_path: entries[i].path.clone() };
                let ghost view = peer@;
                found.push(peer);
                assert(peer_views(found@) == peer_views(before).push(view));
            }
        }
    }
    assert(views.take(n as int) == views);
    found
}

/// Whether the instance is among the found ones.
fn was_found(found: &Vec<FoundPeer>, instance_id: &InstanceId) -> (r: bool)
    ensures
        r == is_found(peer_views(found@), instance_id@),
{
    let n: usize = found.len();
    for i in 0..n
        invariant
            n == found.len(),
            forall|j: int| 0 <= j < i ==> (#[trigger] peer_views(found@)[j]).0 != instance_id@,
    {
        assert(peer_views(found@)[i as int] == found[i as int]@);
        if found[i].instance_id == *instance_id {
            return true;
        }
    }
    false
}

/// Decides what a look at the socket directory leads to.
pub fn plan_discovery<S>(
    entries: &Vec<SocketEntry>,
    own: &InstanceId,
    peers: &PeerTable<S>,
) -> (plan: DiscoveryPlan)
    requires
        peers.wf(),
    ensures
        plan.is_for(entry_views(entries@), own@, peers@.dom()),
{
    let found: Vec<FoundPeer> = find_peers(entries, own);
    let connected: Vec<InstanceId> = peers.ids();
    let ghost all = peer_views(found@);
    let ghost names = text_views(connected@);
    let m: usize = connected.len();
    let mut gone: Vec<InstanceId> = Vec::new();
    for i in 0..m
        invariant
            m == connected.len(),
            all == peer_views(found@),
            names == text_views(connected@),
            names.no_duplicates(),
            text_views(gone@).no_duplicates(),
            forall|id: Seq<char>|
                #[trigger] text_views(gone@).contains(id) <==> names.take(i as int).contains(id)
                    && !is_found(all, id),
    {
        let ghost before = gone@;
        let ghost id = names[i as int];
        assert(id == connected[i as int]@);
        proof {
            lemma_take_contains(names, i as int);
            assert(!names.take(i as int).contains(id)) by {
                if names.take(i as int).contains(id) {
                    let j = choose|j: int| 0 <= j < i && names.take(i as int)[j] == id;
                    assert(names[j] == names[i as int]);
                }
            }
        }
        if !was_found(&found, &connected[i]) {
            assert(!text_views(before).contains(id));
            let name: InstanceId = connected[i].clone();
            gone.push(name);
            assert(text_views(gone@) == text_views(before).push(id));
            assert forall|k: Seq<char>| #[trigger] text_views(gone@).contains(k) <==> text_views(
                before,
            ).contains(k) || k == id by {
                if text_views(before).contains(k) {
                    let j = choose|j: int| 0 <= j < before.len() && text_views(before)[j] == k;
                    assert(text_views(gone@)[j] == k);
                }
                if k == id {
                    assert(text_views(gone@)[before.len() as int] == k);
                }
            }
        }
    }
    assert(names.take(m as int) == names);
    assert forall|id: Seq<char>| names.contains(id) <==> peers@.dom().contains(id) by {
        assert(names.to_set().contains(id) <==> names.contains(id));
    }
    let ghost wanted = |p: (Seq<char>, Seq<char>)| !peers@.dom().contains(p.0);
    let n: usize = found.len();
    let mut connect: Vec<FoundPeer> = Vec::new();
    assert(peer_views(connect@) == all.take(0).filter(wanted));
    for i in 0..n
        invariant
            n == found.len(),
            peers.wf(),
            all == peer_views(found@),
            wanted == (|p: (Seq<char>, Seq<char>)| !peers@.dom().contains(p.0)),
            peer_views(connect@) == all.take(i as int).filter(wanted),
    {
        let ghost before = connect@;
        assert(all.take(i + 1).drop_last() == all.take(i as int));
        assert(all.take(i + 1).last() == found[i as int]@);
        reveal(Seq::filter);
        if peers.get(&found[i].instance_id).is_none() {
            let peer = FoundPeer {
                instance_id: found[i].instance_id.clone(),
                socket_path: found[i].socket_path.clone(),
            };
            let ghost view = peer@;
            connect.push(peer);
            assert(peer_views(connect@) == peer_views(before).push(view));
        }
    }
    assert(all.take(n as int) == all);
    DiscoveryPlan { connect, gone }
}

/// While changes are reported the loop looks once a minute, and otherwise every
/// five seconds.
pub proof fn law_how_often_the_loop_looks(l: DiscoveryLoop)
    requires
        l.wf(),
    ensures
        l.events_alive ==> l.interval_secs == 60,
        !l.events_alive ==> l.interval_secs == 5,
{
}

} // verus!
