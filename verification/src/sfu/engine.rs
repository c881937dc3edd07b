//! The state of the media loop.
use std::collections::HashMap;

use str0m::net::Transmit;
use vstd::prelude::*;
use vstd::string::*;

use crate::find::{first_where, first_where_found, first_where_missing};
use crate::names::same_text;
use crate::net::Endpoint;
use crate::report::{reports_of, Report, ReportEvent};
use crate::sfu::audibility::{beginning_is_audible, is_well};
use crate::sfu::outbox::{posts_of, Envelope, Post};
use crate::sfu::room::{Room, RoomView};
use crate::sfu::soundness::beginning_is_sound;
use crate::sfu::tracks::PeerId;
use crate::sfu::webrtc::Now;

verus! {

broadcast use vstd::std_specs::hash::group_hash_axioms;

/// Ceiling on how long the loop sleeps waiting for a packet, in nanoseconds.
/// The sessions usually ask for something shorter; this only bounds the idle
/// case.
pub const MAX_IDLE: u64 = 100_000_000;

/// How often the speakers are looked at, in nanoseconds.
pub const SPEAKING_TICK: u64 = 200_000_000;

/// The shortest wait for a packet, in nanoseconds.
pub const MIN_WAIT: u64 = 1_000_000;

/// A room under its name.
pub struct RoomEntry {
    pub name: String,
    pub room: Room,
}

#[verifier::ext_equal]
pub struct NamedRoom {
    pub name: Seq<char>,
    pub room: RoomView,
}

impl View for RoomEntry {
    type V = NamedRoom;

    open spec fn view(&self) -> NamedRoom {
        NamedRoom { name: self.name@, room: self.room@ }
    }
}

pub open spec fn rooms_of(rooms: Seq<RoomEntry>) -> Seq<NamedRoom> {
    rooms.map_values(|r: RoomEntry| r@)
}

/// Which room each peer is in.
pub open spec fn whereabouts(map: Map<u64, String>) -> Map<u64, Seq<char>> {
    map.map_values(|name: String| name@)
}

/// Owns every WebRTC session. Single-threaded on purpose: all mutation arrives
/// as a command or a datagram, so there are no locks on the packet path. What
/// it has to say is left in three queues: messages for the browsers, reports
/// for the host application and datagrams for the network.
pub struct Engine {
    pub ice_lite: bool,
    pub max_room_peers: usize,
    /// The address browsers are told to send media to.
    pub advertised: Endpoint,
    pub rooms: Vec<RoomEntry>,
    pub peer_rooms: HashMap<u64, String>,
    pub next_peer: u64,
    pub last_speaking: u64,
    pub outbox: Vec<Envelope>,
    pub reports: Vec<ReportEvent>,
    pub transmits: Vec<Transmit>,
}

#[verifier::ext_equal]
pub struct EngineView {
    pub ice_lite: bool,
    pub max_room_peers: usize,
    pub advertised: Endpoint,
    pub rooms: Seq<NamedRoom>,
    pub peer_rooms: Map<u64, Seq<char>>,
    pub next_peer: u64,
    pub last_speaking: u64,
    pub outbox: Seq<Post>,
    pub reports: Seq<Report>,
    pub transmits: Seq<Transmit>,
}

impl View for Engine {
    type V = EngineView;

    open spec fn view(&self) -> EngineView {
        EngineView {
            ice_lite: self.ice_lite,
            max_room_peers: self.max_room_peers,
            advertised: self.advertised,
            rooms: rooms_of(self.rooms@),
            peer_rooms: whereabouts(self.peer_rooms@),
            next_peer: self.next_peer,
            last_speaking: self.last_speaking,
            outbox: posts_of(self.outbox@),
            reports: reports_of(self.reports@),
            transmits: self.transmits@,
        }
    }
}

/// Going by a name.
pub open spec fn is_named(name: Seq<char>) -> spec_fn(NamedRoom) -> bool {
    |entry: NamedRoom| entry.name == name
}

impl EngineView {
    /// Where the room with a name stands.
    pub open spec fn room_index(self, name: Seq<char>) -> Option<int> {
        first_where(self.rooms, is_named(name))
    }

    /// The same state with one room replaced.
    pub open spec fn with_room(self, index: int, room: RoomView) -> EngineView {
        EngineView {
            rooms: self.rooms.update(index, NamedRoom { room, ..self.rooms[index] }),
            ..self
        }
    }
}

/// A state with no rooms.
pub open spec fn is_idle(engine: EngineView) -> bool {
    &&& engine.rooms == Seq::<NamedRoom>::empty()
    &&& engine.peer_rooms == Map::<u64, Seq<char>>::empty()
    &&& engine.next_peer == 1
    &&& engine.outbox == Seq::<Post>::empty()
    &&& engine.reports == Seq::<Report>::empty()
    &&& engine.transmits == Seq::<Transmit>::empty()
}

impl Engine {
    pub fn new(ice_lite: bool, max_room_peers: usize, advertised: Endpoint, now: Now) -> (engine: Self)
        ensures
            is_idle(engine@),
            is_well(engine@),
            engine@.ice_lite == ice_lite,
            engine@.max_room_peers == max_room_peers,
            engine@.advertised == advertised,
            engine@.last_speaking == now.nanos,
    {
        let engine = Engine {
            ice_lite,
            max_room_peers,
            advertised,
            rooms: Vec::new(),
            peer_rooms: HashMap::new(),
            next_peer: 1,
            last_speaking: now.nanos,
            outbox: Vec::new(),
            reports: Vec::new(),
            transmits: Vec::new(),
        };
        assert(engine@.rooms =~= Seq::empty());
        assert(engine@.peer_rooms =~= Map::empty());
        assert(engine@.outbox =~= Seq::empty());
        assert(engine@.reports =~= Seq::empty());
        proof {
            beginning_is_sound(engine@);
            beginning_is_audible(engine@);
        }
        engine
    }

    /// Where the room with a name stands.
    pub fn find_room(&self, name: &str) -> (found: Option<usize>)
        ensures
            match found {
                Some(r) => r < self.rooms.len() && self@.room_index(name@) == Some(r as int),
                None => self@.room_index(name@) is None,
            },
    {
        let ghost all = self@.rooms;
        let ghost wanted = is_named(name@);
        let mut i: usize = 0;
        while i < self.rooms.len()
            invariant
                i <= self.rooms.len(),
                all == self@.rooms,
                wanted == is_named(name@),
                forall|j: int| 0 <= j < i ==> !wanted(#[trigger] all[j]),
            decreases self.rooms.len() - i,
        {
            if same_text(self.rooms[i].name.as_str(), name) {
                proof {
                    first_where_found(all, wanted, i as int);
                }
                return Some(i);
            }
            assert(!wanted(all[i as int]));
            i = i + 1;
        }
        proof {
            first_where_missing(all, wanted);
        }
        None
    }

    /// The name of the room a peer is in.
    pub fn room_name_of(&self, id: PeerId) -> (name: Option<String>)
        ensures
            match name {
                Some(name) => self@.peer_rooms.contains_key(id.0) && self@.peer_rooms[id.0] == name@,
                None => !self@.peer_rooms.contains_key(id.0),
            },
    {
        match self.peer_rooms.get(&id.0) {
            Some(name) => Some(name.clone()),
            None => None,
        }
    }

    /// Queues a report for the host application.
    pub fn report(&mut self, event: ReportEvent)
        ensures
            final(self)@ == (EngineView { reports: old(self)@.reports.push(event@), ..old(self)@ }),
            final(self).reports@ == old(self).reports@.push(event),
    {
        self.reports.push(event);
        assert(self@.reports =~= old(self)@.reports.push(event@));
    }

    /// Forgets which room a peer is in, and says which it was.
    pub fn forget(&mut self, id: PeerId) -> (name: Option<String>)
        ensures
            final(self)@ == (EngineView {
                peer_rooms: old(self)@.peer_rooms.remove(id.0),
                ..old(self)@
            }),
            final(self).reports == old(self).reports,
            match name {
                Some(name) => old(self)@.peer_rooms.contains_key(id.0)
                    && old(self)@.peer_rooms[id.0] == name@,
                None => !old(self)@.peer_rooms.contains_key(id.0),
            },
    {
        let name = self.peer_rooms.remove(&id.0);
        assert(self@.peer_rooms =~= old(self)@.peer_rooms.remove(id.0));
        name
    }

    /// Takes note of the room a peer is in.
    pub fn remember(&mut self, id: PeerId, name: String)
        ensures
            final(self)@ == (EngineView {
                peer_rooms: old(self)@.peer_rooms.insert(id.0, name@),
                ..old(self)@
            }),
            final(self).reports == old(self).reports,
    {
        let ghost text = name@;
        self.peer_rooms.insert(id.0, name);
        assert(self@.peer_rooms =~= old(self)@.peer_rooms.insert(id.0, text));
    }
}

} // verus!
