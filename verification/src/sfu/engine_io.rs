//! The media loop's dealings with the network and the clock.
use str0m::net::Transmit;
use str0m::Input;
use vstd::prelude::*;
use vstd::string::*;

use crate::find::{first_where, first_where_found, first_where_missing};
use crate::net::Endpoint;
use crate::report::{
    grows_afresh, growth_adds_up, participant_report, reports_of, Report, ReportEvent,
};
use crate::sfu::dispatch::with_peer;
use crate::sfu::engine::{Engine, EngineView, MAX_IDLE, MIN_WAIT, NamedRoom, SPEAKING_TICK};
use crate::sfu::outbox::Post;
use crate::sfu::peer::{has_room_ahead, is_fed, PeerView};
use crate::sfu::poll::{deadline_after_all, is_polled, posts_from_all, transmits_from_all, Turn};
use crate::sfu::room::{speaking_posts, speaking_synced, Room, RoomView};
use crate::sfu::webrtc::{datagram, input_of, is_traffic, tick, InputView, Now};

verus! {

/// A visit to one room: what its peers did, and what the room took in.
pub struct Visit {
    pub runs: Seq<Seq<Turn>>,
    pub states: Seq<RoomView>,
}

/// The rooms were polled one after the other.
pub open spec fn are_polled(
    before: Seq<NamedRoom>,
    after: Seq<NamedRoom>,
    visits: Seq<Visit>,
    now: u64,
) -> bool {
    &&& after.len() == before.len()
    &&& visits.len() == before.len()
    &&& forall|r: int|
        0 <= r < visits.len() ==> is_visited(before[r], after[r], #[trigger] visits[r], now)
}

/// A room was polled in a visit and kept its name.
pub open spec fn is_visited(before: NamedRoom, after: NamedRoom, visit: Visit, now: u64) -> bool {
    &&& after.name == before.name
    &&& is_polled(before.room, after.room, visit.runs, visit.states, now)
}

/// The earliest wake-up time of a number of visits, or the deadline.
pub open spec fn deadline_of_visits(deadline: u64, visits: Seq<Visit>) -> u64
    decreases visits.len(),
{
    if visits.len() == 0 {
        deadline
    } else {
        deadline_after_all(deadline_of_visits(deadline, visits.drop_last()), visits.last().runs)
    }
}

pub open spec fn posts_of_visits(visits: Seq<Visit>) -> Seq<Post>
    decreases visits.len(),
{
    if visits.len() == 0 {
        Seq::empty()
    } else {
        posts_of_visits(visits.drop_last()) + posts_from_all(visits.last().runs)
    }
}

pub open spec fn transmits_of_visits(visits: Seq<Visit>) -> Seq<Transmit>
    decreases visits.len(),
{
    if visits.len() == 0 {
        Seq::empty()
    } else {
        transmits_of_visits(visits.drop_last()) + transmits_from_all(visits.last().runs)
    }
}

/// What polling does: the rooms are visited in turn, and the next wake-up is
/// the earliest that a peer asked for, or the idle limit.
pub open spec fn polls(
    before: EngineView,
    after: EngineView,
    visits: Seq<Visit>,
    now: u64,
    wake: u64,
) -> bool {
    &&& are_polled(before.rooms, after.rooms, visits, now)
    &&& after == EngineView {
        rooms: after.rooms,
        outbox: before.outbox + posts_of_visits(visits),
        transmits: before.transmits + transmits_of_visits(visits),
        ..before
    }
    &&& wake == deadline_of_visits((now + MAX_IDLE) as u64, visits)
}

/// A peer whose arrival has been reported if it has arrived.
pub open spec fn arrived(peer: PeerView) -> PeerView {
    if peer.connected && !peer.reported {
        PeerView { reported: true, ..peer }
    } else {
        peer
    }
}

pub open spec fn all_arrived(peers: Seq<PeerView>) -> Seq<PeerView> {
    peers.map_values(|p: PeerView| arrived(p))
}

/// The arrivals in a room that have not been reported.
pub open spec fn arrivals(name: Seq<char>, peers: Seq<PeerView>) -> Seq<Report>
    decreases peers.len(),
{
    if peers.len() == 0 {
        Seq::empty()
    } else {
        let rest = arrivals(name, peers.drop_last());
        let peer = peers.last();
        if peer.connected && !peer.reported {
            rest.push(participant_report("participant_joined"@, name, peer.user_id))
        } else {
            rest
        }
    }
}

pub open spec fn arrivals_in(rooms: Seq<NamedRoom>) -> Seq<Report>
    decreases rooms.len(),
{
    if rooms.len() == 0 {
        Seq::empty()
    } else {
        arrivals_in(rooms.drop_last()) + arrivals(rooms.last().name, rooms.last().room.peers)
    }
}

/// A room with its arrivals reported.
pub open spec fn arrived_room(entry: NamedRoom) -> NamedRoom {
    NamedRoom { room: RoomView { peers: all_arrived(entry.room.peers), ..entry.room }, ..entry }
}

/// The state with all arrivals reported.
pub open spec fn connections_reported(engine: EngineView) -> EngineView {
    EngineView {
        rooms: engine.rooms.map_values(|r: NamedRoom| arrived_room(r)),
        reports: engine.reports + arrivals_in(engine.rooms),
        ..engine
    }
}

pub open spec fn speaking_room(entry: NamedRoom, now: u64) -> NamedRoom {
    NamedRoom { room: speaking_synced(entry.room, now), ..entry }
}

pub open spec fn speaking_news(rooms: Seq<NamedRoom>, now: u64) -> Seq<Post>
    decreases rooms.len(),
{
    if rooms.len() == 0 {
        Seq::empty()
    } else {
        speaking_news(rooms.drop_last(), now) + speaking_posts(rooms.last().room, now)
    }
}

/// The state after a look at the speakers, which comes only so often.
pub open spec fn speaking_ticked(engine: EngineView, now: u64) -> EngineView {
    if now - engine.last_speaking < SPEAKING_TICK {
        engine
    } else {
        EngineView {
            last_speaking: now,
            rooms: engine.rooms.map_values(|r: NamedRoom| speaking_room(r, now)),
            outbox: engine.outbox + speaking_news(engine.rooms, now),
            ..engine
        }
    }
}

/// Taking an input for one's own.
pub open spec fn takes_input(input: InputView) -> spec_fn(PeerView) -> bool {
    |peer: PeerView| peer.link.takes(input)
}

/// Holding a peer that takes an input.
pub open spec fn holds_taker(input: InputView) -> spec_fn(NamedRoom) -> bool {
    |entry: NamedRoom| first_where(entry.room.peers, takes_input(input)) is Some
}

/// The first peer that takes an input: its room, and its place in the room.
pub open spec fn taker_of(rooms: Seq<NamedRoom>, input: InputView) -> Option<(int, int)> {
    match first_where(rooms, holds_taker(input)) {
        None => None,
        Some(r) => Some((r, first_where(rooms[r].room.peers, takes_input(input))->0)),
    }
}

/// What a datagram does. It goes to the first peer that takes it, as one that
/// was sent to the address browsers are told of. The address the socket is
/// bound to may be a wildcard, which would match no candidate.
pub open spec fn reads(before: EngineView, after: EngineView, source: Endpoint, bytes: Seq<u8>) -> bool {
    let input = InputView::Datagram { source, destination: before.advertised, bytes };
    if !is_traffic(bytes) {
        after == before
    } else {
        match taker_of(before.rooms, input) {
            None => after == before,
            Some((r, p)) => {
                let peer = after.rooms[r].room.peers[p];
                &&& after == with_peer(before, r, p, peer)
                &&& is_fed(before.rooms[r].room.peers[p], peer, input)
            },
        }
    }
}

/// Every peer of a room learns that time has passed.
pub open spec fn room_ticks(before: RoomView, after: RoomView) -> bool {
    &&& after == RoomView { peers: after.peers, ..before }
    &&& after.peers.len() == before.peers.len()
    &&& forall|i: int|
        0 <= i < before.peers.len() ==> is_fed(
            before.peers[i],
            #[trigger] after.peers[i],
            InputView::Tick,
        )
}

/// Every peer of every room learns that time has passed.
pub open spec fn ticks(before: EngineView, after: EngineView) -> bool {
    &&& after == EngineView { rooms: after.rooms, ..before }
    &&& after.rooms.len() == before.rooms.len()
    &&& forall|r: int|
        0 <= r < before.rooms.len() ==> {
            &&& (#[trigger] after.rooms[r]).name == before.rooms[r].name
            &&& room_ticks(before.rooms[r].room, after.rooms[r].room)
        }
}

/// How long to wait for a packet: until the wake-up time, but not for less than
/// the shortest wait.
pub open spec fn wait_until(wake: u64, now: u64) -> u64 {
    if wake - now > MIN_WAIT {
        (wake - now) as u64
    } else {
        MIN_WAIT
    }
}

impl Room {
    /// Reports the peers that have come up, under the room's name.
    fn report_arrivals(&mut self, name: &str, reports: &mut Vec<ReportEvent>)
        ensures
            final(self)@ == (RoomView { peers: all_arrived(old(self)@.peers), ..old(self)@ }),
            reports_of(final(reports)@) == reports_of(old(reports)@) + arrivals(
                name@,
                old(self)@.peers,
            ),
            grows_afresh(old(reports)@, final(reports)@),
    {
        let ghost before = self@;
        let ghost reported = reports_of(reports@);
        let ghost all = before.peers;
        let mut i: usize = 0;
        assert(reported + arrivals(name@, all.take(0)) =~= reported);
        while i < self.peers.len()
            invariant
                i <= self.peers.len(),
                before == old(self)@,
                all == before.peers,
                reported == reports_of(old(reports)@),
                self.peers.len() == all.len(),
                self@ == (RoomView { peers: self@.peers, ..before }),
                forall|j: int| 0 <= j < i ==> #[trigger] self@.peers[j] == arrived(all[j]),
                forall|j: int| i <= j < all.len() ==> #[trigger] self@.peers[j] == all[j],
                reports_of(reports@) == reported + arrivals(name@, all.take(i as int)),
                grows_afresh(old(reports)@, reports@),
            decreases self.peers.len() - i,
        {
            let ghost held = self@.peers;
            let ghost so_far = reports_of(reports@);
            proof {
                assert(held[i as int] == all[i as int]);
                assert(all.take(i + 1).drop_last() =~= all.take(i as int));
                assert(all.take(i + 1).last() == all[i as int]);
            }
            if self.peers[i].connected && !self.peers[i].reported {
                self.peers[i].reported = true;
                let event = ReportEvent::new("participant_joined", name).identity(
                    self.peers[i].user_id.as_str(),
                );
                reports.push(event);
                assert(reports_of(reports@) =~= so_far.push(event@));
                assert(so_far.push(event@) =~= reported + arrivals(name@, all.take(i + 1)));
            }
            proof {
                assert forall|j: int| 0 <= j < all.len() && j != i implies
                    #[trigger] self@.peers[j] == held[j] by {}
            }
            i = i + 1;
        }
        assert(all.take(i as int) =~= all);
        assert(self@.peers =~= all_arrived(all));
    }

    /// Tells every peer that time has passed.
    fn tick(&mut self, now: Now)
        ensures
            room_ticks(old(self)@, final(self)@),
    {
        let ghost before = self@;
        let mut i: usize = 0;
        while i < self.peers.len()
            invariant
                i <= self.peers.len(),
                before == old(self)@,
                self.peers.len() == before.peers.len(),
                self@ == (RoomView { peers: self@.peers, ..before }),
                forall|j: int|
                    0 <= j < i ==> is_fed(
                        before.peers[j],
                        #[trigger] self@.peers[j],
                        InputView::Tick,
                    ),
                forall|j: int|
                    i <= j < before.peers.len() ==> #[trigger] self@.peers[j] == before.peers[j],
            decreases self.peers.len() - i,
        {
            let ghost held = self@.peers;
            assert(held[i as int] == before.peers[i as int]);
            self.peers[i].handle_input(tick(now.instant));
            proof {
                assert forall|j: int| 0 <= j < before.peers.len() && j != i implies
                    #[trigger] self@.peers[j] == held[j] by {}
            }
            i = i + 1;
        }
    }

    /// The first peer that takes an input.
    fn find_taker(&self, input: &Input<'_>) -> (found: Option<usize>)
        ensures
            match found {
                Some(i) => i < self.peers.len() && first_where(
                    self@.peers,
                    takes_input(input_of(*input)),
                ) == Some(i as int),
                None => first_where(self@.peers, takes_input(input_of(*input))) is None,
            },
    {
        let ghost all = self@.peers;
        let ghost wanted = takes_input(input_of(*input));
        let mut i: usize = 0;
        while i < self.peers.len()
            invariant
                i <= self.peers.len(),
                all == self@.peers,
                wanted == takes_input(input_of(*input)),
                forall|j: int| 0 <= j < i ==> !wanted(#[trigger] all[j]),
            decreases self.peers.len() - i,
        {
            if self.peers[i].accepts(input) {
                proof {
                    first_where_found(all, wanted, i as int);
                }
                return Some(i);
            }
            assert(!wanted(all[i as int]));
            i = i + 1;
        }
        proof {
            first_where_missing(all, wanted);
        }
        None
    }
}

impl Engine {
    /// Drains every peer's output, queueing packets as they appear and anything
    /// the rest of the room needs. Returns the earliest wake-up any peer asked
    /// for.
    pub fn poll_rooms(&mut self, now: Now) -> (result: (u64, Ghost<Seq<Visit>>))
        requires
            has_room_ahead(now),
        ensures
            polls(old(self)@, final(self)@, result.1@, now.nanos, result.0),
            final(self).reports == old(self).reports,
    {
        let ghost before = self@;
        let limit: u64 = now.nanos + MAX_IDLE;
        let mut wake: u64 = limit;
        let ghost mut visits: Seq<Visit> = Seq::empty();
        let mut r: usize = 0;
        assert(before.outbox + posts_of_visits(visits) =~= before.outbox);
        assert(before.transmits + transmits_of_visits(visits) =~= before.transmits);
        while r < self.rooms.len()
            invariant
                has_room_ahead(now),
                r <= self.rooms.len(),
                before == old(self)@,
                visits.len() == r,
                self@.rooms.len() == before.rooms.len(),
                self@ == (EngineView {
                    rooms: self@.rooms,
                    outbox: before.outbox + posts_of_visits(visits),
                    transmits: before.transmits + transmits_of_visits(visits),
                    ..before
                }),
                wake == deadline_of_visits(limit, visits),
                self.reports == old(self).reports,
                forall|j: int|
                    0 <= j < r ==> is_visited(
                        before.rooms[j],
                        self@.rooms[j],
                        #[trigger] visits[j],
                        now.nanos,
                    ),
                forall|j: int|
                    r <= j < before.rooms.len() ==> #[trigger] self@.rooms[j] == before.rooms[j],
            decreases self.rooms.len() - r,
        {
            let ghost held = self@;
            let ghost earlier = visits;
            assert(held.rooms[r as int] == before.rooms[r as int]);
            let (next, runs, states) = self.rooms[r].room.poll(
                now,
                wake,
                &mut self.outbox,
                &mut self.transmits,
            );
            wake = next;
            proof {
                visits = earlier.push(Visit { runs: runs@, states: states@ });
                assert(visits.drop_last() =~= earlier);
                assert(self@.outbox =~= before.outbox + posts_of_visits(visits));
                assert(self@.transmits =~= before.transmits + transmits_of_visits(visits));
                assert forall|j: int| 0 <= j < before.rooms.len() && j != r implies
                    #[trigger] self@.rooms[j] == held.rooms[j] by {}
                assert forall|j: int| 0 <= j < r + 1 implies is_visited(
                    before.rooms[j],
                    self@.rooms[j],
                    #[trigger] visits[j],
                    now.nanos,
                ) by {
                    if j < r {
                        assert(visits[j] == earlier[j]);
                        assert(self@.rooms[j] == held.rooms[j]);
                    }
                }
            }
            r = r + 1;
        }
        assert(are_polled(before.rooms, self@.rooms, visits, now.nanos));
        (wake, Ghost(visits))
    }

    /// Announces peers whose transport has just come up. Reported here rather
    /// than at join so an arrival means "media can flow", which is what the
    /// host application's call clock and participant peak actually mean.
    pub fn report_connections(&mut self)
        ensures
            final(self)@ == connections_reported(old(self)@),
            grows_afresh(old(self).reports@, final(self).reports@),
    {
        let ghost before = self@;
        let ghost rooms = before.rooms;
        let mut r: usize = 0;
        assert(before.reports + arrivals_in(rooms.take(0)) =~= before.reports);
        while r < self.rooms.len()
            invariant
                r <= self.rooms.len(),
                before == old(self)@,
                rooms == before.rooms,
                self@.rooms.len() == rooms.len(),
                self@ == (EngineView {
                    rooms: self@.rooms,
                    reports: before.reports + arrivals_in(rooms.take(r as int)),
                    ..before
                }),
                grows_afresh(old(self).reports@, self.reports@),
                forall|j: int| 0 <= j < r ==> #[trigger] self@.rooms[j] == arrived_room(rooms[j]),
                forall|j: int| r <= j < rooms.len() ==> #[trigger] self@.rooms[j] == rooms[j],
            decreases self.rooms.len() - r,
        {
            let ghost held = self@;
            proof {
                assert(held.rooms[r as int] == rooms[r as int]);
                assert(rooms.take(r + 1).drop_last() =~= rooms.take(r as int));
                assert(rooms.take(r + 1).last() == rooms[r as int]);
            }
            let name = self.rooms[r].name.clone();
            let ghost queued = self.reports@;
            self.rooms[r].room.report_arrivals(name.as_str(), &mut self.reports);
            proof {
                growth_adds_up(old(self).reports@, queued, self.reports@);
                assert(self@.reports =~= before.reports + arrivals_in(rooms.take(r + 1)));
                assert forall|j: int| 0 <= j < rooms.len() && j != r implies
                    #[trigger] self@.rooms[j] == held.rooms[j] by {}
            }
            r = r + 1;
        }
        assert(rooms.take(r as int) =~= rooms);
        assert(self@.rooms =~= connections_reported(before).rooms);
    }

    /// Brings the lists of speakers up to date, if it is time to.
    pub fn tick_speaking(&mut self, now: Now)
        ensures
            final(self)@ == speaking_ticked(old(self)@, now.nanos),
            final(self).reports == old(self).reports,
    {
        if now.nanos < self.last_speaking || now.nanos - self.last_speaking < SPEAKING_TICK {
            return;
        }
        let ghost before = self@;
        let ghost rooms = before.rooms;
        self.last_speaking = now.nanos;
        let mut r: usize = 0;
        assert(before.outbox + speaking_news(rooms.take(0), now.nanos) =~= before.outbox);
        while r < self.rooms.len()
            invariant
                r <= self.rooms.len(),
                rooms == before.rooms,
                self@.rooms.len() == rooms.len(),
                self@ == (EngineView {
                    last_speaking: now.nanos,
                    rooms: self@.rooms,
                    outbox: before.outbox + speaking_news(rooms.take(r as int), now.nanos),
                    ..before
                }),
                self.reports == old(self).reports,
                forall|j: int|
                    0 <= j < r ==> #[trigger] self@.rooms[j] == speaking_room(rooms[j], now.nanos),
                forall|j: int| r <= j < rooms.len() ==> #[trigger] self@.rooms[j] == rooms[j],
            decreases self.rooms.len() - r,
        {
            let ghost held = self@;
            proof {
                assert(held.rooms[r as int] == rooms[r as int]);
                assert(rooms.take(r + 1).drop_last() =~= rooms.take(r as int));
                assert(rooms.take(r + 1).last() == rooms[r as int]);
            }
            self.rooms[r].room.sync_speaking(now, &mut self.outbox);
            proof {
                assert(self@.outbox =~= before.outbox + speaking_news(
                    rooms.take(r + 1),
                    now.nanos,
                ));
                assert forall|j: int| 0 <= j < rooms.len() && j != r implies
                    #[trigger] self@.rooms[j] == held.rooms[j] by {}
            }
            r = r + 1;
        }
        assert(rooms.take(r as int) =~= rooms);
        assert(self@.rooms =~= rooms.map_values(|e: NamedRoom| speaking_room(e, now.nanos)));
    }

    /// The first peer that takes an input, in any room.
    fn find_taker(&self, input: &Input<'_>) -> (found: Option<(usize, usize)>)
        ensures
            match found {
                Some((r, p)) => {
                    &&& r < self.rooms.len()
                    &&& p < self.rooms@[r as int].room.peers.len()
                    &&& taker_of(self@.rooms, input_of(*input)) == Some((r as int, p as int))
                },
                None => taker_of(self@.rooms, input_of(*input)) is None,
            },
    {
        let ghost rooms = self@.rooms;
        let ghost wanted = holds_taker(input_of(*input));
        let mut r: usize = 0;
        while r < self.rooms.len()
            invariant
                r <= self.rooms.len(),
                rooms == self@.rooms,
                wanted == holds_taker(input_of(*input)),
                forall|j: int| 0 <= j < r ==> !wanted(#[trigger] rooms[j]),
            decreases self.rooms.len() - r,
        {
            assert(rooms[r as int].room == self.rooms@[r as int].room@);
            match self.rooms[r].room.find_taker(input) {
                Some(p) => {
                    proof {
                        first_where_found(rooms, wanted, r as int);
                    }
                    return Some((r, p));
                },
                None => {},
            }
            assert(!wanted(rooms[r as int]));
            r = r + 1;
        }
        proof {
            first_where_missing(rooms, wanted);
        }
        None
    }

    /// Takes in one datagram. Every peer in every room is multiplexed over one
    /// socket; the sessions themselves tell which of them owns an ICE ufrag or a
    /// DTLS association.
    pub fn read_once(&mut self, source: Endpoint, bytes: &[u8], now: Now)
        ensures
            reads(old(self)@, final(self)@, source, bytes@),
    {
        let ghost before = self@;
        match datagram(now.instant, source, self.advertised, bytes) {
            Some(input) => {
                let ghost view = input_of(input);
                match self.find_taker(&input) {
                    Some((r, p)) => {
                        self.rooms[r].room.peers[p].handle_input(input);
                        proof {
                            let peer = self@.rooms[r as int].room.peers[p as int];
                            let after = with_peer(before, r as int, p as int, peer);
                            assert(is_fed(
                                before.rooms[r as int].room.peers[p as int],
                                peer,
                                view,
                            ));
                            assert(self@.rooms[r as int].room.peers
                                =~= after.rooms[r as int].room.peers);
                            assert(self@.rooms =~= after.rooms);
                        }
                    },
                    // Routine: a browser STUNs before its join command has been
                    // applied.
                    None => {},
                }
            },
            None => {},
        }
    }

    /// Tells every peer that time has passed.
    pub fn tick(&mut self, now: Now)
        ensures
            ticks(old(self)@, final(self)@),
    {
        let ghost before = self@;
        let mut r: usize = 0;
        while r < self.rooms.len()
            invariant
                r <= self.rooms.len(),
                before == old(self)@,
                self@.rooms.len() == before.rooms.len(),
                self@ == (EngineView { rooms: self@.rooms, ..before }),
                forall|j: int|
                    0 <= j < r ==> {
                        &&& (#[trigger] self@.rooms[j]).name == before.rooms[j].name
                        &&& room_ticks(before.rooms[j].room, self@.rooms[j].room)
                    },
                forall|j: int|
                    r <= j < before.rooms.len() ==> #[trigger] self@.rooms[j] == before.rooms[j],
            decreases self.rooms.len() - r,
        {
            let ghost held = self@;
            assert(held.rooms[r as int] == before.rooms[r as int]);
            self.rooms[r].room.tick(now);
            proof {
                assert forall|j: int| 0 <= j < before.rooms.len() && j != r implies
                    #[trigger] self@.rooms[j] == held.rooms[j] by {}
            }
            r = r + 1;
        }
    }
}

/// How long to wait for a packet.
pub fn read_timeout(wake: u64, now: Now) -> (nanos: u64)
    ensures
        nanos == wait_until(wake, now.nanos),
{
    if wake > now.nanos && wake - now.nanos > MIN_WAIT {
        wake - now.nanos
    } else {
        MIN_WAIT
    }
}

} // verus!
