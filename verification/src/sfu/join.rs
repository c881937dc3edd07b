//! Joining and leaving.
use std::time::Instant;

use str0m::change::SdpOffer;
use vstd::prelude::*;
use vstd::string::*;

use crate::auth::{JoinClaims, JoinClaimsView};
use crate::find::{first_where, first_where_found, first_where_is_first};
use crate::names::same_text;
use crate::proto::{error_frame, ServerMsg, ServerMsgView};
use crate::report::{grows_afresh, growth_adds_up, participant_report, room_report, ReportEvent};
use crate::sfu::command::{JoinReply, JoinReplyView, JoinRequest};
use crate::sfu::engine::{is_named, Engine, EngineView, NamedRoom, RoomEntry};
use crate::sfu::outbox::{post, Post};
use crate::sfu::peer::{fresh_peer, is_offered, Peer, PeerView};
use crate::sfu::room::{
    farewell, has_id, infos_of, subscribed, to_all, without_peer, Room, RoomView,
};
use crate::sfu::tracks::PeerId;
use crate::sfu::transport::{announces, Asked, Transport};
use crate::sfu::webrtc::{offer_of, parse_offer, Now};
use crate::text::text_of;

verus! {

/// A room nobody has entered yet.
pub open spec fn empty_room(call_id: Seq<char>) -> RoomView {
    RoomView { call_id, peers: Seq::empty(), speaking: Seq::empty() }
}

/// The state with a room under a name, made if there was none.
pub open spec fn opened_room(engine: EngineView, name: Seq<char>, call_id: Seq<char>) -> EngineView {
    match engine.room_index(name) {
        Some(_) => engine,
        None => EngineView {
            rooms: engine.rooms.push(NamedRoom { name, room: empty_room(call_id) }),
            ..engine
        },
    }
}

/// The peers that belong to a user, by id.
pub open spec fn peers_of_user(peers: Seq<PeerView>, user_id: Seq<char>) -> Seq<PeerId>
    decreases peers.len(),
{
    if peers.len() == 0 {
        Seq::empty()
    } else {
        let rest = peers_of_user(peers.drop_last(), user_id);
        if peers.last().user_id == user_id {
            rest.push(peers.last().id)
        } else {
            rest
        }
    }
}

/// No user has more peers than there are.
pub proof fn a_user_has_no_more_peers_than_there_are(peers: Seq<PeerView>, user_id: Seq<char>)
    ensures
        peers_of_user(peers, user_id).len() <= peers.len(),
    decreases peers.len(),
{
    if peers.len() > 0 {
        a_user_has_no_more_peers_than_there_are(peers.drop_last(), user_id);
    }
}

/// What a peer is told that another tab of its user takes the place of.
pub open spec fn replaced_frame() -> ServerMsgView {
    error_frame("replaced"@, "Joined from another tab."@)
}

/// The state after a room has lost a peer to a newer one of the same user. The
/// room is told, and so is the old peer; the host application is not, because
/// it keys participants by identity and a late "left" would erase the fresh
/// arrival.
pub open spec fn retired(engine: EngineView, r: int, old_id: PeerId) -> EngineView {
    let room = engine.rooms[r].room;
    let told = if first_where(room.peers, has_id(old_id)) is Some {
        engine.outbox + farewell(room, old_id) + seq![
            Post { to: old_id, message: replaced_frame() },
        ]
    } else {
        engine.outbox
    };
    EngineView { outbox: told, peer_rooms: engine.peer_rooms.remove(old_id.0), ..engine }.with_room(
        r,
        without_peer(room, old_id),
    )
}

pub open spec fn all_retired(engine: EngineView, r: int, ids: Seq<PeerId>) -> EngineView
    decreases ids.len(),
{
    if ids.len() == 0 {
        engine
    } else {
        retired(all_retired(engine, r, ids.drop_last()), r, ids.last())
    }
}

/// What a newcomer is told: the id it goes by, the answer to its offer and who
/// is there already.
pub open spec fn joined_frame(
    peer: PeerView,
    call_id: Seq<char>,
    answer: Seq<char>,
    others: Seq<PeerView>,
) -> ServerMsgView {
    ServerMsgView::Joined {
        peer_id: peer.id.text(),
        call_id,
        sdp: answer,
        peers: infos_of(others),
    }
}

/// The state after a newcomer has taken its seat in a room: it is told who is
/// there, those who are there are told of it, and it is subscribed to them all.
pub open spec fn seated(
    engine: EngineView,
    r: int,
    peer: PeerView,
    call_id: Seq<char>,
    answer: Seq<char>,
) -> EngineView {
    let room = engine.rooms[r].room;
    let welcome = Post { to: peer.id, message: joined_frame(peer, call_id, answer, room.peers) };
    let news = to_all(room.peers, ServerMsgView::PeerJoined { peer: peer.info() });
    EngineView {
        outbox: engine.outbox.push(welcome) + news,
        peer_rooms: engine.peer_rooms.insert(peer.id.0, engine.rooms[r].name),
        ..engine
    }.with_room(r, RoomView { peers: subscribed(room.peers.push(peer), peer.id), ..room })
}

/// The state after a peer was let in.
pub open spec fn admitted(
    engine: EngineView,
    claims: JoinClaimsView,
    peer: PeerView,
    answer: Seq<char>,
) -> EngineView {
    let open = opened_room(engine, claims.room, claims.call_id);
    let r = open.room_index(claims.room)->0;
    let stale = peers_of_user(open.rooms[r].room.peers, claims.sub);
    seated(all_retired(open, r, stale), r, peer, claims.call_id, answer)
}

/// There is no seat left in a room for a user. A seat the user has there already is
/// one it can take again.
pub open spec fn is_full(engine: EngineView, name: Seq<char>, user_id: Seq<char>) -> bool {
    match engine.room_index(name) {
        Some(r) => {
            let peers = engine.rooms[r].room.peers;
            peers.len() - peers_of_user(peers, user_id).len() >= engine.max_room_peers
        },
        None => false,
    }
}

/// The state after an id has been given away.
pub open spec fn numbered(engine: EngineView) -> EngineView {
    EngineView { next_peer: (engine.next_peer + 1) as u64, ..engine }
}

/// What a join comes to once its session has answered the offer, or refused.
pub open spec fn answered(
    before: EngineView,
    after: EngineView,
    claims: JoinClaimsView,
    link: Transport,
    answer: Option<Seq<char>>,
    reply: JoinReplyView,
) -> bool {
    let id = PeerId(before.next_peer);
    match answer {
        None => {
            &&& reply == JoinReplyView::Refused(
                error_frame("bad_offer"@, "Session description refused."@),
            )
            &&& after == numbered(before)
        },
        Some(answer) => {
            let peer = fresh_peer(id, link, claims.sub, claims.name, claims.avatar_url);
            &&& link.alive()
            &&& reply == JoinReplyView::Admitted(id)
            &&& after == admitted(numbered(before), claims, peer, answer)
        },
    }
}

/// What became of the session of a newcomer: our address was announced to it, and
/// it answered the offer if it takes it.
pub open spec fn is_introduced(
    engine: EngineView,
    link: Transport,
    offer: SdpOffer,
    answer: Option<Seq<char>>,
) -> bool {
    exists|start: Instant, new: Transport, fresh: Transport| #[trigger]
        introduces(engine, start, new, fresh, link, offer, answer)
}

/// A new session, made as the configuration has it, came to this: our address was
/// announced to it, and then it was shown the offer.
pub open spec fn introduces(
    engine: EngineView,
    start: Instant,
    new: Transport,
    fresh: Transport,
    link: Transport,
    offer: SdpOffer,
    answer: Option<Seq<char>>,
) -> bool {
    &&& new.is_new(engine.ice_lite, start)
    &&& new.alive()
    &&& new.asked() == Seq::<Asked>::empty()
    &&& announces(new, fresh, engine.advertised, "udp"@)
    &&& is_offered(fresh, link, offer, answer)
}

/// What a join does. It is refused where the room is full or the offer is not
/// one, and nothing changes then; otherwise a session decides.
pub open spec fn joins(
    before: EngineView,
    after: EngineView,
    claims: JoinClaimsView,
    sdp: Seq<char>,
    reply: JoinReplyView,
) -> bool {
    if is_full(before, claims.room, claims.sub) {
        &&& reply == JoinReplyView::Refused(error_frame("room_full"@, "This call is full."@))
        &&& after == before
    } else {
        match offer_of(sdp) {
            None => {
                &&& reply == JoinReplyView::Refused(
                    error_frame("bad_offer"@, "Malformed session description."@),
                )
                &&& after == before
            },
            Some(offer) => session_decides(before, after, claims, offer, reply),
        }
    }
}

/// What a join comes to, for some session of the newcomer's own.
pub open spec fn session_decides(
    before: EngineView,
    after: EngineView,
    claims: JoinClaimsView,
    offer: SdpOffer,
    reply: JoinReplyView,
) -> bool {
    exists|link: Transport, answer: Option<Seq<char>>|
        {
            &&& is_introduced(before, link, offer, answer)
            &&& #[trigger] answered(before, after, claims, link, answer, reply)
        }
}

/// The state after a peer has left. Those who stay are told; the host
/// application is told if it knew of the peer, and that the room is finished if
/// the peer was its last.
pub open spec fn dropped(engine: EngineView, id: PeerId) -> EngineView {
    if !engine.peer_rooms.contains_key(id.0) {
        engine
    } else {
        let name = engine.peer_rooms[id.0];
        let cut = EngineView { peer_rooms: engine.peer_rooms.remove(id.0), ..engine };
        match engine.room_index(name) {
            None => cut,
            Some(r) => {
                let room = engine.rooms[r].room;
                match first_where(room.peers, has_id(id)) {
                    None => cut,
                    Some(p) => departed(cut, r, name, id, room.peers[p]),
                }
            },
        }
    }
}

/// The state after a peer has left a room that it was in.
pub open spec fn departed(
    engine: EngineView,
    r: int,
    name: Seq<char>,
    id: PeerId,
    gone: PeerView,
) -> EngineView {
    let room = engine.rooms[r].room;
    let rest = without_peer(room, id);
    let told = EngineView {
        outbox: engine.outbox + farewell(room, id),
        reports: if gone.reported {
            engine.reports.push(participant_report("participant_left"@, name, gone.user_id))
        } else {
            engine.reports
        },
        ..engine
    };
    if rest.peers.len() == 0 {
        EngineView {
            rooms: told.rooms.remove(r),
            reports: told.reports.push(room_report("room_finished"@, name)),
            ..told
        }
    } else {
        told.with_room(r, rest)
    }
}

pub open spec fn all_dropped(engine: EngineView, ids: Seq<PeerId>) -> EngineView
    decreases ids.len(),
{
    if ids.len() == 0 {
        engine
    } else {
        dropped(all_dropped(engine, ids.drop_last()), ids.last())
    }
}

/// A peer to be given up: its session has ended, or has been cut off for too
/// long to come back.
pub open spec fn is_dead(peer: PeerView, now: u64) -> bool {
    !peer.link.alive() || peer.is_abandoned(now)
}

pub open spec fn dead_among(peers: Seq<PeerView>, now: u64) -> Seq<PeerId>
    decreases peers.len(),
{
    if peers.len() == 0 {
        Seq::empty()
    } else {
        let rest = dead_among(peers.drop_last(), now);
        if is_dead(peers.last(), now) {
            rest.push(peers.last().id)
        } else {
            rest
        }
    }
}

/// The peers to be given up, in all rooms.
pub open spec fn dead_in(rooms: Seq<NamedRoom>, now: u64) -> Seq<PeerId>
    decreases rooms.len(),
{
    if rooms.len() == 0 {
        Seq::empty()
    } else {
        dead_in(rooms.drop_last(), now) + dead_among(rooms.last().room.peers, now)
    }
}

/// The state after the dead were swept out.
pub open spec fn reaped(engine: EngineView, now: u64) -> EngineView {
    all_dropped(engine, dead_in(engine.rooms, now))
}

impl Room {
    /// The peers that belong to a user, by id.
    fn ids_of_user(&self, user_id: &str) -> (ids: Vec<PeerId>)
        ensures
            ids@ == peers_of_user(self@.peers, user_id@),
    {
        let mut ids: Vec<PeerId> = Vec::new();
        let ghost all = self@.peers;
        let mut i: usize = 0;
        assert(ids@ =~= peers_of_user(all.take(0), user_id@));
        while i < self.peers.len()
            invariant
                i <= self.peers.len(),
                all == self@.peers,
                ids@ == peers_of_user(all.take(i as int), user_id@),
            decreases self.peers.len() - i,
        {
            let peer = &self.peers[i];
            proof {
                assert(all.take(i + 1).drop_last() =~= all.take(i as int));
                assert(all.take(i + 1).last() == peer@);
            }
            if same_text(peer.user_id.as_str(), user_id) {
                ids.push(peer.id);
            }
            i = i + 1;
        }
        assert(all.take(i as int) =~= all);
        ids
    }
}

impl Engine {
    /// Finds a room, or makes it.
    fn open_room(&mut self, name: &str, call_id: &str) -> (r: usize)
        ensures
            final(self)@ == opened_room(old(self)@, name@, call_id@),
            r < final(self)@.rooms.len(),
            final(self)@.room_index(name@) == Some(r as int),
            final(self).reports == old(self).reports,
    {
        match self.find_room(name) {
            Some(r) => r,
            None => {
                let ghost before = self@;
                let r: usize = self.rooms.len();
                self.rooms.push(
                    RoomEntry { name: name.to_string(), room: Room::new(call_id.to_string()) },
                );
                proof {
                    let entry = NamedRoom { name: name@, room: empty_room(call_id@) };
                    assert(self@.rooms =~= before.rooms.push(entry));
                    first_where_is_first(before.rooms, is_named(name@));
                    first_where_found(self@.rooms, is_named(name@), r as int);
                }
                r
            },
        }
    }

    /// Takes a peer out of a room for a newer one of the same user.
    fn retire(&mut self, r: usize, old_id: PeerId)
        requires
            r < old(self)@.rooms.len(),
        ensures
            final(self)@ == retired(old(self)@, r as int, old_id),
            final(self).reports == old(self).reports,
    {
        let ghost before = self@;
        match self.rooms[r].room.remove(old_id, &mut self.outbox) {
            Some(mut previous) => {
                previous.link.disconnect();
                post(
                    &mut self.outbox,
                    old_id,
                    ServerMsg::error("replaced", "Joined from another tab."),
                );
                proof {
                    let told = before.outbox + farewell(before.rooms[r as int].room, old_id);
                    let last = Post { to: old_id, message: replaced_frame() };
                    assert(told.push(last) =~= told + seq![last]);
                }
            },
            None => {
                assert(before.outbox + Seq::<Post>::empty() =~= before.outbox);
            },
        }
        self.forget(old_id);
        assert(self@.rooms =~= retired(before, r as int, old_id).rooms);
    }

    /// Gives a peer its seat in a room.
    fn seat(&mut self, r: usize, peer: Peer, call_id: &str, answer: String)
        requires
            r < old(self)@.rooms.len(),
        ensures
            final(self)@ == seated(old(self)@, r as int, peer@, call_id@, answer@),
            final(self).reports == old(self).reports,
    {
        let ghost before = self@;
        let ghost view = peer@;
        let id = peer.id;
        let info = peer.info();
        let roster = self.rooms[r].room.roster();
        peer.send(
            ServerMsg::Joined {
                peer_id: id.as_string(),
                call_id: call_id.to_string(),
                sdp: answer,
                peers: roster,
            },
            &mut self.outbox,
        );
        self.rooms[r].room.broadcast(ServerMsg::PeerJoined { peer: info }, &mut self.outbox);
        self.rooms[r].room.peers.push(peer);
        proof {
            assert(self@.rooms[r as int].room.peers =~= before.rooms[r as int].room.peers.push(view));
        }
        self.rooms[r].room.subscribe_to_existing(id);
        let name = self.rooms[r].name.clone();
        self.remember(id, name);
        assert(self@.rooms =~= seated(before, r as int, view, call_id@, answer@).rooms);
    }

    /// Lets a peer in whose session has answered the offer.
    pub fn let_in(&mut self, claims: &JoinClaims, peer: Peer, answer: String)
        ensures
            final(self)@ == admitted(old(self)@, claims@, peer@, answer@),
            final(self).reports == old(self).reports,
    {
        let r = self.open_room(claims.room.as_str(), claims.call_id.as_str());
        let ghost open = self@;
        // A user reconnecting is a new peer. Retire the old one WITHOUT
        // reporting a departure.
        let stale = self.rooms[r].room.ids_of_user(claims.sub.as_str());
        let mut i: usize = 0;
        assert(stale@.take(0) =~= Seq::empty());
        while i < stale.len()
            invariant
                i <= stale.len(),
                r < open.rooms.len(),
                self@.rooms.len() == open.rooms.len(),
                self@ == all_retired(open, r as int, stale@.take(i as int)),
                self.reports == old(self).reports,
            decreases stale.len() - i,
        {
            assert(stale@.take(i + 1).drop_last() =~= stale@.take(i as int));
            self.retire(r, stale[i]);
            i = i + 1;
        }
        assert(stale@.take(i as int) =~= stale@);
        self.seat(r, peer, claims.call_id.as_str(), answer);
    }

    /// Decides on a join.
    pub fn handle_join(&mut self, request: JoinRequest, now: Now) -> (reply: JoinReply)
        requires
            old(self)@.next_peer < u64::MAX,
        ensures
            joins(old(self)@, final(self)@, request.claims@, request.sdp@, reply@),
            final(self).reports == old(self).reports,
    {
        let ghost before = self@;
        let full = match self.find_room(request.claims.room.as_str()) {
            Some(r) => {
                let own = self.rooms[r].room.ids_of_user(request.claims.sub.as_str());
                proof {
                    a_user_has_no_more_peers_than_there_are(
                        before.rooms[r as int].room.peers,
                        request.claims.sub@,
                    );
                }
                self.rooms[r].room.peers.len() - own.len() >= self.max_room_peers
            },
            None => false,
        };
        if full {
            return JoinReply::Refused(ServerMsg::error("room_full", "This call is full."));
        }
        let offer = match parse_offer(request.sdp.as_str()) {
            Some(offer) => offer,
            None => {
                return JoinReply::Refused(
                    ServerMsg::error("bad_offer", "Malformed session description."),
                );
            },
        };
        let ghost parsed = offer;
        let id = PeerId(self.next_peer);
        self.next_peer = self.next_peer + 1;
        // One shared UDP port for every room, announced as the box's own public
        // address. A browser needs a routable candidate; 127.0.0.1 is refused.
        let mut link = Transport::new(self.ice_lite, now);
        let ghost new = link;
        link.announce(self.advertised, "udp");
        let mut peer = Peer::new(
            id,
            link,
            request.claims.sub.clone(),
            request.claims.name.clone(),
            request.claims.avatar_url.clone(),
        );
        let ghost fresh = peer@.link;
        let answer = peer.accept_offer(offer);
        let ghost settled = peer@.link;
        let ghost given = text_of(answer);
        assert(introduces(before, now.instant, new, fresh, settled, parsed, given));
        // No arrival is reported yet. A socket that never completes ICE never
        // carried media, and telling the host application otherwise would start
        // a call clock for a participant who never showed up.
        let reply = match answer {
            Some(answer) => {
                self.let_in(&request.claims, peer, answer);
                JoinReply::Admitted(id)
            },
            None => JoinReply::Refused(
                ServerMsg::error("bad_offer", "Session description refused."),
            ),
        };
        assert(answered(before, self@, request.claims@, settled, given, reply@));
        assert(session_decides(before, self@, request.claims@, parsed, reply@));
        reply
    }

    /// Removes a peer and, when that empties the room, tears the room down.
    pub fn drop_peer(&mut self, id: PeerId)
        ensures
            final(self)@ == dropped(old(self)@, id),
            grows_afresh(old(self).reports@, final(self).reports@),
    {
        let ghost before = self@;
        let name = match self.forget(id) {
            Some(name) => name,
            None => {
                assert(before.peer_rooms.remove(id.0) =~= before.peer_rooms);
                return;
            },
        };
        let ghost cut = self@;
        let r = match self.find_room(name.as_str()) {
            Some(r) => r,
            None => {
                return;
            },
        };
        let ghost room = cut.rooms[r as int].room;
        let mut gone = match self.rooms[r].room.remove(id, &mut self.outbox) {
            Some(gone) => gone,
            None => {
                assert(self@.rooms =~= cut.rooms);
                assert(self@.outbox =~= cut.outbox);
                return;
            },
        };
        let ghost left = gone@;
        gone.link.disconnect();
        assert(self@.rooms =~= cut.with_room(r as int, without_peer(room, id)).rooms);
        let emptied = self.rooms[r].room.is_empty();
        if gone.reported {
            self.report(
                ReportEvent::new("participant_left", name.as_str()).identity(gone.user_id.as_str()),
            );
        }
        if emptied {
            let ghost held = self@.rooms;
            let ended = self.rooms.remove(r);
            assert(self@.rooms =~= held.remove(r as int));
            assert(held.remove(r as int) =~= cut.rooms.remove(r as int));
            self.report(ReportEvent::new("room_finished", name.as_str()));
        }
        assert(self@ =~= departed(cut, r as int, name@, id, left));
    }

    /// The peers to be given up, in all rooms.
    fn dead(&self, now: Now) -> (ids: Vec<PeerId>)
        ensures
            ids@ == dead_in(self@.rooms, now.nanos),
    {
        let mut ids: Vec<PeerId> = Vec::new();
        let ghost rooms = self@.rooms;
        let mut r: usize = 0;
        assert(ids@ =~= dead_in(rooms.take(0), now.nanos));
        while r < self.rooms.len()
            invariant
                r <= self.rooms.len(),
                rooms == self@.rooms,
                ids@ == dead_in(rooms.take(r as int), now.nanos),
            decreases self.rooms.len() - r,
        {
            let room = &self.rooms[r].room;
            let ghost held = ids@;
            let ghost all = room@.peers;
            proof {
                assert(rooms.take(r + 1).drop_last() =~= rooms.take(r as int));
                assert(rooms.take(r + 1).last().room == room@);
                assert(held + dead_among(all.take(0), now.nanos) =~= held);
            }
            let mut i: usize = 0;
            while i < room.peers.len()
                invariant
                    i <= room.peers.len(),
                    all == room@.peers,
                    ids@ == held + dead_among(all.take(i as int), now.nanos),
                decreases room.peers.len() - i,
            {
                let peer = &room.peers[i];
                let ghost so_far = dead_among(all.take(i as int), now.nanos);
                proof {
                    assert(all.take(i + 1).drop_last() =~= all.take(i as int));
                    assert(all.take(i + 1).last() == peer@);
                }
                if !peer.link.is_alive() || peer.is_abandoned(now) {
                    ids.push(peer.id);
                    assert((held + so_far).push(peer.id) =~= held + so_far.push(peer.id));
                }
                i = i + 1;
            }
            assert(all.take(i as int) =~= all);
            r = r + 1;
        }
        assert(rooms.take(r as int) =~= rooms);
        ids
    }

    /// Sweeps peers whose transport died without a clean leave (a closed
    /// laptop, a dropped network, a killed tab) and those whose ICE has stayed
    /// disconnected past the point of recovering.
    pub fn reap(&mut self, now: Now)
        ensures
            final(self)@ == reaped(old(self)@, now.nanos),
            grows_afresh(old(self).reports@, final(self).reports@),
    {
        let dead = self.dead(now);
        let ghost before = self@;
        let mut i: usize = 0;
        assert(dead@.take(0) =~= Seq::empty());
        while i < dead.len()
            invariant
                i <= dead.len(),
                self@ == all_dropped(before, dead@.take(i as int)),
                grows_afresh(old(self).reports@, self.reports@),
            decreases dead.len() - i,
        {
            assert(dead@.take(i + 1).drop_last() =~= dead@.take(i as int));
            let ghost queued = self.reports@;
            self.drop_peer(dead[i]);
            proof {
                growth_adds_up(old(self).reports@, queued, self.reports@);
            }
            i = i + 1;
        }
        assert(dead@.take(i as int) =~= dead@);
    }
}

} // verus!
