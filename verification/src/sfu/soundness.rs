//! What every operation of the media loop keeps, as to who is where.
use vstd::prelude::*;

use crate::auth::JoinClaimsView;
use crate::find::{first_where, first_where_found, first_where_is_first};
use crate::net::Endpoint;
use crate::sfu::command::JoinReplyView;
use crate::sfu::dispatch::{answers, restated, seat_of, state_set, with_peer};
use crate::sfu::engine::{is_idle, is_named, EngineView, NamedRoom};
use crate::sfu::engine_io::{
    connections_reported, holds_taker, reads, room_ticks, speaking_ticked, taker_of, takes_input,
    ticks,
};
use crate::sfu::join::{
    admitted, all_dropped, all_retired, answered, dead_in, dropped, empty_room, is_full,
    is_introduced, joins, numbered, opened_room, peers_of_user, reaped, retired, seated,
};
use crate::sfu::peer::{fresh_peer, is_answered, is_fed, AnswerError, PeerView};
use crate::sfu::room::{has_id, subscribed, without_peer, RoomView};
use crate::sfu::tracks::PeerId;
use crate::sfu::transport::Transport;
use crate::sfu::webrtc::{answer_of, is_traffic, offer_of, InputView};

verus! {

/// No two rooms go by one name.
pub open spec fn names_differ(rooms: Seq<NamedRoom>) -> bool {
    forall|i: int, j: int|
        0 <= i < j < rooms.len() ==> (#[trigger] rooms[i]).name != (#[trigger] rooms[j]).name
}

/// No two peers of a room share an id.
pub open spec fn ids_differ(peers: Seq<PeerView>) -> bool {
    forall|i: int, j: int|
        0 <= i < j < peers.len() ==> (#[trigger] peers[i]).id != (#[trigger] peers[j]).id
}

/// No two peers of a room belong to one user.
pub open spec fn users_differ(peers: Seq<PeerView>) -> bool {
    forall|i: int, j: int|
        0 <= i < j < peers.len() ==> (#[trigger] peers[i]).user_id != (#[trigger] peers[j]).user_id
}

/// A room holds somebody, nobody twice, and not more than the limit. A limit of
/// none at all still lets the first one in.
pub open spec fn is_proper(room: RoomView, max: usize) -> bool {
    &&& room.peers.len() > 0
    &&& room.peers.len() <= max || room.peers.len() == 1
    &&& ids_differ(room.peers)
    &&& users_differ(room.peers)
}

pub open spec fn rooms_are_proper(engine: EngineView) -> bool {
    forall|r: int|
        0 <= r < engine.rooms.len() ==> is_proper(
            (#[trigger] engine.rooms[r]).room,
            engine.max_room_peers,
        )
}

/// It is on record which room a peer is in, and its id was given out.
pub open spec fn is_on_record(engine: EngineView, peer: PeerView, name: Seq<char>) -> bool {
    &&& engine.peer_rooms.contains_key(peer.id.0)
    &&& engine.peer_rooms[peer.id.0] == name
    &&& peer.id.0 < engine.next_peer
}

pub open spec fn everyone_is_on_record(engine: EngineView) -> bool {
    forall|r: int, p: int|
        0 <= r < engine.rooms.len() && 0 <= p < engine.rooms[r].room.peers.len() ==> is_on_record(
            engine,
            #[trigger] engine.rooms[r].room.peers[p],
            engine.rooms[r].name,
        )
}

/// A peer sits at a place in a room.
pub open spec fn sits(engine: EngineView, id: u64, r: int, p: int) -> bool {
    &&& 0 <= r < engine.rooms.len()
    &&& 0 <= p < engine.rooms[r].room.peers.len()
    &&& engine.rooms[r].room.peers[p].id.0 == id
}

pub open spec fn is_seated(engine: EngineView, id: u64) -> bool {
    exists|r: int, p: int| sits(engine, id, r, p)
}

/// Who is on record is in a room.
pub open spec fn record_holds(engine: EngineView) -> bool {
    forall|id: u64| #[trigger] engine.peer_rooms.contains_key(id) ==> is_seated(engine, id)
}

/// The state makes sense, as to who is where: rooms are told apart by name,
/// none is empty or overfull, nobody is in two places, and the record of who is
/// where is right.
pub open spec fn is_sound(engine: EngineView) -> bool {
    &&& names_differ(engine.rooms)
    &&& rooms_are_proper(engine)
    &&& everyone_is_on_record(engine)
    &&& record_holds(engine)
}

/// The media loop begins in a state that makes sense.
pub proof fn beginning_is_sound(engine: EngineView)
    requires
        is_idle(engine),
    ensures
        is_sound(engine),
{
}

/// A peer is where the record says, and nowhere else.
pub proof fn seat_is_unique(engine: EngineView, id: u64, r: int, p: int)
    requires
        is_sound(engine),
        sits(engine, id, r, p),
    ensures
        seat_of(engine, PeerId(id)) == Some((r, p)),
        engine.room_index(engine.rooms[r].name) == Some(r),
        forall|r2: int, p2: int| #[trigger] sits(engine, id, r2, p2) ==> r2 == r && p2 == p,
{
    let peers = engine.rooms[r].room.peers;
    let name = engine.rooms[r].name;
    assert(is_on_record(engine, peers[p], name));
    assert forall|j: int| 0 <= j < r implies !is_named(name)(#[trigger] engine.rooms[j]) by {}
    first_where_found(engine.rooms, is_named(name), r);
    assert(is_proper(engine.rooms[r].room, engine.max_room_peers));
    assert forall|j: int| 0 <= j < p implies !has_id(PeerId(id))(#[trigger] peers[j]) by {}
    first_where_found(peers, has_id(PeerId(id)), p);
    assert forall|r2: int, p2: int| #[trigger] sits(engine, id, r2, p2) implies r2 == r && p2 == p by {
        let other = engine.rooms[r2].room.peers[p2];
        assert(is_on_record(engine, other, engine.rooms[r2].name));
        assert(engine.rooms[r2].name == name);
        assert(r2 == r);
    }
}

/// Who is on record has a seat.
pub proof fn on_record_is_seated(engine: EngineView, id: PeerId)
    requires
        is_sound(engine),
    ensures
        engine.peer_rooms.contains_key(id.0) <==> seat_of(engine, id) is Some,
        seat_of(engine, id) matches Some((r, p)) ==> sits(engine, id.0, r, p) && engine.rooms[r].name
            == engine.peer_rooms[id.0],
{
    if engine.peer_rooms.contains_key(id.0) {
        assert(is_seated(engine, id.0));
        let (r, p) = choose|r: int, p: int| sits(engine, id.0, r, p);
        seat_is_unique(engine, id.0, r, p);
        assert(is_on_record(engine, engine.rooms[r].room.peers[p], engine.rooms[r].name));
    }
}

/// The same people in the same places.
pub open spec fn same_people(before: EngineView, after: EngineView) -> bool {
    &&& after.max_room_peers == before.max_room_peers
    &&& after.peer_rooms == before.peer_rooms
    &&& after.next_peer == before.next_peer
    &&& after.rooms.len() == before.rooms.len()
    &&& forall|r: int|
        0 <= r < before.rooms.len() ==> same_room(before.rooms[r], #[trigger] after.rooms[r])
}

pub open spec fn same_room(before: NamedRoom, after: NamedRoom) -> bool {
    &&& after.name == before.name
    &&& after.room.peers.len() == before.room.peers.len()
    &&& forall|p: int|
        0 <= p < before.room.peers.len() ==> same_person(
            before.room.peers[p],
            #[trigger] after.room.peers[p],
        )
}

pub open spec fn same_person(before: PeerView, after: PeerView) -> bool {
    after.id == before.id && after.user_id == before.user_id
}

/// Soundness is a matter of who is where.
pub proof fn same_people_stay_sound(before: EngineView, after: EngineView)
    requires
        is_sound(before),
        same_people(before, after),
    ensures
        is_sound(after),
{
    assert forall|r: int| 0 <= r < after.rooms.len() implies is_proper(
        (#[trigger] after.rooms[r]).room,
        after.max_room_peers,
    ) by {
        assert(is_proper(before.rooms[r].room, before.max_room_peers));
        assert(same_room(before.rooms[r], after.rooms[r]));
        let old_peers = before.rooms[r].room.peers;
        let new_peers = after.rooms[r].room.peers;
        assert forall|i: int, j: int| 0 <= i < j < new_peers.len() implies (
        #[trigger] new_peers[i]).id != (#[trigger] new_peers[j]).id && new_peers[i].user_id
            != new_peers[j].user_id by {
            assert(same_person(old_peers[i], new_peers[i]));
            assert(same_person(old_peers[j], new_peers[j]));
        }
    }
    assert forall|i: int, j: int| 0 <= i < j < after.rooms.len() implies (#[trigger] after.rooms[i]).name
        != (#[trigger] after.rooms[j]).name by {
        assert(same_room(before.rooms[i], after.rooms[i]));
        assert(same_room(before.rooms[j], after.rooms[j]));
    }
    assert forall|r: int, p: int|
        0 <= r < after.rooms.len() && 0 <= p < after.rooms[r].room.peers.len() implies is_on_record(
        after,
        #[trigger] after.rooms[r].room.peers[p],
        after.rooms[r].name,
    ) by {
        assert(same_room(before.rooms[r], after.rooms[r]));
        assert(same_person(before.rooms[r].room.peers[p], after.rooms[r].room.peers[p]));
        assert(is_on_record(before, before.rooms[r].room.peers[p], before.rooms[r].name));
    }
    assert forall|id: u64| #[trigger] after.peer_rooms.contains_key(id) implies is_seated(after, id) by {
        assert(before.peer_rooms.contains_key(id));
        let (r, p) = choose|r: int, p: int| sits(before, id, r, p);
        assert(same_room(before.rooms[r], after.rooms[r]));
        assert(same_person(before.rooms[r].room.peers[p], after.rooms[r].room.peers[p]));
        assert(sits(after, id, r, p));
    }
}

/// Reporting arrivals keeps the state sound.
pub proof fn reporting_keeps_sound(engine: EngineView)
    requires
        is_sound(engine),
    ensures
        is_sound(connections_reported(engine)),
{
    same_people_stay_sound(engine, connections_reported(engine));
}

/// Looking at the speakers keeps the state sound.
pub proof fn speaking_keeps_sound(engine: EngineView, now: u64)
    requires
        is_sound(engine),
    ensures
        is_sound(speaking_ticked(engine, now)),
{
    same_people_stay_sound(engine, speaking_ticked(engine, now));
}

/// Replacing a peer by one that is the same person keeps the people.
pub proof fn with_peer_is_same_people(engine: EngineView, r: int, p: int, peer: PeerView)
    requires
        0 <= r < engine.rooms.len(),
        0 <= p < engine.rooms[r].room.peers.len(),
        same_person(engine.rooms[r].room.peers[p], peer),
    ensures
        same_people(engine, with_peer(engine, r, p, peer)),
{
}

/// Saying something of oneself keeps the state sound.
pub proof fn state_keeps_sound(engine: EngineView, id: PeerId, muted: Option<bool>, screen: Option<bool>)
    requires
        is_sound(engine),
    ensures
        is_sound(state_set(engine, id, muted, screen)),
{
    on_record_is_seated(engine, id);
    if let Some((r, p)) = seat_of(engine, id) {
        let peer = restated(engine.rooms[r].room.peers[p], muted, screen);
        with_peer_is_same_people(engine, r, p, peer);
        same_people_stay_sound(engine, state_set(engine, id, muted, screen));
    }
}

/// An answer keeps the state sound.
pub proof fn answers_keep_sound(before: EngineView, after: EngineView, id: PeerId, sdp: Seq<char>)
    requires
        is_sound(before),
        answers(before, after, id, sdp),
    ensures
        is_sound(after),
{
    on_record_is_seated(before, id);
    if let Some((r, p)) = seat_of(before, id) {
        if let Some(answer) = answer_of(sdp) {
            let peer = after.rooms[r].room.peers[p];
            let result = choose|result: Result<(), AnswerError>| #[trigger]
                is_answered(before.rooms[r].room.peers[p], peer, answer, result);
            with_peer_is_same_people(before, r, p, peer);
            same_people_stay_sound(before, after);
        }
    }
}

/// A datagram keeps the state sound.
pub proof fn reading_keeps_sound(
    before: EngineView,
    after: EngineView,
    source: Endpoint,
    bytes: Seq<u8>,
)
    requires
        is_sound(before),
        reads(before, after, source, bytes),
    ensures
        is_sound(after),
{
    let input = InputView::Datagram { source, destination: before.advertised, bytes };
    if is_traffic(bytes) {
        if let Some((r, p)) = taker_of(before.rooms, input) {
            first_where_is_first(before.rooms, holds_taker(input));
            first_where_is_first(before.rooms[r].room.peers, takes_input(input));
            with_peer_is_same_people(before, r, p, after.rooms[r].room.peers[p]);
            same_people_stay_sound(before, after);
        }
    }
}

/// The passing of time keeps the state sound.
pub proof fn ticking_keeps_sound(before: EngineView, after: EngineView)
    requires
        is_sound(before),
        ticks(before, after),
    ensures
        is_sound(after),
{
    assert forall|r: int| 0 <= r < before.rooms.len() implies same_room(
        before.rooms[r],
        #[trigger] after.rooms[r],
    ) by {
        assert(room_ticks(before.rooms[r].room, after.rooms[r].room));
        assert forall|p: int| 0 <= p < before.rooms[r].room.peers.len() implies same_person(
            before.rooms[r].room.peers[p],
            #[trigger] after.rooms[r].room.peers[p],
        ) by {
            assert(is_fed(
                before.rooms[r].room.peers[p],
                after.rooms[r].room.peers[p],
                InputView::Tick,
            ));
        }
    }
    same_people_stay_sound(before, after);
}

/// A list of peers stays free of doubles when one is taken out.
proof fn removal_keeps_differences(peers: Seq<PeerView>, p: int)
    requires
        0 <= p < peers.len(),
        ids_differ(peers),
        users_differ(peers),
    ensures
        ids_differ(peers.remove(p)),
        users_differ(peers.remove(p)),
{
    let rest = peers.remove(p);
    assert forall|i: int, j: int| 0 <= i < j < rest.len() implies (#[trigger] rest[i]).id != (
    #[trigger] rest[j]).id && rest[i].user_id != rest[j].user_id by {
        let a = if i < p { i } else { i + 1 };
        let b = if j < p { j } else { j + 1 };
        assert(rest[i] == peers[a]);
        assert(rest[j] == peers[b]);
    }
}

/// Sound, but for one room that may be empty or overfull.
pub open spec fn is_sound_but_for(engine: EngineView, r: int) -> bool {
    &&& 0 <= r < engine.rooms.len()
    &&& names_differ(engine.rooms)
    &&& forall|i: int|
        0 <= i < engine.rooms.len() && i != r ==> is_proper(
            (#[trigger] engine.rooms[i]).room,
            engine.max_room_peers,
        )
    &&& ids_differ(engine.rooms[r].room.peers)
    &&& users_differ(engine.rooms[r].room.peers)
    &&& everyone_is_on_record(engine)
    &&& record_holds(engine)
}

/// Taking a peer out of a room and off the record leaves the rest in order.
proof fn leaving_keeps_order(engine: EngineView, r: int, p: int, after: EngineView)
    requires
        is_sound_but_for(engine, r),
        0 <= p < engine.rooms[r].room.peers.len(),
        after.max_room_peers == engine.max_room_peers,
        after.next_peer == engine.next_peer,
        after.peer_rooms == engine.peer_rooms.remove(engine.rooms[r].room.peers[p].id.0),
        after.rooms == engine.rooms.update(
            r,
            NamedRoom {
                name: engine.rooms[r].name,
                room: RoomView {
                    peers: engine.rooms[r].room.peers.remove(p),
                    ..after.rooms[r].room
                },
            },
        ),
    ensures
        is_sound_but_for(after, r),
{
    let peers = engine.rooms[r].room.peers;
    let rest = peers.remove(p);
    let id = peers[p].id.0;
    removal_keeps_differences(peers, p);
    assert(after.rooms[r].room.peers == rest);
    assert forall|i: int| 0 <= i < after.rooms.len() && i != r implies is_proper(
        (#[trigger] after.rooms[i]).room,
        after.max_room_peers,
    ) by {
        assert(after.rooms[i] == engine.rooms[i]);
    }
    assert forall|i: int, j: int| 0 <= i < j < after.rooms.len() implies (#[trigger] after.rooms[i]).name
        != (#[trigger] after.rooms[j]).name by {
        assert(after.rooms[i].name == engine.rooms[i].name);
        assert(after.rooms[j].name == engine.rooms[j].name);
    }
    assert(is_on_record(engine, peers[p], engine.rooms[r].name));
    assert forall|r2: int, p2: int|
        0 <= r2 < after.rooms.len() && 0 <= p2 < after.rooms[r2].room.peers.len() implies is_on_record(
        after,
        #[trigger] after.rooms[r2].room.peers[p2],
        after.rooms[r2].name,
    ) by {
        if r2 == r {
            let a = if p2 < p { p2 } else { p2 + 1 };
            assert(rest[p2] == peers[a]);
            assert(is_on_record(engine, engine.rooms[r].room.peers[a], engine.rooms[r].name));
            assert(peers[a].id != peers[p].id);
        } else {
            assert(after.rooms[r2] == engine.rooms[r2]);
            assert(is_on_record(engine, engine.rooms[r2].room.peers[p2], engine.rooms[r2].name));
            if r2 < r {
                assert(engine.rooms[r2].name != engine.rooms[r].name);
            } else {
                assert(engine.rooms[r].name != engine.rooms[r2].name);
            }
        }
    }
    assert forall|k: u64| #[trigger] after.peer_rooms.contains_key(k) implies is_seated(after, k) by {
        assert(engine.peer_rooms.contains_key(k));
        let (r1, p1) = choose|r1: int, p1: int| sits(engine, k, r1, p1);
        if r1 == r {
            let b = if p1 < p { p1 } else { p1 - 1 };
            assert(rest[b] == peers[p1]);
            assert(sits(after, k, r, b));
        } else {
            assert(after.rooms[r1] == engine.rooms[r1]);
            assert(sits(after, k, r1, p1));
        }
    }
}

/// A room that is empty can go.
proof fn closing_keeps_sound(engine: EngineView, r: int, after: EngineView)
    requires
        is_sound_but_for(engine, r),
        engine.rooms[r].room.peers.len() == 0,
        after.max_room_peers == engine.max_room_peers,
        after.next_peer == engine.next_peer,
        after.peer_rooms == engine.peer_rooms,
        after.rooms == engine.rooms.remove(r),
    ensures
        is_sound(after),
{
    assert forall|i: int| 0 <= i < after.rooms.len() implies is_proper(
        (#[trigger] after.rooms[i]).room,
        after.max_room_peers,
    ) by {
        let a = if i < r { i } else { i + 1 };
        assert(after.rooms[i] == engine.rooms[a]);
    }
    assert forall|i: int, j: int| 0 <= i < j < after.rooms.len() implies (#[trigger] after.rooms[i]).name
        != (#[trigger] after.rooms[j]).name by {
        let a = if i < r { i } else { i + 1 };
        let b = if j < r { j } else { j + 1 };
        assert(after.rooms[i] == engine.rooms[a]);
        assert(after.rooms[j] == engine.rooms[b]);
    }
    assert forall|r2: int, p2: int|
        0 <= r2 < after.rooms.len() && 0 <= p2 < after.rooms[r2].room.peers.len() implies is_on_record(
        after,
        #[trigger] after.rooms[r2].room.peers[p2],
        after.rooms[r2].name,
    ) by {
        let a = if r2 < r { r2 } else { r2 + 1 };
        assert(after.rooms[r2] == engine.rooms[a]);
        assert(is_on_record(engine, engine.rooms[a].room.peers[p2], engine.rooms[a].name));
    }
    assert forall|k: u64| #[trigger] after.peer_rooms.contains_key(k) implies is_seated(after, k) by {
        let (r1, p1) = choose|r1: int, p1: int| sits(engine, k, r1, p1);
        let b = if r1 < r { r1 } else { r1 - 1 };
        assert(after.rooms[b] == engine.rooms[r1]);
        assert(sits(after, k, b, p1));
    }
}

/// A state without the room that was left out of account is sound.
proof fn proper_makes_sound(engine: EngineView, r: int)
    requires
        is_sound_but_for(engine, r),
        is_proper(engine.rooms[r].room, engine.max_room_peers),
    ensures
        is_sound(engine),
{
}

/// A departure keeps the state sound: the room goes with its last peer.
pub proof fn leaving_keeps_sound(engine: EngineView, id: PeerId)
    requires
        is_sound(engine),
    ensures
        is_sound(dropped(engine, id)),
{
    on_record_is_seated(engine, id);
    if let Some((r, p)) = seat_of(engine, id) {
        let room = engine.rooms[r].room;
        let cut = EngineView { peer_rooms: engine.peer_rooms.remove(id.0), ..engine };
        let rest = without_peer(room, id);
        let half = cut.with_room(r, rest);
        let after = dropped(engine, id);
        assert(is_proper(room, engine.max_room_peers));
        assert(room.peers[p].id == id);
        assert(rest.peers == room.peers.remove(p));
        assert(is_sound_but_for(engine, r));
        leaving_keeps_order(engine, r, p, half);
        if rest.peers.len() == 0 {
            assert(after.rooms =~= half.rooms.remove(r));
            closing_keeps_sound(half, r, after);
        } else {
            assert(after.rooms =~= half.rooms);
            proper_makes_sound(half, r);
            same_people_stay_sound(half, after);
        }
    }
}

proof fn leaving_one_after_another_keeps_sound(engine: EngineView, ids: Seq<PeerId>)
    requires
        is_sound(engine),
    ensures
        is_sound(all_dropped(engine, ids)),
    decreases ids.len(),
{
    if ids.len() > 0 {
        leaving_one_after_another_keeps_sound(engine, ids.drop_last());
        leaving_keeps_sound(all_dropped(engine, ids.drop_last()), ids.last());
    }
}

/// Sweeping out the dead keeps the state sound.
pub proof fn reaping_keeps_sound(engine: EngineView, now: u64)
    requires
        is_sound(engine),
    ensures
        is_sound(reaped(engine, now)),
{
    leaving_one_after_another_keeps_sound(engine, dead_in(engine.rooms, now));
}

/// Where users differ, a user has at most one peer.
pub proof fn a_user_has_one_peer(peers: Seq<PeerView>, user: Seq<char>)
    requires
        users_differ(peers),
    ensures
        peers_of_user(peers, user).len() <= 1,
        peers_of_user(peers, user).len() == 0 <==> forall|i: int|
            0 <= i < peers.len() ==> (#[trigger] peers[i]).user_id != user,
        forall|i: int|
            0 <= i < peers.len() && (#[trigger] peers[i]).user_id == user ==> peers_of_user(peers, user)
                == seq![peers[i].id],
    decreases peers.len(),
{
    if peers.len() > 0 {
        let front = peers.drop_last();
        let last = peers.last();
        assert forall|i: int, j: int| 0 <= i < j < front.len() implies (#[trigger] front[i]).user_id
            != (#[trigger] front[j]).user_id by {
            assert(front[i] == peers[i]);
            assert(front[j] == peers[j]);
        }
        a_user_has_one_peer(front, user);
        assert forall|i: int| 0 <= i < front.len() implies #[trigger] front[i] == peers[i] by {}
        let found = peers_of_user(peers, user);
        if last.user_id == user {
            assert forall|i: int| 0 <= i < front.len() implies (#[trigger] front[i]).user_id != user by {
                assert(peers[i].user_id != peers[peers.len() - 1].user_id);
            }
            assert(peers_of_user(front, user) =~= Seq::empty());
            assert(found =~= seq![last.id]);
            assert forall|i: int| 0 <= i < peers.len() && (#[trigger] peers[i]).user_id == user implies found
                == seq![peers[i].id] by {
                if i < front.len() {
                    assert(front[i].user_id != user);
                }
            }
            assert(!(forall|i: int| 0 <= i < peers.len() ==> (#[trigger] peers[i]).user_id != user)) by {
                assert(peers[peers.len() - 1].user_id == user);
            }
        } else {
            assert(found == peers_of_user(front, user));
            assert forall|i: int| 0 <= i < peers.len() && (#[trigger] peers[i]).user_id == user implies found
                == seq![peers[i].id] by {
                assert(front[i].user_id == user);
            }
            if found.len() == 0 {
                assert forall|i: int| 0 <= i < peers.len() implies (#[trigger] peers[i]).user_id != user by {
                    if i < front.len() {
                        assert(front[i].user_id != user);
                    }
                }
            } else {
                let i = choose|i: int| 0 <= i < front.len() && (#[trigger] front[i]).user_id == user;
                assert(peers[i].user_id == user);
            }
        }
    }
}

/// Having a room for the newcomer leaves the others in order.
proof fn opening_keeps_order(engine: EngineView, name: Seq<char>, call_id: Seq<char>) -> (r: int)
    requires
        is_sound(engine),
    ensures
        opened_room(engine, name, call_id).room_index(name) == Some(r),
        is_sound_but_for(opened_room(engine, name, call_id), r),
        opened_room(engine, name, call_id).rooms[r].name == name,
        match engine.room_index(name) {
            Some(at) => at == r && opened_room(engine, name, call_id) == engine,
            None => r == engine.rooms.len() && opened_room(engine, name, call_id).rooms[r].room
                == empty_room(call_id),
        },
{
    let open = opened_room(engine, name, call_id);
    first_where_is_first(engine.rooms, is_named(name));
    match engine.room_index(name) {
        Some(r) => {
            assert(is_proper(engine.rooms[r].room, engine.max_room_peers));
            r
        },
        None => {
            let r = engine.rooms.len() as int;
            assert forall|i: int| 0 <= i < r implies #[trigger] open.rooms[i] == engine.rooms[i] by {}
            assert forall|i: int| 0 <= i < r implies !is_named(name)(#[trigger] open.rooms[i]) by {
                assert(!is_named(name)(engine.rooms[i]));
            }
            first_where_found(open.rooms, is_named(name), r);
            assert forall|i: int, j: int| 0 <= i < j < open.rooms.len() implies (
            #[trigger] open.rooms[i]).name != (#[trigger] open.rooms[j]).name by {
                if j == r {
                    assert(!is_named(name)(engine.rooms[i]));
                }
            }
            assert forall|r2: int, p2: int|
                0 <= r2 < open.rooms.len() && 0 <= p2 < open.rooms[r2].room.peers.len() implies is_on_record(
                open,
                #[trigger] open.rooms[r2].room.peers[p2],
                open.rooms[r2].name,
            ) by {
                assert(is_on_record(engine, engine.rooms[r2].room.peers[p2], engine.rooms[r2].name));
            }
            assert forall|k: u64| #[trigger] open.peer_rooms.contains_key(k) implies is_seated(open, k) by {
                assert(engine.peer_rooms.contains_key(k));
                let (r1, p1) = choose|r1: int, p1: int| sits(engine, k, r1, p1);
                assert(open.rooms[r1] == engine.rooms[r1]);
                assert(sits(open, k, r1, p1));
            }
            r
        },
    }
}

/// Retiring a user's older peer leaves nobody of that user in the room.
proof fn retiring_keeps_order(engine: EngineView, r: int, user: Seq<char>)
    requires
        is_sound_but_for(engine, r),
    ensures
        ({
            let stale = peers_of_user(engine.rooms[r].room.peers, user);
            let after = all_retired(engine, r, stale);
            &&& is_sound_but_for(after, r)
            &&& after.rooms.len() == engine.rooms.len()
            &&& after.rooms[r].name == engine.rooms[r].name
            &&& after.next_peer == engine.next_peer
            &&& after.max_room_peers == engine.max_room_peers
            &&& after.reports == engine.reports
            &&& after.rooms[r].room.peers.len() == engine.rooms[r].room.peers.len() - stale.len()
            &&& forall|i: int|
                0 <= i < after.rooms[r].room.peers.len() ==> (
                #[trigger] after.rooms[r].room.peers[i]).user_id != user
        }),
{
    let peers = engine.rooms[r].room.peers;
    let stale = peers_of_user(peers, user);
    let after = all_retired(engine, r, stale);
    a_user_has_one_peer(peers, user);
    if stale.len() == 0 {
        assert(after == engine);
    } else {
        let p = choose|p: int| 0 <= p < peers.len() && (#[trigger] peers[p]).user_id == user;
        let id = peers[p].id;
        assert(stale == seq![id]);
        assert(stale.drop_last() =~= Seq::empty());
        reveal_with_fuel(all_retired, 2);
        assert(after == retired(engine, r, id));
        assert forall|j: int| 0 <= j < p implies !has_id(id)(#[trigger] peers[j]) by {}
        first_where_found(peers, has_id(id), p);
        let rest = peers.remove(p);
        assert(after.rooms[r].room.peers == rest);
        leaving_keeps_order(engine, r, p, after);
        assert forall|i: int| 0 <= i < rest.len() implies (#[trigger] rest[i]).user_id != user by {
            let a = if i < p { i } else { i + 1 };
            assert(rest[i] == peers[a]);
            if a < p {
                assert(peers[a].user_id != peers[p].user_id);
            } else {
                assert(peers[p].user_id != peers[a].user_id);
            }
        }
    }
}

/// Giving a newcomer its seat makes the room proper again.
proof fn seating_keeps_sound(
    engine: EngineView,
    r: int,
    peer: PeerView,
    call_id: Seq<char>,
    answer: Seq<char>,
)
    requires
        is_sound_but_for(engine, r),
        engine.next_peer > 0,
        peer.id.0 == engine.next_peer - 1,
        forall|r2: int, p2: int|
            0 <= r2 < engine.rooms.len() && 0 <= p2 < engine.rooms[r2].room.peers.len() ==> (
            #[trigger] engine.rooms[r2].room.peers[p2]).id.0 < peer.id.0,
        engine.rooms[r].room.peers.len() == 0 || engine.rooms[r].room.peers.len()
            < engine.max_room_peers,
        forall|i: int|
            0 <= i < engine.rooms[r].room.peers.len() ==> (
            #[trigger] engine.rooms[r].room.peers[i]).user_id != peer.user_id,
    ensures
        is_sound(seated(engine, r, peer, call_id, answer)),
        sits(
            seated(engine, r, peer, call_id, answer),
            peer.id.0,
            r,
            engine.rooms[r].room.peers.len() as int,
        ),
{
    let after = seated(engine, r, peer, call_id, answer);
    let peers = engine.rooms[r].room.peers;
    let pushed = peers.push(peer);
    let last = peers.len() as int;
    let new_peers = subscribed(pushed, peer.id);
    assert forall|j: int| 0 <= j < last implies !has_id(peer.id)(#[trigger] pushed[j]) by {
        assert(pushed[j] == engine.rooms[r].room.peers[j]);
    }
    first_where_found(pushed, has_id(peer.id), last);
    assert(after.rooms[r].room.peers == new_peers);
    assert forall|i: int| 0 <= i < last implies #[trigger] new_peers[i] == peers[i] by {}
    assert(same_person(peer, new_peers[last]));
    assert forall|i: int, j: int| 0 <= i < j < new_peers.len() implies (#[trigger] new_peers[i]).id
        != (#[trigger] new_peers[j]).id && new_peers[i].user_id != new_peers[j].user_id by {
        assert(new_peers[i] == engine.rooms[r].room.peers[i]);
        if j < last {
            assert(new_peers[j] == peers[j]);
        }
    }
    assert(is_proper(after.rooms[r].room, after.max_room_peers));
    assert forall|i: int| 0 <= i < after.rooms.len() && i != r implies is_proper(
        (#[trigger] after.rooms[i]).room,
        after.max_room_peers,
    ) by {
        assert(after.rooms[i] == engine.rooms[i]);
    }
    assert forall|i: int, j: int| 0 <= i < j < after.rooms.len() implies (#[trigger] after.rooms[i]).name
        != (#[trigger] after.rooms[j]).name by {
        assert(after.rooms[i].name == engine.rooms[i].name);
        assert(after.rooms[j].name == engine.rooms[j].name);
    }
    assert forall|r2: int, p2: int|
        0 <= r2 < after.rooms.len() && 0 <= p2 < after.rooms[r2].room.peers.len() implies is_on_record(
        after,
        #[trigger] after.rooms[r2].room.peers[p2],
        after.rooms[r2].name,
    ) by {
        if r2 == r && p2 == last {
        } else if r2 == r {
            assert(new_peers[p2] == peers[p2]);
            assert(is_on_record(engine, engine.rooms[r].room.peers[p2], engine.rooms[r].name));
        } else {
            assert(after.rooms[r2] == engine.rooms[r2]);
            assert(is_on_record(engine, engine.rooms[r2].room.peers[p2], engine.rooms[r2].name));
        }
    }
    assert(sits(after, peer.id.0, r, last));
    assert forall|k: u64| #[trigger] after.peer_rooms.contains_key(k) implies is_seated(after, k) by {
        if k != peer.id.0 {
            assert(engine.peer_rooms.contains_key(k));
            let (r1, p1) = choose|r1: int, p1: int| sits(engine, k, r1, p1);
            if r1 == r {
                assert(new_peers[p1] == peers[p1]);
            } else {
                assert(after.rooms[r1] == engine.rooms[r1]);
            }
            assert(sits(after, k, r1, p1));
        }
    }
}

/// Giving away an id keeps the state sound.
proof fn numbering_keeps_sound(engine: EngineView)
    requires
        is_sound(engine),
        engine.next_peer < u64::MAX,
    ensures
        is_sound(numbered(engine)),
{
    let after = numbered(engine);
    assert forall|r: int, p: int|
        0 <= r < after.rooms.len() && 0 <= p < after.rooms[r].room.peers.len() implies is_on_record(
        after,
        #[trigger] after.rooms[r].room.peers[p],
        after.rooms[r].name,
    ) by {
        assert(is_on_record(engine, engine.rooms[r].room.peers[p], engine.rooms[r].name));
    }
    assert forall|k: u64| #[trigger] after.peer_rooms.contains_key(k) implies is_seated(after, k) by {
        assert(engine.peer_rooms.contains_key(k));
        let (r1, p1) = choose|r1: int, p1: int| sits(engine, k, r1, p1);
        assert(sits(after, k, r1, p1));
    }
    assert forall|r: int| 0 <= r < after.rooms.len() implies is_proper(
        (#[trigger] after.rooms[r]).room,
        after.max_room_peers,
    ) by {
        assert(is_proper(engine.rooms[r].room, engine.max_room_peers));
    }
}

/// Letting a newcomer in keeps the state sound. Afterwards it sits in its room,
/// nobody else of its user does, and the host application has been told nothing.
pub proof fn joining_seats_the_newcomer(
    engine: EngineView,
    claims: JoinClaimsView,
    peer: PeerView,
    answer: Seq<char>,
) -> (seat: (int, int))
    requires
        is_sound(engine),
        engine.next_peer < u64::MAX,
        !is_full(engine, claims.room, claims.sub),
        peer.id == PeerId(engine.next_peer),
        peer.user_id == claims.sub,
    ensures
        ({
            let after = admitted(numbered(engine), claims, peer, answer);
            &&& is_sound(after)
            &&& sits(after, peer.id.0, seat.0, seat.1)
            &&& after.rooms[seat.0].name == claims.room
            &&& after.reports == engine.reports
            &&& forall|p: int|
                0 <= p < after.rooms[seat.0].room.peers.len() && p != seat.1 ==> (
                #[trigger] after.rooms[seat.0].room.peers[p]).user_id != claims.sub
        }),
{
    let start = numbered(engine);
    numbering_keeps_sound(engine);
    let r = opening_keeps_order(start, claims.room, claims.call_id);
    let open = opened_room(start, claims.room, claims.call_id);
    assert forall|r2: int, p2: int|
        0 <= r2 < open.rooms.len() && 0 <= p2 < open.rooms[r2].room.peers.len() implies (
    #[trigger] open.rooms[r2].room.peers[p2]).id.0 < peer.id.0 by {
        assert(is_on_record(engine, engine.rooms[r2].room.peers[p2], engine.rooms[r2].name));
    }
    let stale = peers_of_user(open.rooms[r].room.peers, claims.sub);
    retiring_keeps_order(open, r, claims.sub);
    let cleared = all_retired(open, r, stale);
    assert forall|r2: int, p2: int|
        0 <= r2 < cleared.rooms.len() && 0 <= p2 < cleared.rooms[r2].room.peers.len() implies (
    #[trigger] cleared.rooms[r2].room.peers[p2]).id.0 < peer.id.0 by {
        retiring_brings_nobody(open, r, stale, r2, p2);
    }
    seating_keeps_sound(cleared, r, peer, claims.call_id, answer);
    let after = seated(cleared, r, peer, claims.call_id, answer);
    let last = cleared.rooms[r].room.peers.len() as int;
    let pushed = cleared.rooms[r].room.peers.push(peer);
    subscribing_keeps_people(pushed, peer.id);
    assert forall|p: int| 0 <= p < after.rooms[r].room.peers.len() && p != last implies (
    #[trigger] after.rooms[r].room.peers[p]).user_id != claims.sub by {
        assert(same_person(pushed[p], subscribed(pushed, peer.id)[p]));
        assert(cleared.rooms[r].room.peers[p].user_id != claims.sub);
    }
    (r, last)
}

/// Subscribing changes nobody's identity.
pub proof fn subscribing_keeps_people(peers: Seq<PeerView>, joining: PeerId)
    ensures
        subscribed(peers, joining).len() == peers.len(),
        forall|i: int|
            0 <= i < peers.len() ==> same_person(peers[i], #[trigger] subscribed(peers, joining)[i]),
{
    first_where_is_first(peers, has_id(joining));
}

/// Who is still there after peers were retired was there before.
pub proof fn retiring_brings_nobody(engine: EngineView, r: int, ids: Seq<PeerId>, r2: int, p2: int)
    requires
        0 <= r < engine.rooms.len(),
        0 <= r2 < all_retired(engine, r, ids).rooms.len(),
        0 <= p2 < all_retired(engine, r, ids).rooms[r2].room.peers.len(),
    ensures
        all_retired(engine, r, ids).rooms.len() == engine.rooms.len(),
        exists|p: int|
            0 <= p < engine.rooms[r2].room.peers.len() && all_retired(
                engine,
                r,
                ids,
            ).rooms[r2].room.peers[p2] == #[trigger] engine.rooms[r2].room.peers[p],
    decreases ids.len(),
{
    if ids.len() > 0 {
        let before = all_retired(engine, r, ids.drop_last());
        let after = all_retired(engine, r, ids);
        let found = first_where(before.rooms[r].room.peers, has_id(ids.last()));
        first_where_is_first(before.rooms[r].room.peers, has_id(ids.last()));
        let a = if r2 == r && found is Some && p2 >= found->0 { p2 + 1 } else { p2 };
        retiring_keeps_rooms(engine, r, ids.drop_last());
        assert(after.rooms[r2].room.peers[p2] == before.rooms[r2].room.peers[a]);
        retiring_brings_nobody(engine, r, ids.drop_last(), r2, a);
    } else {
        assert(all_retired(engine, r, ids).rooms[r2].room.peers[p2]
            == engine.rooms[r2].room.peers[p2]);
    }
}

/// Retiring peers gives away no ids.
pub proof fn retiring_keeps_count(engine: EngineView, r: int, ids: Seq<PeerId>)
    ensures
        all_retired(engine, r, ids).next_peer == engine.next_peer,
    decreases ids.len(),
{
    if ids.len() > 0 {
        retiring_keeps_count(engine, r, ids.drop_last());
    }
}

/// Retiring peers closes no room.
pub proof fn retiring_keeps_rooms(engine: EngineView, r: int, ids: Seq<PeerId>)
    requires
        0 <= r < engine.rooms.len(),
    ensures
        all_retired(engine, r, ids).rooms.len() == engine.rooms.len(),
    decreases ids.len(),
{
    if ids.len() > 0 {
        retiring_keeps_rooms(engine, r, ids.drop_last());
    }
}

/// A join keeps the state sound, whatever comes of it.
pub proof fn joining_keeps_sound(
    before: EngineView,
    after: EngineView,
    claims: JoinClaimsView,
    sdp: Seq<char>,
    reply: JoinReplyView,
)
    requires
        is_sound(before),
        before.next_peer < u64::MAX,
        joins(before, after, claims, sdp, reply),
    ensures
        is_sound(after),
{
    if !is_full(before, claims.room, claims.sub) {
        if let Some(offer) = offer_of(sdp) {
            let (link, answer) = choose|link: Transport, answer: Option<Seq<char>>|
                {
                    &&& is_introduced(before, link, offer, answer)
                    &&& #[trigger] answered(before, after, claims, link, answer, reply)
                };
            let peer = fresh_peer(
                PeerId(before.next_peer),
                link,
                claims.sub,
                claims.name,
                claims.avatar_url,
            );
            match answer {
                Some(text) => {
                    let seat = joining_seats_the_newcomer(before, claims, peer, text);
                },
                None => numbering_keeps_sound(before),
            }
        }
    }
}

} // verus!
