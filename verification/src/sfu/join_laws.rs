//! What is promised of joining: who is let in, and what that changes.
use std::time::Instant;

use str0m::change::SdpOffer;
use vstd::prelude::*;

use crate::auth::JoinClaimsView;
use crate::find::{first_where, first_where_found, first_where_is_first};
use crate::proto::{PeerInfoView, ServerMsgView};
use crate::sfu::command::{Applied, Command, JoinReplyView};
use crate::sfu::dispatch::applies;
use crate::sfu::engine::{is_named, EngineView, NamedRoom};
use crate::sfu::join::{
    all_retired, answered, introduces, is_full, is_introduced, joins, numbered, opened_room,
    peers_of_user, retired, seated,
};
use crate::sfu::outbox::Post;
use crate::sfu::peer::{fresh_peer, PeerView};
use crate::sfu::room::{
    has_id, infos_of, new_subscriptions, published_by_others, subscribed, tracks_named, RoomView,
};
use crate::sfu::soundness::{a_user_has_one_peer, is_on_record, is_proper, is_sound, seat_is_unique};
use crate::sfu::state_laws::{other_names, told_each};
use crate::sfu::tracks::{PeerId, TrackInEntryView, TrackOutStateView, TrackOutView};
use crate::sfu::transport::{announces, Asked, Transport};
use crate::sfu::webrtc::{host_candidate_of, offer_of};

verus! {

/// The peers of other users.
pub open spec fn of_others(peers: Seq<PeerView>, user: Seq<char>) -> Seq<PeerView> {
    peers.filter(|p: PeerView| p.user_id != user)
}

/// There is a seat for a user: no room of the name holds as many peers of others as
/// the limit allows.
pub open spec fn has_seat(engine: EngineView, name: Seq<char>, user: Seq<char>) -> bool {
    forall|r: int|
        0 <= r < engine.rooms.len() && (#[trigger] engine.rooms[r]).name == name ==> of_others(
            engine.rooms[r].room.peers,
            user,
        ).len() < engine.max_room_peers
}

proof fn others_are_the_rest(peers: Seq<PeerView>, user: Seq<char>)
    ensures
        of_others(peers, user).len() == peers.len() - peers_of_user(peers, user).len(),
    decreases peers.len(),
{
    reveal(Seq::filter);
    if peers.len() > 0 {
        others_are_the_rest(peers.drop_last(), user);
    }
}

proof fn seats_are_what_is_left(engine: EngineView, name: Seq<char>, user: Seq<char>)
    requires
        is_sound(engine),
    ensures
        has_seat(engine, name, user) <==> !is_full(engine, name, user),
{
    first_where_is_first(engine.rooms, is_named(name));
    match engine.room_index(name) {
        Some(r) => {
            others_are_the_rest(engine.rooms[r].room.peers, user);
            assert(engine.rooms[r].name == name);
            assert forall|i: int|
                0 <= i < engine.rooms.len() && (#[trigger] engine.rooms[i]).name == name implies i
                == r by {}
        },
        None => {
            assert forall|i: int| 0 <= i < engine.rooms.len() implies (
            #[trigger] engine.rooms[i]).name != name by {
                assert(!is_named(name)(engine.rooms[i]));
            }
        },
    }
}

proof fn codes_differ()
    ensures
        "room_full"@ != "bad_offer"@,
{
    reveal_strlit("room_full");
    reveal_strlit("bad_offer");
    assert("room_full"@[0] != "bad_offer"@[0]);
}

/// A join is refused for a full room exactly if the room it asks for holds as many
/// peers of other users as the limit allows; in particular never while the room holds
/// fewer than that in all. Nothing changes then.
pub proof fn only_a_full_room_is_full(
    before: EngineView,
    after: EngineView,
    claims: JoinClaimsView,
    sdp: Seq<char>,
    reply: JoinReplyView,
)
    requires
        is_sound(before),
        joins(before, after, claims, sdp, reply),
    ensures
        (forall|r: int|
            0 <= r < before.rooms.len() && (#[trigger] before.rooms[r]).name == claims.room
                ==> before.rooms[r].room.peers.len() < before.max_room_peers) ==> !(
        reply matches JoinReplyView::Refused(ServerMsgView::Error { code, message }) && code
            == "room_full"@),
        has_seat(before, claims.room, claims.sub) ==> !(reply matches JoinReplyView::Refused(
            ServerMsgView::Error { code, message },
        ) && code == "room_full"@),
        !has_seat(before, claims.room, claims.sub) ==> after == before && reply
            == JoinReplyView::Refused(
            ServerMsgView::Error { code: "room_full"@, message: "This call is full."@ },
        ),
{
    codes_differ();
    seats_are_what_is_left(before, claims.room, claims.sub);
    if forall|r: int|
        0 <= r < before.rooms.len() && (#[trigger] before.rooms[r]).name == claims.room
            ==> before.rooms[r].room.peers.len() < before.max_room_peers {
        assert forall|r: int|
            0 <= r < before.rooms.len() && (#[trigger] before.rooms[r]).name
                == claims.room implies of_others(before.rooms[r].room.peers, claims.sub).len()
            < before.max_room_peers by {
            others_are_the_rest(before.rooms[r].room.peers, claims.sub);
        }
    }
    if !is_full(before, claims.room, claims.sub) {
        if let Some(offer) = offer_of(sdp) {
            let (link, answer) = choose|link: Transport, answer: Option<Seq<char>>|
                {
                    &&& is_introduced(before, link, offer, answer)
                    &&& #[trigger] answered(before, after, claims, link, answer, reply)
                };
        }
    }
}

/// A session that a join can be given: a new one, as configured, that was told of our
/// address and nothing else.
pub open spec fn can_be_given(engine: EngineView, new: Transport, fresh: Transport) -> bool {
    &&& exists|start: Instant| #[trigger] new.is_new(engine.ice_lite, start)
    &&& new.alive()
    &&& new.asked().len() == 0
    &&& announces(new, fresh, engine.advertised, "udp"@)
}

/// Where there is a seat, a join with something that is no offer is refused; with an
/// offer it is let in if the sessions it can be given stand and take that offer, and
/// refused if they do not.
pub proof fn a_seat_and_a_good_offer_let_in(
    before: EngineView,
    after: EngineView,
    claims: JoinClaimsView,
    sdp: Seq<char>,
    reply: JoinReplyView,
)
    requires
        is_sound(before),
        joins(before, after, claims, sdp, reply),
        has_seat(before, claims.room, claims.sub),
    ensures
        match offer_of(sdp) {
            None => {
                &&& after == before
                &&& reply == JoinReplyView::Refused(
                    ServerMsgView::Error {
                        code: "bad_offer"@,
                        message: "Malformed session description."@,
                    },
                )
            },
            Some(offer) => {
                &&& (forall|new: Transport, fresh: Transport| #[trigger]
                    can_be_given(before, new, fresh) ==> fresh.stands(offer) && fresh.takes_offer(
                        offer,
                    )) ==> reply == JoinReplyView::Admitted(PeerId(before.next_peer))
                &&& (forall|new: Transport, fresh: Transport| #[trigger]
                    can_be_given(before, new, fresh) ==> !(fresh.stands(offer) && fresh.takes_offer(
                        offer,
                    ))) ==> reply is Refused
                &&& reply is Refused ==> {
                    &&& reply == JoinReplyView::Refused(
                        ServerMsgView::Error {
                            code: "bad_offer"@,
                            message: "Session description refused."@,
                        },
                    )
                    &&& after == EngineView { next_peer: (before.next_peer + 1) as u64, ..before }
                }
                &&& reply matches JoinReplyView::Admitted(id) ==> id == PeerId(before.next_peer)
            },
        },
{
    seats_are_what_is_left(before, claims.room, claims.sub);
    if let Some(offer) = offer_of(sdp) {
        let (link, answer) = choose|link: Transport, answer: Option<Seq<char>>|
            {
                &&& is_introduced(before, link, offer, answer)
                &&& #[trigger] answered(before, after, claims, link, answer, reply)
            };
        let (start, new, fresh) = choose|start: Instant, new: Transport, fresh: Transport|
            #[trigger] introduces(before, start, new, fresh, link, offer, answer);
        assert(new.is_new(before.ice_lite, start));
        assert(can_be_given(before, new, fresh));
    }
}

/// What a peer is known by.
pub open spec fn introduced_as(peer: PeerView) -> PeerInfoView {
    PeerInfoView {
        peer_id: peer.id.text(),
        user_id: peer.user_id,
        name: peer.name,
        avatar_url: peer.avatar_url,
        muted: peer.muted,
        screen: peer.screen,
    }
}

/// The subscriptions to all that some peers publish, each waiting for its m-line.
pub open spec fn subscriptions_to(peers: Seq<PeerView>) -> Seq<TrackOutView> {
    peers.map_values(
        |q: PeerView|
            q.tracks_in.map_values(
                |e: TrackInEntryView|
                    TrackOutView { track_in: e.id, state: TrackOutStateView::ToOpen },
            ),
    ).flatten()
}

/// A peer as it comes in: as its claims say, subscribed to all that the others publish,
/// with nothing of its own and nothing said of it yet.
pub open spec fn is_newcomer(
    peer: PeerView,
    id: PeerId,
    claims: JoinClaimsView,
    others: Seq<PeerView>,
) -> bool {
    &&& peer.id == id
    &&& peer.user_id == claims.sub
    &&& peer.name == claims.name
    &&& peer.avatar_url == claims.avatar_url
    &&& peer.tracks_in.len() == 0
    &&& peer.tracks_out == subscriptions_to(others)
    &&& peer.pending is None
    &&& peer.disconnected_since is None
    &&& peer.speaking_until is None
    &&& !peer.muted && !peer.screen && !peer.connected && !peer.reported
    &&& peer.link.alive()
}

/// A session was told of our address, if it can be a candidate, and then gave this
/// answer to the offer; and was asked nothing else.
pub open spec fn has_answered(
    engine: EngineView,
    link: Transport,
    offer: SdpOffer,
    answer: Seq<char>,
) -> bool {
    link.asked() == match host_candidate_of(engine.advertised, "udp"@) {
        Some(candidate) => seq![
            Asked::Candidate { candidate },
            Asked::Answer { offer, reply: Some(answer) },
        ],
        None => seq![Asked::Answer { offer, reply: Some(answer) }],
    }
}

/// What a newcomer and those who are there are told: the newcomer its id, the call, the
/// answer and who is there; the others who came.
pub open spec fn welcome(
    id: PeerId,
    claims: JoinClaimsView,
    answer: Seq<char>,
    others: Seq<PeerView>,
) -> Seq<Post> {
    seq![
        Post {
            to: id,
            message: ServerMsgView::Joined {
                peer_id: id.text(),
                call_id: claims.call_id,
                sdp: answer,
                peers: Seq::new(others.len(), |i: int| introduced_as(others[i])),
            },
        },
    ] + told_each(
        others,
        ServerMsgView::PeerJoined {
            peer: PeerInfoView {
                peer_id: id.text(),
                user_id: claims.sub,
                name: claims.name,
                avatar_url: claims.avatar_url,
                muted: false,
                screen: false,
            },
        },
    )
}

proof fn publications_are_subscribed_to(peers: Seq<PeerView>, id: PeerId)
    requires
        forall|i: int| 0 <= i < peers.len() ==> (#[trigger] peers[i]).id != id,
    ensures
        new_subscriptions(published_by_others(peers, id)) == subscriptions_to(peers),
    decreases peers.len(),
{
    let one = |q: PeerView|
        q.tracks_in.map_values(
            |e: TrackInEntryView|
                TrackOutView { track_in: e.id, state: TrackOutStateView::ToOpen },
        );
    if peers.len() > 0 {
        let front = peers.drop_last();
        assert forall|i: int| 0 <= i < front.len() implies (#[trigger] front[i]).id != id by {
            assert(front[i] == peers[i]);
        }
        publications_are_subscribed_to(front, id);
        let each = peers.map_values(one);
        assert(each =~= front.map_values(one).push(one(peers.last())));
        front.map_values(one).lemma_flatten_push(one(peers.last()));
        assert(subscriptions_to(peers) == each.flatten());
        assert(subscriptions_to(front) == front.map_values(one).flatten());
        assert(new_subscriptions(tracks_named(peers.last().tracks_in)) =~= one(peers.last()));
        assert(published_by_others(peers, id) == published_by_others(front, id) + tracks_named(
            peers.last().tracks_in,
        ));
        assert(new_subscriptions(published_by_others(peers, id)) =~= new_subscriptions(
            published_by_others(front, id),
        ) + new_subscriptions(tracks_named(peers.last().tracks_in)));
    } else {
        assert(new_subscriptions(published_by_others(peers, id)) =~= subscriptions_to(peers));
    }
}

/// A newcomer takes its seat in a room.
proof fn seating_is_welcoming(
    engine: EngineView,
    r: int,
    peer: PeerView,
    claims: JoinClaimsView,
    answer: Seq<char>,
)
    requires
        0 <= r < engine.rooms.len(),
        peer == fresh_peer(peer.id, peer.link, claims.sub, claims.name, claims.avatar_url),
        peer.link.alive(),
        forall|i: int|
            0 <= i < engine.rooms[r].room.peers.len() ==> (
            #[trigger] engine.rooms[r].room.peers[i]).id != peer.id,
    ensures
        ({
            let others = engine.rooms[r].room.peers;
            let after = seated(engine, r, peer, claims.call_id, answer);
            let room = after.rooms[r].room;
            &&& room.peers.len() == others.len() + 1
            &&& room.peers.drop_last() == others
            &&& is_newcomer(room.peers.last(), peer.id, claims, others)
            &&& room.peers.last().link == peer.link
            &&& room.call_id == engine.rooms[r].room.call_id
            &&& room.speaking == engine.rooms[r].room.speaking
            &&& after.rooms == engine.rooms.update(
                r,
                NamedRoom { name: engine.rooms[r].name, room },
            )
            &&& after.outbox == engine.outbox + welcome(peer.id, claims, answer, others)
            &&& after == EngineView {
                rooms: after.rooms,
                outbox: after.outbox,
                peer_rooms: engine.peer_rooms.insert(peer.id.0, engine.rooms[r].name),
                ..engine
            }
        }),
{
    let others = engine.rooms[r].room.peers;
    let pushed = others.push(peer);
    let after = seated(engine, r, peer, claims.call_id, answer);
    let wanted = has_id(peer.id);
    assert forall|j: int| 0 <= j < others.len() implies !wanted(#[trigger] pushed[j]) by {
        assert(pushed[j] == others[j]);
    }
    first_where_found(pushed, wanted, others.len() as int);
    assert(pushed.drop_last() =~= others);
    assert(published_by_others(pushed, peer.id) == published_by_others(others, peer.id));
    publications_are_subscribed_to(others, peer.id);
    let room = after.rooms[r].room;
    assert(room.peers == subscribed(pushed, peer.id));
    assert(room.peers.drop_last() =~= others);
    assert(room.peers.last().tracks_out =~= subscriptions_to(others));
    assert(after.outbox =~= engine.outbox + welcome(peer.id, claims, answer, others)) by {
        let infos = Seq::new(others.len(), |i: int| introduced_as(others[i]));
        assert(infos_of(others) =~= infos);
    }
}

/// Whoever is let in, and has no older peer in the room, takes a seat beside those who
/// are there; the room is made for its call if there was none. All that changes is
/// said here.
pub proof fn a_newcomer_joins_the_others(
    before: EngineView,
    after: EngineView,
    claims: JoinClaimsView,
    sdp: Seq<char>,
    id: PeerId,
) -> (seat: (int, Seq<char>))
    requires
        is_sound(before),
        before.next_peer < u64::MAX,
        joins(before, after, claims, sdp, JoinReplyView::Admitted(id)),
        forall|r: int, p: int|
            0 <= r < before.rooms.len() && before.rooms[r].name == claims.room && 0 <= p
                < before.rooms[r].room.peers.len() ==> (
            #[trigger] before.rooms[r].room.peers[p]).user_id != claims.sub,
    ensures
        ({
            let r = seat.0;
            let held = if r < before.rooms.len() {
                before.rooms[r].room
            } else {
                RoomView {
                    call_id: claims.call_id,
                    peers: Seq::<PeerView>::empty(),
                    speaking: Seq::<Seq<char>>::empty(),
                }
            };
            let room = after.rooms[r].room;
            &&& id == PeerId(before.next_peer)
            &&& 0 <= r <= before.rooms.len()
            &&& r < before.rooms.len() ==> before.rooms[r].name == claims.room
            &&& r == before.rooms.len() ==> forall|i: int|
                0 <= i < before.rooms.len() ==> (#[trigger] before.rooms[i]).name != claims.room
            &&& room.peers.len() == held.peers.len() + 1
            &&& room.peers.drop_last() == held.peers
            &&& is_newcomer(room.peers.last(), id, claims, held.peers)
            &&& offer_of(sdp) matches Some(offer)
            &&& has_answered(before, room.peers.last().link, offer, seat.1)
            &&& room.call_id == held.call_id
            &&& room.speaking == held.speaking
            &&& after.rooms == if r < before.rooms.len() {
                before.rooms.update(r, NamedRoom { name: claims.room, room })
            } else {
                before.rooms.push(NamedRoom { name: claims.room, room })
            }
            &&& after == EngineView {
                rooms: after.rooms,
                next_peer: (before.next_peer + 1) as u64,
                peer_rooms: before.peer_rooms.insert(id.0, claims.room),
                outbox: before.outbox + welcome(id, claims, seat.1, held.peers),
                ..before
            }
        }),
{
    codes_differ();
    let offer = offer_of(sdp)->0;
    let (link, given) = choose|link: Transport, answer: Option<Seq<char>>|
        {
            &&& is_introduced(before, link, offer, answer)
            &&& #[trigger] answered(
                before,
                after,
                claims,
                link,
                answer,
                JoinReplyView::Admitted(id),
            )
        };
    let (start, new, fresh) = choose|start: Instant, new: Transport, fresh: Transport|
        #[trigger] introduces(before, start, new, fresh, link, offer, given);
    let answer = given->0;
    let peer = fresh_peer(id, link, claims.sub, claims.name, claims.avatar_url);
    assert(link.asked() =~= match host_candidate_of(before.advertised, "udp"@) {
        Some(candidate) => seq![
            Asked::Candidate { candidate },
            Asked::Answer { offer, reply: Some(answer) },
        ],
        None => seq![Asked::Answer { offer, reply: Some(answer) }],
    });
    let begun = numbered(before);
    let open = opened_room(begun, claims.room, claims.call_id);
    first_where_is_first(before.rooms, is_named(claims.room));
    assert(begun.room_index(claims.room) == before.room_index(claims.room));
    let r = match before.room_index(claims.room) {
        Some(r) => r,
        None => before.rooms.len() as int,
    };
    if before.room_index(claims.room) is None {
        assert forall|j: int| 0 <= j < r implies !is_named(claims.room)(#[trigger] open.rooms[j]) by {
            assert(open.rooms[j] == before.rooms[j]);
        }
        first_where_found(open.rooms, is_named(claims.room), r);
        assert forall|i: int| 0 <= i < before.rooms.len() implies (
        #[trigger] before.rooms[i]).name != claims.room by {
            assert(!is_named(claims.room)(before.rooms[i]));
        }
    }
    assert(open.room_index(claims.room) == Some(r));
    let others = open.rooms[r].room.peers;
    no_peers_of_a_stranger(others, claims.sub);
    assert(all_retired(open, r, peers_of_user(others, claims.sub)) == open);
    assert forall|i: int| 0 <= i < others.len() implies (#[trigger] others[i]).id != id by {
        assert(is_on_record(before, before.rooms[r].room.peers[i], before.rooms[r].name));
    }
    seating_is_welcoming(open, r, peer, claims, answer);
    assert(after == seated(open, r, peer, claims.call_id, answer));
    let room = after.rooms[r].room;
    if r < before.rooms.len() {
        assert(after.rooms =~= before.rooms.update(r, NamedRoom { name: claims.room, room }));
    } else {
        assert(after.rooms =~= before.rooms.push(NamedRoom { name: claims.room, room }));
    }
    (r, answer)
}

proof fn no_peers_of_a_stranger(peers: Seq<PeerView>, user: Seq<char>)
    requires
        forall|p: int| 0 <= p < peers.len() ==> (#[trigger] peers[p]).user_id != user,
    ensures
        peers_of_user(peers, user) == Seq::<PeerId>::empty(),
    decreases peers.len(),
{
    if peers.len() > 0 {
        assert forall|p: int| 0 <= p < peers.drop_last().len() implies (
        #[trigger] peers.drop_last()[p]).user_id != user by {
            assert(peers.drop_last()[p] == peers[p]);
        }
        assert(peers.last() == peers[peers.len() - 1]);
        no_peers_of_a_stranger(peers.drop_last(), user);
    }
}

/// Whoever is let in and has an older peer in the room takes its place: the older one
/// is gone and told that it was replaced, the others are told that it left and who
/// came, and the host application is told nothing. All that changes is said here.
pub proof fn a_newcomer_replaces_its_older_self(
    before: EngineView,
    after: EngineView,
    claims: JoinClaimsView,
    sdp: Seq<char>,
    id: PeerId,
    r: int,
    p: int,
) -> (answer: Seq<char>)
    requires
        is_sound(before),
        before.next_peer < u64::MAX,
        joins(before, after, claims, sdp, JoinReplyView::Admitted(id)),
        0 <= r < before.rooms.len(),
        before.rooms[r].name == claims.room,
        0 <= p < before.rooms[r].room.peers.len(),
        before.rooms[r].room.peers[p].user_id == claims.sub,
    ensures
        ({
            let held = before.rooms[r].room;
            let old_id = held.peers[p].id;
            let stay = held.peers.remove(p);
            let room = after.rooms[r].room;
            &&& id == PeerId(before.next_peer)
            &&& room.peers.len() == held.peers.len()
            &&& room.peers.drop_last() == stay
            &&& is_newcomer(room.peers.last(), id, claims, stay)
            &&& offer_of(sdp) matches Some(offer)
            &&& has_answered(before, room.peers.last().link, offer, answer)
            &&& room.call_id == held.call_id
            &&& room.speaking == other_names(held.speaking, old_id.text())
            &&& after.rooms == before.rooms.update(r, NamedRoom { name: claims.room, room })
            &&& after == EngineView {
                rooms: after.rooms,
                next_peer: (before.next_peer + 1) as u64,
                peer_rooms: before.peer_rooms.remove(old_id.0).insert(id.0, claims.room),
                outbox: before.outbox + told_each(
                    stay,
                    ServerMsgView::PeerLeft { peer_id: old_id.text() },
                ) + seq![
                    Post {
                        to: old_id,
                        message: ServerMsgView::Error {
                            code: "replaced"@,
                            message: "Joined from another tab."@,
                        },
                    },
                ] + welcome(id, claims, answer, stay),
                ..before
            }
        }),
{
    codes_differ();
    let offer = offer_of(sdp)->0;
    let (link, given) = choose|link: Transport, answer: Option<Seq<char>>|
        {
            &&& is_introduced(before, link, offer, answer)
            &&& #[trigger] answered(
                before,
                after,
                claims,
                link,
                answer,
                JoinReplyView::Admitted(id),
            )
        };
    let (start, new, fresh) = choose|start: Instant, new: Transport, fresh: Transport|
        #[trigger] introduces(before, start, new, fresh, link, offer, given);
    let answer = given->0;
    let peer = fresh_peer(id, link, claims.sub, claims.name, claims.avatar_url);
    assert(link.asked() =~= match host_candidate_of(before.advertised, "udp"@) {
        Some(candidate) => seq![
            Asked::Candidate { candidate },
            Asked::Answer { offer, reply: Some(answer) },
        ],
        None => seq![Asked::Answer { offer, reply: Some(answer) }],
    });
    let begun = numbered(before);
    let held = before.rooms[r].room;
    let old_id = held.peers[p].id;
    let stay = held.peers.remove(p);
    seat_is_unique(before, old_id.0, r, p);
    assert(begun.room_index(claims.room) == Some(r));
    assert(opened_room(begun, claims.room, claims.call_id) == begun);
    assert(is_proper(held, before.max_room_peers));
    a_user_has_one_peer(held.peers, claims.sub);
    let stale = peers_of_user(held.peers, claims.sub);
    assert(stale == seq![old_id]);
    assert(stale.drop_last() =~= Seq::empty());
    reveal_with_fuel(all_retired, 2);
    let cleared = retired(begun, r, old_id);
    assert(all_retired(begun, r, stale) == cleared);
    assert(PeerId(old_id.0) == old_id);
    assert(first_where(held.peers, has_id(old_id)) == Some(p));
    assert(cleared.rooms[r].room.peers == stay);
    assert((|n: Seq<char>| n != old_id.text()) =~= (|entry: Seq<char>| entry != old_id.text()));
    assert forall|i: int| 0 <= i < stay.len() implies (#[trigger] stay[i]).id != id by {
        let a = if i < p { i } else { i + 1 };
        assert(stay[i] == held.peers[a]);
        assert(is_on_record(before, before.rooms[r].room.peers[a], before.rooms[r].name));
    }
    seating_is_welcoming(cleared, r, peer, claims, answer);
    assert(after == seated(cleared, r, peer, claims.call_id, answer));
    let room = after.rooms[r].room;
    assert(after.rooms =~= before.rooms.update(r, NamedRoom { name: claims.room, room }));
    assert(cleared.outbox =~= before.outbox + told_each(
        stay,
        ServerMsgView::PeerLeft { peer_id: old_id.text() },
    ) + seq![
        Post {
            to: old_id,
            message: ServerMsgView::Error {
                code: "replaced"@,
                message: "Joined from another tab."@,
            },
        },
    ]);
    answer
}

/// A command to join is decided on by its own claims and its own offer, and answered.
pub proof fn a_join_is_answered(
    before: EngineView,
    after: EngineView,
    command: Command,
    result: Applied,
)
    requires
        applies(before, after, command, result),
    ensures
        command is Join <==> result is Joined,
        command matches Command::Join(request) ==> {
            &&& result matches Applied::Joined(reply)
            &&& joins(before, after, request.claims@, request.sdp@, reply@)
        },
{
}

} // verus!
