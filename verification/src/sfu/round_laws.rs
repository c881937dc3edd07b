//! What is promised of a round of the media loop: arrivals, speakers, the dead, and
//! what comes from the network and the clock.
use vstd::prelude::*;

use crate::find::{first_where, first_where_found, first_where_is_first};
use crate::names::{is_ordered, ordered, ordered_is_a_sorting};
use crate::net::Endpoint;
use crate::proto::ServerMsgView;
use crate::report::Report;
use crate::sfu::dispatch::seat_of;
use crate::sfu::engine::{EngineView, NamedRoom};
use crate::sfu::engine_io::{
    arrivals, arrivals_in, connections_reported, holds_taker, reads, room_ticks, speaking_news,
    speaking_room, speaking_ticked, takes_input, ticks, wait_until,
};
use crate::sfu::join::{all_dropped, dead_among, dead_in, dropped, reaped};
use crate::sfu::outbox::Post;
use crate::sfu::peer::{is_fed, PeerView};
use crate::sfu::room::{speaking_posts, speaking_synced, talking, to_all, RoomView};
use crate::sfu::soundness::{
    is_on_record, is_proper, is_sound, leaving_keeps_sound, on_record_is_seated, seat_is_unique,
    sits,
};
use crate::sfu::state_laws::{dropping_is_leaving, is_placed, told_each};
use crate::sfu::tracks::PeerId;
use crate::sfu::transport::Asked;
use crate::sfu::webrtc::{is_traffic, InputView};

verus! {

/// A peer has come up and the host application has not been told.
pub open spec fn has_just_come(peer: PeerView) -> bool {
    peer.connected && !peer.reported
}

/// The reports of those in a room that have just come.
pub open spec fn coming_in(entry: NamedRoom) -> Seq<Report> {
    entry.room.peers.filter(|p: PeerView| has_just_come(p)).map_values(
        |p: PeerView|
            Report {
                event: "participant_joined"@,
                room: entry.name,
                identity: Some(p.user_id),
                source: None,
            },
    )
}

/// The reports of all that have just come, room by room.
pub open spec fn all_coming_in(rooms: Seq<NamedRoom>) -> Seq<Report> {
    rooms.map_values(|e: NamedRoom| coming_in(e)).flatten()
}

proof fn arrivals_are_those_who_came(entry: NamedRoom)
    ensures
        arrivals(entry.name, entry.room.peers) == coming_in(entry),
    decreases entry.room.peers.len(),
{
    reveal(Seq::filter);
    let peers = entry.room.peers;
    if peers.len() > 0 {
        let fewer = NamedRoom {
            room: RoomView { peers: peers.drop_last(), ..entry.room },
            ..entry
        };
        arrivals_are_those_who_came(fewer);
        assert(arrivals(entry.name, peers) =~= coming_in(entry));
    } else {
        assert(arrivals(entry.name, peers) =~= coming_in(entry));
    }
}

proof fn all_arrivals_are_those_who_came(rooms: Seq<NamedRoom>)
    ensures
        arrivals_in(rooms) == all_coming_in(rooms),
    decreases rooms.len(),
{
    let one = |e: NamedRoom| coming_in(e);
    if rooms.len() > 0 {
        let front = rooms.drop_last();
        all_arrivals_are_those_who_came(front);
        arrivals_are_those_who_came(rooms.last());
        assert(rooms.map_values(one) =~= front.map_values(one).push(one(rooms.last())));
        front.map_values(one).lemma_flatten_push(one(rooms.last()));
        assert(all_coming_in(rooms) == rooms.map_values(one).flatten());
        assert(all_coming_in(front) == front.map_values(one).flatten());
    } else {
        assert(arrivals_in(rooms) =~= all_coming_in(rooms));
    }
}

/// Of every room, each peer that is connected and was not reported is reported once, as
/// having joined that very room, and counts as reported from then on. Nothing else is
/// reported and nothing else changes.
pub proof fn arrivals_are_reported_to_their_rooms(engine: EngineView)
    ensures
        ({
            let after = connections_reported(engine);
            &&& after.reports == engine.reports + all_coming_in(engine.rooms)
            &&& after == EngineView { rooms: after.rooms, reports: after.reports, ..engine }
            &&& after.rooms.len() == engine.rooms.len()
            &&& forall|r: int|
                0 <= r < engine.rooms.len() ==> {
                    &&& (#[trigger] after.rooms[r]).name == engine.rooms[r].name
                    &&& after.rooms[r].room.call_id == engine.rooms[r].room.call_id
                    &&& after.rooms[r].room.speaking == engine.rooms[r].room.speaking
                    &&& after.rooms[r].room.peers.len() == engine.rooms[r].room.peers.len()
                }
            &&& forall|r: int, p: int|
                0 <= r < engine.rooms.len() && 0 <= p < engine.rooms[r].room.peers.len() ==> #[trigger]
                after.rooms[r].room.peers[p] == (PeerView {
                    reported: engine.rooms[r].room.peers[p].reported
                        || engine.rooms[r].room.peers[p].connected,
                    ..engine.rooms[r].room.peers[p]
                })
        }),
{
    all_arrivals_are_those_who_came(engine.rooms);
}

/// A report is among those of the rooms' arrivals exactly if somebody who has just come
/// is in the room that it names, under the identity that it names.
pub proof fn an_arrival_names_its_room(rooms: Seq<NamedRoom>, report: Report)
    ensures
        all_coming_in(rooms).contains(report) <==> exists|r: int, p: int|
            0 <= r < rooms.len() && 0 <= p < rooms[r].room.peers.len() && has_just_come(
                #[trigger] rooms[r].room.peers[p],
            ) && report == (Report {
                event: "participant_joined"@,
                room: rooms[r].name,
                identity: Some(rooms[r].room.peers[p].user_id),
                source: None,
            }),
    decreases rooms.len(),
{
    let one = |e: NamedRoom| coming_in(e);
    if rooms.len() > 0 {
        let front = rooms.drop_last();
        let last = rooms.len() - 1;
        an_arrival_names_its_room(front, report);
        assert(rooms.map_values(one) =~= front.map_values(one).push(one(rooms.last())));
        front.map_values(one).lemma_flatten_push(one(rooms.last()));
        let earlier = all_coming_in(front);
        let here = coming_in(rooms.last());
        let all = all_coming_in(rooms);
        assert(all == earlier + here);
        let peers = rooms.last().room.peers;
        let came = |p: PeerView| has_just_come(p);
        let those = peers.filter(came);
        broadcast use vstd::seq_lib::group_filter_ensures;

        if all.contains(report) {
            let n = choose|n: int| 0 <= n < all.len() && all[n] == report;
            if n < earlier.len() {
                assert(earlier[n] == report);
                let (r, p) = choose|r: int, p: int|
                    0 <= r < front.len() && 0 <= p < front[r].room.peers.len() && has_just_come(
                        #[trigger] front[r].room.peers[p],
                    ) && report == (Report {
                        event: "participant_joined"@,
                        room: front[r].name,
                        identity: Some(front[r].room.peers[p].user_id),
                        source: None,
                    });
                assert(has_just_come(rooms[r].room.peers[p]));
            } else {
                let k = n - earlier.len();
                assert(here[k] == report);
                assert(came(those[k]));
                assert(those.contains(those[k]));
                those_filtered_were_there(peers, came, those[k]);
                let p = choose|p: int| 0 <= p < peers.len() && peers[p] == those[k];
                assert(has_just_come(rooms[last].room.peers[p]));
            }
        }
        if exists|r: int, p: int|
            0 <= r < rooms.len() && 0 <= p < rooms[r].room.peers.len() && has_just_come(
                #[trigger] rooms[r].room.peers[p],
            ) && report == (Report {
                event: "participant_joined"@,
                room: rooms[r].name,
                identity: Some(rooms[r].room.peers[p].user_id),
                source: None,
            }) {
            let (r, p) = choose|r: int, p: int|
                0 <= r < rooms.len() && 0 <= p < rooms[r].room.peers.len() && has_just_come(
                    #[trigger] rooms[r].room.peers[p],
                ) && report == (Report {
                    event: "participant_joined"@,
                    room: rooms[r].name,
                    identity: Some(rooms[r].room.peers[p].user_id),
                    source: None,
                });
            if r < last {
                assert(has_just_come(front[r].room.peers[p]));
                assert(earlier.contains(report));
                let n = choose|n: int| 0 <= n < earlier.len() && earlier[n] == report;
                assert(all[n] == report);
            } else {
                assert(came(peers[p]));
                peers.lemma_filter_contains(came, p);
                assert(those.contains(peers[p]));
                let k = choose|k: int| 0 <= k < those.len() && those[k] == peers[p];
                assert(here[k] == report);
                assert(all[earlier.len() + k] == report);
            }
        }
    } else {
        assert(all_coming_in(rooms) =~= Seq::empty());
    }
}

proof fn those_filtered_were_there(peers: Seq<PeerView>, wanted: spec_fn(PeerView) -> bool, peer: PeerView)
    requires
        peers.filter(wanted).contains(peer),
    ensures
        peers.contains(peer),
    decreases peers.len(),
{
    reveal(Seq::filter);
    if peers.len() > 0 {
        let front = peers.drop_last();
        if front.filter(wanted).contains(peer) {
            those_filtered_were_there(front, wanted, peer);
            let i = choose|i: int| 0 <= i < front.len() && front[i] == peer;
            assert(peers[i] == peer);
        } else {
            assert(peers[peers.len() - 1] == peers.last());
            let kept = peers.filter(wanted);
            let n = choose|n: int| 0 <= n < kept.len() && kept[n] == peer;
            if n < front.filter(wanted).len() {
                assert(front.filter(wanted)[n] == peer);
            }
        }
    }
}

/// Somebody who is heard: not muted, and speaking at this time.
pub open spec fn is_audible_now(peer: PeerView, now: u64) -> bool {
    !peer.muted && peer.speaking_until is Some && peer.speaking_until->0 > now
}

/// The ids of those who are heard, in the order of their seats.
pub open spec fn heard_in(peers: Seq<PeerView>, now: u64) -> Seq<Seq<char>> {
    peers.filter(|p: PeerView| is_audible_now(p, now)).map_values(|p: PeerView| p.id.text())
}

proof fn those_talking_are_heard(peers: Seq<PeerView>, now: u64)
    ensures
        talking(peers, now) == heard_in(peers, now),
    decreases peers.len(),
{
    reveal(Seq::filter);
    if peers.len() > 0 {
        those_talking_are_heard(peers.drop_last(), now);
    }
    assert(talking(peers, now) =~= heard_in(peers, now));
}

/// The list of a room's speakers names those who are heard, each once, in alphabetical
/// order; and everyone in the room is told of the list exactly if it is not the one
/// they were told of last.
pub proof fn speakers_are_those_who_are_heard(room: RoomView, now: u64)
    ensures
        ({
            let after = speaking_synced(room, now);
            &&& after == RoomView { speaking: after.speaking, ..room }
            &&& is_ordered(after.speaking)
            &&& after.speaking.len() == heard_in(room.peers, now).len()
            &&& after.speaking.to_multiset() == heard_in(room.peers, now).to_multiset()
            &&& speaking_posts(room, now) == if after.speaking == room.speaking {
                Seq::<Post>::empty()
            } else {
                told_each(room.peers, ServerMsgView::Speaking { peer_ids: after.speaking })
            }
        }),
{
    those_talking_are_heard(room.peers, now);
    ordered_is_a_sorting(talking(room.peers, now));
    let list = ordered(talking(room.peers, now));
    assert(to_all(room.peers, ServerMsgView::Speaking { peer_ids: list })
        =~= told_each(room.peers, ServerMsgView::Speaking { peer_ids: list }));
}

/// What a room is told of its speakers, given the list it gets.
pub open spec fn told_of_speakers(before: NamedRoom, after: NamedRoom) -> Seq<Post> {
    if after.room.speaking == before.room.speaking {
        Seq::empty()
    } else {
        told_each(before.room.peers, ServerMsgView::Speaking { peer_ids: after.room.speaking })
    }
}

/// What all rooms are told of their speakers, one after the other.
pub open spec fn all_told_of_speakers(before: Seq<NamedRoom>, after: Seq<NamedRoom>) -> Seq<Post> {
    Seq::new(before.len(), |r: int| told_of_speakers(before[r], after[r])).flatten()
}

proof fn news_is_what_rooms_are_told(rooms: Seq<NamedRoom>, now: u64)
    ensures
        speaking_news(rooms, now) == all_told_of_speakers(
            rooms,
            rooms.map_values(|e: NamedRoom| speaking_room(e, now)),
        ),
    decreases rooms.len(),
{
    let after = rooms.map_values(|e: NamedRoom| speaking_room(e, now));
    let told = Seq::new(rooms.len(), |r: int| told_of_speakers(rooms[r], after[r]));
    if rooms.len() > 0 {
        let front = rooms.drop_last();
        news_is_what_rooms_are_told(front, now);
        let sooner = front.map_values(|e: NamedRoom| speaking_room(e, now));
        let fewer = Seq::new(front.len(), |r: int| told_of_speakers(front[r], sooner[r]));
        let last = told_of_speakers(rooms.last(), after.last());
        assert(told =~= fewer.push(last));
        fewer.lemma_flatten_push(last);
        speakers_are_those_who_are_heard(rooms.last().room, now);
        assert(after.last() == speaking_room(rooms.last(), now));
    } else {
        assert(speaking_news(rooms, now) =~= told.flatten());
    }
}

/// The speakers of all rooms are looked at every 200 milliseconds and not more often;
/// then every room has its list of those who are heard, and is told of it if it is
/// another than before. Nothing else changes.
pub proof fn all_speakers_are_looked_at(engine: EngineView, now: u64)
    ensures
        now - engine.last_speaking < 200_000_000 ==> speaking_ticked(engine, now) == engine,
        now - engine.last_speaking >= 200_000_000 ==> {
            let after = speaking_ticked(engine, now);
            &&& after == EngineView {
                last_speaking: now,
                rooms: after.rooms,
                outbox: engine.outbox + all_told_of_speakers(engine.rooms, after.rooms),
                ..engine
            }
            &&& after.rooms.len() == engine.rooms.len()
            &&& forall|r: int|
                0 <= r < engine.rooms.len() ==> {
                    let was = engine.rooms[r];
                    let is = #[trigger] after.rooms[r];
                    &&& is == NamedRoom {
                        room: RoomView { speaking: is.room.speaking, ..was.room },
                        ..was
                    }
                    &&& is_ordered(is.room.speaking)
                    &&& is.room.speaking.len() == heard_in(was.room.peers, now).len()
                    &&& is.room.speaking.to_multiset() == heard_in(
                        was.room.peers,
                        now,
                    ).to_multiset()
                }
        },
{
    news_is_what_rooms_are_told(engine.rooms, now);
    let after = speaking_ticked(engine, now);
    if now - engine.last_speaking >= 200_000_000 {
        assert(after.rooms =~= engine.rooms.map_values(|e: NamedRoom| speaking_room(e, now)));
        assert forall|r: int| 0 <= r < engine.rooms.len() implies {
            let was = engine.rooms[r];
            let is = #[trigger] after.rooms[r];
            &&& is == NamedRoom {
                room: RoomView { speaking: is.room.speaking, ..was.room },
                ..was
            }
            &&& is_ordered(is.room.speaking)
            &&& is.room.speaking.len() == heard_in(was.room.peers, now).len()
            &&& is.room.speaking.to_multiset() == heard_in(was.room.peers, now).to_multiset()
        } by {
            speakers_are_those_who_are_heard(engine.rooms[r].room, now);
            assert(after.rooms[r] == speaking_room(engine.rooms[r], now));
        }
    }
}

/// How long to wait for a packet: until it is time, but a millisecond at least.
pub proof fn a_wait_ends_in_time(wake: u64, now: u64)
    ensures
        wait_until(wake, now) >= 1_000_000,
        wake - now >= 1_000_000 ==> wait_until(wake, now) == wake - now,
        wake - now < 1_000_000 ==> wait_until(wake, now) == 1_000_000,
{
}

/// What handing an input to a peer does: nothing if its session has ended; otherwise
/// the session is handed that input, and it is closed if it fails over it.
pub proof fn an_input_is_handed_over(before: PeerView, after: PeerView, input: InputView)
    requires
        is_fed(before, after, input),
    ensures
        !before.link.alive() ==> after == before,
        after == (PeerView { link: after.link, ..before }),
        before.link.alive() ==> {
            let asked = before.link.asked();
            if after.link.alive() {
                after.link.asked() == asked.push(Asked::Input { input, handled: true })
            } else {
                after.link.asked() == asked.push(Asked::Input { input, handled: false }).push(
                    Asked::Disconnect,
                )
            }
        },
{
}

/// A datagram goes to the first peer that takes it, as sent to the address that
/// browsers are told of, and to nobody else; what is not traffic, or nobody takes, goes
/// to nobody.
pub proof fn a_datagram_goes_to_its_taker(
    before: EngineView,
    after: EngineView,
    source: Endpoint,
    bytes: Seq<u8>,
    r: int,
    p: int,
)
    requires
        reads(before, after, source, bytes),
    ensures
        ({
            let input = InputView::Datagram { source, destination: before.advertised, bytes };
            let taken = exists|i: int, j: int|
                0 <= i < before.rooms.len() && 0 <= j < before.rooms[i].room.peers.len() && (
                #[trigger] before.rooms[i].room.peers[j]).link.takes(input);
            let first = {
                &&& 0 <= r < before.rooms.len()
                &&& 0 <= p < before.rooms[r].room.peers.len()
                &&& before.rooms[r].room.peers[p].link.takes(input)
                &&& forall|i: int, j: int|
                    0 <= i < r && 0 <= j < before.rooms[i].room.peers.len() ==> !(
                    #[trigger] before.rooms[i].room.peers[j]).link.takes(input)
                &&& forall|j: int|
                    0 <= j < p ==> !(#[trigger] before.rooms[r].room.peers[j]).link.takes(input)
            };
            &&& !is_traffic(bytes) || !taken ==> after == before
            &&& is_traffic(bytes) && first ==> {
                let peer = after.rooms[r].room.peers[p];
                let room = before.rooms[r].room;
                &&& is_fed(room.peers[p], peer, input)
                &&& after == EngineView {
                    rooms: before.rooms.update(
                        r,
                        NamedRoom {
                            room: RoomView { peers: room.peers.update(p, peer), ..room },
                            ..before.rooms[r]
                        },
                    ),
                    ..before
                }
            }
        }),
{
    let input = InputView::Datagram { source, destination: before.advertised, bytes };
    let there = holds_taker(input);
    let taking = takes_input(input);
    first_where_is_first(before.rooms, there);
    if let Some(i) = first_where(before.rooms, there) {
        first_where_is_first(before.rooms[i].room.peers, taking);
        let j = first_where(before.rooms[i].room.peers, taking)->0;
        assert(before.rooms[i].room.peers[j].link.takes(input));
    }
    if {
        &&& 0 <= r < before.rooms.len()
        &&& 0 <= p < before.rooms[r].room.peers.len()
        &&& before.rooms[r].room.peers[p].link.takes(input)
        &&& forall|i: int, j: int|
            0 <= i < r && 0 <= j < before.rooms[i].room.peers.len() ==> !(
            #[trigger] before.rooms[i].room.peers[j]).link.takes(input)
        &&& forall|j: int|
            0 <= j < p ==> !(#[trigger] before.rooms[r].room.peers[j]).link.takes(input)
    } {
        assert forall|j: int| 0 <= j < p implies !taking(
            #[trigger] before.rooms[r].room.peers[j],
        ) by {}
        first_where_found(before.rooms[r].room.peers, taking, p);
        assert forall|i: int| 0 <= i < r implies !there(#[trigger] before.rooms[i]) by {
            first_where_is_first(before.rooms[i].room.peers, taking);
            if let Some(j) = first_where(before.rooms[i].room.peers, taking) {
                assert(before.rooms[i].room.peers[j].link.takes(input));
            }
        }
        first_where_found(before.rooms, there, r);
    }
}

/// Every peer of every room learns that time has passed, and nothing else happens.
pub proof fn time_passes_for_everyone(before: EngineView, after: EngineView, r: int, p: int)
    requires
        ticks(before, after),
        0 <= r < before.rooms.len(),
        0 <= p < before.rooms[r].room.peers.len(),
    ensures
        after == (EngineView { rooms: after.rooms, ..before }),
        after.rooms.len() == before.rooms.len(),
        after.rooms[r].name == before.rooms[r].name,
        after.rooms[r].room.call_id == before.rooms[r].room.call_id,
        after.rooms[r].room.speaking == before.rooms[r].room.speaking,
        after.rooms[r].room.peers.len() == before.rooms[r].room.peers.len(),
        is_fed(before.rooms[r].room.peers[p], after.rooms[r].room.peers[p], InputView::Tick),
{
    assert(room_ticks(before.rooms[r].room, after.rooms[r].room));
}

/// A peer to be given up: its session has ended, or it has been cut off for twenty
/// seconds.
pub open spec fn is_beyond_help(peer: PeerView, now: u64) -> bool {
    ||| !peer.link.alive()
    ||| {
        &&& peer.disconnected_since is Some
        &&& now - peer.disconnected_since->0 >= 20_000_000_000
    }
}

/// Somebody of this id is in a room and is to be given up.
pub open spec fn is_lost(engine: EngineView, id: PeerId, now: u64) -> bool {
    exists|r: int, p: int|
        #[trigger] is_placed(engine, id, r, p) && is_beyond_help(
            engine.rooms[r].room.peers[p],
            now,
        )
}

proof fn the_dead_of_a_room_are_lost(peers: Seq<PeerView>, now: u64, id: PeerId)
    ensures
        dead_among(peers, now).contains(id) <==> exists|p: int|
            0 <= p < peers.len() && (#[trigger] peers[p]).id == id && is_beyond_help(peers[p], now),
    decreases peers.len(),
{
    if peers.len() > 0 {
        let front = peers.drop_last();
        let rest = dead_among(front, now);
        let all = dead_among(peers, now);
        the_dead_of_a_room_are_lost(front, now, id);
        if all.contains(id) {
            let n = choose|n: int| 0 <= n < all.len() && all[n] == id;
            if n < rest.len() {
                assert(rest[n] == id);
                let p = choose|p: int|
                    0 <= p < front.len() && (#[trigger] front[p]).id == id && is_beyond_help(
                        front[p],
                        now,
                    );
                assert(peers[p] == front[p]);
            } else {
                assert(peers[peers.len() - 1].id == id);
            }
        }
        if exists|p: int|
            0 <= p < peers.len() && (#[trigger] peers[p]).id == id && is_beyond_help(peers[p], now) {
            let p = choose|p: int|
                0 <= p < peers.len() && (#[trigger] peers[p]).id == id && is_beyond_help(
                    peers[p],
                    now,
                );
            if p < front.len() {
                assert(front[p] == peers[p]);
                assert(rest.contains(id));
                let n = choose|n: int| 0 <= n < rest.len() && rest[n] == id;
                assert(all[n] == id);
            } else {
                assert(all[rest.len() as int] == id);
            }
        }
    }
}

proof fn the_dead_are_lost(rooms: Seq<NamedRoom>, now: u64, id: PeerId)
    ensures
        dead_in(rooms, now).contains(id) <==> exists|r: int, p: int|
            0 <= r < rooms.len() && 0 <= p < rooms[r].room.peers.len() && (
            #[trigger] rooms[r].room.peers[p]).id == id && is_beyond_help(
                rooms[r].room.peers[p],
                now,
            ),
    decreases rooms.len(),
{
    if rooms.len() > 0 {
        let front = rooms.drop_last();
        let last = rooms.len() - 1;
        let earlier = dead_in(front, now);
        let here = dead_among(rooms.last().room.peers, now);
        let all = dead_in(rooms, now);
        the_dead_are_lost(front, now, id);
        the_dead_of_a_room_are_lost(rooms.last().room.peers, now, id);
        if all.contains(id) {
            let n = choose|n: int| 0 <= n < all.len() && all[n] == id;
            if n < earlier.len() {
                assert(earlier[n] == id);
                let (r, p) = choose|r: int, p: int|
                    0 <= r < front.len() && 0 <= p < front[r].room.peers.len() && (
                    #[trigger] front[r].room.peers[p]).id == id && is_beyond_help(
                        front[r].room.peers[p],
                        now,
                    );
                assert(rooms[r].room.peers[p].id == id);
            } else {
                assert(here[n - earlier.len()] == id);
                let p = choose|p: int|
                    0 <= p < rooms.last().room.peers.len() && (
                    #[trigger] rooms.last().room.peers[p]).id == id && is_beyond_help(
                        rooms.last().room.peers[p],
                        now,
                    );
                assert(rooms[last].room.peers[p].id == id);
            }
        }
        if exists|r: int, p: int|
            0 <= r < rooms.len() && 0 <= p < rooms[r].room.peers.len() && (
            #[trigger] rooms[r].room.peers[p]).id == id && is_beyond_help(
                rooms[r].room.peers[p],
                now,
            ) {
            let (r, p) = choose|r: int, p: int|
                0 <= r < rooms.len() && 0 <= p < rooms[r].room.peers.len() && (
                #[trigger] rooms[r].room.peers[p]).id == id && is_beyond_help(
                    rooms[r].room.peers[p],
                    now,
                );
            if r < last {
                assert(front[r].room.peers[p].id == id);
                assert(earlier.contains(id));
                let n = choose|n: int| 0 <= n < earlier.len() && earlier[n] == id;
                assert(all[n] == id);
            } else {
                assert(rooms.last().room.peers[p].id == id);
                assert(here.contains(id));
                let n = choose|n: int| 0 <= n < here.len() && here[n] == id;
                assert(all[earlier.len() + n] == id);
            }
        }
    }
}

/// A peer is in a room of this name, as it is.
pub open spec fn is_in(engine: EngineView, name: Seq<char>, peer: PeerView) -> bool {
    exists|r: int, p: int|
        0 <= r < engine.rooms.len() && 0 <= p < engine.rooms[r].room.peers.len()
            && engine.rooms[r].name == name && #[trigger] engine.rooms[r].room.peers[p] == peer
}

/// What one departure means for anybody.
proof fn a_departure_leaves_the_rest(engine: EngineView, id: PeerId, name: Seq<char>, peer: PeerView)
    requires
        is_sound(engine),
    ensures
        is_in(dropped(engine, id), name, peer) <==> is_in(engine, name, peer) && peer.id != id,
        engine.reports.is_prefix_of(dropped(engine, id).reports),
        is_in(engine, name, peer) && peer.id == id && peer.reported ==> dropped(
            engine,
            id,
        ).reports.contains(
            Report {
                event: "participant_left"@,
                room: name,
                identity: Some(peer.user_id),
                source: None,
            },
        ),
{
    let after = dropped(engine, id);
    on_record_is_seated(engine, id);
    if let Some((r, p)) = seat_of(engine, id) {
        assert(is_placed(engine, id, r, p));
        dropping_is_leaving(engine, id, r, p);
        let entry = engine.rooms[r];
        let stay = entry.room.peers.remove(p);
        seat_is_unique(engine, id.0, r, p);
        if is_in(after, name, peer) {
            let (i, j) = choose|i: int, j: int|
                0 <= i < after.rooms.len() && 0 <= j < after.rooms[i].room.peers.len()
                    && after.rooms[i].name == name && #[trigger] after.rooms[i].room.peers[j] == peer;
            let a = if stay.len() == 0 && i >= r { i + 1 } else { i };
            let b = if a == r && j >= p { j + 1 } else { j };
            assert(engine.rooms[a].room.peers[b] == peer);
            assert(engine.rooms[a].name == name);
            if peer.id == id {
                assert(sits(engine, id.0, a, b));
            }
        }
        if is_in(engine, name, peer) {
            let (i, j) = choose|i: int, j: int|
                0 <= i < engine.rooms.len() && 0 <= j < engine.rooms[i].room.peers.len()
                    && engine.rooms[i].name == name && #[trigger] engine.rooms[i].room.peers[j]
                    == peer;
            if peer.id != id {
                let a = if stay.len() == 0 && i > r { i - 1 } else { i };
                let b = if i == r && j > p { j - 1 } else { j };
                assert(is_proper(engine.rooms[i].room, engine.max_room_peers));
                assert(after.rooms[a].room.peers[b] == peer);
                assert(after.rooms[a].name == name);
            } else {
                assert(sits(engine, id.0, i, j));
                if peer.reported {
                    let left = Report {
                        event: "participant_left"@,
                        room: name,
                        identity: Some(peer.user_id),
                        source: None,
                    };
                    assert(after.reports[engine.reports.len() as int] == left);
                }
            }
        }
    } else {
        if is_in(engine, name, peer) && peer.id == id {
            let (i, j) = choose|i: int, j: int|
                0 <= i < engine.rooms.len() && 0 <= j < engine.rooms[i].room.peers.len()
                    && engine.rooms[i].name == name && #[trigger] engine.rooms[i].room.peers[j]
                    == peer;
            assert(is_on_record(engine, engine.rooms[i].room.peers[j], engine.rooms[i].name));
        }
    }
}

proof fn departures_leave_the_rest(engine: EngineView, ids: Seq<PeerId>, name: Seq<char>, peer: PeerView)
    requires
        is_sound(engine),
    ensures
        is_sound(all_dropped(engine, ids)),
        is_in(all_dropped(engine, ids), name, peer) <==> is_in(engine, name, peer) && !ids.contains(
            peer.id,
        ),
        engine.reports.is_prefix_of(all_dropped(engine, ids).reports),
        is_in(engine, name, peer) && ids.contains(peer.id) && peer.reported ==> all_dropped(
            engine,
            ids,
        ).reports.contains(
            Report {
                event: "participant_left"@,
                room: name,
                identity: Some(peer.user_id),
                source: None,
            },
        ),
    decreases ids.len(),
{
    if ids.len() > 0 {
        let front = ids.drop_last();
        let earlier = all_dropped(engine, front);
        departures_leave_the_rest(engine, front, name, peer);
        a_departure_leaves_the_rest(earlier, ids.last(), name, peer);
        leaving_keeps_sound(earlier, ids.last());
        let after = all_dropped(engine, ids);
        assert(ids.contains(peer.id) <==> front.contains(peer.id) || ids.last() == peer.id) by {
            if front.contains(peer.id) {
                let i = choose|i: int| 0 <= i < front.len() && front[i] == peer.id;
                assert(ids[i] == peer.id);
            }
            if ids.last() == peer.id {
                assert(ids[ids.len() - 1] == peer.id);
            }
            if ids.contains(peer.id) && ids.last() != peer.id {
                let i = choose|i: int| 0 <= i < ids.len() && ids[i] == peer.id;
                assert(front[i] == peer.id);
            }
        }
        assert(engine.reports.is_prefix_of(after.reports)) by {
            assert forall|i: int| 0 <= i < engine.reports.len() implies engine.reports[i]
                == #[trigger] after.reports[i] by {
                assert(earlier.reports[i] == engine.reports[i]) by {
                    assert(earlier.reports.take(engine.reports.len() as int)[i]
                        == earlier.reports[i]);
                }
                assert(after.reports.take(earlier.reports.len() as int)[i] == after.reports[i]);
            }
            assert(engine.reports =~= after.reports.take(engine.reports.len() as int));
        }
        let left = Report {
            event: "participant_left"@,
            room: name,
            identity: Some(peer.user_id),
            source: None,
        };
        if earlier.reports.contains(left) {
            let i = choose|i: int| 0 <= i < earlier.reports.len() && earlier.reports[i] == left;
            assert(after.reports.take(earlier.reports.len() as int)[i] == after.reports[i]);
            assert(after.reports[i] == left);
        }
    } else {
        assert(engine.reports =~= engine.reports.take(engine.reports.len() as int));
    }
}

/// Sweeping out the dead takes out those whose session has ended or who have been cut
/// off for twenty seconds, and nobody else: whoever is not beyond help stays in its
/// room as it is. Of those taken out, the host application is told that they left if it
/// was told that they came.
pub proof fn the_dead_are_swept_out(engine: EngineView, now: u64, name: Seq<char>, peer: PeerView)
    requires
        is_sound(engine),
    ensures
        is_in(reaped(engine, now), name, peer) <==> is_in(engine, name, peer) && !is_beyond_help(
            peer,
            now,
        ),
        engine.reports.is_prefix_of(reaped(engine, now).reports),
        is_in(engine, name, peer) && is_beyond_help(peer, now) && peer.reported ==> reaped(
            engine,
            now,
        ).reports.contains(
            Report {
                event: "participant_left"@,
                room: name,
                identity: Some(peer.user_id),
                source: None,
            },
        ),
{
    let ids = dead_in(engine.rooms, now);
    the_dead_are_lost(engine.rooms, now, peer.id);
    departures_leave_the_rest(engine, ids, name, peer);
    if is_in(engine, name, peer) {
        let (i, j) = choose|i: int, j: int|
            0 <= i < engine.rooms.len() && 0 <= j < engine.rooms[i].room.peers.len()
                && engine.rooms[i].name == name && #[trigger] engine.rooms[i].room.peers[j] == peer;
        assert(engine.rooms[i].room.peers[j].id == peer.id);
        seat_is_unique(engine, peer.id.0, i, j);
        if ids.contains(peer.id) {
            let (r, p) = choose|r: int, p: int|
                0 <= r < engine.rooms.len() && 0 <= p < engine.rooms[r].room.peers.len() && (
                #[trigger] engine.rooms[r].room.peers[p]).id == peer.id && is_beyond_help(
                    engine.rooms[r].room.peers[p],
                    now,
                );
            assert(sits(engine, peer.id.0, r, p));
        }
    }
}

} // verus!
