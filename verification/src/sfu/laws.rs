//! What the media loop promises.
use str0m::change::{SdpAnswer, SdpOffer};
use vstd::prelude::*;

use crate::auth::JoinClaimsView;
use crate::find::{first_where, first_where_found, first_where_is_first};
use crate::names::{is_ordered, ordered_is_a_sorting};
use crate::proto::{ServerMsgView, TrackMapView};
use crate::report::{participant_report, room_report, Report};
use crate::sfu::audibility::hears;
use crate::sfu::command::{Applied, Command, JoinReplyView};
use crate::sfu::dispatch::{applies, seat_of, state_set};
use crate::sfu::engine::{is_named, EngineView, NamedRoom, SPEAKING_TICK};
use crate::sfu::engine_io::{
    all_arrived, arrivals, arrivals_in, arrived, arrived_room, connections_reported, is_visited,
    speaking_ticked, Visit,
};
use crate::sfu::join::{
    admitted, all_dropped, all_retired, answered, dead_among, dead_in, dropped, is_dead, is_full,
    is_introduced, joins, numbered, opened_room, peers_of_user, reaped, replaced_frame, retired,
    seated,
};
use crate::sfu::media_loop::sees_to_rooms;
use crate::sfu::negotiate::{
    is_stopped_already, mapping, mappings, marked, marked_all, proposes, sender_for, settled,
};
use crate::sfu::outbox::Post;
use crate::sfu::payloads::{is_unambiguous, new_mids, unambiguous_fits};
use crate::sfu::peer::{
    fresh_peer, ice_noted, is_answered, is_offered, negotiates, AnswerError, ICE_DISCONNECT_GRACE,
    PeerView, SPEAKING_HOLD,
};
use crate::sfu::peer_media::{
    carries, forwarding_line, forwards, is_speech, keyframe_wanted, level_noted, publication,
    KEYFRAME_INTERVAL,
};
use crate::sfu::room::{
    has_id, receives, speaking_posts, speaking_synced, subscribed, talking, to_all, without_peer,
    RoomView,
};
use crate::sfu::soundness::{
    a_user_has_one_peer, is_on_record, is_proper, is_seated, is_sound, joining_seats_the_newcomer,
    on_record_is_seated, retiring_keeps_count, retiring_keeps_rooms, same_person, seat_is_unique,
    sits, state_keeps_sound, subscribing_keeps_people,
};
use crate::sfu::tracks::{
    KeyframeKind, MediaPacketView, PeerId, PropagatedView, TrackInView, TrackOutStateView,
    TrackOutView,
};
use crate::sfu::transport::{frame_sent, Asked, Transport};
use crate::sfu::webrtc::{as_mid, offer_of, IceState, Proposal};

verus! {

/// A departure reaches the rest of the room: each of those who stay is told
/// once, and nobody else is told anything. The host application hears of it only
/// if it had heard of the arrival; it also hears of the end of the room if the
/// peer was the last, and then the room is gone.
pub proof fn a_departure_is_made_known(engine: EngineView, id: PeerId, r: int, p: int)
    requires
        is_sound(engine),
        sits(engine, id.0, r, p),
    ensures
        ({
            let name = engine.rooms[r].name;
            let gone = engine.rooms[r].room.peers[p];
            let stay = engine.rooms[r].room.peers.remove(p);
            let after = dropped(engine, id);
            let left = if gone.reported {
                engine.reports.push(participant_report("participant_left"@, name, gone.user_id))
            } else {
                engine.reports
            };
            &&& after.outbox == engine.outbox + to_all(
                stay,
                ServerMsgView::PeerLeft { peer_id: id.text() },
            )
            &&& after.reports == if stay.len() == 0 {
                left.push(room_report("room_finished"@, name))
            } else {
                left
            }
            &&& !after.peer_rooms.contains_key(id.0)
            &&& after.room_index(name) is None <==> stay.len() == 0
        }),
{
    seat_is_unique(engine, id.0, r, p);
    let name = engine.rooms[r].name;
    let room = engine.rooms[r].room;
    let after = dropped(engine, id);
    assert(is_on_record(engine, room.peers[p], name));
    assert(PeerId(id.0) == id);
    assert(first_where(room.peers, has_id(id)) == Some(p));
    first_where_is_first(after.rooms, is_named(name));
    if room.peers.remove(p).len() == 0 {
        if let Some(i) = after.room_index(name) {
            let a = if i < r { i } else { i + 1 };
            assert(after.rooms[i] == engine.rooms[a]);
            assert(engine.rooms[a].name == engine.rooms[r].name);
            assert(false);
        }
    } else {
        assert(is_named(name)(after.rooms[r]));
    }
}

/// Nobody who has left is listed as speaking.
pub proof fn the_departed_do_not_speak(room: RoomView, id: PeerId)
    requires
        first_where(room.peers, has_id(id)) is Some,
    ensures
        !without_peer(room, id).speaking.contains(id.text()),
{
    let keep = |entry: Seq<char>| entry != id.text();
    let rest = room.speaking.filter(keep);
    broadcast use vstd::seq_lib::group_filter_ensures;

    if rest.contains(id.text()) {
        let i = choose|i: int| 0 <= i < rest.len() && rest[i] == id.text();
        assert(keep(rest[i]));
    }
}

proof fn arrivals_are_few(name: Seq<char>, peers: Seq<PeerView>)
    ensures
        arrivals(name, all_arrived(peers)) == Seq::<Report>::empty(),
    decreases peers.len(),
{
    if peers.len() > 0 {
        let after = all_arrived(peers);
        assert(after.drop_last() =~= all_arrived(peers.drop_last()));
        assert(after.last() == arrived(peers.last()));
        arrivals_are_few(name, peers.drop_last());
    }
}

proof fn no_arrivals_are_left(rooms: Seq<NamedRoom>)
    ensures
        arrivals_in(rooms.map_values(|r: NamedRoom| arrived_room(r))) == Seq::<Report>::empty(),
    decreases rooms.len(),
{
    if rooms.len() > 0 {
        let after = rooms.map_values(|r: NamedRoom| arrived_room(r));
        assert(after.drop_last() =~= rooms.drop_last().map_values(
            |r: NamedRoom| arrived_room(r),
        ));
        no_arrivals_are_left(rooms.drop_last());
        arrivals_are_few(rooms.last().name, rooms.last().room.peers);
        assert(after.last() == arrived_room(rooms.last()));
    }
}

/// An arrival is reported once: with all arrivals reported, there is nothing
/// more to report.
pub proof fn arrivals_are_reported_once(engine: EngineView)
    ensures
        connections_reported(connections_reported(engine)) == connections_reported(engine),
{
    let once = connections_reported(engine);
    let twice = connections_reported(once);
    no_arrivals_are_left(engine.rooms);
    assert(twice.reports =~= once.reports);
    assert(twice.rooms =~= once.rooms) by {
        assert forall|r: int| 0 <= r < once.rooms.len() implies twice.rooms[r] == once.rooms[r] by {
            assert(twice.rooms[r].room.peers =~= once.rooms[r].room.peers);
        }
    }
}

/// An arrival is reported only for a peer that is connected, and at most once
/// per peer.
pub proof fn only_connected_peers_arrive(peer: PeerView)
    ensures
        arrived(peer).reported ==> peer.reported || peer.connected,
        arrived(arrived(peer)) == arrived(peer),
{
}

/// The room is told of its speakers only when the list moves: a second look at
/// the same time has nothing to tell.
pub proof fn speakers_are_told_once(room: RoomView, now: u64)
    ensures
        speaking_posts(speaking_synced(room, now), now) == Seq::<Post>::empty(),
        speaking_synced(speaking_synced(room, now), now) == speaking_synced(room, now),
{
}

/// Being heard: speaking, and not muted.
pub open spec fn is_heard(peer: PeerView, now: u64) -> bool {
    !peer.muted && peer.is_speaking(now)
}

/// Those listed as speaking are exactly those who speak and are not muted.
pub proof fn speakers_are_heard(peers: Seq<PeerView>, now: u64, name: Seq<char>)
    ensures
        talking(peers, now).contains(name) <==> exists|i: int|
            0 <= i < peers.len() && is_heard(#[trigger] peers[i], now) && peers[i].id.text() == name,
    decreases peers.len(),
{
    if peers.len() > 0 {
        let front = peers.drop_last();
        let rest = talking(front, now);
        let all = talking(peers, now);
        speakers_are_heard(front, now, name);
        if all.contains(name) {
            let n = choose|n: int| 0 <= n < all.len() && all[n] == name;
            if n < rest.len() {
                assert(rest[n] == name);
                let i = choose|i: int|
                    0 <= i < front.len() && is_heard(#[trigger] front[i], now) && front[i].id.text()
                        == name;
                assert(peers[i] == front[i]);
            } else {
                assert(is_heard(peers[peers.len() - 1], now));
            }
        }
        if exists|i: int|
            0 <= i < peers.len() && is_heard(#[trigger] peers[i], now) && peers[i].id.text() == name {
            let i = choose|i: int|
                0 <= i < peers.len() && is_heard(#[trigger] peers[i], now) && peers[i].id.text()
                    == name;
            if i < front.len() {
                assert(front[i] == peers[i]);
                assert(rest.contains(name));
                let n = choose|n: int| 0 <= n < rest.len() && rest[n] == name;
                assert(all[n] == name);
            } else {
                assert(all[rest.len() as int] == name);
            }
        }
    }
}

/// The list of speakers is in alphabetical order and lists exactly the speakers.
pub proof fn speakers_are_in_order(room: RoomView, now: u64)
    ensures
        is_ordered(speaking_synced(room, now).speaking),
        speaking_synced(room, now).speaking.to_multiset() == talking(room.peers, now).to_multiset(),
{
    ordered_is_a_sorting(talking(room.peers, now));
}

/// A screen share is reported when it begins or ends, and not when it is
/// announced again.
pub proof fn a_share_is_reported_once(engine: EngineView, id: PeerId, active: bool)
    requires
        is_sound(engine),
    ensures
        ({
            let once = state_set(engine, id, None, Some(active));
            state_set(once, id, None, Some(active)).reports == once.reports
        }),
{
    let once = state_set(engine, id, None, Some(active));
    state_keeps_sound(engine, id, None, Some(active));
    on_record_is_seated(engine, id);
    if let Some((r, p)) = seat_of(engine, id) {
        assert(sits(once, id.0, r, p));
        seat_is_unique(once, id.0, r, p);
        assert(PeerId(id.0) == id);
        assert(once.rooms[r].room.peers[p].screen == active);
    }
}

/// A mute is not reported to the host application.
pub proof fn a_mute_is_not_reported(engine: EngineView, id: PeerId, muted: bool)
    ensures
        state_set(engine, id, Some(muted), None).reports == engine.reports,
{
}

/// There is never more than one offer out: none is made while one waits for its
/// answer.
pub proof fn offers_are_made_one_at_a_time(
    before: PeerView,
    after: PeerView,
    present: Seq<PeerId>,
    offered: bool,
    sent: Seq<Post>,
)
    requires
        negotiates(before, after, present, offered, sent),
    ensures
        before.pending is Some ==> !offered && after == before,
        offered ==> after.pending is Some && sent.len() == 1 && sent[0].to == before.id,
{
}

/// The steps of a negotiation stop an m-line, unless some of them made up a change
/// after which stopping it changed nothing.
pub open spec fn is_asked_to_stop(steps: Seq<Proposal>, mid: Seq<char>) -> bool {
    ||| steps.contains(Proposal::Stop { mid: as_mid(mid) })
    ||| exists|k: int| 0 <= k <= steps.len() && is_stopped_already(#[trigger] steps.take(k), mid)
}

proof fn more_steps_stop_as_much(steps: Seq<Proposal>, mid: Seq<char>)
    requires
        steps.len() > 0,
        is_asked_to_stop(steps.drop_last(), mid),
    ensures
        is_asked_to_stop(steps, mid),
{
    let fewer = steps.drop_last();
    let step = Proposal::Stop { mid: as_mid(mid) };
    if fewer.contains(step) {
        let n = choose|n: int| 0 <= n < fewer.len() && fewer[n] == step;
        assert(steps[n] == step);
    } else {
        let k = choose|k: int|
            0 <= k <= fewer.len() && is_stopped_already(#[trigger] fewer.take(k), mid);
        assert(steps.take(k) =~= fewer.take(k));
    }
}

/// What a negotiation does to one subscription.
pub proof fn a_negotiation_moves_each_subscription(
    before: Seq<TrackOutView>,
    after: Seq<TrackOutView>,
    present: Seq<PeerId>,
    steps: Seq<Proposal>,
    i: int,
)
    requires
        proposes(before, after, present, steps),
        0 <= i < before.len(),
    ensures
        after.len() == before.len(),
        after[i].track_in == before[i].track_in,
        match before[i].state {
            TrackOutStateView::ToOpen => if present.contains(before[i].track_in.origin) {
                &&& after[i].state matches TrackOutStateView::Negotiating(mid)
                &&& steps.contains(sender_for(before[i].track_in, mid))
            } else {
                after[i] == before[i]
            },
            TrackOutStateView::ToStop(mid) => {
                &&& after[i].state == TrackOutStateView::NegotiatingStop(mid)
                &&& is_asked_to_stop(steps, mid)
            },
            _ => after[i] == before[i],
        },
    decreases before.len(),
{
    let front = before.drop_last();
    let moved = after.drop_last();
    let fewer = steps.drop_last();
    let last = before.len() - 1;
    if i < last {
        assert(front[i] == before[i]);
        assert(moved[i] == after[i]);
        if proposes(front, moved, present, steps) {
            a_negotiation_moves_each_subscription(front, moved, present, steps, i);
        } else {
            a_negotiation_moves_each_subscription(front, moved, present, fewer, i);
            if let TrackOutStateView::Negotiating(mid) = after[i].state {
                let step = sender_for(before[i].track_in, mid);
                if fewer.contains(step) {
                    let n = choose|n: int| 0 <= n < fewer.len() && fewer[n] == step;
                    assert(steps[n] == step);
                }
            }
            if let TrackOutStateView::ToStop(mid) = before[i].state {
                more_steps_stop_as_much(steps, mid);
            }
        }
    } else {
        if let TrackOutStateView::ToStop(mid) = before[i].state {
            assert(steps.take(steps.len() as int) =~= steps);
            if !is_stopped_already(steps, mid) {
                assert(steps[steps.len() - 1] == Proposal::Stop { mid: as_mid(mid) });
            }
        }
        if let TrackOutStateView::Negotiating(mid) = after[i].state {
            if before[i].state is ToOpen && present.contains(before[i].track_in.origin) {
                assert(steps[steps.len() - 1] == sender_for(before[i].track_in, mid));
            }
        }
    }
}

/// A publisher leaving is self-healing: the next negotiation stops an open m-line
/// whose publisher has left, unless stopping it changes nothing any more.
pub proof fn a_departed_publisher_is_stopped(
    tracks: Seq<TrackOutView>,
    after: Seq<TrackOutView>,
    present: Seq<PeerId>,
    steps: Seq<Proposal>,
    i: int,
)
    requires
        proposes(marked_all(tracks, present), after, present, steps),
        0 <= i < tracks.len(),
        !present.contains(tracks[i].track_in.origin),
    ensures
        tracks[i].state matches TrackOutStateView::Open(mid) ==> after[i].state
            == TrackOutStateView::NegotiatingStop(mid) && is_asked_to_stop(steps, mid),
{
    let marks = marked_all(tracks, present);
    assert(marks[i] == marked(tracks[i], present));
    a_negotiation_moves_each_subscription(marks, after, present, steps, i);
}

/// Once the answer is in, nothing is being stopped or waiting for an answer any
/// more.
pub proof fn an_answer_settles_everything(tracks: Seq<TrackOutView>, m: int)
    requires
        0 <= m < settled(tracks).len(),
    ensures
        !(settled(tracks)[m].state is NegotiatingStop),
        !(settled(tracks)[m].state is Negotiating),
    decreases tracks.len(),
{
    if tracks.len() > 0 {
        let rest = settled(tracks.drop_last());
        if m < rest.len() {
            assert(settled(tracks)[m] == rest[m]);
            an_answer_settles_everything(tracks.drop_last(), m);
        }
    }
}

/// An offer names the publisher of every m-line that carries somebody's media,
/// and of no other: an entry is listed exactly if some subscription has that
/// m-line, is not being stopped, and its publisher is there.
pub proof fn an_offer_names_every_publisher(
    tracks: Seq<TrackOutView>,
    present: Seq<PeerId>,
    entry: TrackMapView,
)
    ensures
        mappings(tracks, present).contains(entry) <==> exists|i: int|
            0 <= i < tracks.len() && mapping(#[trigger] tracks[i], present) == Some(entry),
    decreases tracks.len(),
{
    if tracks.len() > 0 {
        let front = tracks.drop_last();
        let rest = mappings(front, present);
        let all = mappings(tracks, present);
        an_offer_names_every_publisher(front, present, entry);
        if all.contains(entry) {
            let n = choose|n: int| 0 <= n < all.len() && all[n] == entry;
            if n < rest.len() {
                assert(rest[n] == entry);
                let i = choose|i: int|
                    0 <= i < front.len() && mapping(#[trigger] front[i], present) == Some(entry);
                assert(tracks[i] == front[i]);
            } else {
                assert(mapping(tracks[tracks.len() - 1], present) == Some(entry));
            }
        }
        if exists|i: int|
            0 <= i < tracks.len() && mapping(#[trigger] tracks[i], present) == Some(entry) {
            let i = choose|i: int|
                0 <= i < tracks.len() && mapping(#[trigger] tracks[i], present) == Some(entry);
            if i < front.len() {
                assert(front[i] == tracks[i]);
                assert(rest.contains(entry));
                let n = choose|n: int| 0 <= n < rest.len() && rest[n] == entry;
                assert(all[n] == entry);
            } else {
                assert(all[rest.len() as int] == entry);
            }
        }
    }
}

/// Where no new m-line comes twice and no payload type stands for two things, whether
/// an answer is taken is up to the session. If it does not refuse it, the
/// subscriptions come up to date; otherwise the session says why.
pub proof fn the_session_decides_on_answers(
    before: PeerView,
    after: PeerView,
    answer: SdpAnswer,
    result: Result<(), AnswerError>,
)
    requires
        is_answered(before, after, answer, result),
        before.pending is Some,
        new_mids(before.link.lines_of_answer(answer)).no_duplicates(),
        is_unambiguous(before.link.formats(), before.link.lines_of_answer(answer)),
    ensures
        match before.link.refusal(before.pending->0, answer) {
            None => result is Ok && after.tracks_out == settled(before.tracks_out),
            Some(text) => result matches Err(AnswerError::Rejected(reason)) && reason@ == text,
        },
{
    unambiguous_fits(before.link.formats(), before.link.lines_of_answer(answer), false);
}

/// Where no payload type stands for two things, whether an offer is taken is up to the
/// session.
pub proof fn the_session_decides_on_offers(
    before: Transport,
    after: Transport,
    offer: SdpOffer,
    answer: Option<Seq<char>>,
)
    requires
        is_offered(before, after, offer, answer),
        is_unambiguous(before.formats(), before.lines_of_offer(offer)),
    ensures
        answer is Some <==> before.takes_offer(offer),
{
    unambiguous_fits(before.formats(), before.lines_of_offer(offer), true);
}

/// An offer is answered at most once: whatever came of the first answer, there is
/// nothing for a second to answer.
pub proof fn an_offer_is_answered_once(
    before: PeerView,
    after: PeerView,
    last: PeerView,
    first: SdpAnswer,
    second: SdpAnswer,
    outcome: Result<(), AnswerError>,
    again: Result<(), AnswerError>,
)
    requires
        is_answered(before, after, first, outcome),
        is_answered(after, last, second, again),
    ensures
        again == Err::<(), AnswerError>(AnswerError::NoPendingOffer),
        last == after,
        outcome is Err ==> after.tracks_out == before.tracks_out,
{
}

/// A publisher is asked for a keyframe at most once in the interval: after a
/// request nothing happens until it is over.
pub proof fn keyframes_are_throttled(
    before: PeerView,
    after: PeerView,
    mid: Seq<char>,
    kind: KeyframeKind,
    now: u64,
)
    requires
        keyframe_wanted(before, after, mid, kind, now),
        publication(before, mid) is Some,
    ensures
        before.tracks_in[publication(before, mid)->0].last_keyframe_request matches Some(at) ==> now
            - at < KEYFRAME_INTERVAL ==> after == before,
{
}

/// A peer counts as speaking for as long as the hold after it was last heard,
/// and no longer.
pub proof fn speech_is_held(peer: PeerView, packet: MediaPacketView, now: u64, later: u64)
    requires
        is_speech(packet),
        now + SPEAKING_HOLD <= u64::MAX,
    ensures
        level_noted(peer, packet, now).is_speaking(later) <==> later < now + SPEAKING_HOLD,
{
}

/// A packet that is not speech changes nothing.
pub proof fn silence_changes_nothing(peer: PeerView, packet: MediaPacketView, now: u64)
    requires
        !is_speech(packet),
    ensures
        level_noted(peer, packet, now) == peer,
{
}

/// A connection that is lost is given up once the grace period is spent, and not
/// before. Losing it again in the meantime does not start the period anew.
pub proof fn a_lost_connection_is_given_grace(peer: PeerView, lost: u64, again: u64, now: u64)
    requires
        peer.disconnected_since is None,
    ensures
        ({
            let once = ice_noted(peer, IceState::Disconnected, lost);
            &&& once.is_abandoned(now) <==> now >= lost + ICE_DISCONNECT_GRACE
            &&& ice_noted(once, IceState::Disconnected, again) == once
        }),
{
}

/// A connection that comes back is not given up, however long it was away.
pub proof fn a_recovered_connection_is_kept(peer: PeerView, back: u64, now: u64)
    ensures
        !ice_noted(peer, IceState::Connected, back).is_abandoned(now),
        !ice_noted(peer, IceState::Completed, back).is_abandoned(now),
        ice_noted(peer, IceState::Connected, back).connected,
        ice_noted(peer, IceState::Completed, back).connected,
{
}

/// Only peers whose session has ended or that are cut off for too long are
/// swept out.
pub proof fn only_the_dead_are_reaped(peers: Seq<PeerView>, now: u64, id: PeerId)
    ensures
        dead_among(peers, now).contains(id) <==> exists|i: int|
            0 <= i < peers.len() && is_dead(#[trigger] peers[i], now) && peers[i].id == id,
    decreases peers.len(),
{
    if peers.len() > 0 {
        let front = peers.drop_last();
        let rest = dead_among(front, now);
        let all = dead_among(peers, now);
        only_the_dead_are_reaped(front, now, id);
        if all.contains(id) {
            let n = choose|n: int| 0 <= n < all.len() && all[n] == id;
            if n < rest.len() {
                assert(rest[n] == id);
                let i = choose|i: int|
                    0 <= i < front.len() && is_dead(#[trigger] front[i], now) && front[i].id == id;
                assert(peers[i] == front[i]);
            } else {
                assert(is_dead(peers[peers.len() - 1], now));
            }
        }
        if exists|i: int| 0 <= i < peers.len() && is_dead(#[trigger] peers[i], now) && peers[i].id == id {
            let i = choose|i: int|
                0 <= i < peers.len() && is_dead(#[trigger] peers[i], now) && peers[i].id == id;
            if i < front.len() {
                assert(front[i] == peers[i]);
                assert(rest.contains(id));
                let n = choose|n: int| 0 <= n < rest.len() && rest[n] == id;
                assert(all[n] == id);
            } else {
                assert(all[rest.len() as int] == id);
            }
        }
    }
}

/// Media is forwarded untouched: whatever a subscriber's session is handed is the
/// publisher's own frame with its own audio level, on the subscriber's m-line
/// for that track.
pub proof fn frames_are_forwarded_untouched(
    before: PeerView,
    after: PeerView,
    origin: PeerId,
    packet: MediaPacketView,
    present: Seq<PeerId>,
)
    requires
        forwards(before, after, origin, packet, present),
    ensures
        before.link.asked().is_prefix_of(after.link.asked()),
        forall|n: int|
            before.link.asked().len() <= n < after.link.asked().len() ==> {
                ||| #[trigger] after.link.asked()[n] is Disconnect
                ||| {
                    &&& after.link.asked()[n] matches Asked::Frame { mid, level, frame, sent }
                    &&& forwarding_line(before, origin, packet.mid, present) matches Some(line)
                    &&& mid == as_mid(line)
                    &&& level == packet.level()
                    &&& frame == packet.frame
                    &&& before.link.sends(mid, packet.level(), packet.frame, sent)
                }
            },
        forwarding_line(before, origin, packet.mid, present) matches Some(mid) ==> {
            &&& before.link.has_line(mid)
            &&& before.link.has_format(packet.frame)
            &&& before.link.takes_frame(mid, packet.frame)
        } ==> after.link.asked() == before.link.asked().push(frame_sent(mid, packet, true)),
{
}

/// What a subscriber hears has a way to it: once every subscription of a peer to
/// a track has its m-line, the track's packets have one to go out on.
pub proof fn what_is_heard_has_a_line(peer: PeerView, track: TrackInView, present: Seq<PeerId>)
    requires
        hears(peer, track),
        present.contains(track.origin),
        forall|m: int|
            0 <= m < peer.tracks_out.len() && carries(track.origin, track.mid)(
                #[trigger] peer.tracks_out[m],
            ) ==> peer.tracks_out[m].mid() is Some,
    ensures
        forwarding_line(peer, track.origin, track.mid, present) is Some,
{
    first_where_is_first(peer.tracks_out, carries(track.origin, track.mid));
    let m = choose|m: int|
        0 <= m < peer.tracks_out.len() && (#[trigger] peer.tracks_out[m]).track_in == track;
    assert(carries(track.origin, track.mid)(peer.tracks_out[m]));
}

/// Nobody gets back what it sent.
pub proof fn nothing_comes_back(
    before: PeerView,
    after: PeerView,
    event: PropagatedView,
    present: Seq<PeerId>,
)
    requires
        receives(before, after, event, present),
        event.source() == Some(before.id),
    ensures
        after == before,
{
}

/// Ids are given out one after the other and never twice: whoever is let in gets
/// the next, which nobody has or had, and it is not given out again.
pub proof fn ids_are_never_reused(
    before: EngineView,
    after: EngineView,
    claims: JoinClaimsView,
    sdp: Seq<char>,
    reply: JoinReplyView,
)
    requires
        is_sound(before),
        before.next_peer < u64::MAX,
        joins(before, after, claims, sdp, reply),
    ensures
        before.next_peer <= after.next_peer,
        reply matches JoinReplyView::Admitted(id) ==> {
            &&& id.0 == before.next_peer
            &&& after.next_peer == id.0 + 1
            &&& !before.peer_rooms.contains_key(id.0)
            &&& after.peer_rooms.contains_key(id.0)
        },
{
    if before.peer_rooms.contains_key(before.next_peer) {
        assert(is_seated(before, before.next_peer));
        let (r, p) = choose|r: int, p: int| sits(before, before.next_peer, r, p);
        assert(is_on_record(before, before.rooms[r].room.peers[p], before.rooms[r].name));
    }
    if !is_full(before, claims.room, claims.sub) {
        if let Some(offer) = offer_of(sdp) {
            let (link, answer) = choose|link: Transport, answer: Option<Seq<char>>|
                {
                    &&& is_introduced(before, link, offer, answer)
                    &&& #[trigger] answered(before, after, claims, link, answer, reply)
                };
            if let Some(text) = answer {
                let open = opened_room(numbered(before), claims.room, claims.call_id);
                let r = open.room_index(claims.room)->0;
                retiring_keeps_count(
                    open,
                    r,
                    peers_of_user(open.rooms[r].room.peers, claims.sub),
                );
            }
        }
    }
}

/// The first join makes the room: where there was none of its name, there is one
/// afterwards, with the newcomer alone in it and for the call the newcomer named.
pub proof fn the_first_join_makes_the_room(
    engine: EngineView,
    claims: JoinClaimsView,
    peer: PeerView,
    answer: Seq<char>,
)
    requires
        is_sound(engine),
        engine.next_peer < u64::MAX,
        engine.room_index(claims.room) is None,
        peer.id == PeerId(engine.next_peer),
        peer.user_id == claims.sub,
    ensures
        ({
            let after = admitted(numbered(engine), claims, peer, answer);
            &&& after.room_index(claims.room) matches Some(r)
            &&& after.rooms[r].room.call_id == claims.call_id
            &&& after.rooms[r].room.peers.len() == 1
            &&& after.rooms[r].room.peers[0].id == peer.id
        }),
{
    let (r, p) = joining_seats_the_newcomer(engine, claims, peer, answer);
    let after = admitted(numbered(engine), claims, peer, answer);
    seat_is_unique(after, peer.id.0, r, p);
    let start = numbered(engine);
    let open = opened_room(start, claims.room, claims.call_id);
    let at = start.rooms.len() as int;
    first_where_is_first(start.rooms, is_named(claims.room));
    assert(start.room_index(claims.room) is None);
    assert forall|j: int| 0 <= j < at implies !is_named(claims.room)(#[trigger] open.rooms[j]) by {
        assert(open.rooms[j] == start.rooms[j]);
    }
    first_where_found(open.rooms, is_named(claims.room), at);
    let stale = peers_of_user(open.rooms[at].room.peers, claims.sub);
    assert(stale =~= Seq::empty());
    assert(all_retired(open, at, stale) == open);
    assert(after == seated(open, at, peer, claims.call_id, answer));
    assert(after.rooms[at].name == claims.room);
    first_where_is_first(after.rooms, is_named(claims.room));
    if r != at {
        assert(is_named(claims.room)(after.rooms[at]));
        assert(is_named(claims.room)(after.rooms[r]));
        assert(after.rooms[r].name != after.rooms[at].name);
    }
    subscribing_keeps_people(open.rooms[at].room.peers.push(peer), peer.id);
}

/// Reconnecting never finds the room full: a user that has a seat can take it again.
pub proof fn a_reconnect_has_a_seat(engine: EngineView, claims: JoinClaimsView, r: int, p: int)
    requires
        is_sound(engine),
        engine.max_room_peers > 0,
        0 <= r < engine.rooms.len(),
        engine.rooms[r].name == claims.room,
        0 <= p < engine.rooms[r].room.peers.len(),
        engine.rooms[r].room.peers[p].user_id == claims.sub,
    ensures
        engine.room_index(claims.room) == Some(r),
        !is_full(engine, claims.room, claims.sub),
{
    let peers = engine.rooms[r].room.peers;
    seat_is_unique(engine, peers[p].id.0, r, p);
    assert(is_proper(engine.rooms[r].room, engine.max_room_peers));
    a_user_has_one_peer(peers, claims.sub);
}

/// What letting a user in again does to the room: the newcomer sits where its
/// older peer no longer does, the others have been told that the older one left,
/// and that one that it was replaced.
proof fn letting_in_again_replaces(
    engine: EngineView,
    claims: JoinClaimsView,
    peer: PeerView,
    answer: Seq<char>,
    r: int,
    p: int,
) -> (q: int)
    requires
        is_sound(engine),
        engine.max_room_peers > 0,
        engine.next_peer < u64::MAX,
        peer.id == PeerId(engine.next_peer),
        peer.user_id == claims.sub,
        0 <= r < engine.rooms.len(),
        engine.rooms[r].name == claims.room,
        0 <= p < engine.rooms[r].room.peers.len(),
        engine.rooms[r].room.peers[p].user_id == claims.sub,
    ensures
        is_replaced(engine, admitted(numbered(engine), claims, peer, answer), claims, r, p, q),
{
    a_reconnect_has_a_seat(engine, claims, r, p);
    let seat = joining_seats_the_newcomer(engine, claims, peer, answer);
    let start = numbered(engine);
    let peers = engine.rooms[r].room.peers;
    let old_id = peers[p].id;
    let after = admitted(start, claims, peer, answer);
    assert(is_on_record(engine, peers[p], engine.rooms[r].name));
    seat_is_unique(engine, old_id.0, r, p);
    assert(start.room_index(claims.room) == Some(r));
    assert(is_proper(engine.rooms[r].room, engine.max_room_peers));
    a_user_has_one_peer(peers, claims.sub);
    let stale = peers_of_user(peers, claims.sub);
    assert(stale == seq![old_id]);
    assert(stale.drop_last() =~= Seq::empty());
    reveal_with_fuel(all_retired, 2);
    let cleared = retired(start, r, old_id);
    assert(all_retired(start, r, stale) == cleared);
    assert(after == seated(cleared, r, peer, claims.call_id, answer));
    assert(PeerId(old_id.0) == old_id);
    assert(first_where(peers, has_id(old_id)) == Some(p));
    let rest = peers.remove(p);
    assert(cleared.rooms[r].room.peers == rest);
    let told = Post { to: old_id, message: replaced_frame() };
    let n = cleared.outbox.len() - 1;
    assert(cleared.outbox[n] == told);
    assert(after.outbox[n] == told);
    let left = ServerMsgView::PeerLeft { peer_id: old_id.text() };
    assert forall|o: int| 0 <= o < peers.len() && o != p implies after.outbox.contains(
        Post { to: (#[trigger] peers[o]).id, message: left },
    ) by {
        let a = if o < p { o } else { o - 1 };
        assert(rest[a] == peers[o]);
        let at = engine.outbox.len() + a;
        assert(to_all(rest, left)[a] == Post { to: peers[o].id, message: left });
        assert(after.outbox[at] == Post { to: peers[o].id, message: left });
    }
    subscribing_keeps_people(rest.push(peer), peer.id);
    let q = rest.len() as int;
    assert(same_person(rest.push(peer)[q], after.rooms[r].room.peers[q]));
    assert(sits(after, peer.id.0, r, q));
    seat_is_unique(after, peer.id.0, seat.0, seat.1);
    q
}

/// Of the peers of a room, one was replaced by a newcomer of the same user: the
/// newcomer sits at a place in the room, alone of its user; the older peer is off
/// the record and was told so; the others were told that it left; there are as
/// many as before; and the host application has been told nothing.
pub open spec fn is_replaced(
    before: EngineView,
    after: EngineView,
    claims: JoinClaimsView,
    r: int,
    p: int,
    q: int,
) -> bool {
    let peers = before.rooms[r].room.peers;
    let old_id = peers[p].id;
    &&& sits(after, before.next_peer, r, q)
    &&& after.rooms[r].name == claims.room
    &&& after.rooms[r].room.peers[q].user_id == claims.sub
    &&& forall|o: int|
        0 <= o < after.rooms[r].room.peers.len() && o != q ==> (
        #[trigger] after.rooms[r].room.peers[o]).user_id != claims.sub
    &&& after.rooms[r].room.peers.len() == peers.len()
    &&& old_id.0 != before.next_peer
    &&& !after.peer_rooms.contains_key(old_id.0)
    &&& after.peer_rooms.contains_key(before.next_peer)
    &&& after.peer_rooms[before.next_peer] == claims.room
    &&& after.outbox.contains(Post { to: old_id, message: replaced_frame() })
    &&& forall|o: int|
        0 <= o < peers.len() && o != p ==> after.outbox.contains(
            Post {
                to: (#[trigger] peers[o]).id,
                message: ServerMsgView::PeerLeft { peer_id: old_id.text() },
            },
        )
    &&& after.reports == before.reports
}

/// Reconnecting replaces, it does not duplicate, in a full room too: whoever is let
/// in and has an older peer in the room takes its place.
pub proof fn reconnecting_replaces(
    before: EngineView,
    after: EngineView,
    claims: JoinClaimsView,
    sdp: Seq<char>,
    id: PeerId,
    r: int,
    p: int,
) -> (q: int)
    requires
        is_sound(before),
        before.max_room_peers > 0,
        before.next_peer < u64::MAX,
        joins(before, after, claims, sdp, JoinReplyView::Admitted(id)),
        0 <= r < before.rooms.len(),
        before.rooms[r].name == claims.room,
        0 <= p < before.rooms[r].room.peers.len(),
        before.rooms[r].room.peers[p].user_id == claims.sub,
    ensures
        id.0 == before.next_peer,
        is_replaced(before, after, claims, r, p, q),
{
    a_reconnect_has_a_seat(before, claims, r, p);
    let offer = offer_of(sdp)->0;
    let (link, answer) = choose|link: Transport, answer: Option<Seq<char>>|
        {
            &&& is_introduced(before, link, offer, answer)
            &&& #[trigger] answered(
                before,
                after,
                claims,
                link,
                answer,
                JoinReplyView::Admitted(id),
            )
        };
    let peer = fresh_peer(id, link, claims.sub, claims.name, claims.avatar_url);
    letting_in_again_replaces(before, claims, peer, answer->0, r, p)
}

proof fn retiring_reports_nothing(engine: EngineView, r: int, ids: Seq<PeerId>)
    ensures
        all_retired(engine, r, ids).reports == engine.reports,
    decreases ids.len(),
{
    if ids.len() > 0 {
        retiring_reports_nothing(engine, r, ids.drop_last());
    }
}

/// A join reports nothing, whatever comes of it: an arrival is reported only once
/// media can flow.
pub proof fn a_join_reports_nothing(
    before: EngineView,
    after: EngineView,
    claims: JoinClaimsView,
    sdp: Seq<char>,
    reply: JoinReplyView,
)
    requires
        joins(before, after, claims, sdp, reply),
    ensures
        after.reports == before.reports,
{
    if !is_full(before, claims.room, claims.sub) {
        if let Some(offer) = offer_of(sdp) {
            let open = opened_room(numbered(before), claims.room, claims.call_id);
            let r = open.room_index(claims.room)->0;
            retiring_reports_nothing(
                open,
                r,
                peers_of_user(open.rooms[r].room.peers, claims.sub),
            );
        }
    }
}

/// Whoever is let in starts out neither connected nor reported.
pub proof fn a_newcomer_is_not_there_yet(
    before: EngineView,
    after: EngineView,
    claims: JoinClaimsView,
    sdp: Seq<char>,
    id: PeerId,
) -> (seat: (int, int))
    requires
        is_sound(before),
        before.next_peer < u64::MAX,
        joins(before, after, claims, sdp, JoinReplyView::Admitted(id)),
    ensures
        sits(after, id.0, seat.0, seat.1),
        !after.rooms[seat.0].room.peers[seat.1].connected,
        !after.rooms[seat.0].room.peers[seat.1].reported,
{
    let offer = offer_of(sdp)->0;
    let (link, answer) = choose|link: Transport, answer: Option<Seq<char>>|
        {
            &&& is_introduced(before, link, offer, answer)
            &&& #[trigger] answered(
                before,
                after,
                claims,
                link,
                answer,
                JoinReplyView::Admitted(id),
            )
        };
    let peer = fresh_peer(id, link, claims.sub, claims.name, claims.avatar_url);
    let seat = joining_seats_the_newcomer(before, claims, peer, answer->0);
    seat_is_unique(after, id.0, seat.0, seat.1);
    let open = opened_room(numbered(before), claims.room, claims.call_id);
    let r = open.room_index(claims.room)->0;
    let stale = peers_of_user(open.rooms[r].room.peers, claims.sub);
    let cleared = all_retired(open, r, stale);
    let pushed = cleared.rooms[r].room.peers.push(peer);
    first_where_is_first(open.rooms, is_named(claims.room));
    first_where_is_first(pushed, has_id(peer.id));
    assert(has_id(peer.id)(pushed[pushed.len() - 1]));
    let at = first_where(pushed, has_id(peer.id))->0;
    retiring_keeps_rooms(open, r, stale);
    assert(after.rooms[r].room.peers == subscribed(pushed, peer.id));
    assert(sits(after, id.0, r, at));
    if at < pushed.len() - 1 {
        assert(sits(after, id.0, r, pushed.len() - 1));
    }
    seat
}

/// A refused join touches nobody: the rooms, the messages and the reports are as
/// they were.
pub proof fn a_refusal_touches_nobody(
    before: EngineView,
    after: EngineView,
    claims: JoinClaimsView,
    sdp: Seq<char>,
    reply: JoinReplyView,
)
    requires
        joins(before, after, claims, sdp, reply),
        reply is Refused,
    ensures
        after == (EngineView { next_peer: after.next_peer, ..before }),
{
}

/// A join beyond the limit of a room is refused.
pub proof fn a_full_room_stays_as_it_is(
    before: EngineView,
    after: EngineView,
    claims: JoinClaimsView,
    sdp: Seq<char>,
    reply: JoinReplyView,
)
    requires
        joins(before, after, claims, sdp, reply),
        is_full(before, claims.room, claims.sub),
    ensures
        after == before,
        reply is Refused,
{
}

/// There is a room of a name.
pub open spec fn has_room(engine: EngineView, name: Seq<char>) -> bool {
    exists|r: int| 0 <= r < engine.rooms.len() && (#[trigger] engine.rooms[r]).name == name
}

/// Every room there is was there before.
pub open spec fn makes_no_room(before: EngineView, after: EngineView) -> bool {
    forall|r: int|
        0 <= r < after.rooms.len() ==> has_room(before, (#[trigger] after.rooms[r]).name)
}

/// Where the rooms go by the same names as before, none has come into existence.
pub proof fn same_names_make_no_room(before: EngineView, after: EngineView)
    requires
        after.rooms.len() == before.rooms.len(),
        forall|r: int|
            0 <= r < after.rooms.len() ==> (#[trigger] after.rooms[r]).name == before.rooms[r].name,
    ensures
        makes_no_room(before, after),
{
    assert forall|r: int| 0 <= r < after.rooms.len() implies has_room(
        before,
        (#[trigger] after.rooms[r]).name,
    ) by {
        assert(before.rooms[r].name == after.rooms[r].name);
    }
}

proof fn leaving_makes_no_room(engine: EngineView, id: PeerId)
    ensures
        makes_no_room(engine, dropped(engine, id)),
{
    let after = dropped(engine, id);
    if engine.peer_rooms.contains_key(id.0) {
        let name = engine.peer_rooms[id.0];
        first_where_is_first(engine.rooms, is_named(name));
        if let Some(r) = engine.room_index(name) {
            assert forall|i: int| 0 <= i < after.rooms.len() implies has_room(
                engine,
                (#[trigger] after.rooms[i]).name,
            ) by {
                if after.rooms.len() < engine.rooms.len() {
                    let a = if i < r { i } else { i + 1 };
                    assert(after.rooms[i].name == engine.rooms[a].name);
                } else {
                    assert(after.rooms[i].name == engine.rooms[i].name);
                }
            }
        } else {
            same_names_make_no_room(engine, after);
        }
    } else {
        same_names_make_no_room(engine, after);
    }
}

proof fn no_room_after_no_room(a: EngineView, b: EngineView, c: EngineView)
    requires
        makes_no_room(a, b),
        makes_no_room(b, c),
    ensures
        makes_no_room(a, c),
{
    assert forall|r: int| 0 <= r < c.rooms.len() implies has_room(a, (#[trigger] c.rooms[r]).name) by {
        assert(has_room(b, c.rooms[r].name));
        let i = choose|i: int|
            0 <= i < b.rooms.len() && (#[trigger] b.rooms[i]).name == c.rooms[r].name;
        assert(has_room(a, b.rooms[i].name));
    }
}

proof fn leaving_one_after_another_makes_no_room(engine: EngineView, ids: Seq<PeerId>)
    ensures
        makes_no_room(engine, all_dropped(engine, ids)),
    decreases ids.len(),
{
    if ids.len() == 0 {
        same_names_make_no_room(engine, engine);
    } else {
        let earlier = all_dropped(engine, ids.drop_last());
        leaving_one_after_another_makes_no_room(engine, ids.drop_last());
        leaving_makes_no_room(earlier, ids.last());
        no_room_after_no_room(engine, earlier, dropped(earlier, ids.last()));
    }
}

/// Of all commands, only a join brings a room into existence.
pub proof fn only_joins_make_rooms(
    before: EngineView,
    after: EngineView,
    command: Command,
    result: Applied,
)
    requires
        is_sound(before),
        applies(before, after, command, result),
        !(command is Join),
    ensures
        makes_no_room(before, after),
{
    match command {
        Command::Answer { peer, sdp } => {
            on_record_is_seated(before, peer);
            same_names_make_no_room(before, after);
        },
        Command::Mute { peer, muted } => {
            on_record_is_seated(before, peer);
            same_names_make_no_room(before, after);
        },
        Command::Screen { peer, active } => {
            on_record_is_seated(before, peer);
            same_names_make_no_room(before, after);
        },
        Command::Leave { peer } => leaving_makes_no_room(before, peer),
        _ => same_names_make_no_room(before, after),
    }
}

/// Seeing to the rooms brings none into existence.
pub proof fn rounds_make_no_rooms(
    before: EngineView,
    after: EngineView,
    polled: EngineView,
    visits: Seq<Visit>,
    now: u64,
    wake: u64,
)
    requires
        sees_to_rooms(before, after, polled, visits, now, wake),
    ensures
        makes_no_room(before, after),
{
    let reported = connections_reported(polled);
    let swept = reaped(reported, now);
    assert forall|r: int| 0 <= r < polled.rooms.len() implies (#[trigger] polled.rooms[r]).name
        == before.rooms[r].name by {
        assert(is_visited(before.rooms[r], polled.rooms[r], visits[r], now));
    }
    same_names_make_no_room(before, polled);
    same_names_make_no_room(polled, reported);
    leaving_one_after_another_makes_no_room(reported, dead_in(reported.rooms, now));
    same_names_make_no_room(swept, after);
    no_room_after_no_room(before, polled, reported);
    no_room_after_no_room(before, reported, swept);
    no_room_after_no_room(before, swept, after);
}

/// The speakers are looked at no more often than the tick allows.
pub proof fn speakers_are_looked_at_in_time(engine: EngineView, now: u64)
    ensures
        now - engine.last_speaking < SPEAKING_TICK ==> speaking_ticked(engine, now) == engine,
        now - engine.last_speaking >= SPEAKING_TICK ==> speaking_ticked(engine, now).last_speaking
            == now,
{
}

} // verus!
