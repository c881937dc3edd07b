//! That everyone in a room is offered everything the others publish.
use str0m::net::Transmit;
use vstd::prelude::*;

use crate::auth::JoinClaimsView;
use crate::find::{first_where, first_where_found, first_where_is_first};
use crate::net::Endpoint;
use crate::sfu::command::{Applied, Command, JoinReplyView};
use crate::sfu::dispatch::{answers, applies, seat_of, state_set};
use crate::sfu::engine::{is_idle, is_named, EngineView};
use crate::sfu::engine_io::{
    connections_reported, holds_taker, is_visited, polls, reads, room_ticks, speaking_ticked,
    taker_of, takes_input, ticks, Visit,
};
use crate::sfu::join::{
    admitted, all_dropped, all_retired, answered, dead_in, dropped, is_full, is_introduced, joins,
    numbered, opened_room, peers_of_user, reaped, seated,
};
use crate::sfu::media_loop::sees_to_rooms;
use crate::sfu::negotiate::{marked, marked_all, proposes, settled};
use crate::sfu::outbox::Post;
use crate::sfu::peer::{
    fresh_peer, is_answered, is_fed, kind_of, negotiates, reacts, takes_turn, was_polled,
    AnswerError, PeerView,
};
use crate::sfu::peer_media::{is_published_on, media_noted, published};
use crate::sfu::poll::{events_of, events_of_all, is_polled, leads, takes_in, Turn};
use crate::sfu::room::{
    has_id, ids_of, new_subscription, new_subscriptions, propagates, published_by_others, receives,
    subscribed, tracks_named, without_peer, RoomView,
};
use crate::sfu::soundness::{
    answers_keep_sound, ids_differ, is_on_record, is_proper, is_sound, joining_keeps_sound,
    leaving_keeps_sound, on_record_is_seated, reaping_keeps_sound, reporting_keeps_sound,
    retiring_brings_nobody, retiring_keeps_count, retiring_keeps_rooms, same_people_stay_sound,
    same_person, same_room, speaking_keeps_sound, state_keeps_sound,
};
use crate::sfu::tracks::{MediaPacketView, PeerId, PropagatedView, TrackInView, TrackOutView};
use crate::sfu::transport::{Asked, Transport};
use crate::sfu::webrtc::{
    answer_of, happening_of, is_traffic, offer_of, packet_of, HappeningView, InputView, Polled,
    Proposal,
};

verus! {

/// A peer is subscribed to a track.
pub open spec fn hears(listener: PeerView, track: TrackInView) -> bool {
    exists|m: int|
        0 <= m < listener.tracks_out.len() && (#[trigger] listener.tracks_out[m]).track_in == track
}

/// A peer is subscribed to everything another publishes.
pub open spec fn hears_all(listener: PeerView, publisher: PeerView) -> bool {
    forall|k: int|
        0 <= k < publisher.tracks_in.len() ==> hears(
            listener,
            (#[trigger] publisher.tracks_in[k]).id,
        )
}

/// A peer publishes nothing but its own.
pub open spec fn publishes_its_own(peer: PeerView) -> bool {
    forall|k: int|
        0 <= k < peer.tracks_in.len() ==> (#[trigger] peer.tracks_in[k]).id.origin == peer.id
}

/// A subscription is to somebody else's track, and it is not being stopped as
/// long as that somebody is there.
pub open spec fn is_fair(
    track: TrackOutView,
    peer: PeerId,
    present: Seq<PeerId>,
    next_peer: u64,
) -> bool {
    &&& track.track_in.origin.0 < next_peer
    &&& track.track_in.origin != peer
    &&& track.is_stopping() ==> !present.contains(track.track_in.origin)
}

pub open spec fn subscribes_fairly(peer: PeerView, present: Seq<PeerId>, next_peer: u64) -> bool {
    forall|k: int|
        0 <= k < peer.tracks_out.len() ==> is_fair(
            #[trigger] peer.tracks_out[k],
            peer.id,
            present,
            next_peer,
        )
}

/// What holds of each peer of a room by itself.
pub open spec fn are_fair(peers: Seq<PeerView>, present: Seq<PeerId>, next_peer: u64) -> bool {
    forall|i: int|
        0 <= i < peers.len() ==> {
            &&& publishes_its_own(#[trigger] peers[i])
            &&& subscribes_fairly(peers[i], present, next_peer)
        }
}

/// Everyone is subscribed to everything that the others publish.
pub open spec fn all_hear_all(peers: Seq<PeerView>) -> bool {
    forall|i: int, j: int|
        0 <= i < peers.len() && 0 <= j < peers.len() && i != j ==> hears_all(
            #[trigger] peers[i],
            #[trigger] peers[j],
        )
}

/// In a room, everyone is subscribed to everything that the others publish, and
/// no subscription is being stopped whose publisher is there.
pub open spec fn is_audible(room: RoomView, next_peer: u64) -> bool {
    &&& are_fair(room.peers, ids_of(room.peers), next_peer)
    &&& all_hear_all(room.peers)
}

/// The same of all rooms.
pub open spec fn rooms_are_audible(engine: EngineView) -> bool {
    forall|r: int|
        0 <= r < engine.rooms.len() ==> is_audible(
            (#[trigger] engine.rooms[r]).room,
            engine.next_peer,
        )
}

/// The media loop begins without anybody to be missed.
pub proof fn beginning_is_audible(engine: EngineView)
    requires
        is_idle(engine),
    ensures
        rooms_are_audible(engine),
{
}

/// The subscriptions are to the same tracks, and none is being stopped that was
/// not, unless its publisher has left.
pub open spec fn same_subscriptions(
    before: Seq<TrackOutView>,
    after: Seq<TrackOutView>,
    present: Seq<PeerId>,
) -> bool {
    &&& after.len() == before.len()
    &&& forall|i: int|
        0 <= i < before.len() ==> {
            &&& (#[trigger] after[i]).track_in == before[i].track_in
            &&& after[i].is_stopping() ==> before[i].is_stopping() || !present.contains(
                before[i].track_in.origin,
            )
        }
}

proof fn proposing_keeps_subscriptions(
    before: Seq<TrackOutView>,
    after: Seq<TrackOutView>,
    present: Seq<PeerId>,
    steps: Seq<Proposal>,
)
    requires
        proposes(before, after, present, steps),
    ensures
        after.len() == before.len(),
        forall|i: int|
            0 <= i < before.len() ==> {
                &&& (#[trigger] after[i]).track_in == before[i].track_in
                &&& after[i].is_stopping() ==> before[i].is_stopping()
            },
    decreases before.len(),
{
    if before.len() > 0 {
        let was = before.last();
        let fewer = steps.drop_last();
        if proposes(before.drop_last(), after.drop_last(), present, steps) {
            proposing_keeps_subscriptions(before.drop_last(), after.drop_last(), present, steps);
        } else {
            proposing_keeps_subscriptions(before.drop_last(), after.drop_last(), present, fewer);
        }
        assert forall|i: int| 0 <= i < before.len() implies {
            &&& (#[trigger] after[i]).track_in == before[i].track_in
            &&& after[i].is_stopping() ==> before[i].is_stopping()
        } by {
            if i < before.len() - 1 {
                assert(after.drop_last()[i] == after[i]);
                assert(before.drop_last()[i] == before[i]);
            }
        }
    }
}

/// A negotiation leaves a peer subscribed to what it was subscribed to.
proof fn negotiating_keeps_subscriptions(
    before: PeerView,
    after: PeerView,
    present: Seq<PeerId>,
    offered: bool,
    sent: Seq<Post>,
)
    requires
        negotiates(before, after, present, offered, sent),
    ensures
        same_subscriptions(before.tracks_out, after.tracks_out, present),
        after.tracks_in == before.tracks_in,
        same_person(before, after),
{
    if !(before.pending is Some || !before.link.alive()) {
        let marks = marked_all(before.tracks_out, present);
        if offered {
            let steps = match after.link.asked().last() {
                Asked::Offer { steps, sdp } => steps,
                _ => Seq::empty(),
            };
            proposing_keeps_subscriptions(marks, after.tracks_out, present, steps);
        } else {
            proposing_keeps_subscriptions(marks, after.tracks_out, present, Seq::empty());
        }
        assert forall|i: int| 0 <= i < before.tracks_out.len() implies {
            &&& (#[trigger] after.tracks_out[i]).track_in == before.tracks_out[i].track_in
            &&& after.tracks_out[i].is_stopping() ==> before.tracks_out[i].is_stopping()
                || !present.contains(before.tracks_out[i].track_in.origin)
        } by {
            assert(marks[i] == marked(before.tracks_out[i], present));
        }
    }
}

/// What a turn does to the tracks a peer publishes: it may add one, which the
/// room then gets to know of.
pub open spec fn publishes_at_most(before: PeerView, after: PeerView, result: PropagatedView) -> bool {
    ||| tracks_named(after.tracks_in) == tracks_named(before.tracks_in)
    ||| {
        &&& result matches PropagatedView::TrackOpen(origin, track)
        &&& origin == before.id
        &&& tracks_named(after.tracks_in) == tracks_named(before.tracks_in).push(track)
    }
}

/// A track that opens is its publisher's own.
pub open spec fn is_honest(event: PropagatedView, source: PeerId) -> bool {
    event matches PropagatedView::TrackOpen(origin, track) ==> origin == source && track.origin
        == source
}

proof fn noting_media_keeps_tracks(
    before: PeerView,
    after: PeerView,
    packet: MediaPacketView,
    now: u64,
)
    requires
        media_noted(before, after, packet, now),
    ensures
        tracks_named(after.tracks_in) == tracks_named(before.tracks_in),
        after.tracks_out == before.tracks_out,
        same_person(before, after),
{
    first_where_is_first(before.tracks_in, is_published_on(packet.mid));
    assert(tracks_named(after.tracks_in) =~= tracks_named(before.tracks_in));
}

proof fn reacting_keeps_subscriptions(
    before: PeerView,
    output: Option<Polled>,
    after: PeerView,
    present: Seq<PeerId>,
    now: u64,
    result: PropagatedView,
    transmitted: Seq<Transmit>,
)
    requires
        reacts(before, output, after, present, now, result, transmitted),
    ensures
        publishes_at_most(before, after, result),
        is_honest(result, before.id),
        after.tracks_out == before.tracks_out,
        same_person(before, after),
{
    if let Some(Polled::Event(event)) = output {
        match happening_of(event) {
            HappeningView::MediaAdded { mid, audio } => {
                let note = published(
                    before,
                    mid,
                    kind_of(audio),
                );
                assert(tracks_named(after.tracks_in) =~= tracks_named(before.tracks_in).push(
                    note.track,
                ));
            },
            HappeningView::Media(frame) => {
                noting_media_keeps_tracks(
                    before,
                    after,
                    packet_of(frame),
                    now,
                );
            },
            _ => {},
        }
    }
}

/// What a turn does to a peer's tracks.
proof fn turn_keeps_subscriptions(
    before: PeerView,
    after: PeerView,
    present: Seq<PeerId>,
    now: u64,
    result: PropagatedView,
    sent: Seq<Post>,
    transmitted: Seq<Transmit>,
)
    requires
        takes_turn(before, after, present, now, result, sent, transmitted),
    ensures
        publishes_at_most(before, after, result),
        is_honest(result, before.id),
        same_subscriptions(before.tracks_out, after.tracks_out, present),
        same_person(before, after),
{
    if negotiates(before, after, present, true, sent) && result == PropagatedView::Noop {
        negotiating_keeps_subscriptions(before, after, present, true, sent);
    } else {
        let (settled, polled, output) = choose|settled: PeerView, polled: PeerView, output: Option<Polled>|
            {
                &&& #[trigger] negotiates(before, settled, present, false, sent)
                &&& #[trigger] was_polled(settled, polled, output)
                &&& #[trigger] reacts(polled, output, after, present, now, result, transmitted)
            };
        negotiating_keeps_subscriptions(before, settled, present, false, sent);
        reacting_keeps_subscriptions(polled, output, after, present, now, result, transmitted);
    }
}

/// A peer publishes a track.
pub open spec fn publishes(peer: PeerView, track: TrackInView) -> bool {
    exists|k: int| 0 <= k < peer.tracks_in.len() && (#[trigger] peer.tracks_in[k]).id == track
}

/// A new track is among what a room has yet to take in.
pub open spec fn is_announced(events: Seq<PropagatedView>, source: PeerId, track: TrackInView) -> bool {
    exists|n: int|
        0 <= n < events.len() && #[trigger] events[n] == PropagatedView::TrackOpen(source, track)
}

/// Whatever a peer has come to publish has been announced.
pub open spec fn is_accounted_for(start: PeerView, end: PeerView, events: Seq<PropagatedView>) -> bool {
    forall|k: int|
        0 <= k < end.tracks_in.len() ==> {
            ||| publishes(start, (#[trigger] end.tracks_in[k]).id)
            ||| is_announced(events, start.id, end.tracks_in[k].id)
        }
}

/// All events are of a peer's own tracks.
pub open spec fn are_honest(events: Seq<PropagatedView>, source: PeerId) -> bool {
    forall|n: int| 0 <= n < events.len() ==> is_honest(#[trigger] events[n], source)
}

/// A run of turns accounts for what the peer has come to publish.
proof fn run_keeps_subscriptions(
    start: PeerView,
    turns: Seq<Turn>,
    end: PeerView,
    present: Seq<PeerId>,
    now: u64,
)
    requires
        leads(start, turns, end, present, now),
    ensures
        same_person(start, end),
        same_subscriptions(start.tracks_out, end.tracks_out, present),
        is_accounted_for(start, end, events_of(turns)),
        are_honest(events_of(turns), start.id),
        publishes_its_own(start) ==> publishes_its_own(end),
    decreases turns.len(),
{
    let events = events_of(turns);
    if turns.len() == 0 {
        assert forall|k: int| 0 <= k < end.tracks_in.len() implies publishes(
            start,
            (#[trigger] end.tracks_in[k]).id,
        ) by {
            assert(start.tracks_in[k].id == end.tracks_in[k].id);
        }
    } else {
        let last = turns.last();
        let earlier = turns.drop_last();
        let fewer = events_of(earlier);
        run_keeps_subscriptions(start, earlier, last.before, present, now);
        turn_keeps_subscriptions(
            last.before,
            last.after,
            present,
            now,
            last.result,
            last.sent,
            last.transmitted,
        );
        assert forall|n: int| 0 <= n < events.len() implies is_honest(#[trigger] events[n], start.id) by {
            if n < fewer.len() {
                assert(events[n] == fewer[n]);
            }
        }
        let named = tracks_named(end.tracks_in);
        let were = tracks_named(last.before.tracks_in);
        assert forall|k: int| 0 <= k < end.tracks_in.len() implies {
            ||| publishes(start, (#[trigger] end.tracks_in[k]).id)
            ||| is_announced(events, start.id, end.tracks_in[k].id)
        } by {
            assert(named[k] == end.tracks_in[k].id);
            if k < were.len() {
                assert(were[k] == last.before.tracks_in[k].id);
                if is_announced(fewer, start.id, last.before.tracks_in[k].id) {
                    let n = choose|n: int|
                        0 <= n < fewer.len() && #[trigger] fewer[n] == PropagatedView::TrackOpen(
                            start.id,
                            last.before.tracks_in[k].id,
                        );
                    assert(events[n] == fewer[n]);
                }
            } else {
                assert(events[fewer.len() as int] == last.result);
            }
        }
        if publishes_its_own(start) {
            assert forall|k: int| 0 <= k < end.tracks_in.len() implies (
            #[trigger] end.tracks_in[k]).id.origin == end.id by {
                assert(named[k] == end.tracks_in[k].id);
                if k < were.len() {
                    assert(were[k] == last.before.tracks_in[k].id);
                }
            }
        }
    }
}

/// What one peer gave the room to take in is among what all of them did.
proof fn run_is_among_all(runs: Seq<Seq<Turn>>, i: int, event: PropagatedView)
    requires
        0 <= i < runs.len(),
        events_of(runs[i]).contains(event),
    ensures
        events_of_all(runs).contains(event),
    decreases runs.len(),
{
    let front = events_of_all(runs.drop_last());
    let back = events_of(runs.last());
    let all = events_of_all(runs);
    if i == runs.len() - 1 {
        let n = choose|n: int| 0 <= n < back.len() && back[n] == event;
        assert(all[front.len() + n] == event);
    } else {
        assert(runs.drop_last()[i] == runs[i]);
        run_is_among_all(runs.drop_last(), i, event);
        let n = choose|n: int| 0 <= n < front.len() && front[n] == event;
        assert(all[n] == event);
    }
}

/// Every new track among some events belongs to one of those present.
pub open spec fn are_of_those_present(events: Seq<PropagatedView>, present: Seq<PeerId>) -> bool {
    forall|n: int|
        0 <= n < events.len() ==> (#[trigger] events[n] matches PropagatedView::TrackOpen(
            origin,
            track,
        ) ==> track.origin == origin && present.contains(origin))
}

proof fn all_runs_are_of_those_present(runs: Seq<Seq<Turn>>, peers: Seq<PeerView>)
    requires
        runs.len() <= peers.len(),
        forall|i: int|
            0 <= i < runs.len() ==> are_honest(events_of(#[trigger] runs[i]), peers[i].id),
    ensures
        are_of_those_present(events_of_all(runs), ids_of(peers)),
    decreases runs.len(),
{
    if runs.len() > 0 {
        let last = runs.len() - 1;
        let front = events_of_all(runs.drop_last());
        let back = events_of(runs.last());
        let all = events_of_all(runs);
        assert forall|i: int| 0 <= i < runs.drop_last().len() implies are_honest(
            events_of(#[trigger] runs.drop_last()[i]),
            peers[i].id,
        ) by {
            assert(runs.drop_last()[i] == runs[i]);
        }
        all_runs_are_of_those_present(runs.drop_last(), peers);
        assert(are_honest(events_of(runs[last]), peers[last].id));
        assert(ids_of(peers)[last] == peers[last].id);
        assert forall|n: int| 0 <= n < all.len() implies (#[trigger] all[n] matches PropagatedView::TrackOpen(
            origin,
            track,
        ) ==> track.origin == origin && ids_of(peers).contains(origin)) by {
            if n < front.len() {
                assert(all[n] == front[n]);
            } else {
                assert(all[n] == back[n - front.len()]);
                assert(is_honest(back[n - front.len()], peers[last].id));
            }
        }
    }
}

/// Taking in an event keeps the people and what they publish, loses no
/// subscription, and brings everyone else the track that opens.
proof fn propagating_keeps_subscriptions(
    before: RoomView,
    after: RoomView,
    event: PropagatedView,
    next_peer: u64,
)
    requires
        propagates(before, after, event),
        are_fair(before.peers, ids_of(before.peers), next_peer),
        event matches PropagatedView::TrackOpen(origin, track) ==> track.origin == origin
            && origin.0 < next_peer,
    ensures
        after.peers.len() == before.peers.len(),
        ids_of(after.peers) == ids_of(before.peers),
        are_fair(after.peers, ids_of(after.peers), next_peer),
        forall|i: int|
            0 <= i < before.peers.len() ==> {
                &&& same_person(before.peers[i], #[trigger] after.peers[i])
                &&& after.peers[i].tracks_in == before.peers[i].tracks_in
            },
        forall|i: int, track: TrackInView|
            0 <= i < before.peers.len() && #[trigger] hears(before.peers[i], track) ==> hears(
                after.peers[i],
                track,
            ),
        forall|i: int|
            0 <= i < before.peers.len() ==> (event matches PropagatedView::TrackOpen(origin, track)
                ==> origin != before.peers[i].id ==> hears(#[trigger] after.peers[i], track)),
{
    let present = ids_of(before.peers);
    assert forall|i: int| 0 <= i < before.peers.len() implies {
        &&& same_person(before.peers[i], #[trigger] after.peers[i])
        &&& after.peers[i].tracks_in == before.peers[i].tracks_in
    } by {
        assert(receives(before.peers[i], after.peers[i], event, present));
    }
    assert(ids_of(after.peers) =~= present) by {
        assert forall|i: int| 0 <= i < before.peers.len() implies ids_of(after.peers)[i]
            == present[i] by {
            assert(same_person(before.peers[i], after.peers[i]));
        }
    }
    assert forall|i: int| 0 <= i < after.peers.len() implies {
        &&& publishes_its_own(#[trigger] after.peers[i])
        &&& subscribes_fairly(after.peers[i], present, next_peer)
    } by {
        let was = before.peers[i];
        let is = after.peers[i];
        assert(receives(was, is, event, present));
        assert(publishes_its_own(was) && subscribes_fairly(was, present, next_peer));
        assert forall|k: int| 0 <= k < is.tracks_out.len() implies is_fair(
            #[trigger] is.tracks_out[k],
            is.id,
            present,
            next_peer,
        ) by {
            if k < was.tracks_out.len() {
                assert(is.tracks_out[k] == was.tracks_out[k]);
                assert(is_fair(was.tracks_out[k], was.id, present, next_peer));
            }
        }
    }
    assert forall|i: int, track: TrackInView|
        0 <= i < before.peers.len() && #[trigger] hears(before.peers[i], track) implies hears(
        after.peers[i],
        track,
    ) by {
        let was = before.peers[i];
        let is = after.peers[i];
        assert(receives(was, is, event, present));
        let m = choose|m: int|
            0 <= m < was.tracks_out.len() && (#[trigger] was.tracks_out[m]).track_in == track;
        assert(is.tracks_out[m] == was.tracks_out[m]);
    }
    assert forall|i: int| 0 <= i < before.peers.len() implies (event matches PropagatedView::TrackOpen(
        origin,
        track,
    ) ==> origin != before.peers[i].id ==> hears(#[trigger] after.peers[i], track)) by {
        if let PropagatedView::TrackOpen(origin, track) = event {
            if origin != before.peers[i].id {
                let was = before.peers[i];
                let is = after.peers[i];
                assert(receives(was, is, event, present));
                assert(is.tracks_out[was.tracks_out.len() as int] == new_subscription(track));
            }
        }
    }
}

/// A room that takes in events loses no subscription, and brings everyone the
/// tracks that others have opened.
proof fn taking_in_keeps_subscriptions(
    states: Seq<RoomView>,
    events: Seq<PropagatedView>,
    next_peer: u64,
)
    requires
        takes_in(states, events),
        are_fair(states.first().peers, ids_of(states.first().peers), next_peer),
        are_of_those_present(events, ids_of(states.first().peers)),
        forall|i: int|
            0 <= i < states.first().peers.len() ==> (#[trigger] states.first().peers[i]).id.0 < next_peer,
    ensures
        states.last().peers.len() == states.first().peers.len(),
        ids_of(states.last().peers) == ids_of(states.first().peers),
        are_fair(states.last().peers, ids_of(states.last().peers), next_peer),
        states.last() == (RoomView { peers: states.last().peers, ..states.first() }),
        forall|i: int|
            0 <= i < states.first().peers.len() ==> {
                &&& same_person(states.first().peers[i], #[trigger] states.last().peers[i])
                &&& states.last().peers[i].tracks_in == states.first().peers[i].tracks_in
            },
        forall|i: int, track: TrackInView|
            0 <= i < states.first().peers.len() && #[trigger] hears(states.first().peers[i], track)
                ==> hears(states.last().peers[i], track),
        forall|i: int, source: PeerId, track: TrackInView|
            0 <= i < states.first().peers.len() && source != states.first().peers[i].id
                && #[trigger] is_announced(events, source, track) ==> hears(
                #[trigger] states.last().peers[i],
                track,
            ),
    decreases events.len(),
{
    let first = states.first();
    let last = states.last();
    if events.len() > 0 {
        let earlier = states.drop_last();
        let fewer = events.drop_last();
        let middle = earlier.last();
        assert(earlier.first() == first);
        assert(middle == states[events.len() - 1]);
        assert forall|n: int| 0 <= n < fewer.len() implies (#[trigger] fewer[n] matches PropagatedView::TrackOpen(
            origin,
            track,
        ) ==> track.origin == origin && ids_of(first.peers).contains(origin)) by {
            assert(fewer[n] == events[n]);
        }
        taking_in_keeps_subscriptions(earlier, fewer, next_peer);
        let event = events.last();
        assert(event == events[events.len() - 1]);
        if let PropagatedView::TrackOpen(origin, track) = event {
            let at = choose|at: int| 0 <= at < ids_of(first.peers).len() && ids_of(first.peers)[at] == origin;
            assert(first.peers[at].id == origin);
        }
        propagating_keeps_subscriptions(middle, last, event, next_peer);
        assert forall|i: int| 0 <= i < first.peers.len() implies {
            &&& same_person(first.peers[i], #[trigger] last.peers[i])
            &&& last.peers[i].tracks_in == first.peers[i].tracks_in
        } by {
            assert(same_person(first.peers[i], middle.peers[i]));
            assert(same_person(middle.peers[i], last.peers[i]));
        }
        assert forall|i: int, track: TrackInView|
            0 <= i < first.peers.len() && #[trigger] hears(first.peers[i], track) implies hears(
            last.peers[i],
            track,
        ) by {
            assert(hears(middle.peers[i], track));
        }
        assert forall|i: int, source: PeerId, track: TrackInView|
            0 <= i < first.peers.len() && source != first.peers[i].id && #[trigger] is_announced(
                events,
                source,
                track,
            ) implies hears(#[trigger] last.peers[i], track) by {
            let n = choose|n: int|
                0 <= n < events.len() && #[trigger] events[n] == PropagatedView::TrackOpen(
                    source,
                    track,
                );
            assert(same_person(first.peers[i], middle.peers[i]));
            if n < fewer.len() {
                assert(fewer[n] == events[n]);
                assert(is_announced(fewer, source, track));
                assert(hears(middle.peers[i], track));
            }
        }
    } else {
        assert forall|i: int| 0 <= i < first.peers.len() implies same_person(
            first.peers[i],
            #[trigger] last.peers[i],
        ) by {}
    }
}

/// Polling a room keeps everyone subscribed to everyone, including what came to
/// be published in the course of it.
pub proof fn polling_keeps_room_audible(
    before: RoomView,
    after: RoomView,
    runs: Seq<Seq<Turn>>,
    states: Seq<RoomView>,
    now: u64,
    next_peer: u64,
)
    requires
        is_polled(before, after, runs, states, now),
        is_audible(before, next_peer),
        ids_differ(before.peers),
        forall|i: int|
            0 <= i < before.peers.len() ==> (#[trigger] before.peers[i]).id.0 < next_peer,
    ensures
        is_audible(after, next_peer),
        after.peers.len() == before.peers.len(),
        forall|i: int|
            0 <= i < before.peers.len() ==> same_person(before.peers[i], #[trigger] after.peers[i]),
{
    let middle = states.first();
    let events = events_of_all(runs);
    let present = ids_of(before.peers);
    assert forall|i: int| 0 <= i < runs.len() implies {
        &&& same_person(before.peers[i], middle.peers[i])
        &&& same_subscriptions(before.peers[i].tracks_out, middle.peers[i].tracks_out, present)
        &&& is_accounted_for(before.peers[i], middle.peers[i], events_of(#[trigger] runs[i]))
        &&& are_honest(events_of(runs[i]), before.peers[i].id)
        &&& publishes_its_own(middle.peers[i])
    } by {
        assert(publishes_its_own(before.peers[i]));
        run_keeps_subscriptions(before.peers[i], runs[i], middle.peers[i], present, now);
    }
    all_runs_are_of_those_present(runs, before.peers);
    assert(ids_of(middle.peers) =~= present) by {
        assert forall|i: int| 0 <= i < before.peers.len() implies ids_of(middle.peers)[i]
            == present[i] by {
            assert(are_honest(events_of(runs[i]), before.peers[i].id));
        }
    }
    assert forall|i: int| 0 <= i < middle.peers.len() implies {
        &&& publishes_its_own(#[trigger] middle.peers[i])
        &&& subscribes_fairly(middle.peers[i], present, next_peer)
    } by {
        assert(are_honest(events_of(runs[i]), before.peers[i].id));
        let was = before.peers[i];
        let is = middle.peers[i];
        assert(publishes_its_own(was) && subscribes_fairly(was, present, next_peer));
        assert forall|k: int| 0 <= k < is.tracks_out.len() implies is_fair(
            #[trigger] is.tracks_out[k],
            is.id,
            present,
            next_peer,
        ) by {
            assert(is_fair(was.tracks_out[k], was.id, present, next_peer));
        }
    }
    assert forall|i: int| 0 <= i < middle.peers.len() implies (#[trigger] middle.peers[i]).id.0
        < next_peer by {
        assert(are_honest(events_of(runs[i]), before.peers[i].id));
        assert(before.peers[i].id.0 < next_peer);
    }
    taking_in_keeps_subscriptions(states, events, next_peer);
    assert forall|i: int| 0 <= i < before.peers.len() implies same_person(
        before.peers[i],
        #[trigger] after.peers[i],
    ) by {
        assert(are_honest(events_of(runs[i]), before.peers[i].id));
        assert(same_person(middle.peers[i], after.peers[i]));
    }
    assert forall|i: int, j: int|
        0 <= i < after.peers.len() && 0 <= j < after.peers.len() && i != j implies hears_all(
        #[trigger] after.peers[i],
        #[trigger] after.peers[j],
    ) by {
        assert(are_honest(events_of(runs[i]), before.peers[i].id));
        assert(are_honest(events_of(runs[j]), before.peers[j].id));
        assert(same_person(middle.peers[i], after.peers[i]));
        assert(same_person(middle.peers[j], after.peers[j]));
        assert(hears_all(before.peers[i], before.peers[j]));
        if i < j {
            assert(before.peers[i].id != before.peers[j].id);
        } else {
            assert(before.peers[j].id != before.peers[i].id);
        }
        assert forall|k: int| 0 <= k < after.peers[j].tracks_in.len() implies hears(
            after.peers[i],
            (#[trigger] after.peers[j].tracks_in[k]).id,
        ) by {
            let track = after.peers[j].tracks_in[k].id;
            assert(middle.peers[j].tracks_in[k].id == track);
            if publishes(before.peers[j], track) {
                let k0 = choose|k0: int|
                    0 <= k0 < before.peers[j].tracks_in.len() && (
                    #[trigger] before.peers[j].tracks_in[k0]).id == track;
                assert(hears(before.peers[i], before.peers[j].tracks_in[k0].id));
                let m = choose|m: int|
                    0 <= m < before.peers[i].tracks_out.len() && (
                    #[trigger] before.peers[i].tracks_out[m]).track_in == track;
                assert(middle.peers[i].tracks_out[m].track_in == track);
                assert(hears(middle.peers[i], track));
            } else {
                let own = events_of(runs[j]);
                assert(is_announced(own, before.peers[j].id, track));
                let n = choose|n: int|
                    0 <= n < own.len() && #[trigger] own[n] == PropagatedView::TrackOpen(
                        before.peers[j].id,
                        track,
                    );
                assert(own.contains(own[n]));
                run_is_among_all(runs, j, own[n]);
                let m = choose|m: int| 0 <= m < events.len() && events[m] == own[n];
                assert(is_announced(events, before.peers[j].id, track));
            }
        }
    }
}

/// A round of polling keeps the state sound and everyone subscribed to
/// everyone.
pub proof fn polling_keeps_audible(
    before: EngineView,
    after: EngineView,
    visits: Seq<Visit>,
    now: u64,
    wake: u64,
)
    requires
        is_sound(before),
        rooms_are_audible(before),
        polls(before, after, visits, now, wake),
    ensures
        is_sound(after),
        rooms_are_audible(after),
{
    assert forall|r: int| 0 <= r < before.rooms.len() implies {
        &&& same_room(before.rooms[r], #[trigger] after.rooms[r])
        &&& is_audible(after.rooms[r].room, after.next_peer)
    } by {
        let was = before.rooms[r];
        let is = after.rooms[r];
        assert(is_visited(was, is, visits[r], now));
        assert(is_audible(was.room, before.next_peer));
        assert(is_proper(was.room, before.max_room_peers));
        assert forall|i: int| 0 <= i < was.room.peers.len() implies (#[trigger] was.room.peers[i]).id.0
            < before.next_peer by {
            assert(is_on_record(before, before.rooms[r].room.peers[i], was.name));
        }
        polling_keeps_room_audible(
            was.room,
            is.room,
            visits[r].runs,
            visits[r].states,
            now,
            before.next_peer,
        );
    }
    same_people_stay_sound(before, after);
}

/// The same tracks, in and out.
pub open spec fn same_tracks(before: PeerView, after: PeerView) -> bool {
    &&& after.id == before.id
    &&& tracks_named(after.tracks_in) == tracks_named(before.tracks_in)
    &&& after.tracks_out == before.tracks_out
}

pub open spec fn same_tracks_in_room(before: RoomView, after: RoomView) -> bool {
    &&& after.peers.len() == before.peers.len()
    &&& forall|i: int|
        0 <= i < before.peers.len() ==> same_tracks(before.peers[i], #[trigger] after.peers[i])
}

proof fn same_tracks_stay_audible(before: RoomView, after: RoomView, next_peer: u64)
    requires
        is_audible(before, next_peer),
        same_tracks_in_room(before, after),
    ensures
        is_audible(after, next_peer),
{
    let present = ids_of(before.peers);
    assert(ids_of(after.peers) =~= present) by {
        assert forall|i: int| 0 <= i < before.peers.len() implies ids_of(after.peers)[i]
            == present[i] by {
            assert(same_tracks(before.peers[i], after.peers[i]));
        }
    }
    assert forall|i: int| 0 <= i < after.peers.len() implies {
        &&& publishes_its_own(#[trigger] after.peers[i])
        &&& subscribes_fairly(after.peers[i], present, next_peer)
    } by {
        let was = before.peers[i];
        let is = after.peers[i];
        assert(same_tracks(was, is));
        assert(publishes_its_own(was) && subscribes_fairly(was, present, next_peer));
        assert(tracks_named(is.tracks_in).len() == tracks_named(was.tracks_in).len());
        assert forall|k: int| 0 <= k < is.tracks_in.len() implies (#[trigger] is.tracks_in[k]).id.origin
            == is.id by {
            assert(tracks_named(is.tracks_in)[k] == is.tracks_in[k].id);
            assert(tracks_named(was.tracks_in)[k] == was.tracks_in[k].id);
        }
        assert forall|k: int| 0 <= k < is.tracks_out.len() implies is_fair(
            #[trigger] is.tracks_out[k],
            is.id,
            present,
            next_peer,
        ) by {
            assert(is_fair(was.tracks_out[k], was.id, present, next_peer));
        }
    }
    assert forall|i: int, j: int|
        0 <= i < after.peers.len() && 0 <= j < after.peers.len() && i != j implies hears_all(
        #[trigger] after.peers[i],
        #[trigger] after.peers[j],
    ) by {
        assert(same_tracks(before.peers[i], after.peers[i]));
        assert(same_tracks(before.peers[j], after.peers[j]));
        assert(hears_all(before.peers[i], before.peers[j]));
        let was = before.peers[j].tracks_in;
        let is = after.peers[j].tracks_in;
        assert(tracks_named(is).len() == tracks_named(was).len());
        assert forall|k: int| 0 <= k < is.len() implies hears(
            after.peers[i],
            (#[trigger] after.peers[j].tracks_in[k]).id,
        ) by {
            assert(tracks_named(is)[k] == is[k].id);
            assert(tracks_named(was)[k] == was[k].id);
            assert(hears(before.peers[i], before.peers[j].tracks_in[k].id));
            let m = choose|m: int|
                0 <= m < before.peers[i].tracks_out.len() && (
                #[trigger] before.peers[i].tracks_out[m]).track_in == was[k].id;
            assert(after.peers[i].tracks_out[m].track_in == is[k].id);
        }
    }
}

/// Rooms whose peers have the same tracks as before stay audible.
proof fn same_tracks_everywhere_stay_audible(before: EngineView, after: EngineView)
    requires
        rooms_are_audible(before),
        after.next_peer == before.next_peer,
        after.rooms.len() == before.rooms.len(),
        forall|r: int|
            0 <= r < before.rooms.len() ==> same_tracks_in_room(
                before.rooms[r].room,
                (#[trigger] after.rooms[r]).room,
            ),
    ensures
        rooms_are_audible(after),
{
    assert forall|r: int| 0 <= r < after.rooms.len() implies is_audible(
        (#[trigger] after.rooms[r]).room,
        after.next_peer,
    ) by {
        assert(is_audible(before.rooms[r].room, before.next_peer));
        same_tracks_stay_audible(before.rooms[r].room, after.rooms[r].room, before.next_peer);
    }
}

/// Reporting arrivals keeps everyone subscribed to everyone.
pub proof fn reporting_keeps_audible(engine: EngineView)
    requires
        rooms_are_audible(engine),
    ensures
        rooms_are_audible(connections_reported(engine)),
{
    same_tracks_everywhere_stay_audible(engine, connections_reported(engine));
}

/// Looking at the speakers keeps everyone subscribed to everyone.
pub proof fn speaking_keeps_audible(engine: EngineView, now: u64)
    requires
        rooms_are_audible(engine),
    ensures
        rooms_are_audible(speaking_ticked(engine, now)),
{
    same_tracks_everywhere_stay_audible(engine, speaking_ticked(engine, now));
}

/// Saying something of oneself keeps everyone subscribed to everyone.
pub proof fn state_keeps_audible(
    engine: EngineView,
    id: PeerId,
    muted: Option<bool>,
    screen: Option<bool>,
)
    requires
        rooms_are_audible(engine),
        is_sound(engine),
    ensures
        rooms_are_audible(state_set(engine, id, muted, screen)),
{
    on_record_is_seated(engine, id);
    same_tracks_everywhere_stay_audible(engine, state_set(engine, id, muted, screen));
}

/// A datagram keeps everyone subscribed to everyone.
pub proof fn reading_keeps_audible(
    before: EngineView,
    after: EngineView,
    source: Endpoint,
    bytes: Seq<u8>,
)
    requires
        rooms_are_audible(before),
        reads(before, after, source, bytes),
    ensures
        rooms_are_audible(after),
{
    let input = InputView::Datagram { source, destination: before.advertised, bytes };
    if is_traffic(bytes) {
        if let Some((r, p)) = taker_of(before.rooms, input) {
            first_where_is_first(before.rooms, holds_taker(input));
            first_where_is_first(before.rooms[r].room.peers, takes_input(input));
            assert(is_fed(before.rooms[r].room.peers[p], after.rooms[r].room.peers[p], input));
            same_tracks_everywhere_stay_audible(before, after);
        }
    }
}

/// The passing of time keeps everyone subscribed to everyone.
pub proof fn ticking_keeps_audible(before: EngineView, after: EngineView)
    requires
        rooms_are_audible(before),
        ticks(before, after),
    ensures
        rooms_are_audible(after),
{
    assert forall|r: int| 0 <= r < before.rooms.len() implies same_tracks_in_room(
        before.rooms[r].room,
        (#[trigger] after.rooms[r]).room,
    ) by {
        assert(room_ticks(before.rooms[r].room, after.rooms[r].room));
        assert forall|i: int| 0 <= i < before.rooms[r].room.peers.len() implies same_tracks(
            before.rooms[r].room.peers[i],
            #[trigger] after.rooms[r].room.peers[i],
        ) by {
            assert(is_fed(
                before.rooms[r].room.peers[i],
                after.rooms[r].room.peers[i],
                InputView::Tick,
            ));
        }
    }
    same_tracks_everywhere_stay_audible(before, after);
}

/// A room stays audible when a peer leaves it.
proof fn removal_keeps_audible(before: RoomView, after: RoomView, p: int, next_peer: u64)
    requires
        is_audible(before, next_peer),
        0 <= p < before.peers.len(),
        after.peers == before.peers.remove(p),
    ensures
        is_audible(after, next_peer),
{
    let were = ids_of(before.peers);
    let present = ids_of(after.peers);
    assert forall|id: PeerId| #[trigger] present.contains(id) implies were.contains(id) by {
        let i = choose|i: int| 0 <= i < present.len() && present[i] == id;
        let a = if i < p { i } else { i + 1 };
        assert(after.peers[i] == before.peers[a]);
        assert(were[a] == id);
    }
    assert forall|i: int| 0 <= i < after.peers.len() implies {
        &&& publishes_its_own(#[trigger] after.peers[i])
        &&& subscribes_fairly(after.peers[i], present, next_peer)
    } by {
        let a = if i < p { i } else { i + 1 };
        let peer = before.peers[a];
        assert(after.peers[i] == peer);
        assert(publishes_its_own(peer) && subscribes_fairly(peer, were, next_peer));
        assert forall|k: int| 0 <= k < peer.tracks_out.len() implies is_fair(
            #[trigger] peer.tracks_out[k],
            peer.id,
            present,
            next_peer,
        ) by {
            assert(is_fair(peer.tracks_out[k], peer.id, were, next_peer));
        }
    }
    assert forall|i: int, j: int|
        0 <= i < after.peers.len() && 0 <= j < after.peers.len() && i != j implies hears_all(
        #[trigger] after.peers[i],
        #[trigger] after.peers[j],
    ) by {
        let a = if i < p { i } else { i + 1 };
        let b = if j < p { j } else { j + 1 };
        assert(after.peers[i] == before.peers[a]);
        assert(after.peers[j] == before.peers[b]);
        assert(hears_all(before.peers[a], before.peers[b]));
    }
}

/// A departure keeps the others subscribed to each other.
pub proof fn leaving_keeps_audible(engine: EngineView, id: PeerId)
    requires
        rooms_are_audible(engine),
    ensures
        rooms_are_audible(dropped(engine, id)),
{
    let after = dropped(engine, id);
    if engine.peer_rooms.contains_key(id.0) {
        let name = engine.peer_rooms[id.0];
        first_where_is_first(engine.rooms, is_named(name));
        if let Some(r) = engine.room_index(name) {
            let room = engine.rooms[r].room;
            first_where_is_first(room.peers, has_id(id));
            if let Some(p) = first_where(room.peers, has_id(id)) {
                let rest = without_peer(room, id);
                assert(is_audible(room, engine.next_peer));
                removal_keeps_audible(room, rest, p, engine.next_peer);
                assert forall|i: int| 0 <= i < after.rooms.len() implies is_audible(
                    (#[trigger] after.rooms[i]).room,
                    after.next_peer,
                ) by {
                    if rest.peers.len() == 0 {
                        let a = if i < r { i } else { i + 1 };
                        assert(after.rooms[i] == engine.rooms[a]);
                    } else if i != r {
                        assert(after.rooms[i] == engine.rooms[i]);
                    }
                }
            }
        }
    }
}

proof fn leaving_one_after_another_keeps_audible(engine: EngineView, ids: Seq<PeerId>)
    requires
        rooms_are_audible(engine),
    ensures
        rooms_are_audible(all_dropped(engine, ids)),
    decreases ids.len(),
{
    if ids.len() > 0 {
        leaving_one_after_another_keeps_audible(engine, ids.drop_last());
        leaving_keeps_audible(all_dropped(engine, ids.drop_last()), ids.last());
    }
}

/// Sweeping out the dead keeps the others subscribed to each other.
pub proof fn reaping_keeps_audible(engine: EngineView, now: u64)
    requires
        rooms_are_audible(engine),
    ensures
        rooms_are_audible(reaped(engine, now)),
{
    leaving_one_after_another_keeps_audible(engine, dead_in(engine.rooms, now));
}

/// A subscription that was not being stopped outlives an answer.
proof fn settling_loses_nothing(tracks: Seq<TrackOutView>, i: int) -> (m: int)
    requires
        0 <= i < tracks.len(),
        !(tracks[i].state is NegotiatingStop),
    ensures
        0 <= m < settled(tracks).len(),
        settled(tracks)[m].track_in == tracks[i].track_in,
    decreases tracks.len(),
{
    let front = tracks.drop_last();
    if i < front.len() {
        let m = settling_loses_nothing(front, i);
        assert(settled(tracks)[m] == settled(front)[m]);
        m
    } else {
        settled(front).len() as int
    }
}

/// A subscription that is left after an answer was there before it.
proof fn settling_adds_nothing(tracks: Seq<TrackOutView>, m: int) -> (i: int)
    requires
        0 <= m < settled(tracks).len(),
    ensures
        0 <= i < tracks.len(),
        tracks[i].track_in == settled(tracks)[m].track_in,
        tracks[i].is_stopping() == settled(tracks)[m].is_stopping(),
    decreases tracks.len(),
{
    let front = tracks.drop_last();
    if m < settled(front).len() {
        assert(settled(tracks)[m] == settled(front)[m]);
        settling_adds_nothing(front, m)
    } else {
        tracks.len() - 1
    }
}

/// An answer keeps everyone subscribed to everyone.
pub proof fn answers_keep_audible(before: EngineView, after: EngineView, id: PeerId, sdp: Seq<char>)
    requires
        rooms_are_audible(before),
        is_sound(before),
        answers(before, after, id, sdp),
    ensures
        rooms_are_audible(after),
{
    on_record_is_seated(before, id);
    if let Some((r, p)) = seat_of(before, id) {
        if let Some(answer) = answer_of(sdp) {
            let was = before.rooms[r].room.peers[p];
            let is = after.rooms[r].room.peers[p];
            let result = choose|result: Result<(), AnswerError>| #[trigger]
                is_answered(was, is, answer, result);
            assert(is_audible(before.rooms[r].room, before.next_peer));
            if is.tracks_out == was.tracks_out {
                same_tracks_everywhere_stay_audible(before, after);
            } else {
                settling_keeps_audible(before.rooms[r].room, after.rooms[r].room, p, before.next_peer);
                assert forall|i: int| 0 <= i < after.rooms.len() implies is_audible(
                    (#[trigger] after.rooms[i]).room,
                    after.next_peer,
                ) by {
                    if i != r {
                        assert(after.rooms[i] == before.rooms[i]);
                    }
                }
            }
        }
    }
}

proof fn settling_keeps_audible(before: RoomView, after: RoomView, p: int, next_peer: u64)
    requires
        is_audible(before, next_peer),
        0 <= p < before.peers.len(),
        after.peers == before.peers.update(p, after.peers[p]),
        after.peers[p].id == before.peers[p].id,
        after.peers[p].tracks_in == before.peers[p].tracks_in,
        after.peers[p].tracks_out == settled(before.peers[p].tracks_out),
    ensures
        is_audible(after, next_peer),
{
    let present = ids_of(before.peers);
    let was = before.peers[p];
    let is = after.peers[p];
    assert(ids_of(after.peers) =~= present);
    assert(publishes_its_own(was) && subscribes_fairly(was, present, next_peer));
    assert forall|i: int| 0 <= i < after.peers.len() implies {
        &&& publishes_its_own(#[trigger] after.peers[i])
        &&& subscribes_fairly(after.peers[i], present, next_peer)
    } by {
        if i == p {
            assert forall|m: int| 0 <= m < is.tracks_out.len() implies is_fair(
                #[trigger] is.tracks_out[m],
                is.id,
                present,
                next_peer,
            ) by {
                let k = settling_adds_nothing(was.tracks_out, m);
                assert(is_fair(was.tracks_out[k], was.id, present, next_peer));
            }
        } else {
            assert(after.peers[i] == before.peers[i]);
        }
    }
    assert forall|i: int, j: int|
        0 <= i < after.peers.len() && 0 <= j < after.peers.len() && i != j implies hears_all(
        #[trigger] after.peers[i],
        #[trigger] after.peers[j],
    ) by {
        assert(hears_all(before.peers[i], before.peers[j]));
        assert(after.peers[j].tracks_in == before.peers[j].tracks_in);
        assert(publishes_its_own(before.peers[j]));
        assert(present[j] == before.peers[j].id);
        assert forall|k: int| 0 <= k < after.peers[j].tracks_in.len() implies hears(
            after.peers[i],
            (#[trigger] after.peers[j].tracks_in[k]).id,
        ) by {
            let track = before.peers[j].tracks_in[k].id;
            assert(hears(before.peers[i], track));
            if i == p {
                let m = choose|m: int|
                    0 <= m < was.tracks_out.len() && (#[trigger] was.tracks_out[m]).track_in == track;
                assert(is_fair(was.tracks_out[m], was.id, present, next_peer));
                assert(!(was.tracks_out[m].state is NegotiatingStop));
                let n = settling_loses_nothing(was.tracks_out, m);
                assert(is.tracks_out[n].track_in == track);
            }
        }
    }
}

/// Everything that another peer publishes is listed.
proof fn others_are_listed(peers: Seq<PeerView>, except: PeerId, j: int, k: int) -> (t: int)
    requires
        0 <= j < peers.len(),
        peers[j].id != except,
        0 <= k < peers[j].tracks_in.len(),
    ensures
        0 <= t < published_by_others(peers, except).len(),
        published_by_others(peers, except)[t] == peers[j].tracks_in[k].id,
    decreases peers.len(),
{
    let front = peers.drop_last();
    let rest = published_by_others(front, except);
    if j < front.len() {
        let t = others_are_listed(front, except, j, k);
        assert(published_by_others(peers, except)[t] == rest[t]);
        t
    } else {
        assert(tracks_named(peers[j].tracks_in)[k] == peers[j].tracks_in[k].id);
        rest.len() + k
    }
}

/// What is listed is published by another peer.
proof fn listed_are_others(peers: Seq<PeerView>, except: PeerId, t: int) -> (place: (int, int))
    requires
        0 <= t < published_by_others(peers, except).len(),
    ensures
        0 <= place.0 < peers.len(),
        peers[place.0].id != except,
        0 <= place.1 < peers[place.0].tracks_in.len(),
        peers[place.0].tracks_in[place.1].id == published_by_others(peers, except)[t],
    decreases peers.len(),
{
    let front = peers.drop_last();
    let rest = published_by_others(front, except);
    if t < rest.len() {
        assert(published_by_others(peers, except)[t] == rest[t]);
        listed_are_others(front, except, t)
    } else {
        let k = t - rest.len();
        assert(tracks_named(peers.last().tracks_in)[k] == peers.last().tracks_in[k].id);
        (peers.len() - 1, k)
    }
}

/// A newcomer takes its seat subscribed to everything that is published.
proof fn seating_keeps_audible(before: RoomView, after: RoomView, peer: PeerView, next_peer: u64)
    requires
        is_audible(before, peer.id.0),
        peer.id.0 < next_peer,
        peer.tracks_in.len() == 0,
        peer.tracks_out.len() == 0,
        forall|i: int|
            0 <= i < before.peers.len() ==> (#[trigger] before.peers[i]).id.0 < peer.id.0,
        after.peers == subscribed(before.peers.push(peer), peer.id),
    ensures
        is_audible(after, next_peer),
{
    let pushed = before.peers.push(peer);
    let last = before.peers.len() as int;
    let were = ids_of(before.peers);
    let present = ids_of(after.peers);
    let others = published_by_others(pushed, peer.id);
    assert forall|j: int| 0 <= j < last implies !has_id(peer.id)(#[trigger] pushed[j]) by {
        assert(pushed[j] == before.peers[j]);
    }
    first_where_found(pushed, has_id(peer.id), last);
    let newcomer = after.peers[last];
    assert(newcomer.tracks_out =~= new_subscriptions(others));
    assert forall|i: int| 0 <= i < last implies #[trigger] after.peers[i] == before.peers[i] by {}
    assert(present =~= were.push(peer.id));
    assert forall|id: PeerId| #[trigger] present.contains(id) && id != peer.id implies were.contains(id) by {
        let i = choose|i: int| 0 <= i < present.len() && present[i] == id;
        assert(were[i] == id);
    }
    assert forall|i: int| 0 <= i < after.peers.len() implies {
        &&& publishes_its_own(#[trigger] after.peers[i])
        &&& subscribes_fairly(after.peers[i], present, next_peer)
    } by {
        if i == last {
            assert forall|t: int| 0 <= t < newcomer.tracks_out.len() implies is_fair(
                #[trigger] newcomer.tracks_out[t],
                newcomer.id,
                present,
                next_peer,
            ) by {
                assert(newcomer.tracks_out[t] == new_subscription(others[t]));
                let (j, k) = listed_are_others(pushed, peer.id, t);
                assert(pushed[j] == before.peers[j]);
                assert(publishes_its_own(before.peers[j]));
                assert(before.peers[j].tracks_in[k].id.origin == before.peers[j].id);
            }
        } else {
            let one = before.peers[i];
            assert(after.peers[i] == one);
            assert(publishes_its_own(one) && subscribes_fairly(one, were, peer.id.0));
            assert forall|k: int| 0 <= k < one.tracks_out.len() implies is_fair(
                #[trigger] one.tracks_out[k],
                one.id,
                present,
                next_peer,
            ) by {
                assert(is_fair(one.tracks_out[k], one.id, were, peer.id.0));
            }
        }
    }
    assert forall|i: int, j: int|
        0 <= i < after.peers.len() && 0 <= j < after.peers.len() && i != j implies hears_all(
        #[trigger] after.peers[i],
        #[trigger] after.peers[j],
    ) by {
        if j != last {
            if i == last {
                assert(after.peers[j] == pushed[j]);
                assert forall|k: int| 0 <= k < after.peers[j].tracks_in.len() implies hears(
                    newcomer,
                    (#[trigger] after.peers[j].tracks_in[k]).id,
                ) by {
                    let track = pushed[j].tracks_in[k].id;
                    let t = others_are_listed(pushed, peer.id, j, k);
                    assert(newcomer.tracks_out[t] == new_subscription(others[t]));
                }
            } else {
                assert(hears_all(before.peers[i], before.peers[j]));
            }
        }
    }
}

proof fn retiring_keeps_audible(engine: EngineView, r: int, ids: Seq<PeerId>, next_peer: u64)
    requires
        0 <= r < engine.rooms.len(),
        forall|i: int|
            0 <= i < engine.rooms.len() ==> is_audible((#[trigger] engine.rooms[i]).room, next_peer),
    ensures
        all_retired(engine, r, ids).rooms.len() == engine.rooms.len(),
        forall|i: int|
            0 <= i < engine.rooms.len() ==> is_audible(
                (#[trigger] all_retired(engine, r, ids).rooms[i]).room,
                next_peer,
            ),
    decreases ids.len(),
{
    if ids.len() > 0 {
        retiring_keeps_audible(engine, r, ids.drop_last(), next_peer);
        let before = all_retired(engine, r, ids.drop_last());
        let after = all_retired(engine, r, ids);
        let room = before.rooms[r].room;
        first_where_is_first(room.peers, has_id(ids.last()));
        assert(is_audible(before.rooms[r].room, next_peer));
        if let Some(p) = first_where(room.peers, has_id(ids.last())) {
            removal_keeps_audible(room, after.rooms[r].room, p, next_peer);
        }
        assert forall|i: int| 0 <= i < after.rooms.len() implies is_audible(
            (#[trigger] after.rooms[i]).room,
            next_peer,
        ) by {
            if i != r {
                assert(after.rooms[i] == before.rooms[i]);
            }
        }
    }
}

/// Letting a newcomer in subscribes it to everything that is published in its
/// room, and keeps the others subscribed to each other.
pub proof fn joining_makes_audible(
    engine: EngineView,
    claims: JoinClaimsView,
    peer: PeerView,
    answer: Seq<char>,
)
    requires
        is_sound(engine),
        rooms_are_audible(engine),
        engine.next_peer < u64::MAX,
        peer.id == PeerId(engine.next_peer),
        peer.tracks_in.len() == 0,
        peer.tracks_out.len() == 0,
    ensures
        rooms_are_audible(admitted(numbered(engine), claims, peer, answer)),
{
    let start = numbered(engine);
    let open = opened_room(start, claims.room, claims.call_id);
    first_where_is_first(start.rooms, is_named(claims.room));
    first_where_is_first(open.rooms, is_named(claims.room));
    assert(open.rooms.len() > 0 && open.room_index(claims.room) is Some) by {
        if start.room_index(claims.room) is None {
            let at = start.rooms.len() as int;
            assert(is_named(claims.room)(open.rooms[at]));
        }
    }
    let r = open.room_index(claims.room)->0;
    let id = peer.id.0;
    assert forall|i: int| 0 <= i < open.rooms.len() implies is_audible(
        (#[trigger] open.rooms[i]).room,
        id,
    ) by {
        if i < engine.rooms.len() {
            assert(open.rooms[i] == engine.rooms[i]);
            assert(is_audible(engine.rooms[i].room, engine.next_peer));
        }
    }
    let stale = peers_of_user(open.rooms[r].room.peers, claims.sub);
    retiring_keeps_audible(open, r, stale, id);
    let cleared = all_retired(open, r, stale);
    let after = seated(cleared, r, peer, claims.call_id, answer);
    assert forall|i: int| 0 <= i < cleared.rooms[r].room.peers.len() implies (
    #[trigger] cleared.rooms[r].room.peers[i]).id.0 < id by {
        retiring_brings_nobody(open, r, stale, r, i);
        let p = choose|p: int|
            0 <= p < open.rooms[r].room.peers.len() && cleared.rooms[r].room.peers[i]
                == #[trigger] open.rooms[r].room.peers[p];
        assert(open.rooms[r] == engine.rooms[r]);
        assert(is_on_record(engine, engine.rooms[r].room.peers[p], engine.rooms[r].name));
    }
    assert(is_audible(cleared.rooms[r].room, id));
    retiring_keeps_rooms(open, r, stale);
    retiring_keeps_count(open, r, stale);
    seating_keeps_audible(cleared.rooms[r].room, after.rooms[r].room, peer, after.next_peer);
    assert forall|i: int| 0 <= i < after.rooms.len() implies is_audible(
        (#[trigger] after.rooms[i]).room,
        after.next_peer,
    ) by {
        if i != r {
            assert(after.rooms[i] == cleared.rooms[i]);
            assert(is_audible(cleared.rooms[i].room, id));
            a_larger_count_stays_audible(cleared.rooms[i].room, id, after.next_peer);
        }
    }
}

/// More ids given out make no difference.
proof fn a_larger_count_stays_audible(room: RoomView, count: u64, larger: u64)
    requires
        is_audible(room, count),
        count <= larger,
    ensures
        is_audible(room, larger),
{
    let present = ids_of(room.peers);
    assert forall|i: int| 0 <= i < room.peers.len() implies {
        &&& publishes_its_own(#[trigger] room.peers[i])
        &&& subscribes_fairly(room.peers[i], present, larger)
    } by {
        let peer = room.peers[i];
        assert(publishes_its_own(peer) && subscribes_fairly(peer, present, count));
        assert forall|k: int| 0 <= k < peer.tracks_out.len() implies is_fair(
            #[trigger] peer.tracks_out[k],
            peer.id,
            present,
            larger,
        ) by {
            assert(is_fair(peer.tracks_out[k], peer.id, present, count));
        }
    }
}

/// A join keeps everyone subscribed to everyone, whatever comes of it.
pub proof fn joining_keeps_audible(
    before: EngineView,
    after: EngineView,
    claims: JoinClaimsView,
    sdp: Seq<char>,
    reply: JoinReplyView,
)
    requires
        is_sound(before),
        rooms_are_audible(before),
        before.next_peer < u64::MAX,
        joins(before, after, claims, sdp, reply),
    ensures
        rooms_are_audible(after),
{
    if !is_full(before, claims.room, claims.sub) {
        if let Some(offer) = offer_of(sdp) {
            let (link, answer) = choose|link: Transport, answer: Option<Seq<char>>|
                {
                    &&& is_introduced(before, link, offer, answer)
                    &&& #[trigger] answered(before, after, claims, link, answer, reply)
                };
            let peer = fresh_peer(
                PeerId(before.next_peer),
                link,
                claims.sub,
                claims.name,
                claims.avatar_url,
            );
            match answer {
                Some(text) => joining_makes_audible(before, claims, peer, text),
                None => {
                    assert forall|r: int| 0 <= r < after.rooms.len() implies is_audible(
                        (#[trigger] after.rooms[r]).room,
                        after.next_peer,
                    ) by {
                        assert(is_audible(before.rooms[r].room, before.next_peer));
                        a_larger_count_stays_audible(
                            before.rooms[r].room,
                            before.next_peer,
                            after.next_peer,
                        );
                    }
                },
            }
        }
    }
}

/// The state is as it should be: it makes sense who is where, and everyone is
/// subscribed to everyone.
pub open spec fn is_well(engine: EngineView) -> bool {
    is_sound(engine) && rooms_are_audible(engine)
}

/// Every command keeps the state as it should be.
pub proof fn commands_keep_well(before: EngineView, after: EngineView, command: Command, result: Applied)
    requires
        is_well(before),
        command is Join ==> before.next_peer < u64::MAX,
        applies(before, after, command, result),
    ensures
        is_well(after),
{
    match command {
        Command::Join(request) => {
            if let Applied::Joined(reply) = result {
                joining_keeps_sound(before, after, request.claims@, request.sdp@, reply@);
                joining_keeps_audible(before, after, request.claims@, request.sdp@, reply@);
            }
        },
        Command::Answer { peer, sdp } => {
            answers_keep_sound(before, after, peer, sdp@);
            answers_keep_audible(before, after, peer, sdp@);
        },
        Command::Mute { peer, muted } => {
            state_keeps_sound(before, peer, Some(muted), None);
            state_keeps_audible(before, peer, Some(muted), None);
        },
        Command::Screen { peer, active } => {
            state_keeps_sound(before, peer, None, Some(active));
            state_keeps_audible(before, peer, None, Some(active));
        },
        Command::Leave { peer } => {
            leaving_keeps_sound(before, peer);
            leaving_keeps_audible(before, peer);
        },
        Command::Shutdown => {},
    }
}

/// A round of seeing to the rooms keeps the state as it should be.
pub proof fn rounds_keep_well(
    before: EngineView,
    after: EngineView,
    polled: EngineView,
    visits: Seq<Visit>,
    now: u64,
    wake: u64,
)
    requires
        is_well(before),
        sees_to_rooms(before, after, polled, visits, now, wake),
    ensures
        is_well(after),
{
    polling_keeps_audible(before, polled, visits, now, wake);
    reporting_keeps_sound(polled);
    reporting_keeps_audible(polled);
    let reported = connections_reported(polled);
    reaping_keeps_sound(reported, now);
    reaping_keeps_audible(reported, now);
    let swept = reaped(reported, now);
    speaking_keeps_sound(swept, now);
    speaking_keeps_audible(swept, now);
}

} // verus!
