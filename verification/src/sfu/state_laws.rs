//! What is promised of commands from peers that are in a call: what they said of
//! themselves, their answers and their leaving.
use str0m::change::SdpAnswer;
use vstd::prelude::*;

use crate::find::first_where;
use crate::proto::ServerMsgView;
use crate::report::Report;
use crate::sfu::command::{Applied, Command};
use crate::sfu::dispatch::{applies, seat_of};
use crate::sfu::engine::{EngineView, NamedRoom};
use crate::sfu::join::dropped;
use crate::sfu::negotiate::settled;
use crate::sfu::outbox::Post;
use crate::sfu::peer::{is_answered, AnswerError, PeerView};
use crate::sfu::room::{has_id, RoomView};
use crate::sfu::soundness::{is_on_record, is_sound, on_record_is_seated, seat_is_unique, sits};
use crate::sfu::tracks::{PeerId, TrackOutStateView, TrackOutView};
use crate::sfu::webrtc::answer_of;

verus! {

/// A message to each of some peers.
pub open spec fn told_each(peers: Seq<PeerView>, message: ServerMsgView) -> Seq<Post> {
    Seq::new(peers.len(), |i: int| Post { to: peers[i].id, message })
}

/// A peer has a place in a room.
pub open spec fn is_placed(engine: EngineView, id: PeerId, r: int, p: int) -> bool {
    &&& 0 <= r < engine.rooms.len()
    &&& 0 <= p < engine.rooms[r].room.peers.len()
    &&& engine.rooms[r].room.peers[p].id == id
}

/// The rooms with one peer in the place of another.
pub open spec fn rooms_with(engine: EngineView, r: int, p: int, peer: PeerView) -> Seq<NamedRoom> {
    let entry = engine.rooms[r];
    engine.rooms.update(
        r,
        NamedRoom {
            name: entry.name,
            room: RoomView {
                call_id: entry.room.call_id,
                speaking: entry.room.speaking,
                peers: entry.room.peers.update(p, peer),
            },
        },
    )
}

/// A peer that mutes or unmutes is muted or not, just as it said, and everyone in the
/// room is told so. Nothing else changes.
pub proof fn a_peer_is_muted_as_it_says(
    before: EngineView,
    after: EngineView,
    id: PeerId,
    muted: bool,
    result: Applied,
    r: int,
    p: int,
)
    requires
        is_sound(before),
        applies(before, after, Command::Mute { peer: id, muted }, result),
        is_placed(before, id, r, p),
    ensures
        result is Done,
        ({
            let was = before.rooms[r].room.peers[p];
            after == EngineView {
                rooms: rooms_with(before, r, p, PeerView { muted, ..was }),
                outbox: before.outbox + told_each(
                    before.rooms[r].room.peers,
                    ServerMsgView::PeerState { peer_id: id.text(), muted, screen: was.screen },
                ),
                ..before
            }
        }),
{
    assert(sits(before, id.0, r, p));
    assert(PeerId(id.0) == id);
    seat_is_unique(before, id.0, r, p);
    let was = before.rooms[r].room.peers[p];
    let told = told_each(
        before.rooms[r].room.peers,
        ServerMsgView::PeerState { peer_id: id.text(), muted, screen: was.screen },
    );
    assert(after.outbox =~= before.outbox + told);
    assert(after.rooms =~= rooms_with(before, r, p, PeerView { muted, ..was }));
}

/// A peer that begins or ends a screen share has one or not, just as it said, and
/// everyone in the room is told so. The host application is told of a share that
/// begins or ends, and of nothing that was so already. Nothing else changes.
pub proof fn a_peer_shares_as_it_says(
    before: EngineView,
    after: EngineView,
    id: PeerId,
    active: bool,
    result: Applied,
    r: int,
    p: int,
)
    requires
        is_sound(before),
        applies(before, after, Command::Screen { peer: id, active }, result),
        is_placed(before, id, r, p),
    ensures
        result is Done,
        ({
            let was = before.rooms[r].room.peers[p];
            after == EngineView {
                rooms: rooms_with(before, r, p, PeerView { screen: active, ..was }),
                outbox: before.outbox + told_each(
                    before.rooms[r].room.peers,
                    ServerMsgView::PeerState {
                        peer_id: id.text(),
                        muted: was.muted,
                        screen: active,
                    },
                ),
                reports: if active == was.screen {
                    before.reports
                } else {
                    before.reports.push(
                        Report {
                            event: if active {
                                "track_published"@
                            } else {
                                "track_unpublished"@
                            },
                            room: before.rooms[r].name,
                            identity: Some(was.user_id),
                            source: Some("SCREEN_SHARE"@),
                        },
                    )
                },
                ..before
            }
        }),
{
    assert(sits(before, id.0, r, p));
    assert(PeerId(id.0) == id);
    seat_is_unique(before, id.0, r, p);
    let was = before.rooms[r].room.peers[p];
    assert(is_on_record(before, was, before.rooms[r].name));
    let told = told_each(
        before.rooms[r].room.peers,
        ServerMsgView::PeerState { peer_id: id.text(), muted: was.muted, screen: active },
    );
    assert(after.outbox =~= before.outbox + told);
    assert(after.rooms =~= rooms_with(before, r, p, PeerView { screen: active, ..was }));
}

/// Of what is being negotiated, what was to open is open.
pub open spec fn as_open(track: TrackOutView) -> TrackOutView {
    TrackOutView {
        track_in: track.track_in,
        state: match track.state {
            TrackOutStateView::Negotiating(mid) => TrackOutStateView::Open(mid),
            other => other,
        },
    }
}

/// The subscriptions that are not being stopped, with those that were being opened
/// open.
pub open spec fn brought_up(tracks: Seq<TrackOutView>) -> Seq<TrackOutView> {
    tracks.filter(|t: TrackOutView| !(t.state is NegotiatingStop)).map_values(
        |t: TrackOutView| as_open(t),
    )
}

proof fn settling_brings_up(tracks: Seq<TrackOutView>)
    ensures
        settled(tracks) == brought_up(tracks),
    decreases tracks.len(),
{
    reveal(Seq::filter);
    if tracks.len() > 0 {
        settling_brings_up(tracks.drop_last());
        assert(settled(tracks) =~= brought_up(tracks));
    } else {
        assert(settled(tracks) =~= brought_up(tracks));
    }
}

/// What comes of an answer. Without an offer to answer it does nothing; otherwise the
/// offer is done with. If the session takes the answer, what was being opened is open
/// and what was being stopped is gone; if it does not, the subscriptions stay as they
/// are. Nothing else of the peer changes.
pub proof fn an_answer_brings_subscriptions_up(
    before: PeerView,
    after: PeerView,
    answer: SdpAnswer,
    result: Result<(), AnswerError>,
)
    requires
        is_answered(before, after, answer, result),
    ensures
        before.pending is None ==> after == before && result == Err::<(), AnswerError>(
            AnswerError::NoPendingOffer,
        ),
        before.pending is Some ==> {
            &&& after.pending is None
            &&& after == PeerView {
                link: after.link,
                pending: None,
                tracks_out: after.tracks_out,
                ..before
            }
            &&& after.tracks_out == if result is Ok {
                brought_up(before.tracks_out)
            } else {
                before.tracks_out
            }
            &&& before.link.fault(before.pending->0, answer) is None ==> (result is Ok
                <==> before.link.refusal(before.pending->0, answer) is None)
            &&& result is Ok ==> after.link.alive() == before.link.alive()
            &&& before.link.fault(before.pending->0, answer) is Some ==> result is Err && after.link
                == before.link
        },
{
    settling_brings_up(before.tracks_out);
}

/// An answer concerns the peer that gave it and nobody else. A text that is no answer
/// does nothing.
pub proof fn an_answer_is_for_its_giver(
    before: EngineView,
    after: EngineView,
    command: Command,
    result: Applied,
    id: PeerId,
    r: int,
    p: int,
) -> (outcome: Result<(), AnswerError>)
    requires
        is_sound(before),
        applies(before, after, command, result),
        command matches Command::Answer { peer, sdp } && peer == id,
        is_placed(before, id, r, p),
    ensures
        result is Done,
        command matches Command::Answer { peer, sdp } && match answer_of(sdp@) {
            None => after == before,
            Some(answer) => {
                &&& after == EngineView {
                    rooms: rooms_with(before, r, p, after.rooms[r].room.peers[p]),
                    ..before
                }
                &&& is_answered(
                    before.rooms[r].room.peers[p],
                    after.rooms[r].room.peers[p],
                    answer,
                    outcome,
                )
            },
        },
{
    assert(sits(before, id.0, r, p));
    assert(PeerId(id.0) == id);
    seat_is_unique(before, id.0, r, p);
    let sdp = command->Answer_sdp;
    if let Some(answer) = answer_of(sdp@) {
        let peer = after.rooms[r].room.peers[p];
        assert(after.rooms =~= rooms_with(before, r, p, peer));
        choose|outcome: Result<(), AnswerError>| #[trigger]
            is_answered(before.rooms[r].room.peers[p], peer, answer, outcome)
    } else {
        Ok(())
    }
}

/// The names in a list other than one.
pub open spec fn other_names(names: Seq<Seq<char>>, name: Seq<char>) -> Seq<Seq<char>> {
    names.filter(|n: Seq<char>| n != name)
}

/// A peer that leaves is gone from its room and from the record. Each of those who
/// stay is told once. The host application is told that it left, if it was told that
/// it came; and that the room is finished, if nobody stays, and then the room is gone.
/// Nothing else changes.
pub proof fn a_peer_that_leaves_is_gone(
    before: EngineView,
    after: EngineView,
    id: PeerId,
    result: Applied,
    r: int,
    p: int,
)
    requires
        is_sound(before),
        applies(before, after, Command::Leave { peer: id }, result),
        is_placed(before, id, r, p),
    ensures
        result is Done,
        is_gone(before, after, id, r, p),
{
    dropping_is_leaving(before, id, r, p);
}

/// The state after a peer has left its place.
pub open spec fn is_gone(before: EngineView, after: EngineView, id: PeerId, r: int, p: int) -> bool {
    let entry = before.rooms[r];
    let gone = entry.room.peers[p];
    let stay = entry.room.peers.remove(p);
    let left = Report {
        event: "participant_left"@,
        room: entry.name,
        identity: Some(gone.user_id),
        source: None,
    };
    let finished = Report { event: "room_finished"@, room: entry.name, identity: None, source: None };
    let reports = if gone.reported {
        before.reports.push(left)
    } else {
        before.reports
    };
    after == EngineView {
        rooms: if stay.len() == 0 {
            before.rooms.remove(r)
        } else {
            before.rooms.update(
                r,
                NamedRoom {
                    name: entry.name,
                    room: RoomView {
                        call_id: entry.room.call_id,
                        peers: stay,
                        speaking: other_names(entry.room.speaking, id.text()),
                    },
                },
            )
        },
        peer_rooms: before.peer_rooms.remove(id.0),
        outbox: before.outbox + told_each(stay, ServerMsgView::PeerLeft { peer_id: id.text() }),
        reports: if stay.len() == 0 {
            reports.push(finished)
        } else {
            reports
        },
        ..before
    }
}

/// What leaving does, for a peer that has a place.
pub proof fn dropping_is_leaving(engine: EngineView, id: PeerId, r: int, p: int)
    requires
        is_sound(engine),
        is_placed(engine, id, r, p),
    ensures
        is_gone(engine, dropped(engine, id), id, r, p),
{
    assert(sits(engine, id.0, r, p));
    assert(PeerId(id.0) == id);
    seat_is_unique(engine, id.0, r, p);
    let entry = engine.rooms[r];
    let after = dropped(engine, id);
    let stay = entry.room.peers.remove(p);
    assert(is_on_record(engine, entry.room.peers[p], entry.name));
    assert(first_where(entry.room.peers, has_id(id)) == Some(p));
    assert((|n: Seq<char>| n != id.text()) =~= (|entry: Seq<char>| entry != id.text()));
    assert(after.outbox =~= engine.outbox + told_each(
        stay,
        ServerMsgView::PeerLeft { peer_id: id.text() },
    ));
    if stay.len() == 0 {
        assert(after.rooms =~= engine.rooms.remove(r));
    } else {
        assert(after.rooms[r].room.speaking =~= other_names(entry.room.speaking, id.text()));
        assert(after.rooms =~= engine.rooms.update(
            r,
            NamedRoom {
                name: entry.name,
                room: RoomView {
                    call_id: entry.room.call_id,
                    peers: stay,
                    speaking: other_names(entry.room.speaking, id.text()),
                },
            },
        ));
    }
}

/// What a command asks for on behalf of a peer that is in no room does nothing; and
/// to stop the media loop stops it and changes nothing.
pub proof fn strangers_change_nothing(
    before: EngineView,
    after: EngineView,
    command: Command,
    result: Applied,
    id: PeerId,
)
    requires
        is_sound(before),
        applies(before, after, command, result),
        forall|r: int, p: int| !is_placed(before, id, r, p),
    ensures
        command matches Command::Mute { peer, muted } ==> peer == id ==> after == before,
        command matches Command::Screen { peer, active } ==> peer == id ==> after == before,
        command matches Command::Answer { peer, sdp } ==> peer == id ==> after == before,
        command matches Command::Leave { peer } ==> peer == id ==> after == before,
        command is Shutdown ==> after == before && result is Stop,
        !(command is Shutdown) ==> !(result is Stop),
{
    on_record_is_seated(before, id);
    if let Some((r, p)) = seat_of(before, id) {
        assert(sits(before, id.0, r, p));
        assert(is_placed(before, id, r, p));
    }
}

} // verus!
