//! Carrying out commands.
use vstd::prelude::*;
use vstd::string::*;

use crate::find::{first_where, first_where_is_first};
use crate::proto::{ServerMsg, ServerMsgView};
use crate::report::{grows_afresh, screen_report, ReportEvent};
use crate::sfu::command::{Applied, Command};
use crate::sfu::engine::{Engine, EngineView};
use crate::sfu::join::{dropped, joins};
use crate::sfu::peer::{is_answered, AnswerError, PeerView};
use crate::sfu::room::{has_id, to_all, RoomView};
use crate::sfu::tracks::PeerId;
use crate::sfu::webrtc::{answer_of, parse_answer, Now};

verus! {

/// Where a peer is: its room, and its place in the room.
pub open spec fn seat_of(engine: EngineView, id: PeerId) -> Option<(int, int)> {
    if !engine.peer_rooms.contains_key(id.0) {
        None
    } else {
        match engine.room_index(engine.peer_rooms[id.0]) {
            None => None,
            Some(r) => match first_where(engine.rooms[r].room.peers, has_id(id)) {
                None => None,
                Some(p) => Some((r, p)),
            },
        }
    }
}

/// The state with one peer replaced.
pub open spec fn with_peer(engine: EngineView, r: int, p: int, peer: PeerView) -> EngineView {
    let room = engine.rooms[r].room;
    engine.with_room(r, RoomView { peers: room.peers.update(p, peer), ..room })
}

/// A peer after it said something of itself.
pub open spec fn restated(peer: PeerView, muted: Option<bool>, screen: Option<bool>) -> PeerView {
    PeerView {
        muted: match muted {
            Some(muted) => muted,
            None => peer.muted,
        },
        screen: match screen {
            Some(active) => active,
            None => peer.screen,
        },
        ..peer
    }
}

pub open spec fn state_frame(peer: PeerView) -> ServerMsgView {
    ServerMsgView::PeerState { peer_id: peer.id.text(), muted: peer.muted, screen: peer.screen }
}

/// The event that a screen share begins or ends.
pub open spec fn share_event(active: bool) -> Seq<char> {
    if active {
        "track_published"@
    } else {
        "track_unpublished"@
    }
}

/// The state after a peer said something of itself. The whole room is told; the
/// host application is told only when a screen share begins or ends.
pub open spec fn state_set(
    engine: EngineView,
    id: PeerId,
    muted: Option<bool>,
    screen: Option<bool>,
) -> EngineView {
    match seat_of(engine, id) {
        None => engine,
        Some((r, p)) => {
            let was = engine.rooms[r].room.peers[p];
            let is = restated(was, muted, screen);
            let changed = with_peer(engine, r, p, is);
            EngineView {
                outbox: engine.outbox + to_all(changed.rooms[r].room.peers, state_frame(is)),
                reports: if is.screen != was.screen {
                    engine.reports.push(
                        screen_report(share_event(is.screen), engine.peer_rooms[id.0], was.user_id),
                    )
                } else {
                    engine.reports
                },
                ..changed
            }
        },
    }
}

/// What an answer does: nothing if it is none or if nobody is there to give it.
pub open spec fn answers(before: EngineView, after: EngineView, id: PeerId, sdp: Seq<char>) -> bool {
    match seat_of(before, id) {
        None => after == before,
        Some((r, p)) => match answer_of(sdp) {
            None => after == before,
            Some(answer) => {
                let peer = after.rooms[r].room.peers[p];
                &&& after == with_peer(before, r, p, peer)
                &&& exists|result: Result<(), AnswerError>| #[trigger]
                    is_answered(before.rooms[r].room.peers[p], peer, answer, result)
            },
        },
    }
}

/// What a command does.
pub open spec fn applies(
    before: EngineView,
    after: EngineView,
    command: Command,
    result: Applied,
) -> bool {
    match command {
        Command::Join(request) => {
            &&& result matches Applied::Joined(reply)
            &&& joins(before, after, request.claims@, request.sdp@, reply@)
        },
        Command::Answer { peer, sdp } => {
            &&& result is Done
            &&& answers(before, after, peer, sdp@)
        },
        Command::Mute { peer, muted } => {
            &&& result is Done
            &&& after == state_set(before, peer, Some(muted), None)
        },
        Command::Screen { peer, active } => {
            &&& result is Done
            &&& after == state_set(before, peer, None, Some(active))
        },
        Command::Leave { peer } => {
            &&& result is Done
            &&& after == dropped(before, peer)
        },
        Command::Shutdown => {
            &&& result is Stop
            &&& after == before
        },
    }
}

impl Engine {
    /// Where a peer is.
    pub fn find_seat(&self, id: PeerId) -> (seat: Option<(usize, usize)>)
        ensures
            match seat {
                Some((r, p)) => {
                    &&& r < self.rooms.len()
                    &&& p < self.rooms@[r as int].room.peers.len()
                    &&& seat_of(self@, id) == Some((r as int, p as int))
                },
                None => seat_of(self@, id) is None,
            },
    {
        match self.room_name_of(id) {
            Some(name) => match self.find_room(name.as_str()) {
                Some(r) => match self.rooms[r].room.position(id) {
                    Some(p) => Some((r, p)),
                    None => None,
                },
                None => None,
            },
            None => None,
        }
    }

    /// Carries out one command.
    pub fn apply(&mut self, command: Command, now: Now) -> (result: Applied)
        requires
            command is Join ==> old(self)@.next_peer < u64::MAX,
        ensures
            applies(old(self)@, final(self)@, command, result),
            grows_afresh(old(self).reports@, final(self).reports@),
    {
        match command {
            Command::Join(request) => Applied::Joined(self.handle_join(*request, now)),
            Command::Answer { peer, sdp } => {
                self.handle_answer(peer, sdp.as_str());
                Applied::Done
            },
            Command::Mute { peer, muted } => {
                self.set_state(peer, Some(muted), None);
                Applied::Done
            },
            Command::Screen { peer, active } => {
                self.set_state(peer, None, Some(active));
                Applied::Done
            },
            Command::Leave { peer } => {
                self.drop_peer(peer);
                Applied::Done
            },
            Command::Shutdown => Applied::Stop,
        }
    }

    /// Hands an answer to the peer that gave it.
    pub fn handle_answer(&mut self, id: PeerId, sdp: &str)
        ensures
            answers(old(self)@, final(self)@, id, sdp@),
            final(self).reports == old(self).reports,
    {
        let ghost before = self@;
        match self.find_seat(id) {
            Some((r, p)) => match parse_answer(sdp) {
                Some(answer) => {
                    let ghost given = answer;
                    let result = self.rooms[r].room.peers[p].accept_answer(answer);
                    proof {
                        let peer = self@.rooms[r as int].room.peers[p as int];
                        let after = with_peer(before, r as int, p as int, peer);
                        assert(is_answered(
                            before.rooms[r as int].room.peers[p as int],
                            peer,
                            given,
                            result,
                        ));
                        assert(self@.rooms[r as int].room.peers
                            =~= after.rooms[r as int].room.peers);
                        assert(self@.rooms =~= after.rooms);
                    }
                },
                None => {},
            },
            None => {},
        }
    }

    /// Mute and screen-share are application state, not media state. The SFU
    /// keeps them only so a joiner sees the room as it already is, and so the
    /// host application learns who is sharing.
    pub fn set_state(&mut self, id: PeerId, muted: Option<bool>, screen: Option<bool>)
        ensures
            final(self)@ == state_set(old(self)@, id, muted, screen),
            grows_afresh(old(self).reports@, final(self).reports@),
    {
        let ghost before = self@;
        let (r, p) = match self.find_seat(id) {
            Some(seat) => seat,
            None => {
                return;
            },
        };
        let ghost was = before.rooms[r as int].room.peers[p as int];
        let ghost is = restated(was, muted, screen);
        let ghost changed = with_peer(before, r as int, p as int, is);
        let name = match self.room_name_of(id) {
            Some(name) => name,
            None => {
                return;
            },
        };
        let peer = &mut self.rooms[r].room.peers[p];
        if let Some(muted) = muted {
            peer.muted = muted;
        }
        let mut screen_changed: Option<(String, bool)> = None;
        if let Some(active) = screen {
            if peer.screen != active {
                peer.screen = active;
                screen_changed = Some((peer.user_id.clone(), active));
            }
        }
        let state = ServerMsg::PeerState {
            peer_id: id.as_string(),
            muted: peer.muted,
            screen: peer.screen,
        };
        proof {
            first_where_is_first(before.rooms[r as int].room.peers, has_id(id));
            assert(self@.rooms[r as int].room.peers =~= changed.rooms[r as int].room.peers);
            assert(self@.rooms =~= changed.rooms);
        }
        self.rooms[r].room.broadcast(state, &mut self.outbox);
        if let Some((user_id, active)) = screen_changed {
            let event = if active {
                "track_published"
            } else {
                "track_unpublished"
            };
            self.report(
                ReportEvent::new(event, name.as_str()).identity(user_id.as_str()).screen_share(),
            );
        }
        assert(self@ =~= state_set(before, id, muted, screen));
    }
}

} // verus!
