//! The course of the media loop, between its dealings with the outside.
use vstd::prelude::*;

use crate::net::Endpoint;
use crate::report::{grows_afresh, growth_adds_up};
use crate::sfu::audibility::{
    commands_keep_well, is_well, reading_keeps_audible, rounds_keep_well, ticking_keeps_audible,
};
use crate::sfu::command::{Applied, Command, JoinReply};
use crate::sfu::dispatch::applies;
use crate::sfu::engine::{Engine, EngineView};
use crate::sfu::engine_io::{connections_reported, polls, reads, speaking_ticked, ticks, Visit};
use crate::sfu::join::reaped;
use crate::sfu::peer::has_room_ahead;
use crate::sfu::soundness::{reading_keeps_sound, ticking_keeps_sound};
use crate::sfu::webrtc::Now;

verus! {

/// What the queue of commands gave.
pub enum Received {
    Command(Command),
    /// Nothing for now.
    Empty,
    /// Nobody is left to give commands.
    Disconnected,
}

/// How the media loop goes on.
pub enum ControlFlow {
    /// Ask for another command.
    Again,
    /// Answer the socket that asked to join, and ask for another command.
    Reply(JoinReply),
    /// See to the rooms.
    Continue,
    Stop,
}

/// What taking from the queue of commands does.
pub open spec fn takes(
    before: EngineView,
    after: EngineView,
    received: Received,
    flow: ControlFlow,
) -> bool {
    match received {
        Received::Empty => flow is Continue && after == before,
        Received::Disconnected => flow is Stop && after == before,
        Received::Command(command) => match flow {
            ControlFlow::Again => applies(before, after, command, Applied::Done),
            ControlFlow::Reply(reply) => applies(before, after, command, Applied::Joined(reply)),
            ControlFlow::Stop => command is Shutdown && after == before,
            ControlFlow::Continue => false,
        },
    }
}

/// What one round of seeing to the rooms does: peers take their turns, arrivals
/// are reported, the dead are swept out and the speakers looked at.
pub open spec fn sees_to_rooms(
    before: EngineView,
    after: EngineView,
    polled: EngineView,
    visits: Seq<Visit>,
    now: u64,
    wake: u64,
) -> bool {
    &&& polls(before, polled, visits, now, wake)
    &&& after == speaking_ticked(reaped(connections_reported(polled), now), now)
}

/// What a packet does, if there is one.
pub open spec fn takes_packet(
    before: EngineView,
    after: EngineView,
    packet: Option<(Endpoint, Vec<u8>)>,
) -> bool {
    match packet {
        Some((source, bytes)) => reads(before, after, source, bytes@),
        None => after == before,
    }
}

/// What the end of a wait for a packet does.
pub open spec fn resumes(
    before: EngineView,
    after: EngineView,
    packet: Option<(Endpoint, Vec<u8>)>,
) -> bool {
    exists|fed: EngineView| #[trigger] takes_packet(before, fed, packet) && ticks(fed, after)
}

impl Engine {
    /// Takes from the queue of commands.
    pub fn drain_commands(&mut self, received: Received, now: Now) -> (flow: ControlFlow)
        requires
            received matches Received::Command(Command::Join(_)) ==> old(self)@.next_peer
                < u64::MAX,
        ensures
            takes(old(self)@, final(self)@, received, flow),
            grows_afresh(old(self).reports@, final(self).reports@),
            is_well(old(self)@) ==> is_well(final(self)@),
    {
        match received {
            Received::Empty => ControlFlow::Continue,
            Received::Disconnected => ControlFlow::Stop,
            Received::Command(command) => {
                let result = self.apply(command, now);
                proof {
                    if is_well(old(self)@) {
                        commands_keep_well(old(self)@, self@, command, result);
                    }
                }
                match result {
                    Applied::Done => ControlFlow::Again,
                    Applied::Joined(reply) => ControlFlow::Reply(reply),
                    Applied::Stop => ControlFlow::Stop,
                }
            },
        }
    }

    /// Takes in what the wait for a packet brought, if it brought one, and tells
    /// every peer that time has passed.
    pub fn resume(&mut self, packet: Option<(Endpoint, Vec<u8>)>, now: Now)
        ensures
            resumes(old(self)@, final(self)@, packet),
            is_well(old(self)@) ==> is_well(final(self)@),
    {
        let ghost before = self@;
        if let Some((source, bytes)) = &packet {
            self.read_once(*source, bytes.as_slice(), now);
            proof {
                if is_well(before) {
                    reading_keeps_sound(before, self@, *source, bytes@);
                    reading_keeps_audible(before, self@, *source, bytes@);
                }
            }
        }
        let ghost fed = self@;
        self.tick(now);
        proof {
            assert(takes_packet(before, fed, packet) && ticks(fed, self@));
            if is_well(before) {
                ticking_keeps_sound(fed, self@);
                ticking_keeps_audible(fed, self@);
            }
        }
    }

    /// Sees to the rooms, and says when to do so again at the latest.
    pub fn see_to_rooms(&mut self, now: Now) -> (result: (u64, Ghost<EngineView>, Ghost<Seq<Visit>>))
        requires
            has_room_ahead(now),
        ensures
            sees_to_rooms(
                old(self)@,
                final(self)@,
                result.1@,
                result.2@,
                now.nanos,
                result.0,
            ),
            grows_afresh(old(self).reports@, final(self).reports@),
            is_well(old(self)@) ==> is_well(final(self)@),
    {
        let (wake, visits) = self.poll_rooms(now);
        let ghost polled = self@;
        self.report_connections();
        let ghost announced = self.reports@;
        self.reap(now);
        self.tick_speaking(now);
        proof {
            growth_adds_up(old(self).reports@, announced, self.reports@);
            if is_well(old(self)@) {
                rounds_keep_well(old(self)@, self@, polled, visits@, now.nanos, wake);
            }
        }
        (wake, Ghost(polled), visits)
    }
}

} // verus!
