//! What holds over the whole course of the media loop, step after step.
use vstd::prelude::*;

use crate::auth::JoinClaimsView;
use crate::find::first_where_is_first;
use crate::net::Endpoint;
use crate::sfu::audibility::{
    commands_keep_well, is_well, reading_keeps_audible, rounds_keep_well, ticking_keeps_audible,
};
use crate::sfu::command::{Applied, Command, JoinReplyView};
use crate::sfu::dispatch::applies;
use crate::sfu::engine::{is_named, EngineView};
use crate::sfu::engine_io::{connections_reported, ticks, Visit};
use crate::sfu::join::{
    all_dropped, all_retired, answered, dead_in, is_full, is_introduced, joins, numbered,
    opened_room, peers_of_user,
};
use crate::sfu::laws::{has_room, makes_no_room, same_names_make_no_room};
use crate::sfu::media_loop::{resumes, sees_to_rooms, takes_packet};
use crate::sfu::soundness::{
    answers_keep_sound, is_sound, joining_keeps_sound, leaving_keeps_sound, on_record_is_seated,
    reading_keeps_sound, retiring_keeps_count, same_people_stay_sound, state_keeps_sound,
    ticking_keeps_sound,
};
use crate::sfu::tracks::PeerId;
use crate::sfu::transport::Transport;
use crate::sfu::webrtc::offer_of;

verus! {

/// A command was carried out. A join needs an id to give away.
pub open spec fn is_commanded(
    before: EngineView,
    after: EngineView,
    command: Command,
    result: Applied,
) -> bool {
    &&& command is Join ==> before.next_peer < u64::MAX
    &&& applies(before, after, command, result)
}

/// The queues of what the media loop has to say were emptied or filled; nothing
/// else happened.
pub open spec fn is_heard_out(before: EngineView, after: EngineView) -> bool {
    after == EngineView {
        outbox: after.outbox,
        reports: after.reports,
        transmits: after.transmits,
        ..before
    }
}

/// One step of the media loop: a command, a round of seeing to the rooms, the end
/// of a wait for a packet, or the fetching of what it has to say.
pub open spec fn is_step(before: EngineView, after: EngineView) -> bool {
    ||| exists|command: Command, result: Applied| #[trigger]
        is_commanded(before, after, command, result)
    ||| exists|polled: EngineView, visits: Seq<Visit>, now: u64, wake: u64| #[trigger]
        sees_to_rooms(before, after, polled, visits, now, wake)
    ||| exists|packet: Option<(Endpoint, Vec<u8>)>| #[trigger] resumes(before, after, packet)
    ||| is_heard_out(before, after)
}

/// States that follow each other step by step.
pub open spec fn is_course(states: Seq<EngineView>) -> bool
    decreases states.len(),
{
    states.len() > 1 ==> {
        &&& is_course(states.drop_last())
        &&& is_step(states.drop_last().last(), states.last())
    }
}

/// Every command keeps the state sound: no room is empty or overfull, nobody is in
/// two places, and the record of who is where is right.
pub proof fn commands_keep_sound(before: EngineView, after: EngineView, command: Command, result: Applied)
    requires
        is_sound(before),
        is_commanded(before, after, command, result),
    ensures
        is_sound(after),
{
    match command {
        Command::Join(request) => {
            if let Applied::Joined(reply) = result {
                joining_keeps_sound(before, after, request.claims@, request.sdp@, reply@);
            }
        },
        Command::Answer { peer, sdp } => answers_keep_sound(before, after, peer, sdp@),
        Command::Mute { peer, muted } => state_keeps_sound(before, peer, Some(muted), None),
        Command::Screen { peer, active } => state_keeps_sound(before, peer, None, Some(active)),
        Command::Leave { peer } => leaving_keeps_sound(before, peer),
        Command::Shutdown => {},
    }
}

proof fn retiring_keeps_names(engine: EngineView, r: int, ids: Seq<PeerId>)
    requires
        0 <= r < engine.rooms.len(),
    ensures
        all_retired(engine, r, ids).rooms.len() == engine.rooms.len(),
        forall|i: int|
            0 <= i < engine.rooms.len() ==> (#[trigger] all_retired(engine, r, ids).rooms[i]).name
                == engine.rooms[i].name,
    decreases ids.len(),
{
    if ids.len() > 0 {
        retiring_keeps_names(engine, r, ids.drop_last());
    }
}

proof fn joining_ends_no_room(
    before: EngineView,
    after: EngineView,
    claims: JoinClaimsView,
    sdp: Seq<char>,
    reply: JoinReplyView,
)
    requires
        joins(before, after, claims, sdp, reply),
    ensures
        makes_no_room(after, before),
{
    if after.rooms == before.rooms {
        same_names_make_no_room(after, before);
    } else {
        let open = opened_room(numbered(before), claims.room, claims.call_id);
        let r = open.room_index(claims.room)->0;
        first_where_is_first(before.rooms, is_named(claims.room));
        first_where_is_first(open.rooms, is_named(claims.room));
        if before.room_index(claims.room) is None {
            assert(is_named(claims.room)(open.rooms[before.rooms.len() as int]));
        }
        let stale = peers_of_user(open.rooms[r].room.peers, claims.sub);
        retiring_keeps_names(open, r, stale);
        assert forall|i: int| 0 <= i < before.rooms.len() implies has_room(
            after,
            (#[trigger] before.rooms[i]).name,
        ) by {
            assert(open.rooms[i] == before.rooms[i]);
            assert(all_retired(open, r, stale).rooms[i].name == before.rooms[i].name);
            assert(after.rooms[i].name == before.rooms[i].name);
        }
    }
}

/// Of all commands, only a leave ends a room.
pub proof fn only_leaving_ends_rooms(
    before: EngineView,
    after: EngineView,
    command: Command,
    result: Applied,
)
    requires
        is_sound(before),
        applies(before, after, command, result),
        !(command is Leave),
    ensures
        makes_no_room(after, before),
{
    match command {
        Command::Join(request) => {
            if let Applied::Joined(reply) = result {
                joining_ends_no_room(before, after, request.claims@, request.sdp@, reply@);
            }
        },
        Command::Answer { peer, sdp } => {
            on_record_is_seated(before, peer);
            same_names_make_no_room(after, before);
        },
        Command::Mute { peer, muted } => {
            on_record_is_seated(before, peer);
            same_names_make_no_room(after, before);
        },
        Command::Screen { peer, active } => {
            on_record_is_seated(before, peer);
            same_names_make_no_room(after, before);
        },
        _ => same_names_make_no_room(after, before),
    }
}

/// Every step keeps the state as it should be.
pub proof fn steps_keep_well(before: EngineView, after: EngineView)
    requires
        is_well(before),
        is_step(before, after),
    ensures
        is_well(after),
{
    if exists|command: Command, result: Applied| #[trigger]
        is_commanded(before, after, command, result) {
        let (command, result) = choose|command: Command, result: Applied| #[trigger]
            is_commanded(before, after, command, result);
        commands_keep_well(before, after, command, result);
    } else if exists|polled: EngineView, visits: Seq<Visit>, now: u64, wake: u64| #[trigger]
        sees_to_rooms(before, after, polled, visits, now, wake) {
        let (polled, visits, now, wake) = choose|
            polled: EngineView,
            visits: Seq<Visit>,
            now: u64,
            wake: u64,
        | #[trigger] sees_to_rooms(before, after, polled, visits, now, wake);
        rounds_keep_well(before, after, polled, visits, now, wake);
    } else if exists|packet: Option<(Endpoint, Vec<u8>)>| #[trigger] resumes(before, after, packet) {
        let packet = choose|packet: Option<(Endpoint, Vec<u8>)>| #[trigger]
            resumes(before, after, packet);
        let fed = choose|fed: EngineView| #[trigger]
            takes_packet(before, fed, packet) && ticks(fed, after);
        if let Some((source, bytes)) = packet {
            reading_keeps_sound(before, fed, source, bytes@);
            reading_keeps_audible(before, fed, source, bytes@);
        }
        ticking_keeps_sound(fed, after);
        ticking_keeps_audible(fed, after);
    } else {
        same_people_stay_sound(before, after);
    }
}

/// The state is as it should be at any time.
pub proof fn the_state_is_always_well(states: Seq<EngineView>)
    requires
        states.len() > 0,
        is_well(states.first()),
        is_course(states),
    ensures
        is_well(states.last()),
    decreases states.len(),
{
    if states.len() > 1 {
        the_state_is_always_well(states.drop_last());
        steps_keep_well(states.drop_last().last(), states.last());
    }
}

proof fn leaving_gives_away_no_id(engine: EngineView, ids: Seq<PeerId>)
    ensures
        all_dropped(engine, ids).next_peer == engine.next_peer,
    decreases ids.len(),
{
    if ids.len() > 0 {
        leaving_gives_away_no_id(engine, ids.drop_last());
    }
}

/// A join gives away the next id if it lets somebody in, and never takes one back.
pub proof fn a_join_takes_the_next_id(
    before: EngineView,
    after: EngineView,
    claims: JoinClaimsView,
    sdp: Seq<char>,
    reply: JoinReplyView,
)
    requires
        before.next_peer < u64::MAX,
        joins(before, after, claims, sdp, reply),
    ensures
        before.next_peer <= after.next_peer,
        reply matches JoinReplyView::Admitted(id) ==> id.0 == before.next_peer && after.next_peer
            == id.0 + 1,
{
    if !is_full(before, claims.room, claims.sub) {
        if let Some(offer) = offer_of(sdp) {
            let (link, answer) = choose|link: Transport, answer: Option<Seq<char>>|
                {
                    &&& is_introduced(before, link, offer, answer)
                    &&& #[trigger] answered(before, after, claims, link, answer, reply)
                };
            let open = opened_room(numbered(before), claims.room, claims.call_id);
            let r = open.room_index(claims.room)->0;
            retiring_keeps_count(open, r, peers_of_user(open.rooms[r].room.peers, claims.sub));
        }
    }
}

/// No step takes an id back.
pub proof fn steps_take_no_id_back(before: EngineView, after: EngineView)
    requires
        is_step(before, after),
    ensures
        before.next_peer <= after.next_peer,
{
    if exists|command: Command, result: Applied| #[trigger]
        is_commanded(before, after, command, result) {
        let (command, result) = choose|command: Command, result: Applied| #[trigger]
            is_commanded(before, after, command, result);
        if let Command::Join(request) = command {
            if let Applied::Joined(reply) = result {
                a_join_takes_the_next_id(before, after, request.claims@, request.sdp@, reply@);
            }
        }
    } else if exists|polled: EngineView, visits: Seq<Visit>, now: u64, wake: u64| #[trigger]
        sees_to_rooms(before, after, polled, visits, now, wake) {
        let (polled, visits, now, wake) = choose|
            polled: EngineView,
            visits: Seq<Visit>,
            now: u64,
            wake: u64,
        | #[trigger] sees_to_rooms(before, after, polled, visits, now, wake);
        let reported = connections_reported(polled);
        leaving_gives_away_no_id(reported, dead_in(reported.rooms, now));
    }
}

/// No course of the media loop takes an id back.
pub proof fn ids_only_grow(states: Seq<EngineView>)
    requires
        states.len() > 0,
        is_course(states),
    ensures
        states.first().next_peer <= states.last().next_peer,
    decreases states.len(),
{
    if states.len() > 1 {
        ids_only_grow(states.drop_last());
        steps_take_no_id_back(states.drop_last().last(), states.last());
    }
}

/// Ids are never reused: whoever is let in later has a higher id than whoever was
/// let in before, whatever happened in between.
pub proof fn later_ids_are_higher(
    before: EngineView,
    states: Seq<EngineView>,
    after: EngineView,
    earlier: JoinClaimsView,
    earlier_sdp: Seq<char>,
    a: PeerId,
    later: JoinClaimsView,
    later_sdp: Seq<char>,
    b: PeerId,
)
    requires
        states.len() > 0,
        is_course(states),
        before.next_peer < u64::MAX,
        joins(before, states.first(), earlier, earlier_sdp, JoinReplyView::Admitted(a)),
        states.last().next_peer < u64::MAX,
        joins(states.last(), after, later, later_sdp, JoinReplyView::Admitted(b)),
    ensures
        a.0 < b.0,
        b.0 == states.last().next_peer,
        after.next_peer == b.0 + 1,
{
    a_join_takes_the_next_id(
        before,
        states.first(),
        earlier,
        earlier_sdp,
        JoinReplyView::Admitted(a),
    );
    ids_only_grow(states);
    a_join_takes_the_next_id(
        states.last(),
        after,
        later,
        later_sdp,
        JoinReplyView::Admitted(b),
    );
}

} // verus!
