//! What is promised of the turns that peers take, and of what comes of them.
use std::time::Instant;

use str0m::net::Transmit;
use vstd::prelude::*;

use crate::net::Endpoint;
use crate::report::Report;
use crate::sfu::command::Applied;
use crate::sfu::dispatch::applies;
use crate::sfu::engine::{EngineView, NamedRoom};
use crate::sfu::engine_io::{
    connections_reported, deadline_of_visits, is_visited, polls, posts_of_visits, reads,
    speaking_ticked, ticks, transmits_of_visits, Visit,
};
use crate::sfu::join::{all_dropped, dead_in, reaped};
use crate::sfu::media_loop::{resumes, sees_to_rooms, takes, takes_packet, ControlFlow, Received};
use crate::sfu::offer_laws::{
    a_negotiation_does_what_is_called_for, is_called_for, is_moved_on, is_owed, is_owed_a_line,
    is_to_be_stopped, owed_lines,
};
use crate::sfu::outbox::Post;
use crate::sfu::peer::{handles, negotiates, reacts, takes_turn, was_polled, PeerView};
use crate::sfu::poll::{
    deadline_after_all, events_of, events_of_all, is_polled, leads, posts_from, posts_from_all,
    takes_in, transmits_from, transmits_from_all, Turn,
};
use crate::sfu::room::{ids_of, propagates, RoomView};
use crate::sfu::round_laws::{
    all_coming_in, arrivals_are_reported_to_their_rooms, is_beyond_help, is_in,
    the_dead_are_swept_out,
};
use crate::sfu::soundness::{is_sound, reporting_keeps_sound};
use crate::sfu::tracks::{PeerId, PropagatedView, TrackOutView};
use crate::sfu::transport::Asked;
use crate::sfu::webrtc::{happening_of, Polled};

verus! {

/// What a peer makes of what its session handed out: a datagram is sent, a wake-up time
/// is kept, something that happened is dealt with, and a session that failed is closed.
pub proof fn what_is_handed_out_is_dealt_with(
    before: PeerView,
    output: Option<Polled>,
    after: PeerView,
    present: Seq<PeerId>,
    now: u64,
    result: PropagatedView,
    transmitted: Seq<Transmit>,
)
    requires
        reacts(before, output, after, present, now, result, transmitted),
    ensures
        match output {
            Some(Polled::Transmit(transmit)) => {
                &&& transmitted.len() == 1 && transmitted[0] == transmit
                &&& after == before
                &&& result is Noop
            },
            Some(Polled::Timeout { ahead, behind }) => {
                &&& transmitted.len() == 0
                &&& after == before
                &&& result matches PropagatedView::Timeout(at)
                &&& 0 <= now + ahead - behind <= u64::MAX ==> at == now + ahead - behind
                &&& now + ahead - behind < 0 ==> at == 0
                &&& now + ahead - behind > u64::MAX ==> at == u64::MAX
            },
            Some(Polled::Event(event)) => {
                &&& transmitted.len() == 0
                &&& handles(before, happening_of(event), after, present, now, result)
            },
            None => {
                &&& transmitted.len() == 0
                &&& result is Noop
                &&& after == PeerView { link: after.link, ..before }
                &&& !after.link.alive()
                &&& after.link.asked() == before.link.asked().push(Asked::Disconnect)
            },
        },
{
}

/// What a session hands out when it is polled is something it has to hand out, and being
/// polled asks nothing of it. Of the peer nothing else changes.
pub proof fn what_is_polled_comes_from_the_session(
    before: PeerView,
    after: PeerView,
    output: Option<Polled>,
)
    requires
        was_polled(before, after, output),
    ensures
        after == (PeerView { link: after.link, ..before }),
        after.link.asked() == before.link.asked(),
        exists|now: Instant| #[trigger] before.link.hands_out(now, output),
        !before.link.alive() ==> !after.link.alive() && output matches Some(Polled::Timeout { .. }),
        !after.link.alive() ==> !(output matches Some(Polled::Transmit(_))) && !(
        output matches Some(Polled::Event(_))),
{
}

/// A peer negotiates before anything else in its turn: if an m-line is owed to it and
/// no offer is out, the turn is spent on the offer. While one is out, and where there is
/// nothing to negotiate, it is spent on what its session hands out.
pub proof fn a_turn_begins_with_negotiating(
    before: PeerView,
    after: PeerView,
    present: Seq<PeerId>,
    now: u64,
    result: PropagatedView,
    sent: Seq<Post>,
    transmitted: Seq<Transmit>,
)
    requires
        takes_turn(before, after, present, now, result, sent, transmitted),
        before.link.alive(),
    ensures
        before.pending is None && owed_lines(before.tracks_out, present) > 0 ==> {
            &&& negotiates(before, after, present, true, sent)
            &&& result is Noop
            &&& transmitted.len() == 0
        },
        before.pending is Some ==> {
            &&& sent.len() == 0
            &&& exists|polled: PeerView, output: Option<Polled>|
                #[trigger] was_polled(before, polled, output) && reacts(
                    polled,
                    output,
                    after,
                    present,
                    now,
                    result,
                    transmitted,
                )
        },
        before.pending is None && owed_lines(before.tracks_out, present) == 0 && (forall|
            i: int,
            line: Seq<char>,
        |
            0 <= i < before.tracks_out.len() ==> !#[trigger] is_to_be_stopped(
                before.tracks_out[i],
                present,
                line,
            )) ==> {
            &&& sent.len() == 0
            &&& exists|settled: PeerView, polled: PeerView, output: Option<Polled>|
                {
                    &&& settled == PeerView { link: settled.link, ..before }
                    &&& settled.link.asked() == before.link.asked()
                    &&& #[trigger] was_polled(settled, polled, output)
                    &&& #[trigger] reacts(polled, output, after, present, now, result, transmitted)
                }
        },
{
    if before.pending is None && owed_lines(before.tracks_out, present) == 0 && (forall|
        i: int,
        line: Seq<char>,
    |
        0 <= i < before.tracks_out.len() ==> !#[trigger] is_to_be_stopped(
            before.tracks_out[i],
            present,
            line,
        )) {
        nothing_to_negotiate_makes_no_offer(before, after, present, sent);
        let (settled, polled, output) = choose|
            settled: PeerView,
            polled: PeerView,
            output: Option<Polled>,
        |
            {
                &&& #[trigger] negotiates(before, settled, present, false, sent)
                &&& #[trigger] was_polled(settled, polled, output)
                &&& #[trigger] reacts(polled, output, after, present, now, result, transmitted)
            };
        a_negotiation_does_what_is_called_for(before, settled, present, false, sent);
        no_line_is_owed(before.tracks_out, present);
        assert(settled.tracks_out =~= before.tracks_out) by {
            assert forall|i: int| 0 <= i < before.tracks_out.len() implies settled.tracks_out[i]
                == #[trigger] before.tracks_out[i] by {
                assert(is_moved_on(
                    before.tracks_out[i],
                    settled.tracks_out[i],
                    present,
                    Seq::empty(),
                ));
                assert forall|line: Seq<char>| !is_to_be_stopped(
                    before.tracks_out[i],
                    present,
                    line,
                ) by {}
            }
        }
        assert(settled == PeerView { link: settled.link, ..before });
        assert(was_polled(settled, polled, output));
    }
    if !(negotiates(before, after, present, true, sent) && result == PropagatedView::Noop
        && transmitted == Seq::<Transmit>::empty()) {
        let (settled, polled, output) = choose|
            settled: PeerView,
            polled: PeerView,
            output: Option<Polled>,
        |
            {
                &&& #[trigger] negotiates(before, settled, present, false, sent)
                &&& #[trigger] was_polled(settled, polled, output)
                &&& #[trigger] reacts(polled, output, after, present, now, result, transmitted)
            };
        a_negotiation_does_what_is_called_for(
            before,
            settled,
            present,
            false,
            sent,
        );
    }
}

proof fn no_line_is_owed(tracks: Seq<TrackOutView>, present: Seq<PeerId>)
    requires
        owed_lines(tracks, present) == 0,
    ensures
        forall|i: int| 0 <= i < tracks.len() ==> !is_owed_a_line(#[trigger] tracks[i], present),
{
    let owed = |t: TrackOutView| is_owed_a_line(t, present);
    assert forall|i: int| 0 <= i < tracks.len() implies !is_owed_a_line(
        #[trigger] tracks[i],
        present,
    ) by {
        if owed(tracks[i]) {
            tracks.lemma_filter_contains(owed, i);
        }
    }
}

proof fn nothing_to_negotiate_makes_no_offer(
    before: PeerView,
    after: PeerView,
    present: Seq<PeerId>,
    sent: Seq<Post>,
)
    requires
        before.pending is None,
        before.link.alive(),
        owed_lines(before.tracks_out, present) == 0,
        forall|i: int, line: Seq<char>|
            0 <= i < before.tracks_out.len() ==> !#[trigger] is_to_be_stopped(
                before.tracks_out[i],
                present,
                line,
            ),
    ensures
        !negotiates(before, after, present, true, sent),
{
    if negotiates(before, after, present, true, sent) {
        a_negotiation_does_what_is_called_for(before, after, present, true, sent);
        no_line_is_owed(before.tracks_out, present);
        let steps = after.link.asked().last()->Offer_steps;
        assert(is_owed(steps[0], before.tracks_out, after.tracks_out, present));
        let i = choose|i: int|
            0 <= i < before.tracks_out.len() && is_called_for(
                steps[0],
                #[trigger] before.tracks_out[i],
                after.tracks_out[i],
                present,
            );
        assert(!is_owed_a_line(before.tracks_out[i], present));
    }
}

/// What some turns of a peer gave the room to take in.
pub open spec fn produced(turns: Seq<Turn>) -> Seq<PropagatedView> {
    turns.filter(|t: Turn| !(t.result is Timeout)).map_values(|t: Turn| t.result)
}

/// What the turns of all peers of a room gave it to take in, peer by peer.
pub open spec fn produced_by_all(runs: Seq<Seq<Turn>>) -> Seq<PropagatedView> {
    runs.map_values(|turns: Seq<Turn>| produced(turns)).flatten()
}

proof fn events_are_produced(turns: Seq<Turn>)
    ensures
        events_of(turns) == produced(turns),
    decreases turns.len(),
{
    reveal(Seq::filter);
    if turns.len() > 0 {
        events_are_produced(turns.drop_last());
    }
    assert(events_of(turns) =~= produced(turns));
}

proof fn all_events_are_produced(runs: Seq<Seq<Turn>>)
    ensures
        events_of_all(runs) == produced_by_all(runs),
    decreases runs.len(),
{
    let one = |turns: Seq<Turn>| produced(turns);
    if runs.len() > 0 {
        let front = runs.drop_last();
        all_events_are_produced(front);
        events_are_produced(runs.last());
        assert(runs.map_values(one) =~= front.map_values(one).push(one(runs.last())));
        front.map_values(one).lemma_flatten_push(one(runs.last()));
        assert(produced_by_all(runs) == runs.map_values(one).flatten());
        assert(produced_by_all(front) == front.map_values(one).flatten());
    } else {
        assert(events_of_all(runs) =~= produced_by_all(runs));
    }
}

/// One turn of a peer of a room.
pub open spec fn is_a_turn(turn: Turn, present: Seq<PeerId>, now: u64) -> bool {
    &&& turn.before.link.alive()
    &&& takes_turn(
        turn.before,
        turn.after,
        present,
        now,
        turn.result,
        turn.sent,
        turn.transmitted,
    )
}

/// Turns follow each other from one state of a peer to another, and only the last can
/// ask for rest.
pub open spec fn is_chain(
    start: PeerView,
    turns: Seq<Turn>,
    end: PeerView,
    present: Seq<PeerId>,
    now: u64,
) -> bool {
    &&& turns.len() == 0 ==> end == start
    &&& turns.len() > 0 ==> turns[0].before == start && turns[turns.len() - 1].after == end
    &&& forall|t: int| 0 <= t < turns.len() ==> is_a_turn(#[trigger] turns[t], present, now)
    &&& forall|t: int, u: int|
        0 <= t && u == t + 1 && u < turns.len() ==> (#[trigger] turns[t]).after == (
        #[trigger] turns[u]).before && !(turns[t].result is Timeout)
}

proof fn turns_make_a_chain(
    start: PeerView,
    turns: Seq<Turn>,
    end: PeerView,
    present: Seq<PeerId>,
    now: u64,
)
    requires
        leads(start, turns, end, present, now),
    ensures
        is_chain(start, turns, end, present, now),
    decreases turns.len(),
{
    if turns.len() > 0 {
        let front = turns.drop_last();
        let last = turns.len() - 1;
        turns_make_a_chain(start, front, turns.last().before, present, now);
        assert forall|t: int| 0 <= t < turns.len() implies is_a_turn(
            #[trigger] turns[t],
            present,
            now,
        ) by {
            if t < last {
                assert(front[t] == turns[t]);
            }
        }
        assert forall|t: int, u: int| 0 <= t && u == t + 1 && u < turns.len() implies (
        #[trigger] turns[t]).after == (#[trigger] turns[u]).before && !(turns[t].result is Timeout) by {
            assert(front[t] == turns[t]);
            if u < last {
                assert(front[u] == turns[u]);
            } else {
                assert(front[front.len() - 1] == turns[t]);
                assert(front.last() == turns[t]);
            }
        }
        if front.len() > 0 {
            assert(front[0] == turns[0]);
        }
    }
}

proof fn taking_in_is_one_by_one(states: Seq<RoomView>, events: Seq<PropagatedView>, k: int)
    requires
        takes_in(states, events),
        0 <= k < events.len(),
    ensures
        states.len() == events.len() + 1,
        propagates(states[k], states[k + 1], events[k]),
    decreases events.len(),
{
    if k < events.len() - 1 {
        taking_in_is_one_by_one(states.drop_last(), events.drop_last(), k);
    }
}

/// What polling a room does. Every peer takes turns, one after the other, until it asks
/// for rest or its session has ended, with those who are there as those to be heard.
/// Then everything that any peer produced is handed to the room, in order, and nothing
/// else happens.
pub proof fn what_peers_produce_reaches_the_room(
    before: RoomView,
    after: RoomView,
    runs: Seq<Seq<Turn>>,
    states: Seq<RoomView>,
    now: u64,
)
    requires
        is_polled(before, after, runs, states, now),
    ensures
        states.len() == produced_by_all(runs).len() + 1,
        states[states.len() - 1] == after,
        forall|k: int|
            0 <= k < produced_by_all(runs).len() ==> propagates(
                states[k],
                states[k + 1],
                #[trigger] produced_by_all(runs)[k],
            ),
        states[0] == (RoomView { peers: states[0].peers, ..before }),
        states[0].peers.len() == before.peers.len(),
        runs.len() == before.peers.len(),
        forall|i: int|
            0 <= i < runs.len() ==> is_chain(
                before.peers[i],
                #[trigger] runs[i],
                states[0].peers[i],
                Seq::new(before.peers.len(), |p: int| before.peers[p].id),
                now,
            ),
        produced_by_all(runs).len() < usize::MAX ==> forall|i: int|
            0 <= i < runs.len() ==> {
                ||| !states[0].peers[i].link.alive()
                ||| (#[trigger] runs[i]).len() > 0 && runs[i][runs[i].len() - 1].result is Timeout
            },
{
    let events = events_of_all(runs);
    all_events_are_produced(runs);
    assert(ids_of(before.peers) =~= Seq::new(before.peers.len(), |p: int| before.peers[p].id));
    assert forall|k: int| 0 <= k < events.len() implies propagates(
        states[k],
        states[k + 1],
        #[trigger] events[k],
    ) by {
        taking_in_is_one_by_one(states, events, k);
    }
    assert forall|i: int| 0 <= i < runs.len() implies is_chain(
        before.peers[i],
        #[trigger] runs[i],
        states[0].peers[i],
        Seq::new(before.peers.len(), |p: int| before.peers[p].id),
        now,
    ) by {
        turns_make_a_chain(
            before.peers[i],
            runs[i],
            states.first().peers[i],
            ids_of(before.peers),
            now,
        );
    }
}

/// What some turns sent.
pub open spec fn sent_in(turns: Seq<Turn>) -> Seq<Post> {
    turns.map_values(|t: Turn| t.sent).flatten()
}

pub open spec fn sent_in_runs(runs: Seq<Seq<Turn>>) -> Seq<Post> {
    runs.map_values(|turns: Seq<Turn>| sent_in(turns)).flatten()
}

/// What was sent in all the turns of some visits.
pub open spec fn sent_in_visits(visits: Seq<Visit>) -> Seq<Post> {
    visits.map_values(|v: Visit| sent_in_runs(v.runs)).flatten()
}

/// The datagrams of some turns.
pub open spec fn datagrams_in(turns: Seq<Turn>) -> Seq<Transmit> {
    turns.map_values(|t: Turn| t.transmitted).flatten()
}

pub open spec fn datagrams_in_runs(runs: Seq<Seq<Turn>>) -> Seq<Transmit> {
    runs.map_values(|turns: Seq<Turn>| datagrams_in(turns)).flatten()
}

/// The datagrams of all the turns of some visits.
pub open spec fn datagrams_in_visits(visits: Seq<Visit>) -> Seq<Transmit> {
    visits.map_values(|v: Visit| datagrams_in_runs(v.runs)).flatten()
}

proof fn posts_are_sent(turns: Seq<Turn>)
    ensures
        posts_from(turns) == sent_in(turns),
        transmits_from(turns) == datagrams_in(turns),
    decreases turns.len(),
{
    let one = |t: Turn| t.sent;
    let two = |t: Turn| t.transmitted;
    if turns.len() > 0 {
        let front = turns.drop_last();
        posts_are_sent(front);
        assert(turns.map_values(one) =~= front.map_values(one).push(one(turns.last())));
        assert(turns.map_values(two) =~= front.map_values(two).push(two(turns.last())));
        front.map_values(one).lemma_flatten_push(one(turns.last()));
        front.map_values(two).lemma_flatten_push(two(turns.last()));
        assert(sent_in(turns) == turns.map_values(one).flatten());
        assert(sent_in(front) == front.map_values(one).flatten());
        assert(datagrams_in(turns) == turns.map_values(two).flatten());
        assert(datagrams_in(front) == front.map_values(two).flatten());
    } else {
        assert(posts_from(turns) =~= sent_in(turns));
        assert(transmits_from(turns) =~= datagrams_in(turns));
    }
}

proof fn posts_of_runs_are_sent(runs: Seq<Seq<Turn>>)
    ensures
        posts_from_all(runs) == sent_in_runs(runs),
        transmits_from_all(runs) == datagrams_in_runs(runs),
    decreases runs.len(),
{
    let one = |turns: Seq<Turn>| sent_in(turns);
    let two = |turns: Seq<Turn>| datagrams_in(turns);
    if runs.len() > 0 {
        let front = runs.drop_last();
        posts_of_runs_are_sent(front);
        posts_are_sent(runs.last());
        assert(runs.map_values(one) =~= front.map_values(one).push(one(runs.last())));
        assert(runs.map_values(two) =~= front.map_values(two).push(two(runs.last())));
        front.map_values(one).lemma_flatten_push(one(runs.last()));
        front.map_values(two).lemma_flatten_push(two(runs.last()));
        assert(sent_in_runs(runs) == runs.map_values(one).flatten());
        assert(sent_in_runs(front) == front.map_values(one).flatten());
        assert(datagrams_in_runs(runs) == runs.map_values(two).flatten());
        assert(datagrams_in_runs(front) == front.map_values(two).flatten());
    } else {
        assert(posts_from_all(runs) =~= sent_in_runs(runs));
        assert(transmits_from_all(runs) =~= datagrams_in_runs(runs));
    }
}

proof fn posts_of_visits_are_sent(visits: Seq<Visit>)
    ensures
        posts_of_visits(visits) == sent_in_visits(visits),
        transmits_of_visits(visits) == datagrams_in_visits(visits),
    decreases visits.len(),
{
    let one = |v: Visit| sent_in_runs(v.runs);
    let two = |v: Visit| datagrams_in_runs(v.runs);
    if visits.len() > 0 {
        let front = visits.drop_last();
        posts_of_visits_are_sent(front);
        posts_of_runs_are_sent(visits.last().runs);
        assert(visits.map_values(one) =~= front.map_values(one).push(one(visits.last())));
        assert(visits.map_values(two) =~= front.map_values(two).push(two(visits.last())));
        front.map_values(one).lemma_flatten_push(one(visits.last()));
        front.map_values(two).lemma_flatten_push(two(visits.last()));
        assert(sent_in_visits(visits) == visits.map_values(one).flatten());
        assert(sent_in_visits(front) == front.map_values(one).flatten());
        assert(datagrams_in_visits(visits) == visits.map_values(two).flatten());
        assert(datagrams_in_visits(front) == front.map_values(two).flatten());
    } else {
        assert(posts_of_visits(visits) =~= sent_in_visits(visits));
        assert(transmits_of_visits(visits) =~= datagrams_in_visits(visits));
    }
}

/// The wake-up time that a peer's turns ended with, in some visit.
pub open spec fn is_asked_for(at: u64, visits: Seq<Visit>) -> bool {
    exists|v: int, i: int|
        0 <= v < visits.len() && 0 <= i < visits[v].runs.len() && #[trigger] ends_with(
            visits[v].runs[i],
            at,
        )
}

/// Turns ended with a wake-up time.
pub open spec fn ends_with(turns: Seq<Turn>, at: u64) -> bool {
    turns.len() > 0 && turns[turns.len() - 1].result == PropagatedView::Timeout(at)
}

proof fn the_earliest_run_counts(deadline: u64, runs: Seq<Seq<Turn>>)
    ensures
        deadline_after_all(deadline, runs) <= deadline,
        forall|i: int, at: u64|
            0 <= i < runs.len() && #[trigger] ends_with(runs[i], at) ==> deadline_after_all(
                deadline,
                runs,
            ) <= at,
        deadline_after_all(deadline, runs) == deadline || exists|i: int|
            0 <= i < runs.len() && #[trigger] ends_with(
                runs[i],
                deadline_after_all(deadline, runs),
            ),
    decreases runs.len(),
{
    if runs.len() > 0 {
        let front = runs.drop_last();
        let last = runs.len() - 1;
        let sooner = deadline_after_all(deadline, front);
        let when = deadline_after_all(deadline, runs);
        the_earliest_run_counts(deadline, front);
        assert forall|i: int, at: u64|
            0 <= i < runs.len() && #[trigger] ends_with(runs[i], at) implies when <= at by {
            if i < last {
                assert(ends_with(front[i], at));
            }
        }
        if when != sooner {
            assert(ends_with(runs[last], when));
        } else if sooner != deadline {
            let i = choose|i: int| 0 <= i < front.len() && #[trigger] ends_with(front[i], sooner);
            assert(ends_with(runs[i], when));
        }
    }
}

proof fn the_earliest_visit_counts(deadline: u64, visits: Seq<Visit>)
    ensures
        deadline_of_visits(deadline, visits) <= deadline,
        forall|v: int, i: int, at: u64|
            0 <= v < visits.len() && 0 <= i < visits[v].runs.len() && #[trigger] ends_with(
                visits[v].runs[i],
                at,
            ) ==> deadline_of_visits(deadline, visits) <= at,
        deadline_of_visits(deadline, visits) == deadline || is_asked_for(
            deadline_of_visits(deadline, visits),
            visits,
        ),
    decreases visits.len(),
{
    if visits.len() > 0 {
        let front = visits.drop_last();
        let last = visits.len() - 1;
        let sooner = deadline_of_visits(deadline, front);
        let when = deadline_of_visits(deadline, visits);
        the_earliest_visit_counts(deadline, front);
        the_earliest_run_counts(sooner, visits.last().runs);
        assert forall|v: int, i: int, at: u64|
            0 <= v < visits.len() && 0 <= i < visits[v].runs.len() && #[trigger] ends_with(
                visits[v].runs[i],
                at,
            ) implies when <= at by {
            if v < last {
                assert(ends_with(front[v].runs[i], at));
            } else {
                assert(ends_with(visits.last().runs[i], at));
            }
        }
        if when != sooner {
            let runs = visits.last().runs;
            let i = choose|i: int| 0 <= i < runs.len() && #[trigger] ends_with(runs[i], when);
            assert(ends_with(visits[last].runs[i], when));
        } else if sooner != deadline {
            let (v, i) = choose|v: int, i: int|
                0 <= v < front.len() && 0 <= i < front[v].runs.len() && #[trigger] ends_with(
                    front[v].runs[i],
                    sooner,
                );
            assert(ends_with(visits[v].runs[i], when));
        }
    }
}

/// A room was polled and goes by the same name.
pub open spec fn is_polled_in_place(
    before: NamedRoom,
    after: NamedRoom,
    visit: Visit,
    now: u64,
) -> bool {
    &&& after.name == before.name
    &&& is_polled(before.room, after.room, visit.runs, visit.states, now)
}

/// What polling does: every room is polled and keeps its name, all that the turns sent
/// and transmitted is queued, in order, and the next wake-up is the earliest that any
/// peer asked for, but not later than a tenth of a second from now. Nothing else
/// changes.
pub proof fn polling_queues_all_there_is(
    before: EngineView,
    after: EngineView,
    visits: Seq<Visit>,
    now: u64,
    wake: u64,
)
    requires
        polls(before, after, visits, now, wake),
        now + 100_000_000 <= u64::MAX,
    ensures
        after.rooms.len() == before.rooms.len(),
        visits.len() == before.rooms.len(),
        forall|r: int|
            0 <= r < visits.len() ==> is_polled_in_place(
                before.rooms[r],
                after.rooms[r],
                #[trigger] visits[r],
                now,
            ),
        after == (EngineView {
            rooms: after.rooms,
            outbox: before.outbox + sent_in_visits(visits),
            transmits: before.transmits + datagrams_in_visits(visits),
            ..before
        }),
        wake <= now + 100_000_000,
        forall|v: int, i: int, at: u64|
            0 <= v < visits.len() && 0 <= i < visits[v].runs.len() && #[trigger] ends_with(
                visits[v].runs[i],
                at,
            ) ==> wake <= at,
        wake == now + 100_000_000 || is_asked_for(wake, visits),
{
    posts_of_visits_are_sent(visits);
    the_earliest_visit_counts((now + 100_000_000) as u64, visits);
    assert forall|r: int| 0 <= r < visits.len() implies is_polled_in_place(
        before.rooms[r],
        after.rooms[r],
        #[trigger] visits[r],
        now,
    ) by {
        assert(is_visited(before.rooms[r], after.rooms[r], visits[r], now));
    }
}

/// A round of seeing to the rooms: all are polled; then those who have come up are
/// reported; then nobody is left who is beyond help, and whoever is not stays; and last
/// the speakers are looked at.
pub proof fn a_round_sees_to_everything(
    before: EngineView,
    after: EngineView,
    polled: EngineView,
    visits: Seq<Visit>,
    now: u64,
    wake: u64,
    name: Seq<char>,
    peer: PeerView,
)
    requires
        sees_to_rooms(before, after, polled, visits, now, wake),
        is_sound(polled),
    ensures
        polls(before, polled, visits, now, wake),
        (polled.reports + all_coming_in(polled.rooms)).is_prefix_of(after.reports),
        is_in(after, name, peer) ==> !is_beyond_help(peer, now),
        is_in(polled, name, peer) && !is_beyond_help(peer, now) ==> is_in(
            after,
            name,
            PeerView { reported: peer.reported || peer.connected, ..peer },
        ),
        is_in(polled, name, peer) && is_beyond_help(peer, now) && (peer.reported || peer.connected)
            ==> after.reports.contains(
            Report {
                event: "participant_left"@,
                room: name,
                identity: Some(peer.user_id),
                source: None,
            },
        ),
        now - polled.last_speaking >= 200_000_000 ==> after.last_speaking == now,
{
    let reported = connections_reported(polled);
    let swept = reaped(reported, now);
    reporting_keeps_sound(polled);
    arrivals_are_reported_to_their_rooms(polled);
    let known = PeerView { reported: peer.reported || peer.connected, ..peer };
    the_dead_are_swept_out(reported, now, name, peer);
    the_dead_are_swept_out(reported, now, name, known);
    looking_at_speakers_keeps_everyone(swept, now, name, peer);
    looking_at_speakers_keeps_everyone(swept, now, name, known);
    if is_in(polled, name, peer) {
        let (r, p) = choose|r: int, p: int|
            0 <= r < polled.rooms.len() && 0 <= p < polled.rooms[r].room.peers.len()
                && polled.rooms[r].name == name && #[trigger] polled.rooms[r].room.peers[p] == peer;
        assert(reported.rooms[r].room.peers[p] == known);
        assert(reported.rooms[r].name == name);
        assert(is_in(reported, name, known));
    }
    leaving_gives_back_no_time(reported, dead_in(reported.rooms, now));
}

proof fn leaving_gives_back_no_time(engine: EngineView, ids: Seq<PeerId>)
    ensures
        all_dropped(engine, ids).last_speaking == engine.last_speaking,
    decreases ids.len(),
{
    if ids.len() > 0 {
        leaving_gives_back_no_time(engine, ids.drop_last());
    }
}

proof fn looking_at_speakers_keeps_everyone(
    engine: EngineView,
    now: u64,
    name: Seq<char>,
    peer: PeerView,
)
    ensures
        is_in(speaking_ticked(engine, now), name, peer) <==> is_in(engine, name, peer),
        speaking_ticked(engine, now).reports == engine.reports,
{
    let after = speaking_ticked(engine, now);
    if is_in(engine, name, peer) {
        let (r, p) = choose|r: int, p: int|
            0 <= r < engine.rooms.len() && 0 <= p < engine.rooms[r].room.peers.len()
                && engine.rooms[r].name == name && #[trigger] engine.rooms[r].room.peers[p] == peer;
        assert(after.rooms[r].room.peers[p] == peer);
        assert(after.rooms[r].name == name);
    }
    if is_in(after, name, peer) {
        let (r, p) = choose|r: int, p: int|
            0 <= r < after.rooms.len() && 0 <= p < after.rooms[r].room.peers.len()
                && after.rooms[r].name == name && #[trigger] after.rooms[r].room.peers[p] == peer;
        assert(engine.rooms[r].room.peers[p] == peer);
        assert(engine.rooms[r].name == name);
    }
}

/// After a wait, the packet it brought is taken in, if it brought one, and then every
/// peer learns that time has passed.
pub proof fn a_wait_ends_with_a_tick(
    before: EngineView,
    after: EngineView,
    packet: Option<(Endpoint, Vec<u8>)>,
) -> (fed: EngineView)
    requires
        resumes(before, after, packet),
    ensures
        ticks(fed, after),
        match packet {
            Some((source, bytes)) => reads(before, fed, source, bytes@),
            None => fed == before,
        },
{
    choose|fed: EngineView| #[trigger] takes_packet(before, fed, packet) && ticks(fed, after)
}

/// What taking from the queue of commands comes to: a command is carried out and the
/// loop goes on to the next, with a reply to whoever asked to join; an empty queue lets
/// it go on to the rooms; and it stops when it is told to or nobody is left to tell it
/// anything.
pub proof fn the_loop_goes_on_as_told(
    before: EngineView,
    after: EngineView,
    received: Received,
    flow: ControlFlow,
)
    requires
        takes(before, after, received, flow),
    ensures
        received is Empty ==> flow is Continue && after == before,
        received is Disconnected ==> flow is Stop && after == before,
        received matches Received::Command(command) ==> {
            &&& command is Shutdown <==> flow is Stop
            &&& command is Join <==> flow is Reply
            &&& !(flow is Continue)
            &&& flow matches ControlFlow::Reply(reply) ==> applies(
                before,
                after,
                command,
                Applied::Joined(reply),
            )
            &&& flow is Again ==> applies(before, after, command, Applied::Done)
        },
{
}

} // verus!
