//! Letting the peers of a room take their turns.
use str0m::net::Transmit;
use vstd::prelude::*;

use crate::sfu::outbox::{posts_of, Envelope, Post};
use crate::sfu::peer::{has_room_ahead, takes_turn, Peer, PeerView};
use crate::sfu::room::{ids_of, propagates, Room, RoomView};
use crate::sfu::tracks::{propagated_of, PeerId, Propagated, PropagatedView};
use crate::sfu::webrtc::Now;

verus! {

/// One turn of a peer, with all that came of it.
pub struct Turn {
    pub before: PeerView,
    pub after: PeerView,
    pub result: PropagatedView,
    pub sent: Seq<Post>,
    pub transmitted: Seq<Transmit>,
}

/// A peer that was alive took this turn.
pub open spec fn is_turn(turn: Turn, present: Seq<PeerId>, now: u64) -> bool {
    &&& turn.before.link.alive()
    &&& takes_turn(
        turn.before,
        turn.after,
        present,
        now,
        turn.result,
        turn.sent,
        turn.transmitted,
    )
}

/// These turns, one after the other, led from one state of a peer to another.
/// The peer only went on as long as it did not ask to be left alone.
pub open spec fn leads(
    start: PeerView,
    turns: Seq<Turn>,
    end: PeerView,
    present: Seq<PeerId>,
    now: u64,
) -> bool
    decreases turns.len(),
{
    if turns.len() == 0 {
        end == start
    } else {
        let last = turns.last();
        let earlier = turns.drop_last();
        &&& leads(start, earlier, last.before, present, now)
        &&& !asks_for_rest(earlier)
        &&& is_turn(last, present, now)
        &&& end == last.after
    }
}

/// The last turn ended with a wake-up time.
pub open spec fn asks_for_rest(turns: Seq<Turn>) -> bool {
    turns.len() > 0 && turns.last().result is Timeout
}

/// What turns gave the rest of the room to take in.
pub open spec fn events_of(turns: Seq<Turn>) -> Seq<PropagatedView>
    decreases turns.len(),
{
    if turns.len() == 0 {
        Seq::empty()
    } else {
        let earlier = events_of(turns.drop_last());
        if turns.last().result is Timeout {
            earlier
        } else {
            earlier.push(turns.last().result)
        }
    }
}

pub open spec fn posts_from(turns: Seq<Turn>) -> Seq<Post>
    decreases turns.len(),
{
    if turns.len() == 0 {
        Seq::empty()
    } else {
        posts_from(turns.drop_last()) + turns.last().sent
    }
}

pub open spec fn transmits_from(turns: Seq<Turn>) -> Seq<Transmit>
    decreases turns.len(),
{
    if turns.len() == 0 {
        Seq::empty()
    } else {
        transmits_from(turns.drop_last()) + turns.last().transmitted
    }
}

/// The earlier of a deadline and the wake-up time that turns ended with.
pub open spec fn deadline_after(deadline: u64, turns: Seq<Turn>) -> u64 {
    if turns.len() == 0 {
        deadline
    } else {
        match turns.last().result {
            PropagatedView::Timeout(at) => if at < deadline {
                at
            } else {
                deadline
            },
            _ => deadline,
        }
    }
}

/// What the peers of a room did in their turns, peer by peer.
pub open spec fn events_of_all(runs: Seq<Seq<Turn>>) -> Seq<PropagatedView>
    decreases runs.len(),
{
    if runs.len() == 0 {
        Seq::empty()
    } else {
        events_of_all(runs.drop_last()) + events_of(runs.last())
    }
}

pub open spec fn posts_from_all(runs: Seq<Seq<Turn>>) -> Seq<Post>
    decreases runs.len(),
{
    if runs.len() == 0 {
        Seq::empty()
    } else {
        posts_from_all(runs.drop_last()) + posts_from(runs.last())
    }
}

pub open spec fn transmits_from_all(runs: Seq<Seq<Turn>>) -> Seq<Transmit>
    decreases runs.len(),
{
    if runs.len() == 0 {
        Seq::empty()
    } else {
        transmits_from_all(runs.drop_last()) + transmits_from(runs.last())
    }
}

pub open spec fn deadline_after_all(deadline: u64, runs: Seq<Seq<Turn>>) -> u64
    decreases runs.len(),
{
    if runs.len() == 0 {
        deadline
    } else {
        deadline_after(deadline_after_all(deadline, runs.drop_last()), runs.last())
    }
}

/// A peer was left in a state in which it has nothing more to do: it asked for
/// rest, or its session has ended.
pub open spec fn is_exhausted(peer: PeerView, turns: Seq<Turn>) -> bool {
    asks_for_rest(turns) || !peer.link.alive()
}

/// Each peer of a room took its turns until it had nothing more to do, or until
/// what they gave the room to take in filled the address space.
pub open spec fn takes_turns(before: RoomView, after: RoomView, runs: Seq<Seq<Turn>>, now: u64) -> bool {
    &&& after == RoomView { peers: after.peers, ..before }
    &&& after.peers.len() == before.peers.len()
    &&& runs.len() == before.peers.len()
    &&& forall|i: int|
        0 <= i < runs.len() ==> leads(
            before.peers[i],
            #[trigger] runs[i],
            after.peers[i],
            ids_of(before.peers),
            now,
        )
    &&& (forall|i: int| 0 <= i < runs.len() ==> is_exhausted(after.peers[i], #[trigger] runs[i]))
        || events_of_all(runs).len() >= usize::MAX
}

/// A room took in events one after the other.
pub open spec fn takes_in(states: Seq<RoomView>, events: Seq<PropagatedView>) -> bool
    decreases events.len(),
{
    &&& states.len() == events.len() + 1
    &&& events.len() > 0 ==> {
        &&& takes_in(states.drop_last(), events.drop_last())
        &&& propagates(states[events.len() - 1], states.last(), events.last())
    }
}

/// What polling a room does: its peers take their turns, and then what each of
/// them produced is handed to the others.
pub open spec fn is_polled(
    before: RoomView,
    after: RoomView,
    runs: Seq<Seq<Turn>>,
    states: Seq<RoomView>,
    now: u64,
) -> bool {
    &&& takes_turns(before, states.first(), runs, now)
    &&& takes_in(states, events_of_all(runs))
    &&& after == states.last()
}

impl Peer {
    /// Lets the peer take turns until it has nothing more to do.
    fn take_turns(
        &mut self,
        present: &Vec<PeerId>,
        now: Now,
        deadline: u64,
        queue: &mut Vec<Propagated>,
        outbox: &mut Vec<Envelope>,
        transmits: &mut Vec<Transmit>,
    ) -> (result: (u64, Ghost<Seq<Turn>>))
        requires
            has_room_ahead(now),
        ensures
            leads(old(self)@, result.1@, final(self)@, present@, now.nanos),
            is_exhausted(final(self)@, result.1@) || final(queue).len() == usize::MAX,
            result.0 == deadline_after(deadline, result.1@),
            propagated_of(final(queue)@) == propagated_of(old(queue)@) + events_of(result.1@),
            posts_of(final(outbox)@) == posts_of(old(outbox)@) + posts_from(result.1@),
            final(transmits)@ == old(transmits)@ + transmits_from(result.1@),
    {
        let ghost start = self@;
        let ghost events = propagated_of(queue@);
        let ghost posted = posts_of(outbox@);
        let ghost sent = transmits@;
        let ghost mut turns: Seq<Turn> = Seq::empty();
        assert(events + events_of(turns) =~= events);
        assert(posted + posts_from(turns) =~= posted);
        assert(sent + transmits_from(turns) =~= sent);
        while queue.len() < usize::MAX && self.link.is_alive()
            invariant
                has_room_ahead(now),
                leads(start, turns, self@, present@, now.nanos),
                !asks_for_rest(turns),
                propagated_of(queue@) == events + events_of(turns),
                posts_of(outbox@) == posted + posts_from(turns),
                transmits@ == sent + transmits_from(turns),
                events == propagated_of(old(queue)@),
                posted == posts_of(old(outbox)@),
                sent == old(transmits)@,
                start == old(self)@,
            decreases usize::MAX - queue.len(),
        {
            let ghost before = self@;
            let ghost queued = propagated_of(queue@);
            let ghost posts = posts_of(outbox@);
            let ghost packets = transmits@;
            let ghost earlier = turns;
            let propagated = self.poll_output(present, now, outbox, transmits);
            proof {
                let turn = Turn {
                    before,
                    after: self@,
                    result: propagated@,
                    sent: posts_of(outbox@).skip(posts.len() as int),
                    transmitted: transmits@.skip(packets.len() as int),
                };
                turns = earlier.push(turn);
                assert(turns.drop_last() =~= earlier);
                assert(posts_of(outbox@) =~= posts + turn.sent);
                assert(posted + posts_from(turns) =~= posted + posts_from(earlier) + turn.sent);
                assert(transmits@ =~= packets + turn.transmitted);
                assert(sent + transmits_from(turns) =~= sent + transmits_from(earlier)
                    + turn.transmitted);
            }
            if let Propagated::Timeout(at) = propagated {
                let earliest: u64 = if at < deadline {
                    at
                } else {
                    deadline
                };
                return (earliest, Ghost(turns));
            }
            let ghost result = propagated@;
            queue.push(propagated);
            proof {
                assert(propagated_of(queue@) =~= queued.push(result));
                assert(events + events_of(turns) =~= queued.push(result));
            }
        }
        (deadline, Ghost(turns))
    }
}

impl Room {
    /// Lets every peer take its turns, and gathers what they produce.
    fn collect(
        &mut self,
        now: Now,
        deadline: u64,
        outbox: &mut Vec<Envelope>,
        transmits: &mut Vec<Transmit>,
    ) -> (result: (u64, Vec<Propagated>, Ghost<Seq<Seq<Turn>>>))
        requires
            has_room_ahead(now),
        ensures
            takes_turns(old(self)@, final(self)@, result.2@, now.nanos),
            result.0 == deadline_after_all(deadline, result.2@),
            propagated_of(result.1@) == events_of_all(result.2@),
            posts_of(final(outbox)@) == posts_of(old(outbox)@) + posts_from_all(result.2@),
            final(transmits)@ == old(transmits)@ + transmits_from_all(result.2@),
    {
        let ghost before = self@;
        let ghost posted = posts_of(outbox@);
        let ghost sent = transmits@;
        let present = self.ids();
        let mut queue: Vec<Propagated> = Vec::new();
        let mut earliest: u64 = deadline;
        let ghost mut runs: Seq<Seq<Turn>> = Seq::empty();
        let mut i: usize = 0;
        assert(propagated_of(queue@) =~= events_of_all(runs));
        assert(posted + posts_from_all(runs) =~= posted);
        assert(sent + transmits_from_all(runs) =~= sent);
        while i < self.peers.len()
            invariant
                has_room_ahead(now),
                i <= self.peers.len(),
                self.peers.len() == before.peers.len(),
                runs.len() == i,
                before == old(self)@,
                posted == posts_of(old(outbox)@),
                sent == old(transmits)@,
                present@ == ids_of(before.peers),
                self@ == (RoomView { peers: self@.peers, ..before }),
                forall|j: int|
                    0 <= j < i ==> leads(
                        before.peers[j],
                        #[trigger] runs[j],
                        self@.peers[j],
                        present@,
                        now.nanos,
                    ),
                (forall|j: int|
                    0 <= j < i ==> is_exhausted(self@.peers[j], #[trigger] runs[j]))
                    || queue.len() == usize::MAX,
                forall|j: int|
                    i <= j < self.peers.len() ==> #[trigger] self@.peers[j] == before.peers[j],
                earliest == deadline_after_all(deadline, runs),
                propagated_of(queue@) == events_of_all(runs),
                posts_of(outbox@) == posted + posts_from_all(runs),
                transmits@ == sent + transmits_from_all(runs),
            decreases self.peers.len() - i,
        {
            let ghost held = self@.peers;
            let ghost earlier = runs;
            let ghost queued = propagated_of(queue@);
            assert(held[i as int] == before.peers[i as int]);
            let (next, turns) = self.peers[i].take_turns(
                &present,
                now,
                earliest,
                &mut queue,
                outbox,
                transmits,
            );
            earliest = next;
            proof {
                runs = earlier.push(turns@);
                assert(runs.drop_last() =~= earlier);
                assert(posted + posts_from_all(runs) =~= posted + posts_from_all(earlier)
                    + posts_from(turns@));
                assert(sent + transmits_from_all(runs) =~= sent + transmits_from_all(earlier)
                    + transmits_from(turns@));
                assert forall|j: int| 0 <= j < self.peers.len() && j != i implies
                    #[trigger] self@.peers[j] == held[j] by {}
                assert forall|j: int| 0 <= j < i + 1 implies leads(
                    before.peers[j],
                    #[trigger] runs[j],
                    self@.peers[j],
                    present@,
                    now.nanos,
                ) by {
                    if j < i {
                        assert(runs[j] == earlier[j]);
                    }
                }
                assert(propagated_of(queue@).len() >= queued.len());
                if queue.len() < usize::MAX {
                    assert(queued.len() < usize::MAX);
                    assert forall|j: int| 0 <= j < i + 1 implies is_exhausted(
                        self@.peers[j],
                        #[trigger] runs[j],
                    ) by {
                        if j < i {
                            assert(runs[j] == earlier[j]);
                        }
                    }
                }
            }
            i = i + 1;
        }
        assert(events_of_all(runs).len() == queue.len());
        (earliest, queue, Ghost(runs))
    }

    /// Hands what the peers produced to the rest of the room, in order.
    fn deliver(&mut self, queue: &Vec<Propagated>) -> (states: Ghost<Seq<RoomView>>)
        ensures
            takes_in(states@, propagated_of(queue@)),
            states@.first() == old(self)@,
            states@.last() == final(self)@,
    {
        let ghost events = propagated_of(queue@);
        let ghost mut states: Seq<RoomView> = seq![self@];
        let mut i: usize = 0;
        assert(events.take(0) =~= Seq::empty());
        while i < queue.len()
            invariant
                i <= queue.len(),
                events == propagated_of(queue@),
                states.len() == i + 1,
                takes_in(states, events.take(i as int)),
                states.first() == old(self)@,
                states.last() == self@,
            decreases queue.len() - i,
        {
            let ghost earlier = states;
            self.propagate(&queue[i]);
            proof {
                states = earlier.push(self@);
                assert(states.drop_last() =~= earlier);
                assert(events.take(i + 1).drop_last() =~= events.take(i as int));
                assert(events.take(i + 1).last() == queue@[i as int]@);
            }
            i = i + 1;
        }
        assert(events.take(i as int) =~= events);
        Ghost(states)
    }

    /// Drains every peer's output and hands what it produced to the rest of the
    /// room. Returns the earlier of a deadline and the earliest wake-up any peer
    /// asked for.
    pub fn poll(
        &mut self,
        now: Now,
        deadline: u64,
        outbox: &mut Vec<Envelope>,
        transmits: &mut Vec<Transmit>,
    ) -> (result: (u64, Ghost<Seq<Seq<Turn>>>, Ghost<Seq<RoomView>>))
        requires
            has_room_ahead(now),
        ensures
            is_polled(old(self)@, final(self)@, result.1@, result.2@, now.nanos),
            result.0 == deadline_after_all(deadline, result.1@),
            posts_of(final(outbox)@) == posts_of(old(outbox)@) + posts_from_all(result.1@),
            final(transmits)@ == old(transmits)@ + transmits_from_all(result.1@),
    {
        let (earliest, queue, runs) = self.collect(now, deadline, outbox, transmits);
        // Propagation is deferred so the borrow of the producing peer has
        // ended before its subscribers are touched.
        let states = self.deliver(&queue);
        (earliest, runs, states)
    }
}

} // verus!
