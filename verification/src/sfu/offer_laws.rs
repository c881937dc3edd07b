//! What is promised of negotiations: what is offered to whom, and how it is named.
use str0m::change::SdpApi;
use vstd::prelude::*;

use crate::proto::{ServerMsgView, TrackMapView};
use crate::sfu::laws::a_negotiation_moves_each_subscription;
use crate::sfu::negotiate::{is_stopped_already, mapping, mappings, marked, marked_all, proposes};
use crate::sfu::outbox::Post;
use crate::sfu::peer::{negotiates, PeerView};
use crate::sfu::tracks::{MediaKind, PeerId, TrackInView, TrackOutStateView, TrackOutView};
use crate::sfu::transport::Asked;
use crate::sfu::webrtc::{added_in, as_mid, proposals, stop_matters, Proposal};

verus! {

/// How a kind of media is called.
pub open spec fn called(kind: MediaKind) -> Seq<char> {
    match kind {
        MediaKind::Audio => "audio"@,
        MediaKind::Video => "video"@,
    }
}

/// A subscription waits for an m-line, and its publisher is there.
pub open spec fn is_owed_a_line(track: TrackOutView, present: Seq<PeerId>) -> bool {
    track.state is ToOpen && present.contains(track.track_in.origin)
}

/// A subscription has an m-line that is to be stopped: it was to be stopped before, or
/// its publisher has left.
pub open spec fn is_to_be_stopped(track: TrackOutView, present: Seq<PeerId>, line: Seq<char>) -> bool {
    ||| track.state == TrackOutStateView::ToStop(line)
    ||| track.state == TrackOutStateView::Open(line) && !present.contains(track.track_in.origin)
}

/// The step that asks for an m-line that only sends, for a track: by the kind of its
/// media, and named after its publisher.
pub open spec fn asks_for(track: TrackInView, line: Seq<char>) -> Proposal {
    Proposal::Add {
        mid: line,
        kind: track.kind,
        stream: track.origin.text(),
        track: track.origin.text() + "-"@ + called(track.kind),
    }
}

/// What a negotiation makes of one subscription: one that is owed an m-line gets one of
/// its own, one that has an m-line to be stopped is being stopped, and any other stays
/// as it is. The track it is to never changes.
pub open spec fn is_moved_on(
    before: TrackOutView,
    after: TrackOutView,
    present: Seq<PeerId>,
    steps: Seq<Proposal>,
) -> bool {
    &&& after.track_in == before.track_in
    &&& is_owed_a_line(before, present) ==> exists|line: Seq<char>|
        after.state == TrackOutStateView::Negotiating(line) && steps.contains(
            #[trigger] asks_for(before.track_in, line),
        )
    &&& forall|line: Seq<char>| #[trigger]
        is_to_be_stopped(before, present, line) ==> after.state
            == TrackOutStateView::NegotiatingStop(line)
    &&& !is_owed_a_line(before, present) && (forall|line: Seq<char>|
        !is_to_be_stopped(before, present, line)) ==> after == before
}

/// A step is owed to some subscription.
pub open spec fn is_owed(
    step: Proposal,
    before: Seq<TrackOutView>,
    after: Seq<TrackOutView>,
    present: Seq<PeerId>,
) -> bool {
    exists|i: int|
        0 <= i < before.len() && is_called_for(step, #[trigger] before[i], after[i], present)
}

/// A step is what a subscription needs: an m-line for one that is owed it, or the end of
/// one that is to be stopped.
pub open spec fn is_called_for(
    step: Proposal,
    before: TrackOutView,
    after: TrackOutView,
    present: Seq<PeerId>,
) -> bool {
    match step {
        Proposal::Add { mid, .. } => {
            &&& is_owed_a_line(before, present)
            &&& step == asks_for(before.track_in, mid)
            &&& after.state == TrackOutStateView::Negotiating(mid)
        },
        Proposal::Stop { mid } => exists|line: Seq<char>|
            #[trigger] is_to_be_stopped(before, present, line) && as_mid(line) == mid,
    }
}

/// How many subscriptions are owed an m-line.
pub open spec fn owed_lines(tracks: Seq<TrackOutView>, present: Seq<PeerId>) -> nat {
    tracks.filter(|t: TrackOutView| is_owed_a_line(t, present)).len()
}

proof fn proposals_are_called_for(
    before: Seq<TrackOutView>,
    after: Seq<TrackOutView>,
    present: Seq<PeerId>,
    steps: Seq<Proposal>,
)
    requires
        proposes(marked_all(before, present), after, present, steps),
    ensures
        after.len() == before.len(),
        forall|i: int|
            0 <= i < before.len() ==> is_moved_on(
                #[trigger] before[i],
                after[i],
                present,
                steps,
            ),
        forall|n: int|
            0 <= n < steps.len() ==> is_owed(#[trigger] steps[n], before, after, present),
        added_in(steps).len() == owed_lines(before, present),
    decreases before.len(),
{
    reveal(Seq::filter);
    let marks = marked_all(before, present);
    if before.len() > 0 {
        let front = before.drop_last();
        let moved = after.drop_last();
        let last = before.len() - 1;
        let fewer = steps.drop_last();
        assert(marks.drop_last() =~= marked_all(front, present));
        assert(marks.last() == marked(before.last(), present));
        let stepped = {
            ||| is_owed_a_line(before.last(), present)
            ||| marks.last().state is ToStop && !proposes(marks.drop_last(), moved, present, steps)
        };
        let rest = if stepped {
            fewer
        } else {
            steps
        };
        assert(proposes(marked_all(front, present), moved, present, rest));
        proposals_are_called_for(front, moved, present, rest);
        assert forall|i: int| 0 <= i < before.len() implies is_moved_on(
            #[trigger] before[i],
            after[i],
            present,
            steps,
        ) by {
            if i < last {
                assert(is_moved_on(front[i], moved[i], present, rest));
                if is_owed_a_line(before[i], present) {
                    let line = choose|line: Seq<char>|
                        moved[i].state == TrackOutStateView::Negotiating(line) && rest.contains(
                            #[trigger] asks_for(front[i].track_in, line),
                        );
                    let step = asks_for(before[i].track_in, line);
                    let n = choose|n: int| 0 <= n < rest.len() && rest[n] == step;
                    assert(steps[n] == step);
                    assert(steps.contains(asks_for(before[i].track_in, line)));
                }
                assert forall|line: Seq<char>| #[trigger]
                    is_to_be_stopped(before[i], present, line) implies after[i].state
                    == TrackOutStateView::NegotiatingStop(line) by {
                    assert(is_to_be_stopped(front[i], present, line));
                }
            } else {
                if is_owed_a_line(before[i], present) {
                    let line = after[i].state->Negotiating_0;
                    assert(steps.last() == asks_for(before[i].track_in, line));
                    assert(steps[steps.len() - 1] == asks_for(before[i].track_in, line));
                    assert(steps.contains(asks_for(before[i].track_in, line)));
                }
                if let TrackOutStateView::Open(line) = before[i].state {
                    if !present.contains(before[i].track_in.origin) {
                        assert(is_to_be_stopped(before[i], present, line));
                    }
                }
                if let TrackOutStateView::ToStop(line) = before[i].state {
                    assert(is_to_be_stopped(before[i], present, line));
                }
            }
        }
        assert forall|n: int| 0 <= n < steps.len() implies is_owed(
            #[trigger] steps[n],
            before,
            after,
            present,
        ) by {
            if n < rest.len() {
                assert(rest[n] == steps[n]);
                assert(is_owed(rest[n], front, moved, present));
                let i = choose|i: int|
                    0 <= i < front.len() && is_called_for(
                        rest[n],
                        #[trigger] front[i],
                        moved[i],
                        present,
                    );
                assert(before[i] == front[i] && after[i] == moved[i]);
                assert(is_called_for(steps[n], before[i], after[i], present));
            } else {
                if let TrackOutStateView::ToStop(line) = marks.last().state {
                    assert(is_to_be_stopped(before[last], present, line));
                }
                assert(is_called_for(steps[n], before[last], after[last], present));
            }
        }
        assert(owed_lines(before, present) == owed_lines(front, present) + if is_owed_a_line(
            before.last(),
            present,
        ) {
            1nat
        } else {
            0nat
        });
    }
}

/// The m-lines that carry somebody's media, with whose and which they are: those that
/// are open or being opened and whose publisher is there.
pub open spec fn line_list(tracks: Seq<TrackOutView>, present: Seq<PeerId>) -> Seq<TrackMapView> {
    tracks.filter(|t: TrackOutView| is_carrying(t, present)).map_values(
        |t: TrackOutView|
            TrackMapView {
                mid: match t.state {
                    TrackOutStateView::Open(line) => line,
                    TrackOutStateView::Negotiating(line) => line,
                    _ => Seq::empty(),
                },
                peer_id: t.track_in.origin.text(),
                kind: called(t.track_in.kind),
            },
    )
}

pub open spec fn is_carrying(track: TrackOutView, present: Seq<PeerId>) -> bool {
    (track.state is Open || track.state is Negotiating) && present.contains(track.track_in.origin)
}

proof fn mappings_list_lines(tracks: Seq<TrackOutView>, present: Seq<PeerId>)
    ensures
        mappings(tracks, present) == line_list(tracks, present),
    decreases tracks.len(),
{
    reveal(Seq::filter);
    if tracks.len() > 0 {
        mappings_list_lines(tracks.drop_last(), present);
        assert(mapping(tracks.last(), present) is Some <==> is_carrying(tracks.last(), present));
    }
    assert(mappings(tracks, present) =~= line_list(tracks, present));
}

/// While an offer is out, or after the session has ended, nothing is negotiated.
/// Otherwise every subscription that needs it is moved on, each step of the offer is
/// called for by a subscription, and there is one for every m-line that is owed. An
/// offer that is made goes to the peer itself, with the list of m-lines that carry
/// somebody's media; without a step there is none. Nothing else of the peer changes.
pub proof fn a_negotiation_does_what_is_called_for(
    before: PeerView,
    after: PeerView,
    present: Seq<PeerId>,
    offered: bool,
    sent: Seq<Post>,
)
    requires
        negotiates(before, after, present, offered, sent),
    ensures
        before.pending is Some || !before.link.alive() ==> !offered && after == before && sent.len()
            == 0,
        before.pending is None && before.link.alive() ==> {
            &&& after == PeerView {
                link: after.link,
                pending: after.pending,
                tracks_out: after.tracks_out,
                ..before
            }
            &&& after.tracks_out.len() == before.tracks_out.len()
            &&& after.link.alive()
            &&& owed_lines(before.tracks_out, present) > 0 ==> offered
            &&& !offered ==> {
                &&& sent.len() == 0
                &&& after.pending is None
                &&& after.link.asked() == before.link.asked()
                &&& forall|i: int|
                    0 <= i < before.tracks_out.len() ==> is_moved_on(
                        #[trigger] before.tracks_out[i],
                        after.tracks_out[i],
                        present,
                        Seq::empty(),
                    )
            }
            &&& offered ==> {
                &&& after.link.asked().len() == before.link.asked().len() + 1
                &&& after.link.asked().drop_last() == before.link.asked()
                &&& after.link.asked().last() matches Asked::Offer { steps, sdp }
                &&& steps.len() > 0
                &&& sent == seq![
                    Post {
                        to: before.id,
                        message: ServerMsgView::Offer {
                            sdp,
                            tracks: line_list(after.tracks_out, present),
                        },
                    },
                ]
                &&& forall|i: int|
                    0 <= i < before.tracks_out.len() ==> is_moved_on(
                        #[trigger] before.tracks_out[i],
                        after.tracks_out[i],
                        present,
                        steps,
                    )
                &&& forall|n: int|
                    0 <= n < steps.len() ==> is_owed(
                        #[trigger] steps[n],
                        before.tracks_out,
                        after.tracks_out,
                        present,
                    )
                &&& added_in(steps).len() == owed_lines(before.tracks_out, present)
                &&& after.pending matches Some(pending)
                &&& pending.awaited() == added_in(steps)
            }
        },
{
    if before.pending is None && before.link.alive() {
        if offered {
            let steps = after.link.asked().last()->Offer_steps;
            proposals_are_called_for(before.tracks_out, after.tracks_out, present, steps);
            mappings_list_lines(after.tracks_out, present);
        } else {
            proposals_are_called_for(
                before.tracks_out,
                after.tracks_out,
                present,
                Seq::empty(),
            );
        }
    }
}

/// An m-line that is to be stopped is asked to stop in the next offer, as long as
/// stopping it makes a difference.
pub proof fn what_is_to_be_stopped_is_stopped(
    before: PeerView,
    after: PeerView,
    present: Seq<PeerId>,
    offered: bool,
    sent: Seq<Post>,
    i: int,
    line: Seq<char>,
)
    requires
        negotiates(before, after, present, offered, sent),
        before.pending is None,
        before.link.alive(),
        0 <= i < before.tracks_out.len(),
        is_to_be_stopped(before.tracks_out[i], present, line),
        forall|change: SdpApi<'static>| #[trigger] stop_matters(change, line),
    ensures
        offered,
        after.link.asked().last() matches Asked::Offer { steps, sdp } && steps.contains(
            Proposal::Stop { mid: as_mid(line) },
        ),
{
    let steps = if offered {
        after.link.asked().last()->Offer_steps
    } else {
        Seq::empty()
    };
    let marks = marked_all(before.tracks_out, present);
    assert(marks[i] == marked(before.tracks_out[i], present));
    a_negotiation_moves_each_subscription(marks, after.tracks_out, present, steps, i);
    if !steps.contains(Proposal::Stop { mid: as_mid(line) }) {
        let k = choose|k: int|
            0 <= k <= steps.len() && is_stopped_already(#[trigger] steps.take(k), line);
        let change = choose|change: SdpApi<'static>|
            #[trigger] proposals(change) == steps.take(k) && !stop_matters(change, line);
        assert(stop_matters(change, line));
    }
}

/// The list of m-lines names the publisher of every one that media can go out on: a
/// subscription that is open or being opened, and whose publisher is there, is listed
/// under its m-line, with the publisher's id and the kind of its media; and whatever is
/// listed is such a subscription.
pub proof fn the_list_names_the_publishers(
    tracks: Seq<TrackOutView>,
    present: Seq<PeerId>,
    entry: TrackMapView,
)
    ensures
        line_list(tracks, present).contains(entry) <==> exists|i: int|
            {
                &&& 0 <= i < tracks.len()
                &&& present.contains((#[trigger] tracks[i]).track_in.origin)
                &&& {
                    ||| tracks[i].state == TrackOutStateView::Open(entry.mid)
                    ||| tracks[i].state == TrackOutStateView::Negotiating(entry.mid)
                }
                &&& entry.peer_id == tracks[i].track_in.origin.text()
                &&& entry.kind == called(tracks[i].track_in.kind)
            },
    decreases tracks.len(),
{
    reveal(Seq::filter);
    let fits = |t: TrackOutView|
        {
            &&& present.contains(t.track_in.origin)
            &&& {
                ||| t.state == TrackOutStateView::Open(entry.mid)
                ||| t.state == TrackOutStateView::Negotiating(entry.mid)
            }
            &&& entry.peer_id == t.track_in.origin.text()
            &&& entry.kind == called(t.track_in.kind)
        };
    if tracks.len() > 0 {
        let front = tracks.drop_last();
        let rest = line_list(front, present);
        let all = line_list(tracks, present);
        let last = tracks.len() - 1;
        the_list_names_the_publishers(front, present, entry);
        if is_carrying(tracks.last(), present) {
            assert(all.drop_last() =~= rest);
            assert(all.last() == entry <==> fits(tracks[last]));
        } else {
            assert(all =~= rest);
            assert(!fits(tracks[last]));
        }
        if all.contains(entry) {
            let n = choose|n: int| 0 <= n < all.len() && all[n] == entry;
            if n < rest.len() {
                assert(rest[n] == entry);
                let i = choose|i: int| 0 <= i < front.len() && fits(#[trigger] front[i]);
                assert(fits(tracks[i]));
            } else {
                assert(fits(tracks[last]));
            }
        }
        if exists|i: int| 0 <= i < tracks.len() && fits(#[trigger] tracks[i]) {
            let i = choose|i: int| 0 <= i < tracks.len() && fits(#[trigger] tracks[i]);
            if i < last {
                assert(fits(front[i]));
                assert(rest.contains(entry));
                let n = choose|n: int| 0 <= n < rest.len() && rest[n] == entry;
                assert(all[n] == entry);
            } else {
                assert(all[all.len() - 1] == entry);
            }
        }
    } else {
        assert(line_list(tracks, present).len() == 0);
    }
}

} // verus!
