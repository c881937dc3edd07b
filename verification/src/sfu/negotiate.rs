//! Keeping a subscriber's m-lines in line with what its room publishes.
use str0m::change::SdpApi;
use vstd::prelude::*;
use vstd::string::*;

use crate::names::texts;
use crate::proto::{track_maps, TrackMap, TrackMapView};
use crate::sfu::tracks::{
    is_present, tracks_out_of, MediaKind, PeerId, TrackInView, TrackOut, TrackOutState,
    TrackOutStateView, TrackOutView,
};
use crate::sfu::webrtc::{
    add_sender, added_in, as_mid, change_session, is_token, is_token_char, proposals, stop_matters,
    stop_media, Proposal,
};
use crate::text::{decimal_is_digits, decimal_length, is_digit};

verus! {

/// A subscription as the next negotiation finds it: an open m-line whose
/// publisher has left is to be stopped.
pub open spec fn marked(track: TrackOutView, present: Seq<PeerId>) -> TrackOutView {
    match track.state {
        TrackOutStateView::Open(mid) => if present.contains(track.track_in.origin) {
            track
        } else {
            TrackOutView { state: TrackOutStateView::ToStop(mid), ..track }
        },
        _ => track,
    }
}

pub open spec fn marked_all(tracks: Seq<TrackOutView>, present: Seq<PeerId>) -> Seq<TrackOutView> {
    tracks.map_values(|t: TrackOutView| marked(t, present))
}

/// The name of the track that carries one kind of media of one peer.
pub open spec fn track_name(origin: PeerId, kind: MediaKind) -> Seq<char> {
    origin.text() + "-"@ + kind.spelling()
}

/// The m-line asked for to carry a publisher's track.
pub open spec fn sender_for(track_in: TrackInView, mid: Seq<char>) -> Proposal {
    Proposal::Add {
        mid,
        kind: track_in.kind,
        stream: track_in.origin.text(),
        track: track_name(track_in.origin, track_in.kind),
    }
}

/// Stopping an m-line changes nothing, after these steps of some change: there is
/// no such m-line, or it carries nothing any more.
pub open spec fn is_stopped_already(steps: Seq<Proposal>, mid: Seq<char>) -> bool {
    exists|change: SdpApi<'static>|
        #[trigger] proposals(change) == steps && !stop_matters(change, mid)
}

/// Whether `after` is what a negotiation makes of the subscriptions `before`,
/// proposing `steps`. A subscription that waits gets an m-line of its own if
/// its publisher is there to be heard; one that is to stop is being stopped,
/// which takes a step unless stopping the m-line changes nothing. The others
/// stay as they are.
pub open spec fn proposes(
    before: Seq<TrackOutView>,
    after: Seq<TrackOutView>,
    present: Seq<PeerId>,
    steps: Seq<Proposal>,
) -> bool
    decreases before.len(),
{
    if before.len() == 0 {
        after.len() == 0 && steps.len() == 0
    } else {
        let was = before.last();
        let is = after.last();
        let fewer = steps.drop_last();
        &&& after.len() == before.len()
        &&& is.track_in == was.track_in
        &&& match was.state {
            TrackOutStateView::ToOpen => if present.contains(was.track_in.origin) {
                &&& is.state matches TrackOutStateView::Negotiating(mid)
                &&& steps.len() > 0
                &&& steps.last() == sender_for(was.track_in, mid)
                &&& proposes(before.drop_last(), after.drop_last(), present, fewer)
            } else {
                &&& is == was
                &&& proposes(before.drop_last(), after.drop_last(), present, steps)
            },
            TrackOutStateView::ToStop(mid) => {
                &&& is.state == TrackOutStateView::NegotiatingStop(mid)
                &&& {
                    ||| {
                        &&& is_stopped_already(steps, mid)
                        &&& proposes(before.drop_last(), after.drop_last(), present, steps)
                    }
                    ||| {
                        &&& steps.len() > 0
                        &&& steps.last() == (Proposal::Stop { mid: as_mid(mid) })
                        &&& proposes(before.drop_last(), after.drop_last(), present, fewer)
                    }
                }
            },
            _ => {
                &&& is == was
                &&& proposes(before.drop_last(), after.drop_last(), present, steps)
            },
        }
    }
}

proof fn names_are_tokens(origin: PeerId, kind: MediaKind)
    ensures
        is_token(origin.text()),
        is_token(track_name(origin, kind)),
{
    let digits = origin.text();
    decimal_is_digits(origin.0 as nat);
    assert(vstd::arithmetic::power::pow(10, 20) == 100_000_000_000_000_000_000) by {
        reveal_with_fuel(vstd::arithmetic::power::pow, 21);
    }
    decimal_length(origin.0 as nat, 20);
    reveal_strlit("-");
    reveal_strlit("audio");
    reveal_strlit("video");
    assert forall|i: int| 0 <= i < digits.len() implies is_token_char(#[trigger] digits[i]) by {
        assert(is_digit(digits[i]));
    }
    let name = track_name(origin, kind);
    assert forall|i: int| 0 <= i < name.len() implies is_token_char(#[trigger] name[i]) by {
        if i < digits.len() {
            assert(name[i] == digits[i]);
        } else if i == digits.len() {
            assert(name[i] == "-"@[0]);
        } else {
            assert(name[i] == kind.spelling()[i - digits.len() - 1]);
        }
    }
}

/// Marks the open m-lines whose publisher has left.
pub fn mark_departed(tracks: &mut Vec<TrackOut>, present: &Vec<PeerId>)
    ensures
        tracks_out_of(final(tracks)@) == marked_all(tracks_out_of(old(tracks)@), present@),
{
    let ghost before = tracks_out_of(tracks@);
    let mut i: usize = 0;
    while i < tracks.len()
        invariant
            i <= tracks.len(),
            tracks.len() == before.len(),
            before == tracks_out_of(old(tracks)@),
            forall|j: int|
                0 <= j < i ==> (#[trigger] tracks@[j])@ == marked(before[j], present@),
            forall|j: int| i <= j < tracks.len() ==> (#[trigger] tracks@[j])@ == before[j],
        decreases tracks.len() - i,
    {
        let stopped = match &tracks[i].state {
            TrackOutState::Open(mid) => if is_present(present, tracks[i].track_in.origin) {
                None
            } else {
                Some(TrackOutState::ToStop(mid.clone()))
            },
            _ => None,
        };
        if let Some(state) = stopped {
            tracks[i].state = state;
        }
        i = i + 1;
    }
    assert(tracks_out_of(tracks@) =~= marked_all(before, present@));
}

/// Proposes what the subscriptions need and takes note in each of them. Says which
/// m-lines are new.
pub(crate) fn propose(
    change: &mut SdpApi<'_>,
    tracks: &mut Vec<TrackOut>,
    present: &Vec<PeerId>,
) -> (added: Vec<String>)
    requires
        proposals(*old(change)).len() == 0,
    ensures
        proposes(
            tracks_out_of(old(tracks)@),
            tracks_out_of(final(tracks)@),
            present@,
            proposals(*final(change)),
        ),
        change_session(*final(change)) == change_session(*old(change)),
        texts(added@) == added_in(proposals(*final(change))),
{
    let ghost before = tracks_out_of(tracks@);
    let mut added: Vec<String> = Vec::new();
    let mut i: usize = 0;
    while i < tracks.len()
        invariant
            i <= tracks.len(),
            tracks.len() == before.len(),
            before == tracks_out_of(old(tracks)@),
            forall|j: int| i <= j < tracks.len() ==> (#[trigger] tracks@[j])@ == before[j],
            proposes(
                before.take(i as int),
                tracks_out_of(tracks@).take(i as int),
                present@,
                proposals(*change),
            ),
            change_session(*change) == change_session(*old(change)),
            texts(added@) == added_in(proposals(*change)),
        decreases tracks.len() - i,
    {
        let ghost held = tracks_out_of(tracks@);
        let ghost steps = proposals(*change);
        let ghost proposed = *change;
        let ghost named = texts(added@);
        let next = match &tracks[i].state {
            TrackOutState::ToOpen => if is_present(present, tracks[i].track_in.origin) {
                let origin = tracks[i].track_in.origin;
                let kind = tracks[i].track_in.kind;
                let stream = origin.as_string();
                let mut track = origin.as_string();
                track.append("-");
                track.append(kind.label());
                proof {
                    names_are_tokens(origin, kind);
                }
                let mid = add_sender(change, kind, stream.as_str(), track.as_str());
                added.push(mid.clone());
                assert(texts(added@) =~= named.push(mid@));
                Some(TrackOutState::Negotiating(mid))
            } else {
                None
            },
            TrackOutState::ToStop(mid) => {
                stop_media(change, mid.as_str());
                Some(TrackOutState::NegotiatingStop(mid.clone()))
            },
            _ => None,
        };
        if let Some(state) = next {
            tracks[i].state = state;
        }
        proof {
            let now = tracks_out_of(tracks@);
            assert(before.take(i + 1).drop_last() =~= before.take(i as int));
            assert(now.take(i + 1).drop_last() =~= held.take(i as int));
            assert(steps.len() <= proposals(*change).len());
            assert(proposals(proposed) == steps);
            if proposals(*change).len() > steps.len() {
                assert(proposals(*change).drop_last() =~= steps);
            }
        }
        i = i + 1;
    }
    assert(before.take(i as int) =~= before);
    assert(tracks_out_of(tracks@).take(i as int) =~= tracks_out_of(tracks@));
    added
}

/// Whose media an m-line carries, for one that is neither waiting nor being
/// stopped and whose publisher is there.
pub open spec fn mapping(track: TrackOutView, present: Seq<PeerId>) -> Option<TrackMapView> {
    match track.mid() {
        Some(mid) => if present.contains(track.track_in.origin) && !track.is_stopping() {
            Some(TrackMapView {
                mid,
                peer_id: track.track_in.origin.text(),
                kind: track.track_in.kind.spelling(),
            })
        } else {
            None
        },
        None => None,
    }
}

/// Every outbound m-line that carries somebody's media.
pub open spec fn mappings(tracks: Seq<TrackOutView>, present: Seq<PeerId>) -> Seq<TrackMapView>
    decreases tracks.len(),
{
    if tracks.len() == 0 {
        Seq::empty()
    } else {
        let rest = mappings(tracks.drop_last(), present);
        match mapping(tracks.last(), present) {
            Some(entry) => rest.push(entry),
            None => rest,
        }
    }
}

/// Every outbound m-line this peer currently has, so the browser can attribute
/// an incoming track to a person. SDP alone does not say whose audio a new
/// m-line carries.
pub fn track_map(tracks: &Vec<TrackOut>, present: &Vec<PeerId>) -> (map: Vec<TrackMap>)
    ensures
        track_maps(map@) == mappings(tracks_out_of(tracks@), present@),
{
    let mut map: Vec<TrackMap> = Vec::new();
    let ghost all = tracks_out_of(tracks@);
    let mut i: usize = 0;
    assert(track_maps(map@) =~= mappings(all.take(0), present@));
    while i < tracks.len()
        invariant
            i <= tracks.len(),
            all == tracks_out_of(tracks@),
            track_maps(map@) == mappings(all.take(i as int), present@),
        decreases tracks.len() - i,
    {
        let track = &tracks[i];
        proof {
            assert(all.take(i + 1).drop_last() =~= all.take(i as int));
            assert(all.take(i + 1).last() == track@);
        }
        let stopping = match &track.state {
            TrackOutState::ToStop(_) => true,
            TrackOutState::NegotiatingStop(_) => true,
            _ => false,
        };
        match track.mid() {
            Some(mid) => if !stopping && is_present(present, track.track_in.origin) {
                let ghost held = track_maps(map@);
                let entry = TrackMap {
                    mid: mid.clone(),
                    peer_id: track.track_in.origin.as_string(),
                    kind: track.track_in.kind.label().to_string(),
                };
                map.push(entry);
                assert(track_maps(map@) =~= held.push(entry@));
            },
            None => {},
        }
        i = i + 1;
    }
    assert(all.take(i as int) =~= all);
    map
}

/// A subscription after its offer was answered: what was being negotiated is
/// open.
pub open spec fn opened(track: TrackOutView) -> TrackOutView {
    match track.state {
        TrackOutStateView::Negotiating(mid) => TrackOutView {
            state: TrackOutStateView::Open(mid),
            ..track
        },
        _ => track,
    }
}

/// The subscriptions after an answer: what was being stopped is gone, so that
/// its m-line can be recycled.
pub open spec fn settled(tracks: Seq<TrackOutView>) -> Seq<TrackOutView>
    decreases tracks.len(),
{
    if tracks.len() == 0 {
        tracks
    } else {
        let rest = settled(tracks.drop_last());
        if tracks.last().state is NegotiatingStop {
            rest
        } else {
            rest.push(opened(tracks.last()))
        }
    }
}

/// Brings the subscriptions up to date with an answer.
pub fn settle(tracks: &mut Vec<TrackOut>)
    ensures
        tracks_out_of(final(tracks)@) == settled(tracks_out_of(old(tracks)@)),
{
    let ghost all = tracks_out_of(tracks@);
    let ghost mut done: int = 0;
    let mut i: usize = 0;
    assert(all.take(0) =~= Seq::empty());
    while i < tracks.len()
        invariant
            i <= tracks.len(),
            all == tracks_out_of(old(tracks)@),
            0 <= done <= all.len(),
            tracks.len() == i + (all.len() - done),
            tracks_out_of(tracks@).take(i as int) == settled(all.take(done)),
            forall|j: int|
                i <= j < tracks.len() ==> (#[trigger] tracks@[j])@ == all[j - i + done],
        decreases tracks.len() - i,
    {
        let ghost held = tracks_out_of(tracks@);
        proof {
            assert(all.take(done + 1).drop_last() =~= all.take(done));
            assert(all.take(done + 1).last() == tracks@[i as int]@);
        }
        let state = match &tracks[i].state {
            TrackOutState::NegotiatingStop(_) => None,
            TrackOutState::Negotiating(mid) => Some(TrackOutState::Open(mid.clone())),
            TrackOutState::Open(mid) => Some(TrackOutState::Open(mid.clone())),
            TrackOutState::ToStop(mid) => Some(TrackOutState::ToStop(mid.clone())),
            TrackOutState::ToOpen => Some(TrackOutState::ToOpen),
        };
        match state {
            Some(state) => {
                tracks[i].state = state;
                assert(tracks_out_of(tracks@).take(i + 1) =~= held.take(i as int).push(
                    opened(all[done]),
                ));
                i = i + 1;
            },
            None => {
                let gone = tracks.remove(i);
                assert(tracks_out_of(tracks@).take(i as int) =~= held.take(i as int));
            },
        }
        proof {
            done = done + 1;
        }
    }
    assert(all.take(done) =~= all);
    assert(tracks_out_of(tracks@).take(i as int) =~= tracks_out_of(tracks@));
}

} // verus!
