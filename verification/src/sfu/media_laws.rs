//! What is promised of media: whose it is, where it goes and how it is kept going.
use str0m::media::MediaData;
use vstd::prelude::*;

use crate::find::{first_where, first_where_found, first_where_is_first};
use crate::sfu::peer::{handles, PeerView};
use crate::sfu::peer_media::{
    carries, forwarding_line, forwards, is_forwarded_on, is_published_on, keyframe_wanted,
    media_noted, publication,
};
use crate::sfu::room::{ids_of, propagates, receives, RoomView};
use crate::sfu::tracks::{
    KeyframeKind, MediaKind, MediaPacketView, PeerId, PropagatedView, TrackInEntryView, TrackInView,
    TrackOutStateView, TrackOutView,
};
use crate::sfu::transport::Asked;
use crate::sfu::webrtc::{as_mid, packet_of, HappeningView, IceState};

verus! {

/// A subscription has this m-line: it is being negotiated, open or being stopped.
pub open spec fn is_on_line(track: TrackOutView, line: Seq<char>) -> bool {
    ||| track.state == TrackOutStateView::Negotiating(line)
    ||| track.state == TrackOutStateView::Open(line)
    ||| track.state == TrackOutStateView::ToStop(line)
    ||| track.state == TrackOutStateView::NegotiatingStop(line)
}

/// A subscription is to what a publisher sends on one of its m-lines.
pub open spec fn is_to(track: TrackOutView, origin: PeerId, mid: Seq<char>) -> bool {
    track.track_in.origin == origin && track.track_in.mid == mid
}

/// A subscription of a peer, the first to what a publisher sends on one of its
/// m-lines.
pub open spec fn is_first_to(peer: PeerView, i: int, origin: PeerId, mid: Seq<char>) -> bool {
    &&& 0 <= i < peer.tracks_out.len()
    &&& is_to(peer.tracks_out[i], origin, mid)
    &&& forall|j: int| 0 <= j < i ==> !is_to(#[trigger] peer.tracks_out[j], origin, mid)
}

/// A published track of a peer, the first on an m-line.
pub open spec fn is_first_on(peer: PeerView, i: int, mid: Seq<char>) -> bool {
    &&& 0 <= i < peer.tracks_in.len()
    &&& peer.tracks_in[i].id.mid == mid
    &&& forall|j: int| 0 <= j < i ==> (#[trigger] peer.tracks_in[j]).id.mid != mid
}

/// The m-line a packet is forwarded on is that of a subscription to the very
/// publisher and m-line it came from.
pub proof fn the_line_is_the_publishers(
    peer: PeerView,
    origin: PeerId,
    mid: Seq<char>,
    present: Seq<PeerId>,
)
    ensures
        forwarding_line(peer, origin, mid, present) matches Some(line) ==> {
            &&& present.contains(origin)
            &&& exists|i: int|
                0 <= i < peer.tracks_out.len() && is_to(#[trigger] peer.tracks_out[i], origin, mid)
                    && is_on_line(peer.tracks_out[i], line)
        },
{
    first_where_is_first(peer.tracks_out, carries(origin, mid));
    if let Some(i) = first_where(peer.tracks_out, carries(origin, mid)) {
        assert(is_to(peer.tracks_out[i], origin, mid));
    }
}

/// Whatever a subscriber's session is handed for a packet is the publisher's own
/// frame with its own audio level, and it goes out on the m-line of a subscription to
/// that publisher's track. Nothing else of the subscriber changes.
pub proof fn a_packet_goes_out_as_its_publishers(
    before: PeerView,
    after: PeerView,
    origin: PeerId,
    packet: MediaPacketView,
    present: Seq<PeerId>,
)
    requires
        forwards(before, after, origin, packet, present),
    ensures
        after == (PeerView { link: after.link, ..before }),
        before.link.asked().is_prefix_of(after.link.asked()),
        forall|n: int|
            before.link.asked().len() <= n < after.link.asked().len() ==> {
                ||| #[trigger] after.link.asked()[n] is Disconnect
                ||| {
                    &&& after.link.asked()[n] matches Asked::Frame { mid, level, frame, sent }
                    &&& frame == packet.frame
                    &&& level == match packet.audio_level {
                        None => None,
                        Some(loud) => Some((loud, packet.voice_activity != Some(false))),
                    }
                    &&& present.contains(origin)
                    &&& exists|i: int, line: Seq<char>|
                        0 <= i < before.tracks_out.len() && is_to(
                            before.tracks_out[i],
                            origin,
                            packet.mid,
                        ) && #[trigger] is_on_line(before.tracks_out[i], line) && mid == as_mid(line)
                }
            },
{
    the_line_is_the_publishers(before, origin, packet.mid, present);
    if let Some(line) = forwarding_line(before, origin, packet.mid, present) {
        let i = choose|i: int|
            0 <= i < before.tracks_out.len() && is_to(
                #[trigger] before.tracks_out[i],
                origin,
                packet.mid,
            ) && is_on_line(before.tracks_out[i], line);
        assert(is_on_line(before.tracks_out[i], line));
    }
}

/// A packet of a publisher that is there goes to a subscriber whose first subscription
/// to the track has its m-line, as far as the session carries it. A session that fails
/// over it is closed. Without such a subscription nothing happens.
pub proof fn a_packet_reaches_its_subscriber(
    before: PeerView,
    after: PeerView,
    origin: PeerId,
    packet: MediaPacketView,
    present: Seq<PeerId>,
    i: int,
    line: Seq<char>,
)
    requires
        forwards(before, after, origin, packet, present),
    ensures
        present.contains(origin) && is_first_to(before, i, origin, packet.mid) && is_on_line(
            before.tracks_out[i],
            line,
        ) && before.link.has_line(line) && before.link.has_format(packet.frame) ==> {
            let sent = before.link.takes_frame(line, packet.frame);
            let handed = Asked::Frame {
                mid: as_mid(line),
                level: match packet.audio_level {
                    None => None,
                    Some(loud) => Some((loud, packet.voice_activity != Some(false))),
                },
                frame: packet.frame,
                sent,
            };
            if sent {
                &&& after.link.asked() == before.link.asked().push(handed)
                &&& after.link.alive() == before.link.alive()
            } else {
                &&& after.link.asked() == before.link.asked().push(handed).push(Asked::Disconnect)
                &&& !after.link.alive()
            }
        },
        present.contains(origin) && is_first_to(before, i, origin, packet.mid) && is_on_line(
            before.tracks_out[i],
            line,
        ) && !(before.link.has_line(line) && before.link.has_format(packet.frame)) ==> {
            &&& after.link.asked() == before.link.asked()
            &&& after.link.alive() == before.link.alive()
        },
        !present.contains(origin) || (forall|j: int|
            0 <= j < before.tracks_out.len() ==> !is_to(
                #[trigger] before.tracks_out[j],
                origin,
                packet.mid,
            )) ==> after == before,
{
    let wanted = carries(origin, packet.mid);
    first_where_is_first(before.tracks_out, wanted);
    if is_first_to(before, i, origin, packet.mid) {
        assert forall|j: int| 0 <= j < i implies !wanted(#[trigger] before.tracks_out[j]) by {
            assert(!is_to(before.tracks_out[j], origin, packet.mid));
        }
        first_where_found(before.tracks_out, wanted, i);
    }
    if let Some(k) = first_where(before.tracks_out, wanted) {
        assert(is_to(before.tracks_out[k], origin, packet.mid));
    }
}

/// A packet goes to every other participant of its room that is subscribed to the
/// track and whose session carries it, and not back to where it came from.
pub proof fn a_packet_reaches_the_room(
    before: RoomView,
    after: RoomView,
    origin: PeerId,
    packet: MediaPacketView,
    p: int,
    i: int,
    line: Seq<char>,
)
    requires
        propagates(before, after, PropagatedView::Media(origin, packet)),
        0 <= p < before.peers.len(),
    ensures
        after.peers.len() == before.peers.len(),
        after.call_id == before.call_id,
        after.speaking == before.speaking,
        before.peers[p].id == origin ==> after.peers[p] == before.peers[p],
        (exists|q: int| 0 <= q < before.peers.len() && (#[trigger] before.peers[q]).id == origin)
            && before.peers[p].id != origin && is_first_to(before.peers[p], i, origin, packet.mid)
            && is_on_line(before.peers[p].tracks_out[i], line) && before.peers[p].link.has_line(line)
            && before.peers[p].link.has_format(packet.frame) && before.peers[p].link.takes_frame(
            line,
            packet.frame,
        ) ==> after.peers[p].link.asked() == before.peers[p].link.asked().push(
            Asked::Frame {
                mid: as_mid(line),
                level: match packet.audio_level {
                    None => None,
                    Some(loud) => Some((loud, packet.voice_activity != Some(false))),
                },
                frame: packet.frame,
                sent: true,
            },
        ),
{
    let present = ids_of(before.peers);
    assert(receives(
        before.peers[p],
        after.peers[p],
        PropagatedView::Media(origin, packet),
        present,
    ));
    if exists|q: int| 0 <= q < before.peers.len() && (#[trigger] before.peers[q]).id == origin {
        let q = choose|q: int| 0 <= q < before.peers.len() && (#[trigger] before.peers[q]).id == origin;
        assert(present[q] == origin);
    }
    if before.peers[p].id != origin {
        a_packet_reaches_its_subscriber(
            before.peers[p],
            after.peers[p],
            origin,
            packet,
            present,
            i,
            line,
        );
    }
}

/// A new track is subscribed to by every other participant of the room, once, and
/// waits there for an m-line of its own. Nothing else changes.
pub proof fn a_new_track_is_subscribed_to(
    before: RoomView,
    after: RoomView,
    origin: PeerId,
    track: TrackInView,
    p: int,
)
    requires
        propagates(before, after, PropagatedView::TrackOpen(origin, track)),
        0 <= p < before.peers.len(),
    ensures
        after.peers.len() == before.peers.len(),
        after.call_id == before.call_id,
        after.speaking == before.speaking,
        after.peers[p] == if before.peers[p].id == origin {
            before.peers[p]
        } else {
            PeerView {
                tracks_out: before.peers[p].tracks_out.push(
                    TrackOutView { track_in: track, state: TrackOutStateView::ToOpen },
                ),
                ..before.peers[p]
            }
        },
{
    assert(receives(
        before.peers[p],
        after.peers[p],
        PropagatedView::TrackOpen(origin, track),
        ids_of(before.peers),
    ));
}

/// A subscriber's request for a keyframe reaches the publisher, on the publisher's own
/// m-line and in the manner it was made, and nobody else.
pub proof fn a_request_reaches_the_publisher(
    before: RoomView,
    after: RoomView,
    asking: PeerId,
    kind: KeyframeKind,
    publisher: PeerId,
    mid: Seq<char>,
    p: int,
)
    requires
        propagates(before, after, PropagatedView::KeyframeRequest(asking, kind, publisher, mid)),
        0 <= p < before.peers.len(),
    ensures
        after.peers.len() == before.peers.len(),
        after.call_id == before.call_id,
        after.speaking == before.speaking,
        before.peers[p].id != publisher || before.peers[p].id == asking ==> after.peers[p]
            == before.peers[p],
        before.peers[p].id == publisher && publisher != asking ==> {
            let published = exists|k: int|
                0 <= k < before.peers[p].tracks_in.len() && (
                #[trigger] before.peers[p].tracks_in[k]).id.mid == mid;
            let was = before.peers[p].link;
            &&& after.peers[p] == PeerView { link: after.peers[p].link, ..before.peers[p] }
            &&& after.peers[p].link.alive() == was.alive()
            &&& after.peers[p].link.asked() == if published && was.has_line(mid) {
                was.asked().push(
                    Asked::Keyframe {
                        mid: as_mid(mid),
                        kind,
                        requested: was.takes_request(mid, kind),
                    },
                )
            } else {
                was.asked()
            }
        },
{
    assert(receives(
        before.peers[p],
        after.peers[p],
        PropagatedView::KeyframeRequest(asking, kind, publisher, mid),
        ids_of(before.peers),
    ));
    first_where_is_first(before.peers[p].tracks_in, is_published_on(mid));
    if let Some(k) = publication(before.peers[p], mid) {
        assert(before.peers[p].tracks_in[k].id.mid == mid);
    } else {
        assert forall|k: int| 0 <= k < before.peers[p].tracks_in.len() implies (
        #[trigger] before.peers[p].tracks_in[k]).id.mid != mid by {
            assert(!is_published_on(mid)(before.peers[p].tracks_in[k]));
        }
    }
}

/// A gap in a publisher's video calls for a keyframe from it, on the m-line of that
/// video, unless one was asked for within the last second.
pub proof fn a_gap_in_video_calls_for_a_keyframe(
    before: PeerView,
    after: PeerView,
    packet: MediaPacketView,
    now: u64,
    i: int,
)
    requires
        media_noted(before, after, packet, now),
        is_first_on(before, i, packet.mid),
        before.tracks_in[i].id.kind is Video,
        !packet.contiguous,
    ensures
        after.id == before.id,
        after.speaking_until == before.speaking_until,
        after.tracks_out == before.tracks_out,
        before.tracks_in[i].last_keyframe_request matches Some(at) && now - at < 1_000_000_000
            ==> after == before,
        (before.tracks_in[i].last_keyframe_request matches Some(at) ==> now - at >= 1_000_000_000) ==> {
            let line = before.link.has_line(packet.mid);
            let taken = before.link.takes_request(packet.mid, KeyframeKind::Pli);
            &&& after == PeerView { link: after.link, tracks_in: after.tracks_in, ..before }
            &&& after.link.alive() == before.link.alive()
            &&& after.link.asked() == if line {
                before.link.asked().push(
                    Asked::Keyframe {
                        mid: as_mid(packet.mid),
                        kind: KeyframeKind::Pli,
                        requested: taken,
                    },
                )
            } else {
                before.link.asked()
            }
            &&& after.tracks_in.len() == before.tracks_in.len()
            &&& forall|j: int|
                0 <= j < before.tracks_in.len() && j != i ==> #[trigger] after.tracks_in[j]
                    == before.tracks_in[j]
            &&& after.tracks_in[i].id == before.tracks_in[i].id
            &&& after.tracks_in[i].last_keyframe_request == if line && taken {
                Some(now)
            } else {
                before.tracks_in[i].last_keyframe_request
            }
        },
{
    let wanted = is_published_on(packet.mid);
    assert forall|j: int| 0 <= j < i implies !wanted(#[trigger] before.tracks_in[j]) by {}
    first_where_found(before.tracks_in, wanted, i);
}

/// Audio shows that its sender speaks for the next 600 milliseconds, if its level is
/// above -50 dBov and it is not marked as no voice. Other audio, video without a gap
/// and media that is not published say nothing of the sender.
pub proof fn audio_shows_who_speaks(
    before: PeerView,
    after: PeerView,
    packet: MediaPacketView,
    now: u64,
    i: int,
)
    requires
        media_noted(before, after, packet, now),
        now + 600_000_000 <= u64::MAX,
    ensures
        is_first_on(before, i, packet.mid) && before.tracks_in[i].id.kind is Audio ==> after
            == if packet.voice_activity != Some(false) && packet.audio_level is Some
            && packet.audio_level->0 > -50 {
            PeerView { speaking_until: Some((now + 600_000_000) as u64), ..before }
        } else {
            before
        },
        is_first_on(before, i, packet.mid) && before.tracks_in[i].id.kind is Video
            && packet.contiguous ==> after == before,
        (forall|j: int|
            0 <= j < before.tracks_in.len() ==> (#[trigger] before.tracks_in[j]).id.mid
                != packet.mid) ==> after == before,
{
    let wanted = is_published_on(packet.mid);
    first_where_is_first(before.tracks_in, wanted);
    if is_first_on(before, i, packet.mid) {
        assert forall|j: int| 0 <= j < i implies !wanted(#[trigger] before.tracks_in[j]) by {}
        first_where_found(before.tracks_in, wanted, i);
    }
}

/// Being wanted, a keyframe is asked of a publisher at most once a second, on an
/// m-line that it publishes on, in the manner that is wanted.
pub proof fn a_publisher_is_asked_once_a_second(
    before: PeerView,
    after: PeerView,
    mid: Seq<char>,
    kind: KeyframeKind,
    now: u64,
    i: int,
)
    requires
        keyframe_wanted(before, after, mid, kind, now),
        is_first_on(before, i, mid),
    ensures
        before.tracks_in[i].last_keyframe_request matches Some(at) && now - at < 1_000_000_000
            ==> after == before,
        (before.tracks_in[i].last_keyframe_request matches Some(at) ==> now - at >= 1_000_000_000)
            && before.link.has_line(mid) ==> {
            let requested = before.link.takes_request(mid, kind);
            &&& after.link.asked() == before.link.asked().push(
                Asked::Keyframe { mid: as_mid(mid), kind, requested },
            )
            &&& requested ==> after.tracks_in[i].last_keyframe_request == Some(now)
            &&& !requested ==> after.tracks_in == before.tracks_in
        },
{
    let wanted = is_published_on(mid);
    assert forall|j: int| 0 <= j < i implies !wanted(#[trigger] before.tracks_in[j]) by {}
    first_where_found(before.tracks_in, wanted, i);
}

/// What a session tells of itself is taken as it is. A new m-line is published as the
/// peer's own track of that kind and made known to the room.
pub proof fn a_new_line_is_published(
    before: PeerView,
    after: PeerView,
    mid: Seq<char>,
    audio: bool,
    present: Seq<PeerId>,
    now: u64,
    result: PropagatedView,
)
    requires
        handles(before, HappeningView::MediaAdded { mid, audio }, after, present, now, result),
    ensures
        ({
            let track = TrackInView {
                origin: before.id,
                mid,
                kind: if audio {
                    MediaKind::Audio
                } else {
                    MediaKind::Video
                },
            };
            &&& result == PropagatedView::TrackOpen(before.id, track)
            &&& after == PeerView {
                tracks_in: before.tracks_in.push(
                    TrackInEntryView { id: track, last_keyframe_request: None },
                ),
                ..before
            }
        }),
{
}

/// Received media is made known to the room as the peer's own, headers and frame as
/// they came.
pub proof fn received_media_is_passed_on(
    before: PeerView,
    after: PeerView,
    frame: MediaData,
    present: Seq<PeerId>,
    now: u64,
    result: PropagatedView,
)
    requires
        handles(before, HappeningView::Media(frame), after, present, now, result),
    ensures
        result == PropagatedView::Media(before.id, packet_of(frame)),
        after.id == before.id,
        after.user_id == before.user_id,
        after.tracks_out == before.tracks_out,
        after.muted == before.muted,
        after.connected == before.connected,
        after.pending == before.pending,
{
}

/// A subscriber that asks for a keyframe on one of its m-lines asks the publisher of
/// what is forwarded there, on the publisher's own m-line.
pub proof fn a_request_is_for_the_publisher(
    before: PeerView,
    after: PeerView,
    mid: Seq<char>,
    pli: bool,
    present: Seq<PeerId>,
    now: u64,
    result: PropagatedView,
    i: int,
)
    requires
        handles(before, HappeningView::KeyframeRequest { mid, pli }, after, present, now, result),
    ensures
        after == before,
        0 <= i < before.tracks_out.len() && is_on_line(before.tracks_out[i], mid) && (forall|j: int|
            0 <= j < i ==> !is_on_line(#[trigger] before.tracks_out[j], mid)) ==> result
            == if present.contains(before.tracks_out[i].track_in.origin) {
            PropagatedView::KeyframeRequest(
                before.id,
                if pli {
                    KeyframeKind::Pli
                } else {
                    KeyframeKind::Fir
                },
                before.tracks_out[i].track_in.origin,
                before.tracks_out[i].track_in.mid,
            )
        } else {
            PropagatedView::Noop
        },
        (forall|j: int|
            0 <= j < before.tracks_out.len() ==> !is_on_line(#[trigger] before.tracks_out[j], mid))
            ==> result is Noop,
{
    let wanted = is_forwarded_on(mid);
    first_where_is_first(before.tracks_out, wanted);
    assert forall|j: int| 0 <= j < before.tracks_out.len() implies wanted(
        #[trigger] before.tracks_out[j],
    ) == is_on_line(before.tracks_out[j], mid) by {}
    if 0 <= i < before.tracks_out.len() && is_on_line(before.tracks_out[i], mid) && (forall|j: int|
        0 <= j < i ==> !is_on_line(#[trigger] before.tracks_out[j], mid)) {
        assert forall|j: int| 0 <= j < i implies !wanted(#[trigger] before.tracks_out[j]) by {
            assert(!is_on_line(before.tracks_out[j], mid));
        }
        first_where_found(before.tracks_out, wanted, i);
    }
}

/// What the state of a connection means: a peer is there once it is up, a loss is
/// noted with the time it began and forgotten when the connection is back, and
/// anything else says nothing.
pub proof fn a_connection_comes_and_goes(
    before: PeerView,
    after: PeerView,
    state: IceState,
    present: Seq<PeerId>,
    now: u64,
    result: PropagatedView,
)
    requires
        handles(before, HappeningView::Ice(state), after, present, now, result),
    ensures
        result is Noop,
        state is Connected || state is Completed ==> after == (PeerView {
            connected: true,
            disconnected_since: None,
            ..before
        }),
        state is Disconnected && before.disconnected_since is None ==> after == (PeerView {
            disconnected_since: Some(now),
            ..before
        }),
        state is Disconnected && before.disconnected_since is Some ==> after == before,
        state is New || state is Checking ==> after == before,
{
}

/// What is of no use to the media loop changes nothing.
pub proof fn the_rest_changes_nothing(
    before: PeerView,
    after: PeerView,
    present: Seq<PeerId>,
    now: u64,
    result: PropagatedView,
)
    requires
        handles(before, HappeningView::Other, after, present, now, result),
    ensures
        after == before,
        result is Noop,
{
}

} // verus!
