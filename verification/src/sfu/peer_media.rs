//! A peer's media: what it publishes, what is forwarded to it, and keyframes.
use vstd::prelude::*;
use vstd::string::*;

use crate::find::{first_where, first_where_found, first_where_missing};
use crate::sfu::peer::{has_room_ahead, Peer, PeerView, SPEAKING_HOLD, SPEAKING_THRESHOLD_DBOV};
use crate::sfu::tracks::{
    is_present, tracks_in_of, tracks_out_of, KeyframeKind, MediaKind, MediaPacket, MediaPacketView,
    PeerId, Propagated, PropagatedView, TrackIn, TrackInEntry, TrackInEntryView, TrackInView,
    TrackOut, TrackOutView,
};
use crate::sfu::transport::{frame_sent, Asked, Transport, Written};
use crate::sfu::webrtc::{as_mid, Now};

verus! {

/// The least time between two keyframe requests to a publisher, in nanoseconds.
pub const KEYFRAME_INTERVAL: u64 = 1_000_000_000;

/// A peer that has published a track, and the track.
pub struct TrackNote {
    pub peer: PeerView,
    pub track: TrackInView,
}

/// What publishing a track does.
pub open spec fn published(peer: PeerView, mid: Seq<char>, kind: MediaKind) -> TrackNote {
    let track = TrackInView { origin: peer.id, mid, kind };
    let entry = TrackInEntryView { id: track, last_keyframe_request: None };
    TrackNote { peer: PeerView { tracks_in: peer.tracks_in.push(entry), ..peer }, track }
}

/// Being published on an m-line.
pub open spec fn is_published_on(mid: Seq<char>) -> spec_fn(TrackInEntryView) -> bool {
    |track: TrackInEntryView| track.id.mid == mid
}

/// Where a peer's published tracks list an m-line first.
pub open spec fn publication(peer: PeerView, mid: Seq<char>) -> Option<int> {
    first_where(peer.tracks_in, is_published_on(mid))
}

/// Whether a packet of audio is somebody talking.
pub open spec fn is_speech(packet: MediaPacketView) -> bool {
    match packet.audio_level {
        Some(level) => packet.is_voiced() && level > -SPEAKING_THRESHOLD_DBOV,
        None => false,
    }
}

/// What a packet of audio says about its sender.
pub open spec fn level_noted(peer: PeerView, packet: MediaPacketView, now: u64) -> PeerView {
    if is_speech(packet) {
        PeerView { speaking_until: Some((now + SPEAKING_HOLD) as u64), ..peer }
    } else {
        peer
    }
}

/// A keyframe was asked for on a track less than the interval ago.
pub open spec fn asked_recently(track: TrackInEntryView, now: u64) -> bool {
    match track.last_keyframe_request {
        Some(at) => now - at < KEYFRAME_INTERVAL,
        None => false,
    }
}

/// A session was asked for a keyframe on an m-line, if it has that m-line.
pub open spec fn requests(
    before: Transport,
    after: Transport,
    mid: Seq<char>,
    kind: KeyframeKind,
) -> bool {
    &&& after.alive() == before.alive()
    &&& after.asked() == if before.has_line(mid) {
        before.asked().push(
            Asked::Keyframe { mid: as_mid(mid), kind, requested: before.takes_request(mid, kind) },
        )
    } else {
        before.asked()
    }
}

/// What asking a publisher for a keyframe does, when it must not be asked too
/// often: nothing on an m-line that it does not publish, nor within the
/// interval; otherwise the session is asked, and the time is noted if the
/// request could be made.
pub open spec fn keyframe_wanted(
    before: PeerView,
    after: PeerView,
    mid: Seq<char>,
    kind: KeyframeKind,
    now: u64,
) -> bool {
    match publication(before, mid) {
        None => after == before,
        Some(i) => if asked_recently(before.tracks_in[i], now) {
            after == before
        } else {
            let noted = TrackInEntryView {
                last_keyframe_request: Some(now),
                ..before.tracks_in[i]
            };
            &&& requests(before.link, after.link, mid, kind)
            &&& after == PeerView {
                link: after.link,
                tracks_in: if before.link.has_line(mid) && before.link.takes_request(mid, kind) {
                    before.tracks_in.update(i, noted)
                } else {
                    before.tracks_in
                },
                ..before
            }
        },
    }
}

/// What a received packet does to the peer that sent it: audio may show that it
/// speaks, and a gap in video calls for a keyframe.
pub open spec fn media_noted(
    before: PeerView,
    after: PeerView,
    packet: MediaPacketView,
    now: u64,
) -> bool {
    match publication(before, packet.mid) {
        None => after == before,
        Some(i) => match before.tracks_in[i].id.kind {
            MediaKind::Audio => after == level_noted(before, packet, now),
            MediaKind::Video => if packet.contiguous {
                after == before
            } else {
                keyframe_wanted(before, after, packet.mid, KeyframeKind::Pli, now)
            },
        },
    }
}

/// Being forwarded on an m-line.
pub open spec fn is_forwarded_on(mid: Seq<char>) -> spec_fn(TrackOutView) -> bool {
    |track: TrackOutView| track.mid() == Some(mid)
}

/// How a keyframe is asked for.
pub open spec fn keyframe_kind(pli: bool) -> KeyframeKind {
    if pli {
        KeyframeKind::Pli
    } else {
        KeyframeKind::Fir
    }
}

/// Whom a subscriber's keyframe request on one of its m-lines concerns: the
/// publisher of what is forwarded there, on the publisher's own m-line.
pub open spec fn keyframe_origin(
    peer: PeerView,
    mid: Seq<char>,
    pli: bool,
    present: Seq<PeerId>,
) -> PropagatedView {
    match first_where(peer.tracks_out, is_forwarded_on(mid)) {
        None => PropagatedView::Noop,
        Some(i) => {
            let track = peer.tracks_out[i].track_in;
            if present.contains(track.origin) {
                PropagatedView::KeyframeRequest(peer.id, keyframe_kind(pli), track.origin, track.mid)
            } else {
                PropagatedView::Noop
            }
        },
    }
}

/// Carrying one m-line of one publisher.
pub open spec fn carries(origin: PeerId, mid: Seq<char>) -> spec_fn(TrackOutView) -> bool {
    |track: TrackOutView| track.track_in.origin == origin && track.track_in.mid == mid
}

/// The subscriber's m-line for what a publisher sends on one of its own: none
/// where the subscriber has no such subscription, where the m-line is not there
/// yet, or where the publisher has left.
pub open spec fn forwarding_line(
    peer: PeerView,
    origin: PeerId,
    mid: Seq<char>,
    present: Seq<PeerId>,
) -> Option<Seq<char>> {
    if !present.contains(origin) {
        None
    } else {
        match first_where(peer.tracks_out, carries(origin, mid)) {
            None => None,
            Some(i) => peer.tracks_out[i].mid(),
        }
    }
}

/// A packet was handed to an m-line of a session, with its own audio level, if it
/// has that m-line and can carry the packet. A session that fails over it is
/// closed.
pub open spec fn writes(
    before: Transport,
    after: Transport,
    mid: Seq<char>,
    packet: MediaPacketView,
) -> bool {
    let asked = before.asked();
    if !before.has_line(mid) || !before.has_format(packet.frame) {
        after.alive() == before.alive() && after.asked() == asked
    } else if before.takes_frame(mid, packet.frame) {
        &&& before.sends(as_mid(mid), packet.level(), packet.frame, true)
        &&& after.alive() == before.alive()
        &&& after.asked() == asked.push(frame_sent(mid, packet, true))
    } else {
        &&& before.sends(as_mid(mid), packet.level(), packet.frame, false)
        &&& !after.alive()
        &&& after.asked() == asked.push(frame_sent(mid, packet, false)).push(Asked::Disconnect)
    }
}

/// What forwarding a publisher's packet does to a subscriber.
pub open spec fn forwards(
    before: PeerView,
    after: PeerView,
    origin: PeerId,
    packet: MediaPacketView,
    present: Seq<PeerId>,
) -> bool {
    match forwarding_line(before, origin, packet.mid, present) {
        None => after == before,
        Some(mid) => {
            &&& after == PeerView { link: after.link, ..before }
            &&& writes(before.link, after.link, mid, packet)
        },
    }
}

/// What passing a keyframe request on to a publisher does.
pub open spec fn serves_keyframe(
    before: PeerView,
    after: PeerView,
    mid: Seq<char>,
    kind: KeyframeKind,
) -> bool {
    match publication(before, mid) {
        None => after == before,
        Some(_) => {
            &&& after == PeerView { link: after.link, ..before }
            &&& requests(before.link, after.link, mid, kind)
        },
    }
}

/// Finds a published track by its m-line.
fn find_publication(tracks: &Vec<TrackInEntry>, mid: &String) -> (found: Option<usize>)
    ensures
        match found {
            Some(i) => i < tracks.len() && first_where(tracks_in_of(tracks@), is_published_on(mid@))
                == Some(i as int),
            None => first_where(tracks_in_of(tracks@), is_published_on(mid@)) is None,
        },
{
    let ghost all = tracks_in_of(tracks@);
    let ghost wanted = is_published_on(mid@);
    let mut i: usize = 0;
    while i < tracks.len()
        invariant
            i <= tracks.len(),
            all == tracks_in_of(tracks@),
            wanted == is_published_on(mid@),
            forall|j: int| 0 <= j < i ==> !wanted(#[trigger] all[j]),
        decreases tracks.len() - i,
    {
        if tracks[i].id.mid == *mid {
            proof {
                first_where_found(all, wanted, i as int);
            }
            return Some(i);
        }
        assert(!wanted(all[i as int]));
        i = i + 1;
    }
    proof {
        first_where_missing(all, wanted);
    }
    None
}

/// Finds a subscription by the m-line it is forwarded on.
fn find_forwarded(tracks: &Vec<TrackOut>, mid: &String) -> (found: Option<usize>)
    ensures
        match found {
            Some(i) => i < tracks.len() && first_where(tracks_out_of(tracks@), is_forwarded_on(mid@))
                == Some(i as int),
            None => first_where(tracks_out_of(tracks@), is_forwarded_on(mid@)) is None,
        },
{
    let ghost all = tracks_out_of(tracks@);
    let ghost wanted = is_forwarded_on(mid@);
    let mut i: usize = 0;
    while i < tracks.len()
        invariant
            i <= tracks.len(),
            all == tracks_out_of(tracks@),
            wanted == is_forwarded_on(mid@),
            forall|j: int| 0 <= j < i ==> !wanted(#[trigger] all[j]),
        decreases tracks.len() - i,
    {
        let hit = match tracks[i].mid() {
            Some(line) => *line == *mid,
            None => false,
        };
        if hit {
            proof {
                first_where_found(all, wanted, i as int);
            }
            return Some(i);
        }
        assert(!wanted(all[i as int]));
        i = i + 1;
    }
    proof {
        first_where_missing(all, wanted);
    }
    None
}

/// Finds the subscription that carries an m-line of a publisher.
fn find_carrier(tracks: &Vec<TrackOut>, origin: PeerId, mid: &String) -> (found: Option<usize>)
    ensures
        match found {
            Some(i) => i < tracks.len() && first_where(tracks_out_of(tracks@), carries(origin, mid@))
                == Some(i as int),
            None => first_where(tracks_out_of(tracks@), carries(origin, mid@)) is None,
        },
{
    let ghost all = tracks_out_of(tracks@);
    let ghost wanted = carries(origin, mid@);
    let mut i: usize = 0;
    while i < tracks.len()
        invariant
            i <= tracks.len(),
            all == tracks_out_of(tracks@),
            wanted == carries(origin, mid@),
            forall|j: int| 0 <= j < i ==> !wanted(#[trigger] all[j]),
        decreases tracks.len() - i,
    {
        if tracks[i].track_in.origin == origin && tracks[i].track_in.mid == *mid {
            proof {
                first_where_found(all, wanted, i as int);
            }
            return Some(i);
        }
        assert(!wanted(all[i as int]));
        i = i + 1;
    }
    proof {
        first_where_missing(all, wanted);
    }
    None
}

impl Peer {
    pub fn handle_media_added(&mut self, mid: String, kind: MediaKind) -> (propagated: Propagated)
        ensures
            final(self)@ == published(old(self)@, mid@, kind).peer,
            propagated@ == PropagatedView::TrackOpen(
                old(self)@.id,
                published(old(self)@, mid@, kind).track,
            ),
    {
        let track = TrackIn { origin: self.id, mid, kind };
        let copy = track.clone();
        self.tracks_in.push(TrackInEntry { id: track, last_keyframe_request: None });
        assert(self@.tracks_in =~= published(old(self)@, mid@, kind).peer.tracks_in);
        Propagated::TrackOpen(self.id, copy)
    }

    pub fn handle_media_data_in(&mut self, packet: MediaPacket, now: Now) -> (propagated: Propagated)
        requires
            has_room_ahead(now),
        ensures
            media_noted(old(self)@, final(self)@, packet@, now.nanos),
            propagated@ == PropagatedView::Media(old(self)@.id, packet@),
    {
        match find_publication(&self.tracks_in, &packet.mid) {
            Some(i) => match self.tracks_in[i].id.kind {
                MediaKind::Audio => self.note_audio_level(&packet, now),
                // A gap in video is only recoverable with a fresh keyframe, and the
                // publisher is the only one who can produce one.
                MediaKind::Video => if !packet.contiguous {
                    self.request_keyframe_throttled(&packet.mid, KeyframeKind::Pli, now);
                },
            },
            None => {},
        }
        Propagated::Media(self.id, Box::new(packet))
    }

    /// Reads the RFC 6464 audio-level header extension. It lives in the RTP
    /// header, NOT the payload, so active-speaker detection keeps working
    /// unchanged once the payload becomes end-to-end encrypted.
    pub fn note_audio_level(&mut self, packet: &MediaPacket, now: Now)
        requires
            has_room_ahead(now),
        ensures
            final(self)@ == level_noted(old(self)@, packet@, now.nanos),
    {
        let voiced = match packet.voice_activity {
            Some(voiced) => voiced,
            None => true,
        };
        match packet.audio_level {
            Some(level) => if voiced && level > -SPEAKING_THRESHOLD_DBOV {
                self.speaking_until = Some(now.nanos + SPEAKING_HOLD);
            },
            None => {},
        }
    }

    /// Asks this publisher for a keyframe, but not more than once a second.
    pub fn request_keyframe_throttled(&mut self, mid: &String, kind: KeyframeKind, now: Now)
        ensures
            keyframe_wanted(old(self)@, final(self)@, mid@, kind, now.nanos),
    {
        let ghost before = self@;
        match find_publication(&self.tracks_in, mid) {
            Some(i) => {
                let recent = match self.tracks_in[i].last_keyframe_request {
                    Some(at) => now.nanos < at || now.nanos - at < KEYFRAME_INTERVAL,
                    None => false,
                };
                if !recent {
                    if self.link.request_keyframe(mid.as_str(), kind) {
                        self.tracks_in[i].last_keyframe_request = Some(now.nanos);
                        assert(self@.tracks_in =~= before.tracks_in.update(
                            i as int,
                            TrackInEntryView {
                                last_keyframe_request: Some(now.nanos),
                                ..before.tracks_in[i as int]
                            },
                        ));
                    }
                }
            },
            None => {},
        }
    }

    /// A subscriber asked for a keyframe on an m-line we forward. Translate it
    /// back to the publisher's own mid so the request reaches the real encoder.
    pub fn handle_incoming_keyframe_request(
        &self,
        mid: &String,
        pli: bool,
        present: &Vec<PeerId>,
    ) -> (propagated: Propagated)
        ensures
            propagated@ == keyframe_origin(self@, mid@, pli, present@),
    {
        match find_forwarded(&self.tracks_out, mid) {
            Some(i) => {
                let track = &self.tracks_out[i].track_in;
                if !is_present(present, track.origin) {
                    return Propagated::Noop;
                }
                let kind = if pli {
                    KeyframeKind::Pli
                } else {
                    KeyframeKind::Fir
                };
                Propagated::KeyframeRequest(self.id, kind, track.origin, track.mid.clone())
            },
            None => Propagated::Noop,
        }
    }

    /// Writes one publisher's packet onto this subscriber's matching m-line.
    /// The payload is copied through untouched: the SFU never inspects it,
    /// which is what makes end-to-end encryption a client-only change.
    pub fn forward(&mut self, origin: PeerId, packet: &MediaPacket, present: &Vec<PeerId>)
        ensures
            forwards(old(self)@, final(self)@, origin, packet@, present@),
    {
        if !is_present(present, origin) {
            return;
        }
        let line = match find_carrier(&self.tracks_out, origin, &packet.mid) {
            Some(i) => self.tracks_out[i].mid(),
            None => None,
        };
        match line {
            Some(mid) => match self.link.write(mid.as_str(), packet) {
                Written::Failed => self.link.disconnect(),
                _ => {},
            },
            None => {},
        }
    }

    /// Passes a subscriber's keyframe request to the publisher's encoder.
    pub fn serve_keyframe_request(&mut self, mid: &String, kind: KeyframeKind)
        ensures
            serves_keyframe(old(self)@, final(self)@, mid@, kind),
    {
        match find_publication(&self.tracks_in, mid) {
            Some(_) => {
                self.link.request_keyframe(mid.as_str(), kind);
            },
            None => {},
        }
    }
}

} // verus!
