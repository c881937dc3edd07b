//! Who publishes what, and who is subscribed to it.
use str0m::media::MediaData;
use vstd::prelude::*;
use vstd::string::*;

use crate::text::{decimal, decimal_is_injective, decimal_string};

verus! {

/// Identifies a peer inside the media loop. Monotonic and never reused, so a
/// user who reconnects is a genuinely different peer and cannot inherit the
/// dying one's tracks.
#[derive(Debug, Clone, Copy, PartialEq, Eq, Hash, PartialOrd, Ord, Structural)]
pub struct PeerId(pub u64);

impl PeerId {
    /// The id as it is written on the wire.
    pub open spec fn text(self) -> Seq<char> {
        decimal(self.0 as nat)
    }

    pub fn as_string(&self) -> (text: String)
        ensures
            text@ == self.text(),
    {
        decimal_string(self.0)
    }
}

/// Two peers never share a written id.
pub proof fn peer_ids_are_told_apart(a: PeerId, b: PeerId)
    ensures
        a.text() == b.text() ==> a == b,
{
    decimal_is_injective(a.0 as nat, b.0 as nat);
}

#[derive(Debug, Clone, Copy, PartialEq, Eq, Structural)]
pub enum MediaKind {
    Audio,
    Video,
}

impl MediaKind {
    /// How a kind of media is written.
    pub open spec fn spelling(self) -> Seq<char> {
        match self {
            MediaKind::Audio => "audio"@,
            MediaKind::Video => "video"@,
        }
    }

    pub fn label(self) -> (label: &'static str)
        ensures
            label@ == self.spelling(),
    {
        match self {
            MediaKind::Audio => "audio",
            MediaKind::Video => "video",
        }
    }
}

/// How a keyframe is asked for: picture loss indication or full intra request.
#[derive(Debug, Clone, Copy, PartialEq, Eq, Structural)]
pub enum KeyframeKind {
    Pli,
    Fir,
}

/// A track a peer is publishing to us. `mid` names the m-line it arrives on.
#[derive(Debug)]
pub struct TrackIn {
    pub origin: PeerId,
    pub mid: String,
    pub kind: MediaKind,
}

#[verifier::ext_equal]
pub struct TrackInView {
    pub origin: PeerId,
    pub mid: Seq<char>,
    pub kind: MediaKind,
}

impl View for TrackIn {
    type V = TrackInView;

    open spec fn view(&self) -> TrackInView {
        TrackInView { origin: self.origin, mid: self.mid@, kind: self.kind }
    }
}

impl Clone for TrackIn {
    fn clone(&self) -> (copy: Self)
        ensures
            copy@ == self@,
    {
        TrackIn { origin: self.origin, mid: self.mid.clone(), kind: self.kind }
    }
}

/// A published track and when a keyframe was last asked of its publisher, in
/// nanoseconds.
#[derive(Debug)]
pub struct TrackInEntry {
    pub id: TrackIn,
    pub last_keyframe_request: Option<u64>,
}

#[verifier::ext_equal]
pub struct TrackInEntryView {
    pub id: TrackInView,
    pub last_keyframe_request: Option<u64>,
}

impl View for TrackInEntry {
    type V = TrackInEntryView;

    open spec fn view(&self) -> TrackInEntryView {
        TrackInEntryView {
            id: self.id@,
            last_keyframe_request: self.last_keyframe_request,
        }
    }
}

pub open spec fn tracks_in_of(list: Seq<TrackInEntry>) -> Seq<TrackInEntryView> {
    list.map_values(|t: TrackInEntry| t@)
}

/// One publisher's track, as forwarded to one subscriber. The track stays
/// listed when its publisher leaves; the m-line is stopped on the next
/// negotiation, which is what makes a departure self-healing.
#[derive(Debug)]
pub struct TrackOut {
    pub track_in: TrackIn,
    pub state: TrackOutState,
}

/// How far the subscriber's m-line for a track has got.
#[derive(Debug)]
pub enum TrackOutState {
    ToOpen,
    Negotiating(String),
    Open(String),
    ToStop(String),
    NegotiatingStop(String),
}

#[verifier::ext_equal]
pub enum TrackOutStateView {
    ToOpen,
    Negotiating(Seq<char>),
    Open(Seq<char>),
    ToStop(Seq<char>),
    NegotiatingStop(Seq<char>),
}

impl View for TrackOutState {
    type V = TrackOutStateView;

    open spec fn view(&self) -> TrackOutStateView {
        match *self {
            TrackOutState::ToOpen => TrackOutStateView::ToOpen,
            TrackOutState::Negotiating(mid) => TrackOutStateView::Negotiating(mid@),
            TrackOutState::Open(mid) => TrackOutStateView::Open(mid@),
            TrackOutState::ToStop(mid) => TrackOutStateView::ToStop(mid@),
            TrackOutState::NegotiatingStop(mid) => TrackOutStateView::NegotiatingStop(mid@),
        }
    }
}

#[verifier::ext_equal]
pub struct TrackOutView {
    pub track_in: TrackInView,
    pub state: TrackOutStateView,
}

impl View for TrackOut {
    type V = TrackOutView;

    open spec fn view(&self) -> TrackOutView {
        TrackOutView { track_in: self.track_in@, state: self.state@ }
    }
}

impl TrackOutView {
    /// The m-line of a subscription, once it has one.
    pub open spec fn mid(self) -> Option<Seq<char>> {
        match self.state {
            TrackOutStateView::ToOpen => None,
            TrackOutStateView::Negotiating(mid) => Some(mid),
            TrackOutStateView::Open(mid) => Some(mid),
            TrackOutStateView::ToStop(mid) => Some(mid),
            TrackOutStateView::NegotiatingStop(mid) => Some(mid),
        }
    }

    /// The m-line is on its way out.
    pub open spec fn is_stopping(self) -> bool {
        self.state is ToStop || self.state is NegotiatingStop
    }
}

pub open spec fn tracks_out_of(list: Seq<TrackOut>) -> Seq<TrackOutView> {
    list.map_values(|t: TrackOut| t@)
}

/// The text of an optional m-line name.
pub open spec fn mid_text(mid: Option<&String>) -> Option<Seq<char>> {
    match mid {
        Some(mid) => Some(mid@),
        None => None,
    }
}

impl TrackOut {
    pub fn mid(&self) -> (mid: Option<&String>)
        ensures
            mid_text(mid) == self@.mid(),
    {
        match &self.state {
            TrackOutState::ToOpen => None,
            TrackOutState::Negotiating(mid) => Some(mid),
            TrackOutState::Open(mid) => Some(mid),
            TrackOutState::ToStop(mid) => Some(mid),
            TrackOutState::NegotiatingStop(mid) => Some(mid),
        }
    }
}

/// A piece of received media. What routing needs is read off its headers; the
/// frame itself, payload and all, is only ever handed on.
#[derive(Debug)]
pub struct MediaPacket {
    pub mid: String,
    pub contiguous: bool,
    pub audio_level: Option<i8>,
    pub voice_activity: Option<bool>,
    pub frame: MediaData,
}

pub struct MediaPacketView {
    pub mid: Seq<char>,
    pub contiguous: bool,
    pub audio_level: Option<i8>,
    pub voice_activity: Option<bool>,
    pub frame: MediaData,
}

impl View for MediaPacket {
    type V = MediaPacketView;

    open spec fn view(&self) -> MediaPacketView {
        MediaPacketView {
            mid: self.mid@,
            contiguous: self.contiguous,
            audio_level: self.audio_level,
            voice_activity: self.voice_activity,
            frame: self.frame,
        }
    }
}

impl MediaPacketView {
    /// The audio level to pass on with the packet. A level that comes without a
    /// voice flag counts as voice.
    pub open spec fn level(self) -> Option<(i8, bool)> {
        match self.audio_level {
            Some(level) => Some((level, self.is_voiced())),
            None => None,
        }
    }

    pub open spec fn is_voiced(self) -> bool {
        match self.voice_activity {
            Some(voiced) => voiced,
            None => true,
        }
    }
}

/// Something one peer produced that the rest of its room may need. Kept as a
/// value rather than direct calls so the borrow of the producing peer ends
/// before the subscribers are touched.
#[derive(Debug)]
pub enum Propagated {
    Noop,
    /// The peer wants to be woken at this time, in nanoseconds.
    Timeout(u64),
    TrackOpen(PeerId, TrackIn),
    Media(PeerId, Box<MediaPacket>),
    /// Who asks, how, and the publisher with the m-line it publishes on.
    KeyframeRequest(PeerId, KeyframeKind, PeerId, String),
}

pub enum PropagatedView {
    Noop,
    Timeout(u64),
    TrackOpen(PeerId, TrackInView),
    Media(PeerId, MediaPacketView),
    KeyframeRequest(PeerId, KeyframeKind, PeerId, Seq<char>),
}

impl View for Propagated {
    type V = PropagatedView;

    open spec fn view(&self) -> PropagatedView {
        match *self {
            Propagated::Noop => PropagatedView::Noop,
            Propagated::Timeout(at) => PropagatedView::Timeout(at),
            Propagated::TrackOpen(id, track) => PropagatedView::TrackOpen(id, track@),
            Propagated::Media(id, packet) => PropagatedView::Media(id, (*packet)@),
            Propagated::KeyframeRequest(id, kind, publisher, mid) => {
                PropagatedView::KeyframeRequest(id, kind, publisher, mid@)
            },
        }
    }
}

impl PropagatedView {
    pub open spec fn source(self) -> Option<PeerId> {
        match self {
            PropagatedView::TrackOpen(id, _) => Some(id),
            PropagatedView::Media(id, _) => Some(id),
            PropagatedView::KeyframeRequest(id, _, _, _) => Some(id),
            PropagatedView::Noop => None,
            PropagatedView::Timeout(_) => None,
        }
    }
}

pub open spec fn propagated_of(queue: Seq<Propagated>) -> Seq<PropagatedView> {
    queue.map_values(|p: Propagated| p@)
}

impl Propagated {
    /// The peer the event came from, when it is something other peers care about.
    pub fn source(&self) -> (source: Option<PeerId>)
        ensures
            source == self@.source(),
    {
        match self {
            Propagated::TrackOpen(id, _) => Some(*id),
            Propagated::Media(id, _) => Some(*id),
            Propagated::KeyframeRequest(id, _, _, _) => Some(*id),
            Propagated::Noop => None,
            Propagated::Timeout(_) => None,
        }
    }
}

/// Whether a peer is among those present.
pub fn is_present(present: &Vec<PeerId>, id: PeerId) -> (yes: bool)
    ensures
        yes == present@.contains(id),
{
    let mut i: usize = 0;
    while i < present.len()
        invariant
            i <= present@.len(),
            forall|j: int| 0 <= j < i ==> present@[j] != id,
        decreases present@.len() - i,
    {
        if present[i] == id {
            assert(present@[i as int] == id);
            return true;
        }
        i = i + 1;
    }
    false
}

} // verus!
