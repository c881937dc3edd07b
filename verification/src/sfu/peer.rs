//! One participant of a call.
use std::time::Instant;

use str0m::change::{SdpAnswer, SdpOffer};
use str0m::net::Transmit;
use str0m::Input;
use vstd::prelude::*;
use vstd::string::*;

use crate::proto::{PeerInfo, PeerInfoView, ServerMsg, ServerMsgView};
use crate::sfu::negotiate::{
    mappings, mark_departed, marked_all, proposes, settle, settled, track_map,
};
use crate::sfu::outbox::{post, posts_of, Envelope, Post};
use crate::sfu::payloads::Fault;
use crate::sfu::peer_media::{keyframe_origin, media_noted, published};
use crate::sfu::tracks::{
    tracks_in_of, tracks_out_of, MediaKind, PeerId, Propagated, PropagatedView, TrackInEntry,
    TrackInEntryView, TrackOut, TrackOutView,
};
use crate::sfu::transport::{Asked, PendingOffer, Transport};
use crate::sfu::webrtc::{
    added_in, happening_of, input_of, is_wake_up, packet_of, read_event, read_frame, Happening,
    HappeningView, IceState, InputView, Now, Polled,
};
use crate::text::text_of;

verus! {

/// How long a peer stays "speaking" after its last packet above the threshold,
/// in nanoseconds. Short enough to feel live, long enough that DTX gaps do not
/// flicker the ring.
pub const SPEAKING_HOLD: u64 = 600_000_000;

/// How long a peer may sit in ICE `Disconnected` before it is given up on, in
/// nanoseconds.
///
/// `Disconnected` is transient by design: a WiFi blip, a route change, a laptop
/// lid. Killing the peer the instant it appears turns every hiccup into a
/// dropped call. Real clients recover well within this window.
pub const ICE_DISCONNECT_GRACE: u64 = 20_000_000_000;

/// RFC 6464 reports -dBov, so smaller is louder. -50 is roughly "someone is
/// talking" and is what browsers use for their own speaking indicator.
pub const SPEAKING_THRESHOLD_DBOV: i8 = 50;

pub struct Peer {
    pub id: PeerId,
    pub user_id: String,
    pub name: String,
    pub avatar_url: String,
    pub link: Transport,
    pub pending: Option<PendingOffer>,
    pub tracks_in: Vec<TrackInEntry>,
    pub tracks_out: Vec<TrackOut>,
    pub muted: bool,
    pub screen: bool,
    /// True once ICE is up. Media cannot flow before this, so it is the honest
    /// moment to tell the host application somebody actually arrived.
    pub connected: bool,
    /// When ICE last went `Disconnected`, cleared the moment it recovers.
    pub disconnected_since: Option<u64>,
    /// Set once that arrival has been reported, so a reconnect storm cannot
    /// double-report and inflate a participant peak.
    pub reported: bool,
    pub speaking_until: Option<u64>,
}

#[verifier::ext_equal]
pub struct PeerView {
    pub id: PeerId,
    pub user_id: Seq<char>,
    pub name: Seq<char>,
    pub avatar_url: Seq<char>,
    pub link: Transport,
    pub pending: Option<PendingOffer>,
    pub tracks_in: Seq<TrackInEntryView>,
    pub tracks_out: Seq<TrackOutView>,
    pub muted: bool,
    pub screen: bool,
    pub connected: bool,
    pub disconnected_since: Option<u64>,
    pub reported: bool,
    pub speaking_until: Option<u64>,
}

impl View for Peer {
    type V = PeerView;

    open spec fn view(&self) -> PeerView {
        PeerView {
            id: self.id,
            user_id: self.user_id@,
            name: self.name@,
            avatar_url: self.avatar_url@,
            link: self.link,
            pending: self.pending,
            tracks_in: tracks_in_of(self.tracks_in@),
            tracks_out: tracks_out_of(self.tracks_out@),
            muted: self.muted,
            screen: self.screen,
            connected: self.connected,
            disconnected_since: self.disconnected_since,
            reported: self.reported,
            speaking_until: self.speaking_until,
        }
    }
}

/// The clock is far enough from its end for the deadlines that are set by it.
pub open spec fn has_room_ahead(now: Now) -> bool {
    now.nanos <= u64::MAX - SPEAKING_HOLD
}

/// A peer that has just been let in.
pub open spec fn fresh_peer(
    id: PeerId,
    link: Transport,
    user_id: Seq<char>,
    name: Seq<char>,
    avatar_url: Seq<char>,
) -> PeerView {
    PeerView {
        id,
        user_id,
        name,
        avatar_url,
        link,
        pending: None,
        tracks_in: Seq::empty(),
        tracks_out: Seq::empty(),
        muted: false,
        screen: false,
        connected: false,
        disconnected_since: None,
        reported: false,
        speaking_until: None,
    }
}

impl PeerView {
    pub open spec fn info(self) -> PeerInfoView {
        PeerInfoView {
            peer_id: self.id.text(),
            user_id: self.user_id,
            name: self.name,
            avatar_url: self.avatar_url,
            muted: self.muted,
            screen: self.screen,
        }
    }

    /// A disconnect has outlasted the grace period.
    pub open spec fn is_abandoned(self, now: u64) -> bool {
        match self.disconnected_since {
            Some(since) => now - since >= ICE_DISCONNECT_GRACE,
            None => false,
        }
    }

    pub open spec fn is_speaking(self, now: u64) -> bool {
        match self.speaking_until {
            Some(until) => until > now,
            None => false,
        }
    }
}

/// The message that offers a peer a change of its m-lines.
pub open spec fn offer_frame(
    sdp: Seq<char>,
    tracks: Seq<TrackOutView>,
    present: Seq<PeerId>,
) -> ServerMsgView {
    ServerMsgView::Offer { sdp, tracks: mappings(tracks, present) }
}

/// What a negotiation does to a peer, and what it sends to it. Nothing at all
/// while an offer is out or after the session has ended.
pub open spec fn negotiates(
    before: PeerView,
    after: PeerView,
    present: Seq<PeerId>,
    offered: bool,
    sent: Seq<Post>,
) -> bool {
    if before.pending is Some || !before.link.alive() {
        !offered && after == before && sent == Seq::<Post>::empty()
    } else {
        let asked = before.link.asked();
        let marked = marked_all(before.tracks_out, present);
        &&& after == PeerView {
            link: after.link,
            pending: after.pending,
            tracks_out: after.tracks_out,
            ..before
        }
        &&& after.link.alive()
        &&& if offered {
            &&& after.pending is Some
            &&& after.link.asked().len() == asked.len() + 1
            &&& after.link.asked().drop_last() == asked
            &&& after.link.asked().last() matches Asked::Offer { steps, sdp }
            &&& steps.len() > 0
            &&& before.link.offers(steps, sdp, after.pending->0)
            &&& (after.pending->0).awaited() == added_in(steps)
            &&& proposes(marked, after.tracks_out, present, steps)
            &&& sent == seq![Post { to: before.id, message: offer_frame(sdp, after.tracks_out, present) }]
        } else {
            &&& after.pending is None
            &&& after.link.asked() == asked
            &&& proposes(marked, after.tracks_out, present, Seq::empty())
            &&& sent == Seq::<Post>::empty()
        }
    }
}

/// Why an answer was not taken.
#[derive(Debug, PartialEq, Eq)]
pub enum AnswerError {
    /// There was no offer to answer.
    NoPendingOffer,
    /// One of the m-lines that were offered comes twice.
    Indistinct,
    /// A payload type stands for two formats.
    Conflicting,
    /// The session refused it, for this reason.
    Rejected(String),
}

impl AnswerError {
    /// The reason in words.
    pub open spec fn words(&self) -> Seq<char> {
        match *self {
            AnswerError::NoPendingOffer => "no_pending_offer"@,
            AnswerError::Indistinct => "m-lines share a name"@,
            AnswerError::Conflicting => "formats share a payload type"@,
            AnswerError::Rejected(reason) => reason@,
        }
    }

    pub fn message(&self) -> (message: String)
        ensures
            message@ == self.words(),
    {
        match self {
            AnswerError::NoPendingOffer => "no_pending_offer".to_string(),
            AnswerError::Indistinct => "m-lines share a name".to_string(),
            AnswerError::Conflicting => "formats share a payload type".to_string(),
            AnswerError::Rejected(reason) => reason.clone(),
        }
    }
}

/// What an answer does to a peer. Without an offer to answer it does nothing.
/// Otherwise the offer is done with, one way or the other. An answer that the session
/// could not stand never gets to it. If the session takes the answer, the
/// subscriptions come up to date; if not, the session says why.
pub open spec fn is_answered(
    before: PeerView,
    after: PeerView,
    answer: SdpAnswer,
    result: Result<(), AnswerError>,
) -> bool {
    match before.pending {
        None => {
            &&& result == Err::<(), AnswerError>(AnswerError::NoPendingOffer)
            &&& after == before
        },
        Some(pending) => if let Some(fault) = before.link.fault(pending, answer) {
            &&& result == Err::<(), AnswerError>(
                match fault {
                    Fault::Repeats => AnswerError::Indistinct,
                    Fault::Clashes => AnswerError::Conflicting,
                },
            )
            &&& after == PeerView { pending: None, ..before }
        } else {
            let refusal = before.link.refusal(pending, answer);
            let accepted = refusal is None;
            &&& match refusal {
                None => result is Ok,
                Some(text) => result matches Err(AnswerError::Rejected(reason)) && reason@ == text,
            }
            &&& accepted ==> after.link.alive() == before.link.alive()
            &&& after.link.asked() == before.link.asked().push(Asked::Settle { answer, accepted })
            &&& after == PeerView {
                link: after.link,
                pending: None,
                tracks_out: if accepted {
                    settled(before.tracks_out)
                } else {
                    before.tracks_out
                },
                ..before
            }
        },
    }
}

/// What an offer does to a session, and the answer to it, if the session takes it.
/// One that the session could not stand never gets to it.
pub open spec fn is_offered(
    before: Transport,
    after: Transport,
    offer: SdpOffer,
    answer: Option<Seq<char>>,
) -> bool {
    if before.stands(offer) {
        &&& answer is Some <==> before.takes_offer(offer)
        &&& before.replies(offer, answer, after)
        &&& answer is Some ==> after.alive() == before.alive()
        &&& after.asked() == before.asked().push(Asked::Answer { offer, reply: answer })
    } else {
        &&& answer is None
        &&& after == before
    }
}

/// What a change in the state of the connection means for a peer. A loss is
/// only noted, with the time it began: the peer is held so that it can come
/// back.
pub open spec fn ice_noted(peer: PeerView, state: IceState, now: u64) -> PeerView {
    match state {
        IceState::Connected => PeerView { connected: true, disconnected_since: None, ..peer },
        IceState::Completed => PeerView { connected: true, disconnected_since: None, ..peer },
        IceState::Disconnected => PeerView {
            disconnected_since: Some(
                match peer.disconnected_since {
                    Some(since) => since,
                    None => now,
                },
            ),
            ..peer
        },
        _ => peer,
    }
}

/// The kind of media an m-line carries.
pub open spec fn kind_of(audio: bool) -> MediaKind {
    if audio {
        MediaKind::Audio
    } else {
        MediaKind::Video
    }
}

/// The moment so long ahead of now and so long behind it, within the bounds of the
/// clock.
pub open spec fn moment(now: u64, ahead: u64, behind: u64) -> u64 {
    if now + ahead - behind > u64::MAX {
        u64::MAX
    } else if now + ahead < behind {
        0
    } else {
        (now + ahead - behind) as u64
    }
}

/// What a peer makes of something that happened in its session, and what the
/// rest of the room gets to know of it.
pub open spec fn handles(
    before: PeerView,
    happening: HappeningView,
    after: PeerView,
    present: Seq<PeerId>,
    now: u64,
    result: PropagatedView,
) -> bool {
    match happening {
        HappeningView::Ice(state) => {
            &&& after == ice_noted(before, state, now)
            &&& result == PropagatedView::Noop
        },
        HappeningView::MediaAdded { mid, audio } => {
            let note = published(before, mid, kind_of(audio));
            &&& after == note.peer
            &&& result == PropagatedView::TrackOpen(before.id, note.track)
        },
        HappeningView::Media(frame) => {
            &&& media_noted(before, after, packet_of(frame), now)
            &&& result == PropagatedView::Media(before.id, packet_of(frame))
        },
        HappeningView::KeyframeRequest { mid, pli } => {
            &&& after == before
            &&& result == keyframe_origin(before, mid, pli, present)
        },
        HappeningView::Other => after == before && result == PropagatedView::Noop,
    }
}

/// What a peer makes of what its session handed out. A session that fails when
/// polled is closed.
pub open spec fn reacts(
    before: PeerView,
    output: Option<Polled>,
    after: PeerView,
    present: Seq<PeerId>,
    now: u64,
    result: PropagatedView,
    transmitted: Seq<Transmit>,
) -> bool {
    match output {
        Some(Polled::Transmit(transmit)) => {
            &&& after == before
            &&& result == PropagatedView::Noop
            &&& transmitted == seq![transmit]
        },
        Some(Polled::Timeout { ahead, behind }) => {
            &&& after == before
            &&& result == PropagatedView::Timeout(moment(now, ahead, behind))
            &&& transmitted == Seq::<Transmit>::empty()
        },
        Some(Polled::Event(event)) => {
            &&& handles(before, happening_of(event), after, present, now, result)
            &&& transmitted == Seq::<Transmit>::empty()
        },
        None => {
            &&& after == PeerView { link: after.link, ..before }
            &&& !after.link.alive()
            &&& after.link.asked() == before.link.asked().push(Asked::Disconnect)
            &&& result == PropagatedView::Noop
            &&& transmitted == Seq::<Transmit>::empty()
        },
    }
}

/// Whether a session can have this to say, at one time or another.
pub open spec fn can_say(link: Transport, output: Option<Polled>) -> bool {
    exists|now: Instant| #[trigger] link.hands_out(now, output)
}

/// A peer whose session was polled and said something: as before, but for what
/// only the session knows. A session that is closed by then fails or says when to
/// ask again, and one that was closed before only says when to ask again.
pub open spec fn was_polled(before: PeerView, after: PeerView, output: Option<Polled>) -> bool {
    &&& after == PeerView { link: after.link, ..before }
    &&& after.link.asked() == before.link.asked()
    &&& can_say(before.link, output)
    &&& !before.link.alive() ==> !after.link.alive() && is_wake_up(output)
    &&& !after.link.alive() ==> output is None || is_wake_up(output)
}

/// One turn of a live peer: it negotiates, and unless that made an offer it
/// reacts to what its session hands out.
pub open spec fn takes_turn(
    before: PeerView,
    after: PeerView,
    present: Seq<PeerId>,
    now: u64,
    result: PropagatedView,
    sent: Seq<Post>,
    transmitted: Seq<Transmit>,
) -> bool {
    ||| {
        &&& negotiates(before, after, present, true, sent)
        &&& result == PropagatedView::Noop
        &&& transmitted == Seq::<Transmit>::empty()
    }
    ||| exists|settled: PeerView, polled: PeerView, output: Option<Polled>|
        {
            &&& #[trigger] negotiates(before, settled, present, false, sent)
            &&& #[trigger] was_polled(settled, polled, output)
            &&& #[trigger] reacts(polled, output, after, present, now, result, transmitted)
        }
}

/// Whether a session can fail over an input.
pub open spec fn can_fail_over(link: Transport, input: InputView) -> bool {
    exists|fed: Transport| #[trigger] link.feeds(input, false, fed)
}

/// What handing an input to a peer does. A dead session gets none; the input makes
/// of another what it can, and one that fails over it is closed.
pub open spec fn is_fed(before: PeerView, after: PeerView, input: InputView) -> bool {
    if !before.link.alive() {
        after == before
    } else {
        let asked = before.link.asked();
        &&& after == PeerView { link: after.link, ..before }
        &&& {
            ||| {
                &&& before.link.feeds(input, true, after.link)
                &&& after.link.alive()
                &&& after.link.asked() == asked.push(Asked::Input { input, handled: true })
            }
            ||| {
                &&& can_fail_over(before.link, input)
                &&& !after.link.alive()
                &&& after.link.asked() == asked.push(Asked::Input { input, handled: false }).push(
                    Asked::Disconnect,
                )
            }
        }
    }
}

impl Peer {
    pub fn new(
        id: PeerId,
        link: Transport,
        user_id: String,
        name: String,
        avatar_url: String,
    ) -> (peer: Self)
        ensures
            peer@ == fresh_peer(id, link, user_id@, name@, avatar_url@),
    {
        let peer = Peer {
            id,
            user_id,
            name,
            avatar_url,
            link,
            pending: None,
            tracks_in: Vec::new(),
            tracks_out: Vec::new(),
            muted: false,
            screen: false,
            connected: false,
            disconnected_since: None,
            reported: false,
            speaking_until: None,
        };
        assert(peer@.tracks_in =~= Seq::empty());
        assert(peer@.tracks_out =~= Seq::empty());
        peer
    }

    pub fn info(&self) -> (info: PeerInfo)
        ensures
            info@ == self@.info(),
    {
        PeerInfo {
            peer_id: self.id.as_string(),
            user_id: self.user_id.clone(),
            name: self.name.clone(),
            avatar_url: self.avatar_url.clone(),
            muted: self.muted,
            screen: self.screen,
        }
    }

    pub fn send(&self, message: ServerMsg, outbox: &mut Vec<Envelope>)
        ensures
            posts_of(final(outbox)@) == posts_of(old(outbox)@).push(
                Post { to: self@.id, message: message@ },
            ),
    {
        post(outbox, self.id, message);
    }

    /// True once a disconnect has outlasted the grace period.
    pub fn is_abandoned(&self, now: Now) -> (yes: bool)
        ensures
            yes == self@.is_abandoned(now.nanos),
    {
        match self.disconnected_since {
            Some(since) => now.nanos >= since && now.nanos - since >= ICE_DISCONNECT_GRACE,
            None => false,
        }
    }

    pub fn is_speaking(&self, now: Now) -> (yes: bool)
        ensures
            yes == self@.is_speaking(now.nanos),
    {
        match self.speaking_until {
            Some(until) => until > now.nanos,
            None => false,
        }
    }

    pub fn accepts(&self, input: &Input<'_>) -> (yes: bool)
        ensures
            yes == self@.link.takes(input_of(*input)),
    {
        self.link.accepts(input)
    }

    pub fn handle_input(&mut self, input: Input<'_>)
        ensures
            is_fed(old(self)@, final(self)@, input_of(input)),
    {
        if !self.link.is_alive() {
            return;
        }
        let ghost before = self.link;
        let ghost view = input_of(input);
        let handled = self.link.handle_input(input);
        if !handled {
            assert(before.feeds(view, handled, self.link));
            self.link.disconnect();
        }
    }

    /// Brings this peer's subscriptions in line with the room and, if anything
    /// changed, offers. Only the SFU ever offers after the initial exchange, so
    /// there is no glare to resolve on either side.
    ///
    /// Returns true when an offer went out; the caller must then leave this peer
    /// alone until the answer lands.
    pub fn negotiate_if_needed(
        &mut self,
        present: &Vec<PeerId>,
        outbox: &mut Vec<Envelope>,
    ) -> (offered: bool)
        ensures
            posts_of(old(outbox)@).is_prefix_of(posts_of(final(outbox)@)),
            negotiates(
                old(self)@,
                final(self)@,
                present@,
                offered,
                posts_of(final(outbox)@).skip(posts_of(old(outbox)@).len() as int),
            ),
    {
        let ghost posted = posts_of(outbox@);
        assert(posted.skip(posted.len() as int) =~= Seq::empty());
        if self.pending.is_some() || !self.link.is_alive() {
            return false;
        }
        mark_departed(&mut self.tracks_out, present);
        match self.link.offer_changes(&mut self.tracks_out, present) {
            Some((sdp, pending)) => {
                self.pending = Some(pending);
                let tracks = track_map(&self.tracks_out, present);
                self.send(ServerMsg::Offer { sdp, tracks }, outbox);
                proof {
                    let offer = Post {
                        to: self.id,
                        message: offer_frame(sdp@, self@.tracks_out, present@),
                    };
                    assert(posted.push(offer).skip(posted.len() as int) =~= seq![offer]);
                }
                true
            },
            None => false,
        }
    }

    /// Applies the answer to an offer we sent. Anything mid-negotiation becomes
    /// live; anything mid-stop is dropped so its m-line can be recycled.
    pub fn accept_answer(&mut self, answer: SdpAnswer) -> (result: Result<(), AnswerError>)
        ensures
            is_answered(old(self)@, final(self)@, answer, result),
    {
        match self.pending.take() {
            None => Err(AnswerError::NoPendingOffer),
            Some(pending) => {
                match self.link.find_fault(&pending, &answer) {
                    Some(Fault::Repeats) => {
                        return Err(AnswerError::Indistinct);
                    },
                    Some(Fault::Clashes) => {
                        return Err(AnswerError::Conflicting);
                    },
                    None => {},
                }
                match self.link.accept_answer(pending, answer) {
                    None => {
                        settle(&mut self.tracks_out);
                        Ok(())
                    },
                    Some(reason) => Err(AnswerError::Rejected(reason)),
                }
            },
        }
    }

    /// Answers the peer's one and only offer, sent when it joins.
    pub fn accept_offer(&mut self, offer: SdpOffer) -> (answer: Option<String>)
        ensures
            final(self)@ == (PeerView { link: final(self)@.link, ..old(self)@ }),
            is_offered(old(self)@.link, final(self)@.link, offer, text_of(answer)),
    {
        if self.link.can_stand(&offer) {
            self.link.accept_offer(offer)
        } else {
            None
        }
    }

    /// Lets the peer take its turn.
    pub fn poll_output(
        &mut self,
        present: &Vec<PeerId>,
        now: Now,
        outbox: &mut Vec<Envelope>,
        transmits: &mut Vec<Transmit>,
    ) -> (propagated: Propagated)
        requires
            has_room_ahead(now),
        ensures
            posts_of(old(outbox)@).is_prefix_of(posts_of(final(outbox)@)),
            old(transmits)@.is_prefix_of(final(transmits)@),
            if old(self)@.link.alive() {
                takes_turn(
                    old(self)@,
                    final(self)@,
                    present@,
                    now.nanos,
                    propagated@,
                    posts_of(final(outbox)@).skip(posts_of(old(outbox)@).len() as int),
                    final(transmits)@.skip(old(transmits)@.len() as int),
                )
            } else {
                &&& propagated@ == PropagatedView::Noop
                &&& final(self)@ == old(self)@
                &&& posts_of(final(outbox)@) == posts_of(old(outbox)@)
                &&& final(transmits)@ == old(transmits)@
            },
    {
        let ghost start = self@;
        if !self.link.is_alive() {
            return Propagated::Noop;
        }
        // New subscriptions have to be negotiated before any media can flow to
        // them, and an offer must settle before the next one is made.
        assert(transmits@.skip(transmits@.len() as int) =~= Seq::empty());
        if self.negotiate_if_needed(present, outbox) {
            return Propagated::Noop;
        }
        let ghost settled = self@;
        let output = self.link.poll(now);
        let ghost polled = self@;
        assert(settled.link.hands_out(now.instant, output));
        assert(was_polled(settled, polled, output));
        self.handle_output(output, present, now, transmits)
    }

    /// Acts on what the session handed out.
    pub fn handle_output(
        &mut self,
        output: Option<Polled>,
        present: &Vec<PeerId>,
        now: Now,
        transmits: &mut Vec<Transmit>,
    ) -> (propagated: Propagated)
        requires
            has_room_ahead(now),
        ensures
            old(transmits)@.is_prefix_of(final(transmits)@),
            reacts(
                old(self)@,
                output,
                final(self)@,
                present@,
                now.nanos,
                propagated@,
                final(transmits)@.skip(old(transmits)@.len() as int),
            ),
    {
        let ghost queued = transmits@;
        assert(queued.skip(queued.len() as int) =~= Seq::empty());
        match output {
            Some(Polled::Transmit(transmit)) => {
                transmits.push(transmit);
                assert(queued.push(transmit).skip(queued.len() as int) =~= seq![transmit]);
                Propagated::Noop
            },
            Some(Polled::Timeout { ahead, behind }) => {
                let at: u64 = if ahead >= behind {
                    now.nanos.saturating_add(ahead - behind)
                } else {
                    now.nanos.saturating_sub(behind - ahead)
                };
                Propagated::Timeout(at)
            },
            Some(Polled::Event(event)) => {
                let happening = read_event(event);
                self.handle_event(happening, present, now)
            },
            None => {
                self.link.disconnect();
                Propagated::Noop
            },
        }
    }

    /// Acts on something that happened in the session.
    pub fn handle_event(
        &mut self,
        happening: Happening,
        present: &Vec<PeerId>,
        now: Now,
    ) -> (propagated: Propagated)
        requires
            has_room_ahead(now),
        ensures
            handles(old(self)@, happening@, final(self)@, present@, now.nanos, propagated@),
    {
        match happening {
            Happening::Ice(state) => {
                match state {
                    IceState::Connected | IceState::Completed => {
                        self.connected = true;
                        self.disconnected_since = None;
                    },
                    // Transient by design: hold the peer and let it come back.
                    // Only `reap` gives up, once the grace period is spent.
                    IceState::Disconnected => {
                        if self.disconnected_since.is_none() {
                            self.disconnected_since = Some(now.nanos);
                        }
                    },
                    _ => {},
                }
                Propagated::Noop
            },
            Happening::MediaAdded { mid, audio } => {
                let kind = if audio {
                    MediaKind::Audio
                } else {
                    MediaKind::Video
                };
                self.handle_media_added(mid, kind)
            },
            Happening::Media(frame) => {
                let packet = read_frame(frame);
                self.handle_media_data_in(packet, now)
            },
            Happening::KeyframeRequest { mid, pli } => {
                self.handle_incoming_keyframe_request(&mid, pli, present)
            },
            Happening::Other => Propagated::Noop,
        }
    }
}

/// An answer that is not taken is spoken of in these words; one that the session refused,
/// in the session's own.
pub proof fn answer_errors_are_worded(error: AnswerError)
    ensures
        error is NoPendingOffer ==> error.words() == "no_pending_offer"@,
        error is Indistinct ==> error.words() == "m-lines share a name"@,
        error is Conflicting ==> error.words() == "formats share a payload type"@,
        error matches AnswerError::Rejected(reason) ==> error.words() == reason@,
{
}

} // verus!
