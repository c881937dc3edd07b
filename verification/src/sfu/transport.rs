//! One peer's WebRTC session, with a ghost record of what was asked of it.
use std::time::Instant;

use str0m::change::{SdpAnswer, SdpApi, SdpOffer, SdpPendingOffer};
use str0m::media::MediaData;
use str0m::{Candidate, Input, Rtc};
use vstd::prelude::*;
use vstd::string::*;

use crate::names::texts;
use crate::net::Endpoint;
use crate::sfu::negotiate::{propose, proposes};
use crate::sfu::payloads::{
    answer_fault, can_settle, find_fault, numbers_fit, Fault, Format, LineView,
};
use crate::sfu::tracks::{
    tracks_out_of, KeyframeKind, MediaPacket, MediaPacketView, PeerId, TrackOut,
};
use crate::sfu::webrtc::{
    accept_answer, accept_offer, accepts, add_local_candidate, added_in, added_mids, answer_lines,
    as_mid, begin_change, can_answer, can_become, can_begin, can_gain, can_hand_out, can_offer,
    can_write, change_session, disconnect, fitting_format, formats_of, handle_input, has_changes,
    has_line, host_candidate, host_candidate_of, input_of, is_alive, is_wake_up, make_offer,
    match_params, new_rtc, offer_lines, poll_output, proposals, read_answer_lines, read_formats,
    read_offer_lines, refusal_of, request_keyframe, rtc_accepts, rtc_alive, takes_frame,
    takes_keyframe_request, takes_offer, with_audio_level, write_frame, writer, writer_level,
    writer_mid, InputView, Now, Polled, Proposal,
};
use crate::text::text_of;

verus! {

/// What became of a packet meant for an m-line.
#[derive(Debug, Clone, Copy, PartialEq, Eq, Structural)]
pub enum Written {
    /// The session has no such m-line.
    NoLine,
    /// The session cannot carry this kind of frame.
    NoFormat,
    Sent,
    Failed,
}

/// Something that was asked of a session.
pub enum Asked {
    /// To take an address of ours that media may be sent to.
    Candidate { candidate: Candidate },
    /// To answer an offer, and the answer it gave.
    Answer { offer: SdpOffer, reply: Option<Seq<char>> },
    /// To offer a change, and the offer it made.
    Offer { steps: Seq<Proposal>, sdp: Seq<char> },
    /// To settle an offer with its answer.
    Settle { answer: SdpAnswer, accepted: bool },
    /// To take an input.
    Input { input: InputView, handled: bool },
    /// To send a frame on an m-line, with an audio level.
    Frame { mid: Seq<char>, level: Option<(i8, bool)>, frame: MediaData, sent: bool },
    /// To ask the sender on an m-line for a keyframe.
    Keyframe { mid: Seq<char>, kind: KeyframeKind, requested: bool },
    /// To close.
    Disconnect,
}

/// An offer that waits for its answer.
pub struct PendingOffer {
    offer: SdpPendingOffer,
    added: Vec<String>,
}

impl PendingOffer {
    #[verifier::type_invariant]
    spec fn is_consistent(self) -> bool {
        texts(self.added@) == added_mids(self.offer)
    }

    /// The names of the new m-lines that it offers, in order.
    pub closed spec fn awaited(&self) -> Seq<Seq<char>> {
        texts(self.added@)
    }
}

/// A peer's session.
pub struct Transport {
    rtc: Rtc,
    asked: Ghost<Seq<Asked>>,
}

impl Transport {
    /// Whether the session is alive.
    pub closed spec fn alive(&self) -> bool {
        rtc_alive(self.rtc)
    }

    /// What was asked of the session, in order.
    pub closed spec fn asked(&self) -> Seq<Asked> {
        self.asked@
    }

    /// Whether the session takes an input for its own.
    pub closed spec fn takes(&self, input: InputView) -> bool {
        rtc_accepts(self.rtc, input)
    }

    /// Whether the session has an m-line that can be written to.
    pub closed spec fn has_line(&self, mid: Seq<char>) -> bool {
        has_line(self.rtc, mid)
    }

    /// Whether the session has a format for a frame.
    pub closed spec fn has_format(&self, frame: MediaData) -> bool {
        fitting_format(self.rtc, frame) is Some
    }

    /// Whether an m-line takes a frame that the session has a format for.
    pub closed spec fn takes_frame(&self, mid: Seq<char>, frame: MediaData) -> bool {
        takes_frame(self.rtc, as_mid(mid), fitting_format(self.rtc, frame)->0)
    }

    /// Whether polling the session can bring this, with its wake-up time counted
    /// from a moment.
    pub closed spec fn hands_out(&self, now: Instant, output: Option<Polled>) -> bool {
        can_hand_out(self.rtc, now, output)
    }

    /// Whether a keyframe can be asked for on an m-line.
    pub closed spec fn takes_request(&self, mid: Seq<char>, kind: KeyframeKind) -> bool {
        takes_keyframe_request(self.rtc, as_mid(mid), kind)
    }

    /// Whether the session takes an offer.
    pub closed spec fn takes_offer(&self, offer: SdpOffer) -> bool {
        takes_offer(self.rtc, offer)
    }

    /// Why the session refuses to settle an offer with an answer, or nothing where
    /// it does not.
    pub closed spec fn refusal(&self, pending: PendingOffer, answer: SdpAnswer) -> Option<Seq<char>> {
        refusal_of(self.rtc, pending.offer, answer)
    }

    /// The formats of the session, in order.
    pub closed spec fn formats(&self) -> Seq<Format> {
        formats_of(self.rtc)
    }

    /// The m-lines of an offer to the session, in order.
    pub closed spec fn lines_of_offer(&self, offer: SdpOffer) -> Seq<LineView> {
        offer_lines(self.rtc, offer)
    }

    /// The m-lines of an answer to the session, in order.
    pub closed spec fn lines_of_answer(&self, answer: SdpAnswer) -> Seq<LineView> {
        answer_lines(self.rtc, answer)
    }

    /// Whether the session can settle on the payload types of an offer.
    pub open spec fn stands(&self, offer: SdpOffer) -> bool {
        numbers_fit(self.formats(), self.lines_of_offer(offer), true)
    }

    /// What the session cannot stand in an answer to an offer, if there is anything.
    pub open spec fn fault(&self, pending: PendingOffer, answer: SdpAnswer) -> Option<Fault> {
        answer_fault(self.formats(), pending.awaited(), self.lines_of_answer(answer))
    }

    /// Whether this can be a new session, with or without ICE-lite.
    pub closed spec fn is_new(&self, ice_lite: bool, start: Instant) -> bool {
        can_begin(ice_lite, start, self.rtc)
    }

    /// Whether being told of an address of ours can make the session that of
    /// another state.
    pub closed spec fn gains(&self, candidate: Candidate, after: Transport) -> bool {
        can_gain(self.rtc, candidate, after.rtc)
    }

    /// Whether an offer can bring the session to another state, with this answer or
    /// with none.
    pub closed spec fn replies(&self, offer: SdpOffer, answer: Option<Seq<char>>, after: Transport) -> bool {
        can_answer(self.rtc, offer, answer, after.rtc)
    }

    /// Whether an input can bring the session to another state, and go well or not.
    pub closed spec fn feeds(&self, input: InputView, handled: bool, after: Transport) -> bool {
        can_become(self.rtc, input, handled, after.rtc)
    }

    /// Whether the session can offer these steps in these words, with this to wait
    /// for the answer.
    pub closed spec fn offers(&self, steps: Seq<Proposal>, sdp: Seq<char>, pending: PendingOffer) -> bool {
        exists|change: SdpApi<'static>|
            {
                &&& change_session(change) == self.rtc
                &&& proposals(change) == steps
                &&& #[trigger] can_offer(change, sdp, pending.offer)
            }
    }

    /// Whether a frame can be handed to an m-line with an audio level, in the format
    /// that fits it, and be taken or not.
    pub closed spec fn sends(
        &self,
        mid: Seq<char>,
        level: Option<(i8, bool)>,
        frame: MediaData,
        sent: bool,
    ) -> bool {
        can_write(self.rtc, mid, level, fitting_format(self.rtc, frame)->0, frame, sent)
    }

    pub fn new(ice_lite: bool, now: Now) -> (transport: Self)
        ensures
            transport.is_new(ice_lite, now.instant),
            transport.alive(),
            transport.asked() == Seq::<Asked>::empty(),
    {
        Transport { rtc: new_rtc(ice_lite, now.instant), asked: Ghost(Seq::empty()) }
    }

    /// Announces an address for media. One that cannot be a candidate is skipped.
    pub fn announce(&mut self, address: Endpoint, protocol: &str)
        ensures
            announces(*old(self), *final(self), address, protocol@),
    {
        match host_candidate(address, protocol) {
            Some(candidate) => {
                let ghost announced = candidate;
                add_local_candidate(&mut self.rtc, candidate);
                self.asked = Ghost(self.asked@.push(Asked::Candidate { candidate: announced }));
            },
            None => {},
        }
        assert(self.asked@ =~= old(self).asked@ + announcement(address, protocol@));
    }

    pub fn is_alive(&self) -> (alive: bool)
        ensures
            alive == self.alive(),
    {
        is_alive(&self.rtc)
    }

    pub fn disconnect(&mut self)
        ensures
            !final(self).alive(),
            final(self).asked() == old(self).asked().push(Asked::Disconnect),
    {
        disconnect(&mut self.rtc);
        self.asked = Ghost(self.asked@.push(Asked::Disconnect));
    }

    pub fn accepts(&self, input: &Input<'_>) -> (yes: bool)
        ensures
            yes == self.takes(input_of(*input)),
    {
        accepts(&self.rtc, input)
    }

    pub fn handle_input(&mut self, input: Input<'_>) -> (handled: bool)
        ensures
            old(self).feeds(input_of(input), handled, *final(self)),
            final(self).alive() == old(self).alive(),
            final(self).asked() == old(self).asked().push(
                Asked::Input { input: input_of(input), handled },
            ),
    {
        let ghost view = input_of(input);
        let handled = handle_input(&mut self.rtc, input);
        self.asked = Ghost(self.asked@.push(Asked::Input { input: view, handled }));
        handled
    }

    /// Hands on what the session has to say. Polling asks nothing of a session. It
    /// can find it closed, and then it fails or says when to ask again; a session
    /// that was closed before only says when to ask again.
    pub fn poll(&mut self, now: Now) -> (output: Option<Polled>)
        ensures
            old(self).hands_out(now.instant, output),
            !old(self).alive() ==> !final(self).alive() && is_wake_up(output),
            !final(self).alive() ==> output is None || is_wake_up(output),
            final(self).asked() == old(self).asked(),
    {
        poll_output(&mut self.rtc, now.instant)
    }

    /// Whether the session can settle on the payload types of an offer.
    pub fn can_stand(&self, offer: &SdpOffer) -> (yes: bool)
        ensures
            yes == self.stands(*offer),
    {
        let formats = read_formats(&self.rtc);
        let lines = read_offer_lines(&self.rtc, offer);
        can_settle(&formats, &lines, true)
    }

    /// What the session cannot stand in an answer to an offer, if there is anything.
    pub fn find_fault(&self, pending: &PendingOffer, answer: &SdpAnswer) -> (fault: Option<Fault>)
        ensures
            fault == self.fault(*pending, *answer),
    {
        let formats = read_formats(&self.rtc);
        let lines = read_answer_lines(&self.rtc, answer);
        find_fault(&formats, &pending.added, &lines)
    }

    pub fn accept_offer(&mut self, offer: SdpOffer) -> (answer: Option<String>)
        requires
            old(self).stands(offer),
        ensures
            old(self).replies(offer, text_of(answer), *final(self)),
            answer is Some <==> old(self).takes_offer(offer),
            answer is Some ==> final(self).alive() == old(self).alive(),
            final(self).asked() == old(self).asked().push(
                Asked::Answer { offer, reply: text_of(answer) },
            ),
    {
        let answer = accept_offer(&mut self.rtc, offer);
        self.asked = Ghost(
            self.asked@.push(Asked::Answer { offer, reply: text_of(answer) }),
        );
        answer
    }

    /// Settles an offer with its answer, or says why not.
    pub fn accept_answer(&mut self, pending: PendingOffer, answer: SdpAnswer) -> (refusal: Option<String>)
        requires
            old(self).fault(pending, answer) is None,
        ensures
            text_of(refusal) == old(self).refusal(pending, answer),
            refusal is None ==> final(self).alive() == old(self).alive(),
            final(self).asked() == old(self).asked().push(
                Asked::Settle { answer, accepted: refusal is None },
            ),
    {
        proof {
            use_type_invariant(&pending);
        }
        let refusal = accept_answer(&mut self.rtc, pending.offer, answer);
        self.asked = Ghost(self.asked@.push(Asked::Settle { answer, accepted: refusal is None }));
        refusal
    }

    /// Asks the sender on an m-line for a keyframe, if there is such an m-line.
    pub fn request_keyframe(&mut self, mid: &str, kind: KeyframeKind) -> (requested: bool)
        ensures
            final(self).alive() == old(self).alive(),
            requested == (old(self).has_line(mid@) && old(self).takes_request(mid@, kind)),
            final(self).asked() == if old(self).has_line(mid@) {
                old(self).asked().push(Asked::Keyframe { mid: as_mid(mid@), kind, requested })
            } else {
                old(self).asked()
            },
    {
        let ghost mut record = self.asked@;
        let requested = match writer(&mut self.rtc, mid) {
            Some(mut writer) => {
                let ghost line = writer_mid(writer);
                let requested = request_keyframe(&mut writer, kind);
                proof {
                    record = record.push(Asked::Keyframe { mid: line, kind, requested });
                }
                requested
            },
            None => false,
        };
        self.asked = Ghost(record);
        requested
    }

    /// Sends a received packet on an m-line: its own frame, and its own audio
    /// level if it has one.
    pub fn write(&mut self, mid: &str, packet: &MediaPacket) -> (written: Written)
        ensures
            final(self).alive() == old(self).alive(),
            written == (if !old(self).has_line(mid@) {
                Written::NoLine
            } else if !old(self).has_format(packet@.frame) {
                Written::NoFormat
            } else if old(self).takes_frame(mid@, packet@.frame) {
                Written::Sent
            } else {
                Written::Failed
            }),
            !old(self).alive() ==> written is NoLine,
            written is Sent || written is Failed ==> old(self).sends(
                as_mid(mid@),
                packet@.level(),
                packet@.frame,
                written is Sent,
            ),
            final(self).asked() == (match written {
                Written::NoLine => old(self).asked(),
                Written::NoFormat => old(self).asked(),
                Written::Sent => old(self).asked().push(frame_sent(mid@, packet@, true)),
                Written::Failed => old(self).asked().push(frame_sent(mid@, packet@, false)),
            }),
    {
        let ghost mut record = self.asked@;
        let written = match writer(&mut self.rtc, mid) {
            Some(writer) => match match_params(&writer, &packet.frame) {
                Some(format) => {
                    let voiced = match packet.voice_activity {
                        Some(voiced) => voiced,
                        None => true,
                    };
                    let writer = match packet.audio_level {
                        Some(level) => with_audio_level(writer, level, voiced),
                        None => writer,
                    };
                    let ghost line = writer_mid(writer);
                    let ghost level = writer_level(writer);
                    let sent = write_frame(writer, format, &packet.frame);
                    proof {
                        record = record.push(
                            Asked::Frame { mid: line, level, frame: packet.frame, sent },
                        );
                    }
                    if sent {
                        Written::Sent
                    } else {
                        Written::Failed
                    }
                },
                None => Written::NoFormat,
            },
            None => Written::NoLine,
        };
        self.asked = Ghost(record);
        written
    }

    /// Offers what a list of subscriptions needs, if it needs anything.
    pub fn offer_changes(&mut self, tracks: &mut Vec<TrackOut>, present: &Vec<PeerId>) -> (offer: Option<
        (String, PendingOffer),
    >)
        ensures
            final(self).alive() == old(self).alive(),
            match offer {
                Some((sdp, pending)) => {
                    &&& final(self).asked().len() == old(self).asked().len() + 1
                    &&& final(self).asked().drop_last() == old(self).asked()
                    &&& final(self).asked().last() matches Asked::Offer { steps, sdp: made }
                    &&& made == sdp@
                    &&& old(self).offers(steps, sdp@, pending)
                    &&& pending.awaited() == added_in(steps)
                    &&& steps.len() > 0
                    &&& proposes(
                        tracks_out_of(old(tracks)@),
                        tracks_out_of(final(tracks)@),
                        present@,
                        steps,
                    )
                },
                None => {
                    &&& final(self).asked() == old(self).asked()
                    &&& proposes(
                        tracks_out_of(old(tracks)@),
                        tracks_out_of(final(tracks)@),
                        present@,
                        Seq::empty(),
                    )
                },
            },
    {
        let ghost record = self.asked@;
        let ghost session = self.rtc;
        let mut change = begin_change(&mut self.rtc);
        let added = propose(&mut change, tracks, present);
        let ghost steps = proposals(change);
        if !has_changes(&change) {
            assert(steps =~= Seq::empty());
            return None;
        }
        let ghost offered = change;
        match make_offer(change) {
            Some((sdp, offer)) => {
                assert(change_session(offered) == session && can_offer(offered, sdp@, offer));
                self.asked = Ghost(self.asked@.push(Asked::Offer { steps, sdp: sdp@ }));
                assert(self.asked@.drop_last() =~= record);
                Some((sdp, PendingOffer { offer, added }))
            },
            None => None,
        }
    }
}

/// What is asked of a session when an address is announced.
pub open spec fn announcement(address: Endpoint, protocol: Seq<char>) -> Seq<Asked> {
    match host_candidate_of(address, protocol) {
        Some(candidate) => seq![Asked::Candidate { candidate }],
        None => Seq::empty(),
    }
}

/// What announcing an address does to a session. One that cannot be a candidate
/// leaves it as it is.
pub open spec fn announces(
    before: Transport,
    after: Transport,
    address: Endpoint,
    protocol: Seq<char>,
) -> bool {
    &&& after.alive() == before.alive()
    &&& after.asked() == before.asked() + announcement(address, protocol)
    &&& match host_candidate_of(address, protocol) {
        Some(candidate) => before.gains(candidate, after),
        None => after == before,
    }
}

/// The record of a packet's frame and level having been handed to the m-line of a
/// name.
pub open spec fn frame_sent(mid: Seq<char>, packet: MediaPacketView, sent: bool) -> Asked {
    Asked::Frame { mid: as_mid(mid), level: packet.level(), frame: packet.frame, sent }
}

} // verus!
