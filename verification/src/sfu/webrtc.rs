//! The WebRTC stack, as far as the media loop calls into it.
//!
//! Everything here is taken on trust: each function makes one call into `str0m`
//! and states what the rest of the crate relies on. A session is opaque. Every
//! session comes from `new_rtc`, so none is in RTP mode, which some of the calls
//! would not stand.
use std::time::Instant;

use str0m::change::{SdpAnswer, SdpApi, SdpOffer, SdpPendingOffer};
use str0m::format::CodecConfig;
use str0m::media::{KeyframeRequestKind, MediaData, Mid, Pt, Writer};
use str0m::net::{Protocol, Receive, Transmit};
use str0m::{Candidate, Event, IceConnectionState, Input, Output, Rtc};
use vstd::prelude::*;
use vstd::string::*;

use crate::net::{Endpoint, Ip};
use crate::sfu::payloads::{answer_fault, lines_of, numbers_fit, Format, Line, LineView, Payload};
use crate::sfu::tracks::{KeyframeKind, MediaKind, MediaPacket, MediaPacketView};
use crate::text::text_of;

verus! {

/// `std::time::Instant`: a reading of the monotonic clock.
#[verifier::external_type_specification]
#[verifier::external_body]
pub struct ExInstant(Instant);

/// `str0m::Rtc`: one WebRTC session.
#[verifier::external_type_specification]
#[verifier::external_body]
pub struct ExRtc(Rtc);

/// `str0m::Candidate`: an ICE candidate.
#[verifier::external_type_specification]
#[verifier::external_body]
pub struct ExCandidate(Candidate);

/// `str0m::Input`: a tick of the clock or a datagram, for a session to consume.
#[verifier::external_type_specification]
#[verifier::external_body]
pub struct ExInput<'a>(Input<'a>);

/// `str0m::net::Transmit`: a datagram to be sent.
#[verifier::external_type_specification]
#[verifier::external_body]
pub struct ExTransmit(Transmit);

/// `str0m::change::SdpOffer`: a parsed offer.
#[verifier::external_type_specification]
#[verifier::external_body]
pub struct ExSdpOffer(SdpOffer);

/// `str0m::change::SdpAnswer`: a parsed answer.
#[verifier::external_type_specification]
#[verifier::external_body]
pub struct ExSdpAnswer(SdpAnswer);

/// `str0m::change::SdpPendingOffer`: an offer that waits for its answer.
#[verifier::external_type_specification]
#[verifier::external_body]
pub struct ExSdpPendingOffer(SdpPendingOffer);

/// `str0m::change::SdpApi`: a change to a session's m-lines in the making.
#[verifier::external_type_specification]
#[verifier::external_body]
pub struct ExSdpApi<'a>(SdpApi<'a>);

/// `str0m::media::Writer`: access to one m-line of a session.
#[verifier::external_type_specification]
#[verifier::external_body]
pub struct ExWriter<'a>(Writer<'a>);

/// `str0m::media::Pt`: a negotiated payload type.
#[verifier::external_type_specification]
#[verifier::external_body]
pub struct ExPt(Pt);

/// `str0m::Event`: something that happened in a session.
#[verifier::external_type_specification]
#[verifier::external_body]
pub struct ExEvent(Event);

/// `str0m::media::MediaData`: one received frame.
#[verifier::external_type_specification]
#[verifier::external_body]
pub struct ExMediaData(MediaData);

/// The time, twice: as the clock reads it, for the WebRTC stack, and in
/// nanoseconds since some fixed moment, for the rules of this crate.
#[derive(Debug, Clone, Copy)]
pub struct Now {
    pub instant: Instant,
    pub nanos: u64,
}

/// Whether a session is alive.
pub uninterp spec fn rtc_alive(rtc: Rtc) -> bool;

/// What an input is.
#[verifier::ext_equal]
pub enum InputView {
    Tick,
    Datagram { source: Endpoint, destination: Endpoint, bytes: Seq<u8> },
}

/// What an input holds, apart from the time it came.
pub uninterp spec fn input_of(input: Input<'_>) -> InputView;

/// Whether a session takes an input for its own.
pub uninterp spec fn rtc_accepts(rtc: Rtc, input: InputView) -> bool;

/// What a text says as an offer, or nothing where it is none.
pub uninterp spec fn offer_of(sdp: Seq<char>) -> Option<SdpOffer>;

/// What a text says as an answer, or nothing where it is none.
pub uninterp spec fn answer_of(sdp: Seq<char>) -> Option<SdpAnswer>;

/// One step of a change to a session.
#[verifier::ext_equal]
pub enum Proposal {
    /// A new m-line that only sends, with the names of its stream and track.
    Add { mid: Seq<char>, kind: MediaKind, stream: Seq<char>, track: Seq<char> },
    /// No more media on an m-line.
    Stop { mid: Seq<char> },
}

/// The steps gathered so far in a change to a session.
pub uninterp spec fn proposals(change: SdpApi<'_>) -> Seq<Proposal>;

/// The session a change was begun on, as it was then.
pub uninterp spec fn change_session(change: SdpApi<'_>) -> Rtc;

/// The session a writer was taken from, as it was then.
pub uninterp spec fn writer_session(writer: Writer<'_>) -> Rtc;

/// The m-line a writer writes to.
pub uninterp spec fn writer_mid(writer: Writer<'_>) -> Seq<char>;

/// The audio level a writer attaches to what it writes.
pub uninterp spec fn writer_level(writer: Writer<'_>) -> Option<(i8, bool)>;

/// A character that may stand in the name of a stream or track.
pub open spec fn is_token_char(c: char) -> bool {
    ||| c == '-'
    ||| ('0' <= c && c <= '9')
    ||| ('A' <= c && c <= 'Z')
    ||| ('a' <= c && c <= 'z')
}

/// A text that can name a stream or track as it stands.
pub open spec fn is_token(text: Seq<char>) -> bool {
    text.len() <= 64 && forall|i: int| 0 <= i < text.len() ==> is_token_char(#[trigger] text[i])
}

/// The character that stands for one in the name of an m-line.
pub open spec fn mid_char(c: char) -> char {
    if ('0' <= c && c <= '9') || ('A' <= c && c <= 'Z') || ('a' <= c && c <= 'z') {
        c
    } else {
        '_'
    }
}

/// The m-line that a text is read as the name of: letters and digits count,
/// anything else is an underscore, and nothing beyond the 16th character counts.
pub open spec fn as_mid(text: Seq<char>) -> Seq<char> {
    let name = text.map_values(|c: char| mid_char(c));
    if name.len() <= 16 {
        name
    } else {
        name.take(16)
    }
}

/// Calls `str0m::change::SdpOffer::from_sdp_string`, which parses the text and
/// depends on nothing else.
#[verifier::external_body]
pub(crate) fn parse_offer(sdp: &str) -> (offer: Option<SdpOffer>)
    ensures
        offer == offer_of(sdp@),
{
    SdpOffer::from_sdp_string(sdp).ok()
}

/// Calls `str0m::change::SdpAnswer::from_sdp_string`, which parses the text and
/// depends on nothing else.
#[verifier::external_body]
pub(crate) fn parse_answer(sdp: &str) -> (answer: Option<SdpAnswer>)
    ensures
        answer == answer_of(sdp@),
{
    SdpAnswer::from_sdp_string(sdp).ok()
}

/// The formats of a session, in order.
pub uninterp spec fn formats_of(rtc: Rtc) -> Seq<Format>;

/// Reads the formats off `str0m::Rtc::codec_config`. That the numbers of one are
/// settled is what str0m calls locked, and says only in what it writes down with
/// `serde_json::to_value`.
#[verifier::external_body]
pub(crate) fn read_formats(rtc: &Rtc) -> (formats: Vec<Format>)
    ensures
        formats@ == formats_of(*rtc),
{
    rtc.codec_config().params().iter().map(|own| Format {
        number: *own.pt(),
        resend: own.resend().map(|pt| *pt),
        red: own.red().map(|pt| *pt),
        settled: serde_json::to_value(own).is_ok_and(|fields| fields["locked"] == true),
    }).collect()
}

/// The m-lines of an offer to a session, in order.
pub uninterp spec fn offer_lines(rtc: Rtc, offer: SdpOffer) -> Seq<LineView>;

/// Reads the m-lines off a `str0m::change::SdpOffer`: which of them the session has
/// by `str0m::Rtc::media`, and what they offer for each of its formats, as listed by
/// `str0m::Rtc::codec_config`, by `str0m::format::CodecConfig::match_params`. Parsing
/// takes no m-line without a name.
#[verifier::external_body]
pub(crate) fn read_offer_lines(rtc: &Rtc, offer: &SdpOffer) -> (lines: Vec<Line>)
    ensures
        lines_of(lines@) == offer_lines(*rtc, *offer),
{
    offer.media_lines.iter().map(|line| {
        let offered = CodecConfig::new_from_payload_params(line.rtp_params());
        Line {
            mid: line.mid().to_string(),
            media: line.typ.is_media(),
            known: rtc.media(line.mid()).is_some(),
            sends: line.direction().is_sending(),
            receives: line.direction().is_receiving(),
            payloads: rtc.codec_config().params().iter().map(|own| Payload {
                format: *own.pt(),
                number: offered.match_params(*own).map(|p| *p.pt()),
                resend: offered.match_params(*own).and_then(|p| p.resend()).map(|pt| *pt),
            }).collect(),
        }
    }).collect()
}

/// The m-lines of an answer to a session, in order.
pub uninterp spec fn answer_lines(rtc: Rtc, answer: SdpAnswer) -> Seq<LineView>;

/// Reads the m-lines off a `str0m::change::SdpAnswer`, as they are read off an
/// offer.
#[verifier::external_body]
pub(crate) fn read_answer_lines(rtc: &Rtc, answer: &SdpAnswer) -> (lines: Vec<Line>)
    ensures
        lines_of(lines@) == answer_lines(*rtc, *answer),
{
    answer.media_lines.iter().map(|line| {
        let offered = CodecConfig::new_from_payload_params(line.rtp_params());
        Line {
            mid: line.mid().to_string(),
            media: line.typ.is_media(),
            known: rtc.media(line.mid()).is_some(),
            sends: line.direction().is_sending(),
            receives: line.direction().is_receiving(),
            payloads: rtc.codec_config().params().iter().map(|own| Payload {
                format: *own.pt(),
                number: offered.match_params(*own).map(|p| *p.pt()),
                resend: offered.match_params(*own).and_then(|p| p.resend()).map(|pt| *pt),
            }).collect(),
        }
    }).collect()
}

/// Whether a session made with or without ICE-lite can be this one.
pub uninterp spec fn can_begin(ice_lite: bool, start: Instant, rtc: Rtc) -> bool;

/// Calls `str0m::RtcConfig::build` on the default configuration with
/// `set_ice_lite`: a new session is alive. Its keys and credentials are drawn at
/// random, so it is only one that can be made so.
#[verifier::external_body]
pub(crate) fn new_rtc(ice_lite: bool, start: Instant) -> (rtc: Rtc)
    ensures
        can_begin(ice_lite, start, rtc),
        rtc_alive(rtc),
{
    Rtc::builder().set_ice_lite(ice_lite).build(start)
}

/// The host candidate for an address, or nothing where there can be none.
pub uninterp spec fn host_candidate_of(address: Endpoint, protocol: Seq<char>) -> Option<Candidate>;

/// Calls `str0m::Candidate::host`, which refuses addresses that cannot be
/// reached, such as the unspecified one, and protocols it does not know. The
/// candidate depends on the two alone.
#[verifier::external_body]
pub(crate) fn host_candidate(address: Endpoint, protocol: &str) -> (candidate: Option<Candidate>)
    ensures
        candidate == host_candidate_of(address, protocol@),
{
    let address = match address.ip {
        Ip::V4(octets) => (octets, address.port).into(),
        Ip::V6(octets) => (octets, address.port).into(),
    };
    Candidate::host(address, protocol).ok()
}

/// Whether telling a session of an address of ours can make it this one.
pub uninterp spec fn can_gain(before: Rtc, candidate: Candidate, after: Rtc) -> bool;

/// Calls `str0m::Rtc::add_local_candidate`, which tells the ICE agent of an
/// address of ours. What the agent makes of it is left open. The session is as
/// alive as it was.
#[verifier::external_body]
pub(crate) fn add_local_candidate(rtc: &mut Rtc, candidate: Candidate)
    ensures
        can_gain(*old(rtc), candidate, *final(rtc)),
        rtc_alive(*final(rtc)) == rtc_alive(*old(rtc)),
{
    rtc.add_local_candidate(candidate);
}

/// Whether a session takes an offer.
pub uninterp spec fn takes_offer(rtc: Rtc, offer: SdpOffer) -> bool;

/// Whether an offer can bring a session to give this answer, or none, and make it
/// this session.
pub uninterp spec fn can_answer(before: Rtc, offer: SdpOffer, answer: Option<Seq<char>>, after: Rtc) -> bool;

/// Calls `str0m::change::SdpApi::accept_offer` and writes the answer down.
/// Whether the offer is taken is decided by the session and the offer; what the
/// answer says is partly drawn at random, so it is only one that the session can
/// give. A session that refuses an offer may be closed by it. The call panics where a
/// payload type would stand for two formats.
#[verifier::external_body]
pub(crate) fn accept_offer(rtc: &mut Rtc, offer: SdpOffer) -> (answer: Option<String>)
    requires
        numbers_fit(formats_of(*old(rtc)), offer_lines(*old(rtc), offer), true),
    ensures
        can_answer(*old(rtc), offer, text_of(answer), *final(rtc)),
        answer is Some <==> takes_offer(*old(rtc), offer),
        answer is Some ==> rtc_alive(*final(rtc)) == rtc_alive(*old(rtc)),
{
    rtc.sdp_api().accept_offer(offer).ok().map(|answer| answer.to_sdp_string())
}

/// Why a session refuses an answer to an offer it made, in words, or nothing where
/// it takes it.
pub uninterp spec fn refusal_of(rtc: Rtc, pending: SdpPendingOffer, answer: SdpAnswer) -> Option<Seq<char>>;

/// Calls `str0m::change::SdpApi::accept_answer` and writes the error down if there
/// is one. Whether the answer is taken, and why not, is decided by the session,
/// the offer and the answer. The call panics where the new m-lines are as many as
/// were offered and go by their names, but one of them comes twice, or a payload type
/// would stand for two formats. Other new m-lines it refuses before that. A session
/// that refuses an answer may be closed by it.
#[verifier::external_body]
pub(crate) fn accept_answer(
    rtc: &mut Rtc,
    pending: SdpPendingOffer,
    answer: SdpAnswer,
) -> (refusal: Option<String>)
    requires
        answer_fault(
            formats_of(*old(rtc)),
            added_mids(pending),
            answer_lines(*old(rtc), answer),
        ) is None,
    ensures
        text_of(refusal) == refusal_of(*old(rtc), pending, answer),
        refusal is None ==> rtc_alive(*final(rtc)) == rtc_alive(*old(rtc)),
{
    rtc.sdp_api().accept_answer(pending, answer).err().map(|error| error.to_string())
}

/// Calls `str0m::Rtc::is_alive`.
#[verifier::external_body]
pub(crate) fn is_alive(rtc: &Rtc) -> (alive: bool)
    ensures
        alive == rtc_alive(*rtc),
{
    rtc.is_alive()
}

/// Calls `str0m::Rtc::disconnect`, after which the session is not alive.
#[verifier::external_body]
pub(crate) fn disconnect(rtc: &mut Rtc)
    ensures
        !rtc_alive(*final(rtc)),
{
    rtc.disconnect()
}

/// Calls `str0m::Rtc::sdp_api`, which begins an empty change. Adding and
/// stopping m-lines and making the offer leave the session as alive as it was.
#[verifier::external_body]
pub(crate) fn begin_change<'a>(rtc: &'a mut Rtc) -> (change: SdpApi<'a>)
    ensures
        proposals(change) == Seq::<Proposal>::empty(),
        change_session(change) == *old(rtc),
        rtc_alive(*final(rtc)) == rtc_alive(*old(rtc)),
{
    rtc.sdp_api()
}

/// Calls `str0m::change::SdpApi::add_media` for an m-line that only sends. The
/// change gains that m-line, under a name drawn at random. Names of streams and
/// tracks are kept as they are: the call drops characters that cannot stand in
/// one and all beyond the 64th, and here there are none.
#[verifier::external_body]
pub(crate) fn add_sender(
    change: &mut SdpApi<'_>,
    kind: MediaKind,
    stream: &str,
    track: &str,
) -> (mid: String)
    requires
        is_token(stream@),
        is_token(track@),
    ensures
        proposals(*final(change)) == proposals(*old(change)).push(
            Proposal::Add { mid: mid@, kind, stream: stream@, track: track@ },
        ),
        change_session(*final(change)) == change_session(*old(change)),
{
    let kind = match kind {
        MediaKind::Audio => str0m::media::MediaKind::Audio,
        MediaKind::Video => str0m::media::MediaKind::Video,
    };
    let direction = str0m::media::Direction::SendOnly;
    change.add_media(kind, direction, Some(stream.to_string()), Some(track.to_string()), None).to_string()
}

/// Whether stopping an m-line changes anything about the session.
pub uninterp spec fn stop_matters(change: SdpApi<'_>, mid: Seq<char>) -> bool;

/// Calls `str0m::change::SdpApi::stop_media` for the m-line that `Mid::from`
/// reads off the name. The change gains a step only where the session has that
/// m-line and it still carries media.
#[verifier::external_body]
pub(crate) fn stop_media(change: &mut SdpApi<'_>, mid: &str)
    ensures
        proposals(*final(change)) == if stop_matters(*old(change), mid@) {
            proposals(*old(change)).push(Proposal::Stop { mid: as_mid(mid@) })
        } else {
            proposals(*old(change))
        },
        change_session(*final(change)) == change_session(*old(change)),
{
    change.stop_media(Mid::from(mid))
}

/// Calls `str0m::change::SdpApi::has_changes`.
#[verifier::external_body]
pub(crate) fn has_changes(change: &SdpApi<'_>) -> (yes: bool)
    ensures
        yes == (proposals(*change).len() > 0),
{
    change.has_changes()
}

/// The names of the new m-lines that a pending offer offers, in order.
pub uninterp spec fn added_mids(pending: SdpPendingOffer) -> Seq<Seq<char>>;

/// The names of the m-lines that steps add, in order.
pub open spec fn added_in(steps: Seq<Proposal>) -> Seq<Seq<char>>
    decreases steps.len(),
{
    if steps.len() == 0 {
        Seq::empty()
    } else {
        let rest = added_in(steps.drop_last());
        match steps.last() {
            Proposal::Add { mid, .. } => rest.push(mid),
            Proposal::Stop { .. } => rest,
        }
    }
}

/// Whether a change can be offered in these words, with this to wait for the
/// answer.
pub uninterp spec fn can_offer(change: SdpApi<'_>, sdp: Seq<char>, pending: SdpPendingOffer) -> bool;

/// Calls `str0m::change::SdpApi::apply` and writes the offer down. Every step
/// of a change has to be negotiated, so there is an offer exactly if there is a
/// step. What it says is partly drawn at random, so it is only one that can be
/// made of this change. What waits for the answer holds the steps, and so the new
/// m-lines.
#[verifier::external_body]
pub(crate) fn make_offer(change: SdpApi<'_>) -> (offer: Option<(String, SdpPendingOffer)>)
    ensures
        offer is Some <==> proposals(change).len() > 0,
        offer matches Some((sdp, pending)) ==> can_offer(change, sdp@, pending) && added_mids(pending)
            == added_in(proposals(change)),
{
    change.apply().map(|made| (made.0.to_sdp_string(), made.1))
}

/// What a session hands out when it is polled.
pub enum Polled {
    /// Send this datagram.
    Transmit(Transmit),
    /// Nothing to do until a moment so many nanoseconds ahead or, once it has passed,
    /// so many behind.
    Timeout { ahead: u64, behind: u64 },
    /// Something happened.
    Event(Event),
}

/// Nothing but a wake-up time came out.
pub open spec fn is_wake_up(output: Option<Polled>) -> bool {
    match output {
        Some(Polled::Timeout { .. }) => true,
        _ => false,
    }
}

/// Whether polling a session can bring this, with its wake-up time counted from a
/// moment; nothing stands for a failure.
pub uninterp spec fn can_hand_out(rtc: Rtc, now: Instant, output: Option<Polled>) -> bool;

/// Calls `str0m::Rtc::poll_output`. What a session has to say rests on chance and
/// on what the network brought it, so it is only something that this session can
/// have to say. A session that is not alive has only a wake-up time to tell and
/// does not come back; one that is closed in polling fails or tells a wake-up
/// time. A wake-up time is handed on as the time until then and the time since, of
/// which at least one is none.
#[verifier::external_body]
pub(crate) fn poll_output(rtc: &mut Rtc, now: Instant) -> (output: Option<Polled>)
    ensures
        can_hand_out(*old(rtc), now, output),
        !rtc_alive(*old(rtc)) ==> !rtc_alive(*final(rtc)) && is_wake_up(output),
        !rtc_alive(*final(rtc)) ==> output is None || is_wake_up(output),
        output matches Some(Polled::Timeout { ahead, behind }) ==> ahead == 0 || behind == 0,
{
    Some(match rtc.poll_output().ok()? {
        Output::Transmit(transmit) => Polled::Transmit(transmit),
        Output::Timeout(at) => Polled::Timeout {
            ahead: u64::try_from(at.saturating_duration_since(now).as_nanos()).unwrap_or(u64::MAX),
            behind: u64::try_from(now.saturating_duration_since(at).as_nanos()).unwrap_or(u64::MAX),
        },
        Output::Event(event) => Polled::Event(event),
    })
}

/// How the connection to a peer is doing.
#[derive(Debug, Clone, Copy, PartialEq, Eq, Structural)]
pub enum IceState {
    New,
    Checking,
    Connected,
    Completed,
    Disconnected,
}

/// What happened in a session.
pub enum Happening {
    Ice(IceState),
    MediaAdded { mid: String, audio: bool },
    Media(MediaData),
    KeyframeRequest { mid: String, pli: bool },
    /// Something the media loop has no use for.
    Other,
}

#[verifier::ext_equal]
pub enum HappeningView {
    Ice(IceState),
    MediaAdded { mid: Seq<char>, audio: bool },
    Media(MediaData),
    KeyframeRequest { mid: Seq<char>, pli: bool },
    Other,
}

impl View for Happening {
    type V = HappeningView;

    open spec fn view(&self) -> HappeningView {
        match *self {
            Happening::Ice(state) => HappeningView::Ice(state),
            Happening::MediaAdded { mid, audio } => HappeningView::MediaAdded { mid: mid@, audio },
            Happening::Media(frame) => HappeningView::Media(frame),
            Happening::KeyframeRequest { mid, pli } => HappeningView::KeyframeRequest { mid: mid@, pli },
            Happening::Other => HappeningView::Other,
        }
    }
}

/// What an event says.
pub uninterp spec fn happening_of(event: Event) -> HappeningView;

/// Reads a `str0m::Event`: one arm for each variant that matters here, with the
/// outside enums it holds told apart.
#[verifier::external_body]
pub(crate) fn read_event(event: Event) -> (happening: Happening)
    ensures
        happening@ == happening_of(event),
{
    match event {
        Event::IceConnectionStateChange(state) => Happening::Ice(match state {
            IceConnectionState::New => IceState::New,
            IceConnectionState::Checking => IceState::Checking,
            IceConnectionState::Connected => IceState::Connected,
            IceConnectionState::Completed => IceState::Completed,
            IceConnectionState::Disconnected => IceState::Disconnected,
        }),
        Event::MediaAdded(m) => Happening::MediaAdded { mid: m.mid.to_string(), audio: m.kind.is_audio() },
        Event::KeyframeRequest(r) => {
            Happening::KeyframeRequest { mid: r.mid.to_string(), pli: r.kind == KeyframeRequestKind::Pli }
        },
        Event::MediaData(frame) => Happening::Media(frame),
        _ => Happening::Other,
    }
}

/// The headers of a frame that matter for routing, with the frame.
pub uninterp spec fn packet_of(frame: MediaData) -> MediaPacketView;

/// Reads the fields of a `str0m::media::MediaData` that matter for routing. The
/// frame itself goes along as it is.
#[verifier::external_body]
pub(crate) fn read_frame(frame: MediaData) -> (packet: MediaPacket)
    ensures
        packet@ == packet_of(frame),
        packet.frame == frame,
{
    MediaPacket {
        mid: frame.mid.to_string(),
        contiguous: frame.contiguous,
        audio_level: frame.ext_vals.audio_level,
        voice_activity: frame.ext_vals.voice_activity,
        frame,
    }
}

/// Calls `str0m::Rtc::accepts`, which decides by the session, the sender and
/// the contents of a datagram. The time is not asked.
#[verifier::external_body]
pub(crate) fn accepts(rtc: &Rtc, input: &Input<'_>) -> (yes: bool)
    ensures
        yes == rtc_accepts(*rtc, input_of(*input)),
{
    rtc.accepts(input)
}

/// Whether an input can make a session this one, and go well or not.
pub uninterp spec fn can_become(before: Rtc, input: InputView, handled: bool, after: Rtc) -> bool;

/// Calls `str0m::Rtc::handle_input` and says whether it went well. That rests on
/// the session's cryptography and on chance, so it is only what can come of this
/// input. Either way the session is as alive as it was.
#[verifier::external_body]
pub(crate) fn handle_input(rtc: &mut Rtc, input: Input<'_>) -> (handled: bool)
    ensures
        can_become(*old(rtc), input_of(input), handled, *final(rtc)),
        rtc_alive(*final(rtc)) == rtc_alive(*old(rtc)),
{
    rtc.handle_input(input).is_ok()
}

/// Builds a `str0m::Input::Timeout`.
#[verifier::external_body]
pub(crate) fn tick<'a>(now: Instant) -> (input: Input<'a>)
    ensures
        input_of(input) == InputView::Tick,
{
    Input::Timeout(now)
}

/// Whether some bytes look like STUN, DTLS, RTP or RTCP.
pub uninterp spec fn is_traffic(bytes: Seq<u8>) -> bool;

/// Builds a `str0m::Input::Receive` for a UDP datagram with
/// `str0m::net::Receive::new`, which recognises the kind of traffic by the
/// bytes alone and refuses those it does not know.
#[verifier::external_body]
pub(crate) fn datagram<'a>(
    now: Instant,
    source: Endpoint,
    destination: Endpoint,
    bytes: &'a [u8],
) -> (input: Option<Input<'a>>)
    ensures
        input is Some <==> is_traffic(bytes@),
        input matches Some(input) ==> input_of(input) == (InputView::Datagram {
            source,
            destination,
            bytes: bytes@,
        }),
{
    let from = match source.ip {
        Ip::V4(octets) => (octets, source.port).into(),
        Ip::V6(octets) => (octets, source.port).into(),
    };
    let to = match destination.ip {
        Ip::V4(octets) => (octets, destination.port).into(),
        Ip::V6(octets) => (octets, destination.port).into(),
    };
    Receive::new(Protocol::Udp, from, to, bytes).ok().map(|receive| Input::Receive(now, receive))
}

/// Whether a session has an m-line that can be written to.
pub uninterp spec fn has_line(rtc: Rtc, mid: Seq<char>) -> bool;

/// Calls `str0m::Rtc::writer` for the m-line that `Mid::from` reads off the
/// name. A session that is not alive has none. Writing to
/// an m-line and asking for keyframes leave the session as alive as it was.
#[verifier::external_body]
pub(crate) fn writer<'a>(rtc: &'a mut Rtc, mid: &str) -> (writer: Option<Writer<'a>>)
    ensures
        writer is Some <==> has_line(*old(rtc), mid@),
        !rtc_alive(*old(rtc)) ==> writer is None,
        writer matches Some(writer) ==> {
            &&& writer_session(writer) == *old(rtc)
            &&& writer_mid(writer) == as_mid(mid@)
            &&& writer_level(writer) is None
        },
        rtc_alive(*final(rtc)) == rtc_alive(*old(rtc)),
{
    rtc.writer(Mid::from(mid))
}

/// The payload type of a session that fits a frame, if any does.
pub uninterp spec fn fitting_format(rtc: Rtc, frame: MediaData) -> Option<Pt>;

/// Calls `str0m::media::Writer::match_params` with the parameters of a received
/// frame, which are matched against those of the session.
#[verifier::external_body]
pub(crate) fn match_params(writer: &Writer<'_>, frame: &MediaData) -> (format: Option<Pt>)
    ensures
        format == fitting_format(writer_session(*writer), *frame),
{
    writer.match_params(frame.params)
}

/// Calls `str0m::media::Writer::audio_level`, which attaches the level.
#[verifier::external_body]
pub(crate) fn with_audio_level<'a>(writer: Writer<'a>, level: i8, voiced: bool) -> (leveled: Writer<'a>)
    ensures
        writer_session(leveled) == writer_session(writer),
        writer_mid(leveled) == writer_mid(writer),
        writer_level(leveled) == Some((level, voiced)),
{
    writer.audio_level(level, voiced)
}

/// Whether an m-line of a session takes a frame in a format.
pub uninterp spec fn takes_frame(rtc: Rtc, mid: Seq<char>, format: Pt) -> bool;

/// Whether a frame can be handed to an m-line of a session, with an audio level and
/// in a format, and be taken or not.
pub uninterp spec fn can_write(
    rtc: Rtc,
    mid: Seq<char>,
    level: Option<(i8, bool)>,
    format: Pt,
    frame: MediaData,
    written: bool,
) -> bool;

/// Calls `str0m::media::Writer::write` with a received frame's own times and
/// payload. It is refused in a format the session does not have, and when too
/// many frames are waiting on the m-line. What goes out on the wire is the
/// session's affair; the frame, the level and the format are what it was handed.
#[verifier::external_body]
pub(crate) fn write_frame(writer: Writer<'_>, format: Pt, frame: &MediaData) -> (written: bool)
    ensures
        can_write(
            writer_session(writer),
            writer_mid(writer),
            writer_level(writer),
            format,
            *frame,
            written,
        ),
        written == takes_frame(writer_session(writer), writer_mid(writer), format),
{
    writer.write(format, frame.network_time, frame.time, frame.data.clone()).is_ok()
}

/// Whether a keyframe can be asked for on an m-line of a session.
pub uninterp spec fn takes_keyframe_request(rtc: Rtc, mid: Seq<char>, kind: KeyframeKind) -> bool;

/// Calls `str0m::media::Writer::request_keyframe` for the m-line as a whole and
/// says whether the request could be made: if the session has negotiated such
/// requests and receives on the m-line.
#[verifier::external_body]
pub(crate) fn request_keyframe(writer: &mut Writer<'_>, kind: KeyframeKind) -> (requested: bool)
    ensures
        requested == takes_keyframe_request(
            writer_session(*old(writer)),
            writer_mid(*old(writer)),
            kind,
        ),
{
    let kind = match kind {
        KeyframeKind::Pli => KeyframeRequestKind::Pli,
        KeyframeKind::Fir => KeyframeRequestKind::Fir,
    };
    writer.request_keyframe(None, kind).is_ok()
}

} // verus!
