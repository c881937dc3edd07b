//! What the host application is told about its rooms, and how it is told.
use base64::engine::general_purpose::STANDARD;
use base64::Engine as _;
use hmac::Mac;
use vstd::prelude::*;
use vstd::string::*;
use vstd::utf8::encode_utf8;

use crate::names::same_text;

verus! {

/// One event of a room's lifecycle. The field names match LiveKit's webhook
/// payload on purpose: an existing LiveKit integration can point at this SFU
/// and keep its handler, its event de-duplication and its billing untouched.
/// Only the authentication scheme differs: an HMAC over the exact bytes posted,
/// rather than a signed JWT.
#[derive(Debug)]
pub struct ReportEvent {
    pub id: String,
    pub event: &'static str,
    pub room: ReportRoom,
    pub participant: Option<ReportParticipant>,
    pub track: Option<ReportTrack>,
}

#[derive(Debug)]
pub struct ReportRoom {
    pub name: String,
}

#[derive(Debug)]
pub struct ReportParticipant {
    pub identity: String,
}

#[derive(Debug)]
pub struct ReportTrack {
    pub source: &'static str,
}

impl Clone for ReportRoom {
    fn clone(&self) -> (copy: Self)
        ensures
            copy.name@ == self.name@,
    {
        ReportRoom { name: self.name.clone() }
    }
}

impl Clone for ReportParticipant {
    fn clone(&self) -> (copy: Self)
        ensures
            copy.identity@ == self.identity@,
    {
        ReportParticipant { identity: self.identity.clone() }
    }
}

impl Clone for ReportTrack {
    fn clone(&self) -> (copy: Self)
        ensures
            copy.source@ == self.source@,
    {
        ReportTrack { source: self.source }
    }
}

impl Clone for ReportEvent {
    fn clone(&self) -> (copy: Self)
        ensures
            copy@ == self@,
            copy.id@ == self.id@,
    {
        ReportEvent {
            id: self.id.clone(),
            event: self.event,
            room: self.room.clone(),
            participant: match &self.participant {
                Some(participant) => Some(participant.clone()),
                None => None,
            },
            track: match &self.track {
                Some(track) => Some(track.clone()),
                None => None,
            },
        }
    }
}

pub const SCREEN_SHARE: &'static str = "SCREEN_SHARE";

/// Base64 HMAC-SHA256 of the raw request body, keyed by the webhook secret.
pub const SIGNATURE_HEADER: &'static str = "x-sfu-signature";

/// Announced once on boot: every room this process was carrying is gone.
pub const SERVER_STARTED: &'static str = "sfu_started";

/// What an event says, leaving out the id that only serves de-duplication.
#[verifier::ext_equal]
pub struct Report {
    pub event: Seq<char>,
    pub room: Seq<char>,
    pub identity: Option<Seq<char>>,
    pub source: Option<Seq<char>>,
}

/// A report on a room as a whole.
pub open spec fn room_report(event: Seq<char>, room: Seq<char>) -> Report {
    Report { event, room, identity: None, source: None }
}

/// A report on one participant of a room.
pub open spec fn participant_report(event: Seq<char>, room: Seq<char>, identity: Seq<char>) -> Report {
    Report { event, room, identity: Some(identity), source: None }
}

/// A report on a participant's screen share.
pub open spec fn screen_report(event: Seq<char>, room: Seq<char>, identity: Seq<char>) -> Report {
    Report { event, room, identity: Some(identity), source: Some(SCREEN_SHARE@) }
}

impl View for ReportEvent {
    type V = Report;

    open spec fn view(&self) -> Report {
        Report {
            event: self.event@,
            room: self.room.name@,
            identity: match self.participant {
                Some(participant) => Some(participant.identity@),
                None => None,
            },
            source: match self.track {
                Some(track) => Some(track.source@),
                None => None,
            },
        }
    }
}

/// What a queue of events says.
pub open spec fn reports_of(queue: Seq<ReportEvent>) -> Seq<Report> {
    queue.map_values(|e: ReportEvent| e@)
}

/// A queue has grown: what it held is still there, and each event that came has an
/// id drawn for it.
pub open spec fn grows_afresh(before: Seq<ReportEvent>, after: Seq<ReportEvent>) -> bool {
    &&& before.is_prefix_of(after)
    &&& forall|n: int|
        before.len() <= n < after.len() ==> is_random_uuid((#[trigger] after[n]).id@)
}

/// What grows and grows again has grown.
pub proof fn growth_adds_up(a: Seq<ReportEvent>, b: Seq<ReportEvent>, c: Seq<ReportEvent>)
    requires
        grows_afresh(a, b),
        grows_afresh(b, c),
    ensures
        grows_afresh(a, c),
{
    assert forall|n: int| 0 <= n < b.len() implies #[trigger] c[n] == b[n] by {
        assert(c.take(b.len() as int)[n] == c[n]);
    }
    assert forall|n: int| 0 <= n < a.len() implies #[trigger] c[n] == a[n] by {
        assert(c[n] == b[n]);
        assert(b.take(a.len() as int)[n] == b[n]);
    }
    assert(a =~= c.take(a.len() as int));
    assert forall|n: int| a.len() <= n < c.len() implies is_random_uuid((#[trigger] c[n]).id@) by {
        if n < b.len() {
            assert(c[n] == b[n]);
        }
    }
}

/// A lower-case hexadecimal digit.
pub open spec fn is_hex(c: char) -> bool {
    ('0' <= c && c <= '9') || ('a' <= c && c <= 'f')
}

/// The text form of a random (version 4) UUID: groups of 8, 4, 4, 4 and 12
/// hexadecimal digits, with the version and the variant in their places.
pub open spec fn is_random_uuid(text: Seq<char>) -> bool {
    &&& text.len() == 36
    &&& text[8] == '-' && text[13] == '-' && text[18] == '-' && text[23] == '-'
    &&& text[14] == '4'
    &&& (text[19] == '8' || text[19] == '9' || text[19] == 'a' || text[19] == 'b')
    &&& forall|i: int|
        0 <= i < 36 && i != 8 && i != 13 && i != 18 && i != 23 ==> is_hex(#[trigger] text[i])
}

/// Calls `uuid::Uuid::new_v4` and writes the result with its `Display`: a
/// hyphenated, lower-case version 4 UUID. Which one it is is left to chance.
#[verifier::external_body]
fn fresh_id() -> (id: String)
    ensures
        is_random_uuid(id@),
{
    uuid::Uuid::new_v4().to_string()
}

impl ReportEvent {
    pub fn new(event: &'static str, room: &str) -> (report: Self)
        ensures
            report@ == room_report(event@, room@),
            is_random_uuid(report.id@),
    {
        ReportEvent {
            id: fresh_id(),
            event,
            room: ReportRoom { name: room.to_string() },
            participant: None,
            track: None,
        }
    }

    /// The same event, about one participant.
    pub fn identity(self, identity: &str) -> (report: Self)
        ensures
            report@ == (Report { identity: Some(identity@), ..self@ }),
            report.id@ == self.id@,
    {
        ReportEvent {
            participant: Some(ReportParticipant { identity: identity.to_string() }),
            ..self
        }
    }

    /// The same event, about that participant's screen share.
    pub fn screen_share(self) -> (report: Self)
        ensures
            report@ == (Report { source: Some(SCREEN_SHARE@), ..self@ }),
            report.id@ == self.id@,
    {
        ReportEvent { track: Some(ReportTrack { source: SCREEN_SHARE }), ..self }
    }
}

/// The HMAC-SHA256 tag of a message under a key.
pub uninterp spec fn hmac_sha256(key: Seq<u8>, message: Seq<u8>) -> Seq<u8>;

/// Calls `hmac::Hmac::<sha2::Sha256>`: keyed with `new_from_slice`, which takes
/// a key of any length, fed the message once with `update`, and closed with
/// `finalize`. The tag depends on key and message alone and has 32 bytes.
#[verifier::external_body]
fn mac(message: &[u8], key: &[u8]) -> (tag: Vec<u8>)
    ensures
        tag@ == hmac_sha256(key@, message@),
        tag@.len() == 32,
{
    let mut mac = hmac::Hmac::<sha2::Sha256>::new_from_slice(key)
        .expect("hmac accepts any key length");
    mac.update(message);
    mac.finalize().into_bytes().to_vec()
}

/// The base64 text of some bytes, in the standard alphabet with padding.
pub uninterp spec fn base64_standard(bytes: Seq<u8>) -> Seq<char>;

/// Calls `encode` of `base64`'s `STANDARD` engine, which depends on the bytes
/// alone and writes four characters for every three bytes begun.
#[verifier::external_body]
fn base64_text(bytes: &[u8]) -> (text: String)
    ensures
        text@ == base64_standard(bytes@),
        text@.len() == (bytes@.len() + 2) / 3 * 4,
{
    STANDARD.encode(bytes)
}

/// Signs the exact bytes that are posted. The host application recomputes the
/// MAC over the raw body, so what is posted must stay byte-identical to what
/// was signed.
pub fn sign(body: &[u8], secret: &str) -> (signature: String)
    ensures
        signature@ == base64_standard(hmac_sha256(encode_utf8(secret@), body@)),
        signature@.len() == 44,
{
    let tag = mac(body, secret.as_bytes());
    base64_text(tag.as_slice())
}

/// How often a report is posted before it is given up. The boot announcement
/// is the one report that must not be lost: it is what releases participants
/// from rooms that died with the previous process, and the host application may
/// still be starting up itself.
pub open spec fn attempts_for(event: Seq<char>) -> u32 {
    if event == SERVER_STARTED@ {
        12
    } else {
        3
    }
}

/// The pause after a failed attempt, in milliseconds; attempts count from one.
pub open spec fn backoff_after(attempt: nat) -> nat {
    if 250 * attempt <= 5000 {
        250 * attempt
    } else {
        5000
    }
}

/// How to go on after the last of so many attempts, out of so many in all.
pub open spec fn what_follows(made: nat, attempts: nat, accepted: bool) -> Attempted {
    if accepted {
        Attempted::Delivered
    } else if made < attempts {
        Attempted::Retry(backoff_after(made) as u64)
    } else {
        Attempted::Dropped(backoff_after(made) as u64)
    }
}

/// The progress of one report on its way to the host application. Delivery is
/// at-least-once and the host application de-duplicates on the report's id, so
/// a retry is always safe.
pub struct Delivery {
    made: u32,
    attempts: u32,
}

/// What follows an attempt to post a report.
#[derive(Debug, Clone, Copy, PartialEq, Eq, Structural)]
pub enum Attempted {
    /// The host application took it.
    Delivered,
    /// Wait this many milliseconds and post it again.
    Retry(u64),
    /// Wait this many milliseconds and go on without it: losing a report must
    /// never wedge the media loop.
    Dropped(u64),
}

impl Delivery {
    /// Attempts that were made.
    pub closed spec fn made(&self) -> nat {
        self.made as nat
    }

    /// Attempts that may be made in all.
    pub closed spec fn attempts(&self) -> nat {
        self.attempts as nat
    }

    /// A delivery that has attempts left.
    pub open spec fn is_open(&self) -> bool {
        self.made() < self.attempts() <= 12
    }

    pub fn new(event: &ReportEvent) -> (delivery: Self)
        ensures
            delivery.is_open(),
            delivery.made() == 0,
            delivery.attempts() == attempts_for(event@.event),
    {
        let attempts: u32 = if same_text(event.event, SERVER_STARTED) {
            12
        } else {
            3
        };
        Delivery { made: 0, attempts }
    }

    /// Takes note of one attempt and says how to go on.
    pub fn attempted(&mut self, accepted: bool) -> (then: Attempted)
        requires
            old(self).is_open(),
        ensures
            final(self).made() == old(self).made() + 1,
            final(self).attempts() == old(self).attempts(),
            then == what_follows(final(self).made(), final(self).attempts(), accepted),
            then is Retry ==> final(self).is_open(),
    {
        self.made = self.made + 1;
        if accepted {
            return Attempted::Delivered;
        }
        let linear: u64 = 250 * (self.made as u64);
        let pause: u64 = if linear <= 5000 { linear } else { 5000 };
        if self.made < self.attempts {
            Attempted::Retry(pause)
        } else {
            Attempted::Dropped(pause)
        }
    }
}

/// The boot announcement is retried harder than anything else.
pub proof fn the_boot_announcement_is_retried_harder(event: Seq<char>)
    requires
        event != SERVER_STARTED@,
    ensures
        attempts_for(event) < attempts_for(SERVER_STARTED@),
{
}

/// Pauses grow from one failed attempt to the next, up to a limit.
pub proof fn pauses_grow_to_a_limit(attempt: nat)
    ensures
        backoff_after(attempt) <= backoff_after(attempt + 1) <= 5000,
{
}

/// A report is tried three times, and the announcement of a start twelve times.
pub proof fn reports_are_tried_so_often(event: Seq<char>)
    ensures
        event == "sfu_started"@ ==> attempts_for(event) == 12,
        event != "sfu_started"@ ==> attempts_for(event) == 3,
{
}

/// The pause after a failed attempt is a quarter of a second for every attempt that was
/// made, but five seconds at most.
pub proof fn pauses_are_so_long(attempt: nat)
    ensures
        attempt <= 20 ==> backoff_after(attempt) == 250 * attempt,
        attempt >= 20 ==> backoff_after(attempt) == 5000,
{
}

/// A report says which event it is, of which room, and of whom if it is of anybody; of
/// tracks, only a screen share is spoken of.
pub proof fn reports_say_what_they_are_of(event: Seq<char>, room: Seq<char>, identity: Seq<char>)
    ensures
        room_report(event, room) == (Report { event, room, identity: None, source: None }),
        participant_report(event, room, identity) == (Report {
            event,
            room,
            identity: Some(identity),
            source: None,
        }),
        screen_report(event, room, identity) == (Report {
            event,
            room,
            identity: Some(identity),
            source: Some("SCREEN_SHARE"@),
        }),
{
}

/// A report that is taken is done with. One that is not is posted again as long as
/// attempts are left, and dropped after the last; either way after a pause.
pub proof fn a_report_is_tried_until_it_is_taken(made: nat, attempts: nat, accepted: bool)
    requires
        0 < made <= attempts <= 12,
    ensures
        accepted <==> what_follows(made, attempts, accepted) is Delivered,
        !accepted && made < attempts ==> what_follows(made, attempts, accepted) == Attempted::Retry(
            (250 * made) as u64,
        ),
        !accepted && made == attempts ==> what_follows(made, attempts, accepted)
            == Attempted::Dropped((250 * made) as u64),
{
}

} // verus!
