//! The course of one signaling socket.
use vstd::prelude::*;
use vstd::string::*;

use crate::auth::{
    a_token_grants_what_it_says, can_turn_out, claims_in, is_verdict, makes_claims,
    only_genuine_tokens_pass, payload_of, verify, AuthError, JoinClaims, JoinClaimsView,
};
use crate::proto::{error_frame, ClientMsg, ServerMsg, ServerMsgView};
use crate::sfu::command::{Command, JoinReply, JoinRequest};
use crate::sfu::tracks::PeerId;
use crate::text::trimmed;

verus! {

/// A browser has this long to send its join frame before the socket is closed,
/// in seconds.
pub const JOIN_DEADLINE: u64 = 10;

/// What came first on a socket.
pub enum FirstFrame {
    /// Nothing before the deadline.
    Deadline,
    /// The end of the socket.
    Closed,
    /// An error.
    Failed,
    /// A frame that is not text.
    NotText,
    /// A text that is no message.
    Unreadable,
    Message(ClientMsg),
}

/// Whether a socket may ask the media loop to let it in.
pub enum Admission {
    /// Close it, after this message if there is one. The refusal has to reach
    /// the browser BEFORE the close, or all it learns is that the socket went
    /// away.
    Refuse(Option<ServerMsg>),
    /// Close it after this message, because of what is wrong with its token. The
    /// reason matters to the operator: an expired token, a wrong shared secret
    /// and a truncated token are three different mistakes.
    Reject(AuthError, ServerMsg),
    Ask(JoinRequest),
}

/// The message before the close, if there is one.
pub open spec fn parting(message: Option<ServerMsg>) -> Option<ServerMsgView> {
    match message {
        Some(message) => Some(message@),
        None => None,
    }
}

/// A socket is closed after a message, and its token is not to blame.
pub open spec fn is_refused(admission: Admission, message: Option<ServerMsgView>) -> bool {
    admission matches Admission::Refuse(last) && parting(last) == message
}

/// A socket is closed for its token.
pub open spec fn is_rejected(admission: Admission) -> bool {
    admission matches Admission::Reject(_, message) && message@ == unauthorized_frame()
}

pub open spec fn unauthorized_frame() -> ServerMsgView {
    error_frame("unauthorized"@, "Join token rejected."@)
}

pub open spec fn expected_join_frame() -> ServerMsgView {
    error_frame("expected_join"@, "First frame must be a join."@)
}

/// What a verdict on a token means for the socket that showed it.
pub open spec fn follows_verdict(
    verdict: Result<JoinClaims, AuthError>,
    sdp: Seq<char>,
    admission: Admission,
) -> bool {
    match verdict {
        Err(error) => {
            &&& is_rejected(admission)
            &&& admission->Reject_0 == error
        },
        Ok(claims) => {
            &&& admission matches Admission::Ask(request)
            &&& request.claims@ == claims@
            &&& request.sdp@ == sdp
        },
    }
}

/// What showing a token comes to, whatever the verdict on it.
pub open spec fn follows_some_verdict(
    token: Seq<char>,
    secret: Seq<char>,
    sdp: Seq<char>,
    admission: Admission,
) -> bool {
    exists|verdict: Result<JoinClaims, AuthError>|
        #[trigger] is_verdict(token, secret, verdict) && follows_verdict(verdict, sdp, admission)
}

/// A request carries exactly the claims of a genuine, complete token that was
/// found to be current.
pub open spec fn is_vouched(request: JoinRequest, token: Seq<char>, secret: Seq<char>) -> bool {
    &&& payload_of(trimmed(token), secret) matches Ok(payload)
    &&& claims_in(payload) == Ok::<JoinClaimsView, jsonwebtoken::errors::ErrorKind>(request.claims@)
    &&& can_turn_out(trimmed(token), secret, Ok(()))
    &&& request.claims@.is_complete()
}

/// No socket reaches the media loop but with a token that the shared secret
/// vouches for.
pub proof fn strangers_are_refused(
    token: Seq<char>,
    secret: Seq<char>,
    sdp: Seq<char>,
    admission: Admission,
)
    requires
        follows_some_verdict(token, secret, sdp, admission),
    ensures
        admission matches Admission::Ask(request) ==> is_vouched(request, token, secret)
            && request.sdp@ == sdp,
        payload_of(trimmed(token), secret) is Err ==> is_rejected(admission),
        admission is Ask || is_rejected(admission),
{
    let verdict = choose|verdict: Result<JoinClaims, AuthError>|
        #[trigger] is_verdict(token, secret, verdict) && follows_verdict(verdict, sdp, admission);
    only_genuine_tokens_pass(token, secret, verdict);
}

/// Acts on the verdict on a token.
pub fn follow_verdict(verdict: Result<JoinClaims, AuthError>, sdp: String) -> (admission: Admission)
    ensures
        follows_verdict(verdict, sdp@, admission),
{
    match verdict {
        Err(error) => Admission::Reject(
            error,
            ServerMsg::error("unauthorized", "Join token rejected."),
        ),
        Ok(claims) => Admission::Ask(JoinRequest { claims, sdp }),
    }
}

/// What the first thing that came on a socket leads to.
pub open spec fn admits(first: FirstFrame, secret: Seq<char>, admission: Admission) -> bool {
    match first {
        FirstFrame::Message(ClientMsg::Join { token, sdp }) => follows_some_verdict(
            token@,
            secret,
            sdp@,
            admission,
        ),
        FirstFrame::Message(_) => is_refused(admission, Some(expected_join_frame())),
        FirstFrame::Unreadable => is_refused(admission, Some(expected_join_frame())),
        _ => is_refused(admission, None),
    }
}

/// Decides on the first thing that came on a socket. Nothing but a join with a
/// genuine token gets as far as the media loop.
pub fn admission(first: FirstFrame, secret: &str) -> (admission: Admission)
    ensures
        admits(first, secret@, admission),
{
    match first {
        FirstFrame::Message(ClientMsg::Join { token, sdp }) => {
            let verdict = verify(token.as_str(), secret);
            let ghost seen = verdict;
            let admission = follow_verdict(verdict, sdp);
            assert(is_verdict(token@, secret@, seen) && follows_verdict(seen, sdp@, admission));
            admission
        },
        FirstFrame::Message(_) | FirstFrame::Unreadable => Admission::Refuse(
            Some(ServerMsg::error("expected_join", "First frame must be a join.")),
        ),
        _ => Admission::Refuse(None),
    }
}

/// What the media loop made of a request.
pub enum Verdict {
    /// There is no media loop to take it.
    Gone,
    /// It was taken, and never answered.
    Dropped,
    Answered(JoinReply),
}

/// How a socket goes on after its request.
pub enum Entry {
    /// Close it, after this message if there is one.
    Refuse(Option<ServerMsg>),
    Enter(PeerId),
}

pub open spec fn unavailable_frame() -> ServerMsgView {
    error_frame("unavailable"@, "The call service is restarting."@)
}

/// How a socket goes on after what the media loop made of its request.
pub open spec fn enters(verdict: Verdict, entry: Entry) -> bool {
    match verdict {
        Verdict::Gone => entry matches Entry::Refuse(Some(message)) && message@
            == unavailable_frame(),
        Verdict::Dropped => entry matches Entry::Refuse(None),
        Verdict::Answered(JoinReply::Refused(reason)) => entry matches Entry::Refuse(Some(message))
            && message@ == reason@,
        Verdict::Answered(JoinReply::Admitted(id)) => entry matches Entry::Enter(peer) && peer
            == id,
    }
}

/// Acts on what the media loop made of a request.
pub fn entry(verdict: Verdict) -> (entry: Entry)
    ensures
        enters(verdict, entry),
{
    match verdict {
        Verdict::Gone => Entry::Refuse(
            Some(ServerMsg::error("unavailable", "The call service is restarting.")),
        ),
        Verdict::Dropped => Entry::Refuse(None),
        Verdict::Answered(JoinReply::Refused(message)) => Entry::Refuse(Some(message)),
        Verdict::Answered(JoinReply::Admitted(id)) => Entry::Enter(id),
    }
}

/// What came on the socket of a peer that is in a call.
pub enum Frame {
    /// A text that is a message, or one that is none.
    Text(Option<ClientMsg>),
    /// A frame that is neither text nor a close.
    Other,
    /// A close, an error or the end of the socket.
    Closed,
}

/// What a frame asks for.
pub enum Forwarded {
    /// Tell the media loop; the socket is closed if it is gone.
    Tell(Command),
    /// Answer the browser; the socket is closed if it cannot be reached.
    Answer(ServerMsg),
    /// Tell the browser that it went wrong, and go on.
    Complain(ServerMsg),
    /// Go on.
    Ignore,
    /// Tell the media loop that the peer has left, and close the socket.
    HangUp(Command),
}

pub open spec fn bad_message_frame() -> ServerMsgView {
    error_frame("bad_message"@, "Unrecognised frame."@)
}

pub open spec fn already_joined_frame() -> ServerMsgView {
    error_frame("already_joined"@, "Already in a call."@)
}

/// What a message of a peer that is in a call asks for. Only the SFU offers once
/// a peer is in, so a second join is a protocol error rather than something to
/// merge.
pub open spec fn forwards_message(message: ClientMsg, peer: PeerId, forwarded: Forwarded) -> bool {
    match message {
        ClientMsg::Answer { sdp } => forwarded matches Forwarded::Tell(
            Command::Answer { peer: from, sdp: text },
        ) && from == peer && text@ == sdp@,
        ClientMsg::Mute { muted } => forwarded == Forwarded::Tell(Command::Mute { peer, muted }),
        ClientMsg::Screen { active } => forwarded == Forwarded::Tell(
            Command::Screen { peer, active },
        ),
        ClientMsg::Ping => forwarded matches Forwarded::Answer(message) && message@
            == ServerMsgView::Pong,
        ClientMsg::Leave => forwarded == Forwarded::HangUp(Command::Leave { peer }),
        ClientMsg::Join { .. } => forwarded matches Forwarded::Complain(message) && message@
            == already_joined_frame(),
    }
}

/// What a frame of a peer that is in a call asks for.
pub open spec fn forwards_frame(frame: Frame, peer: PeerId, forwarded: Forwarded) -> bool {
    match frame {
        Frame::Text(Some(message)) => forwards_message(message, peer, forwarded),
        Frame::Text(None) => forwarded matches Forwarded::Complain(message) && message@
            == bad_message_frame(),
        Frame::Other => forwarded is Ignore,
        Frame::Closed => forwarded == Forwarded::HangUp(Command::Leave { peer }),
    }
}

/// Decides on one frame of a peer that is in a call.
pub fn forward(frame: Frame, peer: PeerId) -> (forwarded: Forwarded)
    ensures
        forwards_frame(frame, peer, forwarded),
{
    match frame {
        Frame::Text(Some(message)) => match message {
            ClientMsg::Answer { sdp } => Forwarded::Tell(Command::Answer { peer, sdp }),
            ClientMsg::Mute { muted } => Forwarded::Tell(Command::Mute { peer, muted }),
            ClientMsg::Screen { active } => Forwarded::Tell(Command::Screen { peer, active }),
            ClientMsg::Ping => Forwarded::Answer(ServerMsg::Pong),
            ClientMsg::Leave => Forwarded::HangUp(Command::Leave { peer }),
            ClientMsg::Join { .. } => Forwarded::Complain(
                ServerMsg::error("already_joined", "Already in a call."),
            ),
        },
        Frame::Text(None) => Forwarded::Complain(
            ServerMsg::error("bad_message", "Unrecognised frame."),
        ),
        Frame::Other => Forwarded::Ignore,
        Frame::Closed => Forwarded::HangUp(Command::Leave { peer }),
    }
}

/// A token that is refused closes its socket, with the reason for the operator and the
/// same words for the browser whatever it is; one that is accepted asks to join with
/// the claims it was accepted for and the offer that came with it.
pub proof fn a_verdict_is_followed(
    verdict: Result<JoinClaims, AuthError>,
    sdp: Seq<char>,
    admission: Admission,
)
    requires
        follows_verdict(verdict, sdp, admission),
    ensures
        verdict is Ok <==> admission is Ask,
        verdict matches Ok(claims) ==> admission->Ask_0.claims@ == claims@ && admission->Ask_0.sdp@
            == sdp,
        verdict matches Err(error) ==> {
            &&& admission matches Admission::Reject(reason, message)
            &&& reason == error
            &&& message@ == ServerMsgView::Error {
                code: "unauthorized"@,
                message: "Join token rejected."@,
            }
        },
{
}

/// Only a join with a token that the shared secret vouches for gets a socket as far as
/// asking to be let in, and then with the token's own claims. Any other message, and a
/// text that is none, is refused in so many words; and a socket on which nothing, or
/// nothing readable, came is closed without any.
pub proof fn only_a_proper_join_gets_through(
    first: FirstFrame,
    secret: Seq<char>,
    admission: Admission,
)
    requires
        admits(first, secret, admission),
    ensures
        admission matches Admission::Ask(request) ==> {
            &&& first matches FirstFrame::Message(ClientMsg::Join { token, sdp })
            &&& request.sdp@ == sdp@
            &&& payload_of(trimmed(token@), secret) matches Ok(payload)
            &&& makes_claims(payload, request.claims@)
            &&& request.claims@.sub.len() > 0
            &&& request.claims@.room.len() > 0
            &&& request.claims@.call_id.len() > 0
        },
        first matches FirstFrame::Message(ClientMsg::Join { token, sdp }) ==> {
            ||| admission is Ask
            ||| {
                &&& admission matches Admission::Reject(_, message)
                &&& message@ == ServerMsgView::Error {
                    code: "unauthorized"@,
                    message: "Join token rejected."@,
                }
            }
        },
        first is Unreadable || (first matches FirstFrame::Message(message) && !(message is Join)) ==> {
            &&& admission matches Admission::Refuse(Some(message))
            &&& message@ == ServerMsgView::Error {
                code: "expected_join"@,
                message: "First frame must be a join."@,
            }
        },
        first is Deadline || first is Closed || first is Failed || first is NotText ==> admission
            matches Admission::Refuse(None),
{
    if let FirstFrame::Message(ClientMsg::Join { token, sdp }) = first {
        let verdict = choose|verdict: Result<JoinClaims, AuthError>|
            #[trigger] is_verdict(token@, secret, verdict) && follows_verdict(
                verdict,
                sdp@,
                admission,
            );
        a_token_grants_what_it_says(token@, secret, verdict);
    }
}

/// A socket goes on exactly if the media loop let it in, and then as the peer it was let
/// in as. A refusal is passed on in its own words, and a media loop that is gone is
/// excused.
pub proof fn the_admitted_go_on(verdict: Verdict, entry: Entry)
    requires
        enters(verdict, entry),
    ensures
        entry matches Entry::Enter(peer) ==> verdict matches Verdict::Answered(
            JoinReply::Admitted(id),
        ) && id == peer,
        verdict matches Verdict::Answered(JoinReply::Admitted(id)) ==> entry == Entry::Enter(id),
        verdict matches Verdict::Answered(JoinReply::Refused(reason)) ==> {
            &&& entry matches Entry::Refuse(Some(message))
            &&& message@ == reason@
        },
        verdict is Gone ==> {
            &&& entry matches Entry::Refuse(Some(message))
            &&& message@ == ServerMsgView::Error {
                code: "unavailable"@,
                message: "The call service is restarting."@,
            }
        },
        verdict is Dropped ==> entry == Entry::Refuse(None),
{
}

/// What a message of a peer that is in a call asks for is asked for that peer, as the
/// message says; leaving hangs up, a ping is answered, and a second join is turned down
/// without the media loop hearing of it.
pub proof fn messages_are_passed_on_as_they_are(
    message: ClientMsg,
    peer: PeerId,
    forwarded: Forwarded,
)
    requires
        forwards_message(message, peer, forwarded),
    ensures
        message matches ClientMsg::Answer { sdp } ==> {
            &&& forwarded matches Forwarded::Tell(Command::Answer { peer: from, sdp: text })
            &&& from == peer
            &&& text@ == sdp@
        },
        message matches ClientMsg::Mute { muted } ==> {
            &&& forwarded matches Forwarded::Tell(Command::Mute { peer: from, muted: now })
            &&& from == peer
            &&& now == muted
        },
        message matches ClientMsg::Screen { active } ==> {
            &&& forwarded matches Forwarded::Tell(Command::Screen { peer: from, active: now })
            &&& from == peer
            &&& now == active
        },
        message is Leave ==> {
            &&& forwarded matches Forwarded::HangUp(Command::Leave { peer: from })
            &&& from == peer
        },
        message is Ping ==> {
            &&& forwarded matches Forwarded::Answer(answer)
            &&& answer@ is Pong
        },
        message is Join ==> {
            &&& forwarded matches Forwarded::Complain(words)
            &&& words@ == ServerMsgView::Error {
                code: "already_joined"@,
                message: "Already in a call."@,
            }
        },
{
}

/// The end of a socket is the peer's leaving; a text that is no message is complained
/// of; and a frame that is no text is passed over.
pub proof fn frames_are_dealt_with(frame: Frame, peer: PeerId, forwarded: Forwarded)
    requires
        forwards_frame(frame, peer, forwarded),
    ensures
        frame is Closed ==> {
            &&& forwarded matches Forwarded::HangUp(Command::Leave { peer: from })
            &&& from == peer
        },
        frame is Other ==> forwarded is Ignore,
        frame matches Frame::Text(None) ==> {
            &&& forwarded matches Forwarded::Complain(message)
            &&& message@ == ServerMsgView::Error {
                code: "bad_message"@,
                message: "Unrecognised frame."@,
            }
        },
        frame matches Frame::Text(Some(message)) ==> forwards_message(message, peer, forwarded),
{
}

} // verus!
