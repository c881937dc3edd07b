//! What the signaling tasks can ask of the media loop.
use vstd::prelude::*;

use crate::auth::JoinClaims;
use crate::proto::{ServerMsg, ServerMsgView};
use crate::sfu::tracks::PeerId;

verus! {

/// A join, carried whole so the media loop can accept or refuse it without
/// touching the socket task again.
pub struct JoinRequest {
    pub claims: JoinClaims,
    /// The browser's one and only offer: its microphone plus a video m-line
    /// held ready for a screen share.
    pub sdp: String,
}

/// Everything the signaling tasks can ask of the media loop. The loop owns all
/// WebRTC state and is single-threaded, so these are its only mutations.
pub enum Command {
    Join(Box<JoinRequest>),
    Answer { peer: PeerId, sdp: String },
    Mute { peer: PeerId, muted: bool },
    Screen { peer: PeerId, active: bool },
    Leave { peer: PeerId },
    Shutdown,
}

/// What becomes of a join: a refusal with the message that says why, or the id
/// the peer goes by.
pub enum JoinReply {
    Refused(ServerMsg),
    Admitted(PeerId),
}

#[verifier::ext_equal]
pub enum JoinReplyView {
    Refused(ServerMsgView),
    Admitted(PeerId),
}

impl View for JoinReply {
    type V = JoinReplyView;

    open spec fn view(&self) -> JoinReplyView {
        match *self {
            JoinReply::Refused(message) => JoinReplyView::Refused(message@),
            JoinReply::Admitted(id) => JoinReplyView::Admitted(id),
        }
    }
}

/// What the media loop makes of a command.
pub enum Applied {
    /// Go on.
    Done,
    /// Go on, and answer the socket that asked to join.
    Joined(JoinReply),
    /// Stop.
    Stop,
}

} // verus!
