//! The signaling frames exchanged with a browser.
use vstd::prelude::*;

use crate::names::{copy_names, texts};

verus! {

/// Which peer a negotiated m-line carries. The browser cannot work this out
/// from SDP alone, so every offer states it.
#[derive(Debug)]
pub struct TrackMap {
    pub mid: String,
    pub peer_id: String,
    /// "audio" or "video". Video is always the screen share.
    pub kind: String,
}

#[verifier::ext_equal]
pub struct TrackMapView {
    pub mid: Seq<char>,
    pub peer_id: Seq<char>,
    pub kind: Seq<char>,
}

impl View for TrackMap {
    type V = TrackMapView;

    open spec fn view(&self) -> TrackMapView {
        TrackMapView { mid: self.mid@, peer_id: self.peer_id@, kind: self.kind@ }
    }
}

impl Clone for TrackMap {
    fn clone(&self) -> (copy: Self)
        ensures
            copy@ == self@,
    {
        TrackMap {
            mid: self.mid.clone(),
            peer_id: self.peer_id.clone(),
            kind: self.kind.clone(),
        }
    }
}

/// Who is in the room, as far as the app layer cares. Media state (speaking,
/// track presence) rides separately so this can be sent once on join.
#[derive(Debug)]
pub struct PeerInfo {
    pub peer_id: String,
    pub user_id: String,
    pub name: String,
    pub avatar_url: String,
    pub muted: bool,
    pub screen: bool,
}

#[verifier::ext_equal]
pub struct PeerInfoView {
    pub peer_id: Seq<char>,
    pub user_id: Seq<char>,
    pub name: Seq<char>,
    pub avatar_url: Seq<char>,
    pub muted: bool,
    pub screen: bool,
}

impl View for PeerInfo {
    type V = PeerInfoView;

    open spec fn view(&self) -> PeerInfoView {
        PeerInfoView {
            peer_id: self.peer_id@,
            user_id: self.user_id@,
            name: self.name@,
            avatar_url: self.avatar_url@,
            muted: self.muted,
            screen: self.screen,
        }
    }
}

impl Clone for PeerInfo {
    fn clone(&self) -> (copy: Self)
        ensures
            copy@ == self@,
    {
        PeerInfo {
            peer_id: self.peer_id.clone(),
            user_id: self.user_id.clone(),
            name: self.name.clone(),
            avatar_url: self.avatar_url.clone(),
            muted: self.muted,
            screen: self.screen,
        }
    }
}

pub open spec fn peer_infos(list: Seq<PeerInfo>) -> Seq<PeerInfoView> {
    list.map_values(|p: PeerInfo| p@)
}

pub open spec fn track_maps(list: Seq<TrackMap>) -> Seq<TrackMapView> {
    list.map_values(|t: TrackMap| t@)
}

/// Browser to SFU. The first frame must be `Join`; anything else closes the
/// socket. Only the SFU offers after that, so there is no glare to resolve.
#[derive(Debug)]
pub enum ClientMsg {
    Join { token: String, sdp: String },
    Answer { sdp: String },
    Mute { muted: bool },
    Screen { active: bool },
    Leave,
    Ping,
}

/// SFU to browser.
#[derive(Debug)]
pub enum ServerMsg {
    Joined { peer_id: String, call_id: String, sdp: String, peers: Vec<PeerInfo> },
    /// A renegotiation offer. Always answered, never counter-offered.
    Offer { sdp: String, tracks: Vec<TrackMap> },
    PeerJoined { peer: PeerInfo },
    PeerLeft { peer_id: String },
    PeerState { peer_id: String, muted: bool, screen: bool },
    /// Peer ids currently talking, recomputed from the RTP audio-level header
    /// extension. The SFU never decodes audio to work this out.
    Speaking { peer_ids: Vec<String> },
    Error { code: String, message: String },
    Pong,
}

#[verifier::ext_equal]
pub enum ServerMsgView {
    Joined {
        peer_id: Seq<char>,
        call_id: Seq<char>,
        sdp: Seq<char>,
        peers: Seq<PeerInfoView>,
    },
    Offer { sdp: Seq<char>, tracks: Seq<TrackMapView> },
    PeerJoined { peer: PeerInfoView },
    PeerLeft { peer_id: Seq<char> },
    PeerState { peer_id: Seq<char>, muted: bool, screen: bool },
    Speaking { peer_ids: Seq<Seq<char>> },
    Error { code: Seq<char>, message: Seq<char> },
    Pong,
}

impl View for ServerMsg {
    type V = ServerMsgView;

    open spec fn view(&self) -> ServerMsgView {
        match *self {
            ServerMsg::Joined { peer_id, call_id, sdp, peers } => ServerMsgView::Joined {
                peer_id: peer_id@,
                call_id: call_id@,
                sdp: sdp@,
                peers: peer_infos(peers@),
            },
            ServerMsg::Offer { sdp, tracks } => ServerMsgView::Offer {
                sdp: sdp@,
                tracks: track_maps(tracks@),
            },
            ServerMsg::PeerJoined { peer } => ServerMsgView::PeerJoined { peer: peer@ },
            ServerMsg::PeerLeft { peer_id } => ServerMsgView::PeerLeft { peer_id: peer_id@ },
            ServerMsg::PeerState { peer_id, muted, screen } => ServerMsgView::PeerState {
                peer_id: peer_id@,
                muted,
                screen,
            },
            ServerMsg::Speaking { peer_ids } => ServerMsgView::Speaking {
                peer_ids: texts(peer_ids@),
            },
            ServerMsg::Error { code, message } => ServerMsgView::Error {
                code: code@,
                message: message@,
            },
            ServerMsg::Pong => ServerMsgView::Pong,
        }
    }
}

impl Clone for ServerMsg {
    fn clone(&self) -> (copy: Self)
        ensures
            copy@ == self@,
    {
        match self {
            ServerMsg::Joined { peer_id, call_id, sdp, peers } => {
                let copies = peers.clone();
                assert(peer_infos(copies@) =~= peer_infos(peers@));
                ServerMsg::Joined {
                    peer_id: peer_id.clone(),
                    call_id: call_id.clone(),
                    sdp: sdp.clone(),
                    peers: copies,
                }
            },
            ServerMsg::Offer { sdp, tracks } => {
                let copies = tracks.clone();
                assert(track_maps(copies@) =~= track_maps(tracks@));
                ServerMsg::Offer { sdp: sdp.clone(), tracks: copies }
            },
            ServerMsg::PeerJoined { peer } => ServerMsg::PeerJoined { peer: peer.clone() },
            ServerMsg::PeerLeft { peer_id } => ServerMsg::PeerLeft { peer_id: peer_id.clone() },
            ServerMsg::PeerState { peer_id, muted, screen } => ServerMsg::PeerState {
                peer_id: peer_id.clone(),
                muted: *muted,
                screen: *screen,
            },
            ServerMsg::Speaking { peer_ids } => ServerMsg::Speaking {
                peer_ids: copy_names(peer_ids),
            },
            ServerMsg::Error { code, message } => ServerMsg::Error {
                code: code.clone(),
                message: message.clone(),
            },
            ServerMsg::Pong => ServerMsg::Pong,
        }
    }
}

/// The error frame with a given code and explanation.
pub open spec fn error_frame(code: Seq<char>, message: Seq<char>) -> ServerMsgView {
    ServerMsgView::Error { code, message }
}

impl ServerMsg {
    pub fn error(code: &str, message: &str) -> (frame: Self)
        ensures
            frame@ == error_frame(code@, message@),
    {
        ServerMsg::Error { code: code.to_string(), message: message.to_string() }
    }
}

} // verus!
