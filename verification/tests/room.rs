//! Rooms and peers by themselves, with sessions that are never connected.

use std::time::Instant;

use ferrite_sfu::proto::ServerMsg;
use ferrite_sfu::sfu::negotiate::{settle, track_map};
use ferrite_sfu::sfu::outbox::Envelope;
use ferrite_sfu::sfu::peer::{AnswerError, Peer, ICE_DISCONNECT_GRACE, SPEAKING_HOLD};
use ferrite_sfu::sfu::room::Room;
use ferrite_sfu::sfu::tracks::{
    KeyframeKind, MediaKind, Propagated, TrackIn, TrackInEntry, TrackOut, TrackOutState,
};
use ferrite_sfu::sfu::transport::Transport;
use ferrite_sfu::sfu::webrtc::{Happening, IceState, Now, Polled};
use ferrite_sfu::sfu::PeerId;
use str0m::change::SdpAnswer;

fn at(nanos: u64) -> Now {
    Now { instant: Instant::now(), nanos }
}

fn peer(id: u64, user: &str) -> Peer {
    Peer::new(
        PeerId(id),
        Transport::new(false, at(0)),
        user.to_string(),
        format!("name of {user}"),
        "".to_string(),
    )
}

fn room(peers: Vec<Peer>) -> Room {
    let mut room = Room::new("call".to_string());
    room.peers = peers;
    room
}

fn track(origin: u64, mid: &str, kind: MediaKind) -> TrackIn {
    TrackIn { origin: PeerId(origin), mid: mid.to_string(), kind }
}

fn published(origin: u64, mid: &str, kind: MediaKind) -> TrackInEntry {
    TrackInEntry { id: track(origin, mid, kind), last_keyframe_request: None }
}

fn subscription(origin: u64, mid: &str, state: TrackOutState) -> TrackOut {
    TrackOut { track_in: track(origin, mid, MediaKind::Audio), state }
}

fn speakers(outbox: &[Envelope]) -> Vec<(u64, Vec<String>)> {
    outbox
        .iter()
        .filter_map(|envelope| match &envelope.message {
            ServerMsg::Speaking { peer_ids } => Some((envelope.to.0, peer_ids.clone())),
            _ => None,
        })
        .collect()
}

#[test]
fn a_broadcast_reaches_everyone_in_order() {
    let room = room(vec![peer(1, "a"), peer(2, "b")]);
    let mut outbox = Vec::new();
    room.broadcast(ServerMsg::Pong, &mut outbox);
    let to: Vec<u64> = outbox.iter().map(|envelope| envelope.to.0).collect();
    assert_eq!(to, vec![1, 2]);
    assert!(outbox.iter().all(|envelope| matches!(envelope.message, ServerMsg::Pong)));
}

#[test]
fn the_roster_lists_everyone() {
    let mut room = room(vec![peer(1, "a"), peer(2, "b")]);
    room.peer_mut(PeerId(2)).expect("a peer").muted = true;
    assert!(room.peer_mut(PeerId(3)).is_none());
    let roster = room.roster();
    assert_eq!(roster.len(), 2);
    assert_eq!(roster[0].peer_id, "1");
    assert_eq!(roster[0].name, "name of a");
    assert!(!roster[0].muted);
    assert!(roster[1].muted);
    assert!(!room.is_empty());
}

#[test]
fn speakers_are_listed_in_dictionary_order_and_told_once() {
    let mut room = room(vec![peer(9, "a"), peer(10, "b"), peer(2, "c")]);
    for peer in room.peers.iter_mut() {
        peer.speaking_until = Some(1_000);
    }
    room.peers[2].muted = true;
    let mut outbox = Vec::new();
    room.sync_speaking(at(500), &mut outbox);
    let expected = vec!["10".to_string(), "9".to_string()];
    assert_eq!(
        speakers(&outbox),
        vec![(9, expected.clone()), (10, expected.clone()), (2, expected.clone())]
    );
    assert_eq!(room.speaking, expected);
    outbox.clear();
    room.sync_speaking(at(900), &mut outbox);
    assert!(outbox.is_empty());
    room.sync_speaking(at(1_000), &mut outbox);
    assert_eq!(speakers(&outbox).len(), 3);
    assert!(room.speaking.is_empty());
}

#[test]
fn the_departed_do_not_stay_listed_as_speaking() {
    let mut room = room(vec![peer(1, "a"), peer(2, "b")]);
    for peer in room.peers.iter_mut() {
        peer.speaking_until = Some(1_000);
    }
    let mut outbox = Vec::new();
    room.sync_speaking(at(0), &mut outbox);
    outbox.clear();
    let gone = room.remove(PeerId(1), &mut outbox).expect("a peer");
    assert_eq!(gone.user_id, "a");
    assert_eq!(room.speaking, vec!["2".to_string()]);
    assert_eq!(outbox.len(), 1);
    assert_eq!(outbox[0].to, PeerId(2));
    assert!(matches!(&outbox[0].message, ServerMsg::PeerLeft { peer_id } if peer_id == "1"));
    assert!(room.remove(PeerId(1), &mut outbox).is_none());
    assert_eq!(outbox.len(), 1);
}

#[test]
fn a_new_track_is_offered_to_everyone_else() {
    let mut room = room(vec![peer(1, "a"), peer(2, "b"), peer(3, "c")]);
    let opened = room.peers[0].handle_media_added("m0".to_string(), MediaKind::Video);
    assert_eq!(opened.source(), Some(PeerId(1)));
    assert_eq!(room.peers[0].tracks_in.len(), 1);
    room.propagate(&opened);
    assert!(room.peers[0].tracks_out.is_empty());
    for listener in [1, 2] {
        let out = &room.peers[listener].tracks_out;
        assert_eq!(out.len(), 1);
        assert_eq!(out[0].track_in.origin, PeerId(1));
        assert_eq!(out[0].track_in.mid, "m0");
        assert_eq!(out[0].track_in.kind, MediaKind::Video);
        assert!(matches!(out[0].state, TrackOutState::ToOpen));
        assert_eq!(out[0].mid(), None);
    }
    room.propagate(&Propagated::Noop);
    room.propagate(&Propagated::Timeout(5));
    assert_eq!(room.peers[1].tracks_out.len(), 1);
}

#[test]
fn a_joiner_is_subscribed_to_everything_published() {
    let mut room = room(vec![peer(1, "a"), peer(2, "b"), peer(3, "c")]);
    room.peers[0].tracks_in.push(published(1, "x", MediaKind::Audio));
    room.peers[0].tracks_in.push(published(1, "y", MediaKind::Video));
    room.peers[1].tracks_in.push(published(2, "z", MediaKind::Audio));
    room.peers[2].tracks_in.push(published(3, "own", MediaKind::Audio));
    room.subscribe_to_existing(PeerId(3));
    let mids: Vec<&str> =
        room.peers[2].tracks_out.iter().map(|out| out.track_in.mid.as_str()).collect();
    assert_eq!(mids, vec!["x", "y", "z"]);
    room.subscribe_to_existing(PeerId(9));
    assert!(room.peers[0].tracks_out.is_empty());
}

#[test]
fn keyframe_requests_name_the_publisher() {
    let mut subscriber = peer(2, "b");
    subscriber.tracks_out.push(subscription(1, "theirs", TrackOutState::Open("ours".to_string())));
    let present = vec![PeerId(1), PeerId(2)];
    match subscriber.handle_incoming_keyframe_request(&"ours".to_string(), true, &present) {
        Propagated::KeyframeRequest(from, kind, publisher, mid) => {
            assert_eq!(from, PeerId(2));
            assert_eq!(kind, KeyframeKind::Pli);
            assert_eq!(publisher, PeerId(1));
            assert_eq!(mid, "theirs");
        }
        other => panic!("unexpected {other:?}"),
    }
    let unknown = subscriber.handle_incoming_keyframe_request(&"other".to_string(), true, &present);
    assert!(matches!(unknown, Propagated::Noop));
    let gone = subscriber.handle_incoming_keyframe_request(&"ours".to_string(), false, &vec![PeerId(2)]);
    assert!(matches!(gone, Propagated::Noop));
}

#[test]
fn a_keyframe_that_cannot_be_asked_for_is_not_noted() {
    let mut publisher = peer(1, "a");
    publisher.tracks_in.push(published(1, "m", MediaKind::Video));
    publisher.request_keyframe_throttled(&"m".to_string(), KeyframeKind::Pli, at(5));
    assert_eq!(publisher.tracks_in[0].last_keyframe_request, None);
    publisher.serve_keyframe_request(&"m".to_string(), KeyframeKind::Fir);
    publisher.serve_keyframe_request(&"unknown".to_string(), KeyframeKind::Fir);
}

#[test]
fn an_offer_maps_only_lines_that_carry_media() {
    let tracks = vec![
        subscription(1, "a", TrackOutState::ToOpen),
        subscription(1, "b", TrackOutState::Negotiating("m1".to_string())),
        subscription(1, "c", TrackOutState::Open("m2".to_string())),
        subscription(9, "d", TrackOutState::Open("m3".to_string())),
        subscription(1, "e", TrackOutState::ToStop("m4".to_string())),
        subscription(1, "f", TrackOutState::NegotiatingStop("m5".to_string())),
    ];
    let map = track_map(&tracks, &vec![PeerId(1)]);
    let mids: Vec<&str> = map.iter().map(|entry| entry.mid.as_str()).collect();
    assert_eq!(mids, vec!["m1", "m2"]);
    assert!(map.iter().all(|entry| entry.peer_id == "1" && entry.kind == "audio"));
}

#[test]
fn an_answer_opens_what_was_negotiated_and_drops_what_was_stopped() {
    let mut tracks = vec![
        subscription(1, "a", TrackOutState::ToOpen),
        subscription(1, "b", TrackOutState::Negotiating("m1".to_string())),
        subscription(1, "c", TrackOutState::NegotiatingStop("m2".to_string())),
        subscription(1, "d", TrackOutState::ToStop("m3".to_string())),
    ];
    settle(&mut tracks);
    let names: Vec<&str> = tracks.iter().map(|out| out.track_in.mid.as_str()).collect();
    assert_eq!(names, vec!["a", "b", "d"]);
    assert!(matches!(&tracks[1].state, TrackOutState::Open(mid) if mid == "m1"));
    assert!(matches!(&tracks[2].state, TrackOutState::ToStop(_)));
}

#[test]
fn there_is_one_offer_at_a_time() {
    let mut subscriber = peer(2, "b");
    let present = vec![PeerId(1), PeerId(2)];
    let mut outbox = Vec::new();
    assert!(!subscriber.negotiate_if_needed(&present, &mut outbox));
    assert!(outbox.is_empty());
    subscriber.tracks_out.push(subscription(1, "x", TrackOutState::ToOpen));
    assert!(subscriber.negotiate_if_needed(&present, &mut outbox));
    assert!(matches!(subscriber.tracks_out[0].state, TrackOutState::Negotiating(_)));
    assert_eq!(outbox.len(), 1);
    match &outbox[0].message {
        ServerMsg::Offer { sdp, tracks } => {
            assert!(sdp.contains("a=msid:1 1-audio"), "{sdp}");
            assert_eq!(tracks.len(), 1);
            assert_eq!(Some(&tracks[0].mid), subscriber.tracks_out[0].mid());
        }
        other => panic!("unexpected {other:?}"),
    }
    subscriber.tracks_out.push(subscription(1, "y", TrackOutState::ToOpen));
    assert!(!subscriber.negotiate_if_needed(&present, &mut outbox));
    assert_eq!(outbox.len(), 1);
    assert!(matches!(subscriber.tracks_out[1].state, TrackOutState::ToOpen));
}

#[test]
fn a_subscription_to_nobody_waits() {
    let mut subscriber = peer(2, "b");
    let mut outbox = Vec::new();
    subscriber.tracks_out.push(subscription(1, "x", TrackOutState::ToOpen));
    assert!(!subscriber.negotiate_if_needed(&vec![PeerId(2)], &mut outbox));
    assert!(matches!(subscriber.tracks_out[0].state, TrackOutState::ToOpen));
}

#[test]
fn an_answer_without_an_offer_is_an_error() {
    let mut subscriber = peer(2, "b");
    let answer = SdpAnswer::from_sdp_string(
        "v=0\r\no=- 1 2 IN IP4 0.0.0.0\r\ns=-\r\nt=0 0\r\n",
    );
    if let Ok(answer) = answer {
        assert_eq!(subscriber.accept_answer(answer), Err(AnswerError::NoPendingOffer));
    }
}

#[test]
fn a_connection_is_noted_and_its_loss_timed() {
    let mut one = peer(1, "a");
    let nobody = Vec::new();
    assert!(!one.connected);
    one.handle_event(Happening::Ice(IceState::Checking), &nobody, at(1));
    assert!(!one.connected);
    one.handle_event(Happening::Ice(IceState::Completed), &nobody, at(2));
    assert!(one.connected);
    one.handle_event(Happening::Ice(IceState::Disconnected), &nobody, at(10));
    one.handle_event(Happening::Ice(IceState::Disconnected), &nobody, at(20));
    assert_eq!(one.disconnected_since, Some(10));
    assert!(!one.is_abandoned(at(10 + ICE_DISCONNECT_GRACE - 1)));
    assert!(one.is_abandoned(at(10 + ICE_DISCONNECT_GRACE)));
    assert!(!one.is_abandoned(at(0)));
    one.handle_event(Happening::Ice(IceState::Connected), &nobody, at(30));
    assert!(!one.is_abandoned(at(u64::MAX)));
}

#[test]
fn speech_is_held_for_its_time() {
    let mut one = peer(1, "a");
    one.speaking_until = Some(100 + SPEAKING_HOLD);
    assert!(one.is_speaking(at(100)));
    assert!(one.is_speaking(at(99 + SPEAKING_HOLD)));
    assert!(!one.is_speaking(at(100 + SPEAKING_HOLD)));
    one.speaking_until = None;
    assert!(!one.is_speaking(at(0)));
}

#[test]
fn a_closed_session_only_says_when_to_ask_again() {
    let mut link = Transport::new(false, at(0));
    link.disconnect();
    assert!(matches!(link.poll(at(0)), Some(Polled::Timeout { ahead, behind: 0 }) if ahead > 0));
    assert!(!link.is_alive());
}
