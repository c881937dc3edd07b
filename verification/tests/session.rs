use ferrite_sfu::auth::AuthError;
use ferrite_sfu::proto::{ClientMsg, ServerMsg};
use ferrite_sfu::sfu::command::JoinReply;
use ferrite_sfu::sfu::{Command, PeerId};
use ferrite_sfu::signal::session::{
    admission, entry, forward, Admission, Entry, FirstFrame, Forwarded, Frame, Verdict,
};
use jsonwebtoken::errors::ErrorKind;
use jsonwebtoken::{encode, Algorithm, EncodingKey, Header};
use serde_json::Value;

const SECRET: &str = "integration-test-secret";

fn error_code(message: &ServerMsg) -> &str {
    match message {
        ServerMsg::Error { code, .. } => code,
        other => panic!("expected an error, got {other:?}"),
    }
}

fn refusal(admission: Admission) -> Option<ServerMsg> {
    match admission {
        Admission::Refuse(message) => message,
        Admission::Reject(_, message) => Some(message),
        Admission::Ask(_) => panic!("expected a refusal"),
    }
}

fn token(room: &str, user: &str) -> String {
    let exp = std::time::SystemTime::now()
        .duration_since(std::time::UNIX_EPOCH)
        .unwrap()
        .as_secs()
        + 300;
    let mut claims = serde_json::Map::new();
    claims.insert("sub".to_string(), Value::from(user));
    claims.insert("room".to_string(), Value::from(room));
    claims.insert("call_id".to_string(), Value::from("call-under-test"));
    claims.insert("name".to_string(), Value::from(user));
    claims.insert("avatar_url".to_string(), Value::from(""));
    claims.insert("exp".to_string(), Value::from(exp));
    encode(
        &Header::new(Algorithm::HS256),
        &Value::Object(claims),
        &EncodingKey::from_secret(SECRET.as_bytes()),
    )
    .expect("mint token")
}

#[test]
fn a_bad_token_is_refused_before_any_media() {
    let first = FirstFrame::Message(ClientMsg::Join {
        token: "not-a-token".to_string(),
        sdp: "v=0\r\n".to_string(),
    });
    let message = refusal(admission(first, SECRET)).expect("a reply");
    assert_eq!(error_code(&message), "unauthorized");
}

#[test]
fn a_good_token_is_carried_to_the_media_loop() {
    let first = FirstFrame::Message(ClientMsg::Join {
        token: token("room-1", "user-alice"),
        sdp: "v=0\r\n".to_string(),
    });
    match admission(first, SECRET) {
        Admission::Ask(request) => {
            assert_eq!(request.claims.sub, "user-alice");
            assert_eq!(request.claims.room, "room-1");
            assert_eq!(request.claims.call_id, "call-under-test");
            assert_eq!(request.sdp, "v=0\r\n");
        }
        _ => panic!("refused"),
    }
}

#[test]
fn a_good_token_under_another_secret_is_refused() {
    let first = FirstFrame::Message(ClientMsg::Join {
        token: token("room-1", "user-alice"),
        sdp: "v=0\r\n".to_string(),
    });
    let message = refusal(admission(first, "another secret")).expect("a reply");
    assert_eq!(error_code(&message), "unauthorized");
}

#[test]
fn a_rejection_says_what_was_wrong_with_the_token() {
    let first = FirstFrame::Message(ClientMsg::Join {
        token: token("room-1", "user-alice"),
        sdp: "v=0\r\n".to_string(),
    });
    assert!(matches!(
        admission(first, "another secret"),
        Admission::Reject(AuthError::Invalid(ErrorKind::InvalidSignature), _)
    ));
}

#[test]
fn the_first_frame_must_be_a_join() {
    for first in [FirstFrame::Unreadable, FirstFrame::Message(ClientMsg::Ping), FirstFrame::Message(ClientMsg::Leave)] {
        let message = refusal(admission(first, SECRET)).expect("a reply");
        assert_eq!(error_code(&message), "expected_join");
    }
}

#[test]
fn a_socket_without_a_first_text_is_closed_in_silence() {
    for first in [FirstFrame::Deadline, FirstFrame::Closed, FirstFrame::Failed, FirstFrame::NotText] {
        assert!(refusal(admission(first, SECRET)).is_none());
    }
}

#[test]
fn the_answer_of_the_media_loop_decides() {
    match entry(Verdict::Gone) {
        Entry::Refuse(Some(message)) => assert_eq!(error_code(&message), "unavailable"),
        _ => panic!("expected a refusal"),
    }
    assert!(matches!(entry(Verdict::Dropped), Entry::Refuse(None)));
    let full = JoinReply::Refused(ServerMsg::error("room_full", "This call is full."));
    match entry(Verdict::Answered(full)) {
        Entry::Refuse(Some(message)) => assert_eq!(error_code(&message), "room_full"),
        _ => panic!("expected a refusal"),
    }
    assert!(matches!(
        entry(Verdict::Answered(JoinReply::Admitted(PeerId(7)))),
        Entry::Enter(PeerId(7))
    ));
}

#[test]
fn frames_become_commands_of_their_peer() {
    let peer = PeerId(3);
    let answer = Frame::Text(Some(ClientMsg::Answer { sdp: "v=0".to_string() }));
    assert!(matches!(
        forward(answer, peer),
        Forwarded::Tell(Command::Answer { peer: PeerId(3), sdp }) if sdp == "v=0"
    ));
    assert!(matches!(
        forward(Frame::Text(Some(ClientMsg::Mute { muted: true })), peer),
        Forwarded::Tell(Command::Mute { peer: PeerId(3), muted: true })
    ));
    assert!(matches!(
        forward(Frame::Text(Some(ClientMsg::Screen { active: false })), peer),
        Forwarded::Tell(Command::Screen { peer: PeerId(3), active: false })
    ));
    assert!(matches!(
        forward(Frame::Text(Some(ClientMsg::Ping)), peer),
        Forwarded::Answer(ServerMsg::Pong)
    ));
}

#[test]
fn a_peer_hangs_up_by_leaving_or_closing() {
    let peer = PeerId(3);
    for frame in [Frame::Text(Some(ClientMsg::Leave)), Frame::Closed] {
        assert!(matches!(
            forward(frame, peer),
            Forwarded::HangUp(Command::Leave { peer: PeerId(3) })
        ));
    }
    assert!(matches!(forward(Frame::Other, peer), Forwarded::Ignore));
}

#[test]
fn protocol_errors_are_answered_and_survived() {
    let peer = PeerId(3);
    let again = ClientMsg::Join { token: "t".to_string(), sdp: "s".to_string() };
    match forward(Frame::Text(Some(again)), peer) {
        Forwarded::Complain(message) => assert_eq!(error_code(&message), "already_joined"),
        _ => panic!("expected a complaint"),
    }
    match forward(Frame::Text(None), peer) {
        Forwarded::Complain(message) => assert_eq!(error_code(&message), "bad_message"),
        _ => panic!("expected a complaint"),
    }
}
