use ferrite_sfu::report::{
    sign, Attempted, Delivery, ReportEvent, SCREEN_SHARE, SERVER_STARTED, SIGNATURE_HEADER,
};
use serde_json::Value;

fn text(value: &str) -> Value {
    Value::String(value.to_string())
}

/// The event under the field names it is posted with.
fn to_json(event: &ReportEvent) -> Value {
    let mut room = serde_json::Map::new();
    room.insert("name".to_string(), text(&event.room.name));
    let mut json = serde_json::Map::new();
    json.insert("id".to_string(), text(&event.id));
    json.insert("event".to_string(), text(event.event));
    json.insert("room".to_string(), Value::Object(room));
    if let Some(participant) = &event.participant {
        let mut inner = serde_json::Map::new();
        inner.insert("identity".to_string(), text(&participant.identity));
        json.insert("participant".to_string(), Value::Object(inner));
    }
    if let Some(track) = &event.track {
        let mut inner = serde_json::Map::new();
        inner.insert("source".to_string(), text(track.source));
        json.insert("track".to_string(), Value::Object(inner));
    }
    Value::Object(json)
}

#[test]
fn signature_is_stable_and_key_dependent() {
    assert_eq!(sign(b"{}", "a"), sign(b"{}", "a"));
    assert_ne!(sign(b"{}", "a"), sign(b"{}", "b"));
    assert_ne!(sign(b"{}", "a"), sign(b"{ }", "a"));
}

#[test]
fn events_carry_the_livekit_field_names() {
    let event = ReportEvent::new("participant_joined", "room-1").identity("user-1");
    let json = to_json(&event);
    assert_eq!(json["event"], "participant_joined");
    assert_eq!(json["room"]["name"], "room-1");
    assert_eq!(json["participant"]["identity"], "user-1");
    assert!(json.get("track").is_none());
}

#[test]
fn a_signature_is_the_base64_hmac_sha256_of_the_body() {
    assert_eq!(
        sign(b"what do ya want for nothing?", "Jefe"),
        "W9zBRr9gdU5qBCQmCJV1x1oAPwidJzmDnexYuWTsOEM="
    );
}

#[test]
fn event_ids_are_random_uuids() {
    let one = ReportEvent::new("room_finished", "r").id;
    let other = ReportEvent::new("room_finished", "r").id;
    assert_ne!(one, other);
    assert_eq!(one.len(), 36);
    assert_eq!(one.as_bytes()[14], b'4');
}

#[test]
fn a_screen_share_names_its_source() {
    let event = ReportEvent::new("track_published", "room-1").identity("user-1").screen_share();
    let json = to_json(&event);
    assert_eq!(json["track"]["source"], "SCREEN_SHARE");
    assert_eq!(SCREEN_SHARE, "SCREEN_SHARE");
    assert_eq!(json["participant"]["identity"], "user-1");
    assert_eq!(SIGNATURE_HEADER, "x-sfu-signature");
}

#[test]
fn most_reports_are_given_up_after_three_attempts() {
    let event = ReportEvent::new("room_finished", "r");
    let mut delivery = Delivery::new(&event);
    assert_eq!(delivery.attempted(false), Attempted::Retry(250));
    assert_eq!(delivery.attempted(false), Attempted::Retry(500));
    assert_eq!(delivery.attempted(false), Attempted::Dropped(750));
}

#[test]
fn the_boot_announcement_is_tried_twelve_times() {
    let event = ReportEvent::new(SERVER_STARTED, "");
    let mut delivery = Delivery::new(&event);
    for attempt in 1..12 {
        assert_eq!(delivery.attempted(false), Attempted::Retry(250 * attempt));
    }
    assert_eq!(delivery.attempted(false), Attempted::Dropped(3000));
}

#[test]
fn a_delivered_report_is_not_retried() {
    let event = ReportEvent::new("room_finished", "r");
    let mut delivery = Delivery::new(&event);
    assert_eq!(delivery.attempted(false), Attempted::Retry(250));
    assert_eq!(delivery.attempted(true), Attempted::Delivered);
}
