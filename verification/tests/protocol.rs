//! The wire protocol, the delays between reconnect attempts, and what streams
//! hand on.
use std::time::Duration;

use archastro::builder::{default_backoff, reconnect_delay};
use archastro::json::parse_text;
use archastro::phoenix::{
    build_message, channel_error, join_ref_matches, reply, take_apart, Outgoing,
};
use archastro::stream::{channel_event_step, decoded, socket_event_step, StreamStep};
use archastro::{Error, Json, SocketEvent};

fn json(text: &str) -> Json {
    parse_text(text).expect("a JSON document")
}

#[test]
fn stale_join_refs_are_rejected_after_rejoin() {
    assert!(join_ref_matches(None, Some("new")));
    assert!(join_ref_matches(Some("new"), Some("new")));
    assert!(!join_ref_matches(Some("old"), Some("new")));
    assert!(!join_ref_matches(Some("old"), None));
}

#[test]
fn frames_without_a_join_ref_match_a_channel_without_one() {
    assert!(join_ref_matches(None, None));
}

#[test]
fn reconnect_backoff_clamps_to_the_last_delay() {
    let schedule = [Duration::from_millis(10), Duration::from_secs(2)];
    assert_eq!(reconnect_delay(&schedule, 0), schedule[0]);
    assert_eq!(reconnect_delay(&schedule, 1), schedule[1]);
    assert_eq!(reconnect_delay(&schedule, 99), schedule[1]);
}

#[test]
fn the_default_backoff_rises_to_two_seconds() {
    let schedule = default_backoff();
    let millis: Vec<u128> = schedule.iter().map(|delay| delay.as_millis()).collect();
    assert_eq!(millis, vec![10, 50, 100, 150, 200, 250, 500, 1000, 2000]);
    assert_eq!(reconnect_delay(&schedule, usize::MAX), Duration::from_secs(2));
}

#[test]
fn a_frame_is_written_as_an_array_of_five() {
    let frame = build_message(
        Some("1".to_owned()),
        "2",
        "topic",
        "save",
        json(r#"{"fields":{"a":[1,true,null]}}"#),
    );
    let outgoing = Outgoing { reference: "2".to_owned(), frame };
    assert_eq!(
        outgoing.text(),
        r#"["1","2","topic","save",{"fields":{"a":[1,true,null]}}]"#
    );
}

#[test]
fn a_frame_without_a_join_starts_with_null() {
    let frame = build_message(None, "7", "phoenix", "heartbeat", Json::object());
    let outgoing = Outgoing { reference: "7".to_owned(), frame };
    assert_eq!(outgoing.text(), r#"[null,"7","phoenix","heartbeat",{}]"#);
}

#[test]
fn a_written_frame_is_taken_apart_into_its_parts() {
    let frame = build_message(Some("1".to_owned()), "2", "topic", "save", json("[3]"));
    let parts = take_apart(&frame).expect("a frame");
    assert_eq!(parts.join_ref.as_deref(), Some("1"));
    assert_eq!(parts.reference, "2");
    assert_eq!(parts.topic, "topic");
    assert_eq!(parts.event, "save");
    assert_eq!(parts.payload, json("[3]"));
}

#[test]
fn parts_that_are_no_strings_count_as_empty() {
    let parts = take_apart(&json(r#"[1,null,2,false,"x"]"#)).expect("a frame");
    assert_eq!(parts.join_ref, None);
    assert_eq!(parts.reference, "");
    assert_eq!(parts.topic, "");
    assert_eq!(parts.event, "");
    assert_eq!(parts.payload, json(r#""x""#));
}

#[test]
fn only_arrays_of_five_are_frames() {
    assert!(take_apart(&json("[1,2,3,4]")).is_none());
    assert!(take_apart(&json("[1,2,3,4,5,6]")).is_none());
    assert!(take_apart(&json("{}")).is_none());
    assert!(take_apart(&json("null")).is_none());
}

#[test]
fn an_accepted_reply_gives_its_response() {
    let envelope = json(r#"{"status":"ok","response":{"id":7}}"#);
    assert_eq!(reply("topic", "join", &envelope).unwrap(), json(r#"{"id":7}"#));
    assert_eq!(reply("topic", "join", &json(r#"{"status":"ok"}"#)).unwrap(), Json::Null);
}

#[test]
fn a_rejected_reply_keeps_the_response_as_payload() {
    for envelope in [
        r#"{"status":"error","response":{"reason":"conflict"}}"#,
        r#"{"status":1,"response":{"reason":"conflict"}}"#,
        r#"{"response":{"reason":"conflict"}}"#,
    ] {
        match reply("topic", "save", &json(envelope)) {
            Err(Error::Channel(error)) => {
                assert_eq!(error.operation, "save");
                assert_eq!(error.topic, "topic");
                assert_eq!(error.reason, "server rejected the operation");
                assert_eq!(error.payload, Some(json(r#"{"reason":"conflict"}"#)));
            }
            other => panic!("unexpected outcome: {other:?}"),
        }
    }
    match reply("topic", "save", &json("[]")) {
        Err(Error::Channel(error)) => assert_eq!(error.payload, None),
        other => panic!("unexpected outcome: {other:?}"),
    }
    match reply("t", "join", &json(r#"{"status":"error"}"#)) {
        Err(Error::Channel(error)) => assert_eq!(error.payload, None),
        other => panic!("unexpected outcome: {other:?}"),
    }
    match reply("t", "join", &json(r#"{"status":"error","response":null}"#)) {
        Err(Error::Channel(error)) => assert_eq!(error.payload, Some(Json::Null)),
        other => panic!("unexpected outcome: {other:?}"),
    }
}

#[test]
fn the_later_of_two_members_counts() {
    let twice = Json::Object(vec![
        ("status".to_owned(), Json::Text("error".to_owned())),
        ("status".to_owned(), Json::Text("ok".to_owned())),
    ]);
    assert!(reply("topic", "join", &twice).is_ok());
}

#[test]
fn a_channel_error_without_payload_says_what_failed() {
    match channel_error("topic", "save", "channel is not joined") {
        Error::Channel(error) => {
            assert_eq!(error.operation, "save");
            assert_eq!(error.topic, "topic");
            assert_eq!(error.reason, "channel is not joined");
            assert_eq!(error.payload, None);
        }
        other => panic!("unexpected error: {other:?}"),
    }
}

#[test]
fn missed_socket_events_are_passed_over() {
    assert!(matches!(
        socket_event_step(Some(Ok(SocketEvent::Open))),
        StreamStep::Item(SocketEvent::Open)
    ));
    assert!(matches!(
        socket_event_step(Some(Err("channel lagged by 3".to_owned()))),
        StreamStep::Again
    ));
    assert!(matches!(socket_event_step(None), StreamStep::End));
}

#[test]
fn missed_channel_events_are_reported() {
    assert!(matches!(
        channel_event_step(Some(Ok(Json::Null))),
        StreamStep::Item(Ok(Json::Null))
    ));
    match channel_event_step(Some(Err("channel lagged by 3".to_owned()))) {
        StreamStep::Item(Err(Error::Channel(error))) => {
            assert_eq!(error.operation, "receive");
            assert_eq!(error.topic, "");
            assert_eq!(error.reason, "channel lagged by 3");
            assert_eq!(error.payload, None);
        }
        other => panic!("unexpected step: {other:?}"),
    }
    assert!(matches!(channel_event_step(None), StreamStep::End));
}

#[test]
fn a_payload_of_the_wrong_type_is_a_codec_error() {
    assert_eq!(decoded::<u8>(serde_json::from_str("7")).unwrap(), 7);
    assert!(matches!(
        decoded::<u8>(serde_json::from_str("true")),
        Err(Error::Json(_))
    ));
}

#[test]
fn objects_are_equal_whatever_the_order_of_their_members() {
    let object = |members: &[(&str, &str)]| {
        Json::Object(members.iter().map(|(k, v)| ((*k).to_owned(), json(v))).collect())
    };
    assert_eq!(object(&[("a", "1"), ("b", "[2]")]), object(&[("b", "[2]"), ("a", "1")]));
    assert_eq!(object(&[("a", "0"), ("a", "1")]), object(&[("a", "1")]));
    assert_ne!(object(&[("a", "1")]), object(&[("a", "2")]));
    assert_ne!(object(&[("a", "1")]), object(&[("a", "1"), ("b", "1")]));
    assert_ne!(object(&[("a", "1"), ("b", "1")]), object(&[("a", "1")]));
    assert_ne!(json("[1,2]"), json("[2,1]"));
    assert_ne!(json("[1]"), json("[1,1]"));
    assert_eq!(json("[1.5,null,true]"), json(" [1.5, null, true]"));
    assert_ne!(json("1"), json("\"1\""));
    assert_ne!(json("null"), json("{}"));
}

#[test]
fn documents_are_read_and_written() {
    let text = r#"{"a":[1,-2.5,"x\n",null],"b":{"c":false}}"#;
    assert_eq!(archastro::json::to_text(json(text)), text);
    assert!(parse_text("{").is_none());
    assert!(parse_text("").is_none());
    assert_eq!(parse_text(" true "), Some(Json::Bool(true)));
    assert_eq!(
        archastro::json::parse_bytes(b"[\"\xc3\xa9\"]"),
        Some(Json::Array(vec![Json::Text("\u{e9}".to_owned())]))
    );
    assert!(archastro::json::parse_bytes(b"\xff").is_none());
}
