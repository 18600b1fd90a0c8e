//! The state of a socket and its channels, driven by hand.
use std::time::Duration;

use archastro::builder::SocketBuilder;
use archastro::channel::{
    heartbeat_lost, Channel, FlushStep, HeartbeatStep, JoinStart, LeaveStart, PushStart,
    QueueOutcome, ReadStep, Received, ReconnectAction, ReconnectEvent, RequestOutcome, Socket,
    Wire, BUFFER_CAPACITY,
};
use archastro::json::parse_text;
use archastro::phoenix::Outgoing;
use archastro::table::EventKey;
use archastro::{ChannelState, Error, Json, SocketEvent};

type Core = Socket<&'static str, &'static str>;

fn json(text: &str) -> Json {
    parse_text(text).expect("a JSON document")
}

fn builder() -> SocketBuilder {
    SocketBuilder::new("ws://localhost:4005/socket/api/websocket".to_owned())
}

fn socket() -> Core {
    Socket::new(builder().configure().expect("a configuration"))
}

fn key(topic: &str, event: &str) -> EventKey {
    EventKey { topic: topic.to_owned(), event: event.to_owned() }
}

fn answer(reference: &str, topic: &str, envelope: &str) -> String {
    format!(r#"[null,"{reference}","{topic}","phx_reply",{envelope}]"#)
}

/// Hands a reply in and returns what the request comes to.
fn settle(
    socket: &mut Core,
    outgoing: Outgoing,
    topic: &str,
    envelope: &str,
) -> Result<(String, Json), Error> {
    let text = answer(&outgoing.reference, topic, envelope);
    match socket.receive(&text) {
        Received::Reply { payload, .. } => {
            socket.settle_request(outgoing.reference, RequestOutcome::Answered(Ok(payload)))
        }
        other => panic!("unexpected answer: {other:?}"),
    }
}

fn joined(socket: &mut Core, topic: &str) -> Channel {
    let channel = socket.channel(topic.to_owned());
    channel.join(socket, json("{}"));
    match channel.begin_join(socket, "join") {
        JoinStart::Send(outgoing) => {
            let outcome = settle(socket, outgoing, topic, r#"{"status":"ok","response":{}}"#);
            let now = channel.finish_join(socket, outcome).expect("join channel");
            assert_eq!(now.response, json("{}"));
        }
        other => panic!("unexpected start: {other:?}"),
    }
    channel
}

#[test]
fn request_timeout_removes_pending_reply() {
    let mut socket = socket();
    let outgoing = socket
        .begin_request(None, "topic", "event", json("{}"), "caller")
        .expect("connected");
    let result = socket.settle_request(outgoing.reference.clone(), RequestOutcome::TimedOut);
    assert!(matches!(result, Err(Error::Timeout)));
    let late = answer(&outgoing.reference, "topic", r#"{"status":"ok"}"#);
    assert!(matches!(socket.receive(&late), Received::Ignored));
    assert!(socket.disconnect().expect("was connected").is_empty());
}

#[test]
fn buffered_push_timeout_removes_the_queued_operation() {
    let mut socket = socket();
    let channel = socket.channel("topic".to_owned());
    channel.join(&mut socket, json("{}"));
    assert!(channel.finish_join(&mut socket, Err(Error::Timeout)).is_err());
    assert_eq!(channel.state(&socket), ChannelState::Errored);
    let reference = match channel.push(&mut socket, "save", json("{}"), "caller") {
        PushStart::Queued(reference) => reference,
        other => panic!("unexpected start: {other:?}"),
    };
    let other = match channel.push(&mut socket, "other", json("{}"), "second") {
        PushStart::Queued(reference) => reference,
        other => panic!("unexpected start: {other:?}"),
    };
    assert_ne!(reference, other);
    let result = channel.settle_queued(&mut socket, &reference, QueueOutcome::TimedOut);
    assert!(matches!(result, Err(Error::Timeout)));
    let now = channel
        .finish_join(&mut socket, Ok(("9".to_owned(), json(r#"{"status":"ok"}"#))))
        .expect("join channel");
    assert_eq!(now.pushes.len(), 1);
    assert_eq!(now.pushes[0].reference, other);
    assert_eq!(now.pushes[0].event, "other");
    assert_eq!(now.pushes[0].sender, "second");
}

#[test]
fn waiting_pushes_have_references_of_their_own_and_are_handed_out_once() {
    let mut socket = socket();
    let one = socket.channel("one".to_owned());
    let two = socket.channel("two".to_owned());
    let mut references: Vec<String> = Vec::new();
    for channel in [&one, &two] {
        channel.join(&mut socket, json("{}"));
        for event in ["a", "b", "c"] {
            match channel.push(&mut socket, event, json("{}"), "caller") {
                PushStart::Queued(reference) => references.push(reference),
                other => panic!("unexpected start: {other:?}"),
            }
        }
    }
    assert_eq!(references, ["1", "2", "3", "4", "5", "6"]);
    let result = one.settle_queued(&mut socket, &references[1], QueueOutcome::TimedOut);
    assert!(matches!(result, Err(Error::Timeout)));

    let accepted = r#"{"status":"ok","response":{}}"#;
    let first = one
        .finish_join(&mut socket, Ok(("9".to_owned(), json(accepted))))
        .expect("join channel");
    let events: Vec<&str> = first.pushes.iter().map(|push| push.event.as_str()).collect();
    assert_eq!(events, ["a", "c"]);
    for push in first.pushes {
        let event = push.event.clone();
        match one.flush_push(&mut socket, push, false, "flush") {
            FlushStep::Send { outgoing, .. } => {
                let expected = format!(
                    r#"["9","{}","one","{event}",{{}}]"#,
                    outgoing.reference
                );
                assert_eq!(outgoing.frame, json(&expected));
                let outcome = settle(&mut socket, outgoing, "one", accepted);
                assert_eq!(one.finish_push(&event, outcome).expect("a reply"), json("{}"));
            }
            other => panic!("unexpected step: {other:?}"),
        }
    }

    let again = one
        .finish_join(&mut socket, Ok(("10".to_owned(), json(accepted))))
        .expect("join channel");
    assert!(again.pushes.is_empty());
    let second = two
        .finish_join(&mut socket, Ok(("11".to_owned(), json(accepted))))
        .expect("join channel");
    let waiting: Vec<&str> = second.pushes.iter().map(|push| push.reference.as_str()).collect();
    assert_eq!(waiting, ["4", "5", "6"]);
}

#[test]
fn the_other_outcomes_of_a_queued_push_are_handed_on() {
    let mut socket = socket();
    let channel = socket.channel("topic".to_owned());
    let answered = QueueOutcome::Answered(Ok(json("[1]")));
    assert_eq!(channel.settle_queued(&mut socket, "1", answered).unwrap(), json("[1]"));
    let refused = QueueOutcome::Answered(Err(Error::Timeout));
    assert!(matches!(
        channel.settle_queued(&mut socket, "1", refused),
        Err(Error::Timeout)
    ));
    assert!(matches!(
        channel.settle_queued(&mut socket, "1", QueueOutcome::Dropped),
        Err(Error::Closed)
    ));
}

#[test]
fn join_rejection_preserves_the_server_payload() {
    let mut socket = socket();
    let topic = "api:object:test-id";
    let channel = socket.channel(topic.to_owned());
    channel.join(&mut socket, json("{}"));
    let outgoing = match channel.begin_join(&mut socket, "join") {
        JoinStart::Send(outgoing) => outgoing,
        other => panic!("unexpected start: {other:?}"),
    };
    assert_eq!(channel.state(&socket), ChannelState::Joining);
    let envelope = r#"{"status":"error","response":{"reason":"denied"}}"#;
    let outcome = settle(&mut socket, outgoing, topic, envelope);
    match channel.finish_join(&mut socket, outcome) {
        Err(Error::Channel(error)) => {
            assert_eq!(error.operation, "join");
            assert_eq!(error.topic, topic);
            assert_eq!(error.payload, Some(json(r#"{"reason":"denied"}"#)));
        }
        other => panic!("expected channel error, got {other:?}"),
    }
    assert_eq!(channel.state(&socket), ChannelState::Errored);
}

#[test]
fn a_join_that_times_out_fails_the_channel() {
    let mut socket = socket();
    let channel = socket.channel("topic".to_owned());
    channel.join(&mut socket, json("{}"));
    let outgoing = match channel.begin_join(&mut socket, "join") {
        JoinStart::Send(outgoing) => outgoing,
        other => panic!("unexpected start: {other:?}"),
    };
    let outcome = socket.settle_request(outgoing.reference, RequestOutcome::TimedOut);
    assert!(matches!(
        channel.finish_join(&mut socket, outcome),
        Err(Error::Timeout)
    ));
    assert_eq!(channel.state(&socket), ChannelState::Errored);
    assert!(channel.wants_join(&socket));
}

#[test]
fn a_joined_channel_joins_at_once() {
    let mut socket = socket();
    let channel = joined(&mut socket, "topic");
    match channel.begin_join(&mut socket, "join") {
        JoinStart::Done(response) => assert_eq!(response, json("{}")),
        other => panic!("unexpected start: {other:?}"),
    }
}

#[test]
fn push_rejection_and_timeout_are_typed_errors() {
    let mut socket = socket();
    let topic = "api:object:test-id";
    let channel = joined(&mut socket, topic);
    let outgoing = match channel.push(&mut socket, "save", json("{}"), "save") {
        PushStart::Send(outgoing) => outgoing,
        other => panic!("unexpected start: {other:?}"),
    };
    let envelope = r#"{"status":"error","response":{"reason":"conflict"}}"#;
    let outcome = settle(&mut socket, outgoing, topic, envelope);
    assert!(matches!(
        channel.finish_push("save", outcome),
        Err(Error::Channel(_))
    ));
    let payload = json(r#"{"presence":{}}"#);
    let outgoing = match channel.push(&mut socket, "presence_update", payload, "presence") {
        PushStart::Send(outgoing) => outgoing,
        other => panic!("unexpected start: {other:?}"),
    };
    assert_eq!(outgoing.reference, "3");
    let outcome = socket.settle_request(outgoing.reference, RequestOutcome::TimedOut);
    assert!(matches!(
        channel.finish_push("presence_update", outcome),
        Err(Error::Timeout)
    ));
}

#[test]
fn a_push_names_the_join_it_belongs_to() {
    let mut socket = socket();
    let channel = joined(&mut socket, "topic");
    match channel.push(&mut socket, "save", json(r#"{"a":1}"#), "save") {
        PushStart::Send(outgoing) => {
            assert_eq!(outgoing.text(), r#"["1","2","topic","save",{"a":1}]"#);
        }
        other => panic!("unexpected start: {other:?}"),
    }
}

#[test]
fn a_push_on_a_channel_that_nobody_joined_is_refused() {
    let mut socket = socket();
    let channel = socket.channel("topic".to_owned());
    match channel.push(&mut socket, "save", json("{}"), "save") {
        PushStart::Failed(Error::Channel(error)) => {
            assert_eq!(error.operation, "save");
            assert_eq!(error.topic, "topic");
            assert_eq!(error.reason, "channel is not joined");
            assert_eq!(error.payload, None);
        }
        other => panic!("unexpected start: {other:?}"),
    }
}

#[test]
fn disconnect_reconnects_rejoins_and_flushes_buffered_pushes() {
    let config = builder()
        .reconnect_backoff(vec![Duration::from_millis(150)])
        .configure()
        .expect("a configuration");
    let mut socket: Core = Socket::new(config);
    let topic = "api:object:test-id";
    let channel = joined(&mut socket, topic);

    let payload = json(r#"{"fields":{}}"#);
    let lost = match channel.push(&mut socket, "update_fields", payload, "update") {
        PushStart::Send(outgoing) => outgoing,
        other => panic!("unexpected start: {other:?}"),
    };
    match socket.read(None) {
        ReadStep::Stop(events) => {
            assert_eq!(
                events,
                vec![SocketEvent::Close { code: None, reason: String::new() }]
            );
        }
        other => panic!("unexpected step: {other:?}"),
    }
    let waiting = socket.disconnect().expect("was connected");
    assert_eq!(waiting, vec![(lost.reference.clone(), "update")]);
    assert!(socket.disconnect().is_none());
    let closed = RequestOutcome::Answered(Err(Error::Closed));
    let outcome = socket.settle_request(lost.reference, closed);
    assert!(matches!(
        channel.finish_push("update_fields", outcome),
        Err(Error::Closed)
    ));
    assert_eq!(channel.state(&socket), ChannelState::Errored);

    assert!(matches!(
        channel.push(&mut socket, "save", json("{}"), "save"),
        PushStart::Queued(_)
    ));
    assert!(socket.begin_reconnect());
    assert!(!socket.begin_reconnect());
    let mut attempt = 0;
    match socket.reconnect(&mut attempt, ReconnectEvent::Begun) {
        ReconnectAction::Wait(delay) => assert_eq!(delay, Duration::from_millis(150)),
        other => panic!("unexpected action: {other:?}"),
    }
    assert_eq!(attempt, 1);
    assert!(matches!(
        socket.reconnect(&mut attempt, ReconnectEvent::Waited),
        ReconnectAction::Connect
    ));
    match socket.reconnect(&mut attempt, ReconnectEvent::Failed("refused".to_owned())) {
        ReconnectAction::Retry(event, delay) => {
            assert_eq!(event, SocketEvent::Error("refused".to_owned()));
            assert_eq!(delay, Duration::from_millis(150));
        }
        other => panic!("unexpected action: {other:?}"),
    }
    assert!(!socket.is_connected());
    match socket.reconnect(&mut attempt, ReconnectEvent::Connected) {
        ReconnectAction::Rejoin(event) => assert_eq!(event, SocketEvent::Open),
        other => panic!("unexpected action: {other:?}"),
    }
    assert!(socket.is_connected());

    let mut wanted = socket.rejoin_channels();
    assert_eq!(wanted.len(), 1);
    let again = wanted.pop().expect("one channel");
    assert_eq!(again.topic(), topic);
    let outgoing = match again.begin_rejoin(&mut socket, "rejoin") {
        Some(JoinStart::Send(outgoing)) => outgoing,
        other => panic!("unexpected start: {other:?}"),
    };
    let join_ref = outgoing.reference.clone();
    let outcome = settle(&mut socket, outgoing, topic, r#"{"status":"ok"}"#);
    let now = again.finish_join(&mut socket, outcome).expect("rejoin");
    assert_eq!(channel.state(&socket), ChannelState::Joined);
    let mut pushes = now.pushes;
    assert_eq!(pushes.len(), 1);
    let push = pushes.pop().expect("one push");
    assert_eq!(push.event, "save");
    match again.flush_push(&mut socket, push, false, "flush") {
        FlushStep::Send { outgoing, event, caller } => {
            assert_eq!(event, "save");
            assert_eq!(caller, "save");
            let expected = format!(
                r#"["{join_ref}","{}","{topic}","save",{{}}]"#,
                outgoing.reference
            );
            assert_eq!(outgoing.text(), expected);
        }
        other => panic!("unexpected step: {other:?}"),
    }
    socket.release(again);
    assert!(socket.holds(&channel));
}

#[test]
fn a_flushed_push_without_a_caller_or_transport_is_not_sent() {
    let mut socket = socket();
    let channel = socket.channel("topic".to_owned());
    channel.join(&mut socket, json("{}"));
    for _ in 0..2 {
        assert!(matches!(
            channel.push(&mut socket, "save", json("{}"), "caller"),
            PushStart::Queued(_)
        ));
    }
    let now = channel
        .finish_join(&mut socket, Ok(("9".to_owned(), json(r#"{"status":"ok"}"#))))
        .expect("join channel");
    let mut pushes = now.pushes;
    let second = pushes.pop().expect("two pushes");
    let first = pushes.pop().expect("two pushes");
    assert!(matches!(
        channel.flush_push(&mut socket, first, true, "flush"),
        FlushStep::Skip
    ));
    socket.close();
    assert!(matches!(
        channel.flush_push(&mut socket, second, false, "flush"),
        FlushStep::Failed { error: Error::Closed, caller: "caller" }
    ));
}

#[test]
fn acknowledged_heartbeats_keep_the_channel_usable() {
    let mut socket = socket();
    let topic = "api:object:test-id";
    let channel = joined(&mut socket, topic);
    let outgoing = match socket.heartbeat("beat") {
        HeartbeatStep::Send(outgoing) => outgoing,
        other => panic!("unexpected step: {other:?}"),
    };
    assert_eq!(outgoing.reference, "2");
    let outcome = settle(&mut socket, outgoing, "phoenix", r#"{"status":"ok","response":{}}"#);
    assert!(!heartbeat_lost(&outcome));
    let outgoing = match channel.push(&mut socket, "save", json("{}"), "save") {
        PushStart::Send(outgoing) => outgoing,
        other => panic!("unexpected start: {other:?}"),
    };
    let outcome = settle(&mut socket, outgoing, topic, r#"{"status":"ok"}"#);
    assert!(channel.finish_push("save", outcome).is_ok());
    assert!(socket.is_connected());
}

#[test]
fn heartbeats_pause_without_a_transport_and_end_with_the_socket() {
    let mut socket = socket();
    match socket.heartbeat("beat") {
        HeartbeatStep::Send(outgoing) => {
            let outcome = socket.settle_request(outgoing.reference, RequestOutcome::TimedOut);
            assert!(heartbeat_lost(&outcome));
        }
        other => panic!("unexpected step: {other:?}"),
    }
    assert!(socket.disconnect().is_some());
    assert!(matches!(socket.heartbeat("beat"), HeartbeatStep::Skip));
    socket.close();
    assert!(matches!(socket.heartbeat("beat"), HeartbeatStep::Stop));
}

#[test]
fn references_count_up_from_one() {
    let mut socket = socket();
    for expected in ["1", "2", "3"] {
        let outgoing = socket
            .begin_request(None, "topic", "event", Json::Null, "caller")
            .expect("connected");
        assert_eq!(outgoing.reference, expected);
    }
}

#[test]
fn a_reply_reaches_its_request_once() {
    let mut socket = socket();
    let first = socket
        .begin_request(None, "topic", "event", Json::Null, "first")
        .expect("connected");
    socket
        .begin_request(None, "topic", "event", Json::Null, "second")
        .expect("connected");
    let text = answer(&first.reference, "topic", "{}");
    assert!(matches!(
        socket.receive(&text),
        Received::Reply { sender: "first", .. }
    ));
    assert!(matches!(socket.receive(&text), Received::Ignored));
    let waiting = socket.disconnect().expect("was connected");
    assert_eq!(waiting, vec![("2".to_owned(), "second")]);
}

#[test]
fn there_is_no_request_on_a_closed_socket() {
    let mut socket = socket();
    let channel = joined(&mut socket, "topic");
    socket.close();
    assert!(!socket.is_connected());
    assert!(matches!(
        socket.begin_request(None, "topic", "event", Json::Null, "caller"),
        Err(Error::Closed)
    ));
    assert!(matches!(
        channel.push(&mut socket, "save", Json::Null, "caller"),
        PushStart::Failed(Error::Closed)
    ));
    let other = socket.channel("other".to_owned());
    other.join(&mut socket, Json::Null);
    assert!(matches!(
        other.begin_join(&mut socket, "caller"),
        JoinStart::Failed(Error::Closed)
    ));
    assert_eq!(other.state(&socket), ChannelState::Errored);
    assert!(!socket.begin_reconnect());
    let mut attempt = 3;
    assert!(matches!(
        socket.reconnect(&mut attempt, ReconnectEvent::Waited),
        ReconnectAction::Stop
    ));
    assert_eq!(attempt, 3);
}

#[test]
fn a_transport_that_opens_after_close_is_not_used() {
    let mut socket = socket();
    let channel = joined(&mut socket, "topic");
    assert!(socket.disconnect().is_some());
    assert!(socket.begin_reconnect());
    let mut attempt = 0;
    assert!(matches!(
        socket.reconnect(&mut attempt, ReconnectEvent::Begun),
        ReconnectAction::Wait(_)
    ));
    assert!(matches!(
        socket.reconnect(&mut attempt, ReconnectEvent::Waited),
        ReconnectAction::Connect
    ));
    socket.close();
    assert!(matches!(
        socket.reconnect(&mut attempt, ReconnectEvent::Connected),
        ReconnectAction::Stop
    ));
    assert_eq!(attempt, 1);
    assert!(!socket.is_connected());
    assert!(!socket.begin_reconnect());
    socket.close();
    assert!(!socket.is_connected());
    assert!(matches!(
        channel.begin_rejoin(&mut socket, "rejoin"),
        Some(JoinStart::Failed(Error::Closed))
    ));
}

#[test]
fn exactly_the_wanted_channels_are_rejoined() {
    let mut socket = socket();
    let plain = socket.channel("plain".to_owned());
    let first = joined(&mut socket, "first");
    let left = joined(&mut socket, "left");
    let second = joined(&mut socket, "second");
    assert!(socket.disconnect().is_some());
    assert!(matches!(left.leave(&mut socket, "leave"), LeaveStart::Done));
    let mut attempt = 0;
    assert!(matches!(
        socket.reconnect(&mut attempt, ReconnectEvent::Connected),
        ReconnectAction::Rejoin(_)
    ));
    let wanted = socket.rejoin_channels();
    let topics: Vec<&str> = wanted.iter().map(|channel| channel.topic()).collect();
    assert_eq!(topics, vec!["first", "second"]);
    assert!(plain.begin_rejoin(&mut socket, "rejoin").is_none());
    assert!(matches!(second.leave(&mut socket, "leave"), LeaveStart::Send(_)));
    assert!(wanted[1].begin_rejoin(&mut socket, "rejoin").is_none());
    match wanted[0].begin_rejoin(&mut socket, "rejoin") {
        Some(JoinStart::Send(outgoing)) => {
            assert!(outgoing.text().ends_with(r#","first","phx_join",{}]"#));
        }
        other => panic!("unexpected start: {other:?}"),
    }
    assert_eq!(first.state(&socket), ChannelState::Joining);
}

#[test]
fn a_request_that_cannot_be_sent_is_forgotten() {
    let mut socket = socket();
    let first = socket
        .begin_request(None, "topic", "event", Json::Null, "first")
        .expect("connected");
    let result = socket.settle_request(first.reference, RequestOutcome::NotSent);
    assert!(matches!(result, Err(Error::Closed)));
    let second = socket
        .begin_request(None, "topic", "event", Json::Null, "second")
        .expect("connected");
    let failure = tokio_tungstenite::tungstenite::Error::ConnectionClosed;
    let result = socket.settle_request(second.reference, RequestOutcome::SendFailed(failure));
    assert!(matches!(result, Err(Error::WebSocket(_))));
    let third = socket
        .begin_request(None, "topic", "event", Json::Null, "third")
        .expect("connected");
    let result = socket.settle_request(third.reference, RequestOutcome::Dropped);
    assert!(matches!(result, Err(Error::Closed)));
    let waiting = socket.disconnect().expect("was connected");
    assert_eq!(waiting, vec![("3".to_owned(), "third")]);
}

#[test]
fn a_socket_without_auto_reconnect_stays_down() {
    let config = builder().auto_reconnect(false).configure().expect("a configuration");
    let mut socket: Core = Socket::new(config);
    assert!(socket.disconnect().is_some());
    assert!(!socket.begin_reconnect());
}

#[test]
fn handles_for_one_topic_share_a_channel() {
    let mut socket = socket();
    let first = socket.channel("topic".to_owned());
    first.join(&mut socket, json("{}"));
    let second = socket.channel("topic".to_owned());
    assert!(second.wants_join(&socket));
    let third = socket.retain(&second);
    socket.release(first);
    socket.release(second);
    assert!(third.wants_join(&socket));
    socket.release(third);
    let fresh = socket.channel("topic".to_owned());
    assert!(!fresh.wants_join(&socket));
    assert_eq!(fresh.state(&socket), ChannelState::Closed);
}

#[test]
fn numbers_of_channels_that_are_gone_are_used_again() {
    let mut socket = socket();
    let first = socket.channel("first".to_owned());
    let second = joined(&mut socket, "second");
    socket.release(first);
    let third = socket.channel("third".to_owned());
    assert_eq!(third.topic(), "third");
    assert_eq!(third.state(&socket), ChannelState::Closed);
    assert_eq!(second.state(&socket), ChannelState::Joined);
    assert_eq!(third.number(), 0);
}

#[test]
fn leaving_forgets_the_topic() {
    let mut socket = socket();
    let channel = joined(&mut socket, "topic");
    let outgoing = match channel.leave(&mut socket, "leave") {
        LeaveStart::Send(outgoing) => outgoing,
        other => panic!("unexpected start: {other:?}"),
    };
    assert_eq!(channel.state(&socket), ChannelState::Leaving);
    assert!(!channel.wants_join(&socket));
    let reference = outgoing.reference.clone();
    assert_eq!(outgoing.text(), r#"["1","2","topic","phx_leave",{}]"#);
    let outcome = socket.settle_request(reference, RequestOutcome::TimedOut);
    assert!(channel.finish_leave(&mut socket, outcome).is_ok());
    assert_eq!(channel.state(&socket), ChannelState::Closed);
    assert!(socket.rejoin_channels().is_empty());
    assert!(matches!(
        channel.leave(&mut socket, "again"),
        LeaveStart::Done
    ));
    let fresh = joined(&mut socket, "topic");
    let text = r#"[null,null,"topic","phx_error",{}]"#;
    assert!(matches!(socket.receive(text), Received::Kept));
    assert_eq!(fresh.state(&socket), ChannelState::Errored);
    assert_eq!(channel.state(&socket), ChannelState::Closed);
}

#[test]
fn a_leave_that_fails_otherwise_is_an_error_but_leaves() {
    let mut socket = socket();
    let channel = joined(&mut socket, "topic");
    assert!(matches!(
        channel.leave(&mut socket, "leave"),
        LeaveStart::Send(_)
    ));
    let failed = Err(Error::Sse("other".to_owned()));
    assert!(matches!(
        channel.finish_leave(&mut socket, failed),
        Err(Error::Sse(_))
    ));
    assert_eq!(channel.state(&socket), ChannelState::Closed);
    assert!(channel.finish_leave(&mut socket, Err(Error::Closed)).is_ok());
    assert!(channel
        .finish_leave(&mut socket, Ok(("1".to_owned(), Json::Null)))
        .is_ok());
}

#[test]
fn leaving_without_a_transport_takes_no_request() {
    let mut socket = socket();
    let channel = joined(&mut socket, "topic");
    assert!(socket.disconnect().is_some());
    assert_eq!(channel.state(&socket), ChannelState::Errored);
    assert!(matches!(
        channel.leave(&mut socket, "leave"),
        LeaveStart::Done
    ));
    assert_eq!(channel.state(&socket), ChannelState::Closed);
    assert!(socket.rejoin_channels().is_empty());
}

#[test]
fn a_channel_on_its_way_out_is_not_failed_by_a_lost_transport() {
    let mut socket = socket();
    let leaving = joined(&mut socket, "leaving");
    let closed = socket.channel("closed".to_owned());
    assert!(matches!(
        leaving.leave(&mut socket, "leave"),
        LeaveStart::Send(_)
    ));
    assert!(socket.disconnect().is_some());
    assert_eq!(leaving.state(&socket), ChannelState::Leaving);
    assert_eq!(closed.state(&socket), ChannelState::Closed);
}

#[test]
fn events_go_to_those_who_listen() {
    let mut socket = socket();
    let channel = socket.channel("topic".to_owned());
    assert!(channel.subscribe(&mut socket, "news", "listener").is_empty());
    match socket.receive(r#"[null,null,"topic","news",{"n":1}]"#) {
        Received::Event { key, payload } => {
            assert_eq!(key.topic, "topic");
            assert_eq!(key.event, "news");
            assert_eq!(payload, json(r#"{"n":1}"#));
            assert_eq!(socket.listener(&key), Some(&"listener"));
        }
        other => panic!("unexpected: {other:?}"),
    }
    assert!(channel.subscribe(&mut socket, "news", "second").is_empty());
    assert_eq!(socket.listener(&key("topic", "news")), Some(&"listener"));
    assert_eq!(socket.listener(&key("topic", "other")), None);
}

#[test]
fn the_latest_unheard_events_are_kept() {
    let mut socket = socket();
    for n in 0..40 {
        let text = format!(r#"[null,null,"topic","news",{n}]"#);
        assert!(matches!(socket.receive(&text), Received::Kept));
    }
    let kept = socket.subscribe(key("topic", "news"), "listener");
    assert_eq!(kept.len(), BUFFER_CAPACITY);
    assert_eq!(kept.first(), Some(&json("8")));
    assert_eq!(kept.last(), Some(&json("39")));
    assert!(socket.subscribe(key("topic", "news"), "listener").is_empty());
}

#[test]
fn frames_of_an_earlier_join_change_nothing() {
    let mut socket = socket();
    let channel = joined(&mut socket, "topic");
    let stale = r#"["old",null,"topic","phx_error",{}]"#;
    assert!(matches!(socket.receive(stale), Received::Ignored));
    assert_eq!(channel.state(&socket), ChannelState::Joined);
    let current = r#"["1",null,"topic","phx_error",{}]"#;
    assert!(matches!(socket.receive(current), Received::Kept));
    assert_eq!(channel.state(&socket), ChannelState::Errored);
    assert!(channel.wants_join(&socket));
}

#[test]
fn a_close_from_the_server_ends_the_wish_to_join() {
    let mut socket = socket();
    let channel = joined(&mut socket, "topic");
    assert!(matches!(
        socket.receive(r#"["1",null,"topic","phx_close",{}]"#),
        Received::Kept
    ));
    assert_eq!(channel.state(&socket), ChannelState::Closed);
    assert!(!channel.wants_join(&socket));
}

#[test]
fn a_reply_without_a_reference_is_an_ordinary_event() {
    let mut socket = socket();
    assert!(matches!(
        socket.receive(r#"[null,"","topic","phx_reply",{}]"#),
        Received::Kept
    ));
    assert_eq!(
        socket.subscribe(key("topic", "phx_reply"), "listener"),
        vec![json("{}")]
    );
}

#[test]
fn what_is_no_frame_is_ignored() {
    let mut socket = socket();
    for text in ["", "{", "{}", "[1,2,3,4]", "[1,2,3,4,5,6]"] {
        assert!(matches!(socket.receive(text), Received::Ignored));
    }
}

#[test]
fn a_transport_ends_with_its_events() {
    let mut socket = socket();
    let plain = SocketEvent::Close { code: None, reason: String::new() };
    match socket.read(Some(Wire::Failed("reset".to_owned()))) {
        ReadStep::Stop(events) => {
            assert_eq!(events, vec![SocketEvent::Error("reset".to_owned()), plain.clone()]);
        }
        other => panic!("unexpected step: {other:?}"),
    }
    match socket.read(Some(Wire::Close(None))) {
        ReadStep::Stop(events) => assert_eq!(events, vec![plain.clone()]),
        other => panic!("unexpected step: {other:?}"),
    }
    match socket.read(Some(Wire::Close(Some((1001, "going away".to_owned()))))) {
        ReadStep::Stop(events) => {
            assert_eq!(
                events,
                vec![SocketEvent::Close { code: Some(1001), reason: "going away".to_owned() }]
            );
        }
        other => panic!("unexpected step: {other:?}"),
    }
    assert!(matches!(
        socket.read(Some(Wire::Other)),
        ReadStep::Continue(Received::Ignored)
    ));
    let text = r#"[null,null,"topic","news",1]"#.to_owned();
    assert!(matches!(
        socket.read(Some(Wire::Text(text))),
        ReadStep::Continue(Received::Kept)
    ));
}

#[test]
fn a_builder_says_how_the_socket_behaves() {
    let config = builder()
        .param("token".to_owned(), "a b&c".to_owned())
        .param("api_key".to_owned(), "k\u{e9}".to_owned())
        .timeout(Duration::from_millis(20))
        .heartbeat(Duration::from_secs(60))
        .auto_reconnect(false)
        .reconnect_backoff(Vec::new())
        .configure()
        .expect("a configuration");
    assert_eq!(
        config.url,
        "ws://localhost:4005/socket/api/websocket?vsn=2.0.0&token=a+b%26c&api_key=k%C3%A9"
    );
    assert_eq!(config.timeout, Duration::from_millis(20));
    assert_eq!(config.heartbeat, Duration::from_secs(60));
    assert!(!config.auto_reconnect);
    assert_eq!(config.reconnect_backoff.len(), 9);
    let socket: Core = Socket::new(config);
    assert!(socket.is_connected());
    assert_eq!(socket.timeout(), Duration::from_millis(20));
    assert_eq!(socket.heartbeat_interval(), Duration::from_secs(60));
    assert!(socket.connect_url().ends_with("api_key=k%C3%A9"));
}

#[test]
fn a_builder_starts_with_the_default_behaviour() {
    let config = builder().configure().expect("a configuration");
    assert_eq!(config.timeout, Duration::from_secs(10));
    assert_eq!(config.heartbeat, Duration::from_secs(30));
    assert!(config.auto_reconnect);
    assert_eq!(config.reconnect_backoff[0], Duration::from_millis(10));
}

#[test]
fn a_builder_without_a_url_is_refused() {
    let result = SocketBuilder::new("no url".to_owned()).configure();
    assert!(matches!(result, Err(Error::Url(_))));
}
