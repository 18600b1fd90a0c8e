//! Server-Sent Events and the blocking bridge.
use archastro::blocking::{may_block, runtime_ready};
use archastro::http::{Exchange, ExchangeAction, ExchangeEvent};
use archastro::sse::{next_item, opened, with_payload, Opening, SseDecode, SseItem, SseMessage};
use archastro::stream::StreamStep;
use archastro::{Client, Error, Json};

#[derive(Debug, PartialEq)]
struct Updated {
    id: String,
}

impl SseDecode for Updated {
    fn decode(event: &str, data: &str) -> Result<Self, Error> {
        if event != "updated" {
            return Err(Error::UnknownSseEvent(event.into()));
        }
        match serde_json::from_str::<serde_json::Value>(data) {
            Ok(value) => Ok(Updated { id: value["id"].as_str().unwrap_or_default().to_owned() }),
            Err(error) => Err(Error::Json(error)),
        }
    }
}

fn message(event: &str, id: &str, data: &str) -> SseItem {
    SseItem::Message(SseMessage {
        event: event.to_owned(),
        id: id.to_owned(),
        data: data.to_owned(),
    })
}

#[test]
fn a_contract_event_is_decoded() {
    match next_item::<Updated>(message("updated", "42", r#"{"id":"one"}"#)) {
        StreamStep::Item(Ok(event)) => {
            assert_eq!(event.id, "42");
            assert_eq!(event.event, "updated");
            assert_eq!(event.data, Updated { id: "one".into() });
        }
        other => panic!("unexpected step: {other:?}"),
    }
}

#[test]
fn a_stream_goes_on_after_a_failure() {
    let feed = vec![
        message("updated", "", r#"{"id":"one"}"#),
        SseItem::Failed("Stream ended".to_owned()),
        SseItem::Open,
        message("updated", "", r#"{"id":"two"}"#),
    ];
    let mut seen = Vec::new();
    for item in feed {
        match next_item::<Updated>(item) {
            StreamStep::Item(Ok(event)) => seen.push(event.data.id),
            StreamStep::Item(Err(Error::Sse(text))) => seen.push(text),
            StreamStep::Again => {}
            other => panic!("unexpected step: {other:?}"),
        }
    }
    assert_eq!(seen, vec!["one", "Stream ended", "two"]);
    assert!(matches!(next_item::<Updated>(SseItem::Ended), StreamStep::End));
}

#[test]
fn events_absent_from_the_contract_are_errors() {
    match next_item::<Updated>(message("other", "", "{}")) {
        StreamStep::Item(Err(Error::UnknownSseEvent(name))) => assert_eq!(name, "other"),
        other => panic!("unexpected step: {other:?}"),
    }
    assert!(matches!(
        next_item::<Updated>(message("updated", "", "{")),
        StreamStep::Item(Err(Error::Json(_)))
    ));
}

#[test]
fn a_message_keeps_its_name_and_id() {
    let raw = SseMessage { event: "e".into(), id: "7".into(), data: "ignored".into() };
    let event = with_payload(raw, Ok(5_u8)).expect("decoded");
    assert_eq!((event.event.as_str(), event.id.as_str(), event.data), ("e", "7", 5));
    let raw = SseMessage { event: "e".into(), id: "7".into(), data: "d".into() };
    assert!(matches!(
        with_payload::<u8>(raw, Err(Error::Timeout)),
        Err(Error::Timeout)
    ));
}

#[test]
fn pre_stream_http_failure_is_a_structured_api_error() {
    let bytes = br#"{"error":{"code":"payment_required","message":"upgrade"}}"#.to_vec();
    match opened(Opening::Rejected { status: 402, bytes }) {
        Err(Error::Api(error)) => {
            assert_eq!(error.status, 402);
            assert_eq!(error.code.as_deref(), Some("payment_required"));
            assert_eq!(error.message, "upgrade");
        }
        other => panic!("expected API error, got {other:?}"),
    }
}

#[test]
fn a_stream_opens_or_says_why_not() {
    assert!(opened(Opening::Open).is_ok());
    match opened(Opening::Message) {
        Err(Error::Sse(text)) => assert_eq!(text, "SSE message arrived before the open event"),
        other => panic!("unexpected outcome: {other:?}"),
    }
    match opened(Opening::Rejected { status: 204, bytes: Vec::new() }) {
        Err(Error::Sse(text)) => assert_eq!(text, "SSE endpoint rejected its status"),
        other => panic!("unexpected outcome: {other:?}"),
    }
    match opened(Opening::Failed("refused".to_owned())) {
        Err(Error::Sse(text)) => assert_eq!(text, "refused"),
        other => panic!("unexpected outcome: {other:?}"),
    }
    assert!(matches!(opened(Opening::Ended), Err(Error::Closed)));
}

#[test]
fn a_refused_stream_renews_like_a_refused_request() {
    let mut client: Client<()> = Client::builder()
        .base_url("http://localhost:4010")
        .access_token("old".to_owned())
        .build()
        .expect("a client");
    client.install_session("old".to_owned(), Some("refresh-old".to_owned()), "/auth/refresh");
    let generation = client.generation();
    let mut exchange = Exchange::new(generation);
    assert_eq!(
        exchange.advance(ExchangeEvent::Responded(401)),
        ExchangeAction::Refresh(generation)
    );
    assert!(matches!(
        client.refresh_if_generation(generation),
        archastro::client::RefreshStep::Send(_)
    ));
    let body = Json::single("access_token", Json::Text("new".to_owned()));
    client.finish_refresh(&body).expect("tokens");
    assert_eq!(
        exchange.advance(ExchangeEvent::Refreshed(true)),
        ExchangeAction::Resend
    );
    assert_eq!(client.access_token().as_deref(), Some("new"));
    assert!(opened(Opening::Open).is_ok());
}

#[test]
fn blocking_is_refused_inside_a_runtime() {
    assert!(may_block(false).is_ok());
    match may_block(true) {
        Err(Error::Configuration(text)) => assert_eq!(
            text,
            "blocking SDK methods cannot run inside an async Tokio runtime"
        ),
        other => panic!("unexpected outcome: {other:?}"),
    }
    assert_eq!(runtime_ready(Ok(42)).expect("ready"), 42);
    match runtime_ready::<u8>(Err("no threads".to_owned())) {
        Err(Error::Configuration(text)) => assert_eq!(text, "no threads"),
        other => panic!("unexpected outcome: {other:?}"),
    }
}
