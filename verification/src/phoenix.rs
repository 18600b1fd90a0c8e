//! The Phoenix channel protocol, version 2: frames, replies and lifecycle
//! values.
use vstd::prelude::*;
use crate::error::{ChannelError, ChannelErrorView, Error};
use crate::json::{composite_views, json_to_text, json_value, json_views, to_text, Json, JsonView};
use crate::text::{option_view, same};

verus! {

/// Phoenix channel lifecycle state.
#[derive(Debug, Clone, Copy, PartialEq, Eq, Structural)]
pub enum ChannelState {
    /// Not joined.
    Closed,
    /// Join request is in flight.
    Joining,
    /// Joined and ready for pushes.
    Joined,
    /// Leave request is in flight.
    Leaving,
    /// Join or transport failed.
    Errored,
}

/// Socket lifecycle notification.
#[derive(Debug, PartialEq, Eq)]
pub enum SocketEvent {
    /// The transport connected or reconnected.
    Open,
    /// The transport closed.
    Close {
        /// WebSocket close code, when supplied.
        code: Option<u16>,
        /// WebSocket close reason.
        reason: String,
    },
    /// A connection attempt failed.
    Error(String),
}

/// The mathematical form of a [`SocketEvent`].
pub enum SocketEventView {
    /// The transport connected or reconnected.
    Open,
    /// The transport closed.
    Close {
        /// WebSocket close code, when supplied.
        code: Option<u16>,
        /// WebSocket close reason.
        reason: Seq<char>,
    },
    /// A connection attempt failed.
    Error(Seq<char>),
}

impl View for SocketEvent {
    type V = SocketEventView;

    open spec fn view(&self) -> SocketEventView {
        match self {
            SocketEvent::Open => SocketEventView::Open,
            SocketEvent::Close { code, reason } => SocketEventView::Close {
                code: *code,
                reason: reason@,
            },
            SocketEvent::Error(text) => SocketEventView::Error(text@),
        }
    }
}

impl Clone for SocketEvent {
    fn clone(&self) -> (r: SocketEvent)
        ensures
            r@ == self@,
    {
        match self {
            SocketEvent::Open => SocketEvent::Open,
            SocketEvent::Close { code, reason } => SocketEvent::Close {
                code: *code,
                reason: reason.clone(),
            },
            SocketEvent::Error(text) => SocketEvent::Error(text.clone()),
        }
    }
}

/// The views of a row of events.
pub open spec fn event_views(events: Seq<SocketEvent>) -> Seq<SocketEventView> {
    events.map_values(|e: SocketEvent| e@)
}

/// Whether a frame that carries `frame` belongs to the join that `current`
/// names: frames without a reference always do.
pub open spec fn belongs(frame: Option<Seq<char>>, current: Option<Seq<char>>) -> bool {
    frame is None || frame == current
}

/// The text behind an optional reference.
pub open spec fn reference_view(s: Option<&str>) -> Option<Seq<char>> {
    match s {
        Some(t) => Some(t@),
        None => None,
    }
}

/// Whether a frame with join reference `frame` belongs to the current join.
pub fn join_ref_matches(frame: Option<&str>, current: Option<&str>) -> (r: bool)
    ensures
        r == belongs(reference_view(frame), reference_view(current)),
{
    match (frame, current) {
        (None, _) => true,
        (Some(_), None) => false,
        (Some(a), Some(b)) => same(a, b),
    }
}

/// A message frame: join reference, reference, topic, event and payload.
pub open spec fn message(
    join_ref: Option<Seq<char>>,
    reference: Seq<char>,
    topic: Seq<char>,
    event: Seq<char>,
    payload: JsonView,
) -> JsonView {
    JsonView::Array(
        seq![
            match join_ref {
                Some(r) => JsonView::Text(r),
                None => JsonView::Null,
            },
            JsonView::Text(reference),
            JsonView::Text(topic),
            JsonView::Text(event),
            payload,
        ],
    )
}

/// Builds a message frame.
pub fn build_message(
    join_ref: Option<String>,
    reference: &str,
    topic: &str,
    event: &str,
    payload: Json,
) -> (r: Json)
    ensures
        r@ == message(option_view(join_ref), reference@, topic@, event@, payload@),
{
    broadcast use composite_views;

    let mut items: Vec<Json> = Vec::new();
    items.push(
        match join_ref {
            Some(r) => Json::Text(r),
            None => Json::Null,
        },
    );
    items.push(Json::Text(reference.to_owned()));
    items.push(Json::Text(topic.to_owned()));
    items.push(Json::Text(event.to_owned()));
    items.push(payload);
    let r = Json::Array(items);
    assert(json_views(items@) =~= message(
        option_view(join_ref),
        reference@,
        topic@,
        event@,
        payload@,
    )->Array_0);
    r
}

/// A request on its way to the server.
#[derive(Debug)]
pub struct Outgoing {
    /// The reference that its reply carries.
    pub reference: String,
    /// The frame to send.
    pub frame: Json,
}

impl Outgoing {
    /// The text to send.
    pub fn text(self) -> (r: String)
        ensures
            r@ == json_to_text(json_value(self.frame@)),
    {
        to_text(self.frame)
    }
}

/// The parts of an incoming frame. A part that is not a string counts as
/// empty, a join reference that is not one as absent.
pub struct FrameView {
    /// The join that the frame belongs to.
    pub join_ref: Option<Seq<char>>,
    /// The request that the frame answers.
    pub reference: Seq<char>,
    /// The topic.
    pub topic: Seq<char>,
    /// The event.
    pub event: Seq<char>,
    /// The payload.
    pub payload: JsonView,
}

/// The text of a string, nothing written for any other document.
pub open spec fn text_or_empty(j: JsonView) -> Seq<char> {
    match j.text() {
        Some(s) => s,
        None => Seq::empty(),
    }
}

/// The parts of a frame: an array of five.
pub open spec fn frame_parts(frame: JsonView) -> Option<FrameView> {
    match frame {
        JsonView::Array(items) => if items.len() == 5 {
            Some(
                FrameView {
                    join_ref: items[0].text(),
                    reference: text_or_empty(items[1]),
                    topic: text_or_empty(items[2]),
                    event: text_or_empty(items[3]),
                    payload: items[4],
                },
            )
        } else {
            None
        },
        _ => None,
    }
}

/// An incoming frame, taken apart.
#[derive(Debug)]
pub struct Frame {
    /// The join that the frame belongs to.
    pub join_ref: Option<String>,
    /// The request that the frame answers.
    pub reference: String,
    /// The topic.
    pub topic: String,
    /// The event.
    pub event: String,
    /// The payload.
    pub payload: Json,
}

impl View for Frame {
    type V = FrameView;

    open spec fn view(&self) -> FrameView {
        FrameView {
            join_ref: option_view(self.join_ref),
            reference: self.reference@,
            topic: self.topic@,
            event: self.event@,
            payload: self.payload@,
        }
    }
}

fn copied_text(j: &Json) -> (r: String)
    ensures
        r@ == text_or_empty(j@),
{
    match j.text() {
        Some(s) => s.clone(),
        None => {
            let empty = String::new();
            assert(empty@ =~= Seq::empty());
            empty
        },
    }
}

/// Takes an incoming frame apart; nothing where it is no array of five.
pub fn take_apart(frame: &Json) -> (r: Option<Frame>)
    ensures
        match r {
            Some(f) => frame_parts(frame@) == Some(f@),
            None => frame_parts(frame@) is None,
        },
{
    broadcast use composite_views;

    match frame {
        Json::Array(items) => {
            if items.len() != 5 {
                return None;
            }
            Some(
                Frame {
                    join_ref: match items[0].text() {
                        Some(s) => Some(s.clone()),
                        None => None,
                    },
                    reference: copied_text(&items[1]),
                    topic: copied_text(&items[2]),
                    event: copied_text(&items[3]),
                    payload: items[4].clone(),
                },
            )
        },
        _ => None,
    }
}

/// Whether a reply envelope reports success.
pub open spec fn accepted(envelope: JsonView) -> bool {
    envelope.get_text("status"@) == Some("ok"@)
}

/// The response of a reply envelope: `null` where it has none.
pub open spec fn response(envelope: JsonView) -> JsonView {
    match envelope.get("response"@) {
        Some(v) => v,
        None => JsonView::Null,
    }
}

/// The failure that a rejecting envelope stands for: its payload is the
/// response, where the envelope has one.
pub open spec fn rejection(
    topic: Seq<char>,
    operation: Seq<char>,
    envelope: JsonView,
) -> ChannelErrorView {
    ChannelErrorView {
        operation,
        topic,
        reason: "server rejected the operation"@,
        payload: envelope.get("response"@),
    }
}

/// What a reply envelope comes to: its response, or a rejection.
pub open spec fn reply_outcome(
    topic: Seq<char>,
    operation: Seq<char>,
    envelope: JsonView,
    r: Result<Json, Error>,
) -> bool {
    if accepted(envelope) {
        r matches Ok(v) && v@ == response(envelope)
    } else {
        r matches Err(e) && e.is_channel(rejection(topic, operation, envelope))
    }
}

/// Reads a reply envelope.
pub fn reply(topic: &str, operation: &str, envelope: &Json) -> (r: Result<Json, Error>)
    ensures
        reply_outcome(topic@, operation@, envelope@, r),
{
    let ok = match envelope.get_text("status") {
        Some(status) => same(status.as_str(), "ok"),
        None => false,
    };
    let response = match envelope.get("response") {
        Some(v) => Some(v.clone()),
        None => None,
    };
    if ok {
        match response {
            Some(v) => Ok(v),
            None => Ok(Json::Null),
        }
    } else {
        Err(
            Error::Channel(
                ChannelError {
                    operation: operation.to_owned(),
                    topic: topic.to_owned(),
                    reason: "server rejected the operation".to_owned(),
                    payload: response,
                },
            ),
        )
    }
}

/// A channel failure without a server payload.
pub fn channel_error(topic: &str, operation: &str, reason: &str) -> (r: Error)
    ensures
        r.is_channel(
            ChannelErrorView {
                operation: operation@,
                topic: topic@,
                reason: reason@,
                payload: None,
            },
        ),
{
    Error::Channel(
        ChannelError {
            operation: operation.to_owned(),
            topic: topic.to_owned(),
            reason: reason.to_owned(),
            payload: None,
        },
    )
}

/// A frame that is sent is taken apart into what it was built from.
pub proof fn law_frame_parts_are_read_back(
    join_ref: Option<Seq<char>>,
    reference: Seq<char>,
    topic: Seq<char>,
    event: Seq<char>,
    payload: JsonView,
)
    ensures
        frame_parts(message(join_ref, reference, topic, event, payload)) == Some(
            FrameView { join_ref, reference, topic, event, payload },
        ),
{
}

/// A frame of an earlier join never belongs to the current one, nor one that
/// names a join to a channel without any; one that names no join always does.
pub proof fn law_stale_join_refs_are_rejected(earlier: Seq<char>, current: Seq<char>)
    ensures
        belongs(None, Some(current)),
        belongs(Some(current), Some(current)),
        earlier != current ==> !belongs(Some(earlier), Some(current)),
        !belongs(Some(earlier), None),
{
}

} // verus!
