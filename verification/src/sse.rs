//! Typed Server-Sent Events support.
use vstd::prelude::*;
use crate::error::Error;
use crate::http::{api_error, body_document, checked, success};
use crate::stream::StreamStep;

verus! {

/// Implemented by generated endpoint-specific SSE enums.
pub trait SseDecode: Sized + Send + 'static {
    /// Decode one wire event and JSON data payload.
    fn decode(event: &str, data: &str) -> Result<Self, Error>;
}

/// One typed SSE message.
#[derive(Debug, Clone, PartialEq)]
pub struct SseEvent<T> {
    /// Event name.
    pub event: String,
    /// Last-event ID, when supplied.
    pub id: String,
    /// Typed payload.
    pub data: T,
}

/// One SSE message as it came.
#[derive(Debug)]
pub struct SseMessage {
    /// Event name.
    pub event: String,
    /// Last-event ID, when supplied.
    pub id: String,
    /// Payload.
    pub data: String,
}

/// What the event source hands over.
#[derive(Debug)]
pub enum SseItem {
    /// The source connected or reconnected.
    Open,
    /// A message came.
    Message(SseMessage),
    /// The source failed.
    Failed(String),
    /// The source is done.
    Ended,
}

/// A message with its payload decoded.
pub open spec fn typed_message<T>(
    message: SseMessage,
    decoded: Result<T, Error>,
    r: Result<SseEvent<T>, Error>,
) -> bool {
    match decoded {
        Ok(data) => r == Ok::<SseEvent<T>, Error>(
            SseEvent { event: message.event, id: message.id, data },
        ),
        Err(e) => r == Err::<SseEvent<T>, Error>(e),
    }
}

/// Puts a message together with its decoded payload.
pub fn with_payload<T>(message: SseMessage, decoded: Result<T, Error>) -> (r: Result<
    SseEvent<T>,
    Error,
>)
    ensures
        typed_message(message, decoded, r),
{
    match decoded {
        Ok(data) => Ok(SseEvent { event: message.event, id: message.id, data }),
        Err(e) => Err(e),
    }
}

/// What a typed stream hands on of an item of its source. Messages are decoded
/// by their type.
pub fn next_item<T: SseDecode>(item: SseItem) -> (r: StreamStep<
    Result<SseEvent<T>, Error>,
>)
    ensures
        match item {
            SseItem::Open => r is Again,
            SseItem::Message(message) => exists|event: &str, data: &str, decoded: Result<T, Error>|
                {
                    &&& event@ == message.event@
                    &&& data@ == message.data@
                    &&& #[trigger] call_ensures(T::decode, (event, data), decoded)
                    &&& (r matches StreamStep::Item(result) && typed_message(message, decoded, result))
                },
            SseItem::Failed(text) => r matches StreamStep::Item(Err(e)) && e.is_sse(text@),
            SseItem::Ended => r is End,
        },
{
    match item {
        SseItem::Open => StreamStep::Again,
        SseItem::Message(message) => {
            let decoded = T::decode(message.event.as_str(), message.data.as_str());
            StreamStep::Item(with_payload(message, decoded))
        },
        SseItem::Failed(text) => StreamStep::Item(Err(Error::Sse(text))),
        SseItem::Ended => StreamStep::End,
    }
}

/// What comes first out of an event source.
#[derive(Debug)]
pub enum Opening {
    /// The source connected.
    Open,
    /// A message came.
    Message,
    /// The server answered with a status that opens no stream.
    Rejected {
        /// The status.
        status: u16,
        /// The body.
        bytes: Vec<u8>,
    },
    /// The source failed.
    Failed(String),
    /// The source is done.
    Ended,
}

/// Whether a stream is open after what came first out of its source.
pub fn opened(first: Opening) -> (r: Result<(), Error>)
    ensures
        match first {
            Opening::Open => r is Ok,
            Opening::Message => r matches Err(e) && e.is_sse(
                "SSE message arrived before the open event"@,
            ),
            Opening::Rejected { status, bytes } => r matches Err(e) && if success(status) {
                e.is_sse("SSE endpoint rejected its status"@)
            } else {
                e.is_api(api_error(status, body_document(bytes@)))
            },
            Opening::Failed(text) => r matches Err(e) && e.is_sse(text@),
            Opening::Ended => r == Err::<(), Error>(Error::Closed),
        },
{
    match first {
        Opening::Open => Ok(()),
        Opening::Message => Err(
            Error::Sse("SSE message arrived before the open event".to_owned()),
        ),
        Opening::Rejected { status, bytes } => match checked(status, bytes.as_slice()) {
            Ok(_) => Err(Error::Sse("SSE endpoint rejected its status".to_owned())),
            Err(e) => Err(e),
        },
        Opening::Failed(text) => Err(Error::Sse(text)),
        Opening::Ended => Err(Error::Closed),
    }
}

} // verus!
