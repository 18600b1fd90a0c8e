//! Every failure that the library reports.
use reqwest::Error as HttpError;
use serde_json::Error as JsonError;
use serde_urlencoded::ser::Error as QueryError;
use tokio_tungstenite::tungstenite::Error as WebSocketError;
use vstd::prelude::*;
use crate::json::{json_option, Json, JsonView};
use crate::text::{copy_option, decimal, decimal_text, option_view};

verus! {

/// `reqwest::Error`, carried from a failed exchange to the caller.
#[verifier::external_type_specification]
#[verifier::external_body]
pub struct ExHttpError(HttpError);

/// `serde_urlencoded::ser::Error`, carried from a failed query encoding to the
/// caller.
#[verifier::external_type_specification]
#[verifier::external_body]
pub struct ExQueryError(QueryError);

/// `url::ParseError`, carried from a failed URL parse to the caller.
#[verifier::external_type_specification]
#[verifier::external_body]
pub struct ExUrlError(url::ParseError);

/// `tungstenite::Error`, carried from a failed WebSocket operation to the
/// caller.
#[verifier::external_type_specification]
#[verifier::external_body]
pub struct ExWebSocketError(WebSocketError);

/// A structured non-success response from the ArchAstro API.
#[derive(Debug, PartialEq, Eq)]
pub struct ApiError {
    /// HTTP status code.
    pub status: u16,
    /// Stable machine-readable error code, when supplied.
    pub code: Option<String>,
    /// Human-readable message.
    pub message: String,
    /// Full decoded response body.
    pub body: Json,
}

/// The mathematical form of an [`ApiError`].
pub struct ApiErrorView {
    /// HTTP status code.
    pub status: u16,
    /// Stable machine-readable error code, when supplied.
    pub code: Option<Seq<char>>,
    /// Human-readable message.
    pub message: Seq<char>,
    /// Full decoded response body.
    pub body: JsonView,
}

impl View for ApiError {
    type V = ApiErrorView;

    open spec fn view(&self) -> ApiErrorView {
        ApiErrorView {
            status: self.status,
            code: option_view(self.code),
            message: self.message@,
            body: self.body@,
        }
    }
}

impl Clone for ApiError {
    fn clone(&self) -> (r: ApiError)
        ensures
            r@ == self@,
    {
        ApiError {
            status: self.status,
            code: copy_option(&self.code),
            message: self.message.clone(),
            body: self.body.clone(),
        }
    }
}

impl ApiError {
    /// The one-line description shown to people.
    pub fn describe(&self) -> (r: String)
        ensures
            r@ == "ArchAstro API returned HTTP "@ + decimal(self.status as nat) + ": "@
                + self.message@,
    {
        let mut out = "ArchAstro API returned HTTP ".to_owned();
        out.append(decimal_text(self.status as u64).as_str());
        out.append(": ");
        out.append(self.message.as_str());
        out
    }
}

/// A Phoenix channel lifecycle or protocol failure.
#[derive(Debug, PartialEq, Eq)]
pub struct ChannelError {
    /// Operation being attempted.
    pub operation: String,
    /// Phoenix topic.
    pub topic: String,
    /// Failure description.
    pub reason: String,
    /// Rejection payload, when supplied.
    pub payload: Option<Json>,
}

/// The mathematical form of a [`ChannelError`].
pub struct ChannelErrorView {
    /// Operation being attempted.
    pub operation: Seq<char>,
    /// Phoenix topic.
    pub topic: Seq<char>,
    /// Failure description.
    pub reason: Seq<char>,
    /// Rejection payload, when supplied.
    pub payload: Option<JsonView>,
}

impl View for ChannelError {
    type V = ChannelErrorView;

    open spec fn view(&self) -> ChannelErrorView {
        ChannelErrorView {
            operation: self.operation@,
            topic: self.topic@,
            reason: self.reason@,
            payload: json_option(self.payload),
        }
    }
}

impl Clone for ChannelError {
    fn clone(&self) -> (r: ChannelError)
        ensures
            r@ == self@,
    {
        ChannelError {
            operation: self.operation.clone(),
            topic: self.topic.clone(),
            reason: self.reason.clone(),
            payload: crate::json::copy_json(&self.payload),
        }
    }
}

/// Every error surfaced by the SDK.
#[derive(Debug)]
pub enum Error {
    /// Structured API error.
    Api(ApiError),
    /// HTTP transport error.
    Http(HttpError),
    /// JSON codec error.
    Json(JsonError),
    /// Query-string codec error.
    Query(QueryError),
    /// URL parse error.
    Url(url::ParseError),
    /// WebSocket transport error.
    WebSocket(WebSocketError),
    /// Phoenix channel error.
    Channel(ChannelError),
    /// A generated SSE stream received an event absent from its contract.
    UnknownSseEvent(String),
    /// An SSE transport or protocol error.
    Sse(String),
    /// Invalid SDK configuration.
    Configuration(String),
    /// Durable app-session storage failed.
    SessionStorage(String),
    /// A request timed out.
    Timeout,
    /// A background connection task stopped unexpectedly.
    Closed,
}

impl Error {
    /// Whether this is an API error with that content.
    pub open spec fn is_api(self, view: ApiErrorView) -> bool {
        self matches Error::Api(e) && e@ == view
    }

    /// Whether this is a channel error with that content.
    pub open spec fn is_channel(self, view: ChannelErrorView) -> bool {
        self matches Error::Channel(e) && e@ == view
    }

    /// Whether this is an SSE error with that text.
    pub open spec fn is_sse(self, text: Seq<char>) -> bool {
        self matches Error::Sse(t) && t@ == text
    }

    /// Whether this is a configuration error with that text.
    pub open spec fn is_configuration(self, text: Seq<char>) -> bool {
        self matches Error::Configuration(t) && t@ == text
    }

    /// Whether this is a storage error with that text.
    pub open spec fn is_storage(self, text: Seq<char>) -> bool {
        self matches Error::SessionStorage(t) && t@ == text
    }
}

} // verus!
