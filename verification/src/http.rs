//! Requests and responses: what is sent, and what an answer comes to.
use serde_json::Error as JsonError;
use serde_urlencoded::ser::Error as QueryError;
use vstd::prelude::*;
use vstd::utf8::*;
use crate::client::Client;
use crate::endpoint::form_pairs;
use crate::error::{ApiError, ApiErrorView, Error};
use crate::headers::{pair_views, Headers};
use crate::json::{json_option, parse_bytes, parsed_bytes, Json, JsonView};
use crate::text::{lowercase, option_view, same};

verus! {

/// `reqwest::Method`, carried from the caller to the exchange.
#[verifier::external_type_specification]
#[verifier::external_body]
pub struct ExMethod(reqwest::Method);

/// `Clone` of `reqwest::Method`: the copy is the same method.
pub assume_specification[ <reqwest::Method as std::clone::Clone>::clone ](
    m: &reqwest::Method,
) -> (r: reqwest::Method)
    ensures
        r == *m,
;

/// Raw bytes returned by download/export endpoints.
#[derive(Debug, Clone, PartialEq, Eq)]
pub struct RawResponse {
    /// Body bytes.
    pub bytes: Vec<u8>,
    /// Response MIME type, when supplied.
    pub content_type: Option<String>,
}

/// Whether a header byte can be read as text: visible ASCII, space and tab.
pub open spec fn visible(b: u8) -> bool {
    32 <= b < 127 || b == 9
}

/// The text of a header value, where all of it can be read as text.
pub open spec fn header_text(bytes: Seq<u8>) -> Option<Seq<char>> {
    if forall|i: int| 0 <= i < bytes.len() ==> visible(#[trigger] bytes[i]) {
        Some(bytes.map_values(|b: u8| b as char))
    } else {
        None
    }
}

fn readable_header(bytes: &Vec<u8>) -> (r: Option<String>)
    ensures
        option_view(r) == header_text(bytes@),
{
    let mut out = String::new();
    let mut i: usize = 0;
    let ghost all = bytes@.map_values(|b: u8| b as char);
    assert(out@ =~= all.take(0));
    while i < bytes.len()
        invariant
            i <= bytes.len(),
            all == bytes@.map_values(|b: u8| b as char),
            out@ == all.take(i as int),
            forall|j: int| 0 <= j < i ==> visible(#[trigger] bytes@[j]),
        decreases bytes.len() - i,
    {
        let b: u8 = bytes[i];
        if !((b >= 32 && b < 127) || b == 9) {
            assert(!visible(bytes@[i as int]));
            return None;
        }
        out.push(b as char);
        assert(all.take(i + 1) =~= all.take(i as int).push(b as char));
        i += 1;
    }
    assert(all.take(i as int) =~= all);
    Some(out)
}

impl RawResponse {
    /// Retains raw response bytes and the MIME type that the header value
    /// spells out.
    pub fn new(bytes: Vec<u8>, content_type: Option<Vec<u8>>) -> (r: RawResponse)
        ensures
            r.bytes == bytes,
            option_view(r.content_type) == match content_type {
                Some(value) => header_text(value@),
                None => None,
            },
    {
        RawResponse {
            bytes,
            content_type: match content_type {
                Some(value) => readable_header(&value),
                None => None,
            },
        }
    }
}

/// `serde_urlencoded::to_string` on pairs of strings, which are always encoded:
/// the pairs in form encoding, joined by `&`.
#[verifier::external_body]
fn urlencoded(pairs: &Vec<(String, String)>) -> (r: Result<String, QueryError>)
    ensures
        r is Ok,
        r->Ok_0@ == form_pairs(pair_views(pairs@)),
{
    serde_urlencoded::to_string(pairs)
}

/// Whether a byte may occur in a header name: letters, digits and
/// ``!#$%&'*+-.^_`|~``.
pub open spec fn name_byte(b: u8) -> bool {
    ||| 48 <= b <= 57
    ||| 65 <= b <= 90
    ||| 97 <= b <= 122
    ||| b == 33
    ||| 35 <= b <= 39
    ||| b == 42
    ||| b == 43
    ||| b == 45
    ||| b == 46
    ||| b == 94
    ||| b == 95
    ||| b == 96
    ||| b == 124
    ||| b == 126
}

/// Whether a text can name a header.
pub open spec fn is_header_name(name: Seq<char>) -> bool {
    let bytes = encode_utf8(name);
    &&& 0 < bytes.len() <= 65535
    &&& forall|i: int| 0 <= i < bytes.len() ==> name_byte(#[trigger] bytes[i])
}

/// Whether a text can be the value of a header: no control character but tab.
pub open spec fn is_header_value(value: Seq<char>) -> bool {
    let bytes = encode_utf8(value);
    forall|i: int|
        0 <= i < bytes.len() ==> {
            let b = #[trigger] bytes[i];
            b == 9 || (32 <= b && b != 127)
        }
}

/// `HeaderName::try_from`: a name in lower case, or its description of the
/// failure.
#[verifier::external_body]
fn header_name(name: &str) -> (r: Result<String, String>)
    ensures
        match r {
            Ok(n) => is_header_name(name@) && n@ == lowercase(name@),
            Err(text) => !is_header_name(name@) && text@ == "invalid HTTP header name"@,
        },
{
    match reqwest::header::HeaderName::try_from(name) {
        Ok(n) => Ok(n.as_str().to_owned()),
        Err(error) => Err(error.to_string()),
    }
}

/// `HeaderValue::try_from`: the bytes of the value, or its description of the
/// failure.
#[verifier::external_body]
fn header_value(value: &str) -> (r: Result<Vec<u8>, String>)
    ensures
        match r {
            Ok(v) => is_header_value(value@) && v@ == encode_utf8(value@),
            Err(text) => !is_header_value(value@) && text@ == "failed to parse header value"@,
        },
{
    match reqwest::header::HeaderValue::try_from(value) {
        Ok(v) => Ok(v.as_bytes().to_vec()),
        Err(error) => Err(error.to_string()),
    }
}

/// What is wrong with a header; the name is looked at first.
pub open spec fn header_fault(header: (Seq<char>, Seq<char>)) -> Option<Seq<char>> {
    if !is_header_name(header.0) {
        Some("invalid HTTP header name"@)
    } else if !is_header_value(header.1) {
        Some("failed to parse header value"@)
    } else {
        None
    }
}

/// What is wrong with the first faulty header.
pub open spec fn headers_fault(headers: Seq<(Seq<char>, Seq<char>)>) -> Option<Seq<char>>
    decreases headers.len(),
{
    if headers.len() == 0 {
        None
    } else {
        match headers_fault(headers.drop_last()) {
            Some(text) => Some(text),
            None => header_fault(headers.last()),
        }
    }
}

/// The views of prepared headers.
pub open spec fn header_views(headers: Seq<(String, Vec<u8>)>) -> Seq<(Seq<char>, Seq<u8>)> {
    headers.map_values(|h: (String, Vec<u8>)| (h.0@, h.1@))
}

/// Headers as they are sent: names in lower case, values as bytes.
pub open spec fn wire_headers(headers: Seq<(Seq<char>, Seq<char>)>) -> Seq<(Seq<char>, Seq<u8>)> {
    headers.map_values(|h: (Seq<char>, Seq<char>)| (lowercase(h.0), encode_utf8(h.1)))
}

/// Prepares default headers for sending.
pub fn prepare_headers(headers: &Headers) -> (r: Result<Vec<(String, Vec<u8>)>, Error>)
    ensures
        match headers_fault(headers@) {
            Some(text) => r matches Err(e) && e.is_configuration(text),
            None => r matches Ok(prepared) && header_views(prepared@) == wire_headers(headers@),
        },
{
    let ghost all = headers@;
    let mut out: Vec<(String, Vec<u8>)> = Vec::new();
    let mut i: usize = 0;
    assert(all.take(0) =~= Seq::empty());
    assert(header_views(out@) =~= wire_headers(all.take(0)));
    while i < headers.len()
        invariant
            i <= all.len(),
            all == headers@,
            headers_fault(all.take(i as int)) is None,
            header_views(out@) == wire_headers(all.take(i as int)),
        decreases all.len() - i,
    {
        let (name, value) = headers.at(i);
        proof {
            let next = all.take(i + 1);
            assert(next.drop_last() =~= all.take(i as int));
            assert(next.last() == (name@, value@));
            if header_fault(all[i as int]) is Some {
                fault_stays(all, i + 1);
            }
        }
        let n = match header_name(name.as_str()) {
            Ok(n) => n,
            Err(text) => {
                return Err(Error::Configuration(text));
            },
        };
        let v = match header_value(value.as_str()) {
            Ok(v) => v,
            Err(text) => {
                return Err(Error::Configuration(text));
            },
        };
        let ghost before = header_views(out@);
        out.push((n, v));
        proof {
            assert(header_views(out@) =~= before.push((n@, v@)));
            assert(wire_headers(all.take(i + 1)) =~= wire_headers(all.take(i as int)).push(
                (n@, v@),
            ));
        }
        i += 1;
    }
    assert(all.take(i as int) =~= all);
    Ok(out)
}

/// A fault found early is the fault of the whole.
proof fn fault_stays(headers: Seq<(Seq<char>, Seq<char>)>, n: int)
    requires
        0 <= n <= headers.len(),
        headers_fault(headers.take(n)) is Some,
    ensures
        headers_fault(headers) == headers_fault(headers.take(n)),
    decreases headers.len() - n,
{
    if n == headers.len() {
        assert(headers.take(n) =~= headers);
    } else {
        assert(headers.take(n + 1).drop_last() =~= headers.take(n));
        fault_stays(headers, n + 1);
    }
}

/// Fluent request assembled by generated resource methods.
#[derive(Debug)]
pub struct RequestBuilder {
    method: reqwest::Method,
    path: String,
    query: Option<String>,
    body: Option<Json>,
}

/// The mathematical form of a [`RequestBuilder`].
pub struct RequestView {
    /// The HTTP method.
    pub method: reqwest::Method,
    /// The path, appended to the API origin.
    pub path: Seq<char>,
    /// The query string.
    pub query: Option<Seq<char>>,
    /// The body.
    pub body: Option<JsonView>,
}

impl View for RequestBuilder {
    type V = RequestView;

    closed spec fn view(&self) -> RequestView {
        RequestView {
            method: self.method,
            path: self.path@,
            query: option_view(self.query),
            body: json_option(self.body),
        }
    }
}

/// A request, ready to be sent.
#[derive(Debug)]
pub struct RequestPlan {
    /// The HTTP method.
    pub method: reqwest::Method,
    /// The URL.
    pub url: String,
    /// The headers, in this order.
    pub headers: Vec<(String, Vec<u8>)>,
    /// The bearer token.
    pub bearer: Option<String>,
    /// The JSON body.
    pub body: Option<Json>,
}

/// The URL of a request: an empty query is not written.
pub open spec fn request_url(base_url: Seq<char>, request: RequestView) -> Seq<char> {
    let plain = base_url + request.path;
    match request.query {
        Some(query) => if query.len() > 0 {
            plain + seq!['?'] + query
        } else {
            plain
        },
        None => plain,
    }
}

impl RequestBuilder {
    /// A request without query and body.
    pub fn new(method: reqwest::Method, path: &str) -> (r: RequestBuilder)
        ensures
            r@ == (RequestView { method, path: path@, query: None, body: None }),
    {
        RequestBuilder { method, path: path.to_owned(), query: None, body: None }
    }

    /// Serialize query parameters according to `application/x-www-form-urlencoded` rules.
    pub fn query(self, pairs: &Vec<(String, String)>) -> (r: Result<RequestBuilder, Error>)
        ensures
            r matches Ok(b) && b@ == (RequestView {
                query: Some(form_pairs(pair_views(pairs@))),
                ..self@
            }),
    {
        self.query_encoded(urlencoded(pairs))
    }

    /// Use query parameters that were serialized by the caller.
    pub fn query_encoded(self, encoded: Result<String, QueryError>) -> (r: Result<
        RequestBuilder,
        Error,
    >)
        ensures
            match encoded {
                Ok(text) => r matches Ok(b) && b@ == (RequestView {
                    query: Some(text@),
                    ..self@
                }),
                Err(e) => r == Err::<RequestBuilder, Error>(Error::Query(e)),
            },
    {
        match encoded {
            Ok(text) => {
                let mut r = self;
                r.query = Some(text);
                Ok(r)
            },
            Err(e) => Err(Error::Query(e)),
        }
    }

    /// Use a JSON request body that was serialized by the caller.
    pub fn json(self, value: Result<Json, JsonError>) -> (r: Result<RequestBuilder, Error>)
        ensures
            match value {
                Ok(body) => r matches Ok(b) && b@ == (RequestView { body: Some(body@), ..self@ }),
                Err(e) => r == Err::<RequestBuilder, Error>(Error::Json(e)),
            },
    {
        match value {
            Ok(body) => {
                let mut r = self;
                r.body = Some(body);
                Ok(r)
            },
            Err(e) => Err(Error::Json(e)),
        }
    }

    /// Puts the request together with what the client sends along.
    pub fn build<St>(&self, client: &Client<St>) -> (r: Result<RequestPlan, Error>)
        ensures
            match headers_fault(client@.headers) {
                Some(text) => r matches Err(e) && e.is_configuration(text),
                None => r matches Ok(plan) && {
                    &&& plan.method == self@.method
                    &&& plan.url@ == request_url(client@.base_url, self@)
                    &&& header_views(plan.headers@) == wire_headers(client@.headers)
                    &&& option_view(plan.bearer) == client@.session.access_token
                    &&& json_option(plan.body) == self@.body
                },
            },
    {
        let mut url = client.base_url().clone();
        url.append(self.path.as_str());
        match &self.query {
            Some(query) => {
                proof {
                    reveal_strlit("");
                    assert(query@.len() == 0 ==> query@ =~= ""@);
                }
                if !same(query.as_str(), "") {
                    url.push('?');
                    url.append(query.as_str());
                    assert(url@ =~= request_url(client@.base_url, self@));
                }
            },
            None => {},
        }
        let headers = match prepare_headers(client.headers()) {
            Ok(headers) => headers,
            Err(e) => {
                return Err(e);
            },
        };
        Ok(
            RequestPlan {
                method: self.method.clone(),
                url,
                headers,
                bearer: client.access_token(),
                body: crate::json::copy_json(&self.body),
            },
        )
    }
}

impl<St> Client<St> {
    /// Start a typed HTTP request used by generated resources.
    pub fn request(&self, method: reqwest::Method, path: &str) -> (r: RequestBuilder)
        ensures
            r@ == (RequestView { method, path: path@, query: None, body: None }),
    {
        RequestBuilder::new(method, path)
    }
}

// ---------------------------------------------------------------------------
// Answers
// ---------------------------------------------------------------------------

/// Whether a status reports success: 200 to 299.
pub open spec fn success(status: u16) -> bool {
    200 <= status < 300
}

/// The text that `String::from_utf8_lossy` makes of bytes.
pub uninterp spec fn utf8_lossy(bytes: Seq<u8>) -> Seq<char>;

/// `String::from_utf8_lossy`: the text that the bytes encode, and where they
/// encode none, the same replacement for the same bytes.
#[verifier::external_body]
fn from_utf8_lossy(bytes: &[u8]) -> (r: String)
    ensures
        r@ == utf8_lossy(bytes@),
        valid_utf8(bytes@) ==> r@ == decode_utf8(bytes@),
{
    String::from_utf8_lossy(bytes).into_owned()
}

/// A response body as a document: what is no document is taken as text.
pub open spec fn body_document(bytes: Seq<u8>) -> JsonView {
    match parsed_bytes(bytes) {
        Some(document) => document,
        None => JsonView::Text(utf8_lossy(bytes)),
    }
}

/// The text of a member of the body itself, else of its `error` object.
pub open spec fn error_text(body: JsonView, key: Seq<char>) -> Option<Seq<char>> {
    match body.get_text(key) {
        Some(text) => Some(text),
        None => match body.get("error"@) {
            Some(error) => error.get_text(key),
            None => None,
        },
    }
}

/// The error that a response with that status and body stands for.
pub open spec fn api_error(status: u16, body: JsonView) -> ApiErrorView {
    ApiErrorView {
        status,
        code: error_text(body, "code"@),
        message: match error_text(body, "message"@) {
            Some(text) => text,
            None => "request failed"@,
        },
        body,
    }
}

fn read_error_text(body: &Json, key: &str) -> (r: Option<String>)
    ensures
        option_view(r) == error_text(body@, key@),
{
    match body.get_text(key) {
        Some(text) => Some(text),
        None => match body.get("error") {
            Some(error) => error.get_text(key),
            None => None,
        },
    }
}

/// The error that a response with that status and body stands for.
pub fn error_from_body(status: u16, body: Json) -> (r: ApiError)
    ensures
        r@ == api_error(status, body@),
{
    let code = read_error_text(&body, "code");
    let message = match read_error_text(&body, "message") {
        Some(text) => text,
        None => "request failed".to_owned(),
    };
    ApiError { status, code, message, body }
}

/// Checks a response: one without success is an error that keeps the status
/// and the body.
pub fn checked(status: u16, bytes: &[u8]) -> (r: Result<(), Error>)
    ensures
        if success(status) {
            r is Ok
        } else {
            r matches Err(e) && e.is_api(api_error(status, body_document(bytes@)))
        },
{
    if status >= 200 && status < 300 {
        return Ok(());
    }
    let body = match parse_bytes(bytes) {
        Some(document) => document,
        None => Json::Text(from_utf8_lossy(bytes)),
    };
    Err(Error::Api(error_from_body(status, body)))
}

/// Checks that a response has the body that the operation promises.
pub fn promised_body(status: u16, bytes: &[u8]) -> (r: Result<(), Error>)
    ensures
        if bytes@.len() > 0 {
            r is Ok
        } else {
            r matches Err(e) && e.is_api(
                ApiErrorView {
                    status,
                    code: Some("empty_response"@),
                    message: "server returned no body for an operation that promises one"@,
                    body: JsonView::Null,
                },
            )
        },
{
    if bytes.len() > 0 {
        Ok(())
    } else {
        Err(
            Error::Api(
                ApiError {
                    status,
                    code: Some("empty_response".to_owned()),
                    message: "server returned no body for an operation that promises one".to_owned(),
                    body: Json::Null,
                },
            ),
        )
    }
}

/// Where an exchange stands.
#[derive(Debug, Clone, Copy, PartialEq, Eq, Structural)]
pub enum Stage {
    /// The request was sent.
    Sent,
    /// It was refused, and the credentials are being renewed.
    Refreshing,
    /// It was sent once more.
    Resent,
}

/// What happens to an exchange.
#[derive(Debug, Clone, Copy, PartialEq, Eq, Structural)]
pub enum ExchangeEvent {
    /// A response came, with this status.
    Responded(u16),
    /// The renewal is over; the flag tells whether there are new credentials.
    Refreshed(bool),
}

/// What an exchange does next.
#[derive(Debug, Clone, Copy, PartialEq, Eq, Structural)]
pub enum ExchangeAction {
    /// The latest response is the answer.
    Finish,
    /// Renew the credentials of this generation.
    Refresh(u64),
    /// Send the request once more.
    Resend,
}

/// One request with its answer. A refused request is sent once more, after the
/// credentials were renewed.
#[derive(Debug, Clone, Copy, PartialEq, Eq, Structural)]
pub struct Exchange {
    generation: u64,
    stage: Stage,
}

/// The mathematical form of an [`Exchange`].
pub struct ExchangeView {
    /// The generation of the credentials that the request was first sent with.
    pub generation: u64,
    /// Where the exchange stands.
    pub stage: Stage,
}

impl View for Exchange {
    type V = ExchangeView;

    closed spec fn view(&self) -> ExchangeView {
        ExchangeView { generation: self.generation, stage: self.stage }
    }
}

impl ExchangeView {
    /// How an exchange goes on.
    pub open spec fn step(self, event: ExchangeEvent) -> (ExchangeView, ExchangeAction) {
        match (self.stage, event) {
            (Stage::Sent, ExchangeEvent::Responded(status)) => if status == 401 {
                (
                    ExchangeView { stage: Stage::Refreshing, ..self },
                    ExchangeAction::Refresh(self.generation),
                )
            } else {
                (self, ExchangeAction::Finish)
            },
            (Stage::Refreshing, ExchangeEvent::Refreshed(renewed)) => if renewed {
                (ExchangeView { stage: Stage::Resent, ..self }, ExchangeAction::Resend)
            } else {
                (self, ExchangeAction::Finish)
            },
            _ => (self, ExchangeAction::Finish),
        }
    }
}

impl Exchange {
    /// An exchange whose request was just sent, with credentials of that
    /// generation.
    pub fn new(generation: u64) -> (r: Exchange)
        ensures
            r@ == (ExchangeView { generation, stage: Stage::Sent }),
    {
        Exchange { generation, stage: Stage::Sent }
    }

    /// Goes on after an event.
    pub fn advance(&mut self, event: ExchangeEvent) -> (r: ExchangeAction)
        ensures
            (final(self)@, r) == old(self)@.step(event),
    {
        match (self.stage, event) {
            (Stage::Sent, ExchangeEvent::Responded(status)) => {
                if status == 401 {
                    self.stage = Stage::Refreshing;
                    ExchangeAction::Refresh(self.generation)
                } else {
                    ExchangeAction::Finish
                }
            },
            (Stage::Refreshing, ExchangeEvent::Refreshed(renewed)) => {
                if renewed {
                    self.stage = Stage::Resent;
                    ExchangeAction::Resend
                } else {
                    ExchangeAction::Finish
                }
            },
            _ => ExchangeAction::Finish,
        }
    }
}

/// What an exchange does over a row of events.
pub open spec fn actions(exchange: ExchangeView, events: Seq<ExchangeEvent>) -> Seq<ExchangeAction>
    decreases events.len(),
{
    if events.len() == 0 {
        Seq::empty()
    } else {
        let (next, action) = exchange.step(events[0]);
        seq![action] + actions(next, events.drop_first())
    }
}

/// Whatever happens, an exchange renews credentials at most once, and only
/// those that its request was sent with; and it sends the request at most once
/// more, after the renewal.
pub proof fn law_one_refresh_and_one_retry(generation: u64, events: Seq<ExchangeEvent>)
    ensures
        ({
            let taken = actions(ExchangeView { generation, stage: Stage::Sent }, events);
            &&& forall|i: int, j: int|
                0 <= i < taken.len() && 0 <= j < taken.len() && (#[trigger] taken[i]) is Refresh
                    && (#[trigger] taken[j]) is Refresh ==> i == j
            &&& forall|i: int, j: int|
                0 <= i < taken.len() && 0 <= j < taken.len() && (#[trigger] taken[i]) is Resend && (
                #[trigger] taken[j]) is Resend ==> i == j
            &&& forall|i: int|
                0 <= i < taken.len() && (#[trigger] taken[i]) is Refresh ==> taken[i]
                    == ExchangeAction::Refresh(generation)
            &&& forall|i: int, j: int|
                0 <= i < taken.len() && 0 <= j < taken.len() && (#[trigger] taken[i]) is Refresh
                    && (#[trigger] taken[j]) is Resend ==> i < j
        }),
    decreases events.len(),
{
    let sent = ExchangeView { generation, stage: Stage::Sent };
    let taken = actions(sent, events);
    if events.len() > 0 {
        let (next, action) = sent.step(events[0]);
        let rest = actions(next, events.drop_first());
        assert forall|i: int| 0 < i < taken.len() implies #[trigger] taken[i] == rest[i - 1] by {}
        if next.stage == Stage::Sent {
            law_one_refresh_and_one_retry(generation, events.drop_first());
        } else {
            refreshing_only_resends(next, events.drop_first());
        }
    }
}

proof fn refreshing_only_resends(exchange: ExchangeView, events: Seq<ExchangeEvent>)
    requires
        exchange.stage == Stage::Refreshing,
    ensures
        ({
            let taken = actions(exchange, events);
            &&& forall|i: int| 0 <= i < taken.len() ==> !((#[trigger] taken[i]) is Refresh)
            &&& forall|i: int, j: int|
                0 <= i < taken.len() && 0 <= j < taken.len() && (#[trigger] taken[i]) is Resend && (
                #[trigger] taken[j]) is Resend ==> i == j
        }),
    decreases events.len(),
{
    let taken = actions(exchange, events);
    if events.len() > 0 {
        let (next, action) = exchange.step(events[0]);
        let rest = actions(next, events.drop_first());
        assert forall|i: int| 0 < i < taken.len() implies #[trigger] taken[i] == rest[i - 1] by {}
        if next.stage == Stage::Refreshing {
            refreshing_only_resends(next, events.drop_first());
        } else {
            law_the_repeated_answer_counts(next, events.drop_first());
        }
    }
}

/// After the repetition every response is the answer, another refusal too.
pub proof fn law_the_repeated_answer_counts(exchange: ExchangeView, events: Seq<ExchangeEvent>)
    requires
        exchange.stage == Stage::Resent,
    ensures
        forall|i: int|
            0 <= i < actions(exchange, events).len() ==> (#[trigger] actions(exchange, events)[i])
                is Finish,
    decreases events.len(),
{
    let taken = actions(exchange, events);
    if events.len() > 0 {
        law_the_repeated_answer_counts(exchange, events.drop_first());
        let rest = actions(exchange, events.drop_first());
        assert forall|i: int| 0 < i < taken.len() implies #[trigger] taken[i] == rest[i - 1] by {}
    }
}

/// An error from the server keeps its status and the whole body, and its code
/// and message are those of the body, which take precedence over those of its
/// `error` object.
pub proof fn law_api_errors_keep_the_body(status: u16, body: JsonView)
    ensures
        api_error(status, body).status == status,
        api_error(status, body).body == body,
        body.get_text("code"@) is Some ==> api_error(status, body).code == body.get_text("code"@),
        body.get_text("message"@) is Some ==> Some(api_error(status, body).message)
            == body.get_text("message"@),
{
}

} // verus!
