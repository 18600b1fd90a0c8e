//! What requests and responses come to, from one call to the next.
use reqwest::Method;
use serde_json::Error as JsonError;
use serde_urlencoded::ser::Error as QueryError;
use vstd::prelude::*;
use vstd::utf8::*;
use crate::blocking::{may_block, runtime_ready};
use crate::client::Client;
use crate::endpoint::{encoded_text, form_pairs};
use crate::error::{ApiError, Error};
use crate::headers::{pair_views, Headers};
use crate::http::{
    checked, error_from_body, header_fault, header_views, headers_fault,
    is_header_name, is_header_value, prepare_headers, promised_body, utf8_lossy, Exchange,
    ExchangeAction, ExchangeEvent, RawResponse, RequestBuilder, RequestPlan, RequestView, Stage,
};
use crate::json::{json_option, parsed_bytes, Json, JsonView};
use crate::phoenix::SocketEvent;
use crate::sse::{
    next_item, opened, with_payload, Opening, SseDecode, SseEvent, SseItem, SseMessage,
};
use crate::stream::{channel_event_step, decoded, socket_event_step, StreamStep};
use crate::text::{lowercase, option_view};

verus! {

/// The first response to a request begins a refresh exactly where its status is
/// 401, and of the credentials that the request was sent with; every other
/// response is the answer. Whatever it is, the generation stays.
pub proof fn law_only_a_refusal_begins_a_refresh(
    generation: u64,
    start: Exchange,
    exchange: &mut Exchange,
    status: u16,
    action: ExchangeAction,
)
    requires
        call_ensures(Exchange::new, (generation,), start),
        *old(exchange) == start,
        call_ensures(Exchange::advance, (exchange, ExchangeEvent::Responded(status)), action),
    ensures
        status == 401 ==> action == ExchangeAction::Refresh(generation),
        status != 401 ==> action is Finish && final(exchange)@ == start@,
        final(exchange)@.generation == generation,
{
}

/// After a refusal the request is sent once more exactly where there are new
/// credentials; without them the refusal is the answer. The response to the
/// repetition is the answer, whatever its status.
pub proof fn law_a_refused_request_is_sent_once_more(
    generation: u64,
    start: Exchange,
    first: &mut Exchange,
    second: &mut Exchange,
    third: &mut Exchange,
    renewed: bool,
    status: u16,
    refused: ExchangeAction,
    repeated: ExchangeAction,
    answered: ExchangeAction,
)
    requires
        call_ensures(Exchange::new, (generation,), start),
        *old(first) == start,
        call_ensures(Exchange::advance, (first, ExchangeEvent::Responded(401)), refused),
        old(second)@ == final(first)@,
        call_ensures(Exchange::advance, (second, ExchangeEvent::Refreshed(renewed)), repeated),
        old(third)@ == final(second)@,
        call_ensures(Exchange::advance, (third, ExchangeEvent::Responded(status)), answered),
    ensures
        refused == ExchangeAction::Refresh(generation),
        renewed ==> repeated is Resend,
        !renewed ==> repeated is Finish,
        answered is Finish,
{
}

/// A request asks for the path that it was made with, at the client's origin,
/// with its query after a question mark, by its method and with its body. It
/// carries the client's access token and default headers.
pub proof fn law_a_request_is_sent_as_it_was_made<St>(
    client: &Client<St>,
    method: Method,
    path: &str,
    pairs: &Vec<(String, String)>,
    body: Json,
    plain: RequestBuilder,
    asking: Result<RequestBuilder, Error>,
    telling: Result<RequestBuilder, Error>,
    request: &RequestBuilder,
    plan: Result<RequestPlan, Error>,
)
    requires
        call_ensures(Client::<St>::request, (client, method, path), plain),
        call_ensures(RequestBuilder::query, (plain, pairs), asking),
        asking is Ok,
        call_ensures(RequestBuilder::json, (asking->Ok_0, Ok(body)), telling),
        telling is Ok,
        *request == telling->Ok_0,
        call_ensures(RequestBuilder::build::<St>, (request, client), plan),
        plan is Ok,
    ensures
        ({
            let sent = plan->Ok_0;
            &&& sent.method == method
            &&& pairs@.len() == 0 ==> sent.url@ == client@.base_url + path@
            &&& pairs@.len() > 0 ==> sent.url@ == client@.base_url + path@ + seq!['?']
                + form_pairs(pair_views(pairs@))
            &&& json_option(sent.body) == Some(body@)
            &&& option_view(sent.bearer) == client@.session.access_token
            &&& sent.headers@.len() == client@.headers.len()
            &&& forall|i: int|
                0 <= i < client@.headers.len() ==> {
                    &&& (#[trigger] sent.headers@[i]).0@ == lowercase(client@.headers[i].0)
                    &&& sent.headers@[i].1@ == encode_utf8(client@.headers[i].1)
                }
        }),
{
    let sent = plan->Ok_0;
    let row = pair_views(pairs@);
    if pairs@.len() > 0 {
        assert(form_pairs(row).len() > 0);
    }
    let views = header_views(sent.headers@);
    assert(views.len() == client@.headers.len());
    assert forall|i: int| 0 <= i < client@.headers.len() implies {
        &&& (#[trigger] sent.headers@[i]).0@ == lowercase(client@.headers[i].0)
        &&& sent.headers@[i].1@ == encode_utf8(client@.headers[i].1)
    } by {
        assert(views[i] == (lowercase(client@.headers[i].0), encode_utf8(client@.headers[i].1)));
    }
}

/// A request without query and body is sent without them, and so is the question
/// mark of an empty query.
pub proof fn law_a_bare_request_is_sent_bare<St>(
    client: &Client<St>,
    method: Method,
    path: &str,
    plain: RequestBuilder,
    encoded: String,
    asking: Result<RequestBuilder, Error>,
    request: &RequestBuilder,
    plan: Result<RequestPlan, Error>,
    bare: &RequestBuilder,
    bare_plan: Result<RequestPlan, Error>,
)
    requires
        call_ensures(Client::<St>::request, (client, method, path), plain),
        *bare == plain,
        call_ensures(RequestBuilder::build::<St>, (bare, client), bare_plan),
        call_ensures(
            RequestBuilder::query_encoded,
            (plain, Ok::<String, QueryError>(encoded)),
            asking,
        ),
        asking is Ok,
        *request == asking->Ok_0,
        call_ensures(RequestBuilder::build::<St>, (request, client), plan),
    ensures
        plan is Ok == bare_plan is Ok,
        bare_plan matches Ok(sent) ==> sent.url@ == client@.base_url + path@ && sent.body is None
            && sent.method == method,
        plan matches Ok(sent) ==> sent.url@ == if encoded@.len() == 0 {
            client@.base_url + path@
        } else {
            client@.base_url + path@ + seq!['?'] + encoded@
        },
{
}

/// What cannot be serialized is reported as what it is, and nothing is sent.
pub proof fn law_serialization_failures_are_reported(
    request: RequestBuilder,
    query_error: QueryError,
    json_error: JsonError,
    asking: Result<RequestBuilder, Error>,
    telling: Result<RequestBuilder, Error>,
)
    requires
        call_ensures(
            RequestBuilder::query_encoded,
            (request, Err::<String, QueryError>(query_error)),
            asking,
        ),
        call_ensures(RequestBuilder::json, (request, Err::<Json, JsonError>(json_error)), telling),
    ensures
        asking == Err::<RequestBuilder, Error>(Error::Query(query_error)),
        telling == Err::<RequestBuilder, Error>(Error::Json(json_error)),
{
}

/// A query goes on with every pair, set off from the one before; each is its name
/// and its value in form encoding.
pub proof fn law_query_pairs_are_joined(
    pairs: Seq<(Seq<char>, Seq<char>)>,
    name: Seq<char>,
    value: Seq<char>,
)
    ensures
        form_pairs(pairs.push((name, value))) == if pairs.len() == 0 {
            encoded_text(name) + seq!['='] + encoded_text(value)
        } else {
            form_pairs(pairs) + seq!['&'] + encoded_text(name) + seq!['='] + encoded_text(value)
        },
{
    let all = pairs.push((name, value));
    assert(all.drop_last() =~= pairs);
    assert(form_pairs(all) =~= if pairs.len() == 0 {
        encoded_text(name) + seq!['='] + encoded_text(value)
    } else {
        form_pairs(pairs) + seq!['&'] + encoded_text(name) + seq!['='] + encoded_text(value)
    });
}

/// Headers are sent unless one of them can be none: then nothing is sent, and the
/// failure says whether a name or a value is at fault.
pub proof fn law_faulty_headers_are_refused(
    headers: &Headers,
    prepared: Result<Vec<(String, Vec<u8>)>, Error>,
)
    requires
        call_ensures(prepare_headers, (headers,), prepared),
    ensures
        (prepared is Ok) == (forall|i: int|
            0 <= i < headers@.len() ==> is_header_name((#[trigger] headers@[i]).0)
                && is_header_value(headers@[i].1)),
        prepared matches Err(e) ==> exists|i: int|
            {
                &&& 0 <= i < headers@.len()
                &&& (!is_header_name((#[trigger] headers@[i]).0) && e.is_configuration(
                    "invalid HTTP header name"@,
                )) || (is_header_name(headers@[i].0) && !is_header_value(headers@[i].1)
                    && e.is_configuration("failed to parse header value"@))
                &&& forall|j: int|
                    0 <= j < i ==> is_header_name((#[trigger] headers@[j]).0) && is_header_value(
                        headers@[j].1,
                    )
            },
{
    first_fault(headers@);
}

proof fn first_fault(headers: Seq<(Seq<char>, Seq<char>)>)
    ensures
        headers_fault(headers) is None ==> forall|i: int|
            0 <= i < headers.len() ==> header_fault(#[trigger] headers[i]) is None,
        headers_fault(headers) matches Some(text) ==> exists|i: int|
            {
                &&& 0 <= i < headers.len()
                &&& header_fault(#[trigger] headers[i]) == Some(text)
                &&& forall|j: int| 0 <= j < i ==> header_fault(#[trigger] headers[j]) is None
            },
    decreases headers.len(),
{
    if headers.len() > 0 {
        let front = headers.drop_last();
        let last = headers.len() - 1;
        first_fault(front);
        if headers_fault(front) is Some {
            let i = choose|i: int|
                {
                    &&& 0 <= i < front.len()
                    &&& header_fault(#[trigger] front[i]) == headers_fault(front)
                    &&& forall|j: int| 0 <= j < i ==> header_fault(#[trigger] front[j]) is None
                };
            assert(headers[i] == front[i]);
            assert forall|j: int| 0 <= j < i implies header_fault(#[trigger] headers[j]) is None by {
                assert(headers[j] == front[j]);
            }
        } else {
            assert forall|j: int| 0 <= j < last implies header_fault(
                #[trigger] headers[j],
            ) is None by {
                assert(headers[j] == front[j]);
            }
            assert(headers[last] == headers.last());
        }
    }
}

/// A response is an answer exactly where its status is from 200 to 299. Every
/// other is an error that keeps the status and the body: the document that the
/// body is, or else its text.
pub proof fn law_a_response_without_success_is_an_error(
    status: u16,
    bytes: &[u8],
    outcome: Result<(), Error>,
)
    requires
        call_ensures(checked, (status, bytes), outcome),
    ensures
        (outcome is Ok) == (200 <= status <= 299),
        outcome matches Err(e) ==> (e matches Error::Api(error) && {
            &&& error.status == status
            &&& error.body@ == match parsed_bytes(bytes@) {
                Some(document) => document,
                None => JsonView::Text(utf8_lossy(bytes@)),
            }
        }),
{
}

/// The code and the message of an error are those of the body; what the body
/// lacks is taken from its `error` member; without a message there is a general
/// one, without a code none. The status and the body are kept.
pub proof fn law_an_error_says_what_the_body_says(status: u16, body: Json, error: ApiError)
    requires
        call_ensures(error_from_body, (status, body), error),
    ensures
        error.status == status,
        error.body@ == body@,
        body@.get_text("code"@) is Some ==> option_view(error.code) == body@.get_text("code"@),
        body@.get_text("code"@) is None && body@.get("error"@) is Some ==> option_view(error.code)
            == body@.get("error"@)->Some_0.get_text("code"@),
        body@.get_text("code"@) is None && body@.get("error"@) is None ==> error.code is None,
        body@.get_text("message"@) is Some ==> Some(error.message@) == body@.get_text("message"@),
        body@.get_text("message"@) is None && body@.get("error"@) is Some
            && body@.get("error"@)->Some_0.get_text("message"@) is Some ==> Some(error.message@)
            == body@.get("error"@)->Some_0.get_text("message"@),
        body@.get_text("message"@) is None && (body@.get("error"@) is None || body@.get(
            "error"@,
        )->Some_0.get_text("message"@) is None) ==> error.message@ == "request failed"@,
{
}

/// An error is described by its status and its message.
pub proof fn law_an_error_is_described(error: &ApiError, text: String)
    requires
        call_ensures(ApiError::describe, (error,), text),
    ensures
        text@ == "ArchAstro API returned HTTP "@ + crate::text::decimal(error.status as nat)
            + ": "@ + error.message@,
{
}

/// An operation that promises a body has one exactly where there are bytes; an
/// empty response is an error with that status.
pub proof fn law_a_promised_body_is_not_empty(
    status: u16,
    bytes: &[u8],
    outcome: Result<(), Error>,
)
    requires
        call_ensures(promised_body, (status, bytes), outcome),
    ensures
        (outcome is Ok) == (bytes@.len() > 0),
        outcome matches Err(e) ==> (e matches Error::Api(error) && {
            &&& error.status == status
            &&& option_view(error.code) == Some("empty_response"@)
            &&& error.message@ == "server returned no body for an operation that promises one"@
            &&& error.body@ == JsonView::Null
        }),
{
}

/// A raw response keeps its bytes, and its MIME type where every byte of the
/// header is a visible ASCII character, a space or a tab.
pub proof fn law_a_raw_response_is_kept(
    bytes: Vec<u8>,
    content_type: Option<Vec<u8>>,
    raw: RawResponse,
)
    requires
        call_ensures(RawResponse::new, (bytes, content_type), raw),
    ensures
        raw.bytes@ == bytes@,
        content_type is None ==> raw.content_type is None,
        content_type matches Some(value) ==> {
            &&& (raw.content_type is Some) == (forall|i: int|
                0 <= i < value@.len() ==> 32 <= #[trigger] value@[i] <= 126 || value@[i] == 9)
            &&& raw.content_type matches Some(text) ==> text@.len() == value@.len() && forall|
                i: int,
            |
                0 <= i < value@.len() ==> #[trigger] text@[i] == value@[i] as char
        },
{
}

/// A typed stream hands each message on once, with its event and its ID and what
/// its payload is decoded as from event and data; a failure to decode is handed
/// on instead. A failure of the source is reported with its text, the source's
/// opening is passed over, and its end is the stream's.
pub proof fn law_messages_are_handed_on<T: SseDecode>(
    item: SseItem,
    step: StreamStep<Result<SseEvent<T>, Error>>,
)
    requires
        call_ensures(next_item::<T>, (item,), step),
    ensures
        (step is Again) == (item is Open),
        (step is End) == (item is Ended),
        item matches SseItem::Failed(text) ==> (step matches StreamStep::Item(Err(e)) && e.is_sse(
            text@,
        )),
        item matches SseItem::Message(message) ==> exists|
            event: &str,
            data: &str,
            outcome: Result<T, Error>,
        |
            {
                &&& #[trigger] call_ensures(T::decode, (event, data), outcome)
                &&& event@ == message.event@
                &&& data@ == message.data@
                &&& match outcome {
                    Ok(value) => step matches StreamStep::Item(Ok(typed)) && typed.event@
                        == message.event@ && typed.id@ == message.id@ && typed.data == value,
                    Err(e) => step == StreamStep::Item(Err::<SseEvent<T>, Error>(e)),
                }
            },
{
}

/// A decoded payload comes with the event and the ID of its message.
pub proof fn law_a_payload_keeps_its_message<T>(
    message: SseMessage,
    payload: Result<T, Error>,
    typed: Result<SseEvent<T>, Error>,
)
    requires
        call_ensures(with_payload::<T>, (message, payload), typed),
    ensures
        match payload {
            Ok(data) => typed matches Ok(t) && t.event == message.event && t.id == message.id
                && t.data == data,
            Err(e) => typed == Err::<SseEvent<T>, Error>(e),
        },
{
}

/// A stream is open exactly where its source opened first. A rejected one fails
/// as any response with that status and body does, and where that response would
/// be an answer, because the status opens no stream.
pub proof fn law_a_stream_opens_first(
    first: Opening,
    outcome: Result<(), Error>,
    bytes: &[u8],
    response: Result<(), Error>,
)
    requires
        call_ensures(opened, (first,), outcome),
        first matches Opening::Rejected { status, bytes: body } ==> body@ == bytes@
            && call_ensures(checked, (status, bytes), response),
    ensures
        (outcome is Ok) == (first is Open),
        first is Message ==> outcome->Err_0.is_sse("SSE message arrived before the open event"@),
        first is Ended ==> outcome == Err::<(), Error>(Error::Closed),
        first matches Opening::Failed(text) ==> outcome->Err_0.is_sse(text@),
        first is Rejected ==> match response {
            Ok(_) => outcome->Err_0.is_sse("SSE endpoint rejected its status"@),
            Err(e) => e matches Error::Api(theirs) && outcome matches Err(Error::Api(ours))
                && ours@ == theirs@,
        },
{
}

/// A stream of socket events hands every event on and passes over those that
/// were missed; it ends with its source.
pub proof fn law_socket_events_are_handed_on(
    fed: Option<Result<SocketEvent, String>>,
    step: StreamStep<SocketEvent>,
)
    requires
        call_ensures(socket_event_step, (fed,), step),
    ensures
        (step is End) == (fed is None),
        (step is Again) == (fed is Some && fed->Some_0 is Err),
        fed matches Some(Ok(event)) ==> step == StreamStep::Item(event),
{
}

/// A stream of channel events hands every payload on and reports what was
/// missed; it ends with its source.
pub proof fn law_channel_events_are_handed_on(
    fed: Option<Result<Json, String>>,
    step: StreamStep<Result<Json, Error>>,
)
    requires
        call_ensures(channel_event_step, (fed,), step),
    ensures
        (step is End) == (fed is None),
        !(step is Again),
        fed matches Some(Ok(value)) ==> step == StreamStep::Item(Ok::<Json, Error>(value)),
        fed matches Some(Err(reason)) ==> (step matches StreamStep::Item(Err(Error::Channel(e)))
            && e.operation@ == "receive"@ && e.topic@.len() == 0 && e.reason@ == reason@
            && e.payload is None),
{
}

/// A payload that was decoded is handed on, and so is why one could not be.
pub proof fn law_decoding_is_handed_on<T>(value: Result<T, JsonError>, outcome: Result<T, Error>)
    requires
        call_ensures(decoded::<T>, (value,), outcome),
    ensures
        value matches Ok(v) ==> outcome == Ok::<T, Error>(v),
        value matches Err(e) ==> outcome == Err::<T, Error>(Error::Json(e)),
{
}

/// Synchronous code may wait exactly outside an async runtime.
pub proof fn law_blocking_is_refused_inside_a_runtime(
    inside_runtime: bool,
    outcome: Result<(), Error>,
)
    requires
        call_ensures(may_block, (inside_runtime,), outcome),
    ensures
        (outcome is Ok) == !inside_runtime,
        outcome matches Err(e) ==> e.is_configuration(
            "blocking SDK methods cannot run inside an async Tokio runtime"@,
        ),
{
}

/// A runtime that was set up is used, and a failure to set one up is reported
/// with its text.
pub proof fn law_a_runtime_is_used<R>(runtime: Result<R, String>, outcome: Result<R, Error>)
    requires
        call_ensures(runtime_ready::<R>, (runtime,), outcome),
    ensures
        runtime matches Ok(v) ==> outcome == Ok::<R, Error>(v),
        runtime matches Err(text) ==> outcome is Err && outcome->Err_0.is_configuration(text@),
{
}

/// An exchange that is told what cannot happen at its stage is over, and stays as
/// it was. None ever forgets which credentials its request was sent with.
pub proof fn law_what_is_out_of_turn_finishes(
    exchange: &mut Exchange,
    event: ExchangeEvent,
    action: ExchangeAction,
)
    requires
        call_ensures(Exchange::advance, (exchange, event), action),
    ensures
        final(exchange)@.generation == old(exchange)@.generation,
        old(exchange)@.stage == Stage::Sent && event is Refreshed ==> action is Finish
            && final(exchange)@ == old(exchange)@,
        old(exchange)@.stage == Stage::Refreshing && event is Responded ==> action is Finish
            && final(exchange)@ == old(exchange)@,
        old(exchange)@.stage == Stage::Resent ==> action is Finish && final(exchange)@ == old(
            exchange,
        )@,
{
}

/// Setting the query or the body of a request changes that and nothing else, and
/// replaces an earlier one. A request that was just made has neither.
pub proof fn law_the_parts_of_a_request_are_independent<St>(
    client: &Client<St>,
    method: Method,
    path: &str,
    plain: RequestBuilder,
    fresh: RequestBuilder,
    request: RequestBuilder,
    encoded: String,
    pairs: &Vec<(String, String)>,
    body: Json,
    asking: Result<RequestBuilder, Error>,
    listing: Result<RequestBuilder, Error>,
    telling: Result<RequestBuilder, Error>,
)
    requires
        call_ensures(Client::<St>::request, (client, method, path), plain),
        call_ensures(RequestBuilder::new, (method, path), fresh),
        call_ensures(
            RequestBuilder::query_encoded,
            (request, Ok::<String, QueryError>(encoded)),
            asking,
        ),
        call_ensures(RequestBuilder::query, (request, pairs), listing),
        call_ensures(RequestBuilder::json, (request, Ok::<Json, JsonError>(body)), telling),
    ensures
        plain@ == fresh@,
        fresh@ == (RequestView { method, path: path@, query: None, body: None }),
        asking matches Ok(r) && r@ == (RequestView { query: Some(encoded@), ..request@ }),
        listing matches Ok(r) && r@ == (RequestView {
            query: Some(form_pairs(pair_views(pairs@))),
            ..request@
        }),
        telling matches Ok(r) && r@ == (RequestView { body: Some(body@), ..request@ }),
{
}

/// A request can be sent exactly where the default headers can be.
pub proof fn law_a_request_needs_sound_headers<St>(
    client: &Client<St>,
    request: &RequestBuilder,
    plan: Result<RequestPlan, Error>,
    headers: &Headers,
    prepared: Result<Vec<(String, Vec<u8>)>, Error>,
)
    requires
        call_ensures(RequestBuilder::build::<St>, (request, client), plan),
        headers@ == client@.headers,
        call_ensures(prepare_headers, (headers,), prepared),
    ensures
        (plan is Ok) == (prepared is Ok),
        plan is Ok ==> header_views(plan->Ok_0.headers@) == header_views(prepared->Ok_0@),
        plan is Err ==> (plan->Err_0 matches Error::Configuration(ours)
            && prepared->Err_0 matches Error::Configuration(theirs) && ours@ == theirs@),
{
}

} // verus!
