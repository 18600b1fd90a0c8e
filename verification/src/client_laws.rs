//! What a client does with its credentials, from one call to the next.
use reqwest::Client as HttpClient;
use reqwest::Error as HttpError;
use vstd::prelude::*;
use crate::builder::{nanos, SocketBuilder};
use crate::client::{
    http_settings, Client, ClientBuilder, ClientBuilderView, HttpSettings, RefreshStep, RestoreStep,
    StoreStep,
};
use crate::endpoint::{checked_websocket_url, url_parsed};
use crate::error::Error;
use crate::headers::{first_named, law_one_header_is_set, ordered, pair_views, Headers};
use crate::http::{RequestBuilder, RequestPlan};
use crate::json::{json_option, Json};
use crate::session::{session_option, AppSession};
use crate::text::{lowercase, option_view};

verus! {

/// A token pair that was installed is in force: it is the client's access token
/// and the bearer of its requests, and a refusal of one of them renews it with
/// its own refresh token at its own path. Expiry, user and configuration stay.
pub proof fn law_an_installed_token_pair_is_in_force<St>(
    client: &mut Client<St>,
    access_token: String,
    refresh_token: Option<String>,
    refresh_path: &str,
    later: &Client<St>,
    token: Option<String>,
    request: &RequestBuilder,
    plan: Result<RequestPlan, Error>,
    refresh: RefreshStep,
)
    requires
        call_ensures(
            Client::<St>::install_session,
            (client, access_token, refresh_token, refresh_path),
            (),
        ),
        later@ == final(client)@,
        call_ensures(Client::<St>::access_token, (later,), token),
        call_ensures(RequestBuilder::build::<St>, (request, later), plan),
        call_ensures(
            Client::<St>::refresh_if_generation,
            (later, later@.session.generation),
            refresh,
        ),
    ensures
        option_view(token) == Some(access_token@),
        plan matches Ok(p) ==> option_view(p.bearer) == Some(access_token@),
        later@.session.access_token == Some(access_token@),
        later@.session.refresh_token == option_view(refresh_token),
        later@.session.refresh_path == Some(refresh_path@),
        later@.session.access_token_expires_at == old(client)@.session.access_token_expires_at,
        later@.session.user == old(client)@.session.user,
        later@.session.generation == (old(client)@.session.generation + 1)
            % 0x1_0000_0000_0000_0000,
        later@.base_url == old(client)@.base_url,
        later@.http == old(client)@.http,
        later@.headers == old(client)@.headers,
        later@.session_store == old(client)@.session_store,
        (refresh is Send) == (refresh_token is Some),
        refresh matches RefreshStep::Send(sent) ==> sent.url@ == old(client)@.base_url
            + refresh_path@ && sent.body@.get_text("refresh_token"@) == option_view(refresh_token),
        !(refresh is AlreadyRefreshed),
{
    if let RefreshStep::Send(sent) = refresh {
        assert(sent.body@->Object_0.last().name == "refresh_token"@);
    }
}

/// An app-user session that was installed is in force, whatever the client held
/// before, and is read back as it was. It is to be saved exactly where there is
/// a store, and renews at the app endpoint.
pub proof fn law_an_installed_app_session_is_in_force<St>(
    client: &mut Client<St>,
    value: AppSession,
    step: StoreStep,
    later: &Client<St>,
    token: Option<String>,
    held: Option<AppSession>,
    refresh: RefreshStep,
)
    requires
        call_ensures(Client::<St>::install_app_session, (client, value), step),
        later@ == final(client)@,
        call_ensures(Client::<St>::access_token, (later,), token),
        call_ensures(Client::<St>::app_session, (later,), held),
        call_ensures(
            Client::<St>::refresh_if_generation,
            (later, later@.session.generation),
            refresh,
        ),
    ensures
        option_view(token) == Some(value.access_token@),
        session_option(held) == Some(value@),
        old(client)@.session_store is Some ==> step == StoreStep::Save(value),
        old(client)@.session_store is None ==> step == StoreStep::Done,
        later@.session.access_token == Some(value@.access_token),
        later@.session.refresh_token == value@.refresh_token,
        later@.session.refresh_path == Some("/api/v1/auth/refresh"@),
        later@.session.access_token_expires_at == value@.access_token_expires_at,
        later@.session.user == value@.user,
        later@.session.generation == (old(client)@.session.generation + 1)
            % 0x1_0000_0000_0000_0000,
        later@.base_url == old(client)@.base_url,
        later@.http == old(client)@.http,
        later@.headers == old(client)@.headers,
        later@.session_store == old(client)@.session_store,
        (refresh is Send) == (value@.refresh_token is Some),
        refresh matches RefreshStep::Send(sent) ==> sent.url@ == old(client)@.base_url
            + "/api/v1/auth/refresh"@ && sent.body@.get_text("refresh_token"@)
            == value@.refresh_token,
{
    if let RefreshStep::Send(sent) = refresh {
        assert(sent.body@->Object_0.last().name == "refresh_token"@);
    }
}

/// After a sign-out there is no token, no session and nothing to renew one with,
/// not for requests that were sent before either. The configuration stays, and
/// a persisted session is to be removed exactly where there is a store.
pub proof fn law_signing_out_forgets_the_session<St>(
    client: &mut Client<St>,
    step: StoreStep,
    later: &Client<St>,
    token: Option<String>,
    held: Option<AppSession>,
    request: &RequestBuilder,
    plan: Result<RequestPlan, Error>,
    observed: u64,
    refresh: RefreshStep,
    socket: Option<Result<SocketBuilder, Error>>,
)
    requires
        call_ensures(Client::<St>::sign_out, (client,), step),
        later@ == final(client)@,
        call_ensures(Client::<St>::access_token, (later,), token),
        call_ensures(Client::<St>::app_session, (later,), held),
        call_ensures(RequestBuilder::build::<St>, (request, later), plan),
        call_ensures(Client::<St>::refresh_if_generation, (later, observed), refresh),
        call_ensures(Client::<St>::checked_socket, (later,), socket),
    ensures
        token is None,
        held is None,
        plan matches Ok(p) ==> p.bearer is None,
        !(refresh is Send),
        observed == old(client)@.session.generation ==> refresh is AlreadyRefreshed,
        socket is None || socket->Some_0 is Err,
        old(client)@.session_store is Some ==> step is Clear,
        old(client)@.session_store is None ==> step is Done,
        later@.session.user is None,
        later@.session.access_token_expires_at is None,
        later@.session.refresh_token is None,
        later@.session.refresh_path is None,
        later@.session.generation == (old(client)@.session.generation + 1)
            % 0x1_0000_0000_0000_0000,
        later@.base_url == old(client)@.base_url,
        later@.http == old(client)@.http,
        later@.headers == old(client)@.headers,
        later@.session_store == old(client)@.session_store,
{
}

/// A refresh is made for a request exactly where the credentials are still those
/// that it was sent with and there is a refresh token and a path; the refresh
/// token goes to that path, with the headers of the client. Where the
/// credentials have changed, nothing is sent.
pub proof fn law_a_refresh_spends_the_token_in_force<St>(
    client: &Client<St>,
    observed: u64,
    refresh: RefreshStep,
)
    requires
        call_ensures(Client::<St>::refresh_if_generation, (client, observed), refresh),
    ensures
        (refresh is AlreadyRefreshed) == (observed != client@.session.generation),
        (refresh is Send) == (observed == client@.session.generation
            && client@.session.refresh_token is Some && client@.session.refresh_path is Some),
        refresh matches RefreshStep::Send(sent) ==> {
            &&& sent.url@ == client@.base_url + client@.session.refresh_path->Some_0
            &&& pair_views(sent.headers@) == client@.headers
            &&& sent.body@.get_text("refresh_token"@) == client@.session.refresh_token
            &&& forall|key: Seq<char>|
                key != "refresh_token"@ ==> (#[trigger] sent.body@.get(key)) is None
        },
{
    if let RefreshStep::Send(sent) = refresh {
        let fields = sent.body@->Object_0;
        assert(fields.last().name == "refresh_token"@);
        assert forall|key: Seq<char>| key != "refresh_token"@ implies (
        #[trigger] sent.body@.get(key)) is None by {
            assert(fields.drop_last().len() == 0);
            reveal_with_fuel(crate::json::member, 2);
        }
    }
}

/// A refresh response with an access token puts it in force: it is the bearer of
/// the next request, the refresh token is the one of the response and the
/// earlier one where the response has none, and all else stays. What is to be
/// persisted is what the client then holds. Requests that were sent with the
/// earlier credentials spend no other refresh token.
pub proof fn law_a_refresh_response_is_in_force<St>(
    client: &mut Client<St>,
    body: &Json,
    outcome: Result<Option<AppSession>, Error>,
    later: &Client<St>,
    token: Option<String>,
    held: Option<AppSession>,
    request: &RequestBuilder,
    plan: Result<RequestPlan, Error>,
    refresh: RefreshStep,
)
    requires
        call_ensures(Client::<St>::finish_refresh, (client, body), outcome),
        later@ == final(client)@,
        call_ensures(Client::<St>::access_token, (later,), token),
        call_ensures(Client::<St>::app_session, (later,), held),
        call_ensures(RequestBuilder::build::<St>, (request, later), plan),
        call_ensures(
            Client::<St>::refresh_if_generation,
            (later, old(client)@.session.generation),
            refresh,
        ),
    ensures
        (outcome is Ok) == (body@.get_text("access_token"@) is Some),
        outcome is Err ==> later@ == old(client)@ && outcome->Err_0.is_configuration(
            "refresh response omitted access_token"@,
        ),
        outcome matches Ok(persist) ==> {
            &&& option_view(token) == body@.get_text("access_token"@)
            &&& plan matches Ok(p) ==> option_view(p.bearer) == body@.get_text("access_token"@)
            &&& later@.session.refresh_token == if body@.get_text("refresh_token"@) is Some {
                body@.get_text("refresh_token"@)
            } else {
                old(client)@.session.refresh_token
            }
            &&& later@.session.refresh_path == old(client)@.session.refresh_path
            &&& later@.session.access_token_expires_at
                == old(client)@.session.access_token_expires_at
            &&& later@.session.user == old(client)@.session.user
            &&& later@.session.generation == (old(client)@.session.generation + 1)
                % 0x1_0000_0000_0000_0000
            &&& old(client)@.session_store is Some ==> session_option(persist) == session_option(
                held,
            ) && persist is Some
            &&& old(client)@.session_store is None ==> persist is None
            &&& refresh is AlreadyRefreshed
            &&& later@.base_url == old(client)@.base_url
            &&& later@.http == old(client)@.http
            &&& later@.headers == old(client)@.headers
            &&& later@.session_store == old(client)@.session_store
        },
{
}

/// A persisted session that can renew is restored as it was and handed out once
/// it was saved again. One that cannot renew is to be removed; then, and where
/// there was none or looking for it failed, the client stays as it was.
pub proof fn law_a_persisted_session_is_restored<St>(
    client: &mut Client<St>,
    loaded: Result<Option<AppSession>, String>,
    step: RestoreStep,
    later: &Client<St>,
    held: Option<AppSession>,
    stored: Result<(), String>,
    outcome: Result<Option<AppSession>, Error>,
)
    requires
        call_ensures(Client::<St>::restored, (client, loaded), step),
        later@ == final(client)@,
        call_ensures(Client::<St>::app_session, (later,), held),
        call_ensures(RestoreStep::finish, (step, stored), outcome),
    ensures
        match loaded {
            Ok(Some(value)) => if value.refresh_token is Some {
                &&& step == RestoreStep::Keep(value)
                &&& session_option(held) == Some(value@)
                &&& later@.session.refresh_path == Some("/api/v1/auth/refresh"@)
                &&& stored is Ok ==> outcome == Ok::<Option<AppSession>, Error>(Some(value))
            } else {
                &&& step is Discard
                &&& later@ == old(client)@
                &&& stored is Ok ==> outcome == Ok::<Option<AppSession>, Error>(None)
            },
            Ok(None) => {
                &&& step is Missing
                &&& later@ == old(client)@
                &&& outcome == Ok::<Option<AppSession>, Error>(None)
            },
            Err(text) => {
                &&& later@ == old(client)@
                &&& (outcome matches Err(e) && e.is_storage(text@))
            },
        },
        (step is Keep || step is Discard) && stored is Err ==> (outcome matches Err(e)
            && e.is_storage(stored->Err_0@)),
        later@.base_url == old(client)@.base_url,
        later@.http == old(client)@.http,
        later@.headers == old(client)@.headers,
        later@.session_store == old(client)@.session_store,
{
}

/// A session can be restored exactly where there is a store.
pub proof fn law_restoring_needs_a_store<St>(client: &Client<St>, outcome: Result<(), Error>)
    requires
        call_ensures(Client::<St>::restore_session, (client,), outcome),
    ensures
        (outcome is Ok) == (client@.session_store is Some),
        outcome matches Err(e) ==> e.is_configuration("no session store is configured"@),
{
}

/// A failure of the store is reported with its text, and nothing else is.
pub proof fn law_storage_failures_are_reported(
    outcome: Result<(), String>,
    reported: Result<(), Error>,
)
    requires
        call_ensures(crate::client::storage_outcome, (outcome,), reported),
    ensures
        (reported is Ok) == (outcome is Ok),
        outcome matches Err(text) ==> reported->Err_0.is_storage(text@),
{
}

/// Each setting of a builder is the one that the client is built with, and none
/// touches another. The client starts with the given token and no other
/// credentials.
pub proof fn law_a_client_is_built_as_configured<St>(
    url: &str,
    name: String,
    value: String,
    token: String,
    store: St,
    http: HttpClient,
    fallback: Result<HttpClient, HttpError>,
    plain: ClientBuilder<St>,
    with_url: ClientBuilder<St>,
    with_header: ClientBuilder<St>,
    with_token: ClientBuilder<St>,
    with_store: ClientBuilder<St>,
    with_http: ClientBuilder<St>,
    built: Result<Client<St>, Error>,
)
    requires
        call_ensures(Client::<St>::builder, (), plain),
        call_ensures(ClientBuilder::<St>::base_url, (plain, url), with_url),
        call_ensures(ClientBuilder::<St>::header, (with_url, name, value), with_header),
        call_ensures(ClientBuilder::<St>::access_token, (with_header, token), with_token),
        call_ensures(ClientBuilder::<St>::session_store, (with_token, store), with_store),
        call_ensures(ClientBuilder::<St>::http_client, (with_store, http), with_http),
        call_ensures(ClientBuilder::<St>::build_with, (with_http, fallback), built),
    ensures
        plain@.base_url == "https://platform.archastro.ai"@,
        plain@.headers.len() == 0,
        plain@.access_token is None,
        plain@.session_store is None,
        plain@.http is None,
        (built is Ok) == (url_parsed(with_http@.base_url) is Ok),
        built matches Err(e) ==> e == Error::Url(url_parsed(with_http@.base_url)->Err_0),
        with_url@.base_url.len() <= url@.len(),
        with_url@.base_url == url@.take(with_url@.base_url.len() as int),
        with_url@.base_url.len() > 0 ==> with_url@.base_url.last() != '/',
        forall|i: int| with_url@.base_url.len() <= i < url@.len() ==> (#[trigger] url@[i]) == '/',
        with_url@ == (ClientBuilderView { base_url: with_url@.base_url, ..plain@ }),
        with_token@ == (ClientBuilderView { access_token: Some(token@), ..with_header@ }),
        with_store@ == (ClientBuilderView { session_store: Some(store), ..with_token@ }),
        with_http@ == (ClientBuilderView { http: Some(http), ..with_store@ }),
        built matches Ok(client) ==> {
            &&& client@.base_url == with_url@.base_url
            &&& client@.headers == seq![(name@, value@)]
            &&& client@.http == http
            &&& client@.session_store == Some(store)
            &&& client@.session.access_token == Some(token@)
            &&& client@.session.refresh_token is None
            &&& client@.session.refresh_path is None
            &&& client@.session.access_token_expires_at is None
            &&& client@.session.user is None
            &&& client@.session.generation == 0
        },
{
    crate::text::law_only_trailing_slashes_are_dropped(url@);
    assert(with_header@.headers =~= seq![(name@, value@)]);
}

/// Without a client of the caller's the one that was made is used, and where
/// making it failed, building fails with that; one of the caller's makes it
/// irrelevant. A builder without a token makes a client without one.
pub proof fn law_a_supplied_http_client_is_used<St>(
    builder: ClientBuilder<St>,
    fallback: Result<HttpClient, HttpError>,
    built: Result<Client<St>, Error>,
)
    requires
        call_ensures(ClientBuilder::<St>::build_with, (builder, fallback), built),
    ensures
        url_parsed(builder@.base_url) matches Err(e) ==> built == Err::<Client<St>, Error>(
            Error::Url(e),
        ),
        url_parsed(builder@.base_url) is Ok && builder@.http is Some ==> built is Ok && Some(
            built->Ok_0@.http,
        ) == builder@.http,
        url_parsed(builder@.base_url) is Ok && builder@.http is None ==> match fallback {
            Ok(http) => built is Ok && built->Ok_0@.http == http,
            Err(e) => built == Err::<Client<St>, Error>(Error::Http(e)),
        },
        built matches Ok(client) ==> client@.session.access_token == builder@.access_token
            && client@.headers == builder@.headers && client@.base_url == builder@.base_url
            && client@.session_store == builder@.session_store,
{
}

/// Building with the default HTTP client makes the same client, up to that.
pub proof fn law_build_is_build_with<St>(
    builder: ClientBuilder<St>,
    built: Result<Client<St>, Error>,
)
    requires
        call_ensures(ClientBuilder::<St>::build, (builder,), built),
    ensures
        built matches Ok(client) ==> {
            &&& url_parsed(builder@.base_url) is Ok
            &&& client@.base_url == builder@.base_url
            &&& client@.headers == builder@.headers
            &&& client@.session.access_token == builder@.access_token
            &&& client@.session.refresh_token is None
            &&& client@.session.refresh_path is None
            &&& client@.session.user is None
            &&& client@.session.generation == 0
            &&& client@.session_store == builder@.session_store
            &&& builder@.http is Some ==> Some(client@.http) == builder@.http
        },
        url_parsed(builder@.base_url) matches Err(e) ==> built == Err::<Client<St>, Error>(
            Error::Url(e),
        ),
        url_parsed(builder@.base_url) is Ok && builder@.http is Some ==> built is Ok,
{
}

/// Setting a header sets that one: its name has that value, every other header
/// stays, and so does every other setting.
pub proof fn law_a_default_header_is_set<St>(
    builder: ClientBuilder<St>,
    name: String,
    value: String,
    set: ClientBuilder<St>,
)
    requires
        builder.wf(),
        call_ensures(ClientBuilder::<St>::header, (builder, name, value), set),
    ensures
        forall|n: Seq<char>, v: Seq<char>| #[trigger]
            set@.headers.contains((n, v)) <==> if n == name@ {
                v == value@
            } else {
                builder@.headers.contains((n, v))
            },
        set@.base_url == builder@.base_url,
        set@.access_token == builder@.access_token,
        set@.session_store == builder@.session_store,
        set@.http == builder@.http,
{
    law_one_header_is_set(builder@.headers, name@, value@);
}

/// A secret and a publishable key are sent in the header for API keys, the later
/// one in place of the earlier.
pub proof fn law_api_keys_are_sent<St>(
    builder: ClientBuilder<St>,
    secret: String,
    publishable: String,
    one: ClientBuilder<St>,
    other: ClientBuilder<St>,
)
    requires
        builder.wf(),
        call_ensures(ClientBuilder::<St>::secret_key, (builder, secret), one),
        one.wf(),
        call_ensures(ClientBuilder::<St>::publishable_key, (one, publishable), other),
    ensures
        forall|v: Seq<char>| #[trigger]
            one@.headers.contains(("x-archastro-api-key"@, v)) <==> v == secret@,
        forall|v: Seq<char>| #[trigger]
            other@.headers.contains(("x-archastro-api-key"@, v)) <==> v == publishable@,
        forall|n: Seq<char>, v: Seq<char>|
            n != "x-archastro-api-key"@ ==> (#[trigger] other@.headers.contains((n, v)))
                == builder@.headers.contains((n, v)),
        other@.access_token == builder@.access_token,
        other@.base_url == builder@.base_url,
        other@.session_store == builder@.session_store,
        other@.http == builder@.http,
{
    law_one_header_is_set(builder@.headers, "x-archastro-api-key"@, secret@);
    law_one_header_is_set(one@.headers, "x-archastro-api-key"@, publishable@);
    assert forall|n: Seq<char>, v: Seq<char>| n != "x-archastro-api-key"@ implies (
    #[trigger] other@.headers.contains((n, v))) == builder@.headers.contains((n, v)) by {
        assert(other@.headers.contains((n, v)) == one@.headers.contains((n, v)));
    }
}

/// A header is looked up by its name, the case of ASCII letters aside: what is
/// found is the value of the first such header, and where nothing is found there is
/// none.
pub proof fn law_headers_are_found_in_any_case(headers: &Headers, name: &str, found: Option<String>)
    requires
        call_ensures(Headers::find_ignore_case, (headers, name), found),
    ensures
        found matches Some(value) ==> exists|i: int|
            0 <= i < headers@.len() && same_but_for_case(#[trigger] headers@[i].0, name@)
                && headers@[i].1 == value@ && forall|j: int|
                0 <= j < i ==> !same_but_for_case(#[trigger] headers@[j].0, name@),
        found is None ==> forall|i: int|
            0 <= i < headers@.len() ==> !same_but_for_case(#[trigger] headers@[i].0, name@),
{
    first_named_is_one(headers@, name@);
}

/// Whether two texts are the same but for the case of ASCII letters.
pub open spec fn same_but_for_case(a: Seq<char>, b: Seq<char>) -> bool {
    &&& a.len() == b.len()
    &&& forall|i: int|
        0 <= i < a.len() ==> {
            ||| #[trigger] a[i] == b[i]
            ||| 'A' <= a[i] <= 'Z' && b[i] as int == a[i] as int + 32
            ||| 'A' <= b[i] <= 'Z' && a[i] as int == b[i] as int + 32
        }
}

proof fn lowercase_is_case(a: Seq<char>, b: Seq<char>)
    ensures
        (lowercase(a) == lowercase(b)) == same_but_for_case(a, b),
{
    if lowercase(a) == lowercase(b) {
        assert(a.len() == lowercase(a).len());
        assert forall|i: int| 0 <= i < a.len() implies {
            ||| #[trigger] a[i] == b[i]
            ||| 'A' <= a[i] <= 'Z' && b[i] as int == a[i] as int + 32
            ||| 'A' <= b[i] <= 'Z' && a[i] as int == b[i] as int + 32
        } by {
            assert(lowercase(a)[i] == lowercase(b)[i]);
        }
    }
    if same_but_for_case(a, b) {
        assert forall|i: int| 0 <= i < a.len() implies lowercase(a)[i] == lowercase(b)[i] by {
            assert(a[i] == a[i]);
        }
        assert(lowercase(a) =~= lowercase(b));
    }
}

proof fn first_named_is_one(headers: Seq<(Seq<char>, Seq<char>)>, name: Seq<char>)
    ensures
        first_named(headers, name) matches Some(value) ==> exists|i: int|
            0 <= i < headers.len() && same_but_for_case(#[trigger] headers[i].0, name)
                && headers[i].1 == value && forall|j: int|
                0 <= j < i ==> !same_but_for_case(#[trigger] headers[j].0, name),
        first_named(headers, name) is None ==> forall|i: int|
            0 <= i < headers.len() ==> !same_but_for_case(#[trigger] headers[i].0, name),
    decreases headers.len(),
{
    if headers.len() > 0 {
        let rest = headers.drop_first();
        lowercase_is_case(headers[0].0, name);
        first_named_is_one(rest, name);
        if lowercase(headers[0].0) == lowercase(name) {
            assert(same_but_for_case(headers[0].0, name));
        } else {
            if first_named(rest, name) is Some {
                let i = choose|i: int|
                    0 <= i < rest.len() && same_but_for_case(#[trigger] rest[i].0, name)
                        && rest[i].1 == first_named(rest, name)->Some_0 && forall|j: int|
                        0 <= j < i ==> !same_but_for_case(#[trigger] rest[j].0, name);
                assert(headers[i + 1].0 == rest[i].0);
                assert forall|j: int| 0 <= j < i + 1 implies !same_but_for_case(
                    #[trigger] headers[j].0,
                    name,
                ) by {
                    if j > 0 {
                        assert(rest[j - 1].0 == headers[j].0);
                    }
                }
            } else {
                assert forall|i: int| 0 <= i < headers.len() implies !same_but_for_case(
                    #[trigger] headers[i].0,
                    name,
                ) by {
                    if i > 0 {
                        assert(rest[i - 1].0 == headers[i].0);
                    }
                }
            }
        }
    }
}

/// A socket of a client goes to the channel endpoint of its base URL and carries
/// the client's access token, and its API key where a header holds one in
/// whatever case. Without an access token there is no socket.
pub proof fn law_a_socket_carries_the_credentials<St>(
    client: &Client<St>,
    socket: Option<Result<SocketBuilder, Error>>,
    base_url: &str,
    endpoint: Option<Result<String, Error>>,
)
    requires
        call_ensures(Client::<St>::checked_socket, (client,), socket),
        base_url@ == client@.base_url,
        call_ensures(checked_websocket_url, (base_url,), endpoint),
    ensures
        socket is Some == endpoint is Some,
        socket matches Some(Ok(builder)) ==> {
            &&& (endpoint matches Some(Ok(url)) && builder@.url == url@)
            &&& builder@.params.len() == 1 || builder@.params.len() == 2
            &&& builder@.params[0].0 == "token"@
            &&& client@.session.access_token == Some(builder@.params[0].1)
            &&& builder@.params.len() == 2 ==> builder@.params[1].0 == "api_key"@ && exists|
                i: int,
            |
                0 <= i < client@.headers.len() && same_but_for_case(
                    #[trigger] client@.headers[i].0,
                    "x-archastro-api-key"@,
                ) && client@.headers[i].1 == builder@.params[1].1
            &&& builder@.params.len() == 1 ==> forall|i: int|
                0 <= i < client@.headers.len() ==> !same_but_for_case(
                    #[trigger] client@.headers[i].0,
                    "x-archastro-api-key"@,
                )
            &&& builder@.auto_reconnect
            &&& nanos(builder@.timeout) == 10_000_000_000
            &&& nanos(builder@.heartbeat) == 30_000_000_000
        },
        socket matches Some(outcome) ==> (outcome is Ok == (client@.session.access_token is Some
            && endpoint->Some_0 is Ok)),
        socket is Some && client@.session.access_token is None ==> (socket->Some_0 matches Err(e)
            && e.is_configuration("a bearer token is required for channels"@)),
{
    first_named_is_one(client@.headers, "x-archastro-api-key"@);
}

/// What a client says of itself is what it holds.
pub proof fn law_a_client_tells_what_it_holds<St>(
    client: &Client<St>,
    http: &HttpClient,
    base_url: &String,
    headers: &Headers,
    store: Option<&St>,
    generation: u64,
    token: Option<String>,
    held: Option<AppSession>,
)
    requires
        call_ensures(Client::<St>::http, (client,), http),
        call_ensures(Client::<St>::base_url, (client,), base_url),
        call_ensures(Client::<St>::headers, (client,), headers),
        call_ensures(Client::<St>::store, (client,), store),
        call_ensures(Client::<St>::generation, (client,), generation),
        call_ensures(Client::<St>::access_token, (client,), token),
        call_ensures(Client::<St>::app_session, (client,), held),
    ensures
        *http == client@.http,
        base_url@ == client@.base_url,
        headers@ == client@.headers,
        (store is Some) == (client@.session_store is Some),
        store matches Some(st) ==> client@.session_store == Some(*st),
        generation == client@.session.generation,
        option_view(token) == client@.session.access_token,
        (held is Some) == (client@.session.access_token is Some),
        held matches Some(session) ==> {
            &&& client@.session.access_token == Some(session@.access_token)
            &&& session@.refresh_token == client@.session.refresh_token
            &&& session@.access_token_expires_at == client@.session.access_token_expires_at
            &&& session@.user == client@.session.user
        },
{
}

/// A connection is waited for ten seconds, and probed every thirty.
pub proof fn law_connections_are_probed(settings: HttpSettings)
    requires
        call_ensures(http_settings, (), settings),
    ensures
        nanos(settings.connect_timeout) == 10 * 1_000_000_000,
        nanos(settings.tcp_keepalive) == 30 * 1_000_000_000,
{
}

/// A client built from nothing has the usual origin and no credentials.
pub proof fn law_a_plain_client_has_no_credentials<St>(built: Result<Client<St>, Error>)
    requires
        call_ensures(Client::<St>::new, (), built),
    ensures
        built matches Ok(client) ==> {
            &&& client@.base_url == "https://platform.archastro.ai"@
            &&& client@.headers.len() == 0
            &&& client@.session.access_token is None
            &&& client@.session.refresh_token is None
            &&& client@.session_store is None
        },
{
}

/// Asking for a socket directly gives what asking with a check gives.
pub proof fn law_a_checked_socket_is_the_socket<St>(
    client: &Client<St>,
    direct: Result<SocketBuilder, Error>,
    checked: Option<Result<SocketBuilder, Error>>,
)
    requires
        call_ensures(Client::<St>::socket, (client,), direct),
        call_ensures(Client::<St>::checked_socket, (client,), checked),
    ensures
        checked matches Some(other) ==> {
            &&& (direct is Ok) == (other is Ok)
            &&& direct is Ok ==> direct->Ok_0@.url == other->Ok_0@.url && direct->Ok_0@.params
                == other->Ok_0@.params && direct->Ok_0@.auto_reconnect
                == other->Ok_0@.auto_reconnect
        },
{
}

/// Headers are as many as were set, each is found at its place, a copy holds the
/// same, and setting one keeps the names in order.
pub proof fn law_headers_are_kept(
    headers: &mut Headers,
    name: String,
    value: String,
    later: &Headers,
    length: usize,
    i: usize,
    entry: (&String, &String),
    copy: Vec<(String, String)>,
    empty: Headers,
)
    requires
        old(headers).wf(),
        call_ensures(Headers::insert, (headers, name, value), ()),
        later@ == final(headers)@,
        call_ensures(Headers::len, (later,), length),
        i < later@.len(),
        call_ensures(Headers::at, (later, i), entry),
        call_ensures(Headers::pairs, (later,), copy),
        call_ensures(Headers::new, (), empty),
    ensures
        empty@.len() == 0,
        length == later@.len(),
        entry.0@ == later@[i as int].0,
        entry.1@ == later@[i as int].1,
        copy@.len() == later@.len(),
        copy@[i as int].0@ == entry.0@,
        copy@[i as int].1@ == entry.1@,
        later@.contains((name@, value@)),
        forall|n: Seq<char>, v: Seq<char>|
            n != name@ ==> (#[trigger] later@.contains((n, v))) == old(headers)@.contains((n, v)),
        forall|v: Seq<char>| (#[trigger] later@.contains((name@, v))) ==> v == value@,
        ordered(later@),
{
    law_one_header_is_set(old(headers)@, name@, value@);
    assert(pair_views(copy@)[i as int] == later@[i as int]);
}

/// A copy of a session is the same session.
pub proof fn law_a_copied_session_is_the_same(session: &AppSession, copy: AppSession)
    requires
        call_ensures(<AppSession as Clone>::clone, (session,), copy),
    ensures
        copy.access_token@ == session.access_token@,
        option_view(copy.refresh_token) == option_view(session.refresh_token),
        copy.access_token_expires_at == session.access_token_expires_at,
        json_option(copy.user) == json_option(session.user),
{
}

} // verus!
