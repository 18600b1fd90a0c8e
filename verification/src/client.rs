//! The client: its configuration, its credentials, and how they are renewed.
use reqwest::Client as HttpClient;
use reqwest::Error as HttpError;
use std::time::Duration;
use vstd::prelude::*;
use crate::builder::{default_schedule, nanos, schedule_nanos, SocketBuilder};
use crate::endpoint::{
    base_url_fits, channel_endpoint, endpoint_fits, sound_endpoint, url_parsed, websocket_url,
};
use crate::error::Error;
use crate::headers::{first_named, ordered, pair_views, with_header, Headers};
use crate::json::{Json, JsonView, MemberView};
use crate::session::{
    next_generation, session_option, AppSession, AppSessionView, Session, SessionView,
};
use crate::text::{option_view, trim_slashes, without_trailing_slashes};

verus! {

/// `reqwest::Client`, carried from the builder to the requests.
#[verifier::external_type_specification]
#[verifier::external_body]
pub struct ExHttpClient(HttpClient);

/// What the default HTTP client is made with.
#[derive(Debug)]
pub struct HttpSettings {
    /// Longest time to wait for a connection.
    pub connect_timeout: Duration,
    /// Interval of TCP keepalive probes.
    pub tcp_keepalive: Duration,
}

/// The settings of the HTTP client that is made unless one is supplied.
pub fn http_settings() -> (r: HttpSettings)
    ensures
        nanos(r.connect_timeout) == 10_000_000_000,
        nanos(r.tcp_keepalive) == 30_000_000_000,
{
    HttpSettings {
        connect_timeout: Duration::from_secs(10),
        tcp_keepalive: Duration::from_secs(30),
    }
}

/// `reqwest::ClientBuilder::build` with a connect timeout and a keepalive
/// interval, ten seconds and thirty. It reads the proxy settings of the
/// environment and sets up TLS, so nothing is said of its result.
#[verifier::external_body]
fn default_http(settings: HttpSettings) -> (r: Result<HttpClient, HttpError>)
    requires
        nanos(settings.connect_timeout) == 10_000_000_000,
        nanos(settings.tcp_keepalive) == 30_000_000_000,
{
    HttpClient::builder()
        .connect_timeout(settings.connect_timeout)
        .tcp_keepalive(settings.tcp_keepalive)
        .build()
}

/// The name of the header that carries an API key.
pub open spec fn api_key_header() -> Seq<char> {
    "x-archastro-api-key"@
}

/// The API origin used unless another is set.
pub open spec fn default_base_url() -> Seq<char> {
    "https://platform.archastro.ai"@
}

/// Builder for [`Client`]. `St` is the handle of a session store.
#[derive(Debug)]
pub struct ClientBuilder<St> {
    base_url: String,
    http: Option<HttpClient>,
    headers: Headers,
    access_token: Option<String>,
    session_store: Option<St>,
}

/// The mathematical form of a [`ClientBuilder`].
#[verifier::ext_equal]
pub struct ClientBuilderView<St> {
    /// API origin.
    pub base_url: Seq<char>,
    /// Supplied HTTP client.
    pub http: Option<HttpClient>,
    /// Default request headers, in the order of their names.
    pub headers: Seq<(Seq<char>, Seq<char>)>,
    /// Bearer token.
    pub access_token: Option<Seq<char>>,
    /// Session store.
    pub session_store: Option<St>,
}

impl<St> View for ClientBuilder<St> {
    type V = ClientBuilderView<St>;

    closed spec fn view(&self) -> ClientBuilderView<St> {
        ClientBuilderView {
            base_url: self.base_url@,
            http: self.http,
            headers: self.headers@,
            access_token: option_view(self.access_token),
            session_store: self.session_store,
        }
    }
}

impl<St> ClientBuilderView<St> {
    /// The client that this configuration makes with an HTTP client.
    pub open spec fn client(self, http: HttpClient) -> ClientView<St> {
        ClientView {
            base_url: self.base_url,
            http,
            headers: self.headers,
            session: SessionView {
                access_token: self.access_token,
                ..SessionView::blank(0)
            },
            session_store: self.session_store,
        }
    }
}

/// The outcome of building a client, where `fallback` is what making the
/// default HTTP client came to.
pub open spec fn build_outcome<St>(
    builder: ClientBuilderView<St>,
    fallback: Result<HttpClient, HttpError>,
    r: Result<Client<St>, Error>,
) -> bool {
    match url_parsed(builder.base_url) {
        Err(e) => r == Err::<Client<St>, Error>(Error::Url(e)),
        Ok(_) => match (builder.http, fallback) {
            (Some(http), _) => r matches Ok(c) && c.wf() && c@ == builder.client(http),
            (None, Ok(http)) => r matches Ok(c) && c.wf() && c@ == builder.client(http),
            (None, Err(e)) => r == Err::<Client<St>, Error>(Error::Http(e)),
        },
    }
}

impl<St> Default for ClientBuilder<St> {
    fn default() -> (r: ClientBuilder<St>)
        ensures
            r.wf(),
            r@ == (ClientBuilderView {
                base_url: default_base_url(),
                http: None,
                headers: Seq::empty(),
                access_token: None,
                session_store: None::<St>,
            }),
    {
        ClientBuilder {
            base_url: "https://platform.archastro.ai".to_owned(),
            http: None,
            headers: Headers::new(),
            access_token: None,
            session_store: None,
        }
    }
}

impl<St> ClientBuilder<St> {
    /// The headers are in order.
    pub open spec fn wf(self) -> bool {
        ordered(self@.headers)
    }

    /// Override the API origin (primarily for private deployments and tests).
    pub fn base_url(self, value: &str) -> (r: ClientBuilder<St>)
        ensures
            r@ == (ClientBuilderView {
                base_url: without_trailing_slashes(value@),
                ..self@
            }),
    {
        let mut r = self;
        r.base_url = trim_slashes(value);
        r
    }

    /// Use a preconfigured Reqwest client.
    pub fn http_client(self, value: HttpClient) -> (r: ClientBuilder<St>)
        ensures
            r@ == (ClientBuilderView { http: Some(value), ..self@ }),
    {
        let mut r = self;
        r.http = Some(value);
        r
    }

    /// Add a default request header.
    pub fn header(self, name: String, value: String) -> (r: ClientBuilder<St>)
        requires
            self.wf(),
        ensures
            r.wf(),
            r@ == (ClientBuilderView {
                headers: with_header(self@.headers, name@, value@),
                ..self@
            }),
    {
        let mut r = self;
        r.headers.insert(name, value);
        r
    }

    /// Authenticate with a secret API key.
    pub fn secret_key(self, value: String) -> (r: ClientBuilder<St>)
        requires
            self.wf(),
        ensures
            r.wf(),
            r@ == (ClientBuilderView {
                headers: with_header(self@.headers, api_key_header(), value@),
                ..self@
            }),
    {
        self.header("x-archastro-api-key".to_owned(), value)
    }

    /// Configure the publishable key used by app-user auth flows.
    pub fn publishable_key(self, value: String) -> (r: ClientBuilder<St>)
        requires
            self.wf(),
        ensures
            r.wf(),
            r@ == (ClientBuilderView {
                headers: with_header(self@.headers, api_key_header(), value@),
                ..self@
            }),
    {
        self.header("x-archastro-api-key".to_owned(), value)
    }

    /// Use an existing bearer/system-user token.
    pub fn access_token(self, value: String) -> (r: ClientBuilder<St>)
        ensures
            r@ == (ClientBuilderView { access_token: Some(value@), ..self@ }),
    {
        let mut r = self;
        r.access_token = Some(value);
        r
    }

    /// Persist app-user sessions and refresh-token rotations in this store.
    pub fn session_store(self, value: St) -> (r: ClientBuilder<St>)
        ensures
            r@ == (ClientBuilderView { session_store: Some(value), ..self@ }),
    {
        let mut r = self;
        r.session_store = Some(value);
        r
    }

    fn assemble(self, http: HttpClient) -> (r: Client<St>)
        requires
            self.wf(),
        ensures
            r.wf(),
            r@ == self@.client(http),
    {
        let mut session = Session::blank(0);
        session.access_token = self.access_token;
        Client {
            base_url: self.base_url,
            http,
            headers: self.headers,
            session,
            session_store: self.session_store,
        }
    }

    /// Builds a client, where `fallback` is what making the default HTTP
    /// client came to. It counts only where none was supplied and the base URL
    /// is one.
    pub fn build_with(self, fallback: Result<HttpClient, HttpError>) -> (r: Result<
        Client<St>,
        Error,
    >)
        requires
            self.wf(),
        ensures
            build_outcome(self@, fallback, r),
    {
        match url::Url::parse(self.base_url.as_str()) {
            Ok(_) => {},
            Err(e) => {
                return Err(Error::Url(e));
            },
        }
        let mut builder = self;
        let supplied = builder.http.take();
        let ghost view = builder@;
        assert(view == (ClientBuilderView { http: None, ..self@ }));
        match supplied {
            Some(http) => Ok(builder.assemble(http)),
            None => match fallback {
                Ok(http) => Ok(builder.assemble(http)),
                Err(e) => Err(Error::Http(e)),
            },
        }
    }

    /// Build a client and validate its base URL.
    pub fn build(self) -> (r: Result<Client<St>, Error>)
        requires
            self.wf(),
        ensures
            exists|fallback: Result<HttpClient, HttpError>| build_outcome(self@, fallback, r),
    {
        match url::Url::parse(self.base_url.as_str()) {
            Ok(_) => {},
            Err(e) => {
                let r = Err::<Client<St>, Error>(Error::Url(e));
                let ghost any: Result<HttpClient, HttpError> = arbitrary();
                assert(build_outcome(self@, any, r));
                return r;
            },
        }
        let ghost start = self@;
        let mut builder = self;
        match builder.http.take() {
            Some(http) => {
                assert(builder@ == (ClientBuilderView { http: None, ..start }));
                let r = Ok::<Client<St>, Error>(builder.assemble(http));
                let ghost any: Result<HttpClient, HttpError> = arbitrary();
                assert(build_outcome(start, any, r));
                r
            },
            None => {
                assert(builder@ == start);
                builder.build_with(default_http(http_settings()))
            },
        }
    }
}

/// An ArchAstro client: where it sends requests, and with which credentials.
#[derive(Debug)]
pub struct Client<St> {
    base_url: String,
    http: HttpClient,
    headers: Headers,
    session: Session,
    session_store: Option<St>,
}

/// The mathematical form of a [`Client`].
#[verifier::ext_equal]
pub struct ClientView<St> {
    /// API origin.
    pub base_url: Seq<char>,
    /// HTTP client.
    pub http: HttpClient,
    /// Default request headers, in the order of their names.
    pub headers: Seq<(Seq<char>, Seq<char>)>,
    /// Credentials.
    pub session: SessionView,
    /// Session store.
    pub session_store: Option<St>,
}

impl<St> View for Client<St> {
    type V = ClientView<St>;

    closed spec fn view(&self) -> ClientView<St> {
        ClientView {
            base_url: self.base_url@,
            http: self.http,
            headers: self.headers@,
            session: self.session@,
            session_store: self.session_store,
        }
    }
}

/// What is left to do with the session store after the credentials changed.
#[derive(Debug, PartialEq)]
pub enum StoreStep {
    /// Nothing: no store is configured.
    Done,
    /// Save this session.
    Save(AppSession),
    /// Remove any persisted session.
    Clear,
}

/// What is left to do after a persisted session was looked for.
#[derive(Debug)]
pub enum RestoreStep {
    /// Looking failed.
    Failed(Error),
    /// There was no session.
    Missing,
    /// The session cannot renew: remove it.
    Discard,
    /// The session is in use: save it again, then hand it out.
    Keep(AppSession),
}

/// The request that renews a session. It is posted, and carries no access token.
#[derive(Debug)]
pub struct RefreshRequest {
    /// The endpoint.
    pub url: String,
    /// The headers, in this order.
    pub headers: Vec<(String, String)>,
    /// The request body.
    pub body: Json,
}

/// How a refresh begins.
#[derive(Debug)]
pub enum RefreshStep {
    /// The credentials have changed since the request was sent: repeat it.
    AlreadyRefreshed,
    /// There is nothing to renew the session with.
    Unavailable,
    /// Send this request.
    Send(RefreshRequest),
}

/// The outcome of an attempt to save or clear, as an SDK error.
pub fn storage_outcome(outcome: Result<(), String>) -> (r: Result<(), Error>)
    ensures
        match outcome {
            Ok(_) => r is Ok,
            Err(text) => r matches Err(e) && e.is_storage(text@),
        },
{
    match outcome {
        Ok(_) => Ok(()),
        Err(text) => Err(Error::SessionStorage(text)),
    }
}

impl RestoreStep {
    /// What restoring a session comes to, given the outcome of the store
    /// operation that this step asks for. Where it asks for none, the outcome
    /// does not count.
    pub fn finish(self, outcome: Result<(), String>) -> (r: Result<Option<AppSession>, Error>)
        ensures
            match self {
                RestoreStep::Failed(e) => r == Err::<Option<AppSession>, Error>(e),
                RestoreStep::Missing => r == Ok::<Option<AppSession>, Error>(None),
                RestoreStep::Discard => match outcome {
                    Ok(_) => r == Ok::<Option<AppSession>, Error>(None),
                    Err(text) => r matches Err(e) && e.is_storage(text@),
                },
                RestoreStep::Keep(value) => match outcome {
                    Ok(_) => r == Ok::<Option<AppSession>, Error>(Some(value)),
                    Err(text) => r matches Err(e) && e.is_storage(text@),
                },
            },
    {
        match self {
            RestoreStep::Failed(e) => Err(e),
            RestoreStep::Missing => Ok(None),
            RestoreStep::Discard => match outcome {
                Ok(_) => Ok(None),
                Err(text) => Err(Error::SessionStorage(text)),
            },
            RestoreStep::Keep(value) => match outcome {
                Ok(_) => Ok(Some(value)),
                Err(text) => Err(Error::SessionStorage(text)),
            },
        }
    }
}

impl<St> ClientView<St> {
    /// The same client with other credentials.
    pub open spec fn with_session(self, session: SessionView) -> ClientView<St> {
        ClientView { session, ..self }
    }

    /// How a refresh begins for a request that was sent at that generation.
    pub open spec fn refresh_step(self, observed: u64) -> RefreshStepView {
        if self.session.generation != observed {
            RefreshStepView::AlreadyRefreshed
        } else {
            match (self.session.refresh_token, self.session.refresh_path) {
                (Some(token), Some(path)) => RefreshStepView::Send {
                    url: self.base_url + path,
                    headers: self.headers,
                    body: JsonView::Object(
                        seq![
                            MemberView { name: "refresh_token"@, value: JsonView::Text(token) },
                        ],
                    ),
                },
                _ => RefreshStepView::Unavailable,
            }
        }
    }
}

/// The mathematical form of a [`RefreshStep`].
pub enum RefreshStepView {
    /// The credentials have changed since the request was sent.
    AlreadyRefreshed,
    /// There is nothing to renew the session with.
    Unavailable,
    /// Send a request.
    Send {
        /// The endpoint.
        url: Seq<char>,
        /// The headers.
        headers: Seq<(Seq<char>, Seq<char>)>,
        /// The request body.
        body: JsonView,
    },
}

impl View for RefreshStep {
    type V = RefreshStepView;

    open spec fn view(&self) -> RefreshStepView {
        match self {
            RefreshStep::AlreadyRefreshed => RefreshStepView::AlreadyRefreshed,
            RefreshStep::Unavailable => RefreshStepView::Unavailable,
            RefreshStep::Send(request) => RefreshStepView::Send {
                url: request.url@,
                headers: pair_views(request.headers@),
                body: request.body@,
            },
        }
    }
}

/// The credentials after a refresh response; nothing where it has no access
/// token.
pub open spec fn refreshed(session: SessionView, body: JsonView) -> Option<SessionView> {
    match body.get_text("access_token"@) {
        Some(access) => Some(session.with_refresh(access, body.get_text("refresh_token"@))),
        None => None,
    }
}

/// The socket configuration that a client hands out: the channel endpoint, the
/// token, and the API key where a header carries one.
pub open spec fn socket_params(
    token: Seq<char>,
    api_key: Option<Seq<char>>,
) -> Seq<(Seq<char>, Seq<char>)> {
    match api_key {
        Some(key) => seq![("token"@, token), ("api_key"@, key)],
        None => seq![("token"@, token)],
    }
}

impl<St> Client<St> {
    /// The headers are in order.
    pub open spec fn wf(self) -> bool {
        ordered(self@.headers)
    }

    /// Start building a client.
    pub fn builder() -> (r: ClientBuilder<St>)
        ensures
            r.wf(),
            r@ == (ClientBuilderView {
                base_url: default_base_url(),
                http: None,
                headers: Seq::empty(),
                access_token: None,
                session_store: None::<St>,
            }),
    {
        ClientBuilder::default()
    }

    /// Build a client with defaults and no authentication.
    pub fn new() -> (r: Result<Client<St>, Error>)
        ensures
            exists|fallback: Result<HttpClient, HttpError>|
                build_outcome(
                    ClientBuilderView {
                        base_url: default_base_url(),
                        http: None,
                        headers: Seq::empty(),
                        access_token: None,
                        session_store: None::<St>,
                    },
                    fallback,
                    r,
                ),
    {
        Client::builder().build()
    }

    /// The HTTP client.
    pub fn http(&self) -> (r: &HttpClient)
        ensures
            *r == self@.http,
    {
        &self.http
    }

    /// The API origin.
    pub fn base_url(&self) -> (r: &String)
        ensures
            r@ == self@.base_url,
    {
        &self.base_url
    }

    /// The default request headers.
    pub fn headers(&self) -> (r: &Headers)
        ensures
            r@ == self@.headers,
    {
        &self.headers
    }

    /// The session store, where one is configured.
    pub fn store(&self) -> (r: Option<&St>)
        ensures
            match r {
                Some(st) => self@.session_store == Some(*st),
                None => self@.session_store is None,
            },
    {
        match &self.session_store {
            Some(st) => Some(st),
            None => None,
        }
    }

    /// The generation of the current credentials.
    pub fn generation(&self) -> (r: u64)
        ensures
            r == self@.session.generation,
    {
        self.session.generation
    }

    /// Return the current bearer token without exposing refresh credentials.
    pub fn access_token(&self) -> (r: Option<String>)
        ensures
            option_view(r) == self@.session.access_token,
    {
        crate::text::copy_option(&self.session.access_token)
    }

    /// Replace the access/refresh token pair used by this client.
    pub fn install_session(
        &mut self,
        access_token: String,
        refresh_token: Option<String>,
        refresh_path: &str,
    )
        ensures
            final(self)@ == old(self)@.with_session(
                old(self)@.session.with_tokens(
                    access_token@,
                    option_view(refresh_token),
                    refresh_path@,
                ),
            ),
    {
        self.session.install_tokens(access_token, refresh_token, refresh_path);
    }

    /// Install a complete app-user session; the answer says how to persist it.
    pub fn install_app_session(&mut self, value: AppSession) -> (r: StoreStep)
        ensures
            final(self)@ == old(self)@.with_session(
                old(self)@.session.with_app_session(value@),
            ),
            r == if old(self)@.session_store is Some {
                StoreStep::Save(value)
            } else {
                StoreStep::Done
            },
    {
        self.session.install(&value);
        if self.session_store.is_some() {
            StoreStep::Save(value)
        } else {
            StoreStep::Done
        }
    }

    /// Whether a session can be restored at all: an error without a store.
    pub fn restore_session(&self) -> (r: Result<(), Error>)
        ensures
            if self@.session_store is Some {
                r is Ok
            } else {
                r matches Err(e) && e.is_configuration("no session store is configured"@)
            },
    {
        if self.session_store.is_some() {
            Ok(())
        } else {
            Err(Error::Configuration("no session store is configured".to_owned()))
        }
    }

    /// Takes over what the store held.
    ///
    /// A session without a refresh token is cleared because it cannot renew.
    pub fn restored(&mut self, loaded: Result<Option<AppSession>, String>) -> (r: RestoreStep)
        ensures
            match loaded {
                Err(text) => {
                    &&& (r matches RestoreStep::Failed(e) && e.is_storage(text@))
                    &&& final(self)@ == old(self)@
                },
                Ok(None) => r is Missing && final(self)@ == old(self)@,
                Ok(Some(value)) => if value@.refresh_token is Some {
                    &&& r == RestoreStep::Keep(value)
                    &&& final(self)@ == old(self)@.with_session(
                        old(self)@.session.with_app_session(value@),
                    )
                } else {
                    r is Discard && final(self)@ == old(self)@
                },
            },
    {
        match loaded {
            Err(text) => RestoreStep::Failed(Error::SessionStorage(text)),
            Ok(None) => RestoreStep::Missing,
            Ok(Some(value)) => if value.refresh_token.is_none() {
                RestoreStep::Discard
            } else {
                self.session.install(&value);
                RestoreStep::Keep(value)
            },
        }
    }

    /// Return the current app-user session, including refresh credentials.
    ///
    /// Treat this value as sensitive and persist it only in secure storage.
    pub fn app_session(&self) -> (r: Option<AppSession>)
        ensures
            session_option(r) == self@.session.app_session(),
    {
        self.session.app_session()
    }

    /// Clear the in-memory session; the answer says whether to clear the
    /// persisted one.
    pub fn sign_out(&mut self) -> (r: StoreStep)
        ensures
            final(self)@ == old(self)@.with_session(
                SessionView::blank(next_generation(old(self)@.session.generation)),
            ),
            r == if old(self)@.session_store is Some {
                StoreStep::Clear
            } else {
                StoreStep::Done
            },
    {
        self.session.clear();
        if self.session_store.is_some() {
            StoreStep::Clear
        } else {
            StoreStep::Done
        }
    }

    /// How to renew the credentials for a request that was refused although it
    /// was sent with those of generation `observed`.
    ///
    /// Refresh tokens are single-use: where the generation has moved on,
    /// another request has spent the token already, and no request is made.
    pub fn refresh_if_generation(&self, observed: u64) -> (r: RefreshStep)
        ensures
            r@ == self@.refresh_step(observed),
    {
        if self.session.generation != observed {
            return RefreshStep::AlreadyRefreshed;
        }
        match (&self.session.refresh_token, &self.session.refresh_path) {
            (Some(token), Some(path)) => {
                let mut url = self.base_url.clone();
                url.append(path.as_str());
                RefreshStep::Send(
                    RefreshRequest {
                        url,
                        headers: self.headers.pairs(),
                        body: Json::single("refresh_token", Json::Text(token.clone())),
                    },
                )
            },
            _ => RefreshStep::Unavailable,
        }
    }

    /// Takes over a refresh response. The answer is the session to persist,
    /// where a store is configured.
    ///
    /// The fresh in-memory bearer must remain usable if secure storage has a
    /// transient failure, so a failure to persist is no failure of the
    /// refresh; the next successful rotation retries.
    pub fn finish_refresh(&mut self, body: &Json) -> (r: Result<Option<AppSession>, Error>)
        ensures
            match refreshed(old(self)@.session, body@) {
                Some(session) => {
                    &&& final(self)@ == old(self)@.with_session(session)
                    &&& (r matches Ok(persist) && session_option(persist) == if old(
                        self,
                    )@.session_store is Some {
                        session.app_session()
                    } else {
                        None
                    })
                },
                None => {
                    &&& final(self)@ == old(self)@
                    &&& (r matches Err(e) && e.is_configuration(
                        "refresh response omitted access_token"@,
                    ))
                },
            },
    {
        let access = match body.get_text("access_token") {
            Some(access) => access,
            None => {
                return Err(
                    Error::Configuration("refresh response omitted access_token".to_owned()),
                );
            },
        };
        let refresh = body.get_text("refresh_token");
        self.session.renew(access, refresh);
        if self.session_store.is_some() {
            Ok(self.session.app_session())
        } else {
            Ok(None)
        }
    }

    /// Build a Phoenix socket authenticated from the client's current session.
    pub fn socket(&self) -> (r: Result<SocketBuilder, Error>)
        requires
            base_url_fits(self@.base_url),
        ensures
            socket_outcome(self@, r),
    {
        let token = match &self.session.access_token {
            Some(token) => token.clone(),
            None => {
                return Err(
                    Error::Configuration("a bearer token is required for channels".to_owned()),
                );
            },
        };
        let url = match websocket_url(self.base_url.as_str()) {
            Ok(url) => url,
            Err(e) => {
                return Err(e);
            },
        };
        let mut builder = SocketBuilder::new(url).param("token".to_owned(), token);
        match self.headers.find_ignore_case("x-archastro-api-key") {
            Some(key) => {
                builder = builder.param("api_key".to_owned(), key);
            },
            None => {},
        }
        assert(builder@.params =~= socket_params(
            token@,
            first_named(self@.headers, api_key_header()),
        ));
        Ok(builder)
    }

    /// [`Client::socket`] for a base URL of any length: nothing where the parts of
    /// the channel endpoint cannot be indexed.
    pub fn checked_socket(&self) -> (r: Option<Result<SocketBuilder, Error>>)
        ensures
            match r {
                Some(outcome) => base_url_fits(self@.base_url) && socket_outcome(self@, outcome),
                None => !base_url_fits(self@.base_url),
            },
    {
        if !endpoint_fits(self.base_url.as_str()) {
            return None;
        }
        Some(self.socket())
    }
}

/// The outcome of asking a client for a socket.
pub open spec fn socket_outcome<St>(
    client: ClientView<St>,
    r: Result<SocketBuilder, Error>,
) -> bool {
    match client.session.access_token {
        None => r matches Err(e) && e.is_configuration("a bearer token is required for channels"@),
        Some(token) => match url_parsed(client.base_url) {
            Err(e) => r == Err::<SocketBuilder, Error>(Error::Url(e)),
            Ok(text) => sound_endpoint(text) && match channel_endpoint(text) {
                None => r matches Err(e) && e.is_configuration("unsupported base URL scheme"@),
                Some(endpoint) => r matches Ok(b) && {
                    &&& b@.url == endpoint
                    &&& b@.params == socket_params(
                        token,
                        first_named(client.headers, api_key_header()),
                    )
                    &&& nanos(b@.timeout) == 10_000_000_000
                    &&& nanos(b@.heartbeat) == 30_000_000_000
                    &&& schedule_nanos(b@.reconnect_backoff) == default_schedule()
                    &&& b@.auto_reconnect
                },
            },
        },
    }
}

/// Concurrent refusals share one refresh: once a refresh that was begun at
/// some generation has come to an end, no other request that was sent at that
/// generation begins one.
pub proof fn law_one_refresh_per_generation<St>(client: ClientView<St>, body: JsonView)
    requires
        refreshed(client.session, body) is Some,
    ensures
        client.with_session(refreshed(client.session, body).unwrap()).refresh_step(
            client.session.generation,
        ) is AlreadyRefreshed,
{
}

/// How many refresh requests are made for requests that were all sent at
/// generation `observed`, were all refused, and come to renew the credentials
/// one after another. `bodies` holds, for each of them, the response that a
/// refresh request would get.
pub open spec fn refresh_requests<St>(
    client: ClientView<St>,
    observed: u64,
    bodies: Seq<JsonView>,
) -> nat
    decreases bodies.len(),
{
    if bodies.len() == 0 {
        0
    } else if client.refresh_step(observed) is Send {
        let after = match refreshed(client.session, bodies[0]) {
            Some(session) => client.with_session(session),
            None => client,
        };
        1 + refresh_requests(after, observed, bodies.drop_first())
    } else {
        refresh_requests(client, observed, bodies.drop_first())
    }
}

/// How many of the first responses bring no tokens.
pub open spec fn failures_first(bodies: Seq<JsonView>) -> nat
    decreases bodies.len(),
{
    if bodies.len() == 0 || bodies[0].get_text("access_token"@) is Some {
        0
    } else {
        1 + failures_first(bodies.drop_first())
    }
}

/// However many requests were refused at one generation, the first refresh that
/// gets tokens is the last that is made for them: the single-use refresh token
/// is spent once.
pub proof fn law_refused_requests_share_one_refresh<St>(
    client: ClientView<St>,
    observed: u64,
    bodies: Seq<JsonView>,
)
    ensures
        refresh_requests(client, observed, bodies) <= failures_first(bodies) + 1,
    decreases bodies.len(),
{
    if bodies.len() > 0 {
        let rest = bodies.drop_first();
        if client.refresh_step(observed) is Send {
            match refreshed(client.session, bodies[0]) {
                Some(session) => {
                    idle_waiters_stay_idle(client.with_session(session), observed, rest);
                },
                None => {
                    law_refused_requests_share_one_refresh(client, observed, rest);
                },
            }
        } else {
            idle_waiters_stay_idle(client, observed, rest);
        }
    }
}

proof fn idle_waiters_stay_idle<St>(client: ClientView<St>, observed: u64, bodies: Seq<JsonView>)
    requires
        !(client.refresh_step(observed) is Send),
    ensures
        refresh_requests(client, observed, bodies) == 0,
    decreases bodies.len(),
{
    if bodies.len() > 0 {
        idle_waiters_stay_idle(client, observed, bodies.drop_first());
    }
}

/// Every change of the credentials stops a refresh for requests sent before.
pub proof fn law_stale_requests_do_not_refresh<St>(
    client: ClientView<St>,
    access_token: Seq<char>,
    refresh_token: Option<Seq<char>>,
    refresh_path: Seq<char>,
    value: AppSessionView,
)
    ensures
        ({
            let before = client.session;
            let g = before.generation;
            &&& client.with_session(
                before.with_tokens(access_token, refresh_token, refresh_path),
            ).refresh_step(g) is AlreadyRefreshed
            &&& client.with_session(before.with_app_session(value)).refresh_step(
                g,
            ) is AlreadyRefreshed
            &&& client.with_session(SessionView::blank(next_generation(g))).refresh_step(
                g,
            ) is AlreadyRefreshed
        }),
{
}

/// What is persisted after a refresh is the session that is in use: the new
/// access token, with the rotated refresh token where the server sent one and
/// the earlier one otherwise.
pub proof fn law_rotation_is_persisted(session: SessionView, body: JsonView)
    requires
        refreshed(session, body) is Some,
    ensures
        ({
            let after = refreshed(session, body).unwrap();
            let persisted = after.app_session().unwrap();
            &&& after.app_session() is Some
            &&& Some(persisted.access_token) == body.get_text("access_token"@)
            &&& persisted.refresh_token == if body.get_text("refresh_token"@) is Some {
                body.get_text("refresh_token"@)
            } else {
                session.refresh_token
            }
            &&& persisted.access_token_expires_at == session.access_token_expires_at
            &&& persisted.user == session.user
        }),
{
}

/// A signed-out client has nothing to renew its session with.
pub proof fn law_signed_out_client_cannot_refresh<St>(client: ClientView<St>, generation: u64)
    ensures
        client.with_session(SessionView::blank(generation)).refresh_step(
            generation,
        ) is Unavailable,
{
}

/// A restored app-user session can be refreshed, with its own refresh token and
/// the client's headers, at the app endpoint.
pub proof fn law_restored_session_can_refresh<St>(client: ClientView<St>, value: AppSessionView)
    requires
        value.refresh_token is Some,
    ensures
        ({
            let session = client.session.with_app_session(value);
            client.with_session(session).refresh_step(session.generation)
                == (RefreshStepView::Send {
                url: client.base_url + crate::session::app_refresh_path(),
                headers: client.headers,
                body: JsonView::Object(
                    seq![
                        MemberView {
                            name: "refresh_token"@,
                            value: JsonView::Text(value.refresh_token.unwrap()),
                        },
                    ],
                ),
            })
        }),
{
}

} // verus!
