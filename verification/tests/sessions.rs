//! Clients, their credentials, and how these are renewed and persisted.
use archastro::client::{storage_outcome, RefreshStep, RestoreStep, StoreStep};
use archastro::http::{Exchange, ExchangeAction, ExchangeEvent};
use archastro::json::parse_text;
use archastro::{AppSession, Client, Error, Json};
use reqwest::Method;

fn json(text: &str) -> Json {
    parse_text(text).expect("a JSON document")
}

fn plain() -> Client<&'static str> {
    Client::builder()
        .base_url("http://localhost:4010")
        .access_token("old".to_owned())
        .build()
        .expect("a client")
}

fn stored() -> Client<&'static str> {
    Client::builder()
        .base_url("http://localhost:4010")
        .session_store("store")
        .build()
        .expect("a client")
}

fn session() -> AppSession {
    AppSession {
        access_token: "old".to_owned(),
        refresh_token: Some("refresh-old".to_owned()),
        access_token_expires_at: Some(123),
        user: Some(json(r#"{"id":"usr_1"}"#)),
    }
}

#[test]
fn the_default_client_talks_to_the_platform() {
    let client: Client<()> = Client::new().expect("a client");
    assert_eq!(client.base_url(), "https://platform.archastro.ai");
    assert_eq!(client.access_token(), None);
    assert_eq!(client.app_session(), None);
    assert_eq!(client.headers().len(), 0);
    assert!(client.store().is_none());
    assert_eq!(client.generation(), 0);
}

#[test]
fn trailing_slashes_of_the_origin_are_dropped() {
    let client: Client<()> = Client::builder()
        .base_url("https://example.org/api///")
        .build()
        .expect("a client");
    assert_eq!(client.base_url(), "https://example.org/api");
}

#[test]
fn the_base_url_is_validated() {
    let result: Result<Client<()>, Error> = Client::builder().base_url("no url").build();
    assert!(matches!(result, Err(Error::Url(_))));
    let result: Result<Client<()>, Error> = Client::builder().base_url("///").build();
    assert!(matches!(result, Err(Error::Url(_))));
}

#[test]
fn a_supplied_http_client_is_used() {
    let http = reqwest::Client::builder().user_agent("supplied").build().expect("a client");
    let client: Client<()> = Client::builder()
        .http_client(http)
        .build_with(Ok(reqwest::Client::new()))
        .expect("a client");
    let debug = format!("{:?}", client.http());
    assert!(debug.contains("supplied"));
}

#[test]
fn concurrent_unauthorized_requests_share_one_single_use_refresh() {
    let mut client = plain();
    client.install_session("old".to_owned(), Some("refresh-old".to_owned()), "/auth/refresh");
    let observed: Vec<u64> = (0..12).map(|_| client.generation()).collect();
    let mut refreshes = 0;
    for generation in observed {
        let mut exchange = Exchange::new(generation);
        assert_eq!(
            exchange.advance(ExchangeEvent::Responded(401)),
            ExchangeAction::Refresh(generation)
        );
        match client.refresh_if_generation(generation) {
            RefreshStep::Send(request) => {
                refreshes += 1;
                assert_eq!(request.url, "http://localhost:4010/auth/refresh");
                assert_eq!(request.body, json(r#"{"refresh_token":"refresh-old"}"#));
                let body = json(r#"{"access_token":"new","refresh_token":"refresh-new"}"#);
                assert_eq!(client.finish_refresh(&body).expect("tokens"), None);
            }
            RefreshStep::AlreadyRefreshed => {}
            RefreshStep::Unavailable => panic!("there is a refresh token"),
        }
        assert_eq!(
            exchange.advance(ExchangeEvent::Refreshed(true)),
            ExchangeAction::Resend
        );
        let plan = client.request(Method::GET, "/protected").build(&client).unwrap();
        assert_eq!(plan.bearer.as_deref(), Some("new"));
    }
    assert_eq!(refreshes, 1);
    assert_eq!(client.access_token().as_deref(), Some("new"));
}

#[test]
fn app_sessions_restore_persist_rotation_and_sign_out() {
    let mut client = stored();
    assert!(client.restore_session().is_ok());
    let step = client.restored(Ok(Some(session())));
    let restored = match step {
        RestoreStep::Keep(value) => {
            assert_eq!(value, session());
            RestoreStep::Keep(value).finish(Ok(())).expect("saved")
        }
        other => panic!("unexpected step: {other:?}"),
    };
    assert_eq!(restored, Some(session()));
    assert_eq!(client.app_session(), Some(session()));

    match client.refresh_if_generation(client.generation()) {
        RefreshStep::Send(request) => {
            assert_eq!(request.url, "http://localhost:4010/api/v1/auth/refresh");
            assert_eq!(request.body, json(r#"{"refresh_token":"refresh-old"}"#));
        }
        other => panic!("unexpected step: {other:?}"),
    }
    let body = json(r#"{"access_token":"new","refresh_token":"refresh-new"}"#);
    let persisted = client.finish_refresh(&body).expect("tokens").expect("a store");
    assert_eq!(persisted.access_token, "new");
    assert_eq!(persisted.refresh_token.as_deref(), Some("refresh-new"));
    assert_eq!(persisted.access_token_expires_at, Some(123));
    assert_eq!(persisted.user, Some(json(r#"{"id":"usr_1"}"#)));
    assert_eq!(client.app_session(), Some(persisted));

    assert_eq!(client.sign_out(), StoreStep::Clear);
    assert_eq!(client.access_token(), None);
    assert_eq!(client.app_session(), None);
    assert!(matches!(
        client.refresh_if_generation(client.generation()),
        RefreshStep::Unavailable
    ));
}

#[test]
fn a_rotation_without_a_refresh_token_keeps_the_earlier_one() {
    let mut client = stored();
    assert_eq!(client.install_app_session(session()), StoreStep::Save(session()));
    let body = json(r#"{"access_token":"new"}"#);
    let persisted = client.finish_refresh(&body).expect("tokens").expect("a store");
    assert_eq!(persisted.refresh_token.as_deref(), Some("refresh-old"));
}

#[test]
fn a_refresh_response_without_an_access_token_is_refused() {
    let mut client = stored();
    client.install_app_session(session());
    let generation = client.generation();
    for body in [r#"{}"#, r#"{"access_token":7}"#, "[]", r#"{"refresh_token":"x"}"#] {
        match client.finish_refresh(&json(body)) {
            Err(Error::Configuration(text)) => {
                assert_eq!(text, "refresh response omitted access_token");
            }
            other => panic!("unexpected outcome: {other:?}"),
        }
    }
    assert_eq!(client.generation(), generation);
    assert_eq!(client.app_session(), Some(session()));
}

#[test]
fn only_a_refresh_token_with_a_path_can_renew() {
    let client = plain();
    assert!(matches!(
        client.refresh_if_generation(client.generation()),
        RefreshStep::Unavailable
    ));
    assert!(matches!(
        client.refresh_if_generation(client.generation() + 1),
        RefreshStep::AlreadyRefreshed
    ));
    let mut client = plain();
    client.install_session("new".to_owned(), None, "/auth/refresh");
    assert_eq!(client.generation(), 1);
    assert!(matches!(
        client.refresh_if_generation(1),
        RefreshStep::Unavailable
    ));
}

#[test]
fn every_change_of_credentials_moves_the_generation() {
    let mut client = plain();
    client.install_session("a".to_owned(), None, "/r");
    assert_eq!(client.generation(), 1);
    client.install_app_session(session());
    assert_eq!(client.generation(), 2);
    client.finish_refresh(&json(r#"{"access_token":"b"}"#)).expect("tokens");
    assert_eq!(client.generation(), 3);
    client.sign_out();
    assert_eq!(client.generation(), 4);
}

#[test]
fn restoring_needs_a_store() {
    match plain().restore_session() {
        Err(Error::Configuration(text)) => assert_eq!(text, "no session store is configured"),
        other => panic!("unexpected outcome: {other:?}"),
    }
}

#[test]
fn a_session_that_cannot_renew_is_discarded() {
    let mut client = stored();
    let fixed = AppSession { refresh_token: None, ..session() };
    let step = client.restored(Ok(Some(fixed)));
    assert!(matches!(step, RestoreStep::Discard));
    assert_eq!(client.access_token(), None);
    assert_eq!(step.finish(Ok(())).expect("cleared"), None);
    assert!(matches!(
        RestoreStep::Discard.finish(Err("locked".to_owned())),
        Err(Error::SessionStorage(_))
    ));
}

#[test]
fn storage_failures_are_told() {
    let mut client = stored();
    match client.restored(Err("locked".to_owned())).finish(Ok(())) {
        Err(Error::SessionStorage(text)) => assert_eq!(text, "locked"),
        other => panic!("unexpected outcome: {other:?}"),
    }
    assert_eq!(client.restored(Ok(None)).finish(Ok(())).expect("nothing stored"), None);
    match RestoreStep::Keep(session()).finish(Err("full".to_owned())) {
        Err(Error::SessionStorage(text)) => assert_eq!(text, "full"),
        other => panic!("unexpected outcome: {other:?}"),
    }
    assert!(storage_outcome(Ok(())).is_ok());
    assert!(matches!(
        storage_outcome(Err("full".to_owned())),
        Err(Error::SessionStorage(_))
    ));
}

#[test]
fn without_a_store_nothing_is_persisted() {
    let mut client = plain();
    assert_eq!(client.install_app_session(session()), StoreStep::Done);
    let body = json(r#"{"access_token":"new"}"#);
    assert_eq!(client.finish_refresh(&body).expect("tokens"), None);
    assert_eq!(client.sign_out(), StoreStep::Done);
}

#[test]
fn a_socket_needs_a_bearer_token() {
    let client: Client<()> = Client::new().expect("a client");
    match client.socket() {
        Err(Error::Configuration(text)) => {
            assert_eq!(text, "a bearer token is required for channels");
        }
        other => panic!("unexpected outcome: {other:?}"),
    }
}

#[test]
fn a_socket_carries_token_and_api_key() {
    let client: Client<()> = Client::builder()
        .base_url("https://example.org/api")
        .publishable_key("pk_test-key".to_owned())
        .access_token("test-token".to_owned())
        .build()
        .expect("a client");
    let config = client.socket().expect("a socket").configure().expect("a configuration");
    assert_eq!(
        config.url,
        "wss://example.org/socket/api/websocket?vsn=2.0.0&token=test-token&api_key=pk_test-key"
    );
    let client: Client<()> = Client::builder()
        .base_url("http://example.org")
        .header("X-ArchAstro-API-Key".to_owned(), "other".to_owned())
        .access_token("t".to_owned())
        .build()
        .expect("a client");
    match client.checked_socket() {
        Some(Ok(builder)) => assert_eq!(
            builder.configure().expect("a configuration").url,
            "ws://example.org/socket/api/websocket?vsn=2.0.0&token=t&api_key=other"
        ),
        other => panic!("unexpected outcome: {other:?}"),
    }
}

#[test]
fn a_socket_without_an_api_key_carries_the_token_alone() {
    let config = plain().socket().expect("a socket").configure().expect("a configuration");
    assert_eq!(
        config.url,
        "ws://localhost:4010/socket/api/websocket?vsn=2.0.0&token=old"
    );
    let client: Client<()> = Client::builder()
        .base_url("mailto:someone")
        .access_token("t".to_owned())
        .build()
        .expect("a client");
    match client.socket() {
        Err(Error::Configuration(text)) => assert_eq!(text, "unsupported base URL scheme"),
        other => panic!("unexpected outcome: {other:?}"),
    }
}
