//! Requests as they are sent, and what responses come to.
use archastro::http::{
    checked, error_from_body, prepare_headers, promised_body, Exchange, ExchangeAction,
    ExchangeEvent, RawResponse,
};
use archastro::headers::Headers;
use archastro::json::{parse_text, to_text};
use archastro::{encode_path, ApiError, Client, ClientBuilder, Error, Json};
use reqwest::Method;

fn json(text: &str) -> Json {
    parse_text(text).expect("a JSON document")
}

fn client(builder: ClientBuilder<()>) -> Client<()> {
    builder
        .base_url("http://localhost:4010")
        .build()
        .expect("a client")
}

fn pairs(of: &[(&str, &str)]) -> Vec<(String, String)> {
    of.iter().map(|(k, v)| ((*k).to_owned(), (*v).to_owned())).collect()
}

#[test]
fn http_serializes_auth_query_and_body() {
    let client = client(
        Client::builder()
            .secret_key("sk_test".to_owned())
            .access_token("token".to_owned()),
    );
    let path = format!("/api/v1/widgets/{}", encode_path("a/b"));
    let request = client
        .request(Method::POST, &path)
        .query(&pairs(&[("search", "two words"), ("page", "2")]))
        .unwrap()
        .json(Ok(json(r#"{"enabled":true}"#)))
        .unwrap();
    let plan = request.build(&client).unwrap();
    assert_eq!(plan.method, Method::POST);
    assert_eq!(
        plan.url,
        "http://localhost:4010/api/v1/widgets/a%2Fb?search=two+words&page=2"
    );
    assert_eq!(
        plan.headers,
        vec![("x-archastro-api-key".to_owned(), b"sk_test".to_vec())]
    );
    assert_eq!(plan.bearer.as_deref(), Some("token"));
    assert_eq!(plan.body, Some(json(r#"{"enabled":true}"#)));
}

#[test]
fn a_plain_request_has_neither_query_nor_body() {
    let client = client(Client::builder());
    let plan = client.request(Method::GET, "/status").build(&client).unwrap();
    assert_eq!(plan.url, "http://localhost:4010/status");
    assert!(plan.headers.is_empty());
    assert_eq!(plan.bearer, None);
    assert_eq!(plan.body, None);
}

#[test]
fn an_empty_query_is_not_written() {
    let client = client(Client::builder());
    let request = client.request(Method::GET, "/status").query(&Vec::new()).unwrap();
    assert_eq!(request.build(&client).unwrap().url, "http://localhost:4010/status");
}

#[test]
fn queries_follow_the_form_encoding() {
    let client = client(Client::builder());
    let request = client
        .request(Method::GET, "/q")
        .query(&pairs(&[("a&b", "c=d"), ("", ""), ("\u{e9}", "~")]))
        .unwrap();
    assert_eq!(
        request.build(&client).unwrap().url,
        "http://localhost:4010/q?a%26b=c%3Dd&=&%C3%A9=%7E"
    );
}

#[test]
fn codec_failures_are_handed_on() {
    let client = client(Client::builder());
    let failed = serde_urlencoded::to_string(7);
    assert!(matches!(
        client.request(Method::GET, "/q").query_encoded(failed),
        Err(Error::Query(_))
    ));
    let encoded = serde_urlencoded::to_string([("a", 1)]);
    let request = client.request(Method::GET, "/q").query_encoded(encoded).unwrap();
    assert_eq!(request.build(&client).unwrap().url, "http://localhost:4010/q?a=1");
    let failed = serde_json::from_str::<u8>("x").map(|_| Json::Null);
    assert!(matches!(
        client.request(Method::GET, "/q").json(failed),
        Err(Error::Json(_))
    ));
}

#[test]
fn headers_are_sent_in_lower_case_and_in_order() {
    let client = client(
        Client::builder()
            .header("Prefer".to_owned(), "code=200".to_owned())
            .header("accept".to_owned(), "caf\u{e9}\t!".to_owned())
            .header("X-Trace".to_owned(), "1".to_owned())
            .header("Prefer".to_owned(), "code=402".to_owned()),
    );
    let plan = client.request(Method::GET, "/").build(&client).unwrap();
    assert_eq!(
        plan.headers,
        vec![
            ("prefer".to_owned(), b"code=402".to_vec()),
            ("x-trace".to_owned(), b"1".to_vec()),
            ("accept".to_owned(), "caf\u{e9}\t!".as_bytes().to_vec()),
        ]
    );
}

#[test]
fn a_header_is_set_once_and_found_in_any_case() {
    let mut headers = Headers::new();
    for (name, value) in [("m", "1"), ("Z", "2"), ("a", "3"), ("m", "4"), ("\u{e9}", "5")] {
        headers.insert(name.to_owned(), value.to_owned());
    }
    let names: Vec<&str> = (0..headers.len()).map(|i| headers.at(i).0.as_str()).collect();
    assert_eq!(names, vec!["Z", "a", "m", "\u{e9}"]);
    assert_eq!(headers.find_ignore_case("M").as_deref(), Some("4"));
    assert_eq!(headers.find_ignore_case("z").as_deref(), Some("2"));
    assert_eq!(headers.find_ignore_case("\u{c9}"), None);
    headers.insert("z".to_owned(), "6".to_owned());
    assert_eq!(headers.find_ignore_case("z").as_deref(), Some("2"));
}

#[test]
fn headers_that_cannot_be_sent_are_configuration_errors() {
    for name in ["", "two words", "na\u{ef}ve", "a:b", "a\"b"] {
        let client = client(Client::builder().header(name.to_owned(), "x".to_owned()));
        match client.request(Method::GET, "/").build(&client) {
            Err(Error::Configuration(text)) => assert_eq!(text, "invalid HTTP header name"),
            other => panic!("unexpected outcome: {other:?}"),
        }
    }
    for value in ["a\nb", "\u{7f}", "\0"] {
        let client = client(Client::builder().header("x-a".to_owned(), value.to_owned()));
        match client.request(Method::GET, "/").build(&client) {
            Err(Error::Configuration(text)) => assert_eq!(text, "failed to parse header value"),
            other => panic!("unexpected outcome: {other:?}"),
        }
    }
}

#[test]
fn every_byte_of_a_header_name_is_judged_as_documented() {
    for byte in 0..128_u8 {
        let name = (byte as char).to_string();
        let mut headers = Headers::new();
        headers.insert(name.clone(), "v".to_owned());
        let token = byte.is_ascii_alphanumeric() || "!#$%&'*+-.^_`|~".contains(byte as char);
        match prepare_headers(&headers) {
            Ok(prepared) => {
                assert!(token);
                assert_eq!(prepared[0].0, name.to_ascii_lowercase());
            }
            Err(_) => assert!(!token),
        }
        let mut headers = Headers::new();
        headers.insert("n".to_owned(), name.clone());
        let valid = byte == b'\t' || (byte >= 32 && byte != 127);
        assert_eq!(prepare_headers(&headers).is_ok(), valid);
    }
    for (length, valid) in [(65535, true), (65536, false)] {
        let mut headers = Headers::new();
        headers.insert("a".repeat(length), "v".to_owned());
        assert_eq!(prepare_headers(&headers).is_ok(), valid);
    }
}

#[test]
fn the_first_faulty_header_is_reported() {
    let client = client(
        Client::builder()
            .header("a".to_owned(), "\n".to_owned())
            .header("b b".to_owned(), "x".to_owned()),
    );
    match client.request(Method::GET, "/").build(&client) {
        Err(Error::Configuration(text)) => assert_eq!(text, "failed to parse header value"),
        other => panic!("unexpected outcome: {other:?}"),
    }
}

#[test]
fn api_errors_preserve_status_code_message_and_body() {
    let bytes = br#"{"error":{"code":"invalid_widget","message":"bad widget"},"trace":"abc"}"#;
    match checked(422, bytes) {
        Err(Error::Api(error)) => {
            assert_eq!(error.status, 422);
            assert_eq!(error.code.as_deref(), Some("invalid_widget"));
            assert_eq!(error.message, "bad widget");
            assert_eq!(error.body.get("trace"), Some(&json(r#""abc""#)));
        }
        other => panic!("unexpected outcome: {other:?}"),
    }
}

#[test]
fn the_body_itself_takes_precedence_over_its_error_object() {
    let body = json(r#"{"code":"outer","message":"top","error":{"code":"in","message":"low"}}"#);
    let error = error_from_body(400, body);
    assert_eq!(error.code.as_deref(), Some("outer"));
    assert_eq!(error.message, "top");
    let mixed = error_from_body(400, json(r#"{"code":7,"error":{"code":"in"}}"#));
    assert_eq!(mixed.code.as_deref(), Some("in"));
    assert_eq!(mixed.message, "request failed");
    let bare = error_from_body(500, json(r#"{"error":"text"}"#));
    assert_eq!(bare.code, None);
    assert_eq!(bare.message, "request failed");
}

#[test]
fn a_body_that_is_no_document_is_kept_as_text() {
    match checked(502, b"Bad \xff Gateway") {
        Err(Error::Api(error)) => {
            assert_eq!(error.code, None);
            assert_eq!(error.message, "request failed");
            assert_eq!(error.body, Json::Text("Bad \u{fffd} Gateway".to_owned()));
        }
        other => panic!("unexpected outcome: {other:?}"),
    }
    match checked(404, "caf\u{e9}".as_bytes()) {
        Err(Error::Api(error)) => assert_eq!(error.body, Json::Text("caf\u{e9}".to_owned())),
        other => panic!("unexpected outcome: {other:?}"),
    }
}

#[test]
fn success_is_200_to_299() {
    for status in [200, 204, 299] {
        assert!(checked(status, b"").is_ok());
    }
    for status in [100, 199, 300, 304, 401, 500] {
        assert!(matches!(checked(status, b"{}"), Err(Error::Api(_))));
    }
}

#[test]
fn an_error_describes_itself() {
    let error = ApiError {
        status: 402,
        code: None,
        message: "upgrade".to_owned(),
        body: Json::Null,
    };
    assert_eq!(error.describe(), "ArchAstro API returned HTTP 402: upgrade");
    assert_eq!(error.clone(), error);
}

#[test]
fn a_promised_body_must_be_there() {
    assert!(promised_body(200, b"{}").is_ok());
    match promised_body(204, b"") {
        Err(Error::Api(error)) => {
            assert_eq!(error.status, 204);
            assert_eq!(error.code.as_deref(), Some("empty_response"));
            assert_eq!(
                error.message,
                "server returned no body for an operation that promises one"
            );
            assert_eq!(error.body, Json::Null);
        }
        other => panic!("unexpected outcome: {other:?}"),
    }
}

#[test]
fn raw_responses_keep_bytes_and_type() {
    let raw = RawResponse::new(vec![0, 255], Some(b"text/csv; charset=utf-8".to_vec()));
    assert_eq!(raw.bytes, vec![0, 255]);
    assert_eq!(raw.content_type.as_deref(), Some("text/csv; charset=utf-8"));
    assert_eq!(RawResponse::new(Vec::new(), None).content_type, None);
    let unreadable = RawResponse::new(Vec::new(), Some(b"caf\xe9".to_vec()));
    assert_eq!(unreadable.content_type, None);
    for byte in 0..=255_u8 {
        let ours = RawResponse::new(Vec::new(), Some(vec![byte])).content_type;
        if let Ok(value) = reqwest::header::HeaderValue::from_bytes(&[byte]) {
            assert_eq!(ours.as_deref(), value.to_str().ok());
        }
    }
}

#[test]
fn an_exchange_is_repeated_once_after_a_refresh() {
    let mut exchange = Exchange::new(7);
    assert_eq!(
        exchange.advance(ExchangeEvent::Responded(401)),
        ExchangeAction::Refresh(7)
    );
    assert_eq!(
        exchange.advance(ExchangeEvent::Refreshed(true)),
        ExchangeAction::Resend
    );
    assert_eq!(
        exchange.advance(ExchangeEvent::Responded(401)),
        ExchangeAction::Finish
    );
}

#[test]
fn an_exchange_without_new_credentials_keeps_its_answer() {
    let mut exchange = Exchange::new(7);
    assert_eq!(
        exchange.advance(ExchangeEvent::Responded(401)),
        ExchangeAction::Refresh(7)
    );
    assert_eq!(
        exchange.advance(ExchangeEvent::Refreshed(false)),
        ExchangeAction::Finish
    );
    let mut plain = Exchange::new(7);
    assert_eq!(
        plain.advance(ExchangeEvent::Responded(500)),
        ExchangeAction::Finish
    );
}

#[test]
fn the_refresh_body_is_written_as_expected() {
    let mut client = client(
        Client::builder()
            .secret_key("sk_test".to_owned())
            .header("Accept".to_owned(), "*/*".to_owned()),
    );
    client.install_session("old".to_owned(), Some("r\"1".to_owned()), "/auth/refresh");
    match client.refresh_if_generation(client.generation()) {
        archastro::client::RefreshStep::Send(request) => {
            assert_eq!(request.url, "http://localhost:4010/auth/refresh");
            assert_eq!(
                request.headers,
                pairs(&[("Accept", "*/*"), ("x-archastro-api-key", "sk_test")])
            );
            assert_eq!(to_text(request.body), r#"{"refresh_token":"r\"1"}"#);
        }
        other => panic!("unexpected step: {other:?}"),
    }
}
