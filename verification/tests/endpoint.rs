//! Path segments, query strings, and the channel endpoint.
use archastro::endpoint::{checked_websocket_url, websocket_url};
use archastro::{encode_path, Error, SocketBuilder};

#[test]
fn websocket_url_uses_the_platform_channel_endpoint() {
    assert_eq!(
        websocket_url("https://platform.archastro.ai/api").expect("valid URL"),
        "wss://platform.archastro.ai/socket/api/websocket"
    );
    assert_eq!(
        websocket_url("http://localhost:4005").expect("valid URL"),
        "ws://localhost:4005/socket/api/websocket"
    );
}

#[test]
fn the_channel_endpoint_keeps_authority_query_and_fragment() {
    assert_eq!(
        websocket_url("https://me:pw@example.org:8443/a/b?x=1/2#f/g").expect("valid URL"),
        "wss://me:pw@example.org:8443/socket/api/websocket?x=1/2#f/g"
    );
    assert_eq!(
        websocket_url("http://example.org:443/").expect("valid URL"),
        "ws://example.org:443/socket/api/websocket"
    );
    assert_eq!(
        websocket_url("wss://example.org/a").expect("valid URL"),
        "ws://example.org/socket/api/websocket"
    );
}

#[test]
fn schemes_without_a_websocket_counterpart_are_refused() {
    match websocket_url("mailto:someone@example.org") {
        Err(Error::Configuration(text)) => assert_eq!(text, "unsupported base URL scheme"),
        other => panic!("unexpected outcome: {other:?}"),
    }
    assert!(matches!(websocket_url("no url"), Err(Error::Url(_))));
}

#[test]
fn a_base_url_of_ordinary_length_fits() {
    match checked_websocket_url("https://platform.archastro.ai") {
        Some(Ok(url)) => assert_eq!(url, "wss://platform.archastro.ai/socket/api/websocket"),
        other => panic!("unexpected outcome: {other:?}"),
    }
    assert!(matches!(
        checked_websocket_url("no url"),
        Some(Err(Error::Url(_)))
    ));
}

#[test]
fn a_segment_is_encoded() {
    assert_eq!(encode_path("a/b"), "a%2Fb");
    assert_eq!(encode_path("a b"), "a%20b");
    assert_eq!(encode_path("a+b"), "a%2Bb");
    assert_eq!(encode_path(" + "), "%20%2B%20");
    assert_eq!(encode_path("Az09*-._"), "Az09*-._");
    assert_eq!(encode_path("?#%~\u{e9}"), "%3F%23%25%7E%C3%A9");
    assert_eq!(encode_path(""), "");
}

#[test]
fn an_encoded_segment_is_one_segment_of_a_url() {
    for value in ["a b", "a+b", "a/b?c#d", "\u{e9}\u{1f600}", "%20"] {
        let text = format!("https://example.org/{}/end", encode_path(value));
        let url = url::Url::parse(&text).expect("valid URL");
        assert_eq!(url.as_str(), text);
        assert_eq!(url.path_segments().expect("a path").count(), 2);
        assert!(url.query().is_none() && url.fragment().is_none());
    }
}

#[test]
fn different_segments_stay_different() {
    let segments = ["a b", "a+b", "a%20b", "a%2Bb", "a/b", "a%2Fb"];
    for (i, first) in segments.iter().enumerate() {
        for (j, second) in segments.iter().enumerate() {
            assert_eq!(i == j, encode_path(first) == encode_path(second));
        }
    }
}

#[test]
fn pairs_go_to_the_end_of_the_query() {
    for (start, end) in [
        ("ws://localhost/s", "ws://localhost/s?vsn=2.0.0&k%C3%A9y=a+b%26c%3Dd%23%3F&=&x="),
        ("ws://localhost", "ws://localhost/?vsn=2.0.0&k%C3%A9y=a+b%26c%3Dd%23%3F&=&x="),
        ("wss://h/p?q", "wss://h/p?q&vsn=2.0.0&k%C3%A9y=a+b%26c%3Dd%23%3F&=&x="),
        ("wss://h/p?", "wss://h/p?vsn=2.0.0&k%C3%A9y=a+b%26c%3Dd%23%3F&=&x="),
        ("wss://h/p?#f", "wss://h/p?vsn=2.0.0&k%C3%A9y=a+b%26c%3Dd%23%3F&=&x=#f"),
        ("wss://h/p?a=b#f?g", "wss://h/p?a=b&vsn=2.0.0&k%C3%A9y=a+b%26c%3Dd%23%3F&=&x=#f?g"),
        ("wss://h/p#f?g#h", "wss://h/p?vsn=2.0.0&k%C3%A9y=a+b%26c%3Dd%23%3F&=&x=#f?g#h"),
    ] {
        let builder = SocketBuilder::new(start.to_owned())
            .param("k\u{e9}y".to_owned(), "a b&c=d#?".to_owned())
            .param(String::new(), String::new())
            .param("x".to_owned(), String::new());
        match builder.checked_configure() {
            Some(Ok(config)) => assert_eq!(config.url, end),
            other => panic!("unexpected outcome: {other:?}"),
        }
    }
    let refused = SocketBuilder::new("no url".to_owned()).checked_configure();
    assert!(matches!(refused, Some(Err(Error::Url(_)))));
}

#[test]
fn long_parameters_fit_with_and_without_a_fragment() {
    let value = " \u{e9}".repeat(50_000);
    let encoded = "+%C3%A9".repeat(50_000);
    for (url, expected) in [
        ("wss://h/p", format!("wss://h/p?vsn=2.0.0&k={encoded}")),
        ("wss://h/p#f", format!("wss://h/p?vsn=2.0.0&k={encoded}#f")),
        ("wss://h/p?q#f", format!("wss://h/p?q&vsn=2.0.0&k={encoded}#f")),
    ] {
        let builder = SocketBuilder::new(url.to_owned()).param("k".to_owned(), value.clone());
        match builder.checked_configure() {
            Some(Ok(config)) => assert_eq!(config.url, expected),
            other => panic!("unexpected outcome: {other:?}"),
        }
    }
}

#[test]
fn long_base_urls_have_a_channel_endpoint() {
    let long = "a".repeat(50_000);
    for (base, expected) in [
        (format!("https://h/{long}"), "wss://h/socket/api/websocket".to_owned()),
        (
            format!("http://h/{long}?q={long}#{long}"),
            format!("ws://h/socket/api/websocket?q={long}#{long}"),
        ),
    ] {
        match checked_websocket_url(&base) {
            Some(Ok(url)) => assert_eq!(url, expected),
            other => panic!("unexpected outcome: {other:?}"),
        }
    }
    assert!(matches!(checked_websocket_url("mailto:me"), Some(Err(_))));
}
