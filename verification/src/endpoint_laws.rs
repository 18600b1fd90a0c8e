//! Where requests and sockets go.
use std::time::Duration;
use vstd::prelude::*;
use vstd::utf8::*;
use crate::builder::{
    default_backoff, nanos, reconnect_delay, schedule_nanos, SocketBuilder, SocketConfig,
};
use crate::endpoint::{
    channel_path, checked_websocket_url, encode_path, encoded_text, form_encoded,
    law_decoding_gives_the_segment_back, law_encoded_segment_is_inert, main_of, path_end,
    path_start, percent_decoded, position, position_is, position_shape, scheme_of, separator,
    unreserved, url_parsed, web_endpoint, websocket_url, with_one_more_pair, with_pair, with_pairs,
};
use crate::error::Error;

verus! {

/// Whether a text holds none of the characters that end an authority.
pub open spec fn is_authority(s: Seq<char>) -> bool {
    forall|i: int|
        0 <= i < s.len() ==> #[trigger] s[i] != '/' && s[i] != '?' && s[i] != '#'
}

/// Whether a text begins with a slash and holds neither a query nor a fragment.
pub open spec fn is_path(s: Seq<char>) -> bool {
    &&& s.len() > 0
    &&& s[0] == '/'
    &&& forall|i: int| 0 <= i < s.len() ==> #[trigger] s[i] != '?' && s[i] != '#'
}

/// Whether a text is a query, a fragment, both, or nothing.
pub open spec fn is_tail(s: Seq<char>) -> bool {
    s.len() == 0 || s[0] == '?' || s[0] == '#'
}

/// The channel endpoint of an origin is at the same authority, at the path of the
/// socket, under the WebSocket scheme that is as secure as the origin's. A query
/// and a fragment stay.
pub proof fn law_the_channel_endpoint_is_at_the_origin(
    base_url: &str,
    endpoint: Option<Result<String, Error>>,
    secure: bool,
    authority: Seq<char>,
    path: Seq<char>,
    tail: Seq<char>,
)
    requires
        call_ensures(checked_websocket_url, (base_url,), endpoint),
        is_authority(authority),
        is_path(path),
        is_tail(tail),
    ensures
        ({
            let origin = if secure {
                "https"@
            } else {
                "http"@
            };
            let scheme = if secure {
                "wss"@
            } else {
                "ws"@
            };
            url_parsed(base_url@) == Ok::<Seq<char>, url::ParseError>(
                origin + "://"@ + authority + path + tail,
            ) && endpoint is Some ==> (endpoint->Some_0 matches Ok(url) && url@ == scheme + "://"@
                + authority + "/socket/api/websocket"@ + tail)
        }),
{
    let origin = if secure {
        "https"@
    } else {
        "http"@
    };
    let scheme = if secure {
        "wss"@
    } else {
        "ws"@
    };
    let text = origin + "://"@ + authority + path + tail;
    reveal_strlit("https");
    reveal_strlit("http");
    reveal_strlit("wss");
    reveal_strlit("ws");
    reveal_strlit("://");
    position_is(text, ':', origin.len());
    assert(scheme_of(text) =~= origin);
    if !secure {
        assert("http"@.len() != "https"@.len());
    }
    let changed = scheme + text.skip(origin.len() as int);
    assert(changed =~= scheme + "://"@ + authority + path + tail);
    the_path_of(scheme, authority, path, tail);
    let kept = scheme + "://"@ + authority;
    assert(changed.take(kept.len() as int) =~= kept);
    assert(changed.skip((kept + path).len() as int) =~= tail);
    assert(web_endpoint(text) == kept + channel_path() + tail);
}

proof fn the_path_of(scheme: Seq<char>, authority: Seq<char>, path: Seq<char>, tail: Seq<char>)
    requires
        scheme == "wss"@ || scheme == "ws"@,
        is_authority(authority),
        is_path(path),
        is_tail(tail),
    ensures
        ({
            let text = scheme + "://"@ + authority + path + tail;
            let kept = scheme + "://"@ + authority;
            path_start(text) == kept.len() && path_end(text) == (kept + path).len()
        }),
{
    let text = scheme + "://"@ + authority + path + tail;
    let kept = scheme + "://"@ + authority;
    let head = kept + path;
    reveal_strlit("wss");
    reveal_strlit("ws");
    reveal_strlit("://");
    position_is(text, ':', scheme.len());
    assert(scheme_of(text) =~= scheme);
    let from = scheme.len() as int + 3;
    let rest = text.skip(from);
    assert(rest =~= authority + path + tail);
    position_is(rest, '/', authority.len());
    assert(text =~= head + tail);
    assert forall|i: int| 0 <= i < head.len() implies head[i] != '?' && head[i] != '#' by {
        if i >= kept.len() {
            assert(head[i] == path[i - kept.len()]);
        } else if i >= from {
            assert(head[i] == authority[i - from]);
        }
    }
    position_shape(text, '?');
    position_shape(text, '#');
    let query = position(text, '?') as int;
    let fragment = position(text, '#') as int;
    if query < head.len() {
        assert(text[query] == head[query]);
    }
    if fragment < head.len() {
        assert(text[fragment] == head[fragment]);
    }
    if tail.len() > 0 {
        assert(text[head.len() as int] == tail[0]);
    }
}

/// What is no URL has no channel endpoint, and why it is none is reported.
pub proof fn law_what_is_no_url_has_no_endpoint(
    base_url: &str,
    endpoint: Option<Result<String, Error>>,
)
    requires
        call_ensures(checked_websocket_url, (base_url,), endpoint),
    ensures
        url_parsed(base_url@) matches Err(e) ==> endpoint == Some(
            Err::<String, Error>(Error::Url(e)),
        ),
        endpoint matches Some(Err(e)) ==> url_parsed(base_url@) == Err::<
            Seq<char>,
            url::ParseError,
        >(e->Url_0) && e is Url || e.is_configuration("unsupported base URL scheme"@),
{
}

proof fn a_character(c: char)
    ensures
        '\u{0}' <= c,
{
}

/// An encoded path segment consists of ASCII letters, digits, `*-._` and `%`, so
/// that no character of it ends the segment, and percent-decoding it gives the
/// segment back.
pub proof fn law_an_encoded_segment_is_one_segment(value: &str, encoded: String, i: int)
    requires
        call_ensures(encode_path, (value,), encoded),
    ensures
        0 <= i < encoded@.len() ==> {
            let c = encoded@[i];
            ||| 'a' <= c <= 'z'
            ||| 'A' <= c <= 'Z'
            ||| '0' <= c <= '9'
            ||| c == '*' || c == '-' || c == '.' || c == '_' || c == '%'
        },
        percent_decoded(encoded@) == encode_utf8(value@),
{
    law_encoded_segment_is_inert(encode_utf8(value@));
    if 0 <= i < encoded@.len() {
        a_character(encoded@[i]);
    }
    law_decoding_gives_the_segment_back(encode_utf8(value@));
}

/// Each setting of a builder is the one that its socket is configured with, and
/// none touches another; what is not set has its usual value. An empty schedule
/// stands for the usual one.
pub proof fn law_a_socket_is_configured_as_set(
    url: String,
    key: String,
    value: String,
    timeout: Duration,
    heartbeat: Duration,
    auto_reconnect: bool,
    schedule: Vec<Duration>,
    plain: SocketBuilder,
    with_param: SocketBuilder,
    with_timeout: SocketBuilder,
    with_heartbeat: SocketBuilder,
    with_reconnect: SocketBuilder,
    with_schedule: SocketBuilder,
    configured: Option<Result<SocketConfig, Error>>,
)
    requires
        call_ensures(SocketBuilder::new, (url,), plain),
        call_ensures(SocketBuilder::param, (plain, key, value), with_param),
        call_ensures(SocketBuilder::timeout, (with_param, timeout), with_timeout),
        call_ensures(SocketBuilder::heartbeat, (with_timeout, heartbeat), with_heartbeat),
        call_ensures(
            SocketBuilder::auto_reconnect,
            (with_heartbeat, auto_reconnect),
            with_reconnect,
        ),
        call_ensures(SocketBuilder::reconnect_backoff, (with_reconnect, schedule), with_schedule),
        call_ensures(SocketBuilder::checked_configure, (with_schedule,), configured),
    ensures
        plain@.url == url@,
        plain@.params.len() == 0,
        nanos(plain@.timeout) == 10 * 1_000_000_000,
        nanos(plain@.heartbeat) == 30 * 1_000_000_000,
        plain@.auto_reconnect,
        is_usual_schedule(plain@.reconnect_backoff),
        with_schedule@.params == seq![(key@, value@)],
        configured matches Some(Ok(config)) ==> {
            &&& config.timeout == timeout
            &&& config.heartbeat == heartbeat
            &&& config.auto_reconnect == auto_reconnect
            &&& schedule@.len() > 0 ==> config.reconnect_backoff@ == schedule@
            &&& schedule@.len() == 0 ==> is_usual_schedule(config.reconnect_backoff@)
        },
        url_parsed(url@) matches Err(e) ==> configured == Some(
            Err::<SocketConfig, Error>(Error::Url(e)),
        ),
        url_parsed(url@) is Ok && configured is Some ==> configured->Some_0 is Ok,
{
    assert(with_schedule@.params =~= seq![(key@, value@)]);
    usual_schedule(plain@.reconnect_backoff);
    if let Some(Ok(config)) = configured {
        if schedule@.len() == 0 {
            usual_schedule(config.reconnect_backoff@);
        }
    }
}

/// Whether a schedule waits ten milliseconds, then 50, 100, 150, 200, 250 and
/// 500, then one second and two.
pub open spec fn is_usual_schedule(schedule: Seq<Duration>) -> bool {
    &&& schedule.len() == 9
    &&& nanos(schedule[0]) == 10 * 1_000_000
    &&& nanos(schedule[1]) == 50 * 1_000_000
    &&& nanos(schedule[2]) == 100 * 1_000_000
    &&& nanos(schedule[3]) == 150 * 1_000_000
    &&& nanos(schedule[4]) == 200 * 1_000_000
    &&& nanos(schedule[5]) == 250 * 1_000_000
    &&& nanos(schedule[6]) == 500 * 1_000_000
    &&& nanos(schedule[7]) == 1_000 * 1_000_000
    &&& nanos(schedule[8]) == 2_000 * 1_000_000
}

proof fn usual_schedule(schedule: Seq<Duration>)
    requires
        schedule_nanos(schedule) == crate::builder::default_schedule(),
    ensures
        is_usual_schedule(schedule),
{
    let row = schedule_nanos(schedule);
    assert(row.len() == schedule.len());
    assert forall|i: int| 0 <= i < 9 implies nanos(#[trigger] schedule[i]) == row[i] by {}
}

/// The usual schedule is the usual one, and a delay is the one of its attempt,
/// the last one from the end of the schedule on.
pub proof fn law_delays_are_those_of_the_schedule(
    usual: Vec<Duration>,
    schedule: &[Duration],
    attempt: usize,
    delay: Duration,
)
    requires
        call_ensures(default_backoff, (), usual),
        schedule@.len() > 0,
        call_ensures(reconnect_delay, (schedule, attempt), delay),
    ensures
        is_usual_schedule(usual@),
        attempt < schedule@.len() ==> delay == schedule@[attempt as int],
        attempt >= schedule@.len() ==> delay == schedule@[schedule@.len() - 1],
{
    usual_schedule(usual@);
}

/// A socket connects to its URL with the protocol version first and its
/// parameters behind it, in form encoding, before the fragment.
#[verifier::rlimit(40)]
pub proof fn law_a_socket_connects_with_its_parameters(
    url: String,
    key: String,
    value: String,
    plain: SocketBuilder,
    with_param: SocketBuilder,
    configured: Option<Result<SocketConfig, Error>>,
    address: Seq<char>,
    query: Seq<char>,
    fragment: Seq<char>,
)
    requires
        call_ensures(SocketBuilder::new, (url,), plain),
        call_ensures(SocketBuilder::param, (plain, key, value), with_param),
        call_ensures(SocketBuilder::checked_configure, (with_param,), configured),
        forall|i: int| 0 <= i < address.len() ==> #[trigger] address[i] != '?' && address[i] != '#',
        forall|i: int| 0 <= i < query.len() ==> #[trigger] query[i] != '#',
        query.len() > 0 ==> query[0] == '?',
        fragment.len() > 0 ==> fragment[0] == '#',
    ensures
        url_parsed(url@) == Ok::<Seq<char>, url::ParseError>(address + query + fragment)
            && configured is Some ==> (configured->Some_0 matches Ok(config) && config.url@
            == address + (if query.len() > 1 {
            query + seq!['&']
        } else {
            seq!['?']
        }) + "vsn=2.0.0&"@ + encoded_text(key@) + seq!['='] + encoded_text(value@) + fragment),
{
    let text = address + query + fragment;
    let main = address + query;
    let set_off = if query.len() > 1 {
        seq!['&']
    } else if query.len() == 1 {
        Seq::empty()
    } else {
        seq!['?']
    };
    let one = main + set_off + encoded_text("vsn"@) + seq!['='] + encoded_text("2.0.0"@);
    assert forall|i: int| 0 <= i < main.len() implies main[i] != '#' by {
        if i < address.len() {
            assert(main[i] == address[i]);
        } else {
            assert(main[i] == query[i - address.len()]);
        }
    }
    assert(text =~= main + fragment);
    if fragment.len() > 0 {
        assert(text[main.len() as int] == fragment[0]);
    }
    position_is(text, '#', main.len());
    assert(main_of(text) =~= main);
    assert(text.skip(main.len() as int) =~= fragment);
    assert forall|i: int| 0 <= i < address.len() implies main[i] != '?' by {
        assert(main[i] == address[i]);
    }
    if query.len() > 0 {
        assert(main[address.len() as int] == query[0]);
    }
    position_is(main, '?', address.len());
    assert(separator(main) =~= set_off);
    let versioned = with_pair(text, "vsn"@, "2.0.0"@);
    with_one_more_pair(text, "vsn"@, "2.0.0"@);
    crate::endpoint::law_pairs_keep_the_url(
        text,
        seq![("vsn"@, "2.0.0"@)],
    );
    assert(seq![("vsn"@, "2.0.0"@)].drop_last() =~= Seq::empty());
    assert(with_pairs(text, Seq::empty()) == text);
    assert(with_pairs(text, seq![("vsn"@, "2.0.0"@)]) == versioned);
    assert(main_of(versioned) =~= one);
    assert(versioned.skip(position(versioned, '#') as int) == fragment);
    assert(with_param@.params =~= seq![(key@, value@)]);
    assert(with_param@.params.drop_last() =~= Seq::empty());
    assert(with_pairs(versioned, Seq::empty()) == versioned);
    assert(with_pairs(versioned, with_param@.params) == with_pair(versioned, key@, value@));
    reveal_strlit("vsn");
    reveal_strlit("2.0.0");
    reveal_strlit("vsn=2.0.0&");
    plain_text_is_kept("vsn"@);
    plain_text_is_kept("2.0.0"@);
    assert(set_off + "vsn"@ + seq!['='] + "2.0.0"@ + seq!['&'] =~= set_off + "vsn=2.0.0&"@);
    let left = with_pair(versioned, key@, value@);
    let right = address + (if query.len() > 1 {
        query + seq!['&']
    } else {
        seq!['?']
    }) + "vsn=2.0.0&"@ + encoded_text(key@) + seq!['='] + encoded_text(value@) + fragment;
    assert(left == one + seq!['&'] + encoded_text(key@) + seq!['='] + encoded_text(value@)
        + fragment);
    assert(one + seq!['&'] =~= address + (if query.len() > 1 {
        query + seq!['&']
    } else {
        seq!['?']
    }) + "vsn=2.0.0&"@);
    assert(left =~= right);
}

proof fn plain_text_is_kept(s: Seq<char>)
    requires
        forall|i: int|
            0 <= i < s.len() ==> #[trigger] s[i] <= '\u{7f}' && unreserved(s[i] as u8),
    ensures
        encoded_text(s) == s,
{
    assert forall|i: int| 0 <= i < s.len() implies '\u{0}' <= #[trigger] s[i] <= '\u{7f}' by {
        a_character(s[i]);
    }
    assert(is_ascii_chars(s));
    is_ascii_chars_encode_utf8(s);
    let bytes = encode_utf8(s);
    plain_bytes_are_kept(bytes);
    assert(form_encoded(bytes) =~= s);
}

proof fn plain_bytes_are_kept(bytes: Seq<u8>)
    requires
        forall|i: int| 0 <= i < bytes.len() ==> unreserved(#[trigger] bytes[i]),
    ensures
        form_encoded(bytes) == bytes.map_values(|b: u8| b as char),
    decreases bytes.len(),
{
    if bytes.len() > 0 {
        let rest = bytes.drop_first();
        assert(unreserved(bytes[0]));
        assert forall|i: int| 0 <= i < rest.len() implies unreserved(#[trigger] rest[i]) by {
            assert(rest[i] == bytes[i + 1]);
        }
        plain_bytes_are_kept(rest);
    }
    assert(form_encoded(bytes) =~= bytes.map_values(|b: u8| b as char));
}

/// What a check lets through comes to what it comes to without one.
pub proof fn law_a_check_changes_no_outcome(
    base_url: &str,
    direct: Result<String, Error>,
    checked: Option<Result<String, Error>>,
    builder: SocketBuilder,
    config: Result<SocketConfig, Error>,
    checked_config: Option<Result<SocketConfig, Error>>,
)
    requires
        call_ensures(websocket_url, (base_url,), direct),
        call_ensures(checked_websocket_url, (base_url,), checked),
        call_ensures(SocketBuilder::configure, (builder,), config),
        call_ensures(SocketBuilder::checked_configure, (builder,), checked_config),
    ensures
        checked matches Some(other) ==> {
            &&& (direct is Ok) == (other is Ok)
            &&& direct is Ok ==> direct->Ok_0@ == other->Ok_0@
        },
        checked_config matches Some(other) ==> {
            &&& (config is Ok) == (other is Ok)
            &&& config is Ok ==> config->Ok_0.url@ == other->Ok_0.url@ && config->Ok_0.timeout
                == other->Ok_0.timeout && config->Ok_0.heartbeat == other->Ok_0.heartbeat
                && config->Ok_0.auto_reconnect == other->Ok_0.auto_reconnect
                && config->Ok_0.reconnect_backoff@.len() > 0
        },
{
}

/// Parameters are written in the order in which they were added, each behind what
/// was there before, and the part of the URL before the query, the query that it
/// had, and the fragment stay.
pub proof fn law_each_parameter_follows_the_one_before(
    builder: SocketBuilder,
    key: String,
    value: String,
    more: SocketBuilder,
    fewer_config: Option<Result<SocketConfig, Error>>,
    config: Option<Result<SocketConfig, Error>>,
)
    requires
        call_ensures(SocketBuilder::param, (builder, key, value), more),
        call_ensures(SocketBuilder::checked_configure, (builder,), fewer_config),
        call_ensures(SocketBuilder::checked_configure, (more,), config),
    ensures
        more@.params == builder@.params.push((key@, value@)),
        more@.url == builder@.url,
        more@.timeout == builder@.timeout,
        more@.heartbeat == builder@.heartbeat,
        more@.reconnect_backoff == builder@.reconnect_backoff,
        more@.auto_reconnect == builder@.auto_reconnect,
        fewer_config matches Some(Ok(fewer)) ==> (config matches Some(Ok(with)) ==> with.url@
            == fewer.url@.take(position(fewer.url@, '#') as int) + seq!['&'] + encoded_text(key@)
            + seq!['='] + encoded_text(value@) + fewer.url@.skip(
            position(fewer.url@, '#') as int,
        )),
{
    if let Some(Ok(fewer)) = fewer_config {
        if let Some(Ok(with)) = config {
            let text = url_parsed(builder@.url)->Ok_0;
            let versioned = with_pair(text, "vsn"@, "2.0.0"@);
            let all = more@.params;
            assert(all.drop_last() =~= builder@.params);
            assert(all.last() == (key@, value@));
            assert(with.url@ == with_pair(fewer.url@, key@, value@));
            with_one_more_pair(text, "vsn"@, "2.0.0"@);
            set_off_by_ampersand(versioned, builder@.params);
        }
    }
}

proof fn set_off_by_ampersand(url: Seq<char>, pairs: Seq<(Seq<char>, Seq<char>)>)
    requires
        separator(main_of(url)) == seq!['&'],
    ensures
        separator(main_of(with_pairs(url, pairs))) == seq!['&'],
{
    if pairs.len() > 0 {
        let before = with_pairs(url, pairs.drop_last());
        with_one_more_pair(before, pairs.last().0, pairs.last().1);
    }
}

} // verus!
