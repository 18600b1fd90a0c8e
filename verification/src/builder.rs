//! Configuration of a Phoenix socket.
use std::time::Duration;
use vstd::prelude::*;
use crate::endpoint::{
    append_pair, byte_length, has_fragment, has_query, length_of_pair,
    main_of, pairs_grow, query_of, separator, split_fragment, url_parsed, url_text,
    with_one_more_pair, with_pair, with_pairs,
};
use crate::error::Error;
use crate::headers::pair_views;

verus! {

/// The length of a `std::time::Duration` in nanoseconds.
pub uninterp spec fn nanos(d: std::time::Duration) -> nat;

/// `Duration::from_secs`: that many whole seconds.
pub assume_specification[ std::time::Duration::from_secs ](secs: u64) -> (d: std::time::Duration)
    ensures
        nanos(d) == secs * 1_000_000_000,
;

/// `Duration::from_millis`: that many milliseconds.
pub assume_specification[ std::time::Duration::from_millis ](millis: u64) -> (d:
    std::time::Duration)
    ensures
        nanos(d) == millis * 1_000_000,
;

/// The lengths of a schedule in nanoseconds.
pub open spec fn schedule_nanos(schedule: Seq<Duration>) -> Seq<nat> {
    schedule.map_values(|d: Duration| nanos(d))
}

/// The reconnect schedule used unless another is set, in nanoseconds: 10, 50,
/// 100, 150, 200, 250 and 500 milliseconds, then one and two seconds.
pub open spec fn default_schedule() -> Seq<nat> {
    seq![
        10_000_000,
        50_000_000,
        100_000_000,
        150_000_000,
        200_000_000,
        250_000_000,
        500_000_000,
        1_000_000_000,
        2_000_000_000,
    ]
}

/// The reconnect schedule used unless another is set.
pub fn default_backoff() -> (r: Vec<Duration>)
    ensures
        schedule_nanos(r@) == default_schedule(),
{
    let mut r: Vec<Duration> = Vec::new();
    r.push(Duration::from_millis(10));
    r.push(Duration::from_millis(50));
    r.push(Duration::from_millis(100));
    r.push(Duration::from_millis(150));
    r.push(Duration::from_millis(200));
    r.push(Duration::from_millis(250));
    r.push(Duration::from_millis(500));
    r.push(Duration::from_secs(1));
    r.push(Duration::from_secs(2));
    assert(schedule_nanos(r@) =~= default_schedule());
    r
}

/// The delay before a reconnect attempt: the entry of the schedule for that
/// attempt, the last entry once the schedule is used up.
pub open spec fn delay_at(schedule: Seq<Duration>, attempt: nat) -> Duration {
    if attempt < schedule.len() {
        schedule[attempt as int]
    } else {
        schedule.last()
    }
}

/// The delay before the reconnect attempt of that number, counted from zero.
pub fn reconnect_delay(schedule: &[Duration], attempt: usize) -> (r: Duration)
    requires
        schedule@.len() > 0,
    ensures
        r == delay_at(schedule@, attempt as nat),
{
    let last: usize = schedule.len() - 1;
    if attempt < last {
        schedule[attempt]
    } else {
        schedule[last]
    }
}

/// Configures a Phoenix socket.
#[derive(Debug)]
pub struct SocketBuilder {
    url: String,
    params: Vec<(String, String)>,
    timeout: Duration,
    heartbeat: Duration,
    reconnect_backoff: Vec<Duration>,
    auto_reconnect: bool,
}

/// The mathematical form of a [`SocketBuilder`].
#[verifier::ext_equal]
pub struct SocketBuilderView {
    /// WebSocket URL.
    pub url: Seq<char>,
    /// Connect parameters, in the order in which they were added.
    pub params: Seq<(Seq<char>, Seq<char>)>,
    /// Join, push and leave timeout.
    pub timeout: Duration,
    /// Heartbeat interval.
    pub heartbeat: Duration,
    /// Reconnect delays.
    pub reconnect_backoff: Seq<Duration>,
    /// Whether a lost transport is replaced.
    pub auto_reconnect: bool,
}

impl View for SocketBuilder {
    type V = SocketBuilderView;

    closed spec fn view(&self) -> SocketBuilderView {
        SocketBuilderView {
            url: self.url@,
            params: pair_views(self.params@),
            timeout: self.timeout,
            heartbeat: self.heartbeat,
            reconnect_backoff: self.reconnect_backoff@,
            auto_reconnect: self.auto_reconnect,
        }
    }
}

/// The parts of a [`SocketBuilder`] that a connected socket keeps.
#[derive(Debug)]
pub struct SocketConfig {
    /// The URL to connect to, parameters included.
    pub url: String,
    /// Join, push and leave timeout.
    pub timeout: Duration,
    /// Heartbeat interval.
    pub heartbeat: Duration,
    /// Reconnect delays; never empty.
    pub reconnect_backoff: Vec<Duration>,
    /// Whether a lost transport is replaced.
    pub auto_reconnect: bool,
}

impl SocketBuilderView {
    /// The URL to connect to, given the serialization of the builder's URL: it
    /// carries the protocol version, then the parameters.
    pub open spec fn connect_url(self, text: Seq<char>) -> Seq<char> {
        with_pairs(with_pair(text, "vsn"@, "2.0.0"@), self.params)
    }

    /// Whether the parts of the URL, where it is one, can be found again once it
    /// carries the parameters: they are indexed with 32 bits. A new query begins
    /// where the URL ended, and the fragment, where there is one, comes after the
    /// last parameter.
    pub open spec fn params_fit(self) -> bool {
        match url_parsed(self.url) {
            Ok(text) => {
                &&& !has_query(main_of(text)) ==> byte_length(main_of(text)) <= u32::MAX
                &&& has_fragment(text) ==> byte_length(main_of(self.connect_url(text)))
                    <= u32::MAX
            },
            Err(_) => true,
        }
    }

    /// The outcome of configuring a socket.
    pub open spec fn configured(self, r: Result<SocketConfig, Error>) -> bool {
        match url_parsed(self.url) {
            Ok(text) => r matches Ok(c) && {
                &&& c.url@ == self.connect_url(text)
                &&& c.timeout == self.timeout
                &&& c.heartbeat == self.heartbeat
                &&& c.auto_reconnect == self.auto_reconnect
                &&& c.reconnect_backoff@.len() > 0
                &&& self.reconnect_backoff.len() > 0 ==> c.reconnect_backoff@
                    == self.reconnect_backoff
                &&& self.reconnect_backoff.len() == 0 ==> schedule_nanos(c.reconnect_backoff@)
                    == default_schedule()
            },
            Err(e) => r == Err::<SocketConfig, Error>(Error::Url(e)),
        }
    }
}

impl SocketBuilder {
    /// Create a builder for a Phoenix WebSocket URL.
    pub fn new(url: String) -> (r: SocketBuilder)
        ensures
            r@.url == url@,
            r@.params.len() == 0,
            nanos(r@.timeout) == 10_000_000_000,
            nanos(r@.heartbeat) == 30_000_000_000,
            schedule_nanos(r@.reconnect_backoff) == default_schedule(),
            r@.auto_reconnect,
    {
        SocketBuilder {
            url,
            params: Vec::new(),
            timeout: Duration::from_secs(10),
            heartbeat: Duration::from_secs(30),
            reconnect_backoff: default_backoff(),
            auto_reconnect: true,
        }
    }

    /// Add a socket connect parameter.
    pub fn param(self, key: String, value: String) -> (r: SocketBuilder)
        ensures
            r@ == (SocketBuilderView { params: self@.params.push((key@, value@)), ..self@ }),
    {
        let mut r = self;
        r.params.push((key, value));
        assert(r@.params =~= self@.params.push((key@, value@)));
        r
    }

    /// Set join/push/leave timeout.
    pub fn timeout(self, value: Duration) -> (r: SocketBuilder)
        ensures
            r@ == (SocketBuilderView { timeout: value, ..self@ }),
    {
        let mut r = self;
        r.timeout = value;
        r
    }

    /// Set Phoenix heartbeat interval.
    pub fn heartbeat(self, value: Duration) -> (r: SocketBuilder)
        ensures
            r@ == (SocketBuilderView { heartbeat: value, ..self@ }),
    {
        let mut r = self;
        r.heartbeat = value;
        r
    }

    /// Enable or disable automatic transport reconnect and channel rejoin.
    pub fn auto_reconnect(self, value: bool) -> (r: SocketBuilder)
        ensures
            r@ == (SocketBuilderView { auto_reconnect: value, ..self@ }),
    {
        let mut r = self;
        r.auto_reconnect = value;
        r
    }

    /// Replace the reconnect delay schedule.
    pub fn reconnect_backoff(self, value: Vec<Duration>) -> (r: SocketBuilder)
        ensures
            r@ == (SocketBuilderView { reconnect_backoff: value@, ..self@ }),
    {
        let mut r = self;
        r.reconnect_backoff = value;
        r
    }

    /// What a socket made by this builder connects to and how it behaves. An
    /// empty reconnect schedule stands for the default one.
    pub fn configure(self) -> (r: Result<SocketConfig, Error>)
        requires
            self@.params_fit(),
        ensures
            self@.configured(r),
    {
        let ghost params = self@.params;
        let mut parsed = match url::Url::parse(self.url.as_str()) {
            Ok(parsed) => parsed,
            Err(e) => {
                return Err(Error::Url(e));
            },
        };
        let ghost text = url_text(parsed);
        proof {
            with_one_more_pair(text, "vsn"@, "2.0.0"@);
            pairs_grow(with_pair(text, "vsn"@, "2.0.0"@), params, 0);
            assert(params.take(0) =~= Seq::empty());
        }
        append_pair(&mut parsed, "vsn", "2.0.0");
        let ghost start = url_text(parsed);
        let mut i: usize = 0;
        while i < self.params.len()
            invariant
                i <= self.params.len(),
                params == pair_views(self.params@),
                has_fragment(start) ==> byte_length(main_of(with_pairs(start, params)))
                    <= u32::MAX,
                url_text(parsed) == with_pairs(start, params.take(i as int)),
                has_fragment(url_text(parsed)) == has_fragment(start),
                has_query(main_of(url_text(parsed))),
            decreases self.params.len() - i,
        {
            proof {
                let next = params.take(i + 1);
                assert(next.drop_last() =~= params.take(i as int));
                assert(next.last() == params[i as int]);
                pairs_grow(start, params, i + 1);
                with_one_more_pair(url_text(parsed), params[i as int].0, params[i as int].1);
            }
            append_pair(&mut parsed, self.params[i].0.as_str(), self.params[i].1.as_str());
            i += 1;
        }
        proof {
            assert(params.take(params.len() as int) =~= params);
        }
        let url = parsed.as_str().to_owned();
        let reconnect_backoff = if self.reconnect_backoff.len() == 0 {
            let schedule = default_backoff();
            proof {
                assert(schedule_nanos(schedule@).len() == default_schedule().len());
            }
            schedule
        } else {
            self.reconnect_backoff
        };
        Ok(
            SocketConfig {
                url,
                timeout: self.timeout,
                heartbeat: self.heartbeat,
                reconnect_backoff,
                auto_reconnect: self.auto_reconnect,
            },
        )
    }

    /// [`SocketBuilder::configure`] for parameters of any length: nothing where
    /// there is no room for them in the URL.
    pub fn checked_configure(self) -> (r: Option<Result<SocketConfig, Error>>)
        ensures
            match r {
                Some(outcome) => self@.params_fit() && self@.configured(outcome),
                None => !self@.params_fit(),
            },
    {
        match url::Url::parse(self.url.as_str()) {
            Ok(parsed) => {
                if !fits(parsed.as_str(), &self.params) {
                    return None;
                }
            },
            Err(_) => {},
        }
        Some(self.configure())
    }
}

/// Whether the parts of a URL can be found again once it carries the protocol
/// version and the parameters.
fn fits(text: &str, params: &Vec<(String, String)>) -> (r: bool)
    ensures
        r == {
            &&& !has_query(main_of(text@)) ==> byte_length(main_of(text@)) <= u32::MAX
            &&& has_fragment(text@) ==> byte_length(
                main_of(with_pairs(with_pair(text@, "vsn"@, "2.0.0"@), pair_views(params@))),
            ) <= u32::MAX
        },
{
    let limit: u128 = u32::MAX as u128;
    let (main, fragment) = split_fragment(text);
    let (query, set_off) = query_of(main.as_str());
    let length: u128 = main.as_str().as_bytes().len() as u128;
    if !query && length > limit {
        return false;
    }
    if !fragment {
        return true;
    }
    let ghost pairs = pair_views(params@);
    let ghost start = with_pair(text@, "vsn"@, "2.0.0"@);
    let mut total: u128 = length + set_off as u128 + length_of_pair("vsn", "2.0.0");
    let mut i: usize = 0;
    proof {
        with_one_more_pair(text@, "vsn"@, "2.0.0"@);
        assert(pairs.take(0) =~= Seq::empty());
    }
    while i < params.len() && total <= limit
        invariant
            i <= params.len(),
            limit == u32::MAX,
            pairs == pair_views(params@),
            total == byte_length(main_of(with_pairs(start, pairs.take(i as int)))),
            separator(main_of(with_pairs(start, pairs.take(i as int)))) == seq!['&'],
        decreases params.len() - i,
    {
        proof {
            let next = pairs.take(i + 1);
            assert(next.drop_last() =~= pairs.take(i as int));
            assert(next.last() == pairs[i as int]);
            with_one_more_pair(
                with_pairs(start, pairs.take(i as int)),
                pairs[i as int].0,
                pairs[i as int].1,
            );
        }
        total = total + 1 + length_of_pair(params[i].0.as_str(), params[i].1.as_str());
        i += 1;
    }
    proof {
        pairs_grow(start, pairs, i as int);
        assert(pairs.take(pairs.len() as int) =~= pairs);
    }
    total <= limit
}

/// The delay never leaves the schedule, and from its end on it stays.
pub proof fn law_backoff_clamps_to_the_last_delay(schedule: Seq<Duration>, attempt: nat)
    requires
        schedule.len() > 0,
    ensures
        schedule.contains(delay_at(schedule, attempt)),
        attempt + 1 >= schedule.len() ==> delay_at(schedule, attempt) == schedule.last(),
{
    if attempt < schedule.len() {
        assert(schedule[attempt as int] == delay_at(schedule, attempt));
    } else {
        assert(schedule[schedule.len() - 1] == delay_at(schedule, attempt));
    }
}

} // verus!
