//! The state of a Phoenix socket and its channels.
//!
//! [`Socket`] and [`Channel`] decide; whoever drives them moves bytes, waits
//! and tells them what happened. An operation that waits for the server is a
//! pair of functions: one that begins it, and one that takes its outcome.
use std::time::Duration;
use tokio_tungstenite::tungstenite::Error as WebSocketError;
use vstd::prelude::*;
use crate::builder::{delay_at, reconnect_delay, SocketConfig};
use crate::channel_laws::{after, Operation};
use crate::error::{ChannelErrorView, Error};
use crate::json::{empty_object, json_views, parse_text, parsed_text, Json, JsonView};
use crate::phoenix::{
    accepted, belongs, build_message, channel_error, event_views, frame_parts, join_ref_matches,
    message, rejection, reply, reply_outcome, response, take_apart, ChannelState, FrameView,
    Outgoing, SocketEvent, SocketEventView,
};
use crate::table::{distinct_keys, entry_map, EventKey, Table};
use crate::text::{copy_option, decimal, decimal_text, option_view, same};

verus! {

/// How many events of one kind are kept while nobody listens.
pub const BUFFER_CAPACITY: usize = 32;

/// A push that waits for its channel to be joined.
#[derive(Debug)]
pub struct BufferedPush<S> {
    /// Names the push while it waits.
    pub reference: String,
    /// The event.
    pub event: String,
    /// The payload.
    pub payload: Json,
    /// Where the caller waits for the outcome.
    pub sender: S,
}

/// The mathematical form of a [`BufferedPush`].
pub struct PushView<S> {
    /// Names the push while it waits.
    pub reference: Seq<char>,
    /// The event.
    pub event: Seq<char>,
    /// The payload.
    pub payload: JsonView,
    /// Where the caller waits for the outcome.
    pub sender: S,
}

impl<S> View for BufferedPush<S> {
    type V = PushView<S>;

    open spec fn view(&self) -> PushView<S> {
        PushView {
            reference: self.reference@,
            event: self.event@,
            payload: self.payload@,
            sender: self.sender,
        }
    }
}

/// The views of a queue of pushes.
pub open spec fn push_views<S>(pushes: Seq<BufferedPush<S>>) -> Seq<PushView<S>> {
    pushes.map_values(|p: BufferedPush<S>| p@)
}

/// What a socket knows of one channel.
struct ChannelInner<S> {
    topic: String,
    handles: u64,
    state: ChannelState,
    join_ref: Option<String>,
    join_payload: Json,
    desired_join: bool,
    buffered_pushes: Vec<BufferedPush<S>>,
}

/// The mathematical form of what a socket knows of one channel.
#[verifier::ext_equal]
pub struct ChannelView<S> {
    /// The topic.
    pub topic: Seq<char>,
    /// How many handles refer to the channel.
    pub handles: u64,
    /// Lifecycle state.
    pub state: ChannelState,
    /// The reference of the join that is in force.
    pub join_ref: Option<Seq<char>>,
    /// What to join with.
    pub join_payload: JsonView,
    /// Whether the channel is meant to be joined.
    pub desired_join: bool,
    /// Pushes that wait for the join, oldest first.
    pub buffered_pushes: Seq<PushView<S>>,
}

impl<S> ChannelInner<S> {
    spec fn view(self) -> ChannelView<S> {
        ChannelView {
            topic: self.topic@,
            handles: self.handles,
            state: self.state,
            join_ref: option_view(self.join_ref),
            join_payload: self.join_payload@,
            desired_join: self.desired_join,
            buffered_pushes: push_views(self.buffered_pushes@),
        }
    }
}

impl<S> ChannelView<S> {
    /// A channel as it is first made, with one handle.
    pub open spec fn fresh(topic: Seq<char>) -> ChannelView<S> {
        ChannelView {
            topic,
            handles: 1,
            state: ChannelState::Closed,
            join_ref: None,
            join_payload: empty_object(),
            desired_join: false,
            buffered_pushes: Seq::empty(),
        }
    }
}

spec fn slot_views<S>(slots: Seq<Option<ChannelInner<S>>>) -> Seq<Option<ChannelView<S>>> {
    slots.map_values(
        |slot: Option<ChannelInner<S>>|
            match slot {
                Some(c) => Some(c.view()),
                None => None,
            },
    )
}

/// A connected Phoenix socket.
///
/// `S` is where a caller waits for the outcome of a request, `B` what an event
/// is handed to its listeners through.
pub struct Socket<S, B> {
    url: String,
    timeout: Duration,
    heartbeat: Duration,
    reconnect_backoff: Vec<Duration>,
    auto_reconnect: bool,
    refs: u64,
    connected: bool,
    closing: bool,
    reconnecting: bool,
    pending: Table<String, S>,
    events: Table<EventKey, B>,
    buffered: Table<EventKey, Vec<Json>>,
    registry: Table<String, usize>,
    channels: Vec<Option<ChannelInner<S>>>,
}

/// The mathematical form of a [`Socket`].
#[verifier::ext_equal]
pub struct SocketView<S, B> {
    /// The URL to connect to.
    pub url: Seq<char>,
    /// Join, push and leave timeout.
    pub timeout: Duration,
    /// Heartbeat interval.
    pub heartbeat: Duration,
    /// Reconnect delays.
    pub reconnect_backoff: Seq<Duration>,
    /// Whether a lost transport is replaced.
    pub auto_reconnect: bool,
    /// The number in the latest reference.
    pub refs: u64,
    /// Whether the transport is open.
    pub connected: bool,
    /// Whether the socket was closed for good.
    pub closing: bool,
    /// Whether a reconnect is under way.
    pub reconnecting: bool,
    /// Requests that wait for a reply, by reference.
    pub pending: Map<Seq<char>, S>,
    /// Listeners, by topic and event.
    pub events: Map<(Seq<char>, Seq<char>), B>,
    /// Events that nobody has listened to yet, by topic and event, oldest
    /// first.
    pub buffered: Map<(Seq<char>, Seq<char>), Seq<JsonView>>,
    /// The channel in charge of a topic.
    pub registry: Map<Seq<char>, usize>,
    /// The channels, by number; a number without a channel is free.
    pub channels: Seq<Option<ChannelView<S>>>,
}

spec fn row_views<K>(rows: Map<K, Vec<Json>>) -> Map<K, Seq<JsonView>> {
    rows.map_values(|row: Vec<Json>| json_views(row@))
}

impl<S, B> View for Socket<S, B> {
    type V = SocketView<S, B>;

    closed spec fn view(&self) -> SocketView<S, B> {
        SocketView {
            url: self.url@,
            timeout: self.timeout,
            heartbeat: self.heartbeat,
            reconnect_backoff: self.reconnect_backoff@,
            auto_reconnect: self.auto_reconnect,
            refs: self.refs,
            connected: self.connected,
            closing: self.closing,
            reconnecting: self.reconnecting,
            pending: self.pending@,
            events: self.events@,
            buffered: row_views(self.buffered@),
            registry: self.registry@,
            channels: slot_views(self.channels@),
        }
    }
}

/// A handle to a channel of a socket.
#[derive(Debug)]
pub struct Channel {
    id: usize,
    topic: String,
}

/// The mathematical form of a [`Channel`].
pub struct HandleView {
    /// The number of the channel.
    pub id: usize,
    /// The topic.
    pub topic: Seq<char>,
}

impl View for Channel {
    type V = HandleView;

    closed spec fn view(&self) -> HandleView {
        HandleView { id: self.id, topic: self.topic@ }
    }
}

/// The number in the reference after the one with number `n`.
pub open spec fn next_number(n: u64) -> u64 {
    if n == u64::MAX {
        0
    } else {
        (n + 1) as u64
    }
}

/// A row of at most [`BUFFER_CAPACITY`] values after one more came: where it
/// was full, the oldest gives way.
pub open spec fn capped_push<T>(row: Seq<T>, value: T) -> Seq<T> {
    if row.len() == BUFFER_CAPACITY {
        row.skip(1).push(value)
    } else {
        row.push(value)
    }
}

/// Whether there is a channel of that number.
pub open spec fn occupied<S>(channels: Seq<Option<ChannelView<S>>>, i: int) -> bool {
    0 <= i < channels.len() && channels[i] is Some
}

/// The first number from `from` on that is free.
pub open spec fn first_free<S>(channels: Seq<Option<ChannelView<S>>>, from: int) -> int
    decreases channels.len() - from,
{
    if from < channels.len() && channels[from] is Some {
        first_free(channels, from + 1)
    } else {
        from
    }
}

/// Every channel has a handle.
pub open spec fn channels_valid<S>(channels: Seq<Option<ChannelView<S>>>) -> bool {
    forall|i: int| #[trigger] occupied(channels, i) ==> channels[i]->Some_0.handles > 0
}

/// The channel in charge of a topic is there, and the topic is its own.
pub open spec fn registry_valid<S>(
    registry: Map<Seq<char>, usize>,
    channels: Seq<Option<ChannelView<S>>>,
) -> bool {
    forall|topic: Seq<char>| #[trigger]
        registry.contains_key(topic) ==> occupied(channels, registry[topic] as int)
            && channels[registry[topic] as int]->Some_0.topic == topic
}

/// A row of kept events is never empty nor too long, and nobody listens to
/// these events yet.
pub open spec fn buffers_valid<B>(
    buffered: Map<(Seq<char>, Seq<char>), Seq<JsonView>>,
    events: Map<(Seq<char>, Seq<char>), B>,
) -> bool {
    forall|key: (Seq<char>, Seq<char>)| #[trigger]
        buffered.contains_key(key) ==> 0 < buffered[key].len() <= BUFFER_CAPACITY
            && !events.contains_key(key)
}

impl<S, B> SocketView<S, B> {
    /// What holds of every socket.
    pub open spec fn valid(self) -> bool {
        &&& self.reconnect_backoff.len() > 0
        &&& self.closing ==> !self.connected
        &&& channels_valid(self.channels)
        &&& registry_valid(self.registry, self.channels)
        &&& buffers_valid(self.buffered, self.events)
    }

    /// A socket whose transport has just opened.
    pub open spec fn opened(config: SocketConfig) -> SocketView<S, B> {
        SocketView {
            url: config.url@,
            timeout: config.timeout,
            heartbeat: config.heartbeat,
            reconnect_backoff: config.reconnect_backoff@,
            auto_reconnect: config.auto_reconnect,
            refs: 0,
            connected: true,
            closing: false,
            reconnecting: false,
            pending: Map::empty(),
            events: Map::empty(),
            buffered: Map::empty(),
            registry: Map::empty(),
            channels: Seq::empty(),
        }
    }

    /// Whether there is a channel of that number.
    pub open spec fn has_channel(self, i: int) -> bool {
        occupied(self.channels, i)
    }

    /// The channel of that number.
    pub open spec fn channel(self, i: int) -> ChannelView<S> {
        self.channels[i]->Some_0
    }

    /// Whether the handle is one of this socket's.
    pub open spec fn holds(self, handle: HandleView) -> bool {
        self.has_channel(handle.id as int) && self.channel(handle.id as int).topic == handle.topic
    }

    /// Whether the channel of that number is in charge of its topic.
    pub open spec fn registered(self, i: int) -> bool {
        &&& self.has_channel(i)
        &&& self.registry.contains_key(self.channel(i).topic)
        &&& self.registry[self.channel(i).topic] == i
    }

    /// The same socket with another state of one channel, where it is there.
    pub open spec fn with_channel(self, i: int, channel: ChannelView<S>) -> SocketView<S, B> {
        if self.has_channel(i) {
            SocketView { channels: self.channels.update(i, Some(channel)), ..self }
        } else {
            self
        }
    }

    /// The reference of the next request.
    pub open spec fn next_reference(self) -> Seq<char> {
        decimal(next_number(self.refs) as nat)
    }

    /// The same socket after a reference was taken.
    pub open spec fn with_reference_taken(self) -> SocketView<S, B> {
        SocketView { refs: next_number(self.refs), ..self }
    }

    /// The same socket after a request was begun.
    pub open spec fn with_request(self, sender: S) -> SocketView<S, B> {
        SocketView {
            refs: next_number(self.refs),
            pending: self.pending.insert(self.next_reference(), sender),
            ..self
        }
    }

    /// The same socket after a request was given up.
    pub open spec fn without_request(self, reference: Seq<char>) -> SocketView<S, B> {
        SocketView { pending: self.pending.remove(reference), ..self }
    }
}

impl<S, B> Socket<S, B> {
    /// What holds of every socket.
    pub closed spec fn wf(self) -> bool {
        &&& self@.valid()
        &&& self.pending.wf()
        &&& self.events.wf()
        &&& self.buffered.wf()
        &&& self.registry.wf()
    }

    /// Every socket is valid.
    pub proof fn is_valid(self)
        requires
            self.wf(),
        ensures
            self@.valid(),
    {
    }

    /// The state of a socket whose transport has just opened.
    pub fn new(config: SocketConfig) -> (r: Socket<S, B>)
        requires
            config.reconnect_backoff@.len() > 0,
        ensures
            r.wf(),
            r@ == SocketView::<S, B>::opened(config),
    {
        let r = Socket {
            url: config.url,
            timeout: config.timeout,
            heartbeat: config.heartbeat,
            reconnect_backoff: config.reconnect_backoff,
            auto_reconnect: config.auto_reconnect,
            refs: 0,
            connected: true,
            closing: false,
            reconnecting: false,
            pending: Table::new(),
            events: Table::new(),
            buffered: Table::new(),
            registry: Table::new(),
            channels: Vec::new(),
        };
        assert(r@.buffered =~= Map::empty());
        assert(r@.channels =~= Seq::empty());
        r
    }

    /// The URL to connect to.
    pub fn connect_url(&self) -> (r: &str)
        ensures
            r@ == self@.url,
    {
        self.url.as_str()
    }

    /// Join, push and leave timeout.
    pub fn timeout(&self) -> (r: Duration)
        ensures
            r == self@.timeout,
    {
        self.timeout
    }

    /// Heartbeat interval.
    pub fn heartbeat_interval(&self) -> (r: Duration)
        ensures
            r == self@.heartbeat,
    {
        self.heartbeat
    }

    /// Whether the underlying WebSocket is currently open.
    pub fn is_connected(&self) -> (r: bool)
        ensures
            r == self@.connected,
    {
        self.connected
    }

    /// Whether the handle is one of this socket's.
    pub fn holds(&self, channel: &Channel) -> (r: bool)
        ensures
            r == self@.holds(channel@),
    {
        if channel.id < self.channels.len() {
            assert(self@.channels[channel.id as int] is Some
                == self.channels@[channel.id as int] is Some);
            match &self.channels[channel.id] {
                Some(c) => same(c.topic.as_str(), channel.topic.as_str()),
                None => false,
            }
        } else {
            false
        }
    }

    /// Closes the socket for good: no reconnect follows.
    pub fn close(&mut self)
        requires
            old(self).wf(),
        ensures
            final(self).wf(),
            final(self)@ == after(old(self)@, Operation::Close),
            final(self)@ == (SocketView { closing: true, connected: false, ..old(self)@ }),
    {
        self.closing = true;
        self.connected = false;
    }

    fn next_ref(&mut self) -> (r: String)
        requires
            old(self).wf(),
        ensures
            final(self).wf(),
            final(self)@ == old(self)@.with_reference_taken(),
            r@ == old(self)@.next_reference(),
    {
        self.refs = if self.refs == u64::MAX {
            0
        } else {
            self.refs + 1
        };
        decimal_text(self.refs)
    }

    /// Begins a request. There is none on a closed transport.
    pub fn begin_request(
        &mut self,
        join_ref: Option<String>,
        topic: &str,
        event: &str,
        payload: Json,
        sender: S,
    ) -> (r: Result<Outgoing, Error>)
        requires
            old(self).wf(),
        ensures
            final(self).wf(),
            final(self)@ == after(old(self)@, Operation::Request(sender)),
            if old(self)@.connected {
                &&& final(self)@ == old(self)@.with_request(sender)
                &&& (r matches Ok(o) && o.reference@ == old(self)@.next_reference() && o.frame@
                    == message(
                    option_view(join_ref),
                    old(self)@.next_reference(),
                    topic@,
                    event@,
                    payload@,
                ))
            } else {
                &&& final(self)@ == old(self)@
                &&& r == Err::<Outgoing, Error>(Error::Closed)
            },
    {
        if !self.connected {
            return Err(Error::Closed);
        }
        let reference = self.next_ref();
        let frame = build_message(join_ref, reference.as_str(), topic, event, payload);
        self.pending.insert(reference.clone(), sender);
        Ok(Outgoing { reference, frame })
    }
}

/// What became of a request.
#[derive(Debug)]
pub enum RequestOutcome {
    /// There was no transport to send it on.
    NotSent,
    /// Sending it failed.
    SendFailed(WebSocketError),
    /// It was answered.
    Answered(Result<Json, Error>),
    /// Nobody is left who could answer it.
    Dropped,
    /// No answer came in time.
    TimedOut,
}

impl RequestOutcome {
    /// Whether the request may still be waiting for a reply.
    pub open spec fn unanswered(self) -> bool {
        self is NotSent || self is SendFailed || self is TimedOut
    }
}

/// What a request comes to: its reference and the reply, or an error.
pub open spec fn request_outcome(
    reference: Seq<char>,
    outcome: RequestOutcome,
    r: Result<(String, Json), Error>,
) -> bool {
    match outcome {
        RequestOutcome::NotSent => r == Err::<(String, Json), Error>(Error::Closed),
        RequestOutcome::SendFailed(e) => r == Err::<(String, Json), Error>(Error::WebSocket(e)),
        RequestOutcome::Answered(Ok(v)) => r matches Ok(p) && p.0@ == reference && p.1 == v,
        RequestOutcome::Answered(Err(e)) => r == Err::<(String, Json), Error>(e),
        RequestOutcome::Dropped => r == Err::<(String, Json), Error>(Error::Closed),
        RequestOutcome::TimedOut => r == Err::<(String, Json), Error>(Error::Timeout),
    }
}

/// What came of an incoming frame.
#[derive(Debug)]
pub enum Received<S> {
    /// Nothing.
    Ignored,
    /// A request is answered.
    Reply {
        /// Who waits for the answer.
        sender: S,
        /// The reply envelope.
        payload: Json,
    },
    /// An event for those who listen.
    Event {
        /// The topic and the event.
        key: EventKey,
        /// The payload.
        payload: Json,
    },
    /// An event that nobody listens to yet was kept.
    Kept,
}

/// The mathematical form of [`Received`].
pub enum ReceivedView<S> {
    /// Nothing.
    Ignored,
    /// A request is answered.
    Reply {
        /// Who waits for the answer.
        sender: S,
        /// The reply envelope.
        payload: JsonView,
    },
    /// An event for those who listen.
    Event {
        /// The topic and the event.
        key: (Seq<char>, Seq<char>),
        /// The payload.
        payload: JsonView,
    },
    /// An event that nobody listens to yet was kept.
    Kept,
}

impl<S> View for Received<S> {
    type V = ReceivedView<S>;

    open spec fn view(&self) -> ReceivedView<S> {
        match self {
            Received::Ignored => ReceivedView::Ignored,
            Received::Reply { sender, payload } => ReceivedView::Reply {
                sender: *sender,
                payload: payload@,
            },
            Received::Event { key, payload } => ReceivedView::Event {
                key: key@,
                payload: payload@,
            },
            Received::Kept => ReceivedView::Kept,
        }
    }
}

/// A channel with one more handle. A count at its limit stays there.
pub open spec fn one_more<S>(channel: ChannelView<S>) -> ChannelView<S> {
    if channel.handles == u64::MAX {
        channel
    } else {
        ChannelView { handles: (channel.handles + 1) as u64, ..channel }
    }
}

impl<S, B> SocketView<S, B> {
    /// The number of the channel that a new handle for a topic refers to.
    pub open spec fn number_for(self, topic: Seq<char>) -> int {
        if self.registry.contains_key(topic) {
            self.registry[topic] as int
        } else {
            first_free(self.channels, 0)
        }
    }

    /// The same socket after a handle for a topic was asked for: the channel in
    /// charge has one more, or a fresh channel is in charge.
    pub open spec fn with_handle(self, topic: Seq<char>) -> SocketView<S, B> {
        let i = self.number_for(topic);
        if self.registry.contains_key(topic) {
            self.with_handle_added(i)
        } else {
            SocketView {
                registry: self.registry.insert(topic, i as usize),
                channels: if i < self.channels.len() {
                    self.channels.update(i, Some(ChannelView::fresh(topic)))
                } else {
                    self.channels.push(Some(ChannelView::fresh(topic)))
                },
                ..self
            }
        }
    }

    /// The same socket with one more handle to a channel.
    pub open spec fn with_handle_added(self, i: int) -> SocketView<S, B> {
        self.with_channel(i, one_more(self.channel(i)))
    }

    /// The same socket with one handle less to a channel. With its last handle
    /// the channel goes; a count at its limit stays there.
    pub open spec fn with_handle_dropped(self, i: int) -> SocketView<S, B> {
        let channel = self.channel(i);
        if channel.handles == u64::MAX {
            self
        } else if channel.handles > 1 {
            self.with_channel(
                i,
                ChannelView { handles: (channel.handles - 1) as u64, ..channel },
            )
        } else {
            SocketView {
                registry: if self.registered(i) {
                    self.registry.remove(channel.topic)
                } else {
                    self.registry
                },
                channels: self.channels.update(i, None),
                ..self
            }
        }
    }
}

/// A socket stays valid where a channel keeps its topic and has a handle.
proof fn channel_update_is_valid<S, B>(
    socket: SocketView<S, B>,
    i: int,
    channel: ChannelView<S>,
)
    requires
        socket.valid(),
        socket.has_channel(i),
        channel.topic == socket.channel(i).topic,
        channel.handles > 0,
    ensures
        socket.with_channel(i, channel).valid(),
{
    let before = socket.channels;
    let after = socket.with_channel(i, channel).channels;
    assert forall|j: int| #[trigger] occupied(after, j) implies after[j]->Some_0.handles > 0 by {
        assert(occupied(before, j));
    }
    assert forall|topic: Seq<char>| #[trigger] socket.registry.contains_key(topic) implies occupied(
        after,
        socket.registry[topic] as int,
    ) && after[socket.registry[topic] as int]->Some_0.topic == topic by {
        assert(occupied(before, socket.registry[topic] as int));
    }
}

impl<S, B> Socket<S, B> {
    /// Takes the outcome of a request: one that can no longer be answered is
    /// forgotten.
    pub fn settle_request(&mut self, reference: String, outcome: RequestOutcome) -> (r: Result<
        (String, Json),
        Error,
    >)
        requires
            old(self).wf(),
        ensures
            final(self).wf(),
            outcome.unanswered() ==> final(self)@ == after(
                old(self)@,
                Operation::GiveUp(reference@),
            ),
            final(self)@ == if outcome.unanswered() {
                old(self)@.without_request(reference@)
            } else {
                old(self)@
            },
            request_outcome(reference@, outcome, r),
    {
        match outcome {
            RequestOutcome::NotSent => {
                self.pending.remove(&reference);
                Err(Error::Closed)
            },
            RequestOutcome::SendFailed(e) => {
                self.pending.remove(&reference);
                Err(Error::WebSocket(e))
            },
            RequestOutcome::Answered(answer) => match answer {
                Ok(v) => Ok((reference, v)),
                Err(e) => Err(e),
            },
            RequestOutcome::Dropped => Err(Error::Closed),
            RequestOutcome::TimedOut => {
                self.pending.remove(&reference);
                Err(Error::Timeout)
            },
        }
    }

    fn channel_for(&self, topic: &String) -> (r: Option<usize>)
        requires
            self.wf(),
        ensures
            match r {
                Some(i) => self@.registry.contains_key(topic@) && self@.registry[topic@] == i
                    && self@.has_channel(i as int) && i < self.channels@.len()
                    && self.channels@[i as int] is Some,
                None => !self@.registry.contains_key(topic@),
            },
    {
        match self.registry.get(topic) {
            Some(i) => {
                assert(occupied(self@.channels, *i as int));
                Some(*i)
            },
            None => None,
        }
    }

    fn add_handle(&mut self, id: usize)
        requires
            old(self).wf(),
            old(self)@.has_channel(id as int),
        ensures
            final(self).wf(),
            final(self)@ == old(self)@.with_handle_added(id as int),
    {
        match &mut self.channels[id] {
            Some(c) => {
                if c.handles < u64::MAX {
                    c.handles = c.handles + 1;
                }
            },
            None => {},
        }
        assert(self@ =~= old(self)@.with_handle_added(id as int));
        proof {
            channel_update_is_valid(old(self)@, id as int, self@.channel(id as int));
        }
    }

    fn add_channel(&mut self, topic: String) -> (r: usize)
        requires
            old(self).wf(),
            !old(self)@.registry.contains_key(topic@),
        ensures
            final(self).wf(),
            final(self)@ == old(self)@.with_handle(topic@),
            r == old(self)@.number_for(topic@),
            final(self)@.has_channel(r as int),
    {
        let ghost start = self@;
        let mut id: usize = 0;
        while id < self.channels.len() && self.channels[id].is_some()
            invariant
                id <= self.channels.len(),
                self@ == start,
                first_free(start.channels, 0) == first_free(start.channels, id as int),
            decreases self.channels.len() - id,
        {
            assert(start.channels[id as int] is Some);
            id += 1;
        }
        assert(id < self.channels.len() ==> start.channels[id as int] is None);
        let inner = ChannelInner {
            topic: topic.clone(),
            handles: 1,
            state: ChannelState::Closed,
            join_ref: None,
            join_payload: Json::object(),
            desired_join: false,
            buffered_pushes: Vec::new(),
        };
        assert(inner.view() =~= ChannelView::fresh(topic@));
        if id < self.channels.len() {
            self.channels.set(id, Some(inner));
        } else {
            self.channels.push(Some(inner));
        }
        self.registry.insert(topic, id);
        assert(self@ =~= start.with_handle(topic@));
        proof {
            let before = start.channels;
            let after = self@.channels;
            assert forall|j: int| #[trigger] occupied(after, j) implies after[j]->Some_0.handles
                > 0 by {
                if j != id {
                    assert(occupied(before, j));
                }
            }
            assert forall|t: Seq<char>| #[trigger] self@.registry.contains_key(t) implies occupied(
                after,
                self@.registry[t] as int,
            ) && after[self@.registry[t] as int]->Some_0.topic == t by {
                if t != topic@ {
                    assert(start.registry.contains_key(t));
                    assert(occupied(before, start.registry[t] as int));
                }
            }
        }
        id
    }

    /// Return the existing channel for a topic or create one.
    pub fn channel(&mut self, topic: String) -> (r: Channel)
        requires
            old(self).wf(),
        ensures
            final(self).wf(),
            final(self)@ == after(old(self)@, Operation::Channel(topic@)),
            final(self)@ == old(self)@.with_handle(topic@),
            r@.id == old(self)@.number_for(topic@),
            r@.topic == topic@,
            final(self)@.holds(r@),
    {
        match self.channel_for(&topic) {
            Some(id) => {
                self.add_handle(id);
                Channel { id, topic }
            },
            None => {
                let id: usize = self.add_channel(topic.clone());
                Channel { id, topic }
            },
        }
    }

    /// Another handle to the channel of a handle.
    pub fn retain(&mut self, channel: &Channel) -> (r: Channel)
        requires
            old(self).wf(),
            old(self)@.holds(channel@),
        ensures
            final(self).wf(),
            final(self)@ == after(old(self)@, Operation::Retain(channel@.id as int)),
            final(self)@ == old(self)@.with_handle_added(channel@.id as int),
            r@ == channel@,
            final(self)@.holds(r@),
    {
        self.add_handle(channel.id);
        Channel { id: channel.id, topic: channel.topic.clone() }
    }

    /// Gives up a handle. With its last handle a channel goes, and with it the
    /// pushes that wait for its join.
    pub fn release(&mut self, channel: Channel)
        requires
            old(self).wf(),
            old(self)@.holds(channel@),
        ensures
            final(self).wf(),
            final(self)@ == after(old(self)@, Operation::Release(channel@.id as int)),
            final(self)@ == old(self)@.with_handle_dropped(channel@.id as int),
    {
        let ghost start = self@;
        let id: usize = channel.id;
        let mut last = false;
        match &mut self.channels[id] {
            Some(c) => {
                if c.handles == 1 {
                    last = true;
                } else if c.handles < u64::MAX {
                    c.handles = c.handles - 1;
                }
            },
            None => {},
        }
        assert(occupied(start.channels, id as int));
        if last {
            assert(self@ =~= start);
            self.channels.set(id, None);
            match self.registry.get(&channel.topic) {
                Some(i) => {
                    if *i == id {
                        self.registry.remove(&channel.topic);
                    }
                },
                None => {},
            }
            assert(self@ =~= start.with_handle_dropped(id as int));
            proof {
                let before = start.channels;
                let after = self@.channels;
                assert forall|j: int| #[trigger] occupied(after, j) implies after[j]->Some_0.handles
                    > 0 by {
                    assert(occupied(before, j));
                }
                assert forall|t: Seq<char>| #[trigger]
                    self@.registry.contains_key(t) implies occupied(
                    after,
                    self@.registry[t] as int,
                ) && after[self@.registry[t] as int]->Some_0.topic == t by {
                    assert(start.registry.contains_key(t));
                    assert(occupied(before, start.registry[t] as int));
                }
            }
        } else {
            assert(self@ =~= start.with_handle_dropped(id as int));
            proof {
                if start.channel(id as int).handles < u64::MAX {
                    channel_update_is_valid(start, id as int, self@.channel(id as int));
                }
            }
        }
    }
}

impl<S, B> SocketView<S, B> {
    /// The values kept for a topic and event, oldest first.
    pub open spec fn kept(self, key: (Seq<char>, Seq<char>)) -> Seq<JsonView> {
        if self.buffered.contains_key(key) {
            self.buffered[key]
        } else {
            Seq::empty()
        }
    }

    /// The same socket after somebody began to listen: `fresh` is used where
    /// nobody did before.
    pub open spec fn with_listener(self, key: (Seq<char>, Seq<char>), fresh: B) -> SocketView<S, B> {
        SocketView {
            events: if self.events.contains_key(key) {
                self.events
            } else {
                self.events.insert(key, fresh)
            },
            buffered: self.buffered.remove(key),
            ..self
        }
    }

    /// Whether a frame on a topic is of a join that is no longer in force.
    pub open spec fn is_stale(self, topic: Seq<char>, join_ref: Option<Seq<char>>) -> bool {
        self.registry.contains_key(topic) && !belongs(
            join_ref,
            self.channel(self.registry[topic] as int).join_ref,
        )
    }

    /// The same socket after the server ended a channel: an error leaves it
    /// wanted, a close does not.
    pub open spec fn with_lifecycle(self, topic: Seq<char>, event: Seq<char>) -> SocketView<S, B> {
        if self.registry.contains_key(topic) {
            let i = self.registry[topic] as int;
            if event == "phx_error"@ {
                self.with_channel(
                    i,
                    ChannelView { state: ChannelState::Errored, ..self.channel(i) },
                )
            } else if event == "phx_close"@ {
                self.with_channel(
                    i,
                    ChannelView {
                        state: ChannelState::Closed,
                        desired_join: false,
                        ..self.channel(i)
                    },
                )
            } else {
                self
            }
        } else {
            self
        }
    }

    /// The same socket after an event, and what comes of it: those who listen
    /// get it, and where nobody does it is kept.
    pub open spec fn with_event(self, key: (Seq<char>, Seq<char>), payload: JsonView) -> (
        SocketView<S, B>,
        ReceivedView<S>,
    ) {
        if self.events.contains_key(key) {
            (self, ReceivedView::Event { key, payload })
        } else {
            (
                SocketView {
                    buffered: self.buffered.insert(key, capped_push(self.kept(key), payload)),
                    ..self
                },
                ReceivedView::Kept,
            )
        }
    }

    /// Whether a frame answers a request.
    pub open spec fn is_reply(frame: FrameView) -> bool {
        frame.event == "phx_reply"@ && frame.reference.len() > 0
    }

    /// The same socket after a frame, and what comes of it.
    pub open spec fn with_parts(self, frame: FrameView) -> (SocketView<S, B>, ReceivedView<S>) {
        if Self::is_reply(frame) {
            if self.pending.contains_key(frame.reference) {
                (
                    self.without_request(frame.reference),
                    ReceivedView::Reply {
                        sender: self.pending[frame.reference],
                        payload: frame.payload,
                    },
                )
            } else {
                (self, ReceivedView::Ignored)
            }
        } else if self.is_stale(frame.topic, frame.join_ref) {
            (self, ReceivedView::Ignored)
        } else {
            self.with_lifecycle(frame.topic, frame.event).with_event(
                (frame.topic, frame.event),
                frame.payload,
            )
        }
    }

    /// The same socket after a document arrived, and what comes of it: what is
    /// no frame is ignored.
    pub open spec fn with_document(self, document: JsonView) -> (
        SocketView<S, B>,
        ReceivedView<S>,
    ) {
        match frame_parts(document) {
            Some(frame) => self.with_parts(frame),
            None => (self, ReceivedView::Ignored),
        }
    }

    /// The same socket after a text message, and what comes of it: what is no
    /// document is ignored.
    pub open spec fn with_text(self, text: Seq<char>) -> (SocketView<S, B>, ReceivedView<S>) {
        match parsed_text(text) {
            Some(document) => self.with_document(document),
            None => (self, ReceivedView::Ignored),
        }
    }
}

impl<S, B> Socket<S, B> {
    /// Begins to listen to an event of a topic. `fresh` is used where nobody
    /// listened before. The answer is what was kept for the first listener,
    /// oldest first.
    pub fn subscribe(&mut self, key: EventKey, fresh: B) -> (r: Vec<Json>)
        requires
            old(self).wf(),
        ensures
            final(self).wf(),
            final(self)@ == after(old(self)@, Operation::Subscribe(key@, fresh)),
            final(self)@ == old(self)@.with_listener(key@, fresh),
            json_views(r@) == old(self)@.kept(key@),
    {
        let ghost start = self@;
        let r = match self.buffered.remove(&key) {
            Some(row) => row,
            None => Vec::new(),
        };
        assert(json_views(r@) =~= start.kept(key@));
        if !self.events.contains(&key) {
            self.events.insert(key, fresh);
        }
        assert(self@.buffered =~= start.buffered.remove(key@));
        proof {
            assert forall|k: (Seq<char>, Seq<char>)| #[trigger]
                self@.buffered.contains_key(k) implies 0 < self@.buffered[k].len()
                <= BUFFER_CAPACITY && !self@.events.contains_key(k) by {
                assert(start.buffered.contains_key(k));
            }
        }
        r
    }

    /// What an event is handed to its listeners through.
    pub fn listener(&self, key: &EventKey) -> (r: Option<&B>)
        requires
            self.wf(),
        ensures
            match r {
                Some(b) => self@.events.contains_key(key@) && self@.events[key@] == *b,
                None => !self@.events.contains_key(key@),
            },
    {
        self.events.get(key)
    }

    fn follow_lifecycle(&mut self, topic: &String, event: &String)
        requires
            old(self).wf(),
        ensures
            final(self).wf(),
            final(self)@ == old(self)@.with_lifecycle(topic@, event@),
    {
        let ghost start = self@;
        match self.channel_for(topic) {
            Some(id) => {
                if same(event.as_str(), "phx_error") {
                    match &mut self.channels[id] {
                        Some(c) => {
                            c.state = ChannelState::Errored;
                        },
                        None => {},
                    }
                    assert(self@ =~= start.with_lifecycle(topic@, event@));
                    proof {
                        channel_update_is_valid(start, id as int, self@.channel(id as int));
                    }
                } else if same(event.as_str(), "phx_close") {
                    match &mut self.channels[id] {
                        Some(c) => {
                            c.desired_join = false;
                            c.state = ChannelState::Closed;
                        },
                        None => {},
                    }
                    assert(self@ =~= start.with_lifecycle(topic@, event@));
                    proof {
                        channel_update_is_valid(start, id as int, self@.channel(id as int));
                    }
                }
            },
            None => {},
        }
    }

    fn accept_event(&mut self, key: EventKey, payload: Json) -> (r: Received<S>)
        requires
            old(self).wf(),
        ensures
            final(self).wf(),
            final(self)@ == old(self)@.with_event(key@, payload@).0,
            r@ == old(self)@.with_event(key@, payload@).1,
    {
        let ghost start = self@;
        if self.events.contains(&key) {
            return Received::Event { key, payload };
        }
        let mut row = match self.buffered.remove(&key) {
            Some(row) => row,
            None => Vec::new(),
        };
        assert(json_views(row@) =~= start.kept(key@));
        let ghost earlier = row@;
        if row.len() == BUFFER_CAPACITY {
            row.remove(0);
            assert(row@ =~= earlier.skip(1));
        }
        row.push(payload);
        assert(json_views(row@) =~= capped_push(start.kept(key@), payload@));
        self.buffered.insert(key, row);
        assert(self@.buffered =~= start.with_event(key@, payload@).0.buffered);
        proof {
            assert forall|k: (Seq<char>, Seq<char>)| #[trigger]
                self@.buffered.contains_key(k) implies 0 < self@.buffered[k].len()
                <= BUFFER_CAPACITY && !self@.events.contains_key(k) by {
                if k != key@ {
                    assert(start.buffered.contains_key(k));
                } else if start.buffered.contains_key(k) {
                    assert(start.kept(k).len() <= BUFFER_CAPACITY);
                }
            }
        }
        Received::Kept
    }

    /// Takes in a document that the server sent.
    pub fn receive_document(&mut self, document: &Json) -> (r: Received<S>)
        requires
            old(self).wf(),
        ensures
            final(self).wf(),
            final(self)@ == after(old(self)@, Operation::Receive(document@)),
            final(self)@ == old(self)@.with_document(document@).0,
            r@ == old(self)@.with_document(document@).1,
    {
        let frame = match take_apart(document) {
            Some(frame) => frame,
            None => {
                return Received::Ignored;
            },
        };
        proof {
            reveal_strlit("");
            assert(frame.reference@.len() == 0 ==> frame.reference@ =~= ""@);
        }
        if same(frame.event.as_str(), "phx_reply") && !same(frame.reference.as_str(), "") {
            return match self.pending.remove(&frame.reference) {
                Some(sender) => Received::Reply { sender, payload: frame.payload },
                None => {
                    assert(self@.pending =~= old(self)@.pending);
                    Received::Ignored
                },
            };
        }
        match self.channel_for(&frame.topic) {
            Some(id) => {
                let current = match &self.channels[id] {
                    Some(c) => copy_option(&c.join_ref),
                    None => None,
                };
                let ours = match &current {
                    Some(s) => Some(s.as_str()),
                    None => None,
                };
                let theirs = match &frame.join_ref {
                    Some(s) => Some(s.as_str()),
                    None => None,
                };
                if !join_ref_matches(theirs, ours) {
                    return Received::Ignored;
                }
            },
            None => {},
        }
        self.follow_lifecycle(&frame.topic, &frame.event);
        self.accept_event(EventKey { topic: frame.topic, event: frame.event }, frame.payload)
    }

    /// Takes in a text message that the server sent.
    pub fn receive(&mut self, text: &str) -> (r: Received<S>)
        requires
            old(self).wf(),
        ensures
            final(self).wf(),
            final(self)@ == old(self)@.with_text(text@).0,
            final(self)@ == match parsed_text(text@) {
                Some(document) => after(old(self)@, Operation::Receive(document)),
                None => old(self)@,
            },
            r@ == old(self)@.with_text(text@).1,
    {
        match parse_text(text) {
            Some(document) => self.receive_document(&document),
            None => Received::Ignored,
        }
    }
}

/// What arrived from the transport.
#[derive(Debug)]
pub enum Wire {
    /// A text message.
    Text(String),
    /// A close frame, with code and reason where it has them.
    Close(Option<(u16, String)>),
    /// Any other message.
    Other,
    /// A failure.
    Failed(String),
}

/// What to do after something arrived from the transport.
#[derive(Debug)]
pub enum ReadStep<S> {
    /// Read on.
    Continue(Received<S>),
    /// The transport is done: tell these events.
    Stop(Vec<SocketEvent>),
}

/// The events with which a transport ends; nothing while it goes on. `None` is
/// the end of the stream.
pub open spec fn farewell(arrived: Option<Wire>) -> Option<Seq<SocketEventView>> {
    let plain = SocketEventView::Close { code: None, reason: Seq::empty() };
    match arrived {
        None => Some(seq![plain]),
        Some(Wire::Close(None)) => Some(seq![plain]),
        Some(Wire::Close(Some((code, reason)))) => Some(
            seq![SocketEventView::Close { code: Some(code), reason: reason@ }],
        ),
        Some(Wire::Failed(text)) => Some(seq![SocketEventView::Error(text@), plain]),
        Some(Wire::Text(_)) => None,
        Some(Wire::Other) => None,
    }
}

/// What drives a reconnect.
#[derive(Debug)]
pub enum ReconnectEvent {
    /// It begins.
    Begun,
    /// The delay is over.
    Waited,
    /// A transport opened.
    Connected,
    /// No transport opened.
    Failed(String),
}

/// What a reconnect does next.
#[derive(Debug)]
pub enum ReconnectAction {
    /// Wait that long.
    Wait(Duration),
    /// Try to open a transport.
    Connect,
    /// Tell of the failure, then wait that long.
    Retry(SocketEvent, Duration),
    /// Use the transport, tell that it is open, and rejoin.
    Rejoin(SocketEvent),
    /// Give up; a transport that opened meanwhile is to be closed.
    Stop,
}

/// What a heartbeat tick asks for.
#[derive(Debug)]
pub enum HeartbeatStep {
    /// No more ticks are needed.
    Stop,
    /// Nothing to do this time.
    Skip,
    /// Send this; where it fails, close the transport.
    Send(Outgoing),
}

/// Whether the transport is to be closed after a heartbeat: one that is not
/// acknowledged shows that it is dead.
pub fn heartbeat_lost(outcome: &Result<(String, Json), Error>) -> (r: bool)
    ensures
        r == (*outcome is Err),
{
    match outcome {
        Ok(_) => false,
        Err(_) => true,
    }
}

/// A channel after the transport was lost: where it was not closed or on its
/// way to it, it has failed and its join is void.
pub open spec fn cut_off<S>(channel: ChannelView<S>) -> ChannelView<S> {
    if channel.state == ChannelState::Closed || channel.state == ChannelState::Leaving {
        channel
    } else {
        ChannelView { state: ChannelState::Errored, join_ref: None, ..channel }
    }
}

/// The number of reconnect attempts after one more.
pub open spec fn next_attempt(attempt: usize) -> usize {
    if attempt == usize::MAX {
        attempt
    } else {
        (attempt + 1) as usize
    }
}

impl<S, B> SocketView<S, B> {
    /// The same socket after the transport was lost.
    pub open spec fn disconnected(self) -> SocketView<S, B> {
        SocketView {
            connected: false,
            pending: Map::empty(),
            channels: Seq::new(
                self.channels.len(),
                |i: int|
                    if self.registered(i) {
                        Some(cut_off(self.channel(i)))
                    } else {
                        self.channels[i]
                    },
            ),
            ..self
        }
    }

    /// Whether the transport of a reconnect is used: not once the socket was
    /// closed.
    pub open spec fn opens_on(self, event: ReconnectEvent) -> bool {
        event is Connected && !self.closing
    }

    /// The same socket after an event of a reconnect.
    pub open spec fn with_reconnect(self, event: ReconnectEvent) -> SocketView<S, B> {
        if self.opens_on(event) {
            SocketView { connected: true, reconnecting: false, ..self }
        } else if self.closing && (event is Waited || event is Connected) {
            SocketView { reconnecting: false, ..self }
        } else {
            self
        }
    }

    /// Whether the channel of that number is to be joined again after a
    /// reconnect: it is in charge of its topic and meant to be joined.
    pub open spec fn rejoins(self, i: int) -> bool {
        self.registered(i) && self.channel(i).desired_join
    }

    /// The same socket with one more handle to every channel that rejoins.
    pub open spec fn with_rejoining_retained(self) -> SocketView<S, B> {
        SocketView {
            channels: Seq::new(
                self.channels.len(),
                |i: int|
                    if self.rejoins(i) {
                        Some(one_more(self.channel(i)))
                    } else {
                        self.channels[i]
                    },
            ),
            ..self
        }
    }

    /// Whether a lost transport is to be replaced now.
    pub open spec fn may_reconnect(self) -> bool {
        !self.closing && self.auto_reconnect && !self.reconnecting
    }

    /// The numbers below `n` of the channels that rejoin.
    pub open spec fn rejoining_below(self, n: nat) -> Seq<int>
        decreases n,
    {
        if n == 0 {
            Seq::empty()
        } else if self.rejoins(n - 1) {
            self.rejoining_below((n - 1) as nat).push(n - 1)
        } else {
            self.rejoining_below((n - 1) as nat)
        }
    }
}

impl<S, B> Socket<S, B> {
    /// Takes in what arrived from the transport; `None` is its end.
    pub fn read(&mut self, arrived: Option<Wire>) -> (r: ReadStep<S>)
        requires
            old(self).wf(),
        ensures
            final(self).wf(),
            match farewell(arrived) {
                Some(events) => {
                    &&& final(self)@ == old(self)@
                    &&& (r matches ReadStep::Stop(told) && event_views(told@) == events)
                },
                None => match arrived {
                    Some(Wire::Text(text)) => {
                        &&& final(self)@ == old(self)@.with_text(text@).0
                        &&& final(self)@ == match parsed_text(text@) {
                            Some(document) => after(old(self)@, Operation::Receive(document)),
                            None => old(self)@,
                        }
                        &&& (r matches ReadStep::Continue(received) && received@ == old(
                            self,
                        )@.with_text(text@).1)
                    },
                    _ => {
                        &&& final(self)@ == old(self)@
                        &&& (r matches ReadStep::Continue(received) && received is Ignored)
                    },
                },
            },
    {
        let mut told: Vec<SocketEvent> = Vec::new();
        let mut code: Option<u16> = None;
        let mut reason = String::new();
        assert(reason@ =~= Seq::empty());
        match arrived {
            Some(Wire::Text(text)) => {
                return ReadStep::Continue(self.receive(text.as_str()));
            },
            Some(Wire::Other) => {
                return ReadStep::Continue(Received::Ignored);
            },
            Some(Wire::Failed(text)) => {
                told.push(SocketEvent::Error(text));
            },
            Some(Wire::Close(Some((c, text)))) => {
                code = Some(c);
                reason = text;
            },
            Some(Wire::Close(None)) => {},
            None => {},
        }
        told.push(SocketEvent::Close { code, reason });
        assert(event_views(told@) =~= farewell(arrived)->Some_0);
        ReadStep::Stop(told)
    }

    fn is_registered(&self, id: usize) -> (r: bool)
        requires
            self.registry.wf(),
            id < self.channels@.len(),
        ensures
            r == self@.registered(id as int),
    {
        assert(self@.channels[id as int] is Some == self.channels@[id as int] is Some);
        match &self.channels[id] {
            Some(c) => match self.registry.get(&c.topic) {
                Some(i) => *i == id,
                None => false,
            },
            None => false,
        }
    }

    /// Takes note that the transport is lost. The answer holds everyone who
    /// waits for a reply: none will come. Where the transport was lost already,
    /// nothing changes.
    pub fn disconnect(&mut self) -> (r: Option<Vec<(String, S)>>)
        requires
            old(self).wf(),
        ensures
            final(self).wf(),
            final(self)@ == after(old(self)@, Operation::Disconnect),
            if old(self)@.connected {
                &&& final(self)@ == old(self)@.disconnected()
                &&& (r matches Some(waiting) && distinct_keys(waiting@) && entry_map(waiting@)
                    == old(self)@.pending)
            } else {
                &&& final(self)@ == old(self)@
                &&& r is None
            },
    {
        if !self.connected {
            return None;
        }
        let ghost start = self@;
        self.connected = false;
        let waiting = self.pending.drain();
        let ghost target = start.disconnected().channels;
        let ghost between = self@;
        let mut id: usize = 0;
        while id < self.channels.len()
            invariant
                id <= self.channels.len(),
                self.wf(),
                self@ == (SocketView { channels: self@.channels, ..between }),
                between == (SocketView { connected: false, pending: Map::empty(), ..start }),
                self@.channels.len() == start.channels.len(),
                target == start.disconnected().channels,
                target.len() == start.channels.len(),
                self.channels@.len() == start.channels.len(),
                forall|j: int| 0 <= j < id ==> #[trigger] self@.channels[j] == target[j],
                forall|j: int|
                    id <= j < self@.channels.len() ==> #[trigger] self@.channels[j]
                        == start.channels[j],
            decreases self.channels.len() - id,
        {
            let ghost before = self@;
            assert(before.channels[id as int] == start.channels[id as int]);
            assert(before.registered(id as int) == start.registered(id as int));
            if self.is_registered(id) {
                assert(occupied(before.channels, id as int));
                match &mut self.channels[id] {
                    Some(c) => {
                        if c.state != ChannelState::Closed && c.state != ChannelState::Leaving {
                            c.state = ChannelState::Errored;
                            c.join_ref = None;
                        }
                    },
                    None => {},
                }
                assert(self@ =~= before.with_channel(id as int, cut_off(before.channel(id as int))));
                proof {
                    channel_update_is_valid(before, id as int, cut_off(before.channel(id as int)));
                }
            }
            assert(self@.channels[id as int] == target[id as int]);
            id += 1;
        }
        assert(self@ =~= start.disconnected());
        Some(waiting)
    }

    /// Claims the task of replacing a lost transport. Only one can have it at a
    /// time, and nobody once the socket was closed or where it is not to
    /// reconnect.
    pub fn begin_reconnect(&mut self) -> (r: bool)
        requires
            old(self).wf(),
        ensures
            final(self).wf(),
            final(self)@ == after(old(self)@, Operation::BeginReconnect),
            r == old(self)@.may_reconnect(),
            final(self)@ == (SocketView {
                reconnecting: old(self)@.reconnecting || old(self)@.may_reconnect(),
                ..old(self)@
            }),
    {
        if self.closing || !self.auto_reconnect || self.reconnecting {
            false
        } else {
            self.reconnecting = true;
            true
        }
    }

    /// Drives a reconnect. `attempt` counts the attempts that were waited for.
    /// Once the socket was closed, a transport that still opens is not used.
    pub fn reconnect(&mut self, attempt: &mut usize, event: ReconnectEvent) -> (r: ReconnectAction)
        requires
            old(self).wf(),
        ensures
            final(self).wf(),
            final(self)@ == after(old(self)@, Operation::Reconnect(event)),
            final(self)@ == old(self)@.with_reconnect(event),
            (r is Rejoin) == old(self)@.opens_on(event),
            *final(attempt) == if event is Begun || event is Failed {
                next_attempt(*old(attempt))
            } else {
                *old(attempt)
            },
            match event {
                ReconnectEvent::Begun => r == ReconnectAction::Wait(
                    delay_at(old(self)@.reconnect_backoff, *old(attempt) as nat),
                ),
                ReconnectEvent::Waited => r == if old(self)@.closing {
                    ReconnectAction::Stop
                } else {
                    ReconnectAction::Connect
                },
                ReconnectEvent::Connected => if old(self)@.closing {
                    r == ReconnectAction::Stop
                } else {
                    r matches ReconnectAction::Rejoin(e) && e@ == SocketEventView::Open
                },
                ReconnectEvent::Failed(text) => r matches ReconnectAction::Retry(e, delay) && e@
                    == SocketEventView::Error(text@) && delay == delay_at(
                    old(self)@.reconnect_backoff,
                    *old(attempt) as nat,
                ),
            },
    {
        match event {
            ReconnectEvent::Begun => {
                let delay = reconnect_delay(self.reconnect_backoff.as_slice(), *attempt);
                *attempt = if *attempt == usize::MAX {
                    *attempt
                } else {
                    *attempt + 1
                };
                ReconnectAction::Wait(delay)
            },
            ReconnectEvent::Waited => {
                if self.closing {
                    self.reconnecting = false;
                    ReconnectAction::Stop
                } else {
                    ReconnectAction::Connect
                }
            },
            ReconnectEvent::Connected => {
                self.reconnecting = false;
                if self.closing {
                    ReconnectAction::Stop
                } else {
                    self.connected = true;
                    ReconnectAction::Rejoin(SocketEvent::Open)
                }
            },
            ReconnectEvent::Failed(text) => {
                let delay = reconnect_delay(self.reconnect_backoff.as_slice(), *attempt);
                *attempt = if *attempt == usize::MAX {
                    *attempt
                } else {
                    *attempt + 1
                };
                ReconnectAction::Retry(SocketEvent::Error(text), delay)
            },
        }
    }

    /// What a heartbeat tick asks for.
    pub fn heartbeat(&mut self, sender: S) -> (r: HeartbeatStep)
        requires
            old(self).wf(),
        ensures
            final(self).wf(),
            final(self)@ == after(old(self)@, Operation::Request(sender)),
            if old(self)@.closing {
                r is Stop && final(self)@ == old(self)@
            } else if !old(self)@.connected {
                r is Skip && final(self)@ == old(self)@
            } else {
                &&& final(self)@ == old(self)@.with_request(sender)
                &&& (r matches HeartbeatStep::Send(o) && o.reference@ == old(
                    self,
                )@.next_reference() && o.frame@ == message(
                    None,
                    old(self)@.next_reference(),
                    "phoenix"@,
                    "heartbeat"@,
                    empty_object(),
                ))
            },
    {
        if self.closing {
            return HeartbeatStep::Stop;
        }
        match self.begin_request(None, "phoenix", "heartbeat", Json::object(), sender) {
            Ok(o) => HeartbeatStep::Send(o),
            Err(_) => HeartbeatStep::Skip,
        }
    }

    /// A new handle to every channel that is to be joined again now that a lost
    /// transport was replaced, in the order of their numbers.
    pub fn rejoin_channels(&mut self) -> (r: Vec<Channel>)
        requires
            old(self).wf(),
        ensures
            final(self).wf(),
            final(self)@ == after(old(self)@, Operation::RejoinChannels),
            final(self)@ == old(self)@.with_rejoining_retained(),
            r@.len() == old(self)@.rejoining_below(old(self)@.channels.len()).len(),
            forall|k: int|
                0 <= k < r@.len() ==> (#[trigger] r@[k])@.id == old(self)@.rejoining_below(
                    old(self)@.channels.len(),
                )[k] && final(self)@.holds(r@[k]@),
    {
        let ghost start = self@;
        let ghost target = start.with_rejoining_retained().channels;
        let mut r: Vec<Channel> = Vec::new();
        let mut id: usize = 0;
        while id < self.channels.len()
            invariant
                id <= self.channels.len(),
                self.wf(),
                self@ == (SocketView { channels: self@.channels, ..start }),
                self.channels@.len() == start.channels.len(),
                self@.channels.len() == start.channels.len(),
                target == start.with_rejoining_retained().channels,
                target.len() == start.channels.len(),
                forall|j: int| 0 <= j < id ==> #[trigger] self@.channels[j] == target[j],
                forall|j: int|
                    id <= j < self@.channels.len() ==> #[trigger] self@.channels[j]
                        == start.channels[j],
                r@.len() == start.rejoining_below(id as nat).len(),
                forall|k: int|
                    0 <= k < r@.len() ==> (#[trigger] r@[k])@.id == start.rejoining_below(
                        id as nat,
                    )[k] && self@.holds(r@[k]@),
            decreases self.channels.len() - id,
        {
            let ghost before = self@;
            assert(before.channels[id as int] == start.channels[id as int]);
            assert(before.rejoins(id as int) == start.rejoins(id as int));
            let wanted = match &self.channels[id] {
                Some(c) => c.desired_join,
                None => false,
            };
            if self.is_registered(id) && wanted {
                assert(occupied(before.channels, id as int));
                let topic = match &self.channels[id] {
                    Some(c) => c.topic.clone(),
                    None => String::new(),
                };
                self.add_handle(id);
                r.push(Channel { id, topic });
            }
            assert(self@.channels[id as int] == target[id as int]);
            assert forall|k: int| 0 <= k < r@.len() implies (#[trigger] r@[k])@.id
                == start.rejoining_below((id + 1) as nat)[k] && self@.holds(r@[k]@) by {
                if k < start.rejoining_below(id as nat).len() {
                    assert(before.holds(r@[k]@));
                }
            }
            id += 1;
        }
        assert(self@ =~= start.with_rejoining_retained());
        r
    }
}

/// How a join begins.
#[derive(Debug)]
pub enum JoinStart {
    /// The channel is joined already.
    Done(Json),
    /// Send this.
    Send(Outgoing),
    /// It cannot be sent.
    Failed(Error),
}

/// How a join begins: a joined channel needs none, without a transport it
/// fails, and otherwise the saved payload is sent.
pub open spec fn join_begun<S, B>(
    start: SocketView<S, B>,
    handle: HandleView,
    sender: S,
    end: SocketView<S, B>,
    r: JoinStart,
) -> bool {
    let i = handle.id as int;
    if start.channel(i).state == ChannelState::Joined {
        &&& end == start
        &&& (r matches JoinStart::Done(v) && v@ == empty_object())
    } else if !start.connected {
        &&& end == start.with_state(i, ChannelState::Errored)
        &&& r == JoinStart::Failed(Error::Closed)
    } else {
        &&& end == start.with_state(i, ChannelState::Joining).with_request(sender)
        &&& (r matches JoinStart::Send(o) && o.reference@ == start.next_reference() && o.frame@
            == message(
            None,
            start.next_reference(),
            handle.topic,
            "phx_join"@,
            start.channel(i).join_payload,
        ))
    }
}

/// How a push begins.
#[derive(Debug)]
pub enum PushStart {
    /// Send this.
    Send(Outgoing),
    /// It waits for the join, under this reference.
    Queued(String),
    /// It is refused.
    Failed(Error),
}

/// How a leave begins.
#[derive(Debug)]
pub enum LeaveStart {
    /// There is nothing to wait for.
    Done,
    /// Send this.
    Send(Outgoing),
}

/// What became of a push that waited for a join.
#[derive(Debug)]
pub enum QueueOutcome {
    /// It was made, and this came of it.
    Answered(Result<Json, Error>),
    /// Nobody is left who could make it.
    Dropped,
    /// The join did not come in time.
    TimedOut,
}

/// A joined channel's answer, with the pushes that waited for the join.
#[derive(Debug)]
pub struct JoinedNow<S> {
    /// The server's response.
    pub response: Json,
    /// The pushes that waited, oldest first.
    pub pushes: Vec<BufferedPush<S>>,
}

/// How a push that waited for a join is made.
#[derive(Debug)]
pub enum FlushStep<S> {
    /// Its caller is gone.
    Skip,
    /// Send this.
    Send {
        /// The request.
        outgoing: Outgoing,
        /// The event.
        event: String,
        /// Where the caller waits.
        caller: S,
    },
    /// It cannot be sent.
    Failed {
        /// Why.
        error: Error,
        /// Where the caller waits.
        caller: S,
    },
}

/// The queue without the pushes of that reference.
pub open spec fn without_push<S>(pushes: Seq<PushView<S>>, reference: Seq<char>) -> Seq<
    PushView<S>,
> {
    pushes.filter(|p: PushView<S>| p.reference != reference)
}

impl<S, B> SocketView<S, B> {
    /// The same socket after a channel was asked to join with a payload.
    pub open spec fn with_join_wanted(self, i: int, payload: JsonView) -> SocketView<S, B> {
        self.with_channel(
            i,
            ChannelView { join_payload: payload, desired_join: true, ..self.channel(i) },
        )
    }

    /// The same socket with another lifecycle state of a channel.
    pub open spec fn with_state(self, i: int, state: ChannelState) -> SocketView<S, B> {
        self.with_channel(i, ChannelView { state, ..self.channel(i) })
    }

    /// The same socket after a push was queued under the next reference.
    pub open spec fn with_queued(
        self,
        i: int,
        event: Seq<char>,
        payload: JsonView,
        sender: S,
    ) -> SocketView<S, B> {
        let push = PushView { reference: self.next_reference(), event, payload, sender };
        self.with_reference_taken().with_channel(
            i,
            ChannelView {
                buffered_pushes: self.channel(i).buffered_pushes.push(push),
                ..self.channel(i)
            },
        )
    }

    /// The same socket without the queued pushes of that reference.
    pub open spec fn with_queue_without(self, i: int, reference: Seq<char>) -> SocketView<S, B> {
        self.with_channel(
            i,
            ChannelView {
                buffered_pushes: without_push(self.channel(i).buffered_pushes, reference),
                ..self.channel(i)
            },
        )
    }

    /// The frame of a push under the next reference: it names the join that is
    /// in force.
    pub open spec fn push_message(
        self,
        handle: HandleView,
        event: Seq<char>,
        payload: JsonView,
    ) -> JsonView {
        message(
            self.channel(handle.id as int).join_ref,
            self.next_reference(),
            handle.topic,
            event,
            payload,
        )
    }

    /// The same socket after a channel was asked to leave.
    pub open spec fn with_join_unwanted(self, i: int) -> SocketView<S, B> {
        self.with_channel(i, ChannelView { desired_join: false, ..self.channel(i) })
    }

    /// The same socket after a channel was joined: its queue is handed out.
    pub open spec fn with_joined(self, i: int, reference: Seq<char>) -> SocketView<S, B> {
        self.with_channel(
            i,
            ChannelView {
                state: ChannelState::Joined,
                join_ref: Some(reference),
                buffered_pushes: Seq::empty(),
                ..self.channel(i)
            },
        )
    }

    /// The same socket after a channel was left: nobody is in charge of its
    /// topic.
    pub open spec fn with_left(self, i: int) -> SocketView<S, B> {
        SocketView {
            registry: self.registry.remove(self.channel(i).topic),
            ..self.with_channel(
                i,
                ChannelView { state: ChannelState::Closed, join_ref: None, ..self.channel(i) },
            )
        }
    }
}

impl Channel {
    /// Topic string.
    pub fn topic(&self) -> (r: &str)
        ensures
            r@ == self@.topic,
    {
        self.topic.as_str()
    }

    /// The number of the channel: handles to one channel have the same, handles
    /// to two channels that exist at one time never do.
    pub fn number(&self) -> (r: usize)
        ensures
            r == self@.id,
    {
        self.id
    }

    /// Current local lifecycle state.
    pub fn state<S, B>(&self, socket: &Socket<S, B>) -> (r: ChannelState)
        requires
            socket@.holds(self@),
        ensures
            r == socket@.channel(self@.id as int).state,
    {
        match &socket.channels[self.id] {
            Some(c) => c.state,
            None => ChannelState::Closed,
        }
    }

    /// Whether the channel is meant to be joined.
    pub fn wants_join<S, B>(&self, socket: &Socket<S, B>) -> (r: bool)
        requires
            socket@.holds(self@),
        ensures
            r == socket@.channel(self@.id as int).desired_join,
    {
        match &socket.channels[self.id] {
            Some(c) => c.desired_join,
            None => false,
        }
    }

    fn join_ref<S, B>(&self, socket: &Socket<S, B>) -> (r: Option<String>)
        requires
            socket@.holds(self@),
        ensures
            option_view(r) == socket@.channel(self@.id as int).join_ref,
    {
        match &socket.channels[self.id] {
            Some(c) => copy_option(&c.join_ref),
            None => None,
        }
    }

    fn set_state<S, B>(&self, socket: &mut Socket<S, B>, state: ChannelState)
        requires
            old(socket).wf(),
            old(socket)@.holds(self@),
        ensures
            final(socket).wf(),
            final(socket)@ == old(socket)@.with_state(self@.id as int, state),
    {
        let ghost start = socket@;
        match &mut socket.channels[self.id] {
            Some(c) => {
                c.state = state;
            },
            None => {},
        }
        assert(socket@ =~= start.with_state(self@.id as int, state));
        proof {
            channel_update_is_valid(start, self@.id as int, socket@.channel(self@.id as int));
        }
    }

    /// Asks for the channel to be joined with this payload, now and after every
    /// reconnect.
    pub fn join<S, B>(&self, socket: &mut Socket<S, B>, payload: Json)
        requires
            old(socket).wf(),
            old(socket)@.holds(self@),
        ensures
            final(socket).wf(),
            final(socket)@ == after(old(socket)@, Operation::Join(self@.id as int, payload@)),
            final(socket)@ == old(socket)@.with_join_wanted(self@.id as int, payload@),
            final(socket)@.holds(self@),
    {
        let ghost start = socket@;
        match &mut socket.channels[self.id] {
            Some(c) => {
                c.join_payload = payload;
                c.desired_join = true;
            },
            None => {},
        }
        assert(socket@ =~= start.with_join_wanted(self@.id as int, payload@));
        proof {
            channel_update_is_valid(start, self@.id as int, socket@.channel(self@.id as int));
        }
    }

    /// Begins to join with the payload that was asked for last.
    pub fn begin_join<S, B>(&self, socket: &mut Socket<S, B>, sender: S) -> (r: JoinStart)
        requires
            old(socket).wf(),
            old(socket)@.holds(self@),
        ensures
            final(socket).wf(),
            final(socket)@ == after(old(socket)@, Operation::BeginJoin(self@.id as int, sender)),
            final(socket)@.holds(self@),
            join_begun(old(socket)@, self@, sender, final(socket)@, r),
    {
        let ghost start = socket@;
        let payload = match &socket.channels[self.id] {
            Some(c) => {
                if c.state == ChannelState::Joined {
                    return JoinStart::Done(Json::object());
                }
                c.join_payload.clone()
            },
            None => Json::Null,
        };
        self.set_state(socket, ChannelState::Joining);
        match socket.begin_request(None, self.topic.as_str(), "phx_join", payload, sender) {
            Ok(o) => JoinStart::Send(o),
            Err(e) => {
                self.set_state(socket, ChannelState::Errored);
                assert(socket@ =~= start.with_state(self@.id as int, ChannelState::Errored));
                JoinStart::Failed(e)
            },
        }
    }

    /// Begins to join again after a reconnect; nothing where the channel is not
    /// meant to be joined any more.
    pub fn begin_rejoin<S, B>(&self, socket: &mut Socket<S, B>, sender: S) -> (r: Option<JoinStart>)
        requires
            old(socket).wf(),
            old(socket)@.holds(self@),
        ensures
            final(socket).wf(),
            final(socket)@.holds(self@),
            ({
                let start = old(socket)@;
                let i = self@.id as int;
                if start.channel(i).desired_join {
                    &&& final(socket)@ == after(start, Operation::BeginJoin(i, sender))
                    &&& (r matches Some(begun) && join_begun(
                        start,
                        self@,
                        sender,
                        final(socket)@,
                        begun,
                    ))
                } else {
                    r is None && final(socket)@ == start
                }
            }),
    {
        if self.wants_join(socket) {
            Some(self.begin_join(socket, sender))
        } else {
            None
        }
    }

    /// Takes the outcome of a join request.
    pub fn finish_join<S, B>(
        &self,
        socket: &mut Socket<S, B>,
        outcome: Result<(String, Json), Error>,
    ) -> (r: Result<JoinedNow<S>, Error>)
        requires
            old(socket).wf(),
            old(socket)@.holds(self@),
        ensures
            final(socket).wf(),
            final(socket)@ == after(
                old(socket)@,
                match outcome {
                    Ok((reference, envelope)) => if accepted(envelope@) {
                        Operation::Joined(self@.id as int, reference@)
                    } else {
                        Operation::NotJoined(self@.id as int)
                    },
                    Err(_) => Operation::NotJoined(self@.id as int),
                },
            ),
            final(socket)@.holds(self@),
            ({
                let start = old(socket)@;
                let i = self@.id as int;
                match outcome {
                    Ok((reference, envelope)) => if accepted(envelope@) {
                        &&& final(socket)@ == start.with_joined(i, reference@)
                        &&& (r matches Ok(joined) && joined.response@ == response(envelope@)
                            && push_views(joined.pushes@) == start.channel(i).buffered_pushes)
                    } else {
                        &&& final(socket)@ == start.with_state(i, ChannelState::Errored)
                        &&& (r matches Err(e) && e.is_channel(
                            rejection(self@.topic, "join"@, envelope@),
                        ))
                    },
                    Err(e) => {
                        &&& final(socket)@ == start.with_state(i, ChannelState::Errored)
                        &&& r == Err::<JoinedNow<S>, Error>(e)
                    },
                }
            }),
    {
        let ghost start = socket@;
        let (reference, envelope) = match outcome {
            Ok(p) => p,
            Err(e) => {
                self.set_state(socket, ChannelState::Errored);
                return Err(e);
            },
        };
        match reply(self.topic.as_str(), "join", &envelope) {
            Ok(response) => {
                let ghost name = reference@;
                let mut pushes: Vec<BufferedPush<S>> = Vec::new();
                match &mut socket.channels[self.id] {
                    Some(c) => {
                        c.join_ref = Some(reference);
                        c.state = ChannelState::Joined;
                        std::mem::swap(&mut c.buffered_pushes, &mut pushes);
                    },
                    None => {},
                }
                assert(push_views(Seq::<BufferedPush<S>>::empty()) =~= Seq::empty());
                assert(socket@ =~= start.with_joined(self@.id as int, name));
                proof {
                    channel_update_is_valid(
                        start,
                        self@.id as int,
                        socket@.channel(self@.id as int),
                    );
                }
                Ok(JoinedNow { response, pushes })
            },
            Err(e) => {
                self.set_state(socket, ChannelState::Errored);
                Err(e)
            },
        }
    }

    fn begin_push<S, B>(
        &self,
        socket: &mut Socket<S, B>,
        event: &str,
        payload: Json,
        sender: S,
    ) -> (r: Result<Outgoing, Error>)
        requires
            old(socket).wf(),
            old(socket)@.holds(self@),
        ensures
            final(socket).wf(),
            if old(socket)@.connected {
                &&& final(socket)@ == old(socket)@.with_request(sender)
                &&& (r matches Ok(o) && o.reference@ == old(socket)@.next_reference() && o.frame@
                    == old(socket)@.push_message(self@, event@, payload@))
            } else {
                &&& final(socket)@ == old(socket)@
                &&& r == Err::<Outgoing, Error>(Error::Closed)
            },
    {
        let join_ref = self.join_ref(socket);
        socket.begin_request(join_ref, self.topic.as_str(), event, payload, sender)
    }

    /// Begins a push. While a channel that is meant to be joined is not, its
    /// pushes wait for the join.
    pub fn push<S, B>(
        &self,
        socket: &mut Socket<S, B>,
        event: &str,
        payload: Json,
        sender: S,
    ) -> (r: PushStart)
        requires
            old(socket).wf(),
            old(socket)@.holds(self@),
        ensures
            final(socket).wf(),
            final(socket)@ == after(
                old(socket)@,
                Operation::Push(self@.id as int, event@, payload@, sender),
            ),
            final(socket)@.holds(self@),
            ({
                let start = old(socket)@;
                let i = self@.id as int;
                if start.channel(i).state == ChannelState::Joined {
                    if start.connected {
                        &&& final(socket)@ == start.with_request(sender)
                        &&& (r matches PushStart::Send(o) && o.reference@ == start.next_reference()
                            && o.frame@ == start.push_message(self@, event@, payload@))
                    } else {
                        &&& final(socket)@ == start
                        &&& r == PushStart::Failed(Error::Closed)
                    }
                } else if start.channel(i).desired_join {
                    &&& final(socket)@ == start.with_queued(i, event@, payload@, sender)
                    &&& (r matches PushStart::Queued(reference) && reference@
                        == start.next_reference())
                } else {
                    &&& final(socket)@ == start
                    &&& (r matches PushStart::Failed(e) && e.is_channel(
                        ChannelErrorView {
                            operation: event@,
                            topic: self@.topic,
                            reason: "channel is not joined"@,
                            payload: None,
                        },
                    ))
                }
            }),
    {
        let ghost start = socket@;
        if self.state(socket) != ChannelState::Joined {
            if !self.wants_join(socket) {
                return PushStart::Failed(
                    channel_error(self.topic.as_str(), event, "channel is not joined"),
                );
            }
            let reference = socket.next_ref();
            let ghost between = socket@;
            let push = BufferedPush {
                reference: reference.clone(),
                event: event.to_owned(),
                payload,
                sender,
            };
            let ghost view = push@;
            let ghost waiting = start.channel(self@.id as int).buffered_pushes;
            match &mut socket.channels[self.id] {
                Some(c) => {
                    c.buffered_pushes.push(push);
                },
                None => {},
            }
            assert(socket@.channel(self@.id as int).buffered_pushes =~= waiting.push(view));
            assert(socket@ =~= start.with_queued(self@.id as int, event@, payload@, sender));
            proof {
                channel_update_is_valid(between, self@.id as int, socket@.channel(self@.id as int));
            }
            return PushStart::Queued(reference);
        }
        match self.begin_push(socket, event, payload, sender) {
            Ok(o) => PushStart::Send(o),
            Err(e) => PushStart::Failed(e),
        }
    }

    /// Takes the outcome of a push request.
    pub fn finish_push(&self, event: &str, outcome: Result<(String, Json), Error>) -> (r: Result<
        Json,
        Error,
    >)
        ensures
            match outcome {
                Ok((_, envelope)) => reply_outcome(self@.topic, event@, envelope@, r),
                Err(e) => r == Err::<Json, Error>(e),
            },
    {
        match outcome {
            Ok((_, envelope)) => reply(self.topic.as_str(), event, &envelope),
            Err(e) => Err(e),
        }
    }

    /// Takes the outcome of a push that waited for the join: one that waited too
    /// long is not made any more.
    pub fn settle_queued<S, B>(
        &self,
        socket: &mut Socket<S, B>,
        reference: &str,
        outcome: QueueOutcome,
    ) -> (r: Result<Json, Error>)
        requires
            old(socket).wf(),
            old(socket)@.holds(self@),
        ensures
            final(socket).wf(),
            outcome is TimedOut ==> final(socket)@ == after(
                old(socket)@,
                Operation::Unqueue(self@.id as int, reference@),
            ),
            final(socket)@.holds(self@),
            match outcome {
                QueueOutcome::Answered(answer) => r == answer && final(socket)@ == old(socket)@,
                QueueOutcome::Dropped => r == Err::<Json, Error>(Error::Closed) && final(socket)@
                    == old(socket)@,
                QueueOutcome::TimedOut => {
                    &&& r == Err::<Json, Error>(Error::Timeout)
                    &&& final(socket)@ == old(socket)@.with_queue_without(
                        self@.id as int,
                        reference@,
                    )
                },
            },
    {
        match outcome {
            QueueOutcome::Answered(answer) => answer,
            QueueOutcome::Dropped => Err(Error::Closed),
            QueueOutcome::TimedOut => {
                let ghost start = socket@;
                match &mut socket.channels[self.id] {
                    Some(c) => {
                        drop_push(&mut c.buffered_pushes, reference);
                    },
                    None => {},
                }
                assert(socket@ =~= start.with_queue_without(self@.id as int, reference@));
                proof {
                    channel_update_is_valid(
                        start,
                        self@.id as int,
                        socket@.channel(self@.id as int),
                    );
                }
                Err(Error::Timeout)
            },
        }
    }

    /// Makes a push that waited for the join, unless its caller is gone.
    pub fn flush_push<S, B>(
        &self,
        socket: &mut Socket<S, B>,
        push: BufferedPush<S>,
        caller_is_gone: bool,
        sender: S,
    ) -> (r: FlushStep<S>)
        requires
            old(socket).wf(),
            old(socket)@.holds(self@),
        ensures
            final(socket).wf(),
            !caller_is_gone ==> final(socket)@ == after(old(socket)@, Operation::Request(sender)),
            final(socket)@.holds(self@),
            if caller_is_gone {
                final(socket)@ == old(socket)@ && r is Skip
            } else if old(socket)@.connected {
                &&& final(socket)@ == old(socket)@.with_request(sender)
                &&& (r matches FlushStep::Send { outgoing, event, caller } && outgoing.reference@
                    == old(socket)@.next_reference() && outgoing.frame@ == old(
                    socket,
                )@.push_message(self@, push@.event, push@.payload) && event@ == push@.event
                    && caller == push@.sender)
            } else {
                &&& final(socket)@ == old(socket)@
                &&& (r matches FlushStep::Failed { error, caller } && error == Error::Closed
                    && caller == push@.sender)
            },
    {
        if caller_is_gone {
            return FlushStep::Skip;
        }
        match self.begin_push(socket, push.event.as_str(), push.payload, sender) {
            Ok(outgoing) => FlushStep::Send { outgoing, event: push.event, caller: push.sender },
            Err(error) => FlushStep::Failed { error, caller: push.sender },
        }
    }

    fn set_left<S, B>(&self, socket: &mut Socket<S, B>)
        requires
            old(socket).wf(),
            old(socket)@.holds(self@),
        ensures
            final(socket).wf(),
            final(socket)@ == old(socket)@.with_left(self@.id as int),
    {
        let ghost start = socket@;
        match &mut socket.channels[self.id] {
            Some(c) => {
                c.join_ref = None;
                c.state = ChannelState::Closed;
            },
            None => {},
        }
        socket.registry.remove(&self.topic);
        assert(socket@ =~= start.with_left(self@.id as int));
        proof {
            let i = self@.id as int;
            channel_update_is_valid(start, i, socket@.channel(i));
            let between = start.with_channel(i, socket@.channel(i));
            assert(between.channels =~= socket@.channels);
            assert forall|t: Seq<char>| #[trigger] socket@.registry.contains_key(t) implies occupied(
                socket@.channels,
                socket@.registry[t] as int,
            ) && socket@.channels[socket@.registry[t] as int]->Some_0.topic == t by {
                assert(between.registry.contains_key(t));
            }
        }
    }

    /// Begins to leave the topic: from now on the channel is not meant to be
    /// joined.
    pub fn leave<S, B>(&self, socket: &mut Socket<S, B>, sender: S) -> (r: LeaveStart)
        requires
            old(socket).wf(),
            old(socket)@.holds(self@),
        ensures
            final(socket).wf(),
            final(socket)@ == after(old(socket)@, Operation::Leave(self@.id as int, sender)),
            final(socket)@.holds(self@),
            ({
                let i = self@.id as int;
                let start = old(socket)@.with_join_unwanted(i);
                if start.channel(i).state == ChannelState::Closed {
                    final(socket)@ == start && r is Done
                } else if !start.connected {
                    final(socket)@ == start.with_left(i) && r is Done
                } else {
                    &&& final(socket)@ == start.with_state(i, ChannelState::Leaving).with_request(
                        sender,
                    )
                    &&& (r matches LeaveStart::Send(o) && o.reference@ == start.next_reference()
                        && o.frame@ == start.push_message(self@, "phx_leave"@, empty_object()))
                }
            }),
    {
        let ghost first = socket@;
        match &mut socket.channels[self.id] {
            Some(c) => {
                c.desired_join = false;
            },
            None => {},
        }
        let ghost start = socket@;
        assert(start =~= first.with_join_unwanted(self@.id as int));
        proof {
            channel_update_is_valid(first, self@.id as int, start.channel(self@.id as int));
        }
        if self.state(socket) == ChannelState::Closed {
            return LeaveStart::Done;
        }
        self.set_state(socket, ChannelState::Leaving);
        match self.begin_push(socket, "phx_leave", Json::object(), sender) {
            Ok(o) => LeaveStart::Send(o),
            Err(_) => {
                self.set_left(socket);
                assert(socket@ =~= start.with_left(self@.id as int));
                LeaveStart::Done
            },
        }
    }

    /// Takes the outcome of a leave request: whatever it is, the channel is
    /// closed. A timed-out leave is treated as successful because the server
    /// tears down the subscription regardless.
    pub fn finish_leave<S, B>(
        &self,
        socket: &mut Socket<S, B>,
        outcome: Result<(String, Json), Error>,
    ) -> (r: Result<(), Error>)
        requires
            old(socket).wf(),
            old(socket)@.holds(self@),
        ensures
            final(socket).wf(),
            final(socket)@ == after(old(socket)@, Operation::Left(self@.id as int)),
            final(socket)@.holds(self@),
            final(socket)@ == old(socket)@.with_left(self@.id as int),
            match outcome {
                Ok(_) => r is Ok,
                Err(Error::Timeout) => r is Ok,
                Err(Error::Closed) => r is Ok,
                Err(e) => r == Err::<(), Error>(e),
            },
    {
        self.set_left(socket);
        match outcome {
            Ok(_) => Ok(()),
            Err(Error::Timeout) => Ok(()),
            Err(Error::Closed) => Ok(()),
            Err(e) => Err(e),
        }
    }

    /// Begins to listen to an event of the channel's topic.
    pub fn subscribe<S, B>(&self, socket: &mut Socket<S, B>, event: &str, fresh: B) -> (r: Vec<
        Json,
    >)
        requires
            old(socket).wf(),
        ensures
            final(socket).wf(),
            final(socket)@ == after(
                old(socket)@,
                Operation::Subscribe((self@.topic, event@), fresh),
            ),
            final(socket)@ == old(socket)@.with_listener((self@.topic, event@), fresh),
            json_views(r@) == old(socket)@.kept((self@.topic, event@)),
    {
        socket.subscribe(
            EventKey { topic: self.topic.clone(), event: event.to_owned() },
            fresh,
        )
    }
}

fn drop_push<S>(pushes: &mut Vec<BufferedPush<S>>, reference: &str)
    ensures
        push_views(final(pushes)@) == without_push(push_views(old(pushes)@), reference@),
{
    let ghost all = push_views(pushes@);
    let ghost keep = |p: PushView<S>| p.reference != reference@;
    let ghost mut done: int = 0;
    let mut i: usize = 0;
    proof {
        reveal(Seq::filter);
        assert(all.take(0).filter(keep) =~= push_views(pushes@).take(0));
        assert(all.skip(0) =~= all);
        assert(push_views(pushes@).skip(0) =~= all);
    }
    while i < pushes.len()
        invariant
            i <= pushes@.len(),
            0 <= done <= all.len(),
            keep == (|p: PushView<S>| p.reference != reference@),
            push_views(pushes@).take(i as int) == all.take(done).filter(keep),
            push_views(pushes@).skip(i as int) == all.skip(done),
        decreases pushes.len() - i,
    {
        let ghost before = push_views(pushes@);
        proof {
            reveal(Seq::filter);
            assert(before.skip(i as int).len() == all.skip(done).len());
            assert(before.skip(i as int)[0] == all.skip(done)[0]);
            assert(before[i as int] == all[done]);
            assert(all.take(done + 1).drop_last() =~= all.take(done));
            assert(all.take(done + 1).last() == all[done]);
            assert(before.skip(i + 1) =~= before.skip(i as int).skip(1));
            assert(all.skip(done + 1) =~= all.skip(done).skip(1));
            assert(before.take(i + 1) =~= before.take(i as int).push(before[i as int]));
        }
        if same(pushes[i].reference.as_str(), reference) {
            pushes.remove(i);
            proof {
                let after = push_views(pushes@);
                assert(after =~= before.remove(i as int));
                assert(after.take(i as int) =~= before.take(i as int));
                assert(after.skip(i as int) =~= before.skip(i + 1));
            }
        } else {
            i += 1;
        }
        proof {
            done = done + 1;
        }
    }
    proof {
        assert(push_views(pushes@).skip(i as int).len() == 0);
        assert(all.take(all.len() as int) =~= all);
        assert(push_views(pushes@).take(i as int) =~= push_views(pushes@));
    }
}

} // verus!
