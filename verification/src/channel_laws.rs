//! What a socket and its channels promise over several operations.
use vstd::prelude::*;
use crate::builder::SocketConfig;
use crate::channel::{
    capped_push, first_free, next_number, occupied, ChannelView, HandleView, PushView, ReceivedView,
    ReconnectEvent, SocketView, BUFFER_CAPACITY,
};
use crate::json::JsonView;
use crate::phoenix::{frame_parts, message, ChannelState, FrameView};
use crate::text::{decimal, decimal_injective, decimal_length};

verus! {

/// What can happen to a socket. Every operation of a socket or a channel changes
/// the socket as one of these does, or not at all, and says so.
pub enum Operation<S, B> {
    /// `Socket::close`.
    Close,
    /// `Socket::channel`, with the topic.
    Channel(Seq<char>),
    /// `Socket::retain`, with the number of the channel.
    Retain(int),
    /// `Socket::release`, with the number of the channel.
    Release(int),
    /// `Socket::begin_request`, `Socket::heartbeat` or `Channel::flush_push`.
    Request(S),
    /// `Socket::settle_request` for a request without an answer.
    GiveUp(Seq<char>),
    /// `Socket::subscribe` or `Channel::subscribe`.
    Subscribe((Seq<char>, Seq<char>), B),
    /// `Socket::receive_document`, `Socket::receive` or `Socket::read`.
    Receive(JsonView),
    /// `Socket::disconnect`.
    Disconnect,
    /// `Socket::begin_reconnect`.
    BeginReconnect,
    /// `Socket::reconnect`.
    Reconnect(ReconnectEvent),
    /// `Socket::rejoin_channels`.
    RejoinChannels,
    /// `Channel::join`.
    Join(int, JsonView),
    /// `Channel::begin_join` or `Channel::begin_rejoin`.
    BeginJoin(int, S),
    /// `Channel::finish_join` with the reference of an accepted join.
    Joined(int, Seq<char>),
    /// `Channel::finish_join` of a join that failed.
    NotJoined(int),
    /// `Channel::push`.
    Push(int, Seq<char>, JsonView, S),
    /// `Channel::settle_queued` for a push that waited too long.
    Unqueue(int, Seq<char>),
    /// `Channel::leave`.
    Leave(int, S),
    /// `Channel::finish_leave`.
    Left(int),
}

impl<S, B> Operation<S, B> {
    /// The number of the channel that the operation is about.
    pub open spec fn number(self) -> Option<int> {
        match self {
            Operation::Retain(i) => Some(i),
            Operation::Release(i) => Some(i),
            Operation::Join(i, _) => Some(i),
            Operation::BeginJoin(i, _) => Some(i),
            Operation::Joined(i, _) => Some(i),
            Operation::NotJoined(i) => Some(i),
            Operation::Push(i, _, _, _) => Some(i),
            Operation::Unqueue(i, _) => Some(i),
            Operation::Leave(i, _) => Some(i),
            Operation::Left(i) => Some(i),
            _ => None,
        }
    }
}

/// A socket after a request, which there is none of without a transport.
pub open spec fn after_request<S, B>(socket: SocketView<S, B>, sender: S) -> SocketView<S, B> {
    if socket.connected {
        socket.with_request(sender)
    } else {
        socket
    }
}

/// A socket after an operation. One on a channel that is not there changes
/// nothing.
pub open spec fn after<S, B>(socket: SocketView<S, B>, op: Operation<S, B>) -> SocketView<S, B> {
    if op.number() is Some && !socket.has_channel(op.number().unwrap()) {
        socket
    } else {
        match op {
            Operation::Close => SocketView { closing: true, connected: false, ..socket },
            Operation::Channel(topic) => socket.with_handle(topic),
            Operation::Retain(i) => socket.with_handle_added(i),
            Operation::Release(i) => socket.with_handle_dropped(i),
            Operation::Request(sender) => after_request(socket, sender),
            Operation::GiveUp(reference) => socket.without_request(reference),
            Operation::Subscribe(key, fresh) => socket.with_listener(key, fresh),
            Operation::Receive(document) => socket.with_document(document).0,
            Operation::Disconnect => if socket.connected {
                socket.disconnected()
            } else {
                socket
            },
            Operation::BeginReconnect => SocketView {
                reconnecting: socket.reconnecting || socket.may_reconnect(),
                ..socket
            },
            Operation::Reconnect(event) => socket.with_reconnect(event),
            Operation::RejoinChannels => socket.with_rejoining_retained(),
            Operation::Join(i, payload) => socket.with_join_wanted(i, payload),
            Operation::BeginJoin(i, sender) => if socket.channel(i).state == ChannelState::Joined {
                socket
            } else if socket.connected {
                socket.with_state(i, ChannelState::Joining).with_request(sender)
            } else {
                socket.with_state(i, ChannelState::Errored)
            },
            Operation::Joined(i, reference) => socket.with_joined(i, reference),
            Operation::NotJoined(i) => socket.with_state(i, ChannelState::Errored),
            Operation::Push(i, event, payload, sender) => if socket.channel(i).state
                == ChannelState::Joined {
                after_request(socket, sender)
            } else if socket.channel(i).desired_join {
                socket.with_queued(i, event, payload, sender)
            } else {
                socket
            },
            Operation::Unqueue(i, reference) => socket.with_queue_without(i, reference),
            Operation::Leave(i, sender) => {
                let unwanted = socket.with_join_unwanted(i);
                if socket.channel(i).state == ChannelState::Closed {
                    unwanted
                } else if socket.connected {
                    unwanted.with_state(i, ChannelState::Leaving).with_request(sender)
                } else {
                    unwanted.with_left(i)
                }
            },
            Operation::Left(i) => socket.with_left(i),
        }
    }
}

/// A socket after a row of operations.
pub open spec fn run<S, B>(socket: SocketView<S, B>, ops: Seq<Operation<S, B>>) -> SocketView<S, B>
    decreases ops.len(),
{
    if ops.len() == 0 {
        socket
    } else {
        run(after(socket, ops[0]), ops.drop_first())
    }
}

/// A socket after a row of operations on a freshly opened one.
pub open spec fn reached<S, B>(config: SocketConfig, ops: Seq<Operation<S, B>>) -> SocketView<
    S,
    B,
> {
    run(SocketView::<S, B>::opened(config), ops)
}

/// Once a socket was closed, nothing that happens to it opens it again: it stays
/// closed and without a transport, no reconnect begins, and a transport that
/// opens late is not used, so that no channel is rejoined.
pub proof fn law_a_closed_socket_stays_closed<S, B>(
    socket: SocketView<S, B>,
    ops: Seq<Operation<S, B>>,
    event: ReconnectEvent,
)
    requires
        socket.closing,
        !socket.connected,
    ensures
        ({
            let end = run(socket, ops);
            &&& end.closing
            &&& !end.connected
            &&& !end.may_reconnect()
            &&& !end.opens_on(event)
        }),
    decreases ops.len(),
{
    if ops.len() > 0 {
        law_a_closed_socket_stays_closed(after(socket, ops[0]), ops.drop_first(), event);
    }
}

/// Closing a socket twice is closing it once.
pub proof fn law_closing_again_changes_nothing<S, B>(socket: SocketView<S, B>)
    ensures
        after(after(socket, Operation::Close), Operation::Close) == after(
            socket,
            Operation::Close,
        ),
{
}

/// An operation takes at most one reference, and nothing but the request under
/// that reference begins to wait.
pub proof fn one_reference_at_a_time<S, B>(
    socket: SocketView<S, B>,
    op: Operation<S, B>,
    key: Seq<char>,
)
    ensures
        ({
            let end = after(socket, op);
            &&& end.refs == socket.refs || end.refs == next_number(socket.refs)
            &&& end.pending.contains_key(key) ==> socket.pending.contains_key(key) || (key
                == socket.next_reference() && end.refs == next_number(socket.refs))
        }),
{
}

/// How far the count of references is past a number.
spec fn distance(refs: u64, number: u64) -> int {
    if refs >= number {
        refs - number
    } else {
        refs - number + 0x1_0000_0000_0000_0000
    }
}

proof fn a_request_that_is_gone_stays_gone<S, B>(
    socket: SocketView<S, B>,
    number: u64,
    ops: Seq<Operation<S, B>>,
)
    requires
        !socket.pending.contains_key(decimal(number as nat)),
        distance(socket.refs, number) + ops.len() < 0x1_0000_0000_0000_0000,
    ensures
        !run(socket, ops).pending.contains_key(decimal(number as nat)),
    decreases ops.len(),
{
    if ops.len() > 0 {
        let key = decimal(number as nat);
        let next = after(socket, ops[0]);
        one_reference_at_a_time(socket, ops[0], key);
        if next.pending.contains_key(key) {
            decimal_injective(number as nat, next_number(socket.refs) as nat);
        }
        a_request_that_is_gone_stays_gone(next, number, ops.drop_first());
    }
}

proof fn references_are_counted<S, B>(
    socket: SocketView<S, B>,
    number: u64,
    ops: Seq<Operation<S, B>>,
)
    requires
        distance(socket.refs, number) + ops.len() < 0x1_0000_0000_0000_0000,
    ensures
        distance(run(socket, ops).refs, number) <= distance(socket.refs, number) + ops.len(),
    decreases ops.len(),
{
    if ops.len() > 0 {
        one_reference_at_a_time(socket, ops[0], Seq::empty());
        references_are_counted(after(socket, ops[0]), number, ops.drop_first());
    }
}

/// Whether an operation ends a request: a reply to it comes, the transport is
/// lost, or it is given up because it was not sent or not answered in time.
/// These are the only ways in which whoever waits for it is told.
pub open spec fn ends_request<S, B>(
    socket: SocketView<S, B>,
    op: Operation<S, B>,
    reference: Seq<char>,
) -> bool {
    match op {
        Operation::Receive(document) => match frame_parts(document) {
            Some(frame) => frame.event == "phx_reply"@ && frame.reference == reference,
            None => false,
        },
        Operation::Disconnect => socket.connected,
        Operation::GiveUp(given_up) => given_up == reference,
        _ => false,
    }
}

/// Whatever ends a request, and whatever happened before and happens after, once
/// it has ended nothing waits under its reference. The operations are fewer
/// than there are references.
pub proof fn law_an_ended_request_is_not_pending<S, B>(
    socket: SocketView<S, B>,
    sender: S,
    before: Seq<Operation<S, B>>,
    end: Operation<S, B>,
    later: Seq<Operation<S, B>>,
)
    requires
        ends_request(
            run(socket.with_request(sender), before),
            end,
            socket.next_reference(),
        ),
        before.len() + later.len() + 1 < 0x1_0000_0000_0000_0000,
    ensures
        ({
            let ended = after(run(socket.with_request(sender), before), end);
            !run(ended, later).pending.contains_key(socket.next_reference())
        }),
{
    let number = next_number(socket.refs);
    let middle = run(socket.with_request(sender), before);
    let ended = after(middle, end);
    decimal_length(number as nat);
    references_are_counted(socket.with_request(sender), number, before);
    one_reference_at_a_time(middle, end, Seq::empty());
    assert(!ended.pending.contains_key(decimal(number as nat)));
    a_request_that_is_gone_stays_gone(ended, number, later);
}

/// The reference that is handed out `k` references after number `refs`.
pub open spec fn reference_after(refs: u64, k: nat) -> Seq<char> {
    decimal(((refs + k) % 0x1_0000_0000_0000_0000) as nat)
}

/// References count up, and no two among as many as there are numbers are the
/// same.
pub proof fn law_references_are_distinct<S, B>(socket: SocketView<S, B>, j: nat, k: nat)
    requires
        j < k,
        k - j < 0x1_0000_0000_0000_0000,
    ensures
        socket.next_reference() == reference_after(socket.refs, 1),
        reference_after(next_number(socket.refs), j) == reference_after(socket.refs, j + 1),
        reference_after(socket.refs, j) != reference_after(socket.refs, k),
{
    let wrap = 0x1_0000_0000_0000_0000int;
    let a = (socket.refs + j) % wrap;
    let b = (socket.refs + k) % wrap;
    assert(a != b) by (nonlinear_arith)
        requires
            a == (socket.refs + j) % wrap,
            b == (socket.refs + k) % wrap,
            wrap == 0x1_0000_0000_0000_0000int,
            0 < k - j < wrap,
    ;
    assert((next_number(socket.refs) + j) % wrap == (socket.refs + j + 1) % wrap);
    if reference_after(socket.refs, j) == reference_after(socket.refs, k) {
        decimal_injective(a as nat, b as nat);
    }
}

/// A reply reaches the one who made the request, and only once.
pub proof fn law_request_is_answered_once<S, B>(
    socket: SocketView<S, B>,
    sender: S,
    frame: FrameView,
)
    requires
        frame.event == "phx_reply"@,
        frame.reference == socket.next_reference(),
    ensures
        ({
            let sent = socket.with_request(sender);
            let (answered, first) = sent.with_parts(frame);
            &&& first == (ReceivedView::<S>::Reply { sender, payload: frame.payload })
            &&& answered == sent.without_request(frame.reference)
            &&& answered.with_parts(frame) == (answered, ReceivedView::<S>::Ignored)
        }),
{
    decimal_length(next_number(socket.refs) as nat);
}

/// Whether a reference is among the first `refs`.
pub open spec fn handed_out(reference: Seq<char>, refs: u64) -> bool {
    exists|m: u64| 1 <= m <= refs && reference == #[trigger] decimal(m as nat)
}

/// The reference that comes next was not handed out before.
pub proof fn the_next_is_not_handed_out(reference: Seq<char>, refs: u64)
    requires
        handed_out(reference, refs),
    ensures
        reference != decimal(next_number(refs) as nat),
{
    let m = choose|m: u64| 1 <= m <= refs && reference == #[trigger] decimal(m as nat);
    if reference == decimal(next_number(refs) as nat) {
        decimal_injective(m as nat, next_number(refs) as nat);
    }
}

/// What was handed out stays handed out.
pub proof fn more_are_handed_out(reference: Seq<char>, refs: u64, more: u64)
    requires
        handed_out(reference, refs),
        refs <= more,
    ensures
        handed_out(reference, more),
{
    let m = choose|m: u64| 1 <= m <= refs && reference == #[trigger] decimal(m as nat);
    assert(1 <= m <= more && reference == decimal(m as nat));
}

spec fn pending_handed_out<S, B>(socket: SocketView<S, B>) -> bool {
    forall|key: Seq<char>| #[trigger]
        socket.pending.contains_key(key) ==> handed_out(key, socket.refs)
}

proof fn requests_were_handed_out<S, B>(socket: SocketView<S, B>, ops: Seq<Operation<S, B>>)
    requires
        socket.refs + ops.len() <= u64::MAX,
        pending_handed_out(socket),
    ensures
        pending_handed_out(run(socket, ops)),
    decreases ops.len(),
{
    if ops.len() > 0 {
        let next = after(socket, ops[0]);
        one_reference_at_a_time(socket, ops[0], Seq::empty());
        assert forall|key: Seq<char>| #[trigger] next.pending.contains_key(key) implies handed_out(
            key,
            next.refs,
        ) by {
            one_reference_at_a_time(socket, ops[0], key);
            if socket.pending.contains_key(key) {
                more_are_handed_out(key, socket.refs, next.refs);
            } else {
                assert(key == decimal(next.refs as nat));
            }
        }
        requests_were_handed_out(next, ops.drop_first());
    }
}

/// No request waits under the reference that comes next.
pub proof fn law_the_next_reference_is_free<S, B>(config: SocketConfig, ops: Seq<Operation<S, B>>)
    requires
        ops.len() < 0x1_0000_0000_0000_0000,
    ensures
        !reached(config, ops).pending.contains_key(reached(config, ops).next_reference()),
{
    let end = reached(config, ops);
    requests_were_handed_out(SocketView::<S, B>::opened(config), ops);
    if end.pending.contains_key(end.next_reference()) {
        the_next_is_not_handed_out(end.next_reference(), end.refs);
    }
}

/// A request that timed out leaves nothing behind but that a reference was taken
/// for it, and a late reply is ignored.
pub proof fn law_timed_out_request_leaves_nothing<S, B>(
    config: SocketConfig,
    ops: Seq<Operation<S, B>>,
    sender: S,
    frame: FrameView,
)
    requires
        ops.len() < 0x1_0000_0000_0000_0000,
        frame.event == "phx_reply"@,
        frame.reference == reached(config, ops).next_reference(),
    ensures
        ({
            let socket = reached(config, ops);
            let given_up = socket.with_request(sender).without_request(socket.next_reference());
            &&& given_up == socket.with_reference_taken()
            &&& given_up.with_parts(frame) == (given_up, ReceivedView::<S>::Ignored)
        }),
{
    let socket = reached(config, ops);
    law_the_next_reference_is_free(config, ops);
    decimal_length(next_number(socket.refs) as nat);
    let given_up = socket.with_request(sender).without_request(socket.next_reference());
    assert(given_up.pending =~= socket.pending);
}

/// Frames of a join that is no longer in force change nothing.
pub proof fn law_stale_frames_change_nothing<S, B>(
    socket: SocketView<S, B>,
    frame: FrameView,
)
    requires
        socket.registry.contains_key(frame.topic),
        frame.event != "phx_reply"@,
        frame.join_ref is Some,
        frame.join_ref != socket.channel(socket.registry[frame.topic] as int).join_ref,
    ensures
        socket.with_parts(frame) == (socket, ReceivedView::<S>::Ignored),
{
}

/// What is kept of a row of events that nobody listened to.
pub open spec fn kept_of<T>(row: Seq<T>) -> Seq<T>
    decreases row.len(),
{
    if row.len() == 0 {
        Seq::empty()
    } else {
        capped_push(kept_of(row.drop_last()), row.last())
    }
}

/// Of the events that nobody listened to, the latest are kept, as many as there
/// is room for, in the order in which they came.
pub proof fn law_the_latest_events_are_kept<T>(row: Seq<T>)
    ensures
        kept_of(row) == if row.len() <= BUFFER_CAPACITY {
            row
        } else {
            row.skip(row.len() - BUFFER_CAPACITY)
        },
    decreases row.len(),
{
    if row.len() > 0 {
        let front = row.drop_last();
        law_the_latest_events_are_kept(front);
        if row.len() <= BUFFER_CAPACITY {
            assert(kept_of(row) =~= row);
        } else {
            assert(kept_of(row) =~= row.skip(row.len() - BUFFER_CAPACITY));
        }
    } else {
        assert(kept_of(row) =~= row);
    }
}

/// An event that nobody listened to is the last that the first listener gets;
/// from then on events go to the listeners, and nothing is kept.
pub proof fn law_the_first_listener_gets_what_was_kept<S, B>(
    socket: SocketView<S, B>,
    key: (Seq<char>, Seq<char>),
    payload: JsonView,
    later: JsonView,
    fresh: B,
)
    requires
        !socket.events.contains_key(key),
    ensures
        ({
            let waiting = socket.with_event(key, payload).0;
            let listened = waiting.with_listener(key, fresh);
            &&& waiting.kept(key) == capped_push(socket.kept(key), payload)
            &&& waiting.kept(key).last() == payload
            &&& listened.kept(key).len() == 0
            &&& listened.with_event(key, later) == (
                listened,
                ReceivedView::<S>::Event { key, payload: later },
            )
        }),
{
}

/// A lost transport leaves nobody waiting and no channel joined, but what each
/// channel is meant to be, and the pushes that wait for it, stay.
pub proof fn law_a_lost_transport_keeps_what_is_wanted<S, B>(socket: SocketView<S, B>, i: int)
    requires
        socket.valid(),
        socket.registered(i),
    ensures
        ({
            let lost = socket.disconnected();
            &&& lost.valid()
            &&& lost.pending.dom().is_empty()
            &&& lost.registered(i)
            &&& lost.channel(i).state != ChannelState::Joined
            &&& lost.channel(i).state != ChannelState::Joining
            &&& lost.channel(i).desired_join == socket.channel(i).desired_join
            &&& lost.channel(i).join_payload == socket.channel(i).join_payload
            &&& lost.channel(i).buffered_pushes == socket.channel(i).buffered_pushes
        }),
{
    let lost = socket.disconnected();
    assert(lost.channels[i] is Some);
    assert forall|j: int| #[trigger] occupied(
        lost.channels,
        j,
    ) implies lost.channels[j]->Some_0.handles > 0 by {
        assert(occupied(socket.channels, j));
    }
    assert forall|topic: Seq<char>| #[trigger] lost.registry.contains_key(topic) implies occupied(
        lost.channels,
        lost.registry[topic] as int,
    ) && lost.channels[lost.registry[topic] as int]->Some_0.topic == topic by {
        assert(occupied(socket.channels, socket.registry[topic] as int));
    }
}

/// The numbers of the channels to rejoin are those of the channels that are in
/// charge of their topics and meant to be joined, each once.
pub proof fn law_rejoining_channels_are_all<S, B>(socket: SocketView<S, B>, n: nat)
    ensures
        forall|i: int|
            #![trigger socket.rejoining_below(n).contains(i)]
            socket.rejoining_below(n).contains(i) == (0 <= i < n && socket.rejoins(i)),
        forall|j: int, k: int|
            0 <= j < k < socket.rejoining_below(n).len() ==> socket.rejoining_below(n)[j]
                < socket.rejoining_below(n)[k],
    decreases n,
{
    if n > 0 {
        let m = (n - 1) as nat;
        law_rejoining_channels_are_all(socket, m);
        let front = socket.rejoining_below(m);
        let all = socket.rejoining_below(n);
        assert forall|k: int| 0 <= k < front.len() implies 0 <= #[trigger] front[k] < m by {
            assert(front.contains(front[k]));
        }
        assert forall|i: int| #![trigger all.contains(i)]
            all.contains(i) == (0 <= i < n && socket.rejoins(i)) by {
            if all.contains(i) {
                let k = choose|k: int| 0 <= k < all.len() && all[k] == i;
                if k < front.len() {
                    assert(front.contains(i));
                }
            }
            if 0 <= i < n && socket.rejoins(i) {
                if i < m {
                    assert(front.contains(i));
                    let k = choose|k: int| 0 <= k < front.len() && front[k] == i;
                    assert(all[k] == i);
                } else {
                    assert(all.last() == i);
                }
            }
        }
    }
}

/// The channels to rejoin once a lost transport was replaced are those that were
/// in charge of their topics and meant to be joined when it was lost, and no
/// other. Each joins with what it was asked to join with.
pub proof fn law_exactly_the_wanted_channels_are_rejoined<S, B>(socket: SocketView<S, B>, i: int)
    requires
        socket.valid(),
    ensures
        ({
            let back = SocketView {
                connected: true,
                reconnecting: false,
                ..socket.disconnected()
            };
            let wanted = socket.registered(i) && socket.channel(i).desired_join;
            &&& back.rejoining_below(back.channels.len()).contains(i) == wanted
            &&& wanted ==> back.channel(i).state != ChannelState::Joined
            &&& wanted ==> back.channel(i).join_payload == socket.channel(i).join_payload
        }),
{
    let back = SocketView { connected: true, reconnecting: false, ..socket.disconnected() };
    law_rejoining_channels_are_all(back, back.channels.len());
    if socket.registered(i) {
        law_a_lost_transport_keeps_what_is_wanted(socket, i);
        assert(back.registered(i));
    }
    if back.registered(i) {
        assert(occupied(socket.channels, i));
    }
}

/// Once a channel was joined again, its pushes name the new join, and frames of
/// the earlier one are out of date.
pub proof fn law_a_new_join_replaces_the_earlier<S, B>(
    socket: SocketView<S, B>,
    handle: HandleView,
    earlier: Seq<char>,
    current: Seq<char>,
    event: Seq<char>,
    payload: JsonView,
)
    requires
        socket.holds(handle),
        socket.registered(handle.id as int),
        earlier != current,
    ensures
        ({
            let again = socket.with_joined(handle.id as int, current);
            &&& again.push_message(handle, event, payload) == message(
                Some(current),
                socket.next_reference(),
                handle.topic,
                event,
                payload,
            )
            &&& again.is_stale(handle.topic, Some(earlier))
            &&& !again.is_stale(handle.topic, Some(current))
            &&& !again.is_stale(handle.topic, None)
        }),
{
}

/// While one reconnect is under way, no other begins.
pub proof fn law_one_reconnect_at_a_time<S, B>(socket: SocketView<S, B>)
    requires
        socket.may_reconnect(),
    ensures
        !(SocketView { reconnecting: true, ..socket }).may_reconnect(),
{
}

/// All handles for a topic refer to one channel.
pub proof fn law_a_topic_has_one_channel<S, B>(socket: SocketView<S, B>, topic: Seq<char>)
    requires
        socket.valid(),
        socket.channels.len() <= usize::MAX,
    ensures
        socket.with_handle(topic).number_for(topic) == socket.number_for(topic),
{
    first_free_is_free(socket.channels, 0);
    if socket.registry.contains_key(topic) {
        assert(occupied(socket.channels, socket.registry[topic] as int));
    }
}

/// The first free number has no channel.
pub proof fn first_free_is_free<S>(channels: Seq<Option<ChannelView<S>>>, from: int)
    requires
        0 <= from <= channels.len(),
    ensures
        from <= first_free(channels, from) <= channels.len(),
        !occupied(channels, first_free(channels, from)),
    decreases channels.len() - from,
{
    if from < channels.len() && channels[from] is Some {
        first_free_is_free(channels, from + 1);
    }
}

/// Once a topic was left, nothing that the server says of it touches a channel,
/// and whoever asks for it again gets a fresh one.
pub proof fn law_a_left_topic_is_forgotten<S, B>(
    socket: SocketView<S, B>,
    i: int,
    event: Seq<char>,
)
    requires
        socket.valid(),
        socket.has_channel(i),
        socket.channels.len() <= usize::MAX,
    ensures
        ({
            let topic = socket.channel(i).topic;
            let left = socket.with_left(i);
            let again = left.with_handle(topic);
            &&& !left.registered(i)
            &&& left.with_lifecycle(topic, event) == left
            &&& left.channel(i).state == ChannelState::Closed
            &&& again.channel(left.number_for(topic)) == ChannelView::<S>::fresh(topic)
            &&& left.number_for(topic) != i
        }),
{
    let left = socket.with_left(i);
    first_free_is_free(left.channels, 0);
    assert(occupied(left.channels, i));
}

/// Pushes that wait for a join are handed out in the order in which they came,
/// also where the transport was lost in between.
pub proof fn law_queued_pushes_keep_their_order<S, B>(
    socket: SocketView<S, B>,
    i: int,
    event: Seq<char>,
    payload: JsonView,
    sender: S,
)
    requires
        socket.valid(),
        socket.registered(i),
    ensures
        ({
            let queued = socket.with_queued(i, event, payload, sender);
            let push = PushView { reference: socket.next_reference(), event, payload, sender };
            &&& queued.channel(i).buffered_pushes == socket.channel(i).buffered_pushes.push(push)
            &&& queued.disconnected().channel(i).buffered_pushes
                == queued.channel(i).buffered_pushes
        }),
{
    let queued = socket.with_queued(i, event, payload, sender);
    assert(queued.channels[i] is Some);
    assert(queued.registered(i));
}

/// A channel that left is not rejoined after a reconnect.
pub proof fn law_a_left_channel_is_not_rejoined<S, B>(socket: SocketView<S, B>, i: int)
    requires
        socket.valid(),
        socket.has_channel(i),
    ensures
        ({
            let left = socket.with_join_unwanted(i).with_left(i);
            &&& !left.channel(i).desired_join
            &&& !left.rejoining_below(left.channels.len()).contains(i)
        }),
{
    let left = socket.with_join_unwanted(i).with_left(i);
    law_rejoining_channels_are_all(left, left.channels.len());
}

} // verus!
