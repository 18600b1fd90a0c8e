//! What a socket does with its transport, its requests and what the server
//! sends, from one call to the next.
use std::time::Duration;
use vstd::prelude::*;
use crate::builder::SocketConfig;
use crate::channel::{
    heartbeat_lost, occupied, HeartbeatStep, ReadStep, Received, ReceivedView, ReconnectAction,
    ReconnectEvent, RequestOutcome, Socket, SocketView, Wire,
};
use crate::error::Error;
use crate::json::{json_views, parse_text, Json, JsonView};
use crate::phoenix::{event_views, frame_parts, ChannelState, FrameView, Outgoing, SocketEventView};
use crate::table::{entry_map, EventKey};
use crate::text::{decimal, option_view};

verus! {

/// A socket is made as it was configured, with an open transport, and replaces a
/// lost one exactly where it was asked to.
pub proof fn law_a_socket_is_made_as_configured<S, B>(
    config: SocketConfig,
    socket: &Socket<S, B>,
    url: &str,
    timeout: Duration,
    heartbeat: Duration,
    connected: bool,
    later: &mut Socket<S, B>,
    reconnects: bool,
)
    requires
        call_ensures(Socket::<S, B>::new, (config,), *socket),
        call_ensures(Socket::<S, B>::connect_url, (socket,), url),
        call_ensures(Socket::<S, B>::timeout, (socket,), timeout),
        call_ensures(Socket::<S, B>::heartbeat_interval, (socket,), heartbeat),
        call_ensures(Socket::<S, B>::is_connected, (socket,), connected),
        *old(later) == *socket,
        call_ensures(Socket::<S, B>::begin_reconnect, (later,), reconnects),
    ensures
        url@ == config.url@,
        timeout == config.timeout,
        heartbeat == config.heartbeat,
        connected,
        reconnects == config.auto_reconnect,
        socket@.reconnect_backoff == config.reconnect_backoff@,
        socket@.pending.dom().is_empty(),
        socket@.events.dom().is_empty(),
        socket@.buffered.dom().is_empty(),
        socket@.registry.dom().is_empty(),
        socket@.channels.len() == 0,
        !socket@.closing,
        !socket@.reconnecting,
{
}

/// A lost transport is replaced after every loss, not only the first: once a
/// reconnect came to its end with an open transport, the socket is connected,
/// and when that transport is lost too, a reconnect begins again.
pub proof fn law_every_lost_transport_is_replaced<S, B>(
    opening: &mut Socket<S, B>,
    attempt: &mut usize,
    action: ReconnectAction,
    open: &Socket<S, B>,
    connected: bool,
    losing: &mut Socket<S, B>,
    waiting: Option<Vec<(String, S)>>,
    again: &mut Socket<S, B>,
    reconnects: bool,
)
    requires
        old(opening)@.auto_reconnect,
        !old(opening)@.closing,
        call_ensures(
            Socket::<S, B>::reconnect,
            (opening, attempt, ReconnectEvent::Connected),
            action,
        ),
        open@ == final(opening)@,
        call_ensures(Socket::<S, B>::is_connected, (open,), connected),
        old(losing)@ == open@,
        call_ensures(Socket::<S, B>::disconnect, (losing,), waiting),
        old(again)@ == final(losing)@,
        call_ensures(Socket::<S, B>::begin_reconnect, (again,), reconnects),
    ensures
        action matches ReconnectAction::Rejoin(event) && event@ == SocketEventView::Open,
        connected,
        waiting is Some,
        !final(losing)@.connected,
        reconnects,
{
}

/// A reconnect begins exactly where the socket is not closed, is to reconnect,
/// and no other reconnect is under way. From then on none begins until the one
/// that did has come to its end.
pub proof fn law_a_reconnect_is_begun_once<S, B>(
    first: &mut Socket<S, B>,
    begun: bool,
    between: &mut Socket<S, B>,
    attempt: &mut usize,
    event: ReconnectEvent,
    action: ReconnectAction,
    second: &mut Socket<S, B>,
    again: bool,
)
    requires
        call_ensures(Socket::<S, B>::begin_reconnect, (first,), begun),
        old(between)@ == final(first)@,
        call_ensures(Socket::<S, B>::reconnect, (between, attempt, event), action),
        old(second)@ == final(between)@,
        call_ensures(Socket::<S, B>::begin_reconnect, (second,), again),
    ensures
        begun == (old(first)@.auto_reconnect && !old(first)@.closing && !old(
            first,
        )@.reconnecting),
        begun ==> final(first)@ == (SocketView { reconnecting: true, ..old(first)@ }),
        !begun ==> final(first)@ == old(first)@,
        begun && !(event is Connected) ==> !again,
        begun && event is Connected ==> again,
{
}

/// A reconnect waits for the delays of the schedule one after another, and from
/// the last one on for that; tries to open a transport after each; tells of each
/// failure; and uses the transport that opens. Until then the socket stays as it
/// was. On a closed socket it stops instead of trying, and does not use a
/// transport that opens.
pub proof fn law_a_reconnect_follows_the_schedule<S, B>(
    socket: &mut Socket<S, B>,
    attempt: &mut usize,
    event: ReconnectEvent,
    action: ReconnectAction,
)
    requires
        old(socket)@.valid(),
        call_ensures(Socket::<S, B>::reconnect, (socket, attempt, event), action),
    ensures
        ({
            let start = old(socket)@;
            let schedule = start.reconnect_backoff;
            let tried = *old(attempt) as int;
            let delay = if tried < schedule.len() {
                schedule[tried]
            } else {
                schedule[schedule.len() - 1]
            };
            let next = if tried < usize::MAX {
                tried + 1
            } else {
                tried
            };
            match event {
                ReconnectEvent::Begun => {
                    &&& action == ReconnectAction::Wait(delay)
                    &&& *final(attempt) == next
                    &&& final(socket)@ == start
                },
                ReconnectEvent::Waited => {
                    &&& *final(attempt) == tried
                    &&& start.closing ==> action is Stop && final(socket)@ == (SocketView {
                        reconnecting: false,
                        ..start
                    })
                    &&& !start.closing ==> action is Connect && final(socket)@ == start
                },
                ReconnectEvent::Failed(text) => {
                    &&& (action matches ReconnectAction::Retry(told, wait) && told@
                        == SocketEventView::Error(text@) && wait == delay)
                    &&& *final(attempt) == next
                    &&& final(socket)@ == start
                },
                ReconnectEvent::Connected => {
                    &&& *final(attempt) == tried
                    &&& start.closing ==> action is Stop && final(socket)@ == (SocketView {
                        reconnecting: false,
                        ..start
                    })
                    &&& !start.closing ==> (action matches ReconnectAction::Rejoin(told) && told@
                        == SocketEventView::Open) && final(socket)@ == (SocketView {
                        connected: true,
                        reconnecting: false,
                        ..start
                    })
                },
            }
        }),
{
}

/// A closed socket gives a reconnect up as soon as it would go on, does not use a
/// transport that opens late, begins no reconnect, sends nothing and has no more
/// heartbeats.
pub proof fn law_a_closed_socket_is_done<S, B>(
    closing: &mut Socket<S, B>,
    event: ReconnectEvent,
    driven: &mut Socket<S, B>,
    attempt: &mut usize,
    action: ReconnectAction,
    open: &Socket<S, B>,
    connected: bool,
    begun: &mut Socket<S, B>,
    reconnects: bool,
    beating: &mut Socket<S, B>,
    sender: S,
    beat: HeartbeatStep,
    asking: &mut Socket<S, B>,
    join_ref: Option<String>,
    topic: &str,
    name: &str,
    payload: Json,
    sent: Result<Outgoing, Error>,
)
    requires
        call_ensures(Socket::<S, B>::close, (closing,), ()),
        old(driven)@ == final(closing)@,
        call_ensures(Socket::<S, B>::reconnect, (driven, attempt, event), action),
        open@ == final(driven)@,
        call_ensures(Socket::<S, B>::is_connected, (open,), connected),
        old(begun)@ == open@,
        call_ensures(Socket::<S, B>::begin_reconnect, (begun,), reconnects),
        old(beating)@ == open@,
        call_ensures(Socket::<S, B>::heartbeat, (beating, sender), beat),
        old(asking)@ == open@,
        call_ensures(
            Socket::<S, B>::begin_request,
            (asking, join_ref, topic, name, payload, sender),
            sent,
        ),
    ensures
        final(closing)@ == (SocketView { closing: true, connected: false, ..old(closing)@ }),
        event is Waited || event is Connected ==> action is Stop && !final(driven)@.reconnecting,
        !connected,
        !reconnects,
        beat is Stop,
        final(beating)@ == old(beating)@,
        sent == Err::<Outgoing, Error>(Error::Closed),
        final(asking)@ == old(asking)@,
{
}

/// A request on an open transport is sent under a reference that counts on from
/// the one before, with the topic, event and payload that it was made with, and
/// its sender waits under that reference beside those who waited before.
/// Without a transport nothing is sent and nobody waits.
pub proof fn law_a_request_is_sent_and_waits<S, B>(
    socket: &mut Socket<S, B>,
    join_ref: Option<String>,
    topic: &str,
    event: &str,
    payload: Json,
    sender: S,
    sent: Result<Outgoing, Error>,
)
    requires
        call_ensures(
            Socket::<S, B>::begin_request,
            (socket, join_ref, topic, event, payload, sender),
            sent,
        ),
    ensures
        ({
            let start = old(socket)@;
            let number = (start.refs + 1) % 0x1_0000_0000_0000_0000;
            let reference = decimal(number as nat);
            &&& (sent is Ok) == start.connected
            &&& sent matches Err(e) ==> e == Error::Closed && final(socket)@ == start
            &&& sent matches Ok(out) ==> {
                &&& out.reference@ == reference
                &&& frame_parts(out.frame@) == Some(
                    FrameView {
                        join_ref: option_view(join_ref),
                        reference,
                        topic: topic@,
                        event: event@,
                        payload: payload@,
                    },
                )
                &&& final(socket)@ == (SocketView {
                    refs: number as u64,
                    pending: start.pending.insert(reference, sender),
                    ..start
                })
            }
        }),
{
}

/// A heartbeat is an empty one on the topic of the protocol itself, sent as a
/// request while the transport is open. Its loss is that it was not answered.
pub proof fn law_heartbeats_are_requests<S, B>(
    socket: &mut Socket<S, B>,
    sender: S,
    beat: HeartbeatStep,
    outcome: &Result<(String, Json), Error>,
    lost: bool,
)
    requires
        call_ensures(Socket::<S, B>::heartbeat, (socket, sender), beat),
        call_ensures(heartbeat_lost, (outcome,), lost),
    ensures
        ({
            let start = old(socket)@;
            let number = (start.refs + 1) % 0x1_0000_0000_0000_0000;
            let reference = decimal(number as nat);
            &&& (beat is Stop) == start.closing
            &&& (beat is Send) == (!start.closing && start.connected)
            &&& !(beat is Send) ==> final(socket)@ == start
            &&& beat matches HeartbeatStep::Send(out) ==> {
                &&& out.reference@ == reference
                &&& frame_parts(out.frame@) == Some(
                    FrameView {
                        join_ref: None,
                        reference,
                        topic: "phoenix"@,
                        event: "heartbeat"@,
                        payload: JsonView::Object(Seq::empty()),
                    },
                )
                &&& final(socket)@ == (SocketView {
                    refs: number as u64,
                    pending: start.pending.insert(reference, sender),
                    ..start
                })
            }
        }),
        lost == (outcome is Err),
{
}

/// An answered request comes to its reference and its answer. One that was not
/// sent, failed or timed out comes to why, and nobody waits for it any more;
/// who else waits goes on waiting.
pub proof fn law_a_request_is_settled<S, B>(
    socket: &mut Socket<S, B>,
    reference: String,
    outcome: RequestOutcome,
    settled: Result<(String, Json), Error>,
)
    requires
        call_ensures(Socket::<S, B>::settle_request, (socket, reference, outcome), settled),
    ensures
        match outcome {
            RequestOutcome::Answered(Ok(envelope)) => settled matches Ok((name, answer)) && name@
                == reference@ && answer == envelope && final(socket)@ == old(socket)@,
            RequestOutcome::Answered(Err(e)) => settled == Err::<(String, Json), Error>(e)
                && final(socket)@ == old(socket)@,
            RequestOutcome::Dropped => settled == Err::<(String, Json), Error>(Error::Closed)
                && final(socket)@ == old(socket)@,
            RequestOutcome::NotSent => settled == Err::<(String, Json), Error>(Error::Closed),
            RequestOutcome::SendFailed(e) => settled == Err::<(String, Json), Error>(
                Error::WebSocket(e),
            ),
            RequestOutcome::TimedOut => settled == Err::<(String, Json), Error>(Error::Timeout),
        },
        outcome is NotSent || outcome is SendFailed || outcome is TimedOut ==> {
            &&& !final(socket)@.pending.contains_key(reference@)
            &&& forall|key: Seq<char>|
                key != reference@ ==> {
                    &&& (#[trigger] final(socket)@.pending.contains_key(key)) == old(
                        socket,
                    )@.pending.contains_key(key)
                    &&& final(socket)@.pending.contains_key(key) ==> final(socket)@.pending[key]
                        == old(socket)@.pending[key]
                }
            &&& final(socket)@ == (SocketView { pending: final(socket)@.pending, ..old(socket)@ })
        },
{
}

/// A reply is handed to the one who waits under its reference, with its payload,
/// and nobody waits under it any more; who else waits goes on waiting. A reply
/// that nobody waits for changes nothing, and no reply changes anything else.
pub proof fn law_a_reply_reaches_its_request<S, B>(
    socket: &mut Socket<S, B>,
    document: &Json,
    received: Received<S>,
    frame: FrameView,
)
    requires
        call_ensures(Socket::<S, B>::receive_document, (socket, document), received),
        frame_parts(document@) == Some(frame),
        frame.event == "phx_reply"@,
        frame.reference.len() > 0,
    ensures
        ({
            let start = old(socket)@;
            let end = final(socket)@;
            if start.pending.contains_key(frame.reference) {
                &&& received@ == (ReceivedView::<S>::Reply {
                    sender: start.pending[frame.reference],
                    payload: frame.payload,
                })
                &&& end == (SocketView { pending: start.pending.remove(frame.reference), ..start })
            } else {
                received@ is Ignored && end == start
            }
        }),
{
}

/// A frame of an earlier join, or of one that the channel is not in, changes
/// nothing.
pub proof fn law_a_frame_of_another_join_is_ignored<S, B>(
    socket: &mut Socket<S, B>,
    document: &Json,
    received: Received<S>,
    frame: FrameView,
    i: int,
)
    requires
        call_ensures(Socket::<S, B>::receive_document, (socket, document), received),
        frame_parts(document@) == Some(frame),
        frame.event != "phx_reply"@ || frame.reference.len() == 0,
        old(socket)@.registry.contains_key(frame.topic),
        old(socket)@.registry[frame.topic] == i,
        frame.join_ref is Some,
        frame.join_ref != old(socket)@.channels[i]->Some_0.join_ref,
    ensures
        received@ is Ignored,
        final(socket)@ == old(socket)@,
{
}

/// Whether a frame is an event that the socket takes in: it is no reply, and
/// names no join but the one that its channel is in.
pub open spec fn is_current_event<S, B>(socket: SocketView<S, B>, frame: FrameView) -> bool {
    &&& frame.event != "phx_reply"@ || frame.reference.len() == 0
    &&& socket.registry.contains_key(frame.topic) ==> {
        ||| frame.join_ref is None
        ||| frame.join_ref
            == socket.channels[socket.registry[frame.topic] as int]->Some_0.join_ref
    }
}

/// An event is handed to its listeners. Where it has none yet it is kept, behind
/// those that came before; only the latest thirty-two are. Events of other
/// topics and names are as they were, and so are requests and listeners.
pub proof fn law_an_event_is_handed_on_or_kept<S, B>(
    socket: &mut Socket<S, B>,
    document: &Json,
    received: Received<S>,
    frame: FrameView,
    other: (Seq<char>, Seq<char>),
)
    requires
        old(socket)@.valid(),
        call_ensures(Socket::<S, B>::receive_document, (socket, document), received),
        frame_parts(document@) == Some(frame),
        is_current_event(old(socket)@, frame),
    ensures
        ({
            let start = old(socket)@;
            let end = final(socket)@;
            let key = (frame.topic, frame.event);
            let earlier = if start.buffered.contains_key(key) {
                start.buffered[key]
            } else {
                Seq::empty()
            };
            &&& start.events.contains_key(key) ==> {
                &&& received@ == (ReceivedView::<S>::Event { key, payload: frame.payload })
                &&& end.buffered == start.buffered
            }
            &&& !start.events.contains_key(key) ==> {
                &&& received@ is Kept
                &&& end.buffered.contains_key(key)
                &&& end.buffered[key] == if earlier.len() < 32 {
                    earlier.push(frame.payload)
                } else {
                    earlier.skip(1).push(frame.payload)
                }
                &&& end.buffered[key].len() <= 32
            }
            &&& other != key ==> {
                &&& end.buffered.contains_key(other) == start.buffered.contains_key(other)
                &&& end.buffered[other] == start.buffered[other]
            }
            &&& end == (SocketView {
                buffered: end.buffered,
                channels: end.channels,
                ..start
            })
        }),
{
}

/// An event that ends no channel changes none: whatever its topic, every channel
/// keeps its state, whether it is meant to be joined, its join and its pushes.
pub proof fn law_an_ordinary_event_changes_no_channel<S, B>(
    socket: &mut Socket<S, B>,
    document: &Json,
    received: Received<S>,
    frame: FrameView,
)
    requires
        call_ensures(Socket::<S, B>::receive_document, (socket, document), received),
        frame_parts(document@) == Some(frame),
        frame.event != "phx_error"@,
        frame.event != "phx_close"@,
    ensures
        final(socket)@.channels == old(socket)@.channels,
        final(socket)@.registry == old(socket)@.registry,
{
}

/// An error of a channel leaves it failed but wanted, so that it is joined again;
/// a close leaves it closed and no longer wanted. Its pushes and all else of it
/// stay, and so does every other channel.
pub proof fn law_the_server_ends_one_channel<S, B>(
    socket: &mut Socket<S, B>,
    document: &Json,
    received: Received<S>,
    frame: FrameView,
    j: int,
)
    requires
        old(socket)@.valid(),
        call_ensures(Socket::<S, B>::receive_document, (socket, document), received),
        frame_parts(document@) == Some(frame),
        is_current_event(old(socket)@, frame),
        frame.event == "phx_error"@ || frame.event == "phx_close"@,
        0 <= j < old(socket)@.channels.len(),
    ensures
        ({
            let start = old(socket)@;
            let end = final(socket)@;
            let before = start.channels[j];
            let now = end.channels[j];
            &&& end.channels.len() == start.channels.len()
            &&& end.registry == start.registry
            &&& if start.registry.contains_key(frame.topic) && start.registry[frame.topic] == j {
                &&& before is Some
                &&& now is Some
                &&& frame.event == "phx_error"@ ==> now->Some_0.state == ChannelState::Errored
                    && now->Some_0.desired_join == before->Some_0.desired_join
                &&& frame.event == "phx_close"@ ==> now->Some_0.state == ChannelState::Closed
                    && !now->Some_0.desired_join
                &&& now->Some_0.buffered_pushes == before->Some_0.buffered_pushes
                &&& now->Some_0.join_ref == before->Some_0.join_ref
                &&& now->Some_0.join_payload == before->Some_0.join_payload
                &&& now->Some_0.topic == before->Some_0.topic
                &&& now->Some_0.handles == before->Some_0.handles
            } else {
                now == before
            }
        }),
{
    reveal_strlit("phx_error");
    reveal_strlit("phx_close");
    assert("phx_error"@[4] == 'e' && "phx_close"@[4] == 'c');
    if old(socket)@.registry.contains_key(frame.topic) {
        assert(occupied(
            old(socket)@.channels,
            old(socket)@.registry[frame.topic] as int,
        ));
    }
}

/// What is no frame is ignored, in a document or in a text, and a text is taken
/// in as the document that it is.
pub proof fn law_text_is_taken_in_as_its_document<S, B>(
    socket: &mut Socket<S, B>,
    text: &str,
    received: Received<S>,
    read: Option<Json>,
    other: &mut Socket<S, B>,
    document: &Json,
    of_document: Received<S>,
)
    requires
        call_ensures(Socket::<S, B>::receive, (socket, text), received),
        call_ensures(parse_text, (text,), read),
        old(other)@ == old(socket)@,
        call_ensures(Socket::<S, B>::receive_document, (other, document), of_document),
    ensures
        read is None ==> received@ is Ignored && final(socket)@ == old(socket)@,
        read matches Some(tree) ==> (tree@ == document@ ==> received@ == of_document@
            && final(socket)@ == final(other)@),
        frame_parts(document@) is None ==> of_document@ is Ignored && final(other)@ == old(other)@,
{
}

/// What arrives from the transport is taken in as text, passed over, or ends the
/// transport; then the listeners are told of the close, with its code and reason
/// where it has them, and first of the failure where there was one.
pub proof fn law_what_arrives_is_read<S, B>(
    socket: &mut Socket<S, B>,
    arrived: Option<Wire>,
    step: ReadStep<S>,
    other: &mut Socket<S, B>,
    text: &str,
    received: Received<S>,
)
    requires
        call_ensures(Socket::<S, B>::read, (socket, arrived), step),
        old(other)@ == old(socket)@,
        call_ensures(Socket::<S, B>::receive, (other, text), received),
    ensures
        arrived matches Some(Wire::Text(message)) ==> (message@ == text@ ==> {
            &&& (step matches ReadStep::Continue(r) && r@ == received@)
            &&& final(socket)@ == final(other)@
        }),
        !(arrived is Some && arrived->Some_0 is Text) ==> final(socket)@ == old(socket)@,
        arrived matches Some(Wire::Other) ==> (step matches ReadStep::Continue(r) && r@ is Ignored),
        match arrived {
            Some(Wire::Text(_)) | Some(Wire::Other) => step is Continue,
            _ => step is Stop && event_views(step->Stop_0@).len() > 0 && event_views(
                step->Stop_0@,
            ).last() == (match arrived {
                Some(Wire::Close(Some((code, reason)))) => SocketEventView::Close {
                    code: Some(code),
                    reason: reason@,
                },
                _ => SocketEventView::Close { code: None, reason: Seq::empty() },
            }),
        },
        arrived matches Some(Wire::Failed(text)) ==> event_views(step->Stop_0@).len() == 2
            && event_views(step->Stop_0@)[0] == SocketEventView::Error(text@),
        step is Stop && !(arrived is Some && arrived->Some_0 is Failed) ==> event_views(
            step->Stop_0@,
        ).len() == 1,
{
}

/// A listener gets what was kept for it, oldest first, and only the first does;
/// from then on its events are handed on. Other events and all else stay.
pub proof fn law_a_listener_gets_what_was_kept<S, B>(
    socket: &mut Socket<S, B>,
    key: EventKey,
    fresh: B,
    got: Vec<Json>,
    open: &Socket<S, B>,
    same_key: &EventKey,
    through: Option<&B>,
    other: (Seq<char>, Seq<char>),
)
    requires
        call_ensures(Socket::<S, B>::subscribe, (socket, key, fresh), got),
        open@ == final(socket)@,
        same_key@ == key@,
        call_ensures(Socket::<S, B>::listener, (open, same_key), through),
    ensures
        ({
            let start = old(socket)@;
            let end = final(socket)@;
            &&& start.buffered.contains_key(key@) ==> json_views(got@) == start.buffered[key@]
            &&& !start.buffered.contains_key(key@) ==> got@.len() == 0
            &&& !end.buffered.contains_key(key@)
            &&& (through matches Some(b) && *b == if start.events.contains_key(key@) {
                start.events[key@]
            } else {
                fresh
            })
            &&& other != key@ ==> {
                &&& end.buffered.contains_key(other) == start.buffered.contains_key(other)
                &&& end.buffered[other] == start.buffered[other]
                &&& end.events.contains_key(other) == start.events.contains_key(other)
                &&& end.events[other] == start.events[other]
            }
            &&& end == (SocketView { buffered: end.buffered, events: end.events, ..start })
        }),
{
    if !old(socket)@.buffered.contains_key(key@) {
        assert(json_views(got@).len() == got@.len());
    }
}

/// A lost transport is noted once: everyone who waited for a reply is named, each
/// with its reference, and nobody waits any more. Listeners, kept events and the
/// registry stay.
pub proof fn law_a_loss_ends_every_request<S, B>(
    socket: &mut Socket<S, B>,
    waiting: Option<Vec<(String, S)>>,
    again: &mut Socket<S, B>,
    nobody: Option<Vec<(String, S)>>,
    key: Seq<char>,
)
    requires
        call_ensures(Socket::<S, B>::disconnect, (socket,), waiting),
        old(again)@ == final(socket)@,
        call_ensures(Socket::<S, B>::disconnect, (again,), nobody),
    ensures
        (waiting is Some) == old(socket)@.connected,
        waiting is None ==> final(socket)@ == old(socket)@,
        waiting matches Some(row) ==> {
            &&& old(socket)@.pending.contains_key(key) <==> exists|i: int|
                0 <= i < row@.len() && (#[trigger] row@[i]).0@ == key
            &&& forall|i: int|
                0 <= i < row@.len() && (#[trigger] row@[i]).0@ == key ==> row@[i].1 == old(
                    socket,
                )@.pending[key]
            &&& !final(socket)@.pending.contains_key(key)
            &&& !final(socket)@.connected
            &&& final(socket)@ == (SocketView {
                connected: false,
                pending: final(socket)@.pending,
                channels: final(socket)@.channels,
                ..old(socket)@
            })
        },
        nobody is None,
        final(again)@ == final(socket)@,
{
    if let Some(row) = waiting {
        assert forall|i: int|
            0 <= i < row@.len() && (#[trigger] row@[i]).0@ == key implies row@[i].1 == old(
            socket,
        )@.pending[key] by {
            crate::table::entry_map_at(row@, i);
        }
        assert(entry_map(row@).contains_key(key) == crate::table::has_key(row@, key));
    }
}

/// A lost transport voids the join of every channel in charge of its topic that
/// was not closed or leaving: it has failed. What it is meant to be, its payload
/// and its pushes stay, and every other channel stays as it was.
pub proof fn law_a_loss_fails_the_channels<S, B>(
    socket: &mut Socket<S, B>,
    waiting: Option<Vec<(String, S)>>,
    i: int,
)
    requires
        old(socket)@.connected,
        call_ensures(Socket::<S, B>::disconnect, (socket,), waiting),
        0 <= i < old(socket)@.channels.len(),
    ensures
        ({
            let start = old(socket)@;
            let end = final(socket)@;
            &&& end.channels.len() == start.channels.len()
            &&& start.channels[i] is None ==> end.channels[i] is None
            &&& start.channels[i] matches Some(before) ==> (end.channels[i] matches Some(now) && {
                let cut = start.registry.contains_key(before.topic) && start.registry[before.topic]
                    == i && before.state != ChannelState::Closed && before.state
                    != ChannelState::Leaving;
                &&& now.state == if cut {
                    ChannelState::Errored
                } else {
                    before.state
                }
                &&& now.join_ref == if cut {
                    None
                } else {
                    before.join_ref
                }
                &&& now.desired_join == before.desired_join
                &&& now.join_payload == before.join_payload
                &&& now.buffered_pushes == before.buffered_pushes
                &&& now.topic == before.topic
                &&& now.handles == before.handles
            })
        }),
{
    assert(occupied(old(socket)@.channels, i) == (old(socket)@.channels[i] is Some));
}

} // verus!
