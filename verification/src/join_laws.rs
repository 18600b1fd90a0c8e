//! What a channel does from its first handle to its leave, from one call to the
//! next.
use vstd::prelude::*;
use crate::channel::{
    occupied, push_views, BufferedPush, Channel, ChannelView, FlushStep, JoinStart,
    JoinedNow, LeaveStart, PushStart, PushView, QueueOutcome, Socket, SocketView,
};
use crate::channel_laws::{first_free_is_free, law_rejoining_channels_are_all};
use crate::error::Error;
use crate::json::{json_option, json_views, Json, JsonView};
use crate::phoenix::{
    build_message, channel_error, frame_parts, join_ref_matches, reply, take_apart, ChannelState,
    Frame, FrameView,
};
use crate::table::EventKey;
use crate::text::{decimal, option_view};

verus! {

/// The reference that a socket hands out next.
pub open spec fn coming_reference<S, B>(socket: SocketView<S, B>) -> Seq<char> {
    decimal(((socket.refs + 1) % 0x1_0000_0000_0000_0000) as nat)
}

/// Whether nothing but one channel of a socket differs from another.
pub open spec fn only_channel<S, B>(
    start: SocketView<S, B>,
    end: SocketView<S, B>,
    i: int,
) -> bool {
    &&& 0 <= i < start.channels.len()
    &&& end.channels.len() == start.channels.len()
    &&& forall|j: int|
        0 <= j < start.channels.len() && j != i ==> #[trigger] end.channels[j] == start.channels[j]
    &&& end == (SocketView { channels: end.channels, ..start })
}

/// Whether nothing but one channel differs, and that a request of that sender
/// was begun.
pub open spec fn only_channel_and_request<S, B>(
    start: SocketView<S, B>,
    end: SocketView<S, B>,
    i: int,
    sender: S,
) -> bool {
    &&& 0 <= i < start.channels.len()
    &&& end.channels.len() == start.channels.len()
    &&& forall|j: int|
        0 <= j < start.channels.len() && j != i ==> #[trigger] end.channels[j] == start.channels[j]
    &&& end == (SocketView {
        channels: end.channels,
        refs: ((start.refs + 1) % 0x1_0000_0000_0000_0000) as u64,
        pending: start.pending.insert(coming_reference(start), sender),
        ..start
    })
}

/// A handle for a topic refers to the channel in charge of it; where there is
/// none, to a fresh one: closed, not meant to be joined, without pushes. All
/// other channels stay as they were. The same topic gives the same channel,
/// another topic another.
pub proof fn law_a_topic_names_one_channel<S, B>(
    socket: &mut Socket<S, B>,
    topic: String,
    handle: Channel,
    again: &mut Socket<S, B>,
    other: String,
    second: Channel,
)
    requires
        old(socket)@.valid(),
        call_ensures(Socket::<S, B>::channel, (socket, topic), handle),
        old(again)@ == final(socket)@,
        final(socket)@.valid(),
        call_ensures(Socket::<S, B>::channel, (again, other), second),
    ensures
        ({
            let start = old(socket)@;
            let end = final(socket)@;
            let i = handle@.id as int;
            &&& handle@.topic == topic@
            &&& second@.topic == other@
            &&& end.registry.contains_key(topic@) && end.registry[topic@] == i
            &&& end.channels[i] matches Some(now) && now.topic == topic@ && {
                if start.registry.contains_key(topic@) {
                    &&& start.registry[topic@] == i
                    &&& start.channels[i] matches Some(before) && {
                        &&& now == (ChannelView { handles: now.handles, ..before })
                        &&& before.handles < u64::MAX ==> now.handles == before.handles + 1
                    }
                } else {
                    &&& now.state == ChannelState::Closed
                    &&& !now.desired_join
                    &&& now.join_ref is None
                    &&& now.buffered_pushes.len() == 0
                    &&& now.join_payload == JsonView::Object(Seq::empty())
                    &&& now.handles == 1
                    &&& i < start.channels.len() ==> start.channels[i] is None
                }
            }
            &&& forall|j: int|
                0 <= j < start.channels.len() && j != i ==> #[trigger] end.channels[j]
                    == start.channels[j]
            &&& (second@.id == handle@.id) == (other@ == topic@)
            &&& other@ != topic@ ==> end.registry.contains_key(other@)
                == start.registry.contains_key(other@) && end.registry[other@]
                == start.registry[other@]
            &&& end == (SocketView { registry: end.registry, channels: end.channels, ..start })
        }),
{
    first_free_is_free(old(socket)@.channels, 0);
    first_free_is_free(final(socket)@.channels, 0);
    let start = old(socket)@;
    let end = final(socket)@;
    if start.registry.contains_key(topic@) {
        assert(occupied(start.channels, start.registry[topic@] as int));
    }
    assert(occupied(end.channels, end.registry[topic@] as int));
    if end.registry.contains_key(other@) {
        assert(occupied(end.channels, end.registry[other@] as int));
    }
}

/// Another handle refers to the same channel, which counts one more; a handle
/// that is given up counts one less, and with the last one the channel goes and
/// its topic is free. Nothing else of a channel changes, and no other does.
pub proof fn law_handles_are_counted<S, B>(
    socket: &mut Socket<S, B>,
    handle: &Channel,
    copy: Channel,
    dropping: &mut Socket<S, B>,
    dropped: Channel,
)
    requires
        old(socket)@.holds(handle@),
        call_ensures(Socket::<S, B>::retain, (socket, handle), copy),
        old(dropping)@.valid(),
        old(dropping)@.holds(dropped@),
        call_ensures(Socket::<S, B>::release, (dropping, dropped), ()),
    ensures
        copy@ == handle@,
        only_channel(old(socket)@, final(socket)@, handle@.id as int),
        ({
            let before = old(socket)@.channels[handle@.id as int]->Some_0;
            let now = final(socket)@.channels[handle@.id as int];
            &&& now == Some(ChannelView { handles: now->Some_0.handles, ..before })
            &&& now->Some_0.handles == if before.handles < u64::MAX {
                before.handles + 1
            } else {
                u64::MAX as int
            }
        }),
        ({
            let start = old(dropping)@;
            let end = final(dropping)@;
            let i = dropped@.id as int;
            let before = start.channels[i]->Some_0;
            &&& 1 < before.handles < u64::MAX ==> only_channel(start, end, i) && end.channels[i]
                == Some(ChannelView { handles: (before.handles - 1) as u64, ..before })
            &&& before.handles == 1 ==> {
                &&& end.channels[i] is None
                &&& end.channels.len() == start.channels.len()
                &&& forall|j: int|
                    0 <= j < start.channels.len() && j != i ==> #[trigger] end.channels[j]
                        == start.channels[j]
                &&& start.registry.contains_key(before.topic) && start.registry[before.topic] == i
                    ==> !end.registry.contains_key(before.topic)
                &&& forall|t: Seq<char>|
                    start.registry.contains_key(t) && start.registry[t] != i
                        ==> #[trigger] end.registry.contains_key(t) && end.registry[t]
                        == start.registry[t]
                &&& end == (SocketView { registry: end.registry, channels: end.channels, ..start })
            }
            &&& before.handles == u64::MAX ==> end == start
        }),
{
    let start = old(dropping)@;
    let i = dropped@.id as int;
    assert forall|t: Seq<char>|
        start.registry.contains_key(t) && start.registry[t] != i
            && start.channels[i]->Some_0.handles == 1 implies (
    #[trigger] final(dropping)@.registry.contains_key(t)) by {
        assert(occupied(start.channels, start.registry[t] as int));
    }
}

/// A join sends what it was asked to join with: asked for and begun on an open
/// transport, the frame is `phx_join` on the channel's topic with exactly that
/// payload, under a new reference and naming no join. The channel is on its way
/// and meant to be joined.
pub proof fn law_a_join_sends_its_payload<S, B>(
    handle: &Channel,
    asking: &mut Socket<S, B>,
    payload: Json,
    joining: &mut Socket<S, B>,
    sender: S,
    begun: JoinStart,
    wanted: bool,
    state: ChannelState,
    after_begin: &Socket<S, B>,
)
    requires
        old(asking)@.holds(handle@),
        call_ensures(Channel::join::<S, B>, (handle, asking, payload), ()),
        old(joining)@ == final(asking)@,
        call_ensures(Channel::begin_join::<S, B>, (handle, joining, sender), begun),
        after_begin@ == final(joining)@,
        call_ensures(Channel::wants_join::<S, B>, (handle, after_begin), wanted),
        call_ensures(Channel::state::<S, B>, (handle, after_begin), state),
    ensures
        ({
            let start = old(asking)@;
            let asked = final(asking)@;
            let i = handle@.id as int;
            let before = start.channels[i]->Some_0;
            &&& only_channel(start, asked, i)
            &&& asked.channels[i] == Some(
                ChannelView { join_payload: payload@, desired_join: true, ..before },
            )
            &&& wanted
            &&& before.state != ChannelState::Joined && start.connected ==> {
                &&& (begun matches JoinStart::Send(out) && out.reference@ == coming_reference(start)
                    && frame_parts(out.frame@) == Some(
                    FrameView {
                        join_ref: None,
                        reference: coming_reference(start),
                        topic: handle@.topic,
                        event: "phx_join"@,
                        payload: payload@,
                    },
                ))
                &&& state == ChannelState::Joining
                &&& only_channel_and_request(asked, after_begin@, i, sender)
            }
            &&& before.state != ChannelState::Joined && !start.connected ==> {
                &&& begun == JoinStart::Failed(Error::Closed)
                &&& state == ChannelState::Errored
                &&& only_channel(asked, after_begin@, i)
            }
            &&& before.state == ChannelState::Joined ==> {
                &&& (begun matches JoinStart::Done(v) && v@ == JsonView::Object(Seq::empty()))
                &&& after_begin@ == asked
            }
        }),
{
}

/// After a reconnect a channel that is meant to be joined is joined again with
/// what it was asked to join with before; one that is not meant to be stays as
/// it is.
pub proof fn law_a_rejoin_sends_the_same_payload<S, B>(
    handle: &Channel,
    asking: &mut Socket<S, B>,
    payload: Json,
    joining: &mut Socket<S, B>,
    sender: S,
    begun: Option<JoinStart>,
)
    requires
        old(asking)@.holds(handle@),
        call_ensures(Channel::join::<S, B>, (handle, asking, payload), ()),
        old(joining)@.holds(handle@),
        call_ensures(Channel::begin_rejoin::<S, B>, (handle, joining, sender), begun),
    ensures
        ({
            let start = old(joining)@;
            let i = handle@.id as int;
            let before = start.channels[i]->Some_0;
            &&& (begun is Some) == before.desired_join
            &&& begun is None ==> final(joining)@ == start
            &&& before.desired_join && before.join_payload
                == final(asking)@.channels[i]->Some_0.join_payload && before.state
                != ChannelState::Joined && start.connected ==> {
                &&& (begun matches Some(JoinStart::Send(out)) && frame_parts(out.frame@) == Some(
                    FrameView {
                        join_ref: None,
                        reference: coming_reference(start),
                        topic: handle@.topic,
                        event: "phx_join"@,
                        payload: payload@,
                    },
                ))
                &&& only_channel_and_request(start, final(joining)@, i, sender)
                &&& final(joining)@.channels[i] == Some(
                    ChannelView { state: ChannelState::Joining, ..before },
                )
            }
        }),
{
}

/// An accepted join makes the channel joined under the reference of its request,
/// gives the server's response, and hands out every push that waited, in order,
/// once. A join that is rejected or fails leaves the channel failed, with its
/// pushes still waiting, and says why.
pub proof fn law_a_join_comes_to_its_outcome<S, B>(
    handle: &Channel,
    socket: &mut Socket<S, B>,
    outcome: Result<(String, Json), Error>,
    joined: Result<JoinedNow<S>, Error>,
)
    requires
        old(socket)@.holds(handle@),
        call_ensures(Channel::finish_join::<S, B>, (handle, socket, outcome), joined),
    ensures
        ({
            let start = old(socket)@;
            let end = final(socket)@;
            let i = handle@.id as int;
            let before = start.channels[i]->Some_0;
            let accepted = outcome is Ok && outcome->Ok_0.1@.get_text("status"@) == Some("ok"@);
            &&& (joined is Ok) == accepted
            &&& only_channel(start, end, i)
            &&& joined matches Ok(now) ==> {
                &&& end.channels[i] == Some(
                    ChannelView {
                        state: ChannelState::Joined,
                        join_ref: Some(outcome->Ok_0.0@),
                        buffered_pushes: Seq::empty(),
                        ..before
                    },
                )
                &&& push_views(now.pushes@) == before.buffered_pushes
                &&& now.response@ == match outcome->Ok_0.1@.get("response"@) {
                    Some(v) => v,
                    None => JsonView::Null,
                }
            }
            &&& joined matches Err(e) ==> {
                &&& end.channels[i] == Some(ChannelView { state: ChannelState::Errored, ..before })
                &&& match outcome {
                    Ok((_, envelope)) => e matches Error::Channel(c) && c.operation@ == "join"@
                        && c.topic@ == handle@.topic && c.reason@
                        == "server rejected the operation"@ && json_option(c.payload)
                        == envelope@.get("response"@),
                    Err(failure) => e == failure,
                }
            }
        }),
{
}

/// A push on a joined channel is sent at once, under a new reference and naming
/// the join that is in force, with its event and payload; without a transport it
/// fails. A push on a channel that is meant to be joined and is not waits at the
/// end of the queue. Any other is refused.
pub proof fn law_a_push_is_sent_queued_or_refused<S, B>(
    handle: &Channel,
    socket: &mut Socket<S, B>,
    event: &str,
    payload: Json,
    sender: S,
    begun: PushStart,
)
    requires
        old(socket)@.holds(handle@),
        call_ensures(Channel::push::<S, B>, (handle, socket, event, payload, sender), begun),
    ensures
        ({
            let start = old(socket)@;
            let end = final(socket)@;
            let i = handle@.id as int;
            let before = start.channels[i]->Some_0;
            let is_joined = before.state == ChannelState::Joined;
            &&& is_joined && start.connected ==> {
                &&& (begun matches PushStart::Send(out) && out.reference@ == coming_reference(start)
                    && frame_parts(out.frame@) == Some(
                    FrameView {
                        join_ref: before.join_ref,
                        reference: coming_reference(start),
                        topic: handle@.topic,
                        event: event@,
                        payload: payload@,
                    },
                ))
                &&& only_channel_and_request(start, end, i, sender)
                &&& end.channels[i] == start.channels[i]
            }
            &&& is_joined && !start.connected ==> begun == PushStart::Failed(Error::Closed) && end
                == start
            &&& !is_joined && before.desired_join ==> {
                &&& (begun matches PushStart::Queued(name) && name@ == coming_reference(start))
                &&& end.channels[i] == Some(
                    ChannelView {
                        buffered_pushes: before.buffered_pushes.push(
                            PushView {
                                reference: coming_reference(start),
                                event: event@,
                                payload: payload@,
                                sender,
                            },
                        ),
                        ..before
                    },
                )
                &&& end.pending == start.pending
                &&& only_channel(
                    SocketView {
                        refs: ((start.refs + 1) % 0x1_0000_0000_0000_0000) as u64,
                        ..start
                    },
                    end,
                    i,
                )
            }
            &&& !is_joined && !before.desired_join ==> {
                &&& end == start
                &&& (begun matches PushStart::Failed(Error::Channel(e)) && e.operation@ == event@
                    && e.topic@ == handle@.topic && e.reason@ == "channel is not joined"@
                    && e.payload is None)
            }
        }),
{
}

/// A push comes to the response of the server, or to its rejection with the
/// response that came with it, or to why there was no answer.
pub proof fn law_a_push_comes_to_its_outcome(
    handle: &Channel,
    event: &str,
    outcome: Result<(String, Json), Error>,
    answer: Result<Json, Error>,
)
    requires
        call_ensures(Channel::finish_push, (handle, event, outcome), answer),
    ensures
        match outcome {
            Err(e) => answer == Err::<Json, Error>(e),
            Ok((_, envelope)) => if envelope@.get_text("status"@) == Some("ok"@) {
                answer matches Ok(v) && v@ == match envelope@.get("response"@) {
                    Some(r) => r,
                    None => JsonView::Null,
                }
            } else {
                answer matches Err(Error::Channel(e)) && e.operation@ == event@ && e.topic@
                    == handle@.topic && e.reason@ == "server rejected the operation"@
                    && json_option(e.payload) == envelope@.get("response"@)
            },
        },
{
}

/// A reply envelope is an answer exactly where its status is `ok`.
pub proof fn law_a_reply_is_an_answer_or_a_rejection(
    topic: &str,
    operation: &str,
    envelope: &Json,
    answer: Result<Json, Error>,
)
    requires
        call_ensures(reply, (topic, operation, envelope), answer),
    ensures
        (answer is Ok) == (envelope@.get_text("status"@) == Some("ok"@)),
        answer matches Ok(v) ==> v@ == match envelope@.get("response"@) {
            Some(r) => r,
            None => JsonView::Null,
        },
        answer matches Err(e) ==> (e matches Error::Channel(c) && c.operation@ == operation@
            && c.topic@ == topic@ && c.reason@ == "server rejected the operation"@ && json_option(
            c.payload,
        ) == envelope@.get("response"@)),
{
}

/// A push that waited and was answered comes to that answer; one that waited too
/// long to a timeout, and then it waits no more, while every other does; one
/// that nobody can make any more to a closed socket.
pub proof fn law_a_queued_push_is_settled<S, B>(
    handle: &Channel,
    socket: &mut Socket<S, B>,
    reference: &str,
    outcome: QueueOutcome,
    answer: Result<Json, Error>,
    k: int,
)
    requires
        old(socket)@.holds(handle@),
        call_ensures(
            Channel::settle_queued::<S, B>,
            (handle, socket, reference, outcome),
            answer,
        ),
    ensures
        ({
            let start = old(socket)@;
            let end = final(socket)@;
            let i = handle@.id as int;
            let before = start.channels[i]->Some_0;
            let left = end.channels[i]->Some_0.buffered_pushes;
            match outcome {
                QueueOutcome::Answered(a) => answer == a && end == start,
                QueueOutcome::Dropped => answer == Err::<Json, Error>(Error::Closed) && end
                    == start,
                QueueOutcome::TimedOut => {
                    &&& answer == Err::<Json, Error>(Error::Timeout)
                    &&& only_channel(start, end, i)
                    &&& end.channels[i] == Some(ChannelView { buffered_pushes: left, ..before })
                    &&& 0 <= k < left.len() ==> left[k].reference != reference@
                        && before.buffered_pushes.contains(left[k])
                    &&& 0 <= k < before.buffered_pushes.len() && before.buffered_pushes[k].reference
                        != reference@ ==> left.contains(before.buffered_pushes[k])
                },
            }
        }),
{
    let waiting = old(socket)@.channels[handle@.id as int]->Some_0.buffered_pushes;
    let keep = |p: PushView<S>| p.reference != reference@;
    let left = waiting.filter(keep);
    if 0 <= k < left.len() {
        waiting.lemma_filter_pred(keep, k);
        assert(left.contains(left[k]));
        waiting.lemma_filter_contains_rev(keep, left[k]);
    }
    if 0 <= k < waiting.len() && keep(waiting[k]) {
        waiting.lemma_filter_contains(keep, k);
    }
}

/// A push that a join handed out is sent under a new reference and names that
/// join; its caller is told what comes of it. Without a transport it fails, and
/// one whose caller is gone is not sent.
pub proof fn law_a_flushed_push_names_the_join<S, B>(
    handle: &Channel,
    joining: &mut Socket<S, B>,
    reference: String,
    envelope: Json,
    joined: Result<JoinedNow<S>, Error>,
    socket: &mut Socket<S, B>,
    push: BufferedPush<S>,
    caller_is_gone: bool,
    sender: S,
    step: FlushStep<S>,
)
    requires
        old(joining)@.holds(handle@),
        call_ensures(
            Channel::finish_join::<S, B>,
            (handle, joining, Ok::<(String, Json), Error>((reference, envelope))),
            joined,
        ),
        joined is Ok,
        old(socket)@ == final(joining)@,
        call_ensures(
            Channel::flush_push::<S, B>,
            (handle, socket, push, caller_is_gone, sender),
            step,
        ),
    ensures
        ({
            let start = old(socket)@;
            let end = final(socket)@;
            &&& caller_is_gone ==> step is Skip && end == start
            &&& !caller_is_gone && start.connected ==> {
                &&& (step matches FlushStep::Send { outgoing, event, caller } && outgoing.reference@
                    == coming_reference(start) && frame_parts(outgoing.frame@) == Some(
                    FrameView {
                        join_ref: Some(reference@),
                        reference: coming_reference(start),
                        topic: handle@.topic,
                        event: push.event@,
                        payload: push.payload@,
                    },
                ) && event@ == push.event@ && caller == push.sender)
                &&& only_channel_and_request(start, end, handle@.id as int, sender)
                &&& end.channels == start.channels
            }
            &&& !caller_is_gone && !start.connected ==> {
                &&& end == start
                &&& (step matches FlushStep::Failed { error, caller } && error == Error::Closed
                    && caller == push.sender)
            }
        }),
{
}

/// A leave is sent as `phx_leave` on the topic, naming the join that is in force,
/// and from then on the channel is not meant to be joined. A closed channel, and
/// one without a transport, is left at once. Whatever the server says, in the
/// end the channel is closed and nobody is in charge of its topic; a timeout or
/// a closed socket is no failure.
pub proof fn law_a_channel_is_left<S, B>(
    handle: &Channel,
    leaving: &mut Socket<S, B>,
    sender: S,
    begun: LeaveStart,
    socket: &mut Socket<S, B>,
    outcome: Result<(String, Json), Error>,
    left: Result<(), Error>,
)
    requires
        old(leaving)@.holds(handle@),
        call_ensures(Channel::leave::<S, B>, (handle, leaving, sender), begun),
        old(socket)@.holds(handle@),
        call_ensures(Channel::finish_leave::<S, B>, (handle, socket, outcome), left),
    ensures
        ({
            let start = old(leaving)@;
            let end = final(leaving)@;
            let i = handle@.id as int;
            let before = start.channels[i]->Some_0;
            let now = end.channels[i]->Some_0;
            &&& end.channels[i] is Some
            &&& !now.desired_join
            &&& now.buffered_pushes == before.buffered_pushes
            &&& before.state == ChannelState::Closed ==> {
                &&& begun is Done
                &&& only_channel(start, end, i)
                &&& now == (ChannelView { desired_join: false, ..before })
            }
            &&& before.state != ChannelState::Closed && start.connected ==> {
                &&& (begun matches LeaveStart::Send(out) && out.reference@ == coming_reference(
                    start,
                ) && frame_parts(out.frame@) == Some(
                    FrameView {
                        join_ref: before.join_ref,
                        reference: coming_reference(start),
                        topic: handle@.topic,
                        event: "phx_leave"@,
                        payload: JsonView::Object(Seq::empty()),
                    },
                ))
                &&& now == (ChannelView {
                    desired_join: false,
                    state: ChannelState::Leaving,
                    ..before
                })
                &&& only_channel_and_request(start, end, i, sender)
            }
            &&& before.state != ChannelState::Closed && !start.connected ==> {
                &&& begun is Done
                &&& now.state == ChannelState::Closed
                &&& now.join_ref is None
                &&& !end.registry.contains_key(handle@.topic)
                &&& only_channel(start, SocketView { registry: start.registry, ..end }, i)
                &&& forall|t: Seq<char>|
                    t != handle@.topic ==> (#[trigger] end.registry.contains_key(t))
                        == start.registry.contains_key(t) && end.registry[t] == start.registry[t]
            }
        }),
        ({
            let start = old(socket)@;
            let end = final(socket)@;
            let i = handle@.id as int;
            let before = start.channels[i]->Some_0;
            &&& end.channels[i] == Some(
                ChannelView { state: ChannelState::Closed, join_ref: None, ..before },
            )
            &&& !end.registry.contains_key(handle@.topic)
            &&& forall|t: Seq<char>|
                t != handle@.topic ==> (#[trigger] end.registry.contains_key(t))
                    == start.registry.contains_key(t) && end.registry[t] == start.registry[t]
            &&& only_channel(start, SocketView { registry: start.registry, ..end }, i)
            &&& (left is Ok) == (outcome is Ok || outcome->Err_0 is Timeout || outcome->Err_0
                is Closed)
            &&& left matches Err(e) ==> outcome == Err::<(String, Json), Error>(e)
        }),
{
}

/// Once a lost transport was replaced, a handle is made to every channel that is
/// in charge of its topic and meant to be joined, and to no other; what is known
/// of a channel stays.
pub proof fn law_every_wanted_channel_is_rejoined<S, B>(
    socket: &mut Socket<S, B>,
    handles: Vec<Channel>,
    i: usize,
    j: int,
    k: int,
)
    requires
        call_ensures(Socket::<S, B>::rejoin_channels, (socket,), handles),
        i < old(socket)@.channels.len(),
    ensures
        ({
            let start = old(socket)@;
            let end = final(socket)@;
            let before = start.channels[i as int];
            let topic = before->Some_0.topic;
            let wanted = before is Some && before->Some_0.desired_join
                && start.registry.contains_key(topic) && start.registry[topic] == i;
            &&& (exists|n: int| 0 <= n < handles@.len() && (#[trigger] handles@[n])@.id == i)
                == wanted
            &&& 0 <= j < k < handles@.len() ==> handles@[j]@.id != handles@[k]@.id
            &&& 0 <= j < handles@.len() ==> end.holds(handles@[j]@)
            &&& end.channels.len() == start.channels.len()
            &&& before is None ==> end.channels[i as int] is None
            &&& before matches Some(c) ==> {
                let now = end.channels[i as int]->Some_0;
                &&& end.channels[i as int] is Some
                &&& now == (ChannelView { handles: now.handles, ..c })
                &&& now.handles == if wanted && c.handles < u64::MAX {
                    c.handles + 1
                } else {
                    c.handles as int
                }
            }
            &&& end == (SocketView { channels: end.channels, ..start })
        }),
{
    let start = old(socket)@;
    let n = start.channels.len();
    let row = start.rejoining_below(n);
    law_rejoining_channels_are_all(start, n);
    assert(occupied(start.channels, i as int) == (start.channels[i as int] is Some));
    assert(row.contains(i as int) == start.rejoins(i as int));
    if row.contains(i as int) {
        let m = choose|m: int| 0 <= m < row.len() && row[m] == i as int;
        assert(handles@[m]@.id == i);
    }
    if exists|m: int| 0 <= m < handles@.len() && (#[trigger] handles@[m])@.id == i {
        let m = choose|m: int| 0 <= m < handles@.len() && (#[trigger] handles@[m])@.id == i;
        assert(row[m] == i as int);
    }
    if 0 <= j < k < handles@.len() {
        assert(handles@[j]@.id == row[j] && handles@[k]@.id == row[k]);
    }
}

/// A channel listens to the events of its own topic.
pub proof fn law_a_channel_listens_to_its_topic<S, B>(
    handle: &Channel,
    socket: &mut Socket<S, B>,
    event: &str,
    fresh: B,
    got: Vec<Json>,
    other: &mut Socket<S, B>,
    key: EventKey,
    same: Vec<Json>,
)
    requires
        call_ensures(Channel::subscribe::<S, B>, (handle, socket, event, fresh), got),
        old(other)@ == old(socket)@,
        key.topic@ == handle@.topic,
        key.event@ == event@,
        call_ensures(Socket::<S, B>::subscribe, (other, key, fresh), same),
    ensures
        json_views(got@) == json_views(same@),
        final(socket)@ == final(other)@,
{
}

/// A frame is an array of five and nothing else is: join reference, reference,
/// topic, event and payload, where what is no string counts as empty, and as no
/// join reference.
pub proof fn law_a_frame_is_an_array_of_five(frame: &Json, parts: Option<Frame>)
    requires
        call_ensures(take_apart, (frame,), parts),
    ensures
        (parts is Some) == (frame@ is Array && frame@->Array_0.len() == 5),
        parts matches Some(f) ==> {
            let items = frame@->Array_0;
            &&& match items[0] {
                JsonView::Text(s) => option_view(f.join_ref) == Some(s),
                _ => f.join_ref is None,
            }
            &&& match items[1] {
                JsonView::Text(s) => f.reference@ == s,
                _ => f.reference@.len() == 0,
            }
            &&& match items[2] {
                JsonView::Text(s) => f.topic@ == s,
                _ => f.topic@.len() == 0,
            }
            &&& match items[3] {
                JsonView::Text(s) => f.event@ == s,
                _ => f.event@.len() == 0,
            }
            &&& f.payload@ == items[4]
        },
{
}

/// A frame belongs to the current join exactly where it names no join or that
/// one.
pub proof fn law_a_frame_belongs_to_its_join(
    frame: Option<&str>,
    current: Option<&str>,
    belongs: bool,
)
    requires
        call_ensures(join_ref_matches, (frame, current), belongs),
    ensures
        frame is None ==> belongs,
        frame is Some && current is None ==> !belongs,
        frame is Some && current is Some ==> belongs == (frame->Some_0@ == current->Some_0@),
{
}

/// A push is made with the join that its channel is in when it is made, whichever
/// that is.
pub proof fn law_a_push_is_made_in_the_current_join<S, B>(
    handle: &Channel,
    socket: &mut Socket<S, B>,
    push: BufferedPush<S>,
    sender: S,
    step: FlushStep<S>,
)
    requires
        old(socket)@.holds(handle@),
        old(socket)@.connected,
        call_ensures(Channel::flush_push::<S, B>, (handle, socket, push, false, sender), step),
    ensures
        step matches FlushStep::Send { outgoing, event, caller } && frame_parts(outgoing.frame@)
            == Some(
            FrameView {
                join_ref: old(socket)@.channels[handle@.id as int]->Some_0.join_ref,
                reference: coming_reference(old(socket)@),
                topic: handle@.topic,
                event: push.event@,
                payload: push.payload@,
            },
        ),
{
}

/// A handle tells its topic and number; a socket holds it exactly where the
/// channel of that number is there and has that topic; and what it tells of the
/// channel is what the socket knows.
pub proof fn law_a_handle_tells_of_its_channel<S, B>(
    handle: &Channel,
    socket: &Socket<S, B>,
    topic: &str,
    number: usize,
    held: bool,
    state: ChannelState,
    wanted: bool,
)
    requires
        call_ensures(Channel::topic, (handle,), topic),
        call_ensures(Channel::number, (handle,), number),
        call_ensures(Socket::<S, B>::holds, (socket, handle), held),
        call_ensures(Channel::state::<S, B>, (handle, socket), state),
        call_ensures(Channel::wants_join::<S, B>, (handle, socket), wanted),
    ensures
        topic@ == handle@.topic,
        number == handle@.id,
        held == (number < socket@.channels.len() && socket@.channels[number as int] is Some
            && socket@.channels[number as int]->Some_0.topic == topic@),
        held ==> state == socket@.channels[number as int]->Some_0.state,
        held ==> wanted == socket@.channels[number as int]->Some_0.desired_join,
{
}

/// A frame that was built is taken apart into what it was built from.
pub proof fn law_a_built_frame_is_taken_apart(
    join_ref: Option<String>,
    reference: &str,
    topic: &str,
    event: &str,
    payload: Json,
    frame: Json,
    built: &Json,
    parts: Option<Frame>,
)
    requires
        call_ensures(build_message, (join_ref, reference, topic, event, payload), frame),
        built@ == frame@,
        call_ensures(take_apart, (built,), parts),
    ensures
        parts is Some,
        option_view(parts->Some_0.join_ref) == option_view(join_ref),
        parts->Some_0.reference@ == reference@,
        parts->Some_0.topic@ == topic@,
        parts->Some_0.event@ == event@,
        parts->Some_0.payload@ == payload@,
{
}

/// A failure of a channel without a payload says what failed, where and why.
pub proof fn law_a_channel_failure_says_why(
    topic: &str,
    operation: &str,
    reason: &str,
    error: Error,
)
    requires
        call_ensures(channel_error, (topic, operation, reason), error),
    ensures
        error matches Error::Channel(e) && e.operation@ == operation@ && e.topic@ == topic@
            && e.reason@ == reason@ && e.payload is None,
{
}

/// Joining again after a reconnect is joining, for a channel that is meant to be
/// joined.
pub proof fn law_a_rejoin_is_a_join<S, B>(
    handle: &Channel,
    one: &mut Socket<S, B>,
    other: &mut Socket<S, B>,
    sender: S,
    again: Option<JoinStart>,
    begun: JoinStart,
)
    requires
        old(one)@.holds(handle@),
        old(one)@.channels[handle@.id as int]->Some_0.desired_join,
        old(other)@ == old(one)@,
        call_ensures(Channel::begin_rejoin::<S, B>, (handle, one, sender), again),
        call_ensures(Channel::begin_join::<S, B>, (handle, other, sender), begun),
    ensures
        final(one)@ == final(other)@,
        match begun {
            JoinStart::Send(out) => again matches Some(JoinStart::Send(sent)) && sent.frame@
                == out.frame@ && sent.reference@ == out.reference@,
            JoinStart::Done(v) => again matches Some(JoinStart::Done(w)) && w@ == v@,
            JoinStart::Failed(e) => again == Some(JoinStart::Failed(e)),
        },
{
}

} // verus!
