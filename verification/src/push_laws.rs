//! What becomes of a push that waits for its channel to be joined.
use vstd::prelude::*;
use crate::builder::SocketConfig;
use crate::channel::{without_push, HandleView, PushView, ReceivedView, SocketView};
use crate::channel_laws::{
    after, first_free_is_free, handed_out, law_request_is_answered_once, more_are_handed_out,
    one_reference_at_a_time, reached, run, the_next_is_not_handed_out, Operation,
};
use crate::json::JsonView;
use crate::phoenix::{message, ChannelState, FrameView};
use crate::text::decimal;

verus! {

/// The pushes that wait for a channel to be joined, oldest first; none where
/// there is no channel of that number.
pub open spec fn queue<S, B>(socket: SocketView<S, B>, i: int) -> Seq<PushView<S>> {
    if socket.has_channel(i) {
        socket.channel(i).buffered_pushes
    } else {
        Seq::empty()
    }
}

/// Whether a push of that reference waits in a queue.
pub open spec fn names<S>(waiting: Seq<PushView<S>>, reference: Seq<char>) -> bool {
    exists|k: int| 0 <= k < waiting.len() && (#[trigger] waiting[k]).reference == reference
}

/// Whether a push has that place in a queue, and no other push there has its
/// reference.
pub open spec fn once_at<S>(waiting: Seq<PushView<S>>, push: PushView<S>, k: int) -> bool {
    &&& 0 <= k < waiting.len()
    &&& waiting[k] == push
    &&& forall|j: int|
        0 <= j < waiting.len() && j != k ==> (#[trigger] waiting[j]).reference != push.reference
}

/// Whether a push waits in a queue exactly once.
pub open spec fn waits_once<S>(waiting: Seq<PushView<S>>, push: PushView<S>) -> bool {
    exists|k: int| #[trigger] once_at(waiting, push, k)
}

/// Whether a channel keeps its pushes waiting: it is meant to be joined, and it
/// is not.
pub open spec fn queues_pushes<S, B>(socket: SocketView<S, B>, i: int) -> bool {
    &&& socket.has_channel(i)
    &&& socket.channel(i).state != ChannelState::Joined
    &&& socket.channel(i).desired_join
}

/// Whether an operation ends the wait of a push: its channel is joined, it waited
/// too long, or the channel goes with its last handle.
pub open spec fn ends_wait<S, B>(
    socket: SocketView<S, B>,
    op: Operation<S, B>,
    i: int,
    reference: Seq<char>,
) -> bool {
    match op {
        Operation::Joined(j, _) => j == i,
        Operation::Unqueue(j, given_up) => j == i && given_up == reference,
        Operation::Release(j) => j == i && socket.channel(i).handles <= 1,
        _ => false,
    }
}

/// Whether none of a row of operations ends the wait of a push.
pub open spec fn keeps_waiting<S, B>(
    socket: SocketView<S, B>,
    ops: Seq<Operation<S, B>>,
    i: int,
    reference: Seq<char>,
) -> bool
    decreases ops.len(),
{
    ops.len() == 0 || (!ends_wait(socket, ops[0], i, reference) && keeps_waiting(
        after(socket, ops[0]),
        ops.drop_first(),
        i,
        reference,
    ))
}

spec fn queue_after<S, B>(socket: SocketView<S, B>, op: Operation<S, B>, i: int) -> Seq<
    PushView<S>,
> {
    match op {
        Operation::Push(j, event, payload, sender) => if j == i && queues_pushes(socket, i) {
            queue(socket, i).push(
                PushView { reference: socket.next_reference(), event, payload, sender },
            )
        } else {
            queue(socket, i)
        },
        Operation::Unqueue(j, reference) => if j == i {
            without_push(queue(socket, i), reference)
        } else {
            queue(socket, i)
        },
        Operation::Joined(j, _) => if j == i {
            Seq::empty()
        } else {
            queue(socket, i)
        },
        Operation::Release(j) => if j == i && socket.channel(i).handles <= 1 {
            Seq::empty()
        } else {
            queue(socket, i)
        },
        _ => queue(socket, i),
    }
}

proof fn queues_follow<S, B>(socket: SocketView<S, B>, op: Operation<S, B>, i: int)
    ensures
        queue(after(socket, op), i) == queue_after(socket, op, i),
        (op !is Release || op->Release_0 != i || socket.channel(i).handles > 1)
            && socket.has_channel(i) ==> after(socket, op).has_channel(i),
{
    let end = after(socket, op);
    match op {
        Operation::Channel(topic) => {
            first_free_is_free(socket.channels, 0);
        },
        Operation::Unqueue(j, reference) => {
            if !socket.has_channel(i) {
                assert(without_push(queue(socket, i), reference) =~= Seq::empty()) by {
                    reveal(Seq::filter);
                }
            }
        },
        Operation::Receive(document) => {
            assert(end.has_channel(i) == socket.has_channel(i));
        },
        Operation::Disconnect => {
            assert(end.has_channel(i) == socket.has_channel(i));
        },
        Operation::RejoinChannels => {
            assert(end.has_channel(i) == socket.has_channel(i));
        },
        _ => {},
    }
}

spec fn distinct<S>(waiting: Seq<PushView<S>>) -> bool {
    forall|k: int, l: int|
        0 <= k < l < waiting.len() ==> (#[trigger] waiting[k]).reference != (
        #[trigger] waiting[l]).reference
}

spec fn known<S>(waiting: Seq<PushView<S>>, refs: u64) -> bool {
    forall|k: int|
        0 <= k < waiting.len() ==> handed_out((#[trigger] waiting[k]).reference, refs)
}

spec fn apart<S>(a: Seq<PushView<S>>, b: Seq<PushView<S>>) -> bool {
    forall|k: int, l: int|
        0 <= k < a.len() && 0 <= l < b.len() ==> (#[trigger] a[k]).reference != (
        #[trigger] b[l]).reference
}

/// The references of the pushes that wait were handed out, and no two are the
/// same.
spec fn sound<S, B>(socket: SocketView<S, B>) -> bool {
    &&& forall|i: int|
        known(#[trigger] queue(socket, i), socket.refs) && distinct(queue(socket, i))
    &&& forall|i: int, j: int|
        i != j ==> apart(#[trigger] queue(socket, i), #[trigger] queue(socket, j))
}

/// A queue without a reference holds what it held but for that.
proof fn what_is_left<S>(waiting: Seq<PushView<S>>, reference: Seq<char>)
    ensures
        ({
            let left = without_push(waiting, reference);
            &&& forall|k: int| 0 <= k < left.len() ==> waiting.contains(#[trigger] left[k])
            &&& distinct(waiting) ==> distinct(left)
            &&& !names(left, reference)
        }),
    decreases waiting.len(),
{
    reveal(Seq::filter);
    let left = without_push(waiting, reference);
    if waiting.len() > 0 {
        let front = waiting.drop_last();
        let kept = without_push(front, reference);
        what_is_left(front, reference);
        assert forall|k: int| 0 <= k < left.len() implies waiting.contains(#[trigger] left[k])
            && left[k].reference != reference by {
            if k < kept.len() {
                assert(left[k] == kept[k]);
                let l = choose|l: int| 0 <= l < front.len() && front[l] == kept[k];
                assert(waiting[l] == left[k]);
            } else {
                assert(waiting[waiting.len() - 1] == left[k]);
            }
        }
        if distinct(waiting) {
            assert(distinct(front)) by {
                assert forall|k: int, l: int| 0 <= k < l < front.len() implies (
                #[trigger] front[k]).reference != (#[trigger] front[l]).reference by {
                    assert(front[k] == waiting[k] && front[l] == waiting[l]);
                }
            }
            assert forall|k: int, l: int| 0 <= k < l < left.len() implies (
            #[trigger] left[k]).reference != (#[trigger] left[l]).reference by {
                assert(left[k] == kept[k]);
                if l < kept.len() {
                    assert(left[l] == kept[l]);
                } else {
                    let m = choose|m: int| 0 <= m < front.len() && front[m] == kept[k];
                    assert(waiting[m] == left[k]);
                    assert(waiting[waiting.len() - 1] == left[l]);
                }
            }
        }
    }
}

/// Without the one push of a reference, the rest of a queue stays as it was.
proof fn one_is_left_out<S>(waiting: Seq<PushView<S>>, push: PushView<S>, at: int)
    requires
        once_at(waiting, push, at),
    ensures
        without_push(waiting, push.reference) == waiting.remove(at),
    decreases waiting.len(),
{
    reveal(Seq::filter);
    let front = waiting.drop_last();
    if at == waiting.len() - 1 {
        assert(waiting.remove(at) =~= front);
        filter_of_kept(front, |p: PushView<S>| p.reference != push.reference);
    } else {
        assert(once_at(front, push, at));
        one_is_left_out(front, push, at);
        assert(waiting.last().reference != push.reference);
        assert(front.remove(at).push(waiting.last()) =~= waiting.remove(at));
    }
}

proof fn filter_of_kept<T>(row: Seq<T>, keep: spec_fn(T) -> bool)
    requires
        forall|k: int| 0 <= k < row.len() ==> keep(#[trigger] row[k]),
    ensures
        row.filter(keep) == row,
    decreases row.len(),
{
    reveal(Seq::filter);
    if row.len() > 0 {
        filter_of_kept(row.drop_last(), keep);
        assert(row.drop_last().push(row.last()) =~= row);
    }
}

/// Whether an operation queues a push for a channel.
spec fn queues_for<S, B>(socket: SocketView<S, B>, op: Operation<S, B>, i: int) -> bool {
    op is Push && op->Push_0 == i && queues_pushes(socket, i)
}

/// Of a queue an operation leaves a part, or adds a push under the next
/// reference.
proof fn queue_step<S, B>(socket: SocketView<S, B>, op: Operation<S, B>, i: int)
    requires
        sound(socket),
        socket.refs < u64::MAX,
    ensures
        ({
            let end = after(socket, op);
            let before = queue(socket, i);
            let now = queue(end, i);
            &&& distinct(now)
            &&& known(now, end.refs)
            &&& end.refs == socket.refs || end.refs == socket.refs + 1
            &&& forall|k: int|
                0 <= k < now.len() ==> before.contains(#[trigger] now[k]) || (queues_for(
                    socket,
                    op,
                    i,
                ) && now[k].reference == socket.next_reference())
        }),
{
    let end = after(socket, op);
    let before = queue(socket, i);
    let now = queue(end, i);
    queues_follow(socket, op, i);
    one_reference_at_a_time(socket, op, Seq::empty());
    assert(known(before, socket.refs) && distinct(before));
    match op {
        Operation::Unqueue(j, reference) => {
            what_is_left(before, reference);
        },
        _ => {},
    }
    assert forall|k: int| 0 <= k < now.len() implies before.contains(#[trigger] now[k]) || (
    queues_for(socket, op, i) && now[k].reference == socket.next_reference()) by {
        if k < before.len() && op !is Unqueue {
            assert(now[k] == before[k]);
        }
    }
    assert forall|k: int| 0 <= k < now.len() implies handed_out(
        (#[trigger] now[k]).reference,
        end.refs,
    ) by {
        if before.contains(now[k]) {
            let l = choose|l: int| 0 <= l < before.len() && before[l] == now[k];
            assert(handed_out(before[l].reference, socket.refs));
            more_are_handed_out(now[k].reference, socket.refs, end.refs);
        } else {
            assert(now[k].reference == decimal((socket.refs + 1) as u64 as nat));
        }
    }
    if queues_for(socket, op, i) {
        assert forall|k: int, l: int| 0 <= k < l < now.len() implies (
        #[trigger] now[k]).reference != (#[trigger] now[l]).reference by {
            assert(now[k] == before[k]);
            if l < before.len() {
                assert(now[l] == before[l]);
            } else {
                assert(handed_out(before[k].reference, socket.refs));
                the_next_is_not_handed_out(before[k].reference, socket.refs);
            }
        }
    }
}

proof fn sound_after<S, B>(socket: SocketView<S, B>, op: Operation<S, B>)
    requires
        sound(socket),
        socket.refs < u64::MAX,
    ensures
        sound(after(socket, op)),
        socket.refs <= after(socket, op).refs <= socket.refs + 1,
{
    let end = after(socket, op);
    queue_step(socket, op, 0);
    assert forall|i: int| known(#[trigger] queue(end, i), end.refs) && distinct(queue(end, i)) by {
        queue_step(socket, op, i);
    }
    assert forall|i: int, j: int| i != j implies apart(
        #[trigger] queue(end, i),
        #[trigger] queue(end, j),
    ) by {
        queue_step(socket, op, i);
        queue_step(socket, op, j);
        let a = queue(socket, i);
        let b = queue(socket, j);
        assert(apart(a, b));
        assert forall|k: int, l: int|
            0 <= k < queue(end, i).len() && 0 <= l < queue(end, j).len() implies (
        #[trigger] queue(end, i)[k]).reference != (#[trigger] queue(end, j)[l]).reference by {
            let p = queue(end, i)[k];
            let q = queue(end, j)[l];
            if a.contains(p) {
                let m = choose|m: int| 0 <= m < a.len() && a[m] == p;
                assert(handed_out(a[m].reference, socket.refs));
                the_next_is_not_handed_out(p.reference, socket.refs);
                if b.contains(q) {
                    let n = choose|n: int| 0 <= n < b.len() && b[n] == q;
                    assert(a[m].reference != b[n].reference);
                }
            } else {
                assert(b.contains(q));
                let n = choose|n: int| 0 <= n < b.len() && b[n] == q;
                assert(handed_out(b[n].reference, socket.refs));
                the_next_is_not_handed_out(q.reference, socket.refs);
            }
        }
    }
}

proof fn stays_sound<S, B>(socket: SocketView<S, B>, ops: Seq<Operation<S, B>>)
    requires
        sound(socket),
        socket.refs + ops.len() <= u64::MAX,
    ensures
        sound(run(socket, ops)),
        socket.refs <= run(socket, ops).refs <= socket.refs + ops.len(),
    decreases ops.len(),
{
    if ops.len() > 0 {
        sound_after(socket, ops[0]);
        stays_sound(after(socket, ops[0]), ops.drop_first());
    }
}

proof fn sound_from_the_start<S, B>(config: SocketConfig, ops: Seq<Operation<S, B>>)
    requires
        ops.len() <= u64::MAX,
    ensures
        sound(run(SocketView::<S, B>::opened(config), ops)),
        run(SocketView::<S, B>::opened(config), ops).refs <= ops.len(),
{
    let start = SocketView::<S, B>::opened(config);
    assert forall|i: int| known(#[trigger] queue(start, i), start.refs) && distinct(
        queue(start, i),
    ) by {
        assert(queue(start, i).len() == 0);
    }
    stays_sound(start, ops);
}

/// The push that a channel queues next.
pub open spec fn next_push<S, B>(
    socket: SocketView<S, B>,
    event: Seq<char>,
    payload: JsonView,
    sender: S,
) -> PushView<S> {
    PushView { reference: socket.next_reference(), event, payload, sender }
}

/// No two pushes that wait have the same reference, whatever channels they wait
/// for, and none has the reference that comes next.
pub proof fn law_waiting_pushes_have_distinct_references<S, B>(
    config: SocketConfig,
    ops: Seq<Operation<S, B>>,
    i: int,
    k: int,
    j: int,
    l: int,
)
    requires
        ops.len() < 0x1_0000_0000_0000_0000,
        reached(config, ops).has_channel(i),
        reached(config, ops).has_channel(j),
        0 <= k < reached(config, ops).channel(i).buffered_pushes.len(),
        0 <= l < reached(config, ops).channel(j).buffered_pushes.len(),
    ensures
        ({
            let end = reached(config, ops);
            let one = end.channel(i).buffered_pushes[k];
            let other = end.channel(j).buffered_pushes[l];
            &&& one.reference != end.next_reference()
            &&& i != j || k != l ==> one.reference != other.reference
        }),
{
    let end = reached(config, ops);
    sound_from_the_start(config, ops);
    assert(known(queue(end, i), end.refs) && distinct(queue(end, i)));
    assert(handed_out(queue(end, i)[k].reference, end.refs));
    the_next_is_not_handed_out(queue(end, i)[k].reference, end.refs);
    if i != j {
        assert(apart(queue(end, i), queue(end, j)));
        assert(queue(end, i)[k].reference != queue(end, j)[l].reference);
    } else if k < l {
        assert(queue(end, i)[k].reference != queue(end, i)[l].reference);
    } else if l < k {
        assert(queue(end, i)[l].reference != queue(end, i)[k].reference);
    }
}

proof fn leaves_nothing<S, B>(
    socket: SocketView<S, B>,
    i: int,
    event: Seq<char>,
    payload: JsonView,
    sender: S,
)
    requires
        queues_pushes(socket, i),
        forall|k: int|
            0 <= k < queue(socket, i).len() ==> (#[trigger] queue(socket, i)[k]).reference
                != socket.next_reference(),
    ensures
        after(
            after(socket, Operation::Push(i, event, payload, sender)),
            Operation::Unqueue(i, socket.next_reference()),
        ) == socket.with_reference_taken(),
{
    let push = next_push(socket, event, payload, sender);
    let before = socket.channel(i).buffered_pushes;
    assert(without_push(before.push(push), push.reference) == before) by {
        let last = before.len() as int;
        assert(queue(socket, i) == before);
        assert(once_at(before.push(push), push, last));
        one_is_left_out(before.push(push), push, last);
        assert(before.push(push).remove(last) =~= before);
    }
    let queued = socket.with_queued(i, event, payload, sender);
    let left = queued.with_queue_without(i, push.reference);
    assert(queued.channel(i).buffered_pushes == before.push(push));
    assert(left.channels[i] == socket.channels[i]);
    assert(left.channels =~= socket.channels);
}

/// A push that waited too long leaves nothing behind but that a reference was
/// taken for it.
pub proof fn law_timed_out_push_leaves_nothing<S, B>(
    config: SocketConfig,
    ops: Seq<Operation<S, B>>,
    i: int,
    event: Seq<char>,
    payload: JsonView,
    sender: S,
)
    requires
        ops.len() < 0x1_0000_0000_0000_0000,
        queues_pushes(reached(config, ops), i),
    ensures
        ({
            let socket = reached(config, ops);
            after(
                after(socket, Operation::Push(i, event, payload, sender)),
                Operation::Unqueue(i, socket.next_reference()),
            ) == socket.with_reference_taken()
        }),
{
    let socket = reached(config, ops);
    let push = next_push(socket, event, payload, sender);
    let before = queue(socket, i);
    sound_from_the_start(config, ops);
    assert(known(before, socket.refs));
    assert forall|k: int| 0 <= k < before.len() implies (#[trigger] before[k]).reference
        != push.reference by {
        assert(handed_out(before[k].reference, socket.refs));
        the_next_is_not_handed_out(before[k].reference, socket.refs);
    }
    leaves_nothing(socket, i, event, payload, sender);
}

proof fn kept_stays<S>(waiting: Seq<PushView<S>>, reference: Seq<char>, push: PushView<S>)
    requires
        waiting.contains(push),
        push.reference != reference,
    ensures
        without_push(waiting, reference).contains(push),
    decreases waiting.len(),
{
    reveal(Seq::filter);
    let front = waiting.drop_last();
    let left = without_push(waiting, reference);
    if waiting.last() == push {
        assert(left[left.len() - 1] == push);
    } else {
        let k = choose|k: int| 0 <= k < waiting.len() && waiting[k] == push;
        assert(front[k] == push);
        kept_stays(front, reference, push);
        let kept = without_push(front, reference);
        let l = choose|l: int| 0 <= l < kept.len() && kept[l] == push;
        assert(left[l] == push);
    }
}

proof fn contained_once<S>(waiting: Seq<PushView<S>>, push: PushView<S>)
    requires
        waiting.contains(push),
        distinct(waiting),
    ensures
        waits_once(waiting, push),
{
    let k = choose|k: int| 0 <= k < waiting.len() && waiting[k] == push;
    assert forall|j: int| 0 <= j < waiting.len() && j != k implies (
    #[trigger] waiting[j]).reference != push.reference by {
        if j < k {
            assert(waiting[j].reference != waiting[k].reference);
        } else {
            assert(waiting[k].reference != waiting[j].reference);
        }
    }
    assert(once_at(waiting, push, k));
}

proof fn goes_on_waiting<S, B>(
    socket: SocketView<S, B>,
    ops: Seq<Operation<S, B>>,
    i: int,
    push: PushView<S>,
)
    requires
        sound(socket),
        socket.refs + ops.len() <= u64::MAX,
        socket.has_channel(i),
        queue(socket, i).contains(push),
        keeps_waiting(socket, ops, i, push.reference),
    ensures
        run(socket, ops).has_channel(i),
        queue(run(socket, ops), i).contains(push),
    decreases ops.len(),
{
    if ops.len() > 0 {
        let op = ops[0];
        let next = after(socket, op);
        let before = queue(socket, i);
        let now = queue(next, i);
        sound_after(socket, op);
        queues_follow(socket, op, i);
        let k = choose|k: int| 0 <= k < before.len() && before[k] == push;
        match op {
            Operation::Unqueue(j, reference) => {
                if j == i {
                    kept_stays(before, reference, push);
                }
            },
            _ => {
                assert(now[k] == push);
            },
        }
        goes_on_waiting(next, ops.drop_first(), i, push);
    }
}

/// Whether no push of that reference waits for any channel.
pub open spec fn waits_nowhere<S, B>(socket: SocketView<S, B>, reference: Seq<char>) -> bool {
    forall|i: int| !names(#[trigger] queue(socket, i), reference)
}

proof fn what_is_gone_stays_gone<S, B>(
    socket: SocketView<S, B>,
    ops: Seq<Operation<S, B>>,
    reference: Seq<char>,
)
    requires
        sound(socket),
        socket.refs + ops.len() <= u64::MAX,
        handed_out(reference, socket.refs),
        waits_nowhere(socket, reference),
    ensures
        waits_nowhere(run(socket, ops), reference),
    decreases ops.len(),
{
    if ops.len() > 0 {
        let op = ops[0];
        let next = after(socket, op);
        sound_after(socket, op);
        assert forall|i: int| !names(#[trigger] queue(next, i), reference) by {
            queue_step(socket, op, i);
            let before = queue(socket, i);
            let now = queue(next, i);
            if names(now, reference) {
                let k = choose|k: int| 0 <= k < now.len() && (#[trigger] now[k]).reference
                    == reference;
                the_next_is_not_handed_out(reference, socket.refs);
                let l = choose|l: int| 0 <= l < before.len() && before[l] == now[k];
                assert(before[l].reference == reference);
                assert(names(before, reference));
            }
        }
        more_are_handed_out(reference, socket.refs, next.refs);
        what_is_gone_stays_gone(next, ops.drop_first(), reference);
    }
}

/// Whether a push is queued after a row of operations, and another row does not
/// end its wait.
pub open spec fn is_kept_waiting<S, B>(
    config: SocketConfig,
    before: Seq<Operation<S, B>>,
    i: int,
    event: Seq<char>,
    payload: JsonView,
    sender: S,
    during: Seq<Operation<S, B>>,
) -> bool {
    let socket = reached(config, before);
    &&& queues_pushes(socket, i)
    &&& keeps_waiting(
        after(socket, Operation::Push(i, event, payload, sender)),
        during,
        i,
        socket.next_reference(),
    )
}

/// A socket on which a push was queued after a row of operations, after another
/// row.
pub open spec fn waited<S, B>(
    config: SocketConfig,
    before: Seq<Operation<S, B>>,
    i: int,
    event: Seq<char>,
    payload: JsonView,
    sender: S,
    during: Seq<Operation<S, B>>,
) -> SocketView<S, B> {
    run(after(reached(config, before), Operation::Push(i, event, payload, sender)), during)
}

/// What is known of a push right after it was queued, and as long as it waits.
proof fn a_queued_push<S, B>(
    config: SocketConfig,
    before: Seq<Operation<S, B>>,
    i: int,
    event: Seq<char>,
    payload: JsonView,
    sender: S,
    during: Seq<Operation<S, B>>,
)
    requires
        before.len() + during.len() + 1 < 0x1_0000_0000_0000_0000,
        is_kept_waiting(config, before, i, event, payload, sender, during),
    ensures
        ({
            let socket = reached(config, before);
            let push = next_push(socket, event, payload, sender);
            let end = waited(config, before, i, event, payload, sender, during);
            &&& sound(end)
            &&& end.refs <= before.len() + during.len() + 1
            &&& handed_out(push.reference, end.refs)
            &&& end.has_channel(i)
            &&& waits_once(queue(end, i), push)
            &&& forall|j: int| j != i ==> !names(#[trigger] queue(end, j), push.reference)
        }),
{
    let socket = reached(config, before);
    let push = next_push(socket, event, payload, sender);
    let queued = after(socket, Operation::Push(i, event, payload, sender));
    let end = run(queued, during);
    sound_from_the_start(config, before);
    sound_after(socket, Operation::Push(i, event, payload, sender));
    let waiting = queue(queued, i);
    assert(waiting == queue(socket, i).push(push));
    assert(waiting[waiting.len() - 1] == push);
    assert(handed_out(push.reference, queued.refs)) by {
        assert(push.reference == decimal((socket.refs + 1) as u64 as nat));
    }
    stays_sound(queued, during);
    goes_on_waiting(queued, during, i, push);
    more_are_handed_out(push.reference, queued.refs, end.refs);
    contained_once(queue(end, i), push);
    assert forall|j: int| j != i implies !names(#[trigger] queue(end, j), push.reference) by {
        assert(apart(queue(end, i), queue(end, j)));
        let k = choose|k: int| 0 <= k < queue(end, i).len() && queue(end, i)[k] == push;
        if names(queue(end, j), push.reference) {
            let l = choose|l: int| 0 <= l < queue(end, j).len() && (
            #[trigger] queue(end, j)[l]).reference == push.reference;
            assert(queue(end, i)[k].reference != queue(end, j)[l].reference);
        }
    }
}

/// A push to a channel that is meant to be joined and is not begins no request.
/// Until the channel is joined, the push has waited too long or the last handle
/// is gone, it waits for its channel, once, and for no other, whatever happens.
pub proof fn law_a_queued_push_waits<S, B>(
    config: SocketConfig,
    before: Seq<Operation<S, B>>,
    i: int,
    event: Seq<char>,
    payload: JsonView,
    sender: S,
    during: Seq<Operation<S, B>>,
)
    requires
        before.len() + during.len() + 1 < 0x1_0000_0000_0000_0000,
        is_kept_waiting(config, before, i, event, payload, sender, during),
    ensures
        ({
            let socket = reached(config, before);
            let push = next_push(socket, event, payload, sender);
            let queued = after(socket, Operation::Push(i, event, payload, sender));
            let end = waited(config, before, i, event, payload, sender, during);
            &&& queued.pending == socket.pending
            &&& end.has_channel(i)
            &&& waits_once(end.channel(i).buffered_pushes, push)
            &&& forall|j: int| j != i ==> !names(#[trigger] queue(end, j), push.reference)
        }),
{
    a_queued_push(config, before, i, event, payload, sender, during);
}

/// A push that waited too long leaves the queue, and the pushes before and
/// behind it stay there in their order, as do those for other channels. Whatever
/// happens later, it waits for no channel any more, so that no join hands it out.
pub proof fn law_a_timed_out_push_is_never_handed_out<S, B>(
    config: SocketConfig,
    before: Seq<Operation<S, B>>,
    i: int,
    event: Seq<char>,
    payload: JsonView,
    sender: S,
    during: Seq<Operation<S, B>>,
    later: Seq<Operation<S, B>>,
)
    requires
        before.len() + during.len() + later.len() + 2 < 0x1_0000_0000_0000_0000,
        is_kept_waiting(config, before, i, event, payload, sender, during),
    ensures
        ({
            let socket = reached(config, before);
            let push = next_push(socket, event, payload, sender);
            let end = waited(config, before, i, event, payload, sender, during);
            let given_up = after(end, Operation::Unqueue(i, push.reference));
            &&& exists|k: int|
                {
                    &&& #[trigger] once_at(end.channel(i).buffered_pushes, push, k)
                    &&& given_up.channel(i).buffered_pushes
                        == end.channel(i).buffered_pushes.remove(k)
                }
            &&& forall|j: int| j != i ==> #[trigger] queue(given_up, j) == queue(end, j)
            &&& given_up.pending == end.pending
            &&& waits_nowhere(run(given_up, later), push.reference)
        }),
{
    let socket = reached(config, before);
    let push = next_push(socket, event, payload, sender);
    let end = waited(config, before, i, event, payload, sender, during);
    let op = Operation::<S, B>::Unqueue(i, push.reference);
    let given_up = after(end, op);
    a_queued_push(config, before, i, event, payload, sender, during);
    sound_after(end, op);
    let k = choose|k: int| #[trigger] once_at(queue(end, i), push, k);
    one_is_left_out(queue(end, i), push, k);
    assert(once_at(end.channel(i).buffered_pushes, push, k));
    assert forall|j: int| j != i implies #[trigger] queue(given_up, j) == queue(end, j) by {
        queues_follow(end, op, j);
    }
    assert forall|j: int| !names(#[trigger] queue(given_up, j), push.reference) by {
        queues_follow(end, op, j);
        if j == i {
            what_is_left(queue(end, i), push.reference);
        }
    }
    what_is_gone_stays_gone(given_up, later, push.reference);
}

proof fn requests_keep_channels<S, B>(socket: SocketView<S, B>, ops: Seq<Operation<S, B>>)
    requires
        forall|k: int| 0 <= k < ops.len() ==> #[trigger] ops[k] is Request,
    ensures
        run(socket, ops).channels == socket.channels,
    decreases ops.len(),
{
    if ops.len() > 0 {
        let rest = ops.drop_first();
        assert(ops[0] is Request);
        assert forall|k: int| 0 <= k < rest.len() implies #[trigger] rest[k] is Request by {
            assert(rest[k] == ops[k + 1]);
        }
        requests_keep_channels(after(socket, ops[0]), rest);
    }
}

/// A join hands a push that waits for it out once: the queue that is handed out
/// holds it once, and whatever happens later, it waits for no channel any more,
/// so that no other join hands it out again. Its frame names that join, also
/// where pushes before it were made first, and the reply to that frame reaches
/// the one who made it.
pub proof fn law_a_join_hands_a_waiting_push_out_once<S, B>(
    config: SocketConfig,
    before: Seq<Operation<S, B>>,
    handle: HandleView,
    event: Seq<char>,
    payload: JsonView,
    sender: S,
    during: Seq<Operation<S, B>>,
    join_ref: Seq<char>,
    flushed: Seq<Operation<S, B>>,
    flusher: S,
    answer: FrameView,
    later: Seq<Operation<S, B>>,
)
    requires
        before.len() + during.len() + later.len() + 2 < 0x1_0000_0000_0000_0000,
        is_kept_waiting(config, before, handle.id as int, event, payload, sender, during),
        forall|k: int| 0 <= k < flushed.len() ==> #[trigger] flushed[k] is Request,
        answer.event == "phx_reply"@,
        answer.reference == run(
            after(
                waited(config, before, handle.id as int, event, payload, sender, during),
                Operation::Joined(handle.id as int, join_ref),
            ),
            flushed,
        ).next_reference(),
    ensures
        ({
            let i = handle.id as int;
            let socket = reached(config, before);
            let push = next_push(socket, event, payload, sender);
            let end = waited(config, before, i, event, payload, sender, during);
            let joined = after(end, Operation::Joined(i, join_ref));
            let ready = run(joined, flushed);
            &&& joined.channel(i).state == ChannelState::Joined
            &&& waits_once(end.channel(i).buffered_pushes, push)
            &&& waits_nowhere(run(joined, later), push.reference)
            &&& ready.push_message(handle, event, payload) == message(
                Some(join_ref),
                ready.next_reference(),
                handle.topic,
                event,
                payload,
            )
            &&& ready.with_request(flusher).with_parts(answer).1 == (ReceivedView::<S>::Reply {
                sender: flusher,
                payload: answer.payload,
            })
        }),
{
    let i = handle.id as int;
    let socket = reached(config, before);
    let push = next_push(socket, event, payload, sender);
    let end = waited(config, before, i, event, payload, sender, during);
    let op = Operation::<S, B>::Joined(i, join_ref);
    let joined = after(end, op);
    let ready = run(joined, flushed);
    a_queued_push(config, before, i, event, payload, sender, during);
    sound_after(end, op);
    assert forall|j: int| !names(#[trigger] queue(joined, j), push.reference) by {
        queues_follow(end, op, j);
    }
    what_is_gone_stays_gone(joined, later, push.reference);
    requests_keep_channels(joined, flushed);
    law_request_is_answered_once(ready, flusher, answer);
}

} // verus!
