//! What holds of every network: how deadlock shows, that ended processes
//! stay ended, and that the scheduler is fair.

use vstd::prelude::*;
use crate::error::Error;
use crate::flow::component::{lemma_reactive_never_asks, Component, Reactive};
use crate::flow::network::scheduler::Stage;
use crate::flow::channel::ChannelView;
use crate::flow::network::scheduler::lemma_halted_wf;
use crate::flow::network::{lemma_wf_replaced, NetworkView, Verdict};
use crate::flow::channel::Stamped;
use crate::flow::port::Direction;
use crate::flow::process::retiring::{lemma_retire, lemma_retire_len, retired};
use crate::flow::process::{
    channel_kept, flows, lemma_attached_kept, lemma_evolved_keeps_wiring, ProcessView, Status,
};

verus! {

/// Deadlock. In a network that is no subnetwork, where every process runs,
/// none asks to run without input, none holds a packet back from a send
/// that was suspended, none has a packet or the end of a stream waiting,
/// and each still has a connection on which its sender could send,
/// no process is ready and the network is deadlocked: each waits for
/// another, and the scheduler says so in place of going on for ever.
pub proof fn lemma_mutual_waiting_is_deadlock(net: NetworkView)
    requires
        net.wf(),
        net.mother is None,
        net.procs.len() > 0,
        forall|i: int|
            0 <= i < net.procs.len() ==> {
                &&& (#[trigger] net.procs[i]).status == Status::Running
                &&& !net.procs[i].eager
                &&& !net.procs[i].holds_back()
                &&& !net.procs[i].has_pending_input(net.channels)
                &&& !net.procs[i].inputs_exhausted(net.channels)
            },
    ensures
        net.none_ready(),
        net.verdict() == Verdict::Deadlock,
{
    assert forall|i: int| !#[trigger] net.ready(i) by {
        if 0 <= i < net.procs.len() {
            assert(net.procs[i].status == Status::Running);
        }
    }
    assert(!net.all_terminal()) by {
        assert(net.procs[0].status == Status::Running);
    }
    assert(net.all_started()) by {
        assert forall|i: int| 0 <= i < net.procs.len() implies !(
        #[trigger] net.procs[i]).status.building() by {
            assert(net.procs[i].status == Status::Running);
        }
    }
}

/// A process that is not running is never activated.
pub proof fn lemma_only_running_is_activated(net: NetworkView, i: int)
    requires
        net.picks(i),
    ensures
        0 <= i < net.procs.len(),
        net.procs[i].status == Status::Running,
{
}

/// `Terminated` and `Failed` are final: a step of the scheduler leaves a
/// process that has ended as it is.
pub proof fn lemma_ended_stays_ended(net: NetworkView, next: NetworkView, j: int)
    requires
        net.wf(),
        net.steps_to(next),
        0 <= j < net.procs.len(),
        net.procs[j].status.terminal(),
    ensures
        next.procs.len() == net.procs.len(),
        next.procs[j] == net.procs[j],
{
    let i = choose|i: int| net.picks(i) && #[trigger] net.activates(i, next);
    let (ran, eager, result) = choose|ran: ProcessView, eager: bool, result: Result<(), Error>|
        net.activation(i, ran, eager, result, next);
    assert(net.activation(i, ran, eager, result, next));
    assert(i != j);
}

/// A process never goes back in its life: over a step of the scheduler
/// it stays where it is, or ends.
pub proof fn lemma_life_goes_forward(net: NetworkView, next: NetworkView, j: int)
    requires
        net.wf(),
        net.steps_to(next),
        0 <= j < net.procs.len(),
    ensures
        next.procs.len() == net.procs.len(),
        next.procs[j].name == net.procs[j].name,
        next.procs[j].status == net.procs[j].status || next.procs[j].status.terminal(),
        next.procs[j].status.rank() >= net.procs[j].status.rank(),
{
    let i = choose|i: int| net.picks(i) && #[trigger] net.activates(i, next);
    let (ran, eager, result) = choose|ran: ProcessView, eager: bool, result: Result<(), Error>|
        net.activation(i, ran, eager, result, next);
    assert(net.activation(i, ran, eager, result, next));
}

/// The number of places at which the scheduler looks before it comes to
/// the place `j`, when it starts at `cursor` among `n` places.
pub open spec fn turn(cursor: nat, j: int, n: nat) -> int {
    if j >= cursor {
        j - cursor
    } else {
        j + n - cursor
    }
}

/// Fairness. A ready process that a step passes over comes closer to its
/// turn. Its turn is less than the number of processes, so a process that
/// stays ready is activated before every other process has been activated
/// once more.
pub proof fn lemma_fair(net: NetworkView, next: NetworkView, i: int, j: int)
    requires
        net.wf(),
        net.picks(i),
        net.activates(i, next),
        net.ready(j),
        j != i,
    ensures
        next.procs.len() == net.procs.len(),
        next.cursor == i + 1,
        0 <= turn(next.cursor, j, net.procs.len()) < turn(net.cursor, j, net.procs.len())
            < net.procs.len(),
{
    let (ran, eager, result) = choose|ran: ProcessView, eager: bool, result: Result<(), Error>|
        net.activation(i, ran, eager, result, next);
    assert(net.activation(i, ran, eager, result, next));
    if i >= net.cursor {
        if net.cursor <= j < i {
            assert(!net.ready(j));
        }
    } else {
        if net.cursor <= j || j < i {
            assert(!net.ready(j));
        }
    }
}

/// Isolation. The activation of a process leaves alone every channel on
/// which it neither sends nor receives: the buffer of a connection is
/// shared by its sender and its receiver and by nobody else. A failure
/// that stops the whole network is the one exception.
pub proof fn lemma_activation_is_isolated(net: NetworkView, next: NetworkView, i: int, c: int)
    requires
        net.wf(),
        net.picks(i),
        net.activates(i, next),
        0 <= c < net.channels.len(),
        !net.procs[i].attached(Direction::Out, c),
        !net.procs[i].attached(Direction::In, c),
        !(net.fail_fast && next.procs[i].status == Status::Failed),
    ensures
        next.channels.len() == net.channels.len(),
        next.channels[c] == net.channels[c],
{
    let (ran, eager, result) = choose|ran: ProcessView, eager: bool, result: Result<(), Error>|
        net.activation(i, ran, eager, result, next);
    assert(net.activation(i, ran, eager, result, next));
    let lent = net.lent(i);
    assert(lent.attached(Direction::Out, c) == net.procs[i].attached(Direction::Out, c)) by {
        lemma_attached_kept(net.procs[i], lent, Direction::Out, c);
    }
    assert(lent.attached(Direction::In, c) == net.procs[i].attached(Direction::In, c)) by {
        lemma_attached_kept(net.procs[i], lent, Direction::In, c);
    }
    assert(channel_kept(lent.channels[c], ran.channels[c], false, false));
    let (added, gone) = choose|added: Seq<Stamped>, gone: Seq<Stamped>|
        #[trigger] flows(lent.channels[c], ran.channels[c], added, gone) && (added.len() > 0
            ==> false) && (gone.len() > 0 ==> false);
    assert(ran.channels[c].queue =~= net.channels[c].queue) by {
        assert(added =~= Seq::<Stamped>::empty());
        assert(gone =~= Seq::<Stamped>::empty());
        assert(net.channels[c].queue + added =~= net.channels[c].queue);
        assert(gone + ran.channels[c].queue =~= ran.channels[c].queue);
    }
    assert(ran.channels[c] == net.channels[c]);
    let back = net.returned(i, ran);
    let judged = next.procs[i];
    lemma_evolved_keeps_wiring(lent, ran);
    assert(judged.same_wiring(net.procs[i])) by {
        assert(judged.ports == ran.ports);
    }
    lemma_attached_kept(net.procs[i], judged, Direction::Out, c);
    lemma_attached_kept(net.procs[i], judged, Direction::In, c);
    lemma_retire(judged, back.channels, c);
    assert(retired(back.channels[c], false, false).queue =~= back.channels[c].queue);
}

/// Order is kept across the network. Over a step of the scheduler the
/// buffer of a channel changes by sends and receives alone, packets coming
/// to its back and leaving from its front, unless its receiver has gone
/// and the buffer is emptied. No step reorders, changes or invents a
/// packet in flight.
pub proof fn lemma_step_keeps_order(net: NetworkView, next: NetworkView, c: int)
    requires
        net.wf(),
        net.steps_to(next),
        0 <= c < net.channels.len(),
    ensures
        next.channels.len() == net.channels.len(),
        next.channels[c].capacity == net.channels[c].capacity,
        net.channels[c].closed ==> next.channels[c].closed,
        net.channels[c].abandoned ==> next.channels[c].abandoned,
        next.channels[c].abandoned && !net.channels[c].abandoned ==> next.channels[c].queue.len()
            == 0,
        !next.channels[c].abandoned ==> exists|added: Seq<Stamped>, gone: Seq<Stamped>| #[trigger]
            flows(net.channels[c], next.channels[c], added, gone),
{
    let i = choose|i: int| net.picks(i) && #[trigger] net.activates(i, next);
    let (ran, eager, result) = choose|ran: ProcessView, eager: bool, result: Result<(), Error>|
        net.activation(i, ran, eager, result, next);
    assert(net.activation(i, ran, eager, result, next));
    let lent = net.lent(i);
    assert(channel_kept(
        lent.channels[c],
        ran.channels[c],
        lent.attached(Direction::Out, c),
        lent.attached(Direction::In, c),
    ));
    let (added, gone) = choose|added: Seq<Stamped>, gone: Seq<Stamped>|
        #[trigger] flows(lent.channels[c], ran.channels[c], added, gone) && (added.len() > 0
            ==> lent.attached(Direction::Out, c)) && (gone.len() > 0 ==> lent.attached(
            Direction::In,
            c,
        ));
    let back = net.returned(i, ran);
    let informed = ProcessView { eager, ..back.procs[i] };
    let failed = result is Err;
    let done = failed || informed.completed(back.channels, back.draining);
    let judged = ProcessView {
        status: if failed {
            Status::Failed
        } else if done {
            Status::Terminated
        } else {
            informed.status
        },
        ..informed
    };
    lemma_retire(judged, back.channels, c);
    if !next.channels[c].abandoned {
        assert(next.channels[c].queue =~= ran.channels[c].queue);
        assert(next.channels[c].sent == ran.channels[c].sent);
        assert(flows(net.channels[c], next.channels[c], added, gone));
    }
}

/// A reactive component is never activated because it asks to be: the
/// process that a start sets running for it does not count as asking.
pub proof fn lemma_reactive_is_not_eager_after_start<X: Component>(
    before: Stage<Reactive<X>>,
    after: Stage<Reactive<X>>,
    j: int,
)
    requires
        before.starts_to(after),
        0 <= j < before.parts.len(),
        before.net.procs[j].status.building(),
    ensures
        !after.net.procs[j].eager,
{
    assert(before.started_at(after, j));
    lemma_reactive_never_asks(after.parts[j], after.net.procs[j].eager);
}

/// A reactive component is never activated because it asks to be: after
/// an activation its process does not count as asking.
pub proof fn lemma_reactive_is_not_eager_after_step<X: Component>(
    before: Stage<Reactive<X>>,
    after: Stage<Reactive<X>>,
    i: int,
)
    requires
        before.net.picks(i),
        before.activates(i, after),
    ensures
        !after.net.procs[i].eager,
{
    let (ran, eager, result) = choose|ran: ProcessView, eager: bool, result: Result<(), Error>|
        before.activation(i, ran, eager, result, after);
    assert(before.activation(i, ran, eager, result, after));
    lemma_reactive_never_asks(after.parts[i], eager);
}

/// Failures come from errors alone. An activation that returns no error
/// records no failure and makes no process `Failed`.
pub proof fn lemma_no_error_no_failure(
    net: NetworkView,
    i: int,
    ran: ProcessView,
    eager: bool,
    next: NetworkView,
    j: int,
)
    requires
        net.wf(),
        net.picks(i),
        net.activation(i, ran, eager, Ok(()), next),
        0 <= j < net.procs.len(),
    ensures
        next.failure == net.failure,
        next.procs.len() == net.procs.len(),
        next.procs[j].status == Status::Failed ==> net.procs[j].status == Status::Failed,
{
}

/// The end of a process closes its out-connections: once the process that
/// was activated has ended, every channel on which it sent is closed, so
/// that its receiver comes to the end of the stream.
pub proof fn lemma_end_closes_outputs(net: NetworkView, next: NetworkView, i: int, c: int)
    requires
        net.wf(),
        net.picks(i),
        net.activates(i, next),
        0 <= c < net.channels.len(),
        net.procs[i].attached(Direction::Out, c),
        next.procs[i].status.terminal(),
    ensures
        next.channels.len() == net.channels.len(),
        next.channels[c].closed,
{
    let (ran, eager, result) = choose|ran: ProcessView, eager: bool, result: Result<(), Error>|
        net.activation(i, ran, eager, result, next);
    assert(net.activation(i, ran, eager, result, next));
    let lent = net.lent(i);
    let back = net.returned(i, ran);
    let informed = ProcessView { eager, ..back.procs[i] };
    let failed = result is Err;
    let done = failed || informed.completed(back.channels, back.draining);
    let judged = ProcessView {
        status: if failed {
            Status::Failed
        } else if done {
            Status::Terminated
        } else {
            informed.status
        },
        ..informed
    };
    lemma_evolved_keeps_wiring(lent, ran);
    assert(judged.same_wiring(net.procs[i])) by {
        assert(judged.ports == ran.ports);
    }
    lemma_attached_kept(net.procs[i], judged, Direction::Out, c);
    lemma_retire(judged, back.channels, c);
}

/// A channel that the end of processes has shut is well-formed as it was.
pub proof fn lemma_retired_wf(channel: ChannelView, sender_gone: bool, receiver_gone: bool)
    requires
        channel.wf(),
    ensures
        retired(channel, sender_gone, receiver_gone).wf(),
{
}

/// A step of the scheduler keeps a network well-formed.
pub proof fn lemma_step_wf(net: NetworkView, next: NetworkView)
    requires
        net.wf(),
        net.steps_to(next),
    ensures
        next.wf(),
{
    let i = choose|i: int| net.picks(i) && #[trigger] net.activates(i, next);
    let (ran, eager, result) = choose|ran: ProcessView, eager: bool, result: Result<(), Error>|
        net.activation(i, ran, eager, result, next);
    assert(net.activation(i, ran, eager, result, next));
    let back = net.returned(i, ran);
    lemma_evolved_keeps_wiring(net.lent(i), ran);
    lemma_wf_replaced(net, back, i);
    let judged = back.judged(i, eager, result);
    lemma_retire_len(judged.procs[i], back.channels);
    assert forall|c: int| 0 <= c < judged.channels.len() implies (#[trigger] judged.channels[c]).wf() by {
        lemma_retire(judged.procs[i], back.channels, c);
        assert(back.channels[c].wf());
        lemma_retired_wf(
            back.channels[c],
            judged.procs[i].attached(Direction::Out, c),
            judged.procs[i].attached(Direction::In, c),
        );
    }
    lemma_wf_replaced(back, judged, i);
    if result is Err && back.fail_fast {
        lemma_halted_wf(judged);
    }
}

/// Order is kept over a whole run. However many steps the scheduler takes
/// and whatever the components do, the buffer of a channel changes by
/// sends and receives alone, unless its receiver has gone: what was
/// received from a connection is a beginning of what was in its buffer
/// followed by what was sent on it, in that order and unchanged.
pub proof fn lemma_run_keeps_order(net: NetworkView, last: NetworkView, n: nat, c: int)
    requires
        net.wf(),
        net.runs_to(last, n),
        0 <= c < net.channels.len(),
    ensures
        last.wf(),
        last.channels.len() == net.channels.len(),
        last.channels[c].capacity == net.channels[c].capacity,
        net.channels[c].closed ==> last.channels[c].closed,
        net.channels[c].abandoned ==> last.channels[c].abandoned,
        !last.channels[c].abandoned ==> exists|added: Seq<Stamped>, gone: Seq<Stamped>| #[trigger]
            flows(net.channels[c], last.channels[c], added, gone),
{
    let trace = choose|trace: Seq<NetworkView>|
        #![auto]
        trace.len() == n + 1 && trace[0] == net && trace[n as int] == last && NetworkView::is_run(
            trace,
        );
    lemma_trace_keeps_order(trace, n, c);
}

/// What was added to a buffer and what has left it, over two stretches
/// of time one after the other, make what was added and what has left over
/// both.
pub proof fn lemma_flows_compose(
    a: ChannelView,
    b: ChannelView,
    c: ChannelView,
    added1: Seq<Stamped>,
    gone1: Seq<Stamped>,
    added2: Seq<Stamped>,
    gone2: Seq<Stamped>,
)
    requires
        flows(a, b, added1, gone1),
        flows(b, c, added2, gone2),
    ensures
        flows(a, c, added1 + added2, gone1 + gone2),
{
    assert(a.queue + (added1 + added2) =~= (a.queue + added1) + added2);
    assert((gone1 + b.queue) + added2 =~= gone1 + (b.queue + added2));
    assert(gone1 + (gone2 + c.queue) =~= (gone1 + gone2) + c.queue);
}

/// What holds of a channel of a network against what it was at some
/// earlier time: its capacity is the same, an end that had gone is gone,
/// and, unless its receiver has gone, its buffer has changed by sends and
/// receives alone.
pub open spec fn in_order(first: ChannelView, net: NetworkView, c: int) -> bool {
    &&& 0 <= c < net.channels.len()
    &&& net.channels[c].capacity == first.capacity
    &&& first.closed ==> net.channels[c].closed
    &&& first.abandoned ==> net.channels[c].abandoned
    &&& !net.channels[c].abandoned ==> exists|added: Seq<Stamped>, gone: Seq<Stamped>| #[trigger]
        flows(first, net.channels[c], added, gone)
}

/// One more step of the scheduler keeps the order.
pub proof fn lemma_order_extends(first: ChannelView, mid: NetworkView, end: NetworkView, c: int)
    requires
        mid.wf(),
        mid.steps_to(end),
        in_order(first, mid, c),
    ensures
        end.wf(),
        end.channels.len() == mid.channels.len(),
        in_order(first, end, c),
{
    lemma_step_wf(mid, end);
    lemma_step_keeps_order(mid, end, c);
    if !end.channels[c].abandoned {
        let (added1, gone1) = choose|added: Seq<Stamped>, gone: Seq<Stamped>| #[trigger]
            flows(first, mid.channels[c], added, gone);
        let (added2, gone2) = choose|added: Seq<Stamped>, gone: Seq<Stamped>| #[trigger]
            flows(mid.channels[c], end.channels[c], added, gone);
        lemma_flows_compose(
            first,
            mid.channels[c],
            end.channels[c],
            added1,
            gone1,
            added2,
            gone2,
        );
    }
}

/// Order is kept over the first `k` steps of a run.
pub proof fn lemma_trace_keeps_order(trace: Seq<NetworkView>, k: nat, c: int)
    requires
        trace.len() > k,
        trace[0].wf(),
        NetworkView::is_run(trace),
        0 <= c < trace[0].channels.len(),
    ensures
        trace[k as int].wf(),
        trace[k as int].channels.len() == trace[0].channels.len(),
        in_order(trace[0].channels[c], trace[k as int], c),
    decreases k,
{
    let first = trace[0].channels[c];
    if k == 0 {
        assert(flows(first, first, Seq::empty(), Seq::empty())) by {
            assert(first.queue + Seq::<Stamped>::empty() =~= Seq::<Stamped>::empty() + first.queue);
        }
    } else {
        let j = (k - 1) as nat;
        lemma_trace_keeps_order(trace, j, c);
        assert(trace[j as int].steps_to(trace[j as int + 1]));
        lemma_order_extends(first, trace[j as int], trace[k as int], c);
    }
}

/// Backpressure at the scheduler. A process whose activation was
/// suspended is not ended by it: it still runs, its connections are as the
/// activation left them, and the packet that its component holds back is
/// not lost.
pub proof fn lemma_suspended_is_not_ended(
    net: NetworkView,
    i: int,
    ran: ProcessView,
    eager: bool,
    next: NetworkView,
)
    requires
        net.wf(),
        net.picks(i),
        net.activation(i, ran, eager, Ok(()), next),
        ran.waiting is Some,
    ensures
        next.procs[i].status == Status::Running,
        next.procs[i].waiting == ran.waiting,
        next.channels == ran.channels,
{
}

/// A send that was suspended goes on when a slot is free: the process
/// that holds the packet back is ready as soon as the buffer has room, or
/// the connection has lost its receiver.
pub proof fn lemma_suspended_send_resumes(net: NetworkView, i: int)
    requires
        0 <= i < net.procs.len(),
        net.procs[i].status == Status::Running,
        net.procs[i].holds_back(),
        !net.procs[i].blocked(net.channels),
    ensures
        net.ready(i),
{
}

/// Exhaustion at the scheduler. A process is not ended before it has been
/// handed what is left of its input, the end of a stream too: while a
/// packet or the end of a stream waits for it after an activation, it
/// still runs, and is ready unless it is held back by a full buffer.
pub proof fn lemma_not_ended_before_the_end_of_stream(
    net: NetworkView,
    i: int,
    ran: ProcessView,
    eager: bool,
    next: NetworkView,
)
    requires
        net.wf(),
        net.picks(i),
        net.activation(i, ran, eager, Ok(()), next),
        ran.has_pending_input(ran.channels),
    ensures
        next.procs[i].status == Status::Running,
        next.channels == ran.channels,
        next.procs[i].has_pending_input(next.channels),
        next.ready(i) || next.procs[i].blocked(next.channels),
{
    let (port, slot) = choose|port: int, slot: int| #[trigger]
        ran.input_at(ran.channels, port, slot);
    let back = net.returned(i, ran);
    let informed = ProcessView { eager, ..back.procs[i] };
    assert(informed.input_at(back.channels, port, slot));
    assert(informed.has_pending_input(back.channels));
    assert(!informed.completed(back.channels, back.draining));
    assert(next.procs[i] == informed);
    assert(next.procs[i].input_at(next.channels, port, slot));
}

/// Nothing is lost at the end of a process that has completed. When an
/// activation that returned no error ends its process, every channel from
/// which the process received is closed and its buffer is empty: all that
/// was sent to the process has been handed to it, and the end of the
/// stream after it.
pub proof fn lemma_completion_discards_nothing(
    net: NetworkView,
    i: int,
    ran: ProcessView,
    eager: bool,
    next: NetworkView,
    c: int,
)
    requires
        net.wf(),
        net.picks(i),
        net.activation(i, ran, eager, Ok(()), next),
        next.procs[i].status == Status::Terminated,
        0 <= c < net.channels.len(),
        net.procs[i].attached(Direction::In, c),
    ensures
        ran.channels[c].closed,
        ran.channels[c].queue.len() == 0,
        ran.channels[c].finished || ran.channels[c].abandoned,
        ran.waiting is None,
{
    let back = net.returned(i, ran);
    let informed = ProcessView { eager, ..back.procs[i] };
    assert(informed.completed(back.channels, back.draining));
    lemma_evolved_keeps_wiring(net.lent(i), ran);
    assert(informed.same_wiring(net.procs[i])) by {
        assert(informed.ports == ran.ports);
    }
    lemma_attached_kept(net.procs[i], informed, Direction::In, c);
    let (port, slot) = choose|port: int, slot: int|
        port < informed.ports.len() && informed.is_edge(Direction::In, port, slot)
            && #[trigger] informed.ports[port].edges[slot] == c;
    assert(!informed.live_input_at(back.channels, port, slot));
    assert(!informed.input_at(back.channels, port, slot));
}

} // verus!
