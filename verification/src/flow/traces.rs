//! What holds of every history of a channel: packets come out in the order
//! in which they went in, a full buffer holds the sender back until a
//! receive, and a closed stream ends exactly once.

use vstd::prelude::*;
use crate::error::Error;
use crate::flow::channel::{ChannelView, Received, SendOutcome};
use crate::flow::packet::Packet;

verus! {

/// One thing that happens to a channel.
pub enum ChannelOp {
    /// A send of a packet at a time.
    Send(u64, Packet),
    /// A receive.
    Receive,
    /// The sender goes away.
    Close,
}

/// A packet with the sequence number that its connection gave it.
pub struct Numbered {
    pub seq: nat,
    pub packet: Packet,
}

impl ChannelView {
    /// The channel after `op`.
    pub open spec fn step(self, op: ChannelOp) -> ChannelView {
        match op {
            ChannelOp::Send(stamp, packet) => self.after_offer(stamp, packet),
            ChannelOp::Receive => self.after_poll(),
            ChannelOp::Close => self.after_close(),
        }
    }

    /// The channel after the history `ops`.
    pub open spec fn run(self, ops: Seq<ChannelOp>) -> ChannelView
        decreases ops.len(),
    {
        if ops.len() == 0 {
            self
        } else {
            self.run(ops.drop_last()).step(ops.last())
        }
    }

    /// The packets that the sends of `ops` got into the channel, in the order
    /// of the sends, each with the number that the send returned.
    pub open spec fn accepted(self, ops: Seq<ChannelOp>) -> Seq<Numbered>
        decreases ops.len(),
    {
        if ops.len() == 0 {
            Seq::empty()
        } else {
            let before = self.run(ops.drop_last());
            let earlier = self.accepted(ops.drop_last());
            match ops.last() {
                ChannelOp::Send(_, packet) => match before.offer(packet) {
                    Ok(SendOutcome::Sent(seq)) => earlier.push(Numbered { seq: seq as nat, packet }),
                    _ => earlier,
                },
                _ => earlier,
            }
        }
    }

    /// The packets that the receives of `ops` handed out, in the order of the
    /// receives, each with the number that the receive returned.
    pub open spec fn delivered(self, ops: Seq<ChannelOp>) -> Seq<Numbered>
        decreases ops.len(),
    {
        if ops.len() == 0 {
            Seq::empty()
        } else {
            let before = self.run(ops.drop_last());
            let earlier = self.delivered(ops.drop_last());
            match ops.last() {
                ChannelOp::Receive => match before.poll() {
                    Ok(Received::Packet(seq, packet)) => earlier.push(
                        Numbered { seq: seq as nat, packet },
                    ),
                    _ => earlier,
                },
                _ => earlier,
            }
        }
    }

    /// The packets in the buffer, oldest first, each with its number.
    pub open spec fn numbered(self) -> Seq<Numbered> {
        Seq::new(
            self.queue.len(),
            |i: int| Numbered { seq: (self.first_seq() + i) as nat, packet: self.queue[i].packet },
        )
    }

    /// The channel after `k` receives in a row.
    pub open spec fn after_receives(self, k: nat) -> ChannelView {
        self.run(Seq::new(k, |i: int| ChannelOp::Receive))
    }
}

/// No receive occurs in `ops`.
pub open spec fn no_receive(ops: Seq<ChannelOp>) -> bool {
    forall|i: int| 0 <= i < ops.len() ==> !(#[trigger] ops[i] is Receive)
}

/// No close occurs in `ops`.
pub open spec fn no_close(ops: Seq<ChannelOp>) -> bool {
    forall|i: int| 0 <= i < ops.len() ==> !(#[trigger] ops[i] is Close)
}

/// Every operation keeps a channel well-formed.
pub proof fn lemma_step_wf(c: ChannelView, op: ChannelOp)
    requires
        c.wf(),
    ensures
        c.step(op).wf(),
        c.step(op).capacity == c.capacity,
{
}

/// Every history keeps a channel well-formed, and its capacity.
pub proof fn lemma_run_wf(c: ChannelView, ops: Seq<ChannelOp>)
    requires
        c.wf(),
    ensures
        c.run(ops).wf(),
        c.run(ops).capacity == c.capacity,
    decreases ops.len(),
{
    if ops.len() > 0 {
        lemma_run_wf(c, ops.drop_last());
        lemma_step_wf(c.run(ops.drop_last()), ops.last());
    }
}

/// First in, first out. Over any history of a channel, what was in the
/// buffer followed by what the sends put in is what the receives took out
/// followed by what is left in the buffer: in that order, with those
/// sequence numbers, nothing lost, added or changed. Two packets sent in
/// one order are therefore received in that order.
pub proof fn lemma_fifo(c: ChannelView, ops: Seq<ChannelOp>)
    requires
        c.wf(),
    ensures
        c.numbered() + c.accepted(ops) == c.delivered(ops) + c.run(ops).numbered(),
    decreases ops.len(),
{
    if ops.len() == 0 {
        assert(c.numbered() + c.accepted(ops) =~= c.delivered(ops) + c.run(ops).numbered());
    } else {
        let prev = ops.drop_last();
        let b = c.run(prev);
        lemma_fifo(c, prev);
        lemma_run_wf(c, prev);
        let a = b.step(ops.last());
        assert(a == c.run(ops));
        match ops.last() {
            ChannelOp::Send(stamp, packet) => {
                if b.connected() && !b.is_full() {
                    let x = Numbered { seq: b.sent, packet };
                    assert(a.numbered() =~= b.numbered().push(x));
                    assert(c.accepted(ops) == c.accepted(prev).push(x));
                    assert(c.numbered() + c.accepted(prev).push(x) =~= (c.numbered() + c.accepted(
                        prev,
                    )).push(x));
                    assert(c.delivered(prev) + b.numbered().push(x) =~= (c.delivered(prev)
                        + b.numbered()).push(x));
                } else {
                    assert(a == b);
                }
            },
            ChannelOp::Receive => {
                if !b.abandoned && !b.finished && b.queue.len() > 0 {
                    let x = Numbered { seq: b.first_seq() as nat, packet: b.queue[0].packet };
                    assert(b.numbered()[0] == x);
                    assert(a.numbered() =~= b.numbered().subrange(1, b.numbered().len() as int));
                    assert(c.delivered(ops) == c.delivered(prev).push(x));
                    assert(c.delivered(prev).push(x) + a.numbered() =~= c.delivered(prev)
                        + b.numbered());
                } else {
                    assert(a.numbered() =~= b.numbered());
                }
            },
            ChannelOp::Close => {
                assert(a.numbered() =~= b.numbered());
            },
        }
    }
}

/// The sequence numbers of a connection count its packets: the sends of a
/// history get consecutive numbers, starting with the number of packets that
/// the channel had accepted before.
pub proof fn lemma_numbers_count(c: ChannelView, ops: Seq<ChannelOp>, i: int)
    requires
        c.wf(),
        0 <= i < c.accepted(ops).len(),
    ensures
        c.accepted(ops)[i].seq == c.sent + i,
        c.run(ops).sent == c.sent + c.accepted(ops).len(),
    decreases ops.len(),
{
    lemma_sent_counts(c, ops);
    if ops.len() > 0 {
        let prev = ops.drop_last();
        lemma_sent_counts(c, prev);
        lemma_run_wf(c, prev);
        if i < c.accepted(prev).len() {
            lemma_numbers_count(c, prev, i);
        }
    }
}

/// A channel has accepted as many packets as its sends got in.
pub proof fn lemma_sent_counts(c: ChannelView, ops: Seq<ChannelOp>)
    requires
        c.wf(),
    ensures
        c.run(ops).sent == c.sent + c.accepted(ops).len(),
    decreases ops.len(),
{
    if ops.len() > 0 {
        lemma_sent_counts(c, ops.drop_last());
        lemma_run_wf(c, ops.drop_last());
    }
}

/// Backpressure. While no receive happens, a full channel stays full and
/// no send gets a packet in.
pub proof fn lemma_backpressure(c: ChannelView, ops: Seq<ChannelOp>)
    requires
        c.wf(),
        c.is_full(),
        no_receive(ops),
    ensures
        c.run(ops).is_full(),
        c.run(ops).queue == c.queue,
        c.accepted(ops).len() == 0,
    decreases ops.len(),
{
    if ops.len() > 0 {
        let prev = ops.drop_last();
        assert(no_receive(prev)) by {
            assert forall|i: int| 0 <= i < prev.len() implies !(#[trigger] prev[i] is Receive) by {
                assert(prev[i] == ops[i]);
            }
        }
        lemma_backpressure(c, prev);
        assert(!(ops[ops.len() - 1] is Receive));
    }
}

/// A suspended send completes once a receive has freed a slot: after a
/// receive on a full channel that still takes packets, the next send gets
/// its packet in.
pub proof fn lemma_receive_frees_slot(c: ChannelView, packet: Packet)
    requires
        c.wf(),
        c.is_full(),
        c.connected(),
    ensures
        c.offer(packet) == Ok::<SendOutcome, Error>(SendOutcome::Suspended(packet)),
        c.poll() == Ok::<Received, Error>(Received::Packet(c.first_seq() as u64, c.queue[0].packet)),
        c.after_poll().offer(packet) == Ok::<SendOutcome, Error>(SendOutcome::Sent(c.sent as u64)),
{
}

/// Exhaustion. A channel whose sender has gone hands out the packets that
/// are left in its buffer, oldest first, then the end of the stream once,
/// and nothing after that.
pub proof fn lemma_drain(c: ChannelView, k: nat)
    requires
        c.wf(),
        c.closed,
        !c.finished,
        !c.abandoned,
    ensures
        c.after_receives(k).wf(),
        c.after_receives(k).closed,
        !c.after_receives(k).abandoned,
        c.after_receives(k).sent == c.sent,
        c.after_receives(k).finished == (k > c.queue.len()),
        k <= c.queue.len() ==> c.after_receives(k).queue == c.queue.subrange(
            k as int,
            c.queue.len() as int,
        ),
        k < c.queue.len() ==> c.after_receives(k).poll() == Ok::<Received, Error>(
            Received::Packet((c.first_seq() + k) as u64, c.queue[k as int].packet),
        ),
        k == c.queue.len() ==> c.after_receives(k).poll() == Ok::<Received, Error>(
            Received::EndOfStream,
        ),
        k > c.queue.len() ==> c.after_receives(k).poll() == Err::<Received, Error>(
            Error::Disconnected,
        ),
    decreases k,
{
    let ops = Seq::new(k, |i: int| ChannelOp::Receive);
    if k == 0 {
        assert(c.after_receives(k) == c);
        assert(c.queue.subrange(0, c.queue.len() as int) =~= c.queue);
    } else {
        let j = (k - 1) as nat;
        assert(ops.drop_last() =~= Seq::new(j, |i: int| ChannelOp::Receive));
        assert(ops.last() == ChannelOp::Receive);
        lemma_drain(c, j);
        let b = c.after_receives(j);
        assert(c.after_receives(k) == b.after_poll());
        if j < c.queue.len() {
            assert(b.after_poll().queue =~= c.queue.subrange(k as int, c.queue.len() as int));
        }
        if k <= c.queue.len() {
            assert(c.after_receives(k).queue.len() == c.queue.len() - k);
        }
    }
}

/// A stream that is closed after exactly `n` packets were sent on it gives
/// its receiver exactly `n` packets, the ones that were sent and in that
/// order, and then the end of the stream: `ops` is any history of sends and
/// receives on a new channel, and `k` counts the receives after the close.
pub proof fn lemma_exhaustion(capacity: nat, ops: Seq<ChannelOp>, k: nat)
    requires
        capacity >= 1,
        no_close(ops),
    ensures
        ({
            let c = ChannelView::fresh(capacity);
            let sent = c.accepted(ops);
            let before = c.delivered(ops);
            let closed = c.run(ops).after_close();
            &&& before.len() <= sent.len()
            &&& before == sent.subrange(0, before.len() as int)
            &&& before.len() + k < sent.len() ==> closed.after_receives(k).poll() == Ok::<
                Received,
                Error,
            >(
                Received::Packet(
                    sent[(before.len() + k) as int].seq as u64,
                    sent[(before.len() + k) as int].packet,
                ),
            )
            &&& before.len() + k == sent.len() ==> closed.after_receives(k).poll() == Ok::<
                Received,
                Error,
            >(Received::EndOfStream)
            &&& before.len() + k > sent.len() ==> closed.after_receives(k).poll() == Err::<
                Received,
                Error,
            >(Error::Disconnected)
        }),
{
    let c = ChannelView::fresh(capacity);
    let end = c.run(ops);
    let closed = end.after_close();
    lemma_fifo(c, ops);
    lemma_run_wf(c, ops);
    lemma_stays_open(c, ops);
    assert(c.numbered() =~= Seq::<Numbered>::empty());
    let sent = c.accepted(ops);
    let before = c.delivered(ops);
    assert(sent =~= before + end.numbered());
    assert(before =~= sent.subrange(0, before.len() as int));
    assert(closed.queue == end.queue);
    lemma_drain(closed, k);
    if before.len() + k < sent.len() {
        assert(sent[(before.len() + k) as int] == end.numbered()[k as int]);
    }
}

/// A channel that is open stays open over a history without a close.
pub proof fn lemma_stays_open(c: ChannelView, ops: Seq<ChannelOp>)
    requires
        c.wf(),
        !c.closed,
        !c.abandoned,
        no_close(ops),
    ensures
        !c.run(ops).closed,
        !c.run(ops).finished,
        !c.run(ops).abandoned,
    decreases ops.len(),
{
    if ops.len() > 0 {
        let prev = ops.drop_last();
        assert(no_close(prev)) by {
            assert forall|i: int| 0 <= i < prev.len() implies !(#[trigger] prev[i] is Close) by {
                assert(prev[i] == ops[i]);
            }
        }
        lemma_stays_open(c, prev);
        lemma_run_wf(c, prev);
        assert(!(ops[ops.len() - 1] is Close));
    }
}

} // verus!
