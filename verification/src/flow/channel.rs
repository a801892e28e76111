//! Channels: the bounded, ordered buffers that carry packets from one
//! sender to one receiver.

use vstd::prelude::*;
use std::collections::VecDeque;
use crate::error::Error;
use crate::flow::packet::Packet;

verus! {

/// A packet in a buffer, with the time at which it arrived there.
#[derive(Debug)]
pub struct Stamped {
    pub stamp: u64,
    pub packet: Packet,
}

/// How a send ended: the packet went into the buffer and got a sequence
/// number, or the buffer was full and the packet comes back to the sender,
/// who is suspended until a receive frees a slot.
#[derive(Debug)]
pub enum SendOutcome {
    Sent(u64),
    Suspended(Packet),
}

/// How a receive ended: with the oldest packet and its sequence number, with
/// the indication that the stream has ended, or suspended because nothing
/// has arrived yet.
#[derive(Debug)]
pub enum Received {
    Packet(u64, Packet),
    EndOfStream,
    Suspended,
}

/// A channel as plain values.
pub struct ChannelView {
    /// How many packets the buffer holds at most.
    pub capacity: nat,
    /// The packets in the buffer, oldest first.
    pub queue: Seq<Stamped>,
    /// How many packets the channel has accepted so far.
    pub sent: nat,
    /// The sender will send no more.
    pub closed: bool,
    /// The end of the stream has been handed to the receiver.
    pub finished: bool,
    /// The receiver will receive no more.
    pub abandoned: bool,
}

impl ChannelView {
    pub open spec fn wf(self) -> bool {
        &&& self.capacity >= 1
        &&& self.queue.len() <= self.capacity
        &&& self.queue.len() <= self.sent <= u64::MAX
        &&& self.finished ==> self.closed && self.queue.len() == 0
        &&& self.abandoned ==> self.queue.len() == 0
    }

    /// A channel that has carried nothing yet.
    pub open spec fn fresh(capacity: nat) -> ChannelView {
        ChannelView {
            capacity,
            queue: Seq::empty(),
            sent: 0,
            closed: false,
            finished: false,
            abandoned: false,
        }
    }

    pub open spec fn is_full(self) -> bool {
        self.queue.len() >= self.capacity
    }

    /// A receive would hand something out: a packet, or the end of the
    /// stream.
    pub open spec fn has_input(self) -> bool {
        !self.abandoned && (self.queue.len() > 0 || (self.closed && !self.finished))
    }

    /// Closed with nothing left in the buffer.
    pub open spec fn exhausted(self) -> bool {
        self.closed && self.queue.len() == 0
    }

    /// The channel still takes packets: both ends are alive and a sequence
    /// number is left.
    pub open spec fn connected(self) -> bool {
        !self.closed && !self.abandoned && self.sent < u64::MAX
    }

    /// The sequence number of the oldest packet in the buffer.
    pub open spec fn first_seq(self) -> int {
        self.sent - self.queue.len()
    }

    /// The packets in the buffer, oldest first, without their stamps.
    pub open spec fn packets(self) -> Seq<Packet> {
        self.queue.map_values(|s: Stamped| s.packet)
    }

    /// The answer to a send of `packet`.
    pub open spec fn offer(self, packet: Packet) -> Result<SendOutcome, Error> {
        if !self.connected() {
            Err(Error::Disconnected)
        } else if self.is_full() {
            Ok(SendOutcome::Suspended(packet))
        } else {
            Ok(SendOutcome::Sent(self.sent as u64))
        }
    }

    /// The channel after a send of `packet` at time `stamp`.
    pub open spec fn after_offer(self, stamp: u64, packet: Packet) -> ChannelView {
        if self.connected() && !self.is_full() {
            ChannelView {
                queue: self.queue.push(Stamped { stamp, packet }),
                sent: self.sent + 1,
                ..self
            }
        } else {
            self
        }
    }

    /// The answer to a receive.
    pub open spec fn poll(self) -> Result<Received, Error> {
        if self.abandoned || self.finished {
            Err(Error::Disconnected)
        } else if self.queue.len() > 0 {
            Ok(Received::Packet(self.first_seq() as u64, self.queue[0].packet))
        } else if self.closed {
            Ok(Received::EndOfStream)
        } else {
            Ok(Received::Suspended)
        }
    }

    /// The channel after a receive.
    pub open spec fn after_poll(self) -> ChannelView {
        if self.abandoned || self.finished {
            self
        } else if self.queue.len() > 0 {
            ChannelView { queue: self.queue.subrange(1, self.queue.len() as int), ..self }
        } else if self.closed {
            ChannelView { finished: true, ..self }
        } else {
            self
        }
    }

    /// The channel after its sender has gone.
    pub open spec fn after_close(self) -> ChannelView {
        ChannelView { closed: true, ..self }
    }

    /// The channel after its receiver has gone: what was in the buffer is
    /// discarded.
    pub open spec fn after_abandon(self) -> ChannelView {
        ChannelView { queue: Seq::empty(), abandoned: true, ..self }
    }
}

/// A bounded first-in-first-out buffer between one sender and one receiver.
pub struct Channel {
    capacity: usize,
    queue: VecDeque<Stamped>,
    sent: u64,
    closed: bool,
    finished: bool,
    abandoned: bool,
}

impl View for Channel {
    type V = ChannelView;

    closed spec fn view(&self) -> ChannelView {
        ChannelView {
            capacity: self.capacity as nat,
            queue: self.queue@,
            sent: self.sent as nat,
            closed: self.closed,
            finished: self.finished,
            abandoned: self.abandoned,
        }
    }
}

impl Channel {
    /// A new channel that holds at most `capacity` packets.
    pub fn new(capacity: usize) -> (c: Channel)
        requires
            capacity >= 1,
        ensures
            c@ == ChannelView::fresh(capacity as nat),
            c@.wf(),
    {
        Channel {
            capacity,
            queue: VecDeque::new(),
            sent: 0,
            closed: false,
            finished: false,
            abandoned: false,
        }
    }

    pub fn capacity(&self) -> (n: usize)
        ensures
            n == self@.capacity,
    {
        self.capacity
    }

    /// The number of packets in the buffer.
    pub fn len(&self) -> (n: usize)
        ensures
            n == self@.queue.len(),
    {
        self.queue.len()
    }

    pub fn is_full(&self) -> (full: bool)
        ensures
            full == self@.is_full(),
    {
        self.queue.len() >= self.capacity
    }

    pub fn has_input(&self) -> (input: bool)
        ensures
            input == self@.has_input(),
    {
        !self.abandoned && (self.queue.len() > 0 || (self.closed && !self.finished))
    }

    pub fn is_exhausted(&self) -> (exhausted: bool)
        ensures
            exhausted == self@.exhausted(),
    {
        self.closed && self.queue.len() == 0
    }

    pub fn is_connected(&self) -> (connected: bool)
        ensures
            connected == self@.connected(),
    {
        !self.closed && !self.abandoned && self.sent < u64::MAX
    }

    pub fn is_closed(&self) -> (closed: bool)
        ensures
            closed == self@.closed,
    {
        self.closed
    }

    pub fn is_abandoned(&self) -> (abandoned: bool)
        ensures
            abandoned == self@.abandoned,
    {
        self.abandoned
    }

    /// The arrival time of the oldest packet in the buffer, if there is one.
    pub fn front_stamp(&self) -> (stamp: Option<u64>)
        ensures
            stamp == if self@.queue.len() > 0 {
                Some(self@.queue[0].stamp)
            } else {
                None
            },
    {
        if self.queue.len() > 0 {
            Some(self.queue[0].stamp)
        } else {
            None
        }
    }

    /// Sends `packet` at time `stamp`. A full buffer hands the packet back;
    /// a channel without a live peer, or with its sequence numbers used up,
    /// refuses it.
    pub fn offer(&mut self, stamp: u64, packet: Packet) -> (r: Result<SendOutcome, Error>)
        requires
            old(self)@.wf(),
        ensures
            r == old(self)@.offer(packet),
            final(self)@ == old(self)@.after_offer(stamp, packet),
            final(self)@.wf(),
    {
        if self.closed || self.abandoned || self.sent == u64::MAX {
            Err(Error::Disconnected)
        } else if self.queue.len() >= self.capacity {
            Ok(SendOutcome::Suspended(packet))
        } else {
            let seq: u64 = self.sent;
            self.queue.push_back(Stamped { stamp, packet });
            self.sent = seq + 1;
            Ok(SendOutcome::Sent(seq))
        }
    }

    /// Receives the oldest packet. An empty buffer suspends the receiver
    /// while the sender lives; once the sender has gone it yields the end of
    /// the stream, once.
    pub fn take(&mut self) -> (r: Result<Received, Error>)
        requires
            old(self)@.wf(),
        ensures
            r == old(self)@.poll(),
            final(self)@ == old(self)@.after_poll(),
            final(self)@.wf(),
    {
        if self.abandoned || self.finished {
            Err(Error::Disconnected)
        } else if self.queue.len() > 0 {
            let seq: u64 = self.sent - (self.queue.len() as u64);
            let head = self.queue.pop_front();
            match head {
                Some(entry) => Ok(Received::Packet(seq, entry.packet)),
                None => Ok(Received::Suspended),
            }
        } else if self.closed {
            self.finished = true;
            Ok(Received::EndOfStream)
        } else {
            Ok(Received::Suspended)
        }
    }

    /// Marks the sender as gone.
    pub fn close(&mut self)
        requires
            old(self)@.wf(),
        ensures
            final(self)@ == old(self)@.after_close(),
            final(self)@.wf(),
    {
        self.closed = true;
    }

    /// Marks the receiver as gone and discards what is in the buffer.
    pub fn abandon(&mut self)
        requires
            old(self)@.wf(),
        ensures
            final(self)@ == old(self)@.after_abandon(),
            final(self)@.wf(),
    {
        self.queue.clear();
        self.abandoned = true;
    }
}

/// The channels of a row as plain values.
pub open spec fn channel_views(channels: Seq<Channel>) -> Seq<ChannelView> {
    Seq::new(channels.len(), |i: int| channels[i]@)
}

/// Every channel of the row is well-formed.
pub open spec fn channels_wf(channels: Seq<ChannelView>) -> bool {
    forall|c: int| 0 <= c < channels.len() ==> (#[trigger] channels[c]).wf()
}

} // verus!
