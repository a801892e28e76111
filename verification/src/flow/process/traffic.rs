//! Traffic: sending and receiving through the handles of opened ports.

use vstd::prelude::*;
use crate::error::Error;
use crate::flow::channel::{Received, SendOutcome};
use crate::flow::packet::Packet;
use crate::flow::port::{Direction, InPort, OutPort};
use crate::flow::process::{
    lemma_evolved_channel, lemma_evolved_refl, lemma_kept_offer, lemma_kept_poll,
    lemma_kept_same, Process, ProcessView, Wait,
};

verus! {

impl ProcessView {
    /// The channel behind a handle: that of the connection at the handle's
    /// slot of an opened port of the given direction, where the process can
    /// reach it.
    pub open spec fn channel_of(self, direction: Direction, port: usize, slot: usize) -> Option<
        int,
    > {
        if port < self.ports.len() && self.ports[port as int].direction == direction
            && self.ports[port as int].opened && slot < self.ports[port as int].edges.len()
            && self.ports[port as int].edges[slot as int] < self.channels.len() {
            Some(self.ports[port as int].edges[slot as int] as int)
        } else {
            None
        }
    }

    pub open spec fn in_channel(self, input: InPort) -> Option<int> {
        self.channel_of(Direction::In, input.port, input.slot)
    }

    pub open spec fn out_channel(self, output: OutPort) -> Option<int> {
        self.channel_of(Direction::Out, output.port, output.slot)
    }

    /// The answer to a send of `packet` through `output`.
    pub open spec fn send_outcome(self, output: OutPort, packet: Packet) -> Result<
        SendOutcome,
        Error,
    > {
        match self.out_channel(output) {
            None => Err(Error::Disconnected),
            Some(c) => self.channels[c].offer(packet),
        }
    }

    /// The process after a send of `packet` through `output`: a packet that
    /// got in is stamped with the time and the time moves on; a packet that
    /// came back leaves the activation suspended on that channel.
    pub open spec fn after_send(self, output: OutPort, packet: Packet) -> ProcessView {
        match self.out_channel(output) {
            None => self,
            Some(c) => {
                let channels = self.channels.update(
                    c,
                    self.channels[c].after_offer(self.clock as u64, packet),
                );
                match self.channels[c].offer(packet) {
                    Ok(SendOutcome::Sent(_)) => ProcessView {
                        channels,
                        clock: if self.clock < u64::MAX {
                            self.clock + 1
                        } else {
                            self.clock
                        },
                        produced: true,
                        ..self
                    },
                    Ok(SendOutcome::Suspended(_)) => ProcessView {
                        channels,
                        waiting: Some(Wait::OnSend(c as usize)),
                        ..self
                    },
                    Err(_) => ProcessView { channels, ..self },
                }
            },
        }
    }

    /// The answer to a receive through `input`.
    pub open spec fn receive_outcome(self, input: InPort) -> Result<Received, Error> {
        match self.in_channel(input) {
            None => Err(Error::Disconnected),
            Some(c) => self.channels[c].poll(),
        }
    }

    /// The process after a receive through `input`: an empty buffer whose
    /// sender lives leaves the activation suspended on that channel.
    pub open spec fn after_receive(self, input: InPort) -> ProcessView {
        match self.in_channel(input) {
            None => self,
            Some(c) => {
                let channels = self.channels.update(c, self.channels[c].after_poll());
                match self.channels[c].poll() {
                    Ok(Received::Suspended) => ProcessView {
                        channels,
                        waiting: Some(Wait::OnReceive(c as usize)),
                        ..self
                    },
                    _ => ProcessView { channels, ..self },
                }
            },
        }
    }

    /// The process after it has asked to wait for room behind `output`:
    /// where the buffer of that connection is full, the activation is
    /// suspended on it.
    pub open spec fn after_suspend(self, output: OutPort) -> ProcessView {
        match self.out_channel(output) {
            Some(c) => if self.channels[c].connected() && self.channels[c].is_full() {
                ProcessView { waiting: Some(Wait::OnSend(c as usize)), ..self }
            } else {
                self
            },
            None => self,
        }
    }
}

impl Process {
    /// Finds the channel behind a handle.
    pub fn route(&self, direction: Direction, port: usize, slot: usize) -> (channel: Option<usize>)
        ensures
            match channel {
                Some(c) => self@.channel_of(direction, port, slot) == Some(c as int),
                None => self@.channel_of(direction, port, slot) is None,
            },
    {
        if port >= self.ports.len() {
            return None;
        }
        let p = &self.ports[port];
        if p.direction() != direction || !p.is_opened() || slot >= p.degree() {
            return None;
        }
        let c = p.edge(slot);
        if c < self.channels.len() {
            Some(c)
        } else {
            None
        }
    }

    /// Sends `packet` through `output`. The packet goes into the buffer of
    /// the connection and gets the next sequence number of that connection;
    /// where the buffer is full the packet comes back and the activation is
    /// suspended until a receive has freed a slot. Without a live peer the
    /// send fails with `Disconnected`: the handle names no connection that
    /// the process can reach, the receiver has gone, or the connection has
    /// used up its sequence numbers.
    pub fn send(&mut self, output: &OutPort, packet: Packet) -> (r: Result<SendOutcome, Error>)
        requires
            old(self)@.wf(),
        ensures
            final(self)@.wf(),
            r == old(self)@.send_outcome(*output, packet),
            final(self)@ == old(self)@.after_send(*output, packet),
            final(self)@.evolved_from(old(self)@),
    {
        proof {
            lemma_evolved_refl(self@);
        }
        match self.route(Direction::Out, output.port, output.slot) {
            None => Err(Error::Disconnected),
            Some(c) => {
                let ghost before = self@;
                let r = self.channels[c].offer(self.clock, packet);
                assert(self@.channels =~= before.channels.update(
                    c as int,
                    before.channels[c as int].after_offer(before.clock as u64, packet),
                ));
                assert(self@.ports =~= before.ports);
                match &r {
                    Ok(SendOutcome::Sent(_)) => {
                        self.produced = true;
                        if self.clock < u64::MAX {
                            self.clock = self.clock + 1;
                        }
                    },
                    Ok(SendOutcome::Suspended(_)) => {
                        self.waiting = Some(Wait::OnSend(c));
                    },
                    Err(_) => {},
                }
                assert(self@.channels =~= before.channels.update(
                    c as int,
                    before.channels[c as int].after_offer(before.clock as u64, packet),
                ));
                assert(self@.ports =~= before.ports);
                proof {
                    assert(before.is_edge(Direction::Out, output.port as int, output.slot as int)
                        && before.ports[output.port as int].edges[output.slot as int] == c);
                    assert(before.attached(Direction::Out, c as int));
                    lemma_kept_offer(
                        before.channels[c as int],
                        before.clock as u64,
                        packet,
                        before.attached(Direction::In, c as int),
                    );
                    lemma_evolved_channel(before, self@, c as int);
                }
                r
            },
        }
    }

    /// Receives the oldest packet that has not been delivered through
    /// `input`, with its sequence number. Where nothing has arrived and the
    /// sender lives, the activation is suspended; once the sender has gone
    /// and the buffer is empty, the end of the stream is handed out, once.
    /// Without a live peer the receive fails with `Disconnected`: the handle
    /// names no connection that the process can reach, or the end of the
    /// stream has been handed out before.
    pub fn receive(&mut self, input: &InPort) -> (r: Result<Received, Error>)
        requires
            old(self)@.wf(),
        ensures
            final(self)@.wf(),
            r == old(self)@.receive_outcome(*input),
            final(self)@ == old(self)@.after_receive(*input),
            final(self)@.evolved_from(old(self)@),
    {
        proof {
            lemma_evolved_refl(self@);
        }
        match self.route(Direction::In, input.port, input.slot) {
            None => Err(Error::Disconnected),
            Some(c) => {
                let ghost before = self@;
                let r = self.channels[c].take();
                match &r {
                    Ok(Received::Suspended) => {
                        self.waiting = Some(Wait::OnReceive(c));
                    },
                    _ => {},
                }
                assert(self@.channels =~= before.channels.update(
                    c as int,
                    before.channels[c as int].after_poll(),
                ));
                assert(self@.ports =~= before.ports);
                proof {
                    assert(before.is_edge(Direction::In, input.port as int, input.slot as int)
                        && before.ports[input.port as int].edges[input.slot as int] == c);
                    assert(before.attached(Direction::In, c as int));
                    lemma_kept_poll(
                        before.channels[c as int],
                        before.attached(Direction::Out, c as int),
                    );
                    lemma_evolved_channel(before, self@, c as int);
                }
                r
            },
        }
    }

    /// Suspends the activation until the connection behind `output` has
    /// room, where it has none now.
    pub fn suspend_on_send(&mut self, output: &OutPort)
        requires
            old(self)@.wf(),
        ensures
            final(self)@.wf(),
            final(self)@ == old(self)@.after_suspend(*output),
            final(self)@.evolved_from(old(self)@),
    {
        let ghost before = self@;
        proof {
            lemma_evolved_refl(before);
        }
        match self.route(Direction::Out, output.port, output.slot) {
            None => {},
            Some(c) => {
                if self.channels[c].is_connected() && self.channels[c].is_full() {
                    self.waiting = Some(Wait::OnSend(c));
                }
                proof {
                    assert(self@.channels =~= before.channels.update(
                        c as int,
                        before.channels[c as int],
                    ));
                    assert(self@.ports =~= before.ports);
                    lemma_kept_same(
                        before.channels[c as int],
                        before.attached(Direction::Out, c as int),
                        before.attached(Direction::In, c as int),
                    );
                    lemma_evolved_channel(before, self@, c as int);
                }
            },
        }
    }

    /// Tells whether the connection behind `output` still takes packets:
    /// it has a live receiver and a sequence number left.
    pub fn is_live(&self, output: &OutPort) -> (live: bool)
        ensures
            live == match self@.out_channel(*output) {
                Some(c) => self@.channels[c].connected(),
                None => false,
            },
    {
        match self.route(Direction::Out, output.port, output.slot) {
            None => false,
            Some(c) => self.channels[c].is_connected(),
        }
    }

    /// Tells whether a receive through `input` would hand out a packet.
    pub fn has_packet(&self, input: &InPort) -> (ready: bool)
        ensures
            ready == match self@.in_channel(*input) {
                Some(c) => self@.channels[c].has_input() && self@.channels[c].queue.len() > 0,
                None => false,
            },
    {
        match self.route(Direction::In, input.port, input.slot) {
            None => false,
            Some(c) => self.channels[c].has_input() && self.channels[c].len() > 0,
        }
    }

    /// The arrival time of the packet that a receive through `input` would
    /// hand out, if it would hand out a packet.
    pub fn front_stamp(&self, input: &InPort) -> (stamp: Option<u64>)
        ensures
            stamp == match self@.in_channel(*input) {
                Some(c) => if self@.channels[c].has_input() && self@.channels[c].queue.len() > 0 {
                    Some(self@.channels[c].queue[0].stamp)
                } else {
                    None
                },
                None => None,
            },
    {
        match self.route(Direction::In, input.port, input.slot) {
            None => None,
            Some(c) => if self.channels[c].has_input() {
                self.channels[c].front_stamp()
            } else {
                None
            },
        }
    }

    /// Tells whether a receive through `input` would be suspended: nothing
    /// has arrived and the sender lives.
    pub fn is_idle(&self, input: &InPort) -> (idle: bool)
        ensures
            idle == match self@.in_channel(*input) {
                Some(c) => !self@.channels[c].has_input() && !self@.channels[c].closed
                    && !self@.channels[c].abandoned,
                None => false,
            },
    {
        match self.route(Direction::In, input.port, input.slot) {
            None => false,
            Some(c) => !self.channels[c].has_input() && !self.channels[c].is_closed()
                && !self.channels[c].is_abandoned(),
        }
    }

    /// Tells whether a send through `output` would get its packet in.
    pub fn can_send(&self, output: &OutPort) -> (ready: bool)
        ensures
            ready == match self@.out_channel(*output) {
                Some(c) => self@.channels[c].connected() && !self@.channels[c].is_full(),
                None => false,
            },
    {
        match self.route(Direction::Out, output.port, output.slot) {
            None => false,
            Some(c) => self.channels[c].is_connected() && !self.channels[c].is_full(),
        }
    }

    /// Tells whether a receive through `input` would hand something out: a
    /// packet, or the end of the stream.
    pub fn has_input(&self, input: &InPort) -> (ready: bool)
        ensures
            ready == match self@.in_channel(*input) {
                Some(c) => self@.channels[c].has_input(),
                None => false,
            },
    {
        match self.route(Direction::In, input.port, input.slot) {
            None => false,
            Some(c) => self.channels[c].has_input(),
        }
    }
}

} // verus!
