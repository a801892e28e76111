//! Readiness: whether a process is to be activated, and whether it has
//! finished.

use vstd::prelude::*;
use crate::flow::channel::{channel_views, Channel, ChannelView};
use crate::flow::port::Direction;
use crate::flow::process::{Process, ProcessView, Status, Wait};

verus! {

impl ProcessView {
    /// The connection at `slot` of the in-port at `port` has something for
    /// the process: a packet, or the end of the stream.
    pub open spec fn input_at(self, channels: Seq<ChannelView>, port: int, slot: int) -> bool {
        &&& self.is_edge(Direction::In, port, slot)
        &&& self.ports[port].edges[slot] < channels.len()
        &&& channels[self.ports[port].edges[slot] as int].has_input()
    }

    /// Some connection of an in-port has something for the process.
    pub open spec fn has_pending_input(self, channels: Seq<ChannelView>) -> bool {
        exists|port: int, slot: int| #[trigger] self.input_at(channels, port, slot)
    }

    /// The connection at `slot` of the in-port at `port` may still bring
    /// something: its sender lives, or its buffer holds packets.
    pub open spec fn live_input_at(self, channels: Seq<ChannelView>, port: int, slot: int) -> bool {
        &&& self.is_edge(Direction::In, port, slot)
        &&& self.ports[port].edges[slot] < channels.len()
        &&& !channels[self.ports[port].edges[slot] as int].exhausted()
    }

    /// Every connection of every in-port is closed with nothing left in its
    /// buffer. A process without connected in-ports is in that state from
    /// the start.
    pub open spec fn inputs_exhausted(self, channels: Seq<ChannelView>) -> bool {
        forall|port: int, slot: int| !#[trigger] self.live_input_at(channels, port, slot)
    }

    /// The activation was suspended and what it waits for has not happened:
    /// the full buffer is still full, the empty one still empty.
    pub open spec fn blocked(self, channels: Seq<ChannelView>) -> bool {
        match self.waiting {
            Some(Wait::OnSend(c)) => c < channels.len() && channels[c as int].connected()
                && channels[c as int].is_full(),
            Some(Wait::OnReceive(c)) => c < channels.len() && !channels[c as int].has_input()
                && !channels[c as int].closed && !channels[c as int].abandoned,
            None => false,
        }
    }

    /// The component is to be activated without input: it asks for it and
    /// the network is not winding down.
    pub open spec fn self_starting(self, draining: bool) -> bool {
        self.eager && !draining
    }

    /// The last activation was suspended on a send: the component holds a
    /// packet that it is to send again.
    pub open spec fn holds_back(self) -> bool {
        self.waiting matches Some(Wait::OnSend(_))
    }

    /// The process is to be activated: it runs, what it waits for has
    /// happened, and it has input, or asks to run without, or was suspended
    /// on a send and is to go on, or has come to the end of all its input
    /// and is to finish.
    pub open spec fn ready(self, channels: Seq<ChannelView>, draining: bool) -> bool {
        &&& self.status == Status::Running
        &&& !self.blocked(channels)
        &&& (self.has_pending_input(channels) || self.self_starting(draining)
            || self.holds_back() || self.inputs_exhausted(channels))
    }

    /// The process has finished. It does not ask to run without input; its
    /// input is exhausted and nothing of it is left to be handed out, not
    /// the end of a stream either; and its last activation sent nothing and
    /// was not suspended.
    pub open spec fn completed(self, channels: Seq<ChannelView>, draining: bool) -> bool {
        &&& !self.self_starting(draining)
        &&& self.inputs_exhausted(channels)
        &&& !self.has_pending_input(channels)
        &&& self.waiting is None
        &&& !self.produced
    }

    /// The connection at `slot` of the in-port at `port` can still bring
    /// packets in from outside: it has not been closed.
    pub open spec fn inlet_at(self, channels: Seq<ChannelView>, port: int, slot: int) -> bool {
        &&& self.is_edge(Direction::In, port, slot)
        &&& self.ports[port].edges[slot] < channels.len()
        &&& !channels[self.ports[port].edges[slot] as int].closed
    }

    /// The connection at `slot` of the out-port at `port` holds packets
    /// that are to go outside.
    pub open spec fn outlet_at(self, channels: Seq<ChannelView>, port: int, slot: int) -> bool {
        &&& self.is_edge(Direction::Out, port, slot)
        &&& self.ports[port].edges[slot] < channels.len()
        &&& channels[self.ports[port].edges[slot] as int].queue.len() > 0
    }

    /// For the mother process of a subnetwork: the boundary can still move
    /// packets, in through a connection that is open or out of a buffer
    /// that holds some.
    pub open spec fn boundary_live(self, channels: Seq<ChannelView>) -> bool {
        ||| exists|port: int, slot: int| #[trigger] self.inlet_at(channels, port, slot)
        ||| exists|port: int, slot: int| #[trigger] self.outlet_at(channels, port, slot)
    }
}

impl Process {
    /// Tells whether some connection of an in-port has something for the
    /// process in `channels`.
    pub fn has_pending_input(&self, channels: &Vec<Channel>) -> (pending: bool)
        ensures
            pending == self@.has_pending_input(channel_views(channels@)),
    {
        let ghost cv = channel_views(channels@);
        let mut p: usize = 0;
        while p < self.ports.len()
            invariant
                p <= self.ports@.len(),
                cv == channel_views(channels@),
                forall|pp: int, ss: int| 0 <= pp < p ==> !#[trigger] self@.input_at(cv, pp, ss),
            decreases self.ports@.len() - p,
        {
            if self.ports[p].direction() == Direction::In {
                let n: usize = self.ports[p].degree();
                let mut k: usize = 0;
                while k < n
                    invariant
                        p < self.ports@.len(),
                        n == self@.ports[p as int].edges.len(),
                        self@.ports[p as int].direction == Direction::In,
                        k <= n,
                        cv == channel_views(channels@),
                        forall|pp: int, ss: int|
                            0 <= pp < p ==> !#[trigger] self@.input_at(cv, pp, ss),
                        forall|ss: int| 0 <= ss < k ==> !#[trigger] self@.input_at(cv, p as int, ss),
                    decreases n - k,
                {
                    let c: usize = self.ports[p].edge(k);
                    if c < channels.len() && channels[c].has_input() {
                        assert(self@.input_at(cv, p as int, k as int));
                        return true;
                    }
                    k += 1;
                }
            }
            p += 1;
        }
        false
    }

    /// Tells whether every connection of every in-port is closed and empty
    /// in `channels`.
    pub fn inputs_exhausted(&self, channels: &Vec<Channel>) -> (exhausted: bool)
        ensures
            exhausted == self@.inputs_exhausted(channel_views(channels@)),
    {
        let ghost cv = channel_views(channels@);
        let mut p: usize = 0;
        while p < self.ports.len()
            invariant
                p <= self.ports@.len(),
                cv == channel_views(channels@),
                forall|pp: int, ss: int|
                    0 <= pp < p ==> !#[trigger] self@.live_input_at(cv, pp, ss),
            decreases self.ports@.len() - p,
        {
            if self.ports[p].direction() == Direction::In {
                let n: usize = self.ports[p].degree();
                let mut k: usize = 0;
                while k < n
                    invariant
                        p < self.ports@.len(),
                        n == self@.ports[p as int].edges.len(),
                        self@.ports[p as int].direction == Direction::In,
                        k <= n,
                        cv == channel_views(channels@),
                        forall|pp: int, ss: int|
                            0 <= pp < p ==> !#[trigger] self@.live_input_at(cv, pp, ss),
                        forall|ss: int|
                            0 <= ss < k ==> !#[trigger] self@.live_input_at(cv, p as int, ss),
                    decreases n - k,
                {
                    let c: usize = self.ports[p].edge(k);
                    if c < channels.len() && !channels[c].is_exhausted() {
                        assert(self@.live_input_at(cv, p as int, k as int));
                        return false;
                    }
                    k += 1;
                }
            }
            p += 1;
        }
        true
    }

    /// Tells whether what the last activation was suspended on still holds
    /// it back in `channels`.
    pub fn is_blocked(&self, channels: &Vec<Channel>) -> (blocked: bool)
        ensures
            blocked == self@.blocked(channel_views(channels@)),
    {
        match self.waiting {
            Some(Wait::OnSend(c)) => c < channels.len() && channels[c].is_connected()
                && channels[c].is_full(),
            Some(Wait::OnReceive(c)) => c < channels.len() && !channels[c].has_input()
                && !channels[c].is_closed() && !channels[c].is_abandoned(),
            None => false,
        }
    }

    /// Tells whether the process is to be activated, given the channels of
    /// its network and whether the network is winding down.
    pub fn is_ready(&self, channels: &Vec<Channel>, draining: bool) -> (ready: bool)
        ensures
            ready == self@.ready(channel_views(channels@), draining),
    {
        match self.status {
            Status::Running => {},
            _ => {
                return false;
            },
        }
        if self.is_blocked(channels) {
            return false;
        }
        if self.eager && !draining {
            return true;
        }
        match self.waiting {
            Some(Wait::OnSend(_)) => {
                return true;
            },
            _ => {},
        }
        self.has_pending_input(channels) || self.inputs_exhausted(channels)
    }

    /// Tells whether the process has finished, given the channels of its
    /// network and whether the network is winding down.
    pub fn has_completed(&self, channels: &Vec<Channel>, draining: bool) -> (completed: bool)
        ensures
            completed == self@.completed(channel_views(channels@), draining),
    {
        if self.eager && !draining {
            return false;
        }
        if self.produced || self.waiting.is_some() {
            return false;
        }
        self.inputs_exhausted(channels) && !self.has_pending_input(channels)
    }

    /// For the mother process of a subnetwork: tells whether the boundary
    /// can still move packets in `channels`.
    pub fn is_boundary_live(&self, channels: &Vec<Channel>) -> (live: bool)
        ensures
            live == self@.boundary_live(channel_views(channels@)),
    {
        let ghost cv = channel_views(channels@);
        let mut p: usize = 0;
        while p < self.ports.len()
            invariant
                p <= self.ports@.len(),
                cv == channel_views(channels@),
                forall|pp: int, ss: int| 0 <= pp < p ==> !#[trigger] self@.inlet_at(cv, pp, ss),
                forall|pp: int, ss: int| 0 <= pp < p ==> !#[trigger] self@.outlet_at(cv, pp, ss),
            decreases self.ports@.len() - p,
        {
            let n: usize = self.ports[p].degree();
            let incoming: bool = self.ports[p].direction() == Direction::In;
            let mut k: usize = 0;
            while k < n
                invariant
                    p < self.ports@.len(),
                    n == self@.ports[p as int].edges.len(),
                    incoming == (self@.ports[p as int].direction == Direction::In),
                    k <= n,
                    cv == channel_views(channels@),
                    forall|pp: int, ss: int| 0 <= pp < p ==> !#[trigger] self@.inlet_at(cv, pp, ss),
                    forall|pp: int, ss: int|
                        0 <= pp < p ==> !#[trigger] self@.outlet_at(cv, pp, ss),
                    forall|ss: int| 0 <= ss < k ==> !#[trigger] self@.inlet_at(cv, p as int, ss),
                    forall|ss: int| 0 <= ss < k ==> !#[trigger] self@.outlet_at(cv, p as int, ss),
                decreases n - k,
            {
                let c: usize = self.ports[p].edge(k);
                if c < channels.len() {
                    if incoming {
                        if !channels[c].is_closed() {
                            assert(self@.inlet_at(cv, p as int, k as int));
                            return true;
                        }
                    } else {
                        if channels[c].len() > 0 {
                            assert(self@.outlet_at(cv, p as int, k as int));
                            return true;
                        }
                    }
                }
                k += 1;
            }
            p += 1;
        }
        false
    }
}

} // verus!
