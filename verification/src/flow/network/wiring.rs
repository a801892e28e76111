//! Wiring: declaring the ports of registered processes and connecting
//! them.

use vstd::prelude::*;
use crate::error::Error;
use crate::flow::channel::{Channel, ChannelView};
use crate::flow::component::Component;
use crate::flow::network::{lemma_wf_replaced, Link, Network, NetworkView, Peer, Wire};
use crate::flow::port::{Arity, Direction};
use crate::flow::process::{Process, ProcessView};

verus! {

impl NetworkView {
    /// The answer to connecting the port `src_port` of the peer `src` to
    /// the port `dst_port` of the peer `dst`: the two ends, or why they
    /// cannot be connected. A peer that is not of this network gives
    /// `NotFound`; a port that the process does not declare in that
    /// direction gives `UnknownPort`; a process that has been started, a
    /// port that is open, or a singular port that has its connection, gives
    /// `AlreadyOpened`: the wiring of what runs is fixed.
    pub open spec fn wire_outcome(
        self,
        src: Peer,
        src_port: Seq<char>,
        dst: Peer,
        dst_port: Seq<char>,
    ) -> Result<Wire, Error> {
        if !self.has_peer(src) || !self.has_peer(dst) {
            Err(Error::NotFound)
        } else {
            match (
                self.peer(src).port_at(src_port, Self::leaving(src)),
                self.peer(dst).port_at(dst_port, Self::arriving(dst)),
            ) {
                (Some(sp), Some(dp)) => {
                    let from = self.peer(src).ports[sp];
                    let to = self.peer(dst).ports[dp];
                    if !self.peer(src).status.building() || !self.peer(dst).status.building()
                        || from.opened || to.opened || !from.has_room() || !to.has_room() {
                        Err(Error::AlreadyOpened)
                    } else {
                        Ok(
                            Wire {
                                src,
                                src_port: sp as usize,
                                dst,
                                dst_port: dp as usize,
                            },
                        )
                    }
                },
                _ => Err(Error::UnknownPort),
            }
        }
    }

    /// The answer to connecting the out-port `src_port` of the process
    /// named `src` to the in-port `dst_port` of the process named `dst`. A
    /// name that is not registered gives `NotFound`.
    pub open spec fn connect_outcome(
        self,
        src: Seq<char>,
        src_port: Seq<char>,
        dst: Seq<char>,
        dst_port: Seq<char>,
    ) -> Result<Wire, Error> {
        match (self.index_of(src), self.index_of(dst)) {
            (Some(i), Some(j)) => self.wire_outcome(
                Peer::Inner(i as usize),
                src_port,
                Peer::Inner(j as usize),
                dst_port,
            ),
            _ => Err(Error::NotFound),
        }
    }

    /// The network with a new connection between the ends of `wire`: a new
    /// channel, as large as the port at which it arrives says, is added
    /// after the others and becomes the last connection of both ports, and
    /// the network records the two ends.
    pub open spec fn after_connect(self, wire: Wire) -> NetworkView {
        let c = self.channels.len() as usize;
        let from = self.peer(wire.src).ports[wire.src_port as int];
        let to = self.peer(wire.dst).ports[wire.dst_port as int];
        let link = Link {
            src: wire.src,
            src_port: wire.src_port,
            src_slot: from.edges.len() as usize,
            dst: wire.dst,
            dst_port: wire.dst_port,
            dst_slot: to.edges.len() as usize,
        };
        let grown = NetworkView {
            channels: self.channels.push(ChannelView::fresh(to.capacity)),
            links: self.links.push(link),
            ..self
        };
        let left = grown.with_peer(
            wire.src,
            grown.peer(wire.src).after_attach(wire.src_port as int, c),
        );
        left.with_peer(wire.dst, left.peer(wire.dst).after_attach(wire.dst_port as int, c))
    }
}

impl<C: Component> Network<C> {
    /// Declares a port of a registered process. A process name that is not
    /// registered gives `NotFound`; a port name that the process has in
    /// that direction gives `DuplicateName`.
    pub fn declare_port(
        &mut self,
        process: &str,
        port: String,
        direction: Direction,
        arity: Arity,
        capacity: usize,
    ) -> (r: Result<(), Error>)
        requires
            old(self).wf(),
            capacity >= 1,
        ensures
            final(self).wf(),
            final(self).components() == old(self).components(),
            match old(self)@.index_of(process@) {
                None => r == Err::<(), Error>(Error::NotFound) && final(self)@ == old(self)@,
                Some(i) => final(self)@ == old(self)@.with_peer(
                    Peer::Inner(i as usize),
                    old(self)@.procs[i].after_declare(port@, direction, arity, capacity as nat),
                ) && r == if old(self)@.procs[i].port_at(port@, direction) is Some {
                    Err::<(), Error>(Error::DuplicateName)
                } else {
                    Ok::<(), Error>(())
                },
            },
    {
        let key = process.to_owned();
        match self.find(&key) {
            None => Err(Error::NotFound),
            Some(i) => {
                let ghost before = self@;
                assert(before.procs[i as int].wf());
                let r = self.procs[i].declare_port(port, direction, arity, capacity);
                assert(self@.procs =~= before.procs.update(
                    i as int,
                    before.procs[i as int].after_declare(port@, direction, arity, capacity as nat),
                ));
                proof {
                    lemma_wf_replaced(before, self@, i as int);
                }
                r
            },
        }
    }

    /// Declares an in-port of a registered process, whose connections each
    /// buffer `capacity` packets.
    pub fn declare_in_port(&mut self, process: &str, port: String, arity: Arity, capacity: usize) -> (r:
        Result<(), Error>)
        requires
            old(self).wf(),
            capacity >= 1,
        ensures
            final(self).wf(),
            final(self).components() == old(self).components(),
            match old(self)@.index_of(process@) {
                None => r == Err::<(), Error>(Error::NotFound) && final(self)@ == old(self)@,
                Some(i) => final(self)@ == old(self)@.with_peer(
                    Peer::Inner(i as usize),
                    old(self)@.procs[i].after_declare(port@, Direction::In, arity, capacity as nat),
                ) && r == if old(self)@.procs[i].port_at(port@, Direction::In) is Some {
                    Err::<(), Error>(Error::DuplicateName)
                } else {
                    Ok::<(), Error>(())
                },
            },
    {
        self.declare_port(process, port, Direction::In, arity, capacity)
    }

    /// Declares an out-port of a registered process.
    pub fn declare_out_port(&mut self, process: &str, port: String, arity: Arity) -> (r: Result<
        (),
        Error,
    >)
        requires
            old(self).wf(),
        ensures
            final(self).wf(),
            final(self).components() == old(self).components(),
            match old(self)@.index_of(process@) {
                None => r == Err::<(), Error>(Error::NotFound) && final(self)@ == old(self)@,
                Some(i) => final(self)@ == old(self)@.with_peer(
                    Peer::Inner(i as usize),
                    old(self)@.procs[i].after_declare(port@, Direction::Out, arity, 1),
                ) && r == if old(self)@.procs[i].port_at(port@, Direction::Out) is Some {
                    Err::<(), Error>(Error::DuplicateName)
                } else {
                    Ok::<(), Error>(())
                },
            },
    {
        self.declare_port(process, port, Direction::Out, arity, 1)
    }

    /// The number of connections of the network.
    pub fn connections(&self) -> (n: usize)
        ensures
            n == self@.links.len(),
    {
        self.links.len()
    }

    /// The two ends of the connection that the channel `c` carries.
    pub fn link(&self, c: usize) -> (link: Link)
        requires
            c < self@.links.len(),
        ensures
            link == self@.links[c as int],
    {
        self.links[c]
    }

    /// The process that a peer stands for.
    pub fn peer(&self, peer: Peer) -> (proc: &Process)
        requires
            self.wf(),
            match peer {
                Peer::Inner(i) => i < self@.procs.len(),
                Peer::Mother => self@.mother is Some,
            },
        ensures
            proc@ == self@.peer(peer),
            proc@.wf(),
    {
        match peer {
            Peer::Inner(i) => {
                assert(self@.procs[i as int].wf());
                &self.procs[i]
            },
            Peer::Mother => match &self.mother {
                Some(m) => m,
                None => {
                    assert(false);
                    &self.procs[0]
                },
            },
        }
    }

    /// Adds a connection over `channel` to the port at `port` of a peer.
    fn attach(&mut self, peer: Peer, port: usize, channel: usize)
        requires
            old(self).sound(),
            match peer {
                Peer::Inner(i) => i < old(self)@.procs.len(),
                Peer::Mother => old(self)@.mother is Some,
            },
            port < old(self)@.peer(peer).ports.len(),
            old(self)@.peer(peer).ports[port as int].has_room(),
        ensures
            final(self).sound(),
            final(self).components() == old(self).components(),
            final(self)@ == old(self)@.with_peer(
                peer,
                old(self)@.peer(peer).after_attach(port as int, channel),
            ),
    {
        let ghost before = self@;
        match peer {
            Peer::Inner(i) => {
                assert(before.procs[i as int].wf());
                self.procs[i].attach(port, channel);
                assert(self@.procs =~= before.procs.update(
                    i as int,
                    before.procs[i as int].after_attach(port as int, channel),
                ));
                assert(self@.sound()) by {
                    assert forall|a: int, b: int| 0 <= a < b < self@.procs.len() implies (
                    #[trigger] self@.procs[a]).name != (#[trigger] self@.procs[b]).name by {
                        assert(before.procs[a].name != before.procs[b].name);
                    }
                    assert forall|a: int| 0 <= a < self@.procs.len() implies (
                    #[trigger] self@.procs[a]).wf() && self@.procs[a].channels.len() == 0 by {
                        assert(before.procs[a].wf());
                    }
                }
            },
            Peer::Mother => {
                match &mut self.mother {
                    Some(m) => {
                        m.attach(port, channel);
                    },
                    None => {},
                }
                assert(self@.procs =~= before.procs);
                assert(self@.sound());
            },
        }
    }

    /// Connects the out-port `src_port` of the process named `src` to the
    /// in-port `dst_port` of the process named `dst`, through a new
    /// channel that buffers as many packets as the in-port says. Only what
    /// has not been started is wired. Where the connection is refused the
    /// network stays as it is.
    pub fn connect(&mut self, src: &str, src_port: &str, dst: &str, dst_port: &str) -> (r: Result<
        (),
        Error,
    >)
        requires
            old(self).wf(),
        ensures
            final(self).wf(),
            final(self).components() == old(self).components(),
            match old(self)@.connect_outcome(src@, src_port@, dst@, dst_port@) {
                Ok(wire) => r == Ok::<(), Error>(()) && final(self)@ == old(self)@.after_connect(
                    wire,
                ),
                Err(e) => r == Err::<(), Error>(e) && final(self)@ == old(self)@,
            },
    {
        let src_name = src.to_owned();
        let dst_name = dst.to_owned();
        match (self.find(&src_name), self.find(&dst_name)) {
            (Some(i), Some(j)) => self.wire(Peer::Inner(i), src_port, Peer::Inner(j), dst_port),
            _ => Err(Error::NotFound),
        }
    }

    /// Connects the port `src_port` of the peer `src` to the port
    /// `dst_port` of the peer `dst`, through a new channel that buffers as
    /// many packets as the port at which it arrives says. The connection
    /// leaves an out-port and arrives at an in-port; at the mother process
    /// of a subnetwork it is the other way round, for its ports are the
    /// boundary: what comes in at an in-port of the mother process goes on
    /// into the subnetwork. Only what has not been started is wired. Where
    /// the connection is refused the network stays as it is.
    pub fn wire(&mut self, src: Peer, src_port: &str, dst: Peer, dst_port: &str) -> (r: Result<
        (),
        Error,
    >)
        requires
            old(self).wf(),
        ensures
            final(self).wf(),
            final(self).components() == old(self).components(),
            match old(self)@.wire_outcome(src, src_port@, dst, dst_port@) {
                Ok(wire) => r == Ok::<(), Error>(()) && final(self)@ == old(self)@.after_connect(
                    wire,
                ),
                Err(e) => r == Err::<(), Error>(e) && final(self)@ == old(self)@,
            },
    {
        let s = src;
        let d = dst;
        let src_port_name = src_port.to_owned();
        let dst_port_name = dst_port.to_owned();
        let known_src: bool = match s {
            Peer::Inner(i) => i < self.procs.len(),
            Peer::Mother => self.mother.is_some(),
        };
        let known_dst: bool = match d {
            Peer::Inner(i) => i < self.procs.len(),
            Peer::Mother => self.mother.is_some(),
        };
        if !known_src || !known_dst {
            return Err(Error::NotFound);
        }
        let leaving = match s {
            Peer::Inner(_) => Direction::Out,
            Peer::Mother => Direction::In,
        };
        let arriving = match d {
            Peer::Inner(_) => Direction::In,
            Peer::Mother => Direction::Out,
        };
        let (sp, dp) = match (
            self.peer(s).find_port(&src_port_name, leaving),
            self.peer(d).find_port(&dst_port_name, arriving),
        ) {
            (Some(sp), Some(dp)) => (sp, dp),
            _ => {
                return Err(Error::UnknownPort);
            },
        };
        proof {
            assert(self@.peer(s).has_port(src_port@, leaving, sp as int));
            assert(self@.peer(d).has_port(dst_port@, arriving, dp as int));
        }
        if !self.peer(s).status().is_building() || !self.peer(d).status().is_building() {
            return Err(Error::AlreadyOpened);
        }
        let from = self.peer(s).port(sp);
        let to = self.peer(d).port(dp);
        if from.is_opened() || to.is_opened() || !from.has_room() || !to.has_room() {
            return Err(Error::AlreadyOpened);
        }
        let capacity: usize = to.capacity();
        let link = Link {
            src: s,
            src_port: sp,
            src_slot: from.degree(),
            dst: d,
            dst_port: dp,
            dst_slot: to.degree(),
        };
        let c: usize = self.channels.len();
        let ghost before = self@;
        let ghost wire = Wire { src: s, src_port: sp, dst: d, dst_port: dp };
        assert(before.peer(d).ports[dp as int].wf());
        self.channels.push(Channel::new(capacity));
        self.links.push(link);
        assert(self@.channels =~= before.channels.push(ChannelView::fresh(capacity as nat)));
        assert(self@.procs =~= before.procs);
        assert(self.sound());
        self.attach(s, sp, c);
        let ghost left = self@;
        assert(left.peer(d).ports[dp as int].has_room()) by {
            if s == d {
                assert(sp != dp);
            }
        }
        self.attach(d, dp, c);
        proof {
            lemma_wired_connected(before, wire);
        }
        Ok(())
    }
}

/// What a new connection does to the connections that a process has:
/// they stay where they are, and the new one comes after those of its
/// port.
pub proof fn lemma_attach_keeps_edges(p: ProcessView, port: int, c: usize, n: nat)
    requires
        0 <= port < p.ports.len(),
        p.edges_below(n),
        c <= n,
    ensures
        p.after_attach(port, c).ports.len() == p.ports.len(),
        p.after_attach(port, c).edges_below(n + 1),
        p.after_attach(port, c).is_edge(
            p.ports[port].direction,
            port,
            p.ports[port].edges.len() as int,
        ),
        p.after_attach(port, c).ports[port].edges[p.ports[port].edges.len() as int] == c,
        forall|q: int|
            0 <= q < p.ports.len() ==> (#[trigger] p.after_attach(port, c).ports[q]).direction
                == p.ports[q].direction,
        forall|q: int|
            0 <= q < p.ports.len() && q != port ==> (#[trigger] p.after_attach(port, c).ports[q])
                == p.ports[q],
        forall|direction: Direction, q: int, slot: int|
            p.is_edge(direction, q, slot) ==> #[trigger] p.after_attach(port, c).is_edge(
                direction,
                q,
                slot,
            ) && p.after_attach(port, c).ports[q].edges[slot] == p.ports[q].edges[slot],
{
    let after = p.after_attach(port, c);
    assert forall|q: int, slot: int|
        0 <= q < after.ports.len() && 0 <= slot < after.ports[q].edges.len() implies (
    #[trigger] after.ports[q].edges[slot]) < n + 1 by {
        if q == port && slot == p.ports[port].edges.len() {
        } else {
            assert(p.ports[q].edges[slot] < n);
        }
    }
}

/// The process of a peer after a connection between the ends of `wire`
/// has been added over the channel `c`.
pub open spec fn wired_peer(net: NetworkView, wire: Wire, c: usize, peer: Peer) -> ProcessView {
    let first = if peer == wire.src {
        net.peer(peer).after_attach(wire.src_port as int, c)
    } else {
        net.peer(peer)
    };
    if peer == wire.dst {
        first.after_attach(wire.dst_port as int, c)
    } else {
        first
    }
}

/// A new connection between ports that exist, one that a connection may
/// leave and one at which it may arrive, keeps the record of the
/// connections true.
pub proof fn lemma_wired_connected(net: NetworkView, wire: Wire)
    requires
        net.wired(),
        net.has_peer(wire.src),
        net.has_peer(wire.dst),
        wire.src_port < net.peer(wire.src).ports.len(),
        wire.dst_port < net.peer(wire.dst).ports.len(),
        net.peer(wire.src).ports[wire.src_port as int].direction == NetworkView::leaving(wire.src),
        net.peer(wire.dst).ports[wire.dst_port as int].direction == NetworkView::arriving(
            wire.dst,
        ),
        net.channels.len() <= usize::MAX,
        net.peer(wire.src).ports[wire.src_port as int].edges.len() <= usize::MAX,
        net.peer(wire.dst).ports[wire.dst_port as int].edges.len() <= usize::MAX,
    ensures
        net.after_connect(wire).wired(),
{
    let after = net.after_connect(wire);
    let n = net.channels.len();
    let c = n as usize;
    assert forall|peer: Peer| net.has_peer(peer) implies after.has_peer(peer) && after.peer(peer)
        == #[trigger] wired_peer(net, wire, c, peer) by {
    }
    assert forall|peer: Peer| #[trigger] net.has_peer(peer) implies wired_peer(
        net,
        wire,
        c,
        peer,
    ).edges_below(n + 1) && (forall|direction: Direction, q: int, slot: int|
        net.peer(peer).is_edge(direction, q, slot) ==> #[trigger] wired_peer(
            net,
            wire,
            c,
            peer,
        ).is_edge(direction, q, slot) && wired_peer(net, wire, c, peer).ports[q].edges[slot]
            == net.peer(peer).ports[q].edges[slot]) by {
        let p0 = net.peer(peer);
        assert(p0.edges_below(n)) by {
            match peer {
                Peer::Inner(i) => {
                    assert(net.procs[i as int].edges_below(n));
                },
                Peer::Mother => {},
            }
        }
        let p1 = if peer == wire.src {
            p0.after_attach(wire.src_port as int, c)
        } else {
            p0
        };
        if peer == wire.src {
            lemma_attach_keeps_edges(p0, wire.src_port as int, c, n);
        }
        if peer == wire.dst {
            if peer == wire.src {
                lemma_attach_keeps_edges(p1, wire.dst_port as int, c, n + 1);
                assert(p1.edges_below(n + 1));
                lemma_attach_tops(p1, wire.dst_port as int, c, n + 1);
            } else {
                lemma_attach_keeps_edges(p1, wire.dst_port as int, c, n);
            }
        }
    }
    assert forall|k: int| 0 <= k < after.links.len() implies #[trigger] after.linked(k) by {
        let link = after.links[k];
        if k < n {
            assert(net.linked(k));
            assert(link == net.links[k]);
            assert(net.has_peer(link.src));
            assert(net.has_peer(link.dst));
        } else {
            let s0 = net.peer(wire.src);
            let d0 = net.peer(wire.dst);
            lemma_attach_keeps_edges(s0, wire.src_port as int, c, n);
            let s1 = s0.after_attach(wire.src_port as int, c);
            if wire.src == wire.dst {
                assert(wire.src_port != wire.dst_port);
                lemma_attach_keeps_edges(s1, wire.dst_port as int, c, n + 1);
                assert(s1.ports[wire.dst_port as int] == s0.ports[wire.dst_port as int]);
            } else {
                lemma_attach_keeps_edges(d0, wire.dst_port as int, c, n);
            }
        }
    }
    assert forall|i: int| 0 <= i < after.procs.len() implies (#[trigger] after.procs[i]).edges_below(
        after.channels.len(),
    ) by {
        assert(net.has_peer(Peer::Inner(i as usize)));
        assert(after.peer(Peer::Inner(i as usize)) == wired_peer(
            net,
            wire,
            c,
            Peer::Inner(i as usize),
        ));
    }
    if after.mother is Some {
        assert(net.has_peer(Peer::Mother));
        assert(after.peer(Peer::Mother) == wired_peer(net, wire, c, Peer::Mother));
    }
}

/// A connection over a channel below `n` keeps the connections of a
/// process below `n`.
pub proof fn lemma_attach_tops(p: ProcessView, port: int, c: usize, n: nat)
    requires
        0 <= port < p.ports.len(),
        p.edges_below(n),
        c < n,
    ensures
        p.after_attach(port, c).edges_below(n),
{
    let after = p.after_attach(port, c);
    assert forall|q: int, slot: int|
        0 <= q < after.ports.len() && 0 <= slot < after.ports[q].edges.len() implies (
    #[trigger] after.ports[q].edges[slot]) < n by {
        if q == port && slot == p.ports[port].edges.len() {
        } else {
            assert(p.ports[q].edges[slot] < n);
        }
    }
}

} // verus!
