//! The boundary of a subnetwork: how the ports of the mother process, in
//! the enclosing network, continue as connections inside.

use vstd::prelude::*;
use crate::error::Error;
use crate::flow::channel::{ChannelView, Received};
use crate::flow::component::{Component, ComponentMustRun};
use crate::flow::network::{lemma_wf_kept, Bridge, Network, NetworkView, RunStatus};
use crate::flow::port::{Direction, InPort, OutPort, PortView};
use crate::flow::process::{Process, ProcessView, Wait};

verus! {

/// The time after a packet has been stamped. It stops at the largest time.
pub open spec fn tick(clock: nat) -> nat {
    if clock < u64::MAX {
        clock + 1
    } else {
        clock
    }
}

/// The two channels of a crossing, and the time on the side to which the
/// packets go.
pub struct Crossing {
    pub from: ChannelView,
    pub to: ChannelView,
    pub clock: nat,
}

/// A crossing into the subnetwork, after all that can cross has crossed.
/// Packets go over, oldest first, while the buffer inside has room; where
/// the receiver inside has gone they are taken and discarded. The end of
/// the stream crosses once nothing is left before it, and closes the
/// channel inside.
pub open spec fn relay_in(x: Crossing) -> Crossing
    decreases x.from.queue.len(),
{
    if x.from.abandoned || x.from.finished {
        x
    } else if x.from.queue.len() > 0 {
        if x.to.abandoned {
            relay_in(Crossing { from: x.from.after_poll(), ..x })
        } else if x.to.connected() && !x.to.is_full() {
            relay_in(
                Crossing {
                    from: x.from.after_poll(),
                    to: x.to.after_offer(x.clock as u64, x.from.queue[0].packet),
                    clock: tick(x.clock),
                },
            )
        } else {
            x
        }
    } else if x.from.closed {
        Crossing { from: x.from.after_poll(), to: x.to.after_close(), ..x }
    } else {
        x
    }
}

/// A crossing out of the subnetwork, after all that can cross has crossed.
/// Packets go over, oldest first, while the buffer outside has room. Where
/// the connection outside takes no more packets, the channel inside is
/// abandoned.
pub open spec fn relay_out(x: Crossing) -> Crossing
    decreases x.from.queue.len(),
{
    if !x.to.connected() {
        Crossing { from: x.from.after_abandon(), ..x }
    } else if x.from.queue.len() > 0 && !x.from.abandoned && !x.from.finished && !x.to.is_full() {
        relay_out(
            Crossing {
                from: x.from.after_poll(),
                to: x.to.after_offer(x.clock as u64, x.from.queue[0].packet),
                clock: tick(x.clock),
            },
        )
    } else {
        x
    }
}

/// A mother process in its enclosing network, during an activation, and
/// the subnetwork that is its component.
pub struct Nested {
    pub outer: ProcessView,
    pub inner: NetworkView,
}

/// The channel outside that a bridge into the subnetwork comes from.
pub open spec fn source_of(outer: ProcessView, b: Bridge) -> Option<int> {
    match b.port {
        Some(p) => outer.in_channel(InPort { port: p, slot: b.slot }),
        None => None,
    }
}

/// The channel outside that a bridge out of the subnetwork leads to.
pub open spec fn target_of(outer: ProcessView, b: Bridge) -> Option<int> {
    match b.port {
        Some(p) => outer.out_channel(OutPort { port: p, slot: b.slot }),
        None => None,
    }
}

/// Mother process and subnetwork after the crossing `b` into the
/// subnetwork has been served. A bridge that comes from nowhere closes the
/// channel inside: nothing will arrive.
pub open spec fn pump_inlet(s: Nested, b: Bridge) -> Nested {
    let ic = b.channel as int;
    if ic >= s.inner.channels.len() {
        s
    } else {
        match source_of(s.outer, b) {
            None => Nested {
                inner: NetworkView {
                    channels: s.inner.channels.update(ic, s.inner.channels[ic].after_close()),
                    ..s.inner
                },
                ..s
            },
            Some(oc) => {
                let x = relay_in(
                    Crossing {
                        from: s.outer.channels[oc],
                        to: s.inner.channels[ic],
                        clock: s.inner.clock,
                    },
                );
                Nested {
                    outer: ProcessView { channels: s.outer.channels.update(oc, x.from), ..s.outer },
                    inner: NetworkView {
                        channels: s.inner.channels.update(ic, x.to),
                        clock: x.clock,
                        ..s.inner
                    },
                }
            },
        }
    }
}

/// Mother process and subnetwork after the first `n` crossings into the
/// subnetwork have been served, in their order.
pub open spec fn pump_inlets(s: Nested, n: nat) -> Nested
    decreases n,
{
    if n == 0 || n > s.inner.inlets.len() {
        s
    } else {
        pump_inlet(pump_inlets(s, (n - 1) as nat), s.inner.inlets[n - 1])
    }
}

/// Mother process and subnetwork after the crossing `b` out of the
/// subnetwork has been served. A bridge that leads nowhere abandons the
/// channel inside. Where packets are left inside because the buffer
/// outside is full, the activation of the mother process is suspended on
/// that buffer.
pub open spec fn pump_outlet(s: Nested, b: Bridge) -> Nested {
    let ic = b.channel as int;
    if ic >= s.inner.channels.len() {
        s
    } else {
        match target_of(s.outer, b) {
            None => Nested {
                inner: NetworkView {
                    channels: s.inner.channels.update(ic, s.inner.channels[ic].after_abandon()),
                    ..s.inner
                },
                ..s
            },
            Some(oc) => {
                let x = relay_out(
                    Crossing {
                        from: s.inner.channels[ic],
                        to: s.outer.channels[oc],
                        clock: s.outer.clock,
                    },
                );
                Nested {
                    outer: ProcessView {
                        channels: s.outer.channels.update(oc, x.to),
                        clock: x.clock,
                        produced: s.outer.produced || x.to.sent > s.outer.channels[oc].sent,
                        waiting: if x.from.queue.len() > 0 {
                            Some(Wait::OnSend(oc as usize))
                        } else {
                            s.outer.waiting
                        },
                        ..s.outer
                    },
                    inner: NetworkView { channels: s.inner.channels.update(ic, x.from), ..s.inner },
                }
            },
        }
    }
}

/// Mother process and subnetwork after the first `n` crossings out of the
/// subnetwork have been served, in their order.
pub open spec fn pump_outlets(s: Nested, n: nat) -> Nested
    decreases n,
{
    if n == 0 || n > s.inner.outlets.len() {
        s
    } else {
        pump_outlet(pump_outlets(s, (n - 1) as nat), s.inner.outlets[n - 1])
    }
}

/// The bridges of the connections of a port of the mother process, whose
/// port outside is at `place`.
pub open spec fn bridges_of(port: PortView, place: Option<usize>) -> Seq<Bridge> {
    Seq::new(
        port.edges.len(),
        |k: int| Bridge { port: place, slot: k as usize, channel: port.edges[k] },
    )
}

/// A mother process in its enclosing network, and the bridges that lead
/// from its ports into a subnetwork and out of it.
pub struct Binding {
    pub outer: ProcessView,
    pub inlets: Seq<Bridge>,
    pub outlets: Seq<Bridge>,
}

/// The binding of the first `n` ports that the subnetwork knows of its
/// mother process `mother` to the process `outer`: each port is opened on
/// `outer` under its name, direction and arity, and each of its
/// connections inside gets a bridge to the connection at the same slot
/// outside. A port that cannot be opened leaves its bridges without a
/// place outside.
pub open spec fn bind_ports(outer: ProcessView, mother: ProcessView, n: nat) -> Binding
    decreases n,
{
    if n == 0 || n > mother.ports.len() {
        Binding { outer, inlets: Seq::empty(), outlets: Seq::empty() }
    } else {
        let b = bind_ports(outer, mother, (n - 1) as nat);
        let port = mother.ports[n - 1];
        let place = match b.outer.open_outcome(port.name, port.direction, port.arity) {
            Ok(i) => Some(i as usize),
            Err(_) => None,
        };
        let opened = b.outer.after_open(port.name, port.direction, port.arity);
        if port.direction == Direction::In {
            Binding { outer: opened, inlets: b.inlets + bridges_of(port, place), outlets: b.outlets }
        } else {
            Binding { outer: opened, inlets: b.inlets, outlets: b.outlets + bridges_of(port, place) }
        }
    }
}

/// Mother process and subnetwork after the subnetwork has been bound to
/// the mother process: the ports are opened and the bridges laid. A
/// network that knows no mother process binds nothing.
pub open spec fn bound(s: Nested) -> Nested {
    match s.inner.mother {
        None => s,
        Some(m) => {
            let b = bind_ports(s.outer, m, m.ports.len());
            Nested {
                outer: b.outer,
                inner: NetworkView { inlets: b.inlets, outlets: b.outlets, ..s.inner },
            }
        },
    }
}

/// What the activation of a subnetwork does to it and to its mother
/// process: it serves the crossings into the subnetwork, runs its
/// scheduler for as many steps as it has processes, at most, and serves
/// the crossings out of it. A deadlock inside is the error of the
/// activation.
pub open spec fn quantum(before: Nested, after: Nested, r: Result<(), Error>) -> bool {
    exists|mid: NetworkView, answer: Result<RunStatus, Error>|
        #[trigger] quantum_through(
            pump_inlets(before, before.inner.inlets.len()),
            mid,
            answer,
            after,
            r,
        )
}

/// The part of an activation of a subnetwork that follows the crossings
/// into it: from `taken` a run of the scheduler gets to `mid` and answers
/// `answer`, and the crossings out of the subnetwork give `after`.
pub open spec fn quantum_through(
    taken: Nested,
    mid: NetworkView,
    answer: Result<RunStatus, Error>,
    after: Nested,
    r: Result<(), Error>,
) -> bool {
    &&& taken.inner.runs(mid, taken.inner.procs.len(), answer)
    &&& after == pump_outlets(Nested { outer: taken.outer, inner: mid }, mid.outlets.len())
    &&& r == match answer {
        Ok(_) => Ok::<(), Error>(()),
        Err(e) => Err::<(), Error>(e),
    }
}

/// Some buffer that leads out of the subnetwork holds a packet.
pub open spec fn outlets_pending(inner: NetworkView) -> bool {
    exists|k: int|
        0 <= k < inner.outlets.len() && (#[trigger] inner.outlets[k]).channel
            < inner.channels.len() && inner.channels[inner.outlets[k].channel as int].queue.len()
            > 0
}

/// Bridging keeps the packets and their order. After a crossing into the
/// subnetwork has been served, the packets in the buffer inside followed by
/// those still outside are the packets that were inside followed by those
/// that were outside: each packet unchanged, none lost, none added, unless
/// the receiver inside has gone. Both channels stay well-formed, and what
/// the channel inside has accepted has grown by what has left the buffer
/// outside.
pub proof fn lemma_relay_in_keeps_order(x: Crossing)
    requires
        x.from.wf(),
        x.to.wf(),
        x.clock <= u64::MAX,
    ensures
        relay_in(x).from.wf(),
        relay_in(x).to.wf(),
        relay_in(x).clock <= u64::MAX,
        relay_in(x).clock >= x.clock,
        !x.to.abandoned ==> relay_in(x).to.packets() + relay_in(x).from.packets()
            == x.to.packets() + x.from.packets(),
        !x.to.abandoned ==> relay_in(x).to.sent - x.to.sent == x.from.queue.len() - relay_in(
            x,
        ).from.queue.len(),
        relay_in(x).from.sent == x.from.sent,
        relay_in(x).from.capacity == x.from.capacity,
        relay_in(x).from.closed == x.from.closed,
        relay_in(x).from.abandoned == x.from.abandoned,
        x.from.finished ==> relay_in(x).from.finished,
        relay_in(x).to.capacity == x.to.capacity,
        relay_in(x).to.abandoned == x.to.abandoned,
        relay_in(x).to.finished == x.to.finished,
        x.to.closed ==> relay_in(x).to.closed,
    decreases x.from.queue.len(),
{
    if x.from.abandoned || x.from.finished {
    } else if x.from.queue.len() > 0 {
        if x.to.abandoned {
            lemma_relay_in_keeps_order(Crossing { from: x.from.after_poll(), ..x });
        } else if x.to.connected() && !x.to.is_full() {
            let next = Crossing {
                from: x.from.after_poll(),
                to: x.to.after_offer(x.clock as u64, x.from.queue[0].packet),
                clock: tick(x.clock),
            };
            lemma_relay_in_keeps_order(next);
            assert(next.to.packets() + next.from.packets() =~= x.to.packets() + x.from.packets());
        }
    } else if x.from.closed {
        assert(relay_in(x).to.packets() + relay_in(x).from.packets() =~= x.to.packets()
            + x.from.packets());
    }
}

/// Bridging out of the subnetwork keeps the packets and their order, as
/// bridging into it does, unless the connection outside takes no more
/// packets and the channel inside is abandoned.
pub proof fn lemma_relay_out_keeps_order(x: Crossing)
    requires
        x.from.wf(),
        x.to.wf(),
        x.clock <= u64::MAX,
    ensures
        relay_out(x).from.wf(),
        relay_out(x).to.wf(),
        relay_out(x).clock <= u64::MAX,
        relay_out(x).clock >= x.clock,
        relay_out(x).from.abandoned || relay_out(x).to.packets() + relay_out(x).from.packets()
            == x.to.packets() + x.from.packets(),
        relay_out(x).from.sent == x.from.sent,
        relay_out(x).from.capacity == x.from.capacity,
        relay_out(x).from.closed == x.from.closed,
        relay_out(x).from.finished == x.from.finished,
        relay_out(x).to.capacity == x.to.capacity,
        relay_out(x).to.closed == x.to.closed,
        relay_out(x).to.abandoned == x.to.abandoned,
        relay_out(x).to.finished == x.to.finished,
        relay_out(x).to.sent >= x.to.sent,
        relay_out(x).from.queue.len() > 0 ==> relay_out(x).to.connected() && relay_out(
            x,
        ).to.is_full(),
    decreases x.from.queue.len(),
{
    if !x.to.connected() {
    } else if x.from.queue.len() > 0 && !x.from.abandoned && !x.from.finished && !x.to.is_full() {
        let next = Crossing {
            from: x.from.after_poll(),
            to: x.to.after_offer(x.clock as u64, x.from.queue[0].packet),
            clock: tick(x.clock),
        };
        lemma_relay_out_keeps_order(next);
        assert(next.to.packets() + next.from.packets() =~= x.to.packets() + x.from.packets());
    }
}

impl<C: ComponentMustRun> Network<C> {
    /// Serves the crossing at `k` into the subnetwork, for the mother
    /// process `proc`.
    pub fn pump_inlet(&mut self, proc: &mut Process, k: usize)
        requires
            old(self).wf(),
            old(proc)@.wf(),
            k < old(self)@.inlets.len(),
        ensures
            final(self).wf(),
            final(self).components() == old(self).components(),
            final(proc)@.wf(),
            final(proc)@.evolved_from(old(proc)@),
            (Nested { outer: final(proc)@, inner: final(self)@ }) == pump_inlet(
                Nested { outer: old(proc)@, inner: old(self)@ },
                old(self)@.inlets[k as int],
            ),
    {
        proof {
            crate::flow::process::lemma_evolved_refl(proc@);
        }
        let ghost outer0 = proc@;
        let ghost inner0 = self@;
        let b = self.inlets[k];
        let ic: usize = b.channel;
        if ic >= self.channels.len() {
            return ;
        }
        assert(inner0.channels[ic as int].wf());
        let found: Option<InPort> = match b.port {
            Some(p) => {
                let h = InPort { port: p, slot: b.slot };
                match proc.route(Direction::In, p, b.slot) {
                    Some(_) => Some(h),
                    None => None,
                }
            },
            None => None,
        };
        let handle = match found {
            Some(h) => h,
            None => {
                self.channels[ic].close();
                assert(self@.channels =~= inner0.channels.update(
                    ic as int,
                    inner0.channels[ic as int].after_close(),
                ));
                assert(self@.procs =~= inner0.procs);
                proof {
                    lemma_wf_kept(inner0, self@);
                }
                return ;
            },
        };
        let ghost oc = source_of(outer0, b)->Some_0;
        assert(outer0.channels[oc].wf());
        let ghost goal = relay_in(
            Crossing { from: outer0.channels[oc], to: inner0.channels[ic as int], clock: inner0.clock },
        );
        assert(outer0.channels.update(oc, outer0.channels[oc]) =~= outer0.channels);
        assert(inner0.channels.update(ic as int, inner0.channels[ic as int]) =~= inner0.channels);
        while proc.has_packet(&handle) && (self.channels[ic].is_abandoned() || (
        self.channels[ic].is_connected() && !self.channels[ic].is_full()))
            invariant
                self.wf(),
                self.components() == old(self).components(),
                proc@.wf(),
                inner0.wf(),
                ic < self.channels@.len(),
                self.channels@.len() == inner0.channels.len(),
                proc@.in_channel(handle) == Some(oc),
                0 <= oc < outer0.channels.len(),
                proc@ == (ProcessView {
                    channels: outer0.channels.update(oc, proc@.channels[oc]),
                    ..outer0
                }),
                self@ == (NetworkView {
                    channels: inner0.channels.update(ic as int, self@.channels[ic as int]),
                    clock: self@.clock,
                    ..inner0
                }),
                proc@.evolved_from(outer0),
                relay_in(
                    Crossing {
                        from: proc@.channels[oc],
                        to: self@.channels[ic as int],
                        clock: self@.clock,
                    },
                ) == goal,
            decreases proc@.channels[oc].queue.len(),
        {
            let ghost outer1 = proc@;
            let ghost inner1 = self@;
            assert(outer1.channels[oc].wf());
            assert(inner1.channels[ic as int].wf());
            match proc.receive(&handle) {
                Ok(Received::Packet(_, packet)) => {
                    if !self.channels[ic].is_abandoned() {
                        let clock: u64 = self.clock;
                        let _ = self.channels[ic].offer(clock, packet);
                        if self.clock < u64::MAX {
                            self.clock = self.clock + 1;
                        }
                    }
                },
                _ => {},
            }
            assert(proc@.channels =~= outer0.channels.update(oc, proc@.channels[oc]));
            assert(self@.channels =~= inner1.channels.update(ic as int, self@.channels[ic as int]));
            assert(self@.channels =~= inner0.channels.update(ic as int, self@.channels[ic as int]));
            assert(self@.procs =~= inner0.procs);
            proof {
                crate::flow::process::lemma_evolved_trans(outer0, outer1, proc@);
                lemma_wf_kept(inner0, self@);
            }
        }
        let ghost outer2 = proc@;
        let ghost inner2 = self@;
        assert(outer2.channels[oc].wf());
        assert(inner2.channels[ic as int].wf());
        if !proc.has_packet(&handle) && proc.has_input(&handle) {
            let _ = proc.receive(&handle);
            self.channels[ic].close();
            assert(self@.channels =~= inner2.channels.update(
                ic as int,
                inner2.channels[ic as int].after_close(),
            ));
            proof {
                crate::flow::process::lemma_evolved_trans(outer0, outer2, proc@);
            }
        }
        assert(proc@.channels[oc] == goal.from);
        assert(self@.channels[ic as int] == goal.to);
        assert(proc@.channels =~= outer0.channels.update(oc, goal.from));
        assert(self@.channels =~= inner0.channels.update(ic as int, goal.to));
        assert(self@.procs =~= inner0.procs);
        proof {
            lemma_wf_kept(inner0, self@);
        }
    }

    /// Serves every crossing into the subnetwork, in the order of the
    /// bridges.
    pub fn pump_in(&mut self, proc: &mut Process)
        requires
            old(self).wf(),
            old(proc)@.wf(),
        ensures
            final(self).wf(),
            final(self).components() == old(self).components(),
            final(proc)@.wf(),
            final(proc)@.evolved_from(old(proc)@),
            (Nested { outer: final(proc)@, inner: final(self)@ }) == pump_inlets(
                Nested { outer: old(proc)@, inner: old(self)@ },
                old(self)@.inlets.len(),
            ),
    {
        proof {
            crate::flow::process::lemma_evolved_refl(proc@);
        }
        let ghost start = Nested { outer: proc@, inner: self@ };
        let n: usize = self.inlets.len();
        let mut k: usize = 0;
        while k < n
            invariant
                k <= n,
                n == start.inner.inlets.len(),
                self@.inlets == start.inner.inlets,
                self.wf(),
                self.components() == old(self).components(),
                proc@.wf(),
                proc@.evolved_from(start.outer),
                (Nested { outer: proc@, inner: self@ }) == pump_inlets(start, k as nat),
            decreases n - k,
        {
            let ghost before = proc@;
            self.pump_inlet(proc, k);
            proof {
                crate::flow::process::lemma_evolved_trans(start.outer, before, proc@);
            }
            k += 1;
        }
    }

    /// Serves the crossing at `k` out of the subnetwork, for the mother
    /// process `proc`.
    pub fn pump_outlet(&mut self, proc: &mut Process, k: usize)
        requires
            old(self).wf(),
            old(proc)@.wf(),
            k < old(self)@.outlets.len(),
        ensures
            final(self).wf(),
            final(self).components() == old(self).components(),
            final(proc)@.wf(),
            final(proc)@.evolved_from(old(proc)@),
            (Nested { outer: final(proc)@, inner: final(self)@ }) == pump_outlet(
                Nested { outer: old(proc)@, inner: old(self)@ },
                old(self)@.outlets[k as int],
            ),
    {
        proof {
            crate::flow::process::lemma_evolved_refl(proc@);
        }
        let ghost outer0 = proc@;
        let ghost inner0 = self@;
        let b = self.outlets[k];
        let ic: usize = b.channel;
        if ic >= self.channels.len() {
            return ;
        }
        assert(inner0.channels[ic as int].wf());
        let found: Option<OutPort> = match b.port {
            Some(p) => {
                let h = OutPort { port: p, slot: b.slot };
                match proc.route(Direction::Out, p, b.slot) {
                    Some(_) => Some(h),
                    None => None,
                }
            },
            None => None,
        };
        let handle = match found {
            Some(h) => h,
            None => {
                self.channels[ic].abandon();
                assert(self@.channels =~= inner0.channels.update(
                    ic as int,
                    inner0.channels[ic as int].after_abandon(),
                ));
                assert(self@.procs =~= inner0.procs);
                proof {
                    lemma_wf_kept(inner0, self@);
                }
                return ;
            },
        };
        let ghost oc = target_of(outer0, b)->Some_0;
        assert(outer0.channels[oc].wf());
        let ghost goal = relay_out(
            Crossing { from: inner0.channels[ic as int], to: outer0.channels[oc], clock: outer0.clock },
        );
        assert(outer0.channels.update(oc, outer0.channels[oc]) =~= outer0.channels);
        assert(inner0.channels.update(ic as int, inner0.channels[ic as int]) =~= inner0.channels);
        while self.channels[ic].len() > 0 && proc.can_send(&handle)
            invariant
                self.wf(),
                self.components() == old(self).components(),
                proc@.wf(),
                inner0.wf(),
                ic < self.channels@.len(),
                self.channels@.len() == inner0.channels.len(),
                proc@.out_channel(handle) == Some(oc),
                0 <= oc < outer0.channels.len(),
                proc@.channels[oc].sent >= outer0.channels[oc].sent,
                proc@ == (ProcessView {
                    channels: outer0.channels.update(oc, proc@.channels[oc]),
                    clock: proc@.clock,
                    produced: outer0.produced || proc@.channels[oc].sent
                        > outer0.channels[oc].sent,
                    ..outer0
                }),
                self@ == (NetworkView {
                    channels: inner0.channels.update(ic as int, self@.channels[ic as int]),
                    ..inner0
                }),
                proc@.evolved_from(outer0),
                relay_out(
                    Crossing {
                        from: self@.channels[ic as int],
                        to: proc@.channels[oc],
                        clock: proc@.clock,
                    },
                ) == goal,
            decreases self@.channels[ic as int].queue.len(),
        {
            let ghost outer1 = proc@;
            let ghost inner1 = self@;
            assert(outer1.channels[oc].wf());
            assert(inner1.channels[ic as int].wf());
            match self.channels[ic].take() {
                Ok(Received::Packet(_, packet)) => {
                    let _ = proc.send(&handle, packet);
                },
                _ => {},
            }
            assert(proc@.channels =~= outer0.channels.update(oc, proc@.channels[oc]));
            assert(self@.channels =~= inner1.channels.update(ic as int, self@.channels[ic as int]));
            assert(self@.channels =~= inner0.channels.update(ic as int, self@.channels[ic as int]));
            assert(self@.procs =~= inner0.procs);
            proof {
                crate::flow::process::lemma_evolved_trans(outer0, outer1, proc@);
                lemma_wf_kept(inner0, self@);
            }
        }
        let ghost outer2 = proc@;
        let ghost inner2 = self@;
        assert(outer2.channels[oc].wf());
        assert(inner2.channels[ic as int].wf());
        if !proc.is_live(&handle) {
            self.channels[ic].abandon();
            assert(self@.channels =~= inner2.channels.update(
                ic as int,
                inner2.channels[ic as int].after_abandon(),
            ));
        } else if self.channels[ic].len() > 0 {
            proc.suspend_on_send(&handle);
            proof {
                crate::flow::process::lemma_evolved_trans(outer0, outer2, proc@);
            }
        }
        assert(proc@.channels[oc] == goal.to);
        assert(self@.channels[ic as int] == goal.from);
        assert(proc@.channels =~= outer0.channels.update(oc, goal.to));
        assert(self@.channels =~= inner0.channels.update(ic as int, goal.from));
        assert(self@.procs =~= inner0.procs);
        proof {
            lemma_wf_kept(inner0, self@);
        }
    }

    /// Serves every crossing out of the subnetwork, in the order of the
    /// bridges.
    pub fn pump_out(&mut self, proc: &mut Process)
        requires
            old(self).wf(),
            old(proc)@.wf(),
        ensures
            final(self).wf(),
            final(self).components() == old(self).components(),
            final(proc)@.wf(),
            final(proc)@.evolved_from(old(proc)@),
            (Nested { outer: final(proc)@, inner: final(self)@ }) == pump_outlets(
                Nested { outer: old(proc)@, inner: old(self)@ },
                old(self)@.outlets.len(),
            ),
    {
        proof {
            crate::flow::process::lemma_evolved_refl(proc@);
        }
        let ghost start = Nested { outer: proc@, inner: self@ };
        let n: usize = self.outlets.len();
        let mut k: usize = 0;
        while k < n
            invariant
                k <= n,
                n == start.inner.outlets.len(),
                self@.outlets == start.inner.outlets,
                self.wf(),
                self.components() == old(self).components(),
                proc@.wf(),
                proc@.evolved_from(start.outer),
                (Nested { outer: proc@, inner: self@ }) == pump_outlets(start, k as nat),
            decreases n - k,
        {
            let ghost before = proc@;
            self.pump_outlet(proc, k);
            proof {
                crate::flow::process::lemma_evolved_trans(start.outer, before, proc@);
            }
            k += 1;
        }
    }

    /// Tells whether some buffer that leads out of the subnetwork holds a
    /// packet.
    pub fn outlets_pending(&self) -> (pending: bool)
        ensures
            pending == outlets_pending(self@),
    {
        let mut k: usize = 0;
        while k < self.outlets.len()
            invariant
                k <= self.outlets@.len(),
                forall|j: int|
                    0 <= j < k ==> !((#[trigger] self@.outlets[j]).channel < self@.channels.len()
                        && self@.channels[self@.outlets[j].channel as int].queue.len() > 0),
            decreases self.outlets@.len() - k,
        {
            let c: usize = self.outlets[k].channel;
            if c < self.channels.len() && self.channels[c].len() > 0 {
                assert(self@.outlets[k as int].channel < self@.channels.len());
                return true;
            }
            k += 1;
        }
        false
    }

    /// Binds the subnetwork to its mother process `proc` in the enclosing
    /// network: opens on `proc` the ports that the subnetwork knows of its
    /// mother process and lays the bridges. A network without a mother
    /// process binds nothing.
    pub fn bind(&mut self, proc: &mut Process)
        requires
            old(self).wf(),
            old(proc)@.wf(),
        ensures
            final(self).wf(),
            final(self).components() == old(self).components(),
            final(proc)@.wf(),
            final(proc)@.evolved_from(old(proc)@),
            (Nested { outer: final(proc)@, inner: final(self)@ }) == bound(
                Nested { outer: old(proc)@, inner: old(self)@ },
            ),
    {
        proof {
            crate::flow::process::lemma_evolved_refl(proc@);
        }
        let ghost outer0 = proc@;
        let ghost inner0 = self@;
        let mut inlets: Vec<Bridge> = Vec::new();
        let mut outlets: Vec<Bridge> = Vec::new();
        match &self.mother {
            None => {
                return ;
            },
            Some(m) => {
                let ghost mv = m@;
                let n: usize = m.port_count();
                let mut j: usize = 0;
                while j < n
                    invariant
                        j <= n,
                        n == mv.ports.len(),
                        mv == m@,
                        proc@.wf(),
                        proc@.evolved_from(outer0),
                        (Binding { outer: proc@, inlets: inlets@, outlets: outlets@ })
                            == bind_ports(outer0, mv, j as nat),
                    decreases n - j,
                {
                    let ghost before = proc@;
                    let ghost ins = inlets@;
                    let ghost outs = outlets@;
                    let port = m.port(j);
                    let direction = port.direction();
                    let place: Option<usize> = match proc.open_port(
                        port.name(),
                        direction,
                        port.arity(),
                    ) {
                        Ok(i) => Some(i),
                        Err(_) => None,
                    };
                    proof {
                        crate::flow::process::lemma_evolved_trans(outer0, before, proc@);
                    }
                    let incoming: bool = direction == Direction::In;
                    let degree: usize = port.degree();
                    let mut k: usize = 0;
                    while k < degree
                        invariant
                            k <= degree,
                            degree == port@.edges.len(),
                            inlets@ == if incoming {
                                ins + bridges_of(port@, place).take(k as int)
                            } else {
                                ins
                            },
                            outlets@ == if incoming {
                                outs
                            } else {
                                outs + bridges_of(port@, place).take(k as int)
                            },
                        decreases degree - k,
                    {
                        let bridge = Bridge { port: place, slot: k, channel: port.edge(k) };
                        if incoming {
                            inlets.push(bridge);
                            assert(inlets@ =~= ins + bridges_of(port@, place).take(k + 1));
                        } else {
                            outlets.push(bridge);
                            assert(outlets@ =~= outs + bridges_of(port@, place).take(k + 1));
                        }
                        k += 1;
                    }
                    assert(bridges_of(port@, place).take(degree as int) =~= bridges_of(
                        port@,
                        place,
                    ));
                    j += 1;
                }
            },
        }
        self.inlets = inlets;
        self.outlets = outlets;
        proof {
            lemma_wf_kept(inner0, self@);
        }
    }
}

impl<C: ComponentMustRun> Component for Network<C> {
    open spec fn inv(&self) -> bool {
        self.wf()
    }

    /// The set-up binds the subnetwork to its mother process and starts it.
    open spec fn sets_up(self, proc: ProcessView, configured: Self, ready: ProcessView) -> bool {
        &&& ready == bound(Nested { outer: proc, inner: self@ }).outer
        &&& bound(Nested { outer: proc, inner: self@ }).inner.starts_to(configured@)
    }

    /// An activation takes in what has arrived at the boundary, runs the
    /// scheduler of the subnetwork, and hands out what has reached the
    /// boundary.
    open spec fn executes(
        self,
        proc: ProcessView,
        after: Self,
        left: ProcessView,
        r: Result<(), Error>,
    ) -> bool {
        quantum(Nested { outer: proc, inner: self@ }, Nested { outer: left, inner: after@ }, r)
    }

    /// Binds the subnetwork to its mother process and starts it.
    fn setup(self, proc: &mut Process) -> (configured: Self) {
        let mut net = self;
        net.bind(proc);
        net.start();
        net
    }

    /// Takes in what has arrived at the boundary, runs the scheduler of the
    /// subnetwork for as many steps as it has processes, at most, and hands
    /// out what has reached the boundary. A deadlock inside is the failure
    /// of the mother process.
    fn execute(&mut self, proc: &mut Process) -> (r: Result<(), Error>) {
        let ghost outer0 = proc@;
        let ghost inner0 = self@;
        self.pump_in(proc);
        let ghost outer1 = proc@;
        let ghost inner1 = self@;
        let steps: usize = self.len();
        let answer = self.run(steps);
        let ghost mid = self@;
        self.pump_out(proc);
        proof {
            crate::flow::process::lemma_evolved_trans(outer0, outer1, proc@);
        }
        let r = match answer {
            Ok(_) => Ok(()),
            Err(e) => Err(e),
        };
        assert(inner1.runs(mid, inner1.procs.len(), answer));
        assert(quantum_through(
            Nested { outer: outer1, inner: inner1 },
            mid,
            answer,
            Nested { outer: proc@, inner: self@ },
            r,
        ));
        assert(quantum(
            Nested { outer: outer0, inner: inner0 },
            Nested { outer: proc@, inner: self@ },
            r,
        ));
        r
    }
}

impl<C: ComponentMustRun> ComponentMustRun for Network<C> {
    /// A subnetwork asks to run while a process inside is ready or a packet
    /// waits to leave.
    fn must_run(&self) -> (eager: bool)
        ensures
            eager == (!self@.none_ready() || outlets_pending(self@)),
    {
        self.pick().is_some() || self.outlets_pending()
    }
}

} // verus!
