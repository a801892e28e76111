//! Processes: the named runtime instances that own the ports of one
//! component and carry its packets to and from the channels.

pub mod opening;
pub mod readiness;
pub mod retiring;
pub mod traffic;

use vstd::prelude::*;
use crate::error::Error;
use crate::flow::channel::{channel_views, Channel, ChannelView, Stamped};
use crate::flow::packet::Packet;
use crate::flow::port::{Arity, Direction, Port, PortView};

verus! {

/// Where a process stands in its life. `Terminated` and `Failed` are final.
#[derive(Clone, Copy, Debug, PartialEq, Eq, Structural)]
pub enum Status {
    Created,
    Wired,
    Running,
    Terminated,
    Failed,
}

impl Status {
    pub open spec fn terminal(self) -> bool {
        self == Status::Terminated || self == Status::Failed
    }

    /// The process has not been started: it may still be wired.
    pub open spec fn building(self) -> bool {
        self == Status::Created || self == Status::Wired
    }

    /// How far a process has come in its life.
    pub open spec fn rank(self) -> nat {
        match self {
            Status::Created => 0,
            Status::Wired => 1,
            Status::Running => 2,
            Status::Terminated => 3,
            Status::Failed => 3,
        }
    }

    pub fn is_building(&self) -> (building: bool)
        ensures
            building == self.building(),
    {
        match self {
            Status::Created => true,
            Status::Wired => true,
            _ => false,
        }
    }

    pub fn is_terminal(&self) -> (terminal: bool)
        ensures
            terminal == self.terminal(),
    {
        match self {
            Status::Terminated => true,
            Status::Failed => true,
            _ => false,
        }
    }
}

/// What suspended an activation: a send into the full buffer of a channel,
/// or a receive from the empty buffer of one.
#[derive(Clone, Copy, Debug, PartialEq, Eq, Structural)]
pub enum Wait {
    OnSend(usize),
    OnReceive(usize),
}

/// A process as plain values.
pub struct ProcessView {
    pub name: Seq<char>,
    /// The name of the network that owns the process, once it is
    /// registered.
    pub network: Option<Seq<char>>,
    pub status: Status,
    /// The component asks to be activated without input.
    pub eager: bool,
    pub ports: Seq<PortView>,
    /// The channels that the process can reach: those of its network while
    /// it is being activated, none at other times.
    pub channels: Seq<ChannelView>,
    /// The time that the next packet will be stamped with.
    pub clock: nat,
    /// What the current activation is suspended on, if it is.
    pub waiting: Option<Wait>,
    /// The current activation has sent a packet.
    pub produced: bool,
}

/// What may change in a port while its process lives: it may get opened.
pub open spec fn port_kept(before: PortView, after: PortView) -> bool {
    &&& after == (PortView { opened: after.opened, ..before })
    &&& before.opened ==> after.opened
}

/// The buffer of a channel has changed by sends and receives alone: the
/// packets `added` have come to its back, in that order, and the packets
/// `gone` have left from its front, in that order.
pub open spec fn flows(
    before: ChannelView,
    after: ChannelView,
    added: Seq<Stamped>,
    gone: Seq<Stamped>,
) -> bool {
    &&& before.queue + added == gone + after.queue
    &&& after.sent == before.sent + added.len()
}

/// What an activation may do to a channel. The capacity and the ends stay.
/// The buffer changes by sends and receives alone, and only a process that
/// sends on the channel adds packets, only a process that receives from it
/// takes packets and the end of the stream.
pub open spec fn channel_kept(
    before: ChannelView,
    after: ChannelView,
    sends: bool,
    receives: bool,
) -> bool {
    &&& after.capacity == before.capacity
    &&& after.closed == before.closed
    &&& after.abandoned == before.abandoned
    &&& before.finished ==> after.finished
    &&& after.finished && !before.finished ==> receives
    &&& exists|added: Seq<Stamped>, gone: Seq<Stamped>|
        {
            &&& #[trigger] flows(before, after, added, gone)
            &&& added.len() > 0 ==> sends
            &&& gone.len() > 0 ==> receives
        }
}

impl ProcessView {
    pub open spec fn wf(self) -> bool {
        &&& forall|i: int| 0 <= i < self.ports.len() ==> (#[trigger] self.ports[i]).wf()
        &&& forall|i: int, j: int|
            0 <= i < j < self.ports.len() && (#[trigger] self.ports[i]).direction == (
            #[trigger] self.ports[j]).direction ==> self.ports[i].name != self.ports[j].name
        &&& forall|c: int| 0 <= c < self.channels.len() ==> (#[trigger] self.channels[c]).wf()
        &&& self.clock <= u64::MAX
    }

    /// The process as it is set running after its set-up: it runs, it
    /// keeps the answer of its component to the question whether it must
    /// run, and it is not suspended.
    pub open spec fn going(self, eager: bool) -> ProcessView {
        ProcessView { status: Status::Running, eager, waiting: None, ..self }
    }

    /// A process as it is made: no ports, no channels.
    pub open spec fn fresh(name: Seq<char>) -> ProcessView {
        ProcessView {
            name,
            network: None,
            status: Status::Created,
            eager: false,
            ports: Seq::empty(),
            channels: Seq::empty(),
            clock: 0,
            waiting: None,
            produced: false,
        }
    }

    /// The port at `i` has this name and direction.
    pub open spec fn has_port(self, name: Seq<char>, direction: Direction, i: int) -> bool {
        0 <= i < self.ports.len() && self.ports[i].name == name && self.ports[i].direction
            == direction
    }

    /// The place of the port with this name and direction, if the process
    /// declares one.
    pub open spec fn port_at(self, name: Seq<char>, direction: Direction) -> Option<int> {
        if exists|i: int| self.has_port(name, direction, i) {
            Some(choose|i: int| self.has_port(name, direction, i))
        } else {
            None
        }
    }

    /// The process with one more declared port, unless it has one of that
    /// name and direction.
    pub open spec fn after_declare(
        self,
        name: Seq<char>,
        direction: Direction,
        arity: Arity,
        capacity: nat,
    ) -> ProcessView {
        if self.port_at(name, direction) is Some {
            self
        } else {
            ProcessView {
                ports: self.ports.push(PortView::declared(name, direction, arity, capacity)),
                ..self
            }
        }
    }

    /// The connection at `slot` of the port at `port` is one of this
    /// direction.
    pub open spec fn is_edge(self, direction: Direction, port: int, slot: int) -> bool {
        &&& 0 <= port < self.ports.len()
        &&& self.ports[port].direction == direction
        &&& 0 <= slot < self.ports[port].edges.len()
    }

    /// The process with one more connection, over `channel`, at the port at
    /// `port`. A process that gets its first connection is wired.
    pub open spec fn after_attach(self, port: int, channel: usize) -> ProcessView {
        ProcessView {
            ports: self.ports.update(
                port,
                PortView { edges: self.ports[port].edges.push(channel), ..self.ports[port] },
            ),
            status: if self.status == Status::Created {
                Status::Wired
            } else {
                self.status
            },
            ..self
        }
    }

    /// Every connection of the process goes over one of the first `n`
    /// channels.
    pub open spec fn edges_below(self, n: nat) -> bool {
        forall|port: int, slot: int|
            0 <= port < self.ports.len() && 0 <= slot < self.ports[port].edges.len()
                ==> #[trigger] self.ports[port].edges[slot] < n
    }

    /// The process has no connections.
    pub open spec fn unwired(self) -> bool {
        forall|port: int| 0 <= port < self.ports.len() ==> (#[trigger] self.ports[port]).edges.len() == 0
    }

    /// The process has the ports of `before` with their directions and
    /// connections, and no connection besides.
    pub open spec fn same_wiring(self, before: ProcessView) -> bool {
        &&& self.ports.len() >= before.ports.len()
        &&& forall|port: int|
            0 <= port < before.ports.len() ==> (#[trigger] self.ports[port]).direction
                == before.ports[port].direction && self.ports[port].edges
                == before.ports[port].edges
        &&& forall|port: int|
            before.ports.len() <= port < self.ports.len() ==> (
            #[trigger] self.ports[port]).edges.len() == 0
    }

    /// What an activation may change of its process: it may open and declare
    /// ports, and send and receive on the channels of its own connections;
    /// the name, the status, the ports that were there and their
    /// connections stay, and so do the capacity and the ends of every
    /// channel, and the buffers of the channels of other processes.
    pub open spec fn evolved_from(self, before: ProcessView) -> bool {
        &&& self.name == before.name
        &&& self.network == before.network
        &&& self.status == before.status
        &&& self.eager == before.eager
        &&& self.ports.len() >= before.ports.len()
        &&& forall|i: int|
            0 <= i < before.ports.len() ==> port_kept(before.ports[i], #[trigger] self.ports[i])
        &&& forall|i: int|
            before.ports.len() <= i < self.ports.len() ==> (#[trigger] self.ports[i]).edges.len()
                == 0
        &&& self.channels.len() == before.channels.len()
        &&& forall|c: int|
            0 <= c < before.channels.len() ==> channel_kept(
                before.channels[c],
                #[trigger] self.channels[c],
                before.attached(Direction::Out, c),
                before.attached(Direction::In, c),
            )
        &&& self.clock >= before.clock
    }
}

/// A named runtime instance: the ports of one component, its place in its
/// life, and, while it is being activated, the channels of its network.
pub struct Process {
    name: String,
    network: Option<String>,
    status: Status,
    eager: bool,
    ports: Vec<Port>,
    channels: Vec<Channel>,
    clock: u64,
    waiting: Option<Wait>,
    produced: bool,
}

impl View for Process {
    type V = ProcessView;

    closed spec fn view(&self) -> ProcessView {
        ProcessView {
            name: self.name@,
            network: match self.network {
                Some(n) => Some(n@),
                None => None,
            },
            status: self.status,
            eager: self.eager,
            ports: Seq::new(self.ports@.len(), |i: int| self.ports@[i]@),
            channels: channel_views(self.channels@),
            clock: self.clock as nat,
            waiting: self.waiting,
            produced: self.produced,
        }
    }
}

impl Process {
    /// A new process without ports.
    pub fn new(name: String) -> (p: Process)
        ensures
            p@ == ProcessView::fresh(name@),
            p@.wf(),
    {
        let p = Process {
            name,
            network: None,
            status: Status::Created,
            eager: false,
            ports: Vec::new(),
            channels: Vec::new(),
            clock: 0,
            waiting: None,
            produced: false,
        };
        assert(p@.ports =~= Seq::empty());
        assert(p@.channels =~= Seq::empty());
        p
    }

    pub fn name(&self) -> (name: &String)
        ensures
            name@ == self@.name,
    {
        &self.name
    }

    /// The name of the network that owns the process, once it is
    /// registered.
    pub fn network(&self) -> (network: Option<&String>)
        ensures
            match network {
                Some(n) => self@.network == Some(n@),
                None => self@.network is None,
            },
    {
        self.network.as_ref()
    }

    pub fn status(&self) -> (status: Status)
        ensures
            status == self@.status,
    {
        self.status
    }

    /// The number of declared ports.
    pub fn port_count(&self) -> (n: usize)
        ensures
            n == self@.ports.len(),
    {
        self.ports.len()
    }

    /// The declared port at `i`.
    pub fn port(&self, i: usize) -> (port: &Port)
        requires
            i < self@.ports.len(),
        ensures
            port@ == self@.ports[i as int],
    {
        &self.ports[i]
    }

    /// Finds the port of this name and direction.
    pub fn find_port(&self, name: &String, direction: Direction) -> (found: Option<usize>)
        requires
            self@.wf(),
        ensures
            match found {
                Some(i) => self@.port_at(name@, direction) == Some(i as int),
                None => self@.port_at(name@, direction) is None,
            },
    {
        let mut i: usize = 0;
        while i < self.ports.len()
            invariant
                i <= self.ports@.len(),
                self@.wf(),
                forall|j: int| 0 <= j < i ==> !self@.has_port(name@, direction, j),
            decreases self.ports@.len() - i,
        {
            if self.ports[i].is_named(name, direction) {
                assert(self@.has_port(name@, direction, i as int));
                let ghost c = choose|j: int| self@.has_port(name@, direction, j);
                assert(c == i) by {
                    if c < i {
                        assert(self@.ports[c].direction == self@.ports[i as int].direction);
                    } else if c > i {
                        assert(self@.ports[i as int].direction == self@.ports[c].direction);
                    }
                }
                return Some(i);
            }
            i += 1;
        }
        None
    }

    /// Declares a port. The name must be new among the ports of that
    /// direction.
    pub fn declare_port(
        &mut self,
        name: String,
        direction: Direction,
        arity: Arity,
        capacity: usize,
    ) -> (r: Result<(), Error>)
        requires
            old(self)@.wf(),
            capacity >= 1,
        ensures
            final(self)@.wf(),
            final(self)@ == old(self)@.after_declare(name@, direction, arity, capacity as nat),
            r == if old(self)@.port_at(name@, direction) is Some {
                Err::<(), Error>(Error::DuplicateName)
            } else {
                Ok::<(), Error>(())
            },
    {
        match self.find_port(&name, direction) {
            Some(_) => Err(Error::DuplicateName),
            None => {
                let ghost before = self@;
                let port = Port::new(name, direction, arity, capacity);
                self.ports.push(port);
                assert(self@.ports =~= before.ports.push(
                    PortView::declared(name@, direction, arity, capacity as nat),
                ));
                assert(self@.channels =~= before.channels);
                assert(self@.wf()) by {
                    let n = before.ports.len() as int;
                    assert forall|i: int, j: int|
                        0 <= i < j < self@.ports.len() && (#[trigger] self@.ports[i]).direction
                            == (#[trigger] self@.ports[j]).direction implies self@.ports[i].name
                        != self@.ports[j].name by {
                        if j == n {
                            assert(!before.has_port(name@, direction, i));
                        }
                    }
                }
                Ok(())
            },
        }
    }

    /// Declares an in-port whose connections each buffer `capacity`
    /// packets.
    pub fn declare_in_port(&mut self, name: String, arity: Arity, capacity: usize) -> (r: Result<
        (),
        Error,
    >)
        requires
            old(self)@.wf(),
            capacity >= 1,
        ensures
            final(self)@.wf(),
            final(self)@ == old(self)@.after_declare(name@, Direction::In, arity, capacity as nat),
            r == if old(self)@.port_at(name@, Direction::In) is Some {
                Err::<(), Error>(Error::DuplicateName)
            } else {
                Ok::<(), Error>(())
            },
    {
        self.declare_port(name, Direction::In, arity, capacity)
    }

    /// Declares an out-port. The buffers are those of the in-ports that it
    /// gets connected to.
    pub fn declare_out_port(&mut self, name: String, arity: Arity) -> (r: Result<(), Error>)
        requires
            old(self)@.wf(),
        ensures
            final(self)@.wf(),
            final(self)@ == old(self)@.after_declare(name@, Direction::Out, arity, 1),
            r == if old(self)@.port_at(name@, Direction::Out) is Some {
                Err::<(), Error>(Error::DuplicateName)
            } else {
                Ok::<(), Error>(())
            },
    {
        self.declare_port(name, Direction::Out, arity, 1)
    }

    /// What the last activation was suspended on, if it was.
    pub fn waiting(&self) -> (waiting: Option<Wait>)
        ensures
            waiting == self@.waiting,
    {
        self.waiting
    }

    /// Tells whether the current activation has sent a packet.
    pub fn has_produced(&self) -> (produced: bool)
        ensures
            produced == self@.produced,
    {
        self.produced
    }

    /// Tells whether the component asks to be activated without input.
    pub fn is_eager(&self) -> (eager: bool)
        ensures
            eager == self@.eager,
    {
        self.eager
    }

    /// Adds a connection over `channel` to the port at `port`.
    pub(crate) fn attach(&mut self, port: usize, channel: usize)
        requires
            old(self)@.wf(),
            port < old(self)@.ports.len(),
            old(self)@.ports[port as int].has_room(),
        ensures
            final(self)@ == old(self)@.after_attach(port as int, channel),
            final(self)@.wf(),
    {
        let ghost before = self@;
        self.ports[port].attach(channel);
        match self.status {
            Status::Created => {
                self.status = Status::Wired;
            },
            _ => {},
        }
        assert(self@.ports =~= before.ports.update(
            port as int,
            PortView {
                edges: before.ports[port as int].edges.push(channel),
                ..before.ports[port as int]
            },
        ));
    }

    /// Gives the process the name under which the network `network`
    /// registers it.
    pub(crate) fn adopt(&mut self, name: String, network: String)
        ensures
            final(self)@ == (ProcessView {
                name: name@,
                network: Some(network@),
                ..old(self)@
            }),
    {
        self.name = name;
        self.network = Some(network);
    }

    pub(crate) fn set_status(&mut self, status: Status)
        ensures
            final(self)@ == (ProcessView { status, ..old(self)@ }),
    {
        self.status = status;
    }

    /// Sets the process running after its set-up, with the answer of its
    /// component to the question whether it must run.
    pub(crate) fn set_going(&mut self, eager: bool)
        ensures
            final(self)@ == old(self)@.going(eager),
    {
        self.eager = eager;
        self.status = Status::Running;
        self.waiting = None;
    }

    pub(crate) fn set_eager(&mut self, eager: bool)
        ensures
            final(self)@ == (ProcessView { eager, ..old(self)@ }),
    {
        self.eager = eager;
    }

    /// Hands the channels of the network to the process for an activation
    /// that starts at the time `clock`, and leaves in `channels` what the
    /// process held.
    pub(crate) fn lend(&mut self, channels: &mut Vec<Channel>, clock: u64)
        ensures
            final(self)@ == (ProcessView {
                channels: channel_views(old(channels)@),
                clock: clock as nat,
                waiting: None,
                produced: false,
                ..old(self)@
            }),
            channel_views(final(channels)@) == old(self)@.channels,
    {
        core::mem::swap(&mut self.channels, channels);
        self.clock = clock;
        self.waiting = None;
        self.produced = false;
    }

    /// Takes the channels back from the process after an activation,
    /// leaves it those of `channels`, and tells the time.
    pub(crate) fn reclaim(&mut self, channels: &mut Vec<Channel>) -> (clock: u64)
        ensures
            final(self)@ == (ProcessView {
                channels: channel_views(old(channels)@),
                ..old(self)@
            }),
            channel_views(final(channels)@) == old(self)@.channels,
            clock == old(self)@.clock,
    {
        core::mem::swap(&mut self.channels, channels);
        self.clock
    }
}

/// The processes of a row as plain values.
pub open spec fn process_views(procs: Seq<Process>) -> Seq<ProcessView> {
    Seq::new(procs.len(), |i: int| procs[i]@)
}

/// An activation leaves the connections of its process as they are.
pub proof fn lemma_evolved_keeps_wiring(before: ProcessView, after: ProcessView)
    requires
        after.evolved_from(before),
    ensures
        after.same_wiring(before),
        after.name == before.name,
{
    assert forall|port: int| 0 <= port < before.ports.len() implies (
    #[trigger] after.ports[port]).direction == before.ports[port].direction
        && after.ports[port].edges == before.ports[port].edges by {
        assert(port_kept(before.ports[port], after.ports[port]));
    }
}

/// A channel that has not changed has changed as an activation may
/// change it.
pub proof fn lemma_kept_same(x: ChannelView, sends: bool, receives: bool)
    ensures
        channel_kept(x, x, sends, receives),
{
    assert(flows(x, x, Seq::empty(), Seq::empty())) by {
        assert(x.queue + Seq::<Stamped>::empty() =~= Seq::<Stamped>::empty() + x.queue);
    }
}

/// A send changes a channel as an activation of its sender may.
pub proof fn lemma_kept_offer(x: ChannelView, stamp: u64, packet: Packet, receives: bool)
    ensures
        channel_kept(x, x.after_offer(stamp, packet), true, receives),
{
    let y = x.after_offer(stamp, packet);
    if x.connected() && !x.is_full() {
        let added = seq![Stamped { stamp, packet }];
        assert(flows(x, y, added, Seq::empty())) by {
            assert(x.queue + added =~= Seq::<Stamped>::empty() + y.queue);
        }
    } else {
        lemma_kept_same(x, true, receives);
    }
}

/// A receive changes a channel as an activation of its receiver may.
pub proof fn lemma_kept_poll(x: ChannelView, sends: bool)
    ensures
        channel_kept(x, x.after_poll(), sends, true),
{
    let y = x.after_poll();
    if !x.abandoned && !x.finished && x.queue.len() > 0 {
        let gone = seq![x.queue[0]];
        assert(flows(x, y, Seq::empty(), gone)) by {
            assert(x.queue + Seq::<Stamped>::empty() =~= gone + y.queue);
        }
    } else {
        assert(flows(x, y, Seq::empty(), Seq::empty())) by {
            assert(x.queue + Seq::<Stamped>::empty() =~= Seq::<Stamped>::empty() + y.queue);
        }
    }
}

/// What two steps of an activation may do to a channel, one after the
/// other, the activation may do to it.
pub proof fn lemma_kept_trans(
    a: ChannelView,
    b: ChannelView,
    c: ChannelView,
    sends: bool,
    receives: bool,
)
    requires
        channel_kept(a, b, sends, receives),
        channel_kept(b, c, sends, receives),
    ensures
        channel_kept(a, c, sends, receives),
{
    let (added1, gone1) = choose|added: Seq<Stamped>, gone: Seq<Stamped>|
        #[trigger] flows(a, b, added, gone) && (added.len() > 0 ==> sends) && (gone.len() > 0
            ==> receives);
    let (added2, gone2) = choose|added: Seq<Stamped>, gone: Seq<Stamped>|
        #[trigger] flows(b, c, added, gone) && (added.len() > 0 ==> sends) && (gone.len() > 0
            ==> receives);
    assert(flows(a, c, added1 + added2, gone1 + gone2)) by {
        assert(a.queue + (added1 + added2) =~= (a.queue + added1) + added2);
        assert((gone1 + b.queue) + added2 =~= gone1 + (b.queue + added2));
        assert(gone1 + (gone2 + c.queue) =~= (gone1 + gone2) + c.queue);
    }
}

/// A process with the connections of another is at the ends of the same
/// channels.
pub proof fn lemma_attached_kept(
    before: ProcessView,
    after: ProcessView,
    direction: Direction,
    c: int,
)
    requires
        after.same_wiring(before),
    ensures
        after.attached(direction, c) == before.attached(direction, c),
{
    if before.attached(direction, c) {
        let (port, slot) = choose|port: int, slot: int|
            port < before.ports.len() && before.is_edge(direction, port, slot)
                && #[trigger] before.ports[port].edges[slot] == c;
        assert(after.ports[port].edges == before.ports[port].edges);
        assert(after.is_edge(direction, port, slot) && after.ports[port].edges[slot] == c);
    }
    if after.attached(direction, c) {
        let (port, slot) = choose|port: int, slot: int|
            port < after.ports.len() && after.is_edge(direction, port, slot)
                && #[trigger] after.ports[port].edges[slot] == c;
        if port < before.ports.len() {
            assert(after.ports[port].edges == before.ports[port].edges);
            assert(before.is_edge(direction, port, slot) && before.ports[port].edges[slot] == c);
        } else {
            assert(after.ports[port].edges.len() == 0);
        }
    }
}

/// An activation that does nothing keeps to what it may change.
pub proof fn lemma_evolved_refl(p: ProcessView)
    ensures
        p.evolved_from(p),
{
    assert forall|c: int| 0 <= c < p.channels.len() implies channel_kept(
        p.channels[c],
        #[trigger] p.channels[c],
        p.attached(Direction::Out, c),
        p.attached(Direction::In, c),
    ) by {
        lemma_kept_same(p.channels[c], p.attached(Direction::Out, c), p.attached(Direction::In, c));
    }
}

/// A process whose ports may have been opened, and whose channels are as
/// they were, has changed as an activation may change it.
pub proof fn lemma_evolved_ports(before: ProcessView, after: ProcessView)
    requires
        after == (ProcessView { ports: after.ports, ..before }),
        after.ports.len() == before.ports.len(),
        forall|i: int|
            0 <= i < before.ports.len() ==> port_kept(before.ports[i], #[trigger] after.ports[i]),
    ensures
        after.evolved_from(before),
{
    assert forall|c: int| 0 <= c < before.channels.len() implies channel_kept(
        before.channels[c],
        #[trigger] after.channels[c],
        before.attached(Direction::Out, c),
        before.attached(Direction::In, c),
    ) by {
        lemma_kept_same(
            before.channels[c],
            before.attached(Direction::Out, c),
            before.attached(Direction::In, c),
        );
    }
}

/// A process of which one channel has changed as an activation may change
/// it, and nothing else but the time, the mark of a suspension and the mark
/// of a send, has changed as an activation may change it.
pub proof fn lemma_evolved_channel(before: ProcessView, after: ProcessView, c: int)
    requires
        0 <= c < before.channels.len(),
        after == (ProcessView {
            channels: before.channels.update(c, after.channels[c]),
            clock: after.clock,
            waiting: after.waiting,
            produced: after.produced,
            ..before
        }),
        after.clock >= before.clock,
        channel_kept(
            before.channels[c],
            after.channels[c],
            before.attached(Direction::Out, c),
            before.attached(Direction::In, c),
        ),
    ensures
        after.evolved_from(before),
{
    assert forall|k: int| 0 <= k < before.channels.len() implies channel_kept(
        before.channels[k],
        #[trigger] after.channels[k],
        before.attached(Direction::Out, k),
        before.attached(Direction::In, k),
    ) by {
        if k != c {
            lemma_kept_same(
                before.channels[k],
                before.attached(Direction::Out, k),
                before.attached(Direction::In, k),
            );
        }
    }
}

/// What two steps of an activation may change, one after the other, the
/// activation may change.
pub proof fn lemma_evolved_trans(a: ProcessView, b: ProcessView, c: ProcessView)
    requires
        b.evolved_from(a),
        c.evolved_from(b),
    ensures
        c.evolved_from(a),
{
    lemma_evolved_keeps_wiring(a, b);
    assert forall|i: int| 0 <= i < a.ports.len() implies port_kept(
        a.ports[i],
        #[trigger] c.ports[i],
    ) by {
        assert(port_kept(a.ports[i], b.ports[i]));
        assert(port_kept(b.ports[i], c.ports[i]));
    }
    assert forall|i: int| a.ports.len() <= i < c.ports.len() implies (#[trigger] c.ports[i]).edges.len()
        == 0 by {
        if i < b.ports.len() {
            assert(b.ports[i].edges.len() == 0);
            assert(port_kept(b.ports[i], c.ports[i]));
        }
    }
    assert forall|k: int| 0 <= k < a.channels.len() implies channel_kept(
        a.channels[k],
        #[trigger] c.channels[k],
        a.attached(Direction::Out, k),
        a.attached(Direction::In, k),
    ) by {
        lemma_attached_kept(a, b, Direction::Out, k);
        lemma_attached_kept(a, b, Direction::In, k);
        assert(channel_kept(
            a.channels[k],
            b.channels[k],
            a.attached(Direction::Out, k),
            a.attached(Direction::In, k),
        ));
        assert(channel_kept(
            b.channels[k],
            c.channels[k],
            b.attached(Direction::Out, k),
            b.attached(Direction::In, k),
        ));
        lemma_kept_trans(
            a.channels[k],
            b.channels[k],
            c.channels[k],
            a.attached(Direction::Out, k),
            a.attached(Direction::In, k),
        );
    }
}

} // verus!
