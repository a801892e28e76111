//! Networks: the processes of a graph, the connections between their
//! ports, and the scheduler that runs them to their end.

pub mod bridge;
pub mod laws;
pub mod scheduler;
pub mod wiring;

pub use scheduler::{RunStatus, Step, Verdict};

use vstd::prelude::*;
use crate::error::Error;
use crate::flow::channel::{channel_views, channels_wf, Channel, ChannelView};
use crate::flow::component::Component;
use crate::flow::port::Direction;
use crate::flow::process::{process_views, Process, ProcessView, Status};

verus! {

/// The first failure of a run: the place of the process that failed, and
/// the error that its activation reported.
#[derive(Clone, Copy, Debug, PartialEq, Eq, Structural)]
pub struct Failure {
    pub process: usize,
    pub error: Error,
}

/// One end of a connection in a network: the process at a place, or the
/// mother process, whose ports are the boundary of a subnetwork. The
/// mother process is no process of the network and has no name in it.
#[derive(Clone, Copy, Debug, PartialEq, Eq, Structural)]
pub enum Peer {
    Inner(usize),
    Mother,
}

/// The two ends of a new connection: the peers and the places of their
/// ports.
#[derive(Clone, Copy, Debug, PartialEq, Eq, Structural)]
pub struct Wire {
    pub src: Peer,
    pub src_port: usize,
    pub dst: Peer,
    pub dst_port: usize,
}

/// One connection: the channel leaves the connection at `src_slot` of the
/// port at `src_port` of `src`, and arrives at the connection at
/// `dst_slot` of the port at `dst_port` of `dst`.
#[derive(Clone, Copy, Debug, PartialEq, Eq, Structural)]
pub struct Link {
    pub src: Peer,
    pub src_port: usize,
    pub src_slot: usize,
    pub dst: Peer,
    pub dst_port: usize,
    pub dst_slot: usize,
}

/// One crossing of the boundary of a subnetwork: the connection at `slot`
/// of the mother process's port at `port`, outside, continues as the
/// channel `channel`, inside. A port that the mother process could not
/// open leads nowhere.
#[derive(Clone, Copy, Debug)]
pub struct Bridge {
    pub port: Option<usize>,
    pub slot: usize,
    pub channel: usize,
}

/// A network as plain values.
pub struct NetworkView {
    pub name: Seq<char>,
    pub procs: Seq<ProcessView>,
    pub channels: Seq<ChannelView>,
    /// For each channel, the connection that it carries.
    pub links: Seq<Link>,
    /// The time that the next packet will be stamped with.
    pub clock: nat,
    /// The mother process, where the network is a subnetwork: its ports
    /// are the boundary, its connections lead to the processes inside.
    pub mother: Option<ProcessView>,
    /// A graceful stop has been asked for.
    pub draining: bool,
    /// A failed process stops the whole network.
    pub fail_fast: bool,
    /// The place at which the scheduler looks first.
    pub cursor: nat,
    pub failure: Option<Failure>,
    /// Where packets cross the boundary into the subnetwork.
    pub inlets: Seq<Bridge>,
    /// Where packets cross the boundary out of the subnetwork.
    pub outlets: Seq<Bridge>,
}

impl NetworkView {
    /// The peer is one of this network.
    pub open spec fn has_peer(self, peer: Peer) -> bool {
        match peer {
            Peer::Inner(i) => i < self.procs.len(),
            Peer::Mother => self.mother is Some,
        }
    }

    /// The process that a peer stands for.
    pub open spec fn peer(self, peer: Peer) -> ProcessView {
        match peer {
            Peer::Inner(i) => self.procs[i as int],
            Peer::Mother => self.mother->Some_0,
        }
    }

    /// The direction of the port at which a connection leaves a peer: the
    /// out-ports of a process, and the in-ports of the mother process, whose
    /// packets go on into the subnetwork.
    pub open spec fn leaving(peer: Peer) -> Direction {
        match peer {
            Peer::Inner(_) => Direction::Out,
            Peer::Mother => Direction::In,
        }
    }

    /// The direction of the port at which a connection arrives at a peer.
    pub open spec fn arriving(peer: Peer) -> Direction {
        match peer {
            Peer::Inner(_) => Direction::In,
            Peer::Mother => Direction::Out,
        }
    }

    /// The channel `c` is the connection at `slot` of the port at `port`
    /// of a peer of this network, and the port has this direction.
    pub open spec fn ends_at(
        self,
        peer: Peer,
        direction: Direction,
        port: usize,
        slot: usize,
        c: int,
    ) -> bool {
        &&& self.has_peer(peer)
        &&& self.peer(peer).is_edge(direction, port as int, slot as int)
        &&& self.peer(peer).ports[port as int].edges[slot as int] == c
    }

    /// The channel `c` carries the connection that the network records for
    /// it: both ends are ports of processes of this network, or of its
    /// mother process.
    pub open spec fn linked(self, c: int) -> bool {
        let link = self.links[c];
        &&& self.ends_at(link.src, Self::leaving(link.src), link.src_port, link.src_slot, c)
        &&& self.ends_at(link.dst, Self::arriving(link.dst), link.dst_port, link.dst_slot, c)
    }

    /// Every connection refers to ports that exist and belong to processes
    /// of this network, or to its mother process; and every connection of
    /// every port goes over a channel of this network.
    pub open spec fn wired(self) -> bool {
        &&& self.links.len() == self.channels.len()
        &&& forall|c: int| 0 <= c < self.links.len() ==> #[trigger] self.linked(c)
        &&& forall|i: int|
            0 <= i < self.procs.len() ==> (#[trigger] self.procs[i]).edges_below(
                self.channels.len(),
            )
        &&& match self.mother {
            Some(m) => m.edges_below(self.channels.len()),
            None => true,
        }
    }

    pub open spec fn wf(self) -> bool {
        self.sound() && self.wired()
    }

    /// The processes and the channels are well-formed, each process by
    /// itself, and the names are unique.
    pub open spec fn sound(self) -> bool {
        &&& forall|i: int|
            0 <= i < self.procs.len() ==> (#[trigger] self.procs[i]).wf()
                && self.procs[i].channels.len() == 0
        &&& forall|i: int, j: int|
            0 <= i < j < self.procs.len() ==> (#[trigger] self.procs[i]).name != (
            #[trigger] self.procs[j]).name
        &&& channels_wf(self.channels)
        &&& self.clock <= u64::MAX
        &&& self.cursor <= self.procs.len()
        &&& match self.mother {
            Some(m) => m.wf() && m.channels.len() == 0,
            None => true,
        }
    }

    /// A network as it is made: no processes, no connections.
    pub open spec fn fresh(name: Seq<char>, mother: Option<ProcessView>) -> NetworkView {
        NetworkView {
            name,
            procs: Seq::empty(),
            channels: Seq::empty(),
            links: Seq::empty(),
            clock: 0,
            mother,
            draining: false,
            fail_fast: false,
            cursor: 0,
            failure: None,
            inlets: Seq::empty(),
            outlets: Seq::empty(),
        }
    }

    /// The process at `i` has this name.
    pub open spec fn has_proc(self, name: Seq<char>, i: int) -> bool {
        0 <= i < self.procs.len() && self.procs[i].name == name
    }

    /// The place of the process of this name, if one is registered.
    pub open spec fn index_of(self, name: Seq<char>) -> Option<int> {
        if exists|i: int| self.has_proc(name, i) {
            Some(choose|i: int| self.has_proc(name, i))
        } else {
            None
        }
    }

    /// The network with one more process, `proc` under the name `name`.
    pub open spec fn after_register(self, name: Seq<char>, proc: ProcessView) -> NetworkView {
        NetworkView {
            procs: self.procs.push(ProcessView { name, network: Some(self.name), ..proc }),
            ..self
        }
    }

    /// The network with `proc` in the place of a peer.
    pub open spec fn with_peer(self, peer: Peer, proc: ProcessView) -> NetworkView {
        match peer {
            Peer::Inner(i) => NetworkView { procs: self.procs.update(i as int, proc), ..self },
            Peer::Mother => NetworkView { mother: Some(proc), ..self },
        }
    }
}

/// A named graph of processes and connections, with the components that
/// the processes wrap.
pub struct Network<C> {
    name: String,
    procs: Vec<Process>,
    components: Vec<Option<C>>,
    channels: Vec<Channel>,
    links: Vec<Link>,
    clock: u64,
    mother: Option<Process>,
    draining: bool,
    fail_fast: bool,
    cursor: usize,
    failure: Option<Failure>,
    inlets: Vec<Bridge>,
    outlets: Vec<Bridge>,
}

impl<C> View for Network<C> {
    type V = NetworkView;

    closed spec fn view(&self) -> NetworkView {
        NetworkView {
            name: self.name@,
            procs: process_views(self.procs@),
            channels: channel_views(self.channels@),
            links: self.links@,
            clock: self.clock as nat,
            mother: match self.mother {
                Some(m) => Some(m@),
                None => None,
            },
            draining: self.draining,
            fail_fast: self.fail_fast,
            cursor: self.cursor as nat,
            failure: self.failure,
            inlets: self.inlets@,
            outlets: self.outlets@,
        }
    }
}

impl<C: Component> Network<C> {
    /// The network is well-formed, and every process has its component.
    pub closed spec fn wf(&self) -> bool {
        self.sound() && self@.wired()
    }

    /// The network is well-formed but for its connections, and every
    /// process has its component.
    pub closed spec fn sound(&self) -> bool {
        &&& self@.sound()
        &&& self.components@.len() == self.procs@.len()
        &&& forall|i: int|
            0 <= i < self.components@.len() ==> (#[trigger] self.components@[i]) is Some
                && self.components@[i]->Some_0.inv()
    }

    /// The components of the processes, each at the place of its process.
    pub closed spec fn components(&self) -> Seq<C> {
        Seq::new(self.components@.len(), |i: int| self.components@[i]->Some_0)
    }

    /// The component that the process at `i` wraps.
    pub open spec fn component(&self, i: int) -> C {
        self.components()[i]
    }

    /// A well-formed network has a well-formed view, and one component for
    /// each process, which keeps what it keeps true of itself.
    pub proof fn lemma_wf(&self)
        requires
            self.wf(),
        ensures
            self@.wf(),
            self.components().len() == self@.procs.len(),
            forall|i: int| 0 <= i < self@.procs.len() ==> (#[trigger] self.component(i)).inv(),
    {
    }

    /// A new network without processes.
    pub fn new(name: String) -> (net: Network<C>)
        ensures
            net.wf(),
            net@ == NetworkView::fresh(name@, None),
            net.components().len() == 0,
    {
        let net = Network {
            name,
            procs: Vec::new(),
            components: Vec::new(),
            channels: Vec::new(),
            links: Vec::new(),
            clock: 0,
            mother: None,
            draining: false,
            fail_fast: false,
            cursor: 0,
            failure: None,
            inlets: Vec::new(),
            outlets: Vec::new(),
        };
        assert(net@.procs =~= Seq::empty());
        assert(net@.channels =~= Seq::empty());
        net
    }

    /// A new subnetwork of the mother process `p`: the ports that `p`
    /// declares are the boundary of the subnetwork.
    pub fn new_subnet(name: String, p: Process) -> (net: Network<C>)
        requires
            p@.wf(),
            p@.channels.len() == 0,
            p@.unwired(),
        ensures
            net.wf(),
            net@ == NetworkView::fresh(name@, Some(p@)),
            net.components().len() == 0,
    {
        let net = Network {
            name,
            procs: Vec::new(),
            components: Vec::new(),
            channels: Vec::new(),
            links: Vec::new(),
            clock: 0,
            mother: Some(p),
            draining: false,
            fail_fast: false,
            cursor: 0,
            failure: None,
            inlets: Vec::new(),
            outlets: Vec::new(),
        };
        assert(net@.procs =~= Seq::empty());
        assert(net@.channels =~= Seq::empty());
        net
    }

    pub fn name(&self) -> (name: &String)
        ensures
            name@ == self@.name,
    {
        &self.name
    }

    /// The number of registered processes.
    pub fn len(&self) -> (n: usize)
        ensures
            n == self@.procs.len(),
    {
        self.procs.len()
    }

    /// The process at the place `i`.
    pub fn process_at(&self, i: usize) -> (proc: &Process)
        requires
            i < self@.procs.len(),
        ensures
            proc@ == self@.procs[i as int],
    {
        &self.procs[i]
    }

    /// The mother process, where the network is a subnetwork.
    pub fn mother(&self) -> (mother: Option<&Process>)
        ensures
            match mother {
                Some(m) => self@.mother == Some(m@),
                None => self@.mother is None,
            },
    {
        self.mother.as_ref()
    }

    /// Finds the place of the process of this name.
    pub fn find(&self, name: &String) -> (found: Option<usize>)
        requires
            self.wf(),
        ensures
            match found {
                Some(i) => self@.index_of(name@) == Some(i as int) && self@.has_proc(
                    name@,
                    i as int,
                ),
                None => self@.index_of(name@) is None,
            },
    {
        let mut i: usize = 0;
        while i < self.procs.len()
            invariant
                i <= self.procs@.len(),
                self.wf(),
                forall|j: int| 0 <= j < i ==> !self@.has_proc(name@, j),
            decreases self.procs@.len() - i,
        {
            if *self.procs[i].name() == *name {
                assert(self@.has_proc(name@, i as int));
                let ghost c = choose|j: int| self@.has_proc(name@, j);
                assert(c == i) by {
                    if c < i {
                        assert(self@.procs[c].name != self@.procs[i as int].name);
                    } else if c > i {
                        assert(self@.procs[i as int].name != self@.procs[c].name);
                    }
                }
                return Some(i);
            }
            i += 1;
        }
        None
    }

    /// Looks a process up by its name.
    pub fn get_proc(&self, name: &str) -> (proc: Option<&Process>)
        requires
            self.wf(),
        ensures
            match self@.index_of(name@) {
                Some(i) => proc is Some && proc->Some_0@ == self@.procs[i],
                None => proc is None,
            },
    {
        let key = name.to_owned();
        match self.find(&key) {
            Some(i) => Some(&self.procs[i]),
            None => None,
        }
    }

    /// Tells where the process of this name stands in its life.
    pub fn status_of(&self, name: &str) -> (status: Option<Status>)
        requires
            self.wf(),
        ensures
            status == match self@.index_of(name@) {
                Some(i) => Some(self@.procs[i].status),
                None => None,
            },
    {
        let key = name.to_owned();
        match self.find(&key) {
            Some(i) => Some(self.procs[i].status()),
            None => None,
        }
    }

    /// Registers `proc` under `name`, with the component that it wraps. A
    /// name that is registered is refused with `DuplicateName`, and the
    /// network stays as it is.
    pub fn set_proc(&mut self, name: String, proc: Process, component: C) -> (r: Result<(), Error>)
        requires
            old(self).wf(),
            proc@.wf(),
            proc@.channels.len() == 0,
            proc@.unwired(),
            component.inv(),
        ensures
            final(self).wf(),
            match old(self)@.index_of(name@) {
                Some(_) => r == Err::<(), Error>(Error::DuplicateName) && final(self)@ == old(
                    self,
                )@ && final(self).components() == old(self).components(),
                None => r == Ok::<(), Error>(()) && final(self)@ == old(self)@.after_register(
                    name@,
                    proc@,
                ) && final(self).components() == old(self).components().push(component),
            },
    {
        match self.find(&name) {
            Some(_) => Err(Error::DuplicateName),
            None => {
                let ghost before = self@;
                let mut proc = proc;
                let ghost given = proc@;
                proc.adopt(name, self.name.clone());
                self.procs.push(proc);
                self.components.push(Some(component));
                assert(self@.procs =~= before.procs.push(
                    ProcessView { name: name@, network: Some(before.name), ..given },
                ));
                assert(self@.channels =~= before.channels);
                proof {
                    lemma_wf_registered(before, name@, given);
                    assert(self.components() =~= old(self).components().push(component));
                }
                Ok(())
            },
        }
    }

    /// Makes a process without ports for `component` and registers it under
    /// `name`, after the processes that are registered. A name that is
    /// registered is refused with `DuplicateName`.
    pub fn new_process(&mut self, name: String, component: C) -> (r: Result<(), Error>)
        requires
            old(self).wf(),
            component.inv(),
        ensures
            final(self).wf(),
            match old(self)@.index_of(name@) {
                Some(_) => r == Err::<(), Error>(Error::DuplicateName) && final(self)@ == old(
                    self,
                )@ && final(self).components() == old(self).components(),
                None => r == Ok::<(), Error>(()) && final(self)@ == old(self)@.after_register(
                    name@,
                    ProcessView::fresh(name@),
                ) && final(self).components() == old(self).components().push(component),
            },
    {
        let proc = Process::new(name.clone());
        self.set_proc(name, proc, component)
    }
}

/// A network keeps the processes and connections of another: it has the
/// same processes under the same names, each well-formed and with the
/// connections that it had, the same number of channels, each well-formed,
/// and the same record of the connections.
pub open spec fn keeps(after: NetworkView, before: NetworkView) -> bool {
    &&& after.procs.len() == before.procs.len()
    &&& forall|i: int|
        0 <= i < before.procs.len() ==> {
            &&& (#[trigger] after.procs[i]).wf()
            &&& after.procs[i].channels.len() == 0
            &&& after.procs[i].name == before.procs[i].name
            &&& after.procs[i].same_wiring(before.procs[i])
        }
    &&& channels_wf(after.channels)
    &&& after.channels.len() == before.channels.len()
    &&& after.links == before.links
    &&& after.clock <= u64::MAX
    &&& after.cursor <= after.procs.len()
    &&& match (before.mother, after.mother) {
        (Some(x), Some(y)) => y.wf() && y.channels.len() == 0 && y.name == x.name && y.same_wiring(x),
        (None, None) => true,
        _ => false,
    }
}

/// A process with the connections of another has them at the same places.
pub proof fn lemma_same_wiring(before: ProcessView, after: ProcessView, n: nat)
    requires
        after.same_wiring(before),
        before.edges_below(n),
    ensures
        after.edges_below(n),
        forall|direction: Direction, port: int, slot: int|
            before.is_edge(direction, port, slot) ==> #[trigger] after.is_edge(direction, port, slot)
                && after.ports[port].edges[slot] == before.ports[port].edges[slot],
{
    assert forall|port: int, slot: int|
        0 <= port < after.ports.len() && 0 <= slot < after.ports[port].edges.len() implies (
    #[trigger] after.ports[port].edges[slot]) < n by {
        if port < before.ports.len() {
            assert(after.ports[port].edges == before.ports[port].edges);
            assert(before.ports[port].edges[slot] < n);
        } else {
            assert(after.ports[port].edges.len() == 0);
        }
    }
    assert forall|direction: Direction, port: int, slot: int|
        before.is_edge(direction, port, slot) implies #[trigger] after.is_edge(
        direction,
        port,
        slot,
    ) && after.ports[port].edges[slot] == before.ports[port].edges[slot] by {
        assert(after.ports[port].edges == before.ports[port].edges);
    }
}

/// A network that keeps the processes and connections of a well-formed
/// network is well-formed.
pub proof fn lemma_wf_kept(before: NetworkView, after: NetworkView)
    requires
        before.wf(),
        keeps(after, before),
    ensures
        after.wf(),
{
    let n = before.channels.len();
    assert forall|i: int, j: int| 0 <= i < j < after.procs.len() implies (
    #[trigger] after.procs[i]).name != (#[trigger] after.procs[j]).name by {
        assert(before.procs[i].name != before.procs[j].name);
    }
    assert forall|i: int| 0 <= i < after.procs.len() implies (#[trigger] after.procs[i]).edges_below(
        n,
    ) by {
        assert(before.procs[i].edges_below(n));
        lemma_same_wiring(before.procs[i], after.procs[i], n);
    }
    if before.mother is Some {
        let x = before.mother->Some_0;
        let y = after.mother->Some_0;
        lemma_same_wiring(x, y, n);
    }
    assert forall|c: int| 0 <= c < after.links.len() implies #[trigger] after.linked(c) by {
        assert(before.linked(c));
        let link = before.links[c];
        match link.src {
            Peer::Inner(i) => {
                lemma_same_wiring(before.procs[i as int], after.procs[i as int], n);
            },
            Peer::Mother => {
                lemma_same_wiring(before.mother->Some_0, after.mother->Some_0, n);
            },
        }
        match link.dst {
            Peer::Inner(i) => {
                lemma_same_wiring(before.procs[i as int], after.procs[i as int], n);
            },
            Peer::Mother => {
                lemma_same_wiring(before.mother->Some_0, after.mother->Some_0, n);
            },
        }
    }
}

/// A network is another with the process at `i` replaced by one of the
/// same name and with the same connections, well-formed and without
/// channels of its own; the channels may have changed but not their
/// number, and the record of the connections and the mother process are
/// as they were.
pub open spec fn replaces(after: NetworkView, before: NetworkView, i: int) -> bool {
    &&& 0 <= i < before.procs.len()
    &&& after.procs == before.procs.update(i, after.procs[i])
    &&& after.procs[i].wf()
    &&& after.procs[i].channels.len() == 0
    &&& after.procs[i].name == before.procs[i].name
    &&& after.procs[i].same_wiring(before.procs[i])
    &&& channels_wf(after.channels)
    &&& after.channels.len() == before.channels.len()
    &&& after.links == before.links
    &&& after.mother == before.mother
    &&& after.clock <= u64::MAX
    &&& after.cursor <= after.procs.len()
}

/// A well-formed network stays well-formed when one of its processes is
/// replaced by one of the same name and with the same connections.
pub proof fn lemma_wf_replaced(before: NetworkView, after: NetworkView, i: int)
    requires
        before.wf(),
        replaces(after, before, i),
    ensures
        after.wf(),
{
    assert forall|a: int| 0 <= a < before.procs.len() implies {
        &&& (#[trigger] after.procs[a]).wf()
        &&& after.procs[a].channels.len() == 0
        &&& after.procs[a].name == before.procs[a].name
        &&& after.procs[a].same_wiring(before.procs[a])
    } by {
        assert(before.procs[a].wf());
    }
    assert(keeps(after, before));
    lemma_wf_kept(before, after);
}

/// A network stays well-formed when a process without connections is
/// registered under a new name.
pub proof fn lemma_wf_registered(before: NetworkView, name: Seq<char>, proc: ProcessView)
    requires
        before.wf(),
        before.index_of(name) is None,
        proc.wf(),
        proc.channels.len() == 0,
        proc.unwired(),
    ensures
        before.after_register(name, proc).wf(),
{
    let after = before.after_register(name, proc);
    let n = before.procs.len() as int;
    assert forall|i: int, j: int| 0 <= i < j < after.procs.len() implies (
    #[trigger] after.procs[i]).name != (#[trigger] after.procs[j]).name by {
        if j == n {
            assert(!before.has_proc(name, i));
        } else {
            assert(before.procs[i].name != before.procs[j].name);
        }
    }
    assert forall|i: int| 0 <= i < after.procs.len() implies (#[trigger] after.procs[i]).wf()
        && after.procs[i].channels.len() == 0 by {
        if i < n {
            assert(before.procs[i].wf());
        }
    }
    assert forall|i: int| 0 <= i < after.procs.len() implies (#[trigger] after.procs[i]).edges_below(
        after.channels.len(),
    ) by {
        if i < n {
            assert(before.procs[i].edges_below(before.channels.len()));
        }
    }
    assert forall|c: int| 0 <= c < after.links.len() implies #[trigger] after.linked(c) by {
        assert(before.linked(c));
    }
}

} // verus!
