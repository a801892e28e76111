//! Opening ports: how a component gets the handles of the ports that its
//! process declares.

use vstd::prelude::*;
use crate::error::Error;
use crate::flow::port::{Arity, Direction, InPort, OutPort, PortView};
use crate::flow::process::{lemma_evolved_ports, lemma_evolved_refl, Process, ProcessView};

verus! {

impl ProcessView {
    /// The answer to opening the port of this name, direction and arity:
    /// its place in the process, or why it cannot be opened.
    pub open spec fn open_outcome(
        self,
        name: Seq<char>,
        direction: Direction,
        arity: Arity,
    ) -> Result<int, Error> {
        match self.port_at(name, direction) {
            None => Err(Error::UnknownPort),
            Some(i) => if self.ports[i].opened {
                Err(Error::AlreadyOpened)
            } else if self.ports[i].arity != arity {
                Err(Error::UnknownPort)
            } else {
                Ok(i)
            },
        }
    }

    /// The process after opening the port of this name, direction and arity.
    pub open spec fn after_open(
        self,
        name: Seq<char>,
        direction: Direction,
        arity: Arity,
    ) -> ProcessView {
        match self.open_outcome(name, direction, arity) {
            Ok(i) => ProcessView {
                ports: self.ports.update(i, PortView { opened: true, ..self.ports[i] }),
                ..self
            },
            Err(_) => self,
        }
    }
}

impl Process {
    /// Opens the port of this name, direction and arity and tells its
    /// place.
    pub fn open_port(&mut self, name: &String, direction: Direction, arity: Arity) -> (r: Result<
        usize,
        Error,
    >)
        requires
            old(self)@.wf(),
        ensures
            final(self)@.wf(),
            final(self)@ == old(self)@.after_open(name@, direction, arity),
            final(self)@.evolved_from(old(self)@),
            match r {
                Ok(i) => i < old(self)@.ports.len() && old(self)@.open_outcome(
                    name@,
                    direction,
                    arity,
                ) == Ok::<int, Error>(i as int),
                Err(e) => old(self)@.open_outcome(name@, direction, arity) == Err::<int, Error>(e),
            },
    {
        proof {
            lemma_evolved_refl(self@);
        }
        match self.find_port(name, direction) {
            None => Err(Error::UnknownPort),
            Some(i) => {
                assert(self@.has_port(name@, direction, i as int));
                if self.ports[i].is_opened() {
                    Err(Error::AlreadyOpened)
                } else if self.ports[i].arity() != arity {
                    Err(Error::UnknownPort)
                } else {
                    let ghost before = self@;
                    self.ports[i].open();
                    assert(self@.ports =~= before.ports.update(
                        i as int,
                        PortView { opened: true, ..before.ports[i as int] },
                    ));
                    assert(self@.channels =~= before.channels);
                    proof {
                        lemma_evolved_ports(before, self@);
                    }
                    Ok(i)
                }
            },
        }
    }

    /// Opens the in-port `port_name`: a declared singular in-port that has
    /// not been opened. A name that the process does not declare as such
    /// fails with `UnknownPort`, a port that is open with `AlreadyOpened`.
    pub fn open_in_port(&mut self, port_name: String) -> (r: Result<InPort, Error>)
        requires
            old(self)@.wf(),
        ensures
            final(self)@.wf(),
            final(self)@ == old(self)@.after_open(port_name@, Direction::In, Arity::Single),
            final(self)@.evolved_from(old(self)@),
            match old(self)@.open_outcome(port_name@, Direction::In, Arity::Single) {
                Ok(i) => r is Ok && r->Ok_0.port == i && r->Ok_0.slot == 0,
                Err(e) => r == Err::<InPort, Error>(e),
            },
    {
        match self.open_port(&port_name, Direction::In, Arity::Single) {
            Ok(i) => Ok(InPort { port: i, slot: 0 }),
            Err(e) => Err(e),
        }
    }

    /// Opens the out-port `port_name`: a declared singular out-port that
    /// has not been opened.
    pub fn open_out_port(&mut self, port_name: String) -> (r: Result<OutPort, Error>)
        requires
            old(self)@.wf(),
        ensures
            final(self)@.wf(),
            final(self)@ == old(self)@.after_open(port_name@, Direction::Out, Arity::Single),
            final(self)@.evolved_from(old(self)@),
            match old(self)@.open_outcome(port_name@, Direction::Out, Arity::Single) {
                Ok(i) => r is Ok && r->Ok_0.port == i && r->Ok_0.slot == 0,
                Err(e) => r == Err::<OutPort, Error>(e),
            },
    {
        match self.open_port(&port_name, Direction::Out, Arity::Single) {
            Ok(i) => Ok(OutPort { port: i, slot: 0 }),
            Err(e) => Err(e),
        }
    }

    /// Opens the in-array port `port_name` and hands out one handle for
    /// each of its connections, in the order in which they were wired.
    pub fn open_in_array_port(&mut self, port_name: String) -> (r: Result<Vec<InPort>, Error>)
        requires
            old(self)@.wf(),
        ensures
            final(self)@.wf(),
            final(self)@ == old(self)@.after_open(port_name@, Direction::In, Arity::Array),
            final(self)@.evolved_from(old(self)@),
            match old(self)@.open_outcome(port_name@, Direction::In, Arity::Array) {
                Ok(i) => {
                    &&& r is Ok
                    &&& r->Ok_0@.len() == old(self)@.ports[i].edges.len()
                    &&& forall|k: int|
                        0 <= k < r->Ok_0@.len() ==> (#[trigger] r->Ok_0@[k]).port == i
                            && r->Ok_0@[k].slot == k
                },
                Err(e) => r == Err::<Vec<InPort>, Error>(e),
            },
    {
        match self.open_port(&port_name, Direction::In, Arity::Array) {
            Ok(i) => {
                let n: usize = self.ports[i].degree();
                let ghost degree = old(self)@.ports[i as int].edges.len();
                assert(self@.ports[i as int] == self.ports@[i as int]@);
                assert(self@.ports[i as int] == (PortView {
                    opened: true,
                    ..old(self)@.ports[i as int]
                }));
                assert(n == degree);
                let mut handles: Vec<InPort> = Vec::new();
                let mut k: usize = 0;
                while k < n
                    invariant
                        k <= n,
                        n == degree,
                        handles@ == Seq::new(
                            k as nat,
                            |j: int| InPort { port: i, slot: j as usize },
                        ),
                    decreases n - k,
                {
                    handles.push(InPort { port: i, slot: k });
                    k += 1;
                    assert(handles@ =~= Seq::new(
                        k as nat,
                        |j: int| InPort { port: i, slot: j as usize },
                    ));
                }
                assert(handles@ =~= Seq::new(
                    degree,
                    |k: int| InPort { port: i as int as usize, slot: k as usize },
                ));
                Ok(handles)
            },
            Err(e) => Err(e),
        }
    }

    /// Opens the out-array port `port_name` and hands out one handle for
    /// each of its connections, in the order in which they were wired.
    pub fn open_out_array_port(&mut self, port_name: String) -> (r: Result<Vec<OutPort>, Error>)
        requires
            old(self)@.wf(),
        ensures
            final(self)@.wf(),
            final(self)@ == old(self)@.after_open(port_name@, Direction::Out, Arity::Array),
            final(self)@.evolved_from(old(self)@),
            match old(self)@.open_outcome(port_name@, Direction::Out, Arity::Array) {
                Ok(i) => {
                    &&& r is Ok
                    &&& r->Ok_0@.len() == old(self)@.ports[i].edges.len()
                    &&& forall|k: int|
                        0 <= k < r->Ok_0@.len() ==> (#[trigger] r->Ok_0@[k]).port == i
                            && r->Ok_0@[k].slot == k
                },
                Err(e) => r == Err::<Vec<OutPort>, Error>(e),
            },
    {
        match self.open_port(&port_name, Direction::Out, Arity::Array) {
            Ok(i) => {
                let n: usize = self.ports[i].degree();
                let ghost degree = old(self)@.ports[i as int].edges.len();
                assert(self@.ports[i as int] == self.ports@[i as int]@);
                assert(self@.ports[i as int] == (PortView {
                    opened: true,
                    ..old(self)@.ports[i as int]
                }));
                assert(n == degree);
                let mut handles: Vec<OutPort> = Vec::new();
                let mut k: usize = 0;
                while k < n
                    invariant
                        k <= n,
                        n == degree,
                        handles@ == Seq::new(
                            k as nat,
                            |j: int| OutPort { port: i, slot: j as usize },
                        ),
                    decreases n - k,
                {
                    handles.push(OutPort { port: i, slot: k });
                    k += 1;
                    assert(handles@ =~= Seq::new(
                        k as nat,
                        |j: int| OutPort { port: i, slot: j as usize },
                    ));
                }
                assert(handles@ =~= Seq::new(
                    degree,
                    |k: int| OutPort { port: i as int as usize, slot: k as usize },
                ));
                Ok(handles)
            },
            Err(e) => Err(e),
        }
    }
}

/// No double open: once a port has been opened, every further opening of
/// that name and direction fails with `AlreadyOpened`, whichever arity it
/// asks for.
pub proof fn lemma_no_double_open(
    p: ProcessView,
    name: Seq<char>,
    direction: Direction,
    first: Arity,
    second: Arity,
)
    requires
        p.wf(),
        p.open_outcome(name, direction, first) is Ok,
    ensures
        p.after_open(name, direction, first).open_outcome(name, direction, second) == Err::<
            int,
            Error,
        >(Error::AlreadyOpened),
{
    let q = p.after_open(name, direction, first);
    let i = p.port_at(name, direction)->Some_0;
    assert(p.has_port(name, direction, i));
    assert(q.has_port(name, direction, i));
    let j = q.port_at(name, direction)->Some_0;
    assert(q.has_port(name, direction, j));
    assert(i == j) by {
        if i < j {
            assert(p.ports[i].direction == p.ports[j].direction);
        } else if j < i {
            assert(p.ports[j].direction == p.ports[i].direction);
        }
    }
}

} // verus!
