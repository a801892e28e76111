//! Ports: the named, directed endpoints of a process, and the handles
//! through which a component reaches them.

use vstd::prelude::*;

verus! {

/// Whether a port takes packets in or gives them out.
#[derive(Clone, Copy, Debug, PartialEq, Eq, Structural)]
pub enum Direction {
    In,
    Out,
}

/// Whether a port has one connection or a numbered row of them.
#[derive(Clone, Copy, Debug, PartialEq, Eq, Structural)]
pub enum Arity {
    Single,
    Array,
}

/// How many connections a port has.
#[derive(Clone, Copy, Debug, PartialEq, Eq, Structural)]
pub enum ConnectionState {
    Unconnected,
    ConnectedToOne,
    ConnectedToMany,
}

/// The handle of an opened in-port, or of one slot of an opened in-array
/// port: the place of the port in its process, and the place of the
/// connection in the port.
#[derive(Clone, Copy, Debug, PartialEq, Eq, Structural)]
pub struct InPort {
    pub port: usize,
    pub slot: usize,
}

/// The handle of an opened out-port, or of one slot of an opened out-array
/// port.
#[derive(Clone, Copy, Debug, PartialEq, Eq, Structural)]
pub struct OutPort {
    pub port: usize,
    pub slot: usize,
}

/// A port as plain values.
pub struct PortView {
    pub name: Seq<char>,
    pub direction: Direction,
    pub arity: Arity,
    /// The size of the buffer of each connection that ends at this port.
    pub capacity: nat,
    pub opened: bool,
    /// The channels of the port's connections, in the order of wiring.
    pub edges: Seq<usize>,
}

impl PortView {
    pub open spec fn wf(self) -> bool {
        &&& self.capacity >= 1
        &&& self.arity == Arity::Single ==> self.edges.len() <= 1
    }

    /// The port may take one more connection.
    pub open spec fn has_room(self) -> bool {
        self.arity == Arity::Array || self.edges.len() == 0
    }

    pub open spec fn connection_state(self) -> ConnectionState {
        if self.edges.len() == 0 {
            ConnectionState::Unconnected
        } else if self.edges.len() == 1 {
            ConnectionState::ConnectedToOne
        } else {
            ConnectionState::ConnectedToMany
        }
    }

    /// The port as it was declared: not opened, not connected.
    pub open spec fn declared(
        name: Seq<char>,
        direction: Direction,
        arity: Arity,
        capacity: nat,
    ) -> PortView {
        PortView { name, direction, arity, capacity, opened: false, edges: Seq::empty() }
    }
}

/// A port of a process.
pub struct Port {
    name: String,
    direction: Direction,
    arity: Arity,
    capacity: usize,
    opened: bool,
    edges: Vec<usize>,
}

impl View for Port {
    type V = PortView;

    closed spec fn view(&self) -> PortView {
        PortView {
            name: self.name@,
            direction: self.direction,
            arity: self.arity,
            capacity: self.capacity as nat,
            opened: self.opened,
            edges: self.edges@,
        }
    }
}

impl Port {
    /// A port as it is declared: not opened, not connected.
    pub fn new(name: String, direction: Direction, arity: Arity, capacity: usize) -> (p: Port)
        requires
            capacity >= 1,
        ensures
            p@ == PortView::declared(name@, direction, arity, capacity as nat),
            p@.wf(),
    {
        Port { name, direction, arity, capacity, opened: false, edges: Vec::new() }
    }

    pub fn name(&self) -> (name: &String)
        ensures
            name@ == self@.name,
    {
        &self.name
    }

    pub fn direction(&self) -> (direction: Direction)
        ensures
            direction == self@.direction,
    {
        self.direction
    }

    pub fn arity(&self) -> (arity: Arity)
        ensures
            arity == self@.arity,
    {
        self.arity
    }

    pub fn capacity(&self) -> (capacity: usize)
        ensures
            capacity == self@.capacity,
    {
        self.capacity
    }

    pub fn is_opened(&self) -> (opened: bool)
        ensures
            opened == self@.opened,
    {
        self.opened
    }

    /// The number of connections of the port.
    pub fn degree(&self) -> (n: usize)
        ensures
            n == self@.edges.len(),
    {
        self.edges.len()
    }

    /// The channel of the connection at `slot`.
    pub fn edge(&self, slot: usize) -> (channel: usize)
        requires
            slot < self@.edges.len(),
        ensures
            channel == self@.edges[slot as int],
    {
        self.edges[slot]
    }

    pub fn has_room(&self) -> (room: bool)
        ensures
            room == self@.has_room(),
    {
        match self.arity {
            Arity::Array => true,
            Arity::Single => self.edges.len() == 0,
        }
    }

    pub fn connection_state(&self) -> (state: ConnectionState)
        ensures
            state == self@.connection_state(),
    {
        if self.edges.len() == 0 {
            ConnectionState::Unconnected
        } else if self.edges.len() == 1 {
            ConnectionState::ConnectedToOne
        } else {
            ConnectionState::ConnectedToMany
        }
    }

    /// Tells whether the port has this name and direction.
    pub fn is_named(&self, name: &String, direction: Direction) -> (same: bool)
        ensures
            same == (self@.name == name@ && self@.direction == direction),
    {
        self.direction == direction && self.name == *name
    }

    /// Marks the port as opened.
    pub fn open(&mut self)
        ensures
            final(self)@ == (PortView { opened: true, ..old(self)@ }),
    {
        self.opened = true;
    }

    /// Adds a connection over `channel` after those that the port has.
    pub fn attach(&mut self, channel: usize)
        requires
            old(self)@.has_room(),
        ensures
            final(self)@ == (PortView { edges: old(self)@.edges.push(channel), ..old(self)@ }),
            old(self)@.wf() ==> final(self)@.wf(),
    {
        self.edges.push(channel);
    }
}

} // verus!
