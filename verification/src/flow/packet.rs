//! Packets: the units of data that travel between processes.

use vstd::prelude::*;

verus! {

/// What a packet carries: nothing, text, binary data, or one of the control
/// markers that structure a stream.
#[derive(Debug, PartialEq, Eq)]
pub enum Payload {
    Empty,
    Text(String),
    Data(Vec<u8>),
    StreamEnd,
    GroupOpen,
    GroupClose,
}

impl Payload {
    /// The control markers carry no data of their own.
    pub open spec fn is_marker(self) -> bool {
        self is StreamEnd || self is GroupOpen || self is GroupClose
    }
}

/// A packet. It cannot be changed once made, and it has no identity of its
/// own: a connection numbers the packets that it carries.
#[derive(Debug)]
pub struct Packet {
    payload: Payload,
}

impl Packet {
    /// The payload of the packet.
    pub closed spec fn content(self) -> Payload {
        self.payload
    }

    pub fn new(payload: Payload) -> (p: Packet)
        ensures
            p.content() == payload,
    {
        Packet { payload }
    }

    pub fn empty() -> (p: Packet)
        ensures
            p.content() == Payload::Empty,
    {
        Packet { payload: Payload::Empty }
    }

    pub fn text(text: String) -> (p: Packet)
        ensures
            p.content() == Payload::Text(text),
    {
        Packet { payload: Payload::Text(text) }
    }

    pub fn data(bytes: Vec<u8>) -> (p: Packet)
        ensures
            p.content() == Payload::Data(bytes),
    {
        Packet { payload: Payload::Data(bytes) }
    }

    pub fn stream_end() -> (p: Packet)
        ensures
            p.content() == Payload::StreamEnd,
    {
        Packet { payload: Payload::StreamEnd }
    }

    pub fn group_open() -> (p: Packet)
        ensures
            p.content() == Payload::GroupOpen,
    {
        Packet { payload: Payload::GroupOpen }
    }

    pub fn group_close() -> (p: Packet)
        ensures
            p.content() == Payload::GroupClose,
    {
        Packet { payload: Payload::GroupClose }
    }

    /// Looks at the payload.
    pub fn payload(&self) -> (payload: &Payload)
        ensures
            *payload == self.content(),
    {
        &self.payload
    }

    /// Takes the payload out of the packet.
    pub fn into_payload(self) -> (payload: Payload)
        ensures
            payload == self.content(),
    {
        self.payload
    }

    /// Tells whether the packet is a control marker.
    pub fn is_control(&self) -> (control: bool)
        ensures
            control == self.content().is_marker(),
    {
        match &self.payload {
            Payload::StreamEnd => true,
            Payload::GroupOpen => true,
            Payload::GroupClose => true,
            _ => false,
        }
    }
}

} // verus!
