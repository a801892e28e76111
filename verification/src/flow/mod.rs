//! The dataflow runtime.
//!
//! A host makes a [`Network`], registers processes with their components,
//! declares their ports and connects them, starts the network and runs its
//! scheduler. The scheduler activates one ready process at a time; an
//! activation is one call of the component, which sends and receives
//! through the handles of the ports that it has opened. A send into a
//! full buffer and a receive from an empty one suspend the activation: the
//! call hands back at once and the process is passed over until the
//! buffer has room, or a packet. A process ends when it has been handed
//! all its input, the end of each stream too, does not ask to run, and its
//! last activation neither sent anything nor was suspended. A run ends
//! when every process has ended, or with `Deadlock` when those that are
//! left wait for one another.
//!
//! A network can be the component of a process of another network: the
//! ports of that process, its mother process, are the boundary through
//! which packets cross, unchanged and in order. Inside, the boundary is
//! wired as the peer `Mother`; the mother process has its name in the
//! enclosing network only.

pub mod channel;
pub mod component;
pub mod merge;
pub mod network;
pub mod packet;
pub mod port;
pub mod process;
pub mod traces;

pub use channel::{Channel, Received, SendOutcome};
pub use component::{Component, ComponentMustRun, Reactive};
pub use network::Network;
pub use packet::{Packet, Payload};
pub use port::{Arity, Direction, InPort, OutPort};
pub use process::{Process, Status};
