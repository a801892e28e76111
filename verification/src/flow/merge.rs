//! Receiving from an array port as a whole: the packets of its
//! connections, merged in the order in which they arrived.

use vstd::prelude::*;
use crate::error::Error;
use crate::flow::channel::Received;
use crate::flow::port::InPort;
use crate::flow::process::{Process, ProcessView};

verus! {

impl ProcessView {
    /// A receive through `input` would hand out a packet.
    pub open spec fn packet_at(self, input: InPort) -> bool {
        match self.in_channel(input) {
            Some(c) => self.channels[c].has_input() && self.channels[c].queue.len() > 0,
            None => false,
        }
    }

    /// The arrival time of the packet that a receive through `input` would
    /// hand out.
    pub open spec fn stamp_at(self, input: InPort) -> u64 {
        self.channels[self.in_channel(input)->Some_0].queue[0].stamp
    }

    /// A receive through `input` would be suspended.
    pub open spec fn idle_at(self, input: InPort) -> bool {
        match self.in_channel(input) {
            Some(c) => !self.channels[c].has_input() && !self.channels[c].closed
                && !self.channels[c].abandoned,
            None => false,
        }
    }

    /// A receive through `input` would hand out the end of the stream.
    pub open spec fn ending_at(self, input: InPort) -> bool {
        match self.in_channel(input) {
            Some(c) => self.channels[c].has_input() && self.channels[c].queue.len() == 0,
            None => false,
        }
    }

    /// The packet waiting at the handle at `k` comes before the one at
    /// `j`: it arrived earlier, or at the same time on a connection that
    /// was wired earlier.
    pub open spec fn comes_before(self, inputs: Seq<InPort>, k: int, j: int) -> bool {
        self.stamp_at(inputs[k]) < self.stamp_at(inputs[j]) || (self.stamp_at(inputs[k])
            == self.stamp_at(inputs[j]) && k <= j)
    }

    /// The handle at `k` holds the packet that arrived first among the
    /// packets that wait at the handles `inputs`.
    pub open spec fn earliest(self, inputs: Seq<InPort>, k: int) -> bool {
        &&& 0 <= k < inputs.len()
        &&& self.packet_at(inputs[k])
        &&& forall|j: int|
            0 <= j < inputs.len() && self.packet_at(#[trigger] inputs[j]) ==> self.comes_before(
                inputs,
                k,
                j,
            )
    }

    /// No packet waits at any of the handles.
    pub open spec fn no_packet(self, inputs: Seq<InPort>) -> bool {
        forall|j: int| 0 <= j < inputs.len() ==> !self.packet_at(#[trigger] inputs[j])
    }

    /// The handle from which a receive from the whole array is served.
    /// Where packets wait it is the one with the packet that arrived first.
    /// Where none waits it is the first handle whose sender lives: the
    /// receive will be suspended on it. Where no sender lives it is the
    /// first handle whose stream has not been ended: the receive will end
    /// it. Otherwise there is none.
    pub open spec fn selects(self, inputs: Seq<InPort>, choice: Option<int>) -> bool {
        match choice {
            Some(k) => {
                &&& 0 <= k < inputs.len()
                &&& {
                    ||| self.earliest(inputs, k)
                    ||| {
                        &&& self.no_packet(inputs)
                        &&& self.idle_at(inputs[k])
                        &&& forall|j: int| 0 <= j < k ==> !self.idle_at(#[trigger] inputs[j])
                    }
                    ||| {
                        &&& self.no_packet(inputs)
                        &&& forall|j: int|
                            0 <= j < inputs.len() ==> !self.idle_at(#[trigger] inputs[j])
                        &&& self.ending_at(inputs[k])
                        &&& forall|j: int| 0 <= j < k ==> !self.ending_at(#[trigger] inputs[j])
                    }
                }
            },
            None => forall|j: int|
                0 <= j < inputs.len() ==> !self.packet_at(#[trigger] inputs[j]) && !self.idle_at(
                    inputs[j],
                ) && !self.ending_at(inputs[j]),
        }
    }
}

/// The rule by which a receive from a whole array picks its handle leaves
/// no choice: two handles that it allows are the same.
pub proof fn lemma_selection_is_unique(
    p: ProcessView,
    inputs: Seq<InPort>,
    a: Option<int>,
    b: Option<int>,
)
    requires
        p.selects(inputs, a),
        p.selects(inputs, b),
    ensures
        a == b,
{
    match (a, b) {
        (Some(k), Some(j)) => {
            if p.earliest(inputs, k) {
                assert(p.packet_at(inputs[k]));
                assert(p.earliest(inputs, j));
                assert(p.comes_before(inputs, k, j));
                assert(p.comes_before(inputs, j, k));
            } else if p.earliest(inputs, j) {
                assert(p.packet_at(inputs[j]));
            } else if p.idle_at(inputs[k]) && p.no_packet(inputs) && (forall|i: int|
                0 <= i < k ==> !p.idle_at(#[trigger] inputs[i])) {
                assert(!(forall|i: int| 0 <= i < inputs.len() ==> !p.idle_at(#[trigger] inputs[i])));
                if k < j {
                    assert(!p.idle_at(inputs[k]));
                } else if j < k {
                    assert(!p.idle_at(inputs[j]));
                }
            } else {
                assert(p.ending_at(inputs[k]));
                if p.idle_at(inputs[j]) && (forall|i: int|
                    0 <= i < j ==> !p.idle_at(#[trigger] inputs[i])) && p.no_packet(inputs) {
                    assert(!p.idle_at(inputs[j]));
                }
                if k < j {
                    assert(!p.ending_at(inputs[k]));
                } else if j < k {
                    assert(!p.ending_at(inputs[j]));
                }
            }
        },
        (Some(k), None) => {
            assert(!p.packet_at(inputs[k]) && !p.idle_at(inputs[k]) && !p.ending_at(inputs[k]));
        },
        (None, Some(j)) => {
            assert(!p.packet_at(inputs[j]) && !p.idle_at(inputs[j]) && !p.ending_at(inputs[j]));
        },
        (None, None) => {},
    }
}

impl Process {
    /// Finds the handle from which a receive from the whole array is
    /// served.
    pub fn select(&self, inputs: &Vec<InPort>) -> (choice: Option<usize>)
        ensures
            match choice {
                Some(k) => self@.selects(inputs@, Some(k as int)),
                None => self@.selects(inputs@, None),
            },
    {
        let n: usize = inputs.len();
        let mut best: Option<usize> = None;
        let mut best_stamp: u64 = 0;
        let mut j: usize = 0;
        while j < n
            invariant
                j <= n,
                n == inputs@.len(),
                match best {
                    Some(b) => b < j && self@.packet_at(inputs@[b as int]) && best_stamp
                        == self@.stamp_at(inputs@[b as int]) && forall|i: int|
                        0 <= i < j && self@.packet_at(#[trigger] inputs@[i]) ==> self@.comes_before(
                            inputs@,
                            b as int,
                            i,
                        ),
                    None => forall|i: int| 0 <= i < j ==> !self@.packet_at(#[trigger] inputs@[i]),
                },
            decreases n - j,
        {
            match self.front_stamp(&inputs[j]) {
                Some(stamp) => {
                    let better: bool = match best {
                        Some(_) => stamp < best_stamp,
                        None => true,
                    };
                    if better {
                        best = Some(j);
                        best_stamp = stamp;
                    }
                },
                None => {},
            }
            j += 1;
        }
        if best.is_some() {
            return best;
        }
        let mut j: usize = 0;
        while j < n
            invariant
                j <= n,
                n == inputs@.len(),
                self@.no_packet(inputs@),
                forall|i: int| 0 <= i < j ==> !self@.idle_at(#[trigger] inputs@[i]),
            decreases n - j,
        {
            if self.is_idle(&inputs[j]) {
                return Some(j);
            }
            j += 1;
        }
        let mut j: usize = 0;
        while j < n
            invariant
                j <= n,
                n == inputs@.len(),
                self@.no_packet(inputs@),
                forall|i: int| 0 <= i < n ==> !self@.idle_at(#[trigger] inputs@[i]),
                forall|i: int| 0 <= i < j ==> !self@.ending_at(#[trigger] inputs@[i]),
            decreases n - j,
        {
            if self.has_input(&inputs[j]) {
                return Some(j);
            }
            j += 1;
        }
        None
    }

    /// Receives from an array port as a whole, given the handles of its
    /// connections in the order of wiring. The packets of the connections
    /// come merged in the order in which they arrived; packets that arrived
    /// at the same time come in the order of their connections, and the
    /// packets of one connection in the order of their sequence numbers.
    /// Where no packet waits, the receive is suspended while a sender
    /// lives; after that each connection hands out the end of its stream,
    /// and then nothing is left and the receive fails with `Disconnected`.
    pub fn receive_any(&mut self, inputs: &Vec<InPort>) -> (r: Result<Received, Error>)
        requires
            old(self)@.wf(),
        ensures
            final(self)@.wf(),
            final(self)@.evolved_from(old(self)@),
            exists|choice: Option<int>|
                #![auto]
                old(self)@.selects(inputs@, choice) && match choice {
                    Some(k) => r == old(self)@.receive_outcome(inputs@[k]) && final(self)@ == old(
                        self,
                    )@.after_receive(inputs@[k]),
                    None => r == Err::<Received, Error>(Error::Disconnected) && final(self)@
                        == old(self)@,
                },
    {
        proof {
            crate::flow::process::lemma_evolved_refl(self@);
        }
        match self.select(inputs) {
            Some(k) => {
                assert(old(self)@.selects(inputs@, Some(k as int)));
                self.receive(&inputs[k])
            },
            None => {
                assert(old(self)@.selects(inputs@, None));
                Err(Error::Disconnected)
            },
        }
    }
}

} // verus!
