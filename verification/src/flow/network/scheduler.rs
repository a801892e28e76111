//! The scheduler: which process is activated next, what an activation
//! does to the network, and how a run ends.

use vstd::prelude::*;
use crate::error::Error;
use crate::flow::component::{answers, ComponentMustRun};
use crate::flow::network::{
    keeps, lemma_wf_kept, lemma_wf_replaced, Failure, Network, NetworkView,
};
use crate::flow::process::{lemma_evolved_keeps_wiring, ProcessView, Status};

verus! {

/// What a network is in which no process is ready.
#[derive(Clone, Copy, Debug, PartialEq, Eq, Structural)]
pub enum Verdict {
    /// Every process has ended and no packet is left in a buffer.
    Terminated,
    /// Processes remain, all of them started and none of them able to go
    /// on, and nothing can come from outside.
    Deadlock,
    /// Nothing to do for now: processes wait to be started, or for the
    /// boundary of the subnetwork to move packets.
    Idle,
}

/// What one step of the scheduler did.
#[derive(Clone, Copy, Debug, PartialEq, Eq, Structural)]
pub enum Step {
    /// It activated the process at this place.
    Activated(usize),
    Idle,
    Terminated,
}

/// How a run ended.
#[derive(Clone, Copy, Debug, PartialEq, Eq, Structural)]
pub enum RunStatus {
    Terminated,
    Idle,
    /// The run used up its activations and a process is still ready.
    Running,
}

impl NetworkView {
    /// The process at `i` is to be activated.
    pub open spec fn ready(self, i: int) -> bool {
        0 <= i < self.procs.len() && self.procs[i].ready(self.channels, self.draining)
    }

    pub open spec fn none_ready(self) -> bool {
        forall|i: int| !#[trigger] self.ready(i)
    }

    /// The process at `i` is the next in turn: the first ready one at or
    /// after the cursor, going round from the last place to the first.
    pub open spec fn picks(self, i: int) -> bool {
        &&& self.ready(i)
        &&& forall|j: int| self.cursor <= j < i ==> !#[trigger] self.ready(j)
        &&& i < self.cursor ==> forall|j: int|
            (self.cursor <= j || j < i) ==> !#[trigger] self.ready(j)
    }

    pub open spec fn all_terminal(self) -> bool {
        forall|i: int| 0 <= i < self.procs.len() ==> (#[trigger] self.procs[i]).status.terminal()
    }

    /// Every process has been started.
    pub open spec fn all_started(self) -> bool {
        forall|i: int| 0 <= i < self.procs.len() ==> !(#[trigger] self.procs[i]).status.building()
    }

    /// Some buffer holds a packet.
    pub open spec fn in_flight(self) -> bool {
        exists|c: int| 0 <= c < self.channels.len() && (#[trigger] self.channels[c]).queue.len() > 0
    }

    /// The boundary of the subnetwork can still move packets.
    pub open spec fn boundary_live(self) -> bool {
        match self.mother {
            Some(m) => m.boundary_live(self.channels),
            None => false,
        }
    }

    /// What the network is, where no process is ready.
    pub open spec fn verdict(self) -> Verdict {
        if self.all_terminal() {
            if self.in_flight() {
                Verdict::Idle
            } else {
                Verdict::Terminated
            }
        } else if self.all_started() && !self.boundary_live() {
            Verdict::Deadlock
        } else {
            Verdict::Idle
        }
    }

    /// The process at `i` as its activation finds it: with the channels of
    /// the network in reach, the time of the network, not suspended, nothing
    /// sent.
    pub open spec fn lent(self, i: int) -> ProcessView {
        ProcessView {
            channels: self.channels,
            clock: self.clock,
            waiting: None,
            produced: false,
            ..self.procs[i]
        }
    }

    /// The network after a hard stop: every process that had not ended is
    /// terminated, every channel is closed and emptied.
    pub open spec fn halted(self) -> NetworkView {
        NetworkView {
            procs: Seq::new(
                self.procs.len(),
                |i: int|
                    if self.procs[i].status.terminal() {
                        self.procs[i]
                    } else {
                        ProcessView { status: Status::Terminated, ..self.procs[i] }
                    },
            ),
            channels: Seq::new(
                self.channels.len(),
                |c: int| self.channels[c].after_close().after_abandon(),
            ),
            ..self
        }
    }

    /// The network after a graceful stop: it winds down, and the
    /// connections that bring packets in from outside are closed.
    pub open spec fn drained(self) -> NetworkView {
        NetworkView {
            draining: true,
            channels: match self.mother {
                Some(m) => m.seal(self.channels),
                None => self.channels,
            },
            ..self
        }
    }

    /// The network that takes its channels and its time back from the
    /// process at `i`, which its activation has left as `ran`.
    pub open spec fn returned(self, i: int, ran: ProcessView) -> NetworkView {
        NetworkView {
            procs: self.procs.update(i, ProcessView { channels: Seq::empty(), ..ran }),
            channels: ran.channels,
            clock: ran.clock,
            ..self
        }
    }

    /// The network after it has judged the activation of the process at
    /// `i`, which ended with `result` and after which the component said
    /// `eager` when asked whether it must run. An error makes the process
    /// `Failed`, and the first one is recorded. A process that has
    /// completed is `Terminated`. A process that ends leaves its
    /// connections. The scheduler looks at the next place first.
    pub open spec fn judged(self, i: int, eager: bool, result: Result<(), Error>) -> NetworkView {
        let informed = ProcessView { eager, ..self.procs[i] };
        let failed = result is Err;
        let done = failed || informed.completed(self.channels, self.draining);
        let judged = ProcessView {
            status: if failed {
                Status::Failed
            } else if done {
                Status::Terminated
            } else {
                informed.status
            },
            ..informed
        };
        NetworkView {
            procs: self.procs.update(i, judged),
            channels: if done {
                judged.retire(self.channels)
            } else {
                self.channels
            },
            cursor: (i + 1) as nat,
            failure: if failed && self.failure is None {
                Some(Failure { process: i as usize, error: result->Err_0 })
            } else {
                self.failure
            },
            ..self
        }
    }

    /// The network after it has judged the activation of the process at
    /// `i` and, where the activation failed and that is asked for, has
    /// stopped the whole network.
    pub open spec fn settled(self, i: int, eager: bool, result: Result<(), Error>) -> NetworkView {
        if result is Err && self.fail_fast {
            self.judged(i, eager, result).halted()
        } else {
            self.judged(i, eager, result)
        }
    }

    /// What the start of a network does to a process: one that waits to be
    /// started is set up, within what an activation may change, asked
    /// whether it must run, and runs, not suspended; the others stay as
    /// they are.
    pub open spec fn started(before: ProcessView, after: ProcessView) -> bool {
        if before.status.building() {
            &&& after.status == Status::Running
            &&& after.waiting is None
            &&& after.wf()
            &&& (ProcessView { status: before.status, eager: before.eager, ..after }).evolved_from(
                before,
            )
        } else {
            after == before
        }
    }

    /// `next` is the network after a start: its processes are started, the
    /// rest is as it was.
    pub open spec fn starts_to(self, next: NetworkView) -> bool {
        &&& next == (NetworkView { procs: next.procs, ..self })
        &&& next.procs.len() == self.procs.len()
        &&& forall|i: int|
            0 <= i < self.procs.len() ==> Self::started(self.procs[i], #[trigger] next.procs[i])
    }

    /// `next` is the network after an activation of the process at `i` in
    /// which the component left the process as `ran`, returned `result`,
    /// and then said `eager`. The component decides these three within
    /// what an activation may change; the rest follows from them.
    pub open spec fn activation(
        self,
        i: int,
        ran: ProcessView,
        eager: bool,
        result: Result<(), Error>,
        next: NetworkView,
    ) -> bool {
        &&& ran.wf()
        &&& ran.evolved_from(self.lent(i))
        &&& next == self.returned(i, ran).settled(i, eager, result)
    }

    /// `next` is the network after some activation of the process at `i`.
    pub open spec fn activates(self, i: int, next: NetworkView) -> bool {
        exists|ran: ProcessView, eager: bool, result: Result<(), Error>|
            self.activation(i, ran, eager, result, next)
    }

    /// `next` is the network after one step of the scheduler that found a
    /// process to activate.
    pub open spec fn steps_to(self, next: NetworkView) -> bool {
        exists|i: int| self.picks(i) && #[trigger] self.activates(i, next)
    }

    /// The networks of `trace` follow one another by steps of the
    /// scheduler.
    pub open spec fn is_run(trace: Seq<NetworkView>) -> bool {
        forall|k: int| 0 <= k < trace.len() - 1 ==> (#[trigger] trace[k]).steps_to(trace[k + 1])
    }

    /// What a run answers when it stops at this network: that it is still
    /// running, where a process is ready, and otherwise what the network
    /// is.
    pub open spec fn run_answer(self) -> Result<RunStatus, Error> {
        if !self.none_ready() {
            Ok(RunStatus::Running)
        } else {
            match self.verdict() {
                Verdict::Terminated => Ok(RunStatus::Terminated),
                Verdict::Idle => Ok(RunStatus::Idle),
                Verdict::Deadlock => Err(Error::Deadlock),
            }
        }
    }

    /// A run of at most `budget` steps gets from this network to `last`
    /// and answers `answer`: it takes steps while a process is ready and a
    /// step is left, and stops with a process ready only where the steps
    /// are used up.
    pub open spec fn runs(
        self,
        last: NetworkView,
        budget: nat,
        answer: Result<RunStatus, Error>,
    ) -> bool {
        exists|n: nat|
            {
                &&& n <= budget
                &&& #[trigger] self.runs_to(last, n)
                &&& n < budget ==> last.none_ready()
                &&& answer == last.run_answer()
            }
    }

    /// The scheduler gets from this network to `last` in `n` steps.
    pub open spec fn runs_to(self, last: NetworkView, n: nat) -> bool {
        exists|trace: Seq<NetworkView>|
            #![auto]
            trace.len() == n + 1 && trace[0] == self && trace[n as int] == last && Self::is_run(
                trace,
            )
    }
}

/// A hard stop keeps a network well-formed.
pub proof fn lemma_halted_wf(net: NetworkView)
    requires
        net.wf(),
    ensures
        net.halted().wf(),
{
    let halted = net.halted();
    assert forall|a: int| 0 <= a < net.procs.len() implies {
        &&& (#[trigger] halted.procs[a]).wf()
        &&& halted.procs[a].channels.len() == 0
        &&& halted.procs[a].name == net.procs[a].name
        &&& halted.procs[a].same_wiring(net.procs[a])
    } by {
        assert(net.procs[a].wf());
    }
    assert forall|c: int| 0 <= c < halted.channels.len() implies (#[trigger] halted.channels[c]).wf() by {
        assert(net.channels[c].wf());
    }
    assert(keeps(halted, net));
    lemma_wf_kept(net, halted);
}

/// A network with the components of its processes, each at the place of
/// its process.
pub struct Stage<C> {
    pub net: NetworkView,
    pub parts: Seq<C>,
}

impl<C: ComponentMustRun> Stage<C> {
    /// What the start does at the place `j`: the component of a process
    /// that waits to be started is set up on that process and then asked
    /// whether it must run, and the process, as the set-up left it, is set
    /// going with the answer; the other components stay as they are.
    pub open spec fn started_at(self, next: Stage<C>, j: int) -> bool {
        if self.net.procs[j].status.building() {
            &&& exists|left: ProcessView|
                {
                    &&& #[trigger] self.parts[j].sets_up(self.net.procs[j], next.parts[j], left)
                    &&& next.net.procs[j] == left.going(next.net.procs[j].eager)
                }
            &&& answers(next.parts[j], next.net.procs[j].eager)
        } else {
            next.parts[j] == self.parts[j]
        }
    }

    /// `next` is what a start makes of the network and its components.
    pub open spec fn starts_to(self, next: Stage<C>) -> bool {
        &&& self.net.starts_to(next.net)
        &&& next.parts.len() == self.parts.len()
        &&& forall|j: int| 0 <= j < self.parts.len() ==> #[trigger] self.started_at(next, j)
    }

    /// `next` is what comes of an activation of the process at `i`: its
    /// own component was activated on it, left it as `ran`, returned
    /// `result`, and then answered `eager` when asked whether it must run;
    /// the other components are as they were.
    pub open spec fn activation(
        self,
        i: int,
        ran: ProcessView,
        eager: bool,
        result: Result<(), Error>,
        next: Stage<C>,
    ) -> bool {
        &&& self.net.activation(i, ran, eager, result, next.net)
        &&& next.parts.len() == self.parts.len()
        &&& self.parts[i].executes(self.net.lent(i), next.parts[i], ran, result)
        &&& answers(next.parts[i], eager)
        &&& forall|j: int|
            0 <= j < self.parts.len() && j != i ==> (#[trigger] next.parts[j]) == self.parts[j]
    }

    /// `next` is what comes of some activation of the process at `i`.
    pub open spec fn activates(self, i: int, next: Stage<C>) -> bool {
        exists|ran: ProcessView, eager: bool, result: Result<(), Error>|
            self.activation(i, ran, eager, result, next)
    }

    /// `next` is what comes of one step of the scheduler that found a
    /// process to activate.
    pub open spec fn steps_to(self, next: Stage<C>) -> bool {
        exists|i: int| self.net.picks(i) && #[trigger] self.activates(i, next)
    }

    /// The stages of `trace` follow one another by steps of the scheduler.
    pub open spec fn is_run(trace: Seq<Stage<C>>) -> bool {
        forall|k: int| 0 <= k < trace.len() - 1 ==> (#[trigger] trace[k]).steps_to(trace[k + 1])
    }

    /// The scheduler gets from this stage to `last` in `n` steps.
    pub open spec fn runs_to(self, last: Stage<C>, n: nat) -> bool {
        exists|trace: Seq<Stage<C>>|
            #![auto]
            trace.len() == n + 1 && trace[0] == self && trace[n as int] == last && Self::is_run(
                trace,
            )
    }

    /// A run of at most `budget` steps gets from this stage to `last` and
    /// answers `answer`: it takes steps while a process is ready and a step
    /// is left.
    pub open spec fn runs(
        self,
        last: Stage<C>,
        budget: nat,
        answer: Result<RunStatus, Error>,
    ) -> bool {
        exists|n: nat|
            {
                &&& n <= budget
                &&& #[trigger] self.runs_to(last, n)
                &&& n < budget ==> last.net.none_ready()
                &&& answer == last.net.run_answer()
            }
    }
}

/// A step of a network with its components is a step of the network.
pub proof fn lemma_stage_step<C: ComponentMustRun>(a: Stage<C>, b: Stage<C>)
    requires
        a.steps_to(b),
    ensures
        a.net.steps_to(b.net),
{
    let i = choose|i: int| a.net.picks(i) && #[trigger] a.activates(i, b);
    let (ran, eager, result) = choose|ran: ProcessView, eager: bool, result: Result<(), Error>|
        a.activation(i, ran, eager, result, b);
    assert(a.net.activation(i, ran, eager, result, b.net));
    assert(a.net.activates(i, b.net));
}

/// A run of a network with its components is a run of the network.
pub proof fn lemma_stage_run<C: ComponentMustRun>(
    a: Stage<C>,
    last: Stage<C>,
    budget: nat,
    answer: Result<RunStatus, Error>,
)
    requires
        a.runs(last, budget, answer),
    ensures
        a.net.runs(last.net, budget, answer),
{
    let n = choose|n: nat|
        {
            &&& n <= budget
            &&& #[trigger] a.runs_to(last, n)
            &&& n < budget ==> last.net.none_ready()
            &&& answer == last.net.run_answer()
        };
    let trace = choose|trace: Seq<Stage<C>>|
        #![auto]
        trace.len() == n + 1 && trace[0] == a && trace[n as int] == last && Stage::<C>::is_run(
            trace,
        );
    let nets = Seq::new(trace.len(), |k: int| trace[k].net);
    assert(NetworkView::is_run(nets)) by {
        assert forall|k: int| 0 <= k < nets.len() - 1 implies (#[trigger] nets[k]).steps_to(
            nets[k + 1],
        ) by {
            assert(trace[k].steps_to(trace[k + 1]));
            lemma_stage_step(trace[k], trace[k + 1]);
        }
    }
    assert(nets.len() == n + 1 && nets[0] == a.net && nets[n as int] == last.net);
    assert(a.net.runs_to(last.net, n));
}

impl<C: ComponentMustRun> Network<C> {
    /// The network with its components.
    pub open spec fn stage(&self) -> Stage<C> {
        Stage { net: self@, parts: self.components() }
    }

    /// Chooses what a failed process does to the others: nothing, or, with
    /// `on`, stop them all at once.
    pub fn set_fail_fast(&mut self, on: bool)
        requires
            old(self).wf(),
        ensures
            final(self).wf(),
            final(self)@ == (NetworkView { fail_fast: on, ..old(self)@ }),
            final(self).components() == old(self).components(),
    {
        let ghost before = self@;
        self.fail_fast = on;
        proof {
            lemma_wf_kept(before, self@);
        }
    }

    /// The first failure of the run, if a process has failed.
    pub fn first_failure(&self) -> (failure: Option<Failure>)
        ensures
            failure == self@.failure,
    {
        self.failure
    }

    /// Tells whether every process has ended.
    pub fn all_terminal(&self) -> (all: bool)
        ensures
            all == self@.all_terminal(),
    {
        let mut i: usize = 0;
        while i < self.procs.len()
            invariant
                i <= self.procs@.len(),
                forall|j: int| 0 <= j < i ==> (#[trigger] self@.procs[j]).status.terminal(),
            decreases self.procs@.len() - i,
        {
            if !self.procs[i].status().is_terminal() {
                assert(!self@.procs[i as int].status.terminal());
                return false;
            }
            i += 1;
        }
        true
    }

    /// Tells whether every process has been started.
    pub fn all_started(&self) -> (all: bool)
        ensures
            all == self@.all_started(),
    {
        let mut i: usize = 0;
        while i < self.procs.len()
            invariant
                i <= self.procs@.len(),
                forall|j: int| 0 <= j < i ==> !(#[trigger] self@.procs[j]).status.building(),
            decreases self.procs@.len() - i,
        {
            if self.procs[i].status().is_building() {
                assert(self@.procs[i as int].status.building());
                return false;
            }
            i += 1;
        }
        true
    }

    /// Tells whether some buffer holds a packet.
    pub fn in_flight(&self) -> (some: bool)
        ensures
            some == self@.in_flight(),
    {
        let mut c: usize = 0;
        while c < self.channels.len()
            invariant
                c <= self.channels@.len(),
                forall|j: int| 0 <= j < c ==> (#[trigger] self@.channels[j]).queue.len() == 0,
            decreases self.channels@.len() - c,
        {
            if self.channels[c].len() > 0 {
                assert(self@.channels[c as int].queue.len() > 0);
                return true;
            }
            c += 1;
        }
        false
    }

    /// Tells what the network is, where no process is ready.
    pub fn verdict(&self) -> (verdict: Verdict)
        ensures
            verdict == self@.verdict(),
    {
        if self.all_terminal() {
            if self.in_flight() {
                Verdict::Idle
            } else {
                Verdict::Terminated
            }
        } else {
            let live = match &self.mother {
                Some(m) => m.is_boundary_live(&self.channels),
                None => false,
            };
            if self.all_started() && !live {
                Verdict::Deadlock
            } else {
                Verdict::Idle
            }
        }
    }

    /// Finds the process that is next in turn.
    pub fn pick(&self) -> (next: Option<usize>)
        requires
            self.wf(),
        ensures
            match next {
                Some(i) => self@.picks(i as int),
                None => self@.none_ready(),
            },
    {
        let n: usize = self.procs.len();
        let mut j: usize = self.cursor;
        while j < n
            invariant
                n == self.procs@.len(),
                self.cursor <= j <= n,
                forall|k: int| self.cursor <= k < j ==> !#[trigger] self@.ready(k),
            decreases n - j,
        {
            if self.procs[j].is_ready(&self.channels, self.draining) {
                return Some(j);
            }
            j += 1;
        }
        let mut j: usize = 0;
        while j < self.cursor
            invariant
                n == self.procs@.len(),
                self.cursor <= n,
                j <= self.cursor,
                forall|k: int| self.cursor <= k ==> !#[trigger] self@.ready(k),
                forall|k: int| k < j ==> !#[trigger] self@.ready(k),
            decreases self.cursor - j,
        {
            if self.procs[j].is_ready(&self.channels, self.draining) {
                return Some(j);
            }
            j += 1;
        }
        None
    }

    /// Ends every process that has not ended and empties every channel.
    fn halt(&mut self)
        requires
            old(self).wf(),
        ensures
            final(self).wf(),
            final(self)@ == old(self)@.halted(),
            final(self).components() == old(self).components(),
    {
        let ghost before = self@;
        let ghost goal = before.halted();
        let mut i: usize = 0;
        while i < self.procs.len()
            invariant
                i <= self.procs@.len(),
                self.procs@.len() == before.procs.len(),
                self.components@ == old(self).components@,
                goal == before.halted(),
                before.wf(),
                self@ == (NetworkView { procs: self@.procs, ..before }),
                forall|j: int| 0 <= j < i ==> (#[trigger] self@.procs[j]) == goal.procs[j],
                forall|j: int|
                    i <= j < self.procs@.len() ==> (#[trigger] self@.procs[j]) == before.procs[j],
            decreases self.procs@.len() - i,
        {
            let ghost row = self@.procs;
            assert(row[i as int] == before.procs[i as int]);
            assert(row[i as int] == self.procs@[i as int]@);
            if !self.procs[i].status().is_terminal() {
                self.procs[i].set_status(Status::Terminated);
            }
            assert(self@.procs[i as int] == goal.procs[i as int]);
            assert(self@.procs =~= row.update(i as int, goal.procs[i as int]));
            i += 1;
        }
        assert(self@.procs =~= goal.procs);
        let mut c: usize = 0;
        while c < self.channels.len()
            invariant
                c <= self.channels@.len(),
                self.channels@.len() == before.channels.len(),
                self.components@ == old(self).components@,
                goal == before.halted(),
                before.wf(),
                self@ == (NetworkView { procs: goal.procs, channels: self@.channels, ..before }),
                forall|j: int| 0 <= j < c ==> (#[trigger] self@.channels[j]) == goal.channels[j],
                forall|j: int|
                    c <= j < self.channels@.len() ==> (#[trigger] self@.channels[j])
                        == before.channels[j],
            decreases self.channels@.len() - c,
        {
            let ghost row = self@.channels;
            assert(before.channels[c as int].wf());
            assert(row[c as int] == before.channels[c as int]);
            assert(row[c as int] == self.channels@[c as int]@);
            self.channels[c].close();
            self.channels[c].abandon();
            assert(self@.channels[c as int] == goal.channels[c as int]);
            assert(self@.channels =~= row.update(c as int, goal.channels[c as int]));
            c += 1;
        }
        assert(self@.channels =~= goal.channels);
        assert(self@ == goal);
        proof {
            lemma_halted_wf(before);
        }
    }

    /// Stops the network at once: every process that has not ended is
    /// terminated and the packets in the buffers are discarded.
    pub fn stop_hard(&mut self)
        requires
            old(self).wf(),
        ensures
            final(self).wf(),
            final(self)@ == old(self)@.halted(),
            final(self).components() == old(self).components(),
    {
        self.halt();
    }

    /// Lets the network wind down: no component is activated any more
    /// because it asks to run, the connections that bring packets in from
    /// outside are closed, and the processes end as their input runs out.
    pub fn stop_graceful(&mut self)
        requires
            old(self).wf(),
        ensures
            final(self).wf(),
            final(self)@ == old(self)@.drained(),
            final(self).components() == old(self).components(),
    {
        let ghost before = self@;
        self.draining = true;
        match &self.mother {
            Some(m) => {
                m.seal(&mut self.channels);
            },
            None => {},
        }
        proof {
            lemma_wf_kept(before, self@);
        }
    }

    /// Judges the activation of the process at `i`, which ended with
    /// `result` and after which the component said `eager`.
    fn settle(&mut self, i: usize, eager: bool, result: Result<(), Error>)
        requires
            old(self).wf(),
            i < old(self)@.procs.len(),
        ensures
            final(self).wf(),
            final(self)@ == old(self)@.settled(i as int, eager, result),
            final(self).components() == old(self).components(),
    {
        let ghost before = self@;
        assert(before.procs[i as int].wf());
        assert(before.procs[i as int] == self.procs@[i as int]@);
        self.procs[i].set_eager(eager);
        let failed: bool = result.is_err();
        let done: bool = failed || self.procs[i].has_completed(&self.channels, self.draining);
        match result {
            Err(e) => {
                self.procs[i].set_status(Status::Failed);
                if self.failure.is_none() {
                    self.failure = Some(Failure { process: i, error: e });
                }
            },
            Ok(_) => {
                if done {
                    self.procs[i].set_status(Status::Terminated);
                }
            },
        }
        let ghost judged = self.procs@[i as int]@;
        if done {
            self.procs[i].retire(&mut self.channels);
        }
        let n: usize = self.procs.len();
        assert(i < n);
        self.cursor = i + 1;
        assert(self@.procs =~= before.procs.update(i as int, judged));
        proof {
            lemma_wf_replaced(before, self@, i as int);
        }
        if failed && self.fail_fast {
            self.halt();
        }
    }

    /// Starts the network: every process that waits to be started has its
    /// component set up, is asked whether it must run, and runs from then
    /// on. Processes that are registered later are started by another call.
    pub fn start(&mut self)
        requires
            old(self).wf(),
        ensures
            final(self).wf(),
            old(self).stage().starts_to(final(self).stage()),
    {
        let ghost before = self@;
        let ghost first = self.stage();
        let mut i: usize = 0;
        while i < self.procs.len()
            invariant
                i <= self.procs@.len(),
                self.procs@.len() == before.procs.len(),
                before.wf(),
                self.wf(),
                first.net == before,
                first.parts.len() == before.procs.len(),
                self.components().len() == first.parts.len(),
                forall|j: int| 0 <= j < i ==> #[trigger] first.started_at(self.stage(), j),
                forall|j: int|
                    i <= j < self.procs@.len() ==> (#[trigger] self.components()[j])
                        == first.parts[j],
                self@ == (NetworkView { procs: self@.procs, ..before }),
                forall|j: int|
                    0 <= j < i ==> NetworkView::started(before.procs[j], #[trigger] self@.procs[j]),
                forall|j: int|
                    i <= j < self.procs@.len() ==> (#[trigger] self@.procs[j]) == before.procs[j],
            decreases self.procs@.len() - i,
        {
            let ghost row = self@.procs;
            let ghost mid = self@;
            assert(row[i as int] == before.procs[i as int]);
            assert(row[i as int] == self.procs@[i as int]@);
            assert(row[i as int].wf());
            let ghost parts = self.components();
            let ghost prev = self.stage();
            assert(parts[i as int] == first.parts[i as int]);
            assert(parts[i as int] == self.components@[i as int]->Some_0);
            let waits: bool = self.procs[i].status().is_building();
            if waits {
                let taken = self.components[i].take();
                let ghost set_up = row[i as int];
                match taken {
                    Some(component) => {
                        assert(component == parts[i as int]);
                        let configured = component.setup(&mut self.procs[i]);
                        proof {
                            set_up = self.procs@[i as int]@;
                        }
                        assert(parts[i as int].sets_up(row[i as int], configured, set_up));
                        let eager = configured.must_run();
                        assert(answers(configured, eager));
                        self.components[i] = Some(configured);
                        self.procs[i].set_going(eager);
                        assert(self.components()[i as int] == configured);
                        assert(self.procs@[i as int]@ == set_up.going(eager));
                    },
                    None => {},
                }
                let ghost after = self.procs@[i as int]@;
                assert(after == set_up.going(after.eager));
                assert(self.components() =~= parts.update(i as int, self.components()[i as int]));
                assert(first.started_at(self.stage(), i as int));
                assert(self@.procs =~= row.update(i as int, after));
                assert(NetworkView::started(before.procs[i as int], after));
                proof {
                    lemma_evolved_keeps_wiring(mid.procs[i as int], set_up);
                    lemma_wf_replaced(mid, self@, i as int);
                }
            }
            proof {
                let now = self.stage();
                assert forall|j: int| 0 <= j < i + 1 implies #[trigger] first.started_at(now, j) by {
                    if j < i {
                        assert(first.started_at(prev, j));
                        assert(now.parts[j] == prev.parts[j]);
                        assert(now.net.procs[j] == prev.net.procs[j]);
                    }
                }
            }
            i += 1;
        }
    }

    /// Activates the process at `i` once and judges the activation.
    fn activate(&mut self, i: usize)
        requires
            old(self).wf(),
            i < old(self)@.procs.len(),
        ensures
            final(self).wf(),
            old(self)@.activates(i as int, final(self)@),
            old(self).stage().activates(i as int, final(self).stage()),
    {
        let ghost before = self@;
        let ghost parts = self.components();
        assert(before.procs[i as int].wf());
        assert(before.procs[i as int] == self.procs@[i as int]@);
        let clock: u64 = self.clock;
        self.procs[i].lend(&mut self.channels, clock);
        assert(self.procs@[i as int]@ == before.lent(i as int));
        let result = match &mut self.components[i] {
            Some(component) => component.execute(&mut self.procs[i]),
            None => Ok(()),
        };
        let ghost ran = self.procs@[i as int]@;
        let clock: u64 = self.procs[i].reclaim(&mut self.channels);
        self.clock = clock;
        let eager: bool = match &self.components[i] {
            Some(component) => component.must_run(),
            None => false,
        };
        assert(self@.procs =~= before.procs.update(
            i as int,
            ProcessView { channels: Seq::empty(), ..ran },
        )) by {
            assert(before.procs[i as int].channels =~= Seq::empty());
        }
        assert(self@ == before.returned(i as int, ran));
        proof {
            lemma_evolved_keeps_wiring(before.lent(i as int), ran);
            lemma_wf_replaced(before, self@, i as int);
        }
        assert(self.components() =~= parts.update(i as int, self.components()[i as int]));
        self.settle(i, eager, result);
        assert(before.activation(i as int, ran, eager, result, self@));
        assert(old(self).stage().activation(i as int, ran, eager, result, self.stage()));
    }

    /// Does one step of the scheduler: activates the process that is next
    /// in turn, once, and judges the activation. Where no process is ready
    /// the network stays as it is and the step tells what it is:
    /// terminated, idle, or, as an error, deadlocked.
    pub fn step(&mut self) -> (r: Result<Step, Error>)
        requires
            old(self).wf(),
        ensures
            final(self).wf(),
            match r {
                Ok(Step::Activated(i)) => old(self)@.picks(i as int) && old(self)@.activates(
                    i as int,
                    final(self)@,
                ) && old(self).stage().activates(i as int, final(self).stage()),
                Ok(Step::Terminated) => old(self)@.none_ready() && old(self)@.verdict()
                    == Verdict::Terminated && final(self).stage() == old(self).stage(),
                Ok(Step::Idle) => old(self)@.none_ready() && old(self)@.verdict() == Verdict::Idle
                    && final(self).stage() == old(self).stage(),
                Err(e) => e == Error::Deadlock && old(self)@.none_ready() && old(self)@.verdict()
                    == Verdict::Deadlock && final(self).stage() == old(self).stage(),
            },
    {
        match self.pick() {
            Some(i) => {
                self.activate(i);
                Ok(Step::Activated(i))
            },
            None => match self.verdict() {
                Verdict::Terminated => Ok(Step::Terminated),
                Verdict::Idle => Ok(Step::Idle),
                Verdict::Deadlock => Err(Error::Deadlock),
            },
        }
    }

    /// Tells what a run answers when it stops here: that the network is
    /// still running, where a process is ready, and otherwise what the
    /// network is.
    pub fn answer(&self) -> (r: Result<RunStatus, Error>)
        requires
            self.wf(),
        ensures
            r == self@.run_answer(),
    {
        match self.pick() {
            Some(i) => {
                assert(self@.ready(i as int));
                Ok(RunStatus::Running)
            },
            None => match self.verdict() {
                Verdict::Terminated => Ok(RunStatus::Terminated),
                Verdict::Idle => Ok(RunStatus::Idle),
                Verdict::Deadlock => Err(Error::Deadlock),
            },
        }
    }

    /// Runs the scheduler until no process is ready, for `budget`
    /// activations at most. The run ends as terminated, as idle or with
    /// the error `Deadlock`, as the network is when no process is ready;
    /// or as still running, where the activations are used up and a
    /// process is ready.
    pub fn run(&mut self, budget: usize) -> (r: Result<RunStatus, Error>)
        requires
            old(self).wf(),
        ensures
            final(self).wf(),
            old(self).stage().runs(final(self).stage(), budget as nat, r),
            old(self)@.runs(final(self)@, budget as nat, r),
    {
        let ghost mut trace: Seq<Stage<C>> = seq![self.stage()];
        let mut used: usize = 0;
        while used < budget
            invariant
                used <= budget,
                self.wf(),
                trace.len() == used + 1,
                trace[0] == old(self).stage(),
                trace[used as int] == self.stage(),
                Stage::<C>::is_run(trace),
            decreases budget - used,
        {
            let ghost before = self.stage();
            match self.step() {
                Ok(Step::Activated(i)) => {
                    proof {
                        let longer = trace.push(self.stage());
                        assert(before.steps_to(self.stage()));
                        assert(Stage::<C>::is_run(longer)) by {
                            assert forall|k: int| 0 <= k < longer.len() - 1 implies (
                            #[trigger] longer[k]).steps_to(longer[k + 1]) by {
                                if k < trace.len() - 1 {
                                    assert(trace[k].steps_to(trace[k + 1]));
                                }
                            }
                        }
                        trace = longer;
                    }
                    used += 1;
                },
                Ok(Step::Terminated) => {
                    assert(old(self).stage().runs_to(self.stage(), used as nat));
                    proof {
                        lemma_stage_run(
                            old(self).stage(),
                            self.stage(),
                            budget as nat,
                            Ok(RunStatus::Terminated),
                        );
                    }
                    return Ok(RunStatus::Terminated);
                },
                Ok(Step::Idle) => {
                    assert(old(self).stage().runs_to(self.stage(), used as nat));
                    proof {
                        lemma_stage_run(
                            old(self).stage(),
                            self.stage(),
                            budget as nat,
                            Ok(RunStatus::Idle),
                        );
                    }
                    return Ok(RunStatus::Idle);
                },
                Err(e) => {
                    assert(old(self).stage().runs_to(self.stage(), used as nat));
                    proof {
                        lemma_stage_run(old(self).stage(), self.stage(), budget as nat, Err(e));
                    }
                    return Err(e);
                },
            }
        }
        assert(old(self).stage().runs_to(self.stage(), used as nat));
        assert(used == budget);
        let answer = self.answer();
        proof {
            lemma_stage_run(old(self).stage(), self.stage(), budget as nat, answer);
        }
        answer
    }
}

} // verus!
