//! Components: the units of logic that processes wrap.

use vstd::prelude::*;
use crate::error::Error;
use crate::flow::process::{Process, ProcessView};

verus! {

/// The logic of a process. The network sets a component up once, before
/// it schedules it, and then activates it for one quantum of work at a
/// time.
///
/// An activation works on its process only through the operations of
/// `Process`: it may open and declare ports, send and receive. It returns
/// when it has done its quantum, and as soon as a send or a receive is
/// suspended. An error that it returns is unrecoverable: the process has
/// failed.
pub trait Component: Sized {
    /// What the component keeps true of itself between calls.
    open spec fn inv(&self) -> bool {
        true
    }

    /// What the set-up of this component may make of it and of its
    /// process: from the process `proc` it may leave the process `ready`
    /// and come out as `configured`. Each component says what it promises;
    /// one that promises nothing lets everything pass.
    open spec fn sets_up(self, proc: ProcessView, configured: Self, ready: ProcessView) -> bool {
        true
    }

    /// What an activation of this component may do: from the process
    /// `proc` it may leave the process `left`, turn into `after` and
    /// return `r`. Each component says what it promises; one that promises
    /// nothing lets everything pass.
    open spec fn executes(
        self,
        proc: ProcessView,
        after: Self,
        left: ProcessView,
        r: Result<(), Error>,
    ) -> bool {
        true
    }

    /// Lets the component open the ports that it needs and take up its
    /// configuration.
    fn setup(self, proc: &mut Process) -> (configured: Self)
        requires
            self.inv(),
            old(proc)@.wf(),
        ensures
            configured.inv(),
            final(proc)@.wf(),
            final(proc)@.evolved_from(old(proc)@),
            self.sets_up(old(proc)@, configured, final(proc)@),
    ;

    /// Does one quantum of work.
    fn execute(&mut self, proc: &mut Process) -> (r: Result<(), Error>)
        requires
            old(self).inv(),
            old(proc)@.wf(),
        ensures
            final(self).inv(),
            final(proc)@.wf(),
            final(proc)@.evolved_from(old(proc)@),
            (*old(self)).executes(old(proc)@, *final(self), final(proc)@, r),
    ;
}

/// A component that can ask to be activated without pending input: a
/// source or a generator. The network asks after the setup and after each
/// activation.
pub trait ComponentMustRun: Component {
    fn must_run(&self) -> (eager: bool)
        requires
            self.inv(),
    ;
}

/// `eager` is an answer of the component to the question whether it must
/// run: what a call of its `must_run` returned, or may return. Of a
/// component that states what it answers, such as `Reactive`, every answer
/// is as it states.
pub open spec fn answers<C: ComponentMustRun>(component: C, eager: bool) -> bool {
    call_ensures(C::must_run, (&component,), eager)
}

/// A component that never asks to be activated without input, and
/// otherwise is what it wraps.
pub struct Reactive<C>(pub C);

impl<C: Component> Component for Reactive<C> {
    open spec fn inv(&self) -> bool {
        self.0.inv()
    }

    open spec fn sets_up(self, proc: ProcessView, configured: Self, ready: ProcessView) -> bool {
        self.0.sets_up(proc, configured.0, ready)
    }

    open spec fn executes(
        self,
        proc: ProcessView,
        after: Self,
        left: ProcessView,
        r: Result<(), Error>,
    ) -> bool {
        self.0.executes(proc, after.0, left, r)
    }

    fn setup(self, proc: &mut Process) -> (configured: Self) {
        Reactive(self.0.setup(proc))
    }

    fn execute(&mut self, proc: &mut Process) -> (r: Result<(), Error>) {
        self.0.execute(proc)
    }
}

impl<C: Component> ComponentMustRun for Reactive<C> {
    fn must_run(&self) -> (eager: bool)
        ensures
            !eager,
    {
        false
    }
}

/// A reactive component never asks to run.
pub proof fn lemma_reactive_never_asks<C: Component>(component: Reactive<C>, eager: bool)
    requires
        answers(component, eager),
    ensures
        !eager,
{
}

} // verus!
