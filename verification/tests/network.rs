use std::cell::RefCell;
use std::rc::Rc;

use flownet::error::Error;
use flownet::flow::network::{Link, Network, Peer, RunStatus, Step, Verdict};
use flownet::flow::{
    Arity, Direction, Component, ComponentMustRun, Reactive, InPort, OutPort, Packet, Payload, Process, Received,
    SendOutcome, Status,
};

#[test]
fn test_process() {
    #[allow(non_camel_case_types)]
    struct test_cmp(String);

    impl Component for test_cmp {
        fn setup(self, _proc: &mut Process) -> Self {
            self
        }

        fn execute(&mut self, _proc: &mut Process) -> Result<(), Error> {
            Ok(())
        }
    }

    let mut net1 = Network::new("net1".to_string());
    let proc1 = net1.new_process("proc1".to_string(), test_cmp("test_cmp1".to_string()));
    let proc2 = net1.new_process("proc2".to_string(), test_cmp("test_cmp2".to_string()));
    assert_eq!(proc1, Ok(()));
    assert_eq!(proc2, Ok(()));
    assert_eq!(net1.name(), "net1");
    assert_eq!(net1.get_proc("proc1").unwrap().name(), "proc1");
    assert_eq!(net1.get_proc("proc2").unwrap().name(), "proc2");
    assert!(net1.get_proc("proc3").is_none());
}

/// What a sink saw, in the order in which it saw it.
type Log = Rc<RefCell<Vec<String>>>;

enum Unit {
    /// Emits the packets P0, P1, ... and asks to run while some are left.
    Source { tag: String, out: Option<OutPort>, next: u64, total: u64, held: Option<Packet> },
    /// Takes whatever arrives and writes it down.
    Sink { input: Option<InPort>, log: Log },
    /// Waits for one packet and would answer it.
    Echo { input: Option<InPort>, out: Option<OutPort> },
    /// Fails at its first activation.
    Broken,
    /// Asks to run for ever and does nothing.
    Ticker,
    /// Passes on what it receives, unchanged.
    Copy { input: Option<InPort>, out: Option<OutPort>, held: Option<Packet> },
    /// A whole network as one component.
    Sub(Network<Unit>),
    /// Takes what arrives on any connection of its array port `in`.
    Merge { inputs: Vec<InPort>, log: Log },
    /// Sends one packet to each connection of its array port `out`.
    Spread { outs: Vec<OutPort>, done: bool },
    /// Opens ports in ways that must fail and writes down how they fail.
    Prober { log: Log },
    /// Sends whenever it is activated, asks to run for ever, and never
    /// receives.
    Flood { out: Option<OutPort> },
    /// Takes one thing for each activation and writes it down.
    Slow { input: Option<InPort>, log: Log },
    /// Takes in all that it can get before it passes anything on.
    Hoard { input: Option<InPort>, out: Option<OutPort>, store: Vec<Packet>, ended: bool },
}

impl Component for Unit {
    fn setup(self, proc: &mut Process) -> Self {
        match self {
            Unit::Source { tag, next, total, held, .. } => Unit::Source {
                tag,
                out: proc.open_out_port("out".to_string()).ok(),
                next,
                total,
                held,
            },
            Unit::Sink { log, .. } => {
                Unit::Sink { input: proc.open_in_port("in".to_string()).ok(), log }
            }
            Unit::Echo { .. } => Unit::Echo {
                input: proc.open_in_port("in".to_string()).ok(),
                out: proc.open_out_port("out".to_string()).ok(),
            },
            Unit::Broken => Unit::Broken,
            Unit::Ticker => Unit::Ticker,
            Unit::Copy { held, .. } => Unit::Copy {
                input: proc.open_in_port("in".to_string()).ok(),
                out: proc.open_out_port("out".to_string()).ok(),
                held,
            },
            Unit::Sub(net) => Unit::Sub(net.setup(proc)),
            Unit::Merge { log, .. } => Unit::Merge {
                inputs: proc.open_in_array_port("in".to_string()).unwrap_or_default(),
                log,
            },
            Unit::Spread { done, .. } => Unit::Spread {
                outs: proc.open_out_array_port("out".to_string()).unwrap_or_default(),
                done,
            },
            Unit::Flood { .. } => Unit::Flood { out: proc.open_out_port("out".to_string()).ok() },
            Unit::Slow { log, .. } => {
                Unit::Slow { input: proc.open_in_port("in".to_string()).ok(), log }
            }
            Unit::Hoard { store, ended, .. } => Unit::Hoard {
                input: proc.open_in_port("in".to_string()).ok(),
                out: proc.open_out_port("out".to_string()).ok(),
                store,
                ended,
            },
            Unit::Prober { log } => {
                let mut note = |what: &str, r: Result<(), Error>| {
                    log.borrow_mut().push(format!("{}:{:?}", what, r));
                };
                note("in", proc.open_in_port("in".to_string()).map(|_| ()));
                note("in again", proc.open_in_port("in".to_string()).map(|_| ()));
                note("in as array", proc.open_in_array_port("in".to_string()).map(|_| ()));
                note("missing", proc.open_in_port("missing".to_string()).map(|_| ()));
                note("out as in", proc.open_in_port("out".to_string()).map(|_| ()));
                note("array as single", proc.open_out_port("many".to_string()).map(|_| ()));
                note("many", proc.open_out_array_port("many".to_string()).map(|_| ()));
                note("many again", proc.open_out_array_port("many".to_string()).map(|_| ()));
                note("out", proc.open_out_port("out".to_string()).map(|_| ()));
                Unit::Prober { log }
            }
        }
    }

    fn execute(&mut self, proc: &mut Process) -> Result<(), Error> {
        match self {
            Unit::Source { tag, out, next, total, held } => {
                let out = out.as_ref().ok_or(Error::UnknownPort)?;
                while *next < *total {
                    let packet = match held.take() {
                        Some(p) => p,
                        None => Packet::text(format!("{}{}", tag, *next)),
                    };
                    match proc.send(out, packet)? {
                        SendOutcome::Sent(seq) => {
                            assert_eq!(seq, *next);
                            *next += 1;
                        }
                        SendOutcome::Suspended(p) => {
                            *held = Some(p);
                            return Ok(());
                        }
                    }
                }
                Ok(())
            }
            Unit::Sink { input, log } => {
                let input = input.as_ref().ok_or(Error::UnknownPort)?;
                loop {
                    match proc.receive(input)? {
                        Received::Packet(seq, packet) => match packet.into_payload() {
                            Payload::Text(t) => log.borrow_mut().push(format!("{}:{}", seq, t)),
                            _ => log.borrow_mut().push(format!("{}:?", seq)),
                        },
                        Received::EndOfStream => {
                            log.borrow_mut().push("end".to_string());
                            return Ok(());
                        }
                        Received::Suspended => return Ok(()),
                    }
                }
            }
            Unit::Echo { input, out } => {
                let input = input.as_ref().ok_or(Error::UnknownPort)?;
                let out = out.as_ref().ok_or(Error::UnknownPort)?;
                match proc.receive(input)? {
                    Received::Packet(_, packet) => {
                        proc.send(out, packet)?;
                        Ok(())
                    }
                    _ => Ok(()),
                }
            }
            Unit::Broken => Err(Error::ComponentFailure),
            Unit::Ticker => Ok(()),
            Unit::Copy { input, out, held } => {
                let input = input.as_ref().ok_or(Error::UnknownPort)?;
                let out = out.as_ref().ok_or(Error::UnknownPort)?;
                loop {
                    let packet = match held.take() {
                        Some(p) => p,
                        None => match proc.receive(input)? {
                            Received::Packet(_, p) => p,
                            _ => return Ok(()),
                        },
                    };
                    if let SendOutcome::Suspended(p) = proc.send(out, packet)? {
                        *held = Some(p);
                        return Ok(());
                    }
                }
            }
            Unit::Sub(net) => net.execute(proc),
            Unit::Merge { inputs, log } => loop {
                match proc.receive_any(inputs) {
                    Ok(Received::Packet(seq, packet)) => match packet.into_payload() {
                        Payload::Text(t) => log.borrow_mut().push(format!("{}:{}", seq, t)),
                        _ => log.borrow_mut().push(format!("{}:?", seq)),
                    },
                    Ok(Received::EndOfStream) => log.borrow_mut().push("end".to_string()),
                    Ok(Received::Suspended) => return Ok(()),
                    Err(Error::Disconnected) => {
                        log.borrow_mut().push("gone".to_string());
                        return Ok(());
                    }
                    Err(e) => return Err(e),
                }
            },
            Unit::Spread { outs, done } => {
                if !*done {
                    for (k, out) in outs.iter().enumerate() {
                        proc.send(out, Packet::text(format!("S{}", k)))?;
                    }
                    *done = true;
                }
                Ok(())
            }
            Unit::Slow { input, log } => {
                let input = input.as_ref().ok_or(Error::UnknownPort)?;
                match proc.receive(input)? {
                    Received::Packet(seq, packet) => match packet.into_payload() {
                        Payload::Text(t) => log.borrow_mut().push(format!("{}:{}", seq, t)),
                        _ => log.borrow_mut().push(format!("{}:?", seq)),
                    },
                    Received::EndOfStream => log.borrow_mut().push("end".to_string()),
                    Received::Suspended => {}
                }
                Ok(())
            }
            Unit::Hoard { input, out, store, ended } => {
                let input = input.as_ref().ok_or(Error::UnknownPort)?;
                let out = out.as_ref().ok_or(Error::UnknownPort)?;
                while !*ended {
                    match proc.receive(input)? {
                        Received::Packet(_, packet) => store.push(packet),
                        Received::EndOfStream => *ended = true,
                        Received::Suspended => return Ok(()),
                    }
                }
                while !store.is_empty() {
                    match proc.send(out, store.remove(0))? {
                        SendOutcome::Sent(_) => {}
                        SendOutcome::Suspended(packet) => {
                            store.insert(0, packet);
                            return Ok(());
                        }
                    }
                }
                Ok(())
            }
            Unit::Flood { out } => {
                let out = out.as_ref().ok_or(Error::UnknownPort)?;
                while let SendOutcome::Sent(_) = proc.send(out, Packet::empty())? {}
                Ok(())
            }
            Unit::Prober { log } => {
                let unopened = OutPort { port: 0, slot: 0 };
                let r = proc.send(&unopened, Packet::empty()).map(|_| ());
                log.borrow_mut().push(format!("send:{:?}", r));
                let nowhere = InPort { port: 99, slot: 0 };
                let r = proc.receive(&nowhere).map(|_| ());
                log.borrow_mut().push(format!("receive:{:?}", r));
                Ok(())
            }
        }
    }
}

impl ComponentMustRun for Unit {
    fn must_run(&self) -> bool {
        match self {
            Unit::Source { next, total, .. } => *next < *total,
            Unit::Ticker => true,
            Unit::Flood { .. } => true,
            Unit::Copy { held, .. } => held.is_some(),
            Unit::Spread { done, .. } => !*done,
            Unit::Sub(net) => net.must_run(),
            _ => false,
        }
    }
}

fn source(total: u64) -> Unit {
    tagged_source("P", total)
}

fn tagged_source(tag: &str, total: u64) -> Unit {
    Unit::Source { tag: tag.to_string(), out: None, next: 0, total, held: None }
}

fn sink(log: &Log) -> Unit {
    Unit::Sink { input: None, log: log.clone() }
}

fn pipeline(total: u64, capacity: usize, log: &Log) -> Network<Unit> {
    let mut net = Network::new("net1".to_string());
    net.new_process("proc1".to_string(), source(total)).unwrap();
    net.new_process("proc2".to_string(), sink(log)).unwrap();
    net.declare_out_port("proc1", "out".to_string(), Arity::Single).unwrap();
    net.declare_in_port("proc2", "in".to_string(), Arity::Single, capacity).unwrap();
    net.connect("proc1", "out", "proc2", "in").unwrap();
    net
}

#[test]
fn end_to_end_pipeline_delivers_in_order_and_terminates() {
    let log: Log = Rc::new(RefCell::new(Vec::new()));
    let mut net = pipeline(5, 2, &log);
    assert_eq!(net.status_of("proc1"), Some(Status::Wired));
    net.start();
    assert_eq!(net.status_of("proc1"), Some(Status::Running));
    assert_eq!(net.run(1000), Ok(RunStatus::Terminated));
    assert_eq!(
        *log.borrow(),
        vec!["0:P0", "1:P1", "2:P2", "3:P3", "4:P4", "end"]
    );
    assert_eq!(net.status_of("proc1"), Some(Status::Terminated));
    assert_eq!(net.status_of("proc2"), Some(Status::Terminated));
    assert_eq!(net.first_failure(), None);
    assert!(!net.in_flight());
}

#[test]
fn backpressure_holds_the_source_until_the_sink_receives() {
    let log: Log = Rc::new(RefCell::new(Vec::new()));
    let mut net = pipeline(5, 2, &log);
    net.start();
    // The source fills the buffer of two and is suspended on the third send.
    assert_eq!(net.step(), Ok(Step::Activated(0)));
    assert!(log.borrow().is_empty());
    // Only the sink is ready now: the source waits for a free slot.
    assert_eq!(net.step(), Ok(Step::Activated(1)));
    assert_eq!(*log.borrow(), vec!["0:P0", "1:P1"]);
    assert_eq!(net.step(), Ok(Step::Activated(0)));
    assert_eq!(net.step(), Ok(Step::Activated(1)));
    assert_eq!(*log.borrow(), vec!["0:P0", "1:P1", "2:P2", "3:P3"]);
}

#[test]
fn duplicate_process_name_is_refused() {
    let log: Log = Rc::new(RefCell::new(Vec::new()));
    let mut net = Network::new("net".to_string());
    assert_eq!(net.new_process("a".to_string(), sink(&log)), Ok(()));
    assert_eq!(net.new_process("a".to_string(), sink(&log)), Err(Error::DuplicateName));
    assert_eq!(net.len(), 1);
}

#[test]
fn wiring_errors_are_told_apart() {
    let log: Log = Rc::new(RefCell::new(Vec::new()));
    let mut net = pipeline(1, 1, &log);
    assert_eq!(net.connect("nobody", "out", "proc2", "in"), Err(Error::NotFound));
    assert_eq!(net.connect("proc1", "nope", "proc2", "in"), Err(Error::UnknownPort));
    assert_eq!(net.connect("proc1", "in", "proc2", "in"), Err(Error::UnknownPort));
    // Both singular ports have their connection.
    assert_eq!(net.connect("proc1", "out", "proc2", "in"), Err(Error::AlreadyOpened));
    assert_eq!(
        net.declare_in_port("proc2", "in".to_string(), Arity::Single, 1),
        Err(Error::DuplicateName)
    );
    assert_eq!(
        net.declare_in_port("nobody", "in".to_string(), Arity::Single, 1),
        Err(Error::NotFound)
    );
}

#[test]
fn mutual_waiting_is_reported_as_deadlock() {
    let mut net = Network::new("ring".to_string());
    net.new_process("a".to_string(), Unit::Echo { input: None, out: None }).unwrap();
    net.new_process("b".to_string(), Unit::Echo { input: None, out: None }).unwrap();
    for p in ["a", "b"] {
        net.declare_in_port(p, "in".to_string(), Arity::Single, 1).unwrap();
        net.declare_out_port(p, "out".to_string(), Arity::Single).unwrap();
    }
    net.connect("a", "out", "b", "in").unwrap();
    net.connect("b", "out", "a", "in").unwrap();
    // Before the start nothing is deadlocked: the processes wait to be started.
    assert_eq!(net.step(), Ok(Step::Idle));
    net.start();
    assert_eq!(net.step(), Err(Error::Deadlock));
    assert_eq!(net.run(10), Err(Error::Deadlock));
    assert_eq!(net.status_of("a"), Some(Status::Running));
}

#[test]
fn a_failed_process_is_isolated_by_default() {
    let log: Log = Rc::new(RefCell::new(Vec::new()));
    let mut net = pipeline(3, 1, &log);
    net.new_process("bad".to_string(), Unit::Broken).unwrap();
    net.start();
    assert_eq!(net.run(1000), Ok(RunStatus::Terminated));
    assert_eq!(net.status_of("bad"), Some(Status::Failed));
    assert_eq!(net.status_of("proc2"), Some(Status::Terminated));
    let failure = net.first_failure().unwrap();
    assert_eq!(failure.process, 2);
    assert_eq!(failure.error, Error::ComponentFailure);
    assert_eq!(*log.borrow(), vec!["0:P0", "1:P1", "2:P2", "end"]);
}

#[test]
fn fail_fast_stops_the_whole_network() {
    let log: Log = Rc::new(RefCell::new(Vec::new()));
    let mut net = Network::new("net".to_string());
    net.new_process("bad".to_string(), Unit::Broken).unwrap();
    net.new_process("proc1".to_string(), source(3)).unwrap();
    net.new_process("proc2".to_string(), sink(&log)).unwrap();
    net.declare_out_port("proc1", "out".to_string(), Arity::Single).unwrap();
    net.declare_in_port("proc2", "in".to_string(), Arity::Single, 1).unwrap();
    net.connect("proc1", "out", "proc2", "in").unwrap();
    net.set_fail_fast(true);
    net.start();
    assert_eq!(net.step(), Ok(Step::Activated(0)));
    assert_eq!(net.status_of("bad"), Some(Status::Failed));
    assert_eq!(net.status_of("proc1"), Some(Status::Terminated));
    assert_eq!(net.status_of("proc2"), Some(Status::Terminated));
    assert_eq!(net.step(), Ok(Step::Terminated));
    assert!(log.borrow().is_empty());
}

#[test]
fn hard_stop_discards_packets_in_flight() {
    let log: Log = Rc::new(RefCell::new(Vec::new()));
    let mut net = pipeline(5, 2, &log);
    net.start();
    assert_eq!(net.step(), Ok(Step::Activated(0)));
    assert!(net.in_flight());
    net.stop_hard();
    assert!(!net.in_flight());
    assert_eq!(net.status_of("proc1"), Some(Status::Terminated));
    assert_eq!(net.status_of("proc2"), Some(Status::Terminated));
    assert_eq!(net.run(10), Ok(RunStatus::Terminated));
    assert!(log.borrow().is_empty());
}

#[test]
fn graceful_stop_lets_the_network_drain() {
    let log: Log = Rc::new(RefCell::new(Vec::new()));
    let mut net = pipeline(4, 2, &log);
    net.new_process("ticker".to_string(), Unit::Ticker).unwrap();
    net.start();
    // The ticker asks to run for ever: the network never comes to rest.
    assert_eq!(net.run(50), Ok(RunStatus::Running));
    assert_eq!(net.status_of("proc2"), Some(Status::Terminated));
    assert_eq!(net.status_of("ticker"), Some(Status::Running));
    net.stop_graceful();
    // Asking to run counts no more; the ticker has no input and ends.
    assert_eq!(net.run(50), Ok(RunStatus::Terminated));
    assert_eq!(net.status_of("ticker"), Some(Status::Terminated));
    assert_eq!(*log.borrow(), vec!["0:P0", "1:P1", "2:P2", "3:P3", "end"]);
}

#[test]
fn a_run_that_uses_up_its_budget_is_still_running() {
    let log: Log = Rc::new(RefCell::new(Vec::new()));
    let mut net = pipeline(100, 1, &log);
    net.start();
    assert_eq!(net.run(3), Ok(RunStatus::Running));
    assert_eq!(net.run(0), Ok(RunStatus::Running));
    assert_eq!(net.run(10_000), Ok(RunStatus::Terminated));
    assert_eq!(log.borrow().len(), 101);
}

fn copier() -> Unit {
    Unit::Copy { input: None, out: None, held: None }
}

/// A subnetwork with one process that copies from the boundary in-port
/// `IN` to the boundary out-port `OUT`.
fn copying_subnet(name: &str) -> Network<Unit> {
    let mut mother = Process::new(name.to_string());
    mother.declare_in_port("IN".to_string(), Arity::Array, 1).unwrap();
    mother.declare_port("OUT".to_string(), Direction::Out, Arity::Array, 2).unwrap();
    let mut sub = Network::new_subnet("inner".to_string(), mother);
    sub.new_process("copy".to_string(), copier()).unwrap();
    sub.declare_in_port("copy", "in".to_string(), Arity::Single, 2).unwrap();
    sub.declare_out_port("copy", "out".to_string(), Arity::Single).unwrap();
    sub.wire(Peer::Mother, "IN", Peer::Inner(0), "in").unwrap();
    sub.wire(Peer::Inner(0), "out", Peer::Mother, "OUT").unwrap();
    sub
}

#[test]
fn a_subnetwork_passes_packets_through_unmodified_and_in_order() {
    let log: Log = Rc::new(RefCell::new(Vec::new()));
    let mut net = Network::new("outer".to_string());
    net.new_process("src".to_string(), source(7)).unwrap();
    net.new_process("sub".to_string(), Unit::Sub(copying_subnet("sub"))).unwrap();
    net.new_process("dst".to_string(), sink(&log)).unwrap();
    net.declare_out_port("src", "out".to_string(), Arity::Single).unwrap();
    net.declare_in_port("sub", "IN".to_string(), Arity::Array, 1).unwrap();
    net.declare_out_port("sub", "OUT".to_string(), Arity::Array).unwrap();
    net.declare_in_port("dst", "in".to_string(), Arity::Single, 1).unwrap();
    net.connect("src", "out", "sub", "IN").unwrap();
    net.connect("sub", "OUT", "dst", "in").unwrap();
    net.start();
    assert_eq!(net.run(10_000), Ok(RunStatus::Terminated));
    assert_eq!(
        *log.borrow(),
        vec!["0:P0", "1:P1", "2:P2", "3:P3", "4:P4", "5:P5", "6:P6", "end"]
    );
    assert_eq!(net.status_of("sub"), Some(Status::Terminated));
    assert_eq!(net.first_failure(), None);
}

#[test]
fn the_mother_process_has_no_name_among_the_processes_of_a_subnetwork() {
    let mut sub = copying_subnet("sub");
    assert_eq!(sub.mother().unwrap().name(), "sub");
    // The name of the mother process is free inside: it is registered in
    // the enclosing network only.
    assert!(sub.get_proc("sub").is_none());
    assert_eq!(sub.connect("sub", "IN", "copy", "in"), Err(Error::NotFound));
    assert_eq!(sub.new_process("sub".to_string(), copier()), Ok(()));
    assert_eq!(sub.len(), 2);
    assert_eq!(sub.find(&"sub".to_string()), Some(1));
    assert_eq!(sub.new_process("sub".to_string(), copier()), Err(Error::DuplicateName));
    assert_eq!(
        sub.set_proc("copy".to_string(), Process::new("x".to_string()), copier()),
        Err(Error::DuplicateName)
    );
    assert_eq!(sub.len(), 2);
    // The inner process of that name is wired by its name, the boundary as
    // the mother process.
    sub.declare_in_port("sub", "in".to_string(), Arity::Single, 1).unwrap();
    assert_eq!(sub.wire(Peer::Mother, "IN", Peer::Inner(1), "in"), Ok(()));
    assert_eq!(sub.link(2).src, Peer::Mother);
    assert_eq!(sub.link(2).dst, Peer::Inner(1));
    // At the mother process a connection leaves an in-port and arrives at an
    // out-port.
    assert_eq!(sub.wire(Peer::Mother, "OUT", Peer::Inner(0), "in"), Err(Error::UnknownPort));
    assert_eq!(sub.wire(Peer::Inner(0), "out", Peer::Mother, "IN"), Err(Error::UnknownPort));
    assert_eq!(sub.wire(Peer::Inner(7), "out", Peer::Mother, "OUT"), Err(Error::NotFound));
    // A network that is no subnetwork has no boundary.
    let mut top: Network<Unit> = Network::new("top".to_string());
    top.new_process("a".to_string(), copier()).unwrap();
    assert_eq!(top.wire(Peer::Mother, "IN", Peer::Inner(0), "in"), Err(Error::NotFound));
}

#[test]
fn a_subnetwork_without_its_boundary_connected_ends_on_its_own() {
    let log: Log = Rc::new(RefCell::new(Vec::new()));
    let mut net = Network::new("outer".to_string());
    net.new_process("sub".to_string(), Unit::Sub(copying_subnet("sub"))).unwrap();
    net.new_process("dst".to_string(), sink(&log)).unwrap();
    net.declare_out_port("sub", "OUT".to_string(), Arity::Array).unwrap();
    net.declare_in_port("dst", "in".to_string(), Arity::Single, 1).unwrap();
    net.connect("sub", "OUT", "dst", "in").unwrap();
    net.start();
    assert_eq!(net.run(1000), Ok(RunStatus::Terminated));
    assert_eq!(*log.borrow(), vec!["end"]);
}

#[test]
fn an_array_port_merges_its_connections_in_order_of_arrival() {
    let log: Log = Rc::new(RefCell::new(Vec::new()));
    let mut net = Network::new("fan-in".to_string());
    net.new_process("a".to_string(), tagged_source("A", 3)).unwrap();
    net.new_process("b".to_string(), tagged_source("B", 2)).unwrap();
    net.new_process("m".to_string(), Unit::Merge { inputs: Vec::new(), log: log.clone() })
        .unwrap();
    net.declare_out_port("a", "out".to_string(), Arity::Single).unwrap();
    net.declare_out_port("b", "out".to_string(), Arity::Single).unwrap();
    net.declare_in_port("m", "in".to_string(), Arity::Array, 1).unwrap();
    net.connect("a", "out", "m", "in").unwrap();
    net.connect("b", "out", "m", "in").unwrap();
    assert_eq!(net.get_proc("m").unwrap().port(0).degree(), 2);
    net.start();
    assert_eq!(net.run(1000), Ok(RunStatus::Terminated));
    // Each connection numbers its own packets; across the connections the
    // packets come as they arrived; each stream ends once.
    assert_eq!(
        *log.borrow(),
        vec!["0:A0", "0:B0", "1:A1", "1:B1", "2:A2", "end", "end", "gone"]
    );
}

#[test]
fn an_out_array_port_has_one_handle_for_each_connection_in_wiring_order() {
    let first: Log = Rc::new(RefCell::new(Vec::new()));
    let second: Log = Rc::new(RefCell::new(Vec::new()));
    let mut net = Network::new("fan-out".to_string());
    net.new_process("s".to_string(), Unit::Spread { outs: Vec::new(), done: false }).unwrap();
    net.new_process("x".to_string(), sink(&first)).unwrap();
    net.new_process("y".to_string(), sink(&second)).unwrap();
    net.declare_out_port("s", "out".to_string(), Arity::Array).unwrap();
    net.declare_in_port("x", "in".to_string(), Arity::Single, 1).unwrap();
    net.declare_in_port("y", "in".to_string(), Arity::Single, 1).unwrap();
    net.connect("s", "out", "y", "in").unwrap();
    net.connect("s", "out", "x", "in").unwrap();
    net.start();
    assert_eq!(net.run(1000), Ok(RunStatus::Terminated));
    assert_eq!(*second.borrow(), vec!["0:S0", "end"]);
    assert_eq!(*first.borrow(), vec!["0:S1", "end"]);
}

#[test]
fn opening_a_port_twice_fails_with_already_opened() {
    let log: Log = Rc::new(RefCell::new(Vec::new()));
    let mut net = Network::new("probe".to_string());
    net.new_process("p".to_string(), Unit::Prober { log: log.clone() }).unwrap();
    net.declare_in_port("p", "in".to_string(), Arity::Single, 1).unwrap();
    net.declare_out_port("p", "out".to_string(), Arity::Single).unwrap();
    net.declare_out_port("p", "many".to_string(), Arity::Array).unwrap();
    net.start();
    assert_eq!(
        *log.borrow(),
        vec![
            "in:Ok(())",
            "in again:Err(AlreadyOpened)",
            "in as array:Err(AlreadyOpened)",
            "missing:Err(UnknownPort)",
            "out as in:Err(UnknownPort)",
            "array as single:Err(UnknownPort)",
            "many:Ok(())",
            "many again:Err(AlreadyOpened)",
            "out:Ok(())",
        ]
    );
    log.borrow_mut().clear();
    assert_eq!(net.step(), Ok(Step::Activated(0)));
    // The in-port at place 0 is no out-port, and there is no port at place 99.
    assert_eq!(*log.borrow(), vec!["send:Err(Disconnected)", "receive:Err(Disconnected)"]);
    // An opened port takes no further connection.
    net.new_process("q".to_string(), sink(&log)).unwrap();
    net.declare_in_port("q", "in".to_string(), Arity::Single, 1).unwrap();
    assert_eq!(net.connect("p", "out", "q", "in"), Err(Error::AlreadyOpened));
}

#[test]
fn a_send_to_a_process_that_has_ended_is_disconnected() {
    let log: Log = Rc::new(RefCell::new(Vec::new()));
    let mut net = Network::new("net".to_string());
    net.new_process("bad".to_string(), Unit::Broken).unwrap();
    net.new_process("src".to_string(), source(3)).unwrap();
    net.declare_in_port("bad", "in".to_string(), Arity::Single, 1).unwrap();
    net.declare_out_port("src", "out".to_string(), Arity::Single).unwrap();
    net.connect("src", "out", "bad", "in").unwrap();
    net.start();
    // The receiver fails first; the source then finds its peer gone and fails too.
    assert_eq!(net.run(100), Ok(RunStatus::Terminated));
    assert_eq!(net.status_of("bad"), Some(Status::Failed));
    assert_eq!(net.status_of("src"), Some(Status::Failed));
    let failure = net.first_failure().unwrap();
    assert_eq!((failure.process, failure.error), (0, Error::ComponentFailure));
    assert!(log.borrow().is_empty());
}

#[test]
fn the_network_records_both_ends_of_every_connection() {
    let mut sub = copying_subnet("sub");
    assert_eq!(sub.connections(), 2);
    assert_eq!(
        sub.link(0),
        Link {
            src: Peer::Mother,
            src_port: 0,
            src_slot: 0,
            dst: Peer::Inner(0),
            dst_port: 0,
            dst_slot: 0
        }
    );
    assert_eq!(
        sub.link(1),
        Link {
            src: Peer::Inner(0),
            src_port: 1,
            src_slot: 0,
            dst: Peer::Mother,
            dst_port: 1,
            dst_slot: 0
        }
    );
    // A second connection of the array port comes after the first.
    sub.new_process("more".to_string(), copier()).unwrap();
    sub.declare_in_port("more", "in".to_string(), Arity::Single, 1).unwrap();
    sub.wire(Peer::Mother, "IN", Peer::Inner(1), "in").unwrap();
    assert_eq!(sub.link(2).src_slot, 1);
    assert_eq!(sub.mother().unwrap().port(0).degree(), 2);
    assert_eq!(sub.mother().unwrap().port(0).edge(1), 2);
    assert_eq!(sub.get_proc("more").unwrap().status(), Status::Wired);
    assert_eq!(sub.get_proc("more").unwrap().network().unwrap(), "inner");
    assert_eq!(sub.find(&"more".to_string()), Some(1));
    assert_eq!(sub.find(&"sub".to_string()), None);
    assert_eq!(sub.find(&"copy".to_string()), Some(0));
    assert_eq!(sub.peer(Peer::Inner(1)).name(), "more");
    assert_eq!(sub.peer(Peer::Mother).name(), "sub");
    assert_eq!(sub.process_at(0).name(), "copy");
}

#[test]
fn the_scheduler_goes_round_from_the_cursor() {
    let mut net = Network::new("round".to_string());
    for name in ["a", "b", "c"] {
        net.new_process(name.to_string(), Unit::Ticker).unwrap();
    }
    assert_eq!(net.pick(), None);
    assert!(!net.all_started());
    assert_eq!(net.verdict(), Verdict::Idle);
    net.start();
    assert!(net.all_started());
    assert!(!net.all_terminal());
    let order: Vec<_> = (0..7).map(|_| net.step()).collect();
    let expected: Vec<_> = [0, 1, 2, 0, 1, 2, 0].iter().map(|i| Ok(Step::Activated(*i))).collect();
    assert_eq!(order, expected);
    assert_eq!(net.pick(), Some(1));
    net.stop_hard();
    assert_eq!(net.pick(), None);
    assert!(net.all_terminal());
    assert_eq!(net.verdict(), Verdict::Terminated);
}

#[test]
fn a_store_failure_of_a_component_is_recorded_as_such() {
    struct Lookup;
    impl Component for Lookup {
        fn setup(self, _proc: &mut Process) -> Self {
            self
        }
        fn execute(&mut self, _proc: &mut Process) -> Result<(), Error> {
            Err(Error::StoreError)
        }
    }
    let mut net = Network::new("net".to_string());
    net.new_process("lookup".to_string(), Reactive(Lookup)).unwrap();
    net.start();
    assert_eq!(net.step(), Ok(Step::Activated(0)));
    assert_eq!(net.status_of("lookup"), Some(Status::Failed));
    assert_eq!(net.first_failure().unwrap().error, Error::StoreError);
    assert_eq!(net.run(10), Ok(RunStatus::Terminated));
}

#[test]
fn a_reactive_component_is_only_activated_for_input() {
    struct Counter(Rc<RefCell<u32>>, Option<InPort>);
    impl Component for Counter {
        fn setup(self, proc: &mut Process) -> Self {
            Counter(self.0, proc.open_in_port("in".to_string()).ok())
        }
        fn execute(&mut self, proc: &mut Process) -> Result<(), Error> {
            *self.0.borrow_mut() += 1;
            if let Some(input) = &self.1 {
                while let Received::Packet(..) = proc.receive(input)? {}
            }
            Ok(())
        }
    }
    let activations = Rc::new(RefCell::new(0));
    let mut net = Network::new("net".to_string());
    net.new_process("lonely".to_string(), Reactive(Counter(activations.clone(), None))).unwrap();
    net.start();
    // Without any in-port the input is exhausted from the start: the process
    // gets the one activation in which it produces nothing, and ends.
    assert_eq!(net.run(10), Ok(RunStatus::Terminated));
    assert_eq!(*activations.borrow(), 1);
}

#[test]
fn what_has_been_started_is_wired_no_more() {
    let log: Log = Rc::new(RefCell::new(Vec::new()));
    let mut net = Network::new("net".to_string());
    net.new_process("a".to_string(), Unit::Ticker).unwrap();
    net.declare_out_port("a", "spare".to_string(), Arity::Single).unwrap();
    net.start();
    // The ticker never opened its port; it runs all the same.
    net.new_process("late".to_string(), sink(&log)).unwrap();
    net.declare_in_port("late", "in".to_string(), Arity::Single, 1).unwrap();
    assert_eq!(net.connect("a", "spare", "late", "in"), Err(Error::AlreadyOpened));
    assert_eq!(net.connections(), 0);
    // A process that comes late is started by another start.
    assert_eq!(net.status_of("late"), Some(Status::Created));
    net.start();
    assert_eq!(net.status_of("late"), Some(Status::Running));
    assert_eq!(net.status_of("a"), Some(Status::Running));
}

#[test]
fn senders_that_fill_each_others_buffers_are_deadlocked() {
    let mut net = Network::new("ring".to_string());
    for name in ["a", "b"] {
        net.new_process(name.to_string(), Unit::Flood { out: None }).unwrap();
        net.declare_in_port(name, "in".to_string(), Arity::Single, 2).unwrap();
        net.declare_out_port(name, "out".to_string(), Arity::Single).unwrap();
    }
    net.connect("a", "out", "b", "in").unwrap();
    net.connect("b", "out", "a", "in").unwrap();
    net.start();
    // Each fills the buffer of the other and is suspended on the next send.
    assert_eq!(net.step(), Ok(Step::Activated(0)));
    assert_eq!(net.step(), Ok(Step::Activated(1)));
    assert!(net.in_flight());
    // Both ask to run, but neither can: that is a deadlock, not a busy loop.
    assert_eq!(net.step(), Err(Error::Deadlock));
    assert_eq!(net.run(100), Err(Error::Deadlock));
    assert_eq!(net.verdict(), Verdict::Deadlock);
}

#[test]
fn reactive_components_that_wait_for_one_another_are_deadlocked() {
    struct Relay(Option<InPort>, Option<OutPort>);
    impl Component for Relay {
        fn setup(self, proc: &mut Process) -> Self {
            Relay(
                proc.open_in_port("in".to_string()).ok(),
                proc.open_out_port("out".to_string()).ok(),
            )
        }
        fn execute(&mut self, proc: &mut Process) -> Result<(), Error> {
            let (input, out) = match (&self.0, &self.1) {
                (Some(i), Some(o)) => (i, o),
                _ => return Err(Error::UnknownPort),
            };
            if let Received::Packet(_, packet) = proc.receive(input)? {
                proc.send(out, packet)?;
            }
            Ok(())
        }
    }
    let mut net = Network::new("ring".to_string());
    net.new_process("a".to_string(), Reactive(Relay(None, None))).unwrap();
    net.new_process("b".to_string(), Reactive(Relay(None, None))).unwrap();
    for p in ["a", "b"] {
        net.declare_in_port(p, "in".to_string(), Arity::Single, 1).unwrap();
        net.declare_out_port(p, "out".to_string(), Arity::Single).unwrap();
    }
    net.connect("a", "out", "b", "in").unwrap();
    net.connect("b", "out", "a", "in").unwrap();
    net.start();
    assert!(!net.get_proc("a").unwrap().is_eager());
    assert!(!net.get_proc("b").unwrap().is_eager());
    assert_eq!(net.run(100), Err(Error::Deadlock));
    assert_eq!(net.first_failure(), None);
    assert_eq!(net.status_of("a"), Some(Status::Running));
    assert_eq!(net.status_of("b"), Some(Status::Running));
}

#[test]
fn a_sink_that_takes_one_packet_at_a_time_still_sees_the_end_of_the_stream() {
    let log: Log = Rc::new(RefCell::new(Vec::new()));
    let mut net = Network::new("net1".to_string());
    net.new_process("proc1".to_string(), source(5)).unwrap();
    net.new_process("proc2".to_string(), Unit::Slow { input: None, log: log.clone() }).unwrap();
    net.declare_out_port("proc1", "out".to_string(), Arity::Single).unwrap();
    net.declare_in_port("proc2", "in".to_string(), Arity::Single, 2).unwrap();
    net.connect("proc1", "out", "proc2", "in").unwrap();
    net.start();
    let mut steps = 0;
    // Step by step, to see the moment at which the source has ended and the
    // sink holds the last packet.
    while net.status_of("proc1") != Some(Status::Terminated) || log.borrow().len() < 5 {
        assert!(matches!(net.step(), Ok(Step::Activated(_))));
        steps += 1;
        assert!(steps < 100);
    }
    assert_eq!(*log.borrow(), vec!["0:P0", "1:P1", "2:P2", "3:P3", "4:P4"]);
    // The last packet is taken and the source has ended; the sink has not:
    // the end of the stream is still to be handed to it.
    assert_eq!(net.status_of("proc2"), Some(Status::Running));
    assert_eq!(net.step(), Ok(Step::Activated(1)));
    assert_eq!(log.borrow().last().unwrap(), "end");
    assert_eq!(net.status_of("proc2"), Some(Status::Terminated));
    assert_eq!(net.run(10), Ok(RunStatus::Terminated));
    assert_eq!(log.borrow().len(), 6);
    assert_eq!(net.first_failure(), None);
}

#[test]
fn a_process_suspended_on_its_last_send_is_not_ended_and_loses_no_packet() {
    let log: Log = Rc::new(RefCell::new(Vec::new()));
    let mut net = Network::new("net".to_string());
    net.new_process(
        "hoard".to_string(),
        Unit::Hoard { input: None, out: None, store: Vec::new(), ended: false },
    )
    .unwrap();
    net.new_process("src".to_string(), source(4)).unwrap();
    net.new_process("dst".to_string(), Unit::Slow { input: None, log: log.clone() }).unwrap();
    net.declare_out_port("src", "out".to_string(), Arity::Single).unwrap();
    net.declare_in_port("hoard", "in".to_string(), Arity::Single, 4).unwrap();
    net.declare_out_port("hoard", "out".to_string(), Arity::Single).unwrap();
    net.declare_in_port("dst", "in".to_string(), Arity::Single, 1).unwrap();
    net.connect("src", "out", "hoard", "in").unwrap();
    net.connect("hoard", "out", "dst", "in").unwrap();
    net.start();
    // Until the hoard has taken the end of its input and is suspended on a
    // send into the full buffer of the sink.
    let mut steps = 0;
    loop {
        assert!(matches!(net.step(), Ok(Step::Activated(_))));
        steps += 1;
        assert!(steps < 100);
        let hoard = net.get_proc("hoard").unwrap();
        if net.status_of("src") == Some(Status::Terminated) && hoard.waiting().is_some() {
            break;
        }
    }
    // Its input is exhausted and it sent nothing in the activation that was
    // suspended at once, yet it keeps running: it holds packets back.
    assert_eq!(net.status_of("hoard"), Some(Status::Running));
    assert_eq!(net.run(100), Ok(RunStatus::Terminated));
    assert_eq!(*log.borrow(), vec!["0:P0", "1:P1", "2:P2", "3:P3", "end"]);
    assert_eq!(net.status_of("hoard"), Some(Status::Terminated));
    assert_eq!(net.first_failure(), None);
}

#[test]
fn a_suspended_send_goes_on_when_a_slot_is_free_though_the_input_is_quiet() {
    let log: Log = Rc::new(RefCell::new(Vec::new()));
    let mut net = Network::new("net".to_string());
    // The ticker never sends and never ends: the input of the copier stays
    // open and quiet.
    net.new_process("quiet".to_string(), Unit::Ticker).unwrap();
    net.new_process("src".to_string(), source(3)).unwrap();
    net.new_process("copy".to_string(), copier()).unwrap();
    net.new_process("dst".to_string(), Unit::Slow { input: None, log: log.clone() }).unwrap();
    net.declare_out_port("quiet", "out".to_string(), Arity::Single).unwrap();
    net.declare_out_port("src", "out".to_string(), Arity::Single).unwrap();
    net.declare_in_port("copy", "in".to_string(), Arity::Single, 3).unwrap();
    net.declare_in_port("copy", "other".to_string(), Arity::Single, 1).unwrap();
    net.declare_out_port("copy", "out".to_string(), Arity::Single).unwrap();
    net.declare_in_port("dst", "in".to_string(), Arity::Single, 1).unwrap();
    net.connect("src", "out", "copy", "in").unwrap();
    net.connect("quiet", "out", "copy", "other").unwrap();
    net.connect("copy", "out", "dst", "in").unwrap();
    net.start();
    assert_eq!(net.run(200), Ok(RunStatus::Running));
    // Every packet came through: each time the copier was suspended on a
    // send it went on when the sink had made room.
    assert_eq!(*log.borrow(), vec!["0:P0", "1:P1", "2:P2"]);
}

#[test]
fn a_run_answers_what_the_network_is_when_its_steps_are_used_up() {
    let log: Log = Rc::new(RefCell::new(Vec::new()));
    let mut net = pipeline(1, 1, &log);
    // Nothing is ready before the start, whatever the budget.
    assert_eq!(net.run(0), Ok(RunStatus::Idle));
    assert_eq!(net.answer(), Ok(RunStatus::Idle));
    net.start();
    assert_eq!(net.run(0), Ok(RunStatus::Running));
    let mut used = 0;
    while net.run(1) == Ok(RunStatus::Running) {
        used += 1;
        assert!(used < 100);
    }
    // The step that ended the network was the last of its run: the answer is
    // that it has terminated, not that it is running.
    assert_eq!(net.answer(), Ok(RunStatus::Terminated));
    assert_eq!(net.run(0), Ok(RunStatus::Terminated));
    assert_eq!(*log.borrow(), vec!["0:P0", "end"]);
}
