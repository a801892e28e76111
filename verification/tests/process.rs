use flownet::error::Error;
use flownet::flow::port::{ConnectionState, Port};
use flownet::flow::{Arity, Direction, InPort, OutPort, Packet, Process, Status};

#[test]
fn a_new_process_has_a_name_and_no_ports() {
    let p = Process::new("p".to_string());
    assert_eq!(p.name(), "p");
    assert_eq!(p.status(), Status::Created);
    assert_eq!(p.port_count(), 0);
    assert!(!p.is_eager());
    assert!(!p.has_produced());
    assert_eq!(p.waiting(), None);
    assert!(!Status::Running.is_terminal());
    assert!(Status::Terminated.is_terminal());
    assert!(Status::Failed.is_terminal());
}

#[test]
fn port_names_are_unique_within_a_direction() {
    let mut p = Process::new("p".to_string());
    assert_eq!(p.declare_in_port("x".to_string(), Arity::Single, 3), Ok(()));
    assert_eq!(p.declare_in_port("x".to_string(), Arity::Array, 1), Err(Error::DuplicateName));
    assert_eq!(p.declare_out_port("x".to_string(), Arity::Array), Ok(()));
    assert_eq!(p.declare_out_port("x".to_string(), Arity::Single), Err(Error::DuplicateName));
    assert_eq!(p.port_count(), 2);
    assert_eq!(p.find_port(&"x".to_string(), Direction::In), Some(0));
    assert_eq!(p.find_port(&"x".to_string(), Direction::Out), Some(1));
    assert_eq!(p.find_port(&"y".to_string(), Direction::In), None);
    let port = p.port(0);
    assert_eq!(port.name(), "x");
    assert_eq!(port.direction(), Direction::In);
    assert_eq!(port.arity(), Arity::Single);
    assert_eq!(port.capacity(), 3);
    assert!(!port.is_opened());
    assert_eq!(port.connection_state(), ConnectionState::Unconnected);
}

#[test]
fn opening_tells_unknown_from_already_opened() {
    let mut p = Process::new("p".to_string());
    p.declare_in_port("in".to_string(), Arity::Single, 1).unwrap();
    p.declare_out_port("out".to_string(), Arity::Array).unwrap();
    assert_eq!(p.open_in_port("nope".to_string()), Err(Error::UnknownPort));
    assert_eq!(p.open_out_port("in".to_string()), Err(Error::UnknownPort));
    assert_eq!(p.open_in_port("in".to_string()), Ok(InPort { port: 0, slot: 0 }));
    assert_eq!(p.open_in_port("in".to_string()), Err(Error::AlreadyOpened));
    assert_eq!(p.open_out_port("out".to_string()), Err(Error::UnknownPort));
    assert_eq!(p.open_out_array_port("out".to_string()), Ok(vec![]));
    assert_eq!(p.open_out_array_port("out".to_string()), Err(Error::AlreadyOpened));
    assert_eq!(p.open_out_port("out".to_string()), Err(Error::AlreadyOpened));
    assert!(p.port(0).is_opened());
}

#[test]
fn a_process_outside_an_activation_reaches_no_channel() {
    let mut p = Process::new("p".to_string());
    p.declare_in_port("in".to_string(), Arity::Single, 1).unwrap();
    p.declare_out_port("out".to_string(), Arity::Single).unwrap();
    let input = p.open_in_port("in".to_string()).unwrap();
    let output = p.open_out_port("out".to_string()).unwrap();
    assert!(matches!(p.send(&output, Packet::empty()), Err(Error::Disconnected)));
    assert!(matches!(p.receive(&input), Err(Error::Disconnected)));
    assert!(matches!(p.receive_any(&vec![input]), Err(Error::Disconnected)));
    assert!(!p.can_send(&output));
    assert!(!p.is_live(&output));
    assert!(!p.has_input(&input));
    assert!(!p.has_packet(&input));
    assert!(!p.is_idle(&input));
    assert_eq!(p.front_stamp(&input), None);
    assert_eq!(p.select(&vec![input]), None);
    assert_eq!(p.route(Direction::Out, output.port, output.slot), None);
    p.suspend_on_send(&OutPort { port: 1, slot: 0 });
    assert_eq!(p.waiting(), None);
    // Without connections a process has no input and none to wait for.
    let none = Vec::new();
    assert!(!p.has_pending_input(&none));
    assert!(p.inputs_exhausted(&none));
    assert!(!p.is_blocked(&none));
    assert!(!p.is_ready(&none, false));
    assert!(p.has_completed(&none, false));
    assert!(!p.is_boundary_live(&none));
}

#[test]
fn a_port_counts_its_connections() {
    let mut port = Port::new("many".to_string(), Direction::Out, Arity::Array, 1);
    assert!(port.has_room());
    port.attach(4);
    assert_eq!(port.connection_state(), ConnectionState::ConnectedToOne);
    port.attach(9);
    assert_eq!(port.connection_state(), ConnectionState::ConnectedToMany);
    assert_eq!(port.degree(), 2);
    assert_eq!((port.edge(0), port.edge(1)), (4, 9));
    assert!(port.is_named(&"many".to_string(), Direction::Out));
    assert!(!port.is_named(&"many".to_string(), Direction::In));
    port.open();
    assert!(port.is_opened());

    let mut single = Port::new("one".to_string(), Direction::In, Arity::Single, 2);
    assert!(single.has_room());
    single.attach(0);
    assert!(!single.has_room());
}
