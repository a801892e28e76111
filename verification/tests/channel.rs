use flownet::error::Error;
use flownet::flow::{Channel, Packet, Payload, Received, SendOutcome};

fn text(p: Received) -> (u64, String) {
    match p {
        Received::Packet(seq, packet) => match packet.into_payload() {
            Payload::Text(t) => (seq, t),
            other => panic!("no text: {:?}", other),
        },
        other => panic!("no packet: {:?}", other),
    }
}

#[test]
fn a_channel_is_first_in_first_out() {
    let mut c = Channel::new(3);
    for (k, word) in ["one", "two", "three"].iter().enumerate() {
        match c.offer(10 + k as u64, Packet::text(word.to_string())) {
            Ok(SendOutcome::Sent(seq)) => assert_eq!(seq, k as u64),
            other => panic!("not sent: {:?}", other),
        }
    }
    assert_eq!(c.len(), 3);
    assert_eq!(c.front_stamp(), Some(10));
    assert_eq!(text(c.take().unwrap()), (0, "one".to_string()));
    assert_eq!(text(c.take().unwrap()), (1, "two".to_string()));
    assert_eq!(c.front_stamp(), Some(12));
    assert_eq!(text(c.take().unwrap()), (2, "three".to_string()));
    assert_eq!(c.front_stamp(), None);
}

#[test]
fn a_full_channel_hands_the_packet_back_until_a_receive() {
    let mut c = Channel::new(1);
    assert!(matches!(c.offer(0, Packet::text("a".to_string())), Ok(SendOutcome::Sent(0))));
    assert!(c.is_full());
    let back = match c.offer(1, Packet::text("b".to_string())) {
        Ok(SendOutcome::Suspended(p)) => p,
        other => panic!("not suspended: {:?}", other),
    };
    assert_eq!(back.payload(), &Payload::Text("b".to_string()));
    assert_eq!(c.len(), 1);
    assert_eq!(text(c.take().unwrap()), (0, "a".to_string()));
    assert!(!c.is_full());
    // The packet that came back gets the next sequence number now.
    assert!(matches!(c.offer(2, back), Ok(SendOutcome::Sent(1))));
}

#[test]
fn a_closed_channel_ends_exactly_once_after_its_packets() {
    let mut c = Channel::new(4);
    for k in 0..3 {
        c.offer(k, Packet::empty()).unwrap();
    }
    c.close();
    assert!(c.is_closed());
    assert!(!c.is_exhausted());
    for k in 0..3 {
        assert!(matches!(c.take(), Ok(Received::Packet(seq, _)) if seq == k));
    }
    assert!(c.is_exhausted());
    assert!(c.has_input());
    assert!(matches!(c.take(), Ok(Received::EndOfStream)));
    assert!(!c.has_input());
    assert!(matches!(c.take(), Err(Error::Disconnected)));
    assert!(matches!(c.take(), Err(Error::Disconnected)));
}

#[test]
fn an_open_empty_channel_suspends_the_receiver() {
    let mut c = Channel::new(2);
    assert_eq!(c.capacity(), 2);
    assert!(c.is_connected());
    assert!(!c.has_input());
    assert!(matches!(c.take(), Ok(Received::Suspended)));
    assert!(matches!(c.take(), Ok(Received::Suspended)));
}

#[test]
fn a_channel_without_a_live_peer_refuses_packets() {
    let mut closed = Channel::new(1);
    closed.close();
    assert!(!closed.is_connected());
    assert!(matches!(closed.offer(0, Packet::empty()), Err(Error::Disconnected)));

    let mut abandoned = Channel::new(2);
    abandoned.offer(0, Packet::stream_end()).unwrap();
    abandoned.abandon();
    assert!(abandoned.is_abandoned());
    assert_eq!(abandoned.len(), 0);
    assert!(matches!(abandoned.offer(1, Packet::empty()), Err(Error::Disconnected)));
    assert!(matches!(abandoned.take(), Err(Error::Disconnected)));
}

#[test]
fn packets_tell_data_from_control_markers() {
    assert!(!Packet::empty().is_control());
    assert!(!Packet::text("t".to_string()).is_control());
    assert!(!Packet::data(vec![1, 2, 3]).is_control());
    assert!(Packet::stream_end().is_control());
    assert!(Packet::group_open().is_control());
    assert!(Packet::group_close().is_control());
    assert_eq!(Packet::new(Payload::Data(vec![7])).into_payload(), Payload::Data(vec![7]));
    assert_eq!(Packet::group_open().payload(), &Payload::GroupOpen);
}
