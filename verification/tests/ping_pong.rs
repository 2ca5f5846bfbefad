use websocket_adapter::{decode, encode, ConnectionHandle, Dispatcher, Envelope, NetworkEvent};

const PING: &[u8] = br#"{"message_type":"ping","payload":{}}"#;

#[test]
fn two_pings_are_answered_with_one_pong_each() {
    let c1 = ConnectionHandle { id: 1 };
    let c2 = ConnectionHandle { id: 2 };
    let mut dispatcher = Dispatcher::new();
    let dropped = dispatcher.run_cycle(vec![
        NetworkEvent::Message(c1, PING.to_vec()),
        NetworkEvent::Message(c2, PING.to_vec()),
    ]);
    assert_eq!(dropped, vec![]);

    let pings = dispatcher.drain_messages("ping");
    assert_eq!(pings, vec![(c1, b"{}".to_vec()), (c2, b"{}".to_vec())]);

    let mut sent: Vec<(ConnectionHandle, Vec<u8>)> = Vec::new();
    for (handle, _) in &pings {
        sent.push((*handle, encode("pong", b"{}")));
    }
    assert_eq!(sent.len(), 2);
    for receiver in [c1, c2] {
        let received: Vec<&Vec<u8>> =
            sent.iter().filter(|(to, _)| *to == receiver).map(|(_, frame)| frame).collect();
        assert_eq!(received.len(), 1);
        assert_eq!(received[0].as_slice(), br#"{"message_type":"pong","payload":{}}"#);
        assert_eq!(decode(received[0]), Ok(Envelope::new("pong", b"{}".to_vec()).unwrap()));
    }
    assert_eq!(dispatcher.drain_messages("ping"), vec![]);
    assert_eq!(dispatcher.drain_messages("pong"), vec![]);
}

#[test]
fn a_ping_outlives_the_disconnect_of_its_sender() {
    let c3 = ConnectionHandle { id: 3 };
    let mut dispatcher = Dispatcher::new();
    dispatcher.run_cycle(vec![
        NetworkEvent::Connected(c3),
        NetworkEvent::Message(c3, PING.to_vec()),
        NetworkEvent::Disconnected(c3),
    ]);
    assert_eq!(dispatcher.drain_messages("ping"), vec![(c3, b"{}".to_vec())]);
    assert!(dispatcher.drain_lifecycle().contains(&NetworkEvent::Disconnected(c3)));
}

#[test]
fn a_disconnect_seen_before_the_ping_changes_nothing() {
    let c3 = ConnectionHandle { id: 3 };
    let mut dispatcher = Dispatcher::new();
    dispatcher.run_cycle(vec![
        NetworkEvent::Disconnected(c3),
        NetworkEvent::Message(c3, PING.to_vec()),
    ]);
    assert!(dispatcher.drain_lifecycle().contains(&NetworkEvent::Disconnected(c3)));
    assert_eq!(dispatcher.drain_messages("ping"), vec![(c3, b"{}".to_vec())]);
}
