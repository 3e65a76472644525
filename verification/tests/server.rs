use nest_core::errors::NetworkError;
use nest_core::events::{Inbox, Message, NetworkEvent, Outbox, OutboxWriterExt, Payload};
use nest_core::server::{ClientId, IncomingConnection, Server};

// The core never reads the carried socket, so the tests stand a plain
// number in for it.
fn register_one(server: &mut Server<u32>, socket: u32) -> ClientId {
    server.accepted(IncomingConnection { socket });
    let registered = server.drain_incoming();
    assert_eq!(registered.len(), 1);
    assert_eq!(registered[0].1.socket, socket);
    registered[0].0
}

#[test]
fn registration_emits_connected_and_registers() {
    let mut server: Server<u32> = Server::new();
    server.accepted(IncomingConnection { socket: 7 });
    let registered = server.drain_incoming();
    assert_eq!(registered.len(), 1);
    let id = registered[0].0;
    assert_eq!(registered[0].1.socket, 7);
    assert!(server.is_registered(&id));
    assert!(server.is_minted(&id));
    let events = server.drain_events();
    assert_eq!(events, vec![NetworkEvent::Connected(id)]);
}

#[test]
fn registration_keeps_arrival_order() {
    let mut server: Server<u32> = Server::new();
    server.accepted(IncomingConnection { socket: 1 });
    server.accepted(IncomingConnection { socket: 2 });
    server.accepted(IncomingConnection { socket: 3 });
    let registered = server.drain_incoming();
    assert_eq!(registered.len(), 3);
    assert_eq!(registered[0].1.socket, 1);
    assert_eq!(registered[1].1.socket, 2);
    assert_eq!(registered[2].1.socket, 3);
    let events = server.drain_events();
    assert_eq!(
        events,
        vec![
            NetworkEvent::Connected(registered[0].0),
            NetworkEvent::Connected(registered[1].0),
            NetworkEvent::Connected(registered[2].0),
        ]
    );
}

#[test]
fn connected_is_observable_before_inbound() {
    let mut server: Server<u32> = Server::new();
    let id = register_one(&mut server, 7);
    // The chunk arrives after registration; the Connected event is already
    // queued, so a drain cycle hands it out no later than the message.
    assert!(server.deliver_chunk(id, b"hello\r\n".to_vec()));
    let events = server.drain_events();
    let inbound = server.drain_inbound();
    assert_eq!(events, vec![NetworkEvent::Connected(id)]);
    assert_eq!(
        inbound,
        vec![Inbox { from: id, content: Message::Text(String::from("hello")) }]
    );
}

#[test]
fn deliver_chunk_classifies_command() {
    let mut server: Server<u32> = Server::new();
    let id = register_one(&mut server, 7);
    let chunk = vec![255u8, 253u8, 1u8];
    assert!(server.deliver_chunk(id, chunk.clone()));
    let inbound = server.drain_inbound();
    assert_eq!(inbound, vec![Inbox { from: id, content: Message::Command(chunk) }]);
}

#[test]
fn deliver_chunk_drops_blank_text() {
    let mut server: Server<u32> = Server::new();
    let id = register_one(&mut server, 7);
    assert!(server.deliver_chunk(id, b" \r\n".to_vec()));
    assert_eq!(server.drain_inbound(), vec![]);
}

#[test]
fn deliver_chunk_ignores_foreign_id() {
    let mut server: Server<u32> = Server::new();
    let mut other: Server<u32> = Server::new();
    let foreign = register_one(&mut other, 9);
    assert!(!server.deliver_chunk(foreign, b"hi\r\n".to_vec()));
    assert_eq!(server.drain_inbound(), vec![]);
}

#[test]
fn outbound_text_frames_keep_feed_order() {
    let mut server: Server<u32> = Server::new();
    let id = register_one(&mut server, 7);
    let mut batch: Vec<Outbox> = Vec::new();
    batch.send_text(id, String::from("a"));
    batch.send_text(id, String::from("b"));
    batch.send_text(id, String::from("c"));
    server.feed_outbound(batch);
    let frames = server.take_outbound(&id);
    assert_eq!(
        frames,
        vec![b"a\r\n".to_vec(), b"b\r\n".to_vec(), b"c\r\n".to_vec()]
    );
    // The queue was drained: nothing is left.
    assert_eq!(server.take_outbound(&id), Vec::<Vec<u8>>::new());
}

#[test]
fn outbound_for_two_connections_does_not_interleave() {
    let mut server: Server<u32> = Server::new();
    let one = register_one(&mut server, 1);
    let two = register_one(&mut server, 2);
    let mut batch: Vec<Outbox> = Vec::new();
    batch.send_text(one, String::from("a"));
    batch.send_text(two, String::from("x"));
    batch.send_text(one, String::from("b"));
    server.feed_outbound(batch);
    assert_eq!(
        server.take_outbound(&one),
        vec![b"a\r\n".to_vec(), b"b\r\n".to_vec()]
    );
    assert_eq!(server.take_outbound(&two), vec![b"x\r\n".to_vec()]);
}

#[test]
fn send_to_unregistered_is_silent_noop() {
    let mut server: Server<u32> = Server::new();
    let id = register_one(&mut server, 7);
    server.drain_events();
    let dropped = server.disconnect(&id);
    assert_eq!(dropped, Vec::<Vec<u8>>::new());
    server.send(Outbox { to: id, content: Message::Text(String::from("lost")) });
    // No event, no delivery, no frame.
    assert_eq!(server.drain_events(), vec![]);
    assert_eq!(server.take_outbound(&id), Vec::<Vec<u8>>::new());
}

#[test]
fn clean_close_disconnects_within_one_poll_and_then_drops_outbound() {
    let mut server: Server<u32> = Server::new();
    let id = register_one(&mut server, 7);
    server.drain_events();
    // The read worker saw a zero-length read and reports it.
    server.read_eof(id);
    // The next poll cycle drains the lost queue.
    let lost = server.drain_lost();
    assert_eq!(lost.len(), 1);
    assert_eq!(lost[0].0, id);
    assert_eq!(server.drain_events(), vec![NetworkEvent::Disconnected(id)]);
    assert!(!server.is_registered(&id));
    // Feeding that id afterwards is a silent no-op.
    server.feed_outbound(vec![Outbox { to: id, content: Message::Text(String::from("late")) }]);
    assert_eq!(server.drain_events(), vec![]);
    assert_eq!(server.take_outbound(&id), Vec::<Vec<u8>>::new());
}

#[test]
fn drain_lost_returns_undelivered_frames() {
    let mut server: Server<u32> = Server::new();
    let id = register_one(&mut server, 7);
    server.send(Outbox { to: id, content: Message::Text(String::from("bye")) });
    server.read_eof(id);
    let lost = server.drain_lost();
    assert_eq!(lost.len(), 1);
    assert_eq!(lost[0].1, vec![b"bye\r\n".to_vec()]);
}

#[test]
fn remove_is_idempotent_but_disconnected_is_emitted_each_time() {
    let mut server: Server<u32> = Server::new();
    let id = register_one(&mut server, 7);
    server.drain_events();
    server.read_eof(id);
    server.read_eof(id);
    let lost = server.drain_lost();
    assert_eq!(lost.len(), 2);
    assert_eq!(
        server.drain_events(),
        vec![NetworkEvent::Disconnected(id), NetworkEvent::Disconnected(id)]
    );
}

#[test]
fn listen_failure_is_one_event_and_no_connection() {
    let mut server: Server<u32> = Server::new();
    server.listen_failed(String::from("address in use"));
    let events = server.drain_events();
    assert_eq!(
        events,
        vec![NetworkEvent::Error(NetworkError::Listen(String::from("address in use")))]
    );
    // Nothing further ever comes from that listener: no Connected event,
    // nothing queued.
    assert_eq!(server.drain_events(), vec![]);
    assert_eq!(server.drain_incoming().len(), 0);
}

#[test]
fn accept_failure_is_transient() {
    let mut server: Server<u32> = Server::new();
    server.accept_failed(String::from("too many open files"));
    // The loop goes on: a later accept still registers.
    let id = register_one(&mut server, 7);
    assert_eq!(
        server.drain_events(),
        vec![
            NetworkEvent::Error(NetworkError::Accept(String::from("too many open files"))),
            NetworkEvent::Connected(id),
        ]
    );
}

#[test]
fn read_error_emits_event_without_lost_signal() {
    let mut server: Server<u32> = Server::new();
    let id = register_one(&mut server, 7);
    server.drain_events();
    server.read_failed(id, String::from("connection reset"));
    assert_eq!(
        server.drain_events(),
        vec![NetworkEvent::Error(NetworkError::SocketRead(
            String::from("connection reset"),
            id
        ))]
    );
    // No lost-id signal: the registry still holds the connection.
    assert_eq!(server.drain_lost().len(), 0);
    assert!(server.is_registered(&id));
}

#[test]
fn write_error_keeps_connection_registered() {
    let mut server: Server<u32> = Server::new();
    let id = register_one(&mut server, 7);
    server.drain_events();
    server.write_failed(id, String::from("broken pipe"));
    assert_eq!(
        server.drain_events(),
        vec![NetworkEvent::Error(NetworkError::SocketWrite(
            String::from("broken pipe"),
            id
        ))]
    );
    // The connection stays registered and reachable for routing.
    assert!(server.is_registered(&id));
    server.send(Outbox { to: id, content: Message::Text(String::from("still here")) });
    assert_eq!(server.take_outbound(&id), vec![b"still here\r\n".to_vec()]);
}

#[test]
fn drains_take_exactly_what_is_queued() {
    let mut server: Server<u32> = Server::new();
    server.listen_failed(String::from("one"));
    server.accept_failed(String::from("two"));
    let first = server.drain_events();
    assert_eq!(first.len(), 2);
    // Items queued after the drain appear on the next drain, exactly once.
    server.accept_failed(String::from("three"));
    let second = server.drain_events();
    assert_eq!(
        second,
        vec![NetworkEvent::Error(NetworkError::Accept(String::from("three")))]
    );
    assert_eq!(server.drain_events(), vec![]);
}

#[test]
fn outbox_writer_ext_builds_envelopes_in_order() {
    let mut server: Server<u32> = Server::new();
    let id = register_one(&mut server, 7);
    let mut batch: Vec<Outbox> = Vec::new();
    batch.send_text(id, String::from("pong"));
    batch.send_command(id, vec![255u8, 251u8, 1u8]);
    batch.send_gmcp(
        id,
        Payload { package: String::from("chat"), subpackage: Some(String::from("who")), data: None },
    );
    assert_eq!(batch.len(), 3);
    assert_eq!(batch[0].content, Message::Text(String::from("pong")));
    assert_eq!(batch[1].content, Message::Command(vec![255u8, 251u8, 1u8]));
    assert_eq!(
        batch[2].content,
        Message::GMCP(Payload {
            package: String::from("chat"),
            subpackage: Some(String::from("who")),
            data: None
        })
    );
    assert_eq!(batch[0].to, id);
}

#[test]
fn client_id_raw_is_stable() {
    let mut server: Server<u32> = Server::new();
    let id = register_one(&mut server, 7);
    let copy = id;
    assert_eq!(id.raw(), copy.raw());
    assert_eq!(id, copy);
}

#[test]
fn fresh_identifiers_differ() {
    let mut server: Server<u32> = Server::new();
    let one = register_one(&mut server, 1);
    let two = register_one(&mut server, 2);
    assert_ne!(one.raw(), two.raw());
}
