use lightning_net::address::{IpOctets, NetAddress};
use lightning_net::channel::Signal;
use lightning_net::commands::ReaderCommand;
use lightning_net::connection::{
    after_announcement, IdCounter, SetupAction, WRITER_CHANNEL_CAPACITY,
};
use lightning_net::reader::{ReaderAction, ReaderEvent};
use lightning_net::setup_inbound;
use lightning_net::writer::{WriterAction, WriterEvent};

#[test]
fn a_connection_is_wired_up() {
    let mut ids = IdCounter::new();
    let inbound = setup_inbound(&mut ids, 'd', IpOctets::V4([127, 0, 0, 1]), 9735);
    let mut parts = inbound.parts;
    let mut descriptor = inbound.socket_descriptor;
    assert_eq!(parts.connection.id, 0);
    assert!(!parts.connection.read_paused);
    assert_eq!(descriptor.id(), 0);
    assert!(parts.reader_descriptor == descriptor);
    assert_eq!(*parts.reader_descriptor.tcp_disconnector(), 'd');
    assert_eq!(*descriptor.tcp_disconnector(), 'd');

    // Both descriptors lead to the same writer.
    assert_eq!(descriptor.send_data(&[1, 2], false), 2);
    assert_eq!(parts.writer.next(WriterEvent::Turn), WriterAction::NextTurn);
    assert_eq!(parts.writer.pending(), Some(&[1u8, 2][..]));
    assert_eq!(parts.reader_descriptor.send_data(&[3], false), 1);
    assert_eq!(parts.writer.next(WriterEvent::Wrote(2)), WriterAction::NextTurn);
    assert_eq!(parts.writer.next(WriterEvent::Turn), WriterAction::NextTurn);
    assert_eq!(parts.writer.pending(), Some(&[3u8][..]));
    assert_eq!(parts.writer.next(WriterEvent::Wrote(1)), WriterAction::NextTurn);

    // Once both are dropped, the writer and the reader find that out.
    drop(descriptor);
    drop(parts.reader_descriptor);
    assert_eq!(parts.writer.next(WriterEvent::Turn), WriterAction::Shutdown);
    assert_eq!(parts.reader.next(ReaderEvent::Turn), ReaderAction::Shutdown);
}

#[test]
fn a_full_writer_channel_pauses_the_reader_of_the_connection() {
    let mut ids = IdCounter::new();
    let inbound = setup_inbound(&mut ids, (), IpOctets::V4([10, 0, 0, 1]), 1);
    let mut parts = inbound.parts;
    let mut descriptor = inbound.socket_descriptor;
    assert_eq!(WRITER_CHANNEL_CAPACITY, 1);
    assert_eq!(descriptor.send_data(&[1], false), 1);
    // With one command in it the channel is full, for every descriptor of the connection.
    assert_eq!(descriptor.send_data(&[2, 3], false), 0);
    assert_eq!(parts.reader_descriptor.send_data(&[4], false), 0);
    assert!(!parts.reader.handle_command(false));
    assert!(parts.reader.read_paused());
    assert!(!parts.reader.handle_command(false));
    assert!(parts.reader.read_paused());
    // The writer takes the command over, so that there is room again.
    assert_eq!(parts.writer.next(WriterEvent::Turn), WriterAction::NextTurn);
    assert_eq!(descriptor.send_data(&[2, 3], true), 2);
    assert!(!parts.reader.handle_command(true));
    assert!(!parts.reader.read_paused());
}

#[test]
fn the_reader_channel_has_no_limit() {
    let mut ids = IdCounter::new();
    let inbound = setup_inbound(&mut ids, (), IpOctets::V4([10, 0, 0, 1]), 1);
    let mut parts = inbound.parts;
    let mut descriptor = inbound.socket_descriptor;
    assert_eq!(descriptor.send_data(&[1], false), 1);
    for _ in 0..1000 {
        assert_eq!(descriptor.send_data(&[3], false), 0);
    }
    for _ in 0..1000 {
        assert!(!parts.reader.apply(Signal::Received(ReaderCommand::ResumeRead)));
        assert!(!parts.reader.handle_command(false));
        assert!(parts.reader.read_paused());
    }
}

#[test]
fn refused_data_can_be_sent_again_without_being_repeated() {
    let mut ids = IdCounter::new();
    let inbound = setup_inbound(&mut ids, (), IpOctets::V4([10, 0, 0, 1]), 1);
    let mut writer = inbound.parts.writer;
    let mut descriptors = vec![inbound.socket_descriptor, inbound.parts.reader_descriptor];
    descriptors.push(descriptors[0].clone());
    // Each payload is tried once while the channel is full, and sent again through the same
    // descriptor when there is room; the descriptors take turns.
    let payloads: [&[u8]; 4] = [&[1, 2], &[3], &[4, 5, 6], &[7]];
    let mut written = Vec::new();
    assert_eq!(descriptors[2].send_data(&[0], false), 1);
    for (i, payload) in payloads.iter().enumerate() {
        let descriptor = &mut descriptors[i % 3];
        assert_eq!(descriptor.send_data(payload, false), 0);
        assert_eq!(writer.next(WriterEvent::Turn), WriterAction::NextTurn);
        assert_eq!(descriptor.send_data(payload, false), payload.len());
        let pending = writer.pending().unwrap().to_vec();
        written.extend_from_slice(&pending);
        assert_eq!(writer.next(WriterEvent::Wrote(pending.len())), WriterAction::NextTurn);
    }
    drop(descriptors);
    assert_eq!(writer.next(WriterEvent::Turn), WriterAction::NextTurn);
    written.extend_from_slice(writer.pending().unwrap());
    assert_eq!(writer.next(WriterEvent::Wrote(1)), WriterAction::NextTurn);
    assert_eq!(writer.next(WriterEvent::Turn), WriterAction::Shutdown);
    assert_eq!(written, vec![0, 1, 2, 3, 4, 5, 6, 7]);
}

#[test]
fn addresses_keep_family_octets_and_port() {
    let v4 = IpOctets::V4([192, 168, 2, 1]);
    assert_eq!(
        NetAddress::from_socket(v4, 9735),
        NetAddress::IPv4 { addr: [192, 168, 2, 1], port: 9735 }
    );
    let octets = [0, 1, 2, 3, 4, 5, 6, 7, 8, 9, 10, 11, 12, 13, 14, 15];
    let mut ids = IdCounter::new();
    let inbound = setup_inbound(&mut ids, (), IpOctets::V6(octets), 80);
    assert_eq!(inbound.net_address, NetAddress::IPv6 { addr: octets, port: 80 });
}

#[test]
fn connection_ids_count_up() {
    let mut ids = IdCounter::new();
    assert_eq!(ids.draw(), 0);
    assert_eq!(ids.draw(), 1);
    assert_eq!(ids.draw(), 2);
}

#[test]
fn connections_are_told_apart() {
    let mut ids = IdCounter::new();
    let one = setup_inbound(&mut ids, (), IpOctets::V4([10, 0, 0, 1]), 1);
    let other = setup_inbound(&mut ids, (), IpOctets::V4([10, 0, 0, 1]), 1);
    assert_eq!(one.parts.connection.id, 0);
    assert_eq!(other.parts.connection.id, 1);
    assert!(one.socket_descriptor == one.parts.reader_descriptor);
    assert!(other.socket_descriptor == other.parts.reader_descriptor);
    assert!(one.socket_descriptor != other.socket_descriptor);
    assert!(one.socket_descriptor != other.parts.reader_descriptor);
}

#[test]
fn a_rejected_connection_is_disconnected() {
    assert_eq!(after_announcement::<u8>(&Ok(())), SetupAction::Keep);
    assert_eq!(after_announcement(&Err(4u8)), SetupAction::Disconnect);
}
