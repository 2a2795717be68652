use crossbeam::channel::{bounded, unbounded, Receiver};
use lightning_net::channel::Outcome;
use lightning_net::commands::{ReaderCommand, WriterCommand};
use lightning_net::descriptor::{write_reply, WriteReply};
use lightning_net::SyncSocketDescriptor;
use std::collections::hash_map::DefaultHasher;
use std::collections::HashSet;
use std::hash::{Hash, Hasher};

type Ends = (
    SyncSocketDescriptor<u8>,
    Receiver<ReaderCommand>,
    Receiver<WriterCommand>,
);

fn descriptor(id: u64, cap: usize) -> Ends {
    let (reader_tx, reader_rx) = unbounded();
    let (writer_tx, writer_rx) = bounded(cap);
    (
        SyncSocketDescriptor::new(id, 9, reader_tx, writer_tx),
        reader_rx,
        writer_rx,
    )
}

fn data(bytes: &[u8]) -> WriterCommand {
    WriterCommand::WriteData(bytes.to_vec())
}

#[test]
fn connect_to_stream() {
    assert!(true);
}

#[test]
fn data_reaches_the_writer() {
    let (mut d, reader_rx, writer_rx) = descriptor(7, 2);
    assert_eq!(d.send_data(&[1, 2, 3], false), 3);
    assert_eq!(d.send_data(&[4], false), 1);
    assert_eq!(writer_rx.try_recv(), Ok(data(&[1, 2, 3])));
    assert_eq!(writer_rx.try_recv(), Ok(data(&[4])));
    assert!(writer_rx.try_recv().is_err());
    assert!(reader_rx.try_recv().is_err());
}

#[test]
fn resume_is_passed_on_to_the_reader() {
    let (mut d, reader_rx, writer_rx) = descriptor(7, 2);
    assert_eq!(d.send_data(&[5, 6], true), 2);
    assert_eq!(reader_rx.try_recv(), Ok(ReaderCommand::ResumeRead));
    assert!(reader_rx.try_recv().is_err());
    assert_eq!(writer_rx.try_recv(), Ok(data(&[5, 6])));
}

#[test]
fn empty_data_is_not_passed_on() {
    let (mut d, reader_rx, writer_rx) = descriptor(7, 2);
    assert_eq!(d.send_data(&[], true), 0);
    assert!(reader_rx.try_recv().is_err());
    assert!(writer_rx.try_recv().is_err());
}

#[test]
fn a_full_writer_pauses_the_reader() {
    let (mut d, reader_rx, writer_rx) = descriptor(7, 1);
    assert_eq!(d.send_data(&[1], false), 1);
    assert_eq!(d.send_data(&[2, 3], false), 0);
    assert_eq!(reader_rx.try_recv(), Ok(ReaderCommand::PauseRead));
    assert!(reader_rx.try_recv().is_err());
    assert_eq!(writer_rx.try_recv(), Ok(data(&[1])));
    assert!(writer_rx.try_recv().is_err());
}

#[test]
fn resume_comes_before_pause() {
    let (mut d, reader_rx, _writer_rx) = descriptor(7, 1);
    assert_eq!(d.send_data(&[1], false), 1);
    assert_eq!(d.send_data(&[2], true), 0);
    assert_eq!(reader_rx.try_recv(), Ok(ReaderCommand::ResumeRead));
    assert_eq!(reader_rx.try_recv(), Ok(ReaderCommand::PauseRead));
    assert!(reader_rx.try_recv().is_err());
}

#[test]
fn a_gone_writer_takes_nothing() {
    let (mut d, reader_rx, writer_rx) = descriptor(7, 2);
    drop(writer_rx);
    assert_eq!(d.send_data(&[1, 2], false), 0);
    assert!(reader_rx.try_recv().is_err());
}

#[test]
fn a_gone_reader_does_not_matter() {
    let (mut d, reader_rx, writer_rx) = descriptor(7, 1);
    drop(reader_rx);
    assert_eq!(d.send_data(&[1, 2], true), 2);
    assert_eq!(d.send_data(&[3], true), 0);
    assert_eq!(writer_rx.try_recv(), Ok(data(&[1, 2])));
}

#[test]
fn replies_to_each_outcome() {
    assert_eq!(
        write_reply(5, Outcome::Accepted),
        WriteReply { accepted: 5, pause_read: false }
    );
    assert_eq!(
        write_reply(5, Outcome::Full),
        WriteReply { accepted: 0, pause_read: true }
    );
    assert_eq!(
        write_reply(5, Outcome::Disconnected),
        WriteReply { accepted: 0, pause_read: false }
    );
}

#[test]
fn a_clone_serves_the_same_connection() {
    let (d, _reader_rx, writer_rx) = descriptor(7, 2);
    let mut other = d.clone();
    assert!(other == d);
    assert_eq!(other.id(), 7);
    assert_eq!(*other.tcp_disconnector(), 9);
    assert_eq!(other.send_data(&[8], false), 1);
    assert_eq!(writer_rx.try_recv(), Ok(data(&[8])));
    // The channels stay connected while one descriptor is left.
    drop(d);
    assert_eq!(other.send_data(&[9], false), 1);
    assert_eq!(writer_rx.try_recv(), Ok(data(&[9])));
    drop(other);
    assert!(writer_rx.recv().is_err());
}

#[test]
fn equality_is_by_connection() {
    let (a, _ra, _wa) = descriptor(1, 1);
    let (b, _rb, _wb) = descriptor(1, 2);
    let (c, _rc, _wc) = descriptor(2, 1);
    assert!(a == a);
    assert!(a == b && b == a);
    assert!(a != c && c != a);
}

fn hash_of<T: Hash>(value: &T) -> u64 {
    let mut hasher = DefaultHasher::new();
    value.hash(&mut hasher);
    hasher.finish()
}

#[test]
fn equal_descriptors_hash_alike() {
    let (a, _ra, _wa) = descriptor(1, 1);
    let (b, _rb, _wb) = descriptor(1, 2);
    let (c, _rc, _wc) = descriptor(2, 1);
    assert_eq!(hash_of(&a), hash_of(&b));
    assert_eq!(hash_of(&a), hash_of(&1u64));
    assert_ne!(hash_of(&a), hash_of(&c));
    let mut known = HashSet::new();
    assert!(known.insert(a));
    assert!(!known.insert(b));
    assert!(known.insert(c));
    assert_eq!(known.len(), 2);
}
