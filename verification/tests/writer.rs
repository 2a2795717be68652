use crossbeam::channel::{bounded, Sender};
use lightning_net::channel::Signal;
use lightning_net::commands::WriterCommand;
use lightning_net::writer::{WriteError, Writer, WriterAction, WriterEvent};

fn writer(cap: usize) -> (Sender<WriterCommand>, Writer) {
    let (tx, rx) = bounded(cap);
    (tx, Writer::new(rx))
}

fn data(bytes: &[u8]) -> WriterCommand {
    WriterCommand::WriteData(bytes.to_vec())
}

#[test]
fn a_new_writer_has_nothing_to_write() {
    let (_tx, w) = writer(1);
    assert_eq!(w.pending(), None);
}

#[test]
fn data_is_written_in_parts() {
    let (tx, mut w) = writer(1);
    tx.send(data(&[1, 2, 3, 4, 5])).unwrap();
    assert_eq!(w.next(WriterEvent::Turn), WriterAction::NextTurn);
    assert_eq!(w.pending(), Some(&[1u8, 2, 3, 4, 5][..]));
    assert_eq!(w.next(WriterEvent::Turn), WriterAction::Write);
    assert_eq!(w.next(WriterEvent::Wrote(2)), WriterAction::NextTurn);
    assert_eq!(w.pending(), Some(&[3u8, 4, 5][..]));
    assert_eq!(w.next(WriterEvent::Turn), WriterAction::Write);
    assert_eq!(w.next(WriterEvent::Wrote(1)), WriterAction::NextTurn);
    assert_eq!(w.pending(), Some(&[4u8, 5][..]));
    assert_eq!(w.next(WriterEvent::Wrote(2)), WriterAction::NextTurn);
    assert_eq!(w.pending(), None);
}

#[test]
fn nothing_written_shuts_down() {
    let (tx, mut w) = writer(1);
    tx.send(data(&[1, 2])).unwrap();
    assert_eq!(w.next(WriterEvent::Turn), WriterAction::NextTurn);
    assert_eq!(w.next(WriterEvent::Wrote(0)), WriterAction::Shutdown);
}

#[test]
fn timeouts_and_interruptions_are_retried() {
    let (tx, mut w) = writer(1);
    tx.send(data(&[1, 2])).unwrap();
    assert_eq!(w.next(WriterEvent::Turn), WriterAction::NextTurn);
    for error in [WriteError::TimedOut, WriteError::Interrupted] {
        assert_eq!(w.next(WriterEvent::WriteFailed(error)), WriterAction::NextTurn);
        assert_eq!(w.next(WriterEvent::Turn), WriterAction::Write);
        assert_eq!(w.pending(), Some(&[1u8, 2][..]));
    }
}

#[test]
fn other_errors_shut_down() {
    let (tx, mut w) = writer(1);
    tx.send(data(&[1, 2])).unwrap();
    assert_eq!(w.next(WriterEvent::Turn), WriterAction::NextTurn);
    assert_eq!(
        w.next(WriterEvent::WriteFailed(WriteError::Other)),
        WriterAction::Shutdown
    );
    assert_eq!(w.write_failed(WriteError::Other), WriterAction::Shutdown);
}

#[test]
fn empty_data_leaves_nothing_to_write() {
    let (tx, mut w) = writer(2);
    tx.send(data(&[])).unwrap();
    tx.send(data(&[6])).unwrap();
    assert_eq!(w.next(WriterEvent::Turn), WriterAction::NextTurn);
    assert_eq!(w.pending(), None);
    assert_eq!(w.next(WriterEvent::Turn), WriterAction::NextTurn);
    assert_eq!(w.pending(), Some(&[6u8][..]));
}

#[test]
fn a_disconnected_channel_is_drained_first() {
    let (tx, mut w) = writer(1);
    tx.send(data(&[1])).unwrap();
    drop(tx);
    assert_eq!(w.next(WriterEvent::Turn), WriterAction::NextTurn);
    assert_eq!(w.next(WriterEvent::Turn), WriterAction::Write);
    assert_eq!(w.next(WriterEvent::Wrote(1)), WriterAction::NextTurn);
    assert_eq!(w.next(WriterEvent::Turn), WriterAction::Shutdown);
}

#[test]
fn signals_are_taken_in() {
    let (_tx, mut w) = writer(1);
    assert_eq!(w.receive(Signal::Received(data(&[]))), WriterAction::NextTurn);
    assert_eq!(w.pending(), None);
    assert_eq!(w.receive(Signal::Disconnected), WriterAction::Shutdown);
    assert_eq!(w.receive(Signal::Received(data(&[7, 8]))), WriterAction::NextTurn);
    assert_eq!(w.wrote(1), WriterAction::NextTurn);
    assert_eq!(w.pending(), Some(&[8u8][..]));
    assert_eq!(w.wrote(1), WriterAction::NextTurn);
    assert_eq!(w.pending(), None);
}

#[test]
fn all_bytes_are_written_in_order() {
    let (tx, mut w) = writer(8);
    let payloads: [&[u8]; 4] = [&[1, 2, 3], &[], &[4], &[5, 6, 7, 8, 9]];
    for payload in payloads {
        tx.send(data(payload)).unwrap();
    }
    drop(tx);
    // A socket that takes two bytes at a time and times out now and then.
    let mut written = Vec::new();
    let mut attempts = 0;
    let mut event = WriterEvent::Turn;
    loop {
        event = match w.next(event) {
            WriterAction::NextTurn => WriterEvent::Turn,
            WriterAction::Write => {
                attempts += 1;
                let pending = w.pending().unwrap();
                if attempts % 3 == 0 {
                    WriterEvent::WriteFailed(WriteError::TimedOut)
                } else {
                    let count = pending.len().min(2);
                    written.extend_from_slice(&pending[..count]);
                    WriterEvent::Wrote(count)
                }
            }
            WriterAction::Shutdown => break,
        };
    }
    assert_eq!(written, vec![1, 2, 3, 4, 5, 6, 7, 8, 9]);
    assert_eq!(w.pending(), None);
}
