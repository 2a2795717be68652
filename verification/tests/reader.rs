use crossbeam::channel::{unbounded, Sender};
use lightning_net::channel::Signal;
use lightning_net::commands::ReaderCommand;
use lightning_net::reader::{Reader, ReaderAction, ReaderEvent, ReaderReport, READ_BUFFER_SIZE};

fn reader() -> (Sender<ReaderCommand>, Reader) {
    let (tx, rx) = unbounded();
    (tx, Reader::new(rx))
}

fn report(report: ReaderReport) -> ReaderEvent {
    ReaderEvent::Report(report)
}

#[test]
fn the_read_buffer_is_8_kib() {
    assert_eq!(READ_BUFFER_SIZE, 8192);
}

#[test]
fn a_new_reader_reads() {
    let (_tx, mut r) = reader();
    assert!(!r.read_paused());
    assert_eq!(r.next(ReaderEvent::Turn), ReaderAction::Read);
}

#[test]
fn bytes_go_to_the_peer_manager() {
    let (_tx, mut r) = reader();
    assert_eq!(
        r.next(report(ReaderReport::BytesRead(17))),
        ReaderAction::ReadEvent { len: 17 }
    );
    assert_eq!(
        r.next(report(ReaderReport::EventHandled { pause_read: false })),
        ReaderAction::ProcessEvents
    );
    assert!(!r.read_paused());
    assert_eq!(r.next(ReaderEvent::Turn), ReaderAction::Read);
}

#[test]
fn the_peer_disconnecting_shuts_down() {
    let (_tx, mut r) = reader();
    assert_eq!(r.next(report(ReaderReport::BytesRead(0))), ReaderAction::Shutdown);
    assert_eq!(r.next(report(ReaderReport::ReadFailed)), ReaderAction::Shutdown);
}

#[test]
fn a_rejected_event_shuts_down() {
    let (_tx, mut r) = reader();
    assert_eq!(r.next(report(ReaderReport::EventRejected)), ReaderAction::Shutdown);
}

#[test]
fn the_peer_manager_can_pause_reads() {
    let (tx, mut r) = reader();
    assert_eq!(
        r.next(report(ReaderReport::EventHandled { pause_read: true })),
        ReaderAction::ProcessEvents
    );
    assert!(r.read_paused());
    // A later event that does not ask for a pause does not resume reads.
    assert_eq!(
        r.next(report(ReaderReport::EventHandled { pause_read: false })),
        ReaderAction::ProcessEvents
    );
    assert!(r.read_paused());
    tx.send(ReaderCommand::ResumeRead).unwrap();
    assert_eq!(r.next(ReaderEvent::Turn), ReaderAction::Read);
    assert!(!r.read_paused());
}

#[test]
fn a_paused_reader_waits_for_the_command_to_resume() {
    let (tx, mut r) = reader();
    tx.send(ReaderCommand::PauseRead).unwrap();
    tx.send(ReaderCommand::PauseRead).unwrap();
    tx.send(ReaderCommand::PauseRead).unwrap();
    tx.send(ReaderCommand::ResumeRead).unwrap();
    assert_eq!(r.next(ReaderEvent::Turn), ReaderAction::NextTurn);
    assert!(r.read_paused());
    assert_eq!(r.next(ReaderEvent::Turn), ReaderAction::NextTurn);
    assert!(!r.read_paused());
    assert_eq!(r.next(ReaderEvent::Turn), ReaderAction::Read);
}

#[test]
fn a_disconnected_channel_shuts_down() {
    let (tx, mut r) = reader();
    tx.send(ReaderCommand::PauseRead).unwrap();
    drop(tx);
    // The command is found first; the wait then finds the channel disconnected.
    assert_eq!(r.next(ReaderEvent::Turn), ReaderAction::Shutdown);
    assert!(r.read_paused());
    assert_eq!(r.next(ReaderEvent::Turn), ReaderAction::Shutdown);
}

#[test]
fn commands_are_handled_without_blocking() {
    let (tx, mut r) = reader();
    assert!(!r.handle_command(false));
    assert!(!r.read_paused());
    tx.send(ReaderCommand::PauseRead).unwrap();
    assert!(!r.handle_command(false));
    assert!(r.read_paused());
    assert!(!r.handle_command(false));
    assert!(r.read_paused());
    tx.send(ReaderCommand::ResumeRead).unwrap();
    assert!(!r.handle_command(false));
    assert!(!r.read_paused());
    drop(tx);
    assert!(r.handle_command(false));
}

#[test]
fn commands_are_handled_blocking() {
    let (tx, mut r) = reader();
    tx.send(ReaderCommand::PauseRead).unwrap();
    assert!(!r.handle_command(true));
    assert!(r.read_paused());
    tx.send(ReaderCommand::ResumeRead).unwrap();
    assert!(!r.handle_command(true));
    assert!(!r.read_paused());
    drop(tx);
    assert!(r.handle_command(true));
}

#[test]
fn reader_signals_are_taken_in() {
    let (_tx, mut r) = reader();
    assert!(!r.apply(Signal::Received(ReaderCommand::PauseRead)));
    assert!(r.read_paused());
    assert!(!r.apply(Signal::Empty));
    assert!(r.read_paused());
    assert!(r.apply(Signal::Disconnected));
    assert!(r.read_paused());
    assert!(!r.apply(Signal::Received(ReaderCommand::ResumeRead)));
    assert!(!r.read_paused());
}

#[test]
fn a_reading_thread_pauses_and_resumes() {
    let (tx, mut r) = reader();
    // A turn reads, the bytes are handed on, and the peer manager asks for a pause.
    assert_eq!(r.next(ReaderEvent::Turn), ReaderAction::Read);
    assert_eq!(
        r.next(report(ReaderReport::BytesRead(8192))),
        ReaderAction::ReadEvent { len: 8192 }
    );
    tx.send(ReaderCommand::PauseRead).unwrap();
    tx.send(ReaderCommand::PauseRead).unwrap();
    assert_eq!(
        r.next(report(ReaderReport::EventHandled { pause_read: true })),
        ReaderAction::ProcessEvents
    );
    // No command was taken for that; the next turn takes both, and does not read.
    assert_eq!(r.next(ReaderEvent::Turn), ReaderAction::NextTurn);
    assert!(r.read_paused());
    // The command to resume ends the wait, and the turn after it reads.
    tx.send(ReaderCommand::PauseRead).unwrap();
    tx.send(ReaderCommand::ResumeRead).unwrap();
    assert_eq!(r.next(ReaderEvent::Turn), ReaderAction::NextTurn);
    assert!(!r.read_paused());
    assert_eq!(r.next(ReaderEvent::Turn), ReaderAction::Read);
    assert_eq!(r.next(report(ReaderReport::BytesRead(1))), ReaderAction::ReadEvent { len: 1 });
    assert_eq!(r.next(report(ReaderReport::EventRejected)), ReaderAction::Shutdown);
}

#[test]
fn events_are_processed_only_after_a_handled_event() {
    let (tx, mut r) = reader();
    let handled = ReaderReport::EventHandled { pause_read: false };
    assert_eq!(r.next(report(handled)), ReaderAction::ProcessEvents);
    for other in [
        ReaderReport::BytesRead(0),
        ReaderReport::BytesRead(3),
        ReaderReport::ReadFailed,
        ReaderReport::EventRejected,
    ] {
        assert_ne!(r.next(report(other)), ReaderAction::ProcessEvents);
    }
    assert_ne!(r.next(ReaderEvent::Turn), ReaderAction::ProcessEvents);
    // A report takes no command from the channel.
    tx.send(ReaderCommand::PauseRead).unwrap();
    assert_eq!(r.next(report(handled)), ReaderAction::ProcessEvents);
    assert!(!r.read_paused());
    assert_eq!(tx.len(), 1);
}
