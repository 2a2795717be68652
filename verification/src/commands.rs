//! The commands that travel from a socket descriptor to the two threads of its connection.

use vstd::prelude::*;

verus! {

/// Commands that can be sent to the [`Reader`](crate::reader::Reader).
#[derive(Debug, Clone, Copy, PartialEq, Eq, Structural)]
pub enum ReaderCommand {
    ResumeRead,
    PauseRead,
}

/// Commands that can be sent to the [`Writer`](crate::writer::Writer).
#[derive(Debug, PartialEq, Eq)]
pub enum WriterCommand {
    WriteData(Vec<u8>),
}

impl WriterCommand {
    /// The bytes that the command asks the writer to send to the peer.
    pub open spec fn payload(self) -> Seq<u8> {
        match self {
            WriterCommand::WriteData(data) => data@,
        }
    }
}

} // verus!
