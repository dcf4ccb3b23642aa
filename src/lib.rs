//! Single-decree Paxos: the replica state machine, its wire format and the
//! command syntax of the interactive driver.

pub mod codec;
pub mod console;
pub mod paxos;

pub use crate::codec::{decode_frame, decode_header, decode_payload, Codec, FrameError};
pub use crate::console::{replica_ids, replica_port, Command, ParseCommandError};
pub use crate::paxos::{
    AcceptedProposal, Datagram, Incoming, Outgoing, Paxos, PaxosError, Request, Response,
    SequenceNumber, ValueType,
};
