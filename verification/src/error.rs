//! The failures the hub distinguishes, and what each of them calls for.
use vstd::prelude::*;

verus! {

/// Why the hub refused an operation or gave up on a peer.
#[derive(Debug, Clone, Copy, PartialEq, Eq, Structural)]
pub enum HubError {
    /// An inbound envelope could not be decoded.
    DecodeError,
    /// The room or target named does not exist.
    NotFound,
    /// A room with that identifier already exists.
    AlreadyExists,
    /// The user is banned from the room.
    Banned,
    /// A moderation command came from a user without moderator rights.
    Unauthorized,
    /// The content of a message exceeds the size bound.
    ContentTooLong,
    /// The connection is already associated with a room.
    AlreadyInRoom,
    /// A broadcast write to one recipient failed.
    PeerWriteFailure,
    /// The sender's own socket failed.
    TransportFailure,
}

/// What the transport loop does about a failure.
#[derive(Debug, Clone, Copy, PartialEq, Eq, Structural)]
pub enum Disposition {
    /// Tell the sender; the connection stays open.
    ReportToSender,
    /// Drop the failing recipient; nobody else is affected.
    EvictPeer,
    /// Clean up after the connection and end its task.
    CloseConnection,
}

impl HubError {
    /// How each kind of failure is contained.
    pub open spec fn spec_disposition(self) -> Disposition {
        match self {
            HubError::PeerWriteFailure => Disposition::EvictPeer,
            HubError::TransportFailure => Disposition::CloseConnection,
            _ => Disposition::ReportToSender,
        }
    }

    /// How this failure is contained. Only the failure of the sender's own
    /// socket ends a connection, and only a failed write evicts a peer.
    #[verifier::when_used_as_spec(spec_disposition)]
    pub fn disposition(self) -> (d: Disposition)
        ensures
            d == self.spec_disposition(),
    {
        match self {
            HubError::PeerWriteFailure => Disposition::EvictPeer,
            HubError::TransportFailure => Disposition::CloseConnection,
            _ => Disposition::ReportToSender,
        }
    }

    /// The text reported to a client for this failure.
    pub open spec fn spec_message(self) -> Seq<char> {
        match self {
            HubError::DecodeError => "Malformed message"@,
            HubError::NotFound => "Room not found"@,
            HubError::AlreadyExists => "Room already exists"@,
            HubError::Banned => "Banned from room"@,
            HubError::Unauthorized => "Not a moderator"@,
            HubError::ContentTooLong => "Message too long"@,
            HubError::AlreadyInRoom => "Already in a room"@,
            HubError::PeerWriteFailure => "Peer write failed"@,
            HubError::TransportFailure => "Transport failed"@,
        }
    }

    /// The text reported to a client for this failure.
    pub fn message(self) -> (text: String)
        ensures
            text@ == self.spec_message(),
    {
        match self {
            HubError::DecodeError => "Malformed message".to_owned(),
            HubError::NotFound => "Room not found".to_owned(),
            HubError::AlreadyExists => "Room already exists".to_owned(),
            HubError::Banned => "Banned from room".to_owned(),
            HubError::Unauthorized => "Not a moderator".to_owned(),
            HubError::ContentTooLong => "Message too long".to_owned(),
            HubError::AlreadyInRoom => "Already in a room".to_owned(),
            HubError::PeerWriteFailure => "Peer write failed".to_owned(),
            HubError::TransportFailure => "Transport failed".to_owned(),
        }
    }
}

} // verus!
