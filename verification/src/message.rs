//! The messages that travel on a channel, and the errors a channel ends with.

use vstd::prelude::*;
use crate::identity::{DocumentId, DocumentKey, RepoId};
use crate::version::ProtocolVersion;

verus! {

/// Why a channel was given up.
#[derive(Debug, Clone, Copy, PartialEq, Eq, Structural, Hash)]
pub enum NetworkError {
    /// A message arrived that the protocol does not allow at that point.
    UnexpectedMessage,
    /// The two sides share no protocol version.
    Incompatible,
    /// The transport failed to send or to receive.
    TransportError,
    /// The stream of incoming messages ended too early.
    Closed,
}

/// The broad kind of a failure, by which the event loop decides what to do.
#[derive(Debug, Clone, Copy, PartialEq, Eq, Structural, Hash)]
pub enum ErrorKind {
    /// The underlying channel failed.
    TransportError,
    /// A message was malformed or out of sequence.
    ProtocolError,
    /// No protocol version is shared.
    Incompatible,
}

impl NetworkError {
    /// The kind of this failure.
    pub open spec fn spec_kind(self) -> ErrorKind {
        match self {
            NetworkError::UnexpectedMessage => ErrorKind::ProtocolError,
            NetworkError::Incompatible => ErrorKind::Incompatible,
            NetworkError::TransportError => ErrorKind::TransportError,
            NetworkError::Closed => ErrorKind::TransportError,
        }
    }

    /// The kind of this failure.
    pub fn kind(&self) -> (kind: ErrorKind)
        ensures
            kind == self.spec_kind(),
    {
        match self {
            NetworkError::UnexpectedMessage => ErrorKind::ProtocolError,
            NetworkError::Incompatible => ErrorKind::Incompatible,
            NetworkError::TransportError => ErrorKind::TransportError,
            NetworkError::Closed => ErrorKind::TransportError,
        }
    }
}

/// An application-level message between two repos. The payload is opaque:
/// it is carried, never read.
#[derive(Debug, Clone, PartialEq, Eq)]
pub enum RepoMessage {
    /// A step of the sync protocol for one document.
    Sync { from_repo_id: RepoId, to_repo_id: RepoId, document_id: DocumentId, message: Vec<u8> },
    /// A transient notice about one document, which is not stored.
    Ephemeral { from_repo_id: RepoId, to_repo_id: RepoId, document_id: DocumentId, message: Vec<u8> },
}

/// What a repo message stands for.
pub enum RepoMessageView {
    Sync { from: Seq<u8>, to: Seq<u8>, document: DocumentKey, payload: Seq<u8> },
    Ephemeral { from: Seq<u8>, to: Seq<u8>, document: DocumentKey, payload: Seq<u8> },
}

impl View for RepoMessage {
    type V = RepoMessageView;

    open spec fn view(&self) -> RepoMessageView {
        match *self {
            RepoMessage::Sync { from_repo_id, to_repo_id, document_id, message } => {
                RepoMessageView::Sync {
                    from: from_repo_id@,
                    to: to_repo_id@,
                    document: document_id@,
                    payload: message@,
                }
            },
            RepoMessage::Ephemeral { from_repo_id, to_repo_id, document_id, message } => {
                RepoMessageView::Ephemeral {
                    from: from_repo_id@,
                    to: to_repo_id@,
                    document: document_id@,
                    payload: message@,
                }
            },
        }
    }
}

/// A message as it travels on a channel.
#[derive(Debug, Clone, PartialEq, Eq)]
pub enum Message {
    /// Opens a handshake: who is calling, and the versions the caller speaks.
    Join { sender: RepoId, supported_protocol_versions: Vec<ProtocolVersion> },
    /// Announces that the sender is going away.
    Leave { sender: RepoId },
    /// Answers a `Join`: who answers, and the version chosen for the channel.
    Peer { sender: RepoId, selected_protocol_version: ProtocolVersion },
    /// Application traffic on an established channel.
    Repo(RepoMessage),
}

/// What a channel message stands for.
pub enum MessageView {
    Join { sender: Seq<u8>, supported: Seq<ProtocolVersion> },
    Leave { sender: Seq<u8> },
    Peer { sender: Seq<u8>, selected: ProtocolVersion },
    Repo(RepoMessageView),
}

impl View for Message {
    type V = MessageView;

    open spec fn view(&self) -> MessageView {
        match *self {
            Message::Join { sender, supported_protocol_versions } => MessageView::Join {
                sender: sender@,
                supported: supported_protocol_versions@,
            },
            Message::Leave { sender } => MessageView::Leave { sender: sender@ },
            Message::Peer { sender, selected_protocol_version } => MessageView::Peer {
                sender: sender@,
                selected: selected_protocol_version,
            },
            Message::Repo(inner) => MessageView::Repo(inner@),
        }
    }
}

} // verus!
