use repo_sync::handshake::{ConnDirection, HandshakeAction, HandshakeEvent, HandshakeState};
use repo_sync::identity::{DocumentId, RepoId};
use repo_sync::message::{ErrorKind, Message, NetworkError, RepoMessage};
use repo_sync::version::ProtocolVersion;

fn repo(name: &str) -> RepoId {
    RepoId::new(name.as_bytes().to_vec())
}

fn sync(from: &str, to: &str) -> RepoMessage {
    RepoMessage::Sync {
        from_repo_id: repo(from),
        to_repo_id: repo(to),
        document_id: DocumentId::new(repo(from), 1),
        message: vec![1, 2, 3],
    }
}

#[test]
fn incoming_waits_for_join_first() {
    let (state, action) =
        HandshakeState::begin(ConnDirection::Incoming, repo("b"), vec![ProtocolVersion::V1]);
    assert_eq!(action, HandshakeAction::Receive);
    assert_eq!(
        state,
        HandshakeState::AwaitingJoin { local: repo("b"), supported: vec![ProtocolVersion::V1] }
    );
    assert!(!state.is_settled());
}

#[test]
fn outgoing_opens_with_join() {
    let (state, action) =
        HandshakeState::begin(ConnDirection::Outgoing, repo("a"), vec![ProtocolVersion::V1]);
    assert_eq!(
        action,
        HandshakeAction::Send(Message::Join {
            sender: repo("a"),
            supported_protocol_versions: vec![ProtocolVersion::V1],
        })
    );
    assert_eq!(state, HandshakeState::SendingJoin { announced: vec![ProtocolVersion::V1] });
}

#[test]
fn incoming_answers_join_with_peer() {
    let (state, _) =
        HandshakeState::begin(ConnDirection::Incoming, repo("b"), vec![ProtocolVersion::V1]);
    let join = Message::Join {
        sender: repo("a"),
        supported_protocol_versions: vec![ProtocolVersion::V1],
    };
    let (state, action) = state.step(HandshakeEvent::Received(join));
    assert_eq!(
        action,
        HandshakeAction::Send(Message::Peer {
            sender: repo("b"),
            selected_protocol_version: ProtocolVersion::V1,
        })
    );
    assert_eq!(
        state,
        HandshakeState::SendingPeer { remote: repo("a"), selected: ProtocolVersion::V1 }
    );
    let (state, action) = state.step(HandshakeEvent::Sent);
    assert_eq!(action, HandshakeAction::Install);
    assert_eq!(
        state,
        HandshakeState::Established { remote: repo("a"), version: ProtocolVersion::V1 }
    );
    assert!(state.is_settled());
}

#[test]
fn outgoing_accepts_peer() {
    let (state, _) =
        HandshakeState::begin(ConnDirection::Outgoing, repo("a"), vec![ProtocolVersion::V1]);
    let (state, action) = state.step(HandshakeEvent::Sent);
    assert_eq!(action, HandshakeAction::Receive);
    assert_eq!(state, HandshakeState::AwaitingPeer { announced: vec![ProtocolVersion::V1] });
    let peer = Message::Peer { sender: repo("b"), selected_protocol_version: ProtocolVersion::V1 };
    let (state, action) = state.step(HandshakeEvent::Received(peer));
    assert_eq!(action, HandshakeAction::Install);
    assert_eq!(
        state,
        HandshakeState::Established { remote: repo("b"), version: ProtocolVersion::V1 }
    );
}

#[test]
fn handshake_version_mismatch_is_incompatible() {
    let (state, _) =
        HandshakeState::begin(ConnDirection::Incoming, repo("b"), vec![ProtocolVersion::V1]);
    let join = Message::Join {
        sender: repo("a"),
        supported_protocol_versions: vec![ProtocolVersion::Unknown(2)],
    };
    let (state, action) = state.step(HandshakeEvent::Received(join));
    assert_eq!(action, HandshakeAction::Close);
    assert_eq!(state, HandshakeState::Failed { reason: NetworkError::Incompatible });
    assert_eq!(NetworkError::Incompatible.kind(), ErrorKind::Incompatible);
    assert!(state.is_settled());
}

#[test]
fn caller_of_incompatible_responder_finds_channel_closed() {
    let (state, _) = HandshakeState::begin(
        ConnDirection::Outgoing,
        repo("a"),
        vec![ProtocolVersion::Unknown(2)],
    );
    let (state, _) = state.step(HandshakeEvent::Sent);
    let (state, action) = state.step(HandshakeEvent::StreamEnded);
    assert_eq!(action, HandshakeAction::Close);
    assert_eq!(state, HandshakeState::Failed { reason: NetworkError::Closed });
}

#[test]
fn empty_join_is_incompatible() {
    let (state, _) =
        HandshakeState::begin(ConnDirection::Incoming, repo("b"), vec![ProtocolVersion::V1]);
    let join = Message::Join { sender: repo("a"), supported_protocol_versions: vec![] };
    let (state, _) = state.step(HandshakeEvent::Received(join));
    assert_eq!(state, HandshakeState::Failed { reason: NetworkError::Incompatible });
}

#[test]
fn unexpected_traffic_before_join_is_protocol_error() {
    let (state, _) =
        HandshakeState::begin(ConnDirection::Incoming, repo("b"), vec![ProtocolVersion::V1]);
    let (state, action) = state.step(HandshakeEvent::Received(Message::Repo(sync("a", "b"))));
    assert_eq!(action, HandshakeAction::Close);
    assert_eq!(state, HandshakeState::Failed { reason: NetworkError::UnexpectedMessage });
    assert_eq!(NetworkError::UnexpectedMessage.kind(), ErrorKind::ProtocolError);
}

#[test]
fn incoming_rejects_peer_message() {
    let (state, _) =
        HandshakeState::begin(ConnDirection::Incoming, repo("b"), vec![ProtocolVersion::V1]);
    let peer = Message::Peer { sender: repo("a"), selected_protocol_version: ProtocolVersion::V1 };
    let (state, _) = state.step(HandshakeEvent::Received(peer));
    assert_eq!(state, HandshakeState::Failed { reason: NetworkError::UnexpectedMessage });
}

#[test]
fn outgoing_rejects_join_message() {
    let (state, _) =
        HandshakeState::begin(ConnDirection::Outgoing, repo("a"), vec![ProtocolVersion::V1]);
    let (state, _) = state.step(HandshakeEvent::Sent);
    let join = Message::Join {
        sender: repo("b"),
        supported_protocol_versions: vec![ProtocolVersion::V1],
    };
    let (state, action) = state.step(HandshakeEvent::Received(join));
    assert_eq!(action, HandshakeAction::Close);
    assert_eq!(state, HandshakeState::Failed { reason: NetworkError::UnexpectedMessage });
}

#[test]
fn outgoing_rejects_version_it_did_not_announce() {
    let (state, _) =
        HandshakeState::begin(ConnDirection::Outgoing, repo("a"), vec![ProtocolVersion::V1]);
    let (state, _) = state.step(HandshakeEvent::Sent);
    let peer = Message::Peer {
        sender: repo("b"),
        selected_protocol_version: ProtocolVersion::Unknown(9),
    };
    let (state, _) = state.step(HandshakeEvent::Received(peer));
    assert_eq!(state, HandshakeState::Failed { reason: NetworkError::Incompatible });
}

#[test]
fn message_that_arrives_while_sending_is_out_of_sequence() {
    let (state, _) =
        HandshakeState::begin(ConnDirection::Outgoing, repo("a"), vec![ProtocolVersion::V1]);
    let peer = Message::Peer { sender: repo("b"), selected_protocol_version: ProtocolVersion::V1 };
    let (state, _) = state.step(HandshakeEvent::Received(peer));
    assert_eq!(state, HandshakeState::Failed { reason: NetworkError::UnexpectedMessage });
}

#[test]
fn stream_end_before_join_is_closed() {
    let (state, _) =
        HandshakeState::begin(ConnDirection::Incoming, repo("b"), vec![ProtocolVersion::V1]);
    let (state, action) = state.step(HandshakeEvent::StreamEnded);
    assert_eq!(action, HandshakeAction::Close);
    assert_eq!(state, HandshakeState::Failed { reason: NetworkError::Closed });
    assert_eq!(NetworkError::Closed.kind(), ErrorKind::TransportError);
}

#[test]
fn receive_failure_is_transport_error() {
    let (state, _) =
        HandshakeState::begin(ConnDirection::Incoming, repo("b"), vec![ProtocolVersion::V1]);
    let (state, _) = state.step(HandshakeEvent::ReceiveFailed);
    assert_eq!(state, HandshakeState::Failed { reason: NetworkError::TransportError });
    assert_eq!(NetworkError::TransportError.kind(), ErrorKind::TransportError);
}

#[test]
fn send_failure_is_transport_error() {
    let (state, _) =
        HandshakeState::begin(ConnDirection::Outgoing, repo("a"), vec![ProtocolVersion::V1]);
    let (state, action) = state.step(HandshakeEvent::SendFailed);
    assert_eq!(action, HandshakeAction::Close);
    assert_eq!(state, HandshakeState::Failed { reason: NetworkError::TransportError });
}

#[test]
fn stray_sent_report_keeps_waiting() {
    let (state, _) =
        HandshakeState::begin(ConnDirection::Incoming, repo("b"), vec![ProtocolVersion::V1]);
    let (state, action) = state.step(HandshakeEvent::Sent);
    assert_eq!(action, HandshakeAction::Receive);
    assert_eq!(
        state,
        HandshakeState::AwaitingJoin { local: repo("b"), supported: vec![ProtocolVersion::V1] }
    );
}

#[test]
fn settled_handshake_stays_as_it_is() {
    let established =
        HandshakeState::Established { remote: repo("a"), version: ProtocolVersion::V1 };
    let (state, action) = established.clone().step(HandshakeEvent::StreamEnded);
    assert_eq!(state, established);
    assert_eq!(action, HandshakeAction::Install);
    let failed = HandshakeState::Failed { reason: NetworkError::Incompatible };
    let (state, action) = failed.clone().step(HandshakeEvent::Sent);
    assert_eq!(state, failed);
    assert_eq!(action, HandshakeAction::Close);
    let (state, action) = state.step(HandshakeEvent::Received(Message::Repo(sync("a", "b"))));
    assert_eq!(state, failed);
    assert_eq!(action, HandshakeAction::Close);
}

#[test]
fn incoming_selects_highest_shared_version() {
    let (state, _) = HandshakeState::begin(
        ConnDirection::Incoming,
        repo("b"),
        vec![ProtocolVersion::V1, ProtocolVersion::Unknown(2), ProtocolVersion::Unknown(5)],
    );
    let join = Message::Join {
        sender: repo("a"),
        supported_protocol_versions: vec![
            ProtocolVersion::Unknown(2),
            ProtocolVersion::Unknown(7),
            ProtocolVersion::V1,
        ],
    };
    let (state, action) = state.step(HandshakeEvent::Received(join));
    assert_eq!(
        action,
        HandshakeAction::Send(Message::Peer {
            sender: repo("b"),
            selected_protocol_version: ProtocolVersion::Unknown(2),
        })
    );
    assert_eq!(
        state,
        HandshakeState::SendingPeer { remote: repo("a"), selected: ProtocolVersion::Unknown(2) }
    );
}

#[test]
fn two_sides_agree_over_a_faithful_channel() {
    let (caller, opening) =
        HandshakeState::begin(ConnDirection::Outgoing, repo("a"), vec![ProtocolVersion::V1]);
    let (responder, waiting) =
        HandshakeState::begin(ConnDirection::Incoming, repo("b"), vec![ProtocolVersion::V1]);
    assert_eq!(waiting, HandshakeAction::Receive);
    let join = match opening {
        HandshakeAction::Send(m) => m,
        other => panic!("expected a send, got {:?}", other),
    };
    let (caller, _) = caller.step(HandshakeEvent::Sent);
    let (responder, answer) = responder.step(HandshakeEvent::Received(join));
    let peer = match answer {
        HandshakeAction::Send(m) => m,
        other => panic!("expected a send, got {:?}", other),
    };
    let (responder, _) = responder.step(HandshakeEvent::Sent);
    let (caller, _) = caller.step(HandshakeEvent::Received(peer));
    assert_eq!(
        caller,
        HandshakeState::Established { remote: repo("b"), version: ProtocolVersion::V1 }
    );
    assert_eq!(
        responder,
        HandshakeState::Established { remote: repo("a"), version: ProtocolVersion::V1 }
    );
}
