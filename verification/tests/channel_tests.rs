use repo_sync::channel::{inbound, outbound, Delivery, Outbox};
use repo_sync::identity::{bytes_copy, bytes_equal, DocumentId, RepoId};
use repo_sync::message::{Message, NetworkError, RepoMessage};
use repo_sync::version::{select_version, supports, ProtocolVersion};

fn repo(name: &str) -> RepoId {
    RepoId::new(name.as_bytes().to_vec())
}

fn sync(from: &str, to: &str, payload: Vec<u8>) -> RepoMessage {
    RepoMessage::Sync {
        from_repo_id: repo(from),
        to_repo_id: repo(to),
        document_id: DocumentId::new(repo(from), 1),
        message: payload,
    }
}

fn ephemeral(from: &str, to: &str) -> RepoMessage {
    RepoMessage::Ephemeral {
        from_repo_id: repo(from),
        to_repo_id: repo(to),
        document_id: DocumentId::new(repo(from), 1),
        message: vec![9],
    }
}

#[test]
fn inbound_lets_repo_messages_in() {
    let got = inbound(Delivery::Frame(Message::Repo(sync("a", "b", vec![1]))));
    assert_eq!(got, Ok(sync("a", "b", vec![1])));
    let got = inbound(Delivery::Frame(Message::Repo(ephemeral("a", "b"))));
    assert_eq!(got, Ok(ephemeral("a", "b")));
}

#[test]
fn inbound_rejects_other_messages() {
    let join = Message::Join {
        sender: repo("a"),
        supported_protocol_versions: vec![ProtocolVersion::V1],
    };
    assert_eq!(inbound(Delivery::Frame(join)), Err(NetworkError::UnexpectedMessage));
    let peer = Message::Peer { sender: repo("a"), selected_protocol_version: ProtocolVersion::V1 };
    assert_eq!(inbound(Delivery::Frame(peer)), Err(NetworkError::UnexpectedMessage));
    let leave = Message::Leave { sender: repo("a") };
    assert_eq!(inbound(Delivery::Frame(leave)), Err(NetworkError::UnexpectedMessage));
}

#[test]
fn inbound_passes_transport_failure_on() {
    assert_eq!(inbound(Delivery::Failure), Err(NetworkError::TransportError));
}

#[test]
fn outbound_frames_sync_and_drops_the_rest() {
    assert_eq!(
        outbound(sync("a", "b", vec![4, 5])),
        Some(Message::Repo(sync("a", "b", vec![4, 5])))
    );
    assert_eq!(outbound(ephemeral("a", "b")), None);
}

#[test]
fn outbox_hands_out_in_order() {
    let mut q = Outbox::new(4);
    assert_eq!(q.len(), 0);
    assert_eq!(q.take(), None);
    assert_eq!(q.offer(sync("a", "b", vec![1])), None);
    assert_eq!(q.offer(sync("a", "b", vec![2])), None);
    assert_eq!(q.offer(sync("a", "b", vec![3])), None);
    assert_eq!(q.len(), 3);
    assert_eq!(q.take(), Some(Message::Repo(sync("a", "b", vec![1]))));
    assert_eq!(q.offer(sync("a", "b", vec![4])), None);
    assert_eq!(q.take(), Some(Message::Repo(sync("a", "b", vec![2]))));
    assert_eq!(q.take(), Some(Message::Repo(sync("a", "b", vec![3]))));
    assert_eq!(q.take(), Some(Message::Repo(sync("a", "b", vec![4]))));
    assert_eq!(q.take(), None);
    assert_eq!(q.len(), 0);
}

#[test]
fn full_outbox_hands_the_message_back() {
    let mut q = Outbox::new(2);
    assert!(!q.is_full());
    assert_eq!(q.offer(sync("a", "b", vec![1])), None);
    assert_eq!(q.offer(sync("a", "b", vec![2])), None);
    assert!(q.is_full());
    assert_eq!(q.offer(sync("a", "b", vec![3])), Some(sync("a", "b", vec![3])));
    assert_eq!(q.len(), 2);
    assert_eq!(q.take(), Some(Message::Repo(sync("a", "b", vec![1]))));
    assert!(!q.is_full());
    assert_eq!(q.offer(sync("a", "b", vec![3])), None);
    assert_eq!(q.take(), Some(Message::Repo(sync("a", "b", vec![2]))));
    assert_eq!(q.take(), Some(Message::Repo(sync("a", "b", vec![3]))));
}

#[test]
fn outbox_without_room_refuses_every_sync_message() {
    let mut q = Outbox::new(0);
    assert!(q.is_full());
    assert_eq!(q.offer(sync("a", "b", vec![1])), Some(sync("a", "b", vec![1])));
    assert_eq!(q.take(), None);
}

#[test]
fn outbox_drops_what_is_no_sync_message() {
    let mut q = Outbox::new(1);
    assert_eq!(q.offer(ephemeral("a", "b")), None);
    assert_eq!(q.len(), 0);
    assert_eq!(q.offer(sync("a", "b", vec![1])), None);
    assert_eq!(q.offer(ephemeral("a", "b")), None);
    assert_eq!(q.len(), 1);
    assert_eq!(q.take(), Some(Message::Repo(sync("a", "b", vec![1]))));
}

#[test]
fn select_version_picks_the_highest_shared() {
    let v1 = ProtocolVersion::V1;
    let v2 = ProtocolVersion::Unknown(2);
    let v3 = ProtocolVersion::Unknown(3);
    assert_eq!(select_version(&vec![v1], &vec![v1]), Some(v1));
    assert_eq!(select_version(&vec![v1, v2], &vec![v2, v1]), Some(v2));
    assert_eq!(select_version(&vec![v2, v1], &vec![v1, v2]), Some(v2));
    assert_eq!(select_version(&vec![v1, v2, v3], &vec![v3, v1]), Some(v3));
    assert_eq!(select_version(&vec![v1, v3], &vec![v2, v1]), Some(v1));
    assert_eq!(select_version(&vec![v1], &vec![v2]), None);
    assert_eq!(select_version(&vec![], &vec![v1]), None);
    assert_eq!(select_version(&vec![v1], &vec![]), None);
    assert_eq!(select_version(&vec![v1, v1], &vec![v1, v1]), Some(v1));
}

#[test]
fn select_version_does_not_depend_on_the_side() {
    let a = vec![ProtocolVersion::V1, ProtocolVersion::Unknown(4), ProtocolVersion::Unknown(6)];
    let b = vec![ProtocolVersion::Unknown(6), ProtocolVersion::Unknown(4)];
    assert_eq!(select_version(&a, &b), Some(ProtocolVersion::Unknown(6)));
    assert_eq!(select_version(&b, &a), Some(ProtocolVersion::Unknown(6)));
}

#[test]
fn versions_are_ranked_in_their_order() {
    assert_eq!(ProtocolVersion::V1.rank(), 0);
    assert_eq!(ProtocolVersion::Unknown(0).rank(), 1);
    assert_eq!(ProtocolVersion::Unknown(2).rank(), 3);
    assert_eq!(ProtocolVersion::Unknown(u32::MAX).rank(), 4294967296);
}

#[test]
fn supports_finds_a_listed_version() {
    let list = vec![ProtocolVersion::V1, ProtocolVersion::Unknown(3)];
    assert!(supports(&list, ProtocolVersion::V1));
    assert!(supports(&list, ProtocolVersion::Unknown(3)));
    assert!(!supports(&list, ProtocolVersion::Unknown(2)));
    assert!(!supports(&vec![], ProtocolVersion::V1));
}

#[test]
fn repo_ids_compare_by_bytes() {
    assert!(repo("alpha").same(&repo("alpha")));
    assert!(!repo("alpha").same(&repo("alphb")));
    assert!(!repo("alpha").same(&repo("alph")));
    assert!(repo("").same(&repo("")));
    assert_eq!(repo("alpha").duplicate(), repo("alpha"));
    assert_eq!(repo("xy").as_bytes(), &vec![120u8, 121u8]);
}

#[test]
fn bytes_are_compared_and_copied() {
    assert!(bytes_equal(&vec![1, 2, 3], &vec![1, 2, 3]));
    assert!(!bytes_equal(&vec![1, 2, 3], &vec![1, 2, 4]));
    assert!(!bytes_equal(&vec![1, 2, 3], &vec![1, 2]));
    assert_eq!(bytes_copy(&vec![7, 8, 9]), vec![7, 8, 9]);
    assert_eq!(bytes_copy(&vec![]), Vec::<u8>::new());
}

#[test]
fn document_id_carries_its_repo() {
    let d = DocumentId::new(repo("owner"), 42);
    assert_eq!(d.repo_id(), &repo("owner"));
    assert!(d.same(&DocumentId::new(repo("owner"), 42)));
    assert!(!d.same(&DocumentId::new(repo("owner"), 43)));
    assert!(!d.same(&DocumentId::new(repo("other"), 42)));
    assert_eq!(d.duplicate(), d);
}
