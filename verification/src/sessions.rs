//! The table of sync sessions: one session for each pair of a document and
//! a peer that have exchanged traffic, and the life of each session.

use vstd::prelude::*;
use crate::identity::{DocumentId, DocumentKey, RepoId};
use crate::message::{RepoMessage, RepoMessageView};

verus! {

/// Where a sync session stands.
#[derive(Debug, Clone, Copy, PartialEq, Eq, Structural, Hash)]
pub enum SessionPhase {
    /// Just created; nothing was exchanged yet.
    Fresh,
    /// Sync messages are being exchanged.
    Syncing,
    /// Nothing to send and nothing expected.
    Idle,
    /// The peer is gone or the document was removed.
    Closed,
}

/// What happens to a sync session.
#[derive(Debug, Clone, Copy, PartialEq, Eq, Structural, Hash)]
pub enum SessionEvent {
    /// A sync message was generated or received, or the document changed
    /// locally.
    Activity,
    /// The document library reports that nothing is to be sent and nothing
    /// is expected.
    Quiet,
    /// The peer disconnected or the document was removed.
    Close,
}

/// The next phase of a session. A fresh session starts to sync on its first
/// activity; a syncing session falls idle when all is quiet; an idle one
/// syncs again on new activity; a closed one stays closed.
pub open spec fn spec_next_phase(phase: SessionPhase, event: SessionEvent) -> SessionPhase {
    match (phase, event) {
        (SessionPhase::Closed, _) => SessionPhase::Closed,
        (_, SessionEvent::Close) => SessionPhase::Closed,
        (_, SessionEvent::Activity) => SessionPhase::Syncing,
        (SessionPhase::Syncing, SessionEvent::Quiet) => SessionPhase::Idle,
        (_, SessionEvent::Quiet) => phase,
    }
}

/// The next phase of a session.
pub fn next_phase(phase: SessionPhase, event: SessionEvent) -> (next: SessionPhase)
    ensures
        next == spec_next_phase(phase, event),
{
    match (phase, event) {
        (SessionPhase::Closed, _) => SessionPhase::Closed,
        (_, SessionEvent::Close) => SessionPhase::Closed,
        (_, SessionEvent::Activity) => SessionPhase::Syncing,
        (SessionPhase::Syncing, SessionEvent::Quiet) => SessionPhase::Idle,
        (p, SessionEvent::Quiet) => p,
    }
}

/// What names a session: the document and the peer.
pub struct SessionKey {
    pub document: DocumentKey,
    pub peer: Seq<u8>,
}

/// The sync session of one document with one peer.
#[derive(Debug, Clone, PartialEq, Eq)]
pub struct SyncSession {
    pub document: DocumentId,
    pub peer: RepoId,
    pub phase: SessionPhase,
}

impl SyncSession {
    /// The pair that this session belongs to.
    pub open spec fn key(&self) -> SessionKey {
        SessionKey { document: self.document@, peer: self.peer@ }
    }
}

/// All live sync sessions of a repo.
pub struct SyncTable {
    pub sessions: Vec<SyncSession>,
}

impl View for SyncTable {
    type V = Map<SessionKey, SessionPhase>;

    /// The phase of the session of each pair that has one.
    open spec fn view(&self) -> Map<SessionKey, SessionPhase> {
        Map::new(
            |k: SessionKey| self.keys().contains(k),
            |k: SessionKey| self.sessions@[self.keys().index_of(k)].phase,
        )
    }
}

impl SyncTable {
    /// The pairs of the sessions, in the order in which the table holds
    /// them.
    pub open spec fn keys(&self) -> Seq<SessionKey> {
        self.sessions@.map_values(|s: SyncSession| s.key())
    }

    /// The table is sound: no pair has two sessions, and no session in it
    /// is closed.
    pub open spec fn wf(&self) -> bool {
        &&& self.keys().no_duplicates()
        &&& forall|i: int|
            0 <= i < self.sessions@.len() ==> !((#[trigger] self.sessions@[i]).phase is Closed)
    }

    /// What the table says of the session at a given place.
    pub proof fn lemma_lookup(&self, i: int)
        requires
            self.keys().no_duplicates(),
            0 <= i < self.sessions@.len(),
        ensures
            self@.contains_key(self.sessions@[i].key()),
            self@[self.sessions@[i].key()] == self.sessions@[i].phase,
    {
        let k = self.sessions@[i].key();
        assert(self.keys()[i] == k);
        assert(self.keys().contains(k));
        let j = self.keys().index_of(k);
        assert(0 <= j < self.keys().len() && self.keys()[j] == k);
        assert(j == i);
    }

    /// No pair of a document and a peer has more than one session: two
    /// places of the table that hold sessions of the same pair are the same
    /// place.
    pub proof fn law_one_session_per_pair(&self, i: int, j: int)
        requires
            self.wf(),
            0 <= i < self.sessions@.len(),
            0 <= j < self.sessions@.len(),
            self.sessions@[i].key() == self.sessions@[j].key(),
        ensures
            i == j,
    {
        assert(self.keys()[i] == self.keys()[j]);
    }

    /// A table without sessions.
    pub fn new() -> (table: SyncTable)
        ensures
            table.wf(),
            table@ == Map::<SessionKey, SessionPhase>::empty(),
    {
        let table = SyncTable { sessions: Vec::new() };
        assert(table.keys() =~= Seq::<SessionKey>::empty());
        assert(table@ =~= Map::<SessionKey, SessionPhase>::empty());
        table
    }

    /// The number of live sessions.
    pub fn len(&self) -> (n: usize)
        ensures
            n == self.sessions@.len(),
    {
        self.sessions.len()
    }

    /// The place of the session of `document` with `peer`, if there is one.
    pub fn find(&self, document: &DocumentId, peer: &RepoId) -> (found: Option<usize>)
        ensures
            match found {
                Some(i) => i < self.sessions@.len() && self.sessions@[i as int].key() == (
                SessionKey { document: document@, peer: peer@ }),
                None => !self.keys().contains(SessionKey { document: document@, peer: peer@ }),
            },
    {
        let ghost k = SessionKey { document: document@, peer: peer@ };
        let mut i: usize = 0;
        while i < self.sessions.len()
            invariant
                i <= self.sessions@.len(),
                k == (SessionKey { document: document@, peer: peer@ }),
                forall|j: int| 0 <= j < i ==> self.keys()[j] != k,
            decreases self.sessions.len() - i,
        {
            if self.sessions[i].document.same(document) && self.sessions[i].peer.same(peer) {
                return Some(i);
            }
            i += 1;
        }
        None
    }

    /// The phase of the session of `document` with `peer`, if there is one.
    pub fn phase(&self, document: &DocumentId, peer: &RepoId) -> (phase: Option<SessionPhase>)
        requires
            self.wf(),
        ensures
            phase == (if self@.contains_key(SessionKey { document: document@, peer: peer@ }) {
                Some(self@[SessionKey { document: document@, peer: peer@ }])
            } else {
                None
            }),
    {
        match self.find(document, peer) {
            Some(i) => {
                proof {
                    self.lemma_lookup(i as int);
                }
                Some(self.sessions[i].phase)
            },
            None => None,
        }
    }

    /// Takes the session at place `i` out of the table.
    fn remove_at(&mut self, i: usize)
        requires
            old(self).wf(),
            i < old(self).sessions@.len(),
        ensures
            final(self).wf(),
            final(self).sessions@ == old(self).sessions@.remove(i as int),
            final(self)@ == old(self)@.remove(old(self).sessions@[i as int].key()),
    {
        let ghost before = *self;
        let ghost k = self.sessions@[i as int].key();
        self.sessions.remove(i);
        proof {
            assert(self.keys() =~= before.keys().remove(i as int));
            assert forall|a: int, b: int|
                0 <= a < self.keys().len() && 0 <= b < self.keys().len() && a != b implies self.keys()[a]
                != self.keys()[b] by {
                let a0 = if a < i { a } else { a + 1 };
                let b0 = if b < i { b } else { b + 1 };
                assert(before.keys()[a0] != before.keys()[b0]);
            }
            assert forall|x: SessionKey| #[trigger]
                self@.contains_key(x) <==> before@.remove(k).contains_key(x) by {
                if self.keys().contains(x) {
                    let a = self.keys().index_of(x);
                    let a0 = if a < i { a } else { a + 1 };
                    assert(before.keys()[a0] == x);
                    assert(before.keys()[i as int] == k);
                }
                if before.keys().contains(x) && x != k {
                    let a0 = before.keys().index_of(x);
                    let a = if a0 < i { a0 } else { a0 - 1 };
                    assert(self.keys()[a] == x);
                }
            }
            assert forall|x: SessionKey| #[trigger] self@.contains_key(x) implies self@[x]
                == before@.remove(k)[x] by {
                let a = self.keys().index_of(x);
                let a0 = if a < i { a } else { a + 1 };
                self.lemma_lookup(a);
                before.lemma_lookup(a0);
            }
            assert(self@ =~= before@.remove(k));
        }
    }

    /// Reports an event of the session of `document` with `peer`, and gives
    /// the session's new phase. A pair that has no session gets a fresh one
    /// first. A session that the event closes leaves the table.
    pub fn signal(&mut self, document: &DocumentId, peer: &RepoId, event: SessionEvent) -> (phase:
        SessionPhase)
        requires
            old(self).wf(),
        ensures
            final(self).wf(),
            phase == spec_next_phase(
                old(self).phase_or_fresh(SessionKey { document: document@, peer: peer@ }),
                event,
            ),
            final(self)@ == (if phase is Closed {
                old(self)@.remove(SessionKey { document: document@, peer: peer@ })
            } else {
                old(self)@.insert(SessionKey { document: document@, peer: peer@ }, phase)
            }),
    {
        let ghost before = *self;
        let ghost k = SessionKey { document: document@, peer: peer@ };
        match self.find(document, peer) {
            Some(i) => {
                proof {
                    self.lemma_lookup(i as int);
                }
                let next = next_phase(self.sessions[i].phase, event);
                match next {
                    SessionPhase::Closed => {
                        self.remove_at(i);
                    },
                    _ => {
                        self.sessions.set(
                            i,
                            SyncSession {
                                document: document.duplicate(),
                                peer: peer.duplicate(),
                                phase: next,
                            },
                        );
                        proof {
                            assert(self.keys() =~= before.keys());
                            assert forall|x: SessionKey| #[trigger]
                                self@.contains_key(x) implies self@[x] == before@.insert(
                                k,
                                next,
                            )[x] by {
                                let a = self.keys().index_of(x);
                                self.lemma_lookup(a);
                                before.lemma_lookup(a);
                                self.lemma_lookup(i as int);
                            }
                            assert(self@ =~= before@.insert(k, next));
                        }
                    },
                }
                next
            },
            None => {
                let next = next_phase(SessionPhase::Fresh, event);
                match next {
                    SessionPhase::Closed => {
                        assert(self@ =~= before@.remove(k));
                    },
                    _ => {
                        self.sessions.push(
                            SyncSession {
                                document: document.duplicate(),
                                peer: peer.duplicate(),
                                phase: next,
                            },
                        );
                        proof {
                            let n = before.sessions@.len() as int;
                            assert(self.keys() =~= before.keys().push(k));
                            assert forall|x: SessionKey| #[trigger]
                                self@.contains_key(x) <==> before@.insert(k, next).contains_key(
                                x,
                            ) by {
                                if self.keys().contains(x) {
                                    let a = self.keys().index_of(x);
                                    if a < n {
                                        assert(before.keys()[a] == x);
                                    }
                                }
                                if before.keys().contains(x) {
                                    let a = before.keys().index_of(x);
                                    assert(self.keys()[a] == x);
                                }
                                assert(self.keys()[n] == k);
                            }
                            assert forall|x: SessionKey| #[trigger]
                                self@.contains_key(x) implies self@[x] == before@.insert(
                                k,
                                next,
                            )[x] by {
                                let a = self.keys().index_of(x);
                                self.lemma_lookup(a);
                                if a < n {
                                    assert(before.keys()[a] == x);
                                    before.lemma_lookup(a);
                                }
                            }
                            assert(self@ =~= before@.insert(k, next));
                        }
                    },
                }
                next
            },
        }
    }

    /// The phase of the session of a pair, where a pair without a session
    /// counts as fresh.
    pub open spec fn phase_or_fresh(&self, k: SessionKey) -> SessionPhase {
        if self@.contains_key(k) {
            self@[k]
        } else {
            SessionPhase::Fresh
        }
    }

    /// Ends every session with `peer`, as when the peer disconnects. The
    /// sessions of other peers stay as they are.
    pub fn disconnect(&mut self, peer: &RepoId)
        requires
            old(self).wf(),
        ensures
            final(self).wf(),
            final(self)@ == old(self)@.remove_keys(
                Set::new(|k: SessionKey| k.peer == peer@),
            ),
    {
        let ghost before = *self;
        let mut i: usize = 0;
        while i < self.sessions.len()
            invariant
                self.wf(),
                i <= self.sessions@.len(),
                forall|j: int| 0 <= j < i ==> (#[trigger] self.keys()[j]).peer != peer@,
                forall|x: SessionKey| #[trigger]
                    self@.contains_key(x) ==> before@.contains_key(x) && before@[x] == self@[x],
                forall|x: SessionKey|
                    before@.contains_key(x) && x.peer != peer@ ==> #[trigger] self@.contains_key(x),
            decreases self.sessions.len() - i,
        {
            if self.sessions[i].peer.same(peer) {
                let ghost gone = self.sessions@[i as int].key();
                let ghost prev = *self;
                self.remove_at(i);
                proof {
                    assert(self.keys() =~= prev.keys().remove(i as int));
                    assert forall|j: int| 0 <= j < i implies (#[trigger] self.keys()[j]).peer
                        != peer@ by {
                        assert(self.keys()[j] == prev.keys()[j]);
                    }
                }
            } else {
                assert(self.keys()[i as int] == self.sessions@[i as int].key());
                i += 1;
            }
        }
        proof {
            let target = before@.remove_keys(Set::new(|k: SessionKey| k.peer == peer@));
            assert forall|x: SessionKey| #[trigger]
                self@.contains_key(x) <==> target.contains_key(x) by {
                if self.keys().contains(x) {
                    let a = self.keys().index_of(x);
                    assert(self.keys()[a].peer != peer@);
                }
            }
            assert(self@ =~= target);
        }
    }
    /// Takes an incoming repo message into the table for the repo `local`.
    /// A sync message addressed to `local` is activity of the session of its
    /// document with its sender, which is created if need be; the new phase
    /// is returned. A sync message addressed to another repo, and a message
    /// that is no sync message, is passed over: the table stays as it is.
    pub fn receive(&mut self, local: &RepoId, message: &RepoMessage) -> (phase: Option<
        SessionPhase,
    >)
        requires
            old(self).wf(),
        ensures
            final(self).wf(),
            final(self)@ == spec_received(old(self)@, local@, message@),
            phase == (if spec_addressed(local@, message@) is Some {
                Some(SessionPhase::Syncing)
            } else {
                None
            }),
    {
        match message {
            RepoMessage::Sync { from_repo_id, to_repo_id, document_id, .. } => {
                if to_repo_id.same(local) {
                    Some(self.signal(document_id, from_repo_id, SessionEvent::Activity))
                } else {
                    None
                }
            },
            _ => None,
        }
    }

    /// One of the first `n` sessions of the table is that of `document` with
    /// the peer `p`.
    pub open spec fn among_first(&self, document: DocumentKey, p: Seq<u8>, n: int) -> bool {
        exists|j: int|
            0 <= j < n && j < self.keys().len() && #[trigger] self.keys()[j] == (SessionKey {
                document,
                peer: p,
            })
    }

    /// The peers that are to hear of a change of `document`: every peer that
    /// has a session for it, but for `except`, the peer from which the
    /// change came. Each is listed once.
    pub fn peers_to_notify(&self, document: &DocumentId, except: &RepoId) -> (peers: Vec<RepoId>)
        requires
            self.wf(),
        ensures
            spec_ids(peers@).no_duplicates(),
            forall|p: Seq<u8>|
                #![trigger spec_ids(peers@).contains(p)]
                #![trigger self@.contains_key(SessionKey { document: document@, peer: p })]
                spec_ids(peers@).contains(p) <==> (p != except@ && self@.contains_key(
                    SessionKey { document: document@, peer: p },
                )),
    {
        let mut peers: Vec<RepoId> = Vec::new();
        let mut i: usize = 0;
        assert(spec_ids(peers@) =~= Seq::<Seq<u8>>::empty());
        while i < self.sessions.len()
            invariant
                self.wf(),
                i <= self.sessions@.len(),
                spec_ids(peers@).no_duplicates(),
                forall|p: Seq<u8>|
                    #![trigger spec_ids(peers@).contains(p)]
                    #![trigger self.among_first(document@, p, i as int)]
                    spec_ids(peers@).contains(p) <==> (p != except@ && self.among_first(
                        document@,
                        p,
                        i as int,
                    )),
            decreases self.sessions.len() - i,
        {
            let ghost listed = spec_ids(peers@);
            let ghost n = i as int;
            let session = &self.sessions[i];
            assert(self.keys()[n] == session.key());
            let takes = session.document.same(document) && !session.peer.same(except);
            if takes {
                peers.push(session.peer.duplicate());
            }
            proof {
                let now = spec_ids(peers@);
                if takes {
                    assert(now =~= listed.push(session.peer@));
                    if listed.contains(session.peer@) {
                        assert(self.among_first(document@, session.peer@, n));
                        let j = choose|j: int|
                            0 <= j < n && j < self.keys().len() && #[trigger] self.keys()[j] == (
                            SessionKey { document: document@, peer: session.peer@ });
                        assert(self.keys()[j] == self.keys()[n]);
                    }
                    assert(now.no_duplicates());
                } else {
                    assert(now =~= listed);
                }
                assert forall|p: Seq<u8>|
                    #![trigger now.contains(p)]
                    #![trigger self.among_first(document@, p, n + 1)]
                    now.contains(p) <==> (p != except@ && self.among_first(
                        document@,
                        p,
                        n + 1,
                    )) by {
                    let want = SessionKey { document: document@, peer: p };
                    if now.contains(p) {
                        let a = choose|a: int| 0 <= a < now.len() && now[a] == p;
                        if a < listed.len() {
                            assert(listed[a] == p);
                            assert(listed.contains(p));
                            assert(self.among_first(document@, p, n));
                            let j = choose|j: int|
                                0 <= j < n && j < self.keys().len() && #[trigger] self.keys()[j]
                                    == want;
                            assert(0 <= j < n + 1 && self.keys()[j] == want);
                        } else {
                            assert(takes);
                            assert(self.keys()[n] == want);
                        }
                    }
                    if p != except@ && self.among_first(document@, p, n + 1) {
                        let j = choose|j: int|
                            0 <= j < n + 1 && j < self.keys().len() && #[trigger] self.keys()[j]
                                == want;
                        if j < n {
                            assert(self.among_first(document@, p, n));
                            assert(listed.contains(p));
                            let a = choose|a: int| 0 <= a < listed.len() && listed[a] == p;
                            assert(now[a] == p);
                        } else {
                            assert(takes);
                            assert(now[listed.len() as int] == p);
                        }
                    }
                }
            }
            i += 1;
        }
        proof {
            let now = spec_ids(peers@);
            let n = i as int;
            assert forall|p: Seq<u8>|
                #![trigger now.contains(p)]
                #![trigger self@.contains_key(SessionKey { document: document@, peer: p })]
                now.contains(p) <==> (p != except@ && self@.contains_key(
                    SessionKey { document: document@, peer: p },
                )) by {
                let want = SessionKey { document: document@, peer: p };
                if now.contains(p) {
                    assert(self.among_first(document@, p, n));
                    let j = choose|j: int|
                        0 <= j < n && j < self.keys().len() && #[trigger] self.keys()[j] == want;
                    assert(self.keys().contains(want));
                }
                if p != except@ && self.keys().contains(want) {
                    let j = self.keys().index_of(want);
                    assert(0 <= j < n && self.keys()[j] == want);
                    assert(self.among_first(document@, p, n));
                }
            }
        }
        peers
    }
}

/// The repos that a list of identifiers names.
pub open spec fn spec_ids(peers: Seq<RepoId>) -> Seq<Seq<u8>> {
    peers.map_values(|p: RepoId| p@)
}

/// The session that an incoming message belongs to, where the message is a
/// sync message addressed to the repo `local`.
pub open spec fn spec_addressed(local: Seq<u8>, message: RepoMessageView) -> Option<SessionKey> {
    match message {
        RepoMessageView::Sync { from, to, document, .. } => if to == local {
            Some(SessionKey { document, peer: from })
        } else {
            None
        },
        _ => None,
    }
}

/// The table after an incoming message was taken in: a sync message
/// addressed to `local` leaves the session of its document with its sender
/// syncing; any other message leaves the table as it was.
pub open spec fn spec_received(
    table: Map<SessionKey, SessionPhase>,
    local: Seq<u8>,
    message: RepoMessageView,
) -> Map<SessionKey, SessionPhase> {
    match spec_addressed(local, message) {
        Some(k) => table.insert(k, SessionPhase::Syncing),
        None => table,
    }
}

/// A message that is delivered a second time leaves the table as the first
/// delivery left it: no second session is made, and no session changes.
pub proof fn law_redelivery_keeps_table(
    table: Map<SessionKey, SessionPhase>,
    local: Seq<u8>,
    message: RepoMessageView,
)
    ensures
        spec_received(spec_received(table, local, message), local, message) == spec_received(
            table,
            local,
            message,
        ),
{
    let once = spec_received(table, local, message);
    assert(spec_received(once, local, message) =~= once);
}

/// A closed session stays closed, whatever happens.
pub proof fn law_closed_is_final(event: SessionEvent)
    ensures
        spec_next_phase(SessionPhase::Closed, event) is Closed,
{
}

/// No session becomes fresh again: a phase that follows an event is fresh
/// only where the session was fresh and all was quiet.
pub proof fn law_fresh_only_at_birth(phase: SessionPhase, event: SessionEvent)
    ensures
        spec_next_phase(phase, event) is Fresh ==> phase is Fresh && event is Quiet,
{
}

} // verus!
