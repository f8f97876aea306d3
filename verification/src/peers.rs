//! The set of peers whose channels are installed: one channel for each
//! remote repo at most.

use vstd::prelude::*;
use crate::handshake::{HandshakeState, Phase};
use crate::identity::RepoId;
use crate::message::NetworkError;
use crate::version::ProtocolVersion;

verus! {

/// An installed peer: the remote repo, the protocol version settled with
/// it, and the number by which the transport's owner knows its channel.
#[derive(Debug, Clone, PartialEq, Eq)]
pub struct Peer {
    pub remote_id: RepoId,
    pub selected_version: ProtocolVersion,
    pub channel: u64,
}

/// What the set knows of a remote repo.
pub struct PeerInfo {
    pub version: ProtocolVersion,
    pub channel: u64,
}

/// What became of a handshake when it was brought to the peer set.
#[derive(Debug, Clone, Copy, PartialEq, Eq, Structural)]
pub enum Conclusion {
    /// The channel was installed. Where the remote repo had a channel
    /// before, that one is superseded and is to be closed.
    Installed { superseded: Option<u64> },
    /// The handshake had failed; nothing was installed.
    Rejected { reason: NetworkError },
    /// The handshake has not ended; nothing was installed.
    Pending,
}

/// The peers of a repo.
pub struct PeerSet {
    pub peers: Vec<Peer>,
}

impl View for PeerSet {
    type V = Map<Seq<u8>, PeerInfo>;

    /// For each remote repo that has a channel, its version and channel.
    open spec fn view(&self) -> Map<Seq<u8>, PeerInfo> {
        Map::new(
            |id: Seq<u8>| self.ids().contains(id),
            |id: Seq<u8>| self.peers@[self.ids().index_of(id)].info(),
        )
    }
}

impl Peer {
    /// What the set knows of this peer.
    pub open spec fn info(&self) -> PeerInfo {
        PeerInfo { version: self.selected_version, channel: self.channel }
    }
}

/// The channel that a remote repo has in a set, if it has one.
pub open spec fn spec_channel_of(peers: Map<Seq<u8>, PeerInfo>, id: Seq<u8>) -> Option<u64> {
    if peers.contains_key(id) {
        Some(peers[id].channel)
    } else {
        None
    }
}

impl PeerSet {
    /// The remote repos, in the order in which the set holds them.
    pub open spec fn ids(&self) -> Seq<Seq<u8>> {
        self.peers@.map_values(|p: Peer| p.remote_id@)
    }

    /// The set is sound: no remote repo has two channels.
    pub open spec fn wf(&self) -> bool {
        self.ids().no_duplicates()
    }

    /// What the set says of the peer at a given place.
    pub proof fn lemma_lookup(&self, i: int)
        requires
            self.wf(),
            0 <= i < self.peers@.len(),
        ensures
            self@.contains_key(self.peers@[i].remote_id@),
            self@[self.peers@[i].remote_id@] == self.peers@[i].info(),
    {
        let id = self.peers@[i].remote_id@;
        assert(self.ids()[i] == id);
        let j = self.ids().index_of(id);
        assert(0 <= j < self.ids().len() && self.ids()[j] == id);
    }

    /// No remote repo has more than one active peer: two places of the set
    /// that hold the same remote repo are the same place.
    pub proof fn law_one_peer_per_repo(&self, i: int, j: int)
        requires
            self.wf(),
            0 <= i < self.peers@.len(),
            0 <= j < self.peers@.len(),
            self.peers@[i].remote_id@ == self.peers@[j].remote_id@,
        ensures
            i == j,
    {
        assert(self.ids()[i] == self.ids()[j]);
    }

    /// A set without peers.
    pub fn new() -> (set: PeerSet)
        ensures
            set.wf(),
            set@ == Map::<Seq<u8>, PeerInfo>::empty(),
    {
        let set = PeerSet { peers: Vec::new() };
        assert(set.ids() =~= Seq::<Seq<u8>>::empty());
        assert(set@ =~= Map::<Seq<u8>, PeerInfo>::empty());
        set
    }

    /// The number of peers.
    pub fn len(&self) -> (n: usize)
        ensures
            n == self.peers@.len(),
    {
        self.peers.len()
    }

    /// The place of the peer for `remote`, if there is one.
    pub fn find(&self, remote: &RepoId) -> (found: Option<usize>)
        ensures
            match found {
                Some(i) => i < self.peers@.len() && self.peers@[i as int].remote_id@ == remote@,
                None => !self.ids().contains(remote@),
            },
    {
        let mut i: usize = 0;
        while i < self.peers.len()
            invariant
                i <= self.peers@.len(),
                forall|j: int| 0 <= j < i ==> self.ids()[j] != remote@,
            decreases self.peers.len() - i,
        {
            if self.peers[i].remote_id.same(remote) {
                return Some(i);
            }
            i += 1;
        }
        None
    }

    /// The channel of the peer for `remote`, if there is one.
    pub fn channel_of(&self, remote: &RepoId) -> (channel: Option<u64>)
        requires
            self.wf(),
        ensures
            channel == spec_channel_of(self@, remote@),
    {
        match self.find(remote) {
            Some(i) => {
                proof {
                    self.lemma_lookup(i as int);
                }
                Some(self.peers[i].channel)
            },
            None => None,
        }
    }

    /// Installs a channel for `remote`. A channel that `remote` had before
    /// is superseded: its number is returned, for it to be closed.
    pub fn install(&mut self, remote: RepoId, version: ProtocolVersion, channel: u64) -> (superseded:
        Option<u64>)
        requires
            old(self).wf(),
        ensures
            final(self).wf(),
            final(self)@ == old(self)@.insert(remote@, PeerInfo { version, channel }),
            superseded == spec_channel_of(old(self)@, remote@),
    {
        let ghost before = *self;
        let ghost id = remote@;
        let ghost info = PeerInfo { version, channel };
        match self.find(&remote) {
            Some(i) => {
                proof {
                    self.lemma_lookup(i as int);
                }
                let earlier = self.peers[i].channel;
                self.peers.set(i, Peer { remote_id: remote, selected_version: version, channel });
                proof {
                    assert(self.ids() =~= before.ids());
                    assert forall|x: Seq<u8>| #[trigger] self@.contains_key(x) implies self@[x]
                        == before@.insert(id, info)[x] by {
                        let a = self.ids().index_of(x);
                        self.lemma_lookup(a);
                        before.lemma_lookup(a);
                        self.lemma_lookup(i as int);
                    }
                    assert(self@ =~= before@.insert(id, info));
                }
                Some(earlier)
            },
            None => {
                self.peers.push(Peer { remote_id: remote, selected_version: version, channel });
                proof {
                    let n = before.peers@.len() as int;
                    assert(self.ids() =~= before.ids().push(id));
                    assert forall|x: Seq<u8>| #[trigger]
                        self@.contains_key(x) <==> before@.insert(id, info).contains_key(x) by {
                        if self.ids().contains(x) {
                            let a = self.ids().index_of(x);
                            if a < n {
                                assert(before.ids()[a] == x);
                            }
                        }
                        if before.ids().contains(x) {
                            let a = before.ids().index_of(x);
                            assert(self.ids()[a] == x);
                        }
                        assert(self.ids()[n] == id);
                    }
                    assert forall|x: Seq<u8>| #[trigger] self@.contains_key(x) implies self@[x]
                        == before@.insert(id, info)[x] by {
                        let a = self.ids().index_of(x);
                        self.lemma_lookup(a);
                        if a < n {
                            assert(before.ids()[a] == x);
                            before.lemma_lookup(a);
                        }
                    }
                    assert(self@ =~= before@.insert(id, info));
                }
                None
            },
        }
    }

    /// Takes the peer for `remote` out of the set, as when its channel has
    /// ended, and gives the number of its channel. The other peers stay as
    /// they are.
    pub fn remove(&mut self, remote: &RepoId) -> (channel: Option<u64>)
        requires
            old(self).wf(),
        ensures
            final(self).wf(),
            final(self)@ == old(self)@.remove(remote@),
            channel == spec_channel_of(old(self)@, remote@),
    {
        let ghost before = *self;
        let ghost id = remote@;
        match self.find(remote) {
            Some(i) => {
                proof {
                    self.lemma_lookup(i as int);
                }
                let gone = self.peers.remove(i);
                proof {
                    assert(self.ids() =~= before.ids().remove(i as int));
                    assert forall|a: int, b: int|
                        0 <= a < self.ids().len() && 0 <= b < self.ids().len() && a
                            != b implies self.ids()[a] != self.ids()[b] by {
                        let a0 = if a < i { a } else { a + 1 };
                        let b0 = if b < i { b } else { b + 1 };
                        assert(before.ids()[a0] != before.ids()[b0]);
                    }
                    assert forall|x: Seq<u8>| #[trigger]
                        self@.contains_key(x) <==> before@.remove(id).contains_key(x) by {
                        if self.ids().contains(x) {
                            let a = self.ids().index_of(x);
                            let a0 = if a < i { a } else { a + 1 };
                            assert(before.ids()[a0] == x);
                            assert(before.ids()[i as int] == id);
                        }
                        if before.ids().contains(x) && x != id {
                            let a0 = before.ids().index_of(x);
                            let a = if a0 < i { a0 } else { a0 - 1 };
                            assert(self.ids()[a] == x);
                        }
                    }
                    assert forall|x: Seq<u8>| #[trigger] self@.contains_key(x) implies self@[x]
                        == before@.remove(id)[x] by {
                        let a = self.ids().index_of(x);
                        let a0 = if a < i { a } else { a + 1 };
                        self.lemma_lookup(a);
                        before.lemma_lookup(a0);
                    }
                    assert(self@ =~= before@.remove(id));
                }
                Some(gone.channel)
            },
            None => {
                assert(self@ =~= before@.remove(id));
                None
            },
        }
    }

    /// Brings a handshake to the set. A handshake that succeeded installs
    /// its channel for the remote repo it learned. One that failed, or has
    /// not ended, installs nothing, and every peer stays as it is.
    pub fn conclude(&mut self, handshake: HandshakeState, channel: u64) -> (out: Conclusion)
        requires
            old(self).wf(),
        ensures
            final(self).wf(),
            match handshake@ {
                Phase::Established { remote, version } => {
                    &&& out == (Conclusion::Installed {
                        superseded: spec_channel_of(old(self)@, remote),
                    })
                    &&& final(self)@ == old(self)@.insert(remote, PeerInfo { version, channel })
                },
                Phase::Failed { reason } => {
                    &&& out == (Conclusion::Rejected { reason })
                    &&& final(self)@ == old(self)@
                },
                _ => out == Conclusion::Pending && final(self)@ == old(self)@,
            },
    {
        match handshake {
            HandshakeState::Established { remote, version } => {
                let superseded = self.install(remote, version, channel);
                Conclusion::Installed { superseded }
            },
            HandshakeState::Failed { reason } => Conclusion::Rejected { reason },
            _ => Conclusion::Pending,
        }
    }
}

} // verus!
