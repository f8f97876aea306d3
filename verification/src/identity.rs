//! Identifiers of repos and documents.

use vstd::prelude::*;

verus! {

/// Stable identifier of a repo. Two identifiers name the same repo exactly
/// when their bytes agree.
#[derive(Debug, Clone, PartialEq, Eq, Hash)]
pub struct RepoId {
    pub bytes: Vec<u8>,
}

impl View for RepoId {
    type V = Seq<u8>;

    open spec fn view(&self) -> Seq<u8> {
        self.bytes@
    }
}

/// Whether two byte strings hold the same bytes.
pub fn bytes_equal(a: &Vec<u8>, b: &Vec<u8>) -> (same: bool)
    ensures
        same == (a@ == b@),
{
    if a.len() != b.len() {
        return false;
    }
    let mut i: usize = 0;
    while i < a.len()
        invariant
            a.len() == b.len(),
            i <= a.len(),
            forall|j: int| 0 <= j < i ==> a@[j] == b@[j],
        decreases a.len() - i,
    {
        if a[i] != b[i] {
            return false;
        }
        i += 1;
    }
    assert(a@ =~= b@);
    true
}

/// A fresh byte string with the same bytes.
pub fn bytes_copy(a: &Vec<u8>) -> (copy: Vec<u8>)
    ensures
        copy@ == a@,
{
    let mut copy: Vec<u8> = Vec::new();
    let mut i: usize = 0;
    while i < a.len()
        invariant
            i <= a.len(),
            copy@ == a@.subrange(0, i as int),
        decreases a.len() - i,
    {
        copy.push(a[i]);
        assert(copy@ =~= a@.subrange(0, i + 1));
        i += 1;
    }
    assert(copy@ =~= a@);
    copy
}

impl RepoId {
    /// The repo identified by `bytes`.
    pub fn new(bytes: Vec<u8>) -> (id: RepoId)
        ensures
            id@ == bytes@,
    {
        RepoId { bytes }
    }

    /// The identifying bytes.
    pub fn as_bytes(&self) -> (bytes: &Vec<u8>)
        ensures
            bytes@ == self@,
    {
        &self.bytes
    }

    /// Whether `self` and `other` name the same repo.
    pub fn same(&self, other: &RepoId) -> (same: bool)
        ensures
            same == (self@ == other@),
    {
        bytes_equal(&self.bytes, &other.bytes)
    }

    /// A second identifier of the same repo.
    pub fn duplicate(&self) -> (copy: RepoId)
        ensures
            copy@ == self@,
    {
        RepoId { bytes: bytes_copy(&self.bytes) }
    }
}

/// What a document identifier stands for: the repo that created the
/// document, and the number that repo gave it.
pub struct DocumentKey {
    pub repo: Seq<u8>,
    pub serial: u64,
}

/// Globally unique identifier of a document. It carries the identifier of the
/// repo that created the document, so that no lookup is needed to find it.
#[derive(Debug, Clone, PartialEq, Eq, Hash)]
pub struct DocumentId {
    pub repo: RepoId,
    pub serial: u64,
}

impl View for DocumentId {
    type V = DocumentKey;

    open spec fn view(&self) -> DocumentKey {
        DocumentKey { repo: self.repo@, serial: self.serial }
    }
}

impl DocumentId {
    /// The document numbered `serial` among those that `repo` created.
    pub fn new(repo: RepoId, serial: u64) -> (id: DocumentId)
        ensures
            id@ == (DocumentKey { repo: repo@, serial }),
    {
        DocumentId { repo, serial }
    }

    /// The repo that created the document.
    pub fn repo_id(&self) -> (repo: &RepoId)
        ensures
            repo@ == self@.repo,
    {
        &self.repo
    }

    /// Whether `self` and `other` name the same document.
    pub fn same(&self, other: &DocumentId) -> (same: bool)
        ensures
            same == (self@ == other@),
    {
        self.serial == other.serial && self.repo.same(&other.repo)
    }

    /// A second identifier of the same document.
    pub fn duplicate(&self) -> (copy: DocumentId)
        ensures
            copy@ == self@,
    {
        DocumentId { repo: self.repo.duplicate(), serial: self.serial }
    }
}

} // verus!
