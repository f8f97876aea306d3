//! Protocol versions and how two peers settle on one.

use vstd::prelude::*;

verus! {

/// A version of the channel protocol. Versions are ordered as they are
/// listed: `V1` comes before every version this release does not define, and
/// those are ordered by their number.
#[derive(Debug, Clone, Copy, PartialEq, Eq, Structural, Hash)]
pub enum ProtocolVersion {
    V1,
    /// A version that a later release defines, by its number.
    Unknown(u32),
}

impl ProtocolVersion {
    /// The place of a version in the order of versions.
    pub open spec fn spec_rank(self) -> nat {
        match self {
            ProtocolVersion::V1 => 0,
            ProtocolVersion::Unknown(n) => (n + 1) as nat,
        }
    }

    /// The place of a version in the order of versions.
    pub fn rank(&self) -> (r: u64)
        ensures
            r == self.spec_rank(),
    {
        match self {
            ProtocolVersion::V1 => 0,
            ProtocolVersion::Unknown(n) => {
                let wide: u64 = *n as u64;
                wide + 1
            },
        }
    }
}

/// `v` is the best version that both lists hold: it stands in both, and no
/// version that stands in both comes after it.
pub open spec fn is_best_common(
    local: Seq<ProtocolVersion>,
    remote: Seq<ProtocolVersion>,
    v: ProtocolVersion,
) -> bool {
    &&& local.contains(v)
    &&& remote.contains(v)
    &&& forall|w: ProtocolVersion|
        local.contains(w) && remote.contains(w) ==> w.spec_rank() <= v.spec_rank()
}

/// Some version stands in both lists.
pub open spec fn have_common(local: Seq<ProtocolVersion>, remote: Seq<ProtocolVersion>) -> bool {
    exists|w: ProtocolVersion| local.contains(w) && remote.contains(w)
}

/// The version a responder selects: the best that both lists hold, or `None`
/// where they share none.
pub open spec fn spec_select(
    local: Seq<ProtocolVersion>,
    remote: Seq<ProtocolVersion>,
) -> Option<ProtocolVersion> {
    if have_common(local, remote) {
        Some(choose|v: ProtocolVersion| is_best_common(local, remote, v))
    } else {
        None
    }
}

/// Two versions at the same place in the order are the same version.
pub proof fn lemma_rank_injective(a: ProtocolVersion, b: ProtocolVersion)
    requires
        a.spec_rank() == b.spec_rank(),
    ensures
        a == b,
{
}

/// Whether `list` holds `v`.
pub fn supports(list: &Vec<ProtocolVersion>, v: ProtocolVersion) -> (found: bool)
    ensures
        found == list@.contains(v),
{
    let mut i: usize = 0;
    while i < list.len()
        invariant
            i <= list.len(),
            forall|j: int| 0 <= j < i ==> list@[j] != v,
        decreases list.len() - i,
    {
        if list[i] == v {
            return true;
        }
        i += 1;
    }
    false
}

/// Selects the version for a channel: the highest version that both the
/// local and the remote list hold. `None` means the two share no version.
pub fn select_version(local: &Vec<ProtocolVersion>, remote: &Vec<ProtocolVersion>) -> (selected:
    Option<ProtocolVersion>)
    ensures
        selected == spec_select(local@, remote@),
        selected is None <==> !have_common(local@, remote@),
        selected is Some ==> is_best_common(local@, remote@, selected->Some_0),
{
    let mut best: Option<ProtocolVersion> = None;
    let mut i: usize = 0;
    while i < remote.len()
        invariant
            i <= remote.len(),
            best is None ==> forall|j: int| 0 <= j < i ==> !local@.contains(#[trigger] remote@[j]),
            best is Some ==> {
                &&& local@.contains(best->Some_0)
                &&& remote@.contains(best->Some_0)
                &&& forall|j: int|
                    0 <= j < i && local@.contains(#[trigger] remote@[j]) ==> remote@[j].spec_rank()
                        <= (best->Some_0).spec_rank()
            },
        decreases remote.len() - i,
    {
        let candidate: ProtocolVersion = remote[i];
        if supports(local, candidate) {
            match best {
                None => {
                    best = Some(candidate);
                },
                Some(b) => {
                    if candidate.rank() > b.rank() {
                        best = Some(candidate);
                    }
                },
            }
        }
        i += 1;
    }
    proof {
        match best {
            None => {
                assert forall|w: ProtocolVersion| !(local@.contains(w) && remote@.contains(w)) by {
                    if remote@.contains(w) {
                        let j = choose|j: int| 0 <= j < remote@.len() && remote@[j] == w;
                        assert(!local@.contains(remote@[j]));
                    }
                }
            },
            Some(b) => {
                assert forall|w: ProtocolVersion|
                    local@.contains(w) && remote@.contains(w) implies w.spec_rank()
                    <= b.spec_rank() by {
                    let j = choose|j: int| 0 <= j < remote@.len() && remote@[j] == w;
                    assert(local@.contains(remote@[j]));
                }
                assert(is_best_common(local@, remote@, b));
                lemma_best_common_unique(local@, remote@, b);
            },
        }
    }
    best
}

/// Two lists have at most one best common version, and it is the one that
/// the selection names.
pub proof fn lemma_best_common_unique(
    local: Seq<ProtocolVersion>,
    remote: Seq<ProtocolVersion>,
    v: ProtocolVersion,
)
    requires
        is_best_common(local, remote, v),
    ensures
        spec_select(local, remote) == Some(v),
{
    assert(have_common(local, remote));
    let c = choose|c: ProtocolVersion| is_best_common(local, remote, c);
    assert(c.spec_rank() <= v.spec_rank());
    assert(v.spec_rank() <= c.spec_rank());
    lemma_rank_injective(c, v);
}

/// The selection does not depend on which side's list is called local.
pub proof fn law_select_symmetric(a: Seq<ProtocolVersion>, b: Seq<ProtocolVersion>)
    ensures
        spec_select(a, b) == spec_select(b, a),
{
    if have_common(a, b) {
        let w = choose|w: ProtocolVersion| a.contains(w) && b.contains(w);
        assert(b.contains(w) && a.contains(w));
        let v = spec_select(a, b)->Some_0;
        lemma_select_is_best(a, b);
        assert(is_best_common(b, a, v));
        lemma_best_common_unique(b, a, v);
    } else {
        assert forall|w: ProtocolVersion| !(b.contains(w) && a.contains(w)) by {
            assert(!(a.contains(w) && b.contains(w)));
        }
    }
}

/// Where two lists share a version, the selection is a best common version.
pub proof fn lemma_select_is_best(local: Seq<ProtocolVersion>, remote: Seq<ProtocolVersion>)
    requires
        have_common(local, remote),
    ensures
        spec_select(local, remote) is Some,
        is_best_common(local, remote, spec_select(local, remote)->Some_0),
{
    lemma_best_exists(local, remote, remote.len() as int);
    let shared = choose|w: ProtocolVersion| local.contains(w) && remote.contains(w);
    let at = choose|j: int| 0 <= j < remote.len() && remote[j] == shared;
    assert(local.contains(remote[at]));
    let n: int = remote.len() as int;
    let v = choose|v: ProtocolVersion| is_best_common_upto(local, remote, n, v);
    assert forall|w: ProtocolVersion|
        local.contains(w) && remote.contains(w) implies w.spec_rank() <= v.spec_rank() by {
        let j = choose|j: int| 0 <= j < remote.len() && remote[j] == w;
        assert(local.contains(remote[j]));
    }
    assert(is_best_common(local, remote, v));
}

/// `v` is the best among the versions that `local` holds and that stand in
/// the first `n` places of `remote`.
pub open spec fn is_best_common_upto(
    local: Seq<ProtocolVersion>,
    remote: Seq<ProtocolVersion>,
    n: int,
    v: ProtocolVersion,
) -> bool {
    &&& local.contains(v)
    &&& exists|k: int| 0 <= k < n && remote[k] == v
    &&& forall|j: int|
        0 <= j < n && local.contains(#[trigger] remote[j]) ==> remote[j].spec_rank()
            <= v.spec_rank()
}

/// Among the first `n` places of `remote`, either none is held by `local`
/// or one of them is the best.
pub proof fn lemma_best_exists(local: Seq<ProtocolVersion>, remote: Seq<ProtocolVersion>, n: int)
    requires
        0 <= n <= remote.len(),
    ensures
        (forall|j: int| 0 <= j < n ==> !local.contains(#[trigger] remote[j])) || (exists|
            v: ProtocolVersion,
        | #[trigger] is_best_common_upto(local, remote, n, v)),
    decreases n,
{
    if n > 0 {
        lemma_best_exists(local, remote, n - 1);
        let last = remote[n - 1];
        if forall|j: int| 0 <= j < n - 1 ==> !local.contains(#[trigger] remote[j]) {
            if local.contains(last) {
                assert(is_best_common_upto(local, remote, n, last));
            }
        } else {
            let m: int = n - 1;
            let b = choose|v: ProtocolVersion| is_best_common_upto(local, remote, m, v);
            if local.contains(last) && last.spec_rank() > b.spec_rank() {
                assert(is_best_common_upto(local, remote, n, last));
            } else {
                let k = choose|k: int| 0 <= k < n - 1 && remote[k] == b;
                assert(0 <= k < n && remote[k] == b);
                assert(is_best_common_upto(local, remote, n, b));
            }
        }
    }
}

} // verus!
