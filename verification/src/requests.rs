//! Requests for documents that the repo does not hold yet: who waits for a
//! document, which peers were asked for it, and when the request resolves.

use vstd::prelude::*;
use crate::identity::{DocumentId, RepoId};
use crate::sessions::spec_ids;

verus! {

/// How a request for a document ends.
#[derive(Debug, Clone, Copy, PartialEq, Eq, Structural, Hash)]
pub enum Resolution {
    /// The document is held locally and ready.
    Found,
    /// Every peer that was asked has reported that it lacks the document.
    NotFound,
    /// The repo stopped, or the last waiter gave up.
    Cancelled,
}

/// The negotiation for one requested document. All requests for the same
/// document share it: each is one waiter, known by the number of its
/// completion sink.
#[derive(Debug, Clone, PartialEq, Eq)]
pub struct PendingRequest {
    pub document: DocumentId,
    /// The waiters, in the order in which they came.
    pub waiters: Vec<u64>,
    /// The candidates that were asked and have not answered.
    pub asked: Vec<RepoId>,
    /// The candidates that reported that they lack the document.
    pub absent: Vec<RepoId>,
}

/// The place of `peer` in `list`, if it stands there.
pub fn position(list: &Vec<RepoId>, peer: &RepoId) -> (found: Option<usize>)
    ensures
        match found {
            Some(i) => i < list@.len() && spec_ids(list@)[i as int] == peer@,
            None => !spec_ids(list@).contains(peer@),
        },
{
    let mut i: usize = 0;
    while i < list.len()
        invariant
            i <= list@.len(),
            forall|j: int| 0 <= j < i ==> spec_ids(list@)[j] != peer@,
        decreases list.len() - i,
    {
        if list[i].same(peer) {
            return Some(i);
        }
        i += 1;
    }
    None
}

/// The place of `waiter` in `list`, if it stands there.
pub fn waiter_position(list: &Vec<u64>, waiter: u64) -> (found: Option<usize>)
    ensures
        match found {
            Some(i) => i < list@.len() && list@[i as int] == waiter,
            None => !list@.contains(waiter),
        },
{
    let mut i: usize = 0;
    while i < list.len()
        invariant
            i <= list@.len(),
            forall|j: int| 0 <= j < i ==> list@[j] != waiter,
        decreases list.len() - i,
    {
        if list[i] == waiter {
            return Some(i);
        }
        i += 1;
    }
    None
}

impl PendingRequest {
    /// The candidates that have not answered.
    pub open spec fn asked_ids(&self) -> Seq<Seq<u8>> {
        spec_ids(self.asked@)
    }

    /// The candidates that reported absence.
    pub open spec fn absent_ids(&self) -> Seq<Seq<u8>> {
        spec_ids(self.absent@)
    }

    /// Whether `peer` is a candidate, asked or absent.
    pub open spec fn is_candidate(&self, peer: Seq<u8>) -> bool {
        self.asked_ids().contains(peer) || self.absent_ids().contains(peer)
    }

    /// The request is sound: no waiter and no candidate is listed twice.
    pub open spec fn wf(&self) -> bool {
        &&& self.waiters@.no_duplicates()
        &&& self.asked_ids().no_duplicates()
        &&& self.absent_ids().no_duplicates()
        &&& forall|p: Seq<u8>| !(self.asked_ids().contains(p) && self.absent_ids().contains(p))
    }

    /// Every candidate has reported absence, and there is one at least.
    pub open spec fn exhausted(&self) -> bool {
        self.asked@.len() == 0 && self.absent@.len() > 0
    }

    /// A request for `document` with its first waiter and no candidate yet.
    pub fn new(document: DocumentId, waiter: u64) -> (request: PendingRequest)
        ensures
            request.wf(),
            request.document == document,
            request.waiters@ == seq![waiter],
            request.asked@.len() == 0,
            request.absent@.len() == 0,
    {
        let mut waiters: Vec<u64> = Vec::new();
        waiters.push(waiter);
        let request = PendingRequest { document, waiters, asked: Vec::new(), absent: Vec::new() };
        assert(request.waiters@ =~= seq![waiter]);
        assert(request.asked_ids() =~= Seq::<Seq<u8>>::empty());
        assert(request.absent_ids() =~= Seq::<Seq<u8>>::empty());
        request
    }

    /// Adds a waiter to the negotiation. One that waits already is not
    /// listed again.
    pub fn join(&mut self, waiter: u64)
        requires
            old(self).wf(),
        ensures
            final(self).wf(),
            final(self).document == old(self).document,
            final(self).asked == old(self).asked,
            final(self).absent == old(self).absent,
            final(self).waiters@ == (if old(self).waiters@.contains(waiter) {
                old(self).waiters@
            } else {
                old(self).waiters@.push(waiter)
            }),
    {
        match waiter_position(&self.waiters, waiter) {
            Some(_) => {},
            None => {
                self.waiters.push(waiter);
            },
        }
    }

    /// Takes a waiter that gave up out of the negotiation, and says whether
    /// the negotiation goes on: it does while a waiter is left.
    pub fn cancel(&mut self, waiter: u64) -> (goes_on: bool)
        requires
            old(self).wf(),
        ensures
            final(self).wf(),
            final(self).document == old(self).document,
            final(self).asked == old(self).asked,
            final(self).absent == old(self).absent,
            !final(self).waiters@.contains(waiter),
            forall|w: u64|
                w != waiter ==> (#[trigger] final(self).waiters@.contains(w) <==> old(
                    self,
                ).waiters@.contains(w)),
            final(self).waiters@ == (if old(self).waiters@.contains(waiter) {
                old(self).waiters@.remove(old(self).waiters@.index_of(waiter))
            } else {
                old(self).waiters@
            }),
            goes_on == (final(self).waiters@.len() > 0),
    {
        let ghost before = self.waiters@;
        match waiter_position(&self.waiters, waiter) {
            Some(i) => {
                self.waiters.remove(i);
                proof {
                    let n = i as int;
                    let at = before.index_of(waiter);
                    assert(before[at] == waiter && before[n] == waiter);
                    assert(at == n);
                    let after = self.waiters@;
                    assert forall|a: int, b: int|
                        0 <= a < after.len() && 0 <= b < after.len() && a != b implies after[a]
                        != after[b] by {
                        let a0 = if a < n { a } else { a + 1 };
                        let b0 = if b < n { b } else { b + 1 };
                        assert(before[a0] != before[b0]);
                    }
                    assert forall|w: u64| w != waiter implies (#[trigger] after.contains(w)
                        <==> before.contains(w)) by {
                        if after.contains(w) {
                            let a = after.index_of(w);
                            let a0 = if a < n { a } else { a + 1 };
                            assert(before[a0] == w);
                        }
                        if before.contains(w) {
                            let a0 = before.index_of(w);
                            let a = if a0 < n { a0 } else { a0 - 1 };
                            assert(after[a] == w);
                        }
                    }
                    if after.contains(waiter) {
                        let a = after.index_of(waiter);
                        let a0 = if a < n { a } else { a + 1 };
                        assert(before[a0] == waiter);
                    }
                }
            },
            None => {},
        }
        self.waiters.len() > 0
    }

    /// Makes `peer` a candidate, as when a peer is connected while the
    /// request is outstanding, and says whether the peer is to be asked for
    /// the document: it is unless it was a candidate already.
    pub fn add_candidate(&mut self, peer: &RepoId) -> (ask: bool)
        requires
            old(self).wf(),
        ensures
            final(self).wf(),
            final(self).document == old(self).document,
            final(self).waiters == old(self).waiters,
            final(self).absent == old(self).absent,
            ask == !old(self).is_candidate(peer@),
            final(self).asked_ids() == (if ask {
                old(self).asked_ids().push(peer@)
            } else {
                old(self).asked_ids()
            }),
    {
        let known = match position(&self.asked, peer) {
            Some(_) => true,
            None => match position(&self.absent, peer) {
                Some(_) => true,
                None => false,
            },
        };
        if known {
            false
        } else {
            self.asked.push(peer.duplicate());
            proof {
                assert(self.asked_ids() =~= old(self).asked_ids().push(peer@));
                assert forall|p: Seq<u8>|
                    !(self.asked_ids().contains(p) && self.absent_ids().contains(p)) by {
                    if self.asked_ids().contains(p) && p != peer@ {
                        let a = self.asked_ids().index_of(p);
                        assert(old(self).asked_ids()[a] == p);
                    }
                }
            }
            true
        }
    }

    /// Takes the report of `peer` that it lacks the document. The request
    /// resolves as not found once every candidate has reported so. A report
    /// of a peer that was not asked, or has reported before, changes
    /// nothing.
    pub fn report_absent(&mut self, peer: &RepoId) -> (resolved: Option<Resolution>)
        requires
            old(self).wf(),
        ensures
            final(self).wf(),
            final(self).document == old(self).document,
            final(self).waiters == old(self).waiters,
            old(self).asked_ids().contains(peer@) ==> {
                &&& final(self).asked_ids() == old(self).asked_ids().remove(
                    old(self).asked_ids().index_of(peer@),
                )
                &&& final(self).absent_ids() == old(self).absent_ids().push(peer@)
                &&& resolved == (if final(self).exhausted() {
                    Some(Resolution::NotFound)
                } else {
                    None
                })
            },
            !old(self).asked_ids().contains(peer@) ==> {
                &&& final(self).asked == old(self).asked
                &&& final(self).absent == old(self).absent
                &&& resolved is None
            },
    {
        let ghost before = self.asked_ids();
        let ghost gone_before = self.absent_ids();
        match position(&self.asked, peer) {
            Some(i) => {
                let moved = self.asked.remove(i);
                self.absent.push(moved);
                proof {
                    let n = i as int;
                    let at = before.index_of(peer@);
                    assert(before[at] == peer@ && before[n] == peer@);
                    assert(at == n);
                    let after = self.asked_ids();
                    assert(after =~= before.remove(n));
                    assert(self.absent_ids() =~= gone_before.push(peer@));
                    assert forall|a: int, b: int|
                        0 <= a < after.len() && 0 <= b < after.len() && a != b implies after[a]
                        != after[b] by {
                        let a0 = if a < n { a } else { a + 1 };
                        let b0 = if b < n { b } else { b + 1 };
                        assert(before[a0] != before[b0]);
                    }
                    assert(!gone_before.contains(peer@)) by {
                        assert(before.contains(peer@));
                    }
                    assert forall|p: Seq<u8>|
                        !(after.contains(p) && self.absent_ids().contains(p)) by {
                        if after.contains(p) {
                            let a = after.index_of(p);
                            let a0 = if a < n { a } else { a + 1 };
                            assert(before[a0] == p);
                            assert(before.contains(p));
                            assert(p != peer@);
                            if self.absent_ids().contains(p) {
                                let b = self.absent_ids().index_of(p);
                                assert(gone_before[b] == p);
                            }
                        }
                    }
                }
                if self.asked.len() == 0 {
                    Some(Resolution::NotFound)
                } else {
                    None
                }
            },
            None => None,
        }
    }

    /// Starts the negotiation for `document` on behalf of `waiter`. Where
    /// the document is held and ready the request resolves at once as
    /// found. Otherwise every connected peer becomes a candidate that is to
    /// be asked, each listed once.
    pub fn start(document: DocumentId, waiter: u64, ready: bool, connected: &Vec<RepoId>) -> (out:
        Result<PendingRequest, Resolution>)
        ensures
            ready ==> out == Err::<PendingRequest, Resolution>(Resolution::Found),
            !ready ==> out is Ok && {
                let request = out->Ok_0;
                &&& request.wf()
                &&& request.document == document
                &&& request.waiters@ == seq![waiter]
                &&& request.absent@.len() == 0
                &&& forall|p: Seq<u8>|
                    #![trigger request.asked_ids().contains(p)]
                    #![trigger spec_ids(connected@).contains(p)]
                    request.asked_ids().contains(p) <==> spec_ids(connected@).contains(p)
            },
    {
        if ready {
            return Err(Resolution::Found);
        }
        let mut request = PendingRequest::new(document, waiter);
        let mut i: usize = 0;
        assert(request.asked_ids() =~= Seq::<Seq<u8>>::empty());
        while i < connected.len()
            invariant
                i <= connected@.len(),
                request.wf(),
                request.document == document,
                request.waiters@ == seq![waiter],
                request.absent@.len() == 0,
                forall|p: Seq<u8>|
                    #![trigger request.asked_ids().contains(p)]
                    #![trigger spec_ids(connected@).subrange(0, i as int).contains(p)]
                    request.asked_ids().contains(p) <==> spec_ids(connected@).subrange(
                        0,
                        i as int,
                    ).contains(p),
            decreases connected.len() - i,
        {
            let ghost listed = request.asked_ids();
            let ghost n = i as int;
            let ghost all = spec_ids(connected@);
            let ask = request.add_candidate(&connected[i]);
            proof {
                let now = request.asked_ids();
                let here = all[n];
                assert(request.absent_ids() =~= Seq::<Seq<u8>>::empty());
                assert(all.subrange(0, n + 1) =~= all.subrange(0, n).push(here));
                assert forall|p: Seq<u8>|
                    #![trigger now.contains(p)]
                    #![trigger all.subrange(0, n + 1).contains(p)]
                    now.contains(p) <==> all.subrange(0, n + 1).contains(p) by {
                    if now.contains(p) {
                        if p != here {
                            let a = now.index_of(p);
                            assert(listed[a] == p);
                            assert(listed.contains(p));
                            let b = all.subrange(0, n).index_of(p);
                            assert(all.subrange(0, n + 1)[b] == p);
                        } else {
                            assert(all.subrange(0, n + 1)[n] == p);
                        }
                    }
                    if all.subrange(0, n + 1).contains(p) {
                        let b = all.subrange(0, n + 1).index_of(p);
                        if b < n {
                            assert(all.subrange(0, n)[b] == p);
                            assert(listed.contains(p));
                            let a = listed.index_of(p);
                            assert(now[a] == p);
                        } else {
                            assert(p == here);
                            if ask {
                                assert(now[listed.len() as int] == p);
                            } else {
                                assert(listed.contains(p));
                            }
                        }
                    }
                }
            }
            i += 1;
        }
        assert(spec_ids(connected@).subrange(0, i as int) =~= spec_ids(connected@));
        Ok(request)
    }

    /// Ends the negotiation and gives the waiters, each of which is to be
    /// told how the request ended.
    pub fn finish(self) -> (waiters: Vec<u64>)
        ensures
            waiters@ == self.waiters@,
    {
        self.waiters
    }
}

} // verus!
