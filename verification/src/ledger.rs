//! Deduplication ledger: a bounded, insertion-ordered history of fully
//! uploaded signatures and an unbounded set of signatures whose upload is
//! currently in flight. The history holds at most [`HISTORY_BOUND`] entries
//! and evicts its oldest entry first; the in-flight set is deliberately
//! unbounded, an intentional asymmetry.

use vstd::prelude::*;

use crate::seq_set::{
    distinct, lemma_insert_member, lemma_remove_absent, lemma_to_set_push, lemma_to_set_remove,
};
use crate::signature::{FileSignature, SigView};

verus! {

/// Most entries the upload history retains before evicting its oldest.
pub const HISTORY_BOUND: usize = 25;

/// Mathematical value of a [`Ledger`].
pub ghost struct LedgerView {
    /// Uploaded signatures, oldest first.
    pub history: Seq<SigView>,
    /// Signatures whose upload attempt is currently running.
    pub inflight: Set<SigView>,
}

/// Process-wide deduplication state; never persisted.
pub struct Ledger {
    history: Vec<FileSignature>,
    inflight: Vec<FileSignature>,
}

impl View for Ledger {
    type V = LedgerView;

    closed spec fn view(&self) -> LedgerView {
        LedgerView {
            history: self.history@.map_values(|s: FileSignature| s@),
            inflight: self.inflight@.map_values(|s: FileSignature| s@).to_set(),
        }
    }
}

/// The history after appending `v` to `h`: the oldest entry is evicted first
/// whenever the bound would otherwise be exceeded.
pub open spec fn committed(h: Seq<SigView>, v: SigView) -> Seq<SigView> {
    if h.len() < HISTORY_BOUND { h.push(v) } else { h.subrange(1, h.len() as int).push(v) }
}

impl Ledger {
    /// Internal well-formedness: the history respects its bound and the
    /// in-flight vector holds no duplicate signatures.
    pub closed spec fn wf(&self) -> bool {
        &&& self.history@.len() <= HISTORY_BOUND
        &&& distinct(self.inflight@.map_values(|s: FileSignature| s@))
    }

    /// A well-formed ledger's history is within its bound.
    pub proof fn lemma_history_bound(&self)
        requires
            self.wf(),
        ensures
            self@.history.len() <= HISTORY_BOUND,
    {
    }

    /// A fresh ledger: nothing processed, nothing in flight.
    pub fn new() -> (l: Ledger)
        ensures
            l.wf(),
            l@.history == Seq::<SigView>::empty(),
            l@.inflight == Set::<SigView>::empty(),
    {
        let l = Ledger { history: Vec::new(), inflight: Vec::new() };
        proof {
            assert(l@.history =~= Seq::<SigView>::empty());
            assert(l@.inflight =~= Set::<SigView>::empty());
        }
        l
    }

    /// Scans `v` for an entry equal to `sig`.
    fn find_in(v: &Vec<FileSignature>, sig: &FileSignature) -> (r: Option<usize>)
        ensures
            match r {
                Some(i) => i < v@.len() && v@[i as int]@ == sig@,
                None => forall|i: int| 0 <= i < v@.len() ==> v@[i]@ != sig@,
            },
    {
        let mut i: usize = 0;
        while i < v.len()
            invariant
                i <= v@.len(),
                forall|j: int| 0 <= j < i ==> v@[j]@ != sig@,
            decreases v@.len() - i,
        {
            if v[i].same(sig) {
                return Some(i);
            }
            i = i + 1;
        }
        None
    }

    /// True iff an equal signature is present in the upload history.
    pub fn has_already_been_processed(&self, sig: &FileSignature) -> (r: bool)
        ensures
            r == self@.history.contains(sig@),
    {
        let found = Self::find_in(&self.history, sig);
        proof {
            let m = self.history@.map_values(|s: FileSignature| s@);
            match found {
                Some(i) => {
                    assert(m[i as int] == sig@);
                },
                None => {
                    assert forall|j: int| 0 <= j < m.len() implies m[j] != sig@ by {
                        assert(self.history@[j]@ != sig@);
                    }
                },
            }
        }
        found.is_some()
    }

    /// True iff an equal signature is currently being uploaded.
    pub fn is_in_flight(&self, sig: &FileSignature) -> (r: bool)
        ensures
            r == self@.inflight.contains(sig@),
    {
        let found = Self::find_in(&self.inflight, sig);
        proof {
            let m = self.inflight@.map_values(|s: FileSignature| s@);
            match found {
                Some(i) => {
                    assert(m[i as int] == sig@);
                    assert(m.contains(sig@));
                },
                None => {
                    assert forall|j: int| 0 <= j < m.len() implies m[j] != sig@ by {
                        assert(self.inflight@[j]@ != sig@);
                    }
                    assert(!m.contains(sig@));
                },
            }
        }
        found.is_some()
    }

    /// Number of entries the history currently holds.
    pub fn history_len(&self) -> (n: usize)
        ensures
            n == self@.history.len(),
    {
        self.history.len()
    }

    /// Atomic admission: if no equal signature is in flight, inserts `sig` and
    /// admits; otherwise refuses. Under a lock this single step is what keeps
    /// two near-simultaneous events from uploading the same file twice.
    pub fn try_admit(&mut self, sig: &FileSignature) -> (admitted: bool)
        requires
            old(self).wf(),
        ensures
            final(self).wf(),
            admitted == !old(self)@.inflight.contains(sig@),
            final(self)@.inflight == old(self)@.inflight.insert(sig@),
            final(self)@.history == old(self)@.history,
    {
        let ghost m0 = self.inflight@.map_values(|s: FileSignature| s@);
        match Self::find_in(&self.inflight, sig) {
            Some(i) => {
                proof {
                    assert(m0[i as int] == sig@);
                    assert(m0.contains(sig@));
                    lemma_insert_member(m0.to_set(), sig@);
                }
                false
            },
            None => {
                self.inflight.push(sig.duplicate());
                proof {
                    let m1 = self.inflight@.map_values(|s: FileSignature| s@);
                    assert(m1 =~= m0.push(sig@));
                    assert forall|j: int| 0 <= j < m0.len() implies m0[j] != sig@ by {
                        assert(old(self).inflight@[j]@ != sig@);
                    }
                    assert(!m0.contains(sig@));
                    lemma_to_set_push(m0, sig@);
                }
                true
            },
        }
    }

    /// Removes `sig` from the in-flight set; a no-op when it is absent. Must
    /// run exactly once per successful admission, whatever the outcome of the
    /// upload attempt, or the signature stays stuck and blocks every retry.
    pub fn clear_in_progress(&mut self, sig: &FileSignature)
        requires
            old(self).wf(),
        ensures
            final(self).wf(),
            final(self)@.inflight == old(self)@.inflight.remove(sig@),
            final(self)@.history == old(self)@.history,
    {
        let ghost m0 = self.inflight@.map_values(|s: FileSignature| s@);
        match Self::find_in(&self.inflight, sig) {
            Some(i) => {
                self.inflight.remove(i);
                proof {
                    let m1 = self.inflight@.map_values(|s: FileSignature| s@);
                    assert(m1 =~= m0.remove(i as int));
                    assert(m0[i as int] == sig@);
                    lemma_to_set_remove(m0, i as int);
                    assert forall|p: int, q: int| 0 <= p < q < m1.len() implies m1[p] != m1[q] by {
                        if q < i {
                            assert(m1[p] == m0[p] && m1[q] == m0[q]);
                        } else if p < i {
                            assert(m1[p] == m0[p] && m1[q] == m0[q + 1]);
                        } else {
                            assert(m1[p] == m0[p + 1] && m1[q] == m0[q + 1]);
                        }
                    }
                }
            },
            None => {
                proof {
                    assert forall|j: int| 0 <= j < m0.len() implies m0[j] != sig@ by {
                        assert(self.inflight@[j]@ != sig@);
                    }
                    assert(!m0.contains(sig@));
                    lemma_remove_absent(m0.to_set(), sig@);
                }
            },
        }
    }

    /// Appends `sig` to the upload history, evicting the oldest entry once the
    /// bound would be exceeded.
    pub fn mark_as_processed(&mut self, sig: FileSignature)
        requires
            old(self).wf(),
        ensures
            final(self).wf(),
            final(self)@.history == committed(old(self)@.history, sig@),
            final(self)@.history.len() <= HISTORY_BOUND,
            final(self)@.inflight == old(self)@.inflight,
    {
        let ghost h0 = self.history@.map_values(|s: FileSignature| s@);
        let ghost v = sig@;
        self.history.push(sig);
        proof {
            assert(self.history@.map_values(|s: FileSignature| s@) =~= h0.push(v));
        }
        if self.history.len() > HISTORY_BOUND {
            self.history.remove(0);
            proof {
                let m1 = self.history@.map_values(|s: FileSignature| s@);
                assert(m1 =~= h0.push(v).remove(0));
                assert(m1 =~= h0.subrange(1, h0.len() as int).push(v));
            }
        }
    }
}

/// Admission is idempotent until release: after one successful admission the
/// signature is in flight, so an immediately repeated admission of the same
/// signature is refused; releasing it restores the original in-flight set, and
/// only then can the signature be admitted again.
pub proof fn lemma_admission_idempotent(inflight: Set<SigView>, sig: SigView)
    requires
        !inflight.contains(sig),
    ensures
        inflight.insert(sig).contains(sig),
        inflight.insert(sig).remove(sig) == inflight,
{
    assert(inflight.insert(sig).remove(sig) =~= inflight);
}

/// Committing a signature makes exactly that signature processed: afterwards
/// the history contains it, and contains no signature that differs in stem,
/// size or modification time unless that one had been committed before.
pub proof fn lemma_commit_membership(h: Seq<SigView>, sig: SigView, other: SigView)
    requires
        other != sig,
        !h.contains(other),
    ensures
        committed(h, sig).contains(sig),
        !committed(h, sig).contains(other),
{
    let c = committed(h, sig);
    assert(c[c.len() - 1] == sig);
    assert forall|i: int| 0 <= i < c.len() implies c[i] != other by {
        if i < c.len() - 1 {
            if h.len() < HISTORY_BOUND {
                assert(c[i] == h[i]);
            } else {
                assert(c[i] == h[i + 1]);
            }
        }
    }
}

/// The history never exceeds its bound, and once it is full each further
/// commit evicts the oldest of the retained entries: if that entry appears
/// nowhere else, it is no longer found afterwards.
pub proof fn lemma_commit_bound_and_eviction(h: Seq<SigView>, sig: SigView)
    requires
        h.len() <= HISTORY_BOUND,
    ensures
        committed(h, sig).len() <= HISTORY_BOUND,
        h.len() == HISTORY_BOUND && sig != h[0] && (forall|i: int|
            1 <= i < h.len() ==> #[trigger] h[i] != h[0]) ==> !committed(h, sig).contains(h[0]),
{
    let c = committed(h, sig);
    if h.len() == HISTORY_BOUND && sig != h[0] && (forall|i: int|
        1 <= i < h.len() ==> #[trigger] h[i] != h[0]) {
        assert forall|i: int| 0 <= i < c.len() implies c[i] != h[0] by {
            if i < c.len() - 1 {
                assert(c[i] == h[i + 1]);
            }
        }
    }
}

} // verus!
