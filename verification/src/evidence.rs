use vstd::prelude::*;

use crate::verdict::{join, join_all, Verdict};

verus! {

/// Maximum number of verdicts an [`EvidenceLog`] can record without allocation.
pub const EVIDENCE_LOG_CAPACITY: usize = 16;

/// Fixed-capacity log of verdicts with a running join state.
///
/// Stores up to [`EVIDENCE_LOG_CAPACITY`] entries in a stack array. The
/// recorded verdicts are the view `self@`; the running state is always the
/// join of all of them, `join_all(self@)`, which is `Unknown` (the merge
/// identity) for an empty log.
#[derive(Debug, PartialEq, Eq)]
pub struct EvidenceLog {
    entries: [Verdict; EVIDENCE_LOG_CAPACITY],
    len: usize,
    state: Verdict,
}

impl View for EvidenceLog {
    type V = Seq<Verdict>;

    closed spec fn view(&self) -> Seq<Verdict> {
        self.entries@.subrange(0, self.len as int)
    }
}

impl Clone for EvidenceLog {
    /// Copies the buffer, the length and the running state.
    fn clone(&self) -> (r: Self)
        ensures
            r == *self,
    {
        proof {
            use_type_invariant(self);
        }
        EvidenceLog { entries: self.entries, len: self.len, state: self.state }
    }
}

impl EvidenceLog {
    /// Every slot of the fixed buffer, the recorded prefix and the spare
    /// slots after it.
    pub closed spec fn slots(&self) -> Seq<Verdict> {
        self.entries@
    }


    #[verifier::type_invariant]
    spec fn consistent(self) -> bool {
        &&& self.len <= EVIDENCE_LOG_CAPACITY
        &&& self.state == join_all(self.entries@.subrange(0, self.len as int))
    }

    /// Empty log; running state is `Unknown`.
    pub fn new() -> (r: Self)
        ensures
            r@ == Seq::<Verdict>::empty(),
            r.slots() == Seq::new(EVIDENCE_LOG_CAPACITY as nat, |i: int| Verdict::Unknown),
    {
        let entries: [Verdict; EVIDENCE_LOG_CAPACITY] = [Verdict::Unknown; EVIDENCE_LOG_CAPACITY];
        assert(entries == vstd::array::spec_array_fill_for_copy_type::<Verdict, EVIDENCE_LOG_CAPACITY>(Verdict::Unknown));
        let r = EvidenceLog {
            entries,
            len: 0,
            state: Verdict::Unknown,
        };
        assert(r.entries@.subrange(0, 0) =~= Seq::<Verdict>::empty());
        assert(r.slots() =~= Seq::new(EVIDENCE_LOG_CAPACITY as nat, |i: int| Verdict::Unknown));
        r
    }

    /// Number of recorded verdicts.
    pub fn len(&self) -> (r: usize)
        ensures
            r == self@.len(),
            r <= EVIDENCE_LOG_CAPACITY,
    {
        proof {
            use_type_invariant(self);
        }
        self.len
    }

    /// Fixed buffer capacity (always [`EVIDENCE_LOG_CAPACITY`]).
    pub fn capacity(&self) -> (r: usize)
        ensures
            r == EVIDENCE_LOG_CAPACITY,
    {
        EVIDENCE_LOG_CAPACITY
    }

    /// Whether no verdicts have been appended.
    pub fn is_empty(&self) -> (r: bool)
        ensures
            r == (self@.len() == 0),
    {
        proof {
            use_type_invariant(self);
        }
        self.len == 0
    }

    /// Whether the fixed buffer is full.
    pub fn is_full(&self) -> (r: bool)
        ensures
            r == (self@.len() == EVIDENCE_LOG_CAPACITY),
    {
        proof {
            use_type_invariant(self);
        }
        self.len == EVIDENCE_LOG_CAPACITY
    }

    /// Running join of all appended verdicts.
    pub fn state(&self) -> (r: Verdict)
        ensures
            r == join_all(self@),
    {
        proof {
            use_type_invariant(self);
        }
        self.state
    }

    /// Recorded verdicts in append order (prefix of the internal buffer).
    pub fn entries(&self) -> (r: &[Verdict])
        ensures
            r@ == self@,
    {
        proof {
            use_type_invariant(self);
        }
        vstd::slice::slice_subrange(self.entries.as_slice(), 0, self.len)
    }

    /// Appends `verdict`, merging it into the running state.
    ///
    /// Returns `Ok(state)` with the new running state on success, or
    /// `Err(verdict)` if the buffer is full, in which case nothing changes.
    pub fn append(&mut self, verdict: Verdict) -> (r: Result<Verdict, Verdict>)
        ensures
            final(self)@.len() <= EVIDENCE_LOG_CAPACITY,
            old(self)@.len() < EVIDENCE_LOG_CAPACITY ==> {
                &&& final(self)@ == old(self)@.push(verdict)
                &&& r == Ok::<Verdict, Verdict>(join_all(final(self)@))
                &&& join_all(final(self)@) == join(join_all(old(self)@), verdict)
                &&& final(self).slots() == old(self).slots().update(old(self)@.len() as int, verdict)
            },
            old(self)@.len() >= EVIDENCE_LOG_CAPACITY ==> r == Err::<Verdict, Verdict>(verdict)
                && *final(self) == *old(self),
    {
        proof {
            use_type_invariant(&*self);
        }
        if self.is_full() {
            return Err(verdict);
        }
        let ghost before = self@;
        let i = self.len;
        let mut entries = self.entries;
        entries[i] = verdict;
        let state = self.state.merge(verdict);
        assert(entries@.subrange(0, i + 1) =~= before.push(verdict));
        assert(before.push(verdict).drop_last() =~= before);
        *self = EvidenceLog { entries, len: i + 1, state };
        Ok(state)
    }
}

impl Default for EvidenceLog {
    /// An empty log.
    fn default() -> (r: Self)
        ensures
            r@ == Seq::<Verdict>::empty(),
            r.slots() == Seq::new(EVIDENCE_LOG_CAPACITY as nat, |i: int| Verdict::Unknown),
    {
        Self::new()
    }
}

} // verus!
