//! The pending-request table: a map from correlation id to the
//! single-shot delivery slot of the caller waiting for that id.
//!
//! The slot type `S` is opaque to the core (the host hands in the send
//! half of a one-shot channel); the table only stores, returns and
//! removes slots.  The table's one invariant is that each correlation id
//! appears at most once.

use vstd::prelude::*;

use crate::error::KatagoError;

verus! {

pub struct PendingTable<S> {
    entries: Vec<(String, S)>,
}

spec fn seq_view<S>(v: Seq<(String, S)>) -> Seq<(Seq<char>, S)> {
    Seq::new(v.len(), |i: int| (v[i].0@, v[i].1))
}

impl<S> View for PendingTable<S> {
    type V = Seq<(Seq<char>, S)>;

    closed spec fn view(&self) -> Seq<(Seq<char>, S)> {
        seq_view(self.entries@)
    }
}

impl<S> PendingTable<S> {
    /// Whether an entry for `id` is present.
    pub open spec fn spec_contains(&self, id: Seq<char>) -> bool {
        seq_has_id(self@, id)
    }

    /// Each correlation id appears at most once.
    pub open spec fn wf(&self) -> bool {
        forall|i: int, j: int|
            0 <= i < self@.len() && 0 <= j < self@.len() && #[trigger] self@[i].0
                == #[trigger] self@[j].0 ==> i == j
    }

    /// The table holds at most one entry for any correlation id: two
    /// positions carrying the same id are the same position.
    pub proof fn lemma_at_most_one_entry(&self, i: int, j: int)
        requires
            self.wf(),
            0 <= i < self@.len(),
            0 <= j < self@.len(),
            self@[i].0 == self@[j].0,
        ensures
            i == j,
    {
    }

    pub fn new() -> (t: Self)
        ensures
            t@ == Seq::<(Seq<char>, S)>::empty(),
            t.wf(),
    {
        let t = PendingTable { entries: Vec::new() };
        proof {
            assert(t@ =~= Seq::<(Seq<char>, S)>::empty());
        }
        t
    }

    pub fn len(&self) -> (n: usize)
        ensures
            n == self@.len(),
    {
        self.entries.len()
    }

    /// The position of the entry for `id`, if any.
    fn find(&self, id: &String) -> (r: Option<usize>)
        ensures
            match r {
                Some(i) => i < self@.len() && self@[i as int].0 == id@,
                None => !self.spec_contains(id@),
            },
    {
        let n = self.entries.len();
        let mut i: usize = 0;
        while i < n
            invariant
                n == self@.len(),
                i <= n,
                forall|j: int| 0 <= j < i ==> #[trigger] self@[j].0 != id@,
            decreases n - i,
        {
            if self.entries[i].0 == *id {
                return Some(i);
            }
            i = i + 1;
        }
        None
    }

    /// Registers a waiter for `id`.  Fails, leaving the table unchanged,
    /// exactly when `id` is already present.
    pub fn register(&mut self, id: String, slot: S) -> (r: Result<(), KatagoError>)
        ensures
            old(self).spec_contains(id@) ==> (r matches Err(e) && (e matches
                KatagoError::DuplicateId(d) && d@ == id@) && final(self)@ == old(self)@),
            !old(self).spec_contains(id@) ==> r is Ok && final(self)@ == old(self)@.push(
                (id@, slot),
            ),
            old(self).wf() ==> final(self).wf(),
    {
        if self.find(&id).is_some() {
            return Err(KatagoError::DuplicateId(id));
        }
        let ghost pre = self@;
        let ghost idv = id@;
        self.entries.push((id, slot));
        proof {
            assert(self@ =~= pre.push((idv, slot)));
        }
        Ok(())
    }

    /// Removes and returns the slot registered for `id`, if present: the
    /// caller of a delivery sends the response line on it, the caller of
    /// a cancellation drops it so the waiter observes cancellation.
    pub fn remove(&mut self, id: &String) -> (r: Option<S>)
        ensures
            match r {
                Some(s) => exists|i: int|
                    0 <= i < old(self)@.len() && old(self)@[i] == (id@, s) && final(self)@ == old(
                        self,
                    )@.remove(i),
                None => !old(self).spec_contains(id@) && final(self)@ == old(self)@,
            },
            old(self).wf() ==> !final(self).spec_contains(id@),
            old(self).wf() ==> final(self).wf(),
    {
        match self.find(id) {
            Some(i) => {
                let ghost pre = self@;
                let e = self.entries.remove(i);
                proof {
                    assert(self@ =~= pre.remove(i as int));
                    assert(pre[i as int] == (id@, e.1));
                    if old(self).wf() {
                        assert forall|k: int| 0 <= k < self@.len() implies self@[k].0 != id@ by {
                            if k < i {
                                assert(pre[k].0 == self@[k].0);
                            } else {
                                assert(pre[k + 1].0 == self@[k].0);
                            }
                        }
                    }
                }
                Some(e.1)
            },
            None => None,
        }
    }

    /// Removes every entry and returns all the slots; the supervisor
    /// drops them on engine death so every waiter observes cancellation.
    pub fn drain_all(&mut self) -> (r: Vec<S>)
        ensures
            final(self)@ == Seq::<(Seq<char>, S)>::empty(),
            final(self).wf(),
            r@.len() == old(self)@.len(),
            forall|i: int| 0 <= i < r@.len() ==> r@[i] == old(self)@[i].1,
    {
        let mut rest: Vec<(String, S)> = Vec::new();
        core::mem::swap(&mut self.entries, &mut rest);
        proof {
            assert(self@ =~= Seq::<(Seq<char>, S)>::empty());
        }
        let ghost drained = old(self)@;
        let ghost n = drained.len();
        let mut out: Vec<S> = Vec::new();
        while rest.len() > 0
            invariant
                out@.len() + rest@.len() == n,
                forall|j: int| 0 <= j < out@.len() ==> out@[j] == drained[j].1,
                forall|j: int|
                    0 <= j < rest@.len() ==> (#[trigger] rest@[j].0@, rest@[j].1) == drained[
                        out@.len() + j
                    ],
            decreases rest@.len(),
        {
            let ghost k = out@.len() as int;
            let ghost prev = rest@;
            let (_, s) = rest.remove(0);
            proof {
                assert((prev[0].0@, prev[0].1) == drained[k]);
                assert(s == drained[k].1);
            }
            out.push(s);
        }
        out
    }
}

/// Whether some entry of `v` carries the id `id`.
pub open spec fn seq_has_id<S>(v: Seq<(Seq<char>, S)>, id: Seq<char>) -> bool {
    exists|i: int| 0 <= i < v.len() && v[i].0 == id
}

/// Appending an entry makes exactly its id newly present.
pub proof fn lemma_push_has_id<S>(v: Seq<(Seq<char>, S)>, p: (Seq<char>, S), other: Seq<char>)
    ensures
        seq_has_id(v.push(p), other) == (seq_has_id(v, other) || p.0 == other),
{
    let w = v.push(p);
    if seq_has_id(v, other) {
        let j = choose|j: int| 0 <= j < v.len() && v[j].0 == other;
        assert(w[j].0 == other);
    }
    if p.0 == other {
        assert(w[v.len() as int].0 == other);
    }
    if seq_has_id(w, other) {
        let j = choose|j: int| 0 <= j < w.len() && w[j].0 == other;
        if j < v.len() {
            assert(v[j].0 == other);
        }
    }
}


} // verus!
