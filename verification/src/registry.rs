//! The session registry: a mutually-exclusive mapping from session id to an
//! owned session record.
//!
//! The registry is the only structure that more than one caller mutates, so
//! its whole contract is stated here: atomic check-and-insert (two
//! simultaneous spawns for one id leave exactly one record), lookup that
//! fails cleanly on absent ids, and removal that is idempotent for kill.
//! Ids are byte strings; the registry is specified as a `Map<Seq<u8>, R>`.

use vstd::prelude::*;

verus! {

/// Compare two ids byte for byte.
pub fn id_eq(a: &Vec<u8>, b: &Vec<u8>) -> (r: bool)
    ensures
        r == (a@ == b@),
{
    if a.len() != b.len() {
        return false;
    }
    let mut i: usize = 0;
    while i < a.len()
        invariant
            a@.len() == b@.len(),
            i <= a@.len(),
            forall|k: int| 0 <= k < i ==> a@[k] == b@[k],
        decreases a@.len() - i,
    {
        if a[i] != b[i] {
            return false;
        }
        i += 1;
    }
    proof {
        assert(a@ =~= b@);
    }
    true
}

/// An owned duplicate of an id, byte for byte.
pub fn copy_id(a: &Vec<u8>) -> (r: Vec<u8>)
    ensures
        r@ == a@,
{
    let mut out: Vec<u8> = Vec::new();
    let mut i: usize = 0;
    while i < a.len()
        invariant
            i <= a@.len(),
            out@ == a@.take(i as int),
        decreases a@.len() - i,
    {
        out.push(a[i]);
        proof {
            assert(out@ =~= a@.take(i as int + 1));
        }
        i += 1;
    }
    proof {
        assert(a@.take(a@.len() as int) =~= a@);
    }
    out
}

/// One registry slot: a session id and the record it owns.
pub struct RegEntry<R> {
    pub id: Vec<u8>,
    pub record: R,
}

/// The authoritative table of live sessions.
pub struct Registry<R> {
    pub entries: Vec<RegEntry<R>>,
}

impl<R> View for Registry<R> {
    type V = Map<Seq<u8>, R>;

    open spec fn view(&self) -> Map<Seq<u8>, R> {
        Map::new(|id: Seq<u8>| self.spec_contains(id), |id: Seq<u8>| self.spec_at(id))
    }
}

impl<R> Registry<R> {
    /// Well-formed: at most one entry per id.
    pub open spec fn wf(self) -> bool {
        forall|i: int, j: int|
            0 <= i < j < self.entries@.len() ==> self.entries@[i].id@ != self.entries@[j].id@
    }

    pub open spec fn spec_contains(self, id: Seq<u8>) -> bool {
        exists|i: int| 0 <= i < self.entries@.len() && self.entries@[i].id@ == id
    }

    pub open spec fn spec_at(self, id: Seq<u8>) -> R {
        self.entries@[choose|i: int|
            0 <= i < self.entries@.len() && self.entries@[i].id@ == id].record
    }

    /// How many records are live.
    pub open spec fn spec_len(self) -> nat {
        self.entries@.len()
    }

    /// In a well-formed registry, an id names at most one entry: any two
    /// indices holding the same id are the same index.
    pub proof fn lemma_at_most_one_entry(self, id: Seq<u8>, i: int, j: int)
        requires
            self.wf(),
            0 <= i < self.entries@.len(),
            0 <= j < self.entries@.len(),
            self.entries@[i].id@ == id,
            self.entries@[j].id@ == id,
        ensures
            i == j,
    {
        if i < j {
            assert(self.entries@[i].id@ != self.entries@[j].id@);
        }
        if j < i {
            assert(self.entries@[j].id@ != self.entries@[i].id@);
        }
    }

    /// The record an index holds is the record the registry maps its id to.
    pub proof fn lemma_at_witness(self, id: Seq<u8>, i: int)
        requires
            self.wf(),
            0 <= i < self.entries@.len(),
            self.entries@[i].id@ == id,
        ensures
            self.spec_contains(id),
            self.spec_at(id) == self.entries@[i].record,
    {
        assert(self.spec_contains(id));
        let j = choose|j: int| 0 <= j < self.entries@.len() && self.entries@[j].id@ == id;
        self.lemma_at_most_one_entry(id, i, j);
    }

    /// An empty registry.
    pub fn new() -> (r: Registry<R>)
        ensures
            r.wf(),
            r@ == Map::<Seq<u8>, R>::empty(),
            r.spec_len() == 0,
    {
        let r = Registry { entries: Vec::new() };
        proof {
            assert(r@ =~= Map::<Seq<u8>, R>::empty());
        }
        r
    }

    fn find_index(&self, id: &Vec<u8>) -> (r: Option<usize>)
        ensures
            match r {
                Some(i) => i < self.entries@.len() && self.entries@[i as int].id@ == id@,
                None => !self.spec_contains(id@),
            },
    {
        let mut i: usize = 0;
        while i < self.entries.len()
            invariant
                i <= self.entries@.len(),
                forall|k: int| 0 <= k < i ==> self.entries@[k].id@ != id@,
            decreases self.entries@.len() - i,
        {
            if id_eq(&self.entries[i].id, id) {
                return Some(i);
            }
            i += 1;
        }
        None
    }

    /// Is a record live under this id?
    pub fn contains(&self, id: &Vec<u8>) -> (r: bool)
        requires
            self.wf(),
        ensures
            r == self@.dom().contains(id@),
    {
        match self.find_index(id) {
            Some(i) => {
                proof {
                    self.lemma_at_witness(id@, i as int);
                }
                true
            },
            None => false,
        }
    }

    /// Borrow the record live under this id, or learn that none is. Never
    /// blocks: the caller holds whatever lock guards the registry.
    pub fn lookup(&self, id: &Vec<u8>) -> (r: Option<&R>)
        requires
            self.wf(),
        ensures
            match r {
                Some(rec) => self@.dom().contains(id@) && *rec == self@[id@],
                None => !self@.dom().contains(id@),
            },
    {
        match self.find_index(id) {
            Some(i) => {
                proof {
                    self.lemma_at_witness(id@, i as int);
                }
                Some(&self.entries[i].record)
            },
            None => None,
        }
    }

    /// How many records are live.
    pub fn count(&self) -> (r: usize)
        ensures
            r == self.spec_len(),
    {
        self.entries.len()
    }

    /// Atomic check-and-insert. If the id is already taken the registry is
    /// left unchanged and the caller's freshly built record is discarded;
    /// that is reported through the result, not as an error.
    pub fn insert_if_absent(&mut self, id: Vec<u8>, record: R) -> (inserted: bool)
        requires
            old(self).wf(),
        ensures
            final(self).wf(),
            inserted == !old(self)@.dom().contains(id@),
            inserted ==> final(self)@ == old(self)@.insert(id@, record),
            inserted ==> final(self).spec_len() == old(self).spec_len() + 1,
            !inserted ==> *final(self) == *old(self),
    {
        match self.find_index(&id) {
            Some(i) => {
                proof {
                    self.lemma_at_witness(id@, i as int);
                }
                false
            },
            None => {
                let ghost pre = *self;
                let ghost idv = id@;
                self.entries.push(RegEntry { id, record });
                proof {
                    let n = pre.entries@.len() as int;
                    assert(self.entries@ =~= pre.entries@.push(
                        RegEntry { id: self.entries@[n].id, record: self.entries@[n].record },
                    ));
                    assert(self.entries@[n].id@ == idv);
                    assert forall|i: int, j: int|
                        0 <= i < j < self.entries@.len() implies self.entries@[i].id@
                        != self.entries@[j].id@ by {
                        if j < n {
                            assert(pre.entries@[i].id@ != pre.entries@[j].id@);
                        } else {
                            assert(self.entries@[i] == pre.entries@[i]);
                            if self.entries@[i].id@ == idv {
                                assert(pre.spec_contains(idv));
                            }
                        }
                    }
                    assert forall|k: Seq<u8>| #[trigger]
                        self.spec_contains(k) == (pre.spec_contains(k) || k == idv) by {
                        if pre.spec_contains(k) {
                            let w = choose|w: int|
                                0 <= w < pre.entries@.len() && pre.entries@[w].id@ == k;
                            assert(self.entries@[w].id@ == k);
                        }
                        if self.spec_contains(k) && k != idv {
                            let w = choose|w: int|
                                0 <= w < self.entries@.len() && self.entries@[w].id@ == k;
                            assert(w < n);
                            assert(pre.entries@[w].id@ == k);
                        }
                    }
                    assert forall|k: Seq<u8>| #[trigger] self.spec_contains(k) implies self.spec_at(
                        k,
                    ) == pre@.insert(idv, self.entries@[n].record)[k] by {
                        if k == idv {
                            self.lemma_at_witness(k, n);
                        } else {
                            let w = choose|w: int|
                                0 <= w < pre.entries@.len() && pre.entries@[w].id@ == k;
                            pre.lemma_at_witness(k, w);
                            self.lemma_at_witness(k, w);
                        }
                    }
                    assert(self@ =~= pre@.insert(idv, self.entries@[n].record));
                }
                true
            },
        }
    }

    /// Remove and hand back the record live under this id. Removing an
    /// absent id leaves the registry unchanged and returns nothing, so a
    /// caller racing the worker's own cleanup is safe.
    pub fn remove(&mut self, id: &Vec<u8>) -> (r: Option<R>)
        requires
            old(self).wf(),
        ensures
            final(self).wf(),
            final(self)@ == old(self)@.remove(id@),
            match r {
                Some(rec) => old(self)@.dom().contains(id@) && rec == old(self)@[id@]
                    && final(self).spec_len() == old(self).spec_len() - 1,
                None => !old(self)@.dom().contains(id@) && *final(self) == *old(self),
            },
    {
        match self.find_index(id) {
            Some(i) => {
                let ghost pre = *self;
                let ghost idv = id@;
                proof {
                    pre.lemma_at_witness(idv, i as int);
                }
                let e = self.entries.remove(i);
                proof {
                    let n = pre.entries@.len() as int;
                    let ii = i as int;
                    assert(self.entries@ =~= pre.entries@.remove(ii));
                    assert forall|x: int, y: int|
                        0 <= x < y < self.entries@.len() implies self.entries@[x].id@
                        != self.entries@[y].id@ by {
                        let px = if x < ii { x } else { x + 1 };
                        let py = if y < ii { y } else { y + 1 };
                        assert(self.entries@[x] == pre.entries@[px]);
                        assert(self.entries@[y] == pre.entries@[py]);
                        assert(pre.entries@[px].id@ != pre.entries@[py].id@);
                    }
                    assert forall|k: Seq<u8>| #[trigger]
                        self.spec_contains(k) == (pre.spec_contains(k) && k != idv) by {
                        if self.spec_contains(k) {
                            let w = choose|w: int|
                                0 <= w < self.entries@.len() && self.entries@[w].id@ == k;
                            let pw = if w < ii { w } else { w + 1 };
                            assert(self.entries@[w] == pre.entries@[pw]);
                            assert(pre.entries@[pw].id@ == k);
                            if k == idv {
                                pre.lemma_at_most_one_entry(idv, pw, ii);
                            }
                        }
                        if pre.spec_contains(k) && k != idv {
                            let w = choose|w: int|
                                0 <= w < pre.entries@.len() && pre.entries@[w].id@ == k;
                            if w < ii {
                                assert(self.entries@[w].id@ == k);
                            } else {
                                assert(w != ii);
                                assert(self.entries@[w - 1] == pre.entries@[w]);
                                assert(self.entries@[w - 1].id@ == k);
                            }
                        }
                    }
                    assert forall|k: Seq<u8>| #[trigger] self.spec_contains(k) implies self.spec_at(
                        k,
                    ) == pre@[k] by {
                        let w = choose|w: int|
                            0 <= w < self.entries@.len() && self.entries@[w].id@ == k;
                        let pw = if w < ii { w } else { w + 1 };
                        assert(self.entries@[w] == pre.entries@[pw]);
                        pre.lemma_at_witness(k, pw);
                        self.lemma_at_witness(k, w);
                    }
                    assert(self@ =~= pre@.remove(idv));
                }
                Some(e.record)
            },
            None => {
                proof {
                    assert(self@ =~= self@.remove(id@));
                }
                None
            },
        }
    }
}

} // verus!
