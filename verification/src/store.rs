//! The external durable substrate, modeled as an explicit key-value store
//! from record addresses to records. Keys are unique; reads and writes are
//! the per-transaction primitives that the lifecycle operations compose.

use vstd::prelude::*;
use crate::addressing::{Address, AddressView, address_eq};
use crate::records::{Record, RecordView};

verus! {

/// An in-memory model of the store: a list of records, each at its address.
pub struct Store {
    entries: Vec<(Address, Record)>,
}

impl View for Store {
    type V = Map<AddressView, RecordView>;

    closed spec fn view(&self) -> Map<AddressView, RecordView> {
        Map::new(
            |k: AddressView|
                exists|i: int| 0 <= i < self.entries@.len() && self.entries@[i].0@ == k,
            |k: AddressView|
                {
                    let i = choose|i: int|
                        0 <= i < self.entries@.len() && self.entries@[i].0@ == k;
                    self.entries@[i].1@
                },
        )
    }
}

impl Store {
    /// No two entries share an address.
    pub closed spec fn wf(&self) -> bool {
        forall|i: int, j: int|
            0 <= i < j < self.entries@.len() ==> self.entries@[i].0@ != self.entries@[j].0@
    }

    /// Every entry is visible in the map model under its own address.
    proof fn lemma_entry_key(&self, i: int)
        requires
            self.wf(),
            0 <= i < self.entries@.len(),
        ensures
            self@.contains_key(self.entries@[i].0@),
            self@[self.entries@[i].0@] == self.entries@[i].1@,
    {
        let k = self.entries@[i].0@;
        assert(0 <= i < self.entries@.len() && self.entries@[i].0@ == k);
        assert(self@.contains_key(k));
        let j = choose|j: int| 0 <= j < self.entries@.len() && self.entries@[j].0@ == k;
        if i < j {
            assert(false);
        } else if j < i {
            assert(false);
        }
    }

    /// An empty store.
    pub fn new() -> (s: Store)
        ensures
            s.wf(),
            s@ == Map::<AddressView, RecordView>::empty(),
    {
        let s = Store { entries: Vec::new() };
        proof {
            assert(s@ =~= Map::<AddressView, RecordView>::empty());
        }
        s
    }

    /// Scans for the entry at an address.
    fn find_index(&self, a: &Address) -> (r: Option<usize>)
        requires
            self.wf(),
        ensures
            match r {
                Some(i) => i < self.entries@.len() && self.entries@[i as int].0@ == a@,
                None => !self@.contains_key(a@),
            },
    {
        let mut i: usize = 0;
        while i < self.entries.len()
            invariant
                i <= self.entries@.len(),
                forall|j: int| 0 <= j < i ==> self.entries@[j].0@ != a@,
            decreases self.entries@.len() - i,
        {
            if address_eq(&self.entries[i].0, a) {
                return Some(i);
            }
            i += 1;
        }
        proof {
            if self@.contains_key(a@) {
                let j = choose|j: int|
                    0 <= j < self.entries@.len() && self.entries@[j].0@ == a@;
                assert(false);
            }
        }
        None
    }

    /// Reads the record at an address, if one is there.
    pub fn get(&self, a: &Address) -> (r: Option<&Record>)
        requires
            self.wf(),
        ensures
            match r {
                Some(rec) => self@.contains_key(a@) && rec@ == self@[a@],
                None => !self@.contains_key(a@),
            },
    {
        match self.find_index(a) {
            Some(i) => {
                proof {
                    self.lemma_entry_key(i as int);
                }
                Some(&self.entries[i].1)
            },
            None => None,
        }
    }

    /// Allocates a record at a fresh address.
    pub fn put_new(&mut self, a: Address, rec: Record)
        requires
            old(self).wf(),
            !old(self)@.contains_key(a@),
        ensures
            final(self).wf(),
            final(self)@ == old(self)@.insert(a@, rec@),
    {
        proof {
            if exists|i: int|
                0 <= i < self.entries@.len() && self.entries@[i].0@ == a@ {
                let i = choose|i: int|
                    0 <= i < self.entries@.len() && self.entries@[i].0@ == a@;
                self.lemma_entry_key(i);
                assert(false);
            }
        }
        let ghost old_len = self.entries@.len() as int;
        self.entries.push((a, rec));
        proof {
            assert forall|i: int, j: int|
                0 <= i < j < self.entries@.len() implies self.entries@[i].0@
                != self.entries@[j].0@ by {
                if j < old_len {
                } else {
                    assert(self.entries@[j].0@ == a@);
                    assert(self.entries@[i] == old(self).entries@[i]);
                }
            }
            assert forall|k: AddressView| #[trigger] self@.contains_key(k) == old(self)@.insert(
                a@,
                rec@,
            ).contains_key(k) by {
                if k == a@ {
                    self.lemma_entry_key(old_len);
                } else {
                    if self@.contains_key(k) {
                        let i = choose|i: int|
                            0 <= i < self.entries@.len() && self.entries@[i].0@ == k;
                        assert(i < old_len);
                        assert(old(self).entries@[i].0@ == k);
                    }
                    if old(self)@.contains_key(k) {
                        let i = choose|i: int|
                            0 <= i < old(self).entries@.len() && old(self).entries@[i].0@ == k;
                        assert(self.entries@[i].0@ == k);
                    }
                }
            }
            assert forall|k: AddressView| self@.contains_key(k) implies self@[k] == old(
                self,
            )@.insert(a@, rec@)[k] by {
                if k == a@ {
                    self.lemma_entry_key(old_len);
                } else {
                    let i = choose|i: int|
                        0 <= i < self.entries@.len() && self.entries@[i].0@ == k;
                    assert(i < old_len);
                    self.lemma_entry_key(i);
                    old(self).lemma_entry_key(i);
                }
            }
            assert(self@ =~= old(self)@.insert(a@, rec@));
        }
    }

    /// Overwrites the record at an occupied address.
    pub fn set_existing(&mut self, a: &Address, rec: Record)
        requires
            old(self).wf(),
            old(self)@.contains_key(a@),
        ensures
            final(self).wf(),
            final(self)@ == old(self)@.insert(a@, rec@),
    {
        let found = self.find_index(a);
        let i: usize = match found {
            Some(i) => i,
            None => {
                proof {
                    assert(false);
                }
                0
            },
        };
        let addr = self.entries[i].0;
        self.entries[i] = (addr, rec);
        proof {
            let n = self.entries@.len() as int;
            assert(forall|j: int|
                0 <= j < n ==> self.entries@[j].0@ == old(self).entries@[j].0@);
            assert forall|k: AddressView| #[trigger] self@.contains_key(k) == old(self)@.insert(
                a@,
                rec@,
            ).contains_key(k) by {
                if self@.contains_key(k) {
                    let j = choose|j: int| 0 <= j < n && self.entries@[j].0@ == k;
                    assert(old(self).entries@[j].0@ == k);
                }
                if old(self)@.contains_key(k) {
                    let j = choose|j: int|
                        0 <= j < n && old(self).entries@[j].0@ == k;
                    assert(self.entries@[j].0@ == k);
                }
            }
            assert forall|k: AddressView| self@.contains_key(k) implies self@[k] == old(
                self,
            )@.insert(a@, rec@)[k] by {
                let j = choose|j: int| 0 <= j < n && self.entries@[j].0@ == k;
                self.lemma_entry_key(j);
                if k == a@ {
                    if j != i {
                        old(self).lemma_entry_key(j);
                        old(self).lemma_entry_key(i as int);
                        assert(false);
                    }
                } else {
                    assert(j != i);
                    old(self).lemma_entry_key(j);
                }
            }
            assert(self@ =~= old(self)@.insert(a@, rec@));
        }
    }

    /// Deallocates the record at an occupied address and hands it back.
    pub fn take_out(&mut self, a: &Address) -> (r: Record)
        requires
            old(self).wf(),
            old(self)@.contains_key(a@),
        ensures
            final(self).wf(),
            final(self)@ == old(self)@.remove(a@),
            r@ == old(self)@[a@],
    {
        let found = self.find_index(a);
        let i: usize = match found {
            Some(i) => i,
            None => {
                proof {
                    assert(false);
                }
                0
            },
        };
        proof {
            old(self).lemma_entry_key(i as int);
        }
        let (_, rec) = self.entries.remove(i);
        proof {
            let n = self.entries@.len() as int;
            assert forall|j: int| 0 <= j < n implies self.entries@[j] == (if j < i {
                old(self).entries@[j]
            } else {
                old(self).entries@[j + 1]
            }) by {}
            assert forall|p: int, q: int|
                0 <= p < q < n implies self.entries@[p].0@ != self.entries@[q].0@ by {
                let p0 = if p < i { p } else { p + 1 };
                let q0 = if q < i { q } else { q + 1 };
                assert(p0 < q0);
                assert(old(self).entries@[p0].0@ != old(self).entries@[q0].0@);
            }
            assert forall|k: AddressView| #[trigger] self@.contains_key(k) == old(self)@.remove(
                a@,
            ).contains_key(k) by {
                if self@.contains_key(k) {
                    let j = choose|j: int| 0 <= j < n && self.entries@[j].0@ == k;
                    let j0 = if j < i { j } else { j + 1 };
                    assert(old(self).entries@[j0].0@ == k);
                    old(self).lemma_entry_key(j0);
                    if k == a@ {
                        assert(j0 != i);
                        old(self).lemma_entry_key(i as int);
                        assert(false);
                    }
                }
                if old(self)@.remove(a@).contains_key(k) {
                    let j0 = choose|j0: int|
                        0 <= j0 < old(self).entries@.len() && old(self).entries@[j0].0@ == k;
                    if j0 == i {
                        assert(k == a@);
                        assert(false);
                    }
                    let j = if j0 < i { j0 } else { j0 - 1 };
                    assert(self.entries@[j].0@ == k);
                }
            }
            assert forall|k: AddressView| self@.contains_key(k) implies self@[k] == old(
                self,
            )@.remove(a@)[k] by {
                let j = choose|j: int| 0 <= j < n && self.entries@[j].0@ == k;
                self.lemma_entry_key(j);
                let j0 = if j < i { j } else { j + 1 };
                assert(old(self).entries@[j0].0@ == k);
                old(self).lemma_entry_key(j0);
            }
            assert(self@ =~= old(self)@.remove(a@));
        }
        rec
    }
}

} // verus!
