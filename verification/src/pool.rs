//! The bounded connection pool: a fixed set of connection slots, each either
//! idle or exclusively checked out by one request. The number of checked-out
//! connections never exceeds the configured pool size.

use vstd::prelude::*;

verus! {

/// A bounded pool of database connection slots, identified by index.
pub struct ConnPool {
    size: usize,
    idle: Vec<usize>,
}

impl ConnPool {
    /// The configured maximum number of concurrently checked-out connections.
    pub closed spec fn spec_size(&self) -> int {
        self.size as int
    }

    /// The slots currently idle, newest returned last.
    pub closed spec fn idle_slots(&self) -> Seq<usize> {
        self.idle@
    }

    /// How many connections are checked out right now.
    pub open spec fn checked_out(&self) -> int {
        self.spec_size() - self.idle_slots().len()
    }

    /// Every idle slot is one of the pool's, and no slot is idle twice.
    pub closed spec fn wf(&self) -> bool {
        &&& self.idle@.no_duplicates()
        &&& forall|i: int| 0 <= i < self.idle@.len() ==> #[trigger] self.idle@[i] < self.size
    }

    /// The bound the pool maintains: checked-out connections never exceed the
    /// configured size, and never go negative.
    pub proof fn lemma_bounded(&self)
        requires
            self.wf(),
        ensures
            0 <= self.checked_out() <= self.spec_size(),
    {
        self.lemma_idle_at_most_size();
    }

    /// An idle list without duplicates over slots `< size` holds at most
    /// `size` entries.
    proof fn lemma_idle_at_most_size(&self)
        requires
            self.wf(),
        ensures
            self.idle_slots().len() <= self.spec_size(),
    {
        let s = self.idle@;
        let t = s.map_values(|x: usize| x as int);
        let range = vstd::set_lib::set_int_range(0, self.size as int);
        assert(t.no_duplicates()) by {
            assert(forall|a: int, b: int|
                0 <= a < t.len() && 0 <= b < t.len() && a != b ==> t[a] != t[b]);
        }
        t.unique_seq_to_set();
        assert(t.to_set().subset_of(range)) by {
            assert forall|x: int| t.to_set().contains(x) implies range.contains(x) by {
                let i = choose|i: int| 0 <= i < t.len() && #[trigger] t[i] == x;
                assert(s[i] < self.size);
            }
        }
        vstd::set_lib::lemma_int_range(0, self.size as int);
        vstd::set_lib::lemma_len_subset(t.to_set(), range);
    }

    /// A fresh pool of `size` idle connection slots, none checked out.
    pub fn create(size: usize) -> (r: ConnPool)
        ensures
            r.wf(),
            r.spec_size() == size,
            r.checked_out() == 0,
    {
        let mut idle: Vec<usize> = Vec::new();
        let mut i: usize = 0;
        while i < size
            invariant
                0 <= i <= size,
                idle@.len() == i,
                forall|j: int| 0 <= j < i ==> #[trigger] idle@[j] == j,
            decreases size - i,
        {
            idle.push(i);
            i += 1;
        }
        proof {
            assert(forall|a: int, b: int|
                0 <= a < b < idle@.len() ==> idle@[a] != idle@[b]);
        }
        ConnPool { size, idle }
    }

    /// Checks a connection out: yields an idle slot, which stops being idle —
    /// no other request can hold it until it is released. Returns `None` only
    /// when every slot is already checked out.
    pub fn acquire(&mut self) -> (r: Option<usize>)
        requires
            old(self).wf(),
        ensures
            final(self).wf(),
            final(self).spec_size() == old(self).spec_size(),
            match r {
                Some(slot) => {
                    &&& old(self).idle_slots().contains(slot)
                    &&& slot == old(self).idle_slots().last()
                    &&& slot < old(self).spec_size()
                    &&& !final(self).idle_slots().contains(slot)
                    &&& final(self).idle_slots() == old(self).idle_slots().drop_last()
                    &&& final(self).checked_out() == old(self).checked_out() + 1
                },
                None => {
                    &&& old(self).checked_out() == old(self).spec_size()
                    &&& final(self).idle_slots() == old(self).idle_slots()
                },
            },
    {
        proof {
            self.lemma_bounded();
        }
        match self.idle.pop() {
            Some(slot) => {
                proof {
                    assert(old(self).idle@.last() == slot);
                    assert(old(self).idle@.contains(slot));
                    if self.idle@.contains(slot) {
                        let i = choose|i: int|
                            0 <= i < self.idle@.len() && #[trigger] self.idle@[i] == slot;
                        assert(old(self).idle@[i] == old(self).idle@[old(self).idle@.len() - 1]);
                    }
                }
                Some(slot)
            },
            None => None,
        }
    }

    /// Returns a checked-out slot to the pool. The caller must hold the slot:
    /// it is one of the pool's and is not idle.
    pub fn release(&mut self, slot: usize)
        requires
            old(self).wf(),
            slot < old(self).spec_size(),
            !old(self).idle_slots().contains(slot),
        ensures
            final(self).wf(),
            final(self).spec_size() == old(self).spec_size(),
            final(self).idle_slots() == old(self).idle_slots().push(slot),
            final(self).checked_out() == old(self).checked_out() - 1,
    {
        self.idle.push(slot);
        proof {
            assert(forall|i: int|
                0 <= i < old(self).idle@.len() ==> #[trigger] self.idle@[i] == old(
                    self,
                ).idle@[i]);
        }
    }
}

} // verus!
