//! The uniform resource store: one record per (kind, identifier), with
//! replace semantics on writes. The three resource kinds share this single
//! algorithm; only the payload they carry differs.

use vstd::prelude::*;

use crate::codec::{bytes_eq, clone_bytes};
use crate::Kind;

verus! {

/// One stored record: a payload under an identifier of one kind.
pub struct Entry {
    pub kind: Kind,
    pub id: Vec<u8>,
    pub payload: Vec<u8>,
}

/// The key a record is addressed by.
pub open spec fn key_of(e: Entry) -> (Kind, Seq<u8>) {
    (e.kind, e.id@)
}

/// The records of a sequence of entries, as a map; a later entry under the
/// same key would shadow an earlier one, but well-formed stores have no two
/// entries under one key.
pub open spec fn entries_map(s: Seq<Entry>) -> Map<(Kind, Seq<u8>), Seq<u8>>
    decreases s.len(),
{
    if s.len() == 0 {
        Map::empty()
    } else {
        entries_map(s.drop_last()).insert(key_of(s.last()), s.last().payload@)
    }
}

/// No two entries share a key.
pub open spec fn unique_keys(s: Seq<Entry>) -> bool {
    forall|i: int, j: int|
        0 <= i < j < s.len() ==> key_of(#[trigger] s[i]) != key_of(#[trigger] s[j])
}

/// A key is in the map exactly when some entry carries it.
proof fn lemma_map_domain(s: Seq<Entry>, k: (Kind, Seq<u8>))
    ensures
        entries_map(s).contains_key(k) <==> exists|i: int| 0 <= i < s.len() && key_of(#[trigger] s[i]) == k,
    decreases s.len(),
{
    if s.len() > 0 {
        let bl = s.drop_last();
        lemma_map_domain(bl, k);
        if key_of(s.last()) == k {
            assert(key_of(s[s.len() - 1]) == k);
        } else if entries_map(s).contains_key(k) {
            let i = choose|i: int| 0 <= i < bl.len() && key_of(#[trigger] bl[i]) == k;
            assert(key_of(s[i]) == k);
        } else {
            assert(forall|i: int| 0 <= i < bl.len() ==> bl[i] == s[i]);
        }
    }
}

/// Under unique keys, the map's value at an entry's key is that entry's payload.
proof fn lemma_map_value(s: Seq<Entry>, i: int)
    requires
        unique_keys(s),
        0 <= i < s.len(),
    ensures
        entries_map(s).contains_key(key_of(s[i])),
        entries_map(s)[key_of(s[i])] == s[i].payload@,
    decreases s.len(),
{
    let bl = s.drop_last();
    assert(forall|a: int| 0 <= a < bl.len() ==> bl[a] == s[a]);
    if i == s.len() - 1 {
    } else {
        lemma_map_value(bl, i);
        assert(key_of(s[i]) != key_of(s[s.len() - 1]));
    }
}

/// Removing the one entry that carries a key removes that key from the map.
proof fn lemma_map_remove(s: Seq<Entry>, i: int)
    requires
        unique_keys(s),
        0 <= i < s.len(),
    ensures
        entries_map(s.remove(i)) =~= entries_map(s).remove(key_of(s[i])),
        unique_keys(s.remove(i)),
    decreases s.len(),
{
    let bl = s.drop_last();
    assert(forall|a: int| 0 <= a < bl.len() ==> bl[a] == s[a]);
    if i == s.len() - 1 {
        assert(s.remove(i) =~= bl);
        lemma_map_domain(bl, key_of(s[i]));
        assert(!entries_map(bl).contains_key(key_of(s[i])));
    } else {
        lemma_map_remove(bl, i);
        assert(s.remove(i).drop_last() =~= bl.remove(i));
        assert(s.remove(i).last() == s.last());
        assert(key_of(s[i]) != key_of(s.last()));
    }
}

/// The store shared by the three resource kinds.
pub struct ResourceStore {
    entries: Vec<Entry>,
}

impl ResourceStore {
    /// The records as a map from (kind, identifier) to payload.
    pub closed spec fn view(&self) -> Map<(Kind, Seq<u8>), Seq<u8>> {
        entries_map(self.entries@)
    }

    /// At most one record per (kind, identifier).
    pub closed spec fn wf(&self) -> bool {
        unique_keys(self.entries@)
    }

    /// An empty store, holding no record of any kind.
    pub fn new() -> (r: ResourceStore)
        ensures
            r.wf(),
            r@ == Map::<(Kind, Seq<u8>), Seq<u8>>::empty(),
    {
        ResourceStore { entries: Vec::new() }
    }

    /// The position of the record under (kind, id), if any.
    fn find_index(&self, kind: Kind, id: &Vec<u8>) -> (r: Option<usize>)
        ensures
            match r {
                Some(i) => i < self.entries@.len() && key_of(self.entries@[i as int]) == (
                    kind,
                    id@,
                ),
                None => forall|i: int|
                    0 <= i < self.entries@.len() ==> key_of(#[trigger] self.entries@[i]) != (
                        kind,
                        id@,
                    ),
            },
    {
        let mut i: usize = 0;
        let n = self.entries.len();
        while i < n
            invariant
                0 <= i <= n == self.entries@.len(),
                forall|j: int|
                    0 <= j < i ==> key_of(#[trigger] self.entries@[j]) != (kind, id@),
            decreases n - i,
        {
            let e = &self.entries[i];
            if e.kind == kind && bytes_eq(&e.id, id) {
                return Some(i);
            }
            i += 1;
        }
        None
    }

    /// The payload stored under (kind, id), or `None` when no record has ever
    /// been written under that identifier, or the last write was a delete.
    pub fn get_one(&self, kind: Kind, id: &Vec<u8>) -> (r: Option<Vec<u8>>)
        requires
            self.wf(),
        ensures
            match r {
                Some(p) => self@.contains_key((kind, id@)) && p@ == self@[(kind, id@)],
                None => !self@.contains_key((kind, id@)),
            },
    {
        match self.find_index(kind, id) {
            Some(i) => {
                proof {
                    lemma_map_value(self.entries@, i as int);
                }
                Some(clone_bytes(&self.entries[i].payload))
            },
            None => {
                proof {
                    lemma_map_domain(self.entries@, (kind, id@));
                }
                None
            },
        }
    }

    /// Creates or replaces the record under (kind, id): at most one record per
    /// identifier, a second write overwrites. Returns whether the record was
    /// created rather than replaced.
    pub fn put(&mut self, kind: Kind, id: Vec<u8>, payload: Vec<u8>) -> (created: bool)
        requires
            old(self).wf(),
        ensures
            final(self).wf(),
            final(self)@ == old(self)@.insert((kind, id@), payload@),
            created == !old(self)@.contains_key((kind, id@)),
    {
        let ghost k = (kind, id@);
        let found = match self.find_index(kind, &id) {
            Some(i) => {
                proof {
                    lemma_map_domain(self.entries@, k);
                    lemma_map_remove(self.entries@, i as int);
                }
                self.entries.remove(i);
                true
            },
            None => {
                proof {
                    lemma_map_domain(self.entries@, k);
                }
                false
            },
        };
        let ghost mid = self.entries@;
        proof {
            lemma_map_domain(mid, k);
            assert(!entries_map(mid).contains_key(k));
            assert(entries_map(mid) =~= old(self)@.remove(k));
        }
        self.entries.push(Entry { kind, id, payload });
        proof {
            assert(self.entries@.drop_last() =~= mid);
            assert(entries_map(self.entries@) =~= old(self)@.insert(k, payload@));
            assert(forall|a: int| 0 <= a < mid.len() ==> key_of(#[trigger] mid[a]) != k);
            assert(unique_keys(self.entries@));
        }
        !found
    }

    /// Removes the record under (kind, id), if any; afterwards a read under
    /// that identifier finds nothing. Returns whether a record was there.
    pub fn delete(&mut self, kind: Kind, id: &Vec<u8>) -> (found: bool)
        requires
            old(self).wf(),
        ensures
            final(self).wf(),
            final(self)@ == old(self)@.remove((kind, id@)),
            found == old(self)@.contains_key((kind, id@)),
    {
        let ghost k = (kind, id@);
        match self.find_index(kind, id) {
            Some(i) => {
                proof {
                    lemma_map_domain(self.entries@, k);
                    lemma_map_remove(self.entries@, i as int);
                }
                self.entries.remove(i);
                true
            },
            None => {
                proof {
                    lemma_map_domain(self.entries@, k);
                    assert(old(self)@.remove(k) =~= old(self)@);
                }
                false
            },
        }
    }

    /// The identifiers of every record of one kind, each exactly once.
    pub fn list(&self, kind: Kind) -> (r: Vec<Vec<u8>>)
        requires
            self.wf(),
        ensures
            forall|j: int| 0 <= j < r@.len() ==> self@.contains_key((kind, #[trigger] r@[j]@)),
            forall|id: Seq<u8>|
                #[trigger] self@.contains_key((kind, id)) ==> exists|j: int|
                    0 <= j < r@.len() && #[trigger] r@[j]@ == id,
            forall|a: int, b: int| 0 <= a < b < r@.len() ==> r@[a]@ != r@[b]@,
    {
        let mut r: Vec<Vec<u8>> = Vec::new();
        let mut i: usize = 0;
        let n = self.entries.len();
        while i < n
            invariant
                0 <= i <= n == self.entries@.len(),
                unique_keys(self.entries@),
                forall|j: int| #![trigger r@[j]]
                    0 <= j < r@.len() ==> exists|a: int|
                        0 <= a < i && key_of(#[trigger] self.entries@[a]) == (kind, r@[j]@),
                forall|a: int|
                    0 <= a < i && (#[trigger] self.entries@[a]).kind == kind ==> exists|j: int|
                        0 <= j < r@.len() && #[trigger] r@[j]@ == self.entries@[a].id@,
                forall|a: int, b: int| 0 <= a < b < r@.len() ==> r@[a]@ != r@[b]@,
            decreases n - i,
        {
            let e = &self.entries[i];
            if e.kind == kind {
                let ghost prev = r@;
                proof {
                    // A second entry with this identifier and kind would share
                    // the key of entry i, which unique_keys rules out.
                    assert(forall|j: int| 0 <= j < prev.len() ==> prev[j]@ != self.entries@[i as int].id@);
                }
                r.push(clone_bytes(&e.id));
                proof {
                    assert(forall|j: int| 0 <= j < prev.len() ==> r@[j] == prev[j]);
                    assert(r@[r@.len() - 1]@ == self.entries@[i as int].id@);
                    assert(key_of(self.entries@[i as int]) == (kind, r@[r@.len() - 1]@));
                }
            }
            i += 1;
        }
        proof {
            lemma_map_domain(self.entries@, (kind, arbitrary()));
            assert forall|j: int| 0 <= j < r@.len() implies self@.contains_key(
                (kind, r@[j]@),
            ) by {
                let a = choose|a: int|
                    0 <= a < i && key_of(#[trigger] self.entries@[a]) == (kind, r@[j]@);
                lemma_map_value(self.entries@, a);
            }
            assert forall|id: Seq<u8>| #[trigger] self@.contains_key((kind, id)) implies exists|
                j: int,
            | 0 <= j < r@.len() && #[trigger] r@[j]@ == id by {
                lemma_map_domain(self.entries@, (kind, id));
                let a = choose|a: int|
                    0 <= a < self.entries@.len() && key_of(#[trigger] self.entries@[a]) == (
                        kind,
                        id,
                    );
                assert(self.entries@[a].kind == kind);
            }
        }
        r
    }
}

/// Round trip: after a write, a read under the same identifier returns the
/// written payload.
pub proof fn lemma_put_then_get(
    m: Map<(Kind, Seq<u8>), Seq<u8>>,
    kind: Kind,
    id: Seq<u8>,
    p: Seq<u8>,
)
    ensures
        m.insert((kind, id), p).contains_key((kind, id)),
        m.insert((kind, id), p)[(kind, id)] == p,
{
}

/// Replace, not append: a second write under the same identifier overwrites
/// the first, and a read then returns the second payload.
pub proof fn lemma_put_replaces(
    m: Map<(Kind, Seq<u8>), Seq<u8>>,
    kind: Kind,
    id: Seq<u8>,
    p1: Seq<u8>,
    p2: Seq<u8>,
)
    ensures
        m.insert((kind, id), p1).insert((kind, id), p2).contains_key((kind, id)),
        m.insert((kind, id), p1).insert((kind, id), p2)[(kind, id)] == p2,
        m.insert((kind, id), p1).insert((kind, id), p2) =~= m.insert((kind, id), p2),
{
}

/// After a delete, a read under the deleted identifier finds nothing.
pub proof fn lemma_delete_then_get(m: Map<(Kind, Seq<u8>), Seq<u8>>, kind: Kind, id: Seq<u8>)
    ensures
        !m.remove((kind, id)).contains_key((kind, id)),
{
}

/// Writes under distinct identifiers of one kind are independent: both records
/// are retrievable afterwards, whichever write came first.
pub proof fn lemma_independent_puts(
    m: Map<(Kind, Seq<u8>), Seq<u8>>,
    kind: Kind,
    id1: Seq<u8>,
    p1: Seq<u8>,
    id2: Seq<u8>,
    p2: Seq<u8>,
)
    requires
        id1 != id2,
    ensures
        m.insert((kind, id1), p1).insert((kind, id2), p2)[(kind, id1)] == p1,
        m.insert((kind, id1), p1).insert((kind, id2), p2)[(kind, id2)] == p2,
        m.insert((kind, id1), p1).insert((kind, id2), p2) =~= m.insert((kind, id2), p2).insert(
            (kind, id1),
            p1,
        ),
{
}

} // verus!
