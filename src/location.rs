use vstd::prelude::*;

verus! {

/// A source position used as the key of padding adjustments.
#[derive(Clone, Copy, Debug, PartialEq, Eq, Hash, Structural)]
pub struct Location {
    pub line: usize,
    pub column: usize,
    pub length: usize,
}

/// `a + b`, held at `usize::MAX` when the sum does not fit.
pub open spec fn sat_add(a: usize, b: usize) -> usize {
    if a + b > usize::MAX {
        usize::MAX
    } else {
        (a + b) as usize
    }
}

/// The value stored for `l`, or zero where `m` holds none.
pub open spec fn value_at(m: Map<Location, usize>, l: Location) -> usize {
    if m.contains_key(l) {
        m[l]
    } else {
        0
    }
}

/// `m` with `v` added to the value at `l` (a missing entry counts as zero).
pub open spec fn bump(m: Map<Location, usize>, l: Location, v: usize) -> Map<Location, usize> {
    m.insert(l, sat_add(value_at(m, l), v))
}

/// The pointwise sum of two padding maps over the union of their keys.
pub open spec fn add_maps(a: Map<Location, usize>, b: Map<Location, usize>) -> Map<Location, usize> {
    Map::new(
        |l: Location| a.contains_key(l) || b.contains_key(l),
        |l: Location| sat_add(value_at(a, l), value_at(b, l)),
    )
}

/// A map from locations to padding widths, kept as a list of entries with distinct keys.
pub struct Additions {
    entries: Vec<(Location, usize)>,
    contents: Ghost<Map<Location, usize>>,
}

impl View for Additions {
    type V = Map<Location, usize>;

    closed spec fn view(&self) -> Map<Location, usize> {
        self.contents@
    }
}

impl Additions {
    /// The entries agree with the map, and no key appears twice.
    pub closed spec fn wf(&self) -> bool {
        &&& forall|i: int|
            0 <= i < self.entries@.len() ==> #[trigger] self.contents@.contains_key(
                self.entries@[i].0,
            ) && self.contents@[self.entries@[i].0] == self.entries@[i].1
        &&& forall|l: Location| #[trigger]
            self.contents@.contains_key(l) ==> exists|i: int|
                0 <= i < self.entries@.len() && self.entries@[i].0 == l
        &&& forall|i: int, j: int|
            0 <= i < j < self.entries@.len() ==> self.entries@[i].0 != self.entries@[j].0
    }

    /// The key of the `i`-th entry.
    pub closed spec fn key_at(&self, i: int) -> Location {
        self.entries@[i].0
    }

    /// The number of entries.
    pub closed spec fn count(&self) -> nat {
        self.entries@.len()
    }

    pub fn new() -> (r: Additions)
        ensures
            r.wf(),
            r@ == Map::<Location, usize>::empty(),
    {
        Additions { entries: Vec::new(), contents: Ghost(Map::empty()) }
    }

    pub fn len(&self) -> (r: usize)
        requires
            self.wf(),
        ensures
            r == self.count(),
            r == self@.len(),
    {
        proof {
            self.lemma_count_is_len();
        }
        self.entries.len()
    }

    proof fn lemma_count_is_len(&self)
        requires
            self.wf(),
        ensures
            self.count() == self@.len(),
            self@.dom().finite(),
    {
        let keys = self.entries@.map_values(|e: (Location, usize)| e.0);
        assert forall|l: Location| self@.dom().contains(l) implies keys.to_set().contains(l) by {
            let j = choose|j: int| 0 <= j < self.entries@.len() && self.entries@[j].0 == l;
            assert(keys[j] == l);
        }
        assert forall|l: Location| keys.to_set().contains(l) implies self@.dom().contains(l) by {
            let j = choose|j: int| 0 <= j < keys.len() && keys[j] == l;
            assert(self@.contains_key(self.entries@[j].0));
        }
        assert(self@.dom() =~= keys.to_set());
        assert forall|i: int, j: int| 0 <= i < keys.len() && 0 <= j < keys.len() && i != j implies keys[i] != keys[j] by {
            if i < j {
                assert(self.entries@[i].0 != self.entries@[j].0);
            } else {
                assert(self.entries@[j].0 != self.entries@[i].0);
            }
        }
        assert(keys.no_duplicates());
        keys.unique_seq_to_set();
    }

    /// The `i`-th entry; the entries list every key of the map once.
    pub fn entry(&self, i: usize) -> (r: (Location, usize))
        requires
            self.wf(),
            i < self.count(),
        ensures
            r.0 == self.key_at(i as int),
            self@.contains_key(r.0),
            r.1 == self@[r.0],
    {
        self.entries[i]
    }

    fn find(&self, l: &Location) -> (r: Option<usize>)
        requires
            self.wf(),
        ensures
            match r {
                Some(i) => i < self.entries@.len() && self.entries@[i as int].0 == *l,
                None => !self@.contains_key(*l),
            },
    {
        let mut i: usize = 0;
        while i < self.entries.len()
            invariant
                i <= self.entries@.len(),
                forall|j: int| 0 <= j < i ==> self.entries@[j].0 != *l,
            decreases self.entries@.len() - i,
        {
            if self.entries[i].0 == *l {
                return Some(i);
            }
            i = i + 1;
        }
        None
    }

    /// The padding at `l`, if any.
    pub fn get(&self, l: &Location) -> (r: Option<usize>)
        requires
            self.wf(),
        ensures
            r == (if self@.contains_key(*l) {
                Some(self@[*l])
            } else {
                None::<usize>
            }),
    {
        match self.find(l) {
            Some(i) => Some(self.entries[i].1),
            None => None,
        }
    }

    /// Stores `v` at `l`, replacing what was there.
    pub fn set(&mut self, l: Location, v: usize)
        requires
            old(self).wf(),
        ensures
            final(self).wf(),
            final(self)@ == old(self)@.insert(l, v),
    {
        let ghost at: int;
        match self.find(&l) {
            Some(i) => {
                self.entries.set(i, (l, v));
                proof {
                    at = i as int;
                }
            },
            None => {
                self.entries.push((l, v));
                proof {
                    at = self.entries@.len() - 1;
                }
            },
        }
        self.contents = Ghost(self.contents@.insert(l, v));
        proof {
            assert(self.entries@[at].0 == l);
            assert forall|k: Location| #[trigger] self.contents@.contains_key(k) implies exists|
                j: int,
            | 0 <= j < self.entries@.len() && self.entries@[j].0 == k by {
                if k != l {
                    let j = choose|j: int|
                        0 <= j < old(self).entries@.len() && old(self).entries@[j].0 == k;
                    assert(self.entries@[j].0 == k);
                }
            }
        }
    }

    /// Adds `v` to the padding at `l`, a missing entry counting as zero.
    pub fn add(&mut self, l: Location, v: usize)
        requires
            old(self).wf(),
        ensures
            final(self).wf(),
            final(self)@ == bump(old(self)@, l, v),
    {
        let cur = match self.get(&l) {
            Some(c) => c,
            None => 0,
        };
        self.set(l, cur.saturating_add(v));
    }

    /// Adds every entry of `other` into `self`.
    pub fn merge(&mut self, other: &Additions)
        requires
            old(self).wf(),
            other.wf(),
        ensures
            final(self).wf(),
            final(self)@ == add_maps(old(self)@, other@),
    {
        let ghost start = self@;
        let n = other.len();
        let mut i: usize = 0;
        while i < n
            invariant
                self.wf(),
                other.wf(),
                n == other.count(),
                i <= n,
                self@ == add_maps(start, other@.restrict(other.keys_before(i as int))),
            decreases n - i,
        {
            let (l, v) = other.entry(i);
            let ghost before = other@.restrict(other.keys_before(i as int));
            self.add(l, v);
            proof {
                assert(!other.keys_before(i as int).contains(l));
                assert(other.keys_before(i + 1) =~= other.keys_before(i as int).insert(l));
                let after = other@.restrict(other.keys_before(i + 1));
                assert(after =~= before.insert(l, v));
                assert(add_maps(start, after) =~= bump(add_maps(start, before), l, v));
            }
            i = i + 1;
        }
        proof {
            assert(other@.restrict(other.keys_before(n as int)) =~= other@);
        }
    }

    /// The keys of the first `i` entries.
    pub closed spec fn keys_before(&self, i: int) -> Set<Location> {
        Set::new(|l: Location| exists|j: int| 0 <= j < i && self.entries@[j].0 == l)
    }
}

} // verus!
