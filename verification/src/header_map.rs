//! An insertion-ordered map from header names to raw header values.

use vstd::prelude::*;

use crate::header::WarcHeader;

verus! {

/// The spec-level shape of a header map: name/value pairs in order.
pub type HeaderEntries = Seq<(Seq<char>, Seq<u8>)>;

/// Index of the first entry named `n`, or `-1` if there is none.
pub open spec fn map_idx(m: HeaderEntries, n: Seq<char>) -> int
    decreases m.len(),
{
    if m.len() == 0 {
        -1
    } else if m[0].0 == n {
        0
    } else {
        let r = map_idx(m.drop_first(), n);
        if r < 0 {
            -1
        } else {
            r + 1
        }
    }
}

/// Whether some entry is named `n`.
pub open spec fn map_has(m: HeaderEntries, n: Seq<char>) -> bool {
    map_idx(m, n) >= 0
}

/// The value of the first entry named `n`.
pub open spec fn map_val(m: HeaderEntries, n: Seq<char>) -> Seq<u8> {
    m[map_idx(m, n)].1
}

/// The map after setting `n` to `v`: the entry is updated in place when the
/// name is present, appended otherwise. The stored name is not replaced.
pub open spec fn map_insert(m: HeaderEntries, n: Seq<char>, v: Seq<u8>) -> HeaderEntries {
    if map_has(m, n) {
        m.update(map_idx(m, n), (m[map_idx(m, n)].0, v))
    } else {
        m.push((n, v))
    }
}

/// The map after removing the entry named `n`, if any.
pub open spec fn map_remove(m: HeaderEntries, n: Seq<char>) -> HeaderEntries {
    if map_has(m, n) {
        m.remove(map_idx(m, n))
    } else {
        m
    }
}

/// No two entries share a name.
pub open spec fn map_unique(m: HeaderEntries) -> bool {
    forall|i: int, j: int| 0 <= i < j < m.len() ==> m[i].0 != m[j].0
}

/// What `map_idx` finds: the first matching entry.
pub proof fn lemma_map_idx(m: HeaderEntries, n: Seq<char>)
    ensures
        map_has(m, n) <==> exists|i: int| 0 <= i < m.len() && m[i].0 == n,
        map_has(m, n) ==> {
            &&& 0 <= map_idx(m, n) < m.len()
            &&& m[map_idx(m, n)].0 == n
            &&& forall|j: int| 0 <= j < map_idx(m, n) ==> m[j].0 != n
        },
    decreases m.len(),
{
    if m.len() != 0 && m[0].0 != n {
        lemma_map_idx(m.drop_first(), n);
        let md = m.drop_first();
        if map_has(md, n) {
            assert(m[map_idx(md, n) + 1].0 == md[map_idx(md, n)].0);
            assert forall|j: int| 0 <= j < map_idx(m, n) implies m[j].0 != n by {
                if j > 0 {
                    assert(md[j - 1].0 == m[j].0);
                }
            }
        } else {
            assert forall|i: int| 0 <= i < m.len() implies m[i].0 != n by {
                if i > 0 {
                    assert(md[i - 1].0 == m[i].0);
                }
            }
        }
    }
}

/// Lookup of one name after `map_insert`.
proof fn lemma_map_insert_at(m: HeaderEntries, n: Seq<char>, v: Seq<u8>, n2: Seq<char>)
    ensures
        map_has(map_insert(m, n, v), n2) == (map_has(m, n2) || n2 == n),
        (n2 != n && map_has(m, n2)) ==> map_val(map_insert(m, n, v), n2) == map_val(m, n2),
        n2 == n ==> map_val(map_insert(m, n, v), n2) == v,
{
    lemma_map_idx(m, n);
    let m2 = map_insert(m, n, v);
    lemma_map_idx(m, n2);
    lemma_map_idx(m2, n2);
    if map_has(m, n) {
        let i = map_idx(m, n);
        if map_has(m, n2) {
            let j = map_idx(m, n2);
            assert(m2[j].0 == n2);
            assert(map_has(m2, n2));
            let j2 = map_idx(m2, n2);
            assert(m[j2].0 == n2);
            assert(j2 == j);
            if n2 == n {
                assert(j == i);
                assert(m2[i].1 == v);
            } else {
                assert(j != i);
                assert(m2[j].1 == m[j].1);
            }
        } else if map_has(m2, n2) {
            let j2 = map_idx(m2, n2);
            assert(m[j2].0 == m2[j2].0);
        }
    } else {
        if map_has(m, n2) {
            let j = map_idx(m, n2);
            assert(m2[j].0 == n2);
            assert(map_has(m2, n2));
            let j2 = map_idx(m2, n2);
            if j2 < m.len() {
                assert(m[j2].0 == n2);
            }
            assert(j2 == j);
            assert(n2 != n);
            assert(m2[j].1 == m[j].1);
        } else if n2 == n {
            assert(m2[m.len() as int].0 == n);
            assert(map_has(m2, n2));
            let j2 = map_idx(m2, n2);
            if j2 < m.len() {
                assert(m[j2].0 == n);
            }
            assert(j2 == m.len() as int);
            assert(m2[j2].1 == v);
        } else {
            if map_has(m2, n2) {
                let j2 = map_idx(m2, n2);
                if j2 < m.len() {
                    assert(m[j2].0 == m2[j2].0);
                }
            }
        }
    }
}

/// Lookup after `map_insert`: the set name reads back as its new value,
/// every other name is untouched.
pub proof fn lemma_map_insert_props(m: HeaderEntries, n: Seq<char>, v: Seq<u8>)
    ensures
        forall|n2: Seq<char>|
            #[trigger] map_has(map_insert(m, n, v), n2) == (map_has(m, n2) || n2 == n),
        map_val(map_insert(m, n, v), n) == v,
        forall|n2: Seq<char>|
            n2 != n && map_has(m, n2) ==> #[trigger] map_val(map_insert(m, n, v), n2) == map_val(
                m,
                n2,
            ),
        map_insert(m, n, v).len() == if map_has(m, n) {
            m.len() as int
        } else {
            m.len() as int + 1
        },
{
    let m2 = map_insert(m, n, v);
    assert forall|n2: Seq<char>| #[trigger]
        map_has(m2, n2) == (map_has(m, n2) || n2 == n) by {
        lemma_map_insert_at(m, n, v, n2);
    }
    assert forall|n2: Seq<char>| n2 != n && map_has(m, n2) implies #[trigger] map_val(m2, n2)
        == map_val(m, n2) by {
        lemma_map_insert_at(m, n, v, n2);
    }
    lemma_map_insert_at(m, n, v, n);
    lemma_map_idx(m, n);
}

/// Lookup of one name after `map_remove`, under unique names.
proof fn lemma_map_remove_at(m: HeaderEntries, n: Seq<char>, n2: Seq<char>)
    requires
        map_unique(m),
    ensures
        map_has(map_remove(m, n), n2) == (map_has(m, n2) && n2 != n),
        (n2 != n && map_has(m, n2)) ==> map_val(map_remove(m, n), n2) == map_val(m, n2),
{
    lemma_map_idx(m, n);
    let m2 = map_remove(m, n);
    lemma_map_idx(m, n2);
    lemma_map_idx(m2, n2);
    if map_has(m, n) {
        let i = map_idx(m, n);
        if map_has(m, n2) && n2 != n {
            let j = map_idx(m, n2);
            assert(j != i);
            let j1 = if j < i {
                j
            } else {
                j - 1
            };
            assert(m2[j1] == m[j]);
            assert(map_has(m2, n2));
            let j2 = map_idx(m2, n2);
            let j20 = if j2 < i {
                j2
            } else {
                j2 + 1
            };
            assert(m2[j2] == m[j20]);
            assert(m[j20].0 == n2);
            assert(j20 == j);
            assert(map_val(m2, n2) == m2[j2].1);
            assert(m2[j2].1 == m[j].1);
        } else if map_has(m2, n2) {
            let j2 = map_idx(m2, n2);
            let j20 = if j2 < i {
                j2
            } else {
                j2 + 1
            };
            assert(m2[j2] == m[j20]);
            if n2 == n {
                assert(m[j20].0 == n);
                assert(j20 != i);
                assert(m[i].0 == m[j20].0);
            }
        }
    }
}

/// Lookup after `map_remove`: with unique names, the removed name is gone
/// and every other name is untouched.
pub proof fn lemma_map_remove_props(m: HeaderEntries, n: Seq<char>)
    requires
        map_unique(m),
    ensures
        forall|n2: Seq<char>|
            #[trigger] map_has(map_remove(m, n), n2) == (map_has(m, n2) && n2 != n),
        forall|n2: Seq<char>|
            n2 != n && map_has(m, n2) ==> #[trigger] map_val(map_remove(m, n), n2) == map_val(
                m,
                n2,
            ),
        map_unique(map_remove(m, n)),
        map_remove(m, n).len() == if map_has(m, n) {
            m.len() - 1
        } else {
            m.len() as int
        },
{
    lemma_map_idx(m, n);
    let m2 = map_remove(m, n);
    assert forall|n2: Seq<char>| #[trigger]
        map_has(m2, n2) == (map_has(m, n2) && n2 != n) by {
        lemma_map_remove_at(m, n, n2);
    }
    assert forall|n2: Seq<char>| n2 != n && map_has(m, n2) implies #[trigger] map_val(m2, n2)
        == map_val(m, n2) by {
        lemma_map_remove_at(m, n, n2);
    }
    if map_has(m, n) {
        let i = map_idx(m, n);
        assert forall|a: int, b: int| 0 <= a < b < m2.len() implies m2[a].0 != m2[b].0 by {
            let a0 = if a < i {
                a
            } else {
                a + 1
            };
            let b0 = if b < i {
                b
            } else {
                b + 1
            };
            assert(m2[a] == m[a0]);
            assert(m2[b] == m[b0]);
        }
    }
}

/// The map after folding in every entry of another, in order.
pub open spec fn spec_map_extend(m: HeaderEntries, other: HeaderEntries) -> HeaderEntries
    decreases other.len(),
{
    if other.len() == 0 {
        m
    } else {
        spec_map_extend(map_insert(m, other[0].0, other[0].1), other.drop_first())
    }
}

/// A mapping from header names to raw header values.
///
/// Entries keep their insertion order, every name occurs at most once, and
/// lookup goes by the canonical form of the name.
#[derive(Debug)]
pub struct HeaderMap {
    entries: Vec<(WarcHeader, Vec<u8>)>,
}

impl View for HeaderMap {
    type V = HeaderEntries;

    closed spec fn view(&self) -> HeaderEntries {
        Seq::new(self.entries@.len(), |i: int| (self.entries@[i].0@, self.entries@[i].1@))
    }
}

impl HeaderMap {
    /// Every name occurs at most once.
    pub open spec fn wf(&self) -> bool {
        map_unique(self@)
    }

    /// An empty map.
    pub fn new() -> (r: HeaderMap)
        ensures
            r@ == Seq::<(Seq<char>, Seq<u8>)>::empty(),
            r.wf(),
    {
        let r = HeaderMap { entries: Vec::new() };
        proof {
            assert(r@ =~= Seq::<(Seq<char>, Seq<u8>)>::empty());
        }
        r
    }

    /// The number of entries.
    pub fn len(&self) -> (r: usize)
        ensures
            r == self@.len(),
    {
        self.entries.len()
    }

    /// Whether the map has no entries.
    pub fn is_empty(&self) -> (r: bool)
        ensures
            r == (self@.len() == 0),
    {
        self.entries.is_empty()
    }

    /// The position of the entry named as `name`, if any.
    fn find(&self, name: &WarcHeader) -> (r: Option<usize>)
        ensures
            match r {
                Some(i) => map_has(self@, name@) && i == map_idx(self@, name@) && i
                    < self@.len(),
                None => !map_has(self@, name@),
            },
    {
        proof {
            lemma_map_idx(self@, name@);
        }
        let n: usize = self.entries.len();
        let mut i: usize = 0;
        while i < n
            invariant
                n == self.entries@.len(),
                i <= n,
                forall|j: int| 0 <= j < i ==> self@[j].0 != name@,
                map_has(self@, name@) ==> map_idx(self@, name@) >= i,
            decreases n - i,
        {
            if name.same_name(&self.entries[i].0) {
                proof {
                    lemma_map_idx(self@, name@);
                    assert(self@[i as int].0 == name@);
                }
                return Some(i);
            }
            i = i + 1;
            proof {
                lemma_map_idx(self@, name@);
            }
        }
        None
    }

    /// The value stored under `name`, if any.
    pub fn get(&self, name: &WarcHeader) -> (r: Option<&Vec<u8>>)
        ensures
            match r {
                Some(v) => map_has(self@, name@) && v@ == map_val(self@, name@),
                None => !map_has(self@, name@),
            },
    {
        match self.find(name) {
            Some(i) => Some(&vstd::std_specs::vec::vec_index(&self.entries, i).1),
            None => None,
        }
    }

    /// Whether the map stores a value under `name`.
    pub fn contains(&self, name: &WarcHeader) -> (r: bool)
        ensures
            r == map_has(self@, name@),
    {
        self.find(name).is_some()
    }

    /// Set `name` to `value`, returning the previous value if one was there.
    pub fn insert(&mut self, name: WarcHeader, value: Vec<u8>) -> (r: Option<Vec<u8>>)
        ensures
            final(self)@ == map_insert(old(self)@, name@, value@),
            old(self).wf() ==> final(self).wf(),
            match r {
                Some(v) => map_has(old(self)@, name@) && v@ == map_val(old(self)@, name@),
                None => !map_has(old(self)@, name@),
            },
    {
        let ghost m0 = self@;
        match self.find(&name) {
            Some(i) => {
                proof {
                    lemma_map_idx(m0, name@);
                }
                let old_pair = &self.entries[i];
                let old_key = old_pair.0.clone();
                let old_val = old_pair.1.clone();
                let slot = vstd::std_specs::vec::vec_index_mut(&mut self.entries, i);
                *slot = (old_key, value);
                proof {
                    assert(self@ =~= map_insert(m0, name@, value@));
                    if map_unique(m0) {
                        assert(map_unique(self@));
                    }
                }
                Some(old_val)
            },
            None => {
                self.entries.push((name, value));
                proof {
                    assert(self@ =~= map_insert(m0, name@, value@));
                    lemma_map_idx(m0, name@);
                    if map_unique(m0) {
                        assert forall|i: int, j: int|
                            0 <= i < j < self@.len() implies self@[i].0 != self@[j].0 by {
                            if j == self@.len() - 1 {
                                assert(self@[i] == m0[i]);
                            }
                        }
                    }
                }
                None
            },
        }
    }

    /// Remove the entry named `name`, returning its value if one was there.
    pub fn remove(&mut self, name: &WarcHeader) -> (r: Option<Vec<u8>>)
        ensures
            final(self)@ == map_remove(old(self)@, name@),
            old(self).wf() ==> final(self).wf(),
            match r {
                Some(v) => map_has(old(self)@, name@) && v@ == map_val(old(self)@, name@),
                None => !map_has(old(self)@, name@),
            },
    {
        let ghost m0 = self@;
        match self.find(name) {
            Some(i) => {
                let (_, v) = self.entries.remove(i);
                proof {
                    assert(self@ =~= map_remove(m0, name@));
                    if map_unique(m0) {
                        assert forall|a: int, b: int|
                            0 <= a < b < self@.len() implies self@[a].0 != self@[b].0 by {
                            if a < i as int {
                                assert(self@[a] == m0[a]);
                            } else {
                                assert(self@[a] == m0[a + 1]);
                            }
                            if b < i as int {
                                assert(self@[b] == m0[b]);
                            } else {
                                assert(self@[b] == m0[b + 1]);
                            }
                        }
                    }
                }
                Some(v)
            },
            None => None,
        }
    }

    /// The entry at position `i`, for walking the map in order.
    pub fn entry_at(&self, i: usize) -> (r: &(WarcHeader, Vec<u8>))
        requires
            i < self@.len(),
        ensures
            r.0@ == self@[i as int].0,
            r.1@ == self@[i as int].1,
    {
        vstd::std_specs::vec::vec_index(&self.entries, i)
    }
}

impl HeaderMap {
    /// Fold every entry of `other` into this map, in order.
    pub fn extend(&mut self, other: HeaderMap)
        ensures
            final(self)@ == spec_map_extend(old(self)@, other@),
            old(self).wf() ==> final(self).wf(),
    {
        let n: usize = other.len();
        proof {
            assert(other@.skip(0) =~= other@);
        }
        let mut i: usize = 0;
        while i < n
            invariant
                n == other@.len(),
                i <= n,
                spec_map_extend(old(self)@, other@) == spec_map_extend(
                    self@,
                    other@.skip(i as int),
                ),
                old(self).wf() ==> self.wf(),
            decreases n - i,
        {
            let pair = other.entry_at(i);
            let ghost before = self@;
            self.insert(pair.0.clone(), pair.1.clone());
            i = i + 1;
            proof {
                assert(other@.skip(i - 1).drop_first() =~= other@.skip(i as int));
                assert(other@.skip(i - 1)[0] == other@[i - 1]);
            }
        }
        proof {
            assert(other@.skip(n as int) =~= Seq::<(Seq<char>, Seq<u8>)>::empty());
        }
    }
}

impl PartialEq for HeaderMap {
    /// Two maps are equal when they hold the same entries in the same
    /// order.
    fn eq(&self, other: &HeaderMap) -> (r: bool) {
        let n = self.len();
        if n != other.len() {
            return false;
        }
        let mut i: usize = 0;
        while i < n
            invariant
                n == self@.len() == other@.len(),
                i <= n,
                forall|j: int| 0 <= j < i ==> self@[j] == other@[j],
            decreases n - i,
        {
            let a = self.entry_at(i);
            let b = other.entry_at(i);
            if !a.0.same_name(&b.0) {
                return false;
            }
            if !crate::strings::bytes_eq(a.1.as_slice(), b.1.as_slice()) {
                return false;
            }
            i = i + 1;
        }
        proof {
            assert(self@ =~= other@);
        }
        true
    }
}

impl vstd::std_specs::cmp::PartialEqSpecImpl for HeaderMap {
    open spec fn obeys_eq_spec() -> bool {
        true
    }

    open spec fn eq_spec(&self, other: &HeaderMap) -> bool {
        self@ == other@
    }
}

impl Clone for HeaderMap {
    /// A clone carries the same entries.
    fn clone(&self) -> (r: Self)
        ensures
            r@ == self@,
    {
        let mut entries: Vec<(WarcHeader, Vec<u8>)> = Vec::new();
        let n: usize = self.entries.len();
        let mut i: usize = 0;
        while i < n
            invariant
                n == self.entries@.len(),
                i <= n,
                entries@.len() == i,
                forall|j: int|
                    0 <= j < i ==> (entries@[j].0@, entries@[j].1@) == (
                    self.entries@[j].0@,
                    self.entries@[j].1@,
                    ),
            decreases n - i,
        {
            let pair = &self.entries[i];
            entries.push((pair.0.clone(), pair.1.clone()));
            i = i + 1;
        }
        let r = HeaderMap { entries };
        proof {
            assert(r@ =~= self@);
        }
        r
    }
}

} // verus!
