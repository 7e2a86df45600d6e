//! Association stores backing the mesh.
//!
//! Every store keeps its entries in a vector with pairwise-distinct keys and
//! is specified through the finite map induced by that entry sequence. The
//! lemmas here relate the sequence-level operations the executable code
//! performs to the map-level operations the contracts speak of.

use vstd::prelude::*;

verus! {

/// The finite map induced by an association sequence; later entries win.
pub open spec fn kv_map<K, V>(s: Seq<(K, V)>) -> Map<K, V>
    decreases s.len(),
{
    if s.len() == 0 {
        Map::empty()
    } else {
        kv_map(s.drop_last()).insert(s.last().0, s.last().1)
    }
}

/// No two entries of the association sequence share a key.
pub open spec fn keys_distinct<K, V>(s: Seq<(K, V)>) -> bool {
    forall|i: int, j: int| 0 <= i < j < s.len() ==> s[i].0 != s[j].0
}

/// The domain of the induced map is finite and holds exactly the keys of the
/// sequence.
pub proof fn lemma_kv_map_dom<K, V>(s: Seq<(K, V)>)
    ensures
        kv_map(s).dom().finite(),
        forall|k: K|
            kv_map(s).dom().contains(k) <==> exists|i: int| 0 <= i < s.len() && s[i].0 == k,
    decreases s.len(),
{
    if s.len() == 0 {
    } else {
        let p = s.drop_last();
        lemma_kv_map_dom(p);
        assert forall|k: K| kv_map(s).dom().contains(k) implies exists|i: int|
            0 <= i < s.len() && s[i].0 == k by {
            if k == s.last().0 {
                assert(s[s.len() - 1].0 == k);
            } else {
                let i = choose|i: int| 0 <= i < p.len() && p[i].0 == k;
                assert(s[i].0 == k);
            }
        }
        assert forall|k: K| (exists|i: int| 0 <= i < s.len() && s[i].0 == k) implies kv_map(
            s,
        ).dom().contains(k) by {
            let i = choose|i: int| 0 <= i < s.len() && s[i].0 == k;
            if i < s.len() - 1 {
                assert(p[i].0 == k);
            }
        }
    }
}

/// With distinct keys, the induced map has exactly as many keys as the
/// sequence has entries.
pub proof fn lemma_kv_map_len<K, V>(s: Seq<(K, V)>)
    requires
        keys_distinct(s),
    ensures
        kv_map(s).dom().len() == s.len(),
    decreases s.len(),
{
    broadcast use vstd::set::group_set_axioms;

    if s.len() == 0 {
        assert(kv_map(s).dom() =~= Set::<K>::empty());
    } else {
        let p = s.drop_last();
        lemma_kv_map_len(p);
        lemma_kv_map_dom(p);
        assert(!kv_map(p).dom().contains(s.last().0));
    }
}

/// With distinct keys, each entry of the sequence is mapped to its own value.
pub proof fn lemma_kv_map_entry<K, V>(s: Seq<(K, V)>, i: int)
    requires
        keys_distinct(s),
        0 <= i < s.len(),
    ensures
        kv_map(s).dom().contains(s[i].0),
        kv_map(s)[s[i].0] == s[i].1,
    decreases s.len(),
{
    if i == s.len() - 1 {
    } else {
        let p = s.drop_last();
        assert(p[i] == s[i]);
        lemma_kv_map_entry(p, i);
        assert(s[i].0 != s.last().0);
    }
}

/// Appending an entry inserts its pair into the induced map.
pub proof fn lemma_kv_map_push<K, V>(s: Seq<(K, V)>, k: K, v: V)
    ensures
        kv_map(s.push((k, v))) == kv_map(s).insert(k, v),
{
    let t = s.push((k, v));
    assert(t.drop_last() =~= s);
    assert(t.last() == (k, v));
}

/// Replacing the value at one index updates that key in the induced map.
pub proof fn lemma_kv_map_update<K, V>(s: Seq<(K, V)>, i: int, v: V)
    requires
        keys_distinct(s),
        0 <= i < s.len(),
    ensures
        kv_map(s.update(i, (s[i].0, v))) == kv_map(s).insert(s[i].0, v),
    decreases s.len(),
{
    let t = s.update(i, (s[i].0, v));
    if i == s.len() - 1 {
        assert(t.drop_last() =~= s.drop_last());
        assert(kv_map(t) =~= kv_map(s).insert(s[i].0, v));
    } else {
        let p = s.drop_last();
        assert(p[i] == s[i]);
        lemma_kv_map_update(p, i, v);
        assert(t.drop_last() =~= p.update(i, (s[i].0, v)));
        assert(t.last() == s.last());
        assert(s[i].0 != s.last().0);
        assert(kv_map(t) =~= kv_map(s).insert(s[i].0, v));
    }
}

/// An insertion-ordered association map from integer handles to values.
pub struct HandleMap<V> {
    entries: Vec<(usize, V)>,
}

impl<V> View for HandleMap<V> {
    type V = Map<usize, V>;

    closed spec fn view(&self) -> Map<usize, V> {
        kv_map(self.entries@)
    }
}

impl<V> HandleMap<V> {
    /// The entries in insertion order, for callers that scan the store.
    pub closed spec fn entry_seq(self) -> Seq<(usize, V)> {
        self.entries@
    }

    /// The entry keys are pairwise distinct.
    pub closed spec fn wf(self) -> bool {
        keys_distinct(self.entries@)
    }

    /// The induced map agrees with the entry sequence: same keys, and each
    /// entry is mapped to its own value.
    pub proof fn lemma_entries(&self)
        requires
            self.wf(),
        ensures
            keys_distinct(self.entry_seq()),
            self@.dom().finite(),
            self@.dom().len() == self.entry_seq().len(),
            forall|k: usize|
                self@.dom().contains(k) <==> exists|i: int|
                    0 <= i < self.entry_seq().len() && self.entry_seq()[i].0 == k,
            forall|i: int|
                0 <= i < self.entry_seq().len() ==> self@.dom().contains(
                    #[trigger] self.entry_seq()[i].0,
                ) && self@[self.entry_seq()[i].0] == self.entry_seq()[i].1,
    {
        lemma_kv_map_dom(self.entries@);
        lemma_kv_map_len(self.entries@);
        assert forall|i: int| 0 <= i < self.entry_seq().len() implies self@.dom().contains(
            #[trigger] self.entry_seq()[i].0,
        ) && self@[self.entry_seq()[i].0] == self.entry_seq()[i].1 by {
            lemma_kv_map_entry(self.entries@, i);
        }
    }

    /// An empty store.
    pub fn new() -> (r: Self)
        ensures
            r.wf(),
            r@ == Map::<usize, V>::empty(),
            r.entry_seq() == Seq::<(usize, V)>::empty(),
    {
        let r = HandleMap { entries: Vec::new() };
        proof {
            assert(r.entry_seq() =~= Seq::<(usize, V)>::empty());
        }
        r
    }

    /// How many handles the store holds.
    pub fn len(&self) -> (r: usize)
        requires
            self.wf(),
        ensures
            r == self@.dom().len(),
    {
        proof {
            self.lemma_entries();
        }
        self.entries.len()
    }

    /// Whether the handle is present.
    pub fn contains(&self, k: usize) -> (r: bool)
        requires
            self.wf(),
        ensures
            r == self@.dom().contains(k),
    {
        proof {
            self.lemma_entries();
        }
        let n = self.entries.len();
        let mut i: usize = 0;
        while i < n
            invariant
                n == self.entry_seq().len(),
                0 <= i <= n,
                forall|j: int| 0 <= j < i ==> (#[trigger] self.entry_seq()[j].0) != k,
            decreases n - i,
        {
            if self.entries[i].0 == k {
                return true;
            }
            i = i + 1;
        }
        false
    }

    /// The value stored at the handle, if any.
    pub fn get(&self, k: usize) -> (r: Option<&V>)
        requires
            self.wf(),
        ensures
            match r {
                Some(v) => self@.dom().contains(k) && *v == self@[k],
                None => !self@.dom().contains(k),
            },
    {
        proof {
            self.lemma_entries();
        }
        let n = self.entries.len();
        let mut i: usize = 0;
        while i < n
            invariant
                n == self.entry_seq().len(),
                0 <= i <= n,
                forall|j: int| 0 <= j < i ==> (#[trigger] self.entry_seq()[j].0) != k,
            decreases n - i,
        {
            if self.entries[i].0 == k {
                return Some(&self.entries[i].1);
            }
            i = i + 1;
        }
        None
    }

    /// Store a value at the handle, replacing any previous value.
    pub fn insert(&mut self, k: usize, v: V)
        requires
            old(self).wf(),
        ensures
            final(self).wf(),
            final(self)@ == old(self)@.insert(k, v),
    {
        let n = self.entries.len();
        let mut i: usize = 0;
        while i < n
            invariant
                *self == *old(self),
                n == self.entry_seq().len(),
                0 <= i <= n,
                forall|j: int| 0 <= j < i ==> (#[trigger] self.entry_seq()[j].0) != k,
            decreases n - i,
        {
            if self.entries[i].0 == k {
                proof {
                    lemma_kv_map_update(self.entries@, i as int, v);
                }
                self.entries.set(i, (k, v));
                proof {
                    assert(keys_distinct(self.entries@));
                }
                return ;
            }
            i = i + 1;
        }
        proof {
            lemma_kv_map_push(self.entries@, k, v);
        }
        self.entries.push((k, v));
        proof {
            assert forall|a: int, b: int|
                0 <= a < b < self.entries@.len() implies self.entries@[a].0
                != self.entries@[b].0 by {
                if b < self.entries@.len() - 1 {
                    assert(old(self).entry_seq()[a].0 != old(self).entry_seq()[b].0);
                }
            }
        }
    }

    /// Remove every entry.
    pub fn clear(&mut self)
        ensures
            final(self).wf(),
            final(self)@ == Map::<usize, V>::empty(),
            final(self).entry_seq() == Seq::<(usize, V)>::empty(),
    {
        self.entries.clear();
        proof {
            assert(self.entry_seq() =~= Seq::<(usize, V)>::empty());
        }
    }

    /// The number of entries, for scanning.
    pub fn num_entries(&self) -> (r: usize)
        ensures
            r == self.entry_seq().len(),
    {
        self.entries.len()
    }

    /// The entry at a scan position.
    pub fn entry(&self, i: usize) -> (r: &(usize, V))
        requires
            i < self.entry_seq().len(),
        ensures
            *r == self.entry_seq()[i as int],
    {
        &self.entries[i]
    }
}

/// The halfedge adjacency table: an association map from directed vertex
/// pairs to the face, if any, that owns that direction.
pub struct EdgeTable {
    entries: Vec<((usize, usize), Option<usize>)>,
}

impl View for EdgeTable {
    type V = Map<(usize, usize), Option<usize>>;

    closed spec fn view(&self) -> Map<(usize, usize), Option<usize>> {
        kv_map(self.entries@)
    }
}

impl EdgeTable {
    /// The entries in insertion order, for callers that scan the table.
    pub closed spec fn entry_seq(self) -> Seq<((usize, usize), Option<usize>)> {
        self.entries@
    }

    /// The entry keys are pairwise distinct.
    pub closed spec fn wf(self) -> bool {
        keys_distinct(self.entries@)
    }

    /// The induced map agrees with the entry sequence.
    pub proof fn lemma_entries(&self)
        requires
            self.wf(),
        ensures
            keys_distinct(self.entry_seq()),
            self@.dom().finite(),
            self@.dom().len() == self.entry_seq().len(),
            forall|p: (usize, usize)|
                self@.dom().contains(p) <==> exists|i: int|
                    0 <= i < self.entry_seq().len() && self.entry_seq()[i].0 == p,
            forall|i: int|
                0 <= i < self.entry_seq().len() ==> self@.dom().contains(
                    #[trigger] self.entry_seq()[i].0,
                ) && self@[self.entry_seq()[i].0] == self.entry_seq()[i].1,
    {
        lemma_kv_map_dom(self.entries@);
        lemma_kv_map_len(self.entries@);
        assert forall|i: int| 0 <= i < self.entry_seq().len() implies self@.dom().contains(
            #[trigger] self.entry_seq()[i].0,
        ) && self@[self.entry_seq()[i].0] == self.entry_seq()[i].1 by {
            lemma_kv_map_entry(self.entries@, i);
        }
    }

    /// An empty table.
    pub fn new() -> (r: Self)
        ensures
            r.wf(),
            r@ == Map::<(usize, usize), Option<usize>>::empty(),
            r.entry_seq() == Seq::<((usize, usize), Option<usize>)>::empty(),
    {
        let r = EdgeTable { entries: Vec::new() };
        proof {
            assert(r.entry_seq() =~= Seq::<((usize, usize), Option<usize>)>::empty());
        }
        r
    }

    /// Whether the directed pair is present.
    pub fn contains(&self, u: usize, v: usize) -> (r: bool)
        requires
            self.wf(),
        ensures
            r == self@.dom().contains((u, v)),
    {
        proof {
            self.lemma_entries();
        }
        let n = self.entries.len();
        let mut i: usize = 0;
        while i < n
            invariant
                0 <= i <= n,
                forall|j: int| 0 <= j < i ==> (#[trigger] self.entry_seq()[j].0) != (u, v),
            decreases n - i,
        {
            if self.entries[i].0.0 == u && self.entries[i].0.1 == v {
                return true;
            }
            i = i + 1;
        }
        false
    }

    /// The face recorded for the directed pair, if the pair is present.
    pub fn lookup(&self, u: usize, v: usize) -> (r: Option<Option<usize>>)
        requires
            self.wf(),
        ensures
            match r {
                Some(f) => self@.dom().contains((u, v)) && f == self@[(u, v)],
                None => !self@.dom().contains((u, v)),
            },
    {
        proof {
            self.lemma_entries();
        }
        let n = self.entries.len();
        let mut i: usize = 0;
        while i < n
            invariant
                0 <= i <= n,
                forall|j: int| 0 <= j < i ==> (#[trigger] self.entry_seq()[j].0) != (u, v),
            decreases n - i,
        {
            if self.entries[i].0.0 == u && self.entries[i].0.1 == v {
                return Some(self.entries[i].1);
            }
            i = i + 1;
        }
        None
    }

    /// Record a face (or the boundary sentinel) for the directed pair,
    /// replacing any previous record.
    pub fn insert(&mut self, u: usize, v: usize, f: Option<usize>)
        requires
            old(self).wf(),
        ensures
            final(self).wf(),
            final(self)@ == old(self)@.insert((u, v), f),
    {
        let n = self.entries.len();
        let mut i: usize = 0;
        while i < n
            invariant
                *self == *old(self),
                0 <= i <= n,
                n == self.entry_seq().len(),
                forall|j: int| 0 <= j < i ==> (#[trigger] self.entry_seq()[j].0) != (u, v),
            decreases n - i,
        {
            if self.entries[i].0.0 == u && self.entries[i].0.1 == v {
                proof {
                    lemma_kv_map_update(self.entries@, i as int, f);
                }
                self.entries.set(i, ((u, v), f));
                proof {
                    assert(keys_distinct(self.entries@));
                }
                return ;
            }
            i = i + 1;
        }
        proof {
            lemma_kv_map_push(self.entries@, (u, v), f);
        }
        self.entries.push(((u, v), f));
        proof {
            assert forall|a: int, b: int|
                0 <= a < b < self.entries@.len() implies self.entries@[a].0
                != self.entries@[b].0 by {
                if b < self.entries@.len() - 1 {
                    assert(old(self).entry_seq()[a].0 != old(self).entry_seq()[b].0);
                }
            }
        }
    }

    /// Remove every entry.
    pub fn clear(&mut self)
        ensures
            final(self).wf(),
            final(self)@ == Map::<(usize, usize), Option<usize>>::empty(),
            final(self).entry_seq() == Seq::<((usize, usize), Option<usize>)>::empty(),
    {
        self.entries.clear();
        proof {
            assert(self.entry_seq() =~= Seq::<((usize, usize), Option<usize>)>::empty());
        }
    }

    /// The number of entries, for scanning.
    pub fn num_entries(&self) -> (r: usize)
        ensures
            r == self.entry_seq().len(),
    {
        self.entries.len()
    }

    /// The entry at a scan position.
    pub fn entry(&self, i: usize) -> (r: &((usize, usize), Option<usize>))
        requires
            i < self.entry_seq().len(),
        ensures
            *r == self.entry_seq()[i as int],
    {
        &self.entries[i]
    }

    /// How many of the table's keys have their smaller endpoint first. In a
    /// table that holds every key in both directions this counts each
    /// undirected edge once.
    pub fn ascending_len(&self) -> (r: usize)
        requires
            self.wf(),
        ensures
            r == self@.dom().filter(|p: (usize, usize)| p.0 < p.1).len(),
    {
        broadcast use vstd::set::group_set_axioms;

        proof {
            self.lemma_entries();
        }
        let n = self.entries.len();
        let mut c: usize = 0;
        let mut i: usize = 0;
        proof {
            assert(self.entry_seq().take(0) =~= Seq::<((usize, usize), Option<usize>)>::empty());
            assert(kv_map(self.entry_seq().take(0)).dom().filter(
                |p: (usize, usize)| p.0 < p.1,
            ) =~= Set::<(usize, usize)>::empty());
        }
        while i < n
            invariant
                0 <= i <= n,
                c <= i,
                c == kv_map(self.entry_seq().take(i as int)).dom().filter(
                    |p: (usize, usize)| p.0 < p.1,
                ).len(),
            decreases n - i,
        {
            proof {
                let s = self.entry_seq();
                let t = s.take(i as int);
                let t1 = s.take(i as int + 1);
                assert(t1 =~= t.push(s[i as int]));
                lemma_kv_map_push(t, s[i as int].0, s[i as int].1);
                lemma_kv_map_dom(t);
                assert(forall|j: int| 0 <= j < t.len() ==> t[j] == s[j]);
                assert(!kv_map(t).dom().contains(s[i as int].0));
                let d0 = kv_map(t).dom();
                let d1 = kv_map(t1).dom();
                assert(d1 =~= d0.insert(s[i as int].0));
                let asc = |p: (usize, usize)| p.0 < p.1;
                if s[i as int].0.0 < s[i as int].0.1 {
                    assert(d1.filter(asc) =~= d0.filter(asc).insert(s[i as int].0));
                } else {
                    assert(d1.filter(asc) =~= d0.filter(asc));
                }
            }
            if self.entries[i].0.0 < self.entries[i].0.1 {
                c = c + 1;
            }
            i = i + 1;
        }
        proof {
            assert(self.entry_seq().take(n as int) =~= self.entry_seq());
        }
        c
    }
}

/// The spec-level key/value pairs of an attribute entry sequence: the
/// attribute name is read as its character sequence.
pub open spec fn attr_kv<S>(s: Seq<((usize, String), S)>) -> Seq<((usize, Seq<char>), S)> {
    s.map_values(|e: ((usize, String), S)| ((e.0.0, e.0.1@), e.1))
}

/// All attribute keys that belong to one handle.
pub open spec fn handle_attr_keys(h: usize) -> Set<(usize, Seq<char>)> {
    Set::new(|q: (usize, Seq<char>)| q.0 == h)
}

/// Named scalar attributes for handles: an association map keyed by the pair
/// of a handle and an attribute name.
pub struct AttrStore<S> {
    entries: Vec<((usize, String), S)>,
}

impl<S> View for AttrStore<S> {
    type V = Map<(usize, Seq<char>), S>;

    closed spec fn view(&self) -> Map<(usize, Seq<char>), S> {
        kv_map(attr_kv(self.entries@))
    }
}

impl<S: Copy> AttrStore<S> {
    /// The entry keys are pairwise distinct.
    pub closed spec fn wf(self) -> bool {
        keys_distinct(attr_kv(self.entries@))
    }

    /// An empty store.
    pub fn new() -> (r: Self)
        ensures
            r.wf(),
            r@ == Map::<(usize, Seq<char>), S>::empty(),
    {
        let r = AttrStore { entries: Vec::new() };
        proof {
            assert(attr_kv(r.entries@) =~= Seq::<((usize, Seq<char>), S)>::empty());
        }
        r
    }

    /// The value stored for the handle under the name, if any.
    pub fn get(&self, h: usize, name: &String) -> (r: Option<S>)
        requires
            self.wf(),
        ensures
            match r {
                Some(v) => self@.dom().contains((h, name@)) && v == self@[(h, name@)],
                None => !self@.dom().contains((h, name@)),
            },
    {
        proof {
            lemma_kv_map_dom(attr_kv(self.entries@));
        }
        let n = self.entries.len();
        let mut i: usize = 0;
        while i < n
            invariant
                0 <= i <= n,
                forall|j: int|
                    0 <= j < i ==> (#[trigger] attr_kv(self.entries@)[j].0) != (h, name@),
            decreases n - i,
        {
            if self.entries[i].0.0 == h && self.entries[i].0.1 == *name {
                proof {
                    lemma_kv_map_entry(attr_kv(self.entries@), i as int);
                }
                return Some(self.entries[i].1);
            }
            i = i + 1;
        }
        None
    }

    /// Store a value for the handle under the name, replacing any previous
    /// value.
    pub fn set(&mut self, h: usize, name: String, v: S)
        requires
            old(self).wf(),
        ensures
            final(self).wf(),
            final(self)@ == old(self)@.insert((h, name@), v),
    {
        let n = self.entries.len();
        let mut i: usize = 0;
        while i < n
            invariant
                *self == *old(self),
                0 <= i <= n,
                n == self.entries@.len(),
                forall|j: int|
                    0 <= j < i ==> (#[trigger] attr_kv(self.entries@)[j].0) != (h, name@),
            decreases n - i,
        {
            if self.entries[i].0.0 == h && self.entries[i].0.1 == name {
                proof {
                    let s = attr_kv(self.entries@);
                    lemma_kv_map_update(s, i as int, v);
                    assert(attr_kv(self.entries@.update(i as int, ((h, name), v))) =~= s.update(
                        i as int,
                        (s[i as int].0, v),
                    ));
                }
                self.entries.set(i, ((h, name), v));
                proof {
                    assert(keys_distinct(attr_kv(self.entries@)));
                }
                return ;
            }
            i = i + 1;
        }
        proof {
            let s = attr_kv(self.entries@);
            lemma_kv_map_push(s, (h, name@), v);
            assert(attr_kv(self.entries@.push(((h, name), v))) =~= s.push(((h, name@), v)));
        }
        self.entries.push(((h, name), v));
        proof {
            assert forall|a: int, b: int|
                0 <= a < b < attr_kv(self.entries@).len() implies attr_kv(self.entries@)[a].0
                != attr_kv(self.entries@)[b].0 by {
                if b < attr_kv(self.entries@).len() - 1 {
                    assert(attr_kv(old(self).entries@)[a].0 != attr_kv(old(self).entries@)[b].0);
                }
            }
        }
    }

    /// Drop every attribute of one handle, keeping all others.
    pub fn remove_handle(&mut self, h: usize)
        requires
            old(self).wf(),
        ensures
            final(self).wf(),
            final(self)@ == old(self)@.remove_keys(handle_attr_keys(h)),
    {
        let n = self.entries.len();
        let mut kept: Vec<((usize, String), S)> = Vec::new();
        let mut i: usize = 0;
        proof {
            let s = attr_kv(self.entries@);
            assert(s.take(0) =~= Seq::<((usize, Seq<char>), S)>::empty());
            assert(attr_kv(kept@) =~= Seq::<((usize, Seq<char>), S)>::empty());
            assert(kv_map(attr_kv(kept@)) =~= kv_map(s.take(0)).remove_keys(handle_attr_keys(h)));
        }
        while i < n
            invariant
                *self == *old(self),
                0 <= i <= n,
                n == self.entries@.len(),
                keys_distinct(attr_kv(kept@)),
                kv_map(attr_kv(kept@)) == kv_map(attr_kv(self.entries@).take(i as int)).remove_keys(
                    handle_attr_keys(h),
                ),
            decreases n - i,
        {
            proof {
                let s = attr_kv(self.entries@);
                let t = s.take(i as int);
                let t1 = s.take(i as int + 1);
                assert(t1 =~= t.push(s[i as int]));
                lemma_kv_map_push(t, s[i as int].0, s[i as int].1);
                lemma_kv_map_dom(t);
                assert(forall|j: int| 0 <= j < t.len() ==> t[j] == s[j]);
                assert(!kv_map(t).dom().contains(s[i as int].0));
            }
            if self.entries[i].0.0 != h {
                proof {
                    let s = attr_kv(self.entries@);
                    let t = s.take(i as int);
                    let t1 = s.take(i as int + 1);
                    lemma_kv_map_push(attr_kv(kept@), s[i as int].0, s[i as int].1);
                    assert(attr_kv(kept@.push(self.entries@[i as int])) =~= attr_kv(kept@).push(
                        s[i as int],
                    ));
                    assert(kv_map(t1).remove_keys(handle_attr_keys(h)) =~= kv_map(t).remove_keys(
                        handle_attr_keys(h),
                    ).insert(s[i as int].0, s[i as int].1));
                    lemma_kv_map_dom(attr_kv(kept@));
                    assert(!kv_map(attr_kv(kept@)).dom().contains(s[i as int].0));
                    assert forall|a: int, b: int|
                        0 <= a < b < attr_kv(kept@).len() + 1 implies attr_kv(
                        kept@.push(self.entries@[i as int]),
                    )[a].0 != attr_kv(kept@.push(self.entries@[i as int]))[b].0 by {
                        if b == attr_kv(kept@).len() {
                            assert(attr_kv(kept@)[a].0 != s[i as int].0);
                        } else {
                            assert(attr_kv(kept@)[a].0 != attr_kv(kept@)[b].0);
                        }
                    }
                }
                let e = &self.entries[i];
                kept.push(((e.0.0, e.0.1.clone()), e.1));
            } else {
                proof {
                    let s = attr_kv(self.entries@);
                    let t = s.take(i as int);
                    let t1 = s.take(i as int + 1);
                    assert(kv_map(t1).remove_keys(handle_attr_keys(h)) =~= kv_map(t).remove_keys(
                        handle_attr_keys(h),
                    ));
                }
            }
            i = i + 1;
        }
        proof {
            assert(attr_kv(self.entries@).take(n as int) =~= attr_kv(self.entries@));
        }
        self.entries = kept;
    }

    /// Remove every entry.
    pub fn clear(&mut self)
        ensures
            final(self).wf(),
            final(self)@ == Map::<(usize, Seq<char>), S>::empty(),
    {
        self.entries.clear();
        proof {
            assert(attr_kv(self.entries@) =~= Seq::<((usize, Seq<char>), S)>::empty());
        }
    }
}

/// Whether two byte strings hold the same bytes.
fn bytes_eq(a: &Vec<u8>, b: &Vec<u8>) -> (r: bool)
    ensures
        r == (a@ == b@),
{
    if a.len() != b.len() {
        return false;
    }
    let n = a.len();
    let mut i: usize = 0;
    while i < n
        invariant
            0 <= i <= n,
            forall|j: int| 0 <= j < i ==> a@[j] == b@[j],
        decreases n - i,
    {
        if a[i] != b[i] {
            return false;
        }
        i = i + 1;
    }
    proof {
        assert(a@ =~= b@);
    }
    true
}

/// The spec-level key/value pairs of a byte-key entry sequence.
pub open spec fn bytes_kv(s: Seq<(Vec<u8>, usize)>) -> Seq<(Seq<u8>, usize)> {
    s.map_values(|e: (Vec<u8>, usize)| (e.0@, e.1))
}

/// An association map from byte-string keys to handles, used to coalesce
/// positions that quantize to the same key during soup ingestion.
pub struct KeyIndex {
    entries: Vec<(Vec<u8>, usize)>,
}

impl View for KeyIndex {
    type V = Map<Seq<u8>, usize>;

    closed spec fn view(&self) -> Map<Seq<u8>, usize> {
        kv_map(bytes_kv(self.entries@))
    }
}

impl KeyIndex {
    /// The entry keys are pairwise distinct.
    pub closed spec fn wf(self) -> bool {
        keys_distinct(bytes_kv(self.entries@))
    }

    /// An empty index.
    pub fn new() -> (r: Self)
        ensures
            r.wf(),
            r@ == Map::<Seq<u8>, usize>::empty(),
    {
        let r = KeyIndex { entries: Vec::new() };
        proof {
            assert(bytes_kv(r.entries@) =~= Seq::<(Seq<u8>, usize)>::empty());
        }
        r
    }

    /// The handle recorded for the key, if any.
    pub fn get(&self, k: &Vec<u8>) -> (r: Option<usize>)
        requires
            self.wf(),
        ensures
            match r {
                Some(h) => self@.dom().contains(k@) && h == self@[k@],
                None => !self@.dom().contains(k@),
            },
    {
        proof {
            lemma_kv_map_dom(bytes_kv(self.entries@));
        }
        let n = self.entries.len();
        let mut i: usize = 0;
        while i < n
            invariant
                0 <= i <= n,
                forall|j: int| 0 <= j < i ==> (#[trigger] bytes_kv(self.entries@)[j].0) != k@,
            decreases n - i,
        {
            if bytes_eq(&self.entries[i].0, k) {
                proof {
                    lemma_kv_map_entry(bytes_kv(self.entries@), i as int);
                }
                return Some(self.entries[i].1);
            }
            i = i + 1;
        }
        None
    }

    /// Record a handle for the key, replacing any previous record.
    pub fn insert(&mut self, k: Vec<u8>, h: usize)
        requires
            old(self).wf(),
        ensures
            final(self).wf(),
            final(self)@ == old(self)@.insert(k@, h),
    {
        let n = self.entries.len();
        let mut i: usize = 0;
        while i < n
            invariant
                *self == *old(self),
                0 <= i <= n,
                n == self.entries@.len(),
                forall|j: int| 0 <= j < i ==> (#[trigger] bytes_kv(self.entries@)[j].0) != k@,
            decreases n - i,
        {
            if bytes_eq(&self.entries[i].0, &k) {
                proof {
                    let s = bytes_kv(self.entries@);
                    lemma_kv_map_update(s, i as int, h);
                    assert(bytes_kv(self.entries@.update(i as int, (k, h))) =~= s.update(
                        i as int,
                        (s[i as int].0, h),
                    ));
                }
                self.entries.set(i, (k, h));
                proof {
                    assert(keys_distinct(bytes_kv(self.entries@)));
                }
                return ;
            }
            i = i + 1;
        }
        proof {
            let s = bytes_kv(self.entries@);
            lemma_kv_map_push(s, k@, h);
            assert(bytes_kv(self.entries@.push((k, h))) =~= s.push((k@, h)));
        }
        self.entries.push((k, h));
        proof {
            assert forall|a: int, b: int|
                0 <= a < b < bytes_kv(self.entries@).len() implies bytes_kv(self.entries@)[a].0
                != bytes_kv(self.entries@)[b].0 by {
                if b < bytes_kv(self.entries@).len() - 1 {
                    assert(bytes_kv(old(self).entries@)[a].0 != bytes_kv(old(self).entries@)[b].0);
                }
            }
        }
    }
}

} // verus!
