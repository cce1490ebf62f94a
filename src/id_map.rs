//! A map keyed by node identifier, kept as a list of entries with unique keys.

use crate::domain::NodeId;
use vstd::prelude::*;

verus! {

/// No key occurs twice among the entries.
pub open spec fn keys_unique<V>(s: Seq<(NodeId, V)>) -> bool {
    forall|i: int, j: int|
        #![trigger s[i].0, s[j].0]
        0 <= i < s.len() && 0 <= j < s.len() && i != j ==> s[i].0 != s[j].0
}

/// The map that a list of entries denotes; a later entry overrides an earlier one.
pub open spec fn entries_map<V>(s: Seq<(NodeId, V)>) -> Map<NodeId, V>
    decreases s.len(),
{
    if s.len() == 0 {
        Map::empty()
    } else {
        entries_map(s.drop_last()).insert(s.last().0, s.last().1)
    }
}

/// `s` lists the entries of the finite map `m`, each key exactly once.
pub open spec fn lists<V>(s: Seq<(NodeId, V)>, m: Map<NodeId, V>) -> bool {
    &&& keys_unique(s)
    &&& m.dom().finite()
    &&& s.len() == m.len()
    &&& forall|i: int|
        #![trigger s[i]]
        0 <= i < s.len() ==> m.contains_key(s[i].0) && m[s[i].0] == s[i].1
    &&& forall|k: NodeId| #[trigger]
        m.contains_key(k) ==> exists|i: int| 0 <= i < s.len() && s[i].0 == k
}

pub proof fn lemma_entries_map_keys<V>(s: Seq<(NodeId, V)>)
    ensures
        entries_map(s).dom().finite(),
        forall|k: NodeId| #[trigger]
            entries_map(s).contains_key(k) <==> exists|i: int| 0 <= i < s.len() && s[i].0 == k,
    decreases s.len(),
{
    if s.len() > 0 {
        let p = s.drop_last();
        lemma_entries_map_keys(p);
        assert forall|k: NodeId| #[trigger]
            entries_map(s).contains_key(k) <==> exists|i: int| 0 <= i < s.len() && s[i].0 == k by {
            if entries_map(s).contains_key(k) {
                if k == s.last().0 {
                    assert(s[s.len() - 1].0 == k);
                } else {
                    let i = choose|i: int| 0 <= i < p.len() && p[i].0 == k;
                    assert(s[i].0 == k);
                }
            }
            if exists|i: int| 0 <= i < s.len() && s[i].0 == k {
                let i = choose|i: int| 0 <= i < s.len() && s[i].0 == k;
                if i < s.len() - 1 {
                    assert(p[i].0 == k);
                }
            }
        }
    }
}

proof fn lemma_entries_map_values<V>(s: Seq<(NodeId, V)>)
    requires
        keys_unique(s),
    ensures
        forall|i: int| #![trigger s[i]] 0 <= i < s.len() ==> entries_map(s)[s[i].0] == s[i].1,
    decreases s.len(),
{
    if s.len() > 0 {
        let p = s.drop_last();
        assert(keys_unique(p)) by {
            assert forall|i: int, j: int|
                0 <= i < p.len() && 0 <= j < p.len() && i != j implies p[i].0 != p[j].0 by {
                assert(p[i] == s[i] && p[j] == s[j]);
            }
        }
        lemma_entries_map_values(p);
        assert forall|i: int| #![trigger s[i]] 0 <= i < s.len() implies entries_map(s)[s[i].0]
            == s[i].1 by {
            if i < s.len() - 1 {
                assert(p[i] == s[i]);
                assert(s[i].0 != s[s.len() - 1].0);
            }
        }
    }
}

proof fn lemma_entries_map_len<V>(s: Seq<(NodeId, V)>)
    requires
        keys_unique(s),
    ensures
        entries_map(s).len() == s.len(),
    decreases s.len(),
{
    if s.len() > 0 {
        let p = s.drop_last();
        assert(keys_unique(p)) by {
            assert forall|i: int, j: int|
                0 <= i < p.len() && 0 <= j < p.len() && i != j implies p[i].0 != p[j].0 by {
                assert(p[i] == s[i] && p[j] == s[j]);
            }
        }
        lemma_entries_map_len(p);
        lemma_entries_map_keys(p);
        assert(!entries_map(p).contains_key(s.last().0)) by {
            if entries_map(p).contains_key(s.last().0) {
                let i = choose|i: int| 0 <= i < p.len() && p[i].0 == s.last().0;
                assert(s[i].0 == s[s.len() - 1].0);
            }
        }
    }
}

/// A list of entries with unique keys lists the map it denotes.
pub proof fn lemma_lists_entries_map<V>(s: Seq<(NodeId, V)>)
    requires
        keys_unique(s),
    ensures
        lists(s, entries_map(s)),
{
    lemma_entries_map_keys(s);
    lemma_entries_map_values(s);
    lemma_entries_map_len(s);
    let m = entries_map(s);
    assert forall|i: int| #![trigger s[i]] 0 <= i < s.len() implies m.contains_key(s[i].0)
        && m[s[i].0] == s[i].1 by {
        assert(exists|j: int| 0 <= j < s.len() && s[j].0 == s[i].0);
    }
}

/// The map that a list of entries lists is the one it denotes.
pub proof fn lemma_lists_determines<V>(s: Seq<(NodeId, V)>, m: Map<NodeId, V>)
    requires
        lists(s, m),
    ensures
        entries_map(s) == m,
{
    lemma_lists_entries_map(s);
    let e = entries_map(s);
    assert forall|k: NodeId| e.contains_key(k) <==> m.contains_key(k) by {
        if e.contains_key(k) {
            let i = choose|i: int| 0 <= i < s.len() && s[i].0 == k;
            assert(m.contains_key(s[i].0));
        }
        if m.contains_key(k) {
            let i = choose|i: int| 0 <= i < s.len() && s[i].0 == k;
            assert(e.contains_key(s[i].0));
        }
    }
    assert forall|k: NodeId| #[trigger] e.contains_key(k) implies e[k] == m[k] by {
        let i = choose|i: int| 0 <= i < s.len() && s[i].0 == k;
        assert(e[s[i].0] == s[i].1 && m[s[i].0] == s[i].1);
    }
    assert(e =~= m);
}

/// A list of entries with unique keys, which all belong to `m` and cover its
/// keys, lists `m`.
pub proof fn lemma_lists_by_cover<V>(s: Seq<(NodeId, V)>, m: Map<NodeId, V>)
    requires
        keys_unique(s),
        forall|i: int|
            #![trigger s[i]]
            0 <= i < s.len() ==> m.contains_key(s[i].0) && m[s[i].0] == s[i].1,
        forall|k: NodeId| #[trigger]
            m.contains_key(k) ==> exists|i: int| 0 <= i < s.len() && s[i].0 == k,
    ensures
        lists(s, m),
        entries_map(s) == m,
{
    lemma_entries_map_keys(s);
    lemma_entries_map_values(s);
    lemma_entries_map_len(s);
    let e = entries_map(s);
    assert forall|k: NodeId| e.contains_key(k) <==> m.contains_key(k) by {
        if e.contains_key(k) {
            let i = choose|i: int| 0 <= i < s.len() && s[i].0 == k;
            assert(m.contains_key(s[i].0));
        }
    }
    assert forall|k: NodeId| #[trigger] e.contains_key(k) implies e[k] == m[k] by {
        let i = choose|i: int| 0 <= i < s.len() && s[i].0 == k;
        assert(e[s[i].0] == s[i].1 && m[s[i].0] == s[i].1);
    }
    assert(e =~= m);
}

/// A finite map from node identifiers to values.
pub struct IdMap<V> {
    entries: Vec<(NodeId, V)>,
}

impl<V> View for IdMap<V> {
    type V = Map<NodeId, V>;

    closed spec fn view(&self) -> Map<NodeId, V> {
        entries_map(self.entries@)
    }
}

impl<V> IdMap<V> {
    #[verifier::type_invariant]
    closed spec fn inv(&self) -> bool {
        keys_unique(self.entries@)
    }
}

impl<V: Copy> IdMap<V> {
    /// The empty map.
    pub fn new() -> (r: IdMap<V>)
        ensures
            r@ == Map::<NodeId, V>::empty(),
    {
        IdMap { entries: Vec::new() }
    }

    /// Every map that a value of this type holds is finite.
    pub proof fn lemma_finite(&self)
        ensures
            self@.dom().finite(),
    {
        lemma_entries_map_keys(self.entries@);
    }

    fn find(&self, k: &NodeId) -> (r: Option<usize>)
        ensures
            match r {
                Some(i) => i < self.entries@.len() && self.entries@[i as int].0 == *k,
                None => forall|j: int| 0 <= j < self.entries@.len() ==> self.entries@[j].0 != *k,
            },
    {
        let mut i: usize = 0;
        while i < self.entries.len()
            invariant
                i <= self.entries@.len(),
                forall|j: int| 0 <= j < i ==> self.entries@[j].0 != *k,
            decreases self.entries@.len() - i,
        {
            if self.entries[i].0 == *k {
                return Some(i);
            }
            i = i + 1;
        }
        None
    }

    /// The number of keys.
    pub fn len(&self) -> (r: usize)
        ensures
            r == self@.len(),
    {
        proof {
            use_type_invariant(self);
            lemma_entries_map_len(self.entries@);
        }
        self.entries.len()
    }

    /// Whether the map has no key.
    pub fn is_empty(&self) -> (r: bool)
        ensures
            r == (self@.len() == 0),
            r ==> self@ == Map::<NodeId, V>::empty(),
    {
        proof {
            use_type_invariant(self);
            lemma_entries_map_len(self.entries@);
        }
        if self.entries.len() == 0 {
            assert(self.entries@ =~= Seq::<(NodeId, V)>::empty());
            true
        } else {
            false
        }
    }

    /// Whether `k` is a key.
    pub fn contains_key(&self, k: &NodeId) -> (r: bool)
        ensures
            r == self@.contains_key(*k),
    {
        proof {
            lemma_entries_map_keys(self.entries@);
        }
        match self.find(k) {
            Some(i) => {
                assert(self.entries@[i as int].0 == *k);
                true
            },
            None => false,
        }
    }

    /// The value under `k`, if any.
    pub fn get(&self, k: &NodeId) -> (r: Option<&V>)
        ensures
            match r {
                Some(v) => self@.contains_key(*k) && *v == self@[*k],
                None => !self@.contains_key(*k),
            },
    {
        proof {
            use_type_invariant(self);
            lemma_entries_map_keys(self.entries@);
            lemma_entries_map_values(self.entries@);
        }
        match self.find(k) {
            Some(i) => {
                assert(self.entries@[i as int].0 == *k);
                Some(&self.entries[i].1)
            },
            None => None,
        }
    }

    /// Binds `k` to `v`, returning the value it replaced.
    pub fn insert(&mut self, k: NodeId, v: V) -> (r: Option<V>)
        ensures
            final(self)@ == old(self)@.insert(k, v),
            r == (if old(self)@.contains_key(k) {
                Some(old(self)@[k])
            } else {
                None
            }),
    {
        proof {
            use_type_invariant(&*self);
            lemma_entries_map_keys(self.entries@);
            lemma_entries_map_values(self.entries@);
            lemma_lists_entries_map(self.entries@);
        }
        let ghost s = self.entries@;
        let ghost m = entries_map(s);
        match self.find(&k) {
            Some(i) => {
                let prev = self.entries[i].1;
                let mut entries = self.copy_entries();
                entries.set(i, (k, v));
                proof {
                    let t = entries@;
                    assert(t == s.update(i as int, (k, v)));
                    assert(keys_unique(t)) by {
                        assert forall|a: int, b: int|
                            0 <= a < t.len() && 0 <= b < t.len() && a != b implies t[a].0
                            != t[b].0 by {
                            assert(s[a].0 != s[b].0);
                        }
                    }
                    let m2 = m.insert(k, v);
                    assert(m.contains_key(k));
                    assert(m2.len() == m.len());
                    assert forall|a: int| #![trigger t[a]] 0 <= a < t.len() implies m2.contains_key(
                        t[a].0,
                    ) && m2[t[a].0] == t[a].1 by {
                        if a != i {
                            assert(s[a].0 != s[i as int].0);
                        }
                    }
                    assert forall|q: NodeId| #[trigger] m2.contains_key(q) implies exists|a: int|
                        0 <= a < t.len() && t[a].0 == q by {
                        let a = choose|a: int| 0 <= a < s.len() && s[a].0 == q;
                        assert(t[a].0 == q);
                    }
                    lemma_lists_determines(t, m2);
                }
                *self = IdMap { entries };
                Some(prev)
            },
            None => {
                let mut entries = self.copy_entries();
                entries.push((k, v));
                proof {
                    let t = entries@;
                    assert(t.drop_last() =~= s);
                    assert(keys_unique(t)) by {
                        assert forall|a: int, b: int|
                            0 <= a < t.len() && 0 <= b < t.len() && a != b implies t[a].0
                            != t[b].0 by {
                            if a < s.len() && b < s.len() {
                                assert(s[a].0 != s[b].0);
                            } else if a < s.len() {
                                assert(s[a].0 != k);
                            } else {
                                assert(s[b].0 != k);
                            }
                        }
                    }
                }
                *self = IdMap { entries };
                None
            },
        }
    }

    /// Removes `k`, returning the value it had.
    pub fn remove(&mut self, k: &NodeId) -> (r: Option<V>)
        ensures
            final(self)@ == old(self)@.remove(*k),
            r == (if old(self)@.contains_key(*k) {
                Some(old(self)@[*k])
            } else {
                None
            }),
    {
        proof {
            use_type_invariant(&*self);
            lemma_entries_map_keys(self.entries@);
            lemma_entries_map_values(self.entries@);
            lemma_lists_entries_map(self.entries@);
        }
        let ghost s = self.entries@;
        let ghost m = entries_map(s);
        match self.find(k) {
            Some(i) => {
                let mut entries = self.copy_entries();
                let removed = entries.remove(i);
                proof {
                    let t = entries@;
                    assert(t == s.remove(i as int));
                    assert(keys_unique(t)) by {
                        assert forall|a: int, b: int|
                            0 <= a < t.len() && 0 <= b < t.len() && a != b implies t[a].0
                            != t[b].0 by {
                            let sa = if a < i { a } else { a + 1 };
                            let sb = if b < i { b } else { b + 1 };
                            assert(t[a] == s[sa] && t[b] == s[sb]);
                        }
                    }
                    let m2 = m.remove(*k);
                    assert forall|a: int| #![trigger t[a]] 0 <= a < t.len() implies m2.contains_key(
                        t[a].0,
                    ) && m2[t[a].0] == t[a].1 by {
                        let sa = if a < i { a } else { a + 1 };
                        assert(t[a] == s[sa]);
                        assert(s[sa].0 != s[i as int].0);
                    }
                    assert forall|q: NodeId| #[trigger] m2.contains_key(q) implies exists|a: int|
                        0 <= a < t.len() && t[a].0 == q by {
                        let a = choose|a: int| 0 <= a < s.len() && s[a].0 == q;
                        assert(a != i);
                        if a < i {
                            assert(t[a].0 == q);
                        } else {
                            assert(t[a - 1].0 == q);
                        }
                    }
                    lemma_lists_determines(t, m2);
                }
                *self = IdMap { entries };
                Some(removed.1)
            },
            None => {
                assert(!m.contains_key(*k)) by {
                    if m.contains_key(*k) {
                        let a = choose|a: int| 0 <= a < s.len() && s[a].0 == *k;
                    }
                }
                assert(m.remove(*k) =~= m);
                None
            },
        }
    }

    fn copy_entries(&self) -> (r: Vec<(NodeId, V)>)
        ensures
            r@ == self.entries@,
    {
        let mut r: Vec<(NodeId, V)> = Vec::new();
        let mut i: usize = 0;
        while i < self.entries.len()
            invariant
                i <= self.entries@.len(),
                r@ == self.entries@.subrange(0, i as int),
            decreases self.entries@.len() - i,
        {
            r.push(self.entries[i]);
            i = i + 1;
            assert(r@ =~= self.entries@.subrange(0, i as int));
        }
        assert(r@ =~= self.entries@);
        r
    }

    /// The entries, each key once, in an unspecified order.
    pub fn to_vec(&self) -> (r: Vec<(NodeId, V)>)
        ensures
            lists(r@, self@),
    {
        proof {
            use_type_invariant(self);
            lemma_lists_entries_map(self.entries@);
        }
        self.copy_entries()
    }

    /// A map with the same contents.
    pub fn duplicate(&self) -> (r: IdMap<V>)
        ensures
            r@ == self@,
    {
        proof {
            use_type_invariant(self);
        }
        IdMap { entries: self.copy_entries() }
    }
}

} // verus!
