//! The shared keyed store: an associative container with string keys, read in
//! specifications as a finite `Map`.
//!
//! Entries live in a vector and the first occurrence of a key wins, so every
//! operation is specified against the map view without needing a separate
//! uniqueness invariant; `put` overwrites the winning occurrence in place,
//! which also keeps re-insertion of a present key from growing the store.

use vstd::prelude::*;

verus! {

use vstd::pervasive::VecAdditionalExecFns;

/// The map read of an entry sequence: the first occurrence of a key wins.
pub open spec fn entries_map<V: View>(s: Seq<(String, V)>) -> Map<Seq<char>, V::V>
    decreases s.len(),
{
    if s.len() == 0 {
        Map::empty()
    } else {
        entries_map(s.drop_first()).insert(s[0].0@, s[0].1@)
    }
}

/// An associative store from string keys to values.
#[verifier::reject_recursive_types(V)]
pub struct AssocMap<V> {
    entries: Vec<(String, V)>,
}

impl<V: View> View for AssocMap<V> {
    type V = Map<Seq<char>, V::V>;

    open spec fn view(&self) -> Map<Seq<char>, V::V> {
        entries_map(self.entry_seq())
    }
}

proof fn lemma_lookup_at<V: View>(s: Seq<(String, V)>, i: int, key: Seq<char>)
    requires
        0 <= i < s.len(),
        s[i].0@ == key,
        forall|j: int| 0 <= j < i ==> (#[trigger] s[j]).0@ != key,
    ensures
        entries_map(s).contains_key(key),
        entries_map(s)[key] == s[i].1@,
    decreases i,
{
    if i > 0 {
        lemma_lookup_at(s.drop_first(), i - 1, key);
    }
}

proof fn lemma_lookup_absent<V: View>(s: Seq<(String, V)>, key: Seq<char>)
    requires
        forall|j: int| 0 <= j < s.len() ==> (#[trigger] s[j]).0@ != key,
    ensures
        !entries_map(s).contains_key(key),
    decreases s.len(),
{
    if s.len() > 0 {
        lemma_lookup_absent(s.drop_first(), key);
    }
}

proof fn lemma_overwrite_at<V: View>(s: Seq<(String, V)>, i: int, e: (String, V))
    requires
        0 <= i < s.len(),
        e.0@ == s[i].0@,
        forall|j: int| 0 <= j < i ==> (#[trigger] s[j]).0@ != e.0@,
    ensures
        entries_map(s.update(i, e)) == entries_map(s).insert(e.0@, e.1@),
    decreases i,
{
    let s2 = s.update(i, e);
    if i == 0 {
        assert(s2.drop_first() =~= s.drop_first());
        assert(entries_map(s2) =~= entries_map(s).insert(e.0@, e.1@));
    } else {
        lemma_overwrite_at(s.drop_first(), i - 1, e);
        assert(s2.drop_first() =~= s.drop_first().update(i - 1, e));
        assert(entries_map(s2) =~= entries_map(s).insert(e.0@, e.1@));
    }
}

proof fn lemma_push_fresh<V: View>(s: Seq<(String, V)>, e: (String, V))
    requires
        forall|j: int| 0 <= j < s.len() ==> (#[trigger] s[j]).0@ != e.0@,
    ensures
        entries_map(s.push(e)) == entries_map(s).insert(e.0@, e.1@),
    decreases s.len(),
{
    let t = s.push(e);
    if s.len() == 0 {
        assert(t[0] == e);
        assert(t.drop_first() =~= Seq::<(String, V)>::empty());
        assert(entries_map(t.drop_first()) == Map::<Seq<char>, V::V>::empty());
        assert(entries_map(t) == entries_map(t.drop_first()).insert(e.0@, e.1@));
        assert(entries_map(t) =~= entries_map(s).insert(e.0@, e.1@));
    } else {
        lemma_push_fresh(s.drop_first(), e);
        assert(t[0] == s[0]);
        assert(s[0].0@ != e.0@);
        assert(t.drop_first() =~= s.drop_first().push(e));
        assert(entries_map(t) == entries_map(t.drop_first()).insert(s[0].0@, s[0].1@));
        assert(entries_map(s) == entries_map(s.drop_first()).insert(s[0].0@, s[0].1@));
        assert(entries_map(t) =~= entries_map(s).insert(e.0@, e.1@));
    }
}

/// The map read of a sequence extended at the back by one entry: an entry
/// pushed behind existing ones never shadows a key already present.
proof fn lemma_push_back<V: View>(s: Seq<(String, V)>, e: (String, V))
    ensures
        entries_map(s.push(e)) == if entries_map(s).contains_key(e.0@) {
            entries_map(s)
        } else {
            entries_map(s).insert(e.0@, e.1@)
        },
    decreases s.len(),
{
    let t = s.push(e);
    if s.len() == 0 {
        assert(t[0] == e);
        assert(t.drop_first() =~= Seq::<(String, V)>::empty());
        assert(entries_map(t.drop_first()) == Map::<Seq<char>, V::V>::empty());
        assert(entries_map(t) == entries_map(t.drop_first()).insert(e.0@, e.1@));
        lemma_lookup_absent(s, e.0@);
        assert(entries_map(t) =~= entries_map(s).insert(e.0@, e.1@));
    } else {
        lemma_push_back(s.drop_first(), e);
        assert(t[0] == s[0]);
        assert(t.drop_first() =~= s.drop_first().push(e));
        assert(entries_map(t) == entries_map(t.drop_first()).insert(s[0].0@, s[0].1@));
        assert(entries_map(s) == entries_map(s.drop_first()).insert(s[0].0@, s[0].1@));
        if entries_map(s).contains_key(e.0@) {
            if entries_map(s.drop_first()).contains_key(e.0@) {
                assert(entries_map(t) =~= entries_map(s));
            } else {
                assert(s[0].0@ == e.0@);
                assert(entries_map(t) =~= entries_map(s));
            }
        } else {
            assert(!entries_map(s.drop_first()).contains_key(e.0@));
            assert(entries_map(t) =~= entries_map(s).insert(e.0@, e.1@));
        }
    }
}

impl<V: View> AssocMap<V> {
    /// The raw entry sequence behind the map view.
    pub closed spec fn entry_seq(&self) -> Seq<(String, V)> {
        self.entries@
    }

    /// How many entries the store holds.
    pub open spec fn num_entries(&self) -> nat {
        self.entry_seq().len()
    }

    /// Creates an empty store.
    pub fn new() -> (r: Self)
        ensures
            r@ == Map::<Seq<char>, V::V>::empty(),
            r.num_entries() == 0,
    {
        AssocMap { entries: Vec::new() }
    }

    /// Wraps an entry sequence as a store; earlier entries win on repeated
    /// keys.
    pub fn from_entries(entries: Vec<(String, V)>) -> (r: Self)
        ensures
            r.entry_seq() == entries@,
            r@ == entries_map(entries@),
    {
        AssocMap { entries }
    }

    /// The number of entries held.
    pub fn len(&self) -> (n: usize)
        ensures
            n == self.num_entries(),
    {
        self.entries.len()
    }

    /// The entry at a position, in insertion order.
    pub fn entry_at(&self, i: usize) -> (r: &(String, V))
        requires
            i < self.num_entries(),
        ensures
            *r == self.entry_seq()[i as int],
    {
        &self.entries[i]
    }

    /// The position of the winning occurrence of a key, if any.
    fn find_key(&self, key: &String) -> (r: Option<usize>)
        ensures
            match r {
                Some(i) => i < self.entries@.len() && self.entries@[i as int].0@ == key@
                    && forall|j: int|
                    0 <= j < i ==> (#[trigger] self.entries@[j]).0@ != key@,
                None => forall|j: int|
                    0 <= j < self.entries@.len() ==> (#[trigger] self.entries@[j]).0@ != key@,
            },
    {
        let n = self.entries.len();
        let mut i: usize = 0;
        while i < n
            invariant
                0 <= i <= n,
                n == self.entries@.len(),
                forall|j: int| 0 <= j < i ==> (#[trigger] self.entries@[j]).0@ != key@,
            decreases n - i,
        {
            if self.entries[i].0 == *key {
                return Some(i);
            }
            i = i + 1;
        }
        None
    }

    /// Looks a key up.
    pub fn get(&self, key: &String) -> (r: Option<&V>)
        ensures
            match r {
                Some(v) => self@.contains_key(key@) && v@ == self@[key@],
                None => !self@.contains_key(key@),
            },
    {
        match self.find_key(key) {
            Some(i) => {
                proof {
                    lemma_lookup_at(self.entries@, i as int, key@);
                }
                Some(&self.entries[i].1)
            },
            None => {
                proof {
                    lemma_lookup_absent(self.entries@, key@);
                }
                None
            },
        }
    }

    /// Whether a key is present.
    pub fn contains(&self, key: &String) -> (r: bool)
        ensures
            r == self@.contains_key(key@),
    {
        self.get(key).is_some()
    }

    /// Binds a key to a value, overwriting any earlier binding in place:
    /// writing a key that is already present does not grow the store.
    pub fn put(&mut self, key: String, value: V)
        ensures
            final(self)@ == old(self)@.insert(key@, value@),
            old(self)@.contains_key(key@) ==> final(self).num_entries() == old(
                self,
            ).num_entries(),
            !old(self)@.contains_key(key@) ==> final(self).num_entries() == old(
                self,
            ).num_entries() + 1,
    {
        let ghost s_old = self.entries@;
        let ghost e: (String, V) = (key, value);
        match self.find_key(&key) {
            Some(i) => {
                proof {
                    lemma_lookup_at(self.entries@, i as int, key@);
                }
                self.entries.set(i, (key, value));
                proof {
                    lemma_overwrite_at(s_old, i as int, e);
                }
            },
            None => {
                proof {
                    lemma_lookup_absent(self.entries@, key@);
                }
                self.entries.push((key, value));
                proof {
                    lemma_push_fresh(s_old, e);
                }
            },
        }
    }

    /// Lays every binding of `other` over this store: a key present in both
    /// ends up with `other`'s value, a key present in only one keeps its
    /// value.
    pub fn merge_from(&mut self, other: Self)
        ensures
            final(self)@ == old(self)@.union_prefer_right(other@),
    {
        let ghost base = self@;
        let ghost orig = other.entry_seq();
        let mut rest = other.entries;
        while rest.len() > 0
            invariant
                self@.union_prefer_right(entries_map(rest@)) == base.union_prefer_right(
                    entries_map(orig),
                ),
            decreases rest@.len(),
        {
            let ghost prev = rest@;
            if let Some((k, v)) = rest.pop() {
                proof {
                    assert(prev =~= prev.drop_last().push(prev.last()));
                    lemma_push_back(prev.drop_last(), prev.last());
                    assert(self@.insert(k@, v@).union_prefer_right(entries_map(rest@))
                        =~= self@.union_prefer_right(entries_map(prev)));
                }
                self.put(k, v);
            }
        }
        proof {
            assert(entries_map(rest@) =~= Map::<Seq<char>, V::V>::empty());
            assert(self@ =~= base.union_prefer_right(entries_map(orig)));
        }
    }
}

} // verus!
