use vstd::prelude::*;

verus! {

/// A key of a [`VecMap`]: a value with a mathematical model and an
/// executable test that decides whether two keys have the same model.
pub trait Key: Sized {
    type Model;

    spec fn model(&self) -> Self::Model;

    fn matches(&self, other: &Self) -> (r: bool)
        ensures
            r == (self.model() == other.model()),
    ;

    /// A key with the same model.
    fn copy_key(&self) -> (r: Self)
        ensures
            r.model() == self.model(),
    ;
}

/// A value that can be copied into one that contracts cannot tell from it.
pub trait Duplicate: Sized {
    /// The two values have the same content.
    spec fn alike(&self, other: &Self) -> bool;

    fn duplicate(&self) -> (r: Self)
        ensures
            r.alike(self),
    ;
}

impl Key for u32 {
    type Model = u32;

    open spec fn model(&self) -> u32 {
        *self
    }

    fn matches(&self, other: &Self) -> (r: bool) {
        *self == *other
    }

    fn copy_key(&self) -> (r: Self) {
        *self
    }
}

impl Key for (i32, u32) {
    type Model = (i32, u32);

    open spec fn model(&self) -> (i32, u32) {
        *self
    }

    fn matches(&self, other: &Self) -> (r: bool) {
        self.0 == other.0 && self.1 == other.1
    }

    fn copy_key(&self) -> (r: Self) {
        (self.0, self.1)
    }
}

impl Key for i32 {
    type Model = i32;

    open spec fn model(&self) -> i32 {
        *self
    }

    fn matches(&self, other: &Self) -> (r: bool) {
        *self == *other
    }

    fn copy_key(&self) -> (r: Self) {
        *self
    }
}

impl Key for String {
    type Model = Seq<char>;

    open spec fn model(&self) -> Seq<char> {
        self@
    }

    fn matches(&self, other: &Self) -> (r: bool) {
        *self == *other
    }

    fn copy_key(&self) -> (r: Self) {
        self.clone()
    }
}

pub open spec fn distinct_keys<K: Key, V>(s: Seq<(K, V)>) -> bool {
    forall|i: int, j: int|
        0 <= i < s.len() && 0 <= j < s.len() && #[trigger] s[i].0.model() == #[trigger] s[j].0.model() ==> i
            == j
}

pub open spec fn has_key<K: Key, V>(s: Seq<(K, V)>, k: K::Model) -> bool {
    exists|i: int| 0 <= i < s.len() && #[trigger] s[i].0.model() == k
}

pub open spec fn index_of<K: Key, V>(s: Seq<(K, V)>, k: K::Model) -> int {
    choose|i: int| 0 <= i < s.len() && #[trigger] s[i].0.model() == k
}

pub open spec fn entries_map<K: Key, V>(s: Seq<(K, V)>) -> Map<K::Model, V> {
    Map::new(|k: K::Model| has_key(s, k), |k: K::Model| s[index_of(s, k)].1)
}

/// Under distinct keys, the entry at position `i` is what the map holds for its key.
pub proof fn lemma_entry<K: Key, V>(s: Seq<(K, V)>, i: int)
    requires
        distinct_keys(s),
        0 <= i < s.len(),
    ensures
        has_key(s, s[i].0.model()),
        index_of(s, s[i].0.model()) == i,
        entries_map(s).contains_key(s[i].0.model()),
        entries_map(s)[s[i].0.model()] == s[i].1,
{
    let k = s[i].0.model();
    assert(has_key(s, k));
    let j = index_of(s, k);
    assert(0 <= j < s.len() && s[j].0.model() == k);
}

/// Appending an entry with a fresh key inserts it into the map.
pub proof fn lemma_push<K: Key, V>(s: Seq<(K, V)>, e: (K, V))
    requires
        distinct_keys(s),
        !has_key(s, e.0.model()),
    ensures
        distinct_keys(s.push(e)),
        entries_map(s.push(e)) == entries_map(s).insert(e.0.model(), e.1),
{
    let t = s.push(e);
    assert forall|i: int, j: int|
        0 <= i < t.len() && 0 <= j < t.len() && #[trigger] t[i].0.model() == #[trigger] t[j].0.model() implies i
        == j by {
        if i < s.len() {
            assert(t[i] == s[i]);
        }
        if j < s.len() {
            assert(t[j] == s[j]);
        }
    }
    let m1 = entries_map(t);
    let m2 = entries_map(s).insert(e.0.model(), e.1);
    assert forall|k: K::Model| m1.contains_key(k) == m2.contains_key(k) by {
        if has_key(t, k) {
            let i = index_of(t, k);
            if i < s.len() {
                assert(s[i].0.model() == k);
            }
        }
        if has_key(s, k) {
            let i = index_of(s, k);
            assert(t[i].0.model() == k);
        }
        if k == e.0.model() {
            assert(t[s.len() as int].0.model() == k);
        }
    }
    assert forall|k: K::Model| m1.contains_key(k) implies m1[k] == m2[k] by {
        let i = index_of(t, k);
        lemma_entry(t, i);
        if i < s.len() {
            assert(t[i] == s[i]);
            lemma_entry(s, i);
        }
    }
    assert(m1 =~= m2);
}

/// Taking out the entry at position `i` removes its key from the map.
pub proof fn lemma_remove<K: Key, V>(s: Seq<(K, V)>, i: int)
    requires
        distinct_keys(s),
        0 <= i < s.len(),
    ensures
        distinct_keys(s.remove(i)),
        !has_key(s.remove(i), s[i].0.model()),
        entries_map(s.remove(i)) == entries_map(s).remove(s[i].0.model()),
{
    let t = s.remove(i);
    let gone = s[i].0.model();
    assert forall|a: int| 0 <= a < t.len() implies #[trigger] t[a] == s[if a < i { a } else { a + 1 }] by {}
    assert forall|a: int, b: int|
        0 <= a < t.len() && 0 <= b < t.len() && #[trigger] t[a].0.model() == #[trigger] t[b].0.model() implies a
        == b by {
        let a2 = if a < i { a } else { a + 1 };
        let b2 = if b < i { b } else { b + 1 };
        assert(s[a2].0.model() == s[b2].0.model());
    }
    if has_key(t, gone) {
        let a = index_of(t, gone);
        let a2 = if a < i { a } else { a + 1 };
        assert(s[a2].0.model() == s[i].0.model());
    }
    let m1 = entries_map(t);
    let m2 = entries_map(s).remove(gone);
    assert forall|k: K::Model| m1.contains_key(k) == m2.contains_key(k) by {
        if has_key(t, k) {
            let a = index_of(t, k);
            let a2 = if a < i { a } else { a + 1 };
            assert(s[a2].0.model() == k);
        }
        if has_key(s, k) && k != gone {
            let a = index_of(s, k);
            let a1 = if a < i { a } else { a - 1 };
            assert(t[a1].0.model() == k);
        }
    }
    assert forall|k: K::Model| m1.contains_key(k) implies m1[k] == m2[k] by {
        let a = index_of(t, k);
        lemma_entry(t, a);
        let a2 = if a < i { a } else { a + 1 };
        lemma_entry(s, a2);
    }
    assert(m1 =~= m2);
}

/// A finite map held as a vector of entries with pairwise distinct keys.
///
/// The map is small and is walked in full by some of its users, so entries
/// are kept in a vector and found by a linear search.
#[derive(Debug)]
pub struct VecMap<K: Key, V> {
    entries: Vec<(K, V)>,
}

impl<K: Key, V> View for VecMap<K, V> {
    type V = Map<K::Model, V>;

    open spec fn view(&self) -> Map<K::Model, V> {
        entries_map(self.entries())
    }
}

fn find<K: Key, V>(entries: &Vec<(K, V)>, key: &K) -> (r: Option<usize>)
    ensures
        match r {
            Some(i) => i < entries@.len() && entries@[i as int].0.model() == key.model(),
            None => !has_key(entries@, key.model()),
        },
{
    let mut i: usize = 0;
    while i < entries.len()
        invariant
            i <= entries@.len(),
            forall|j: int| 0 <= j < i ==> entries@[j].0.model() != key.model(),
        decreases entries@.len() - i,
    {
        if entries[i].0.matches(key) {
            return Some(i);
        }
        i += 1;
    }
    None
}

impl<K: Key, V> VecMap<K, V> {
    #[verifier::type_invariant]
    spec fn inv(self) -> bool {
        distinct_keys(self.entries@)
    }

    /// The entries in the order in which they are stored.
    pub closed spec fn entries(&self) -> Seq<(K, V)> {
        self.entries@
    }

    pub fn new() -> (r: Self)
        ensures
            r.entries() == Seq::<(K, V)>::empty(),
            r@ == Map::<K::Model, V>::empty(),
    {
        let r = VecMap { entries: Vec::new() };
        assert(r@ =~= Map::<K::Model, V>::empty());
        r
    }

    /// Makes the distinctness of the stored keys known to the caller.
    pub fn distinct(&self)
        ensures
            distinct_keys(self.entries()),
    {
        proof {
            use_type_invariant(self);
        }
    }

    pub fn len(&self) -> (r: usize)
        ensures
            r == self.entries().len(),
            (r == 0) == (self@ == Map::<K::Model, V>::empty()),
    {
        proof {
            use_type_invariant(self);
            if self.entries@.len() > 0 {
                lemma_entry(self.entries@, 0);
            } else {
                assert(self@ =~= Map::<K::Model, V>::empty());
            }
        }
        self.entries.len()
    }

    pub fn key_at(&self, i: usize) -> (r: &K)
        requires
            i < self.entries().len(),
        ensures
            *r == self.entries()[i as int].0,
            self@.contains_key(r.model()),
    {
        proof {
            use_type_invariant(self);
            lemma_entry(self.entries@, i as int);
        }
        &self.entries[i].0
    }

    pub fn value_at(&self, i: usize) -> (r: &V)
        requires
            i < self.entries().len(),
        ensures
            *r == self.entries()[i as int].1,
            self@.contains_key(self.entries()[i as int].0.model()),
            self@[self.entries()[i as int].0.model()] == *r,
    {
        proof {
            use_type_invariant(self);
            lemma_entry(self.entries@, i as int);
        }
        &self.entries[i].1
    }

    pub fn contains_key(&self, key: &K) -> (r: bool)
        ensures
            r == self@.contains_key(key.model()),
    {
        find(&self.entries, key).is_some()
    }

    pub fn get(&self, key: &K) -> (r: Option<&V>)
        ensures
            r == (if self@.contains_key(key.model()) {
                Some(&self@[key.model()])
            } else {
                None
            }),
    {
        proof {
            use_type_invariant(self);
        }
        match find(&self.entries, key) {
            Some(i) => {
                proof {
                    lemma_entry(self.entries@, i as int);
                }
                Some(&self.entries[i].1)
            },
            None => None,
        }
    }

    /// Binds `key` to `value` and hands back what the key was bound to before.
    pub fn insert(&mut self, key: K, value: V) -> (r: Option<V>)
        ensures
            final(self)@ == old(self)@.insert(key.model(), value),
            r == (if old(self)@.contains_key(key.model()) {
                Some(old(self)@[key.model()])
            } else {
                None
            }),
            final(self).entries().len() > 0,
    {
        proof {
            use_type_invariant(&*self);
        }
        let mut entries = Vec::new();
        std::mem::swap(&mut entries, &mut self.entries);
        let ghost before = entries@;
        let r = match find(&entries, &key) {
            Some(i) => {
                proof {
                    lemma_entry(before, i as int);
                    lemma_remove(before, i as int);
                }
                let (_, old_value) = entries.remove(i);
                Some(old_value)
            },
            None => None,
        };
        proof {
            lemma_push(entries@, (key, value));
            assert(entries_map(before).remove(key.model()).insert(key.model(), value)
                =~= entries_map(before).insert(key.model(), value));
        }
        entries.push((key, value));
        self.entries = entries;
        r
    }

    /// Unbinds `key` and hands back what it was bound to.
    pub fn remove(&mut self, key: &K) -> (r: Option<V>)
        ensures
            final(self)@ == old(self)@.remove(key.model()),
            r == (if old(self)@.contains_key(key.model()) {
                Some(old(self)@[key.model()])
            } else {
                None
            }),
    {
        proof {
            use_type_invariant(&*self);
        }
        let mut entries = Vec::new();
        std::mem::swap(&mut entries, &mut self.entries);
        let ghost before = entries@;
        let r = match find(&entries, key) {
            Some(i) => {
                proof {
                    lemma_entry(before, i as int);
                    lemma_remove(before, i as int);
                }
                let (_, old_value) = entries.remove(i);
                Some(old_value)
            },
            None => {
                assert(entries_map(before).remove(key.model()) =~= entries_map(before));
                None
            },
        };
        self.entries = entries;
        r
    }
}

/// Entry by entry, the two sequences have the same keys and like values.
pub open spec fn alike_entries<K: Key, V: Duplicate>(a: Seq<(K, V)>, b: Seq<(K, V)>) -> bool {
    &&& a.len() == b.len()
    &&& forall|i: int|
        0 <= i < a.len() ==> (#[trigger] a[i]).0.model() == b[i].0.model() && a[i].1.alike(&b[i].1)
}

/// Like sequences of entries stand for maps with the same keys and like values.
pub proof fn lemma_alike_maps<K: Key, V: Duplicate>(a: Seq<(K, V)>, b: Seq<(K, V)>)
    requires
        alike_entries(a, b),
        distinct_keys(a),
        distinct_keys(b),
    ensures
        entries_map(a).dom() == entries_map(b).dom(),
        forall|k: K::Model| #[trigger]
            entries_map(a).contains_key(k) ==> entries_map(a)[k].alike(&entries_map(b)[k]),
{
    assert forall|k: K::Model| entries_map(a).contains_key(k) == entries_map(b).contains_key(k) by {
        if has_key(a, k) {
            let i = index_of(a, k);
            assert(b[i].0.model() == k);
        }
        if has_key(b, k) {
            let i = index_of(b, k);
            assert(a[i].0.model() == k);
        }
    }
    assert(entries_map(a).dom() =~= entries_map(b).dom());
    assert forall|k: K::Model| #[trigger] entries_map(a).contains_key(k) implies entries_map(a)[k].alike(
        &entries_map(b)[k],
    ) by {
        let i = index_of(a, k);
        lemma_entry(a, i);
        assert(b[i].0.model() == k);
        lemma_entry(b, i);
    }
}

impl<K: Key, V: Duplicate> Duplicate for VecMap<K, V> {
    open spec fn alike(&self, other: &Self) -> bool {
        &&& self.entries().len() == other.entries().len()
        &&& self@.dom() == other@.dom()
        &&& forall|k: K::Model| #[trigger] self@.contains_key(k) ==> self@[k].alike(&other@[k])
    }

    fn duplicate(&self) -> (r: Self) {
        proof {
            use_type_invariant(self);
        }
        let mut entries: Vec<(K, V)> = Vec::new();
        let mut i: usize = 0;
        while i < self.entries.len()
            invariant
                i <= self.entries@.len(),
                entries@.len() == i,
                forall|j: int|
                    0 <= j < i ==> (#[trigger] entries@[j]).0.model() == self.entries@[j].0.model()
                        && entries@[j].1.alike(&self.entries@[j].1),
            decreases self.entries@.len() - i,
        {
            let key = self.entries[i].0.copy_key();
            let value = self.entries[i].1.duplicate();
            entries.push((key, value));
            i += 1;
        }
        assert(distinct_keys(entries@)) by {
            assert forall|a: int, b: int|
                0 <= a < entries@.len() && 0 <= b < entries@.len() && #[trigger] entries@[a].0.model()
                    == #[trigger] entries@[b].0.model() implies a == b by {
                assert(self.entries@[a].0.model() == self.entries@[b].0.model());
            }
        }
        proof {
            lemma_alike_maps(entries@, self.entries@);
        }
        VecMap { entries }
    }
}

impl<K: Key, V: Duplicate> Clone for VecMap<K, V> {
    fn clone(&self) -> (r: Self)
        ensures
            r.alike(self),
    {
        self.duplicate()
    }
}

} // verus!
