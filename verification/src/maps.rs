//! Ordered maps kept as sorted, duplicate-free key vectors.
//!
//! The world state keeps its collections in key order, as a B-tree map does:
//! iteration, validation and serialization all visit entries from the
//! smallest key to the largest.
use crate::text::{lemma_seq_lt_irreflexive, lemma_seq_lt_total, lemma_seq_lt_transitive, seq_lt, str_eq, str_lt};
use vstd::prelude::*;

verus! {

/// Keys with a strict total order on their views.
pub trait MapKey: View + Sized {
    spec fn key_lt(a: Self::V, b: Self::V) -> bool;

    proof fn lemma_lt_irreflexive(a: Self::V)
        ensures
            !Self::key_lt(a, a),
    ;

    proof fn lemma_lt_transitive(a: Self::V, b: Self::V, c: Self::V)
        requires
            Self::key_lt(a, b),
            Self::key_lt(b, c),
        ensures
            Self::key_lt(a, c),
    ;

    proof fn lemma_lt_total(a: Self::V, b: Self::V)
        ensures
            a == b || Self::key_lt(a, b) || Self::key_lt(b, a),
    ;

    fn less(&self, other: &Self) -> (r: bool)
        ensures
            r == Self::key_lt(self@, other@),
    ;

    fn same(&self, other: &Self) -> (r: bool)
        ensures
            r == (self@ == other@),
    ;

    fn duplicate(&self) -> (r: Self)
        ensures
            r == *self,
    ;
}

impl MapKey for u64 {
    open spec fn key_lt(a: u64, b: u64) -> bool {
        a < b
    }

    proof fn lemma_lt_irreflexive(a: u64) {
    }

    proof fn lemma_lt_transitive(a: u64, b: u64, c: u64) {
    }

    proof fn lemma_lt_total(a: u64, b: u64) {
    }

    fn less(&self, other: &u64) -> (r: bool) {
        *self < *other
    }

    fn same(&self, other: &u64) -> (r: bool) {
        *self == *other
    }

    fn duplicate(&self) -> (r: u64) {
        *self
    }
}

impl MapKey for i64 {
    open spec fn key_lt(a: i64, b: i64) -> bool {
        a < b
    }

    proof fn lemma_lt_irreflexive(a: i64) {
    }

    proof fn lemma_lt_transitive(a: i64, b: i64, c: i64) {
    }

    proof fn lemma_lt_total(a: i64, b: i64) {
    }

    fn less(&self, other: &i64) -> (r: bool) {
        *self < *other
    }

    fn same(&self, other: &i64) -> (r: bool) {
        *self == *other
    }

    fn duplicate(&self) -> (r: i64) {
        *self
    }
}

impl MapKey for String {
    open spec fn key_lt(a: Seq<char>, b: Seq<char>) -> bool {
        seq_lt(a, b)
    }

    proof fn lemma_lt_irreflexive(a: Seq<char>) {
        lemma_seq_lt_irreflexive(a);
    }

    proof fn lemma_lt_transitive(a: Seq<char>, b: Seq<char>, c: Seq<char>) {
        lemma_seq_lt_transitive(a, b, c);
    }

    proof fn lemma_lt_total(a: Seq<char>, b: Seq<char>) {
        lemma_seq_lt_total(a, b);
    }

    fn less(&self, other: &String) -> (r: bool) {
        str_lt(self.as_str(), other.as_str())
    }

    fn same(&self, other: &String) -> (r: bool) {
        str_eq(self.as_str(), other.as_str())
    }

    fn duplicate(&self) -> (r: String) {
        self.clone()
    }
}

/// A value that can be copied with the same view.
pub trait DeepCopy: View + Sized {
    fn deep_copy(&self) -> (r: Self)
        ensures
            r@ == self@,
    ;
}

impl DeepCopy for u64 {
    fn deep_copy(&self) -> (r: u64) {
        *self
    }
}

impl DeepCopy for String {
    fn deep_copy(&self) -> (r: String) {
        self.clone()
    }
}

impl DeepCopy for Vec<u64> {
    fn deep_copy(&self) -> (r: Vec<u64>) {
        let mut r: Vec<u64> = Vec::new();
        let mut i: usize = 0;
        while i < self.len()
            invariant
                i <= self.len(),
                r@ == self@.take(i as int),
            decreases self.len() - i,
        {
            r.push(self[i]);
            i += 1;
            assert(r@ =~= self@.take(i as int));
        }
        assert(self@.take(self.len() as int) =~= self@);
        r
    }
}

impl DeepCopy for Vec<String> {
    fn deep_copy(&self) -> (r: Vec<String>) {
        let mut r: Vec<String> = Vec::new();
        let mut i: usize = 0;
        while i < self.len()
            invariant
                i <= self.len(),
                r@ == self@.take(i as int),
            decreases self.len() - i,
        {
            r.push(self[i].clone());
            i += 1;
            assert(r@ =~= self@.take(i as int));
        }
        assert(self@.take(self.len() as int) =~= self@);
        r
    }
}

/// Whether the entries' keys are in strictly increasing order.
pub open spec fn sorted<A, B, K: MapKey<V = A>>(m: Seq<(A, B)>) -> bool {
    forall|i: int, j: int| 0 <= i < j < m.len() ==> K::key_lt(#[trigger] m[i].0, #[trigger] m[j].0)
}

/// Whether some entry has the key.
pub open spec fn has_key<A, B>(m: Seq<(A, B)>, k: A) -> bool {
    exists|i: int| 0 <= i < m.len() && #[trigger] m[i].0 == k
}

/// The position of the entry with the key.
pub open spec fn index_of<A, B>(m: Seq<(A, B)>, k: A) -> int {
    choose|i: int| 0 <= i < m.len() && #[trigger] m[i].0 == k
}

/// The value under a key, when present.
pub open spec fn get<A, B>(m: Seq<(A, B)>, k: A) -> Option<B> {
    if has_key(m, k) {
        Some(m[index_of(m, k)].1)
    } else {
        None
    }
}

/// The number of entries whose key is below `k`.
pub open spec fn count_below<A, B, K: MapKey<V = A>>(m: Seq<(A, B)>, k: A) -> nat
    decreases m.len(),
{
    if m.len() == 0 {
        0
    } else {
        count_below::<A, B, K>(m.drop_last(), k) + if K::key_lt(m.last().0, k) {
            1nat
        } else {
            0nat
        }
    }
}

/// The entries after storing `v` under `k`, keeping key order.
pub open spec fn put<A, B, K: MapKey<V = A>>(m: Seq<(A, B)>, k: A, v: B) -> Seq<(A, B)> {
    if has_key(m, k) {
        m.update(index_of(m, k), (k, v))
    } else {
        m.insert(count_below::<A, B, K>(m, k) as int, (k, v))
    }
}

/// The entries without the one under `k`.
pub open spec fn del<A, B>(m: Seq<(A, B)>, k: A) -> Seq<(A, B)> {
    if has_key(m, k) {
        m.remove(index_of(m, k))
    } else {
        m
    }
}

/// Sorted keys are unique: one position per key.
pub proof fn lemma_unique<A, B, K: MapKey<V = A>>(m: Seq<(A, B)>, i: int, j: int)
    requires
        sorted::<A, B, K>(m),
        0 <= i < m.len(),
        0 <= j < m.len(),
        m[i].0 == m[j].0,
    ensures
        i == j,
{
    if i != j {
        K::lemma_lt_irreflexive(m[i].0);
    }
}

/// The position of a present key is the one that holds it.
pub proof fn lemma_index_of<A, B, K: MapKey<V = A>>(m: Seq<(A, B)>, i: int)
    requires
        sorted::<A, B, K>(m),
        0 <= i < m.len(),
    ensures
        has_key(m, m[i].0),
        index_of(m, m[i].0) == i,
        get(m, m[i].0) == Some(m[i].1),
{
    assert(has_key(m, m[i].0));
    lemma_unique::<A, B, K>(m, i, index_of(m, m[i].0));
}

proof fn lemma_count_below<A, B, K: MapKey<V = A>>(m: Seq<(A, B)>, k: A, p: int)
    requires
        0 <= p <= m.len(),
        forall|j: int| 0 <= j < p ==> K::key_lt(#[trigger] m[j].0, k),
        forall|j: int| p <= j < m.len() ==> !K::key_lt(#[trigger] m[j].0, k),
    ensures
        count_below::<A, B, K>(m, k) == p,
    decreases m.len(),
{
    if m.len() > 0 {
        let n = m.len() - 1;
        if p == m.len() {
            lemma_count_below::<A, B, K>(m.drop_last(), k, p - 1);
        } else {
            lemma_count_below::<A, B, K>(m.drop_last(), k, p);
        }
    }
}

proof fn lemma_count_below_prefix<A, B, K: MapKey<V = A>>(m: Seq<(A, B)>, k: A)
    requires
        sorted::<A, B, K>(m),
    ensures
        count_below::<A, B, K>(m, k) <= m.len(),
        forall|j: int| 0 <= j < count_below::<A, B, K>(m, k) ==> K::key_lt(#[trigger] m[j].0, k),
        forall|j: int| count_below::<A, B, K>(m, k) <= j < m.len() ==> !K::key_lt(#[trigger] m[j].0, k),
    decreases m.len(),
{
    if m.len() > 0 {
        let d = m.drop_last();
        let n = m.len() - 1;
        assert(sorted::<A, B, K>(d)) by {
            assert forall|a: int, b: int| 0 <= a < b < d.len() implies K::key_lt(#[trigger] d[a].0, #[trigger] d[b].0) by {
                assert(d[a] == m[a] && d[b] == m[b]);
            }
        }
        lemma_count_below_prefix::<A, B, K>(d, k);
        let c = count_below::<A, B, K>(d, k);
        assert(forall|j: int| 0 <= j < n ==> #[trigger] d[j] == m[j]);
        if K::key_lt(m[n].0, k) {
            if c < n {
                K::lemma_lt_transitive(m[c as int].0, m[n].0, k);
                assert(d[c as int] == m[c as int]);
            }
            assert(c == n);
        }
        let t = count_below::<A, B, K>(m, k);
        assert forall|j: int| 0 <= j < t implies K::key_lt(#[trigger] m[j].0, k) by {
            if j < n {
                assert(d[j] == m[j]);
            }
        }
        assert forall|j: int| t <= j < m.len() implies !K::key_lt(#[trigger] m[j].0, k) by {
            if j < n {
                assert(d[j] == m[j]);
            }
        }
    }
}

/// Storing a value keeps the order and changes only the stored key.
pub proof fn lemma_put<A, B, K: MapKey<V = A>>(m: Seq<(A, B)>, k: A, v: B)
    requires
        sorted::<A, B, K>(m),
    ensures
        sorted::<A, B, K>(put::<A, B, K>(m, k, v)),
        forall|x: A| #[trigger] get(put::<A, B, K>(m, k, v), x) == if x == k {
            Some(v)
        } else {
            get(m, x)
        },
        forall|x: A| #[trigger] has_key(put::<A, B, K>(m, k, v), x) == (has_key(m, x) || x == k),
        put::<A, B, K>(m, k, v).len() == if has_key(m, k) {
            m.len()
        } else {
            m.len() + 1
        },
{
    let r = put::<A, B, K>(m, k, v);
    if has_key(m, k) {
        let i = index_of(m, k);
        assert(sorted::<A, B, K>(r)) by {
            assert forall|a: int, b: int| 0 <= a < b < r.len() implies K::key_lt(#[trigger] r[a].0, #[trigger] r[b].0) by {
                assert(r[a].0 == m[a].0);
                assert(r[b].0 == m[b].0);
            }
        }
        lemma_index_of::<A, B, K>(r, i);
        assert forall|x: A| #[trigger] has_key(r, x) == (has_key(m, x) || x == k) by {
            if has_key(m, x) {
                let j = index_of(m, x);
                assert(r[j].0 == x);
            }
            if has_key(r, x) {
                let j = choose|j: int| 0 <= j < r.len() && #[trigger] r[j].0 == x;
                assert(m[j].0 == x);
            }
        }
        assert forall|x: A| #[trigger] get(r, x) == if x == k {
            Some(v)
        } else {
            get(m, x)
        } by {
            if x != k && has_key(m, x) {
                let j = index_of(m, x);
                lemma_index_of::<A, B, K>(m, j);
                assert(r[j].0 == x);
                lemma_index_of::<A, B, K>(r, j);
            }
        }
    } else {
        lemma_count_below_prefix::<A, B, K>(m, k);
        let p = count_below::<A, B, K>(m, k) as int;
        assert forall|j: int| p <= j < m.len() implies K::key_lt(k, #[trigger] m[j].0) by {
            K::lemma_lt_total(k, m[j].0);
            if k == m[j].0 {
                assert(has_key(m, k));
            }
        }
        assert(sorted::<A, B, K>(r)) by {
            assert forall|a: int, b: int| 0 <= a < b < r.len() implies K::key_lt(#[trigger] r[a].0, #[trigger] r[b].0) by {
                if b < p {
                } else if a < p && b == p {
                } else if a < p && b > p {
                    assert(r[b] == m[b - 1]);
                    K::lemma_lt_transitive(r[a].0, k, r[b].0);
                } else if a == p {
                    assert(r[b] == m[b - 1]);
                } else {
                    assert(r[a] == m[a - 1]);
                    assert(r[b] == m[b - 1]);
                }
            }
        }
        lemma_index_of::<A, B, K>(r, p);
        assert forall|x: A| #[trigger] has_key(r, x) == (has_key(m, x) || x == k) by {
            if has_key(m, x) {
                let j = index_of(m, x);
                if j < p {
                    assert(r[j].0 == x);
                } else {
                    assert(r[j + 1].0 == x);
                }
            }
            if has_key(r, x) {
                let j = choose|j: int| 0 <= j < r.len() && #[trigger] r[j].0 == x;
                if j < p {
                    assert(m[j].0 == x);
                } else if j > p {
                    assert(m[j - 1].0 == x);
                }
            }
        }
        assert forall|x: A| #[trigger] get(r, x) == if x == k {
            Some(v)
        } else {
            get(m, x)
        } by {
            if x != k && has_key(m, x) {
                let j = index_of(m, x);
                lemma_index_of::<A, B, K>(m, j);
                if j < p {
                    assert(r[j] == m[j]);
                    lemma_index_of::<A, B, K>(r, j);
                } else {
                    assert(r[j + 1] == m[j]);
                    lemma_index_of::<A, B, K>(r, j + 1);
                }
            }
        }
    }
}

/// Storing under a key above every present key appends the entry.
pub proof fn lemma_put_append<A, B, K: MapKey<V = A>>(m: Seq<(A, B)>, k: A, v: B)
    requires
        forall|j: int| 0 <= j < m.len() ==> K::key_lt(#[trigger] m[j].0, k),
    ensures
        put::<A, B, K>(m, k, v) == m.push((k, v)),
{
    if has_key(m, k) {
        let j = choose|j: int| 0 <= j < m.len() && #[trigger] m[j].0 == k;
        K::lemma_lt_irreflexive(k);
        assert(K::key_lt(m[j].0, k));
    }
    lemma_count_below::<A, B, K>(m, k, m.len() as int);
    assert(m.insert(m.len() as int, (k, v)) =~= m.push((k, v)));
}

/// Removing a key keeps the order and changes only that key.
pub proof fn lemma_del<A, B, K: MapKey<V = A>>(m: Seq<(A, B)>, k: A)
    requires
        sorted::<A, B, K>(m),
    ensures
        sorted::<A, B, K>(del(m, k)),
        forall|x: A| #[trigger] get(del(m, k), x) == if x == k {
            None
        } else {
            get(m, x)
        },
        forall|x: A| #[trigger] has_key(del(m, k), x) == (has_key(m, x) && x != k),
{
    let r = del(m, k);
    if has_key(m, k) {
        let i = index_of(m, k);
        lemma_index_of::<A, B, K>(m, i);
        assert(sorted::<A, B, K>(r)) by {
            assert forall|a: int, b: int| 0 <= a < b < r.len() implies K::key_lt(#[trigger] r[a].0, #[trigger] r[b].0) by {
                if a < i && b >= i {
                    assert(r[b] == m[b + 1]);
                } else if a >= i {
                    assert(r[a] == m[a + 1]);
                    assert(r[b] == m[b + 1]);
                }
            }
        }
        assert forall|x: A| #[trigger] has_key(r, x) == (has_key(m, x) && x != k) by {
            if has_key(m, x) && x != k {
                let j = index_of(m, x);
                lemma_index_of::<A, B, K>(m, j);
                if j < i {
                    assert(r[j].0 == x);
                } else {
                    assert(r[j - 1].0 == x);
                }
            }
            if has_key(r, x) {
                let j = choose|j: int| 0 <= j < r.len() && #[trigger] r[j].0 == x;
                if j < i {
                    assert(m[j].0 == x);
                    if x == k {
                        lemma_unique::<A, B, K>(m, j, i);
                    }
                } else {
                    assert(m[j + 1].0 == x);
                    if x == k {
                        lemma_unique::<A, B, K>(m, j + 1, i);
                    }
                }
            }
        }
        assert forall|x: A| #[trigger] get(r, x) == if x == k {
            None
        } else {
            get(m, x)
        } by {
            if x != k && has_key(m, x) {
                let j = index_of(m, x);
                lemma_index_of::<A, B, K>(m, j);
                if j < i {
                    lemma_index_of::<A, B, K>(r, j);
                } else {
                    assert(r[j - 1] == m[j]);
                    lemma_index_of::<A, B, K>(r, j - 1);
                }
            }
        }
    }
}

/// A map from keys to values, ordered by key.
pub struct SortedMap<K: MapKey, V: View> {
    keys: Vec<K>,
    vals: Vec<V>,
}

impl<K: MapKey, V: View> View for SortedMap<K, V> {
    type V = Seq<(K::V, V::V)>;

    closed spec fn view(&self) -> Seq<(K::V, V::V)> {
        entries_view(self.keys@, self.vals@)
    }
}

/// The entries formed by pairing the views of keys and values.
pub open spec fn entries_view<K: View, V: View>(ks: Seq<K>, vs: Seq<V>) -> Seq<(K::V, V::V)> {
    Seq::new(ks.len(), |i: int| (ks[i]@, vs[i]@))
}

impl<K: MapKey, V: View> SortedMap<K, V> {
    #[verifier::type_invariant]
    spec fn inv(&self) -> bool {
        &&& self.keys@.len() == self.vals@.len()
        &&& sorted::<K::V, V::V, K>(self@)
    }

    /// An empty map.
    pub fn new() -> (r: Self)
        ensures
            r@ == Seq::<(K::V, V::V)>::empty(),
    {
        let r = SortedMap { keys: Vec::new(), vals: Vec::new() };
        assert(r@ =~= Seq::<(K::V, V::V)>::empty());
        r
    }

    /// The number of entries; also states that keys are strictly increasing.
    pub fn len(&self) -> (r: usize)
        ensures
            r == self@.len(),
            sorted::<K::V, V::V, K>(self@),
    {
        proof {
            use_type_invariant(self);
        }
        self.keys.len()
    }

    /// Whether the map has no entries.
    pub fn is_empty(&self) -> (r: bool)
        ensures
            r == (self@.len() == 0),
            sorted::<K::V, V::V, K>(self@),
    {
        proof {
            use_type_invariant(self);
        }
        self.keys.len() == 0
    }

    /// The key at a position.
    pub fn key_at(&self, i: usize) -> (r: &K)
        requires
            i < self@.len(),
        ensures
            r@ == self@[i as int].0,
    {
        proof {
            use_type_invariant(self);
        }
        &self.keys[i]
    }

    /// The value at a position.
    pub fn value_at(&self, i: usize) -> (r: &V)
        requires
            i < self@.len(),
        ensures
            r@ == self@[i as int].1,
    {
        proof {
            use_type_invariant(self);
        }
        &self.vals[i]
    }

    /// The position of the first key that is not below `k`, and whether it equals `k`.
    fn search(&self, k: &K) -> (r: (usize, bool))
        ensures
            r.0 <= self@.len(),
            forall|j: int| 0 <= j < r.0 ==> K::key_lt(#[trigger] self@[j].0, k@),
            r.1 ==> r.0 < self@.len() && self@[r.0 as int].0 == k@,
            !r.1 ==> forall|j: int| r.0 <= j < self@.len() ==> K::key_lt(k@, #[trigger] self@[j].0),
            forall|j: int| r.0 <= j < self@.len() ==> !K::key_lt(#[trigger] self@[j].0, k@),
    {
        proof {
            use_type_invariant(self);
        }
        let n = self.keys.len();
        let mut i: usize = 0;
        while i < n
            invariant
                n == self@.len(),
                n == self.keys@.len(),
                i <= n,
                sorted::<K::V, V::V, K>(self@),
                forall|j: int| 0 <= j < i ==> K::key_lt(#[trigger] self@[j].0, k@),
            decreases n - i,
        {
            if !self.keys[i].less(k) {
                let found = self.keys[i].same(k);
                proof {
                    K::lemma_lt_total(self@[i as int].0, k@);
                    assert forall|j: int| i <= j < n implies !K::key_lt(#[trigger] self@[j].0, k@) by {
                        if j > i && K::key_lt(self@[j].0, k@) {
                            K::lemma_lt_transitive(self@[i as int].0, self@[j].0, k@);
                        }
                    }
                    if !found {
                        assert forall|j: int| i <= j < n implies K::key_lt(k@, #[trigger] self@[j].0) by {
                            if j > i {
                                K::lemma_lt_transitive(k@, self@[i as int].0, self@[j].0);
                            }
                        }
                    }
                }
                return (i, found);
            }
            i += 1;
        }
        (i, false)
    }

    /// The position of a key, when present.
    pub fn find(&self, k: &K) -> (r: Option<usize>)
        ensures
            sorted::<K::V, V::V, K>(self@),
            r is Some <==> has_key(self@, k@),
            r matches Some(i) ==> i < self@.len() && self@[i as int].0 == k@ && index_of(self@, k@) == i,
    {
        proof {
            use_type_invariant(self);
        }
        let (i, found) = self.search(k);
        if found {
            proof {
                lemma_index_of::<K::V, V::V, K>(self@, i as int);
            }
            Some(i)
        } else {
            proof {
                if has_key(self@, k@) {
                    let j = choose|j: int| 0 <= j < self@.len() && #[trigger] self@[j].0 == k@;
                    K::lemma_lt_irreflexive(k@);
                }
            }
            None
        }
    }

    /// Whether a key is present.
    pub fn contains_key(&self, k: &K) -> (r: bool)
        ensures
            r == has_key(self@, k@),
    {
        self.find(k).is_some()
    }

    /// The value stored under a key.
    pub fn get(&self, k: &K) -> (r: Option<&V>)
        ensures
            r is Some <==> has_key(self@, k@),
            r matches Some(v) ==> get(self@, k@) == Some(v@),
    {
        proof {
            use_type_invariant(self);
        }
        match self.find(k) {
            Some(i) => Some(&self.vals[i]),
            None => None,
        }
    }

    /// Moves the two vectors out, leaving the map empty.
    fn take_parts(&mut self) -> (r: (Vec<K>, Vec<V>))
        ensures
            r.0@ == old(self).keys@,
            r.1@ == old(self).vals@,
            r.0@.len() == r.1@.len(),
            sorted::<K::V, V::V, K>(old(self)@),
    {
        proof {
            use_type_invariant(&*self);
        }
        let mut empty = SortedMap { keys: Vec::new(), vals: Vec::new() };
        proof {
            assert(empty@ =~= Seq::<(K::V, V::V)>::empty());
        }
        std::mem::swap(self, &mut empty);
        (empty.keys, empty.vals)
    }

    /// Replaces the value at a position, keeping its key.
    pub fn set_value_at(&mut self, i: usize, v: V)
        requires
            i < old(self)@.len(),
        ensures
            final(self)@ == old(self)@.update(i as int, (old(self)@[i as int].0, v@)),
    {
        let (keys, mut vals) = self.take_parts();
        vals.set(i, v);
        proof {
            assert(entries_view(keys@, vals@) =~= old(self)@.update(i as int, (old(self)@[i as int].0, v@)));
        }
        let r = SortedMap { keys, vals };
        *self = r;
    }

    /// Stores `v` under `k`, replacing any previous value, which is returned.
    pub fn insert(&mut self, k: K, v: V) -> (r: Option<V>)
        ensures
            final(self)@ == put::<K::V, V::V, K>(old(self)@, k@, v@),
            r is Some <==> has_key(old(self)@, k@),
            r matches Some(p) ==> get(old(self)@, k@) == Some(p@),
    {
        let (i, found) = self.search(&k);
        let ghost old_view = self@;
        let ghost kv = k@;
        let ghost vv = v@;
        let (mut keys, mut vals) = self.take_parts();
        if found {
            proof {
                lemma_index_of::<K::V, V::V, K>(old_view, i as int);
            }
            let mut previous = v;
            vals.set_and_swap(i, &mut previous);
            proof {
                assert(entries_view(keys@, vals@) =~= put::<K::V, V::V, K>(old_view, kv, vv));
            }
            let r = SortedMap { keys, vals };
            *self = r;
            Some(previous)
        } else {
            proof {
                if has_key(old_view, kv) {
                    K::lemma_lt_irreflexive(kv);
                }
                lemma_count_below::<K::V, V::V, K>(old_view, kv, i as int);
            }
            keys.insert(i, k);
            vals.insert(i, v);
            proof {
                assert(entries_view(keys@, vals@) =~= old_view.insert(i as int, (kv, vv)));
                let m = entries_view(keys@, vals@);
                assert forall|a: int, b: int| 0 <= a < b < m.len() implies K::key_lt(#[trigger] m[a].0, #[trigger] m[b].0) by {
                    if a < i && b > i {
                        K::lemma_lt_transitive(m[a].0, kv, m[b].0);
                    }
                }
            }
            let r = SortedMap { keys, vals };
            *self = r;
            None
        }
    }

    /// Removes the entry under a key; returns its value.
    pub fn remove(&mut self, k: &K) -> (r: Option<V>)
        ensures
            final(self)@ == del(old(self)@, k@),
            r is Some <==> has_key(old(self)@, k@),
            r matches Some(p) ==> get(old(self)@, k@) == Some(p@),
    {
        let ghost old_view = self@;
        match self.find(k) {
            None => None,
            Some(i) => {
                proof {
                    lemma_index_of::<K::V, V::V, K>(old_view, i as int);
                }
                let (mut keys, mut vals) = self.take_parts();
                keys.remove(i);
                let v = vals.remove(i);
                proof {
                    assert(entries_view(keys@, vals@) =~= old_view.remove(i as int));
                    let m = entries_view(keys@, vals@);
                    assert forall|a: int, b: int| 0 <= a < b < m.len() implies K::key_lt(#[trigger] m[a].0, #[trigger] m[b].0) by {
                        if a < i && b >= i {
                            assert(m[b] == old_view[b + 1]);
                        } else if a >= i {
                            assert(m[a] == old_view[a + 1]);
                            assert(m[b] == old_view[b + 1]);
                        }
                    }
                }
                let r = SortedMap { keys, vals };
                *self = r;
                Some(v)
            },
        }
    }

    /// Removes every entry.
    pub fn clear(&mut self)
        ensures
            final(self)@ == Seq::<(K::V, V::V)>::empty(),
    {
        *self = SortedMap::new();
    }
}

impl<K: MapKey, V: DeepCopy> DeepCopy for SortedMap<K, V> {
    fn deep_copy(&self) -> (r: Self) {
        proof {
            use_type_invariant(self);
        }
        let mut keys: Vec<K> = Vec::new();
        let mut vals: Vec<V> = Vec::new();
        let mut i: usize = 0;
        while i < self.keys.len()
            invariant
                i <= self.keys@.len(),
                self.keys@.len() == self.vals@.len(),
                keys@.len() == i,
                vals@.len() == i,
                forall|j: int| 0 <= j < i ==> (#[trigger] keys@[j])@ == self.keys@[j]@,
                forall|j: int| 0 <= j < i ==> (#[trigger] vals@[j])@ == self.vals@[j]@,
            decreases self.keys@.len() - i,
        {
            keys.push(self.keys[i].duplicate());
            vals.push(self.vals[i].deep_copy());
            i += 1;
        }
        proof {
            assert(entries_view(keys@, vals@) =~= self@);
        }
        SortedMap { keys, vals }
    }
}

impl<K: MapKey, V: DeepCopy> Clone for SortedMap<K, V> {
    fn clone(&self) -> Self {
        self.deep_copy()
    }
}

} // verus!
