//! Maps and sets of identifiers, kept in ascending order.
//!
//! A [`ReplicaMap`] holds at most one value per identifier and is walked
//! in ascending order; a [`ReplicaSet`] is one without values. An
//! identifier is its text: two of the same text are the same key.

use vstd::prelude::*;

use crate::order::{
    ascending, compare, is_ascending, lemma_ascending, lemma_ascending_distinct,
    lemma_ascending_unique, lemma_less_asymmetric, lemma_less_transitive, less, Side, Text,
};
use crate::value::ReplicaValue;

verus! {

/// A type whose values are told apart by their text.
pub trait ReplicaId: View<V = Seq<char>> + Sized {
    /// Borrows the text.
    fn text(&self) -> (r: &str)
        ensures
            r@ == self@,
    ;

    /// Makes another of the same text.
    fn again(&self) -> (r: Self)
        ensures
            r@ == self@,
    ;
}

impl ReplicaId for String {
    fn text(&self) -> (r: &str) {
        self.as_str()
    }

    fn again(&self) -> (r: Self) {
        self.clone()
    }
}

spec fn texts<K: ReplicaId>(s: Seq<K>) -> Seq<Text> {
    Seq::new(s.len(), |i: int| s[i]@)
}

spec fn map_of<K: ReplicaId, V: DeepView>(keys: Seq<K>, values: Seq<V>) -> Map<Text, V::V> {
    Map::new(
        |k: Text| texts(keys).contains(k),
        |k: Text| values[texts(keys).index_of(k)].deep_view(),
    )
}

/// What the map tells of the identifier at `i`.
proof fn lemma_at<K: ReplicaId, V: DeepView>(keys: Seq<K>, values: Seq<V>, i: int)
    requires
        is_ascending(texts(keys)),
        0 <= i < keys.len(),
    ensures
        map_of(keys, values).contains_key(keys[i]@),
        map_of(keys, values)[keys[i]@] == values[i].deep_view(),
{
    assert(texts(keys)[i] == keys[i]@);
    assert(texts(keys).contains(keys[i]@));
    lemma_ascending_distinct(texts(keys));
}

/// The identifiers in order are the ascending enumeration of the domain.
proof fn lemma_enumerates<K: ReplicaId, V: DeepView>(keys: Seq<K>, values: Seq<V>)
    requires
        is_ascending(texts(keys)),
    ensures
        map_of(keys, values).dom().finite(),
        map_of(keys, values).dom().len() == keys.len(),
        map_of(keys, values).len() == keys.len(),
        texts(keys) == ascending(map_of(keys, values).dom()),
        forall|i: int|
            0 <= i < keys.len() ==> #[trigger] ascending(map_of(keys, values).dom())[i]
                == keys[i]@,
{
    assert(map_of(keys, values).dom() =~= texts(keys).to_set());
    lemma_ascending_unique(texts(keys), map_of(keys, values).dom());
}

#[derive(Debug, Eq, PartialEq)]
struct Columns<K, V> {
    keys: Vec<K>,
    values: Vec<V>,
}

/// A map from identifiers to values, in ascending order of identifier.
#[derive(Debug, Eq, PartialEq)]
pub struct ReplicaMap<K: ReplicaId, V: DeepView> {
    columns: Columns<K, V>,
}

impl<K: ReplicaId, V: DeepView> View for ReplicaMap<K, V> {
    type V = Map<Text, V::V>;

    closed spec fn view(&self) -> Map<Text, V::V> {
        map_of(self.columns.keys@, self.columns.values@)
    }
}

impl<K: ReplicaId, V: DeepView> DeepView for ReplicaMap<K, V> {
    type V = Map<Text, V::V>;

    open spec fn deep_view(&self) -> Map<Text, V::V> {
        self.view()
    }
}

impl<K: ReplicaId, V: DeepView> ReplicaMap<K, V> {
    #[verifier::type_invariant]
    spec fn ordered(self) -> bool {
        is_ascending(texts(self.columns.keys@)) && self.columns.keys@.len() == self.columns.values@.len()
    }

    /// Creates an empty map.
    pub fn new() -> (r: Self)
        ensures
            r@ == Map::<Text, V::V>::empty(),
    {
        let r = ReplicaMap { columns: Columns { keys: Vec::new(), values: Vec::new() } };
        assert(r@ =~= Map::<Text, V::V>::empty());
        r
    }

    /// How many identifiers the map holds.
    pub fn len(&self) -> (r: usize)
        ensures
            r == self@.len(),
            r == self@.dom().len(),
            self@.dom().finite(),
    {
        proof {
            use_type_invariant(self);
            lemma_enumerates(self.columns.keys@, self.columns.values@);
        }
        self.columns.keys.len()
    }

    /// Whether the map holds nothing.
    pub fn is_empty(&self) -> (r: bool)
        ensures
            r == (self@ == Map::<Text, V::V>::empty()),
    {
        proof {
            use_type_invariant(self);
            if self.columns.keys@.len() == 0 {
                assert(self@ =~= Map::<Text, V::V>::empty());
            } else {
                lemma_at(self.columns.keys@, self.columns.values@, 0);
            }
        }
        self.columns.keys.len() == 0
    }

    /// Where `key` is, or where it would go.
    fn seek(&self, key: &str) -> (r: (bool, usize))
        ensures
            r.0 ==> r.1 < self.columns.keys@.len() && self.columns.keys@[r.1 as int]@ == key@,
            !r.0 ==> r.1 <= self.columns.keys@.len(),
            r.0 == self@.contains_key(key@),
            forall|j: int| 0 <= j < r.1 ==> less(#[trigger] self.columns.keys@[j]@, key@),
            !r.0 ==> forall|j: int|
                r.1 <= j < self.columns.keys@.len() ==> less(key@, #[trigger] self.columns.keys@[j]@),
    {
        proof {
            use_type_invariant(self);
        }
        let ghost keys = texts(self.columns.keys@);
        let mut lo: usize = 0;
        let mut hi: usize = self.columns.keys.len();
        while lo < hi
            invariant
                keys == texts(self.columns.keys@),
                is_ascending(keys),
                lo <= hi <= self.columns.keys@.len(),
                forall|j: int| 0 <= j < lo ==> less(#[trigger] self.columns.keys@[j]@, key@),
                forall|j: int|
                    hi <= j < self.columns.keys@.len() ==> less(key@, #[trigger] self.columns.keys@[j]@),
            decreases hi - lo,
        {
            let mid = lo + (hi - lo) / 2;
            assert(keys[mid as int] == self.columns.keys@[mid as int]@);
            match compare(self.columns.keys[mid].text(), key) {
                Side::Same => {
                    proof {
                        lemma_at(self.columns.keys@, self.columns.values@, mid as int);
                        assert forall|j: int| 0 <= j < mid implies less(
                            #[trigger] self.columns.keys@[j]@,
                            key@,
                        ) by {
                            assert(less(keys[j], keys[mid as int]));
                        }
                    }
                    return (true, mid);
                },
                Side::Before => {
                    proof {
                        assert forall|j: int| 0 <= j < mid + 1 implies less(
                            #[trigger] self.columns.keys@[j]@,
                            key@,
                        ) by {
                            if j < mid {
                                assert(less(keys[j], keys[mid as int]));
                                lemma_less_transitive(keys[j], keys[mid as int], key@);
                            }
                        }
                    }
                    lo = mid + 1;
                },
                Side::After => {
                    proof {
                        assert forall|j: int| mid <= j < self.columns.keys@.len() implies less(
                            key@,
                            #[trigger] self.columns.keys@[j]@,
                        ) by {
                            if j > mid {
                                assert(less(keys[mid as int], keys[j]));
                                lemma_less_transitive(key@, keys[mid as int], keys[j]);
                            }
                        }
                    }
                    hi = mid;
                },
            }
        }
        proof {
            if self@.contains_key(key@) {
                let j = choose|j: int| 0 <= j < keys.len() && keys[j] == key@;
                assert(self.columns.keys@[j]@ == key@);
                lemma_less_asymmetric(key@, key@);
            }
        }
        (false, lo)
    }

    /// Borrows the value of `key`.
    pub fn get(&self, key: &K) -> (r: Option<&V>)
        ensures
            match r {
                Some(v) => self@.contains_key(key@) && v.deep_view() == self@[key@],
                None => !self@.contains_key(key@),
            },
    {
        let (found, i) = self.seek(key.text());
        proof {
            use_type_invariant(self);
        }
        if found {
            proof {
                lemma_at(self.columns.keys@, self.columns.values@, i as int);
            }
            Some(&self.columns.values[i])
        } else {
            None
        }
    }

    /// Whether the map holds `key`.
    pub fn contains_key(&self, key: &K) -> (r: bool)
        ensures
            r == self@.contains_key(key@),
    {
        self.seek(key.text()).0
    }

    /// Borrows the identifier at `i`.
    pub fn key_at(&self, i: usize) -> (r: &K)
        requires
            i < self@.len(),
        ensures
            r@ == ascending(self@.dom())[i as int],
            self@.contains_key(r@),
    {
        proof {
            use_type_invariant(self);
            lemma_enumerates(self.columns.keys@, self.columns.values@);
            lemma_at(self.columns.keys@, self.columns.values@, i as int);
        }
        &self.columns.keys[i]
    }

    /// Borrows the value of the identifier at `i`.
    pub fn value_at(&self, i: usize) -> (r: &V)
        requires
            i < self@.len(),
        ensures
            self@.contains_key(ascending(self@.dom())[i as int]),
            r.deep_view() == self@[ascending(self@.dom())[i as int]],
    {
        proof {
            use_type_invariant(self);
            lemma_enumerates(self.columns.keys@, self.columns.values@);
            lemma_at(self.columns.keys@, self.columns.values@, i as int);
        }
        &self.columns.values[i]
    }

    /// Mutably borrows the value of the identifier at `i`.
    pub fn value_mut(&mut self, i: usize) -> (r: &mut V)
        requires
            i < old(self)@.len(),
        ensures
            old(self)@.contains_key(ascending(old(self)@.dom())[i as int]),
            r.deep_view() == old(self)@[ascending(old(self)@.dom())[i as int]],
            final(self)@ == old(self)@.insert(
                ascending(old(self)@.dom())[i as int],
                final(r).deep_view(),
            ),
    {
        proof {
            use_type_invariant(&*self);
            let (keys, values) = (self.columns.keys@, self.columns.values@);
            lemma_enumerates(keys, values);
            lemma_at(keys, values, i as int);
            assert forall|v: V| #[trigger] map_of(keys, values.update(i as int, v))
                == map_of(keys, values).insert(keys[i as int]@, v.deep_view()) by {
                lemma_replaced(keys, values, i as int, v);
            }
        }
        &mut self.columns.values[i]
    }

    /// Mutably borrows the value of `key`.
    pub fn get_mut(&mut self, key: &K) -> (r: Option<&mut V>)
        ensures
            match r {
                Some(v) => {
                    &&& old(self)@.contains_key(key@)
                    &&& v.deep_view() == old(self)@[key@]
                    &&& final(self)@ == old(self)@.insert(key@, final(v).deep_view())
                },
                None => !old(self)@.contains_key(key@) && *final(self) == *old(self),
            },
    {
        let (found, i) = self.seek(key.text());
        if found {
            proof {
                use_type_invariant(&*self);
                lemma_enumerates(self.columns.keys@, self.columns.values@);
            }
            Some(self.value_mut(i))
        } else {
            None
        }
    }

    /// Sets the value of `key`, returning the one it replaces.
    pub fn insert(&mut self, key: K, value: V) -> (r: Option<V>)
        ensures
            final(self)@ == old(self)@.insert(key@, value.deep_view()),
            match r {
                Some(v) => old(self)@.contains_key(key@) && v.deep_view() == old(self)@[key@],
                None => !old(self)@.contains_key(key@),
            },
    {
        let (found, i) = self.seek(key.text());
        proof {
            use_type_invariant(&*self);
        }
        let ghost (before, values_before) = (self.columns.keys@, self.columns.values@);
        let mut columns: Columns<K, V> = Columns { keys: Vec::new(), values: Vec::new() };
        std::mem::swap(&mut columns, &mut self.columns);
        let ghost (key_text, value_view) = (key@, value.deep_view());
        if found {
            let mut value = value;
            proof {
                lemma_at(before, values_before, i as int);
                lemma_replaced(before, values_before, i as int, value);
            }
            std::mem::swap(&mut columns.values[i], &mut value);
            assert(columns.values@ =~= values_before.update(i as int, columns.values@[i as int]));
            self.columns = columns;
            Some(value)
        } else {
            proof {
                lemma_inserted(before, values_before, i as int, key, value);
            }
            columns.keys.insert(i, key);
            columns.values.insert(i, value);
            self.columns = columns;
            None
        }
    }

    /// Takes `key` out, returning its value.
    pub fn remove(&mut self, key: &K) -> (r: Option<V>)
        ensures
            final(self)@ == old(self)@.remove(key@),
            match r {
                Some(v) => old(self)@.contains_key(key@) && v.deep_view() == old(self)@[key@],
                None => !old(self)@.contains_key(key@),
            },
    {
        let (found, i) = self.seek(key.text());
        proof {
            use_type_invariant(&*self);
        }
        let ghost (before, values_before) = (self.columns.keys@, self.columns.values@);
        if found {
            proof {
                lemma_enumerates(before, values_before);
            }
            Some(self.take_at(i).1)
        } else {
            assert(self@.remove(key@) =~= self@);
            None
        }
    }

    /// Takes the identifier at `i` out, returning it with its value.
    pub fn take_at(&mut self, i: usize) -> (r: (K, V))
        requires
            i < old(self)@.len(),
        ensures
            r.0@ == ascending(old(self)@.dom())[i as int],
            old(self)@.contains_key(r.0@),
            r.1.deep_view() == old(self)@[r.0@],
            final(self)@ == old(self)@.remove(r.0@),
    {
        proof {
            use_type_invariant(&*self);
            lemma_enumerates(self.columns.keys@, self.columns.values@);
            lemma_at(self.columns.keys@, self.columns.values@, i as int);
            lemma_removed(self.columns.keys@, self.columns.values@, i as int);
        }
        let mut columns: Columns<K, V> = Columns { keys: Vec::new(), values: Vec::new() };
        std::mem::swap(&mut columns, &mut self.columns);
        let key = columns.keys.remove(i);
        let value = columns.values.remove(i);
        self.columns = columns;
        (key, value)
    }
}

impl<K: ReplicaId, V: DeepView> Default for ReplicaMap<K, V> {
    fn default() -> (r: Self)
        ensures
            r@ == Map::<Text, V::V>::empty(),
    {
        Self::new()
    }
}

impl<K: ReplicaId, V: ReplicaValue> Clone for ReplicaMap<K, V> {
    fn clone(&self) -> (r: Self)
        ensures
            r@ == self@,
    {
        let mut keys: Vec<K> = Vec::new();
        let mut values: Vec<V> = Vec::new();
        let n = self.columns.keys.len();
        proof {
            use_type_invariant(self);
        }
        let mut i: usize = 0;
        while i < n
            invariant
                n == self.columns.keys@.len(),
                n == self.columns.values@.len(),
                i <= n,
                keys@.len() == i,
                values@.len() == i,
                forall|j: int| 0 <= j < i ==> (#[trigger] keys@[j])@ == self.columns.keys@[j]@,
                forall|j: int|
                    0 <= j < i ==> (#[trigger] values@[j]).deep_view()
                        == self.columns.values@[j].deep_view(),
            decreases n - i,
        {
            keys.push(self.columns.keys[i].again());
            values.push(self.columns.values[i].copied());
            i += 1;
        }
        proof {
            assert(texts(keys@) =~= texts(self.columns.keys@));
            lemma_ascending_distinct(texts(keys@));
            assert(map_of(keys@, values@) =~= map_of(self.columns.keys@, self.columns.values@));
        }
        ReplicaMap { columns: Columns { keys, values } }
    }
}

impl<K: ReplicaId, V: ReplicaValue> ReplicaValue for ReplicaMap<K, V> {
    fn copied(&self) -> (r: Self) {
        self.clone()
    }
}

proof fn lemma_replaced<K: ReplicaId, V: DeepView>(keys: Seq<K>, values: Seq<V>, i: int, v: V)
    requires
        is_ascending(texts(keys)),
        keys.len() == values.len(),
        0 <= i < keys.len(),
    ensures
        map_of(keys, values.update(i, v)) == map_of(keys, values).insert(
            keys[i]@,
            v.deep_view(),
        ),
{
    let after = values.update(i, v);
    lemma_at(keys, values, i);
    lemma_at(keys, after, i);
    lemma_ascending_distinct(texts(keys));
    assert forall|k: Text| #[trigger] map_of(keys, after).contains_key(k) implies map_of(
        keys,
        after,
    )[k] == map_of(keys, values).insert(keys[i]@, v.deep_view())[k] by {
        let j = choose|j: int| 0 <= j < texts(keys).len() && texts(keys)[j] == k;
        assert(keys[j]@ == k);
        lemma_at(keys, values, j);
        lemma_at(keys, after, j);
        if j != i {
            assert(texts(keys)[i] != texts(keys)[j]);
        }
    }
    assert(map_of(keys, after) =~= map_of(keys, values).insert(keys[i]@, v.deep_view()));
}

proof fn lemma_inserted<K: ReplicaId, V: DeepView>(
    keys: Seq<K>,
    values: Seq<V>,
    i: int,
    k: K,
    v: V,
)
    requires
        is_ascending(texts(keys)),
        keys.len() == values.len(),
        0 <= i <= keys.len(),
        !map_of(keys, values).contains_key(k@),
        forall|j: int| 0 <= j < i ==> less(#[trigger] keys[j]@, k@),
        forall|j: int| i <= j < keys.len() ==> less(k@, #[trigger] keys[j]@),
    ensures
        is_ascending(texts(keys.insert(i, k))),
        map_of(keys.insert(i, k), values.insert(i, v)) == map_of(keys, values).insert(
            k@,
            v.deep_view(),
        ),
{
    let ks = keys.insert(i, k);
    let vs = values.insert(i, v);
    assert forall|x: int, y: int| 0 <= x < y < ks.len() implies #[trigger] less(
        texts(ks)[x],
        texts(ks)[y],
    ) by {
        let x0 = if x < i { x } else { x - 1 };
        let y0 = if y < i { y } else { y - 1 };
        if x != i {
            assert(ks[x] == keys[x0]);
        }
        if y != i {
            assert(ks[y] == keys[y0]);
        }
        if x != i && y != i {
            assert(less(texts(keys)[x0], texts(keys)[y0]));
        }
    }
    lemma_at(ks, vs, i);
    assert forall|t: Text| #![auto]
        map_of(ks, vs).contains_key(t) <==> map_of(keys, values).insert(
            k@,
            v.deep_view(),
        ).contains_key(t) by {
        if map_of(ks, vs).contains_key(t) {
            let j = choose|j: int| 0 <= j < texts(ks).len() && texts(ks)[j] == t;
            if j < i {
                assert(texts(keys)[j] == t);
                lemma_at(keys, values, j);
            } else if j > i {
                assert(ks[j] == keys[j - 1]);
                assert(texts(keys)[j - 1] == t);
                lemma_at(keys, values, j - 1);
            }
        }
        if map_of(keys, values).contains_key(t) {
            let j = choose|j: int| 0 <= j < texts(keys).len() && texts(keys)[j] == t;
            if j < i {
                assert(ks[j] == keys[j]);
                lemma_at(ks, vs, j);
            } else {
                assert(ks[j + 1] == keys[j]);
                lemma_at(ks, vs, j + 1);
            }
        }
    }
    assert forall|t: Text| #[trigger] map_of(ks, vs).contains_key(t) implies map_of(ks, vs)[t]
        == map_of(keys, values).insert(k@, v.deep_view())[t] by {
        let j = choose|j: int| 0 <= j < texts(ks).len() && texts(ks)[j] == t;
        lemma_at(ks, vs, j);
        if j < i {
            assert(ks[j] == keys[j] && vs[j] == values[j]);
            lemma_at(keys, values, j);
        } else if j > i {
            assert(ks[j] == keys[j - 1] && vs[j] == values[j - 1]);
            lemma_at(keys, values, j - 1);
        }
    }
    assert(map_of(ks, vs) =~= map_of(keys, values).insert(k@, v.deep_view()));
}

proof fn lemma_removed<K: ReplicaId, V: DeepView>(keys: Seq<K>, values: Seq<V>, i: int)
    requires
        is_ascending(texts(keys)),
        keys.len() == values.len(),
        0 <= i < keys.len(),
    ensures
        is_ascending(texts(keys.remove(i))),
        map_of(keys.remove(i), values.remove(i)) == map_of(keys, values).remove(keys[i]@),
{
    let ks = keys.remove(i);
    let vs = values.remove(i);
    assert forall|x: int, y: int| 0 <= x < y < ks.len() implies #[trigger] less(
        texts(ks)[x],
        texts(ks)[y],
    ) by {
        let x0 = if x < i { x } else { x + 1 };
        let y0 = if y < i { y } else { y + 1 };
        assert(ks[x] == keys[x0] && ks[y] == keys[y0]);
        assert(less(texts(keys)[x0], texts(keys)[y0]));
    }
    lemma_ascending_distinct(texts(keys));
    assert forall|t: Text| #![auto]
        map_of(ks, vs).contains_key(t) <==> map_of(keys, values).remove(keys[i]@).contains_key(
            t,
        ) by {
        if map_of(ks, vs).contains_key(t) {
            let j = choose|j: int| 0 <= j < texts(ks).len() && texts(ks)[j] == t;
            let j0 = if j < i { j } else { j + 1 };
            assert(ks[j] == keys[j0]);
            assert(texts(keys)[j0] == t && texts(keys)[i] == keys[i]@);
            lemma_at(keys, values, j0);
        }
        if map_of(keys, values).remove(keys[i]@).contains_key(t) {
            let j = choose|j: int| 0 <= j < texts(keys).len() && texts(keys)[j] == t;
            let j0 = if j < i { j } else { j - 1 };
            assert(j != i);
            assert(ks[j0] == keys[j]);
            lemma_at(ks, vs, j0);
        }
    }
    assert forall|t: Text| #[trigger] map_of(ks, vs).contains_key(t) implies map_of(ks, vs)[t]
        == map_of(keys, values)[t] by {
        let j = choose|j: int| 0 <= j < texts(ks).len() && texts(ks)[j] == t;
        let j0 = if j < i { j } else { j + 1 };
        assert(ks[j] == keys[j0] && vs[j] == values[j0]);
        lemma_at(ks, vs, j);
        lemma_at(keys, values, j0);
    }
    assert(map_of(ks, vs) =~= map_of(keys, values).remove(keys[i]@));
}

/// A set of identifiers, in ascending order.
#[derive(Debug, Eq, PartialEq)]
pub struct ReplicaSet<K: ReplicaId> {
    members: ReplicaMap<K, ()>,
}

impl<K: ReplicaId> View for ReplicaSet<K> {
    type V = Set<Text>;

    closed spec fn view(&self) -> Set<Text> {
        self.members@.dom()
    }
}

impl<K: ReplicaId> DeepView for ReplicaSet<K> {
    type V = Set<Text>;

    open spec fn deep_view(&self) -> Set<Text> {
        self.view()
    }
}

impl<K: ReplicaId> ReplicaSet<K> {
    /// Creates an empty set.
    pub fn new() -> (r: Self)
        ensures
            r@ == Set::<Text>::empty(),
    {
        let r = ReplicaSet { members: ReplicaMap::new() };
        assert(r@ =~= Set::<Text>::empty());
        r
    }

    /// How many members the set has.
    pub fn len(&self) -> (r: usize)
        ensures
            r == self@.len(),
            self@.finite(),
    {
        self.members.len()
    }

    /// Whether `key` is a member.
    pub fn contains(&self, key: &K) -> (r: bool)
        ensures
            r == self@.contains(key@),
    {
        self.members.contains_key(key)
    }

    /// Whether a member reads `text`.
    pub fn contains_text(&self, text: &str) -> (r: bool)
        ensures
            r == self@.contains(text@),
    {
        self.members.seek(text).0
    }

    /// Adds `key`, reporting whether it was not a member yet.
    pub fn insert(&mut self, key: K) -> (r: bool)
        ensures
            final(self)@ == old(self)@.insert(key@),
            r == !old(self)@.contains(key@),
    {
        let ghost text = key@;
        let added = self.members.insert(key, ()).is_none();
        assert(self@ =~= old(self)@.insert(text));
        added
    }

    /// Takes `key` out, reporting whether it was a member.
    pub fn remove(&mut self, key: &K) -> (r: bool)
        ensures
            final(self)@ == old(self)@.remove(key@),
            r == old(self)@.contains(key@),
    {
        let gone = self.members.remove(key).is_some();
        assert(self@ =~= old(self)@.remove(key@));
        gone
    }

    /// Borrows the member at `i`.
    pub fn at(&self, i: usize) -> (r: &K)
        requires
            i < self@.len(),
        ensures
            r@ == ascending(self@)[i as int],
            self@.contains(r@),
    {
        proof {
            use_type_invariant(&self.members);
        }
        self.members.key_at(i)
    }

    /// Whether both sets have the same members.
    pub fn same(&self, other: &Self) -> (r: bool)
        ensures
            r == (self@ == other@),
    {
        let n = self.len();
        if n != other.len() {
            return false;
        }
        proof {
            lemma_ascending(self@);
            lemma_ascending(other@);
        }
        let mut i: usize = 0;
        while i < n
            invariant
                n == self@.len(),
                n == other@.len(),
                n == ascending(self@).len(),
                i <= n,
                self@.finite(),
                other@.finite(),
                forall|j: int| 0 <= j < i ==> other@.contains(#[trigger] ascending(self@)[j]),
            decreases n - i,
        {
            if !other.contains(self.at(i)) {
                return false;
            }
            i += 1;
        }
        proof {
            assert forall|x: Text| #[trigger] self@.contains(x) implies other@.contains(x) by {
                assert(ascending(self@).contains(x));
                let j = choose|j: int| 0 <= j < ascending(self@).len() && ascending(self@)[j] == x;
                assert(other@.contains(ascending(self@)[j]));
            }
            vstd::set_lib::lemma_subset_equality(self@, other@);
        }
        true
    }
}

impl<K: ReplicaId> Clone for ReplicaSet<K> {
    fn clone(&self) -> (r: Self)
        ensures
            r@ == self@,
    {
        ReplicaSet { members: self.members.clone() }
    }
}

impl<K: ReplicaId> Default for ReplicaSet<K> {
    fn default() -> (r: Self)
        ensures
            r@ == Set::<Text>::empty(),
    {
        Self::new()
    }
}

} // verus!
