//! Copying and comparing values without changing what they stand for.

use vstd::prelude::*;

verus! {

/// A type whose values can be copied without changing what they stand for.
pub trait ReplicaValue: DeepView + Sized {
    /// Makes another that stands for the same.
    fn copied(&self) -> (r: Self)
        ensures
            r.deep_view() == self.deep_view(),
    ;
}

/// A type whose values can be compared by what they stand for.
pub trait ReplicaSame: DeepView + Sized {
    /// Whether both stand for the same.
    fn same(&self, other: &Self) -> (r: bool)
        ensures
            r == (self.deep_view() == other.deep_view()),
    ;
}

impl ReplicaValue for () {
    fn copied(&self) -> (r: Self) {
    }
}

impl ReplicaValue for u8 {
    fn copied(&self) -> (r: Self) {
        *self
    }
}

impl ReplicaValue for String {
    fn copied(&self) -> (r: Self) {
        self.clone()
    }
}

impl ReplicaSame for String {
    fn same(&self, other: &Self) -> (r: bool) {
        *self == *other
    }
}

impl<T: ReplicaValue> ReplicaValue for Option<T> {
    fn copied(&self) -> (r: Self) {
        match self {
            Some(value) => Some(value.copied()),
            None => None,
        }
    }
}

impl<T: ReplicaSame> ReplicaSame for Option<T> {
    fn same(&self, other: &Self) -> (r: bool) {
        match (self, other) {
            (Some(a), Some(b)) => a.same(b),
            (None, None) => true,
            (_, _) => false,
        }
    }
}

impl<T: ReplicaValue> ReplicaValue for Vec<T> {
    fn copied(&self) -> (r: Self) {
        let mut out: Vec<T> = Vec::new();
        let n = self.len();
        let mut i: usize = 0;
        while i < n
            invariant
                n == self@.len(),
                i <= n,
                out@.len() == i,
                forall|j: int|
                    0 <= j < i ==> (#[trigger] out@[j]).deep_view() == self@[j].deep_view(),
            decreases n - i,
        {
            out.push(self[i].copied());
            i += 1;
        }
        assert(out.deep_view() =~= self.deep_view());
        out
    }
}

/// Appends `value`.
pub(crate) fn push<T: DeepView>(list: &mut Vec<T>, value: T)
    ensures
        final(list).deep_view() == old(list).deep_view().push(value.deep_view()),
        final(list)@ == old(list)@.push(value),
{
    list.push(value);
    assert(list.deep_view() =~= old(list).deep_view().push(value.deep_view()));
}

/// Appends every value of `more`.
pub(crate) fn append<T: DeepView>(list: &mut Vec<T>, more: Vec<T>)
    ensures
        final(list).deep_view() == old(list).deep_view() + more.deep_view(),
{
    let mut more = more;
    let ghost added = more@;
    list.append(&mut more);
    assert(list.deep_view() =~= old(list).deep_view() + Seq::new(
        added.len(),
        |i: int| added[i].deep_view(),
    ));
}

/// A list of one value.
pub(crate) fn one<T: DeepView>(value: T) -> (r: Vec<T>)
    ensures
        r.deep_view() == seq![value.deep_view()],
        r@ == seq![value],
{
    let mut list: Vec<T> = Vec::new();
    list.push(value);
    assert(list@ =~= seq![value]);
    assert(list.deep_view() =~= seq![value.deep_view()]);
    list
}

/// Takes the list, leaving an empty one.
pub(crate) fn take<T: DeepView>(list: &mut Vec<T>) -> (r: Vec<T>)
    ensures
        r == *old(list),
        final(list)@ == Seq::<T>::empty(),
        final(list).deep_view() == Seq::<T::V>::empty(),
{
    let mut out: Vec<T> = Vec::new();
    std::mem::swap(&mut out, list);
    assert(list.deep_view() =~= Seq::<T::V>::empty());
    out
}

/// Reports whether `value` is in the list.
pub(crate) fn holds<T: ReplicaSame>(list: &Vec<T>, value: &T) -> (r: bool)
    ensures
        r == list.deep_view().contains(value.deep_view()),
{
    let n = list.len();
    let mut i: usize = 0;
    while i < n
        invariant
            n == list@.len(),
            i <= n,
            forall|j: int| 0 <= j < i ==> list.deep_view()[j] != value.deep_view(),
        decreases n - i,
    {
        if list[i].same(value) {
            assert(list.deep_view()[i as int] == value.deep_view());
            return true;
        }
        i += 1;
    }
    false
}

} // verus!
