//! The order identifiers are kept in: that of their bytes.
//!
//! Two strings compare by the first byte at which their UTF-8 encodings
//! differ, a proper prefix coming first. The order is total, so a finite
//! set of strings has exactly one ascending enumeration.

use vstd::prelude::*;
use vstd::utf8::{encode_utf8, encode_utf8_decode_utf8};

verus! {

/// The characters of a string.
pub type Text = Seq<char>;

/// Whether `a` and `b` agree up to `i`, where `a` ends or is smaller.
pub open spec fn parts_at(a: Seq<u8>, b: Seq<u8>, i: int) -> bool {
    &&& 0 <= i < b.len()
    &&& i <= a.len()
    &&& forall|k: int| 0 <= k < i ==> a[k] == b[k]
    &&& i == a.len() || a[i] < b[i]
}

/// Whether the bytes `a` come before the bytes `b`.
pub open spec fn bytes_less(a: Seq<u8>, b: Seq<u8>) -> bool {
    exists|i: int| parts_at(a, b, i)
}

/// Whether `a` comes before `b`.
pub open spec fn less(a: Text, b: Text) -> bool {
    bytes_less(encode_utf8(a), encode_utf8(b))
}

/// Nothing comes before itself.
pub proof fn lemma_less_irreflexive(a: Text)
    ensures
        !less(a, a),
{
}

/// The order is transitive.
pub proof fn lemma_less_transitive(a: Text, b: Text, c: Text)
    requires
        less(a, b),
        less(b, c),
    ensures
        less(a, c),
{
    let (x, y, z) = (encode_utf8(a), encode_utf8(b), encode_utf8(c));
    let i = choose|i: int| parts_at(x, y, i);
    let j = choose|j: int| parts_at(y, z, j);
    assert(parts_at(x, z, if i < j { i } else { j }));
}

/// Two strings never come before each other.
pub proof fn lemma_less_asymmetric(a: Text, b: Text)
    requires
        less(a, b),
    ensures
        !less(b, a),
        a != b,
{
    if less(b, a) {
        lemma_less_transitive(a, b, a);
    }
    lemma_less_irreflexive(a);
}

proof fn lemma_bytes_total(a: Seq<u8>, b: Seq<u8>, i: int)
    requires
        0 <= i <= a.len(),
        i <= b.len(),
        forall|k: int| 0 <= k < i ==> a[k] == b[k],
        a != b,
    ensures
        bytes_less(a, b) || bytes_less(b, a),
    decreases a.len() - i,
{
    if i == a.len() {
        if i == b.len() {
            assert(a =~= b);
        } else {
            assert(parts_at(a, b, i));
        }
    } else if i == b.len() || b[i] < a[i] {
        assert(parts_at(b, a, i));
    } else if a[i] < b[i] {
        assert(parts_at(a, b, i));
    } else {
        lemma_bytes_total(a, b, i + 1);
    }
}

/// Of two different strings one comes before the other.
pub proof fn lemma_less_total(a: Text, b: Text)
    requires
        a != b,
    ensures
        less(a, b) || less(b, a),
{
    encode_utf8_decode_utf8(a);
    encode_utf8_decode_utf8(b);
    lemma_bytes_total(encode_utf8(a), encode_utf8(b), 0);
}

/// How one string stands to another.
#[derive(Clone, Copy, Debug, Eq, PartialEq, Structural)]
pub enum Side {
    /// It comes before.
    Before,
    /// They are the same.
    Same,
    /// It comes after.
    After,
}

/// How `a` stands to `b`.
pub open spec fn side(a: Text, b: Text) -> Side {
    if a == b {
        Side::Same
    } else if less(a, b) {
        Side::Before
    } else {
        Side::After
    }
}

/// Compares two strings by their bytes.
pub fn compare(a: &str, b: &str) -> (r: Side)
    ensures
        r == side(a@, b@),
        r is After ==> less(b@, a@),
{
    let x = a.as_bytes();
    let y = b.as_bytes();
    let mut i: usize = 0;
    proof {
        encode_utf8_decode_utf8(a@);
        encode_utf8_decode_utf8(b@);
    }
    while i < x.len() && i < y.len() && x[i] == y[i]
        invariant
            i <= x.len(),
            i <= y.len(),
            forall|k: int| 0 <= k < i ==> x@[k] == y@[k],
        decreases x.len() - i,
    {
        i += 1;
    }
    if i == x.len() {
        if i == y.len() {
            assert(x@ =~= y@);
            Side::Same
        } else {
            assert(parts_at(x@, y@, i as int));
            proof {
                lemma_less_asymmetric(a@, b@);
            }
            Side::Before
        }
    } else if i == y.len() || y[i] < x[i] {
        assert(parts_at(y@, x@, i as int));
        proof {
            lemma_less_asymmetric(b@, a@);
        }
        Side::After
    } else {
        assert(parts_at(x@, y@, i as int));
        proof {
            lemma_less_asymmetric(a@, b@);
        }
        Side::Before
    }
}

/// Whether every string of `s` comes before the ones behind it.
pub open spec fn is_ascending(s: Seq<Text>) -> bool {
    forall|i: int, j: int| 0 <= i < j < s.len() ==> #[trigger] less(s[i], s[j])
}

/// Whether `m` is the member of `s` that comes first.
pub open spec fn is_first(s: Set<Text>, m: Text) -> bool {
    s.contains(m) && forall|x: Text| #[trigger] s.contains(x) ==> x == m || less(m, x)
}

/// The member of `s` that comes first.
pub open spec fn first_of(s: Set<Text>) -> Text {
    choose|m: Text| is_first(s, m)
}

/// The members of `s` in ascending order.
pub open spec fn ascending(s: Set<Text>) -> Seq<Text>
    decreases s.len(),
    when s.finite()
{
    if s.len() == 0 {
        seq![]
    } else {
        proof {
            lemma_first(s);
        }
        seq![first_of(s)] + ascending(s.remove(first_of(s)))
    }
}

proof fn lemma_some_first(s: Set<Text>)
    requires
        s.finite(),
        s.len() > 0,
    ensures
        exists|m: Text| is_first(s, m),
    decreases s.len(),
{
    let c = s.choose();
    let rest = s.remove(c);
    if rest.len() == 0 {
        assert forall|x: Text| #[trigger] s.contains(x) implies x == c by {
            if x != c {
                assert(rest.contains(x));
            }
        }
        assert(is_first(s, c));
    } else {
        lemma_some_first(rest);
        let m = choose|m: Text| is_first(rest, m);
        lemma_less_total(c, m);
        if less(c, m) {
            assert forall|x: Text| #[trigger] s.contains(x) implies x == c || less(c, x) by {
                if x != c {
                    assert(rest.contains(x));
                    if x != m {
                        lemma_less_transitive(c, m, x);
                    }
                }
            }
            assert(is_first(s, c));
        } else {
            assert forall|x: Text| #[trigger] s.contains(x) implies x == m || less(m, x) by {
                if x != c {
                    assert(rest.contains(x));
                }
            }
            assert(is_first(s, m));
        }
    }
}

/// A finite set with a member has a first one.
pub proof fn lemma_first(s: Set<Text>)
    requires
        s.finite(),
        s.len() > 0,
    ensures
        is_first(s, first_of(s)),
{
    lemma_some_first(s);
}

/// The ascending enumeration of a finite set holds each member once.
pub proof fn lemma_ascending(s: Set<Text>)
    requires
        s.finite(),
    ensures
        is_ascending(ascending(s)),
        ascending(s).len() == s.len(),
        forall|x: Text| #[trigger] ascending(s).contains(x) <==> s.contains(x),
    decreases s.len(),
{
    if s.len() == 0 {
        assert forall|x: Text| s.contains(x) implies false by {
            vstd::set_lib::lemma_set_empty_equivalency_len(s);
        }
    } else {
        lemma_first(s);
        let m = first_of(s);
        let rest = ascending(s.remove(m));
        lemma_ascending(s.remove(m));
        let all = ascending(s);
        assert(all == seq![m] + rest);
        assert forall|i: int, j: int| 0 <= i < j < all.len() implies #[trigger] less(
            all[i],
            all[j],
        ) by {
            assert(all[j] == rest[j - 1]);
            assert(rest.contains(rest[j - 1]));
            if i > 0 {
                assert(all[i] == rest[i - 1]);
            }
        }
        assert forall|x: Text| #[trigger] all.contains(x) <==> s.contains(x) by {
            if all.contains(x) {
                let i = choose|i: int| 0 <= i < all.len() && all[i] == x;
                if i > 0 {
                    assert(rest[i - 1] == x);
                    assert(rest.contains(x));
                }
            }
            if s.contains(x) {
                if x == m {
                    assert(all[0] == x);
                } else {
                    assert(rest.contains(x));
                    let i = choose|i: int| 0 <= i < rest.len() && rest[i] == x;
                    assert(all[i + 1] == x);
                }
            }
        }
    }
}

/// An ascending sequence holds no string twice.
pub proof fn lemma_ascending_distinct(q: Seq<Text>)
    requires
        is_ascending(q),
    ensures
        q.no_duplicates(),
{
    assert forall|i: int, j: int| 0 <= i < q.len() && 0 <= j < q.len() && i != j implies q[i]
        != q[j] by {
        if i < j {
            lemma_less_asymmetric(q[i], q[j]);
        } else {
            lemma_less_asymmetric(q[j], q[i]);
        }
    }
}

/// A set has no ascending enumeration but [`ascending`].
pub proof fn lemma_ascending_unique(q: Seq<Text>, s: Set<Text>)
    requires
        s.finite(),
        is_ascending(q),
        forall|x: Text| #[trigger] q.contains(x) <==> s.contains(x),
    ensures
        q == ascending(s),
        q.len() == s.len(),
    decreases q.len(),
{
    if q.len() == 0 {
        assert(s =~= Set::<Text>::empty()) by {
            assert forall|x: Text| s.contains(x) implies false by {
                assert(q.contains(x));
            }
        }
        assert(q =~= ascending(s));
    } else {
        let m = q[0];
        assert(q.contains(m));
        let rest = q.drop_first();
        lemma_ascending_distinct(q);
        assert forall|x: Text| #[trigger] rest.contains(x) <==> s.remove(m).contains(x) by {
            if rest.contains(x) {
                let i = choose|i: int| 0 <= i < rest.len() && rest[i] == x;
                assert(q[i + 1] == x);
                assert(q.contains(x));
            }
            if s.remove(m).contains(x) {
                assert(q.contains(x));
                let i = choose|i: int| 0 <= i < q.len() && q[i] == x;
                assert(rest[i - 1] == x);
            }
        }
        assert forall|i: int, j: int| 0 <= i < j < rest.len() implies #[trigger] less(
            rest[i],
            rest[j],
        ) by {
            assert(less(q[i + 1], q[j + 1]));
        }
        lemma_ascending_unique(rest, s.remove(m));
        lemma_first(s);
        let f = first_of(s);
        if f != m {
            assert(q.contains(f));
            let i = choose|i: int| 0 <= i < q.len() && q[i] == f;
            assert(less(q[0], q[i]));
            lemma_less_asymmetric(m, f);
            assert(less(f, m));
        }
        assert(q =~= seq![m] + rest);
    }
}

/// What one element more adds to a prefix.
pub proof fn lemma_take_more(q: Seq<Text>, i: int)
    requires
        0 <= i < q.len(),
    ensures
        forall|t: Text| #[trigger]
            q.take(i + 1).contains(t) <==> q.take(i).contains(t) || t == q[i],
{
    let (before, after) = (q.take(i), q.take(i + 1));
    assert forall|t: Text| #[trigger]
        after.contains(t) <==> before.contains(t) || t == q[i] by {
        if before.contains(t) {
            let j = choose|j: int| 0 <= j < before.len() && before[j] == t;
            assert(after[j] == t);
        }
        if after.contains(t) {
            let j = choose|j: int| 0 <= j < after.len() && after[j] == t;
            if j < i {
                assert(before[j] == t);
            }
        }
        assert(after[i] == q[i]);
    }
}

/// The enumeration of a set without one of its members.
pub proof fn lemma_ascending_remove(s: Set<Text>, k: int)
    requires
        s.finite(),
        0 <= k < s.len(),
    ensures
        0 <= k < ascending(s).len(),
        ascending(s.remove(ascending(s)[k])) == ascending(s).remove(k),
{
    lemma_ascending(s);
    let q = ascending(s);
    lemma_ascending_distinct(q);
    let (gone, rest) = (q[k], q.remove(k));
    assert forall|i: int, j: int| 0 <= i < j < rest.len() implies #[trigger] less(
        rest[i],
        rest[j],
    ) by {
        let i0 = if i < k { i } else { i + 1 };
        let j0 = if j < k { j } else { j + 1 };
        assert(less(q[i0], q[j0]));
    }
    assert forall|t: Text| #[trigger] rest.to_set().contains(t) <==> s.remove(gone).contains(
        t,
    ) by {
        if rest.contains(t) {
            let i = choose|i: int| 0 <= i < rest.len() && rest[i] == t;
            let i0 = if i < k { i } else { i + 1 };
            assert(q[i0] == t);
            assert(q.contains(t));
        }
        if s.remove(gone).contains(t) {
            assert(q.contains(t));
            let i = choose|i: int| 0 <= i < q.len() && q[i] == t;
            let i0 = if i < k { i } else { i - 1 };
            assert(rest[i0] == t);
        }
    }
    assert(rest.to_set() =~= s.remove(gone));
    lemma_ascending_unique(rest, s.remove(gone));
}

} // verus!
