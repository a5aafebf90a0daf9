//! A change names itself: its key covers what it makes true, and nothing
//! else.

use vstd::arithmetic::power::{lemma_pow0, lemma_pow1, lemma_pow_adds, pow};
use vstd::layout::{layout_of_primitives, size_of, unsigned_int_max_values};
use vstd::prelude::*;
use vstd::utf8::{
    encode_utf8, encode_utf8_decode_utf8, encode_utf8_valid_utf8, length_of_first_scalar,
    pop_first_scalar, valid_utf8,
};

use crate::change::{
    change_key, keyed_bytes, origin_field, target, target_state, ChangeKindView,
};
use crate::digest::{
    count_width, field, flags_field, fnv, hex, hex_digit, le_bytes, masked, option_field,
    text_field, text_fields, STAND_IN,
};
use crate::order::{ascending, lemma_ascending, Text};
use crate::placement::{FlagsView, OriginView};

verus! {

/// What a change makes true, without the terms it is attempted on: the
/// precondition of an update or a remove, and the delivery key of a move.
pub open spec fn made_true(kind: ChangeKindView) -> ChangeKindView {
    match kind {
        ChangeKindView::Remove { handle, to, .. } => ChangeKindView::Remove {
            handle,
            to,
            link_id: None,
            if_match: None,
        },
        ChangeKindView::Update { handle, object, .. } => ChangeKindView::Update {
            handle,
            object,
            if_match: None,
        },
        _ => kind,
    }
}

/// The same change keys the same on every run, whatever it was attempted
/// against: a retry of one operation is one operation.
pub proof fn a_retry_keys_the_same(collection: Text, a: ChangeKindView, b: ChangeKindView)
    requires
        made_true(a) == made_true(b),
    ensures
        change_key(collection, a) == change_key(collection, b),
{
}

/// A key is sixteen lowercase hexadecimal characters.
pub proof fn a_key_is_sixteen_hexadecimal_characters(collection: Text, kind: ChangeKindView)
    ensures
        change_key(collection, kind).len() == 16,
        forall|i: int|
            0 <= i < 16 ==> ({
                let c = #[trigger] change_key(collection, kind)[i];
                '0' <= c <= '9' || 'a' <= c <= 'f'
            }),
{
    lemma_hex_shape(fnv(keyed_bytes(collection, kind)) as nat, 16);
}

proof fn lemma_hex_shape(n: nat, digits: nat)
    ensures
        hex(n, digits).len() == digits,
        forall|i: int|
            0 <= i < digits ==> ({
                let c = #[trigger] hex(n, digits)[i];
                '0' <= c <= '9' || 'a' <= c <= 'f'
            }),
    decreases digits,
{
    if digits > 0 {
        lemma_hex_shape(n / 16, (digits - 1) as nat);
        let (rest, all) = (hex(n / 16, (digits - 1) as nat), hex(n, digits));
        assert forall|i: int| 0 <= i < digits implies ({
            let c = #[trigger] all[i];
            '0' <= c <= '9' || 'a' <= c <= 'f'
        }) by {
            if i < digits - 1 {
                assert(all[i] == rest[i]);
            }
        }
    }
}

/// Keys tell digests apart: two changes share a key exactly where what they
/// are keyed by digests to the same number.
pub proof fn keys_tell_digests_apart(
    c1: Text,
    k1: ChangeKindView,
    c2: Text,
    k2: ChangeKindView,
)
    ensures
        change_key(c1, k1) == change_key(c2, k2) <==> fnv(keyed_bytes(c1, k1)) == fnv(
            keyed_bytes(c2, k2),
        ),
{
    lemma_hex_tells_apart(fnv(keyed_bytes(c1, k1)), fnv(keyed_bytes(c2, k2)));
}

proof fn lemma_hex_tells_apart(a: u64, b: u64)
    ensures
        hex(a as nat, 16) == hex(b as nat, 16) <==> a == b,
{
    if hex(a as nat, 16) == hex(b as nat, 16) {
        lemma_sixteen_digits();
        lemma_hex_injective(a as nat, b as nat, 16);
    }
}

proof fn lemma_sixteen_digits()
    ensures
        pow(16, 16) == 0x1_0000_0000_0000_0000,
{
    lemma_pow1(16);
    lemma_pow_adds(16, 1, 1);
    lemma_pow_adds(16, 2, 2);
    lemma_pow_adds(16, 4, 4);
    lemma_pow_adds(16, 8, 8);
    let (a, b, c, d) = (pow(16, 2), pow(16, 4), pow(16, 8), pow(16, 16));
    assert(a == 256);
    assert(d == 0x1_0000_0000_0000_0000) by (nonlinear_arith)
        requires
            a == 256,
            b == a * a,
            c == b * b,
            d == c * c,
    ;
}

proof fn lemma_hex_injective(a: nat, b: nat, digits: nat)
    requires
        a < pow(16, digits),
        b < pow(16, digits),
        hex(a, digits) == hex(b, digits),
    ensures
        a == b,
    decreases digits,
{
    if digits == 0 {
        lemma_pow0(16);
    } else {
        let less = (digits - 1) as nat;
        lemma_pow1(16);
        lemma_pow_adds(16, 1, less);
        let (x, y) = (hex(a / 16, less), hex(b / 16, less));
        assert(hex(a, digits).drop_last() =~= x);
        assert(hex(b, digits).drop_last() =~= y);
        assert(hex(a, digits).last() == hex_digit((a % 16) as int));
        assert(hex(b, digits).last() == hex_digit((b % 16) as int));
        assert(a % 16 == b % 16);
        lemma_hex_injective(a / 16, b / 16, less);
    }
}

/// Whether a flag set is one a set of markers can hold.
pub open spec fn is_countable(flags: FlagsView) -> bool {
    flags matches FlagsView::Known(flags) ==> flags.finite() && flags.len() <= usize::MAX
}

/// Whether the flag set a change names is one a set of markers can hold.
pub open spec fn is_countable_change(kind: ChangeKindView) -> bool {
    match kind {
        ChangeKindView::Add { flags, .. } => is_countable(flags),
        ChangeKindView::SetFlags { flags, .. } => is_countable(flags),
        _ => true,
    }
}

/// What is digested tells changes apart: two changes keyed by the same bytes
/// are in the same collection and make the same true.
pub proof fn what_is_digested_tells_changes_apart(
    c1: Text,
    k1: ChangeKindView,
    c2: Text,
    k2: ChangeKindView,
)
    requires
        is_countable_change(k1),
        is_countable_change(k2),
        keyed_bytes(c1, k1) == keyed_bytes(c2, k2),
    ensures
        c1 == c2,
        made_true(k1) == made_true(k2),
{
    let (t1, t2) = (text_field(target(k1)), text_field(target(k2)));
    let (s1, s2) = (target_state(k1), target_state(k2));
    lemma_assoc(text_field(c1), t1, s1);
    lemma_assoc(text_field(c2), t2, s2);
    lemma_text_prefix(c1, t1 + s1, c2, t2 + s2);
    lemma_text_prefix(target(k1), s1, target(k2), s2);
    lemma_state_separates(k1, k2);
}

proof fn lemma_assoc(a: Seq<u8>, b: Seq<u8>, c: Seq<u8>)
    ensures
        a + b + c == a + (b + c),
{
    assert(a + b + c =~= a + (b + c));
}

/// A terminated field is read off unambiguously.
proof fn lemma_field_prefix(a: Seq<u8>, x: Seq<u8>, b: Seq<u8>, y: Seq<u8>)
    requires
        !a.contains(0),
        !b.contains(0),
        field(a) + x == field(b) + y,
    ensures
        a == b,
        x == y,
{
    let (p, q) = (field(a) + x, field(b) + y);
    if a.len() < b.len() {
        assert(p[a.len() as int] == 0);
        assert(q[a.len() as int] == b[a.len() as int]);
        assert(b.contains(b[a.len() as int]));
    } else if b.len() < a.len() {
        assert(q[b.len() as int] == 0);
        assert(p[b.len() as int] == a[b.len() as int]);
        assert(a.contains(a[b.len() as int]));
    } else {
        assert forall|i: int| 0 <= i < a.len() implies a[i] == b[i] by {
            assert(p[i] == a[i] && q[i] == b[i]);
        }
        assert(a =~= b);
        lemma_same_head(field(a), x, field(b), y);
    }
}

proof fn lemma_same_head(a: Seq<u8>, x: Seq<u8>, b: Seq<u8>, y: Seq<u8>)
    requires
        a.len() == b.len(),
        a + x == b + y,
    ensures
        a == b,
        x == y,
{
    let (p, q) = (a + x, b + y);
    assert forall|i: int| 0 <= i < a.len() implies a[i] == b[i] by {
        assert(p[i] == a[i] && q[i] == b[i]);
    }
    assert(a =~= b);
    assert(p.len() == a.len() + x.len());
    assert(q.len() == b.len() + y.len());
    assert forall|i: int| 0 <= i < x.len() implies x[i] == y[i] by {
        assert(p[a.len() + i] == x[i] && q[b.len() + i] == y[i]);
    }
    assert(x =~= y);
}

proof fn lemma_text_prefix(a: Text, x: Seq<u8>, b: Text, y: Seq<u8>)
    requires
        text_field(a) + x == text_field(b) + y,
    ensures
        a == b,
        x == y,
{
    let (p, q) = (encode_utf8(a), encode_utf8(b));
    encode_utf8_valid_utf8(a);
    encode_utf8_valid_utf8(b);
    lemma_text_bytes(p);
    lemma_text_bytes(q);
    lemma_field_prefix(masked(p), x, masked(q), y);
    assert forall|i: int| 0 <= i < p.len() implies p[i] == q[i] by {
        assert(masked(p)[i] == masked(q)[i]);
    }
    assert(p.len() == masked(p).len() && q.len() == masked(q).len());
    assert(p =~= q);
    encode_utf8_decode_utf8(a);
    encode_utf8_decode_utf8(b);
}

/// An encoded text holds no byte that stands for another, and masked it holds
/// no zero.
proof fn lemma_text_bytes(bytes: Seq<u8>)
    requires
        valid_utf8(bytes),
    ensures
        forall|i: int| 0 <= i < bytes.len() ==> #[trigger] bytes[i] != STAND_IN,
        !masked(bytes).contains(0),
    decreases bytes.len(),
{
    if bytes.len() > 0 {
        let n = length_of_first_scalar(bytes);
        let rest = pop_first_scalar(bytes);
        lemma_text_bytes(rest);
        assert forall|i: int| 0 <= i < bytes.len() implies #[trigger] bytes[i] != STAND_IN by {
            if i >= n {
                assert(rest[i - n] == bytes[i]);
            }
        }
    }
}

/// The words the digest marks kinds and presence with differ.
proof fn lemma_words()
    ensures
        "0"@ != "1"@,
        "known"@ != "unknown"@,
        "add"@ != "remove"@,
        "add"@ != "set-flags"@,
        "add"@ != "update"@,
        "remove"@ != "set-flags"@,
        "remove"@ != "update"@,
        "set-flags"@ != "update"@,
{
    reveal_strlit("0");
    reveal_strlit("1");
    reveal_strlit("known");
    reveal_strlit("unknown");
    reveal_strlit("add");
    reveal_strlit("remove");
    reveal_strlit("set-flags");
    reveal_strlit("update");
    assert("0"@[0] == '0');
    assert("1"@[0] == '1');
    assert("remove"@[0] == 'r');
    assert("update"@[0] == 'u');
    assert("known"@.len() == 5);
    assert("set-flags"@.len() == 9);
    assert("add"@.len() == 3);
}

proof fn lemma_option_prefix(a: Option<Text>, x: Seq<u8>, b: Option<Text>, y: Seq<u8>)
    requires
        option_field(a) + x == option_field(b) + y,
    ensures
        a == b,
        x == y,
{
    lemma_words();
    let (zero, one) = (text_field("0"@), text_field("1"@));
    match (a, b) {
        (Some(s), Some(t)) => {
            lemma_assoc(one, text_field(s), x);
            lemma_assoc(one, text_field(t), y);
            lemma_text_prefix("1"@, text_field(s) + x, "1"@, text_field(t) + y);
            lemma_text_prefix(s, x, t, y);
        },
        (Some(s), None) => {
            lemma_assoc(one, text_field(s), x);
            lemma_text_prefix("1"@, text_field(s) + x, "0"@, y);
        },
        (None, Some(t)) => {
            lemma_assoc(one, text_field(t), y);
            lemma_text_prefix("0"@, x, "1"@, text_field(t) + y);
        },
        (None, None) => {
            lemma_text_prefix("0"@, x, "0"@, y);
        },
    }
}

proof fn lemma_texts_prefix(p: Seq<Text>, x: Seq<u8>, q: Seq<Text>, y: Seq<u8>)
    requires
        p.len() == q.len(),
        text_fields(p) + x == text_fields(q) + y,
    ensures
        p == q,
        x == y,
    decreases p.len(),
{
    if p.len() == 0 {
        assert(p =~= q);
        assert(text_fields(p) + x =~= x);
        assert(text_fields(q) + y =~= y);
    } else {
        let (p0, q0) = (p.drop_last(), q.drop_last());
        let (s, t) = (text_field(p.last()), text_field(q.last()));
        lemma_assoc(text_fields(p0), s, x);
        lemma_assoc(text_fields(q0), t, y);
        lemma_texts_prefix(p0, s + x, q0, t + y);
        lemma_text_prefix(p.last(), x, q.last(), y);
        assert(p =~= p0.push(p.last()));
        assert(q =~= q0.push(q.last()));
    }
}

proof fn lemma_le_len(n: nat, width: nat)
    ensures
        le_bytes(n, width).len() == width,
    decreases width,
{
    if width > 0 {
        lemma_le_len(n / 256, (width - 1) as nat);
    }
}

proof fn lemma_le_injective(n: nat, m: nat, width: nat)
    requires
        n < pow(256, width),
        m < pow(256, width),
        le_bytes(n, width) == le_bytes(m, width),
    ensures
        n == m,
    decreases width,
{
    if width == 0 {
        lemma_pow0(256);
    } else {
        let less = (width - 1) as nat;
        lemma_pow1(256);
        lemma_pow_adds(256, 1, less);
        let (a, b) = (le_bytes(n, width), le_bytes(m, width));
        assert(a.drop_first() =~= le_bytes(n / 256, less));
        assert(b.drop_first() =~= le_bytes(m / 256, less));
        assert(a.first() == (n % 256) as u8);
        assert(b.first() == (m % 256) as u8);
        assert(n % 256 == m % 256);
        lemma_le_injective(n / 256, m / 256, less);
    }
}

proof fn lemma_count_injective(n: nat, m: nat)
    requires
        n <= usize::MAX,
        m <= usize::MAX,
        le_bytes(n, count_width()) == le_bytes(m, count_width()),
    ensures
        n == m,
{
    broadcast use layout_of_primitives;

    unsigned_int_max_values();
    assert(size_of::<usize>() == count_width());
    lemma_le_injective(n, m, count_width());
}

proof fn lemma_set_of_ascending(a: Set<Text>, b: Set<Text>)
    requires
        a.finite(),
        b.finite(),
        ascending(a) == ascending(b),
    ensures
        a == b,
{
    lemma_ascending(a);
    lemma_ascending(b);
    assert forall|t: Text| #[trigger] a.contains(t) <==> b.contains(t) by {
        assert(ascending(a).contains(t) <==> a.contains(t));
        assert(ascending(b).contains(t) <==> b.contains(t));
    }
    assert(a =~= b);
}

proof fn lemma_flags_prefix(a: FlagsView, x: Seq<u8>, b: FlagsView, y: Seq<u8>)
    requires
        is_countable(a),
        is_countable(b),
        flags_field(a) + x == flags_field(b) + y,
    ensures
        a == b,
        x == y,
{
    lemma_words();
    let (known, unknown) = (text_field("known"@), text_field("unknown"@));
    match (a, b) {
        (FlagsView::Unknown, FlagsView::Unknown) => {
            lemma_text_prefix("unknown"@, x, "unknown"@, y);
        },
        (FlagsView::Unknown, FlagsView::Known(t)) => {
            let (count, rest) = (field(le_bytes(t.len(), count_width())), ascending(t));
            lemma_assoc(known, count, text_fields(rest));
            lemma_assoc(known, count + text_fields(rest), y);
            lemma_text_prefix("unknown"@, x, "known"@, count + text_fields(rest) + y);
        },
        (FlagsView::Known(s), FlagsView::Unknown) => {
            let (count, rest) = (field(le_bytes(s.len(), count_width())), ascending(s));
            lemma_assoc(known, count, text_fields(rest));
            lemma_assoc(known, count + text_fields(rest), x);
            lemma_text_prefix("known"@, count + text_fields(rest) + x, "unknown"@, y);
        },
        (FlagsView::Known(s), FlagsView::Known(t)) => {
            let (n, m) = (le_bytes(s.len(), count_width()), le_bytes(t.len(), count_width()));
            let (p, q) = (ascending(s), ascending(t));
            lemma_assoc(known, field(n), text_fields(p));
            lemma_assoc(known, field(n) + text_fields(p), x);
            lemma_assoc(known, field(m), text_fields(q));
            lemma_assoc(known, field(m) + text_fields(q), y);
            lemma_text_prefix(
                "known"@,
                field(n) + text_fields(p) + x,
                "known"@,
                field(m) + text_fields(q) + y,
            );
            lemma_assoc(field(n), text_fields(p), x);
            lemma_assoc(field(m), text_fields(q), y);
            lemma_le_len(s.len(), count_width());
            lemma_le_len(t.len(), count_width());
            lemma_same_head(field(n), text_fields(p) + x, field(m), text_fields(q) + y);
            assert(n =~= field(n).drop_last());
            assert(m =~= field(m).drop_last());
            lemma_count_injective(s.len(), t.len());
            lemma_ascending(s);
            lemma_ascending(t);
            lemma_texts_prefix(p, x, q, y);
            lemma_set_of_ascending(s, t);
        },
    }
}

proof fn lemma_origin_prefix(
    a: Option<OriginView>,
    x: Seq<u8>,
    b: Option<OriginView>,
    y: Seq<u8>,
)
    requires
        origin_field(a) + x == origin_field(b) + y,
    ensures
        a == b,
        x == y,
{
    lemma_words();
    let (zero, one) = (text_field("0"@), text_field("1"@));
    match (a, b) {
        (Some(s), Some(t)) => {
            let (s1, s2) = (text_field(s.collection), text_field(s.handle));
            let (t1, t2) = (text_field(t.collection), text_field(t.handle));
            lemma_assoc(one, s1, s2);
            lemma_assoc(one, s1 + s2, x);
            lemma_assoc(one, t1, t2);
            lemma_assoc(one, t1 + t2, y);
            lemma_text_prefix("1"@, s1 + s2 + x, "1"@, t1 + t2 + y);
            lemma_assoc(s1, s2, x);
            lemma_assoc(t1, t2, y);
            lemma_text_prefix(s.collection, s2 + x, t.collection, t2 + y);
            lemma_text_prefix(s.handle, x, t.handle, y);
        },
        (Some(s), None) => {
            let (s1, s2) = (text_field(s.collection), text_field(s.handle));
            lemma_assoc(one, s1, s2);
            lemma_assoc(one, s1 + s2, x);
            lemma_text_prefix("1"@, s1 + s2 + x, "0"@, y);
        },
        (None, Some(t)) => {
            let (t1, t2) = (text_field(t.collection), text_field(t.handle));
            lemma_assoc(one, t1, t2);
            lemma_assoc(one, t1 + t2, y);
            lemma_text_prefix("0"@, x, "1"@, t1 + t2 + y);
        },
        (None, None) => {
            lemma_text_prefix("0"@, x, "0"@, y);
        },
    }
}

/// The word a kind is digested under.
spec fn kind_word(kind: ChangeKindView) -> Text {
    match kind {
        ChangeKindView::Add { .. } => "add"@,
        ChangeKindView::Remove { .. } => "remove"@,
        ChangeKindView::SetFlags { .. } => "set-flags"@,
        ChangeKindView::Update { .. } => "update"@,
    }
}

/// What follows that word.
spec fn kind_rest(kind: ChangeKindView) -> Seq<u8> {
    match kind {
        ChangeKindView::Add { link_id, flags, origin, object, .. } => option_field(link_id) + (
        flags_field(flags) + (origin_field(origin) + option_field(object))),
        ChangeKindView::Remove { to, .. } => option_field(to),
        ChangeKindView::SetFlags { flags, .. } => flags_field(flags),
        ChangeKindView::Update { object, .. } => text_field(object),
    }
}

proof fn lemma_state_split(kind: ChangeKindView)
    ensures
        target_state(kind) == text_field(kind_word(kind)) + kind_rest(kind),
{
    if let ChangeKindView::Add { link_id, flags, origin, object, .. } = kind {
        let word = text_field("add"@);
        let (link, marks) = (option_field(link_id), flags_field(flags));
        let (source, body) = (origin_field(origin), option_field(object));
        lemma_assoc(word + link + marks, source, body);
        lemma_assoc(word + link, marks, source + body);
        lemma_assoc(word, link, marks + (source + body));
    }
}

proof fn lemma_state_separates(k1: ChangeKindView, k2: ChangeKindView)
    requires
        target(k1) == target(k2),
        is_countable_change(k1),
        is_countable_change(k2),
        target_state(k1) == target_state(k2),
    ensures
        made_true(k1) == made_true(k2),
{
    lemma_words();
    lemma_state_split(k1);
    lemma_state_split(k2);
    lemma_text_prefix(kind_word(k1), kind_rest(k1), kind_word(k2), kind_rest(k2));
    let none = Seq::<u8>::empty();
    match (k1, k2) {
        (
            ChangeKindView::Add { link_id: l1, flags: f1, origin: o1, object: b1, .. },
            ChangeKindView::Add { link_id: l2, flags: f2, origin: o2, object: b2, .. },
        ) => {
            let (r1, r2) = (option_field(b1), option_field(b2));
            lemma_option_prefix(
                l1,
                flags_field(f1) + (origin_field(o1) + r1),
                l2,
                flags_field(f2) + (origin_field(o2) + r2),
            );
            lemma_flags_prefix(f1, origin_field(o1) + r1, f2, origin_field(o2) + r2);
            lemma_origin_prefix(o1, r1, o2, r2);
            assert(r1 + none =~= r1);
            assert(r2 + none =~= r2);
            lemma_option_prefix(b1, none, b2, none);
        },
        (ChangeKindView::Remove { to: t1, .. }, ChangeKindView::Remove { to: t2, .. }) => {
            assert(option_field(t1) + none =~= option_field(t1));
            assert(option_field(t2) + none =~= option_field(t2));
            lemma_option_prefix(t1, none, t2, none);
        },
        (
            ChangeKindView::SetFlags { flags: f1, .. },
            ChangeKindView::SetFlags { flags: f2, .. },
        ) => {
            assert(flags_field(f1) + none =~= flags_field(f1));
            assert(flags_field(f2) + none =~= flags_field(f2));
            lemma_flags_prefix(f1, none, f2, none);
        },
        (
            ChangeKindView::Update { object: b1, .. },
            ChangeKindView::Update { object: b2, .. },
        ) => {
            assert(text_field(b1) + none =~= text_field(b1));
            assert(text_field(b2) + none =~= text_field(b2));
            lemma_text_prefix(b1, none, b2, none);
        },
        (_, _) => {},
    }
}

} // verus!
