//! The digest an idempotency key is made of: what is folded in, and how.
//!
//! FNV-1a, sixty-four bits: what an idempotency key needs is determinism,
//! not resistance to a forged collision. Fields are folded in one after
//! the other, each with a terminating zero byte. A zero byte inside a text
//! is folded in as a byte no encoded text holds, so that two different
//! splits of the same bytes digest differently.

use vstd::prelude::*;
use vstd::utf8::encode_utf8;

use crate::order::{ascending, lemma_ascending, Text};
use crate::placement::{FlagsView, ReplicaFlags};

verus! {

/// The digest of no bytes.
pub const OFFSET: u64 = 0xcbf29ce484222325;

/// The factor every byte multiplies the digest by.
pub const PRIME: u64 = 0x100000001b3;

/// Folds one byte into a digest.
pub open spec fn fold_byte(hash: u64, byte: u8) -> u64 {
    (hash ^ (byte as u64)).wrapping_mul(PRIME)
}

/// The digest of `bytes`.
pub open spec fn fnv(bytes: Seq<u8>) -> u64
    decreases bytes.len(),
{
    if bytes.len() == 0 {
        OFFSET
    } else {
        fold_byte(fnv(bytes.drop_last()), bytes.last())
    }
}

/// A field: its bytes, terminated.
pub open spec fn field(bytes: Seq<u8>) -> Seq<u8> {
    bytes.push(0)
}

/// What stands for a zero byte inside a text: no encoded text holds it.
pub const STAND_IN: u8 = 0xff;

/// A byte of a text as it is folded in, never the one that ends a field.
pub open spec fn masked_byte(byte: u8) -> u8 {
    if byte == 0 {
        STAND_IN
    } else {
        byte
    }
}

/// The bytes of a text as they are folded in.
pub open spec fn masked(bytes: Seq<u8>) -> Seq<u8> {
    Seq::new(bytes.len(), |i: int| masked_byte(bytes[i]))
}

/// A field holding a text.
pub open spec fn text_field(text: Text) -> Seq<u8> {
    field(masked(encode_utf8(text)))
}

/// A text that may be absent, a present and an absent one differing.
pub open spec fn option_field(text: Option<Text>) -> Seq<u8> {
    match text {
        Some(text) => text_field("1"@) + text_field(text),
        None => text_field("0"@),
    }
}

/// The fields of several texts, one after the other.
pub open spec fn text_fields(texts: Seq<Text>) -> Seq<u8>
    decreases texts.len(),
{
    if texts.len() == 0 {
        Seq::empty()
    } else {
        text_fields(texts.drop_last()) + text_field(texts.last())
    }
}

/// The lowest `width` bytes of a number, the lowest first.
pub open spec fn le_bytes(n: nat, width: nat) -> Seq<u8>
    decreases width,
{
    if width == 0 {
        Seq::empty()
    } else {
        seq![(n % 256) as u8] + le_bytes(n / 256, (width - 1) as nat)
    }
}

/// How many bytes a count takes.
pub open spec fn count_width() -> nat {
    (usize::BITS / 8) as nat
}

/// A flag set, counted first so a marker cannot pass for the field that
/// follows the set. An unknown set is not an empty one.
pub open spec fn flags_field(flags: FlagsView) -> Seq<u8> {
    match flags {
        FlagsView::Unknown => text_field("unknown"@),
        FlagsView::Known(flags) => text_field("known"@) + field(
            le_bytes(flags.len(), count_width()),
        ) + text_fields(ascending(flags)),
    }
}

/// The lowercase hexadecimal digit of a number below sixteen.
pub open spec fn hex_digit(d: int) -> char {
    if d < 10 {
        (0x30 + d) as char
    } else {
        (0x57 + d) as char
    }
}

/// A number as its lowest `digits` hexadecimal digits, the highest first.
pub open spec fn hex(n: nat, digits: nat) -> Text
    decreases digits,
{
    if digits == 0 {
        Seq::empty()
    } else {
        hex(n / 16, (digits - 1) as nat).push(hex_digit((n % 16) as int))
    }
}

/// The digest in the making, and the bytes folded in so far.
pub struct Digest {
    hash: u64,
    seen: Ghost<Seq<u8>>,
}

impl View for Digest {
    type V = Seq<u8>;

    closed spec fn view(&self) -> Seq<u8> {
        self.seen@
    }
}

impl Digest {
    #[verifier::type_invariant]
    spec fn digests(self) -> bool {
        self.hash == fnv(self.seen@)
    }

    /// The digest of nothing.
    pub fn new() -> (r: Self)
        ensures
            r@ == Seq::<u8>::empty(),
    {
        Digest { hash: OFFSET, seen: Ghost(Seq::empty()) }
    }

    fn byte(self, byte: u8) -> (r: Self)
        ensures
            r@ == self@.push(byte),
    {
        proof {
            use_type_invariant(&self);
            assert(self.seen@.push(byte).drop_last() =~= self.seen@);
        }
        let hash = self.hash ^ (byte as u64);
        Digest { hash: hash.wrapping_mul(PRIME), seen: Ghost(self.seen@.push(byte)) }
    }

    /// Folds one field of a known width in.
    fn field(self, bytes: &[u8]) -> (r: Self)
        ensures
            r@ == self@ + field(bytes@),
    {
        let ghost before = self@;
        let mut digest = self;
        let n = bytes.len();
        let mut i: usize = 0;
        assert(digest@ =~= before + bytes@.take(0));
        while i < n
            invariant
                n == bytes@.len(),
                i <= n,
                digest@ == before + bytes@.take(i as int),
            decreases n - i,
        {
            digest = digest.byte(bytes[i]);
            assert(digest@ =~= before + bytes@.take(i + 1));
            i += 1;
        }
        let digest = digest.byte(0);
        assert(digest@ =~= before + field(bytes@));
        digest
    }

    /// Folds a text in.
    pub fn text(self, text: &str) -> (r: Self)
        ensures
            r@ == self@ + text_field(text@),
    {
        let ghost before = self@;
        let bytes = text.as_bytes();
        let mut digest = self;
        let n = bytes.len();
        let mut i: usize = 0;
        assert(digest@ =~= before + masked(bytes@).take(0));
        while i < n
            invariant
                n == bytes@.len(),
                i <= n,
                digest@ == before + masked(bytes@).take(i as int),
            decreases n - i,
        {
            let byte: u8 = bytes[i];
            digest = digest.byte(if byte == 0 {
                STAND_IN
            } else {
                byte
            });
            assert(digest@ =~= before + masked(bytes@).take(i + 1));
            i += 1;
        }
        let digest = digest.byte(0);
        assert(digest@ =~= before + text_field(text@));
        digest
    }

    /// Folds a text that may be absent in.
    pub fn option(self, text: Option<&str>) -> (r: Self)
        ensures
            r@ == self@ + option_field(
                match text {
                    Some(text) => Some(text@),
                    None => None,
                },
            ),
    {
        match text {
            Some(text) => {
                let r = self.text("1").text(text);
                assert(r@ =~= self@ + (text_field("1"@) + text_field(text@)));
                r
            },
            None => self.text("0"),
        }
    }

    /// Folds a count in.
    fn count(self, count: usize) -> (r: Self)
        ensures
            r@ == self@ + field(le_bytes(count as nat, count_width())),
    {
        let mut bytes: Vec<u8> = Vec::new();
        let width: u32 = usize::BITS / 8;
        let mut rest = count;
        let mut i: u32 = 0;
        assert(bytes@ + le_bytes(rest as nat, count_width()) =~= le_bytes(
            count as nat,
            count_width(),
        ));
        while i < width
            invariant
                i <= width,
                width == count_width(),
                bytes@ + le_bytes(rest as nat, (width - i) as nat) == le_bytes(
                    count as nat,
                    count_width(),
                ),
            decreases width - i,
        {
            let ghost before = bytes@;
            let ghost more = le_bytes(rest as nat / 256, (width - i - 1) as nat);
            let low: usize = rest % 256;
            bytes.push(low as u8);
            assert(before + (seq![(rest as nat % 256) as u8] + more) =~= bytes@ + more);
            rest = rest / 256;
            i += 1;
        }
        assert(bytes@ + le_bytes(rest as nat, 0) =~= bytes@);
        self.field(bytes.as_slice())
    }

    /// Folds a flag set in.
    pub fn flags(self, flags: &ReplicaFlags) -> (r: Self)
        ensures
            r@ == self@ + flags_field(flags@),
    {
        let known = match flags.known() {
            Some(known) => known,
            None => {
                return self.text("unknown");
            },
        };
        let n = known.len();
        let ghost all = ascending(known@);
        proof {
            lemma_ascending(known@);
        }
        let mut digest = self.text("known").count(n);
        let ghost head = digest@;
        assert(digest@ =~= head + text_fields(all.take(0)));
        let mut i: usize = 0;
        while i < n
            invariant
                n == known@.len(),
                n == all.len(),
                i <= n,
                all == ascending(known@),
                digest@ == head + text_fields(all.take(i as int)),
            decreases n - i,
        {
            digest = digest.text(known.at(i).as_str());
            proof {
                assert(all.take(i + 1).drop_last() =~= all.take(i as int));
                assert(digest@ =~= head + text_fields(all.take(i + 1)));
            }
            i += 1;
        }
        assert(all.take(n as int) =~= all);
        assert(digest@ =~= self@ + flags_field(flags@));
        digest
    }

    /// The digest as sixteen hexadecimal digits.
    pub fn finish(self) -> (r: String)
        ensures
            r@ == hex(fnv(self@) as nat, 16),
    {
        proof {
            use_type_invariant(&self);
        }
        let mut out = String::new();
        write_hex(&mut out, self.hash, 16);
        assert(out@ =~= hex(self.hash as nat, 16));
        out
    }
}

fn digit(d: u64) -> (r: &'static str)
    requires
        d < 16,
    ensures
        r@ == seq![hex_digit(d as int)],
{
    proof {
        reveal_strlit("0");
        reveal_strlit("1");
        reveal_strlit("2");
        reveal_strlit("3");
        reveal_strlit("4");
        reveal_strlit("5");
        reveal_strlit("6");
        reveal_strlit("7");
        reveal_strlit("8");
        reveal_strlit("9");
        reveal_strlit("a");
        reveal_strlit("b");
        reveal_strlit("c");
        reveal_strlit("d");
        reveal_strlit("e");
        reveal_strlit("f");
    }
    let r = match d {
        0 => "0",
        1 => "1",
        2 => "2",
        3 => "3",
        4 => "4",
        5 => "5",
        6 => "6",
        7 => "7",
        8 => "8",
        9 => "9",
        10 => "a",
        11 => "b",
        12 => "c",
        13 => "d",
        14 => "e",
        _ => "f",
    };
    assert(r@ =~= seq![hex_digit(d as int)]);
    r
}

fn write_hex(out: &mut String, n: u64, digits: u32)
    ensures
        final(out)@ == old(out)@ + hex(n as nat, digits as nat),
    decreases digits,
{
    if digits > 0 {
        write_hex(out, n / 16, digits - 1);
        out.append(digit(n % 16));
    }
    assert(out@ =~= old(out)@ + hex(n as nat, digits as nat));
}

} // verus!
