use vstd::arithmetic::div_mod::{lemma_div_nonincreasing, lemma_div_pos_is_pos, lemma_fundamental_div_mod};
use vstd::prelude::*;

verus! {

// ===========================================================================
// Byte-level wire model.
//
// Every multi-byte scalar on the wire is big-endian. VarInts are LSB-first
// base-128 with the high bit of each byte as a continuation flag.
// The spec functions below give the exact byte sequences; the executable
// readers and writers are proved against them.
// ===========================================================================

/// 128^n, the place value of the n-th 7-bit group of a VarInt.
pub open spec fn pow128(n: nat) -> int
    decreases n,
{
    if n == 0 {
        1
    } else {
        128 * pow128((n - 1) as nat)
    }
}

/// The two's-complement bit pattern of an `i32`.
pub open spec fn i32_bits(v: i32) -> u32 {
    v as u32
}

/// The two's-complement bit pattern of an `i64`.
pub open spec fn i64_bits(v: i64) -> u64 {
    v as u64
}

/// The two's-complement bit pattern of an `i16`.
pub open spec fn i16_bits(v: i16) -> u16 {
    v as u16
}

/// The two's-complement bit pattern of an `i8`.
pub open spec fn i8_bits(v: i8) -> u8 {
    v as u8
}

/// Big-endian bytes of a `u16`.
pub open spec fn u16_be_bytes(v: u16) -> Seq<u8> {
    seq![(v as int / 0x100) as u8, (v as int % 0x100) as u8]
}

/// Big-endian bytes of a `u32`.
pub open spec fn u32_be_bytes(v: u32) -> Seq<u8> {
    seq![
        (v as int / 0x100_0000) as u8,
        ((v as int / 0x1_0000) % 0x100) as u8,
        ((v as int / 0x100) % 0x100) as u8,
        (v as int % 0x100) as u8,
    ]
}

/// Big-endian bytes of a `u64`.
pub open spec fn u64_be_bytes(v: u64) -> Seq<u8> {
    seq![
        (v as int / 0x100_0000_0000_0000) as u8,
        ((v as int / 0x1_0000_0000_0000) % 0x100) as u8,
        ((v as int / 0x100_0000_0000) % 0x100) as u8,
        ((v as int / 0x1_0000_0000) % 0x100) as u8,
        ((v as int / 0x100_0000) % 0x100) as u8,
        ((v as int / 0x1_0000) % 0x100) as u8,
        ((v as int / 0x100) % 0x100) as u8,
        (v as int % 0x100) as u8,
    ]
}

/// Wire bytes of a UUID: the most significant 64 bits, then the least.
pub open spec fn uuid_be_bytes(v: u128) -> Seq<u8> {
    u64_be_bytes((v as int / 0x1_0000_0000_0000_0000) as u64) + u64_be_bytes(
        (v as int % 0x1_0000_0000_0000_0000) as u64,
    )
}

/// VarInt encoding of a 32-bit pattern: 7 bits per byte, LSB first,
/// high bit set on every byte but the last.
pub open spec fn var_u32_bytes(v: u32) -> Seq<u8>
    decreases v,
{
    if v < 0x80 {
        seq![v as u8]
    } else {
        seq![(v as int % 0x80 + 0x80) as u8] + var_u32_bytes((v as int / 0x80) as u32)
    }
}

/// VarLong encoding of a 64-bit pattern.
pub open spec fn var_u64_bytes(v: u64) -> Seq<u8>
    decreases v,
{
    if v < 0x80 {
        seq![v as u8]
    } else {
        seq![(v as int % 0x80 + 0x80) as u8] + var_u64_bytes((v as int / 0x80) as u64)
    }
}

/// Index of the first byte without the continuation bit, or `s.len()` if
/// every byte of `s` has it set.
pub open spec fn var_term_idx(s: Seq<u8>) -> int
    decreases s.len(),
{
    if s.len() == 0 {
        0
    } else if s[0] < 0x80 {
        0
    } else {
        1 + var_term_idx(s.skip(1))
    }
}

/// The integer held by a sequence of VarInt groups: the low 7 bits of each
/// byte, least significant group first.
pub open spec fn var_acc(s: Seq<u8>) -> int
    decreases s.len(),
{
    if s.len() == 0 {
        0
    } else {
        (s[0] as int % 0x80) + 0x80 * var_acc(s.skip(1))
    }
}

/// Splits a packed position word into `(x, y, z)`: x from the top 26 bits,
/// z from the next 12, y from the low 12, each sign-extended. (The write
/// side masks y to 26 bits, so the y and z fields can overlap; reading y
/// from the low 12 bits matches the words the writer produces for y values
/// that fit the field.)
pub open spec fn position_unpack(w: u64) -> (i32, i32, i32) {
    let xf = w as int / 0x40_0000_0000;
    let zf = (w as int / 0x1000) % 0x1000;
    let yf = w as int % 0x1000;
    let x = if xf >= 0x200_0000 {
        xf - 0x400_0000
    } else {
        xf
    };
    let z = if zf >= 0x800 {
        zf - 0x1000
    } else {
        zf
    };
    let y = if yf >= 0x800 {
        yf - 0x1000
    } else {
        yf
    };
    (x as i32, y as i32, z as i32)
}

// ===========================================================================
// Facts about the VarInt model.
// ===========================================================================

pub proof fn lemma_var_u32_len(v: u32)
    ensures
        1 <= var_u32_bytes(v).len() <= 5,
        v < 0x20_0000 ==> var_u32_bytes(v).len() <= 3,
        v < 0x80 ==> var_u32_bytes(v).len() == 1,
{
    lemma_var_u32_len_aux(v);
}

proof fn lemma_var_u32_len_aux(v: u32)
    ensures
        1 <= var_u32_bytes(v).len() <= 5,
        v < 0x1000_0000 ==> var_u32_bytes(v).len() <= 4,
        v < 0x20_0000 ==> var_u32_bytes(v).len() <= 3,
        v < 0x4000 ==> var_u32_bytes(v).len() <= 2,
        v < 0x80 ==> var_u32_bytes(v).len() <= 1,
    decreases v,
{
    if v >= 0x80 {
        lemma_var_u32_len_aux((v as int / 0x80) as u32);
    }
}

/// Every byte before the last of a VarInt encoding has the continuation bit;
/// the last does not; and the groups reassemble to the encoded value.
pub proof fn lemma_var_u32_parse(v: u32)
    ensures
        var_term_idx(var_u32_bytes(v)) == var_u32_bytes(v).len() - 1,
        var_acc(var_u32_bytes(v)) == v,
        forall|i: int|
            0 <= i < var_u32_bytes(v).len() - 1 ==> #[trigger] var_u32_bytes(v)[i] >= 0x80,
        var_u32_bytes(v)[var_u32_bytes(v).len() - 1] < 0x80,
    decreases v,
{
    if v < 0x80 {
        assert(var_u32_bytes(v) == seq![v as u8]);
        let s = var_u32_bytes(v);
        assert(s.skip(1) =~= Seq::<u8>::empty());
        assert(s.len() == 1);
        assert(s[0] == v as u8);
        assert(var_acc(s.skip(1)) == 0);
        assert(var_acc(s) == (s[0] as int % 0x80) + 0x80 * var_acc(s.skip(1)));
        assert(s[0] as int % 0x80 == v as int);
        assert(var_acc(var_u32_bytes(v)) == v);
    } else {
        let rest = (v as int / 0x80) as u32;
        lemma_var_u32_parse(rest);
        let s = var_u32_bytes(v);
        assert(s.skip(1) == var_u32_bytes(rest));
        assert(s[0] == (v as int % 0x80 + 0x80) as u8);
        assert(s[0] as int % 0x80 == v as int % 0x80);
        assert(var_acc(s) == s[0] as int % 0x80 + 0x80 * var_acc(s.skip(1)));
        lemma_div_pos_is_pos(v as int, 0x80);
        lemma_div_nonincreasing(v as int, 0x80);
        assert(rest as int == v as int / 0x80);
        lemma_fundamental_div_mod(v as int, 0x80);
        assert(var_acc(s.skip(1)) == rest as int);
        assert(var_acc(s) == v as int % 0x80 + 0x80 * (v as int / 0x80));
        assert(var_acc(s) == v as int);
    }
}

pub proof fn lemma_var_u64_len(v: u64)
    ensures
        1 <= var_u64_bytes(v).len() <= 10,
{
    lemma_var_u64_len_aux(v);
}

proof fn lemma_var_u64_len_aux(v: u64)
    ensures
        1 <= var_u64_bytes(v).len() <= 10,
        v < 0x8000_0000_0000_0000 ==> var_u64_bytes(v).len() <= 9,
        v < 0x100_0000_0000_0000 ==> var_u64_bytes(v).len() <= 8,
        v < 0x2_0000_0000_0000 ==> var_u64_bytes(v).len() <= 7,
        v < 0x400_0000_0000 ==> var_u64_bytes(v).len() <= 6,
        v < 0x8_0000_0000 ==> var_u64_bytes(v).len() <= 5,
        v < 0x1000_0000 ==> var_u64_bytes(v).len() <= 4,
        v < 0x20_0000 ==> var_u64_bytes(v).len() <= 3,
        v < 0x4000 ==> var_u64_bytes(v).len() <= 2,
        v < 0x80 ==> var_u64_bytes(v).len() <= 1,
    decreases v,
{
    if v >= 0x80 {
        lemma_var_u64_len_aux((v as int / 0x80) as u64);
    }
}

pub proof fn lemma_var_u64_parse(v: u64)
    ensures
        var_term_idx(var_u64_bytes(v)) == var_u64_bytes(v).len() - 1,
        var_acc(var_u64_bytes(v)) == v,
    decreases v,
{
    if v < 0x80 {
        assert(var_u64_bytes(v) == seq![v as u8]);
        let s = var_u64_bytes(v);
        assert(s.skip(1) =~= Seq::<u8>::empty());
        assert(s.len() == 1);
        assert(s[0] == v as u8);
        assert(var_acc(s.skip(1)) == 0);
        assert(var_acc(s) == (s[0] as int % 0x80) + 0x80 * var_acc(s.skip(1)));
        assert(s[0] as int % 0x80 == v as int);
        assert(var_acc(var_u64_bytes(v)) == v);
    } else {
        let rest = (v as int / 0x80) as u64;
        lemma_var_u64_parse(rest);
        let s = var_u64_bytes(v);
        assert(s.skip(1) == var_u64_bytes(rest));
        assert(s[0] == (v as int % 0x80 + 0x80) as u8);
        assert(s[0] as int % 0x80 == v as int % 0x80);
        assert(var_acc(s) == s[0] as int % 0x80 + 0x80 * var_acc(s.skip(1)));
        lemma_div_pos_is_pos(v as int, 0x80);
        lemma_div_nonincreasing(v as int, 0x80);
        assert(rest as int == v as int / 0x80);
        lemma_fundamental_div_mod(v as int, 0x80);
        assert(var_acc(s.skip(1)) == rest as int);
        assert(var_acc(s) == v as int % 0x80 + 0x80 * (v as int / 0x80));
        assert(var_acc(s) == v as int);
    }
}

/// The place values are positive and grow with the index.
pub proof fn lemma_pow128_bounds(n: nat)
    ensures
        pow128(n) >= 1,
        n >= 1 ==> pow128(n) >= 128,
        n <= 1 ==> pow128(n) <= 0x80,
        n <= 2 ==> pow128(n) <= 0x4000,
        n <= 3 ==> pow128(n) <= 0x20_0000,
        n <= 4 ==> pow128(n) <= 0x1000_0000,
        n <= 5 ==> pow128(n) <= 0x8_0000_0000,
    decreases n,
{
    if n > 0 {
        lemma_pow128_bounds((n - 1) as nat);
    }
}

/// One step of a VarInt parse: reading the first byte and recursing on the
/// rest, within the first `n` bytes.
pub proof fn lemma_var_acc_unfold(s: Seq<u8>, n: int)
    requires
        1 <= n <= s.len(),
    ensures
        var_acc(s.take(n)) == s[0] as int % 0x80 + 0x80 * var_acc(s.skip(1).take(n - 1)),
{
    assert(s.take(n)[0] == s[0]);
    assert(s.take(n).skip(1) =~= s.skip(1).take(n - 1));
    assert(var_acc(s.take(n)) == s.take(n)[0] as int % 0x80 + 0x80 * var_acc(s.take(n).skip(1)));
}

/// A sequence of continuation bytes alone has no terminator.
pub proof fn lemma_var_term_idx_all_cont(s: Seq<u8>)
    requires
        forall|i: int| 0 <= i < s.len() ==> s[i] >= 0x80,
    ensures
        var_term_idx(s) == s.len(),
    decreases s.len(),
{
    if s.len() > 0 {
        assert(forall|i: int| 0 <= i < s.skip(1).len() ==> #[trigger] s.skip(1)[i] == s[i + 1]);
        lemma_var_term_idx_all_cont(s.skip(1));
    }
}

/// The terminator search stays within the sequence.
pub proof fn lemma_var_term_idx_bounds(s: Seq<u8>)
    ensures
        0 <= var_term_idx(s) <= s.len(),
    decreases s.len(),
{
    if s.len() > 0 && s[0] >= 0x80 {
        lemma_var_term_idx_bounds(s.skip(1));
    }
}

/// The term index and the accumulated value of a parse depend only on the
/// bytes up to the terminator: appending bytes after it changes nothing.
pub proof fn lemma_var_parse_extend(s: Seq<u8>, t: Seq<u8>)
    requires
        var_term_idx(s) < s.len(),
    ensures
        var_term_idx(s + t) == var_term_idx(s),
        var_acc((s + t).take(var_term_idx(s) + 1)) == var_acc(s.take(var_term_idx(s) + 1)),
    decreases s.len(),
{
    if s.len() > 0 {
        if s[0] < 0x80 {
            assert((s + t).take(1) == s.take(1));
            assert(s.take(1).skip(1) == Seq::<u8>::empty());
            assert((s + t).take(1).skip(1) == Seq::<u8>::empty());
        } else {
            lemma_var_term_idx_bounds(s.skip(1));
            lemma_var_parse_extend(s.skip(1), t);
            assert((s + t).skip(1) =~= s.skip(1) + t);
            let i = var_term_idx(s);
            assert forall|j: int| 0 <= j < i implies (s + t).take(i + 1).skip(1)[j] == (s.skip(1)
                + t).take(i)[j] by {
                assert((s + t).take(i + 1).skip(1)[j] == (s + t).take(i + 1)[j + 1]);
                assert((s + t).take(i + 1)[j + 1] == (s + t)[j + 1]);
                assert((s + t)[j + 1] == s[j + 1]);
                assert((s.skip(1) + t).take(i)[j] == (s.skip(1) + t)[j]);
                assert((s.skip(1) + t)[j] == s.skip(1)[j]);
                assert(s.skip(1)[j] == s[j + 1]);
            }
            assert((s + t).take(i + 1).skip(1) =~= (s.skip(1) + t).take(i));
            assert forall|j: int| 0 <= j < i implies s.take(i + 1).skip(1)[j] == s.skip(1).take(
                i,
            )[j] by {
                assert(s.take(i + 1).skip(1)[j] == s.take(i + 1)[j + 1]);
                assert(s.take(i + 1)[j + 1] == s[j + 1]);
                assert(s.skip(1).take(i)[j] == s.skip(1)[j]);
                assert(s.skip(1)[j] == s[j + 1]);
            }
            assert(s.take(i + 1).skip(1) =~= s.skip(1).take(i));
            assert((s + t).take(i + 1)[0] == s[0]);
            assert(s.take(i + 1)[0] == s[0]);
        }
    }
}

/// The value held by VarInt groups is bounded by the place value past the end.
pub proof fn lemma_var_acc_bound(s: Seq<u8>)
    ensures
        0 <= var_acc(s) < pow128(s.len()),
    decreases s.len(),
{
    if s.len() > 0 {
        lemma_var_acc_bound(s.skip(1));
    }
}

} // verus!
