use crate::err::ProtocolError;
use crate::wire::{
    i16_bits, i32_bits, i64_bits, i8_bits, u16_be_bytes, u32_be_bytes, u64_be_bytes,
    uuid_be_bytes, var_u32_bytes, var_u64_bytes,
};
use vstd::prelude::*;
use vstd::utf8::encode_utf8;

verus! {

// ===========================================================================
// Packet writing: an accumulating byte buffer with typed appends, each
// proved to add exactly the wire bytes of the written value.
// ===========================================================================

/// The single byte that carries a `bool` on the wire.
pub open spec fn bool_byte(b: bool) -> u8 {
    if b {
        1
    } else {
        0
    }
}

/// VarInt bytes of a signed 32-bit value (encoded via its bit pattern).
pub open spec fn i32_var_bytes(v: i32) -> Seq<u8> {
    var_u32_bytes(i32_bits(v))
}

/// VarLong bytes of a signed 64-bit value (encoded via its bit pattern).
pub open spec fn i64_var_bytes(v: i64) -> Seq<u8> {
    var_u64_bytes(i64_bits(v))
}

/// Wire bytes of a string: a VarInt byte count, then the UTF-8 bytes.
pub open spec fn string_bytes(s: Seq<char>) -> Seq<u8> {
    var_u32_bytes(encode_utf8(s).len() as u32) + encode_utf8(s)
}

/// The concatenated images of a sequence under a byte-producing function.
pub open spec fn concat_bytes<A>(s: Seq<A>, f: spec_fn(A) -> Seq<u8>) -> Seq<u8>
    decreases s.len(),
{
    if s.len() == 0 {
        Seq::empty()
    } else {
        f(s[0]) + concat_bytes(s.skip(1), f)
    }
}

pub proof fn lemma_concat_bytes_add<A>(a: Seq<A>, b: Seq<A>, f: spec_fn(A) -> Seq<u8>)
    ensures
        concat_bytes(a + b, f) == concat_bytes(a, f) + concat_bytes(b, f),
    decreases a.len(),
{
    if a.len() == 0 {
        assert(a + b =~= b);
        assert(concat_bytes(a, f) =~= Seq::empty());
        assert(concat_bytes(a, f) + concat_bytes(b, f) =~= concat_bytes(b, f));
    } else {
        lemma_concat_bytes_add(a.skip(1), b, f);
        assert((a + b).skip(1) =~= a.skip(1) + b);
        assert((a + b)[0] == a[0]);
        assert(concat_bytes(a + b, f) == f(a[0]) + concat_bytes(a.skip(1) + b, f));
        assert(f(a[0]) + (concat_bytes(a.skip(1), f) + concat_bytes(b, f)) =~= (f(a[0])
            + concat_bytes(a.skip(1), f)) + concat_bytes(b, f));
    }
}

pub proof fn lemma_concat_bytes_snoc<A>(s: Seq<A>, f: spec_fn(A) -> Seq<u8>, i: int)
    requires
        0 <= i < s.len(),
    ensures
        concat_bytes(s.take(i + 1), f) == concat_bytes(s.take(i), f) + f(s[i]),
{
    let single = seq![s[i]];
    assert(s.take(i + 1) =~= s.take(i) + single);
    lemma_concat_bytes_add(s.take(i), single, f);
    assert(single.skip(1) =~= Seq::<A>::empty());
    assert(concat_bytes(single, f) == f(s[i]) + concat_bytes(single.skip(1), f));
    assert(f(s[i]) + Seq::<u8>::empty() =~= f(s[i]));
}

/// The ghost values of a string list.
pub open spec fn strings_view(arr: Seq<String>) -> Seq<Seq<char>> {
    Seq::new(arr.len(), |i: int| arr[i]@)
}

pub proof fn lemma_concat_bytes_len<A>(s: Seq<A>, f: spec_fn(A) -> Seq<u8>, k: int)
    requires
        k >= 0,
        forall|i: int| 0 <= i < s.len() ==> (#[trigger] f(s[i])).len() <= k,
    ensures
        concat_bytes(s, f).len() <= s.len() * k,
    decreases s.len(),
{
    if s.len() > 0 {
        assert(forall|i: int|
            0 <= i < s.skip(1).len() ==> (#[trigger] s.skip(1)[i]) == s[i + 1]);
        lemma_concat_bytes_len(s.skip(1), f, k);
        assert(f(s[0]).len() <= k);
        assert(k + (s.len() - 1) * k <= s.len() * k) by (nonlinear_arith)
            requires
                k >= 0,
                s.len() >= 1,
        ;
    }
}

/// Wire bytes of a string array: a VarInt element count, then each string.
pub open spec fn string_arr_bytes(arr: Seq<Seq<char>>) -> Seq<u8> {
    var_u32_bytes((arr.len() as i32 as int % 0x1_0000_0000) as u32) + concat_bytes(
        arr,
        |s: Seq<char>| string_bytes(s),
    )
}

/// Wire bytes of a `u64` array: a VarInt element count, then each element
/// big-endian.
pub open spec fn ulong_array_bytes(arr: Seq<u64>) -> Seq<u8> {
    var_u32_bytes((arr.len() as i32 as int % 0x1_0000_0000) as u32) + concat_bytes(
        arr,
        |v: u64| u64_be_bytes(v),
    )
}

/// The packed position word: x in the top 26 bits, z in the 12 bits above
/// the low 26, y in the low 26 bits (so the y and z fields overlap, as the
/// wire format of this protocol version has it).
pub open spec fn position_word(x: i32, y: i32, z: i32) -> u64 {
    ((sext64(x) & 0x3FF_FFFF) << 38) | ((sext64(z) & 0xFFF) << 12) | (sext64(y) & 0x3FF_FFFF)
}

/// The 64-bit two's-complement pattern of an `i32`.
pub open spec fn sext64(v: i32) -> u64 {
    v as u64
}

// ===========================================================================
// Low-level appends to a byte buffer.
// ===========================================================================

pub fn write_bytes_to(out: &mut Vec<u8>, bytes: &[u8])
    ensures
        final(out)@ == old(out)@ + bytes@,
{
    let ghost start = out@;
    for i in 0..bytes.len()
        invariant
            out@ == start + bytes@.take(i as int),
    {
        out.push(bytes[i]);
        assert(start + bytes@.take(i as int) + seq![bytes@[i as int]] =~= start + bytes@.take(
            i as int + 1,
        ));
    }
    assert(start + bytes@.take(bytes@.len() as int) =~= start + bytes@);
}

pub fn write_u16_be(out: &mut Vec<u8>, v: u16)
    ensures
        final(out)@ == old(out)@ + u16_be_bytes(v),
{
    out.push((v / 0x100) as u8);
    out.push((v % 0x100) as u8);
    assert(out@ =~= old(out)@ + u16_be_bytes(v));
}

pub fn write_u32_be(out: &mut Vec<u8>, v: u32)
    ensures
        final(out)@ == old(out)@ + u32_be_bytes(v),
{
    out.push((v / 0x100_0000) as u8);
    out.push(((v / 0x1_0000) % 0x100) as u8);
    out.push(((v / 0x100) % 0x100) as u8);
    out.push((v % 0x100) as u8);
    assert(out@ =~= old(out)@ + u32_be_bytes(v));
}

pub fn write_u64_be(out: &mut Vec<u8>, v: u64)
    ensures
        final(out)@ == old(out)@ + u64_be_bytes(v),
{
    out.push((v / 0x100_0000_0000_0000) as u8);
    out.push(((v / 0x1_0000_0000_0000) % 0x100) as u8);
    out.push(((v / 0x100_0000_0000) % 0x100) as u8);
    out.push(((v / 0x1_0000_0000) % 0x100) as u8);
    out.push(((v / 0x100_0000) % 0x100) as u8);
    out.push(((v / 0x1_0000) % 0x100) as u8);
    out.push(((v / 0x100) % 0x100) as u8);
    out.push((v % 0x100) as u8);
    assert(out@ =~= old(out)@ + u64_be_bytes(v));
}

pub fn write_var_u32(out: &mut Vec<u8>, v: u32)
    ensures
        final(out)@ == old(out)@ + var_u32_bytes(v),
{
    let mut x: u32 = v;
    while x >= 0x80
        invariant
            old(out)@ + var_u32_bytes(v) == out@ + var_u32_bytes(x),
        decreases x,
    {
        out.push((x % 0x80 + 0x80) as u8);
        assert(var_u32_bytes(x) == seq![(x as int % 0x80 + 0x80) as u8] + var_u32_bytes(
            (x as int / 0x80) as u32,
        ));
        assert(out@ + var_u32_bytes((x as int / 0x80) as u32) =~= old(out)@ + var_u32_bytes(v));
        x = x / 0x80;
    }
    out.push(x as u8);
    assert(var_u32_bytes(x) =~= seq![x as u8]);
    assert(out@ =~= old(out)@ + var_u32_bytes(v));
}

pub fn write_var_u64(out: &mut Vec<u8>, v: u64)
    ensures
        final(out)@ == old(out)@ + var_u64_bytes(v),
{
    let mut x: u64 = v;
    while x >= 0x80
        invariant
            old(out)@ + var_u64_bytes(v) == out@ + var_u64_bytes(x),
        decreases x,
    {
        out.push((x % 0x80 + 0x80) as u8);
        assert(var_u64_bytes(x) == seq![(x as int % 0x80 + 0x80) as u8] + var_u64_bytes(
            (x as int / 0x80) as u64,
        ));
        assert(out@ + var_u64_bytes((x as int / 0x80) as u64) =~= old(out)@ + var_u64_bytes(v));
        x = x / 0x80;
    }
    out.push(x as u8);
    assert(var_u64_bytes(x) =~= seq![x as u8]);
    assert(out@ =~= old(out)@ + var_u64_bytes(v));
}

pub fn write_var_i32(out: &mut Vec<u8>, v: i32)
    ensures
        final(out)@ == old(out)@ + i32_var_bytes(v),
{
    let x: u32 = #[verifier::truncate] (v as u32);
    proof {
        assert(x == i32_bits(v));
    }
    write_var_u32(out, x);
}

// ===========================================================================
// The outgoing packet buffer.
// ===========================================================================

/// An outgoing packet: a packet id and the payload bytes built so far.
/// The frame codec prepends the length and the id when the packet is sent.
pub struct PacketPayload {
    pub packet_id: i32,
    pub data: Vec<u8>,
}

impl PacketPayload {
    pub fn new(packet_id: i32) -> (r: Self)
        ensures
            r.packet_id == packet_id,
            r.data@ == Seq::<u8>::empty(),
    {
        Self { packet_id, data: Vec::new() }
    }

    pub fn with_capacity(packet_id: i32, capacity: usize) -> (r: Self)
        ensures
            r.packet_id == packet_id,
            r.data@ == Seq::<u8>::empty(),
    {
        Self { packet_id, data: Vec::with_capacity(capacity) }
    }

    pub fn write_bytes(&mut self, bytes: &[u8])
        ensures
            final(self).packet_id == old(self).packet_id,
            final(self).data@ == old(self).data@ + bytes@,
    {
        write_bytes_to(&mut self.data, bytes);
    }

    pub fn write_bool(&mut self, b: bool)
        ensures
            final(self).packet_id == old(self).packet_id,
            final(self).data@ == old(self).data@ + seq![bool_byte(b)],
    {
        self.data.push(if b {
            1
        } else {
            0
        });
        assert(final(self).data@ =~= old(self).data@ + seq![bool_byte(b)]);
    }

    pub fn write_ubyte(&mut self, v: u8)
        ensures
            final(self).packet_id == old(self).packet_id,
            final(self).data@ == old(self).data@ + seq![v],
    {
        self.data.push(v);
        assert(final(self).data@ =~= old(self).data@ + seq![v]);
    }

    pub fn write_byte(&mut self, v: i8)
        ensures
            final(self).packet_id == old(self).packet_id,
            final(self).data@ == old(self).data@ + seq![i8_bits(v)],
    {
        let x: u8 = #[verifier::truncate] (v as u8);
        proof {
            assert(x == i8_bits(v));
        }
        self.data.push(x);
        assert(final(self).data@ =~= old(self).data@ + seq![i8_bits(v)]);
    }

    pub fn write_ushort(&mut self, v: u16)
        ensures
            final(self).packet_id == old(self).packet_id,
            final(self).data@ == old(self).data@ + u16_be_bytes(v),
    {
        write_u16_be(&mut self.data, v);
    }

    pub fn write_short(&mut self, v: i16)
        ensures
            final(self).packet_id == old(self).packet_id,
            final(self).data@ == old(self).data@ + u16_be_bytes(i16_bits(v)),
    {
        let x: u16 = #[verifier::truncate] (v as u16);
        proof {
            assert(x == i16_bits(v));
        }
        write_u16_be(&mut self.data, x);
    }

    pub fn write_int(&mut self, v: i32)
        ensures
            final(self).packet_id == old(self).packet_id,
            final(self).data@ == old(self).data@ + u32_be_bytes(i32_bits(v)),
    {
        let x: u32 = #[verifier::truncate] (v as u32);
        proof {
            assert(x == i32_bits(v));
        }
        write_u32_be(&mut self.data, x);
    }

    pub fn write_uint_be(&mut self, v: u32)
        ensures
            final(self).packet_id == old(self).packet_id,
            final(self).data@ == old(self).data@ + u32_be_bytes(v),
    {
        write_u32_be(&mut self.data, v);
    }

    pub fn write_ulong(&mut self, v: u64)
        ensures
            final(self).packet_id == old(self).packet_id,
            final(self).data@ == old(self).data@ + u64_be_bytes(v),
    {
        write_u64_be(&mut self.data, v);
    }

    pub fn write_long(&mut self, v: i64)
        ensures
            final(self).packet_id == old(self).packet_id,
            final(self).data@ == old(self).data@ + u64_be_bytes(i64_bits(v)),
    {
        let x: u64 = #[verifier::truncate] (v as u64);
        proof {
            assert(x == i64_bits(v));
        }
        write_u64_be(&mut self.data, x);
    }

    pub fn write_var_int(&mut self, v: i32)
        ensures
            final(self).packet_id == old(self).packet_id,
            final(self).data@ == old(self).data@ + i32_var_bytes(v),
    {
        write_var_i32(&mut self.data, v);
    }

    pub fn write_var_long(&mut self, v: i64)
        ensures
            final(self).packet_id == old(self).packet_id,
            final(self).data@ == old(self).data@ + i64_var_bytes(v),
    {
        let x: u64 = #[verifier::truncate] (v as u64);
        proof {
            assert(x == i64_bits(v));
        }
        write_var_u64(&mut self.data, x);
    }

    pub fn write_uuid(&mut self, v: u128)
        ensures
            final(self).packet_id == old(self).packet_id,
            final(self).data@ == old(self).data@ + uuid_be_bytes(v),
    {
        let msb: u64 = (v / 0x1_0000_0000_0000_0000) as u64;
        let lsb: u64 = (v % 0x1_0000_0000_0000_0000) as u64;
        write_u64_be(&mut self.data, msb);
        write_u64_be(&mut self.data, lsb);
        assert(final(self).data@ =~= old(self).data@ + uuid_be_bytes(v));
    }

    pub fn write_position(&mut self, x: i32, y: i32, z: i32)
        ensures
            final(self).packet_id == old(self).packet_id,
            final(self).data@ == old(self).data@ + u64_be_bytes(position_word(x, y, z)),
    {
        let xs: u64 = #[verifier::truncate] (x as u64);
        let ys: u64 = #[verifier::truncate] (y as u64);
        let zs: u64 = #[verifier::truncate] (z as u64);
        proof {
            assert(xs == sext64(x));
            assert(ys == sext64(y));
            assert(zs == sext64(z));
        }
        let xm: u64 = xs & 0x3FF_FFFF;
        let ym: u64 = ys & 0x3FF_FFFF;
        let zm: u64 = zs & 0xFFF;
        let word: u64 = (xm << 38) | (zm << 12) | ym;
        write_u64_be(&mut self.data, word);
    }

    /// Writes a length-prefixed UTF-8 string, refusing one whose encoding
    /// exceeds `max_len` bytes.
    pub fn write_string(&mut self, s: &str, max_len: i32) -> (r: Result<(), ProtocolError>)
        requires
            max_len >= 0,
            encode_utf8(s@).len() <= 0x7fff_ffff,
        ensures
            final(self).packet_id == old(self).packet_id,
            encode_utf8(s@).len() > max_len ==> r == Err::<(), ProtocolError>(
                ProtocolError::StringTooLong(encode_utf8(s@).len() as i32, max_len),
            ) && final(self).data@ == old(self).data@,
            encode_utf8(s@).len() <= max_len ==> r == Ok::<(), ProtocolError>(()) && final(self).data@ == old(self).data@ + string_bytes(s@),
    {
        let bytes = s.as_bytes();
        let length = bytes.len();
        if length > max_len as usize {
            return Err(ProtocolError::StringTooLong(length as i32, max_len));
        }
        write_var_u32(&mut self.data, length as u32);
        write_bytes_to(&mut self.data, bytes);
        assert(final(self).data@ =~= old(self).data@ + string_bytes(s@));
        Ok(())
    }

    /// Writes a VarInt element count and then each string, capped at the
    /// protocol-wide string limit.
    pub fn write_string_arr(&mut self, arr: &Vec<String>)
        requires
            arr@.len() <= 0x7fff_ffff,
            forall|i: int|
                0 <= i < arr@.len() ==> #[trigger] encode_utf8(arr@[i]@).len() <= 32767,
        ensures
            final(self).packet_id == old(self).packet_id,
            final(self).data@ == old(self).data@ + string_arr_bytes(strings_view(arr@)),
    {
        let ghost strs = strings_view(arr@);
        let ghost f = |s: Seq<char>| string_bytes(s);
        let n = arr.len();
        self.write_var_int(n as i32);
        let ghost start = self.data@;
        proof {
            assert(i32_bits(n as i32) == (strs.len() as i32 as int % 0x1_0000_0000) as u32);
            assert(concat_bytes(strs.take(0), f) =~= Seq::<u8>::empty());
            assert(start + concat_bytes(strs.take(0), f) =~= start);
        }
        for i in 0..n
            invariant
                n == arr@.len(),
                strs == strings_view(arr@),
                f == (|s: Seq<char>| string_bytes(s)),
                forall|j: int|
                    0 <= j < arr@.len() ==> #[trigger] encode_utf8(arr@[j]@).len() <= 32767,
                self.packet_id == old(self).packet_id,
                self.data@ == start + concat_bytes(strs.take(i as int), f),
        {
            let res = self.write_string(&arr[i], 32767);
            proof {
                lemma_concat_bytes_snoc(strs, f, i as int);
            }
        }
        proof {
            assert(strs.take(n as int) =~= strs);
            assert(start + concat_bytes(strs, f) =~= old(self).data@ + string_arr_bytes(strs));
        }
    }

    /// Writes a VarInt element count and then each element big-endian.
    pub fn write_ulong_array(&mut self, arr: &Vec<u64>)
        requires
            arr@.len() <= 0x7fff_ffff,
        ensures
            final(self).packet_id == old(self).packet_id,
            final(self).data@ == old(self).data@ + ulong_array_bytes(arr@),
    {
        let ghost f = |v: u64| u64_be_bytes(v);
        let n = arr.len();
        self.write_var_int(n as i32);
        let ghost start = self.data@;
        proof {
            assert(i32_bits(n as i32) == (arr@.len() as i32 as int % 0x1_0000_0000) as u32);
            assert(concat_bytes(arr@.take(0), f) =~= Seq::<u8>::empty());
            assert(start + concat_bytes(arr@.take(0), f) =~= start);
        }
        for i in 0..n
            invariant
                n == arr@.len(),
                f == (|v: u64| u64_be_bytes(v)),
                self.packet_id == old(self).packet_id,
                self.data@ == start + concat_bytes(arr@.take(i as int), f),
        {
            self.write_ulong(arr[i]);
            proof {
                lemma_concat_bytes_snoc(arr@, f, i as int);
            }
        }
        proof {
            assert(arr@.take(n as int) =~= arr@);
            assert(start + concat_bytes(arr@, f) =~= old(self).data@ + ulong_array_bytes(arr@));
        }
    }
}

} // verus!
