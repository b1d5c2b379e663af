use crate::err::ProtocolError;
use crate::wire::{
    lemma_pow128_bounds, lemma_var_acc_bound, lemma_var_acc_unfold, lemma_var_term_idx_bounds,
    position_unpack, pow128, var_acc, var_term_idx,
};
use vstd::prelude::*;
use vstd::utf8::{decode_utf8, valid_utf8};

verus! {

// ===========================================================================
// Packet reading: a cursor over the payload bytes of one inbound packet,
// with typed reads proved against the byte-level wire model.
// ===========================================================================

/// Relies on `String::from_utf8`: it succeeds exactly on valid UTF-8 and
/// decodes it, as modelled by vstd's `valid_utf8` / `decode_utf8`.
#[verifier::external_body]
fn string_from_utf8(bytes: Vec<u8>) -> (r: Option<String>)
    ensures
        r is Some <==> valid_utf8(bytes@),
        r is Some ==> r.unwrap()@ == decode_utf8(bytes@),
{
    String::from_utf8(bytes).ok()
}

/// An inbound packet: its id and a cursor over its payload.
pub struct PacketData {
    pub packet_id: i32,
    pub data: Vec<u8>,
    pub pos: usize,
}

impl PacketData {
    /// The cursor never points past the end of the payload.
    pub open spec fn wf(self) -> bool {
        self.pos <= self.data@.len()
    }

    /// The bytes not yet consumed.
    pub open spec fn remaining(self) -> Seq<u8> {
        self.data@.skip(self.pos as int)
    }

    /// Reads leave the id and the underlying bytes alone; only the cursor
    /// moves, and only forward.
    pub open spec fn advanced_from(self, pre: Self) -> bool {
        &&& self.packet_id == pre.packet_id
        &&& self.data@ == pre.data@
        &&& pre.pos <= self.pos
        &&& self.wf()
    }

    pub fn new(packet_id: i32, data: Vec<u8>) -> (r: Self)
        ensures
            r.wf(),
            r.packet_id == packet_id,
            r.data@ == data@,
            r.pos == 0,
            r.remaining() == data@,
    {
        let r = Self { packet_id, data, pos: 0 };
        proof {
            assert(r.remaining() =~= r.data@);
        }
        r
    }

    pub fn read_ubyte(&mut self) -> (r: Result<u8, ProtocolError>)
        requires
            old(self).wf(),
        ensures
            final(self).advanced_from(*old(self)),
            old(self).remaining().len() > 0 ==> r == Ok::<u8, ProtocolError>(
                old(self).remaining()[0],
            ) && final(self).pos == old(self).pos + 1,
            old(self).remaining().len() == 0 ==> r == Err::<u8, ProtocolError>(ProtocolError::Io)
                && final(self).pos == old(self).pos,
    {
        if self.pos < self.data.len() {
            let b = self.data[self.pos];
            self.pos = self.pos + 1;
            Ok(b)
        } else {
            Err(ProtocolError::Io)
        }
    }

    pub fn read_byte(&mut self) -> (r: Result<i8, ProtocolError>)
        requires
            old(self).wf(),
        ensures
            final(self).advanced_from(*old(self)),
            old(self).remaining().len() > 0 ==> r == Ok::<i8, ProtocolError>(
                old(self).remaining()[0] as i8,
            ) && final(self).pos == old(self).pos + 1,
            old(self).remaining().len() == 0 ==> r == Err::<i8, ProtocolError>(ProtocolError::Io),
    {
        match self.read_ubyte() {
            Ok(b) => Ok(
                #[verifier::truncate]
                (b as i8),
            ),
            Err(e) => Err(e),
        }
    }

    /// A wire bool is one byte; anything nonzero reads as true.
    pub fn read_bool(&mut self) -> (r: Result<bool, ProtocolError>)
        requires
            old(self).wf(),
        ensures
            final(self).advanced_from(*old(self)),
            old(self).remaining().len() > 0 ==> r == Ok::<bool, ProtocolError>(
                old(self).remaining()[0] != 0,
            ) && final(self).pos == old(self).pos + 1,
            old(self).remaining().len() == 0 ==> r == Err::<bool, ProtocolError>(ProtocolError::Io),
    {
        match self.read_ubyte() {
            Ok(b) => Ok(b != 0),
            Err(e) => Err(e),
        }
    }

    pub fn read_ushort(&mut self) -> (r: Result<u16, ProtocolError>)
        requires
            old(self).wf(),
        ensures
            final(self).advanced_from(*old(self)),
            old(self).remaining().len() >= 2 ==> r == Ok::<u16, ProtocolError>(
                (old(self).remaining()[0] as int * 0x100 + old(self).remaining()[1] as int) as u16,
            ) && final(self).pos == old(self).pos + 2,
            old(self).remaining().len() < 2 ==> r == Err::<u16, ProtocolError>(ProtocolError::Io)
                && final(self).pos == old(self).pos,
    {
        if self.data.len() - self.pos >= 2 {
            let b0 = self.data[self.pos];
            let b1 = self.data[self.pos + 1];
            self.pos = self.pos + 2;
            Ok((b0 as u16) * 0x100 + (b1 as u16))
        } else {
            Err(ProtocolError::Io)
        }
    }

    pub fn read_short(&mut self) -> (r: Result<i16, ProtocolError>)
        requires
            old(self).wf(),
        ensures
            final(self).advanced_from(*old(self)),
            old(self).remaining().len() >= 2 ==> r == Ok::<i16, ProtocolError>(
                ((old(self).remaining()[0] as int * 0x100 + old(self).remaining()[1] as int) as u16)
                    as i16,
            ) && final(self).pos == old(self).pos + 2,
            old(self).remaining().len() < 2 ==> r == Err::<i16, ProtocolError>(ProtocolError::Io),
    {
        match self.read_ushort() {
            Ok(v) => Ok(
                #[verifier::truncate]
                (v as i16),
            ),
            Err(e) => Err(e),
        }
    }

    /// The unsigned 32-bit value held by the next four bytes, big-endian.
    pub open spec fn spec_be32(s: Seq<u8>) -> int {
        s[0] as int * 0x100_0000 + s[1] as int * 0x1_0000 + s[2] as int * 0x100 + s[3] as int
    }

    /// The unsigned 64-bit value held by the next eight bytes, big-endian.
    pub open spec fn spec_be64(s: Seq<u8>) -> int {
        s[0] as int * 0x100_0000_0000_0000 + s[1] as int * 0x1_0000_0000_0000 + s[2] as int
            * 0x100_0000_0000 + s[3] as int * 0x1_0000_0000 + s[4] as int * 0x100_0000 + s[5] as int
            * 0x1_0000 + s[6] as int * 0x100 + s[7] as int
    }

    pub fn read_uint(&mut self) -> (r: Result<u32, ProtocolError>)
        requires
            old(self).wf(),
        ensures
            final(self).advanced_from(*old(self)),
            old(self).remaining().len() >= 4 ==> r == Ok::<u32, ProtocolError>(
                Self::spec_be32(old(self).remaining()) as u32,
            ) && final(self).pos == old(self).pos + 4,
            old(self).remaining().len() < 4 ==> r == Err::<u32, ProtocolError>(ProtocolError::Io)
                && final(self).pos == old(self).pos,
    {
        if self.data.len() - self.pos >= 4 {
            let b0 = self.data[self.pos] as u32;
            let b1 = self.data[self.pos + 1] as u32;
            let b2 = self.data[self.pos + 2] as u32;
            let b3 = self.data[self.pos + 3] as u32;
            self.pos = self.pos + 4;
            Ok(b0 * 0x100_0000 + b1 * 0x1_0000 + b2 * 0x100 + b3)
        } else {
            Err(ProtocolError::Io)
        }
    }

    pub fn read_int(&mut self) -> (r: Result<i32, ProtocolError>)
        requires
            old(self).wf(),
        ensures
            final(self).advanced_from(*old(self)),
            old(self).remaining().len() >= 4 ==> r == Ok::<i32, ProtocolError>(
                (Self::spec_be32(old(self).remaining()) as u32) as i32,
            ) && final(self).pos == old(self).pos + 4,
            old(self).remaining().len() < 4 ==> r == Err::<i32, ProtocolError>(ProtocolError::Io),
    {
        match self.read_uint() {
            Ok(v) => Ok(
                #[verifier::truncate]
                (v as i32),
            ),
            Err(e) => Err(e),
        }
    }

    pub fn read_ulong(&mut self) -> (r: Result<u64, ProtocolError>)
        requires
            old(self).wf(),
        ensures
            final(self).advanced_from(*old(self)),
            old(self).remaining().len() >= 8 ==> r == Ok::<u64, ProtocolError>(
                Self::spec_be64(old(self).remaining()) as u64,
            ) && final(self).pos == old(self).pos + 8,
            old(self).remaining().len() < 8 ==> r == Err::<u64, ProtocolError>(ProtocolError::Io)
                && final(self).pos == old(self).pos,
    {
        if self.data.len() - self.pos >= 8 {
            let b0 = self.data[self.pos] as u64;
            let b1 = self.data[self.pos + 1] as u64;
            let b2 = self.data[self.pos + 2] as u64;
            let b3 = self.data[self.pos + 3] as u64;
            let b4 = self.data[self.pos + 4] as u64;
            let b5 = self.data[self.pos + 5] as u64;
            let b6 = self.data[self.pos + 6] as u64;
            let b7 = self.data[self.pos + 7] as u64;
            self.pos = self.pos + 8;
            Ok(
                b0 * 0x100_0000_0000_0000 + b1 * 0x1_0000_0000_0000 + b2 * 0x100_0000_0000 + b3
                    * 0x1_0000_0000 + b4 * 0x100_0000 + b5 * 0x1_0000 + b6 * 0x100 + b7,
            )
        } else {
            Err(ProtocolError::Io)
        }
    }

    pub fn read_long(&mut self) -> (r: Result<i64, ProtocolError>)
        requires
            old(self).wf(),
        ensures
            final(self).advanced_from(*old(self)),
            old(self).remaining().len() >= 8 ==> r == Ok::<i64, ProtocolError>(
                (Self::spec_be64(old(self).remaining()) as u64) as i64,
            ) && final(self).pos == old(self).pos + 8,
            old(self).remaining().len() < 8 ==> r == Err::<i64, ProtocolError>(ProtocolError::Io),
    {
        match self.read_ulong() {
            Ok(v) => Ok(
                #[verifier::truncate]
                (v as i64),
            ),
            Err(e) => Err(e),
        }
    }

    /// A UUID on the wire: most significant half first, big-endian.
    pub fn read_uuid(&mut self) -> (r: Result<u128, ProtocolError>)
        requires
            old(self).wf(),
        ensures
            final(self).advanced_from(*old(self)),
            old(self).remaining().len() >= 16 ==> r == Ok::<u128, ProtocolError>(
                (Self::spec_be64(old(self).remaining()) * 0x1_0000_0000_0000_0000 + Self::spec_be64(
                    old(self).remaining().skip(8),
                )) as u128,
            ) && final(self).pos == old(self).pos + 16,
            old(self).remaining().len() < 16 ==> r == Err::<u128, ProtocolError>(ProtocolError::Io),
    {
        let ghost s = old(self).remaining();
        let msb = match self.read_ulong() {
            Ok(v) => v,
            Err(e) => { return Err(e) },
        };
        proof {
            if s.len() >= 8 {
                assert(self.remaining() =~= s.skip(8));
            }
        }
        let lsb = match self.read_ulong() {
            Ok(v) => v,
            Err(e) => { return Err(e) },
        };
        Ok((msb as u128) * 0x1_0000_0000_0000_0000 + (lsb as u128))
    }

    /// Hands back every byte the cursor has not consumed.
    pub fn read_remaining(&mut self) -> (r: Vec<u8>)
        requires
            old(self).wf(),
        ensures
            final(self).advanced_from(*old(self)),
            r@ == old(self).remaining(),
            final(self).remaining().len() == 0,
    {
        let ghost s = old(self).remaining();
        let mut out: Vec<u8> = Vec::new();
        while self.pos < self.data.len()
            invariant
                self.wf(),
                self.advanced_from(*old(self)),
                out@ + self.remaining() == s,
            decreases self.data@.len() - self.pos,
        {
            out.push(self.data[self.pos]);
            self.pos = self.pos + 1;
            proof {
                assert(out@ + self.remaining() =~= s);
            }
        }
        proof {
            assert(self.remaining() =~= Seq::<u8>::empty());
            assert(out@ =~= s);
        }
        out
    }

    /// Reads up to `budget` VarInt groups; the protocol reads at most five
    /// whatever the width of the value (a quirk kept from the wire format's
    /// observed use: every field in use fits in five groups).
    fn read_var_core(&mut self, budget: u8) -> (r: Result<u64, ProtocolError>)
        requires
            old(self).wf(),
            1 <= budget <= 5,
        ensures
            final(self).advanced_from(*old(self)),
            ({
                let s = old(self).remaining();
                let idx = var_term_idx(s);
                &&& (idx < budget && idx < s.len()) ==> r == Ok::<u64, ProtocolError>(
                    var_acc(s.take(idx + 1)) as u64,
                ) && final(self).pos == old(self).pos + idx + 1
                &&& (idx >= budget && s.len() >= budget) ==> r == Err::<u64, ProtocolError>(
                    ProtocolError::VarIntTooLong,
                )
                &&& (idx >= s.len() && s.len() < budget) ==> r == Err::<u64, ProtocolError>(
                    ProtocolError::Io,
                )
            }),
            r is Ok ==> r.unwrap() < pow128(budget as nat),
        decreases budget,
    {
        let ghost s = old(self).remaining();
        proof {
            lemma_var_term_idx_bounds(s);
        }
        let b = match self.read_ubyte() {
            Ok(b) => b,
            Err(_) => { return Err(ProtocolError::Io) },
        };
        if b < 0x80 {
            proof {
                assert(var_term_idx(s) == 0);
                assert(s.take(1)[0] == s[0]);
                assert(s.take(1).skip(1) =~= Seq::<u8>::empty());
                assert(var_acc(Seq::<u8>::empty()) == 0);
                assert(var_acc(s.take(1)) == s.take(1)[0] as int % 0x80 + 0x80 * var_acc(
                    s.take(1).skip(1),
                ));
                assert(var_acc(s.take(1)) == b as int % 0x80);
                reveal_with_fuel(pow128, 2);
                assert(pow128(1) == 128);
                lemma_pow128_bounds(budget as nat);
            }
            Ok(b as u64)
        } else if budget == 1 {
            proof {
                lemma_var_term_idx_bounds(s.skip(1));
                assert(var_term_idx(s) >= 1);
            }
            Err(ProtocolError::VarIntTooLong)
        } else {
            let ghost s2 = s.skip(1);
            proof {
                assert(self.remaining() =~= s2);
                lemma_var_term_idx_bounds(s2);
                assert(var_term_idx(s) == 1 + var_term_idx(s2));
            }
            match self.read_var_core(budget - 1) {
                Ok(rest) => {
                    proof {
                        let idx2 = var_term_idx(s2);
                        lemma_var_acc_bound(s2.take(idx2 + 1));
                        reveal_with_fuel(pow128, 6);
                        assert(pow128(5) == 0x8_0000_0000);
                        assert(pow128(4) == 0x1000_0000);
                        assert(pow128(3) == 0x20_0000);
                        assert(pow128(2) == 0x4000);
                        assert(pow128(1) == 0x80);
                        lemma_pow128_bounds((budget - 1) as nat);
                        assert(pow128(budget as nat) == 128 * pow128((budget - 1) as nat));
                        lemma_var_acc_unfold(s, idx2 + 2);
                        lemma_var_acc_bound(s.take(idx2 + 2));
                    }
                    Ok((b % 0x80) as u64 + 0x80 * rest)
                },
                Err(e) => Err(e),
            }
        }
    }

    /// Reads a VarInt: at most five groups, the value truncated to 32 bits
    /// exactly as the accumulating reader does.
    pub fn read_var_int(&mut self) -> (r: Result<i32, ProtocolError>)
        requires
            old(self).wf(),
        ensures
            final(self).advanced_from(*old(self)),
            ({
                let s = old(self).remaining();
                let idx = var_term_idx(s);
                &&& (idx < 5 && idx < s.len()) ==> r == Ok::<i32, ProtocolError>(
                    ((var_acc(s.take(idx + 1)) as u64 as u32) as i32),
                ) && final(self).pos == old(self).pos + idx + 1
                &&& (idx >= 5 && s.len() >= 5) ==> r == Err::<i32, ProtocolError>(
                    ProtocolError::VarIntTooLong,
                )
                &&& (idx >= s.len() && s.len() < 5) ==> r == Err::<i32, ProtocolError>(
                    ProtocolError::Io,
                )
            }),
    {
        match self.read_var_core(5) {
            Ok(v) => Ok(
                #[verifier::truncate]
                ((v as u32) as i32),
            ),
            Err(e) => Err(e),
        }
    }

    /// Reads a length-prefixed UTF-8 string of at most `max_len` bytes.
    pub fn read_string(&mut self, max_len: i32) -> (r: Result<String, ProtocolError>)
        requires
            old(self).wf(),
            max_len >= 0,
        ensures
            final(self).advanced_from(*old(self)),
            ({
                let s = old(self).remaining();
                let idx = var_term_idx(s);
                &&& (idx >= 5 && s.len() >= 5) ==> r == Err::<String, ProtocolError>(
                    ProtocolError::VarIntTooLong,
                )
                &&& (idx >= s.len() && s.len() < 5) ==> r == Err::<String, ProtocolError>(
                    ProtocolError::Io,
                )
                &&& (idx < 5 && idx < s.len()) ==> ({
                    let length = (var_acc(s.take(idx + 1)) as u64 as u32) as i32;
                    let body = s.skip(idx + 1);
                    &&& length > max_len ==> r == Err::<String, ProtocolError>(
                        ProtocolError::StringTooLong(length, max_len),
                    ) && final(self).pos == old(self).pos + idx + 1
                    &&& length < 0 ==> r == Err::<String, ProtocolError>(ProtocolError::Io)
                        && final(self).pos == old(self).pos + idx + 1
                    &&& (0 <= length <= max_len && body.len() < length) ==> r == Err::<
                        String,
                        ProtocolError,
                    >(ProtocolError::Io) && final(self).pos == old(self).pos + idx + 1
                    &&& (0 <= length <= max_len && body.len() >= length) ==> ({
                        let bytes = body.take(length as int);
                        &&& valid_utf8(bytes) ==> r is Ok && r.unwrap()@ == decode_utf8(bytes)
                            && final(self).pos == old(self).pos + idx + 1 + length
                        &&& !valid_utf8(bytes) ==> r == Err::<String, ProtocolError>(
                            ProtocolError::InvalidUtf8,
                        ) && final(self).pos == old(self).pos + idx + 1 + length
                    })
                })
            }),
    {
        let ghost s = old(self).remaining();
        let ghost idx = var_term_idx(s);
        let length = match self.read_var_int() {
            Ok(v) => v,
            Err(e) => { return Err(e) },
        };
        if length > max_len {
            return Err(ProtocolError::StringTooLong(length, max_len));
        }
        if length < 0 {
            return Err(ProtocolError::Io);
        }
        let ghost body = s.skip(idx + 1);
        proof {
            assert(self.remaining() =~= body);
        }
        let len = length as usize;
        if self.data.len() - self.pos < len {
            return Err(ProtocolError::Io);
        }
        let ghost bytes = body.take(length as int);
        let start = self.pos;
        let dlen = self.data.len();
        let mut buf: Vec<u8> = Vec::new();
        for i in 0..len
            invariant
                self.wf(),
                dlen == self.data@.len(),
                start + len <= dlen,
                self.pos == start,
                buf@ =~= self.data@.subrange(start as int, start + i),
        {
            buf.push(self.data[start + i]);
            proof {
                assert(buf@ =~= self.data@.subrange(start as int, start + i + 1));
            }
        }
        self.pos = start + len;
        proof {
            assert(buf@ =~= bytes);
        }
        match string_from_utf8(buf) {
            Some(st) => Ok(st),
            None => Err(ProtocolError::InvalidUtf8),
        }
    }

    /// Reads a packed position word and splits it into its fields: x from
    /// the top 26 bits, z from the 12 bits above the low 26, y from the low
    /// 26 bits, each sign-extended.
    pub fn read_position(&mut self) -> (r: Result<(i32, i32, i32), ProtocolError>)
        requires
            old(self).wf(),
        ensures
            final(self).advanced_from(*old(self)),
            old(self).remaining().len() >= 8 ==> r == Ok::<(i32, i32, i32), ProtocolError>(
                position_unpack(Self::spec_be64(old(self).remaining()) as u64),
            ) && final(self).pos == old(self).pos + 8,
            old(self).remaining().len() < 8 ==> r == Err::<(i32, i32, i32), ProtocolError>(
                ProtocolError::Io,
            ),
    {
        let w = match self.read_ulong() {
            Ok(v) => v,
            Err(e) => { return Err(e) },
        };
        let xf: u64 = w / 0x40_0000_0000;
        let zf: u64 = (w / 0x1000) % 0x1000;
        let yf: u64 = w % 0x1000;
        let x: i32 = if xf >= 0x200_0000 {
            (xf as i64 - 0x400_0000) as i32
        } else {
            xf as i32
        };
        let z: i32 = if zf >= 0x800 {
            (zf as i64 - 0x1000) as i32
        } else {
            zf as i32
        };
        let y: i32 = if yf >= 0x800 {
            (yf as i64 - 0x1000) as i32
        } else {
            yf as i32
        };
        Ok((x, y, z))
    }

    /// Reads a VarLong. The group cap stays at five — a quirk kept from the
    /// observed wire format — so values above 35 bits cannot be read back.
    pub fn read_var_long(&mut self) -> (r: Result<i64, ProtocolError>)
        requires
            old(self).wf(),
        ensures
            final(self).advanced_from(*old(self)),
            ({
                let s = old(self).remaining();
                let idx = var_term_idx(s);
                &&& (idx < 5 && idx < s.len()) ==> r == Ok::<i64, ProtocolError>(
                    (var_acc(s.take(idx + 1)) as u64) as i64,
                ) && final(self).pos == old(self).pos + idx + 1
                &&& (idx >= 5 && s.len() >= 5) ==> r == Err::<i64, ProtocolError>(
                    ProtocolError::VarIntTooLong,
                )
                &&& (idx >= s.len() && s.len() < 5) ==> r == Err::<i64, ProtocolError>(
                    ProtocolError::Io,
                )
            }),
    {
        match self.read_var_core(5) {
            Ok(v) => {
                proof {
                    reveal_with_fuel(pow128, 6);
                    assert(pow128(5) == 0x8_0000_0000);
                }
                Ok(v as i64)
            },
            Err(e) => Err(e),
        }
    }
}

} // verus!
