use crate::frame::frame_bytes;
use crate::parse::{sp_string, Parse};
use crate::wire::{
    i32_bits, lemma_var_parse_extend, lemma_var_term_idx_all_cont, lemma_var_u32_len,
    lemma_var_u32_parse, position_unpack, var_acc, var_term_idx, var_u32_bytes,
};
use crate::writer::{i32_var_bytes, position_word, string_bytes};
use vstd::prelude::*;
use vstd::utf8::{encode_utf8, encode_utf8_decode_utf8, encode_utf8_valid_utf8};

verus! {

// ===========================================================================
// Round-trip laws of the wire codec: what was written reads back, whatever
// follows it on the stream.
// ===========================================================================

/// Law: a written VarInt parses back to the value it encoded, in one to
/// five bytes, with anything at all after it on the stream.
pub proof fn lemma_var_int_round_trip(v: i32, rest: Seq<u8>)
    ensures
        ({
            let enc = i32_var_bytes(v);
            let s = enc + rest;
            &&& 1 <= enc.len() <= 5
            &&& var_term_idx(s) == enc.len() - 1
            &&& var_term_idx(s) < 5 && var_term_idx(s) < s.len()
            &&& ((var_acc(s.take(var_term_idx(s) + 1)) as u64 as u32) as i32) == v
        }),
{
    let bits = i32_bits(v);
    let enc = i32_var_bytes(v);
    lemma_var_u32_len(bits);
    lemma_var_u32_parse(bits);
    lemma_var_parse_extend(enc, rest);
    let s = enc + rest;
    assert(enc.take(enc.len() as int) =~= enc);
    assert(var_acc(s.take(var_term_idx(s) + 1)) == bits);
    assert(((v as u32) as u64 as u32) as i32 == v) by (bit_vector);
}

/// Law: a written string parses back unchanged when its byte length is
/// within the reader's limit; the whole encoding is consumed.
pub proof fn lemma_string_round_trip(t: Seq<char>, max_len: i32, rest: Seq<u8>)
    requires
        0 <= max_len,
        encode_utf8(t).len() <= max_len,
    ensures
        match sp_string(string_bytes(t) + rest, max_len) {
            Parse::Done { v, used } => v == t && used == string_bytes(t).len(),
            Parse::Fail { e } => false,
        },
{
    let bytes = encode_utf8(t);
    let len = bytes.len() as int;
    let lu: u32 = len as u32;
    let lenc = var_u32_bytes(lu);
    let s = string_bytes(t) + rest;
    assert(string_bytes(t) == lenc + bytes);
    assert(s =~= lenc + (bytes + rest));
    lemma_var_u32_len(lu);
    lemma_var_u32_parse(lu);
    lemma_var_parse_extend(lenc, bytes + rest);
    let idx = var_term_idx(s);
    assert(idx == lenc.len() - 1);
    assert(lenc.take(lenc.len() as int) =~= lenc);
    assert(var_acc(s.take(idx + 1)) == lu);
    assert(lu < 0x8000_0000 ==> ((lu as u64 as u32) as i32) == lu) by (bit_vector);
    let length = (var_acc(s.take(idx + 1)) as u64 as u32) as i32;
    assert(length == len);
    assert(s.skip(idx + 1) =~= bytes + rest);
    assert(s.skip(idx + 1).take(len) =~= bytes);
    encode_utf8_valid_utf8(t);
    encode_utf8_decode_utf8(t);
}

/// Law: packing in-range coordinates into a position word and unpacking it
/// gives them back. The writer masks y to 26 bits, so the y and z fields
/// of this wire format overlap: the law holds for y within the low half of
/// the twelve-bit field (y = 2048, read back as signed, already fails, as
/// does any negative y).
pub proof fn lemma_position_round_trip(x: i32, y: i32, z: i32)
    requires
        -0x200_0000 <= x < 0x200_0000,
        0 <= y < 0x800,
        -0x800 <= z < 0x800,
    ensures
        position_unpack(position_word(x, y, z)) == (x, y, z),
{
    let w = position_word(x, y, z);
    assert((w / 0x40_0000_0000u64) as int == (if x >= 0 {
        x as int
    } else {
        x + 0x400_0000
    })) by (bit_vector)
        requires
            w == position_word(x, y, z),
            -0x200_0000 <= x < 0x200_0000,
            0 <= y < 0x800,
            -0x800 <= z < 0x800,
    ;
    assert(((w / 0x1000u64) % 0x1000) as int == (if z >= 0 {
        z as int
    } else {
        z + 0x1000
    })) by (bit_vector)
        requires
            w == position_word(x, y, z),
            -0x200_0000 <= x < 0x200_0000,
            0 <= y < 0x800,
            -0x800 <= z < 0x800,
    ;
    assert((w % 0x1000u64) as int == y) by (bit_vector)
        requires
            w == position_word(x, y, z),
            -0x200_0000 <= x < 0x200_0000,
            0 <= y < 0x800,
            -0x800 <= z < 0x800,
    ;
    assert(w as int / 0x40_0000_0000 == (w / 0x40_0000_0000u64) as int);
    assert((w as int / 0x1000) % 0x1000 == ((w / 0x1000u64) % 0x1000) as int);
    assert(w as int % 0x1000 == (w % 0x1000u64) as int);
    assert(position_unpack(w).0 == x);
    assert(position_unpack(w).1 == y);
    assert(position_unpack(w).2 == z);
}

// ===========================================================================
// Frame codec laws: decode undoes encode, and a split stream first reports
// that it needs more data, never something else.
// ===========================================================================

/// Law: the framed bytes of a packet, followed by anything, decode to that
/// packet: the length prefix reads back, the frame body splits into the
/// packet id and the payload, and exactly the frame is consumed.
pub proof fn lemma_frame_round_trip(packet_id: i32, payload: Seq<u8>, rest: Seq<u8>)
    requires
        i32_var_bytes(packet_id).len() + payload.len() <= 0x1f_ffff,
    ensures
        ({
            let fb = frame_bytes(packet_id, payload);
            let s = fb + rest;
            let idx = var_term_idx(s);
            let frame_len = var_acc(s.take(idx + 1));
            let frame = s.skip(idx + 1).take(frame_len);
            let fidx = var_term_idx(frame);
            &&& idx < 3 && idx < s.len()
            &&& frame_len == i32_var_bytes(packet_id).len() + payload.len()
            &&& s.len() - (idx + 1) >= frame_len
            &&& fidx < 5 && fidx < frame.len()
            &&& ((var_acc(frame.take(fidx + 1)) as u64 as u32) as i32) == packet_id
            &&& frame.skip(fidx + 1) == payload
            &&& idx + 1 + frame_len == fb.len()
            &&& s.skip(idx + 1 + frame_len) == rest
        }),
{
    let id_bytes = i32_var_bytes(packet_id);
    let ln = id_bytes.len() + payload.len();
    let li: i32 = ln as i32;
    assert(li == ln);
    let lu: u32 = i32_bits(li);
    assert(li >= 0 ==> (li as u32) == li) by (bit_vector);
    assert(lu == ln);
    let lenc = i32_var_bytes(ln as i32);
    let fb = frame_bytes(packet_id, payload);
    assert(fb == lenc + id_bytes + payload);
    let s = fb + rest;
    assert(s =~= lenc + (id_bytes + payload + rest));
    lemma_var_u32_len(lu);
    lemma_var_u32_parse(lu);
    lemma_var_parse_extend(lenc, id_bytes + payload + rest);
    let idx = var_term_idx(s);
    assert(idx == lenc.len() - 1);
    assert(lenc.take(lenc.len() as int) =~= lenc);
    assert(var_acc(s.take(idx + 1)) == lu);
    let frame_len = var_acc(s.take(idx + 1));
    assert(s.skip(idx + 1) =~= id_bytes + payload + rest);
    let frame = s.skip(idx + 1).take(frame_len);
    assert(frame =~= id_bytes + payload);
    lemma_var_int_round_trip(packet_id, payload);
    let fidx = var_term_idx(frame);
    assert(frame.skip(fidx + 1) =~= payload);
    assert(s.skip(idx + 1 + frame_len) =~= rest);
}

/// Law: any strict prefix of a framed packet decodes to "need more data":
/// either the length prefix is still incomplete, or the body has not fully
/// arrived. Feeding a split stream can therefore never mis-decode a frame.
pub proof fn lemma_frame_prefix_needs_more(packet_id: i32, payload: Seq<u8>, k: int)
    requires
        i32_var_bytes(packet_id).len() + payload.len() <= 0x1f_ffff,
        0 <= k < frame_bytes(packet_id, payload).len(),
    ensures
        ({
            let s = frame_bytes(packet_id, payload).take(k);
            let idx = var_term_idx(s);
            ||| (idx >= s.len() && s.len() < 3)
            ||| (idx < 3 && idx < s.len() && s.len() - (idx + 1) < var_acc(s.take(idx + 1)))
        }),
{
    let id_bytes = i32_var_bytes(packet_id);
    let ln = id_bytes.len() + payload.len();
    let li: i32 = ln as i32;
    assert(li == ln);
    let lu: u32 = i32_bits(li);
    assert(li >= 0 ==> (li as u32) == li) by (bit_vector);
    assert(lu == ln);
    let lenc = i32_var_bytes(ln as i32);
    let fb = frame_bytes(packet_id, payload);
    assert(fb == lenc + id_bytes + payload);
    lemma_var_u32_len(lu);
    lemma_var_u32_parse(lu);
    let s = fb.take(k);
    if k < lenc.len() {
        // Inside the length prefix: every byte so far has the continuation
        // bit, so there is no terminator yet, and fewer than three bytes.
        assert(forall|i: int| 0 <= i < k ==> s[i] == lenc[i]);
        assert(forall|i: int| 0 <= i < k ==> s[i] >= 0x80);
        lemma_var_term_idx_all_cont(s);
    } else {
        // The length is known but the body is short.
        assert(s =~= lenc + fb.subrange(lenc.len() as int, k));
        lemma_var_parse_extend(lenc, fb.subrange(lenc.len() as int, k));
        let idx = var_term_idx(s);
        assert(idx == lenc.len() - 1);
        assert(lenc.take(lenc.len() as int) =~= lenc);
        assert(var_acc(s.take(idx + 1)) == lu);
        assert(s.len() - (idx + 1) == k - lenc.len());
        assert(k - lenc.len() < ln);
    }
}

} // verus!
