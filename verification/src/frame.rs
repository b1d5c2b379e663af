use crate::err::ProtocolError;
use crate::reader::PacketData;
use crate::wire::{lemma_var_term_idx_bounds, var_acc, var_term_idx};
use crate::writer::{i32_var_bytes, write_bytes_to, write_var_i32, PacketPayload};
use vstd::prelude::*;

verus! {

// ===========================================================================
// The frame codec: length-prefixed frames over a byte stream. A frame is a
// VarInt total length, then a VarInt packet id, then the payload. The
// inbound length prefix is capped at three VarInt groups, which caps frames
// at 2^21 - 1 bytes.
// ===========================================================================

/// The framed bytes of one outgoing packet.
pub open spec fn frame_bytes(packet_id: i32, payload: Seq<u8>) -> Seq<u8> {
    let id_bytes = i32_var_bytes(packet_id);
    i32_var_bytes((id_bytes.len() + payload.len()) as i32) + id_bytes + payload
}

pub struct MinecraftFramedCodec;

impl MinecraftFramedCodec {
    /// Frames one outgoing packet onto the stream buffer: a VarInt of the
    /// id-plus-payload byte count, the VarInt packet id, and the payload.
    pub fn encode(&self, item: &PacketPayload, dst: &mut Vec<u8>)
        requires
            i32_var_bytes(item.packet_id).len() + item.data@.len() <= 0x7fff_ffff,
        ensures
            final(dst)@ == old(dst)@ + frame_bytes(item.packet_id, item.data@),
    {
        let mut id_data: Vec<u8> = Vec::new();
        write_var_i32(&mut id_data, item.packet_id);
        let length = id_data.len() + item.data.len();
        write_var_i32(dst, length as i32);
        write_bytes_to(dst, id_data.as_slice());
        write_bytes_to(dst, item.data.as_slice());
        assert(final(dst)@ =~= old(dst)@ + frame_bytes(item.packet_id, item.data@));
    }

    /// Tries to split one frame off the front of the stream buffer.
    ///
    /// Returns `Ok(None)` when the buffer does not yet hold a whole frame
    /// (the buffer is left alone); on success the consumed bytes are removed
    /// and the packet is handed back as an id plus a payload cursor.
    pub fn decode(&self, src: &mut Vec<u8>) -> (r: Result<
        Option<PacketData>,
        ProtocolError,
    >)
        ensures
            ({
                let s = old(src)@;
                let idx = var_term_idx(s);
                &&& (idx >= 3 && s.len() >= 3) ==> r == Err::<Option<PacketData>, ProtocolError>(
                    ProtocolError::VarIntTooLong,
                ) && final(src)@ == s
                &&& (idx >= s.len() && s.len() < 3) ==> r == Ok::<
                    Option<PacketData>,
                    ProtocolError,
                >(None) && final(src)@ == s
                &&& (idx < 3 && idx < s.len()) ==> ({
                    let frame_len = var_acc(s.take(idx + 1));
                    &&& s.len() - (idx + 1) < frame_len ==> r == Ok::<
                        Option<PacketData>,
                        ProtocolError,
                    >(None) && final(src)@ == s
                    &&& s.len() - (idx + 1) >= frame_len ==> ({
                        let frame = s.skip(idx + 1).take(frame_len);
                        let fidx = var_term_idx(frame);
                        &&& (fidx < 5 && fidx < frame.len()) ==> r is Ok && r.unwrap() is Some && ({
                            let pd = r.unwrap().unwrap();
                            &&& pd.wf()
                            &&& pd.packet_id == (var_acc(frame.take(fidx + 1)) as u64 as u32) as i32
                            &&& pd.remaining() == frame.skip(fidx + 1)
                        }) && final(src)@ == s.skip(idx + 1 + frame_len)
                        &&& (fidx >= 5 && frame.len() >= 5) ==> r == Err::<
                            Option<PacketData>,
                            ProtocolError,
                        >(ProtocolError::VarIntTooLong) && final(src)@ == s
                        &&& (fidx >= frame.len() && frame.len() < 5) ==> r == Err::<
                            Option<PacketData>,
                            ProtocolError,
                        >(ProtocolError::Io) && final(src)@ == s
                    })
                })
            }),
    {
        let ghost s = src@;
        let n = src.len();
        proof {
            lemma_var_term_idx_bounds(s);
        }
        // Find the end of the length VarInt within the first three bytes.
        let idx: usize;
        if n == 0 {
            return Ok(None);
        }
        let b0 = src[0];
        if b0 < 0x80 {
            idx = 0;
        } else {
            proof {
                lemma_var_term_idx_bounds(s.skip(1));
                assert(var_term_idx(s) == 1 + var_term_idx(s.skip(1)));
            }
            if n == 1 {
                return Ok(None);
            }
            let b1 = src[1];
            if b1 < 0x80 {
                proof {
                    assert(s.skip(1)[0] == s[1]);
                    assert(var_term_idx(s.skip(1)) == 0);
                }
                idx = 1;
            } else {
                proof {
                    lemma_var_term_idx_bounds(s.skip(1).skip(1));
                    assert(s.skip(1)[0] == s[1]);
                    assert(var_term_idx(s.skip(1)) == 1 + var_term_idx(s.skip(1).skip(1)));
                }
                if n == 2 {
                    return Ok(None);
                }
                let b2 = src[2];
                if b2 < 0x80 {
                    proof {
                        assert(s.skip(1).skip(1)[0] == s[2]);
                        assert(var_term_idx(s.skip(1).skip(1)) == 0);
                    }
                    idx = 2;
                } else {
                    proof {
                        assert(s.skip(1).skip(1)[0] == s[2]);
                        assert(s.skip(1).skip(1).len() > 0);
                        lemma_var_term_idx_bounds(s.skip(1).skip(1).skip(1));
                        assert(var_term_idx(s.skip(1).skip(1)) == 1 + var_term_idx(
                            s.skip(1).skip(1).skip(1),
                        ));
                        assert(var_term_idx(s) >= 3);
                    }
                    return Err(ProtocolError::VarIntTooLong);
                }
            }
        }
        // Reassemble the length from the 7-bit groups.
        let frame_len: usize = if idx == 0 {
            let v = (src[0] % 0x80) as usize;
            proof {
                assert(s.take(1)[0] == s[0]);
                assert(s.take(1).skip(1) =~= Seq::<u8>::empty());
                assert(var_acc(Seq::<u8>::empty()) == 0);
                assert(var_acc(s.take(1)) == s.take(1)[0] as int % 0x80 + 0x80 * var_acc(
                    s.take(1).skip(1),
                ));
            }
            v
        } else if idx == 1 {
            let v = (src[0] % 0x80) as usize + 0x80 * ((src[1] % 0x80) as usize);
            proof {
                let t = s.take(2);
                assert(t[0] == s[0]);
                assert(t.skip(1) =~= s.skip(1).take(1));
                assert(s.skip(1).take(1)[0] == s[1]);
                assert(s.skip(1).take(1).skip(1) =~= Seq::<u8>::empty());
                assert(var_acc(Seq::<u8>::empty()) == 0);
                assert(var_acc(s.skip(1).take(1)) == s.skip(1).take(1)[0] as int % 0x80 + 0x80
                    * var_acc(s.skip(1).take(1).skip(1)));
                assert(var_acc(t) == s[0] as int % 0x80 + 0x80 * var_acc(t.skip(1)));
            }
            v
        } else {
            let v = (src[0] % 0x80) as usize + 0x80 * ((src[1] % 0x80) as usize) + 0x4000 * ((
            src[2] % 0x80) as usize);
            proof {
                let t = s.take(3);
                let t1 = s.skip(1).take(2);
                let t2 = s.skip(1).skip(1).take(1);
                assert(t[0] == s[0]);
                assert(t.skip(1) =~= t1);
                assert(t1[0] == s[1]);
                assert(t1.skip(1) =~= t2);
                assert(t2[0] == s[2]);
                assert(t2.skip(1) =~= Seq::<u8>::empty());
                assert(var_acc(Seq::<u8>::empty()) == 0);
                assert(var_acc(t2) == t2[0] as int % 0x80 + 0x80 * var_acc(t2.skip(1)));
                assert(var_acc(t1) == s[1] as int % 0x80 + 0x80 * var_acc(t2));
                assert(var_acc(t) == s[0] as int % 0x80 + 0x80 * var_acc(t1));
            }
            v
        };
        if n - (idx + 1) < frame_len {
            return Ok(None);
        }
        // Copy the frame body out and parse the packet id from its front.
        let ghost frame = s.skip(idx as int + 1).take(frame_len as int);
        let start = idx + 1;
        let mut body: Vec<u8> = Vec::new();
        for i in 0..frame_len
            invariant
                n == s.len(),
                start + frame_len <= n,
                src@ == s,
                body@ =~= s.subrange(start as int, start + i),
            decreases frame_len - i,
        {
            body.push(src[start + i]);
            proof {
                assert(body@ =~= s.subrange(start as int, start + i + 1));
            }
        }
        proof {
            assert(body@ =~= frame);
        }
        let mut pd = PacketData::new(0, body);
        let packet_id = match pd.read_var_int() {
            Ok(v) => v,
            Err(e) => { return Err(e) },
        };
        pd.packet_id = packet_id;
        // Drop the consumed bytes from the stream buffer.
        let consumed = start + frame_len;
        let mut rest: Vec<u8> = Vec::new();
        for i in consumed..n
            invariant
                n == s.len(),
                consumed <= n,
                src@ == s,
                rest@ =~= s.subrange(consumed as int, i as int),
            decreases n - i,
        {
            rest.push(src[i]);
            proof {
                assert(rest@ =~= s.subrange(consumed as int, i + 1));
            }
        }
        *src = rest;
        proof {
            assert(src@ =~= s.skip(consumed as int));
        }
        Ok(Some(pd))
    }
}

} // verus!
