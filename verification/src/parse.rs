use crate::err::ProtocolError;
use crate::wire::{var_acc, var_term_idx};
use vstd::prelude::*;
use vstd::utf8::{decode_utf8, valid_utf8};

verus! {

// ===========================================================================
// The ghost-level parsers. Each mirrors one typed read of the cursor: the
// value it yields, how many bytes it consumes, and on which inputs it
// fails with which error. Packet contracts are stated by composing these.
// ===========================================================================

/// The outcome of parsing one field from the front of a byte sequence.
pub enum Parse<T> {
    Done { v: T, used: int },
    Fail { e: ProtocolError },
}

/// A VarInt: at most five groups, truncated to 32 bits.
pub open spec fn sp_var_int(s: Seq<u8>) -> Parse<i32> {
    let idx = var_term_idx(s);
    if idx < 5 && idx < s.len() {
        Parse::Done { v: (var_acc(s.take(idx + 1)) as u64 as u32) as i32, used: idx + 1 }
    } else if idx >= 5 && s.len() >= 5 {
        Parse::Fail { e: ProtocolError::VarIntTooLong }
    } else {
        Parse::Fail { e: ProtocolError::Io }
    }
}

/// A big-endian `u16`.
pub open spec fn sp_ushort(s: Seq<u8>) -> Parse<u16> {
    if s.len() >= 2 {
        Parse::Done { v: (s[0] as int * 0x100 + s[1] as int) as u16, used: 2 }
    } else {
        Parse::Fail { e: ProtocolError::Io }
    }
}

/// A big-endian `i64`.
pub open spec fn sp_long(s: Seq<u8>) -> Parse<i64> {
    if s.len() >= 8 {
        Parse::Done {
            v: ((s[0] as int * 0x100_0000_0000_0000 + s[1] as int * 0x1_0000_0000_0000 + s[2] as int
                * 0x100_0000_0000 + s[3] as int * 0x1_0000_0000 + s[4] as int * 0x100_0000
                + s[5] as int * 0x1_0000 + s[6] as int * 0x100 + s[7] as int) as u64) as i64,
            used: 8,
        }
    } else {
        Parse::Fail { e: ProtocolError::Io }
    }
}

/// One byte read as a bool: anything nonzero is true.
pub open spec fn sp_bool(s: Seq<u8>) -> Parse<bool> {
    if s.len() >= 1 {
        Parse::Done { v: s[0] != 0, used: 1 }
    } else {
        Parse::Fail { e: ProtocolError::Io }
    }
}

/// One signed byte.
pub open spec fn sp_byte(s: Seq<u8>) -> Parse<i8> {
    if s.len() >= 1 {
        Parse::Done { v: s[0] as i8, used: 1 }
    } else {
        Parse::Fail { e: ProtocolError::Io }
    }
}

/// A UUID: two big-endian `u64` halves, most significant first.
pub open spec fn sp_uuid(s: Seq<u8>) -> Parse<u128> {
    if s.len() >= 16 {
        Parse::Done {
            v: ((s[0] as int * 0x100_0000_0000_0000 + s[1] as int * 0x1_0000_0000_0000 + s[2] as int
                * 0x100_0000_0000 + s[3] as int * 0x1_0000_0000 + s[4] as int * 0x100_0000
                + s[5] as int * 0x1_0000 + s[6] as int * 0x100 + s[7] as int)
                * 0x1_0000_0000_0000_0000 + (s[8] as int * 0x100_0000_0000_0000 + s[9] as int
                * 0x1_0000_0000_0000 + s[10] as int * 0x100_0000_0000 + s[11] as int * 0x1_0000_0000
                + s[12] as int * 0x100_0000 + s[13] as int * 0x1_0000 + s[14] as int * 0x100
                + s[15] as int)) as u128,
            used: 16,
        }
    } else {
        Parse::Fail { e: ProtocolError::Io }
    }
}

/// A length-prefixed UTF-8 string of at most `max_len` bytes.
pub open spec fn sp_string(s: Seq<u8>, max_len: i32) -> Parse<Seq<char>> {
    match sp_var_int(s) {
        Parse::Fail { e } => Parse::Fail { e },
        Parse::Done { v: length, used } => {
            if length > max_len {
                Parse::Fail { e: ProtocolError::StringTooLong(length, max_len) }
            } else if length < 0 {
                Parse::Fail { e: ProtocolError::Io }
            } else if s.len() - used < length {
                Parse::Fail { e: ProtocolError::Io }
            } else {
                let bytes = s.skip(used).take(length as int);
                if valid_utf8(bytes) {
                    Parse::Done { v: decode_utf8(bytes), used: used + length }
                } else {
                    Parse::Fail { e: ProtocolError::InvalidUtf8 }
                }
            }
        },
    }
}

/// A big-endian `u64` (also the raw bits of a wire double).
pub open spec fn sp_ulong(s: Seq<u8>) -> Parse<u64> {
    if s.len() >= 8 {
        Parse::Done {
            v: (s[0] as int * 0x100_0000_0000_0000 + s[1] as int * 0x1_0000_0000_0000 + s[2] as int
                * 0x100_0000_0000 + s[3] as int * 0x1_0000_0000 + s[4] as int * 0x100_0000
                + s[5] as int * 0x1_0000 + s[6] as int * 0x100 + s[7] as int) as u64,
            used: 8,
        }
    } else {
        Parse::Fail { e: ProtocolError::Io }
    }
}

/// A big-endian `u32` (also the raw bits of a wire float).
pub open spec fn sp_uint(s: Seq<u8>) -> Parse<u32> {
    if s.len() >= 4 {
        Parse::Done {
            v: (s[0] as int * 0x100_0000 + s[1] as int * 0x1_0000 + s[2] as int * 0x100
                + s[3] as int) as u32,
            used: 4,
        }
    } else {
        Parse::Fail { e: ProtocolError::Io }
    }
}

} // verus!
