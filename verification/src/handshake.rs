use crate::err::ProtocolError;
use crate::parse::{sp_string, sp_ushort, sp_var_int, Parse};
use crate::reader::PacketData;
use crate::wire::lemma_var_term_idx_bounds;
use vstd::prelude::*;

verus! {

// ===========================================================================
// The handshake packet: the first packet of every connection. Its
// `next_state` field picks the phase that follows.
// ===========================================================================

/// The phase the client asks for after the handshake.
#[derive(Clone, Copy, Debug, PartialEq, Eq, Structural)]
pub enum ProtocolState {
    Status,
    Login,
}

pub struct HandshakePacket {
    pub protocol_version: i32,
    pub server_address: String,
    pub server_port: u16,
    pub next_state: ProtocolState,
}

/// The handshake fields as laid out on the wire: protocol version, server
/// address (at most 255 bytes), server port, and the raw next-state value.
pub open spec fn sp_handshake(s: Seq<u8>) -> Parse<(i32, Seq<char>, u16, i32)> {
    match sp_var_int(s) {
        Parse::Fail { e } => Parse::Fail { e },
        Parse::Done { v: pv, used: u1 } => match sp_string(s.skip(u1), 255) {
            Parse::Fail { e } => Parse::Fail { e },
            Parse::Done { v: addr, used: u2 } => match sp_ushort(s.skip(u1).skip(u2)) {
                Parse::Fail { e } => Parse::Fail { e },
                Parse::Done { v: port, used: u3 } => match sp_var_int(
                    s.skip(u1).skip(u2).skip(u3),
                ) {
                    Parse::Fail { e } => Parse::Fail { e },
                    Parse::Done { v: ns, used: u4 } => Parse::Done {
                        v: (pv, addr, port, ns),
                        used: u1 + u2 + u3 + u4,
                    },
                },
            },
        },
    }
}

impl HandshakePacket {
    /// Parses a handshake from the packet payload. A next-state value other
    /// than 1 (status) or 2 (login) is rejected as an invalid enum value.
    pub fn read(rdr: &mut PacketData) -> (r: Result<Self, ProtocolError>)
        requires
            old(rdr).wf(),
        ensures
            final(rdr).advanced_from(*old(rdr)),
            match sp_handshake(old(rdr).remaining()) {
                Parse::Fail { e } => r == Err::<Self, ProtocolError>(e),
                Parse::Done { v, used } => {
                    if v.3 == 1 || v.3 == 2 {
                        &&& r is Ok
                        &&& r.unwrap().protocol_version == v.0
                        &&& r.unwrap().server_address@ == v.1
                        &&& r.unwrap().server_port == v.2
                        &&& r.unwrap().next_state == (if v.3 == 1 {
                            ProtocolState::Status
                        } else {
                            ProtocolState::Login
                        })
                    } else {
                        r == Err::<Self, ProtocolError>(ProtocolError::InvalidEnumValue(v.3))
                    }
                },
            },
    {
        let ghost s = old(rdr).remaining();
        proof {
            lemma_var_term_idx_bounds(s);
        }
        let protocol_version = match rdr.read_var_int() {
            Ok(v) => v,
            Err(e) => { return Err(e) },
        };
        proof {
            assert(rdr.remaining() =~= s.skip(rdr.pos - old(rdr).pos));
        }
        let ghost s1 = rdr.remaining();
        proof {
            lemma_var_term_idx_bounds(s1);
        }
        let server_address = match rdr.read_string(0xFF) {
            Ok(v) => v,
            Err(e) => { return Err(e) },
        };
        proof {
            assert(rdr.remaining() =~= s1.skip(rdr.pos - old(rdr).pos - (s.len() - s1.len())));
        }
        let ghost s2 = rdr.remaining();
        let server_port = match rdr.read_ushort() {
            Ok(v) => v,
            Err(e) => { return Err(e) },
        };
        proof {
            assert(rdr.remaining() =~= s2.skip(2));
        }
        let next_state_raw = match rdr.read_var_int() {
            Ok(v) => v,
            Err(e) => { return Err(e) },
        };
        let next_state = match next_state_raw {
            1 => ProtocolState::Status,
            2 => ProtocolState::Login,
            v => { return Err(ProtocolError::InvalidEnumValue(v)) },
        };
        Ok(
            Self {
                protocol_version,
                server_address,
                server_port,
                next_state,
            },
        )
    }
}

} // verus!
