use crate::err::ProtocolError;
use crate::parse::{sp_long, Parse};
use crate::reader::PacketData;
use crate::wire::{i64_bits, u64_be_bytes};
use crate::writer::{string_bytes, PacketPayload};
use vstd::prelude::*;
use vstd::utf8::encode_utf8;

verus! {

// ===========================================================================
// The status phase: the server-list ping. A request is answered with the
// configured JSON document; a ping is echoed back as a pong.
// ===========================================================================

pub enum IncomingStatusPacket {
    Request,
    Ping(i64),
}

impl IncomingStatusPacket {
    /// Parses a status-phase packet; an unknown id yields `None`.
    pub fn read(packet_id: i32, rdr: &mut PacketData) -> (r: Result<
        Option<Self>,
        ProtocolError,
    >)
        requires
            old(rdr).wf(),
        ensures
            final(rdr).advanced_from(*old(rdr)),
            packet_id == 0 ==> r == Ok::<Option<Self>, ProtocolError>(Some(Self::Request)),
            packet_id == 1 ==> match sp_long(old(rdr).remaining()) {
                Parse::Done { v, used } => r == Ok::<Option<Self>, ProtocolError>(
                    Some(Self::Ping(v)),
                ),
                Parse::Fail { e } => r == Err::<Option<Self>, ProtocolError>(e),
            },
            packet_id != 0 && packet_id != 1 ==> r == Ok::<Option<Self>, ProtocolError>(None),
    {
        match packet_id {
            0 => Ok(Some(Self::Request)),
            1 => match rdr.read_long() {
                Ok(v) => Ok(Some(Self::Ping(v))),
                Err(e) => Err(e),
            },
            _ => Ok(None),
        }
    }
}

/// The response carries the configured server-list JSON already rendered
/// to a string; the pong echoes the ping's payload.
pub enum OutgoingStatusPacket {
    Response(String),
    Pong(i64),
}

impl OutgoingStatusPacket {
    /// Builds the payload: the response is the JSON as a wire string (at
    /// most 32767 bytes), the pong is the echoed long.
    pub fn write(&self) -> (r: Result<PacketPayload, ProtocolError>)
        requires
            self is Response ==> encode_utf8(self->Response_0@).len() <= 0x7fff_ffff,
        ensures
            match self {
                Self::Response(json) => {
                    if encode_utf8(json@).len() <= 32767 {
                        &&& r is Ok
                        &&& r.unwrap().packet_id == 0
                        &&& r.unwrap().data@ == string_bytes(json@)
                    } else {
                        r == Err::<PacketPayload, ProtocolError>(
                            ProtocolError::StringTooLong(encode_utf8(json@).len() as i32, 32767),
                        )
                    }
                },
                Self::Pong(v) => r is Ok && r.unwrap().packet_id == 1 && r.unwrap().data@
                    == u64_be_bytes(i64_bits(*v)),
            },
    {
        match self {
            Self::Response(json) => {
                let mut payload = PacketPayload::new(0);
                match payload.write_string(json.as_str(), 32767) {
                    Ok(()) => Ok(payload),
                    Err(e) => Err(e),
                }
            },
            Self::Pong(v) => {
                let mut payload = PacketPayload::new(1);
                payload.write_long(*v);
                Ok(payload)
            },
        }
    }
}

} // verus!
