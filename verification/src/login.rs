use crate::err::ProtocolError;
use crate::parse::{sp_bool, sp_string, sp_var_int, Parse};
use crate::reader::PacketData;
use crate::wire::{lemma_var_term_idx_bounds, uuid_be_bytes};
use crate::writer::{i32_var_bytes, string_bytes, PacketPayload};
use vstd::prelude::*;
use vstd::utf8::encode_utf8;

verus! {

// ===========================================================================
// The login phase packets. Login branches on the optional forwarding
// handshake; the session driver holds that state machine.
// ===========================================================================

pub enum IncomingLoginPacket {
    LoginStart { username: String },
    LoginPluginResponse { message_id: i32, successful: bool, data: Vec<u8> },
}

/// The plugin response: a message id, a success flag, and — only when
/// successful — the rest of the payload as data.
pub open spec fn sp_plugin_response(s: Seq<u8>) -> Parse<(i32, bool, Seq<u8>)> {
    match sp_var_int(s) {
        Parse::Fail { e } => Parse::Fail { e },
        Parse::Done { v: mid, used: u1 } => match sp_bool(s.skip(u1)) {
            Parse::Fail { e } => Parse::Fail { e },
            Parse::Done { v: ok, used: u2 } => Parse::Done {
                v: (
                    mid,
                    ok,
                    if ok {
                        s.skip(u1).skip(u2)
                    } else {
                        Seq::empty()
                    },
                ),
                used: s.len() as int,
            },
        },
    }
}

impl IncomingLoginPacket {
    /// Parses a login-phase packet; an unknown id is an error here.
    pub fn read(packet_id: i32, rdr: &mut PacketData) -> (r: Result<Self, ProtocolError>)
        requires
            old(rdr).wf(),
        ensures
            final(rdr).advanced_from(*old(rdr)),
            packet_id == 0 ==> match sp_string(old(rdr).remaining(), 16) {
                Parse::Done { v, used } => r is Ok && (r.unwrap() matches Self::LoginStart {
                    username,
                } && username@ == v),
                Parse::Fail { e } => r == Err::<Self, ProtocolError>(e),
            },
            packet_id == 2 ==> match sp_plugin_response(old(rdr).remaining()) {
                Parse::Done { v, used } => r is Ok && (r.unwrap()
                    matches Self::LoginPluginResponse {
                    message_id,
                    successful,
                    data,
                } && message_id == v.0 && successful == v.1 && data@ == v.2),
                Parse::Fail { e } => r == Err::<Self, ProtocolError>(e),
            },
            packet_id != 0 && packet_id != 2 ==> r == Err::<Self, ProtocolError>(
                ProtocolError::InvalidPacketId(packet_id),
            ),
    {
        let ghost s = old(rdr).remaining();
        proof {
            lemma_var_term_idx_bounds(s);
        }
        match packet_id {
            0 => {
                match rdr.read_string(16) {
                    Ok(username) => Ok(Self::LoginStart { username }),
                    Err(e) => Err(e),
                }
            },
            2 => {
                let message_id = match rdr.read_var_int() {
                    Ok(v) => v,
                    Err(e) => { return Err(e) },
                };
                proof {
                    assert(rdr.remaining() =~= s.skip(rdr.pos - old(rdr).pos));
                }
                let ghost s1 = rdr.remaining();
                let successful = match rdr.read_bool() {
                    Ok(v) => v,
                    Err(e) => { return Err(e) },
                };
                proof {
                    assert(rdr.remaining() =~= s1.skip(1));
                }
                let data = if successful {
                    rdr.read_remaining()
                } else {
                    Vec::new()
                };
                Ok(Self::LoginPluginResponse { message_id, successful, data })
            },
            v => Err(ProtocolError::InvalidPacketId(v)),
        }
    }
}

pub enum OutgoingLoginPacket {
    LoginSuccess { uuid: u128, username: String },
    LoginPluginRequest { message_id: i32, channel: String, data: Vec<u8> },
}

impl OutgoingLoginPacket {
    /// Builds the payload: a login success carries the UUID then the
    /// username; a plugin request carries the message id, the channel name,
    /// and the raw data.
    pub fn write(&self) -> (r: Result<PacketPayload, ProtocolError>)
        requires
            self matches Self::LoginSuccess { uuid, username } ==> encode_utf8(username@).len()
                <= 0x7fff_ffff,
            self matches Self::LoginPluginRequest { message_id, channel, data } ==> encode_utf8(
                channel@,
            ).len() <= 0x7fff_ffff,
        ensures
            match self {
                Self::LoginSuccess { uuid, username } => {
                    if encode_utf8(username@).len() <= 16 {
                        &&& r is Ok
                        &&& r.unwrap().packet_id == 2
                        &&& r.unwrap().data@ == uuid_be_bytes(*uuid) + string_bytes(username@)
                    } else {
                        r == Err::<PacketPayload, ProtocolError>(
                            ProtocolError::StringTooLong(encode_utf8(username@).len() as i32, 16),
                        )
                    }
                },
                Self::LoginPluginRequest { message_id, channel, data } => {
                    if encode_utf8(channel@).len() <= 32767 {
                        &&& r is Ok
                        &&& r.unwrap().packet_id == 4
                        &&& r.unwrap().data@ == i32_var_bytes(*message_id) + string_bytes(channel@)
                            + data@
                    } else {
                        r == Err::<PacketPayload, ProtocolError>(
                            ProtocolError::StringTooLong(encode_utf8(channel@).len() as i32, 32767),
                        )
                    }
                },
            },
    {
        match self {
            Self::LoginSuccess { uuid, username } => {
                let mut payload = PacketPayload::new(2);
                payload.write_uuid(*uuid);
                match payload.write_string(username.as_str(), 16) {
                    Ok(()) => Ok(payload),
                    Err(e) => Err(e),
                }
            },
            Self::LoginPluginRequest { message_id, channel, data } => {
                let mut payload = PacketPayload::new(4);
                payload.write_var_int(*message_id);
                match payload.write_string(channel.as_str(), 32767) {
                    Ok(()) => {},
                    Err(e) => { return Err(e) },
                }
                payload.write_bytes(data.as_slice());
                Ok(payload)
            },
        }
    }
}

} // verus!
