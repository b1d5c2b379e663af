use crate::blocks::{get_block_entity_id, spec_block_entity_id, BlockEntityTable, BlockTable};
use crate::chunk::{
    heightmaps_nbt_bytes, is_sections_bytes, lemma_sections_bytes_len, section_descs, Chunk,
    Heightmaps,
};
use crate::err::ProtocolError;
use crate::parse::{sp_bool, sp_byte, sp_long, sp_string, sp_uint, sp_ulong, sp_var_int, Parse};
use crate::reader::PacketData;
use crate::store::BlockEntity;
use crate::text::{lemma_encode_utf8_len, str_eq};
use crate::wire::{i32_bits, i64_bits, lemma_var_term_idx_bounds, u32_be_bytes, u64_be_bytes};
use crate::writer::{
    bool_byte, i32_var_bytes, position_word, string_arr_bytes, string_bytes, ulong_array_bytes,
    PacketPayload,
};
use vstd::prelude::*;
use vstd::utf8::encode_utf8;

verus! {

// ===========================================================================
// The play phase packets: the join sequence, chunk data, keepalives, and
// the small set of client packets the server recognizes. Wire doubles and
// floats are carried as their raw big-endian bit patterns.
// ===========================================================================

/// The client game mode, one byte on the wire.
pub enum Gamemode {
    Survival,
    Creative,
    Adventure,
    Spectator,
}

impl Gamemode {
    /// The wire byte of the mode.
    pub open spec fn spec_byte(self) -> u8 {
        match self {
            Gamemode::Survival => 0,
            Gamemode::Creative => 1,
            Gamemode::Adventure => 2,
            Gamemode::Spectator => 3,
        }
    }

    pub fn write(&self, wr: &mut PacketPayload)
        ensures
            final(wr).packet_id == old(wr).packet_id,
            final(wr).data@ == old(wr).data@ + seq![self.spec_byte()],
    {
        wr.write_ubyte(
            match self {
                Gamemode::Survival => 0,
                Gamemode::Creative => 1,
                Gamemode::Adventure => 2,
                Gamemode::Spectator => 3,
            },
        );
    }
}

/// The join-game fields read from configuration. The dimension codec and
/// dimension compounds pass through as opaque, pre-serialized NBT bytes.
pub struct JoinGameData {
    pub is_hardcore: bool,
    pub gamemode: Gamemode,
    pub previous_gamemode: Gamemode,
    pub dimension_names: Vec<String>,
    pub dimension_codec_nbt: Vec<u8>,
    pub dimension_nbt: Vec<u8>,
    pub dimension_name: String,
    pub hashed_seed: i64,
    pub max_players: i32,
    pub view_distance: i32,
    pub simulation_distance: i32,
    pub reduced_debug_info: bool,
    pub enable_respawn_screen: bool,
    pub is_debug: bool,
    pub is_flat: bool,
}

impl JoinGameData {
    /// The strings are within wire limits and the name list fits a VarInt.
    pub open spec fn wf(self) -> bool {
        &&& self.dimension_names@.len() <= 0x7fff_ffff
        &&& forall|i: int|
            0 <= i < self.dimension_names@.len() ==> #[trigger] encode_utf8(
                self.dimension_names@[i]@,
            ).len() <= 32767
        &&& encode_utf8(self.dimension_name@).len() <= 32767
    }
}

/// A custom-payload (plugin message) packet on a channel the server knows.
pub enum PlayCustomPayload {
    MinecraftBrand { brand: String },
}

impl PlayCustomPayload {
    pub fn channel_id(&self) -> (r: &'static str)
        ensures
            r@ == "minecraft:brand"@,
    {
        match self {
            PlayCustomPayload::MinecraftBrand { .. } => "minecraft:brand",
        }
    }

    /// Writes the channel's body (for the brand channel: the brand string).
    pub fn write(&self, wr: &mut PacketPayload) -> (r: Result<(), ProtocolError>)
        requires
            self matches Self::MinecraftBrand { brand } ==> encode_utf8(brand@).len()
                <= 0x7fff_ffff,
        ensures
            final(wr).packet_id == old(wr).packet_id,
            match self {
                Self::MinecraftBrand { brand } => {
                    if encode_utf8(brand@).len() <= 32767 {
                        r == Ok::<(), ProtocolError>(()) && final(wr).data@ == old(wr).data@
                            + string_bytes(brand@)
                    } else {
                        r == Err::<(), ProtocolError>(
                            ProtocolError::StringTooLong(encode_utf8(brand@).len() as i32, 32767),
                        ) && final(wr).data@ == old(wr).data@
                    }
                },
            },
    {
        match self {
            PlayCustomPayload::MinecraftBrand { brand } => {
                wr.write_string(brand.as_str(), 32767)
            },
        }
    }

    /// Parses a custom payload: the channel string, then — for the brand
    /// channel — the brand string. Unknown channels yield `None`.
    pub fn read(rdr: &mut PacketData) -> (r: Result<Option<Self>, ProtocolError>)
        requires
            old(rdr).wf(),
        ensures
            final(rdr).advanced_from(*old(rdr)),
            match sp_string(old(rdr).remaining(), 32767) {
                Parse::Fail { e } => r == Err::<Option<Self>, ProtocolError>(e),
                Parse::Done { v: channel, used } => {
                    if channel == "minecraft:brand"@ {
                        match sp_string(old(rdr).remaining().skip(used), 32767) {
                            Parse::Fail { e } => r == Err::<Option<Self>, ProtocolError>(e),
                            Parse::Done { v: brand, used: u2 } => r is Ok && r.unwrap() is Some && (
                            r.unwrap().unwrap() matches Self::MinecraftBrand { brand: b } && b@
                                == brand),
                        }
                    } else {
                        r == Ok::<Option<Self>, ProtocolError>(None)
                    }
                },
            },
    {
        let ghost s = old(rdr).remaining();
        proof {
            lemma_var_term_idx_bounds(s);
        }
        let channel_id = match rdr.read_string(32767) {
            Ok(v) => v,
            Err(e) => { return Err(e) },
        };
        proof {
            assert(rdr.remaining() =~= s.skip(rdr.pos - old(rdr).pos));
        }
        if str_eq(channel_id.as_str(), "minecraft:brand") {
            let ghost s1 = rdr.remaining();
            proof {
                lemma_var_term_idx_bounds(s1);
            }
            match rdr.read_string(32767) {
                Ok(brand) => Ok(Some(Self::MinecraftBrand { brand })),
                Err(e) => Err(e),
            }
        } else {
            Ok(None)
        }
    }
}

/// The play packets the server reads. Position and angle fields carry the
/// raw IEEE bit patterns of the wire doubles and floats.
pub enum IncomingPlayPacket {
    TeleportConfirm { teleport_id: i32 },
    ClientSettings {
        locale: String,
        view_distance: i8,
        chat_mode: i32,
        chat_colours: bool,
        displayed_skin_parts: i8,
        main_hand: i32,
        enable_text_filtering: bool,
        allow_server_listings: bool,
    },
    CustomPayload(PlayCustomPayload),
    KeepAlive(i64),
    PlayerPosition { x_bits: u64, y_bits: u64, z_bits: u64, on_ground: bool },
    PlayerPositionAndRotation {
        x_bits: u64,
        y_bits: u64,
        z_bits: u64,
        yaw_bits: u32,
        pitch_bits: u32,
        on_ground: bool,
    },
    PlayerRotation { yaw_bits: u32, pitch_bits: u32, on_ground: bool },
}

/// The client settings fields in wire order.
pub open spec fn sp_client_settings(s: Seq<u8>) -> Parse<
    (Seq<char>, i8, i32, bool, i8, i32, bool, bool),
> {
    match sp_string(s, 16) {
        Parse::Fail { e } => Parse::Fail { e },
        Parse::Done { v: locale, used: u1 } => match sp_byte(s.skip(u1)) {
            Parse::Fail { e } => Parse::Fail { e },
            Parse::Done { v: vd, used: u2 } => match sp_var_int(s.skip(u1 + u2)) {
                Parse::Fail { e } => Parse::Fail { e },
                Parse::Done { v: cm, used: u3 } => match sp_bool(s.skip(u1 + u2 + u3)) {
                    Parse::Fail { e } => Parse::Fail { e },
                    Parse::Done { v: cc, used: u4 } => match sp_byte(s.skip(u1 + u2 + u3 + u4)) {
                        Parse::Fail { e } => Parse::Fail { e },
                        Parse::Done { v: sk, used: u5 } => match sp_var_int(
                            s.skip(u1 + u2 + u3 + u4 + u5),
                        ) {
                            Parse::Fail { e } => Parse::Fail { e },
                            Parse::Done { v: mh, used: u6 } => match sp_bool(
                                s.skip(u1 + u2 + u3 + u4 + u5 + u6),
                            ) {
                                Parse::Fail { e } => Parse::Fail { e },
                                Parse::Done { v: tf, used: u7 } => match sp_bool(
                                    s.skip(u1 + u2 + u3 + u4 + u5 + u6 + u7),
                                ) {
                                    Parse::Fail { e } => Parse::Fail { e },
                                    Parse::Done { v: ls, used: u8x } => Parse::Done {
                                        v: (locale, vd, cm, cc, sk, mh, tf, ls),
                                        used: u1 + u2 + u3 + u4 + u5 + u6 + u7 + u8x,
                                    },
                                },
                            },
                        },
                    },
                },
            },
        },
    }
}

/// Three wire doubles and a bool: a position update.
pub open spec fn sp_position(s: Seq<u8>) -> Parse<(u64, u64, u64, bool)> {
    match sp_ulong(s) {
        Parse::Fail { e } => Parse::Fail { e },
        Parse::Done { v: x, used: u1 } => match sp_ulong(s.skip(u1)) {
            Parse::Fail { e } => Parse::Fail { e },
            Parse::Done { v: y, used: u2 } => match sp_ulong(s.skip(u1 + u2)) {
                Parse::Fail { e } => Parse::Fail { e },
                Parse::Done { v: z, used: u3 } => match sp_bool(s.skip(u1 + u2 + u3)) {
                    Parse::Fail { e } => Parse::Fail { e },
                    Parse::Done { v: g, used: u4 } => Parse::Done {
                        v: (x, y, z, g),
                        used: u1 + u2 + u3 + u4,
                    },
                },
            },
        },
    }
}

/// Three doubles, two floats, and a bool: position plus rotation.
pub open spec fn sp_position_rotation(s: Seq<u8>) -> Parse<(u64, u64, u64, u32, u32, bool)> {
    match sp_position_part(s) {
        Parse::Fail { e } => Parse::Fail { e },
        Parse::Done { v: xyz, used: u1 } => match sp_rotation_part(s.skip(u1)) {
            Parse::Fail { e } => Parse::Fail { e },
            Parse::Done { v: yp, used: u2 } => match sp_bool(s.skip(u1 + u2)) {
                Parse::Fail { e } => Parse::Fail { e },
                Parse::Done { v: g, used: u3 } => Parse::Done {
                    v: (xyz.0, xyz.1, xyz.2, yp.0, yp.1, g),
                    used: u1 + u2 + u3,
                },
            },
        },
    }
}

/// Three wire doubles.
pub open spec fn sp_position_part(s: Seq<u8>) -> Parse<(u64, u64, u64)> {
    match sp_ulong(s) {
        Parse::Fail { e } => Parse::Fail { e },
        Parse::Done { v: x, used: u1 } => match sp_ulong(s.skip(u1)) {
            Parse::Fail { e } => Parse::Fail { e },
            Parse::Done { v: y, used: u2 } => match sp_ulong(s.skip(u1 + u2)) {
                Parse::Fail { e } => Parse::Fail { e },
                Parse::Done { v: z, used: u3 } => Parse::Done {
                    v: (x, y, z),
                    used: u1 + u2 + u3,
                },
            },
        },
    }
}

/// Two wire floats: yaw then pitch.
pub open spec fn sp_rotation_part(s: Seq<u8>) -> Parse<(u32, u32)> {
    match sp_uint(s) {
        Parse::Fail { e } => Parse::Fail { e },
        Parse::Done { v: yaw, used: u1 } => match sp_uint(s.skip(u1)) {
            Parse::Fail { e } => Parse::Fail { e },
            Parse::Done { v: pitch, used: u2 } => Parse::Done {
                v: (yaw, pitch),
                used: u1 + u2,
            },
        },
    }
}

/// Two floats and a bool: a rotation update.
pub open spec fn sp_rotation(s: Seq<u8>) -> Parse<(u32, u32, bool)> {
    match sp_rotation_part(s) {
        Parse::Fail { e } => Parse::Fail { e },
        Parse::Done { v: yp, used: u1 } => match sp_bool(s.skip(u1)) {
            Parse::Fail { e } => Parse::Fail { e },
            Parse::Done { v: g, used: u2 } => Parse::Done {
                v: (yp.0, yp.1, g),
                used: u1 + u2,
            },
        },
    }
}

/// The error a play-phase frame produces, if any. A recognized id fails
/// exactly when its fields fail to parse; an unknown id parses to nothing
/// and never fails.
pub open spec fn sp_play_parse_err(packet_id: i32, s: Seq<u8>) -> Option<ProtocolError> {
    if packet_id == 0x00 {
        match sp_var_int(s) {
            Parse::Fail { e } => Some(e),
            Parse::Done { v, used } => None,
        }
    } else if packet_id == 0x05 {
        match sp_client_settings(s) {
            Parse::Fail { e } => Some(e),
            Parse::Done { v, used } => None,
        }
    } else if packet_id == 0x0A {
        match sp_string(s, 32767) {
            Parse::Fail { e } => Some(e),
            Parse::Done { v: channel, used } => {
                if channel == "minecraft:brand"@ {
                    match sp_string(s.skip(used), 32767) {
                        Parse::Fail { e } => Some(e),
                        Parse::Done { v, used: u2 } => None,
                    }
                } else {
                    None
                }
            },
        }
    } else if packet_id == 0x0F {
        match sp_long(s) {
            Parse::Fail { e } => Some(e),
            Parse::Done { v, used } => None,
        }
    } else if packet_id == 0x11 {
        match sp_position(s) {
            Parse::Fail { e } => Some(e),
            Parse::Done { v, used } => None,
        }
    } else if packet_id == 0x12 {
        match sp_position_rotation(s) {
            Parse::Fail { e } => Some(e),
            Parse::Done { v, used } => None,
        }
    } else if packet_id == 0x13 {
        match sp_rotation(s) {
            Parse::Fail { e } => Some(e),
            Parse::Done { v, used } => None,
        }
    } else {
        None
    }
}

impl IncomingPlayPacket {
    /// Parses a play-phase packet by id; unknown ids yield `None` and are
    /// tolerated.
    pub fn read(packet_id: i32, rdr: &mut PacketData) -> (r: Result<
        Option<Self>,
        ProtocolError,
    >)
        requires
            old(rdr).wf(),
        ensures
            final(rdr).advanced_from(*old(rdr)),
            ({
                let s = old(rdr).remaining();
                &&& packet_id == 0x00 ==> match sp_var_int(s) {
                    Parse::Fail { e } => r == Err::<Option<Self>, ProtocolError>(e),
                    Parse::Done { v, used } => r == Ok::<Option<Self>, ProtocolError>(
                        Some(Self::TeleportConfirm { teleport_id: v }),
                    ),
                }
                &&& packet_id == 0x05 ==> match sp_client_settings(s) {
                    Parse::Fail { e } => r == Err::<Option<Self>, ProtocolError>(e),
                    Parse::Done { v, used } => r is Ok && r.unwrap() is Some && (
                    r.unwrap().unwrap() matches Self::ClientSettings {
                        locale,
                        view_distance,
                        chat_mode,
                        chat_colours,
                        displayed_skin_parts,
                        main_hand,
                        enable_text_filtering,
                        allow_server_listings,
                    } && locale@ == v.0 && view_distance == v.1 && chat_mode == v.2 && chat_colours
                        == v.3 && displayed_skin_parts == v.4 && main_hand == v.5
                        && enable_text_filtering == v.6 && allow_server_listings == v.7),
                }
                &&& packet_id == 0x0F ==> match sp_long(s) {
                    Parse::Fail { e } => r == Err::<Option<Self>, ProtocolError>(e),
                    Parse::Done { v, used } => r == Ok::<Option<Self>, ProtocolError>(
                        Some(Self::KeepAlive(v)),
                    ),
                }
                &&& packet_id == 0x11 ==> match sp_position(s) {
                    Parse::Fail { e } => r == Err::<Option<Self>, ProtocolError>(e),
                    Parse::Done { v, used } => r == Ok::<Option<Self>, ProtocolError>(
                        Some(
                            Self::PlayerPosition {
                                x_bits: v.0,
                                y_bits: v.1,
                                z_bits: v.2,
                                on_ground: v.3,
                            },
                        ),
                    ),
                }
                &&& packet_id == 0x12 ==> match sp_position_rotation(s) {
                    Parse::Fail { e } => r == Err::<Option<Self>, ProtocolError>(e),
                    Parse::Done { v, used } => r == Ok::<Option<Self>, ProtocolError>(
                        Some(
                            Self::PlayerPositionAndRotation {
                                x_bits: v.0,
                                y_bits: v.1,
                                z_bits: v.2,
                                yaw_bits: v.3,
                                pitch_bits: v.4,
                                on_ground: v.5,
                            },
                        ),
                    ),
                }
                &&& packet_id == 0x13 ==> match sp_rotation(s) {
                    Parse::Fail { e } => r == Err::<Option<Self>, ProtocolError>(e),
                    Parse::Done { v, used } => r == Ok::<Option<Self>, ProtocolError>(
                        Some(
                            Self::PlayerRotation {
                                yaw_bits: v.0,
                                pitch_bits: v.1,
                                on_ground: v.2,
                            },
                        ),
                    ),
                }
                &&& packet_id == 0x0A ==> match sp_string(s, 32767) {
                    Parse::Fail { e } => r == Err::<Option<Self>, ProtocolError>(e),
                    Parse::Done { v: channel, used } => {
                        if channel == "minecraft:brand"@ {
                            match sp_string(s.skip(used), 32767) {
                                Parse::Fail { e } => r == Err::<Option<Self>, ProtocolError>(e),
                                Parse::Done { v: brand, used: u2 } => r is Ok && r.unwrap() is Some
                                    && (r.unwrap().unwrap() matches Self::CustomPayload(
                                    PlayCustomPayload::MinecraftBrand { brand: b },
                                ) && b@ == brand),
                            }
                        } else {
                            r == Ok::<Option<Self>, ProtocolError>(None)
                        }
                    },
                }
                &&& (packet_id != 0x00 && packet_id != 0x05 && packet_id != 0x0A && packet_id
                    != 0x0F && packet_id != 0x11 && packet_id != 0x12 && packet_id != 0x13) ==> r
                    == Ok::<Option<Self>, ProtocolError>(None)
            }),
    {
        let ghost s = old(rdr).remaining();
        proof {
            lemma_var_term_idx_bounds(s);
        }
        match packet_id {
            0x00 => match rdr.read_var_int() {
                Ok(v) => Ok(Some(Self::TeleportConfirm { teleport_id: v })),
                Err(e) => Err(e),
            },
            0x05 => Self::read_client_settings(rdr),
            0x0A => match PlayCustomPayload::read(rdr) {
                Ok(Some(p)) => Ok(Some(Self::CustomPayload(p))),
                Ok(None) => Ok(None),
                Err(e) => Err(e),
            },
            0x0F => match rdr.read_long() {
                Ok(v) => Ok(Some(Self::KeepAlive(v))),
                Err(e) => Err(e),
            },
            0x11 => Self::read_player_position(rdr),
            0x12 => Self::read_player_position_and_rotation(rdr),
            0x13 => Self::read_player_rotation(rdr),
            _ => Ok(None),
        }
    }

    fn read_client_settings(rdr: &mut PacketData) -> (r: Result<Option<Self>, ProtocolError>)
        requires
            old(rdr).wf(),
        ensures
            final(rdr).advanced_from(*old(rdr)),
            match sp_client_settings(old(rdr).remaining()) {
                Parse::Fail { e } => r == Err::<Option<Self>, ProtocolError>(e),
                Parse::Done { v, used } => r is Ok && r.unwrap() is Some && (r.unwrap().unwrap()
                    matches Self::ClientSettings {
                    locale,
                    view_distance,
                    chat_mode,
                    chat_colours,
                    displayed_skin_parts,
                    main_hand,
                    enable_text_filtering,
                    allow_server_listings,
                } && locale@ == v.0 && view_distance == v.1 && chat_mode == v.2 && chat_colours
                    == v.3 && displayed_skin_parts == v.4 && main_hand == v.5
                    && enable_text_filtering == v.6 && allow_server_listings == v.7),
            },
    {
        let ghost s = old(rdr).remaining();
        proof {
            lemma_var_term_idx_bounds(s);
        }
        let locale = match rdr.read_string(16) {
            Ok(v) => v,
            Err(e) => { return Err(e) },
        };
        proof {
            assert(rdr.remaining() =~= s.skip(rdr.pos - old(rdr).pos));
        }
        let ghost s1 = rdr.remaining();
        let view_distance = match rdr.read_byte() {
            Ok(v) => v,
            Err(e) => { return Err(e) },
        };
        proof {
            assert(rdr.remaining() =~= s.skip(rdr.pos - old(rdr).pos));
            lemma_var_term_idx_bounds(rdr.remaining());
        }
        let ghost s2 = rdr.remaining();
        let chat_mode = match rdr.read_var_int() {
            Ok(v) => v,
            Err(e) => { return Err(e) },
        };
        proof {
            assert(rdr.remaining() =~= s.skip(rdr.pos - old(rdr).pos));
        }
        let ghost s3 = rdr.remaining();
        let chat_colours = match rdr.read_bool() {
            Ok(v) => v,
            Err(e) => { return Err(e) },
        };
        proof {
            assert(rdr.remaining() =~= s.skip(rdr.pos - old(rdr).pos));
        }
        let ghost s4 = rdr.remaining();
        let displayed_skin_parts = match rdr.read_byte() {
            Ok(v) => v,
            Err(e) => { return Err(e) },
        };
        proof {
            assert(rdr.remaining() =~= s.skip(rdr.pos - old(rdr).pos));
            lemma_var_term_idx_bounds(rdr.remaining());
        }
        let ghost s5 = rdr.remaining();
        let main_hand = match rdr.read_var_int() {
            Ok(v) => v,
            Err(e) => { return Err(e) },
        };
        proof {
            assert(rdr.remaining() =~= s.skip(rdr.pos - old(rdr).pos));
        }
        let ghost s6 = rdr.remaining();
        let enable_text_filtering = match rdr.read_bool() {
            Ok(v) => v,
            Err(e) => { return Err(e) },
        };
        proof {
            assert(rdr.remaining() =~= s.skip(rdr.pos - old(rdr).pos));
        }
        let allow_server_listings = match rdr.read_bool() {
            Ok(v) => v,
            Err(e) => { return Err(e) },
        };
        Ok(
            Some(
                Self::ClientSettings {
                    locale,
                    view_distance,
                    chat_mode,
                    chat_colours,
                    displayed_skin_parts,
                    main_hand,
                    enable_text_filtering,
                    allow_server_listings,
                },
            ),
        )
    }

    fn read_player_position(rdr: &mut PacketData) -> (r: Result<Option<Self>, ProtocolError>)
        requires
            old(rdr).wf(),
        ensures
            final(rdr).advanced_from(*old(rdr)),
            match sp_position(old(rdr).remaining()) {
                Parse::Fail { e } => r == Err::<Option<Self>, ProtocolError>(e),
                Parse::Done { v, used } => r == Ok::<Option<Self>, ProtocolError>(
                    Some(
                        Self::PlayerPosition {
                            x_bits: v.0,
                            y_bits: v.1,
                            z_bits: v.2,
                            on_ground: v.3,
                        },
                    ),
                ),
            },
    {
        let ghost s = old(rdr).remaining();
        let x_bits = match rdr.read_ulong() {
            Ok(v) => v,
            Err(e) => { return Err(e) },
        };
        proof {
            assert(rdr.remaining() =~= s.skip(rdr.pos - old(rdr).pos));
        }
        let ghost s1 = rdr.remaining();
        let y_bits = match rdr.read_ulong() {
            Ok(v) => v,
            Err(e) => { return Err(e) },
        };
        proof {
            assert(rdr.remaining() =~= s.skip(rdr.pos - old(rdr).pos));
        }
        let ghost s2 = rdr.remaining();
        let z_bits = match rdr.read_ulong() {
            Ok(v) => v,
            Err(e) => { return Err(e) },
        };
        proof {
            assert(rdr.remaining() =~= s.skip(rdr.pos - old(rdr).pos));
        }
        let on_ground = match rdr.read_bool() {
            Ok(v) => v,
            Err(e) => { return Err(e) },
        };
        Ok(Some(Self::PlayerPosition { x_bits, y_bits, z_bits, on_ground }))
    }

    fn read_player_position_and_rotation(rdr: &mut PacketData) -> (r: Result<
        Option<Self>,
        ProtocolError,
    >)
        requires
            old(rdr).wf(),
        ensures
            final(rdr).advanced_from(*old(rdr)),
            match sp_position_rotation(old(rdr).remaining()) {
                Parse::Fail { e } => r == Err::<Option<Self>, ProtocolError>(e),
                Parse::Done { v, used } => r == Ok::<Option<Self>, ProtocolError>(
                    Some(
                        Self::PlayerPositionAndRotation {
                            x_bits: v.0,
                            y_bits: v.1,
                            z_bits: v.2,
                            yaw_bits: v.3,
                            pitch_bits: v.4,
                            on_ground: v.5,
                        },
                    ),
                ),
            },
    {
        let ghost s = old(rdr).remaining();
        let x_bits = match rdr.read_ulong() {
            Ok(v) => v,
            Err(e) => { return Err(e) },
        };
        proof {
            assert(rdr.remaining() =~= s.skip(rdr.pos - old(rdr).pos));
        }
        let ghost s1 = rdr.remaining();
        let y_bits = match rdr.read_ulong() {
            Ok(v) => v,
            Err(e) => { return Err(e) },
        };
        proof {
            assert(rdr.remaining() =~= s.skip(rdr.pos - old(rdr).pos));
        }
        let ghost s2 = rdr.remaining();
        let z_bits = match rdr.read_ulong() {
            Ok(v) => v,
            Err(e) => { return Err(e) },
        };
        proof {
            assert(rdr.remaining() =~= s.skip(rdr.pos - old(rdr).pos));
        }
        let ghost s3 = rdr.remaining();
        let yaw_bits = match rdr.read_uint() {
            Ok(v) => v,
            Err(e) => { return Err(e) },
        };
        proof {
            assert(rdr.remaining() =~= s.skip(rdr.pos - old(rdr).pos));
        }
        let ghost s4 = rdr.remaining();
        let pitch_bits = match rdr.read_uint() {
            Ok(v) => v,
            Err(e) => { return Err(e) },
        };
        proof {
            assert(rdr.remaining() =~= s.skip(rdr.pos - old(rdr).pos));
        }
        let on_ground = match rdr.read_bool() {
            Ok(v) => v,
            Err(e) => { return Err(e) },
        };
        Ok(
            Some(
                Self::PlayerPositionAndRotation {
                    x_bits,
                    y_bits,
                    z_bits,
                    yaw_bits,
                    pitch_bits,
                    on_ground,
                },
            ),
        )
    }

    fn read_player_rotation(rdr: &mut PacketData) -> (r: Result<Option<Self>, ProtocolError>)
        requires
            old(rdr).wf(),
        ensures
            final(rdr).advanced_from(*old(rdr)),
            match sp_rotation(old(rdr).remaining()) {
                Parse::Fail { e } => r == Err::<Option<Self>, ProtocolError>(e),
                Parse::Done { v, used } => r == Ok::<Option<Self>, ProtocolError>(
                    Some(
                        Self::PlayerRotation {
                            yaw_bits: v.0,
                            pitch_bits: v.1,
                            on_ground: v.2,
                        },
                    ),
                ),
            },
    {
        let ghost s = old(rdr).remaining();
        let yaw_bits = match rdr.read_uint() {
            Ok(v) => v,
            Err(e) => { return Err(e) },
        };
        proof {
            assert(rdr.remaining() =~= s.skip(rdr.pos - old(rdr).pos));
        }
        let ghost s1 = rdr.remaining();
        let pitch_bits = match rdr.read_uint() {
            Ok(v) => v,
            Err(e) => { return Err(e) },
        };
        proof {
            assert(rdr.remaining() =~= s.skip(rdr.pos - old(rdr).pos));
        }
        let on_ground = match rdr.read_bool() {
            Ok(v) => v,
            Err(e) => { return Err(e) },
        };
        Ok(Some(Self::PlayerRotation { yaw_bits, pitch_bits, on_ground }))
    }
}

// ===========================================================================
// Outgoing play packets.
// ===========================================================================

/// The heightmap stub sent with every chunk: a precomputed packed map with
/// the ground at y = 8, which the client accepts for a static world.
pub open spec fn heightmap_stub() -> Seq<i64> {
    Seq::new(
        37,
        |i: int|
            if i < 36 {
                0x0100804020100804i64
            } else {
                0x0000000020100804i64
            },
    )
}

/// The fixed trailer of a chunk-data packet: no embedded block entities,
/// trusted edges, and four empty light masks with no light arrays.
pub open spec fn chunk_tail_bytes() -> Seq<u8> {
    i32_var_bytes(0) + seq![bool_byte(true)] + ulong_array_bytes(Seq::empty()) + ulong_array_bytes(
        Seq::empty(),
    ) + ulong_array_bytes(Seq::empty()) + ulong_array_bytes(Seq::empty()) + i32_var_bytes(0)
        + i32_var_bytes(0)
}

/// The chunk-data payload: coordinates, the heightmap stub, the encoded
/// sections prefixed by their byte count, and the fixed trailer.
pub open spec fn chunk_data_payload_ok(
    p: Seq<u8>,
    tv: Seq<((Seq<char>, Option<Seq<(Seq<char>, Seq<char>)>>), i32)>,
    chunk: Chunk,
) -> bool {
    exists|db: Seq<u8>|
        {
            &&& #[trigger] is_sections_bytes(db, section_descs(tv, chunk.sections@))
            &&& db.len() <= 0x7fff_ffff
            &&& p == u32_be_bytes(i32_bits(chunk.x)) + u32_be_bytes(i32_bits(chunk.z))
                + heightmaps_nbt_bytes(heightmap_stub()) + i32_var_bytes(db.len() as i32) + db
                + chunk_tail_bytes()
        }
}

/// The join-game payload in wire order.
pub open spec fn join_game_payload_bytes(entity_id: i32, d: JoinGameData) -> Seq<u8> {
    u32_be_bytes(i32_bits(entity_id)) + seq![bool_byte(d.is_hardcore)] + seq![
        d.gamemode.spec_byte(),
    ] + seq![d.previous_gamemode.spec_byte()] + string_arr_bytes(
        crate::writer::strings_view(d.dimension_names@),
    ) + d.dimension_codec_nbt@ + d.dimension_nbt@ + string_bytes(d.dimension_name@) + u64_be_bytes(
        i64_bits(d.hashed_seed),
    ) + i32_var_bytes(d.max_players) + i32_var_bytes(d.view_distance) + i32_var_bytes(
        d.simulation_distance,
    ) + seq![
        bool_byte(d.reduced_debug_info),
        bool_byte(d.enable_respawn_screen),
        bool_byte(d.is_debug),
        bool_byte(d.is_flat),
    ]
}

/// The teleport payload: position and angle bit patterns, flags, the
/// teleport id, and the dismount flag.
pub open spec fn pos_look_payload_bytes(
    x_bits: u64,
    y_bits: u64,
    z_bits: u64,
    yaw_bits: u32,
    pitch_bits: u32,
    flags: u8,
    teleport_id: i32,
    dismount: bool,
) -> Seq<u8> {
    u64_be_bytes(x_bits) + u64_be_bytes(y_bits) + u64_be_bytes(z_bits) + u32_be_bytes(yaw_bits)
        + u32_be_bytes(pitch_bits) + seq![flags] + i32_var_bytes(teleport_id) + seq![
        bool_byte(dismount),
    ]
}

/// A block-entity payload: the packed position, the numeric block-entity
/// id, and the opaque NBT compound.
pub open spec fn block_entity_payload_bytes(be: BlockEntity, be_id: i32) -> Seq<u8> {
    u64_be_bytes(position_word(be.x, be.y, be.z)) + i32_var_bytes(be_id) + be.data_nbt@
}

/// The update-light payload: chunk coordinates, trusted edges, and four
/// empty light masks with no light arrays.
pub open spec fn update_light_payload_bytes(chunk_x: i32, chunk_z: i32) -> Seq<u8> {
    i32_var_bytes(chunk_x) + i32_var_bytes(chunk_z) + seq![bool_byte(true)] + ulong_array_bytes(
        Seq::empty(),
    ) + ulong_array_bytes(Seq::empty()) + ulong_array_bytes(Seq::empty()) + ulong_array_bytes(
        Seq::empty(),
    ) + i32_var_bytes(0) + i32_var_bytes(0)
}

/// The play packets the server sends.
pub enum OutgoingPlayPacket {
    BlockEntityData(BlockEntity),
    CustomPayload(PlayCustomPayload),
    KeepAlive(u64),
    ChunkData { chunk: Chunk },
    UpdateLight { chunk_x: i32, chunk_z: i32 },
    JoinGame { entity_id: i32, data: JoinGameData },
    PlayerPositionAndLook {
        x_bits: u64,
        y_bits: u64,
        z_bits: u64,
        yaw_bits: u32,
        pitch_bits: u32,
        flags: u8,
        teleport_id: i32,
        dismount: bool,
    },
    UpdateViewPosition { chunk_x: i32, chunk_z: i32 },
}

impl OutgoingPlayPacket {
    /// The wire id of each outgoing play packet.
    pub open spec fn spec_packet_id(self) -> i32 {
        match self {
            OutgoingPlayPacket::BlockEntityData(..) => 0x0a,
            OutgoingPlayPacket::CustomPayload(..) => 0x18,
            OutgoingPlayPacket::KeepAlive(..) => 0x21,
            OutgoingPlayPacket::ChunkData { .. } => 0x22,
            OutgoingPlayPacket::UpdateLight { .. } => 0x25,
            OutgoingPlayPacket::JoinGame { .. } => 0x26,
            OutgoingPlayPacket::PlayerPositionAndLook { .. } => 0x38,
            OutgoingPlayPacket::UpdateViewPosition { .. } => 0x49,
        }
    }

    fn packet_id(&self) -> (r: i32)
        ensures
            r == self.spec_packet_id(),
    {
        match self {
            OutgoingPlayPacket::BlockEntityData(..) => 0x0a,
            OutgoingPlayPacket::CustomPayload(..) => 0x18,
            OutgoingPlayPacket::KeepAlive(..) => 0x21,
            OutgoingPlayPacket::ChunkData { .. } => 0x22,
            OutgoingPlayPacket::UpdateLight { .. } => 0x25,
            OutgoingPlayPacket::JoinGame { .. } => 0x26,
            OutgoingPlayPacket::PlayerPositionAndLook { .. } => 0x38,
            OutgoingPlayPacket::UpdateViewPosition { .. } => 0x49,
        }
    }

    /// Builds the payload of the packet. Block entities must resolve in the
    /// table; chunks must be encodable; join data must be within limits.
    pub fn write(&self, block_table: &BlockTable, be_table: &BlockEntityTable) -> (r: Result<
        PacketPayload,
        ProtocolError,
    >)
        requires
            self matches Self::BlockEntityData(be) ==> spec_block_entity_id(
                be_table.view_spec(),
                be.id@,
            ) is Some,
            self matches Self::CustomPayload(p) ==> (p matches PlayCustomPayload::MinecraftBrand {
                brand,
            } && encode_utf8(brand@).len() <= 32767),
            self matches Self::ChunkData { chunk } ==> crate::chunk::chunk_encodable(
                block_table.view_spec(),
                *chunk,
            ) && chunk.sections@.len() <= 16,
            self matches Self::JoinGame { entity_id, data } ==> data.wf(),
        ensures
            match self {
                Self::BlockEntityData(be) => r is Ok && r.unwrap().packet_id == 0x0a
                    && r.unwrap().data@ == block_entity_payload_bytes(
                    *be,
                    spec_block_entity_id(be_table.view_spec(), be.id@).unwrap(),
                ),
                Self::CustomPayload(p) => {
                    match p {
                        PlayCustomPayload::MinecraftBrand { brand } => r is Ok
                            && r.unwrap().packet_id == 0x18 && r.unwrap().data@ == string_bytes(
                            "minecraft:brand"@,
                        ) + string_bytes(brand@),
                    }
                },
                Self::KeepAlive(v) => r is Ok && r.unwrap().packet_id == 0x21 && r.unwrap().data@
                    == u64_be_bytes(*v),
                Self::ChunkData { chunk } => r is Ok && r.unwrap().packet_id == 0x22
                    && chunk_data_payload_ok(r.unwrap().data@, block_table.view_spec(), *chunk),
                Self::UpdateLight { chunk_x, chunk_z } => r is Ok && r.unwrap().packet_id == 0x25
                    && r.unwrap().data@ == update_light_payload_bytes(*chunk_x, *chunk_z),
                Self::JoinGame { entity_id, data } => r is Ok && r.unwrap().packet_id == 0x26
                    && r.unwrap().data@ == join_game_payload_bytes(*entity_id, *data),
                Self::PlayerPositionAndLook {
                    x_bits,
                    y_bits,
                    z_bits,
                    yaw_bits,
                    pitch_bits,
                    flags,
                    teleport_id,
                    dismount,
                } => r is Ok && r.unwrap().packet_id == 0x38 && r.unwrap().data@
                    == pos_look_payload_bytes(
                    *x_bits,
                    *y_bits,
                    *z_bits,
                    *yaw_bits,
                    *pitch_bits,
                    *flags,
                    *teleport_id,
                    *dismount,
                ),
                Self::UpdateViewPosition { chunk_x, chunk_z } => r is Ok && r.unwrap().packet_id
                    == 0x49 && r.unwrap().data@ == i32_var_bytes(*chunk_x) + i32_var_bytes(
                    *chunk_z,
                ),
            },
    {
        match self {
            OutgoingPlayPacket::BlockEntityData(block_entity) => {
                Ok(write_block_entity_data(block_entity, be_table))
            },
            OutgoingPlayPacket::CustomPayload(payload_data) => {
                match payload_data {
                    PlayCustomPayload::MinecraftBrand { brand } => {
                        Ok(write_brand_packet(brand.as_str()))
                    },
                }
            },
            OutgoingPlayPacket::KeepAlive(v) => {
                let mut payload = PacketPayload::new(0x21);
                payload.write_ulong(*v);
                proof {
                    assert(payload.data@ =~= u64_be_bytes(*v));
                }
                Ok(payload)
            },
            OutgoingPlayPacket::ChunkData { chunk } => {
                Ok(write_chunk_data(chunk, block_table))
            },
            OutgoingPlayPacket::UpdateLight { chunk_x, chunk_z } => {
                let mut payload = PacketPayload::new(0x25);
                payload.write_var_int(*chunk_x);
                payload.write_var_int(*chunk_z);
                payload.write_bool(true);
                let empty_arr: Vec<u64> = Vec::new();
                payload.write_ulong_array(&empty_arr);
                payload.write_ulong_array(&empty_arr);
                payload.write_ulong_array(&empty_arr);
                payload.write_ulong_array(&empty_arr);
                payload.write_var_int(0);
                payload.write_var_int(0);
                proof {
                    assert(payload.data@ =~= update_light_payload_bytes(*chunk_x, *chunk_z));
                }
                Ok(payload)
            },
            OutgoingPlayPacket::JoinGame { entity_id, data } => {
                Ok(write_join_game(*entity_id, data))
            },
            OutgoingPlayPacket::PlayerPositionAndLook {
                x_bits,
                y_bits,
                z_bits,
                yaw_bits,
                pitch_bits,
                flags,
                teleport_id,
                dismount,
            } => {
                let mut payload = PacketPayload::new(0x38);
                payload.write_ulong(*x_bits);
                payload.write_ulong(*y_bits);
                payload.write_ulong(*z_bits);
                payload.write_uint_be(*yaw_bits);
                payload.write_uint_be(*pitch_bits);
                payload.write_ubyte(*flags);
                payload.write_var_int(*teleport_id);
                payload.write_bool(*dismount);
                proof {
                    assert(payload.data@ =~= pos_look_payload_bytes(
                        *x_bits,
                        *y_bits,
                        *z_bits,
                        *yaw_bits,
                        *pitch_bits,
                        *flags,
                        *teleport_id,
                        *dismount,
                    ));
                }
                Ok(payload)
            },
            OutgoingPlayPacket::UpdateViewPosition { chunk_x, chunk_z } => {
                let mut payload = PacketPayload::new(0x49);
                payload.write_var_int(*chunk_x);
                payload.write_var_int(*chunk_z);
                proof {
                    assert(payload.data@ =~= i32_var_bytes(*chunk_x) + i32_var_bytes(*chunk_z));
                }
                Ok(payload)
            },
        }
    }
}

/// Builds the brand custom-payload packet: the brand channel name, then
/// the brand string.
pub fn write_brand_packet(brand: &str) -> (r: PacketPayload)
    requires
        encode_utf8(brand@).len() <= 32767,
    ensures
        r.packet_id == 0x18,
        r.data@ == string_bytes("minecraft:brand"@) + string_bytes(brand@),
{
    let mut payload = PacketPayload::new(0x18);
    let channel: &str = "minecraft:brand";
    proof {
        reveal_strlit("minecraft:brand");
        lemma_encode_utf8_len(channel@);
    }
    let res = payload.write_string(channel, 32767);
    let res2 = payload.write_string(brand, 32767);
    proof {
        assert(payload.data@ =~= string_bytes("minecraft:brand"@) + string_bytes(brand@));
    }
    payload
}

/// Builds a block-entity packet: the packed position, the numeric id from
/// the table, and the opaque NBT compound.
pub fn write_block_entity_data(block_entity: &BlockEntity, be_table: &BlockEntityTable) -> (r:
    PacketPayload)
    requires
        spec_block_entity_id(be_table.view_spec(), block_entity.id@) is Some,
    ensures
        r.packet_id == 0x0a,
        r.data@ == block_entity_payload_bytes(
            *block_entity,
            spec_block_entity_id(be_table.view_spec(), block_entity.id@).unwrap(),
        ),
{
    let mut payload = PacketPayload::new(0x0a);
    payload.write_position(block_entity.x, block_entity.y, block_entity.z);
    let be_id = get_block_entity_id(be_table, block_entity.id.as_str()).unwrap();
    payload.write_var_int(be_id);
    payload.write_bytes(block_entity.data_nbt.as_slice());
    proof {
        assert(payload.data@ =~= block_entity_payload_bytes(
            *block_entity,
            spec_block_entity_id(be_table.view_spec(), block_entity.id@).unwrap(),
        ));
    }
    payload
}

/// Builds a chunk-data packet: coordinates, the heightmap stub, the
/// encoded sections, and the fixed trailer.
#[verifier::loop_isolation(false)]
#[verifier::rlimit(100)]
pub fn write_chunk_data(chunk: &Chunk, block_table: &BlockTable) -> (r: PacketPayload)
    requires
        crate::chunk::chunk_encodable(block_table.view_spec(), *chunk),
        chunk.sections@.len() <= 16,
    ensures
        r.packet_id == 0x22,
        chunk_data_payload_ok(r.data@, block_table.view_spec(), *chunk),
{
    let ghost tv = block_table.view_spec();
    let mut payload = PacketPayload::new(0x22);
    payload.write_int(chunk.x);
    payload.write_int(chunk.z);
    let mut heightmap: Vec<i64> = Vec::new();
    for i in 0..36usize
        invariant
            heightmap@.len() == i,
            forall|j: int| 0 <= j < i ==> heightmap@[j] == 0x0100804020100804i64,
    {
        heightmap.push(0x0100804020100804);
    }
    heightmap.push(0x0000000020100804);
    proof {
        assert(heightmap@ =~= heightmap_stub());
    }
    let hm = Heightmaps { motion_blocking: heightmap };
    hm.write_nbt(&mut payload.data);
    let mut data: Vec<u8> = Vec::new();
    chunk.write(block_table, &mut data);
    proof {
        assert(data@.skip(0) =~= data@);
        assert forall|i: int| 0 <= i < section_descs(tv, chunk.sections@).len() implies (
        #[trigger] section_descs(tv, chunk.sections@)[i]).0.len() == 4096 by {
            assert(crate::chunk::section_encodable(tv, chunk.sections@[i]));
        }
        lemma_sections_bytes_len(data@, section_descs(tv, chunk.sections@));
        assert(section_descs(tv, chunk.sections@).len() <= 16);
        assert(section_descs(tv, chunk.sections@).len() * 53272 <= 16 * 53272) by (nonlinear_arith)
            requires
                section_descs(tv, chunk.sections@).len() <= 16,
        ;
    }
    let ghost db = data@;
    payload.write_var_int(data.len() as i32);
    payload.write_bytes(data.as_slice());
    payload.write_var_int(0);
    payload.write_bool(true);
    let empty_arr: Vec<u64> = Vec::new();
    payload.write_ulong_array(&empty_arr);
    payload.write_ulong_array(&empty_arr);
    payload.write_ulong_array(&empty_arr);
    payload.write_ulong_array(&empty_arr);
    payload.write_var_int(0);
    payload.write_var_int(0);
    proof {
        assert(payload.data@ =~= u32_be_bytes(i32_bits(chunk.x)) + u32_be_bytes(i32_bits(chunk.z))
            + heightmaps_nbt_bytes(heightmap_stub()) + i32_var_bytes(db.len() as i32) + db
            + chunk_tail_bytes());
        assert(chunk_data_payload_ok(payload.data@, tv, *chunk));
    }
    payload
}

/// Builds the join-game packet for an entity id.
#[verifier::rlimit(60)]
pub fn write_join_game(entity_id: i32, data: &JoinGameData) -> (r: PacketPayload)
    requires
        data.wf(),
    ensures
        r.packet_id == 0x26,
        r.data@ == join_game_payload_bytes(entity_id, *data),
{
    let mut payload = PacketPayload::new(0x26);
    payload.write_int(entity_id);
    payload.write_bool(data.is_hardcore);
    data.gamemode.write(&mut payload);
    data.previous_gamemode.write(&mut payload);
    payload.write_string_arr(&data.dimension_names);
    payload.write_bytes(data.dimension_codec_nbt.as_slice());
    payload.write_bytes(data.dimension_nbt.as_slice());
    let res = payload.write_string(data.dimension_name.as_str(), 32767);
    payload.write_long(data.hashed_seed);
    payload.write_var_int(data.max_players);
    payload.write_var_int(data.view_distance);
    payload.write_var_int(data.simulation_distance);
    payload.write_bool(data.reduced_debug_info);
    payload.write_bool(data.enable_respawn_screen);
    payload.write_bool(data.is_debug);
    payload.write_bool(data.is_flat);
    proof {
        assert(payload.data@ =~= join_game_payload_bytes(entity_id, *data));
    }
    payload
}

} // verus!
