use crate::auth::{check_signature, forwarding_data_accepted, offline_mode_uuid, offline_uuid_of};
use crate::err::ProtocolError;
use crate::handshake::{sp_handshake, HandshakePacket, ProtocolState};
use crate::login::{sp_plugin_response, IncomingLoginPacket, OutgoingLoginPacket};
use crate::parse::{sp_long, sp_string, sp_uuid, sp_var_int, Parse};
use crate::play::{
    chunk_data_payload_ok, join_game_payload_bytes, pos_look_payload_bytes, write_block_entity_data,
    write_brand_packet, write_chunk_data, write_join_game, IncomingPlayPacket, OutgoingPlayPacket,
};
use crate::reader::PacketData;
use crate::status::{IncomingStatusPacket, OutgoingStatusPacket};
use crate::store::{spec_assigned, BlockEntity, EntityIdAllocator, ServerWorld};
use crate::text::lemma_encode_utf8_len;
use crate::wire::{lemma_var_term_idx_bounds, u64_be_bytes, uuid_be_bytes};
use crate::writer::{i32_var_bytes, string_bytes, PacketPayload};
use vstd::prelude::*;
use vstd::utf8::{decode_utf8_encode_utf8, encode_utf8};

verus! {

// ===========================================================================
// The per-connection state machine. The driver around it performs the I/O:
// it feeds each decoded frame in, sends the packets a step hands back
// (pausing between the two batches when asked), and closes when told to.
// A keepalive packet is produced separately on the driver's timer.
// ===========================================================================

/// Where a connection stands.
pub enum Phase {
    AwaitHandshake,
    StatusAwaitRequest,
    StatusAwaitPing,
    LoginAwaitStart,
    LoginAwaitPluginResponse { username: String },
    Play,
    Closed,
}

pub struct Connection {
    pub phase: Phase,
}

/// What the driver must do after a frame: send `pre`, pause two seconds if
/// `pause` is set (the vanilla client needs the gap during world init),
/// send `post`, and close the connection if `close` is set.
pub struct Step {
    pub pre: Vec<PacketPayload>,
    pub pause: bool,
    pub post: Vec<PacketPayload>,
    pub close: bool,
}

/// A step that sends nothing and keeps the connection open.
pub open spec fn quiet_step(s: Step) -> bool {
    s.pre@.len() == 0 && s.post@.len() == 0 && !s.pause && !s.close
}

/// A step that sends nothing and closes.
pub open spec fn closing_step(s: Step) -> bool {
    s.pre@.len() == 0 && s.post@.len() == 0 && !s.pause && s.close
}

/// The first teleport packet: the spawn point, zero angles, no flags.
pub open spec fn spawn_pos_look_ok(p: PacketPayload, world: ServerWorld) -> bool {
    p.packet_id == 0x38 && p.data@ == pos_look_payload_bytes(
        world.spawn_x_bits,
        world.spawn_y_bits,
        world.spawn_z_bits,
        0,
        0,
        0,
        0,
        false,
    )
}

/// One block-entity packet for entry `j` of the world's list.
pub open spec fn world_block_entity_ok(p: PacketPayload, world: ServerWorld, j: int) -> bool {
    p.packet_id == 0x0a && p.data@ == crate::play::block_entity_payload_bytes(
        world.block_entities@[j],
        crate::blocks::spec_block_entity_id(
            world.block_entity_table.view_spec(),
            world.block_entities@[j].id@,
        ).unwrap(),
    )
}

/// The packets sent for chunk `i`: its chunk data, then the whole
/// block-entity list (the list is resent with every chunk, a known quirk
/// of this server's join sequence).
pub open spec fn chunk_group_ok(s: Seq<PacketPayload>, world: ServerWorld, i: int) -> bool {
    let m = world.block_entities@.len() as int;
    &&& s.len() == 1 + m
    &&& s[0].packet_id == 0x22
    &&& chunk_data_payload_ok(s[0].data@, world.block_table.view_spec(), world.chunks@[i])
    &&& forall|j: int| 0 <= j < m ==> world_block_entity_ok(#[trigger] s[1 + j], world, j)
}

/// The first `k` chunk groups, laid end to end.
pub open spec fn all_groups_ok(s: Seq<PacketPayload>, world: ServerWorld, k: int) -> bool {
    let g = 1 + world.block_entities@.len() as int;
    &&& s.len() == k * g
    &&& forall|ci: int|
        0 <= ci < k ==> chunk_group_ok(#[trigger] s.subrange(ci * g, (ci + 1) * g), world, ci)
}

/// Appending one more correct group extends a correct run of groups.
#[verifier::rlimit(100)]
pub proof fn lemma_groups_snoc(s: Seq<PacketPayload>, s2: Seq<PacketPayload>, world: ServerWorld, k: int)
    requires
        k >= 0,
        all_groups_ok(s, world, k),
        chunk_group_ok(s2, world, k),
    ensures
        all_groups_ok(s + s2, world, k + 1),
{
    let g = 1 + world.block_entities@.len() as int;
    assert(k * g >= 0) by (nonlinear_arith)
        requires
            k >= 0,
            g >= 1,
    ;
    assert((k + 1) * g == k * g + g) by (nonlinear_arith);
    assert((s + s2).len() == (k + 1) * g);
    assert forall|ci: int| 0 <= ci < k + 1 implies chunk_group_ok(
        #[trigger] (s + s2).subrange(ci * g, (ci + 1) * g),
        world,
        ci,
    ) by {
        assert((ci + 1) * g == ci * g + g) by (nonlinear_arith);
        if ci < k {
            assert(ci * g + g <= k * g) by (nonlinear_arith)
                requires
                    0 <= ci < k,
                    g >= 1,
            ;
            assert((s + s2).subrange(ci * g, (ci + 1) * g) =~= s.subrange(ci * g, (ci + 1) * g));
        } else {
            assert((s + s2).subrange(ci * g, (ci + 1) * g) =~= s2);
        }
    }
}

/// The whole post-pause batch: the spawn teleport, every chunk group, the
/// view position, and the teleport again.
pub open spec fn play_post_ok(post: Seq<PacketPayload>, world: ServerWorld) -> bool {
    let n = world.chunks@.len() as int;
    let m = world.block_entities@.len() as int;
    let g = 1 + m;
    &&& post.len() == 1 + n * g + 2
    &&& spawn_pos_look_ok(post[0], world)
    &&& all_groups_ok(post.subrange(1, 1 + n * g), world, n)
    &&& post[post.len() - 2].packet_id == 0x49 && post[post.len() - 2].data@ == i32_var_bytes(0)
        + i32_var_bytes(0)
    &&& spawn_pos_look_ok(post[post.len() - 1], world)
}

/// The pre-pause batch of a completed login: the login success for the
/// identity, the join game for the assigned entity id, and the brand.
pub open spec fn login_pre_ok(
    pre: Seq<PacketPayload>,
    world: ServerWorld,
    uuid: u128,
    username: Seq<char>,
    entity_id: i32,
) -> bool {
    &&& pre.len() == 3
    &&& pre[0].packet_id == 2 && pre[0].data@ == uuid_be_bytes(uuid) + string_bytes(username)
    &&& pre[1].packet_id == 0x26 && pre[1].data@ == join_game_payload_bytes(
        entity_id,
        world.join_game,
    )
    &&& pre[2].packet_id == 0x18 && pre[2].data@ == string_bytes("minecraft:brand"@)
        + string_bytes(world.brand@)
}

/// The whole step of a completed login.
pub open spec fn login_step_ok(
    step: Step,
    world: ServerWorld,
    ids_pre: Seq<(u128, i32)>,
    uuid: u128,
    username: Seq<char>,
) -> bool {
    let entity_id = match spec_assigned(ids_pre, uuid) {
        Some(id) => id,
        None => ids_pre.len() as i32,
    };
    &&& login_pre_ok(step.pre@, world, uuid, username, entity_id)
    &&& step.pause
    &&& play_post_ok(step.post@, world)
    &&& !step.close
}

/// The keepalive packet for a clock reading (UNIX seconds).
pub fn keepalive_packet(now_secs: u64) -> (r: PacketPayload)
    ensures
        r.packet_id == 0x21,
        r.data@ == u64_be_bytes(now_secs),
{
    let p = OutgoingPlayPacket::KeepAlive(now_secs);
    let bt = crate::blocks::BlockTable { entries: Vec::new() };
    let bet = crate::blocks::BlockEntityTable { entries: Vec::new() };
    match p.write(&bt, &bet) {
        Ok(payload) => payload,
        Err(_) => PacketPayload::new(0x21),
    }
}

impl Connection {
    pub fn new() -> (r: Self)
        ensures
            r.phase is AwaitHandshake,
    {
        Self { phase: Phase::AwaitHandshake }
    }

    /// Builds the step that completes a login: send the success packet,
    /// join the player, pause, then stream the world.
    #[verifier::loop_isolation(false)]
    #[verifier::rlimit(100)]
    fn complete_login(
        world: &ServerWorld,
        ids: &mut EntityIdAllocator,
        uuid: u128,
        username: String,
    ) -> (step: Step)
        requires
            world.wf(),
            old(ids).wf(),
            old(ids).entries@.len() < 0x7fff_ffff,
            encode_utf8(username@).len() <= 16,
        ensures
            final(ids).wf(),
            old(ids).entries@.len() <= final(ids).entries@.len() <= old(ids).entries@.len() + 1,
            login_step_ok(step, *world, old(ids).entries@, uuid, username@),
    {
        let entity_id = ids.assign(uuid);
        let mut pre: Vec<PacketPayload> = Vec::new();
        let success = OutgoingLoginPacket::LoginSuccess { uuid, username };
        let success_payload = match success.write() {
            Ok(p) => p,
            Err(_) => {
                proof {
                    assert(false);
                }
                PacketPayload::new(2)
            },
        };
        pre.push(success_payload);
        pre.push(write_join_game(entity_id, &world.join_game));
        pre.push(write_brand_packet(world.brand.as_str()));
        let post = build_play_post(world);
        Step { pre, pause: true, post, close: false }
    }

    /// Handles a login start: with a forwarding key configured, asks the
    /// proxy for the player's identity; otherwise derives the offline UUID
    /// and completes the login.
    #[verifier::rlimit(100)]
    fn start_login(
        &mut self,
        world: &ServerWorld,
        ids: &mut EntityIdAllocator,
        username: String,
    ) -> (r: Step)
        requires
            world.wf(),
            old(ids).wf(),
            old(ids).entries@.len() < 0x7fff_ffff,
            encode_utf8(username@).len() <= 16,
        ensures
            final(ids).wf(),
            old(ids).entries@.len() <= final(ids).entries@.len() <= old(ids).entries@.len() + 1,
            if world.forwarding_key is Some {
                &&& !r.close && !r.pause
                &&& r.pre@.len() == 1 && r.post@.len() == 0
                &&& r.pre@[0].packet_id == 4
                &&& r.pre@[0].data@ == i32_var_bytes(1) + string_bytes("velocity:player_info"@)
                &&& final(self).phase matches Phase::LoginAwaitPluginResponse { username: u } && u@
                    == username@
            } else {
                &&& login_step_ok(
                    r,
                    *world,
                    old(ids).entries@,
                    offline_uuid_of(encode_utf8(username@)),
                    username@,
                )
                &&& final(self).phase is Play
            },
    {
        if world.forwarding_key.is_some() {
            let req = OutgoingLoginPacket::LoginPluginRequest {
                message_id: 1,
                channel: velocity_channel(),
                data: Vec::new(),
            };
            proof {
                reveal_strlit("velocity:player_info");
                lemma_encode_utf8_len("velocity:player_info"@);
            }
            let payload = match req.write() {
                Ok(p) => p,
                Err(_) => {
                    proof {
                        assert(false);
                    }
                    PacketPayload::new(4)
                },
            };
            let mut pre: Vec<PacketPayload> = Vec::new();
            pre.push(payload);
            self.phase = Phase::LoginAwaitPluginResponse { username };
            proof {
                assert(pre@[0].data@ =~= i32_var_bytes(1) + string_bytes(
                    "velocity:player_info"@,
                ));
            }
            Step { pre, pause: false, post: Vec::new(), close: false }
        } else {
            let uuid = offline_mode_uuid(username.as_str());
            let step = Self::complete_login(world, ids, uuid, username);
            self.phase = Phase::Play;
            step
        }
    }

    /// Parses an authenticated forwarding payload and completes the login
    /// with the forwarded identity.
    #[verifier::rlimit(100)]
    fn finish_forwarded(
        &mut self,
        world: &ServerWorld,
        ids: &mut EntityIdAllocator,
        payload_rest: Vec<u8>,
    ) -> (r: Result<Step, ProtocolError>)
        requires
            world.wf(),
            old(ids).wf(),
            old(ids).entries@.len() < 0x7fff_ffff,
        ensures
            final(ids).wf(),
            old(ids).entries@.len() <= final(ids).entries@.len() <= old(ids).entries@.len() + 1,
            forwarded_login_ok(r, *final(self), *world, old(ids).entries@, payload_rest@),
    {
        let mut pcur = PacketData::new(0, payload_rest);
        proof {
            lemma_var_term_idx_bounds(pcur.remaining());
        }
        let _version = match pcur.read_var_int() {
            Ok(v) => v,
            Err(e) => { return Err(e) },
        };
        proof {
            assert(pcur.remaining() =~= payload_rest@.skip(pcur.pos as int));
            lemma_var_term_idx_bounds(pcur.remaining());
        }
        let _client_address = match pcur.read_string(32767) {
            Ok(v) => v,
            Err(e) => { return Err(e) },
        };
        proof {
            assert(pcur.remaining() =~= payload_rest@.skip(pcur.pos as int));
        }
        let uuid = match pcur.read_uuid() {
            Ok(v) => v,
            Err(e) => { return Err(e) },
        };
        proof {
            assert(pcur.remaining() =~= payload_rest@.skip(pcur.pos as int));
        }
        let ghost before_name = pcur.remaining();
        proof {
            lemma_var_term_idx_bounds(before_name);
            lemma_sp_string_len(before_name, 16);
        }
        let username = match pcur.read_string(16) {
            Ok(v) => v,
            Err(e) => { return Err(e) },
        };
        let step = Self::complete_login(world, ids, uuid, username);
        self.phase = Phase::Play;
        Ok(step)
    }

    /// Advances the connection on one inbound frame.
    #[verifier::rlimit(100)]
    pub fn handle_frame(
        &mut self,
        frame: PacketData,
        world: &ServerWorld,
        ids: &mut EntityIdAllocator,
    ) -> (r: Result<Step, ProtocolError>)
        requires
            frame.wf(),
            world.wf(),
            old(ids).wf(),
            old(ids).entries@.len() < 0x7fff_ffff,
        ensures
            final(ids).wf(),
            old(ids).entries@.len() <= final(ids).entries@.len() <= old(ids).entries@.len() + 1,
            match old(self).phase {
                Phase::AwaitHandshake => {
                    if frame.packet_id != 0 {
                        r == Err::<Step, ProtocolError>(ProtocolError::MissingHandshake)
                    } else {
                        match sp_handshake(frame.remaining()) {
                            Parse::Fail { e } => r == Err::<Step, ProtocolError>(e),
                            Parse::Done { v, used } => {
                                if v.3 != 1 && v.3 != 2 {
                                    r == Err::<Step, ProtocolError>(
                                        ProtocolError::InvalidEnumValue(v.3),
                                    )
                                } else if v.0 != 757 {
                                    r is Ok && closing_step(r.unwrap()) && final(self).phase
                                        is Closed
                                } else {
                                    r is Ok && quiet_step(r.unwrap()) && (if v.3 == 1 {
                                        final(self).phase is StatusAwaitRequest
                                    } else {
                                        final(self).phase is LoginAwaitStart
                                    })
                                }
                            },
                        }
                    }
                },
                Phase::StatusAwaitRequest => {
                    if frame.packet_id == 0 {
                        &&& r is Ok
                        &&& !r.unwrap().close && !r.unwrap().pause
                        &&& r.unwrap().pre@.len() == 1 && r.unwrap().post@.len() == 0
                        &&& r.unwrap().pre@[0].packet_id == 0
                        &&& r.unwrap().pre@[0].data@ == string_bytes(world.status_json@)
                        &&& final(self).phase is StatusAwaitPing
                    } else if frame.packet_id == 1 {
                        match sp_long(frame.remaining()) {
                            Parse::Fail { e } => r == Err::<Step, ProtocolError>(e),
                            Parse::Done { v, used } => r == Err::<Step, ProtocolError>(
                                ProtocolError::MissingRequest,
                            ),
                        }
                    } else {
                        r == Err::<Step, ProtocolError>(
                            ProtocolError::InvalidPacketId(frame.packet_id),
                        )
                    }
                },
                Phase::StatusAwaitPing => {
                    if frame.packet_id == 1 {
                        match sp_long(frame.remaining()) {
                            Parse::Fail { e } => r == Err::<Step, ProtocolError>(e),
                            Parse::Done { v, used } => {
                                &&& r is Ok
                                &&& r.unwrap().close && !r.unwrap().pause
                                &&& r.unwrap().pre@.len() == 1 && r.unwrap().post@.len() == 0
                                &&& r.unwrap().pre@[0].packet_id == 1
                                &&& r.unwrap().pre@[0].data@ == u64_be_bytes(
                                    crate::wire::i64_bits(v),
                                )
                                &&& final(self).phase is Closed
                            },
                        }
                    } else if frame.packet_id == 0 {
                        r is Ok && closing_step(r.unwrap()) && final(self).phase is Closed
                    } else {
                        r == Err::<Step, ProtocolError>(
                            ProtocolError::InvalidPacketId(frame.packet_id),
                        )
                    }
                },
                Phase::LoginAwaitStart => {
                    if frame.packet_id == 0 {
                        match sp_string(frame.remaining(), 16) {
                            Parse::Fail { e } => r == Err::<Step, ProtocolError>(e),
                            Parse::Done { v: username, used } => {
                                if world.forwarding_key is Some {
                                    &&& r is Ok
                                    &&& !r.unwrap().close && !r.unwrap().pause
                                    &&& r.unwrap().pre@.len() == 1 && r.unwrap().post@.len() == 0
                                    &&& r.unwrap().pre@[0].packet_id == 4
                                    &&& r.unwrap().pre@[0].data@ == i32_var_bytes(1)
                                        + string_bytes("velocity:player_info"@)
                                    &&& final(self).phase matches Phase::LoginAwaitPluginResponse {
                                        username: u,
                                    } && u@ == username
                                } else {
                                    &&& r is Ok
                                    &&& login_step_ok(
                                        r.unwrap(),
                                        *world,
                                        old(ids).entries@,
                                        offline_uuid_of(encode_utf8(username)),
                                        username,
                                    )
                                    &&& final(self).phase is Play
                                }
                            },
                        }
                    } else if frame.packet_id == 2 {
                        match sp_plugin_response(frame.remaining()) {
                            Parse::Fail { e } => r == Err::<Step, ProtocolError>(e),
                            Parse::Done { v, used } => r is Ok && closing_step(r.unwrap()) && final(self).phase is Closed,
                        }
                    } else {
                        r == Err::<Step, ProtocolError>(
                            ProtocolError::InvalidPacketId(frame.packet_id),
                        )
                    }
                },
                Phase::LoginAwaitPluginResponse { username: started } => {
                    if frame.packet_id == 2 {
                        match sp_plugin_response(frame.remaining()) {
                            Parse::Fail { e } => r == Err::<Step, ProtocolError>(e),
                            Parse::Done { v, used } => {
                                let (mid, successful, data) = v;
                                if !successful || mid != 1 {
                                    r is Ok && closing_step(r.unwrap()) && final(self).phase
                                        is Closed
                                } else if world.forwarding_key is None {
                                    r is Ok && closing_step(r.unwrap()) && final(self).phase
                                        is Closed
                                } else if !forwarding_data_accepted(
                                    world.forwarding_key.unwrap()@,
                                    data,
                                ) {
                                    r is Ok && closing_step(r.unwrap()) && final(self).phase
                                        is Closed
                                } else {
                                    forwarded_login_ok(
                                        r,
                                        *final(self),
                                        *world,
                                        old(ids).entries@,
                                        data.skip(32),
                                    )
                                }
                            },
                        }
                    } else if frame.packet_id == 0 {
                        match sp_string(frame.remaining(), 16) {
                            Parse::Fail { e } => r == Err::<Step, ProtocolError>(e),
                            Parse::Done { v, used } => r is Ok && closing_step(r.unwrap()) && final(self).phase is Closed,
                        }
                    } else {
                        r == Err::<Step, ProtocolError>(
                            ProtocolError::InvalidPacketId(frame.packet_id),
                        )
                    }
                },
                Phase::Play => match crate::play::sp_play_parse_err(
                    frame.packet_id,
                    frame.remaining(),
                ) {
                    Some(e) => r == Err::<Step, ProtocolError>(e),
                    None => r is Ok && quiet_step(r.unwrap()) && final(self).phase is Play,
                },
                Phase::Closed => r is Ok && closing_step(r.unwrap()),
            },
    {
        let mut frame = frame;
        let ghost fr0 = frame.remaining();
        let mut current = Phase::Closed;
        core::mem::swap(&mut current, &mut self.phase);
        match current {
            Phase::AwaitHandshake => {
                if frame.packet_id != 0 {
                    return Err(ProtocolError::MissingHandshake);
                }
                let hs = match HandshakePacket::read(&mut frame) {
                    Ok(h) => h,
                    Err(e) => { return Err(e) },
                };
                if hs.protocol_version != 757 {
                    self.phase = Phase::Closed;
                    return Ok(
                        Step { pre: Vec::new(), pause: false, post: Vec::new(), close: true },
                    );
                }
                self.phase = match hs.next_state {
                    ProtocolState::Status => Phase::StatusAwaitRequest,
                    ProtocolState::Login => Phase::LoginAwaitStart,
                };
                Ok(Step { pre: Vec::new(), pause: false, post: Vec::new(), close: false })
            },
            Phase::StatusAwaitRequest => {
                let pkt = match IncomingStatusPacket::read(frame.packet_id, &mut frame) {
                    Ok(Some(p)) => p,
                    Ok(None) => { return Err(ProtocolError::InvalidPacketId(frame.packet_id)) },
                    Err(e) => { return Err(e) },
                };
                match pkt {
                    IncomingStatusPacket::Request => {
                        let resp = OutgoingStatusPacket::Response(world.status_json.clone());
                        let payload = match resp.write() {
                            Ok(p) => p,
                            Err(_) => {
                                proof {
                                    assert(false);
                                }
                                PacketPayload::new(0)
                            },
                        };
                        let mut pre: Vec<PacketPayload> = Vec::new();
                        pre.push(payload);
                        self.phase = Phase::StatusAwaitPing;
                        Ok(Step { pre, pause: false, post: Vec::new(), close: false })
                    },
                    IncomingStatusPacket::Ping(_) => Err(ProtocolError::MissingRequest),
                }
            },
            Phase::StatusAwaitPing => {
                let pkt = match IncomingStatusPacket::read(frame.packet_id, &mut frame) {
                    Ok(Some(p)) => p,
                    Ok(None) => { return Err(ProtocolError::InvalidPacketId(frame.packet_id)) },
                    Err(e) => { return Err(e) },
                };
                match pkt {
                    IncomingStatusPacket::Ping(v) => {
                        let pong = OutgoingStatusPacket::Pong(v);
                        let payload = match pong.write() {
                            Ok(p) => p,
                            Err(_) => {
                                proof {
                                    assert(false);
                                }
                                PacketPayload::new(1)
                            },
                        };
                        let mut pre: Vec<PacketPayload> = Vec::new();
                        pre.push(payload);
                        self.phase = Phase::Closed;
                        Ok(Step { pre, pause: false, post: Vec::new(), close: true })
                    },
                    IncomingStatusPacket::Request => {
                        self.phase = Phase::Closed;
                        Ok(Step { pre: Vec::new(), pause: false, post: Vec::new(), close: true })
                    },
                }
            },
            Phase::LoginAwaitStart => {
                let pkt = match IncomingLoginPacket::read(frame.packet_id, &mut frame) {
                    Ok(p) => p,
                    Err(e) => { return Err(e) },
                };
                match pkt {
                    IncomingLoginPacket::LoginStart { username } => {
                        proof {
                            lemma_sp_string_len(fr0, 16);
                        }
                        Ok(self.start_login(world, ids, username))
                    },
                    IncomingLoginPacket::LoginPluginResponse { .. } => {
                        self.phase = Phase::Closed;
                        Ok(Step { pre: Vec::new(), pause: false, post: Vec::new(), close: true })
                    },
                }
            },
            Phase::LoginAwaitPluginResponse { username: _started } => {
                let pkt = match IncomingLoginPacket::read(frame.packet_id, &mut frame) {
                    Ok(p) => p,
                    Err(e) => { return Err(e) },
                };
                match pkt {
                    IncomingLoginPacket::LoginPluginResponse { message_id, successful, data } => {
                        if !successful || message_id != 1 {
                            self.phase = Phase::Closed;
                            return Ok(
                                Step {
                                    pre: Vec::new(),
                                    pause: false,
                                    post: Vec::new(),
                                    close: true,
                                },
                            );
                        }
                        let key = match &world.forwarding_key {
                            Some(k) => k,
                            None => {
                                self.phase = Phase::Closed;
                                return Ok(
                                    Step {
                                        pre: Vec::new(),
                                        pause: false,
                                        post: Vec::new(),
                                        close: true,
                                    },
                                );
                            },
                        };
                        if data.len() < 32 {
                            self.phase = Phase::Closed;
                            proof {
                                assert(!forwarding_data_accepted(
                                    world.forwarding_key.unwrap()@,
                                    data@,
                                ));
                            }
                            return Ok(
                                Step {
                                    pre: Vec::new(),
                                    pause: false,
                                    post: Vec::new(),
                                    close: true,
                                },
                            );
                        }
                        let mut cursor = PacketData::new(0, data);
                        let sig = read_exactly(&mut cursor, 32);
                        let payload_rest = cursor.read_remaining();
                        if !check_signature(key.as_slice(), sig.as_slice(), payload_rest.as_slice())
                             {
                            self.phase = Phase::Closed;
                            return Ok(
                                Step {
                                    pre: Vec::new(),
                                    pause: false,
                                    post: Vec::new(),
                                    close: true,
                                },
                            );
                        }
                        self.finish_forwarded(world, ids, payload_rest)
                    },
                    IncomingLoginPacket::LoginStart { .. } => {
                        self.phase = Phase::Closed;
                        Ok(Step { pre: Vec::new(), pause: false, post: Vec::new(), close: true })
                    },
                }
            },
            Phase::Play => {
                match IncomingPlayPacket::read(frame.packet_id, &mut frame) {
                    Ok(_) => {
                        self.phase = Phase::Play;
                        Ok(Step { pre: Vec::new(), pause: false, post: Vec::new(), close: false })
                    },
                    Err(e) => Err(e),
                }
            },
            Phase::Closed => {
                Ok(Step { pre: Vec::new(), pause: false, post: Vec::new(), close: true })
            },
        }
    }
}

/// The plugin-request channel for modern forwarding.
fn velocity_channel() -> (r: String)
    ensures
        r@ == "velocity:player_info"@,
{
    let s: &str = "velocity:player_info";
    s.to_owned()
}

/// The outcome of a forwarded login whose signature checked out: the
/// payload fields drive the completed login, and parse errors surface.
pub open spec fn forwarded_login_ok(
    r: Result<Step, ProtocolError>,
    conn: Connection,
    world: ServerWorld,
    ids_pre: Seq<(u128, i32)>,
    payload: Seq<u8>,
) -> bool {
    match sp_var_int(payload) {
        Parse::Fail { e } => r == Err::<Step, ProtocolError>(e),
        Parse::Done { v: _version, used: u1 } => match sp_string(payload.skip(u1), 32767) {
            Parse::Fail { e } => r == Err::<Step, ProtocolError>(e),
            Parse::Done { v: _addr, used: u2 } => match sp_uuid(payload.skip(u1 + u2)) {
                Parse::Fail { e } => r == Err::<Step, ProtocolError>(e),
                Parse::Done { v: uuid, used: u3 } => match sp_string(
                    payload.skip(u1 + u2 + u3),
                    16,
                ) {
                    Parse::Fail { e } => r == Err::<Step, ProtocolError>(e),
                    Parse::Done { v: username, used: u4 } => r is Ok && login_step_ok(
                        r.unwrap(),
                        world,
                        ids_pre,
                        uuid,
                        username,
                    ) && conn.phase is Play,
                },
            },
        },
    }
}

/// Copies the next `n` bytes out of the cursor. The caller has checked
/// that they are there.
fn read_exactly(cursor: &mut PacketData, n: usize) -> (r: Vec<u8>)
    requires
        old(cursor).wf(),
        old(cursor).remaining().len() >= n,
    ensures
        final(cursor).advanced_from(*old(cursor)),
        r@ == old(cursor).remaining().take(n as int),
        final(cursor).remaining() == old(cursor).remaining().skip(n as int),
        final(cursor).pos == old(cursor).pos + n,
{
    let mut out: Vec<u8> = Vec::new();
    let start = cursor.pos;
    let dlen = cursor.data.len();
    proof {
        assert(start + n <= dlen);
    }
    for i in 0..n
        invariant
            cursor.wf(),
            cursor.pos == start,
            dlen == cursor.data@.len(),
            start + n <= dlen,
            cursor.data@ == old(cursor).data@,
            cursor.packet_id == old(cursor).packet_id,
            start == old(cursor).pos,
            out@ =~= cursor.data@.subrange(start as int, start + i),
        decreases n - i,
    {
        out.push(cursor.data[start + i]);
        proof {
            assert(out@ =~= cursor.data@.subrange(start as int, start + i + 1));
        }
    }
    cursor.pos = start + n;
    proof {
        assert(out@ =~= old(cursor).remaining().take(n as int));
        assert(cursor.remaining() =~= old(cursor).remaining().skip(n as int));
    }
    out
}


/// Builds the chunk packets: for every chunk in order, its chunk data and
/// then the block-entity list.
#[verifier::rlimit(100)]
fn build_chunk_packets(world: &ServerWorld) -> (out: Vec<PacketPayload>)
    requires
        world.wf(),
    ensures
        all_groups_ok(out@, *world, world.chunks@.len() as int),
{
    let mut out: Vec<PacketPayload> = Vec::new();
    proof {
        assert(all_groups_ok(out@, *world, 0));
    }
    for i in 0..world.chunks.len()
        invariant
            world.wf(),
            all_groups_ok(out@, *world, i as int),
    {
        let ghost before = out@;
        push_chunk_group(&mut out, world, i);
        proof {
            let grp = out@.skip(before.len() as int);
            lemma_groups_snoc(before, grp, *world, i as int);
            assert(out@ =~= before + grp);
        }
    }
    out
}

/// Builds the post-pause batch: the spawn teleport, every chunk with the
/// block-entity list after it, the view position, and the teleport again.
#[verifier::rlimit(100)]
fn build_play_post(world: &ServerWorld) -> (post: Vec<PacketPayload>)
    requires
        world.wf(),
    ensures
        play_post_ok(post@, *world),
{
    let ghost n = world.chunks@.len() as int;
    let ghost g = 1 + world.block_entities@.len() as int;
    let mut post: Vec<PacketPayload> = Vec::new();
    post.push(spawn_pos_look_packet(world));
    let ghost pl0 = post@[0];
    let mut cps = build_chunk_packets(world);
    let ghost cps0 = cps@;
    proof {
        assert(cps0.len() == n * g);
        assert(cps@ =~= cps0.skip(0));
        assert(post@ =~= seq![pl0] + cps0.take(0));
    }
    while cps.len() > 0
        invariant
            post@.len() + cps@.len() == 1 + cps0.len(),
            post@ =~= seq![pl0] + cps0.take(post@.len() - 1),
            cps@ =~= cps0.skip(post@.len() - 1),
        decreases cps@.len(),
    {
        let ghost k = post@.len() as int - 1;
        let c = cps.remove(0);
        proof {
            assert(c == cps0[k]);
        }
        post.push(c);
        proof {
            assert(cps0.take(k + 1) =~= cps0.take(k).push(cps0[k]));
            assert(post@ =~= seq![pl0] + cps0.take(k + 1));
            assert(cps@ =~= cps0.skip(k + 1));
        }
    }
    proof {
        assert(cps0.take(cps0.len() as int) =~= cps0);
        assert(post@ =~= seq![pl0] + cps0);
    }
    let mut uv_payload = PacketPayload::new(0x49);
    uv_payload.write_var_int(0);
    uv_payload.write_var_int(0);
    post.push(uv_payload);
    post.push(spawn_pos_look_packet(world));
    proof {
        assert(post@.len() == 1 + n * g + 2);
        assert(post@[0] == pl0);
        assert(post@.subrange(1, 1 + n * g) =~= cps0);
        assert(post@[post@.len() - 2].packet_id == 0x49);
    }
    post
}

/// Appends the packets for chunk `i`: its chunk data, then one packet for
/// every block entity in the world.
#[verifier::loop_isolation(false)]
#[verifier::rlimit(100)]
fn push_chunk_group(post: &mut Vec<PacketPayload>, world: &ServerWorld, i: usize)
    requires
        world.wf(),
        i < world.chunks@.len(),
    ensures
        final(post)@.len() == old(post)@.len() + 1 + world.block_entities@.len(),
        final(post)@.take(old(post)@.len() as int) == old(post)@,
        chunk_group_ok(final(post)@.skip(old(post)@.len() as int), *world, i as int),
{
    let ghost before = post@;
    post.push(write_chunk_data(&world.chunks[i], &world.block_table));
    for j in 0..world.block_entities.len()
        invariant
            post@.len() == before.len() + 1 + j,
            post@.take(before.len() as int) == before,
            post@[before.len() as int].packet_id == 0x22,
            chunk_data_payload_ok(
                post@[before.len() as int].data@,
                world.block_table.view_spec(),
                world.chunks@[i as int],
            ),
            forall|bj: int|
                0 <= bj < j ==> world_block_entity_ok(
                    #[trigger] post@[before.len() + 1 + bj],
                    *world,
                    bj,
                ),
    {
        post.push(write_block_entity_data(&world.block_entities[j], &world.block_entity_table));
        proof {
            assert(post@.take(before.len() as int) =~= before);
        }
    }
    proof {
        let grp = post@.skip(before.len() as int);
        assert(grp.len() == 1 + world.block_entities@.len());
        assert(grp[0] == post@[before.len() as int]);
        assert forall|bj: int| 0 <= bj < world.block_entities@.len() implies world_block_entity_ok(
            #[trigger] grp[1 + bj],
            *world,
            bj,
        ) by {
            assert(grp[1 + bj] == post@[before.len() + 1 + bj]);
        }
        assert(post@.take(before.len() as int) =~= before);
    }
}

/// The spawn teleport packet: spawn point bits, zero angles, no flags.
fn spawn_pos_look_packet(world: &ServerWorld) -> (r: PacketPayload)
    ensures
        spawn_pos_look_ok(r, *world),
{
    let mut payload = PacketPayload::new(0x38);
    payload.write_ulong(world.spawn_x_bits);
    payload.write_ulong(world.spawn_y_bits);
    payload.write_ulong(world.spawn_z_bits);
    payload.write_uint_be(0);
    payload.write_uint_be(0);
    payload.write_ubyte(0);
    payload.write_var_int(0);
    payload.write_bool(false);
    proof {
        assert(payload.data@ =~= pos_look_payload_bytes(
            world.spawn_x_bits,
            world.spawn_y_bits,
            world.spawn_z_bits,
            0,
            0,
            0,
            0,
            false,
        ));
    }
    payload
}

/// A string decoded under a byte cap re-encodes to at most that many
/// bytes: the parse checked the length prefix, and decoding then encoding
/// gives the bytes back.
pub proof fn lemma_sp_string_len(s: Seq<u8>, max: i32)
    requires
        max >= 0,
    ensures
        sp_string(s, max) matches Parse::Done { v, used } ==> encode_utf8(v).len() <= max,
{
    match sp_var_int(s) {
        Parse::Fail { e } => {},
        Parse::Done { v: length, used } => {
            if 0 <= length <= max && s.len() - used >= length {
                let bytes = s.skip(used).take(length as int);
                if vstd::utf8::valid_utf8(bytes) {
                    decode_utf8_encode_utf8(bytes);
                    lemma_var_term_idx_bounds(s);
                    assert(bytes.len() == length);
                }
            }
        },
    }
}

} // verus!
