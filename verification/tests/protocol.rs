use limbo::auth::{check_signature, offline_mode_uuid};
use limbo::blocks::{get_block_entity_id, get_state_id, BlockEntityTable, BlockState, BlockTable};
use limbo::chunk::{build_palette_data, Chunk, ChunkSection};
use limbo::err::ProtocolError;
use limbo::frame::MinecraftFramedCodec;
use limbo::packed::{mask, PackedBitArray};
use limbo::play::write_chunk_data;
use limbo::reader::PacketData;
use limbo::session::{keepalive_packet, Connection};
use limbo::store::{EntityIdAllocator, ServerWorld};
use limbo::template::{create_empty_section, MapTemplate, TemplateChunk};
use limbo::writer::PacketPayload;

fn payload_bytes(p: &PacketPayload) -> Vec<u8> {
    p.data.clone()
}

fn cursor(bytes: Vec<u8>) -> PacketData {
    PacketData::new(0, bytes)
}

#[test]
fn var_int_round_trip_values() {
    let values: Vec<i32> = vec![0, 1, 2, 127, 128, 255, 300, 25565, 2097151, i32::MAX, -1, i32::MIN];
    for v in values {
        let mut p = PacketPayload::new(0);
        p.write_var_int(v);
        let n = p.data.len();
        assert!(1 <= n && n <= 5);
        let mut rdr = cursor(payload_bytes(&p));
        assert_eq!(rdr.read_var_int().unwrap(), v);
    }
}

#[test]
fn var_int_known_encodings() {
    let mut p = PacketPayload::new(0);
    p.write_var_int(300);
    assert_eq!(p.data, vec![0xAC, 0x02]);
    let mut p2 = PacketPayload::new(0);
    p2.write_var_int(-1);
    assert_eq!(p2.data, vec![0xFF, 0xFF, 0xFF, 0xFF, 0x0F]);
}

#[test]
fn var_int_too_long_rejected() {
    let mut rdr = cursor(vec![0x80, 0x80, 0x80, 0x80, 0x80, 0x01]);
    assert_eq!(rdr.read_var_int(), Err(ProtocolError::VarIntTooLong));
}

#[test]
fn string_round_trip() {
    let mut p = PacketPayload::new(0);
    p.write_string("hello", 32767).unwrap();
    let mut rdr = cursor(payload_bytes(&p));
    assert_eq!(rdr.read_string(32767).unwrap(), "hello");

    let mut p2 = PacketPayload::new(0);
    p2.write_string("caf\u{e9} \u{2603}", 32767).unwrap();
    let mut rdr2 = cursor(payload_bytes(&p2));
    assert_eq!(rdr2.read_string(32767).unwrap(), "caf\u{e9} \u{2603}");
}

#[test]
fn string_too_long_rejected_on_write() {
    let mut p = PacketPayload::new(0);
    let r = p.write_string("abcdef", 3);
    assert_eq!(r, Err(ProtocolError::StringTooLong(6, 3)));
    assert!(p.data.is_empty());
}

#[test]
fn string_too_long_rejected_on_read() {
    let mut p = PacketPayload::new(0);
    p.write_string("abcdef", 32767).unwrap();
    let mut rdr = cursor(payload_bytes(&p));
    assert_eq!(rdr.read_string(3), Err(ProtocolError::StringTooLong(6, 3)));
}

#[test]
fn position_round_trip() {
    let cases: Vec<(i32, i32, i32)> = vec![
        (0, 0, 0),
        (100, 70, -50),
        (-18357644, 831, -20882616 % 2048),
        (33554431, 2047, -2048),
        (-33554432, 0, 2047),
    ];
    for (x, y, z) in cases {
        let mut p = PacketPayload::new(0);
        p.write_position(x, y, z);
        assert_eq!(p.data.len(), 8);
        let mut rdr = cursor(payload_bytes(&p));
        assert_eq!(rdr.read_position().unwrap(), (x, y, z));
    }
}

#[test]
fn packed_array_put_get() {
    for palette_size in [1usize, 2, 16, 17, 200, 4096] {
        let mut a = PackedBitArray::empty(palette_size);
        let bpe = a.bits_per_entry();
        let top = if bpe >= 12 { 4095 } else { (1u64 << bpe) - 1 };
        a.put_value(0, top);
        a.put_value(1, 1);
        a.put_value(4095, top);
        assert_eq!(a.get_value(0), top);
        assert_eq!(a.get_value(1), 1);
        assert_eq!(a.get_value(4095), top);
        assert_eq!(a.get_value(2), 0);
    }
}

#[test]
fn packed_array_read_back_existing() {
    // bpe 4, 16 values per word: filling from raw words reads the nibbles.
    let mut data = vec![0u64; 256];
    data[0] = 0x1111111111111111;
    let a = PackedBitArray::new(data, 2);
    assert_eq!(a.bits_per_entry(), 4);
    for i in 0..16 {
        assert_eq!(a.get_value(i), 1);
    }
    assert_eq!(a.get_value(16), 0);
}

#[test]
fn bits_per_entry_formula() {
    assert_eq!(PackedBitArray::compute_bits_per_entry(1), 4);
    assert_eq!(PackedBitArray::compute_bits_per_entry(16), 4);
    assert_eq!(PackedBitArray::compute_bits_per_entry(17), 5);
    assert_eq!(PackedBitArray::compute_bits_per_entry(32), 5);
    assert_eq!(PackedBitArray::compute_bits_per_entry(33), 6);
    assert_eq!(PackedBitArray::compute_bits_per_entry(4096), 12);
}

#[test]
fn mask_edge_cases() {
    assert_eq!(mask(0), 0);
    assert_eq!(mask(4), 0xF);
    assert_eq!(mask(63), 0x7FFF_FFFF_FFFF_FFFF);
    assert_eq!(mask(64), u64::MAX);
}

#[test]
fn frame_round_trip() {
    let codec = MinecraftFramedCodec;
    let mut p = PacketPayload::new(0x21);
    p.write_ulong(42);
    let mut stream: Vec<u8> = Vec::new();
    codec.encode(&p, &mut stream);
    // A second frame directly after the first.
    let mut p2 = PacketPayload::new(0x00);
    p2.write_var_int(7);
    codec.encode(&p2, &mut stream);

    let decoded = codec.decode(&mut stream).unwrap().unwrap();
    assert_eq!(decoded.packet_id, 0x21);
    let mut d = decoded;
    assert_eq!(d.read_ulong().unwrap(), 42);
    let decoded2 = codec.decode(&mut stream).unwrap().unwrap();
    assert_eq!(decoded2.packet_id, 0x00);
    assert!(stream.is_empty());
}

#[test]
fn frame_decode_needs_more_on_any_split() {
    let codec = MinecraftFramedCodec;
    let mut p = PacketPayload::new(0x05);
    p.write_string("abcdef", 32767).unwrap();
    let mut full: Vec<u8> = Vec::new();
    codec.encode(&p, &mut full);
    for cut in 0..full.len() {
        let mut part = full[..cut].to_vec();
        let before = part.clone();
        let r = codec.decode(&mut part).unwrap();
        assert!(r.is_none());
        assert_eq!(part, before);
    }
}

#[test]
fn frame_decode_rejects_oversize_header() {
    let codec = MinecraftFramedCodec;
    let mut buf = vec![0x80, 0x80, 0x80, 0x01];
    match codec.decode(&mut buf) {
        Err(e) => assert_eq!(e, ProtocolError::VarIntTooLong),
        Ok(_) => panic!("oversize header accepted"),
    }
}

#[test]
fn entity_id_allocation() {
    let mut ids = EntityIdAllocator::new();
    let a = ids.assign(11);
    let b = ids.assign(22);
    let c = ids.assign(33);
    assert_eq!((a, b, c), (0, 1, 2));
    assert_eq!(ids.assign(22), 1);
    assert_eq!(ids.assign(11), 0);
    assert_eq!(ids.assign(44), 3);
}

#[test]
fn hmac_verification_known_vector() {
    // RFC 4231 test case 2.
    let key = b"Jefe";
    let data = b"what do ya want for nothing?";
    let sig: [u8; 32] = [
        0x5b, 0xdc, 0xc1, 0x46, 0xbf, 0x60, 0x75, 0x4e, 0x6a, 0x04, 0x24, 0x26, 0x08, 0x95, 0x75,
        0xc7, 0x5a, 0x00, 0x3f, 0x08, 0x9d, 0x27, 0x39, 0x83, 0x9d, 0xec, 0x58, 0xb9, 0x64, 0xec,
        0x38, 0x43,
    ];
    assert!(check_signature(key, &sig, data));
    let mut forged = sig;
    forged[0] ^= 1;
    assert!(!check_signature(key, &forged, data));
}

#[test]
fn offline_uuid_matches_v3() {
    let expected = uuid::Uuid::new_v3(&uuid::Uuid::NAMESPACE_OID, b"Alice").as_u128();
    assert_eq!(offline_mode_uuid("Alice"), expected);
    assert_ne!(offline_mode_uuid("Alice"), offline_mode_uuid("Bob"));
}

#[test]
fn block_tables_lookup() {
    let table = BlockTable {
        entries: vec![
            (BlockState { name: "minecraft:air".to_string(), properties: None }, 0),
            (BlockState { name: "minecraft:stone".to_string(), properties: None }, 1),
        ],
    };
    let stone = BlockState { name: "minecraft:stone".to_string(), properties: None };
    assert_eq!(get_state_id(&table, &stone), Some(1));
    let dirt = BlockState { name: "minecraft:dirt".to_string(), properties: None };
    assert_eq!(get_state_id(&table, &dirt), None);

    let bet = BlockEntityTable { entries: vec![("minecraft:chest".to_string(), 1)] };
    assert_eq!(get_block_entity_id(&bet, "minecraft:chest"), Some(1));
    assert_eq!(get_block_entity_id(&bet, "minecraft:sign"), None);
}

fn stone() -> BlockState {
    BlockState { name: "minecraft:stone".to_string(), properties: None }
}

fn test_table() -> BlockTable {
    BlockTable {
        entries: vec![
            (BlockState { name: "minecraft:air".to_string(), properties: None }, 0),
            (stone(), 1),
        ],
    }
}

#[test]
fn chunk_palette_compaction() {
    // An all-stone section compacts to a single-entry palette at width 4,
    // every packed index zero.
    let mut blocks = Vec::new();
    for _ in 0..4096 {
        blocks.push(stone());
    }
    let section = ChunkSection { y_pos: 0, block_count: 4096, block_states: blocks };
    let (palette, packed) = build_palette_data(&section, &test_table());
    assert_eq!(palette, vec![1]);
    assert_eq!(packed.bits_per_entry(), 4);
    for w in packed.data() {
        assert_eq!(*w, 0);
    }
    let mut out = Vec::new();
    section.write(&test_table(), &mut out);
    // block count, width, palette size, palette entry, word count (256).
    assert_eq!(&out[..7], &[0x10, 0x00, 4, 1, 1, 0x80, 0x02]);
}

#[test]
fn template_chunk_decodes_all_stone() {
    // Template palette [air, stone]; every slot holds index 1.
    let data = vec![0x1111111111111111u64; 256];
    let tc = TemplateChunk {
        block_states: limbo::template::BlockStates {
            data,
            palette: vec![
                BlockState { name: "minecraft:air".to_string(), properties: None },
                stone(),
            ],
        },
        pos: (0, 0, 0),
    };
    assert!(tc.check_wf());
    let sec = tc.into_section();
    assert_eq!(sec.y_pos, 0);
    assert_eq!(sec.block_count, 4096);
    for b in &sec.block_states {
        assert_eq!(b.name, "minecraft:stone");
    }
}

#[test]
fn template_into_chunks_fills_air_and_sorts() {
    let data = vec![0u64; 256];
    let tpl = MapTemplate {
        block_entities: Vec::new(),
        biome: "minecraft:plains".to_string(),
        chunks: vec![
            TemplateChunk {
                block_states: limbo::template::BlockStates {
                    data: data.clone(),
                    palette: vec![stone()],
                },
                pos: (5, 0, 5),
            },
            TemplateChunk {
                block_states: limbo::template::BlockStates { data, palette: vec![stone()] },
                pos: (0, 3, 0),
            },
        ],
    };
    let chunks = tpl.into_chunks();
    assert_eq!(chunks.len(), 2);
    // Near-origin chunk first.
    assert_eq!((chunks[0].x, chunks[0].z), (0, 0));
    assert_eq!((chunks[1].x, chunks[1].z), (5, 5));
    for c in &chunks {
        assert_eq!(c.sections.len(), 16);
        for (k, s) in c.sections.iter().enumerate() {
            assert_eq!(s.y_pos as usize, k);
            assert_eq!(s.block_states.len(), 4096);
        }
    }
    // Levels without template data are air with a zero block count.
    assert_eq!(chunks[0].sections[0].block_count, 0);
    assert_eq!(chunks[0].sections[0].block_states[0].name, "minecraft:air");
    assert_eq!(chunks[0].sections[3].block_count, 4096);
    assert_eq!(chunks[0].sections[3].block_states[0].name, "minecraft:stone");
}

#[test]
fn empty_section_is_air() {
    let s = create_empty_section(7);
    assert_eq!(s.y_pos, 7);
    assert_eq!(s.block_count, 0);
    assert_eq!(s.block_states.len(), 4096);
    assert_eq!(s.block_states[0].name, "minecraft:air");
}

#[test]
fn keepalive_carries_clock() {
    let p = keepalive_packet(1234567);
    assert_eq!(p.packet_id, 0x21);
    assert_eq!(p.data, 1234567u64.to_be_bytes().to_vec());
}

#[test]
fn chunk_data_packet_shape() {
    let mut sections = Vec::new();
    for y in 0..16 {
        if y == 0 {
            let mut stones = Vec::new();
            for _ in 0..4096 {
                stones.push(stone());
            }
            sections.push(ChunkSection { y_pos: 0, block_count: 4096, block_states: stones });
        } else {
            sections.push(create_empty_section(y));
        }
    }
    let chunk = Chunk { x: 0, z: 0, sections };
    let p = write_chunk_data(&chunk, &test_table());
    assert_eq!(p.packet_id, 0x22);
    // x and z as big-endian ints.
    assert_eq!(&p.data[..8], &[0, 0, 0, 0, 0, 0, 0, 0]);
    // The NBT heightmap compound follows, starting with the compound tag.
    assert_eq!(p.data[8], 0x0a);
}

#[allow(clippy::type_complexity)]
fn test_world(forwarding_key: Option<Vec<u8>>) -> ServerWorld {
    ServerWorld {
        brand: "veristone".to_string(),
        status_json: "{\"version\":{\"name\":\"1.18.2\",\"protocol\":757}}".to_string(),
        forwarding_key,
        join_game: limbo::play::JoinGameData {
            is_hardcore: false,
            gamemode: limbo::play::Gamemode::Creative,
            previous_gamemode: limbo::play::Gamemode::Survival,
            dimension_names: vec!["minecraft:overworld".to_string()],
            dimension_codec_nbt: vec![0x0a, 0x00, 0x00, 0x00],
            dimension_nbt: vec![0x0a, 0x00, 0x00, 0x00],
            dimension_name: "minecraft:overworld".to_string(),
            hashed_seed: 0,
            max_players: 20,
            view_distance: 10,
            simulation_distance: 10,
            reduced_debug_info: false,
            enable_respawn_screen: true,
            is_debug: false,
            is_flat: true,
        },
        spawn_x_bits: 8.5f64.to_bits(),
        spawn_y_bits: 65.0f64.to_bits(),
        spawn_z_bits: 8.5f64.to_bits(),
        chunks: Vec::new(),
        block_entities: Vec::new(),
        block_table: test_table(),
        block_entity_table: BlockEntityTable { entries: Vec::new() },
    }
}

fn handshake_frame(next_state: i32) -> PacketData {
    let mut p = PacketPayload::new(0);
    p.write_var_int(757);
    p.write_string("localhost", 255).unwrap();
    p.write_ushort(25566);
    p.write_var_int(next_state);
    PacketData::new(0, p.data)
}

#[test]
fn status_ping_scenario() {
    let world = test_world(None);
    assert!(world.check_wf());
    let mut ids = EntityIdAllocator::new();
    let mut conn = Connection::new();

    let step = conn.handle_frame(handshake_frame(1), &world, &mut ids).unwrap();
    assert!(step.pre.is_empty() && step.post.is_empty() && !step.close);

    let request = PacketData::new(0, Vec::new());
    let step2 = conn.handle_frame(request, &world, &mut ids).unwrap();
    assert_eq!(step2.pre.len(), 1);
    assert_eq!(step2.pre[0].packet_id, 0);
    // The response is the configured JSON as a wire string.
    let mut expect = PacketPayload::new(0);
    expect.write_string(&world.status_json, 32767).unwrap();
    assert_eq!(step2.pre[0].data, expect.data);
    assert!(!step2.close);

    let mut ping = PacketPayload::new(1);
    ping.write_long(42);
    let step3 = conn.handle_frame(PacketData::new(1, ping.data), &world, &mut ids).unwrap();
    assert_eq!(step3.pre.len(), 1);
    assert_eq!(step3.pre[0].packet_id, 1);
    assert_eq!(step3.pre[0].data, 42i64.to_be_bytes().to_vec());
    assert!(step3.close);
}

#[test]
fn offline_login_scenario() {
    let world = test_world(None);
    let mut ids = EntityIdAllocator::new();
    let mut conn = Connection::new();

    conn.handle_frame(handshake_frame(2), &world, &mut ids).unwrap();

    let mut start = PacketPayload::new(0);
    start.write_string("Alice", 16).unwrap();
    let step = conn.handle_frame(PacketData::new(0, start.data), &world, &mut ids).unwrap();
    assert_eq!(step.pre.len(), 3);
    assert!(step.pause);
    assert!(!step.close);
    // Login success: the offline-mode v3 UUID, then the username.
    assert_eq!(step.pre[0].packet_id, 2);
    let expected_uuid = uuid::Uuid::new_v3(&uuid::Uuid::NAMESPACE_OID, b"Alice").as_u128();
    let mut expect = PacketPayload::new(2);
    expect.write_uuid(expected_uuid);
    expect.write_string("Alice", 16).unwrap();
    assert_eq!(step.pre[0].data, expect.data);
    assert_eq!(step.pre[1].packet_id, 0x26);
    assert_eq!(step.pre[2].packet_id, 0x18);
    // With no chunks: teleport, view position, teleport.
    assert_eq!(step.post.len(), 3);
    assert_eq!(step.post[0].packet_id, 0x38);
    assert_eq!(step.post[1].packet_id, 0x49);
    assert_eq!(step.post[2].packet_id, 0x38);
}

fn forwarded_payload() -> Vec<u8> {
    let mut p = PacketPayload::new(0);
    p.write_var_int(1);
    p.write_string("1.2.3.4", 32767).unwrap();
    p.write_uuid(0x1234_5678_9abc_def0_1122_3344_5566_7788u128);
    p.write_string("Bob", 16).unwrap();
    p.data
}

fn hmac_of(key: &[u8], data: &[u8]) -> Vec<u8> {
    let mut mac = <hmac::Hmac<sha2::Sha256> as hmac::KeyInit>::new_from_slice(key).unwrap();
    hmac::Mac::update(&mut mac, data);
    hmac::Mac::finalize(mac).into_bytes().to_vec()
}

#[test]
fn forwarded_login_bad_hmac_closes() {
    let world = test_world(Some(b"secret".to_vec()));
    let mut ids = EntityIdAllocator::new();
    let mut conn = Connection::new();
    conn.handle_frame(handshake_frame(2), &world, &mut ids).unwrap();

    let mut start = PacketPayload::new(0);
    start.write_string("Alice", 16).unwrap();
    let step = conn.handle_frame(PacketData::new(0, start.data), &world, &mut ids).unwrap();
    // The server asks the proxy for the identity.
    assert_eq!(step.pre.len(), 1);
    assert_eq!(step.pre[0].packet_id, 4);

    let payload = forwarded_payload();
    let mut response = PacketPayload::new(2);
    response.write_var_int(1);
    response.write_bool(true);
    response.write_bytes(&[0u8; 32]);
    response.write_bytes(&payload);
    let step2 = conn.handle_frame(PacketData::new(2, response.data), &world, &mut ids).unwrap();
    assert!(step2.close);
    assert!(step2.pre.is_empty());
}

#[test]
fn forwarded_login_good_hmac_completes() {
    let world = test_world(Some(b"secret".to_vec()));
    let mut ids = EntityIdAllocator::new();
    let mut conn = Connection::new();
    conn.handle_frame(handshake_frame(2), &world, &mut ids).unwrap();

    let mut start = PacketPayload::new(0);
    start.write_string("Alice", 16).unwrap();
    conn.handle_frame(PacketData::new(0, start.data), &world, &mut ids).unwrap();

    let payload = forwarded_payload();
    let sig = hmac_of(b"secret", &payload);
    let mut response = PacketPayload::new(2);
    response.write_var_int(1);
    response.write_bool(true);
    response.write_bytes(&sig);
    response.write_bytes(&payload);
    let step = conn.handle_frame(PacketData::new(2, response.data), &world, &mut ids).unwrap();
    assert!(!step.close);
    assert!(step.pause);
    assert_eq!(step.pre.len(), 3);
    // Login success carries the forwarded identity.
    let mut expect = PacketPayload::new(2);
    expect.write_uuid(0x1234_5678_9abc_def0_1122_3344_5566_7788u128);
    expect.write_string("Bob", 16).unwrap();
    assert_eq!(step.pre[0].data, expect.data);
}

#[test]
fn unknown_play_packet_tolerated() {
    let world = test_world(None);
    let mut ids = EntityIdAllocator::new();
    let mut conn = Connection::new();
    conn.handle_frame(handshake_frame(2), &world, &mut ids).unwrap();
    let mut start = PacketPayload::new(0);
    start.write_string("Alice", 16).unwrap();
    conn.handle_frame(PacketData::new(0, start.data), &world, &mut ids).unwrap();

    // An unknown play packet id is ignored; the session stays open, and the
    // keepalive clock still produces packets.
    let step = conn.handle_frame(PacketData::new(0x7F, Vec::new()), &world, &mut ids).unwrap();
    assert!(!step.close);
    assert!(step.pre.is_empty() && step.post.is_empty());
    let ka = keepalive_packet(99);
    assert_eq!(ka.packet_id, 0x21);
}

#[test]
fn wrong_protocol_version_closes() {
    let world = test_world(None);
    let mut ids = EntityIdAllocator::new();
    let mut conn = Connection::new();
    let mut p = PacketPayload::new(0);
    p.write_var_int(756);
    p.write_string("localhost", 255).unwrap();
    p.write_ushort(25566);
    p.write_var_int(1);
    let step = conn.handle_frame(PacketData::new(0, p.data), &world, &mut ids).unwrap();
    assert!(step.close);
}

#[test]
fn handshake_errors() {
    let world = test_world(None);
    let mut ids = EntityIdAllocator::new();
    let mut conn = Connection::new();
    let r = conn.handle_frame(PacketData::new(5, Vec::new()), &world, &mut ids);
    assert_eq!(r.err().map(|e| e == ProtocolError::MissingHandshake), Some(true));

    let mut conn2 = Connection::new();
    let mut p = PacketPayload::new(0);
    p.write_var_int(757);
    p.write_string("localhost", 255).unwrap();
    p.write_ushort(25566);
    p.write_var_int(9);
    let r2 = conn2.handle_frame(PacketData::new(0, p.data), &world, &mut ids);
    assert_eq!(r2.err().map(|e| e == ProtocolError::InvalidEnumValue(9)), Some(true));
}

#[test]
fn status_missing_request() {
    let world = test_world(None);
    let mut ids = EntityIdAllocator::new();
    let mut conn = Connection::new();
    conn.handle_frame(handshake_frame(1), &world, &mut ids).unwrap();
    let mut ping = PacketPayload::new(1);
    ping.write_long(42);
    let r = conn.handle_frame(PacketData::new(1, ping.data), &world, &mut ids);
    assert_eq!(r.err().map(|e| e == ProtocolError::MissingRequest), Some(true));
}
