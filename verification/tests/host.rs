use flywheelmc_wasm::import_defs::rand::flywheel_rand_u64;
use flywheelmc_wasm::import_defs::system::{write_duration, EpochDuration, MonotonicClock};
use flywheelmc_wasm::import_defs::world::{read_set_blocks, SetBlocksError};
use flywheelmc_wasm::runner::callctx::MemoryDecodeError;
use flywheelmc_wasm::runner::event::{chunk_loading_event, encode_event, ChunkPos, WasmEvent};
use flywheelmc_wasm::runner::player::PlayerSessions;
use flywheelmc_wasm::sig::{WasmValType, MODULE};
use flywheelmc_wasm::sig::WasmValType::{F64, I32, I64};
use flywheelmc_wasm::types::{WasmAnyPtr, WasmPtr};
use flywheelmc_wasm::{FlywheelMcWasmPlugin, PROTOCOL_VERSION};

fn push_text(buf: &mut Vec<u8>, s: &str) {
    buf.extend((s.len() as u32).to_le_bytes());
    buf.extend(s.as_bytes());
}

fn one_block_list() -> Vec<u8> {
    let mut buf = vec![0xaa, 0xbb];
    buf.extend(1u32.to_le_bytes());
    buf.extend(1i64.to_le_bytes());
    buf.extend((-2i64).to_le_bytes());
    buf.extend(3i64.to_le_bytes());
    push_text(&mut buf, "minecraft:stone");
    buf.extend([2u8, 9, 9, 9]);
    push_text(&mut buf, "facing");
    push_text(&mut buf, "north");
    push_text(&mut buf, "lit");
    push_text(&mut buf, "true");
    buf
}

#[test]
fn set_blocks_list_is_read() {
    let mem = one_block_list();
    let blocks = read_set_blocks(&mem, WasmAnyPtr::from_ptr(2)).ok().unwrap();
    assert_eq!(blocks.len(), 1);
    let b = &blocks[0];
    assert_eq!((b.x, b.y, b.z), (1, -2, 3));
    assert_eq!(b.block_id, "minecraft:stone");
    assert_eq!(b.states.len(), 2);
    assert_eq!(b.states[0].name, "facing");
    assert_eq!(b.states[0].value, "north");
    assert_eq!(b.states[1].name, "lit");
    assert_eq!(b.states[1].value, "true");
}

#[test]
fn set_blocks_empty_list() {
    let mem = 0u32.to_le_bytes();
    assert_eq!(read_set_blocks(&mem, WasmAnyPtr::from_ptr(0)).ok().map(|v| v.len()), Some(0));
}

#[test]
fn set_blocks_errors() {
    let mem = one_block_list();
    let short = &mem[..mem.len() - 1];
    assert_eq!(read_set_blocks(short, WasmAnyPtr::from_ptr(2)).err(), Some(SetBlocksError::Decode(MemoryDecodeError::OutOfBounds)));
    let mut bad = mem.clone();
    let id_at = 2 + 4 + 24 + 4;
    bad[id_at] = 0xff;
    assert_eq!(read_set_blocks(&bad, WasmAnyPtr::from_ptr(2)).err(), Some(SetBlocksError::Decode(MemoryDecodeError::InvalidData)));
    assert_eq!(read_set_blocks(&mem, WasmAnyPtr::from_ptr(1000)).err(), Some(SetBlocksError::Decode(MemoryDecodeError::OutOfBounds)));
    // A count read from the last byte of the address space cannot be stepped over.
    let mut mem2 = vec![0u8; 8];
    mem2[0..4].copy_from_slice(&1u32.to_le_bytes());
    assert_eq!(read_set_blocks(&mem2, WasmAnyPtr::from_ptr(u32::MAX - 3)).err(), Some(SetBlocksError::Decode(MemoryDecodeError::OutOfBounds)));
}

#[test]
fn events_are_encoded_little_endian() {
    let (name, args) = encode_event(&WasmEvent::PlayerJoined { session_id: 0x0102 });
    assert_eq!(name, "flywheel_player_joined");
    assert_eq!(args, vec![2, 1, 0, 0, 0, 0, 0, 0]);
    let (name, args) = encode_event(&WasmEvent::PlayerLeft { session_id: 7 });
    assert_eq!(name, "flywheel_player_left");
    assert_eq!(args, 7u64.to_le_bytes().to_vec());
    let pos = ChunkPos { x: -1, y: 2 };
    let (name, args) = encode_event(&WasmEvent::WorldChunkLoading { session_id: 3, pos });
    assert_eq!(name, "flywheel_world_chunk_loading");
    assert_eq!(args, vec![3, 0, 0, 0, 0, 0, 0, 0, 0xff, 0xff, 0xff, 0xff, 2, 0, 0, 0]);
    let (name, args) = encode_event(&WasmEvent::WorldChunkUnloaded { session_id: 3, pos });
    assert_eq!(name, "flywheel_world_chunk_unloaded");
    assert_eq!(args.len(), 16);
}

#[test]
fn event_args_decode_back() {
    let pos = ChunkPos { x: i32::MIN, y: 77 };
    let (_, args) = encode_event(&WasmEvent::WorldChunkUnloaded { session_id: u64::MAX, pos });
    assert_eq!(u64::from_le_bytes(args[0..8].try_into().unwrap()), u64::MAX);
    assert_eq!(i32::from_le_bytes(args[8..12].try_into().unwrap()), i32::MIN);
    assert_eq!(i32::from_le_bytes(args[12..16].try_into().unwrap()), 77);
}

#[test]
fn sessions_are_handed_out_in_order() {
    let mut s = PlayerSessions::new();
    assert_eq!(s.max_session_id(), None);
    assert_eq!(s.bind_player(100), 0);
    assert_eq!(s.bind_player(200), 1);
    assert_eq!(s.bind_player(300), 2);
    assert_eq!(s.entity_of(1), Some(200));
    assert_eq!(s.session_of(300), Some(2));
    assert_eq!(s.session_of(400), None);
    assert_eq!(s.entity_of(9), None);
    assert_eq!(s.max_session_id(), Some(2));
}

#[test]
fn rebinding_a_player_moves_its_session() {
    let mut s = PlayerSessions::new();
    s.bind_player(100);
    s.bind_player(200);
    assert_eq!(s.bind_player(100), 2);
    assert_eq!(s.entity_of(0), None);
    assert_eq!(s.session_of(100), Some(2));
    assert_eq!(s.entity_of(1), Some(200));
}

#[test]
fn chunk_loading_needs_a_bound_player() {
    let mut s = PlayerSessions::new();
    s.bind_player(5);
    s.bind_player(6);
    let pos = ChunkPos { x: 4, y: -4 };
    assert_eq!(chunk_loading_event(&s, 6, pos), Some(WasmEvent::WorldChunkLoading { session_id: 1, pos }));
    assert_eq!(chunk_loading_event(&s, 7, pos), None);
}

#[test]
fn clock_never_goes_back() {
    let mut c = MonotonicClock::new();
    let t1 = EpochDuration { secs: 10, nanos: 5 };
    assert_eq!(c.observe(Some(t1)), t1);
    assert_eq!(c.observe(Some(EpochDuration { secs: 10, nanos: 4 })), t1);
    assert_eq!(c.observe(Some(EpochDuration { secs: 9, nanos: 999 })), t1);
    assert_eq!(c.observe(None), t1);
    let t2 = EpochDuration { secs: 10, nanos: 6 };
    assert_eq!(c.observe(Some(t2)), t2);
    let mut fresh = MonotonicClock::new();
    assert_eq!(fresh.observe(None), EpochDuration { secs: 0, nanos: 0 });
}

#[test]
fn duration_written_as_secs_and_nanos() {
    let mut mem = vec![0u8; 12];
    let d = EpochDuration { secs: 0x0102_0304_0506_0708, nanos: 999_999_999 };
    assert!(write_duration(&mut mem, WasmPtr::from_ptr(0), WasmPtr::from_ptr(8), d).is_ok());
    assert_eq!(u64::from_le_bytes(mem[0..8].try_into().unwrap()), d.secs);
    assert_eq!(u32::from_le_bytes(mem[8..12].try_into().unwrap()), d.nanos);
    let mut small = vec![0u8; 10];
    assert!(write_duration(&mut small, WasmPtr::from_ptr(0), WasmPtr::from_ptr(8), d).is_err());
    assert_eq!(u64::from_le_bytes(small[0..8].try_into().unwrap()), d.secs);
}

#[test]
fn plugin_defines_every_import_once() {
    let plugin = FlywheelMcWasmPlugin::default();
    let names: Vec<&str> = plugin.import_funcs.names().iter().map(|s| s.as_str()).collect();
    assert_eq!(names, vec![
        "flywheel_refuel",
        "flywheel_next_event",
        "flywheel_system_dur_since_epoch",
        "flywheel_system_players",
        "flywheel_system_queue_stop",
        "flywheel_rand_u64",
        "flywheel_player_send_chat",
        "flywheel_player_send_actionbar",
        "flywheel_player_send_title",
        "flywheel_profile_from_session",
    ]);
    assert!(plugin.import_funcs.contains("flywheel_rand_u64"));
    assert!(!plugin.import_funcs.contains("flywheel_world_set_blocks"));
    assert_eq!(MODULE, "env");
    assert_eq!(PROTOCOL_VERSION, 0);
}

#[test]
fn world_import_can_be_added() {
    let mut plugin = FlywheelMcWasmPlugin::default();
    flywheelmc_wasm::import_defs::world::define_all(&mut plugin.import_funcs);
    assert!(plugin.import_funcs.contains("flywheel_world_set_blocks"));
    assert_eq!(plugin.import_funcs.names().len(), 11);
}

#[test]
fn random_numbers_are_handed_out() {
    match flywheel_rand_u64() {
        Ok(_) => {},
        Err(msg) => assert_eq!(msg, "random source unavailable"),
    }
}

fn block_bytes(buf: &mut Vec<u8>, x: i64, y: i64, z: i64, id: &str, states: &[(&str, &str)]) {
    buf.extend(x.to_le_bytes());
    buf.extend(y.to_le_bytes());
    buf.extend(z.to_le_bytes());
    push_text(buf, id);
    buf.extend([states.len() as u8, 0, 0, 0]);
    for (name, value) in states {
        push_text(buf, name);
        push_text(buf, value);
    }
}

#[test]
fn laid_out_block_list_reads_back() {
    let mut buf = vec![0u8; 5];
    buf.extend(2u32.to_le_bytes());
    block_bytes(&mut buf, i64::MIN, 0, i64::MAX, "air", &[]);
    block_bytes(&mut buf, 7, 8, 9, "oak_log", &[("axis", "y")]);
    buf.extend([0xde, 0xad]);
    let blocks = read_set_blocks(&buf, WasmAnyPtr::from_ptr(5)).ok().unwrap();
    assert_eq!(blocks.len(), 2);
    assert_eq!((blocks[0].x, blocks[0].y, blocks[0].z), (i64::MIN, 0, i64::MAX));
    assert_eq!(blocks[0].block_id, "air");
    assert!(blocks[0].states.is_empty());
    assert_eq!(blocks[1].block_id, "oak_log");
    assert_eq!(blocks[1].states.len(), 1);
    assert_eq!((blocks[1].states[0].name.as_str(), blocks[1].states[0].value.as_str()), ("axis", "y"));
}

fn export_of(plugin: &FlywheelMcWasmPlugin, name: &str) -> Option<(Vec<WasmValType>, Vec<WasmValType>, bool)> {
    plugin.export_funcs.lookup(name).map(|f| (f.params.clone(), f.results.clone(), f.required))
}

#[test]
fn plugin_records_required_exports() {
    let plugin = FlywheelMcWasmPlugin::default();
    assert_eq!(export_of(&plugin, "flywheel_protocol"), Some((vec![], vec![I64], true)));
    assert_eq!(export_of(&plugin, "flywheel_init"), Some((vec![], vec![], true)));
    assert_eq!(export_of(&plugin, "flywheel_alloc"), Some((vec![I32, I32], vec![I32], true)));
    assert_eq!(export_of(&plugin, "flywheel_main"), None);
}

#[test]
fn redefining_an_export_takes_the_new_signature() {
    let mut plugin = FlywheelMcWasmPlugin::default();
    plugin
        .export_funcs
        .define("flywheel_init", vec![I32], vec![], false)
        .define("flywheel_tick", vec![F64], vec![I64], false);
    assert_eq!(export_of(&plugin, "flywheel_init"), Some((vec![I32], vec![], false)));
    assert_eq!(export_of(&plugin, "flywheel_tick"), Some((vec![F64], vec![I64], false)));
    assert_eq!(export_of(&plugin, "flywheel_protocol"), Some((vec![], vec![I64], true)));
}

#[test]
fn trailing_skipped_bytes_may_lie_past_memory() {
    // The three bytes after the last block's state count are skipped, not read.
    let mut buf = Vec::new();
    buf.extend(1u32.to_le_bytes());
    buf.extend(0i64.to_le_bytes());
    buf.extend(0i64.to_le_bytes());
    buf.extend(0i64.to_le_bytes());
    push_text(&mut buf, "air");
    buf.push(0);
    let blocks = read_set_blocks(&buf, WasmAnyPtr::from_ptr(0)).ok().unwrap();
    assert_eq!(blocks.len(), 1);
    assert!(blocks[0].states.is_empty());
}
