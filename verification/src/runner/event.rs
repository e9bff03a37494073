use crate::runner::player::{injective, PlayerSessions};
use crate::types::{lemma_le_bytes_roundtrip, spec_from_le_bytes, spec_le_bytes, to_le_bytes};
use vstd::prelude::*;

verus! {

/// The position of a world chunk.
#[derive(Clone, Copy, Debug, PartialEq, Eq, Structural)]
pub struct ChunkPos {
    pub x: i32,
    pub y: i32,
}

/// Something that happened on the server which a runner's guest is told about.
#[derive(Clone, Copy, Debug, PartialEq, Eq, Structural)]
pub enum WasmEvent {
    PlayerJoined { session_id: u64 },
    PlayerLeft { session_id: u64 },
    WorldChunkLoading { session_id: u64, pos: ChunkPos },
    WorldChunkUnloaded { session_id: u64, pos: ChunkPos },
}

/// The name the guest receives an event under.
pub open spec fn spec_event_name(e: WasmEvent) -> Seq<char> {
    match e {
        WasmEvent::PlayerJoined { .. } => "flywheel_player_joined"@,
        WasmEvent::PlayerLeft { .. } => "flywheel_player_left"@,
        WasmEvent::WorldChunkLoading { .. } => "flywheel_world_chunk_loading"@,
        WasmEvent::WorldChunkUnloaded { .. } => "flywheel_world_chunk_unloaded"@,
    }
}

/// The argument bytes the guest receives with an event: the session id as
/// little-endian `u64`, then, for chunk events, x and y as little-endian `i32`.
pub open spec fn spec_event_args(e: WasmEvent) -> Seq<u8> {
    match e {
        WasmEvent::PlayerJoined { session_id } => spec_le_bytes(session_id),
        WasmEvent::PlayerLeft { session_id } => spec_le_bytes(session_id),
        WasmEvent::WorldChunkLoading { session_id, pos } => spec_le_bytes(session_id)
            + spec_le_bytes(pos.x) + spec_le_bytes(pos.y),
        WasmEvent::WorldChunkUnloaded { session_id, pos } => spec_le_bytes(session_id)
            + spec_le_bytes(pos.x) + spec_le_bytes(pos.y),
    }
}

/// The chunk position in the last eight bytes of a chunk event's arguments.
pub open spec fn spec_decode_chunk_pos(args: Seq<u8>) -> ChunkPos {
    ChunkPos {
        x: spec_from_le_bytes::<i32>(args.subrange(8, 12)),
        y: spec_from_le_bytes::<i32>(args.subrange(12, 16)),
    }
}

/// How a guest reads an event back from its name and argument bytes.
pub open spec fn spec_decode_event(name: Seq<char>, args: Seq<u8>) -> Option<WasmEvent> {
    if name == "flywheel_player_joined"@ && args.len() == 8 {
        Some(WasmEvent::PlayerJoined { session_id: spec_from_le_bytes::<u64>(args) })
    } else if name == "flywheel_player_left"@ && args.len() == 8 {
        Some(WasmEvent::PlayerLeft { session_id: spec_from_le_bytes::<u64>(args) })
    } else if name == "flywheel_world_chunk_loading"@ && args.len() == 16 {
        Some(
            WasmEvent::WorldChunkLoading {
                session_id: spec_from_le_bytes::<u64>(args.subrange(0, 8)),
                pos: spec_decode_chunk_pos(args),
            },
        )
    } else if name == "flywheel_world_chunk_unloaded"@ && args.len() == 16 {
        Some(
            WasmEvent::WorldChunkUnloaded {
                session_id: spec_from_le_bytes::<u64>(args.subrange(0, 8)),
                pos: spec_decode_chunk_pos(args),
            },
        )
    } else {
        None
    }
}

/// The name and argument bytes an event is queued for the guest with.
pub fn encode_event(event: &WasmEvent) -> (r: (&'static str, Vec<u8>))
    ensures
        r.0@ == spec_event_name(*event),
        r.1@ == spec_event_args(*event),
{
    match event {
        WasmEvent::PlayerJoined { session_id } => {
            ("flywheel_player_joined", to_le_bytes(session_id))
        },
        WasmEvent::PlayerLeft { session_id } => {
            ("flywheel_player_left", to_le_bytes(session_id))
        },
        WasmEvent::WorldChunkLoading { session_id, pos } => {
            ("flywheel_world_chunk_loading", chunk_args(*session_id, *pos))
        },
        WasmEvent::WorldChunkUnloaded { session_id, pos } => {
            ("flywheel_world_chunk_unloaded", chunk_args(*session_id, *pos))
        },
    }
}

/// The argument bytes of a chunk event.
fn chunk_args(session_id: u64, pos: ChunkPos) -> (args: Vec<u8>)
    ensures
        args@ == spec_le_bytes(session_id) + spec_le_bytes(pos.x) + spec_le_bytes(pos.y),
{
    let mut args = to_le_bytes(&session_id);
    let mut x = to_le_bytes(&pos.x);
    let mut y = to_le_bytes(&pos.y);
    args.append(&mut x);
    args.append(&mut y);
    args
}

/// The event a runner's guest gets when a chunk of a player's world starts
/// loading: the chunk under the player's session id, or none when the player
/// is not bound to the runner.
pub fn chunk_loading_event(sessions: &PlayerSessions, player: u64, pos: ChunkPos) -> (r: Option<WasmEvent>)
    ensures
        r matches Some(e) ==> (e matches WasmEvent::WorldChunkLoading { session_id, pos: p }
            && sessions@.dom().contains(session_id) && sessions@[session_id] == player && p == pos),
        r is None ==> forall|s: u64| #[trigger] sessions@.dom().contains(s) ==> sessions@[s] != player,
        injective(sessions@),
{
    match sessions.session_of(player) {
        Some(session_id) => Some(WasmEvent::WorldChunkLoading { session_id, pos }),
        None => None,
    }
}

/// A guest reading back the name and arguments of an event gets the event.
pub proof fn lemma_event_roundtrip(e: WasmEvent)
    ensures
        spec_decode_event(spec_event_name(e), spec_event_args(e)) == Some(e),
{
    reveal_strlit("flywheel_player_joined");
    reveal_strlit("flywheel_player_left");
    reveal_strlit("flywheel_world_chunk_loading");
    reveal_strlit("flywheel_world_chunk_unloaded");
    assert("flywheel_player_joined"@.len() == 22);
    assert("flywheel_player_left"@.len() == 20);
    assert("flywheel_world_chunk_loading"@.len() == 28);
    assert("flywheel_world_chunk_unloaded"@.len() == 29);
    match e {
        WasmEvent::PlayerJoined { session_id } => {
            lemma_le_bytes_roundtrip(session_id);

        },
        WasmEvent::PlayerLeft { session_id } => {
            lemma_le_bytes_roundtrip(session_id);

        },
        WasmEvent::WorldChunkLoading { session_id, pos } => {
            lemma_chunk_args_roundtrip(session_id, pos);
        },
        WasmEvent::WorldChunkUnloaded { session_id, pos } => {
            lemma_chunk_args_roundtrip(session_id, pos);
        },
    }
}

proof fn lemma_chunk_args_roundtrip(session_id: u64, pos: ChunkPos)
    ensures
        ({
            let args = spec_le_bytes(session_id) + spec_le_bytes(pos.x) + spec_le_bytes(pos.y);
            &&& args.len() == 16
            &&& spec_from_le_bytes::<u64>(args.subrange(0, 8)) == session_id
            &&& spec_decode_chunk_pos(args) == pos
        }),
{
    lemma_le_bytes_roundtrip(session_id);
    lemma_le_bytes_roundtrip(pos.x);
    lemma_le_bytes_roundtrip(pos.y);
    let a = spec_le_bytes(session_id);
    let b = spec_le_bytes(pos.x);
    let c = spec_le_bytes(pos.y);
    let args = a + b + c;
    assert(args.subrange(0, 8) =~= a);
    assert(args.subrange(8, 12) =~= b);
    assert(args.subrange(12, 16) =~= c);
}

} // verus!
