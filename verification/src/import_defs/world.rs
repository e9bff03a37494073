use crate::runner::callctx::{mem_read, mem_read_str, spec_mem_read, spec_mem_read_str, MemoryDecodeError};
use crate::types::{WasmAnyPtr, WasmPtrable};
use crate::import_defs::block_layout::{
    lemma_read_set_blocks_layout, lemma_set_blocks_read_laid_out, matches_at, spec_fits_layout,
    spec_set_blocks_pattern,
};
use crate::sig::ImportFuncs;
use vstd::prelude::*;

verus! {

/// Defines the function that places blocks in a player's world. It is not
/// among the functions `import_defs::define_all` defines.
pub fn define_all(import_funcs: &mut ImportFuncs)
    requires
        !old(import_funcs)@.contains("flywheel_world_set_blocks"@),
    ensures
        final(import_funcs)@ == old(import_funcs)@ + seq!["flywheel_world_set_blocks"@],
{
    let ghost before = import_funcs@;
    import_funcs.define("flywheel_world_set_blocks");
    assert(import_funcs@ =~= before + seq!["flywheel_world_set_blocks"@]);
}

/// One block state of a block placement: a property name and its value.
pub struct BlockState {
    pub name: String,
    pub value: String,
}

impl View for BlockState {
    type V = (Seq<char>, Seq<char>);

    open spec fn view(&self) -> (Seq<char>, Seq<char>) {
        (self.name@, self.value@)
    }
}

/// A block the guest asks to place: its position, its id and its states.
pub struct BlockPlacement {
    pub x: i64,
    pub y: i64,
    pub z: i64,
    pub block_id: String,
    pub states: Vec<BlockState>,
}

/// What a block placement holds, as plain values.
pub type SpecBlock = (i64, i64, i64, Seq<char>, Seq<(Seq<char>, Seq<char>)>);

impl View for BlockPlacement {
    type V = SpecBlock;

    open spec fn view(&self) -> SpecBlock {
        (self.x, self.y, self.z, self.block_id@, self.states@.map_values(|s: BlockState| s@))
    }
}

/// Why a list of block placements could not be read from guest memory.
#[derive(Clone, Copy, Debug, PartialEq, Eq, Structural)]
pub enum SetBlocksError {
    /// A read reached past the end of the memory or met text that is not UTF-8.
    Decode(MemoryDecodeError),
    /// Moving the read position would leave the 32-bit address space.
    PointerOverflow,
}

/// What a step of the reader gives: a value and the position after it.
pub type Step<A> = Result<(A, int), SetBlocksError>;

/// The position `k` bytes after `p`, unless it leaves the 32-bit address space.
pub open spec fn spec_advance(p: int, k: int) -> Result<int, SetBlocksError> {
    if p + k <= u32::MAX {
        Ok(p + k)
    } else {
        Err(SetBlocksError::PointerOverflow)
    }
}

/// Reads a `T` at `p`, then moves `stride` bytes on.
pub open spec fn spec_read_at<T: WasmPtrable>(mem: Seq<u8>, p: int, stride: int) -> Step<T> {
    match spec_mem_read::<T>(mem, p) {
        None => Err(SetBlocksError::Decode(MemoryDecodeError::OutOfBounds)),
        Some(v) => match spec_advance(p, stride) {
            Ok(q) => Ok((v, q)),
            Err(e) => Err(e),
        },
    }
}

/// Reads a `u32` length at `p`, then the text of that many bytes after it.
pub open spec fn spec_read_text_at(mem: Seq<u8>, p: int) -> Step<Seq<char>> {
    match spec_read_at::<u32>(mem, p, 4) {
        Err(e) => Err(e),
        Ok((len, q)) => match spec_mem_read_str(mem, q, len as int) {
            Err(e) => Err(SetBlocksError::Decode(e)),
            Ok(text) => match spec_advance(q, len as int) {
                Ok(r) => Ok((text, r)),
                Err(e) => Err(e),
            },
        },
    }
}

/// Reads one block state: its name, then its value.
pub open spec fn spec_read_state_at(mem: Seq<u8>, p: int) -> Step<(Seq<char>, Seq<char>)> {
    match spec_read_text_at(mem, p) {
        Err(e) => Err(e),
        Ok((name, q)) => match spec_read_text_at(mem, q) {
            Err(e) => Err(e),
            Ok((value, r)) => Ok(((name, value), r)),
        },
    }
}

/// Puts `acc` in front of the values a step read.
pub open spec fn spec_prepend<A>(acc: Seq<A>, r: Step<Seq<A>>) -> Step<Seq<A>> {
    match r {
        Ok((xs, q)) => Ok((acc + xs, q)),
        Err(e) => Err(e),
    }
}

/// Reads `n` block states one after another.
pub open spec fn spec_read_states_at(mem: Seq<u8>, p: int, n: nat) -> Step<
    Seq<(Seq<char>, Seq<char>)>,
>
    decreases n,
{
    if n == 0 {
        Ok((Seq::empty(), p))
    } else {
        match spec_read_state_at(mem, p) {
            Err(e) => Err(e),
            Ok((s, q)) => spec_prepend(seq![s], spec_read_states_at(mem, q, (n - 1) as nat)),
        }
    }
}

/// Reads one block: x, y and z, its id, a one-byte count of states in a
/// four-byte slot, then the states.
pub open spec fn spec_read_block_at(mem: Seq<u8>, p: int) -> Step<SpecBlock> {
    match spec_read_at::<i64>(mem, p, 8) {
        Err(e) => Err(e),
        Ok((x, p1)) => match spec_read_at::<i64>(mem, p1, 8) {
            Err(e) => Err(e),
            Ok((y, p2)) => match spec_read_at::<i64>(mem, p2, 8) {
                Err(e) => Err(e),
                Ok((z, p3)) => match spec_read_text_at(mem, p3) {
                    Err(e) => Err(e),
                    Ok((id, p4)) => match spec_read_at::<u8>(mem, p4, 4) {
                        Err(e) => Err(e),
                        Ok((count, p5)) => match spec_read_states_at(mem, p5, count as nat) {
                            Err(e) => Err(e),
                            Ok((states, p6)) => Ok(((x, y, z, id, states), p6)),
                        },
                    },
                },
            },
        },
    }
}

/// Reads `n` blocks one after another.
pub open spec fn spec_read_blocks_at(mem: Seq<u8>, p: int, n: nat) -> Step<Seq<SpecBlock>>
    decreases n,
{
    if n == 0 {
        Ok((Seq::empty(), p))
    } else {
        match spec_read_block_at(mem, p) {
            Err(e) => Err(e),
            Ok((b, q)) => spec_prepend(seq![b], spec_read_blocks_at(mem, q, (n - 1) as nat)),
        }
    }
}

/// What the guest's block list at `p` reads as: a `u32` count, then that
/// many blocks.
pub open spec fn spec_read_set_blocks(mem: Seq<u8>, p: int) -> Result<
    Seq<SpecBlock>,
    SetBlocksError,
> {
    match spec_read_at::<u32>(mem, p, 4) {
        Err(e) => Err(e),
        Ok((count, q)) => match spec_read_blocks_at(mem, q, count as nat) {
            Err(e) => Err(e),
            Ok((blocks, _)) => Ok(blocks),
        },
    }
}

proof fn lemma_prepend_push<A>(acc: Seq<A>, x: A, r: Step<Seq<A>>)
    ensures
        spec_prepend(acc, spec_prepend(seq![x], r)) == spec_prepend(acc.push(x), r),
{
    match r {
        Ok((xs, q)) => {
            assert(acc + (seq![x] + xs) =~= acc.push(x) + xs);
        },
        Err(e) => {},
    }
}

/// The position `k` bytes after `ptr`.
fn advance(ptr: WasmAnyPtr, k: u32) -> (r: Result<WasmAnyPtr, SetBlocksError>)
    ensures
        match spec_advance(ptr.addr() as int, k as int) {
            Ok(q) => (r matches Ok(p) && p.addr() == q),
            Err(e) => r == Err::<WasmAnyPtr, _>(e),
        },
{
    if (ptr.ptr() as u64) + (k as u64) <= u32::MAX as u64 {
        Ok(ptr.shift(k))
    } else {
        Err(SetBlocksError::PointerOverflow)
    }
}

/// Reads a `T` at `ptr`, then moves `stride` bytes on.
fn read_at<T: WasmPtrable>(memory: &[u8], ptr: WasmAnyPtr, stride: u32) -> (r: Result<
    (T, WasmAnyPtr),
    SetBlocksError,
>)
    ensures
        match spec_read_at::<T>(memory@, ptr.addr() as int, stride as int) {
            Ok((v, q)) => (r matches Ok((v2, p)) && v2 == v && p.addr() == q),
            Err(e) => (r matches Err(e2) && e2 == e),
        },
{
    let v = match mem_read::<T>(memory, ptr.assume_type::<T>()) {
        Ok(v) => v,
        Err(e) => {
            return Err(SetBlocksError::Decode(e));
        },
    };
    let q = advance(ptr, stride)?;
    Ok((v, q))
}

/// Reads a `u32` length at `ptr`, then the text of that many bytes after it.
fn read_text_at(memory: &[u8], ptr: WasmAnyPtr) -> (r: Result<(String, WasmAnyPtr), SetBlocksError>)
    ensures
        match spec_read_text_at(memory@, ptr.addr() as int) {
            Ok((t, q)) => (r matches Ok((s, p)) && s@ == t && p.addr() == q),
            Err(e) => (r matches Err(e2) && e2 == e),
        },
{
    let (len, q) = read_at::<u32>(memory, ptr, 4)?;
    let text = match mem_read_str(memory, q, len) {
        Ok(s) => s.to_owned(),
        Err(e) => {
            return Err(SetBlocksError::Decode(e));
        },
    };
    let r = advance(q, len)?;
    Ok((text, r))
}

/// Reads one block state: its name, then its value.
fn read_state_at(memory: &[u8], ptr: WasmAnyPtr) -> (r: Result<(BlockState, WasmAnyPtr), SetBlocksError>)
    ensures
        match spec_read_state_at(memory@, ptr.addr() as int) {
            Ok((st, q)) => (r matches Ok((s, p)) && s@ == st && p.addr() == q),
            Err(e) => (r matches Err(e2) && e2 == e),
        },
{
    let (name, q) = read_text_at(memory, ptr)?;
    let (value, r) = read_text_at(memory, q)?;
    Ok((BlockState { name, value }, r))
}

/// Reads `count` block states one after another.
fn read_states_at(memory: &[u8], ptr: WasmAnyPtr, count: u8) -> (r: Result<
    (Vec<BlockState>, WasmAnyPtr),
    SetBlocksError,
>)
    ensures
        match spec_read_states_at(memory@, ptr.addr() as int, count as nat) {
            Ok((sts, q)) => (r matches Ok((v, p)) && v@.map_values(|s: BlockState| s@) == sts
                && p.addr() == q),
            Err(e) => (r matches Err(e2) && e2 == e),
        },
{
    let mut states: Vec<BlockState> = Vec::new();
    let mut p = ptr;
    let mut i: u8 = 0;
    while i < count
        invariant
            i <= count,
            spec_read_states_at(memory@, ptr.addr() as int, count as nat) == spec_prepend(
                states@.map_values(|s: BlockState| s@),
                spec_read_states_at(memory@, p.addr() as int, (count - i) as nat),
            ),
        decreases count - i,
    {
        let ghost before = states@.map_values(|s: BlockState| s@);
        let ghost rest = (count - i - 1) as nat;
        let (st, q) = match read_state_at(memory, p) {
            Ok(x) => x,
            Err(e) => {
                return Err(e);
            },
        };
        proof {
            lemma_prepend_push(before, st@, spec_read_states_at(memory@, q.addr() as int, rest));
        }
        states.push(st);
        assert(states@.map_values(|s: BlockState| s@) =~= before.push(st@));
        p = q;
        i = i + 1;
    }
    assert(states@.map_values(|s: BlockState| s@) + Seq::empty() =~= states@.map_values(
        |s: BlockState| s@,
    ));
    Ok((states, p))
}

/// Reads one block: x, y and z, its id, a one-byte count of states in a
/// four-byte slot, then the states.
fn read_block_at(memory: &[u8], ptr: WasmAnyPtr) -> (r: Result<(BlockPlacement, WasmAnyPtr), SetBlocksError>)
    ensures
        match spec_read_block_at(memory@, ptr.addr() as int) {
            Ok((b, q)) => (r matches Ok((v, p)) && v@ == b && p.addr() == q),
            Err(e) => (r matches Err(e2) && e2 == e),
        },
{
    let (x, p1) = read_at::<i64>(memory, ptr, 8)?;
    let (y, p2) = read_at::<i64>(memory, p1, 8)?;
    let (z, p3) = read_at::<i64>(memory, p2, 8)?;
    let (block_id, p4) = read_text_at(memory, p3)?;
    let (count, p5) = read_at::<u8>(memory, p4, 4)?;
    let (states, p6) = read_states_at(memory, p5, count)?;
    Ok((BlockPlacement { x, y, z, block_id, states }, p6))
}

/// Reads `count` blocks one after another.
fn read_blocks_at(memory: &[u8], ptr: WasmAnyPtr, count: u32) -> (r: Result<
    (Vec<BlockPlacement>, WasmAnyPtr),
    SetBlocksError,
>)
    ensures
        match spec_read_blocks_at(memory@, ptr.addr() as int, count as nat) {
            Ok((bs, q)) => (r matches Ok((v, p)) && v@.map_values(|b: BlockPlacement| b@) == bs
                && p.addr() == q),
            Err(e) => (r matches Err(e2) && e2 == e),
        },
{
    let mut blocks: Vec<BlockPlacement> = Vec::new();
    let mut p = ptr;
    let mut i: u32 = 0;
    while i < count
        invariant
            i <= count,
            spec_read_blocks_at(memory@, ptr.addr() as int, count as nat) == spec_prepend(
                blocks@.map_values(|b: BlockPlacement| b@),
                spec_read_blocks_at(memory@, p.addr() as int, (count - i) as nat),
            ),
        decreases count - i,
    {
        let ghost before = blocks@.map_values(|b: BlockPlacement| b@);
        let ghost rest = (count - i - 1) as nat;
        let (b, q) = match read_block_at(memory, p) {
            Ok(x) => x,
            Err(e) => {
                return Err(e);
            },
        };
        proof {
            lemma_prepend_push(before, b@, spec_read_blocks_at(memory@, q.addr() as int, rest));
        }
        blocks.push(b);
        assert(blocks@.map_values(|b: BlockPlacement| b@) =~= before.push(b@));
        p = q;
        i = i + 1;
    }
    assert(blocks@.map_values(|b: BlockPlacement| b@) + Seq::empty() =~= blocks@.map_values(
        |b: BlockPlacement| b@,
    ));
    Ok((blocks, p))
}

/// Reads the block list a guest hands to `flywheel_world_set_blocks`: a
/// `u32` count at `data_ptr`, then that many blocks, each x, y and z as
/// `i64`, a `u32`-length-prefixed block id, a `u8` count of states in a
/// four-byte slot, and the states, each a `u32`-length-prefixed name and
/// value.
pub fn read_set_blocks(memory: &[u8], data_ptr: WasmAnyPtr) -> (r: Result<
    Vec<BlockPlacement>,
    SetBlocksError,
>)
    ensures
        match spec_read_set_blocks(memory@, data_ptr.addr() as int) {
            Ok(bs) => (r matches Ok(v) && v@.map_values(|b: BlockPlacement| b@) == bs),
            Err(e) => (r matches Err(e2) && e2 == e),
        },
        r matches Ok(v) ==> spec_fits_layout(v@.map_values(|b: BlockPlacement| b@)) && matches_at(
            memory@,
            data_ptr.addr() as int,
            spec_set_blocks_pattern(v@.map_values(|b: BlockPlacement| b@)),
        ),
        forall|bs: Seq<SpecBlock>|
            spec_fits_layout(bs) && #[trigger] matches_at(
                memory@,
                data_ptr.addr() as int,
                spec_set_blocks_pattern(bs),
            ) ==> (r matches Ok(v) && v@.map_values(|b: BlockPlacement| b@) == bs),
{
    let ghost p0 = data_ptr.addr() as int;
    proof {
        if spec_read_set_blocks(memory@, p0) is Ok {
            lemma_set_blocks_read_laid_out(memory@, p0);
        }
        assert forall|bs: Seq<SpecBlock>|
            spec_fits_layout(bs) && #[trigger] matches_at(memory@, p0, spec_set_blocks_pattern(bs))
            implies spec_read_set_blocks(memory@, p0) == Ok::<Seq<SpecBlock>, SetBlocksError>(bs) by {
            lemma_read_set_blocks_layout(memory@, p0, bs);
        }
    }
    let (count, p) = read_at::<u32>(memory, data_ptr, 4)?;
    let (blocks, _) = read_blocks_at(memory, p, count)?;
    Ok(blocks)
}

} // verus!
