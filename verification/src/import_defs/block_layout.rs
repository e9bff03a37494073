//! How a guest lays out the block list it hands to
//! `flywheel_world_set_blocks`: the host reads a list exactly when the
//! guest's memory holds it laid out this way.

use crate::import_defs::world::{
    spec_read_at, spec_read_block_at, spec_read_blocks_at, spec_read_set_blocks, spec_read_state_at,
    spec_read_states_at, spec_read_text_at, SetBlocksError, SpecBlock,
};
use crate::runner::callctx::{region, spec_mem_read, spec_mem_read_str};
use crate::types::{
    lemma_from_le_bytes_roundtrip, lemma_le_bytes_roundtrip, spec_from_le_bytes, spec_le_bytes,
    WasmPtrable,
};
use vstd::prelude::*;
use vstd::utf8::{decode_utf8, encode_utf8};

verus! {

/// A text in a block list: its UTF-8 length as `u32`, then its UTF-8 bytes.
pub open spec fn spec_text_layout(t: Seq<char>) -> Seq<u8> {
    spec_le_bytes(encode_utf8(t).len() as u32) + encode_utf8(t)
}

/// A block state: its name, then its value.
pub open spec fn spec_state_layout(s: (Seq<char>, Seq<char>)) -> Seq<u8> {
    spec_text_layout(s.0) + spec_text_layout(s.1)
}

/// Block states one after another.
pub open spec fn spec_states_layout(ss: Seq<(Seq<char>, Seq<char>)>) -> Seq<u8>
    decreases ss.len(),
{
    if ss.len() == 0 {
        Seq::empty()
    } else {
        spec_state_layout(ss[0]) + spec_states_layout(ss.drop_first())
    }
}

/// These bytes, each at its place.
pub open spec fn exact(bytes: Seq<u8>) -> Seq<Option<u8>> {
    bytes.map_values(|b: u8| Some(b))
}

/// `n` places whose bytes do not matter.
pub open spec fn any_bytes(n: nat) -> Seq<Option<u8>> {
    Seq::new(n, |i: int| None::<u8>)
}

/// A block: x, y and z as `i64`, its id, the number of states as one byte
/// followed by three bytes that are skipped, then the states.
pub open spec fn spec_block_pattern(b: SpecBlock) -> Seq<Option<u8>> {
    exact(
        spec_le_bytes(b.0) + spec_le_bytes(b.1) + spec_le_bytes(b.2) + spec_text_layout(b.3)
            + seq![b.4.len() as u8],
    ) + any_bytes(3) + exact(spec_states_layout(b.4))
}

/// Blocks one after another.
pub open spec fn spec_blocks_pattern(bs: Seq<SpecBlock>) -> Seq<Option<u8>>
    decreases bs.len(),
{
    if bs.len() == 0 {
        Seq::empty()
    } else {
        spec_block_pattern(bs[0]) + spec_blocks_pattern(bs.drop_first())
    }
}

/// A block list: the number of blocks as `u32`, then the blocks.
pub open spec fn spec_set_blocks_pattern(bs: Seq<SpecBlock>) -> Seq<Option<u8>> {
    exact(spec_le_bytes(bs.len() as u32)) + spec_blocks_pattern(bs)
}

/// The lengths of a block state fit their `u32` fields.
pub open spec fn spec_state_fits(s: (Seq<char>, Seq<char>)) -> bool {
    encode_utf8(s.0).len() <= u32::MAX && encode_utf8(s.1).len() <= u32::MAX
}

/// The counts and lengths of a block fit their fields.
pub open spec fn spec_block_fits(b: SpecBlock) -> bool {
    &&& b.4.len() <= u8::MAX
    &&& encode_utf8(b.3).len() <= u32::MAX
    &&& forall|j: int| 0 <= j < b.4.len() ==> spec_state_fits(#[trigger] b.4[j])
}

/// Every count and every length in a block list fits its field.
pub open spec fn spec_fits_layout(bs: Seq<SpecBlock>) -> bool {
    &&& bs.len() <= u32::MAX
    &&& forall|i: int| 0 <= i < bs.len() ==> spec_block_fits(#[trigger] bs[i])
}

/// Memory from `p` on holds what the pattern fixes, and the pattern ends
/// within the 32-bit address space.
pub open spec fn matches_at(mem: Seq<u8>, p: int, pat: Seq<Option<u8>>) -> bool {
    &&& 0 <= p
    &&& p + pat.len() <= u32::MAX
    &&& forall|i: int|
        0 <= i < pat.len() && (#[trigger] pat[i]) is Some ==> p + i < mem.len() && mem[p + i]
            == pat[i]->0
}

/// `bytes` stand in memory from `p` on.
pub open spec fn laid_out_at(mem: Seq<u8>, p: int, bytes: Seq<u8>) -> bool {
    matches_at(mem, p, exact(bytes))
}

proof fn lemma_matches_split(mem: Seq<u8>, p: int, a: Seq<Option<u8>>, b: Seq<Option<u8>>)
    ensures
        matches_at(mem, p, a + b) == (matches_at(mem, p, a) && matches_at(mem, p + a.len(), b)),
{
    let ab = a + b;
    if matches_at(mem, p, ab) {
        assert forall|i: int| 0 <= i < a.len() && (#[trigger] a[i]) is Some implies p + i
            < mem.len() && mem[p + i] == a[i]->0 by {
            assert(ab[i] == a[i]);
        }
        assert forall|i: int| 0 <= i < b.len() && (#[trigger] b[i]) is Some implies p + a.len()
            + i < mem.len() && mem[p + a.len() + i] == b[i]->0 by {
            assert(ab[a.len() + i] == b[i]);
        }
    }
    if matches_at(mem, p, a) && matches_at(mem, p + a.len(), b) {
        assert forall|i: int| 0 <= i < ab.len() && (#[trigger] ab[i]) is Some implies p + i
            < mem.len() && mem[p + i] == ab[i]->0 by {
            if i < a.len() {
                assert(ab[i] == a[i]);
            } else {
                assert(ab[i] == b[i - a.len()]);
            }
        }
    }
}

proof fn lemma_exact_concat(a: Seq<u8>, b: Seq<u8>)
    ensures
        exact(a + b) == exact(a) + exact(b),
{
    assert(exact(a + b) =~= exact(a) + exact(b));
}

proof fn lemma_at_split(mem: Seq<u8>, p: int, a: Seq<u8>, b: Seq<u8>)
    ensures
        laid_out_at(mem, p, a + b) == (laid_out_at(mem, p, a) && laid_out_at(mem, p + a.len(), b)),
{
    lemma_exact_concat(a, b);
    lemma_matches_split(mem, p, exact(a), exact(b));
}

/// Bytes laid out in memory are the memory's bytes there.
proof fn lemma_laid_out_region(mem: Seq<u8>, p: int, bytes: Seq<u8>)
    requires
        laid_out_at(mem, p, bytes),
        bytes.len() > 0,
    ensures
        p + bytes.len() <= mem.len(),
        region(mem, p, bytes.len() as int) == bytes,
{
    let e = exact(bytes);
    assert(e[bytes.len() - 1] is Some);
    assert forall|i: int| 0 <= i < bytes.len() implies region(mem, p, bytes.len() as int)[i]
        == bytes[i] by {
        assert(e[i] is Some);
    }
    assert(region(mem, p, bytes.len() as int) =~= bytes);
}

/// The memory's bytes are laid out where they stand.
proof fn lemma_region_laid_out(mem: Seq<u8>, p: int, len: int)
    requires
        0 <= p,
        0 <= len,
        p + len <= mem.len(),
        p + len <= u32::MAX,
    ensures
        laid_out_at(mem, p, region(mem, p, len)),
{
    let e = exact(region(mem, p, len));
    assert forall|i: int| 0 <= i < e.len() && (#[trigger] e[i]) is Some implies p + i < mem.len()
        && mem[p + i] == e[i]->0 by {
    }
}

proof fn lemma_any_bytes(mem: Seq<u8>, p: int, n: nat)
    requires
        0 <= p,
        p + n <= u32::MAX,
    ensures
        matches_at(mem, p, any_bytes(n)),
{
}

proof fn lemma_read_value<T: WasmPtrable>(mem: Seq<u8>, p: int, v: T)
    requires
        laid_out_at(mem, p, spec_le_bytes(v)),
        T::spec_byte_len() > 0,
    ensures
        spec_read_at::<T>(mem, p, T::spec_byte_len() as int) == Ok::<(T, int), SetBlocksError>(
            (v, p + T::spec_byte_len()),
        ),
{
    lemma_le_bytes_roundtrip(v);
    lemma_laid_out_region(mem, p, spec_le_bytes(v));
}

/// A value the reader took at `p` is laid out there.
proof fn lemma_value_back<T: WasmPtrable>(mem: Seq<u8>, p: int, stride: int)
    requires
        0 <= p,
        T::spec_byte_len() <= stride,
        spec_read_at::<T>(mem, p, stride) is Ok,
    ensures
        ({
            let (v, q) = spec_read_at::<T>(mem, p, stride)->Ok_0;
            &&& q == p + stride
            &&& laid_out_at(mem, p, spec_le_bytes(v))
        }),
{
    let n = T::spec_byte_len() as int;
    let bytes = region(mem, p, n);
    lemma_from_le_bytes_roundtrip::<T>(bytes);
    lemma_region_laid_out(mem, p, n);
}

proof fn lemma_read_text(mem: Seq<u8>, p: int, t: Seq<char>)
    requires
        laid_out_at(mem, p, spec_text_layout(t)),
        encode_utf8(t).len() <= u32::MAX,
    ensures
        spec_read_text_at(mem, p) == Ok::<(Seq<char>, int), SetBlocksError>(
            (t, p + spec_text_layout(t).len()),
        ),
{
    let n = encode_utf8(t).len() as u32;
    lemma_le_bytes_roundtrip(n);
    lemma_at_split(mem, p, spec_le_bytes(n), encode_utf8(t));
    lemma_read_value::<u32>(mem, p, n);
    vstd::utf8::encode_utf8_valid_utf8(t);
    vstd::utf8::encode_utf8_decode_utf8(t);
    if n > 0 {
        lemma_laid_out_region(mem, p + 4, encode_utf8(t));
    } else {
        assert(encode_utf8(t) =~= Seq::<u8>::empty());
        assert(region(mem, p + 4, 0) =~= Seq::<u8>::empty());
        lemma_laid_out_region(mem, p, spec_le_bytes(n));
    }
    assert(spec_mem_read_str(mem, p + 4, n as int) == Ok::<
        Seq<char>,
        crate::runner::callctx::MemoryDecodeError,
    >(t));
}

/// A text the reader took at `p` is laid out there.
proof fn lemma_text_back(mem: Seq<u8>, p: int)
    requires
        0 <= p,
        spec_read_text_at(mem, p) is Ok,
    ensures
        ({
            let (t, q) = spec_read_text_at(mem, p)->Ok_0;
            &&& q == p + spec_text_layout(t).len()
            &&& laid_out_at(mem, p, spec_text_layout(t))
            &&& encode_utf8(t).len() <= u32::MAX
        }),
{
    lemma_value_back::<u32>(mem, p, 4);
    let (n, q) = spec_read_at::<u32>(mem, p, 4)->Ok_0;
    let bytes = region(mem, q, n as int);
    assert(q == p + 4);
    assert(spec_mem_read_str(mem, q, n as int) is Ok);
    assert(q + n <= mem.len());
    assert(q + n <= u32::MAX);
    let t = decode_utf8(bytes);
    assert(spec_read_text_at(mem, p) == Ok::<(Seq<char>, int), SetBlocksError>((t, q + n)));
    vstd::utf8::decode_utf8_encode_utf8(bytes);
    assert(encode_utf8(t) == bytes);
    assert(bytes.len() == n);
    lemma_region_laid_out(mem, q, n as int);
    lemma_at_split(mem, p, spec_le_bytes(n), bytes);
    assert(encode_utf8(t).len() as u32 == n);
    lemma_le_bytes_roundtrip(n);
    assert(spec_text_layout(t) == spec_le_bytes(n) + bytes);
}

proof fn lemma_read_state(mem: Seq<u8>, p: int, s: (Seq<char>, Seq<char>))
    requires
        laid_out_at(mem, p, spec_state_layout(s)),
        spec_state_fits(s),
    ensures
        spec_read_state_at(mem, p) == Ok::<((Seq<char>, Seq<char>), int), SetBlocksError>(
            (s, p + spec_state_layout(s).len()),
        ),
{
    lemma_at_split(mem, p, spec_text_layout(s.0), spec_text_layout(s.1));
    lemma_read_text(mem, p, s.0);
    lemma_read_text(mem, p + spec_text_layout(s.0).len(), s.1);
}

proof fn lemma_state_back(mem: Seq<u8>, p: int)
    requires
        0 <= p,
        spec_read_state_at(mem, p) is Ok,
    ensures
        ({
            let (s, q) = spec_read_state_at(mem, p)->Ok_0;
            &&& q == p + spec_state_layout(s).len()
            &&& laid_out_at(mem, p, spec_state_layout(s))
            &&& spec_state_fits(s)
        }),
{
    lemma_text_back(mem, p);
    let (name, q) = spec_read_text_at(mem, p)->Ok_0;
    lemma_text_back(mem, q);
    let (value, r) = spec_read_text_at(mem, q)->Ok_0;
    lemma_at_split(mem, p, spec_text_layout(name), spec_text_layout(value));
}

proof fn lemma_read_states(mem: Seq<u8>, p: int, ss: Seq<(Seq<char>, Seq<char>)>)
    requires
        laid_out_at(mem, p, spec_states_layout(ss)),
        forall|j: int| 0 <= j < ss.len() ==> spec_state_fits(#[trigger] ss[j]),
    ensures
        spec_read_states_at(mem, p, ss.len()) == Ok::<
            (Seq<(Seq<char>, Seq<char>)>, int),
            SetBlocksError,
        >((ss, p + spec_states_layout(ss).len())),
    decreases ss.len(),
{
    if ss.len() > 0 {
        let rest = ss.drop_first();
        lemma_at_split(mem, p, spec_state_layout(ss[0]), spec_states_layout(rest));
        assert(spec_state_fits(ss[0]));
        lemma_read_state(mem, p, ss[0]);
        assert forall|j: int| 0 <= j < rest.len() implies spec_state_fits(#[trigger] rest[j]) by {
            assert(rest[j] == ss[j + 1]);
        }
        lemma_read_states(mem, p + spec_state_layout(ss[0]).len(), rest);
        assert(seq![ss[0]] + rest =~= ss);
        assert(rest.len() == (ss.len() - 1) as nat);
    } else {
        assert(ss =~= Seq::<(Seq<char>, Seq<char>)>::empty());
    }
}

proof fn lemma_states_back(mem: Seq<u8>, p: int, n: nat)
    requires
        0 <= p <= u32::MAX,
        spec_read_states_at(mem, p, n) is Ok,
    ensures
        ({
            let (ss, q) = spec_read_states_at(mem, p, n)->Ok_0;
            &&& ss.len() == n
            &&& q == p + spec_states_layout(ss).len()
            &&& laid_out_at(mem, p, spec_states_layout(ss))
            &&& forall|j: int| 0 <= j < ss.len() ==> spec_state_fits(#[trigger] ss[j])
        }),
    decreases n,
{
    if n == 0 {
        assert(exact(Seq::<u8>::empty()) =~= Seq::<Option<u8>>::empty());
    } else {
        lemma_state_back(mem, p);
        let (s, q) = spec_read_state_at(mem, p)->Ok_0;
        lemma_states_back(mem, q, (n - 1) as nat);
        let (rest, r) = spec_read_states_at(mem, q, (n - 1) as nat)->Ok_0;
        let ss = seq![s] + rest;
        assert(ss.drop_first() =~= rest);
        assert(ss[0] == s);
        assert(spec_read_states_at(mem, p, n) == Ok::<(Seq<(Seq<char>, Seq<char>)>, int), SetBlocksError>((ss, r)));
        assert(spec_states_layout(ss) == spec_state_layout(s) + spec_states_layout(rest));
        lemma_at_split(mem, p, spec_state_layout(s), spec_states_layout(rest));
        assert forall|j: int| 0 <= j < ss.len() implies spec_state_fits(#[trigger] ss[j]) by {
            if j > 0 {
                assert(ss[j] == rest[j - 1]);
            }
        }
    }
}

proof fn lemma_block_prefix_split(mem: Seq<u8>, p: int, b: SpecBlock)
    ensures
        matches_at(mem, p, spec_block_pattern(b)) == ({
            let pre = spec_le_bytes(b.0) + spec_le_bytes(b.1) + spec_le_bytes(b.2) + spec_text_layout(
                b.3,
            ) + seq![b.4.len() as u8];
            &&& laid_out_at(mem, p, pre)
            &&& matches_at(mem, p + pre.len(), any_bytes(3))
            &&& laid_out_at(mem, p + pre.len() + 3, spec_states_layout(b.4))
        }),
{
    let pre = spec_le_bytes(b.0) + spec_le_bytes(b.1) + spec_le_bytes(b.2) + spec_text_layout(b.3)
        + seq![b.4.len() as u8];
    lemma_matches_split(mem, p, exact(pre) + any_bytes(3), exact(spec_states_layout(b.4)));
    lemma_matches_split(mem, p, exact(pre), any_bytes(3));
}

proof fn lemma_read_block(mem: Seq<u8>, p: int, b: SpecBlock)
    requires
        matches_at(mem, p, spec_block_pattern(b)),
        spec_block_fits(b),
    ensures
        spec_read_block_at(mem, p) == Ok::<(SpecBlock, int), SetBlocksError>(
            (b, p + spec_block_pattern(b).len()),
        ),
{
    let lx = spec_le_bytes(b.0);
    let ly = spec_le_bytes(b.1);
    let lz = spec_le_bytes(b.2);
    let lt = spec_text_layout(b.3);
    let lc = seq![b.4.len() as u8];
    lemma_le_bytes_roundtrip(b.0);
    lemma_le_bytes_roundtrip(b.1);
    lemma_le_bytes_roundtrip(b.2);
    lemma_block_prefix_split(mem, p, b);
    lemma_at_split(mem, p, lx + ly + lz + lt, lc);
    lemma_at_split(mem, p, lx + ly + lz, lt);
    lemma_at_split(mem, p, lx + ly, lz);
    lemma_at_split(mem, p, lx, ly);
    lemma_read_value::<i64>(mem, p, b.0);
    lemma_read_value::<i64>(mem, p + 8, b.1);
    lemma_read_value::<i64>(mem, p + 16, b.2);
    lemma_read_text(mem, p + 24, b.3);
    reveal_with_fuel(crate::le::le_encode, 2);
    assert(spec_le_bytes(b.4.len() as u8) =~= lc);
    lemma_read_value::<u8>(mem, p + 24 + lt.len(), b.4.len() as u8);
    lemma_read_states(mem, p + 28 + lt.len(), b.4);
}

proof fn lemma_block_back(mem: Seq<u8>, p: int)
    requires
        0 <= p,
        spec_read_block_at(mem, p) is Ok,
    ensures
        ({
            let (b, q) = spec_read_block_at(mem, p)->Ok_0;
            &&& q == p + spec_block_pattern(b).len()
            &&& matches_at(mem, p, spec_block_pattern(b))
            &&& spec_block_fits(b)
        }),
{
    lemma_value_back::<i64>(mem, p, 8);
    let (x, p1) = spec_read_at::<i64>(mem, p, 8)->Ok_0;
    lemma_value_back::<i64>(mem, p1, 8);
    let (y, p2) = spec_read_at::<i64>(mem, p1, 8)->Ok_0;
    lemma_value_back::<i64>(mem, p2, 8);
    let (z, p3) = spec_read_at::<i64>(mem, p2, 8)->Ok_0;
    lemma_text_back(mem, p3);
    let (id, p4) = spec_read_text_at(mem, p3)->Ok_0;
    lemma_value_back::<u8>(mem, p4, 4);
    let (count, p5) = spec_read_at::<u8>(mem, p4, 4)->Ok_0;
    lemma_states_back(mem, p5, count as nat);
    let (states, p6) = spec_read_states_at(mem, p5, count as nat)->Ok_0;
    let b: SpecBlock = (x, y, z, id, states);
    lemma_le_bytes_roundtrip(x);
    lemma_le_bytes_roundtrip(y);
    lemma_le_bytes_roundtrip(z);
    let lx = spec_le_bytes(x);
    let ly = spec_le_bytes(y);
    let lz = spec_le_bytes(z);
    let lt = spec_text_layout(id);
    let lc = seq![states.len() as u8];
    reveal_with_fuel(crate::le::le_encode, 2);
    assert(spec_le_bytes(count) =~= lc);
    lemma_at_split(mem, p, lx, ly);
    lemma_at_split(mem, p, lx + ly, lz);
    lemma_at_split(mem, p, lx + ly + lz, lt);
    lemma_at_split(mem, p, lx + ly + lz + lt, lc);
    lemma_any_bytes(mem, p4 + 1, 3);
    lemma_block_prefix_split(mem, p, b);
}

proof fn lemma_read_blocks(mem: Seq<u8>, p: int, bs: Seq<SpecBlock>)
    requires
        matches_at(mem, p, spec_blocks_pattern(bs)),
        forall|i: int| 0 <= i < bs.len() ==> spec_block_fits(#[trigger] bs[i]),
    ensures
        spec_read_blocks_at(mem, p, bs.len()) == Ok::<(Seq<SpecBlock>, int), SetBlocksError>(
            (bs, p + spec_blocks_pattern(bs).len()),
        ),
    decreases bs.len(),
{
    if bs.len() > 0 {
        let rest = bs.drop_first();
        lemma_matches_split(mem, p, spec_block_pattern(bs[0]), spec_blocks_pattern(rest));
        assert(spec_block_fits(bs[0]));
        lemma_read_block(mem, p, bs[0]);
        assert forall|i: int| 0 <= i < rest.len() implies spec_block_fits(#[trigger] rest[i]) by {
            assert(rest[i] == bs[i + 1]);
        }
        lemma_read_blocks(mem, p + spec_block_pattern(bs[0]).len(), rest);
        assert(seq![bs[0]] + rest =~= bs);
        assert(rest.len() == (bs.len() - 1) as nat);
    } else {
        assert(bs =~= Seq::<SpecBlock>::empty());
    }
}

proof fn lemma_blocks_back(mem: Seq<u8>, p: int, n: nat)
    requires
        0 <= p <= u32::MAX,
        spec_read_blocks_at(mem, p, n) is Ok,
    ensures
        ({
            let (bs, q) = spec_read_blocks_at(mem, p, n)->Ok_0;
            &&& bs.len() == n
            &&& q == p + spec_blocks_pattern(bs).len()
            &&& matches_at(mem, p, spec_blocks_pattern(bs))
            &&& forall|i: int| 0 <= i < bs.len() ==> spec_block_fits(#[trigger] bs[i])
        }),
    decreases n,
{
    if n == 0 {
        assert(matches_at(mem, p, Seq::<Option<u8>>::empty()));
    } else {
        lemma_block_back(mem, p);
        let (b, q) = spec_read_block_at(mem, p)->Ok_0;
        lemma_blocks_back(mem, q, (n - 1) as nat);
        let (rest, r) = spec_read_blocks_at(mem, q, (n - 1) as nat)->Ok_0;
        let bs = seq![b] + rest;
        assert(bs.drop_first() =~= rest);
        assert(bs[0] == b);
        assert(spec_read_blocks_at(mem, p, n) == Ok::<(Seq<SpecBlock>, int), SetBlocksError>((bs, r)));
        assert(spec_blocks_pattern(bs) == spec_block_pattern(b) + spec_blocks_pattern(rest));
        lemma_matches_split(mem, p, spec_block_pattern(b), spec_blocks_pattern(rest));
        assert forall|i: int| 0 <= i < bs.len() implies spec_block_fits(#[trigger] bs[i]) by {
            if i > 0 {
                assert(bs[i] == rest[i - 1]);
            }
        }
    }
}

/// The host reads back exactly the blocks a guest lays out, wherever the
/// layout stands in its memory, as long as every count and length fits its
/// field and the layout ends within the 32-bit address space.
pub proof fn lemma_read_set_blocks_layout(mem: Seq<u8>, p: int, bs: Seq<SpecBlock>)
    requires
        matches_at(mem, p, spec_set_blocks_pattern(bs)),
        spec_fits_layout(bs),
    ensures
        spec_read_set_blocks(mem, p) == Ok::<Seq<SpecBlock>, SetBlocksError>(bs),
{
    lemma_le_bytes_roundtrip(bs.len() as u32);
    lemma_matches_split(mem, p, exact(spec_le_bytes(bs.len() as u32)), spec_blocks_pattern(bs));
    lemma_read_value::<u32>(mem, p, bs.len() as u32);
    lemma_read_blocks(mem, p + 4, bs);
}

/// Whatever list the host reads, the guest's memory holds it laid out, with
/// every count and length fitting its field.
pub proof fn lemma_set_blocks_read_laid_out(mem: Seq<u8>, p: int)
    requires
        0 <= p,
        spec_read_set_blocks(mem, p) is Ok,
    ensures
        ({
            let bs = spec_read_set_blocks(mem, p)->Ok_0;
            &&& spec_fits_layout(bs)
            &&& matches_at(mem, p, spec_set_blocks_pattern(bs))
        }),
{
    lemma_value_back::<u32>(mem, p, 4);
    let (count, q) = spec_read_at::<u32>(mem, p, 4)->Ok_0;
    lemma_blocks_back(mem, q, count as nat);
    let (bs, r) = spec_read_blocks_at(mem, q, count as nat)->Ok_0;
    lemma_le_bytes_roundtrip(count);
    assert(bs.len() as u32 == count);
    lemma_matches_split(mem, p, exact(spec_le_bytes(count)), spec_blocks_pattern(bs));
}

} // verus!
