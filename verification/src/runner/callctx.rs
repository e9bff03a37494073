use crate::types::{
    from_le_bytes, spec_from_le_bytes, spec_le_bytes, to_le_bytes, WasmAnyPtr, WasmPtr,
    WasmPtrable,
};
use vstd::prelude::*;
use vstd::utf8::{decode_utf8, encode_utf8, valid_utf8};

verus! {

/// A guest memory access that reaches past the end of the memory.
#[derive(Clone, Copy, Debug, PartialEq, Eq, Structural)]
pub struct MemoryOutOfBounds;

impl MemoryOutOfBounds {
    /// The message handed back to the guest.
    pub fn message(&self) -> (m: &'static str)
        ensures
            m@ == "memory index out of bounds"@,
    {
        "memory index out of bounds"
    }
}

/// Why a value could not be read from guest memory.
#[derive(Clone, Copy, Debug, PartialEq, Eq, Structural)]
pub enum MemoryDecodeError {
    OutOfBounds,
    InvalidData,
}

impl MemoryDecodeError {
    /// The message handed back to the guest.
    pub fn message(&self) -> (m: &'static str)
        ensures
            self is OutOfBounds ==> m@ == "memory index out of bounds"@,
            self is InvalidData ==> m@ == "invalid utf8"@,
    {
        match self {
            MemoryDecodeError::OutOfBounds => "memory index out of bounds",
            MemoryDecodeError::InvalidData => "invalid utf8",
        }
    }
}

impl From<MemoryOutOfBounds> for MemoryDecodeError {
    fn from(_e: MemoryOutOfBounds) -> (r: Self) {
        MemoryDecodeError::OutOfBounds
    }
}

impl vstd::std_specs::convert::FromSpecImpl<MemoryOutOfBounds> for MemoryDecodeError {
    open spec fn obeys_from_spec() -> bool {
        true
    }

    open spec fn from_spec(e: MemoryOutOfBounds) -> Self {
        MemoryDecodeError::OutOfBounds
    }
}

/// Why guest memory could not be allocated and filled.
#[derive(Debug)]
pub enum MemoryAllocError {
    /// The guest exports no allocation function.
    NoAllocFn,
    OutOfBounds,
    /// The guest's allocation function failed; the runtime's message.
    Wasmtime(String),
}

impl MemoryAllocError {
    /// The message handed back to the guest.
    pub fn message(&self) -> (m: String)
        ensures
            self is NoAllocFn ==> m@ == "no alloc function"@,
            self is OutOfBounds ==> m@ == "memory index out of bounds"@,
            self matches MemoryAllocError::Wasmtime(msg) ==> m@ == msg@,
    {
        match self {
            MemoryAllocError::NoAllocFn => "no alloc function".to_owned(),
            MemoryAllocError::OutOfBounds => "memory index out of bounds".to_owned(),
            MemoryAllocError::Wasmtime(msg) => msg.clone(),
        }
    }
}

impl From<MemoryOutOfBounds> for MemoryAllocError {
    fn from(_e: MemoryOutOfBounds) -> (r: Self) {
        MemoryAllocError::OutOfBounds
    }
}

impl vstd::std_specs::convert::FromSpecImpl<MemoryOutOfBounds> for MemoryAllocError {
    open spec fn obeys_from_spec() -> bool {
        true
    }

    open spec fn from_spec(e: MemoryOutOfBounds) -> Self {
        MemoryAllocError::OutOfBounds
    }
}

/// `len` bytes from `addr` lie inside a memory of `mem.len()` bytes.
pub open spec fn in_bounds(mem: Seq<u8>, addr: int, len: int) -> bool {
    addr + len <= mem.len()
}

/// The `len` bytes of memory from `addr`.
pub open spec fn region(mem: Seq<u8>, addr: int, len: int) -> Seq<u8> {
    mem.subrange(addr, addr + len)
}

/// The memory with the bytes from `addr` replaced by `bytes`.
pub open spec fn overwrite(mem: Seq<u8>, addr: int, bytes: Seq<u8>) -> Seq<u8> {
    mem.subrange(0, addr) + bytes + mem.subrange(addr + bytes.len(), mem.len() as int)
}

/// What reading a `T` at `addr` gives: the value its little-endian bytes
/// hold, or nothing when they reach past the end of the memory.
pub open spec fn spec_mem_read<T: WasmPtrable>(mem: Seq<u8>, addr: int) -> Option<T> {
    if in_bounds(mem, addr, T::spec_byte_len() as int) {
        Some(spec_from_le_bytes::<T>(region(mem, addr, T::spec_byte_len() as int)))
    } else {
        None
    }
}

/// What reading `len` bytes at `addr` as text gives.
pub open spec fn spec_mem_read_str(mem: Seq<u8>, addr: int, len: int) -> Result<
    Seq<char>,
    MemoryDecodeError,
> {
    if !in_bounds(mem, addr, len) {
        Err(MemoryDecodeError::OutOfBounds)
    } else if !valid_utf8(region(mem, addr, len)) {
        Err(MemoryDecodeError::InvalidData)
    } else {
        Ok(decode_utf8(region(mem, addr, len)))
    }
}

/// Calls `core::str::from_utf8`, which std documents as giving the text
/// exactly when the bytes are valid UTF-8; the contract states this over
/// vstd's definition of UTF-8.
#[verifier::external_body]
fn str_from_utf8(bytes: &[u8]) -> (r: Option<&str>)
    ensures
        r is Some <==> valid_utf8(bytes@),
        r matches Some(s) ==> s@ == decode_utf8(bytes@),
{
    core::str::from_utf8(bytes).ok()
}

/// Whether `len` bytes from `addr` fit in a memory of `mem_len` bytes.
fn fits(mem_len: usize, addr: u32, len: u64) -> (r: bool)
    ensures
        r == (addr + len <= mem_len),
{
    (addr as u128) + (len as u128) <= mem_len as u128
}

/// Copies `bytes` into the memory from `start` on.
fn write_bytes(memory: &mut [u8], start: usize, bytes: &[u8])
    requires
        start + bytes@.len() <= old(memory)@.len(),
    ensures
        final(memory)@ == overwrite(old(memory)@, start as int, bytes@),
{
    let n = bytes.len();
    let mlen = memory.len();
    let mut i: usize = 0;
    while i < n
        invariant
            n == bytes@.len(),
            mlen == memory@.len(),
            start + n <= mlen,
            i <= n,
            memory@.len() == old(memory)@.len(),
            forall|j: int|
                0 <= j < memory@.len() ==> #[trigger] memory@[j] == if start <= j < start + i {
                    bytes@[j - start]
                } else {
                    old(memory)@[j]
                },
        decreases n - i,
    {
        memory[start + i] = bytes[i];
        i = i + 1;
    }
    assert(memory@ =~= overwrite(old(memory)@, start as int, bytes@));
}

/// Reads the value a typed guest pointer points to.
pub fn mem_read<T: WasmPtrable>(memory: &[u8], ptr: WasmPtr<T>) -> (r: Result<T, MemoryDecodeError>)
    ensures
        r == match spec_mem_read::<T>(memory@, ptr.addr() as int) {
            Some(v) => Ok(v),
            None => Err(MemoryDecodeError::OutOfBounds),
        },
{
    let n = T::byte_len();
    proof {
        T::lemma_bits(T::spec_from_bits(0));
    }
    if fits(memory.len(), ptr.ptr(), n as u64) {
        let start = ptr.offset();
        let bytes = &memory[start..start + n];
        Ok(from_le_bytes::<T>(bytes))
    } else {
        Err(MemoryDecodeError::OutOfBounds)
    }
}

/// The `len` bytes of guest memory from `ptr`.
pub fn mem_read_any<'a>(memory: &'a [u8], ptr: WasmAnyPtr, len: u32) -> (r: Result<
    &'a [u8],
    MemoryOutOfBounds,
>)
    ensures
        in_bounds(memory@, ptr.addr() as int, len as int) ==> (r matches Ok(bytes) && bytes@
            == region(memory@, ptr.addr() as int, len as int)),
        !in_bounds(memory@, ptr.addr() as int, len as int) ==> r == Err::<&[u8], _>(
            MemoryOutOfBounds,
        ),
{
    if fits(memory.len(), ptr.ptr(), len as u64) {
        let start = ptr.offset();
        Ok(&memory[start..start + len as usize])
    } else {
        Err(MemoryOutOfBounds)
    }
}

/// The `len` bytes of guest memory from `ptr`, read as UTF-8 text.
pub fn mem_read_str<'a>(memory: &'a [u8], ptr: WasmAnyPtr, len: u32) -> (r: Result<
    &'a str,
    MemoryDecodeError,
>)
    ensures
        match spec_mem_read_str(memory@, ptr.addr() as int, len as int) {
            Ok(text) => (r matches Ok(s) && s@ == text),
            Err(e) => (r matches Err(e2) && e2 == e),
        },
{
    let bytes = match mem_read_any(memory, ptr, len) {
        Ok(bytes) => bytes,
        Err(_) => {
            return Err(MemoryDecodeError::OutOfBounds);
        },
    };
    match str_from_utf8(bytes) {
        Some(s) => Ok(s),
        None => Err(MemoryDecodeError::InvalidData),
    }
}

/// Writes a value where a typed guest pointer points.
pub fn mem_write<T: WasmPtrable>(memory: &mut [u8], ptr: WasmPtr<T>, value: T) -> (r: Result<
    (),
    MemoryOutOfBounds,
>)
    ensures
        in_bounds(old(memory)@, ptr.addr() as int, T::spec_byte_len() as int) ==> r is Ok
            && final(memory)@ == overwrite(old(memory)@, ptr.addr() as int, spec_le_bytes(value)),
        !in_bounds(old(memory)@, ptr.addr() as int, T::spec_byte_len() as int) ==> r is Err
            && final(memory)@ == old(memory)@,
{
    let bytes = to_le_bytes(&value);
    if fits(memory.len(), ptr.ptr(), bytes.len() as u64) {
        write_bytes(memory, ptr.offset(), bytes.as_slice());
        Ok(())
    } else {
        Err(MemoryOutOfBounds)
    }
}

/// Writes raw bytes into guest memory from `ptr` on.
pub fn mem_write_any(memory: &mut [u8], ptr: WasmAnyPtr, value: &[u8]) -> (r: Result<
    (),
    MemoryOutOfBounds,
>)
    ensures
        in_bounds(old(memory)@, ptr.addr() as int, value@.len() as int) ==> r is Ok
            && final(memory)@ == overwrite(old(memory)@, ptr.addr() as int, value@),
        !in_bounds(old(memory)@, ptr.addr() as int, value@.len() as int) ==> r is Err
            && final(memory)@ == old(memory)@,
{
    if fits(memory.len(), ptr.ptr(), value.len() as u64) {
        write_bytes(memory, ptr.offset(), value);
        Ok(())
    } else {
        Err(MemoryOutOfBounds)
    }
}

/// Writes the UTF-8 bytes of a text into guest memory from `ptr` on.
pub fn mem_write_str(memory: &mut [u8], ptr: WasmAnyPtr, value: &str) -> (r: Result<
    (),
    MemoryOutOfBounds,
>)
    ensures
        in_bounds(old(memory)@, ptr.addr() as int, encode_utf8(value@).len() as int) ==> r is Ok
            && final(memory)@ == overwrite(old(memory)@, ptr.addr() as int, encode_utf8(value@)),
        !in_bounds(old(memory)@, ptr.addr() as int, encode_utf8(value@).len() as int) ==> r is Err
            && final(memory)@ == old(memory)@,
{
    mem_write_any(memory, ptr, value.as_bytes())
}

/// Reading a value where it was just written gives the value back.
pub proof fn lemma_read_after_write<T: WasmPtrable>(mem: Seq<u8>, addr: int, v: T)
    requires
        0 <= addr,
        in_bounds(mem, addr, T::spec_byte_len() as int),
    ensures
        spec_mem_read::<T>(overwrite(mem, addr, spec_le_bytes(v)), addr) == Some(v),
{
    crate::types::lemma_le_bytes_roundtrip(v);
    let n = T::spec_byte_len() as int;
    let m2 = overwrite(mem, addr, spec_le_bytes(v));
    assert(region(m2, addr, n) =~= spec_le_bytes(v));
}

/// A write leaves every byte outside the written range as it was.
pub proof fn lemma_write_keeps_rest(mem: Seq<u8>, addr: int, bytes: Seq<u8>, other: int, len: int)
    requires
        0 <= addr,
        0 <= other,
        0 <= len,
        in_bounds(mem, addr, bytes.len() as int),
        in_bounds(mem, other, len),
        other + len <= addr || addr + bytes.len() <= other,
    ensures
        overwrite(mem, addr, bytes).len() == mem.len(),
        region(overwrite(mem, addr, bytes), other, len) == region(mem, other, len),
{
    assert(region(overwrite(mem, addr, bytes), other, len) =~= region(mem, other, len));
}

/// Reading text where its UTF-8 bytes were just written gives the text back.
pub proof fn lemma_read_str_after_write(mem: Seq<u8>, addr: int, text: Seq<char>)
    requires
        0 <= addr,
        in_bounds(mem, addr, encode_utf8(text).len() as int),
    ensures
        spec_mem_read_str(overwrite(mem, addr, encode_utf8(text)), addr, encode_utf8(text).len() as int)
            == Ok::<Seq<char>, MemoryDecodeError>(text),
{
    let bytes = encode_utf8(text);
    let m2 = overwrite(mem, addr, bytes);
    assert(region(m2, addr, bytes.len() as int) =~= bytes);
    vstd::utf8::encode_utf8_valid_utf8(text);
    vstd::utf8::encode_utf8_decode_utf8(text);
}

/// Performs writes one after another until one reaches past the end of the
/// memory: the memory afterwards, and whether every write was made.
pub open spec fn spec_write_all(mem: Seq<u8>, writes: Seq<(int, Seq<u8>)>) -> (Seq<u8>, bool)
    decreases writes.len(),
{
    if writes.len() == 0 {
        (mem, true)
    } else if in_bounds(mem, writes[0].0, writes[0].1.len() as int) {
        spec_write_all(overwrite(mem, writes[0].0, writes[0].1), writes.drop_first())
    } else {
        (mem, false)
    }
}

/// The writes that hand a buffer to the guest: its bytes at `buf`, then the
/// buffer's address at `out_ptr` and its length (as `u32`) at `out_len`.
pub open spec fn spec_buffer_out_writes(buf: WasmAnyPtr, data: Seq<u8>, out_ptr: WasmPtr<WasmAnyPtr>, out_len: WasmPtr<u32>) -> Seq<(int, Seq<u8>)> {
    seq![
        (buf.addr() as int, data),
        (out_ptr.addr() as int, spec_le_bytes(buf)),
        (out_len.addr() as int, spec_le_bytes(data.len() as u32)),
    ]
}

/// Writes `data` at `buf`, then stores `buf` at `out_ptr` and the length of
/// `data` (as `u32`) at `out_len`; it stops at the first write that does
/// not fit.
pub fn write_buffer_out(
    memory: &mut [u8],
    buf: WasmAnyPtr,
    data: &[u8],
    out_ptr: WasmPtr<WasmAnyPtr>,
    out_len: WasmPtr<u32>,
) -> (r: Result<(), MemoryOutOfBounds>)
    ensures
        (final(memory)@, r is Ok) == spec_write_all(old(memory)@, spec_buffer_out_writes(buf, data@, out_ptr, out_len)),
{
    let ghost w = spec_buffer_out_writes(buf, data@, out_ptr, out_len);
    let ghost m0 = memory@;
    proof {
        reveal_with_fuel(spec_write_all, 4);
        assert(w.drop_first() =~= seq![w[1], w[2]]);
        assert(w.drop_first().drop_first() =~= seq![w[2]]);
        assert(seq![w[2]].drop_first() =~= Seq::<(int, Seq<u8>)>::empty());
        crate::types::lemma_le_bytes_roundtrip(buf);
        crate::types::lemma_le_bytes_roundtrip(data@.len() as u32);
    }
    mem_write_any(memory, buf, data)?;
    mem_write(memory, out_ptr, buf)?;
    let len = data.len() as u32;
    mem_write(memory, out_len, len)?;
    Ok(())
}

/// Two byte ranges do not overlap.
pub open spec fn disjoint(a: int, a_len: int, b: int, b_len: int) -> bool {
    a + a_len <= b || b + b_len <= a
}

/// When the three ranges do not overlap and every write fits, the guest
/// finds the buffer's address at `out_ptr`, its length at `out_len` and its
/// bytes at the address.
pub proof fn lemma_buffer_out_readable(
    mem: Seq<u8>,
    buf: WasmAnyPtr,
    data: Seq<u8>,
    out_ptr: WasmPtr<WasmAnyPtr>,
    out_len: WasmPtr<u32>,
)
    requires
        disjoint(buf.addr() as int, data.len() as int, out_ptr.addr() as int, 4),
        disjoint(buf.addr() as int, data.len() as int, out_len.addr() as int, 4),
        disjoint(out_ptr.addr() as int, 4, out_len.addr() as int, 4),
        spec_write_all(mem, spec_buffer_out_writes(buf, data, out_ptr, out_len)).1,
    ensures
        ({
            let after = spec_write_all(mem, spec_buffer_out_writes(buf, data, out_ptr, out_len)).0;
            &&& spec_mem_read::<WasmAnyPtr>(after, out_ptr.addr() as int) == Some(buf)
            &&& spec_mem_read::<u32>(after, out_len.addr() as int) == Some(data.len() as u32)
            &&& region(after, buf.addr() as int, data.len() as int) == data
        }),
{
    let w = spec_buffer_out_writes(buf, data, out_ptr, out_len);
    reveal_with_fuel(spec_write_all, 4);
    assert(w.drop_first() =~= seq![w[1], w[2]]);
    assert(w.drop_first().drop_first() =~= seq![w[2]]);
    assert(seq![w[2]].drop_first() =~= Seq::<(int, Seq<u8>)>::empty());
    crate::types::lemma_le_bytes_roundtrip(buf);
    crate::types::lemma_le_bytes_roundtrip(data.len() as u32);
    let b = buf.addr() as int;
    let p = out_ptr.addr() as int;
    let l = out_len.addr() as int;
    let m1 = overwrite(mem, b, data);
    let m2 = overwrite(m1, p, spec_le_bytes(buf));
    let m3 = overwrite(m2, l, spec_le_bytes(data.len() as u32));
    assert(region(m1, b, data.len() as int) =~= data);
    lemma_write_keeps_rest(m1, p, spec_le_bytes(buf), b, data.len() as int);
    lemma_write_keeps_rest(m2, l, spec_le_bytes(data.len() as u32), b, data.len() as int);
    lemma_read_after_write::<WasmAnyPtr>(m1, p, buf);
    lemma_write_keeps_rest(m2, l, spec_le_bytes(data.len() as u32), p, 4);
    lemma_read_after_write::<u32>(m2, l, data.len() as u32);
}

} // verus!
