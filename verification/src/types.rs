use crate::le::{decode_le, encode_le, le_decode, le_encode, pow256};
use core::marker::PhantomData;
use vstd::prelude::*;

verus! {

/// A value that can be stored in a guest's linear memory: it is written
/// there as `spec_byte_len()` little-endian bytes of its bit pattern.
pub trait WasmPtrable: Sized + Copy {
    /// The number of bytes the value takes in guest memory.
    spec fn spec_byte_len() -> nat;

    /// The alignment the guest allocator is asked for.
    spec fn spec_align() -> nat;

    /// The unsigned bit pattern of the value.
    spec fn spec_to_bits(self) -> nat;

    /// The value with the given unsigned bit pattern.
    spec fn spec_from_bits(bits: nat) -> Self;

    proof fn lemma_bits(v: Self)
        ensures
            Self::spec_byte_len() <= 16,
            v.spec_to_bits() < pow256(Self::spec_byte_len()),
            Self::spec_from_bits(v.spec_to_bits()) == v,
    ;

    proof fn lemma_from_bits(bits: nat)
        requires
            bits < pow256(Self::spec_byte_len()),
        ensures
            Self::spec_from_bits(bits).spec_to_bits() == bits,
    ;

    fn byte_len() -> (n: usize)
        ensures
            n as nat == Self::spec_byte_len(),
    ;

    fn align() -> (a: usize)
        ensures
            a as nat == Self::spec_align(),
    ;

    fn to_bits(&self) -> (b: u128)
        ensures
            b as nat == self.spec_to_bits(),
    ;

    fn from_bits(bits: u128) -> (v: Self)
        requires
            (bits as nat) < pow256(Self::spec_byte_len()),
        ensures
            v == Self::spec_from_bits(bits as nat),
    ;
}

/// The little-endian bytes a value occupies in guest memory.
pub open spec fn spec_le_bytes<T: WasmPtrable>(v: T) -> Seq<u8> {
    le_encode(v.spec_to_bits(), T::spec_byte_len())
}

/// The value stored in the given little-endian bytes.
pub open spec fn spec_from_le_bytes<T: WasmPtrable>(bytes: Seq<u8>) -> T {
    T::spec_from_bits(le_decode(bytes))
}

/// The little-endian bytes of a value, as written to guest memory.
pub fn to_le_bytes<T: WasmPtrable>(v: &T) -> (out: Vec<u8>)
    ensures
        out@ == spec_le_bytes(*v),
        out@.len() == T::spec_byte_len(),
{
    proof {
        T::lemma_bits(*v);
        crate::le::lemma_le_encode_len(v.spec_to_bits(), T::spec_byte_len());
    }
    encode_le(v.to_bits(), T::byte_len())
}

/// The value stored in `T::byte_len()` little-endian bytes.
pub fn from_le_bytes<T: WasmPtrable>(bytes: &[u8]) -> (v: T)
    requires
        bytes@.len() == T::spec_byte_len(),
    ensures
        v == spec_from_le_bytes::<T>(bytes@),
{
    proof {
        T::lemma_bits(T::spec_from_bits(0));
        crate::le::lemma_le_decode_bound(bytes@);
    }
    let bits = decode_le(bytes);
    T::from_bits(bits)
}

/// Reading back the bytes of a value gives the value.
pub proof fn lemma_le_bytes_roundtrip<T: WasmPtrable>(v: T)
    ensures
        spec_le_bytes(v).len() == T::spec_byte_len(),
        spec_from_le_bytes::<T>(spec_le_bytes(v)) == v,
{
    T::lemma_bits(v);
    crate::le::lemma_le_encode_len(v.spec_to_bits(), T::spec_byte_len());
    crate::le::lemma_le_decode_encode(v.spec_to_bits(), T::spec_byte_len());
}

/// Writing back the value read from some bytes gives the same bytes.
pub proof fn lemma_from_le_bytes_roundtrip<T: WasmPtrable>(bytes: Seq<u8>)
    requires
        bytes.len() == T::spec_byte_len(),
    ensures
        spec_le_bytes(spec_from_le_bytes::<T>(bytes)) == bytes,
{
    crate::le::lemma_le_decode_bound(bytes);
    T::lemma_from_bits(le_decode(bytes));
    crate::le::lemma_le_encode_decode(bytes);
}

impl WasmPtrable for u8 {
    open spec fn spec_byte_len() -> nat { 1 }
    open spec fn spec_align() -> nat { vstd::layout::align_of::<u8>() }
    open spec fn spec_to_bits(self) -> nat { self as nat }
    open spec fn spec_from_bits(bits: nat) -> Self { bits as u8 }
    proof fn lemma_bits(v: Self) { reveal_with_fuel(pow256, 2); }
    proof fn lemma_from_bits(bits: nat) { reveal_with_fuel(pow256, 2); }
    fn byte_len() -> (n: usize) { 1 }
    fn align() -> (a: usize) { core::mem::align_of::<u8>() }
    fn to_bits(&self) -> (b: u128) { *self as u128 }
    fn from_bits(bits: u128) -> (v: Self) {
        proof { reveal_with_fuel(pow256, 2); }
        bits as u8
    }
}

impl WasmPtrable for u16 {
    open spec fn spec_byte_len() -> nat { 2 }
    open spec fn spec_align() -> nat { vstd::layout::align_of::<u16>() }
    open spec fn spec_to_bits(self) -> nat { self as nat }
    open spec fn spec_from_bits(bits: nat) -> Self { bits as u16 }
    proof fn lemma_bits(v: Self) { reveal_with_fuel(pow256, 3); }
    proof fn lemma_from_bits(bits: nat) { reveal_with_fuel(pow256, 3); }
    fn byte_len() -> (n: usize) { 2 }
    fn align() -> (a: usize) { core::mem::align_of::<u16>() }
    fn to_bits(&self) -> (b: u128) { *self as u128 }
    fn from_bits(bits: u128) -> (v: Self) {
        proof { reveal_with_fuel(pow256, 3); }
        bits as u16
    }
}

impl WasmPtrable for u32 {
    open spec fn spec_byte_len() -> nat { 4 }
    open spec fn spec_align() -> nat { vstd::layout::align_of::<u32>() }
    open spec fn spec_to_bits(self) -> nat { self as nat }
    open spec fn spec_from_bits(bits: nat) -> Self { bits as u32 }
    proof fn lemma_bits(v: Self) { reveal_with_fuel(pow256, 5); }
    proof fn lemma_from_bits(bits: nat) { reveal_with_fuel(pow256, 5); }
    fn byte_len() -> (n: usize) { 4 }
    fn align() -> (a: usize) { core::mem::align_of::<u32>() }
    fn to_bits(&self) -> (b: u128) { *self as u128 }
    fn from_bits(bits: u128) -> (v: Self) {
        proof { reveal_with_fuel(pow256, 5); }
        bits as u32
    }
}

impl WasmPtrable for u64 {
    open spec fn spec_byte_len() -> nat { 8 }
    open spec fn spec_align() -> nat { vstd::layout::align_of::<u64>() }
    open spec fn spec_to_bits(self) -> nat { self as nat }
    open spec fn spec_from_bits(bits: nat) -> Self { bits as u64 }
    proof fn lemma_bits(v: Self) { reveal_with_fuel(pow256, 9); }
    proof fn lemma_from_bits(bits: nat) { reveal_with_fuel(pow256, 9); }
    fn byte_len() -> (n: usize) { 8 }
    fn align() -> (a: usize) { core::mem::align_of::<u64>() }
    fn to_bits(&self) -> (b: u128) { *self as u128 }
    fn from_bits(bits: u128) -> (v: Self) {
        proof { reveal_with_fuel(pow256, 9); }
        bits as u64
    }
}

impl WasmPtrable for u128 {
    open spec fn spec_byte_len() -> nat { 16 }
    open spec fn spec_align() -> nat { vstd::layout::align_of::<u128>() }
    open spec fn spec_to_bits(self) -> nat { self as nat }
    open spec fn spec_from_bits(bits: nat) -> Self { bits as u128 }
    proof fn lemma_bits(v: Self) { reveal_with_fuel(pow256, 17); }
    proof fn lemma_from_bits(bits: nat) { reveal_with_fuel(pow256, 17); }
    fn byte_len() -> (n: usize) { 16 }
    fn align() -> (a: usize) { core::mem::align_of::<u128>() }
    fn to_bits(&self) -> (b: u128) { *self as u128 }
    fn from_bits(bits: u128) -> (v: Self) {
        proof { reveal_with_fuel(pow256, 17); }
        bits as u128
    }
}

impl WasmPtrable for i8 {
    open spec fn spec_byte_len() -> nat { 1 }
    open spec fn spec_align() -> nat { vstd::layout::align_of::<i8>() }
    open spec fn spec_to_bits(self) -> nat {
        if self >= 0 { self as nat } else { (self + 0x100) as nat }
    }
    open spec fn spec_from_bits(bits: nat) -> Self {
        if bits < 0x80 { bits as i8 } else { (bits - 0x100) as i8 }
    }
    proof fn lemma_bits(v: Self) { reveal_with_fuel(pow256, 2); }
    proof fn lemma_from_bits(bits: nat) { reveal_with_fuel(pow256, 2); }
    fn byte_len() -> (n: usize) { 1 }
    fn align() -> (a: usize) { core::mem::align_of::<i8>() }
    fn to_bits(&self) -> (b: u128) {
        if *self >= 0 { *self as u128 } else { (*self as i128 + 0x100) as u128 }
    }
    fn from_bits(bits: u128) -> (v: Self) {
        proof { reveal_with_fuel(pow256, 2); }
        if bits < 0x80 { bits as i8 } else { (bits as i128 - 0x100) as i8 }
    }
}

impl WasmPtrable for i16 {
    open spec fn spec_byte_len() -> nat { 2 }
    open spec fn spec_align() -> nat { vstd::layout::align_of::<i16>() }
    open spec fn spec_to_bits(self) -> nat {
        if self >= 0 { self as nat } else { (self + 0x10000) as nat }
    }
    open spec fn spec_from_bits(bits: nat) -> Self {
        if bits < 0x8000 { bits as i16 } else { (bits - 0x10000) as i16 }
    }
    proof fn lemma_bits(v: Self) { reveal_with_fuel(pow256, 3); }
    proof fn lemma_from_bits(bits: nat) { reveal_with_fuel(pow256, 3); }
    fn byte_len() -> (n: usize) { 2 }
    fn align() -> (a: usize) { core::mem::align_of::<i16>() }
    fn to_bits(&self) -> (b: u128) {
        if *self >= 0 { *self as u128 } else { (*self as i128 + 0x10000) as u128 }
    }
    fn from_bits(bits: u128) -> (v: Self) {
        proof { reveal_with_fuel(pow256, 3); }
        if bits < 0x8000 { bits as i16 } else { (bits as i128 - 0x10000) as i16 }
    }
}

impl WasmPtrable for i32 {
    open spec fn spec_byte_len() -> nat { 4 }
    open spec fn spec_align() -> nat { vstd::layout::align_of::<i32>() }
    open spec fn spec_to_bits(self) -> nat {
        if self >= 0 { self as nat } else { (self + 0x100000000) as nat }
    }
    open spec fn spec_from_bits(bits: nat) -> Self {
        if bits < 0x80000000 { bits as i32 } else { (bits - 0x100000000) as i32 }
    }
    proof fn lemma_bits(v: Self) { reveal_with_fuel(pow256, 5); }
    proof fn lemma_from_bits(bits: nat) { reveal_with_fuel(pow256, 5); }
    fn byte_len() -> (n: usize) { 4 }
    fn align() -> (a: usize) { core::mem::align_of::<i32>() }
    fn to_bits(&self) -> (b: u128) {
        if *self >= 0 { *self as u128 } else { (*self as i128 + 0x100000000) as u128 }
    }
    fn from_bits(bits: u128) -> (v: Self) {
        proof { reveal_with_fuel(pow256, 5); }
        if bits < 0x80000000 { bits as i32 } else { (bits as i128 - 0x100000000) as i32 }
    }
}

impl WasmPtrable for i64 {
    open spec fn spec_byte_len() -> nat { 8 }
    open spec fn spec_align() -> nat { vstd::layout::align_of::<i64>() }
    open spec fn spec_to_bits(self) -> nat {
        if self >= 0 { self as nat } else { (self + 0x10000000000000000) as nat }
    }
    open spec fn spec_from_bits(bits: nat) -> Self {
        if bits < 0x8000000000000000 { bits as i64 } else { (bits - 0x10000000000000000) as i64 }
    }
    proof fn lemma_bits(v: Self) { reveal_with_fuel(pow256, 9); }
    proof fn lemma_from_bits(bits: nat) { reveal_with_fuel(pow256, 9); }
    fn byte_len() -> (n: usize) { 8 }
    fn align() -> (a: usize) { core::mem::align_of::<i64>() }
    fn to_bits(&self) -> (b: u128) {
        if *self >= 0 { *self as u128 } else { (*self as i128 + 0x10000000000000000) as u128 }
    }
    fn from_bits(bits: u128) -> (v: Self) {
        proof { reveal_with_fuel(pow256, 9); }
        if bits < 0x8000000000000000 { bits as i64 } else { (bits as i128 - 0x10000000000000000) as i64 }
    }
}

impl WasmPtrable for i128 {
    open spec fn spec_byte_len() -> nat { 16 }
    open spec fn spec_align() -> nat { vstd::layout::align_of::<i128>() }
    open spec fn spec_to_bits(self) -> nat {
        if self >= 0 { self as nat } else { (self + 0x100000000000000000000000000000000) as nat }
    }
    open spec fn spec_from_bits(bits: nat) -> Self {
        if bits < 0x80000000000000000000000000000000 { bits as i128 } else { (bits - 0x100000000000000000000000000000000) as i128 }
    }
    proof fn lemma_bits(v: Self) { reveal_with_fuel(pow256, 17); }
    proof fn lemma_from_bits(bits: nat) { reveal_with_fuel(pow256, 17); }
    fn byte_len() -> (n: usize) { 16 }
    fn align() -> (a: usize) { core::mem::align_of::<i128>() }
    fn to_bits(&self) -> (b: u128) {
        if *self >= 0 { *self as u128 } else { ((*self + 1) + 0x7fff_ffff_ffff_ffff_ffff_ffff_ffff_ffff) as u128 + 0x8000_0000_0000_0000_0000_0000_0000_0000u128 }
    }
    fn from_bits(bits: u128) -> (v: Self) {
        proof { reveal_with_fuel(pow256, 17); }
        if bits < 0x80000000000000000000000000000000 { bits as i128 } else { ((bits - 0x8000_0000_0000_0000_0000_0000_0000_0000u128) as i128 + i128::MIN) }
    }
}

/// A guest pointer to a value of type `T`: an offset into the guest's
/// 32-bit linear memory.
#[derive(Copy)]
pub struct WasmPtr<T: WasmPtrable> {
    pub(crate) ptr: u32,
    _marker: PhantomData<T>,
}

impl<T: WasmPtrable> Clone for WasmPtr<T> {
    fn clone(&self) -> (r: Self)
        ensures
            r == *self,
    {
        *self
    }
}

impl<T: WasmPtrable> WasmPtr<T> {
    /// The offset the pointer holds.
    pub closed spec fn addr(self) -> u32 {
        self.ptr
    }

    pub fn from_ptr(ptr: u32) -> (p: Self)
        ensures
            p.addr() == ptr,
    {
        WasmPtr { ptr, _marker: PhantomData }
    }

    pub fn ptr(&self) -> (r: u32)
        ensures
            r == self.addr(),
    {
        self.ptr
    }

    pub fn offset(&self) -> (r: usize)
        ensures
            r as nat == self.addr() as nat,
    {
        self.ptr as usize
    }

    /// The same offset, read as a pointer to another type.
    pub fn cast<U: WasmPtrable>(self) -> (p: WasmPtr<U>)
        ensures
            p.addr() == self.addr(),
    {
        WasmPtr::<U>::from_ptr(self.ptr)
    }

    /// The same offset, without a type.
    pub fn type_erase(self) -> (p: WasmAnyPtr)
        ensures
            p.addr() == self.addr(),
    {
        WasmAnyPtr::from_ptr(self.ptr)
    }
}

/// A guest pointer of no particular type: an offset into the guest's 32-bit
/// linear memory.
#[derive(Clone, Copy)]
pub struct WasmAnyPtr {
    pub(crate) ptr: u32,
}

impl WasmAnyPtr {
    /// The offset the pointer holds.
    pub closed spec fn addr(self) -> u32 {
        self.ptr
    }

    pub fn from_ptr(ptr: u32) -> (p: Self)
        ensures
            p.addr() == ptr,
    {
        WasmAnyPtr { ptr }
    }

    pub fn ptr(&self) -> (r: u32)
        ensures
            r == self.addr(),
    {
        self.ptr
    }

    pub fn offset(&self) -> (r: usize)
        ensures
            r as nat == self.addr() as nat,
    {
        self.ptr as usize
    }

    /// The same offset, read as a pointer to a value of type `U`.
    pub fn assume_type<U: WasmPtrable>(self) -> (p: WasmPtr<U>)
        ensures
            p.addr() == self.addr(),
    {
        WasmPtr::<U>::from_ptr(self.ptr)
    }

    /// The pointer `offset` bytes further on; the offset must stay within
    /// the 32-bit address space.
    pub fn shift(self, offset: u32) -> (p: Self)
        requires
            self.addr() + offset <= u32::MAX,
        ensures
            p.addr() == self.addr() + offset,
    {
        WasmAnyPtr::from_ptr(self.ptr + offset)
    }

    /// Moves the pointer `offset` bytes further on.
    pub fn shift_mut(&mut self, offset: u32) -> (r: &mut Self)
        requires
            old(self).addr() + offset <= u32::MAX,
        ensures
            r.addr() == old(self).addr() + offset,
            *final(self) == *final(r),
    {
        *self = self.shift(offset);
        self
    }

    /// The pointer moved by a signed number of bytes; it must stay within
    /// the 32-bit address space.
    pub fn shift_signed(self, offset: i32) -> (p: Self)
        requires
            0 <= self.addr() + offset <= u32::MAX,
        ensures
            p.addr() == self.addr() + offset,
    {
        if offset >= 0 {
            WasmAnyPtr::from_ptr(self.ptr + offset as u32)
        } else {
            WasmAnyPtr::from_ptr(self.ptr - (0 - offset as i64) as u32)
        }
    }

    /// Moves the pointer by a signed number of bytes.
    pub fn shift_signed_mut(&mut self, offset: i32) -> (r: &mut Self)
        requires
            0 <= old(self).addr() + offset <= u32::MAX,
        ensures
            r.addr() == old(self).addr() + offset,
            *final(self) == *final(r),
    {
        *self = self.shift_signed(offset);
        self
    }
}

impl<T: WasmPtrable> WasmPtrable for WasmPtr<T> {
    open spec fn spec_byte_len() -> nat { 4 }
    open spec fn spec_align() -> nat { vstd::layout::align_of::<u32>() }
    closed spec fn spec_to_bits(self) -> nat { self.ptr as nat }
    closed spec fn spec_from_bits(bits: nat) -> Self { WasmPtr { ptr: bits as u32, _marker: PhantomData } }
    proof fn lemma_bits(v: Self) { reveal_with_fuel(pow256, 5); }
    proof fn lemma_from_bits(bits: nat) { reveal_with_fuel(pow256, 5); }
    fn byte_len() -> (n: usize) { 4 }
    fn align() -> (a: usize) { core::mem::align_of::<u32>() }
    fn to_bits(&self) -> (b: u128) { self.ptr as u128 }
    fn from_bits(bits: u128) -> (v: Self) {
        proof { reveal_with_fuel(pow256, 5); }
        WasmPtr { ptr: bits as u32, _marker: PhantomData }
    }
}

impl WasmPtrable for WasmAnyPtr {
    open spec fn spec_byte_len() -> nat { 4 }
    open spec fn spec_align() -> nat { vstd::layout::align_of::<u32>() }
    closed spec fn spec_to_bits(self) -> nat { self.ptr as nat }
    closed spec fn spec_from_bits(bits: nat) -> Self { WasmAnyPtr { ptr: bits as u32 } }
    proof fn lemma_bits(v: Self) { reveal_with_fuel(pow256, 5); }
    proof fn lemma_from_bits(bits: nat) { reveal_with_fuel(pow256, 5); }
    fn byte_len() -> (n: usize) { 4 }
    fn align() -> (a: usize) { core::mem::align_of::<u32>() }
    fn to_bits(&self) -> (b: u128) { self.ptr as u128 }
    fn from_bits(bits: u128) -> (v: Self) {
        proof { reveal_with_fuel(pow256, 5); }
        WasmAnyPtr { ptr: bits as u32 }
    }
}

/// Every integer is stored as the little-endian bytes of its value; a
/// signed integer as those of its value modulo 2 to the power of its width
/// (two's complement), as `to_le_bytes` gives them.
pub proof fn lemma_integer_le_bytes()
    ensures
        forall|v: u8| #[trigger] spec_le_bytes(v) == le_encode(v as nat, 1),
        forall|v: u16| #[trigger] spec_le_bytes(v) == le_encode(v as nat, 2),
        forall|v: u32| #[trigger] spec_le_bytes(v) == le_encode(v as nat, 4),
        forall|v: u64| #[trigger] spec_le_bytes(v) == le_encode(v as nat, 8),
        forall|v: u128| #[trigger] spec_le_bytes(v) == le_encode(v as nat, 16),
        forall|v: i8| #[trigger] spec_le_bytes(v) == le_encode((v as int % 0x100int) as nat, 1),
        forall|v: i16| #[trigger] spec_le_bytes(v) == le_encode((v as int % 0x10000int) as nat, 2),
        forall|v: i32| #[trigger] spec_le_bytes(v) == le_encode((v as int % 0x100000000int) as nat, 4),
        forall|v: i64| #[trigger] spec_le_bytes(v) == le_encode((v as int % 0x10000000000000000int) as nat, 8),
        forall|v: i128| #[trigger] spec_le_bytes(v) == le_encode((v as int % 0x100000000000000000000000000000000int) as nat, 16),
{
}

/// Reading an integer from its little-endian bytes gives their unsigned
/// value; for a signed integer, that value less 2 to the power of its width
/// when the top bit is set (two's complement), as `from_le_bytes` does.
pub proof fn lemma_integer_from_le_bytes()
    ensures
        forall|s: Seq<u8>| s.len() == 1 ==> #[trigger] spec_from_le_bytes::<u8>(s) as nat == le_decode(s),
        forall|s: Seq<u8>| s.len() == 2 ==> #[trigger] spec_from_le_bytes::<u16>(s) as nat == le_decode(s),
        forall|s: Seq<u8>| s.len() == 4 ==> #[trigger] spec_from_le_bytes::<u32>(s) as nat == le_decode(s),
        forall|s: Seq<u8>| s.len() == 8 ==> #[trigger] spec_from_le_bytes::<u64>(s) as nat == le_decode(s),
        forall|s: Seq<u8>| s.len() == 16 ==> #[trigger] spec_from_le_bytes::<u128>(s) as nat == le_decode(s),
        forall|s: Seq<u8>| s.len() == 1 ==> #[trigger] spec_from_le_bytes::<i8>(s) as int == if le_decode(s) < 0x80int { le_decode(s) as int } else { le_decode(s) - 0x100int },
        forall|s: Seq<u8>| s.len() == 2 ==> #[trigger] spec_from_le_bytes::<i16>(s) as int == if le_decode(s) < 0x8000int { le_decode(s) as int } else { le_decode(s) - 0x10000int },
        forall|s: Seq<u8>| s.len() == 4 ==> #[trigger] spec_from_le_bytes::<i32>(s) as int == if le_decode(s) < 0x80000000int { le_decode(s) as int } else { le_decode(s) - 0x100000000int },
        forall|s: Seq<u8>| s.len() == 8 ==> #[trigger] spec_from_le_bytes::<i64>(s) as int == if le_decode(s) < 0x8000000000000000int { le_decode(s) as int } else { le_decode(s) - 0x10000000000000000int },
        forall|s: Seq<u8>| s.len() == 16 ==> #[trigger] spec_from_le_bytes::<i128>(s) as int == if le_decode(s) < 0x80000000000000000000000000000000int { le_decode(s) as int } else { le_decode(s) - 0x100000000000000000000000000000000int },
{
    reveal_with_fuel(pow256, 17);
    assert forall|s: Seq<u8>| s.len() <= 16 implies le_decode(s) < pow256(s.len()) by {
        crate::le::lemma_le_decode_bound(s);
    }
}

/// A pointer is stored as the four little-endian bytes of its offset.
pub proof fn lemma_ptr_le_bytes<T: WasmPtrable>(p: WasmPtr<T>, q: WasmAnyPtr)
    ensures
        spec_le_bytes(p) == le_encode(p.addr() as nat, 4),
        spec_le_bytes(q) == le_encode(q.addr() as nat, 4),
{
}

/// A pointer is stored as the little-endian bytes of its offset.
pub proof fn lemma_ptr_bits<T: WasmPtrable>(p: WasmPtr<T>, q: WasmAnyPtr, bits: nat)
    ensures
        p.spec_to_bits() == p.addr() as nat,
        q.spec_to_bits() == q.addr() as nat,
        WasmPtr::<T>::spec_from_bits(bits).addr() == bits as u32,
        WasmAnyPtr::spec_from_bits(bits).addr() == bits as u32,
{
}

/// A memory range that lies outside the guest's memory.
#[derive(Clone, Copy, Debug)]
pub struct OutOfBounds;

impl OutOfBounds {
    /// The message handed back to the guest.
    pub fn message(&self) -> (m: &'static str)
        ensures
            m@ == "memory range out of bounds"@,
    {
        "memory range out of bounds"
    }
}

} // verus!
