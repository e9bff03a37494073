use flywheelmc_wasm::le::{decode_le, encode_le};
use flywheelmc_wasm::runner::callctx::{
    mem_read, mem_read_any, mem_read_str, mem_write, mem_write_any, mem_write_str,
    write_buffer_out, MemoryAllocError, MemoryDecodeError, MemoryOutOfBounds,
};
use flywheelmc_wasm::types::{from_le_bytes, to_le_bytes, OutOfBounds, WasmAnyPtr, WasmPtr};

#[test]
fn le_codec_matches_std() {
    assert_eq!(encode_le(0x0102_0304, 4), vec![4, 3, 2, 1]);
    assert_eq!(encode_le(0x1ff, 1), vec![0xff]);
    assert_eq!(decode_le(&[4, 3, 2, 1]), 0x0102_0304);
    assert_eq!(decode_le(&[]), 0);
    let v: u128 = 0x0011_2233_4455_6677_8899_aabb_ccdd_eeff;
    assert_eq!(encode_le(v, 16), v.to_le_bytes().to_vec());
    assert_eq!(decode_le(&v.to_le_bytes()), v);
}

#[test]
fn typed_bytes_match_std() {
    assert_eq!(to_le_bytes(&-2i32), (-2i32).to_le_bytes().to_vec());
    assert_eq!(to_le_bytes(&i64::MIN), i64::MIN.to_le_bytes().to_vec());
    assert_eq!(to_le_bytes(&i128::MIN), i128::MIN.to_le_bytes().to_vec());
    assert_eq!(to_le_bytes(&-1i128), (-1i128).to_le_bytes().to_vec());
    assert_eq!(to_le_bytes(&0xabcdu16), vec![0xcd, 0xab]);
    assert_eq!(to_le_bytes(&-128i8), vec![0x80]);
    assert_eq!(from_le_bytes::<i32>(&(-7i32).to_le_bytes()), -7);
    assert_eq!(from_le_bytes::<i16>(&[0xff, 0x7f]), i16::MAX);
    assert_eq!(from_le_bytes::<i128>(&i128::MIN.to_le_bytes()), i128::MIN);
    assert_eq!(from_le_bytes::<u64>(&u64::MAX.to_le_bytes()), u64::MAX);
    assert_eq!(from_le_bytes::<WasmAnyPtr>(&[1, 0, 0, 0]).ptr(), 1);
    assert_eq!(to_le_bytes(&WasmPtr::<u8>::from_ptr(0x0102_0304)), vec![4, 3, 2, 1]);
}

#[test]
fn write_then_read_gives_value_back() {
    let mut mem = vec![0u8; 32];
    assert!(mem_write(&mut mem, WasmPtr::<u64>::from_ptr(3), 0x1122_3344_5566_7788u64).is_ok());
    assert_eq!(&mem[3..11], &[0x88, 0x77, 0x66, 0x55, 0x44, 0x33, 0x22, 0x11]);
    assert_eq!(mem[2], 0);
    assert_eq!(mem[11], 0);
    assert!(matches!(mem_read(&mem, WasmPtr::<u64>::from_ptr(3)), Ok(0x1122_3344_5566_7788)));
    assert!(mem_write(&mut mem, WasmPtr::<i32>::from_ptr(28), -5).is_ok());
    assert!(matches!(mem_read(&mem, WasmPtr::<i32>::from_ptr(28)), Ok(-5)));
}

#[test]
fn out_of_bounds_access_is_refused() {
    let mut mem = vec![0u8; 8];
    assert!(matches!(mem_read(&mem, WasmPtr::<u64>::from_ptr(1)), Err(MemoryDecodeError::OutOfBounds)));
    assert!(matches!(mem_read(&mem, WasmPtr::<u32>::from_ptr(u32::MAX)), Err(MemoryDecodeError::OutOfBounds)));
    assert!(mem_write(&mut mem, WasmPtr::<u32>::from_ptr(5), 1).is_err());
    assert_eq!(mem, vec![0u8; 8]);
    assert!(mem_write_any(&mut mem, WasmAnyPtr::from_ptr(7), &[1, 2]).is_err());
    assert_eq!(mem, vec![0u8; 8]);
    assert!(mem_read_any(&mem, WasmAnyPtr::from_ptr(4), 5).is_err());
    assert_eq!(mem_read_any(&mem, WasmAnyPtr::from_ptr(8), 0).ok().map(|b| b.len()), Some(0));
}

#[test]
fn strings_round_trip_through_memory() {
    let mut mem = vec![0u8; 16];
    assert!(mem_write_str(&mut mem, WasmAnyPtr::from_ptr(2), "héllo").is_ok());
    let len = "héllo".len() as u32;
    assert_eq!(mem_read_str(&mem, WasmAnyPtr::from_ptr(2), len).ok(), Some("héllo"));
    assert!(matches!(mem_read_str(&mem, WasmAnyPtr::from_ptr(2), 2), Err(MemoryDecodeError::InvalidData)));
    assert!(matches!(mem_read_str(&mem, WasmAnyPtr::from_ptr(10), 7), Err(MemoryDecodeError::OutOfBounds)));
    let bad = [0xffu8, 0xfe];
    assert!(matches!(mem_read_str(&bad, WasmAnyPtr::from_ptr(0), 2), Err(MemoryDecodeError::InvalidData)));
}

#[test]
fn buffer_handed_out_with_address_and_length() {
    let mut mem = vec![0u8; 32];
    let r = write_buffer_out(
        &mut mem,
        WasmAnyPtr::from_ptr(16),
        b"abc",
        WasmPtr::from_ptr(0),
        WasmPtr::from_ptr(4),
    );
    assert!(r.is_ok());
    assert_eq!(&mem[16..19], b"abc");
    assert_eq!(&mem[0..4], &[16, 0, 0, 0]);
    assert_eq!(&mem[4..8], &[3, 0, 0, 0]);
    let mut small = vec![0u8; 20];
    let r = write_buffer_out(
        &mut small,
        WasmAnyPtr::from_ptr(4),
        b"xy",
        WasmPtr::from_ptr(18),
        WasmPtr::from_ptr(0),
    );
    assert!(r.is_err());
    assert_eq!(&small[4..6], b"xy");
    assert_eq!(&small[0..4], &[0, 0, 0, 0]);
}

#[test]
fn pointer_arithmetic() {
    let p = WasmAnyPtr::from_ptr(10);
    assert_eq!(p.shift(5).ptr(), 15);
    assert_eq!(p.shift_signed(-10).ptr(), 0);
    assert_eq!(p.shift_signed(7).offset(), 17);
    let mut q = p;
    q.shift_mut(1).shift_mut(2);
    assert_eq!(q.ptr(), 13);
    q.shift_signed_mut(-3);
    assert_eq!(q.ptr(), 10);
    let t = p.assume_type::<u64>();
    assert_eq!(t.ptr(), 10);
    assert_eq!(t.cast::<u8>().type_erase().ptr(), 10);
    assert_eq!(WasmAnyPtr::from_ptr(u32::MAX).shift(0).ptr(), u32::MAX);
}

#[test]
fn error_messages() {
    assert_eq!(MemoryOutOfBounds.message(), "memory index out of bounds");
    assert_eq!(MemoryDecodeError::OutOfBounds.message(), "memory index out of bounds");
    assert_eq!(MemoryDecodeError::InvalidData.message(), "invalid utf8");
    assert_eq!(MemoryAllocError::NoAllocFn.message(), "no alloc function");
    assert_eq!(MemoryAllocError::OutOfBounds.message(), "memory index out of bounds");
    assert_eq!(MemoryAllocError::Wasmtime("trap".to_string()).message(), "trap");
    assert_eq!(OutOfBounds.message(), "memory range out of bounds");
    assert!(matches!(MemoryDecodeError::from(MemoryOutOfBounds), MemoryDecodeError::OutOfBounds));
    assert!(matches!(MemoryAllocError::from(MemoryOutOfBounds), MemoryAllocError::OutOfBounds));
}

#[test]
fn every_width_reads_back_what_was_written() {
    let mut mem = vec![0u8; 64];
    assert!(mem_write(&mut mem, WasmPtr::<u8>::from_ptr(0), 0xabu8).is_ok());
    assert!(mem_write(&mut mem, WasmPtr::<i8>::from_ptr(1), -3i8).is_ok());
    assert!(mem_write(&mut mem, WasmPtr::<u16>::from_ptr(2), 0xbeefu16).is_ok());
    assert!(mem_write(&mut mem, WasmPtr::<i16>::from_ptr(4), i16::MIN).is_ok());
    assert!(mem_write(&mut mem, WasmPtr::<u128>::from_ptr(8), u128::MAX - 5).is_ok());
    assert!(mem_write(&mut mem, WasmPtr::<i128>::from_ptr(24), i128::MIN + 9).is_ok());
    assert!(mem_write(&mut mem, WasmPtr::<WasmAnyPtr>::from_ptr(40), WasmAnyPtr::from_ptr(77)).is_ok());
    assert!(matches!(mem_read(&mem, WasmPtr::<u8>::from_ptr(0)), Ok(0xab)));
    assert!(matches!(mem_read(&mem, WasmPtr::<i8>::from_ptr(1)), Ok(-3)));
    assert!(matches!(mem_read(&mem, WasmPtr::<u16>::from_ptr(2)), Ok(0xbeef)));
    assert!(matches!(mem_read(&mem, WasmPtr::<i16>::from_ptr(4)), Ok(i16::MIN)));
    assert!(matches!(mem_read(&mem, WasmPtr::<u128>::from_ptr(8)), Ok(v) if v == u128::MAX - 5));
    assert!(matches!(mem_read(&mem, WasmPtr::<i128>::from_ptr(24)), Ok(v) if v == i128::MIN + 9));
    assert_eq!(mem_read(&mem, WasmPtr::<WasmAnyPtr>::from_ptr(40)).ok().map(|p| p.ptr()), Some(77));
    assert_eq!(&mem[24..40], &(i128::MIN + 9).to_le_bytes());
}
