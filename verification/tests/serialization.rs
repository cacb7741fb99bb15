use iobuf::raw::RawIobuf;

#[test]
fn peek_be() {
    let s = [1, 2, 3, 4];
    let b = RawIobuf::from_slice(&s);
    assert_eq!(b.peek_be(0), Ok(0x01020304u32));
}

#[test]
fn peek_le() {
    let s = [1, 2, 3, 4];
    let b = RawIobuf::from_slice(&s);
    assert_eq!(b.peek_le(0), Ok(0x04030201u32));
}

#[test]
fn poke_be() {
    let mut b = RawIobuf::new(4);
    assert_eq!(b.poke_be(0, 0x01020304u32), Ok(()));
    let expected = [1, 2, 3, 4];
    assert_eq!(b.as_window_slice(), expected.as_slice());
}

#[test]
fn poke_le() {
    let mut b = RawIobuf::new(4);
    assert_eq!(b.poke_le(0, 0x01020304u32), Ok(()));
    let expected = [4, 3, 2, 1];
    assert_eq!(b.as_window_slice(), expected.as_slice());
}

#[test]
fn peek_be_u8() {
    let b = RawIobuf::from_str("abc");
    assert_eq!(b.peek_be(0), Ok(b'a'));
}

#[test]
fn poke_then_peek_roundtrip_be() {
    let mut b = RawIobuf::new(8);
    assert_eq!(b.poke_be(0, 0xABu8), Ok(()));
    assert_eq!(b.peek_be::<u8>(0), Ok(0xAB));
    assert_eq!(b.poke_be(0, -5i8), Ok(()));
    assert_eq!(b.peek_be::<i8>(0), Ok(-5));
    assert_eq!(b.poke_be(0, 0xBEEFu16), Ok(()));
    assert_eq!(b.peek_be::<u16>(0), Ok(0xBEEF));
    assert_eq!(b.poke_be(0, -30000i16), Ok(()));
    assert_eq!(b.peek_be::<i16>(0), Ok(-30000));
    assert_eq!(b.poke_be(0, 0xDEADBEEFu32), Ok(()));
    assert_eq!(b.peek_be::<u32>(0), Ok(0xDEADBEEF));
    assert_eq!(b.poke_be(0, -2_000_000_000i32), Ok(()));
    assert_eq!(b.peek_be::<i32>(0), Ok(-2_000_000_000));
    assert_eq!(b.poke_be(0, 0x0123_4567_89AB_CDEFu64), Ok(()));
    assert_eq!(b.peek_be::<u64>(0), Ok(0x0123_4567_89AB_CDEF));
    assert_eq!(b.poke_be(0, -42i64), Ok(()));
    assert_eq!(b.peek_be::<i64>(0), Ok(-42));
}

#[test]
fn poke_then_peek_roundtrip_le() {
    let mut b = RawIobuf::new(8);
    assert_eq!(b.poke_le(0, 0xABu8), Ok(()));
    assert_eq!(b.peek_le::<u8>(0), Ok(0xAB));
    assert_eq!(b.poke_le(0, -5i8), Ok(()));
    assert_eq!(b.peek_le::<i8>(0), Ok(-5));
    assert_eq!(b.poke_le(0, 0xBEEFu16), Ok(()));
    assert_eq!(b.peek_le::<u16>(0), Ok(0xBEEF));
    assert_eq!(b.poke_le(0, -30000i16), Ok(()));
    assert_eq!(b.peek_le::<i16>(0), Ok(-30000));
    assert_eq!(b.poke_le(0, 0xDEADBEEFu32), Ok(()));
    assert_eq!(b.peek_le::<u32>(0), Ok(0xDEADBEEF));
    assert_eq!(b.poke_le(0, -2_000_000_000i32), Ok(()));
    assert_eq!(b.peek_le::<i32>(0), Ok(-2_000_000_000));
    assert_eq!(b.poke_le(0, 0x0123_4567_89AB_CDEFu64), Ok(()));
    assert_eq!(b.peek_le::<u64>(0), Ok(0x0123_4567_89AB_CDEF));
    assert_eq!(b.poke_le(0, -42i64), Ok(()));
    assert_eq!(b.peek_le::<i64>(0), Ok(-42));
}

#[test]
fn be_bytes_are_reverse_of_le_bytes() {
    let mut be = RawIobuf::new(8);
    let mut le = RawIobuf::new(8);
    assert_eq!(be.poke_be(0, 0x1122334455667788u64), Ok(()));
    assert_eq!(le.poke_le(0, 0x1122334455667788u64), Ok(()));
    let mut reversed: Vec<u8> = le.as_window_slice().to_vec();
    reversed.reverse();
    assert_eq!(be.as_window_slice(), &reversed[..]);
}

#[test]
fn peek_out_of_range() {
    let b = RawIobuf::from_slice_copy(&[1, 2, 3]);
    assert_eq!(b.peek_be::<u32>(0), Err(()));
    assert_eq!(b.peek_le::<u16>(2), Err(()));
    assert_eq!(b.peek_be::<u8>(3), Err(()));
}

#[test]
fn poke_out_of_range() {
    let mut b = RawIobuf::new(3);
    assert_eq!(b.poke_be(0, 1u32), Err(()));
    assert_eq!(b.poke_le(2, 1u16), Err(()));
    assert_eq!(b.as_window_slice(), &[0, 0, 0][..]);
}

#[test]
fn raw_peek_and_poke() {
    let mut b = RawIobuf::new(6);
    assert_eq!(b.poke(1, &[10, 20, 30]), Ok(()));
    assert_eq!(b.as_window_slice(), &[0, 10, 20, 30, 0, 0][..]);
    let mut dst = vec![0u8; 2];
    assert_eq!(b.peek(2, &mut dst), Ok(()));
    assert_eq!(dst, vec![20, 30]);
    assert_eq!(b.poke(4, &[1, 2, 3]), Err(()));
    let mut too_long = vec![0u8; 7];
    assert_eq!(b.peek(0, &mut too_long), Err(()));
}

#[test]
fn fill_advances_cursor() {
    let mut b = RawIobuf::new(8);
    assert_eq!(b.fill(&[1, 2, 3]), Ok(()));
    assert_eq!(b.lo(), 3);
    assert_eq!(b.fill_be(0xAABBu16), Ok(()));
    assert_eq!(b.fill_le(0xCCDDu16), Ok(()));
    assert_eq!(b.lo(), 7);
    assert_eq!(b.fill(&[9, 9]), Err(()));
    b.rewind();
    assert_eq!(b.resize(8), Ok(()));
    assert_eq!(b.as_window_slice(), &[1, 2, 3, 0xAA, 0xBB, 0xDD, 0xCC, 0][..]);
}

#[test]
fn consume_advances_cursor() {
    let mut b = RawIobuf::from_slice_copy(&[1, 2, 3, 0xAA, 0xBB, 0xDD, 0xCC, 9]);
    let mut dst = vec![0u8; 3];
    assert_eq!(b.consume(&mut dst), Ok(()));
    assert_eq!(dst, vec![1, 2, 3]);
    assert_eq!(b.consume_be::<u16>(), Ok(0xAABB));
    assert_eq!(b.consume_le::<u16>(), Ok(0xCCDD));
    assert_eq!(b.lo(), 7);
    assert_eq!(b.consume_be::<u32>(), Err(()));
    assert_eq!(b.consume_be::<u8>(), Ok(9));
    assert!(b.is_empty());
}

#[test]
fn get_at_and_set_at() {
    let mut b = RawIobuf::from_slice_copy(&[5, 6, 7]);
    let x: u8 = b.get_at(1);
    assert_eq!(x, 6);
    let y: i8 = b.get_at(1);
    assert_eq!(y, 6);
    b.set_at(2, 0xF0u8);
    assert_eq!(b.as_window_slice(), &[5, 6, 0xF0][..]);
}

#[test]
fn fill_then_flip_lo_then_consume() {
    let mut b = RawIobuf::new(4);
    assert_eq!(b.fill_be(0x01020304u32), Ok(()));
    b.flip_lo();
    assert_eq!(b.consume_be::<u32>(), Ok(0x01020304));
}
