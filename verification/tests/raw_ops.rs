use iobuf::raw::RawIobuf;

#[test]
fn check_sane_raw_size() {
    assert_eq!(std::mem::size_of::<RawIobuf>(), std::mem::size_of::<usize>() + 16);
}

#[test]
fn over_resize() {
    let mut b = RawIobuf::new(1024);
    assert_eq!(b.advance(512), Ok(()));
    assert_eq!(b.resize(0x7FFF_FFFF), Err(()));
}

#[test]
fn check_large_range_pos() {
    let b = RawIobuf::new(100);
    assert_eq!(b.check_range(0x8000_0000, 0), Err(()));
}

#[test]
fn check_large_range_len() {
    let b = RawIobuf::new(100);
    assert_eq!(b.check_range(0, 0x8000_0000), Err(()));
}

#[test]
fn new_buffer_cursors() {
    let b = RawIobuf::new(16);
    assert!(b.is_owned());
    assert_eq!(b.lo_min(), 0);
    assert_eq!(b.lo(), 0);
    assert_eq!(b.hi(), 16);
    assert_eq!(b.hi_max(), 16);
    assert_eq!(b.len(), 16);
    assert_eq!(b.cap(), 16);
    assert!(!b.is_empty());
    assert_eq!(b.as_window_slice(), &[0u8; 16][..]);
}

#[test]
fn empty_buffer() {
    let b = RawIobuf::empty();
    assert!(!b.is_owned());
    assert!(b.is_empty());
    assert_eq!(b.len(), 0);
    assert_eq!(b.cap(), 0);
}

#[test]
fn from_slice_copy_window_roundtrip() {
    let s = [7u8, 1, 0, 255, 42];
    let b = RawIobuf::from_slice_copy(&s);
    assert!(b.is_owned());
    assert_eq!(b.as_window_slice(), &s[..]);
}

#[test]
fn advance_and_rewind() {
    let mut b = RawIobuf::new(10);
    assert_eq!(b.advance(4), Ok(()));
    assert_eq!(b.lo(), 4);
    assert_eq!(b.len(), 6);
    assert_eq!(b.lo_space(), 4);
    assert_eq!(b.hi_space(), 0);
    assert_eq!(b.advance(7), Err(()));
    assert_eq!(b.lo(), 4);
    b.rewind();
    assert_eq!(b.lo(), 0);
}

#[test]
fn extend_within_limits() {
    let mut b = RawIobuf::new(10);
    assert_eq!(b.resize(4), Ok(()));
    assert_eq!(b.len(), 4);
    assert_eq!(b.extend(6), Ok(()));
    assert_eq!(b.len(), 10);
    assert_eq!(b.extend(1), Err(()));
    assert_eq!(b.len(), 10);
}

#[test]
fn narrow_is_idempotent() {
    let mut b = RawIobuf::new(10);
    assert_eq!(b.advance(2), Ok(()));
    assert_eq!(b.resize(5), Ok(()));
    b.narrow();
    let (lo_min, lo, hi, hi_max) = (b.lo_min(), b.lo(), b.hi(), b.hi_max());
    assert_eq!((lo_min, lo, hi, hi_max), (2, 2, 7, 7));
    b.narrow();
    assert_eq!((b.lo_min(), b.lo(), b.hi(), b.hi_max()), (lo_min, lo, hi, hi_max));
}

#[test]
fn reset_then_flip_lo_is_empty_at_lo_min() {
    let mut b = RawIobuf::new(10);
    assert_eq!(b.advance(3), Ok(()));
    assert_eq!(b.resize(4), Ok(()));
    b.reset();
    b.flip_lo();
    assert!(b.is_empty());
    assert_eq!(b.lo(), b.lo_min());
    assert_eq!(b.hi(), b.lo_min());
}

#[test]
fn flip_hi_opens_region_ahead() {
    let mut b = RawIobuf::new(10);
    assert_eq!(b.resize(4), Ok(()));
    b.flip_hi();
    assert_eq!(b.lo(), 4);
    assert_eq!(b.hi(), 10);
}

#[test]
fn sub_window_keeps_limits() {
    let mut b = RawIobuf::new(10);
    assert_eq!(b.sub_window(2, 5), Ok(()));
    assert_eq!((b.lo_min(), b.lo(), b.hi(), b.hi_max()), (0, 2, 7, 10));
    assert_eq!(b.sub_window(0, 9), Err(()));
}

#[test]
fn sub_locks_limits() {
    let mut b = RawIobuf::new(10);
    assert_eq!(b.sub(2, 5), Ok(()));
    assert_eq!((b.lo_min(), b.lo(), b.hi(), b.hi_max()), (2, 2, 7, 7));
}

#[test]
fn sub_window_from_and_to() {
    let mut b = RawIobuf::new(10);
    assert_eq!(b.resize(6), Ok(()));
    assert_eq!(b.sub_window_from(2), Ok(()));
    assert_eq!((b.lo(), b.hi()), (2, 10));
    let mut c = RawIobuf::new(10);
    assert_eq!(c.sub_window_to(3), Ok(()));
    assert_eq!((c.lo(), c.hi()), (0, 3));
}

#[test]
fn set_limits_and_window_checks_order() {
    let mut b = RawIobuf::new(10);
    assert_eq!(b.set_limits_and_window((1, 9), (2, 8)), Ok(()));
    assert_eq!((b.lo_min(), b.lo(), b.hi(), b.hi_max()), (1, 2, 8, 9));
    // the window is free to move anywhere within the limits
    assert_eq!(b.set_limits_and_window((1, 9), (1, 9)), Ok(()));
    assert_eq!((b.lo_min(), b.lo(), b.hi(), b.hi_max()), (1, 1, 9, 9));
    // the limits may not widen
    assert_eq!(b.set_limits_and_window((0, 9), (2, 8)), Err(()));
    // the cursors must stay ordered
    assert_eq!(b.set_limits_and_window((5, 9), (3, 8)), Err(()));
    // the window must lie inside the new limits
    assert_eq!(b.set_limits_and_window((2, 9), (1, 8)), Err(()));
    assert_eq!(b.set_limits_and_window((2, 8), (3, 9)), Err(()));
    assert_eq!((b.lo_min(), b.lo(), b.hi(), b.hi_max()), (1, 1, 9, 9));
}

#[test]
fn set_limits_and_window_moves_window_back() {
    let mut b = RawIobuf::new(10);
    assert_eq!(b.advance(2), Ok(()));
    assert_eq!(b.set_limits_and_window((0, 10), (1, 5)), Ok(()));
    assert_eq!((b.lo_min(), b.lo(), b.hi(), b.hi_max()), (0, 1, 5, 10));
}

#[test]
fn compact_preserves_window_bytes() {
    let mut b = RawIobuf::from_slice_copy(&[1, 2, 3, 4, 5, 6, 7, 8]);
    assert_eq!(b.advance(3), Ok(()));
    assert_eq!(b.resize(4), Ok(()));
    let bs: Vec<u8> = b.as_window_slice().to_vec();
    let n = bs.len() as u32;
    b.compact();
    assert_eq!(b.lo(), 4);
    assert_eq!(b.hi(), 8);
    b.rewind();
    assert_eq!(b.resize(n), Ok(()));
    assert_eq!(b.as_window_slice(), &bs[..]);
}

#[test]
fn split_at_gives_adjacent_handles() {
    let b = RawIobuf::from_slice_copy(&[1, 2, 3, 4, 5, 6]);
    let (a, c) = b.split_at_nonatomic(2).unwrap();
    assert!(a.is_extended_by(&c));
    assert_eq!(a.hi(), c.lo());
    assert_eq!(a.as_window_slice(), &[1, 2][..]);
    assert_eq!(c.as_window_slice(), &[3, 4, 5, 6][..]);
    assert!(b.split_at_nonatomic(7).is_err());
}

#[test]
fn split_start_at_keeps_tail() {
    let mut b = RawIobuf::from_slice_copy(&[1, 2, 3, 4, 5, 6]);
    let head = b.split_start_at_atomic(4).unwrap();
    assert_eq!(head.as_window_slice(), &[1, 2, 3, 4][..]);
    assert_eq!(b.as_window_slice(), &[5, 6][..]);
    assert!(head.is_extended_by(&b));
}

#[test]
fn split_join_roundtrip() {
    let s: Vec<u8> = (10..100).collect();
    let b = RawIobuf::from_slice(&s);
    let (mut a, c) = b.split_at_nonatomic(40).unwrap();
    assert_eq!(a.extend_with(&c), Ok(()));
    assert_eq!(a.len(), 90);
    assert_eq!(a.as_window_slice(), &s[..]);
}

#[test]
fn extend_with_rejects_non_adjacent() {
    let b = RawIobuf::from_slice_copy(&[1, 2, 3, 4, 5, 6]);
    let (c, mut a) = b.split_at_nonatomic(2).unwrap();
    // `a` ends at the window end: `c` does not continue it
    assert_eq!(a.extend_with(&c), Err(()));
}

#[test]
fn clone_has_equal_state() {
    let mut b = RawIobuf::from_slice_copy(&[9, 8, 7, 6]);
    assert_eq!(b.advance(1), Ok(()));
    let c = b.clone_nonatomic();
    assert_eq!(c.lo(), b.lo());
    assert_eq!(c.hi(), b.hi());
    assert_eq!(c.lo_min(), b.lo_min());
    assert_eq!(c.hi_max(), b.hi_max());
    assert_eq!(c.is_owned(), b.is_owned());
    assert_eq!(c.as_window_slice(), b.as_window_slice());
}

#[test]
fn clone_from_same_state_changes_nothing() {
    let mut b = RawIobuf::from_slice_copy(&[9, 8, 7, 6]);
    assert_eq!(b.advance(1), Ok(()));
    let snapshot = b.clone_atomic();
    b.clone_from_atomic(&snapshot);
    assert_eq!(b.lo(), snapshot.lo());
    assert_eq!(b.hi(), snapshot.hi());
    assert_eq!(b.lo_min(), snapshot.lo_min());
    assert_eq!(b.hi_max(), snapshot.hi_max());
    assert_eq!(b.is_owned(), snapshot.is_owned());
    assert_eq!(b.as_window_slice(), snapshot.as_window_slice());
}

#[test]
fn deep_clone_rebases_limits() {
    let mut b = RawIobuf::from_slice_copy(&[1, 2, 3, 4, 5, 6, 7, 8]);
    assert_eq!(b.sub_window(2, 4), Ok(()));
    b.narrow();
    assert_eq!(b.extend(0), Ok(()));
    let d = b.deep_clone();
    assert!(d.is_owned());
    assert_eq!(d.lo_min(), 0);
    assert_eq!(d.hi_max(), b.cap());
    assert_eq!(d.as_window_slice(), b.as_window_slice());
}

#[test]
fn drop_clears_owned_bit() {
    let mut b = RawIobuf::new(4);
    assert!(b.is_unique_nonatomic());
    assert!(b.is_unique_atomic());
    b.drop_nonatomic();
    assert!(!b.is_owned());
    assert!(!b.is_unique_nonatomic());
    let mut c = RawIobuf::new(4);
    c.drop_atomic();
    assert!(!c.is_owned());
}

#[test]
fn from_slice_is_not_owned() {
    let s = [1u8, 2, 3];
    let b = RawIobuf::from_slice(&s);
    assert!(!b.is_owned());
    assert_eq!(b.as_window_slice(), &s[..]);
}

#[test]
fn limit_slice_covers_the_limits() {
    let mut b = RawIobuf::from_slice_copy(&[1, 2, 3, 4, 5, 6]);
    assert_eq!(b.advance(2), Ok(()));
    assert_eq!(b.resize(2), Ok(()));
    assert_eq!(b.as_window_slice(), &[3, 4][..]);
    assert_eq!(b.as_limit_slice(), &[1, 2, 3, 4, 5, 6][..]);
}

#[test]
fn set_lo_min_keeps_owned_bit() {
    let mut b = RawIobuf::new(8);
    assert_eq!(b.advance(3), Ok(()));
    b.set_lo_min(2);
    assert_eq!(b.lo_min(), 2);
    assert!(b.is_owned());
    assert_eq!(b.cap(), 6);
}
