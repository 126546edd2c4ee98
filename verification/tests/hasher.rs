//! The hasher that hands back the integer it is fed.

use opti_set_int::types::NoOpHasher;

#[test]
fn digest_is_the_last_integer() {
    let mut h = NoOpHasher::default();
    assert_eq!(h.finish(), 0);
    h.write_u16(513);
    assert_eq!(h.finish(), 513);
    h.write_u32(70000);
    assert_eq!(h.finish(), 70000);
    h.write_u64(u64::MAX);
    assert_eq!(h.finish(), u64::MAX);
    h.write_usize(42);
    assert_eq!(h.finish(), 42);
}

#[test]
fn bytes_read_in_native_order() {
    let mut h = NoOpHasher::default();
    h.write(&[1, 2, 3, 4, 5, 6, 7, 8, 9]);
    assert_eq!(h.finish(), u64::from_ne_bytes([1, 2, 3, 4, 5, 6, 7, 8]));
    h.write(&[7, 1]);
    assert_eq!(h.finish(), u64::from_ne_bytes([7, 1, 0, 0, 0, 0, 0, 0]));
    h.write(&[]);
    assert_eq!(h.finish(), 0);
}
