use plix::memory::{memcmp, memcpy, memmove, memset};

#[test]
fn memset_fills_prefix_with_low_byte() {
    let mut b = [9u8; 6];
    memset(&mut b, 0x1_41, 4);
    assert_eq!(b, [0x41, 0x41, 0x41, 0x41, 9, 9]);
}

#[test]
fn memset_zero_count_changes_nothing() {
    let mut b = [5u8; 3];
    memset(&mut b, 0, 0);
    assert_eq!(b, [5, 5, 5]);
}

#[test]
fn memcpy_copies_prefix() {
    let mut d = [0u8; 5];
    memcpy(&mut d, &[1, 2, 3, 4], 3);
    assert_eq!(d, [1, 2, 3, 0, 0]);
}

#[test]
fn memmove_forward_overlap() {
    let mut b = [1u8, 2, 3, 4, 5, 6];
    memmove(&mut b, 0, 2, 4);
    assert_eq!(b, [3, 4, 5, 6, 5, 6]);
}

#[test]
fn memmove_backward_overlap() {
    let mut b = [1u8, 2, 3, 4, 5, 6];
    memmove(&mut b, 2, 0, 4);
    assert_eq!(b, [1, 2, 1, 2, 3, 4]);
}

#[test]
fn memmove_same_place() {
    let mut b = [1u8, 2, 3];
    memmove(&mut b, 1, 1, 2);
    assert_eq!(b, [1, 2, 3]);
}

#[test]
fn memcmp_reports_first_difference() {
    assert_eq!(memcmp(&[1, 2, 3], &[1, 2, 3], 3), 0);
    assert_eq!(memcmp(&[1, 5, 3], &[1, 2, 9], 3), 3);
    assert_eq!(memcmp(&[1, 2, 3], &[1, 5, 0], 3), -3);
    assert_eq!(memcmp(&[0], &[255], 1), -255);
    assert_eq!(memcmp(&[7, 1], &[7, 2], 1), 0);
}

#[test]
fn memcmp_is_antisymmetric() {
    let a = [4u8, 8, 15, 16];
    let b = [4u8, 9, 0, 0];
    assert_eq!(memcmp(&a, &b, 4), -memcmp(&b, &a, 4));
}
