use bums::utils::{
    constant_time_eq, constant_time_is_zero, constant_time_lt, constant_time_msb,
    constant_time_select, convert, convert_5, ms_addc_u64, ms_memcpy, ms_memset, ms_subc_u64,
};

#[test]
fn memcpy_copies_a_prefix() {
    let mut dst = [9u8; 5];
    ms_memcpy(&mut dst, &[1, 2, 3, 4, 5, 6], 3);
    assert_eq!(dst, [1, 2, 3, 9, 9]);
    ms_memcpy(&mut dst, &[7], 0);
    assert_eq!(dst, [1, 2, 3, 9, 9]);
}

#[test]
fn memset_fills_a_prefix() {
    let mut dst = [9u32; 4];
    ms_memset(&mut dst, 0, 2);
    assert_eq!(dst, [0, 0, 9, 9]);
    ms_memset(&mut dst, 5, 0);
    assert_eq!(dst, [0, 0, 9, 9]);
}

#[test]
fn convert_writes_big_endian_words() {
    let out = convert(&[0x01020304, 0, 0, 0, 0, 0, 0, 0xa0b0c0d0]);
    assert_eq!(&out[0..4], &[1, 2, 3, 4]);
    assert_eq!(&out[28..32], &[0xa0, 0xb0, 0xc0, 0xd0]);
    let out5 = convert_5(&[0x11223344, 0x55667788, 0, 0, 0xffffffff]);
    assert_eq!(out5, [0x11, 0x22, 0x33, 0x44, 0x55, 0x66, 0x77, 0x88, 0, 0, 0, 0, 0, 0, 0, 0, 0xff, 0xff, 0xff, 0xff]);
}

#[test]
fn add_with_carry() {
    assert_eq!(ms_addc_u64(1, 2, false), (3, false));
    assert_eq!(ms_addc_u64(1, 2, true), (4, false));
    assert_eq!(ms_addc_u64(u64::MAX, 0, true), (0, true));
    assert_eq!(ms_addc_u64(u64::MAX, 5, true), (5, true));
    assert_eq!(ms_addc_u64(u64::MAX, 1, false), (0, true));
}

#[test]
fn sub_with_borrow() {
    assert_eq!(ms_subc_u64(5, 2, false), (3, false));
    assert_eq!(ms_subc_u64(5, 2, true), (2, false));
    assert_eq!(ms_subc_u64(2, 2, true), (u64::MAX, true));
    assert_eq!(ms_subc_u64(0, 1, false), (u64::MAX, true));
}

#[test]
fn branch_free_comparisons() {
    assert_eq!(constant_time_msb(-5), 1);
    assert_eq!(constant_time_msb(5), 0);
    assert_eq!(constant_time_is_zero(0), 1);
    assert_eq!(constant_time_is_zero(i64::MIN), 0);
    assert_eq!(constant_time_eq(7, 7), 1);
    assert_eq!(constant_time_eq(7, -7), 0);
    assert_eq!(constant_time_lt(1, 2), 1);
    assert_eq!(constant_time_lt(2, 1), 0);
    // compared as unsigned words: -1 is the largest
    assert_eq!(constant_time_lt(1, -1), 1);
    assert_eq!(constant_time_lt(-1, 1), 0);
    assert_eq!(constant_time_select(-1, 10, 20), 10);
    assert_eq!(constant_time_select(0, 10, 20), 20);
    assert_eq!(constant_time_select(1, 10, 20), 20);
}
