use bums::bn::{bn_add, bn_add_words, bn_sub, bn_sub_words, BIGNUM};

#[test]
fn test_bn_add_asm_impls() {
    let ours = {
        let out = &mut [0; 3];
        let a = &[0, 1, 2];
        let b = &[0, 1, 2];
        bn_add_words(out, a, b);
        out.clone()
    };
    let theirs: [u64; 3] = [0, 2, 4];
    assert_eq!(ours[0], theirs[0]);
    assert_eq!(ours[1], theirs[1]);
    assert_eq!(ours[2], theirs[2]);
}

#[test]
fn test_bn_sub_asm_impls() {
    let ours = {
        let out = &mut [0; 3];
        let a = [2, 2, 2];
        let b = [0, 1, 2];
        bn_sub_words(out, &a, &b);
        out.clone()
    };
    let theirs: [u64; 3] = [2, 1, 0];
    assert_eq!(ours[0], theirs[0]);
    assert_eq!(ours[1], theirs[1]);
    assert_eq!(ours[2], theirs[2]);
}

#[test]
fn test_add_asm_works() {
    let out = &mut [0; 3];
    let a = &[0, 1, 2];
    let b = &[0, 1, 2];
    bn_add_words(out, a, b);
    assert_eq!(out, &mut [0, 2, 4]);
}

#[test]
fn test_sub_asm_works() {
    let out = &mut [0; 3];
    let a = &[5, 5, 5];
    let b = &[0, 1, 2];
    bn_sub_words(out, a, b);
    assert_eq!(out, &mut [5, 4, 3]);
}

#[test]
fn add_words_carries_between_limbs_and_out() {
    let out = &mut [0u64; 2];
    let carry = bn_add_words(out, &[u64::MAX, u64::MAX], &[1, 0]);
    assert_eq!(out, &mut [0, 0]);
    assert!(carry);
    let out = &mut [0u64; 2];
    let carry = bn_add_words(out, &[u64::MAX, 5], &[1, 0]);
    assert_eq!(out, &mut [0, 6]);
    assert!(!carry);
}

#[test]
fn sub_words_borrows_between_limbs_and_out() {
    let out = &mut [0u64; 2];
    let borrow = bn_sub_words(out, &[0, 1], &[1, 0]);
    assert_eq!(out, &mut [u64::MAX, 0]);
    assert!(!borrow);
    let out = &mut [0u64; 1];
    let borrow = bn_sub_words(out, &[0], &[1]);
    assert_eq!(out, &mut [u64::MAX]);
    assert!(borrow);
}

#[test]
fn add_of_two_small_numbers() {
    let out = &mut BIGNUM::new();
    let a = &mut BIGNUM::new();
    let b = &mut BIGNUM::new();
    a.set_u64(123);
    b.set_u64(321);
    let res = bn_add(out, a, b);
    assert!(res.is_ok());
    assert_eq!(out.words()[0], 444);
    assert_eq!(out.width(), 1);
    assert!(!out.is_negative());
}

#[test]
fn sub_of_two_small_numbers() {
    let out = &mut BIGNUM::new();
    let a = &mut BIGNUM::new();
    let b = &mut BIGNUM::new();
    a.set_u64(321);
    b.set_u64(123);
    let res = bn_sub(out, a, b);
    assert!(res.is_ok());
    assert_eq!(out.words()[0], 198);
    assert_eq!(out.width(), 1);
    assert!(!out.is_negative());
}

#[test]
fn add_carries_into_a_new_limb() {
    let out = &mut BIGNUM::new();
    let a = &mut BIGNUM::new();
    let b = &mut BIGNUM::new();
    a.set_u64(u64::MAX);
    b.set_u64(1);
    assert!(bn_add(out, a, b).is_ok());
    assert_eq!(out.width(), 2);
    assert_eq!(out.words()[0], 0);
    assert_eq!(out.words()[1], 1);
    assert_eq!(out.dmax(), 2);
}

#[test]
fn sub_to_zero_has_no_limbs() {
    let out = &mut BIGNUM::new();
    let a = &mut BIGNUM::new();
    a.set_u64(77);
    let b = a.clone();
    assert!(bn_sub(out, a, &b).is_ok());
    assert_eq!(out.width(), 0);
    assert!(!out.is_negative());
}

#[test]
fn sub_of_a_wider_number_is_negative() {
    let out = &mut BIGNUM::new();
    let a = &mut BIGNUM::new();
    let b = &mut BIGNUM::new();
    let c = &mut BIGNUM::new();
    a.set_u64(u64::MAX);
    b.set_u64(1);
    assert!(bn_add(c, a, b).is_ok());
    let small = &mut BIGNUM::new();
    small.set_u64(5);
    // 5 - 2^64
    assert!(bn_sub(out, small, c).is_ok());
    assert!(out.is_negative());
    assert_eq!(out.width(), 1);
    assert_eq!(out.words()[0], u64::MAX - 4);
}

#[test]
fn sub_of_a_larger_number_of_equal_width_is_refused() {
    let out = &mut BIGNUM::new();
    let a = &mut BIGNUM::new();
    let b = &mut BIGNUM::new();
    a.set_u64(3);
    b.set_u64(7);
    let res = bn_sub(out, a, b);
    assert_eq!(res, Err("r arg2 lt arg3".to_string()));
}

#[test]
fn add_of_opposite_signs() {
    // 7 + (0 - 3): the magnitudes differ in a limb, so 7 is taken from 3
    let zero = &mut BIGNUM::new();
    let three = &mut BIGNUM::new();
    three.set_u64(3);
    let minus_three = &mut BIGNUM::new();
    assert!(bn_sub(minus_three, zero, three).is_ok());
    assert!(minus_three.is_negative());
    let seven = &mut BIGNUM::new();
    seven.set_u64(7);
    let out = &mut BIGNUM::new();
    let res = bn_add(out, seven, minus_three);
    assert_eq!(res, Err("r arg2 lt arg3".to_string()));
    let out = &mut BIGNUM::new();
    // 3 + (0 - 7) = -4
    let minus_seven = &mut BIGNUM::new();
    assert!(bn_sub(minus_seven, zero, seven).is_ok());
    assert!(bn_add(out, three, minus_seven).is_ok());
    assert!(out.is_negative());
    assert_eq!(out.words()[0], 4);
}

#[test]
fn new_number_is_zero() {
    let n = BIGNUM::new();
    assert_eq!(n.width(), 0);
    assert_eq!(n.dmax(), 0);
    assert!(!n.is_negative());
    assert_eq!(n.words(), [0u64; 16]);
}

#[test]
fn test_add_impl() {
    let ours = {
        let out = &mut BIGNUM::new();
        let a = &mut BIGNUM::new();
        let b = &mut BIGNUM::new();

        a.set_u64(123);
        b.set_u64(321);
        let res = bn_add(out, a, b);
        assert!(res.is_ok());
        out.clone()
    };

    assert_eq!(444, ours.words()[0]);
    assert_eq!(1, ours.width());
    assert_eq!(2, ours.dmax());
}

#[test]
fn test_sub_impl() {
    let ours = {
        let out = &mut BIGNUM::new();
        let a = &mut BIGNUM::new();
        let b = &mut BIGNUM::new();

        a.set_u64(321);
        b.set_u64(123);
        let res = bn_sub(out, a, b);
        assert!(res.is_ok());
        out.clone()
    };

    assert_eq!(198, ours.words()[0]);
    assert_eq!(1, ours.width());
    assert_eq!(1, ours.dmax());
}
