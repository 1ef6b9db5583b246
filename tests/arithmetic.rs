use skyhash::skyscraper::permutation::{incr, reduce_small, sub_full};

const P_LO: u128 = 0x2833e84879b9709143e1f593f0000001;
const P_HI: u128 = 0x30644e72e131a029b85045b68181585d;

#[test]
fn incr_adds_one_only_when_set() {
    let mut a: u128 = 5;
    incr(&mut a, true);
    assert_eq!(a, 6);
    incr(&mut a, false);
    assert_eq!(a, 6);
}

#[test]
fn sub_full_without_borrow() {
    let mut a = [5u128, 7u128];
    sub_full(&mut a, &[3u128, 2u128]);
    assert_eq!(a, [2, 5]);
}

#[test]
fn sub_full_borrows_across_every_limb() {
    let mut a = [0u128, 0u128, 0u128];
    sub_full(&mut a, &[1u128, 0u128, 0u128]);
    assert_eq!(a, [u128::MAX, u128::MAX, u128::MAX]);
}

#[test]
fn sub_full_borrow_chain_stops() {
    let mut a = [0u128, 0u128, 1u128];
    sub_full(&mut a, &[1u128, 0u128, 0u128]);
    assert_eq!(a, [u128::MAX, u128::MAX, 0]);
}

#[test]
fn sub_full_limb_and_borrow_together() {
    let mut a = [0u128, 5u128];
    sub_full(&mut a, &[1u128, 5u128]);
    assert_eq!(a, [u128::MAX, u128::MAX]);
}

#[test]
fn sub_full_leaves_upper_limbs() {
    let mut a = [0u128, 9u128, 4u128];
    sub_full(&mut a, &[1u128, 2u128]);
    assert_eq!(a, [u128::MAX, 6, 4]);
}

#[test]
fn reduce_small_modulus_is_zero() {
    let mut v = [P_LO, P_HI];
    reduce_small(&mut v);
    assert_eq!(v, [0, 0]);
}

#[test]
fn reduce_small_below_modulus_unchanged() {
    let mut v = [P_LO - 1, P_HI];
    reduce_small(&mut v);
    assert_eq!(v, [P_LO - 1, P_HI]);
    let mut w = [u128::MAX, P_HI - 1];
    reduce_small(&mut w);
    assert_eq!(w, [u128::MAX, P_HI - 1]);
}

#[test]
fn reduce_small_subtracts_once() {
    let mut v = [P_LO + 5, P_HI];
    reduce_small(&mut v);
    assert_eq!(v, [5, 0]);
}

#[test]
fn reduce_small_largest_input() {
    let mut v = [u128::MAX, u128::MAX];
    reduce_small(&mut v);
    assert_eq!(v, [0x36fc76959f60cd29ac96341c4ffffffa, 0x0e0a77c19a07df2f666ea36f7879462e]);
}
