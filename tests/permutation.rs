use ark_bn254::Fr;
use ark_ff::{BigInt, One, PrimeField, Zero};
use skyhash::field::Felt;
use skyhash::hash;
use skyhash::skyscraper::permutation::{bars_inplace_mont, compress, permute, FunctionBlock, RoundSchedule};
use skyhash::state::State;

fn felt(limbs: [u64; 4]) -> Felt {
    Felt { limbs }
}

fn from_fr(x: Fr) -> Felt {
    Felt { limbs: (x.0).0 }
}

fn to_fr(x: Felt) -> Fr {
    Fr::new_unchecked(BigInt::new(x.limbs))
}

fn mixed_schedule() -> RoundSchedule {
    RoundSchedule {
        blocks: vec![
            FunctionBlock::Square,
            FunctionBlock::Bar,
            FunctionBlock::Bar,
            FunctionBlock::Square,
        ],
        constants: vec![from_fr(Fr::from(11u64)), from_fr(Fr::from(13u64))],
    }
}

#[test]
fn bar_on_small_value_swaps_and_rotates() {
    let mut x = felt([1, 0, 0, 0]);
    bars_inplace_mont(&mut x);
    assert_eq!(x.limbs, [0, 0, 2, 0]);
}

#[test]
fn bar_fixes_zero() {
    let mut x = felt([0, 0, 0, 0]);
    bars_inplace_mont(&mut x);
    assert_eq!(x.limbs, [0, 0, 0, 0]);
}

#[test]
fn bar_reduces_all_ones() {
    let mut x = felt([u64::MAX; 4]);
    bars_inplace_mont(&mut x);
    assert_eq!(
        x.limbs,
        [0xac96341c4ffffffa, 0x36fc76959f60cd29, 0x666ea36f7879462e, 0x0e0a77c19a07df2f]
    );
}

#[test]
fn square_round_matches_field_arithmetic() {
    let schedule = RoundSchedule { blocks: vec![FunctionBlock::Square], constants: vec![] };
    let l = Fr::from(1234u64);
    let r = Fr::from(5678u64);
    let out = permute(&schedule, [from_fr(l), from_fr(r)]);
    assert_eq!(out[0], from_fr(l * l + r));
    assert_eq!(out[1], from_fr(l));
}

#[test]
fn interior_round_adds_constant() {
    let schedule = RoundSchedule {
        blocks: vec![FunctionBlock::Square, FunctionBlock::Square, FunctionBlock::Square],
        constants: vec![from_fr(Fr::from(7u64))],
    };
    let l = Fr::from(3u64);
    let r = Fr::from(5u64);
    let out = permute(&schedule, [from_fr(l), from_fr(r)]);
    let l1 = l * l + r;
    let r1 = l;
    let l2 = l1 * l1 + r1 + Fr::from(7u64);
    let r2 = l1;
    let l3 = l2 * l2 + r2;
    assert_eq!(out[0], from_fr(l3));
    assert_eq!(out[1], from_fr(l2));
}

#[test]
fn empty_schedule_is_identity() {
    let schedule = RoundSchedule { blocks: vec![], constants: vec![] };
    let input = [from_fr(Fr::from(1u64)), from_fr(Fr::from(2u64))];
    assert_eq!(permute(&schedule, input), input);
}

#[test]
fn bar_round_then_add() {
    let schedule = RoundSchedule { blocks: vec![FunctionBlock::Bar], constants: vec![] };
    let out = permute(&schedule, [felt([1, 0, 0, 0]), felt([3, 0, 0, 0])]);
    assert_eq!(out[0].limbs, [3, 0, 2, 0]);
    assert_eq!(out[1].limbs, [1, 0, 0, 0]);
}

#[test]
fn module_compress_adds_input() {
    let schedule = mixed_schedule();
    let x = from_fr(Fr::from(1234u64));
    let y = from_fr(Fr::from(5678u64));
    let p = permute(&schedule, [x, y]);
    assert_eq!(compress(&schedule, x, y), from_fr(to_fr(x) + to_fr(p[0])));
}

#[test]
fn permutation_moves_inputs() {
    let schedule = mixed_schedule();
    for (a, b) in [(0u64, 0u64), (1, 2), (1234, 5678), (u64::MAX, 7)] {
        let input = [from_fr(Fr::from(a)), from_fr(Fr::from(b))];
        assert_ne!(permute(&schedule, input), input);
    }
}

#[test]
fn dispatcher_permute_matches_inplace() {
    let h: hash::Hash<RoundSchedule, RoundSchedule> = hash::Hash::Skyscraper(mixed_schedule());
    let s = State {
        x: from_fr(Fr::from(1234u64)),
        y: from_fr(Fr::from(5678u64)),
        z: from_fr(Fr::from(9u64)),
    };
    let mut t = s;
    hash::permute_inplace(&h, &mut t);
    assert_eq!(hash::permute(&h, s), t);
    assert_ne!(t, s);
}

#[test]
fn skyscraper_dispatch_leaves_z_lane() {
    let h: hash::Hash<RoundSchedule, RoundSchedule> = hash::Hash::Skyscraper(mixed_schedule());
    let s = State {
        x: from_fr(Fr::from(1u64)),
        y: from_fr(Fr::from(2u64)),
        z: from_fr(Fr::from(3u64)),
    };
    let r = hash::permute(&h, s);
    assert_eq!(r.z, s.z);
    let p = permute(&mixed_schedule(), [s.x, s.y]);
    assert_eq!([r.x, r.y], p);
}

#[test]
fn dispatcher_compress_differs_from_module_compress() {
    let schedule = mixed_schedule();
    let x = from_fr(Fr::from(1234u64));
    let y = from_fr(Fr::from(5678u64));
    let module = compress(&schedule, x, y);
    let h: hash::Hash<RoundSchedule, RoundSchedule> = hash::Hash::Skyscraper(schedule);
    let dispatched = hash::compress(&h, x, y);
    assert_ne!(dispatched, module);
    assert_eq!(from_fr(to_fr(x) + to_fr(dispatched)), module);
}

#[test]
fn keyed_compress_ignores_key_for_skyscraper() {
    let h: hash::Hash<RoundSchedule, RoundSchedule> = hash::Hash::Skyscraper(mixed_schedule());
    let x = from_fr(Fr::from(1u64));
    let y = from_fr(Fr::from(2u64));
    let k1 = hash::keyed_compress(&h, 1, x, y);
    let k2 = hash::keyed_compress(&h, 2, x, y);
    assert_eq!(k1, k2);
    assert_eq!(k1, hash::compress(&h, x, y));
}

#[test]
fn zero_is_field_zero() {
    assert_eq!(to_fr(Felt::zero()), Fr::zero());
    assert_ne!(to_fr(from_fr(Fr::one())), Fr::zero());
    assert_eq!(Fr::from_bigint(BigInt::new([1234, 0, 0, 0])).unwrap(), Fr::from(1234u64));
}
