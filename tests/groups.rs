use r1cs_gadgets::boolean::{Boolean, UInt8};
use r1cs_gadgets::pedersen::{CRHGadget, CRHParametersVar, PedersenParameters, Window};
use r1cs_gadgets::dlog::{DlogPairing, DlogVar, DLOG_ORDER};
use r1cs_gadgets::groups::{CurveVar, GroupOpsBounds};
use r1cs_gadgets::pairing::PairingVar;
use r1cs_gadgets::r1cs::{
    cs_of_slice, Assignment, AllocationMode, ConstraintSystem, ConstraintSystemRef, R1CSVar,
    SynthesisError,
};
use r1cs_gadgets::signature::{
    ParametersVar, PublicKeyVar, SchnorrParameters, SchnorrRandomizePkGadget,
};

const R: u64 = DLOG_ORDER;

fn mul(a: u64, b: u64) -> u64 {
    ((a as u128 * b as u128) % R as u128) as u64
}

fn witness(cs: &ConstraintSystem, p: u64) -> DlogVar {
    DlogVar::new_variable(cs, || Ok(p), AllocationMode::Witness).unwrap()
}

fn bits_le(x: u64, n: usize) -> Vec<Boolean> {
    (0..n).map(|i| Boolean::constant((x >> i) & 1 == 1)).collect()
}

#[test]
fn group_law_matches_native() {
    let mut cs = ConstraintSystem::new_ref(1);
    let (a_native, b_native) = (123456789u64, 2000000000u64);
    let a = witness(&cs, a_native);
    let b = witness(&cs, b_native);
    let zero = DlogVar::zero();
    assert_eq!(zero.value().unwrap(), 0);
    assert_eq!(a.add_var(&zero).value().unwrap(), a_native);
    assert_eq!(a.sub_var(&zero).value().unwrap(), a_native);
    assert_eq!(a.sub_var(&a).value().unwrap(), 0);
    let a_b = a.add_var(&b);
    let b_a = b.add_var(&a);
    assert_eq!(a_b.value().unwrap(), (a_native + b_native) % R);
    assert_eq!(a_b.value().unwrap(), b_a.value().unwrap());
    a_b.enforce_equal(&b_a, &mut cs).unwrap();
    assert!(cs.is_satisfied().unwrap());
    let ab_a = a_b.add_var(&a);
    let a_ba = a.add_var(&b_a);
    assert_eq!(ab_a.value().unwrap(), a_ba.value().unwrap());
    ab_a.enforce_equal(&a_ba, &mut cs).unwrap();
    assert!(cs.is_satisfied().unwrap());
    let mut a2 = a;
    a2.double_in_place().unwrap();
    let a_a = a.add_var(&a);
    a2.enforce_equal(&a_a, &mut cs).unwrap();
    assert_eq!(a2.value().unwrap(), (2 * a_native) % R);
    assert_eq!(a.double().unwrap().value().unwrap(), a_a.value().unwrap());
    assert!(cs.is_satisfied().unwrap());
    a.enforce_equal(&b, &mut cs).unwrap();
    assert!(!cs.is_satisfied().unwrap());
}

#[test]
fn negate_and_native_operations() {
    let cs = ConstraintSystem::new_ref(2);
    let a = witness(&cs, 5);
    assert_eq!(a.negate().unwrap().value().unwrap(), R - 5);
    assert_eq!(DlogVar::zero().negate().unwrap().value().unwrap(), 0);
    assert_eq!(a.add_native(&(R - 1)).value().unwrap(), 4);
    assert_eq!(a.sub_native(&7).value().unwrap(), R - 2);
    assert_eq!(DlogVar::constant(R + 3).value().unwrap(), 3);
    assert!(a.is_eq(&witness(&cs, R + 5)).unwrap().value().unwrap());
    assert!(!a.is_zero().unwrap().value().unwrap());
    assert!(DlogVar::zero().is_zero().unwrap().value().unwrap());
}

#[test]
fn mul_bits_is_scalar_multiplication() {
    let cs = ConstraintSystem::new_ref(3);
    let p_native = 987654321u64;
    let p = witness(&cs, p_native);
    for k in [0u64, 1, R - 1, 0xdead_beef_1234_5678] {
        let r = p.mul_bits(&bits_le(k, 64)).unwrap();
        assert_eq!(r.value().unwrap(), mul(k % R, p_native));
    }
    assert_eq!(p.mul_bits(&bits_le(R - 1, 64)).unwrap().value().unwrap(), R - p_native);
    let empty = p.mul_bits(&[]).unwrap();
    assert_eq!(empty.value().unwrap(), 0);
    assert!(empty.is_constant());
}

#[test]
fn precomputed_base_multiplications() {
    let mut acc = DlogVar::constant(10);
    acc.precomputed_base_scalar_mul(&bits_le(0b101, 3), &[1, 2, 4]).unwrap();
    assert_eq!(acc.value().unwrap(), 15);
    let tables = vec![vec![1u64, 2, 4], vec![100, 200]];
    let scalars = vec![bits_le(0b110, 3), bits_le(0b11, 2)];
    let r = DlogVar::precomputed_base_multiscalar_mul(&tables, &scalars).unwrap();
    assert_eq!(r.value().unwrap(), 2 + 4 + 100 + 200);
    let r = DlogVar::precomputed_base_3_bit_signed_digit_scalar_mul(&tables, &[]).unwrap();
    assert_eq!(r.value().unwrap(), 0);
}

#[test]
fn prime_order_check_keeps_satisfied() {
    let mut cs = ConstraintSystem::new_ref(12);
    let a = witness(&cs, 77);
    a.enforce_prime_order(&mut cs).unwrap();
    assert!(cs.is_satisfied().unwrap());
}

#[test]
fn bilinearity_in_circuit() {
    let mut cs = ConstraintSystem::new_ref(4);
    let (a, b, s) = (1234567u64, 7654321u64, 0x1_2345_6789u64);
    let a_g = witness(&cs, a);
    let b_g = witness(&cs, b);
    let sa_g = a_g.mul_bits(&bits_le(s, 64)).unwrap();
    let sb_g = b_g.mul_bits(&bits_le(s, 64)).unwrap();
    let ans1 = DlogPairing::pairing(
        DlogPairing::prepare_g1(&sa_g).unwrap(),
        DlogPairing::prepare_g2(&b_g).unwrap(),
    )
    .unwrap();
    let ans2 = DlogPairing::pairing(
        DlogPairing::prepare_g1(&a_g).unwrap(),
        DlogPairing::prepare_g2(&sb_g).unwrap(),
    )
    .unwrap();
    let ab = DlogPairing::pairing(
        DlogPairing::prepare_g1(&a_g).unwrap(),
        DlogPairing::prepare_g2(&b_g).unwrap(),
    )
    .unwrap();
    let native = mul(mul(a, b), s % R);
    assert_eq!(ans1.value().unwrap(), native);
    assert_eq!(ans2.value().unwrap(), native);
    assert_eq!(mul(ab.value().unwrap(), s % R), native);
    let s_bits_be: Vec<Boolean> =
        (0..64).rev().map(|i| Boolean::constant((s >> i) & 1 == 1)).collect();
    let ans3 = DlogPairing::gt_pow(&ab, &s_bits_be).unwrap();
    assert_eq!(ans3.value().unwrap(), native);
    let t = Boolean::constant(true);
    DlogPairing::gt_conditional_enforce_equal(&ans1, &ans2, &t, &mut cs).unwrap();
    DlogPairing::gt_conditional_enforce_equal(&ans2, &ans3, &t, &mut cs).unwrap();
    assert!(cs.is_satisfied().unwrap());
    DlogPairing::gt_conditional_enforce_equal(&ans1, &ab, &t, &mut cs).unwrap();
    assert!(!cs.is_satisfied().unwrap());
    assert!(DlogPairing::gt_is_eq(&ans1, &ans2).unwrap().value().unwrap());
}

#[test]
fn target_group_arithmetic() {
    let cs = ConstraintSystem::new_ref(10);
    let x = DlogPairing::pairing(
        DlogPairing::prepare_g1(&witness(&cs, 3)).unwrap(),
        DlogPairing::prepare_g2(&witness(&cs, 5)).unwrap(),
    )
    .unwrap();
    assert_eq!(DlogPairing::gt_one().value().unwrap(), 0);
    assert_eq!(DlogPairing::gt_mul(&x, &x).unwrap().value().unwrap(), 30);
    // 0b101 read most significant first is five.
    let bits = vec![Boolean::constant(true), Boolean::constant(false), Boolean::constant(true)];
    assert_eq!(DlogPairing::gt_pow(&x, &bits).unwrap().value().unwrap(), 75);
    assert_eq!(DlogPairing::gt_pow(&x, &[]).unwrap().value().unwrap(), 0);
    let f = Boolean::constant(false);
    let one = DlogPairing::gt_one();
    assert_eq!(DlogPairing::gt_select(&f, &x, &one).unwrap().value().unwrap(), 0);
}

#[test]
fn product_of_pairings_sums_the_pairs() {
    let cs = ConstraintSystem::new_ref(5);
    let ps: Vec<_> = [3u64, 5].iter().map(|x| DlogPairing::prepare_g1(&witness(&cs, *x)).unwrap()).collect();
    let qs: Vec<_> = [7u64, 11].iter().map(|x| DlogPairing::prepare_g2(&witness(&cs, *x)).unwrap()).collect();
    let r = DlogPairing::product_of_pairings(&ps, &qs).unwrap();
    assert_eq!(r.value().unwrap(), 3 * 7 + 5 * 11);
    let m = DlogPairing::miller_loop(&[], &[]).unwrap();
    assert_eq!(DlogPairing::final_exponentiation(&m).unwrap().value().unwrap(), 0);
}

#[test]
fn handles_and_constants() {
    let cs = ConstraintSystem::new_ref(42);
    let a = witness(&cs, 1);
    assert_eq!(a.cs(), Some(ConstraintSystemRef::Handle(42)));
    assert!(!a.is_constant());
    assert!(DlogVar::constant(9).is_constant());
    let c = DlogVar::new_variable(&cs, || Ok(9), AllocationMode::Constant).unwrap();
    assert!(c.is_constant());
    let bits = vec![Boolean::constant(true), Boolean::new_witness(&cs, || Ok(false)).unwrap()];
    assert_eq!(cs_of_slice(&bits), Some(ConstraintSystemRef::Handle(42)));
    let none: Vec<Boolean> = Vec::new();
    assert_eq!(cs_of_slice(&none), None);
    assert_eq!(Some(3u8).get(), Ok(3));
    assert_eq!(None::<u8>.get(), Err(SynthesisError::AssignmentMissing));
    let failed = DlogVar::new_variable(&cs, || Err(SynthesisError::AssignmentMissing), AllocationMode::Witness);
    assert!(matches!(failed, Err(SynthesisError::AssignmentMissing)));
}

#[test]
fn booleans_and_bytes() {
    let mut cs = ConstraintSystem::new_ref(6);
    let t = Boolean::new_witness(&cs, || Ok(true)).unwrap();
    let f = Boolean::constant(false);
    assert!(!t.not().value().unwrap());
    assert!(!t.and(&f).unwrap().value().unwrap());
    assert!(t.or(&f).unwrap().value().unwrap());
    assert!(!t.select(&f, &t).unwrap().value().unwrap());
    t.conditional_enforce_equal(&f, &f, &mut cs).unwrap();
    assert!(cs.is_satisfied().unwrap());
    t.conditional_enforce_equal(&f, &t, &mut cs).unwrap();
    assert!(!cs.is_satisfied().unwrap());
    let byte = UInt8::new_variable(&cs, || Ok(0b1000_0110), AllocationMode::Input).unwrap();
    let bits: Vec<bool> = byte.into_bits_le().iter().map(|b| b.value().unwrap()).collect();
    assert_eq!(bits, vec![false, true, true, false, false, false, false, true]);
    let bytes = UInt8::new_input_vec(&cs, &[1, 2]).unwrap();
    assert_eq!(bytes[1].value().unwrap(), 2);
}

#[test]
fn encodings_are_four_bytes_little_endian() {
    let v = DlogVar::constant(0x0102_0304);
    let canonical: Vec<u8> = v.to_bytes().unwrap().iter().map(|b| b.value().unwrap()).collect();
    assert_eq!(canonical, vec![4, 3, 2, 1]);
    let cheap: Vec<u8> = v.to_non_unique_bytes().unwrap().iter().map(|b| b.value().unwrap()).collect();
    assert_eq!(cheap, canonical);
}

#[test]
fn constraints_test_native_equality() {
    // A Pedersen hash of 128-bit windows over 8 windows: 128 input bytes.
    let cs = ConstraintSystem::new_ref(7);
    let window = Window { window_size: 128, num_windows: 8 };
    let generators: Vec<Vec<u64>> = (0..8u64)
        .map(|j| (0..128u64).map(|i| mul(1_000_003 * (j + 1), (i * i + 7) % R)).collect())
        .collect();
    let input: Vec<u8> = (0..128u32).map(|i| (i * 37 + 11) as u8).collect();
    // The native evaluation.
    let mut native = 0u64;
    for (j, table) in generators.iter().enumerate() {
        for (i, g) in table.iter().enumerate() {
            let bit = j * 128 + i;
            if (input[bit / 8] >> (bit % 8)) & 1 == 1 {
                native = (native + g) % R;
            }
        }
    }
    let params = CRHParametersVar::<DlogVar>::new_variable(|| Ok(PedersenParameters { generators })).unwrap();
    let input_var = UInt8::new_vec(&cs, &input, AllocationMode::Witness).unwrap();
    let result = CRHGadget::evaluate(&params, &input_var, &window).unwrap();
    assert_eq!(result.value().unwrap(), native);
    assert!(cs.is_satisfied().unwrap());
}

#[test]
fn pedersen_pads_short_input() {
    let cs = ConstraintSystem::new_ref(8);
    let window = Window { window_size: 4, num_windows: 4 };
    let generators: Vec<Vec<u64>> = (0..4u64).map(|j| (0..4u64).map(|i| 10 * j + i + 1).collect()).collect();
    let params = CRHParametersVar::<DlogVar>::new_variable(|| Ok(PedersenParameters { generators })).unwrap();
    // One byte 0b1000_0001: bit 0 of window 0 and bit 3 of window 1.
    let input = UInt8::new_vec(&cs, &[0b1000_0001], AllocationMode::Witness).unwrap();
    let result = CRHGadget::evaluate(&params, &input, &window).unwrap();
    assert_eq!(result.value().unwrap(), 1 + 14);
}

#[test]
fn schnorr_randomize_adds_scaled_generator() {
    let mut cs = ConstraintSystem::new_ref(9);
    let params = ParametersVar::<DlogVar>::new_variable(&cs, || Ok(SchnorrParameters { generator: 3 }), AllocationMode::Constant).unwrap();
    let pk = PublicKeyVar::<DlogVar>::new_variable(&cs, || Ok(100), AllocationMode::Input).unwrap();
    let randomness = UInt8::new_vec(&cs, &[2, 1], AllocationMode::Witness).unwrap();
    let rand_pk = SchnorrRandomizePkGadget::randomize(&params, &pk, &randomness).unwrap();
    assert_eq!(rand_pk.pub_key.value().unwrap(), 100 + 3 * 258);
    let expected = PublicKeyVar::<DlogVar>::new_variable(&cs, || Ok(100 + 3 * 258), AllocationMode::Witness).unwrap();
    assert!(rand_pk.is_eq(&expected).unwrap().value().unwrap());
    let bytes: Vec<u8> = rand_pk.to_bytes().unwrap().iter().map(|b| b.value().unwrap()).collect();
    assert_eq!(bytes, vec![0x6a, 0x03, 0, 0]);
    let t = Boolean::constant(true);
    rand_pk.conditional_enforce_not_equal(&pk, &t, &mut cs).unwrap();
    assert!(cs.is_satisfied().unwrap());
    rand_pk.conditional_enforce_equal(&pk, &t, &mut cs).unwrap();
    assert!(!cs.is_satisfied().unwrap());
}
