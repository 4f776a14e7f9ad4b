use r1cs_gadgets::boolean::{Boolean, UInt8};
use r1cs_gadgets::bowe_hopwood::{BoweHopwoodParameters, CRHGadget, ParametersVar};
use r1cs_gadgets::dlog::{DlogVar, DLOG_ORDER};
use r1cs_gadgets::groups::CurveVar;
use r1cs_gadgets::pedersen::Window;
use r1cs_gadgets::r1cs::{AllocationMode, ConstraintSystem};

const R: u64 = DLOG_ORDER;

fn bit(input: &[u8], i: usize) -> bool {
    i < input.len() * 8 && (input[i / 8] >> (i % 8)) & 1 == 1
}

/// The native signed-digit hash of `input` under `generators`.
fn native_hash(generators: &[Vec<u64>], input: &[u8], window_size: usize) -> u64 {
    let mut acc = 0u64;
    for (i, table) in generators.iter().enumerate() {
        for (j, g) in table.iter().enumerate() {
            let at = 3 * (window_size * i + j);
            if at >= input.len() * 8 {
                continue;
            }
            let mag = 1 + bit(input, at) as u64 + 2 * bit(input, at + 1) as u64;
            let t = (mag * (g % R)) % R;
            acc = if bit(input, at + 2) { (acc + R - t) % R } else { (acc + t) % R };
        }
    }
    acc
}

#[test]
fn bowe_hopwood_test_native_equality() {
    let cs = ConstraintSystem::new_ref(1);
    let window = Window { window_size: 63, num_windows: 8 };
    let generators: Vec<Vec<u64>> = (0..8u64)
        .map(|i| (0..63u64).map(|j| (i * 1_000_003 + j * 7919 + 1) % R).collect())
        .collect();
    let input: Vec<u8> = (0..189u32).map(|i| (i * 91 + 3) as u8).collect();
    let expected = native_hash(&generators, &input, 63);
    let params = ParametersVar::<DlogVar>::new_variable(|| Ok(BoweHopwoodParameters { generators }))
        .unwrap();
    let input_var = UInt8::new_vec(&cs, &input, AllocationMode::Witness).unwrap();
    let result = CRHGadget::evaluate(&params, &input_var, &window).unwrap();
    assert_eq!(result.value().unwrap(), expected);
    assert!(cs.is_satisfied().unwrap());
}

#[test]
fn bowe_hopwood_pads_to_whole_chunks() {
    let cs = ConstraintSystem::new_ref(2);
    let window = Window { window_size: 2, num_windows: 2 };
    let generators = vec![vec![10u64, 20], vec![30, 40]];
    // One byte 0b0100_0111: chunks 111, 000, 10 padded to 100 → 010 (bits
    // 6,7 then a zero), i.e. -4·10, +1·20, +2·30.
    let input = UInt8::new_vec(&cs, &[0b0100_0111], AllocationMode::Witness).unwrap();
    let params = ParametersVar::<DlogVar>::new_variable(|| Ok(BoweHopwoodParameters { generators }))
        .unwrap();
    let result = CRHGadget::evaluate(&params, &input, &window).unwrap();
    assert_eq!(result.value().unwrap(), (R - 40 + 20 + 60) % R);
}

#[test]
fn signed_digits_sum_table_entries() {
    let t = Boolean::constant(true);
    let f = Boolean::constant(false);
    let r = DlogVar::precomputed_base_3_bit_signed_digit_scalar_mul(&[vec![5, 7]], &[vec![vec![t, f, f], vec![f, t, t]]])
        .unwrap();
    assert_eq!(r.value().unwrap(), (2 * 5 + R - 3 * 7) % R);
}
