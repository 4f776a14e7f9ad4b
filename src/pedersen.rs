//! The Pedersen hash over a fixed generator table, as a circuit gadget.
//!
//! The input bytes are padded with zero bytes to `window_size·num_windows`
//! bits; window `j` of the bits selects among the multiples of generator
//! `j` in table `j`.
use vstd::prelude::*;
use crate::boolean::{bool_values, bytes_bits_le, UInt8};
use crate::groups::{multiscalar_sum, selected_sum, table_dlogs, CurveVar, GroupOpsBounds};
use crate::recursion::{bytes_to_bits_le, chunk_at, chunks};
use crate::r1cs::SynthesisError;

verus! {

/// The shape of the windows: `num_windows` windows of `window_size` bits.
#[derive(Clone, Copy, Debug)]
pub struct Window {
    pub window_size: usize,
    pub num_windows: usize,
}

/// The generator tables of the hash, one per window.
pub struct PedersenParameters<N> {
    pub generators: Vec<Vec<N>>,
}

/// The hash parameters as the gadget holds them: constants of the circuit.
pub struct CRHParametersVar<G: CurveVar> {
    pub generators: Vec<Vec<G::Native>>,
}

/// The Pedersen hash gadget over the point variables `G`.
pub struct CRHGadget<G: CurveVar> {
    _group: core::marker::PhantomData<G>,
}

/// The sum over the first `n` windows of `bits` cut every `ws` bits: in
/// window `j`, the entries of table `j` whose bit is set.
pub open spec fn windowed_sum<G: GroupOpsBounds>(
    tables: Seq<Vec<G::Native>>,
    bits: Seq<bool>,
    ws: nat,
    n: nat,
) -> nat
    decreases n,
{
    if n == 0 {
        0
    } else {
        windowed_sum::<G>(tables, bits, ws, (n - 1) as nat) + selected_sum(
            chunk_at(bits, ws, n - 1),
            table_dlogs::<G>(tables[n - 1]),
            chunk_at(bits, ws, n - 1).len(),
        )
    }
}

/// The input bytes padded with zero bytes to `len` bytes.
pub open spec fn padded_bytes(input: Seq<u8>, len: nat) -> Seq<u8> {
    input + Seq::new((len - input.len()) as nat, |i: int| 0u8)
}

/// Windows given as bit variables sum as the windows of their values.
pub proof fn lemma_multiscalar_windows<G: GroupOpsBounds>(
    tables: Seq<Vec<G::Native>>,
    scalars: Seq<Vec<crate::boolean::Boolean>>,
    bits: Seq<bool>,
    ws: nat,
    n: nat,
)
    requires
        n <= scalars.len(),
        forall|j: int| 0 <= j < n ==> bool_values((#[trigger] scalars[j])@) == chunk_at(bits, ws, j),
    ensures
        multiscalar_sum::<G>(tables, scalars, n) == windowed_sum::<G>(tables, bits, ws, n),
    decreases n,
{
    if n > 0 {
        lemma_multiscalar_windows::<G>(tables, scalars, bits, ws, (n - 1) as nat);
        let j = n - 1;
        assert(bool_values(scalars[j]@) == chunk_at(bits, ws, j));
        assert(bool_values(scalars[j]@).len() == scalars[j]@.len());
    }
}

impl<G: CurveVar> CRHParametersVar<G> {
    /// Takes the parameters that `f` produces as constants; the failure of
    /// `f` is handed back unchanged.
    pub fn new_variable<F: FnOnce() -> Result<PedersenParameters<G::Native>, SynthesisError>>(
        f: F,
    ) -> (r: Result<CRHParametersVar<G>, SynthesisError>)
        requires
            f.requires(()),
        ensures
            match r {
                Result::Ok(v) => f.ensures((), Result::Ok(PedersenParameters { generators: v.generators })),
                Result::Err(e) => f.ensures((), Result::Err(e)),
            },
    {
        let params = f()?;
        Ok(CRHParametersVar { generators: params.generators })
    }
}

impl<G: CurveVar> CRHGadget<G> {
    /// The hash of `input`, padded with zero bytes to fill the windows.
    pub fn evaluate(parameters: &CRHParametersVar<G>, input: &[UInt8], window: &Window) -> (r: Result<
        G,
        SynthesisError,
    >)
        requires
            window.window_size > 0,
            window.window_size * window.num_windows <= usize::MAX,
            (window.window_size * window.num_windows) % 8 == 0,
            input.len() * 8 <= window.window_size * window.num_windows,
            parameters.generators.len() == window.num_windows,
            forall|j: int|
                0 <= j < parameters.generators.len() ==> (#[trigger] parameters.generators[j])@.len()
                    == window.window_size,
        ensures
            r matches Result::Ok(v) && v.dlog() == windowed_sum::<G>(
                parameters.generators@,
                bytes_bits_le(
                    padded_bytes(
                        input@.map_values(|b: UInt8| b.val()),
                        (window.window_size * window.num_windows / 8) as nat,
                    ),
                ),
                window.window_size as nat,
                window.num_windows as nat,
            ) % G::order(),
    {
        let ws = window.window_size;
        let nw = window.num_windows;
        let total: usize = ws * nw;
        let target: usize = total / 8;
        let ghost vals = input@.map_values(|b: UInt8| b.val());
        let mut padded_input: Vec<UInt8> = Vec::new();
        let mut i: usize = 0;
        while i < input.len()
            invariant
                i <= input.len(),
                padded_input@.map_values(|b: UInt8| b.val()) == vals.take(i as int),
                vals == input@.map_values(|b: UInt8| b.val()),
            decreases input.len() - i,
        {
            let ghost prev = padded_input@.map_values(|b: UInt8| b.val());
            let x = input[i];
            padded_input.push(x);
            assert(padded_input@.map_values(|b: UInt8| b.val()) =~= prev.push(x.val()));
            assert(padded_input@.map_values(|b: UInt8| b.val()) =~= vals.take(i as int + 1));
            i = i + 1;
        }
        assert(vals.take(vals.len() as int) =~= vals);
        let mut k: usize = input.len();
        while k < target
            invariant
                input.len() <= k <= target,
                padded_input@.map_values(|b: UInt8| b.val()) == vals + Seq::new(
                    (k - input.len()) as nat,
                    |t: int| 0u8,
                ),
            decreases target - k,
        {
            let ghost prev = padded_input@.map_values(|b: UInt8| b.val());
            let z = UInt8::constant(0u8);
            padded_input.push(z);
            assert(padded_input@.map_values(|b: UInt8| b.val()) =~= prev.push(z.val()));
            assert(padded_input@.map_values(|b: UInt8| b.val()) =~= vals + Seq::new(
                (k + 1 - input.len()) as nat,
                |t: int| 0u8,
            ));
            k = k + 1;
        }
        let ghost padded = padded_bytes(vals, target as nat);
        assert(padded_input@.map_values(|b: UInt8| b.val()) =~= padded);
        let input_in_bits = bytes_to_bits_le(padded_input.as_slice());
        let windows = chunks(input_in_bits.as_slice(), ws);
        proof {
            crate::recursion::lemma_bytes_bits_len(padded);
            assert(input_in_bits@.len() == total);
            let n = windows@.len();
            assert(n * ws >= total);
            assert(n <= nw) by (nonlinear_arith)
                requires n > 0 ==> (n - 1) * ws < ws * nw, ws > 0, n * ws >= ws * nw,
                    total == ws * nw;
            assert(n >= nw) by (nonlinear_arith)
                requires n * ws >= ws * nw, ws > 0;
            assert forall|j: int| 0 <= j < windows@.len() implies bool_values((#[trigger] windows[j])@)
                == chunk_at(bytes_bits_le(padded), ws as nat, j) by {
                let c = chunk_at(input_in_bits@, ws as nat, j);
                assert(j * ws <= (n - 1) * ws) by (nonlinear_arith)
                    requires j < n, ws > 0;
                assert((j + 1) * ws == j * ws + ws) by (nonlinear_arith);
                assert(bool_values(c) =~= chunk_at(bytes_bits_le(padded), ws as nat, j));
            }
            assert forall|j: int| 0 <= j < windows@.len() implies (#[trigger] windows@[j])@.len()
                == parameters.generators@[j]@.len() by {
                assert((j + 1) * ws <= nw * ws) by (nonlinear_arith)
                    requires j < nw, ws > 0;
                assert(nw * ws == ws * nw) by (nonlinear_arith);
                assert(input_in_bits@.len() == ws * nw);
                assert((j + 1) * ws == j * ws + ws) by (nonlinear_arith);
                assert(windows@[j]@ == chunk_at(input_in_bits@, ws as nat, j));
                assert(parameters.generators[j]@.len() == ws);
            }
            lemma_multiscalar_windows::<G>(
                parameters.generators@,
                windows@,
                bytes_bits_le(padded),
                ws as nat,
                nw as nat,
            );
        }
        G::precomputed_base_multiscalar_mul(parameters.generators.as_slice(), windows.as_slice())
    }
}

} // verus!
