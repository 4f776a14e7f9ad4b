//! The Bowe–Hopwood variant of the Pedersen hash, as a circuit gadget.
//!
//! The input bits are padded to whole 3-bit chunks; segment `i` holds up to
//! `window_size` chunks, and each chunk selects a signed digit times the
//! matching entry of table `i`.
use vstd::prelude::*;
use crate::boolean::{bool_values, bytes_bits_le, Boolean, UInt8};
use crate::groups::{segment_values, signed_digit_sum, CurveVar};
use crate::pedersen::Window;
use crate::recursion::{bytes_to_bits_le, chunk_at, chunks, covers, zeros};
use crate::r1cs::SynthesisError;

verus! {

/// The number of bits that select one signed digit.
pub const CHUNK_SIZE: usize = 3;

/// The generator tables of the hash, one per segment.
pub struct BoweHopwoodParameters<N> {
    pub generators: Vec<Vec<N>>,
}

/// The hash parameters as the gadget holds them: constants of the circuit.
pub struct ParametersVar<G: CurveVar> {
    pub generators: Vec<Vec<G::Native>>,
}

/// The Bowe–Hopwood hash gadget over the point variables `G`.
pub struct CRHGadget<G: CurveVar> {
    _group: core::marker::PhantomData<G>,
}

/// How many pieces of `n` cut a sequence of length `len`.
pub open spec fn piece_count(len: nat, n: nat) -> nat {
    if len == 0 {
        0
    } else {
        ((len - 1) as nat / n + 1) as nat
    }
}

/// The zero bits that complete `len` bits to whole chunks.
pub open spec fn chunk_padding(len: nat) -> nat {
    if len % 3 == 0 {
        0
    } else {
        (3 - len % 3) as nat
    }
}

/// The input's little-endian bits, padded to whole chunks.
pub open spec fn padded_input_bits(input: Seq<u8>) -> Seq<bool> {
    bytes_bits_le(input) + zeros(chunk_padding(bytes_bits_le(input).len()))
}

/// `bits` cut into segments of `ws` chunks, each cut into 3-bit chunks.
pub open spec fn segments(bits: Seq<bool>, ws: nat) -> Seq<Seq<Seq<bool>>> {
    Seq::new(
        piece_count(bits.len(), 3 * ws),
        |i: int|
            {
                let s = chunk_at(bits, 3 * ws, i);
                Seq::new(piece_count(s.len(), 3), |j: int| chunk_at(s, 3, j))
            },
    )
}

/// A covering number of pieces is the piece count.
pub proof fn lemma_covers_count(c: nat, n: nat, len: nat)
    requires
        n > 0,
        covers(c, n, len),
    ensures
        c == piece_count(len, n),
{
    if len > 0 {
        let q = ((len - 1) as nat / n) as int;
        let ni = n as int;
        let ci = c as int;
        vstd::arithmetic::div_mod::lemma_fundamental_div_mod((len - 1) as int, ni);
        vstd::arithmetic::div_mod::lemma_mod_bound((len - 1) as int, ni);
        assert(q * ni <= len - 1 < (q + 1) * ni) by (nonlinear_arith)
            requires (len - 1) as int == ni * q + (len - 1) as int % ni, 0 <= (len - 1) as int % ni < ni;
        assert(ci > 0) by (nonlinear_arith)
            requires ci * ni >= len, len > 0, ci >= 0;
        assert(ci <= q + 1) by (nonlinear_arith)
            requires (ci - 1) * ni < len, len - 1 < (q + 1) * ni, ni > 0;
        assert(ci >= q + 1) by (nonlinear_arith)
            requires ci * ni >= len, q * ni <= len - 1, ni > 0;
    }
}

/// The values of a piece of bit variables are the piece of their values.
pub proof fn lemma_chunk_values(s: Seq<Boolean>, n: nat, j: int)
    requires
        n > 0,
        0 <= j,
        j * n <= s.len(),
    ensures
        bool_values(chunk_at(s, n, j)) == chunk_at(bool_values(s), n, j),
{
    assert((j + 1) * n == j * n + n) by (nonlinear_arith);
    assert(bool_values(chunk_at(s, n, j)) =~= chunk_at(bool_values(s), n, j));
}

/// A piece index below a covering count starts inside the sequence.
pub proof fn lemma_piece_start(c: nat, n: nat, len: nat, j: int)
    requires
        n > 0,
        covers(c, n, len),
        0 <= j < c,
    ensures
        j * n < len,
{
    assert(j * n <= (c - 1) * n) by (nonlinear_arith)
        requires j <= c - 1, n > 0;
}

impl<G: CurveVar> ParametersVar<G> {
    /// Takes the parameters that `f` produces as constants; the failure of
    /// `f` is handed back unchanged.
    pub fn new_variable<F: FnOnce() -> Result<BoweHopwoodParameters<G::Native>, SynthesisError>>(
        f: F,
    ) -> (r: Result<ParametersVar<G>, SynthesisError>)
        requires
            f.requires(()),
        ensures
            match r {
                Result::Ok(v) => f.ensures(
                    (),
                    Result::Ok(BoweHopwoodParameters { generators: v.generators }),
                ),
                Result::Err(e) => f.ensures((), Result::Err(e)),
            },
    {
        let params = f()?;
        Ok(ParametersVar { generators: params.generators })
    }
}

impl<G: CurveVar> CRHGadget<G> {
    /// The hash of `input`: the signed-digit sum of the input's segments
    /// against the tables. The input fills at most `num_windows` segments.
    pub fn evaluate(parameters: &ParametersVar<G>, input: &[UInt8], window: &Window) -> (r: Result<
        G,
        SynthesisError,
    >)
        requires
            window.window_size > 0,
            window.window_size * CHUNK_SIZE <= usize::MAX,
            parameters.generators.len() == window.num_windows,
            forall|i: int|
                0 <= i < parameters.generators.len() ==> (#[trigger] parameters.generators[i])@.len()
                    == window.window_size,
            input@.len() * 8 <= 3 * (window.window_size * window.num_windows),
        ensures
            r matches Result::Ok(v) && v.dlog() as int == signed_digit_sum::<G>(
                parameters.generators@,
                segments(
                    padded_input_bits(input@.map_values(|b: UInt8| b.val())),
                    window.window_size as nat,
                ),
                piece_count(
                    padded_input_bits(input@.map_values(|b: UInt8| b.val())).len(),
                    3 * window.window_size as nat,
                ),
            ) % (G::order() as int),
    {
        let ghost vals = input@.map_values(|b: UInt8| b.val());
        let mut input_in_bits = bytes_to_bits_le(input);
        let ghost unpadded = bool_values(input_in_bits@);
        let len = input_in_bits.len();
        if len % CHUNK_SIZE != 0 {
            let current_length = len;
            let mut k: usize = 0;
            while k < CHUNK_SIZE - current_length % CHUNK_SIZE
                invariant
                    current_length % 3 != 0,
                    k <= 3 - current_length % 3,
                    bool_values(input_in_bits@) == unpadded + zeros(k as nat),
                decreases CHUNK_SIZE - current_length % CHUNK_SIZE - k,
            {
                let ghost prev = bool_values(input_in_bits@);
                let b = Boolean::constant(false);
                input_in_bits.push(b);
                assert(bool_values(input_in_bits@) =~= prev.push(b.val()));
                assert(bool_values(input_in_bits@) =~= unpadded + zeros((k + 1) as nat));
                k = k + 1;
            }
        } else {
            assert(bool_values(input_in_bits@) =~= unpadded + zeros(0));
        }
        let ghost bits = bool_values(input_in_bits@);
        assert(bits == padded_input_bits(vals));
        let ws = window.window_size;
        let ghost nw = window.num_windows as int;
        let ghost total = input_in_bits@.len() as int;
        proof {
            crate::recursion::lemma_bytes_bits_len(vals);
            let n8 = unpadded.len() as int;
            assert(n8 == input@.len() * 8);
            assert(total % 3 == 0 && total < n8 + 3);
            let a = total / 3;
            let b = ws as int * nw;
            assert(total == 3 * a);
            assert(n8 <= 3 * b);
            assert(total <= 3 * b);
        }
        let pieces = chunks(input_in_bits.as_slice(), ws * CHUNK_SIZE);
        let mut segs: Vec<Vec<Vec<Boolean>>> = Vec::new();
        let mut i: usize = 0;
        proof {
            lemma_covers_count(pieces@.len(), (ws * 3) as nat, input_in_bits@.len());
            assert(3 * ws as nat == (ws * 3) as nat);
            let c = pieces@.len() as int;
            let wsi = ws as int;
            if c > nw {
                assert((c - 1) * (wsi * 3) >= nw * (wsi * 3)) by (nonlinear_arith)
                    requires c - 1 >= nw, wsi > 0;
                assert(nw * (wsi * 3) == 3 * (wsi * nw)) by (nonlinear_arith);
            }
        }
        while i < pieces.len()
            invariant
                i <= pieces.len(),
                segs.len() == i,
                ws > 0,
                bits == bool_values(input_in_bits@),
                total == input_in_bits@.len(),
                total % 3 == 0,
                pieces@.len() <= nw,
                forall|t: int| 0 <= t < i ==> (#[trigger] segs@[t])@.len() <= ws,
                forall|t: int, u: int|
                    0 <= t < i && 0 <= u < segs@[t]@.len() ==> (#[trigger] segs@[t]@[u])@.len() == 3,
                covers(pieces@.len(), (ws * 3) as nat, input_in_bits@.len()),
                pieces@.len() == piece_count(bits.len(), 3 * ws as nat),
                forall|t: int| 0 <= t < pieces@.len() ==> #[trigger] pieces[t]@ == chunk_at(
                    input_in_bits@,
                    (ws * 3) as nat,
                    t,
                ),
                forall|t: int|
                    0 <= t < i ==> (#[trigger] segment_values(segs@)[t]) == segments(bits, ws as nat)[t],
            decreases pieces.len() - i,
        {
            let seg = chunks(pieces[i].as_slice(), CHUNK_SIZE);
            proof {
                let w = (ws * 3) as nat;
                lemma_piece_start(pieces@.len(), w, input_in_bits@.len(), i as int);
                lemma_chunk_values(input_in_bits@, w, i as int);
                let s = chunk_at(bits, 3 * ws as nat, i as int);
                assert(3 * ws as nat == w);
                assert(bool_values(pieces[i as int]@) == s);
                lemma_covers_count(seg@.len(), 3, pieces[i as int]@.len());
                assert(seg@.len() == piece_count(s.len(), 3));
                // The piece holds whole chunks, at most `ws` of them.
                let wi = w as int;
                let ii = i as int;
                let plen = pieces[i as int]@.len() as int;
                assert(ii * wi == 3 * (ii * ws as int)) by (nonlinear_arith)
                    requires wi == ws as int * 3;
                assert((ii + 1) * wi == ii * wi + wi) by (nonlinear_arith);
                assert(plen % 3 == 0 && plen <= wi);
                let q = plen / 3;
                assert(plen == 3 * q);
                let c2 = seg@.len() as int;
                assert(c2 == q);
                assert(c2 <= ws);
                assert forall|j: int| 0 <= j < seg@.len() implies (#[trigger] seg@[j])@.len() == 3 by {
                    assert(seg@[j]@ == chunk_at(pieces[i as int]@, 3, j));
                }
                assert forall|j: int| 0 <= j < seg@.len() implies bool_values(#[trigger] seg[j]@)
                    == chunk_at(s, 3, j) by {
                    lemma_piece_start(seg@.len(), 3, pieces[i as int]@.len(), j);
                    lemma_chunk_values(pieces[i as int]@, 3, j);
                }
                assert(seg@.map_values(|c: Vec<Boolean>| bool_values(c@)) =~= segments(
                    bits,
                    ws as nat,
                )[i as int]);
            }
            let ghost prev = segs@;
            segs.push(seg);
            proof {
                assert forall|t: int| 0 <= t < i + 1 implies (#[trigger] segment_values(segs@)[t])
                    == segments(bits, ws as nat)[t] by {
                    if t < i {
                        assert(segs@[t] == prev[t]);
                        assert(segment_values(prev)[t] == segments(bits, ws as nat)[t]);
                    }
                }
                assert forall|t: int| 0 <= t < i + 1 implies (#[trigger] segs@[t])@.len() <= ws by {
                    if t < i {
                        assert(segs@[t] == prev[t]);
                    }
                }
                assert forall|t: int, u: int|
                    0 <= t < i + 1 && 0 <= u < segs@[t]@.len() implies (#[trigger] segs@[t]@[u])@.len()
                        == 3 by {
                    if t < i {
                        assert(segs@[t] == prev[t]);
                    }
                }
            }
            i = i + 1;
        }
        proof {
            assert(3 * ws as nat == (ws * 3) as nat);
            assert(segment_values(segs@) =~= segments(bits, ws as nat));
            assert forall|t: int| 0 <= t < segs@.len() implies (#[trigger] segs@[t])@.len()
                <= parameters.generators@[t]@.len() by {
                assert(parameters.generators[t]@.len() == ws);
            }
        }
        G::precomputed_base_3_bit_signed_digit_scalar_mul(parameters.generators.as_slice(), segs.as_slice())
    }
}

} // verus!
