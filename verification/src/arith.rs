//! The arithmetic backend.
//!
//! A network weight is carried as the 64-bit pattern of an IEEE-754 double.
//! The prover cannot reason about floating-point arithmetic, so every scalar
//! operation the engine needs is a method of [`WeightOps`], specified against
//! per-implementation spec functions: whatever backend is supplied, each
//! operation is a fixed function of its operands, which is what the engine's
//! contracts build on.  The laws ([`WeightOps::lemma_fmt_token`] and friends)
//! state the few facts the engine relies on beyond that.
//!
//! [`IntOps`], proved correct here, interprets the patterns as plain unsigned
//! integers; it anchors the laws and drives the structural tests.  A backend
//! that interprets the patterns as doubles lives with the callers, outside the
//! proofs, since the prover does not take floating point.

use vstd::prelude::*;

use crate::network::Activation;
use crate::text::spec_is_sep;

verus! {

/// Spelling aids for backends outside the proofs: the build erases the
/// trait's specification items to functions over the prover's sequence and
/// integer types, and these aliases let such a backend write those
/// signatures down without naming the prover's own crates.
pub type GhostBytes = Seq<u8>;

/// See [`GhostBytes`].
pub type GhostWeights = Seq<u64>;

/// See [`GhostBytes`].
pub type GhostInt = int;

/// Bit pattern of the double value one.
pub const BITS_ONE: u64 = 0x3FF0000000000000;

/// Bit pattern of the double value one hundred.
pub const BITS_HUNDRED: u64 = 0x4059000000000000;

/// Bit pattern of the double value zero.
pub const BITS_ZERO: u64 = 0;

/// Scalar arithmetic on weight patterns, supplied by the caller.
///
/// Exec results are pinned to the implementation's spec functions, so for a
/// fixed backend every operation is deterministic in its operands.  The two
/// sampling methods draw from the given generator and promise nothing about
/// their value.
pub trait WeightOps: Sized {
    /// An activation function applied to one value.
    spec fn sact(&self, a: Activation, x: u64) -> u64;

    /// The product of the row vector `x` with the `nrows` by `ncols` matrix
    /// stored column-major in `w`.
    spec fn smatvec(&self, w: Seq<u64>, x: Seq<u64>, nrows: int, ncols: int) -> Seq<u64>;

    /// The textual form of one weight.
    spec fn sfmt(&self, w: u64) -> Seq<u8>;

    /// The weight a textual token denotes, if any.
    spec fn sparse(&self, t: Seq<u8>) -> Option<u64>;

    /// The ordering of two values.
    spec fn sle(&self, a: u64, b: u64) -> bool;

    /// A percentage turned into a fraction.
    spec fn sfraction(&self, percent: u64) -> u64;

    /// How many mutation draws a fraction asks for out of `nweights` weights.
    spec fn smut_count(&self, nweights: usize, fraction: u64) -> usize;

    /// The matrix product of an `nrows` by `ncols` matrix has `ncols` entries.
    proof fn lemma_matvec_len(&self, w: Seq<u64>, x: Seq<u64>, nrows: int, ncols: int)
        requires
            ncols >= 0,
        ensures
            self.smatvec(w, x, nrows, ncols).len() == ncols,
    ;

    /// A formatted weight is a non-empty token free of separators, and
    /// parsing it gives the weight back.
    proof fn lemma_fmt_token(&self, w: u64)
        ensures
            self.sfmt(w).len() > 0,
            forall|i: int|
                0 <= i < self.sfmt(w).len() ==> !spec_is_sep(#[trigger] self.sfmt(w)[i], false)
                    && !spec_is_sep(self.sfmt(w)[i], true),
            self.sparse(self.sfmt(w)) == Some(w),
    ;

    /// A zero fraction asks for no mutation draws.
    proof fn lemma_zero_fraction(&self, nweights: usize)
        ensures
            self.smut_count(nweights, BITS_ZERO) == 0,
    ;

    fn act(&self, a: Activation, x: u64) -> (r: u64)
        ensures
            r == self.sact(a, x),
    ;

    fn matvec(&self, w: &Vec<u64>, x: &Vec<u64>, nrows: usize, ncols: usize) -> (r: Vec<u64>)
        requires
            w@.len() == nrows * ncols,
            x@.len() == nrows,
        ensures
            r@ == self.smatvec(w@, x@, nrows as int, ncols as int),
    ;

    fn fmt(&self, w: u64) -> (r: Vec<u8>)
        ensures
            r@ == self.sfmt(w),
    ;

    fn parse(&self, t: &[u8]) -> (r: Option<u64>)
        ensures
            r == self.sparse(t@),
    ;

    fn le(&self, a: u64, b: u64) -> (r: bool)
        ensures
            r == self.sle(a, b),
    ;

    fn to_fraction(&self, percent: u64) -> (r: u64)
        ensures
            r == self.sfraction(percent),
    ;

    fn mut_count(&self, nweights: usize, fraction: u64) -> (r: usize)
        ensures
            r == self.smut_count(nweights, fraction),
    ;

    /// A sample from the uniform distribution over `[low, high]`.
    fn uniform(&self, rng: &mut rand::rngs::StdRng, low: u64, high: u64) -> u64;

    /// A sample from the Gaussian with the given mean and standard deviation.
    fn gauss(&self, rng: &mut rand::rngs::StdRng, mean: u64, stdev: u64) -> u64;
}

/// Dot product modulo two to the sixty-fourth, pairing the sequences up from
/// the front.
pub open spec fn spec_int_dot(c: Seq<u64>, x: Seq<u64>) -> u64
    decreases c.len(),
{
    if c.len() == 0 || x.len() == 0 {
        0u64
    } else {
        c[0].wrapping_mul(x[0]).wrapping_add(spec_int_dot(c.drop_first(), x.drop_first()))
    }
}

/// The backend that reads each pattern as a plain unsigned integer, with
/// wrapping arithmetic.  Every activation is the identity, a percentage is
/// its own fraction, and a non-zero fraction mutates every weight.  Its
/// textual form for a weight is sixteen letters, one per four-bit group from
/// the most significant down, each written as the letter `A` through `P`.
pub struct IntOps;

impl WeightOps for IntOps {
    open spec fn sact(&self, a: Activation, x: u64) -> u64 {
        x
    }

    open spec fn smatvec(&self, w: Seq<u64>, x: Seq<u64>, nrows: int, ncols: int) -> Seq<u64> {
        Seq::new(
            if ncols >= 0 {
                ncols as nat
            } else {
                0
            },
            |j: int| spec_int_dot(w.subrange(j * nrows, j * nrows + nrows), x),
        )
    }

    open spec fn sfmt(&self, w: u64) -> Seq<u8> {
        seq![
            (65 + ((w >> 60) & 0xF)) as u8,
            (65 + ((w >> 56) & 0xF)) as u8,
            (65 + ((w >> 52) & 0xF)) as u8,
            (65 + ((w >> 48) & 0xF)) as u8,
            (65 + ((w >> 44) & 0xF)) as u8,
            (65 + ((w >> 40) & 0xF)) as u8,
            (65 + ((w >> 36) & 0xF)) as u8,
            (65 + ((w >> 32) & 0xF)) as u8,
            (65 + ((w >> 28) & 0xF)) as u8,
            (65 + ((w >> 24) & 0xF)) as u8,
            (65 + ((w >> 20) & 0xF)) as u8,
            (65 + ((w >> 16) & 0xF)) as u8,
            (65 + ((w >> 12) & 0xF)) as u8,
            (65 + ((w >> 8) & 0xF)) as u8,
            (65 + ((w >> 4) & 0xF)) as u8,
            (65 + (w & 0xF)) as u8,
        ]
    }

    open spec fn sparse(&self, t: Seq<u8>) -> Option<u64> {
        if t.len() == 16 && (forall|i: int| 0 <= i < 16 ==> 65 <= #[trigger] t[i] <= 80) {
            Some(
                ((t[0] - 65) as u64) << 60 | ((t[1] - 65) as u64) << 56 | ((t[2] - 65) as u64)
                    << 52 | ((t[3] - 65) as u64) << 48 | ((t[4] - 65) as u64) << 44 | ((t[5]
                    - 65) as u64) << 40 | ((t[6] - 65) as u64) << 36 | ((t[7] - 65) as u64) << 32
                    | ((t[8] - 65) as u64) << 28 | ((t[9] - 65) as u64) << 24 | ((t[10]
                    - 65) as u64) << 20 | ((t[11] - 65) as u64) << 16 | ((t[12] - 65) as u64) << 12
                    | ((t[13] - 65) as u64) << 8 | ((t[14] - 65) as u64) << 4 | ((t[15]
                    - 65) as u64),
            )
        } else {
            None
        }
    }

    open spec fn sle(&self, a: u64, b: u64) -> bool {
        a <= b
    }

    open spec fn sfraction(&self, percent: u64) -> u64 {
        percent
    }

    open spec fn smut_count(&self, nweights: usize, fraction: u64) -> usize {
        if fraction == 0 {
            0
        } else {
            nweights
        }
    }

    proof fn lemma_matvec_len(&self, w: Seq<u64>, x: Seq<u64>, nrows: int, ncols: int) {
    }

    proof fn lemma_fmt_token(&self, w: u64) {
        lemma_nibble_bounds(w);
        let t = self.sfmt(w);
        assert(self.sparse(t) == Some(w)) by {
            assert(65 <= t[0] <= 80 && t[0] == (65 + ((w >> 60) & 0xF)) as u8);
            assert((t[0] - 65) as u64 == (w >> 60) & 0xF);
            assert((t[1] - 65) as u64 == (w >> 56) & 0xF);
            assert((t[2] - 65) as u64 == (w >> 52) & 0xF);
            assert((t[3] - 65) as u64 == (w >> 48) & 0xF);
            assert((t[4] - 65) as u64 == (w >> 44) & 0xF);
            assert((t[5] - 65) as u64 == (w >> 40) & 0xF);
            assert((t[6] - 65) as u64 == (w >> 36) & 0xF);
            assert((t[7] - 65) as u64 == (w >> 32) & 0xF);
            assert((t[8] - 65) as u64 == (w >> 28) & 0xF);
            assert((t[9] - 65) as u64 == (w >> 24) & 0xF);
            assert((t[10] - 65) as u64 == (w >> 20) & 0xF);
            assert((t[11] - 65) as u64 == (w >> 16) & 0xF);
            assert((t[12] - 65) as u64 == (w >> 12) & 0xF);
            assert((t[13] - 65) as u64 == (w >> 8) & 0xF);
            assert((t[14] - 65) as u64 == (w >> 4) & 0xF);
            assert((t[15] - 65) as u64 == w & 0xF);
            lemma_nibble_recompose(w);
        }
    }

    proof fn lemma_zero_fraction(&self, nweights: usize) {
    }

    fn act(&self, a: Activation, x: u64) -> (r: u64) {
        x
    }

    fn matvec(&self, w: &Vec<u64>, x: &Vec<u64>, nrows: usize, ncols: usize) -> (r: Vec<u64>) {
        let wlen = w.len();
        let mut r: Vec<u64> = Vec::new();
        let mut j: usize = 0;
        while j < ncols
            invariant
                0 <= j <= ncols,
                wlen == w@.len(),
                w@.len() == nrows * ncols,
                x@.len() == nrows,
                r@.len() == j,
                forall|k: int|
                    0 <= k < j ==> r@[k] == spec_int_dot(
                        w@.subrange(k * nrows, k * nrows + nrows),
                        x@,
                    ),
            decreases ncols - j,
        {
            proof {
                assert(j * nrows + nrows <= nrows * ncols && 0 <= j * nrows) by (nonlinear_arith)
                    requires
                        0 <= j < ncols,
                        nrows >= 0,
                ;
            }
            let base = j * nrows;
            let ghost col = w@.subrange(base as int, base as int + nrows);
            proof {
                assert(col.len() == nrows);
            }
            let mut acc: u64 = 0;
            let mut i: usize = nrows;
            proof {
                assert(col.skip(nrows as int) =~= Seq::<u64>::empty());
                assert(x@.skip(nrows as int) =~= Seq::<u64>::empty());
            }
            while i > 0
                invariant
                    0 <= i <= nrows,
                    wlen == w@.len(),
                    x@.len() == nrows,
                    col.len() == nrows,
                    base == j * nrows,
                    base + nrows <= w@.len(),
                    col == w@.subrange(base as int, base as int + nrows),
                    acc == spec_int_dot(col.skip(i as int), x@.skip(i as int)),
                decreases i,
            {
                i = i - 1;
                proof {
                    assert(col.skip(i as int)[0] == col[i as int]);
                    assert(col.skip(i as int).drop_first() =~= col.skip(i as int + 1));
                    assert(x@.skip(i as int)[0] == x@[i as int]);
                    assert(x@.skip(i as int).drop_first() =~= x@.skip(i as int + 1));
                    assert(col[i as int] == w@[base + i]);
                }
                acc = w[base + i].wrapping_mul(x[i]).wrapping_add(acc);
            }
            proof {
                assert(col.skip(0) =~= col);
                assert(x@.skip(0) =~= x@);
            }
            r.push(acc);
            j = j + 1;
        }
        proof {
            assert(r@ =~= self.smatvec(w@, x@, nrows as int, ncols as int));
        }
        r
    }

    fn fmt(&self, w: u64) -> (r: Vec<u8>) {
        proof {
            lemma_nibble_bounds(w);
        }
        let mut r: Vec<u8> = Vec::new();
        r.push((65 + ((w >> 60) & 0xF)) as u8);
        r.push((65 + ((w >> 56) & 0xF)) as u8);
        r.push((65 + ((w >> 52) & 0xF)) as u8);
        r.push((65 + ((w >> 48) & 0xF)) as u8);
        r.push((65 + ((w >> 44) & 0xF)) as u8);
        r.push((65 + ((w >> 40) & 0xF)) as u8);
        r.push((65 + ((w >> 36) & 0xF)) as u8);
        r.push((65 + ((w >> 32) & 0xF)) as u8);
        r.push((65 + ((w >> 28) & 0xF)) as u8);
        r.push((65 + ((w >> 24) & 0xF)) as u8);
        r.push((65 + ((w >> 20) & 0xF)) as u8);
        r.push((65 + ((w >> 16) & 0xF)) as u8);
        r.push((65 + ((w >> 12) & 0xF)) as u8);
        r.push((65 + ((w >> 8) & 0xF)) as u8);
        r.push((65 + ((w >> 4) & 0xF)) as u8);
        r.push((65 + (w & 0xF)) as u8);
        proof {
            assert(r@ =~= self.sfmt(w));
        }
        r
    }

    fn parse(&self, t: &[u8]) -> (r: Option<u64>) {
        if t.len() != 16 {
            return None;
        }
        let mut i: usize = 0;
        while i < 16
            invariant
                0 <= i <= 16,
                t@.len() == 16,
                forall|k: int| 0 <= k < i ==> 65 <= #[trigger] t@[k] <= 80,
            decreases 16 - i,
        {
            if t[i] < 65 || t[i] > 80 {
                return None;
            }
            i = i + 1;
        }
        let v: u64 = ((t[0] - 65) as u64) << 60 | ((t[1] - 65) as u64) << 56 | ((t[2]
            - 65) as u64) << 52 | ((t[3] - 65) as u64) << 48 | ((t[4] - 65) as u64) << 44 | ((t[5]
            - 65) as u64) << 40 | ((t[6] - 65) as u64) << 36 | ((t[7] - 65) as u64) << 32 | ((t[8]
            - 65) as u64) << 28 | ((t[9] - 65) as u64) << 24 | ((t[10] - 65) as u64) << 20 | ((
        t[11] - 65) as u64) << 16 | ((t[12] - 65) as u64) << 12 | ((t[13] - 65) as u64) << 8 | ((
        t[14] - 65) as u64) << 4 | ((t[15] - 65) as u64);
        Some(v)
    }

    fn le(&self, a: u64, b: u64) -> (r: bool) {
        a <= b
    }

    fn to_fraction(&self, percent: u64) -> (r: u64) {
        percent
    }

    fn mut_count(&self, nweights: usize, fraction: u64) -> (r: usize) {
        if fraction == 0 {
            0
        } else {
            nweights
        }
    }

    fn uniform(&self, _rng: &mut rand::rngs::StdRng, low: u64, _high: u64) -> u64 {
        low
    }

    fn gauss(&self, _rng: &mut rand::rngs::StdRng, mean: u64, _stdev: u64) -> u64 {
        mean
    }
}

/// Every four-bit group of a word is at most fifteen.
proof fn lemma_nibble_bounds(w: u64)
    ensures
        (w >> 60) & 0xF < 16,
        (w >> 56) & 0xF < 16,
        (w >> 52) & 0xF < 16,
        (w >> 48) & 0xF < 16,
        (w >> 44) & 0xF < 16,
        (w >> 40) & 0xF < 16,
        (w >> 36) & 0xF < 16,
        (w >> 32) & 0xF < 16,
        (w >> 28) & 0xF < 16,
        (w >> 24) & 0xF < 16,
        (w >> 20) & 0xF < 16,
        (w >> 16) & 0xF < 16,
        (w >> 12) & 0xF < 16,
        (w >> 8) & 0xF < 16,
        (w >> 4) & 0xF < 16,
        w & 0xF < 16,
{
    assert((w >> 60) & 0xF < 16 && (w >> 56) & 0xF < 16 && (w >> 52) & 0xF < 16 && (w >> 48) & 0xF
        < 16 && (w >> 44) & 0xF < 16 && (w >> 40) & 0xF < 16 && (w >> 36) & 0xF < 16 && (w >> 32)
        & 0xF < 16 && (w >> 28) & 0xF < 16 && (w >> 24) & 0xF < 16 && (w >> 20) & 0xF < 16 && (w
        >> 16) & 0xF < 16 && (w >> 12) & 0xF < 16 && (w >> 8) & 0xF < 16 && (w >> 4) & 0xF < 16 && w
        & 0xF < 16) by (bit_vector);
}

/// Reassembling the sixteen four-bit groups of a word gives the word back.
proof fn lemma_nibble_recompose(w: u64)
    ensures
        ((w >> 60) & 0xF) << 60 | ((w >> 56) & 0xF) << 56 | ((w >> 52) & 0xF) << 52 | ((w >> 48)
            & 0xF) << 48 | ((w >> 44) & 0xF) << 44 | ((w >> 40) & 0xF) << 40 | ((w >> 36) & 0xF)
            << 36 | ((w >> 32) & 0xF) << 32 | ((w >> 28) & 0xF) << 28 | ((w >> 24) & 0xF) << 24 | ((
        w >> 20) & 0xF) << 20 | ((w >> 16) & 0xF) << 16 | ((w >> 12) & 0xF) << 12 | ((w >> 8) & 0xF)
            << 8 | ((w >> 4) & 0xF) << 4 | (w & 0xF) == w,
{
    assert(((w >> 60) & 0xF) << 60 | ((w >> 56) & 0xF) << 56 | ((w >> 52) & 0xF) << 52 | ((w >> 48)
        & 0xF) << 48 | ((w >> 44) & 0xF) << 44 | ((w >> 40) & 0xF) << 40 | ((w >> 36) & 0xF) << 36
        | ((w >> 32) & 0xF) << 32 | ((w >> 28) & 0xF) << 28 | ((w >> 24) & 0xF) << 24 | ((w >> 20)
        & 0xF) << 20 | ((w >> 16) & 0xF) << 16 | ((w >> 12) & 0xF) << 12 | ((w >> 8) & 0xF) << 8 | (
    (w >> 4) & 0xF) << 4 | (w & 0xF) == w) by (bit_vector);
}

} // verus!
