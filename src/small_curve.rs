use vstd::prelude::*;
use vstd::arithmetic::div_mod::{
    lemma_add_mod_noop, lemma_mod_add_multiples_vanish, lemma_mod_bound, lemma_small_mod,
};

use crate::curve::{lemma_weighted_sum_push, weighted_sum, Curve};

verus! {

/// The order of [`SmallCurve`], the prime `2^31 - 1`.
pub const ORDER: u64 = 2147483647;

/// A scalar of [`SmallCurve`]: a residue modulo [`ORDER`].
#[derive(Clone, Copy, PartialEq, Eq, Debug)]
pub struct SmallScalar {
    v: u64,
}

/// A point of [`SmallCurve`], held as its discrete logarithm.
#[derive(Clone, Copy, PartialEq, Eq, Debug)]
pub struct SmallPoint {
    v: u64,
}

/// A deliberately small instance of [`Curve`] for tests and examples: the
/// additive group of integers modulo [`ORDER`], with generator one. Discrete
/// logarithms in it are trivial, so it offers no security.
#[derive(Clone, Copy, PartialEq, Eq, Debug)]
pub struct SmallCurve;

/// Little-endian encoding of a 32-bit value.
pub open spec fn le_bytes(x: u32) -> Seq<u8> {
    seq![(x & 0xff) as u8, ((x >> 8u32) & 0xff) as u8, ((x >> 16u32) & 0xff) as u8, (x >> 24u32) as u8]
}

fn to_le_bytes(x: u32) -> (r: Vec<u8>)
    ensures
        r@ == le_bytes(x),
{
    let mut r: Vec<u8> = Vec::new();
    r.push((x & 0xff) as u8);
    r.push(((x >> 8u32) & 0xff) as u8);
    r.push(((x >> 16u32) & 0xff) as u8);
    r.push((x >> 24u32) as u8);
    assert(r@ =~= le_bytes(x));
    r
}

proof fn lemma_le_bytes_injective(a: u32, b: u32)
    requires
        le_bytes(a) == le_bytes(b),
    ensures
        a == b,
{
    assert(le_bytes(a)[0] == le_bytes(b)[0]);
    assert(le_bytes(a)[1] == le_bytes(b)[1]);
    assert(le_bytes(a)[2] == le_bytes(b)[2]);
    assert(le_bytes(a)[3] == le_bytes(b)[3]);
    assert(a == b) by (bit_vector)
        requires
            (a & 0xff) as u8 == (b & 0xff) as u8,
            ((a >> 8u32) & 0xff) as u8 == ((b >> 8u32) & 0xff) as u8,
            ((a >> 16u32) & 0xff) as u8 == ((b >> 16u32) & 0xff) as u8,
            (a >> 24u32) as u8 == (b >> 24u32) as u8,
    ;
}

fn add_mod(a: u64, b: u64) -> (r: u64)
    requires
        a < ORDER,
        b < ORDER,
    ensures
        r == (a + b) % (ORDER as int),
{
    (a + b) % ORDER
}

fn mul_mod(a: u64, b: u64) -> (r: u64)
    requires
        a < ORDER,
        b < ORDER,
    ensures
        r == (a * b) % (ORDER as int),
{
    assert(a * b < 0x4000_0000_0000_0000) by (nonlinear_arith)
        requires
            a < 0x8000_0000,
            b < 0x8000_0000,
    ;
    (a * b) % ORDER
}

impl SmallScalar {
    /// The scalar `x mod ORDER`.
    pub fn from_u64(x: u64) -> (r: SmallScalar)
        ensures
            SmallCurve::scalar(r) == (x as int) % (ORDER as int),
    {
        SmallScalar { v: x % ORDER }
    }

    /// The residue in `[0, ORDER)`.
    pub fn value(&self) -> (r: u64)
        ensures
            r == SmallCurve::scalar(*self),
    {
        self.v % ORDER
    }
}

impl SmallPoint {
    /// The discrete logarithm in `[0, ORDER)`.
    pub fn value(&self) -> (r: u64)
        ensures
            r == SmallCurve::log(*self),
    {
        self.v % ORDER
    }
}

impl Curve for SmallCurve {
    type F = SmallScalar;

    type G = SmallPoint;

    open spec fn order() -> nat {
        ORDER as nat
    }

    closed spec fn scalar(f: SmallScalar) -> int {
        (f.v % ORDER) as int
    }

    closed spec fn log(g: SmallPoint) -> int {
        (g.v % ORDER) as int
    }

    open spec fn scalar_len() -> nat {
        4
    }

    open spec fn point_len() -> nat {
        4
    }

    open spec fn scalar_bytes(v: int) -> Seq<u8> {
        le_bytes(v as u32)
    }

    open spec fn point_bytes(v: int) -> Seq<u8> {
        le_bytes(v as u32)
    }

    proof fn lemma_order() {
    }

    proof fn lemma_ranges(f: SmallScalar, g: SmallPoint) {
    }

    proof fn lemma_encodings(a: int, b: int) {
        if le_bytes(a as u32) == le_bytes(b as u32) {
            lemma_le_bytes_injective(a as u32, b as u32);
        }
    }

    fn f_one() -> (r: SmallScalar) {
        SmallScalar { v: 1 }
    }

    fn f_add(a: SmallScalar, b: SmallScalar) -> (r: SmallScalar) {
        let v = add_mod(a.v % ORDER, b.v % ORDER);
        proof {
            lemma_small_mod(v as nat, ORDER as nat);
        }
        SmallScalar { v }
    }

    fn f_mul(a: SmallScalar, b: SmallScalar) -> (r: SmallScalar) {
        let v = mul_mod(a.v % ORDER, b.v % ORDER);
        proof {
            lemma_small_mod(v as nat, ORDER as nat);
        }
        SmallScalar { v }
    }

    fn f_neg(a: SmallScalar) -> (r: SmallScalar) {
        let x = a.v % ORDER;
        let v = (ORDER - x) % ORDER;
        proof {
            lemma_small_mod(v as nat, ORDER as nat);
            lemma_mod_add_multiples_vanish(-(x as int), ORDER as int);
        }
        SmallScalar { v }
    }

    fn generator() -> (r: SmallPoint) {
        SmallPoint { v: 1 }
    }

    fn identity() -> (r: SmallPoint) {
        SmallPoint { v: 0 }
    }

    fn generator_mul(f: SmallScalar) -> (r: SmallPoint) {
        SmallPoint { v: f.v % ORDER }
    }

    fn g_add(a: SmallPoint, b: SmallPoint) -> (r: SmallPoint) {
        let v = add_mod(a.v % ORDER, b.v % ORDER);
        proof {
            lemma_small_mod(v as nat, ORDER as nat);
        }
        SmallPoint { v }
    }

    fn g_mul(g: SmallPoint, f: SmallScalar) -> (r: SmallPoint) {
        let v = mul_mod(g.v % ORDER, f.v % ORDER);
        proof {
            lemma_small_mod(v as nat, ORDER as nat);
        }
        SmallPoint { v }
    }

    fn g_eq(a: SmallPoint, b: SmallPoint) -> (r: bool) {
        a.v % ORDER == b.v % ORDER
    }

    fn multiexp_vartime(scalars: &[SmallScalar], points: &[SmallPoint]) -> (r: SmallPoint) {
        let ghost fs = |f: SmallScalar| SmallCurve::scalar(f);
        let ghost gs = |g: SmallPoint| SmallCurve::log(g);
        let n = scalars.len();
        let mut acc: u64 = 0;
        let mut i: usize = 0;
        while i < n
            invariant
                n == scalars@.len(),
                n == points@.len(),
                i <= n,
                acc < ORDER,
                fs == (|f: SmallScalar| SmallCurve::scalar(f)),
                gs == (|g: SmallPoint| SmallCurve::log(g)),
                acc == weighted_sum(
                    scalars@.take(i as int).map_values(fs),
                    points@.take(i as int).map_values(gs),
                ) % (ORDER as int),
            decreases n - i,
        {
            let term = mul_mod(scalars[i].v % ORDER, points[i].v % ORDER);
            let ghost prev = weighted_sum(
                scalars@.take(i as int).map_values(fs),
                points@.take(i as int).map_values(gs),
            );
            let ghost x = SmallCurve::scalar(scalars@[i as int]);
            let ghost y = SmallCurve::log(points@[i as int]);
            proof {
                assert(scalars@.take(i + 1).map_values(fs) =~= scalars@.take(i as int).map_values(
                    fs,
                ).push(x));
                assert(points@.take(i + 1).map_values(gs) =~= points@.take(i as int).map_values(
                    gs,
                ).push(y));
                lemma_weighted_sum_push(
                    scalars@.take(i as int).map_values(fs),
                    points@.take(i as int).map_values(gs),
                    x,
                    y,
                );
                lemma_mod_bound(x * y, ORDER as int);
                lemma_add_mod_noop(prev, x * y, ORDER as int);
            }
            acc = add_mod(acc, term);
            i = i + 1;
        }
        proof {
            assert(scalars@.take(n as int) =~= scalars@);
            assert(points@.take(n as int) =~= points@);
            lemma_small_mod(acc as nat, ORDER as nat);
        }
        SmallPoint { v: acc }
    }

    fn f_len() -> (r: usize) {
        4
    }

    fn g_len() -> (r: usize) {
        4
    }

    fn f_to_bytes(f: SmallScalar) -> (r: Vec<u8>) {
        to_le_bytes((f.v % ORDER) as u32)
    }

    fn g_to_bytes(g: SmallPoint) -> (r: Vec<u8>) {
        to_le_bytes((g.v % ORDER) as u32)
    }
}

} // verus!
