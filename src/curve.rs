use vstd::prelude::*;

verus! {

/// The algebraic capability the signature engine is written against: a cyclic
/// group of prime order `q`, its scalar field `Z_q`, a fixed generator, fixed
/// length encodings, and multi-scalar multiplication.
///
/// Values are modelled mathematically: a scalar by its residue in `[0, q)`, a
/// point by its discrete logarithm with respect to the generator, also in
/// `[0, q)`. Group addition then adds logarithms and scalar multiplication
/// multiplies them, modulo `q`.
pub trait Curve: Sized {
    /// Scalar field element.
    type F: Copy;

    /// Group element.
    type G: Copy;

    /// The order `q` of the group, which is also the size of the scalar field.
    spec fn order() -> nat;

    /// The residue in `[0, q)` that a scalar stands for.
    spec fn scalar(f: Self::F) -> int;

    /// The discrete logarithm in `[0, q)` of a point, base the generator.
    spec fn log(g: Self::G) -> int;

    /// Length in bytes of an encoded scalar.
    spec fn scalar_len() -> nat;

    /// Length in bytes of an encoded point.
    spec fn point_len() -> nat;

    /// Encoding of the scalar with residue `v`.
    spec fn scalar_bytes(v: int) -> Seq<u8>;

    /// Encoding of the point with discrete logarithm `v`.
    spec fn point_bytes(v: int) -> Seq<u8>;

    /// The order is at least two.
    proof fn lemma_order()
        ensures
            Self::order() > 1,
    ;

    /// Every value lies in `[0, q)`.
    proof fn lemma_ranges(f: Self::F, g: Self::G)
        ensures
            Self::order() > 1,
            0 <= Self::scalar(f) < Self::order(),
            0 <= Self::log(g) < Self::order(),
    ;

    /// Encodings have a fixed length and are injective on `[0, q)`.
    proof fn lemma_encodings(a: int, b: int)
        requires
            0 <= a < Self::order(),
            0 <= b < Self::order(),
        ensures
            Self::scalar_bytes(a).len() == Self::scalar_len(),
            Self::point_bytes(a).len() == Self::point_len(),
            Self::scalar_bytes(a) == Self::scalar_bytes(b) ==> a == b,
            Self::point_bytes(a) == Self::point_bytes(b) ==> a == b,
    ;

    /// The scalar one.
    fn f_one() -> (r: Self::F)
        ensures
            Self::scalar(r) == 1,
    ;

    /// Scalar addition.
    fn f_add(a: Self::F, b: Self::F) -> (r: Self::F)
        ensures
            Self::scalar(r) == (Self::scalar(a) + Self::scalar(b)) % (Self::order() as int),
    ;

    /// Scalar multiplication.
    fn f_mul(a: Self::F, b: Self::F) -> (r: Self::F)
        ensures
            Self::scalar(r) == (Self::scalar(a) * Self::scalar(b)) % (Self::order() as int),
    ;

    /// Scalar negation.
    fn f_neg(a: Self::F) -> (r: Self::F)
        ensures
            Self::scalar(r) == (-Self::scalar(a)) % (Self::order() as int),
    ;

    /// The fixed generator.
    fn generator() -> (r: Self::G)
        ensures
            Self::log(r) == 1,
    ;

    /// The identity element.
    fn identity() -> (r: Self::G)
        ensures
            Self::log(r) == 0,
    ;

    /// Multiplication of the generator by a scalar, through whatever
    /// precomputed table the curve keeps.
    fn generator_mul(f: Self::F) -> (r: Self::G)
        ensures
            Self::log(r) == Self::scalar(f),
    ;

    /// Point addition.
    fn g_add(a: Self::G, b: Self::G) -> (r: Self::G)
        ensures
            Self::log(r) == (Self::log(a) + Self::log(b)) % (Self::order() as int),
    ;

    /// Multiplication of a point by a scalar.
    fn g_mul(g: Self::G, f: Self::F) -> (r: Self::G)
        ensures
            Self::log(r) == (Self::log(g) * Self::scalar(f)) % (Self::order() as int),
    ;

    /// Point equality.
    fn g_eq(a: Self::G, b: Self::G) -> (r: bool)
        ensures
            r == (Self::log(a) == Self::log(b)),
    ;

    /// `sum(scalars[i] * points[i])`, in variable time.
    fn multiexp_vartime(scalars: &[Self::F], points: &[Self::G]) -> (r: Self::G)
        requires
            scalars@.len() == points@.len(),
        ensures
            Self::log(r) == weighted_sum(
                scalars@.map_values(|f: Self::F| Self::scalar(f)),
                points@.map_values(|g: Self::G| Self::log(g)),
            ) % (Self::order() as int),
    ;

    /// Length in bytes of an encoded scalar.
    fn f_len() -> (r: usize)
        ensures
            r == Self::scalar_len(),
    ;

    /// Length in bytes of an encoded point.
    fn g_len() -> (r: usize)
        ensures
            r == Self::point_len(),
    ;

    /// Canonical encoding of a scalar.
    fn f_to_bytes(f: Self::F) -> (r: Vec<u8>)
        ensures
            r@ == Self::scalar_bytes(Self::scalar(f)),
    ;

    /// Canonical encoding of a point.
    fn g_to_bytes(g: Self::G) -> (r: Vec<u8>)
        ensures
            r@ == Self::point_bytes(Self::log(g)),
    ;
}

/// `sum(a[i] * b[i])` over the common prefix of `a` and `b`.
pub open spec fn weighted_sum(a: Seq<int>, b: Seq<int>) -> int
    decreases a.len(),
{
    if a.len() == 0 || b.len() == 0 {
        0
    } else {
        weighted_sum(a.drop_last(), b.take(a.len() - 1)) + a.last() * b[a.len() - 1]
    }
}

/// Appending one term to each sequence adds its product to the sum.
pub proof fn lemma_weighted_sum_push(a: Seq<int>, b: Seq<int>, x: int, y: int)
    requires
        a.len() == b.len(),
    ensures
        weighted_sum(a.push(x), b.push(y)) == weighted_sum(a, b) + x * y,
{
    assert(a.push(x).drop_last() =~= a);
    assert(b.push(y).take(a.len() as int) =~= b);
}

} // verus!
