use vstd::prelude::*;
use vstd::arithmetic::div_mod::{
    lemma_add_mod_noop, lemma_add_mod_noop_right, lemma_fundamental_div_mod, lemma_mod_equivalence,
    lemma_mod_multiples_basic, lemma_mul_mod_noop_left, lemma_small_mod,
};

use crate::curve::{lemma_weighted_sum_push, weighted_sum, Curve};

verus! {

/// A Schnorr signature: the prover's nonce commitment `R` and the response `s`.
#[allow(non_snake_case)]
#[derive(Clone, Copy, PartialEq, Eq, Debug)]
pub struct SchnorrSignature<C: Curve> {
    pub R: C::G,
    pub s: C::F,
}

/// The canonical encoding of a signature: the encoding of `R` followed by the
/// encoding of `s`.
pub open spec fn encoding<C: Curve>(sig: SchnorrSignature<C>) -> Seq<u8> {
    C::point_bytes(C::log(sig.R)) + C::scalar_bytes(C::scalar(sig.s))
}

/// `sig` is what signing with secret `x`, nonce `n` and challenge `c` yields:
/// `R = generator * n` and `s = n + x * c`.
pub open spec fn is_signature_of<C: Curve>(
    sig: SchnorrSignature<C>,
    x: C::F,
    n: C::F,
    c: C::F,
) -> bool {
    &&& C::log(sig.R) == C::scalar(n)
    &&& C::scalar(sig.s) == (C::scalar(n) + C::scalar(x) * C::scalar(c)) % (C::order() as int)
}

/// `public_key` is `generator * x`.
pub open spec fn is_public_key_of<C: Curve>(public_key: C::G, x: C::F) -> bool {
    C::log(public_key) == C::scalar(x)
}

/// The verification identity `generator * s == R + public_key * challenge`.
pub open spec fn is_valid<C: Curve>(
    public_key: C::G,
    challenge: C::F,
    sig: SchnorrSignature<C>,
) -> bool {
    C::scalar(sig.s) == (C::log(sig.R) + C::log(public_key) * C::scalar(challenge)) % (
    C::order() as int)
}

impl<C: Curve> SchnorrSignature<C> {
    /// The canonical encoding: `R`'s point encoding, then `s`'s scalar encoding.
    pub fn serialize(&self) -> (r: Vec<u8>)
        ensures
            r@ == encoding(*self),
            r@.len() == C::point_len() + C::scalar_len(),
    {
        let mut res = C::g_to_bytes(self.R);
        let mut s_bytes = C::f_to_bytes(self.s);
        res.append(&mut s_bytes);
        proof {
            C::lemma_ranges(self.s, self.R);
            C::lemma_encodings(C::log(self.R), C::scalar(self.s));
            C::lemma_encodings(C::scalar(self.s), C::log(self.R));
        }
        res
    }
}

/// Signs: `R = generator * nonce`, `s = nonce + private_key * challenge`.
#[allow(non_snake_case)]
pub fn sign<C: Curve>(private_key: C::F, nonce: C::F, challenge: C::F) -> (r: SchnorrSignature<C>)
    ensures
        is_signature_of(r, private_key, nonce, challenge),
{
    let R = C::generator_mul(nonce);
    let prod = C::f_mul(private_key, challenge);
    let s = C::f_add(nonce, prod);
    proof {
        C::lemma_ranges(nonce, R);
        lemma_add_mod_noop_right(
            C::scalar(nonce),
            C::scalar(private_key) * C::scalar(challenge),
            C::order() as int,
        );
    }
    SchnorrSignature { R, s }
}

/// Checks `generator * s == R + public_key * challenge`.
pub fn verify<C: Curve>(public_key: C::G, challenge: C::F, signature: &SchnorrSignature<C>) -> (r:
    bool)
    ensures
        r == is_valid(public_key, challenge, *signature),
{
    let lhs = C::generator_mul(signature.s);
    let rhs = C::g_add(signature.R, C::g_mul(public_key, challenge));
    proof {
        C::lemma_ranges(signature.s, public_key);
        lemma_add_mod_noop_right(
            C::log(signature.R),
            C::log(public_key) * C::scalar(challenge),
            C::order() as int,
        );
    }
    C::g_eq(lhs, rhs)
}

/// An entry of a batch: caller-assigned identifier, public key, challenge and
/// signature.
pub type BatchEntry<C> = (u16, <C as Curve>::G, <C as Curve>::F, SchnorrSignature<C>);

/// How far an entry is from satisfying its identity, `R + c * A - s`, over
/// discrete logarithms; it is valid exactly when this is zero modulo `q`.
pub open spec fn defect<C: Curve>(e: BatchEntry<C>) -> int {
    C::log(e.3.R) + C::log(e.1) * C::scalar(e.2) - C::scalar(e.3.s)
}

/// The blinding factor of entry `i`: one for the first entry, `blinds[i - 1]`
/// for every later one.
pub open spec fn blind<C: Curve>(blinds: Seq<C::F>, i: int) -> int {
    if i == 0 {
        1
    } else {
        C::scalar(blinds[i - 1])
    }
}

/// `sum(blind(i) * defect(entries[i]))` over the first `n` entries.
pub open spec fn blinded_sum<C: Curve>(blinds: Seq<C::F>, entries: Seq<BatchEntry<C>>, n: int) -> int
    decreases n,
{
    if n <= 0 {
        0
    } else {
        blinded_sum(blinds, entries, n - 1) + blind::<C>(blinds, n - 1) * defect::<C>(entries[n - 1])
    }
}

/// The identifier of the first entry at or after `i` that fails its own
/// check, or `0` when none does.
pub open spec fn culprit_from<C: Curve>(entries: Seq<BatchEntry<C>>, i: int) -> u16
    decreases entries.len() - i,
{
    if i < 0 || i >= entries.len() {
        0
    } else if !is_valid::<C>(entries[i].1, entries[i].2, entries[i].3) {
        entries[i].0
    } else {
        culprit_from(entries, i + 1)
    }
}

/// What batch verification returns for the given blinding factors: success
/// when the blinded sum vanishes modulo `q`, else the identifier of the first
/// individually invalid entry (`0` when there is none).
pub open spec fn batch_outcome<C: Curve>(blinds: Seq<C::F>, entries: Seq<BatchEntry<C>>) -> Result<
    (),
    u16,
> {
    if blinded_sum(blinds, entries, entries.len() as int) % (C::order() as int) == 0 {
        Ok(())
    } else {
        Err(culprit_from(entries, 0))
    }
}

/// An entry is valid exactly when its defect vanishes modulo `q`.
pub proof fn lemma_valid_iff_defect<C: Curve>(e: BatchEntry<C>)
    ensures
        is_valid::<C>(e.1, e.2, e.3) <==> defect::<C>(e) % (C::order() as int) == 0,
{
    let q = C::order() as int;
    C::lemma_ranges(e.3.s, e.3.R);
    let v = C::log(e.3.R) + C::log(e.1) * C::scalar(e.2);
    let s = C::scalar(e.3.s);
    lemma_small_mod(s as nat, q as nat);
    lemma_mod_equivalence(v, s, q);
}

/// The three multiexponentiation terms of one entry add up to its blinded
/// defect, modulo `q`.
proof fn lemma_entry_terms(q: int, u: int, r: int, s: int, c: int, a: int, t2: int, t3: int)
    requires
        q > 0,
        t2 == ((-s) % q) * u % q,
        t3 == (c * u) % q,
    ensures
        (u * r + t2 * 1 + t3 * a - u * (r + a * c - s)) % q == 0,
{
    lemma_mul_mod_noop_left(-s, u, q);
    lemma_fundamental_div_mod(-s * u, q);
    lemma_fundamental_div_mod(c * u, q);
    let k2 = (-s * u) / q;
    let k3 = (c * u) / q;
    assert(t3 * a == c * u * a - q * k3 * a) by (nonlinear_arith)
        requires
            t3 == c * u - q * k3,
    ;
    assert(u * (r + a * c - s) == u * r + u * (a * c) - u * s) by (nonlinear_arith);
    assert(c * u * a == u * (a * c)) by (nonlinear_arith);
    assert(-s * u == -(u * s)) by (nonlinear_arith);
    assert((-k2 - k3 * a) * q == -(q * k2) - q * k3 * a) by (nonlinear_arith);
    assert(t2 == -s * u - q * k2);
    assert(t3 == c * u - q * k3);
    assert(u * r + t2 * 1 + t3 * a - u * (r + a * c - s) == (-k2 - k3 * a) * q);
    lemma_mod_multiples_basic(-k2 - k3 * a, q);
}

proof fn lemma_mod_sum_zero(x: int, y: int, q: int)
    requires
        q > 0,
        x % q == 0,
        y % q == 0,
    ensures
        (x + y) % q == 0,
{
    lemma_add_mod_noop(x, y, q);
    lemma_small_mod(0, q as nat);
}

/// Verifies a batch of signatures with one randomized multiexponentiation.
///
/// Entry `i` is scaled by `blind(i)`: one for the first entry, `blinds[i - 1]`
/// after it (the caller draws these uniformly at random). When the scaled
/// identities do not add up to the identity element, every entry is checked on
/// its own in order, and the identifier of the first failing one is returned,
/// or `0` if none fails.
pub fn batch_verify<C: Curve>(blinds: &[C::F], triplets: &[(u16, C::G, C::F, SchnorrSignature<C>)]) -> (r:
    Result<(), u16>)
    requires
        triplets@.len() <= blinds@.len() + 1,
    ensures
        r == batch_outcome::<C>(blinds@, triplets@),
{
    let ghost q = C::order() as int;
    let ghost fs = |f: C::F| C::scalar(f);
    let ghost gs = |g: C::G| C::log(g);
    let mut scalars: Vec<C::F> = Vec::new();
    let mut points: Vec<C::G> = Vec::new();
    let n = triplets.len();
    let mut i: usize = 0;
    proof {
        C::lemma_order();
        lemma_small_mod(0, q as nat);
    }
    while i < n
        invariant
            n == triplets@.len(),
            n <= blinds@.len() + 1,
            i <= n,
            q == C::order() as int,
            q > 1,
            fs == (|f: C::F| C::scalar(f)),
            gs == (|g: C::G| C::log(g)),
            scalars@.len() == 3 * i,
            points@.len() == 3 * i,
            (weighted_sum(scalars@.map_values(fs), points@.map_values(gs)) - blinded_sum::<C>(
                blinds@,
                triplets@,
                i as int,
            )) % q == 0,
        decreases n - i,
    {
        let triple = &triplets[i];
        let u = if i == 0 {
            C::f_one()
        } else {
            blinds[i - 1]
        };
        let t2 = C::f_mul(C::f_neg(triple.3.s), u);
        let t3 = if i == 0 {
            triple.2
        } else {
            C::f_mul(triple.2, u)
        };
        let gen = C::generator();
        let ghost old_s = scalars@;
        let ghost old_p = points@;
        // uR
        scalars.push(u);
        points.push(triple.3.R);
        // -usG
        scalars.push(t2);
        points.push(gen);
        // ucA
        scalars.push(t3);
        points.push(triple.1);
        proof {
            C::lemma_ranges(triple.2, triple.1);
            let su = C::scalar(u);
            let r = C::log(triple.3.R);
            let a = C::log(triple.1);
            let c = C::scalar(triple.2);
            let s = C::scalar(triple.3.s);
            assert(su == blind::<C>(blinds@, i as int));
            if i == 0 {
                lemma_small_mod(c as nat, q as nat);
                assert(c * 1 == c);
            }
            assert(C::scalar(t3) == (c * su) % q);
            assert(scalars@ =~= old_s.push(u).push(t2).push(t3));
            assert(points@ =~= old_p.push(triple.3.R).push(gen).push(triple.1));
            assert(scalars@.map_values(fs) =~= old_s.map_values(fs).push(su).push(
                C::scalar(t2),
            ).push(C::scalar(t3)));
            assert(points@.map_values(gs) =~= old_p.map_values(gs).push(r).push(1).push(a));
            lemma_weighted_sum_push(old_s.map_values(fs), old_p.map_values(gs), su, r);
            lemma_weighted_sum_push(
                old_s.map_values(fs).push(su),
                old_p.map_values(gs).push(r),
                C::scalar(t2),
                1,
            );
            lemma_weighted_sum_push(
                old_s.map_values(fs).push(su).push(C::scalar(t2)),
                old_p.map_values(gs).push(r).push(1),
                C::scalar(t3),
                a,
            );
            lemma_entry_terms(q, su, r, s, c, a, C::scalar(t2), C::scalar(t3));
            let prev = weighted_sum(old_s.map_values(fs), old_p.map_values(gs)) - blinded_sum::<C>(
                blinds@,
                triplets@,
                i as int,
            );
            let step = su * r + C::scalar(t2) * 1 + C::scalar(t3) * a - su * (r + a * c - s);
            lemma_mod_sum_zero(prev, step, q);
        }
        i = i + 1;
    }
    let total = C::multiexp_vartime(scalars.as_slice(), points.as_slice());
    let identity = C::identity();
    proof {
        lemma_mod_equivalence(
            weighted_sum(scalars@.map_values(fs), points@.map_values(gs)),
            blinded_sum::<C>(blinds@, triplets@, n as int),
            q,
        );
    }
    if C::g_eq(total, identity) {
        Ok(())
    } else {
        let mut j: usize = 0;
        while j < n
            invariant
                n == triplets@.len(),
                j <= n,
                culprit_from::<C>(triplets@, 0) == culprit_from::<C>(triplets@, j as int),
                blinded_sum::<C>(blinds@, triplets@, n as int) % (C::order() as int) != 0,
            decreases n - j,
        {
            let triple = &triplets[j];
            if !verify::<C>(triple.1, triple.2, &triple.3) {
                assert(culprit_from::<C>(triplets@, j as int) == triple.0);
                return Err(triple.0);
            }
            j = j + 1;
        }
        Err(0)
    }
}

} // verus!
