use vstd::prelude::*;
use vstd::arithmetic::div_mod::{
    lemma_add_mod_noop, lemma_mod_equivalence, lemma_mul_mod_noop_right, lemma_small_mod,
};

use crate::curve::Curve;
use crate::schnorr::{
    batch_outcome, blind, blinded_sum, culprit_from, defect, encoding, is_public_key_of,
    is_signature_of, is_valid, lemma_valid_iff_defect, BatchEntry, SchnorrSignature,
};

verus! {

/// A signature made with secret `x` verifies against the public key
/// `generator * x`, whatever the nonce and the challenge.
pub proof fn lemma_sign_then_verify<C: Curve>(
    x: C::F,
    n: C::F,
    c: C::F,
    public_key: C::G,
    sig: SchnorrSignature<C>,
)
    requires
        is_public_key_of::<C>(public_key, x),
        is_signature_of::<C>(sig, x, n, c),
    ensures
        is_valid::<C>(public_key, c, sig),
{
}

/// The encoding of a signature determines its value: equal encodings mean
/// equal commitments and equal responses.
pub proof fn lemma_encoding_injective<C: Curve>(a: SchnorrSignature<C>, b: SchnorrSignature<C>)
    requires
        encoding::<C>(a) == encoding::<C>(b),
    ensures
        C::log(a.R) == C::log(b.R),
        C::scalar(a.s) == C::scalar(b.s),
        encoding::<C>(a).len() == C::point_len() + C::scalar_len(),
{
    C::lemma_ranges(a.s, a.R);
    C::lemma_ranges(b.s, b.R);
    C::lemma_encodings(C::log(a.R), C::log(b.R));
    C::lemma_encodings(C::scalar(a.s), C::scalar(b.s));
    C::lemma_encodings(C::log(b.R), C::log(a.R));
    C::lemma_encodings(C::scalar(b.s), C::scalar(a.s));
    let pa = C::point_bytes(C::log(a.R));
    let pb = C::point_bytes(C::log(b.R));
    let sa = C::scalar_bytes(C::scalar(a.s));
    let sb = C::scalar_bytes(C::scalar(b.s));
    assert((pa + sa).subrange(0, pa.len() as int) =~= pa);
    assert((pb + sb).subrange(0, pb.len() as int) =~= pb);
    assert((pa + sa).subrange(pa.len() as int, (pa + sa).len() as int) =~= sa);
    assert((pb + sb).subrange(pb.len() as int, (pb + sb).len() as int) =~= sb);
}

/// Changing the encoding of only the response, or of only the commitment, of
/// a valid signature makes it fail verification.
pub proof fn lemma_tampered_rejected<C: Curve>(
    public_key: C::G,
    challenge: C::F,
    sig: SchnorrSignature<C>,
    forged: SchnorrSignature<C>,
)
    requires
        is_valid::<C>(public_key, challenge, sig),
        encoding::<C>(forged) != encoding::<C>(sig),
        C::point_bytes(C::log(forged.R)) == C::point_bytes(C::log(sig.R)) || C::scalar_bytes(
            C::scalar(forged.s),
        ) == C::scalar_bytes(C::scalar(sig.s)),
    ensures
        !is_valid::<C>(public_key, challenge, forged),
{
    let q = C::order() as int;
    C::lemma_ranges(sig.s, sig.R);
    C::lemma_ranges(forged.s, forged.R);
    C::lemma_encodings(C::log(forged.R), C::log(sig.R));
    C::lemma_encodings(C::scalar(forged.s), C::scalar(sig.s));
    let ac = C::log(public_key) * C::scalar(challenge);
    let r1 = C::log(sig.R);
    let r2 = C::log(forged.R);
    if C::point_bytes(r2) == C::point_bytes(r1) {
        assert(r1 == r2);
        assert(C::scalar(forged.s) != C::scalar(sig.s));
    } else {
        assert(C::scalar(forged.s) == C::scalar(sig.s));
        if is_valid::<C>(public_key, challenge, forged) {
            lemma_mod_equivalence(r1 + ac, r2 + ac, q);
            assert((r1 - r2) % q == 0);
            assert(r1 == r2) by (nonlinear_arith)
                requires
                    0 <= r1 < q,
                    0 <= r2 < q,
                    (r1 - r2) % q == 0,
            ;
        }
    }
}

proof fn lemma_zero_defect_term(u: int, d: int, q: int)
    requires
        q > 0,
        d % q == 0,
    ensures
        (u * d) % q == 0,
{
    lemma_mul_mod_noop_right(u, d, q);
    assert(u * 0 == 0);
    lemma_small_mod(0, q as nat);
}

proof fn lemma_sum_with_zero(x: int, y: int, q: int)
    requires
        q > 0,
        y % q == 0,
    ensures
        (x + y) % q == x % q,
{
    lemma_add_mod_noop(x, y, q);
    lemma_add_mod_noop(x, 0, q);
}

/// Over valid entries only, the blinded sum vanishes modulo `q`, and so does
/// it on any prefix.
proof fn lemma_valid_prefix_sum<C: Curve>(blinds: Seq<C::F>, entries: Seq<BatchEntry<C>>, n: int)
    requires
        0 <= n <= entries.len(),
        forall|i: int| 0 <= i < n ==> is_valid::<C>(#[trigger] entries[i].1, entries[i].2, entries[i].3),
    ensures
        blinded_sum::<C>(blinds, entries, n) % (C::order() as int) == 0,
    decreases n,
{
    C::lemma_order();
    let q = C::order() as int;
    if n == 0 {
        lemma_small_mod(0, q as nat);
    } else {
        lemma_valid_prefix_sum::<C>(blinds, entries, n - 1);
        assert(is_valid::<C>(entries[n - 1].1, entries[n - 1].2, entries[n - 1].3));
        lemma_valid_iff_defect::<C>(entries[n - 1]);
        lemma_zero_defect_term(blind::<C>(blinds, n - 1), defect::<C>(entries[n - 1]), q);
        lemma_sum_with_zero(
            blinded_sum::<C>(blinds, entries, n - 1),
            blind::<C>(blinds, n - 1) * defect::<C>(entries[n - 1]),
            q,
        );
    }
}

/// A batch whose entries all verify is accepted, whatever the blinding factors.
pub proof fn lemma_batch_accepts_valid<C: Curve>(blinds: Seq<C::F>, entries: Seq<BatchEntry<C>>)
    requires
        forall|i: int|
            0 <= i < entries.len() ==> is_valid::<C>(
                #[trigger] entries[i].1,
                entries[i].2,
                entries[i].3,
            ),
    ensures
        batch_outcome::<C>(blinds, entries) == Ok::<(), u16>(()),
{
    lemma_valid_prefix_sum::<C>(blinds, entries, entries.len() as int);
}

/// With every entry but entry `k` valid, the blinded sum over any prefix is
/// congruent to entry `k`'s blinded defect once the prefix covers `k`, and to
/// zero before.
proof fn lemma_one_bad_prefix_sum<C: Curve>(
    blinds: Seq<C::F>,
    entries: Seq<BatchEntry<C>>,
    k: int,
    n: int,
)
    requires
        0 <= k < entries.len(),
        0 <= n <= entries.len(),
        forall|i: int|
            0 <= i < entries.len() && i != k ==> is_valid::<C>(
                #[trigger] entries[i].1,
                entries[i].2,
                entries[i].3,
            ),
    ensures
        blinded_sum::<C>(blinds, entries, n) % (C::order() as int) == (if n > k {
            blind::<C>(blinds, k) * defect::<C>(entries[k])
        } else {
            0
        }) % (C::order() as int),
    decreases n,
{
    C::lemma_order();
    let q = C::order() as int;
    if n == 0 {
    } else {
        lemma_one_bad_prefix_sum::<C>(blinds, entries, k, n - 1);
        let prev = blinded_sum::<C>(blinds, entries, n - 1);
        let term = blind::<C>(blinds, n - 1) * defect::<C>(entries[n - 1]);
        if n - 1 == k {
            lemma_small_mod(0, q as nat);
            lemma_add_mod_noop(prev, term, q);
            lemma_add_mod_noop(0, term, q);
        } else {
            assert(is_valid::<C>(entries[n - 1].1, entries[n - 1].2, entries[n - 1].3));
            lemma_valid_iff_defect::<C>(entries[n - 1]);
            lemma_zero_defect_term(blind::<C>(blinds, n - 1), defect::<C>(entries[n - 1]), q);
            lemma_sum_with_zero(prev, term, q);
        }
    }
}

proof fn lemma_culprit_skips_valid<C: Curve>(entries: Seq<BatchEntry<C>>, k: int, i: int)
    requires
        0 <= i <= k < entries.len(),
        forall|j: int|
            0 <= j < k ==> is_valid::<C>(#[trigger] entries[j].1, entries[j].2, entries[j].3),
    ensures
        culprit_from::<C>(entries, i) == culprit_from::<C>(entries, k),
    decreases k - i,
{
    if i < k {
        assert(is_valid::<C>(entries[i].1, entries[i].2, entries[i].3));
        lemma_culprit_skips_valid::<C>(entries, k, i + 1);
    }
}

/// A batch of valid entries with one tampered entry `k`, at any position, is
/// rejected with `k`'s identifier, unless the blinding factor drawn for `k`
/// cancels its defect modulo `q` (never the case for the first entry, whose
/// factor is one).
pub proof fn lemma_batch_names_tampered<C: Curve>(
    blinds: Seq<C::F>,
    entries: Seq<BatchEntry<C>>,
    k: int,
)
    requires
        0 <= k < entries.len(),
        forall|i: int|
            0 <= i < entries.len() && i != k ==> is_valid::<C>(
                #[trigger] entries[i].1,
                entries[i].2,
                entries[i].3,
            ),
        !is_valid::<C>(entries[k].1, entries[k].2, entries[k].3),
        k == 0 || (blind::<C>(blinds, k) * defect::<C>(entries[k])) % (C::order() as int) != 0,
    ensures
        batch_outcome::<C>(blinds, entries) == Err::<(), u16>(entries[k].0),
{
    lemma_one_bad_prefix_sum::<C>(blinds, entries, k, entries.len() as int);
    lemma_valid_iff_defect::<C>(entries[k]);
    assert(blind::<C>(blinds, 0) * defect::<C>(entries[0]) == defect::<C>(entries[0]));
    lemma_culprit_skips_valid::<C>(entries, k, 0);
}

/// Batch verification of a single entry answers as `verify` does on it.
pub proof fn lemma_batch_single<C: Curve>(blinds: Seq<C::F>, e: BatchEntry<C>)
    ensures
        batch_outcome::<C>(blinds, seq![e]) == (if is_valid::<C>(e.1, e.2, e.3) {
            Ok::<(), u16>(())
        } else {
            Err::<(), u16>(e.0)
        }),
{
    let entries = seq![e];
    lemma_valid_iff_defect::<C>(e);
    assert(entries[0] == e);
    assert(blinded_sum::<C>(blinds, entries, 0) == 0);
    assert(blind::<C>(blinds, 0) * defect::<C>(e) == defect::<C>(e));
    assert(blinded_sum::<C>(blinds, entries, 1) == defect::<C>(e));
    assert(culprit_from::<C>(entries, 1) == 0);
}

/// An empty batch is accepted.
pub proof fn lemma_batch_empty<C: Curve>(blinds: Seq<C::F>)
    ensures
        batch_outcome::<C>(blinds, Seq::<BatchEntry<C>>::empty()) == Ok::<(), u16>(()),
{
    C::lemma_order();
    lemma_small_mod(0, C::order());
}

} // verus!
