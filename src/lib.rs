//! Schnorr signatures over a prime-order group, with randomized batch
//! verification that names the first invalid signature when a batch fails.

mod curve;
mod laws;
mod schnorr;
mod small_curve;

pub use curve::{lemma_weighted_sum_push, weighted_sum, Curve};
pub use laws::{
    lemma_batch_accepts_valid, lemma_batch_empty, lemma_batch_names_tampered, lemma_batch_single,
    lemma_encoding_injective, lemma_sign_then_verify, lemma_tampered_rejected,
};
pub use schnorr::{
    batch_outcome, batch_verify, blind, blinded_sum, culprit_from, defect, encoding,
    is_public_key_of, is_signature_of, is_valid, lemma_valid_iff_defect, sign, verify, BatchEntry,
    SchnorrSignature,
};
pub use small_curve::{le_bytes, SmallCurve, SmallPoint, SmallScalar, ORDER};
