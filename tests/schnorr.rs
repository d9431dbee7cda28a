use frost::{
    batch_verify, sign, verify, Curve, SchnorrSignature, SmallCurve, SmallPoint, SmallScalar,
    ORDER,
};
use rand_core::{OsRng, RngCore};

type Entry = (u16, SmallPoint, SmallScalar, SchnorrSignature<SmallCurve>);

fn sc(x: u64) -> SmallScalar {
    SmallScalar::from_u64(x)
}

fn entry(id: u16, secret: u64, nonce: u64, challenge: u64) -> Entry {
    let x = sc(secret);
    let c = sc(challenge);
    let sig = sign::<SmallCurve>(x, sc(nonce), c);
    (id, SmallCurve::generator_mul(x), c, sig)
}

fn bump(sig: &SchnorrSignature<SmallCurve>) -> SchnorrSignature<SmallCurve> {
    SchnorrSignature { R: sig.R, s: SmallCurve::f_add(sig.s, SmallCurve::f_one()) }
}

fn random_blinds(n: usize) -> Vec<SmallScalar> {
    (0..n).map(|_| sc(OsRng.next_u64())).collect()
}

#[test]
fn sign_and_verify_concrete_values() {
    let x = sc(7);
    let n = sc(3);
    let c = sc(5);
    let sig = sign::<SmallCurve>(x, n, c);
    assert_eq!(sig.R, SmallCurve::generator_mul(sc(3)));
    assert_eq!(sig.R.value(), 3);
    assert_eq!(sig.s.value(), 38);
    let pk = SmallCurve::generator_mul(x);
    assert!(verify::<SmallCurve>(pk, c, &SchnorrSignature { R: sig.R, s: sc(38) }));
    assert!(!verify::<SmallCurve>(pk, c, &SchnorrSignature { R: sig.R, s: sc(39) }));
}

#[test]
fn sign_reduces_modulo_order() {
    let x = sc(ORDER - 1);
    let sig = sign::<SmallCurve>(x, sc(5), sc(3));
    // 5 + (q - 1) * 3 = 5 - 3 (mod q)
    assert_eq!(sig.s.value(), 2);
    assert!(verify::<SmallCurve>(SmallCurve::generator_mul(x), sc(3), &sig));
}

#[test]
fn signatures_verify_for_many_inputs() {
    for i in 0..50u64 {
        let (x, n, c) = (OsRng.next_u64(), OsRng.next_u64(), OsRng.next_u64());
        let e = entry(i as u16, x, n, c);
        assert!(verify::<SmallCurve>(e.1, e.2, &e.3));
    }
    let zero = entry(0, 0, 0, 0);
    assert!(verify::<SmallCurve>(zero.1, zero.2, &zero.3));
    assert_eq!(zero.1, SmallCurve::identity());
}

#[test]
fn flipping_any_encoded_bit_breaks_verification() {
    let e = entry(1, 1234567, 7654321, 99);
    let bytes = e.3.serialize();
    for bit in 0..32usize {
        let mut s_bytes = [bytes[4], bytes[5], bytes[6], bytes[7]];
        s_bytes[bit / 8] ^= 1 << (bit % 8);
        let s = sc(u32::from_le_bytes(s_bytes) as u64);
        if u32::from_le_bytes(s_bytes) as u64 >= ORDER {
            continue;
        }
        assert!(!verify::<SmallCurve>(e.1, e.2, &SchnorrSignature { R: e.3.R, s }));
        let mut r_bytes = [bytes[0], bytes[1], bytes[2], bytes[3]];
        r_bytes[bit / 8] ^= 1 << (bit % 8);
        let r_val = u32::from_le_bytes(r_bytes) as u64;
        if r_val >= ORDER {
            continue;
        }
        let r = SmallCurve::generator_mul(sc(r_val));
        assert!(!verify::<SmallCurve>(e.1, e.2, &SchnorrSignature { R: r, s: e.3.s }));
    }
}

#[test]
fn serialize_is_point_then_scalar() {
    let sig = sign::<SmallCurve>(sc(7), sc(3), sc(5));
    assert_eq!(sig.serialize(), vec![3, 0, 0, 0, 38, 0, 0, 0]);
    let big = SchnorrSignature::<SmallCurve> { R: SmallCurve::generator_mul(sc(0x0102_0304)), s: sc(ORDER - 1) };
    assert_eq!(big.serialize(), vec![4, 3, 2, 1, 0xfe, 0xff, 0xff, 0x7f]);
    assert_eq!(big.serialize().len(), SmallCurve::g_len() + SmallCurve::f_len());
}

#[test]
fn serialize_distinguishes_signatures() {
    let a = sign::<SmallCurve>(sc(7), sc(3), sc(5));
    let b = bump(&a);
    assert_ne!(a.serialize(), b.serialize());
    let c = SchnorrSignature::<SmallCurve> { R: SmallCurve::generator(), s: a.s };
    assert_ne!(a.serialize(), c.serialize());
}

#[test]
fn batch_names_the_tampered_fourth_entry() {
    let mut entries = vec![entry(1, 11, 21, 31), entry(2, 12, 22, 32), entry(3, 13, 23, 33)];
    let bad = entry(4, 14, 24, 34);
    entries.push((bad.0, bad.1, bad.2, bump(&bad.3)));
    assert_eq!(batch_verify::<SmallCurve>(&[sc(5), sc(6), sc(7)], &entries), Err(4));
    assert_eq!(batch_verify::<SmallCurve>(&random_blinds(3), &entries), Err(4));
}

#[test]
fn batch_accepts_valid_entries() {
    let entries: Vec<Entry> =
        (1..=10u16).map(|i| entry(i, 100 + i as u64, 200 + i as u64, 300 + i as u64)).collect();
    assert_eq!(batch_verify::<SmallCurve>(&random_blinds(9), &entries), Ok(()));
    assert_eq!(batch_verify::<SmallCurve>(&[sc(0); 9], &entries), Ok(()));
}

#[test]
fn batch_names_tampered_entry_at_every_position() {
    for k in 0..5usize {
        let mut entries: Vec<Entry> =
            (0..5u16).map(|i| entry(i + 10, 40 + i as u64, 50 + i as u64, 60 + i as u64)).collect();
        entries[k].3 = bump(&entries[k].3);
        let expected = Err(entries[k].0);
        assert_eq!(batch_verify::<SmallCurve>(&[sc(2), sc(3), sc(4), sc(5)], &entries), expected);
        assert_eq!(batch_verify::<SmallCurve>(&random_blinds(4), &entries), expected);
    }
}

#[test]
fn batch_reports_first_of_several_invalid_entries() {
    let mut entries: Vec<Entry> =
        (1..=4u16).map(|i| entry(i, i as u64, 2 * i as u64, 3 * i as u64)).collect();
    entries[1].3 = bump(&entries[1].3);
    entries[3].3 = bump(&entries[3].3);
    assert_eq!(batch_verify::<SmallCurve>(&[sc(8), sc(9), sc(10)], &entries), Err(2));
}

#[test]
fn batch_single_entry_matches_verify() {
    let good = entry(9, 5, 6, 7);
    assert_eq!(batch_verify::<SmallCurve>(&[], &[good]), Ok(()));
    let bad = (good.0, good.1, good.2, bump(&good.3));
    assert!(!verify::<SmallCurve>(bad.1, bad.2, &bad.3));
    assert_eq!(batch_verify::<SmallCurve>(&[], &[bad]), Err(9));
}

#[test]
fn batch_empty_is_accepted() {
    assert_eq!(batch_verify::<SmallCurve>(&[], &[]), Ok(()));
}

#[test]
fn batch_zero_blind_hides_later_tampering() {
    let mut entries = vec![entry(1, 3, 4, 5), entry(2, 6, 7, 8)];
    entries[1].3 = bump(&entries[1].3);
    assert_eq!(batch_verify::<SmallCurve>(&[sc(0)], &entries), Ok(()));
    assert_eq!(batch_verify::<SmallCurve>(&[sc(1)], &entries), Err(2));
}

#[test]
fn batch_identifier_zero_is_reported() {
    let mut entries = vec![entry(0, 3, 4, 5)];
    entries[0].3 = bump(&entries[0].3);
    assert_eq!(batch_verify::<SmallCurve>(&[], &entries), Err(0));
}

#[test]
fn small_curve_arithmetic() {
    assert_eq!(SmallCurve::f_neg(sc(1)).value(), ORDER - 1);
    assert_eq!(SmallCurve::f_neg(sc(0)).value(), 0);
    assert_eq!(SmallCurve::f_add(sc(ORDER - 1), sc(2)).value(), 1);
    assert_eq!(SmallCurve::f_mul(sc(ORDER - 1), sc(ORDER - 1)).value(), 1);
    assert_eq!(SmallCurve::f_mul(sc(1 << 20), sc(1 << 20)).value(), (1u64 << 40) % ORDER);
    assert_eq!(sc(ORDER).value(), 0);
    assert_eq!(sc(u64::MAX).value(), u64::MAX % ORDER);
    let g = SmallCurve::generator();
    assert_eq!(g.value(), 1);
    assert_eq!(SmallCurve::identity().value(), 0);
    assert_eq!(SmallCurve::g_mul(g, sc(12)).value(), 12);
    assert_eq!(SmallCurve::g_add(SmallCurve::generator_mul(sc(ORDER - 1)), g).value(), 0);
    assert!(SmallCurve::g_eq(SmallCurve::g_mul(g, sc(5)), SmallCurve::generator_mul(sc(5))));
    assert!(!SmallCurve::g_eq(g, SmallCurve::identity()));
    assert_eq!(SmallCurve::f_to_bytes(sc(0x0a0b0c0d)), vec![0x0d, 0x0c, 0x0b, 0x0a]);
    assert_eq!(SmallCurve::g_to_bytes(g), vec![1, 0, 0, 0]);
}

#[test]
fn small_curve_multiexp() {
    let g = SmallCurve::generator();
    let p = [g, SmallCurve::generator_mul(sc(10)), SmallCurve::generator_mul(sc(ORDER - 1))];
    let s = [sc(2), sc(3), sc(4)];
    // 2 + 30 - 4
    assert_eq!(SmallCurve::multiexp_vartime(&s, &p).value(), 28);
    assert_eq!(SmallCurve::multiexp_vartime(&[], &[]), SmallCurve::identity());
}
