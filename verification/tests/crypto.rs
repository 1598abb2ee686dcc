use zkbft::crypto::{
    generate_keypair, generate_production_keypair, Digest, Error, ProofWithPublicInputs, PublicKey,
    SecretKey, Signature, Transaction,
};
use zkbft::field::ORDER;
use rand::SeedableRng;

fn counting_bytes() -> [u8; 32] {
    let mut b = [0u8; 32];
    for i in 0..32 {
        b[i] = i as u8 + 1;
    }
    b
}

#[test]
fn test_txn() {
    let txn = Transaction::default();
    println!("txn: {:?}", txn)
}

#[test]
fn default_transaction_shape() {
    let txn = Transaction::default();
    assert_eq!(txn.from.len(), 68);
    assert_eq!(txn.proof.len(), 16581);
    assert_eq!(txn.payload, vec![0u64]);
    assert_eq!(txn.snap, [0u64; 4]);
    assert_eq!(txn.to, [0u64; 4]);
    assert_eq!(txn.amount, 0);
    assert_eq!(txn.gas, 0);
    assert!(txn.from.iter().all(|x| *x == 0));
}

#[test]
fn digest_to_field_reads_little_endian_chunks() {
    let d = Digest(counting_bytes());
    let e = d.to_field();
    assert_eq!(e[0], u64::from_le_bytes([1, 2, 3, 4, 5, 6, 7, 8]));
    assert_eq!(e[3], u64::from_le_bytes([25, 26, 27, 28, 29, 30, 31, 32]));
}

#[test]
fn digest_field_round_trip() {
    let d = Digest(counting_bytes());
    assert!(Digest::from_field(d.to_field()) == d);
    let k = PublicKey(counting_bytes());
    assert!(PublicKey::from_field(k.to_field()) == k);
}

#[test]
fn from_field_stores_canonical_elements() {
    let d = Digest::from_field([ORDER, ORDER + 5, 7, u64::MAX]);
    assert_eq!(d.to_field(), [0, 5, 7, u64::MAX - ORDER]);
    assert_eq!(&d.0[0..8], &[0u8; 8]);
    assert_eq!(&d.0[8..16], &[5, 0, 0, 0, 0, 0, 0, 0]);
}

#[test]
fn digest_basics() {
    let d = Digest(counting_bytes());
    assert_eq!(d.size(), 32);
    assert_eq!(d.to_vec(), counting_bytes().to_vec());
    assert_eq!(d.as_ref(), &counting_bytes()[..]);
    assert!(Digest::default() == Digest([0u8; 32]));
    assert!(!(Digest::default() == d));
}

#[test]
fn digest_try_from_needs_exactly_32_bytes() {
    let bytes = counting_bytes();
    let d = Digest::try_from(&bytes[..]).ok().unwrap();
    assert_eq!(d.0, bytes);
    assert!(Digest::try_from(&bytes[..31]).is_err());
    let longer = [0u8; 33];
    assert!(Digest::try_from(&longer[..]).is_err());
}

#[test]
fn digest_texts() {
    let d = Digest::default();
    assert_eq!(d.debug_string(), "AAAAAAAAAAAAAAAAAAAAAAAAAAAAAAAAAAAAAAAAAAA=");
    assert_eq!(d.display_string(), "AAAAAAAAAAAAAAAA");
}

#[test]
fn public_key_base64_round_trip() {
    let k = PublicKey(counting_bytes());
    let text = k.encode_base32();
    assert_eq!(text.len(), 44);
    let back = PublicKey::decode_base32(&text).ok().unwrap();
    assert!(back == k);
    assert_eq!(k.display_string(), text[..16].to_string());
    assert_eq!(k.debug_string(), text);
}

#[test]
fn public_key_decoding_takes_first_32_bytes() {
    let mut bytes = counting_bytes().to_vec();
    bytes.extend_from_slice(&[9, 9, 9]);
    #[allow(deprecated)]
    let text = base64::encode(&bytes);
    let k = PublicKey::decode_base32(&text).ok().unwrap();
    assert_eq!(k.0, counting_bytes());
}

#[test]
fn public_key_decoding_rejects_and_flags() {
    assert!(PublicKey::decode_base32("not base64!").is_err());
    assert!(matches!(PublicKey::try_decode_base32("not base64!"), Some(Err(_))));
    // Three bytes only: too short for a key, which the checked form reports as `None`.
    assert!(PublicKey::try_decode_base32("AAAA").is_none());
    let k = PublicKey::try_decode_base32(&PublicKey::default().encode_base32());
    assert!(matches!(k, Some(Ok(x)) if x == PublicKey::default()));
}

#[test]
fn secret_key_round_trips() {
    let s = SecretKey::from_bytes(counting_bytes());
    let text = s.encode_base32();
    let back = SecretKey::decode_base32(&text).ok().unwrap();
    assert_eq!(back.encode_base32(), text);
    assert_eq!(back.to_field(), PublicKey(counting_bytes()).to_field());
    let c = s.clone();
    assert_eq!(c.encode_base32(), text);
    let f = SecretKey::from_field([1, 2, 3, 4]);
    assert_eq!(f.to_field(), [1, 2, 3, 4]);
    assert!(SecretKey::try_decode_base32("AAAA").is_none());
}

#[test]
fn keypairs_pack_the_derived_elements() {
    let (name, secret) = generate_production_keypair(|s: &SecretKey| {
        let e = s.to_field();
        [e[0] % ORDER, 1, 2, 3]
    });
    let expected = secret.to_field()[0] % ORDER;
    assert_eq!(name.to_field(), [expected, 1, 2, 3]);

    let rng = rand::rngs::StdRng::from_seed([0; 32]);
    let (a, sa) = generate_keypair(rng.clone(), |_s: &SecretKey| [7, 7, 7, 7]);
    let (_b, sb) = generate_keypair(rng, |_s: &SecretKey| [7, 7, 7, 7]);
    assert_eq!(a.to_field(), [7, 7, 7, 7]);
    assert_eq!(sa.encode_base32(), sb.encode_base32());
}

fn signature_with(inputs: Vec<u64>) -> Signature {
    Signature::new(ProofWithPublicInputs { proof: vec![1, 2, 3], public_inputs: inputs })
}

#[test]
fn signature_needs_four_public_inputs() {
    let s = signature_with(vec![1, 2, 3]);
    match s.verify(Ok(()), &Digest::default()) {
        Err(Error::InvalidPublicInputsLength { expected, found }) => {
            assert_eq!(expected, 4);
            assert_eq!(found, 3);
        }
        _ => panic!("expected a length error"),
    }
}

#[test]
fn signature_must_sign_the_digest() {
    let s = signature_with(vec![1, 2, 3, 4]);
    assert!(matches!(s.verify(Ok(()), &Digest::default()), Err(Error::SecretHashMismatch)));
    let d = Digest::from_field([1, 2, 3, 4]);
    assert!(s.verify(Ok(()), &d).is_ok());
    match s.verify(Err("bad proof".to_string()), &d) {
        Err(Error::ProofVerificationFailed(m)) => assert_eq!(m, "bad proof"),
        _ => panic!("expected the verifier's failure"),
    }
    // Public inputs are compared by their canonical form.
    let s2 = signature_with(vec![ORDER + 1, 2, 3, 4]);
    assert!(s2.verify(Ok(()), &Digest::from_field([1, 2, 3, 4])).is_ok());
}

#[test]
fn signature_keeps_its_proof() {
    let s = signature_with(vec![5, 6, 7, 8]);
    let c = s.clone();
    assert_eq!(c.get_proof().public_inputs, vec![5, 6, 7, 8]);
    assert_eq!(c.get_proof().proof, vec![1, 2, 3]);
}

#[test]
fn transaction_parts_as_fixed_arrays() {
    let mut txn = Transaction::default();
    txn.from = (0..68u64).collect();
    txn.proof[16580] = 9;
    let from = txn.get_from();
    assert_eq!(from[0], 0);
    assert_eq!(from[67], 67);
    let proof = txn.get_proof();
    assert_eq!(proof.len(), 16581);
    assert_eq!(proof[16580], 9);
    assert_eq!(proof[0], 0);
}

#[test]
fn checked_digest_elements() {
    let d = Digest::from_field([1, 2, 3, 4]);
    assert_eq!(d.try_to_field(), Some([1, 2, 3, 4]));
    let mut raw = [0u8; 32];
    raw[8..16].copy_from_slice(&ORDER.to_le_bytes());
    assert_eq!(Digest(raw).try_to_field(), None);
    raw[8..16].copy_from_slice(&(ORDER - 1).to_le_bytes());
    assert_eq!(Digest(raw).try_to_field(), Some([0, ORDER - 1, 0, 0]));
}
