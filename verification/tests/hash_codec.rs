//! The hash family, the point codec and the small codecs around them.

use ark_crypto_primitives::crh::{CRHScheme, TwoToOneCRHScheme};
use ark_ec::AffineRepr;
use ark_ff::{BigInteger, PrimeField};

type RefCRH = ark_crypto_primitives::crh::pedersen::CRH<
    ark_ed_on_bls12_381::EdwardsProjective,
    RefWindow,
>;
type RefTwoToOne = ark_crypto_primitives::crh::pedersen::TwoToOneCRH<
    ark_ed_on_bls12_381::EdwardsProjective,
    RefWindow,
>;

#[derive(Clone)]
struct RefWindow;

impl ark_crypto_primitives::crh::pedersen::Window for RefWindow {
    const WINDOW_SIZE: usize = 4;
    const NUM_WINDOWS: usize = 256;
}

fn reference_params(
    blob: &[u8],
) -> ark_crypto_primitives::crh::pedersen::Parameters<ark_ed_on_bls12_381::EdwardsProjective> {
    let mut generators = Vec::new();
    for w in 0..256 {
        let mut row = Vec::new();
        for j in 0..4 {
            let rec = &blob[(4 * w + j) * 128..(4 * w + j + 1) * 128];
            row.push(ark_ed_on_bls12_381::EdwardsProjective::new_unchecked(
                ark_ed_on_bls12_381::Fq::from_le_bytes_mod_order(&rec[0..32]),
                ark_ed_on_bls12_381::Fq::from_le_bytes_mod_order(&rec[32..64]),
                ark_ed_on_bls12_381::Fq::from_le_bytes_mod_order(&rec[64..96]),
                ark_ed_on_bls12_381::Fq::from_le_bytes_mod_order(&rec[96..128]),
            ));
        }
        generators.push(row);
    }
    ark_crypto_primitives::crh::pedersen::Parameters { generators }
}

fn encode_reference_point(a: &ark_ed_on_bls12_381::EdwardsAffine) -> Vec<u8> {
    let mut bits = a.x.into_bigint().to_bits_le();
    bits.extend(a.y.into_bigint().to_bits_le());
    zkret::bits::encode_coord_bits(&bits)
}

fn push_raw(blob: &mut Vec<u8>, p: &ark_ed_on_bls12_381::EdwardsProjective) {
    blob.extend(p.x.into_bigint().to_bytes_le());
    blob.extend(p.y.into_bigint().to_bytes_le());
    blob.extend(p.t.into_bigint().to_bytes_le());
    blob.extend(p.z.into_bigint().to_bytes_le());
}

fn params_blob(offset: u64) -> Vec<u8> {
    let g = ark_ed_on_bls12_381::EdwardsAffine::generator();
    let mut p = ark_ed_on_bls12_381::EdwardsProjective::from(g) * ark_ed_on_bls12_381::Fr::from(offset);
    let step = ark_ed_on_bls12_381::EdwardsProjective::from(g);
    let mut blob = Vec::new();
    for _ in 0..1024 {
        push_raw(&mut blob, &p);
        p += step;
    }
    blob
}

fn make_hash() -> zkret::hash::Hash {
    zkret::hash::Hash::from_params(&params_blob(3), &params_blob(1000)).unwrap()
}

#[test]
fn naive_test() {
    let hash = make_hash();
    let secret_key = vec![1u8; 32];
    let nullifier = vec![2u8; 32];
    let aux_sk = hash.h2(&secret_key, &nullifier);
    let pub_key = hash.h1(&aux_sk);
    println!("pub_key: {:?}", pub_key);
    println!("pub_key.len(): {:?}", pub_key.len());
}

#[test]
fn h2_composes_with_h2c() {
    let hash = make_hash();
    let a = vec![7u8; 40];
    let b = vec![9u8; 17];
    let via_h2 = hash.h2(&a, &b);
    let via_h2c = hash.h2c(&hash.h1(&a), &hash.h1(&b));
    assert_eq!(via_h2, via_h2c);
}

#[test]
fn point_code_round_trip() {
    let hash = make_hash();
    let code = hash.h1(&vec![5u8; 12]);
    assert_eq!(code.len(), 64);
    let bits = zkret::bits::decode_to_coord_bits(&code);
    let again = zkret::bits::encode_coord_bits(&bits);
    assert_eq!(code, again);
}

#[test]
fn hashes_are_deterministic() {
    let h1 = make_hash();
    let h2 = make_hash();
    let input = vec![42u8; 64];
    assert_eq!(h1.h1(&input), h2.h1(&input));
    assert_eq!(h1.h2(&input, &input), h2.h2(&input, &input));
}

#[test]
fn params_blob_of_wrong_size_is_rejected() {
    assert!(zkret::hash::Hash::from_params(&[0u8; 100], &params_blob(1)).is_none());
    assert!(zkret::hash::Hash::from_params(&params_blob(1), &[]).is_none());
}

#[test]
fn derive_and_sign_are_deterministic() {
    let hash = make_hash();
    let sk = vec![1u8; 64];
    let nul = vec![5u8; 64];
    let choice = vec![3u8; 64];
    let dh = vec![9u8; 64];
    let pk1 = zkret::crypto::derive_participation_pubkey(&hash, &sk, &nul);
    let pk2 = zkret::crypto::derive_participation_pubkey(&hash, &sk, &nul);
    assert_eq!(pk1, pk2);
    assert_eq!(pk1.len(), 64);
    let s1 = zkret::crypto::sign_choice_tx(&hash, &sk, &nul, &choice, &dh);
    let s2 = zkret::crypto::sign_choice_tx(&hash, &sk, &nul, &choice, &dh);
    assert_eq!(s1, s2);
    let r1 = zkret::crypto::sign_reveal_tx(&hash, &sk, &nul, &choice, &dh);
    assert_eq!(r1.len(), 64);
}

#[test]
fn hex_round_trip() {
    let mut lo = [0u8; 32];
    let mut hi = [0u8; 32];
    for i in 0..32 {
        lo[i] = (i as u8) * 7 + 1;
        hi[i] = 255 - (i as u8);
    }
    let key = zkret::transaction::SBytes64(lo, hi);
    let printable = zkret::client::pub_key_to_printable(&key);
    assert_eq!(printable.len(), 128);
    let back = zkret::client::printable_to_pub_key(printable.as_str());
    assert_eq!(back, key);
}

#[test]
fn hex_of_known_bytes() {
    let key = zkret::transaction::SBytes64([0u8; 32], [255u8; 32]);
    let printable = zkret::client::pub_key_to_printable(&key);
    assert_eq!(&printable[..4], "0000");
    assert_eq!(&printable[124..], "ffff");
}

#[test]
fn rpc_path_is_formed_from_chain_id() {
    let client = zkret::client::RpcClient::new("myChain");
    assert_eq!(client.url_path, "/ext/bc/myChain/rpc");
}

#[test]
fn sbytes64_round_trips() {
    let bytes: Vec<u8> = (0..64).collect();
    let s = zkret::transaction::SBytes64::from_bytes(&bytes);
    assert_eq!(s.to_vec(), bytes);
    assert_eq!(s.to_u8_64().to_vec(), bytes);
}

#[test]
fn state_codec_round_trips() {
    let a = [1u8; 64];
    let b = [2u8; 64];
    let encoded = zkret::state::encode(&vec![a, b]);
    assert_eq!(encoded.len(), 128);
    assert_eq!(&encoded[..64], &a[..]);
    let decoded = zkret::state::decode(&encoded);
    assert_eq!(decoded, vec![a, b]);
    let empty = zkret::state::decode(&[]);
    assert!(empty.is_empty());
}

#[test]
fn hex_parses_uppercase() {
    let mut s = String::new();
    for _ in 0..64 {
        s.push_str("A5");
    }
    let key = zkret::client::printable_to_pub_key(&s);
    assert_eq!(key.to_vec(), vec![0xA5u8; 64]);
}

#[test]
fn hashes_match_reference_pedersen() {
    // Bit-exact agreement with the reference windowed Pedersen over the
    // same generator tables: the property the circuits depend on.
    let b1 = params_blob(3);
    let b2 = params_blob(1000);
    let hash = zkret::hash::Hash::from_params(&b1, &b2).unwrap();
    let p1 = reference_params(&b1);
    let p2 = reference_params(&b2);
    let a = vec![7u8; 50];
    let b = vec![9u8; 64];

    let la = RefCRH::evaluate(&p1, a.as_slice()).unwrap();
    assert_eq!(hash.h1(&a), encode_reference_point(&la));

    let lb = RefCRH::evaluate(&p1, b.as_slice()).unwrap();
    let compressed = RefTwoToOne::compress(&p2, &la, &lb).unwrap();
    assert_eq!(hash.h2(&a, &b), encode_reference_point(&compressed));
    assert_eq!(
        hash.h2c(&encode_reference_point(&la), &encode_reference_point(&lb)),
        encode_reference_point(&compressed)
    );
}
