//! The Merkle tree: roots, membership proofs, updates.

use ark_ec::AffineRepr;
use ark_ff::{BigInteger, PrimeField};

fn push_raw(blob: &mut Vec<u8>, p: &ark_ed_on_bls12_381::EdwardsProjective) {
    blob.extend(p.x.into_bigint().to_bytes_le());
    blob.extend(p.y.into_bigint().to_bytes_le());
    blob.extend(p.t.into_bigint().to_bytes_le());
    blob.extend(p.z.into_bigint().to_bytes_le());
}

fn params_blob(offset: u64) -> Vec<u8> {
    let g = ark_ed_on_bls12_381::EdwardsAffine::generator();
    let mut p = ark_ed_on_bls12_381::EdwardsProjective::from(g) * ark_ed_on_bls12_381::Fr::from(offset);
    let step = ark_ed_on_bls12_381::EdwardsProjective::from(g);
    let mut blob = Vec::new();
    for _ in 0..1024 {
        push_raw(&mut blob, &p);
        p += step;
    }
    blob
}

fn make_hash() -> zkret::hash::Hash {
    zkret::hash::Hash::from_params(&params_blob(3), &params_blob(1000)).unwrap()
}

#[test]
fn root_is_64_bytes_and_stable() {
    let hash = make_hash();
    let leaves = vec![vec![1u8; 64], vec![2u8; 64]];
    let t1 = zkret::merkle::MerkleTree::new(&hash, 2, &leaves);
    let t2 = zkret::merkle::MerkleTree::new(&hash, 2, &leaves);
    let r1 = t1.root();
    assert_eq!(r1.len(), 64);
    assert_eq!(r1, t2.root());
}

#[test]
fn membership_proof_verifies() {
    let hash = make_hash();
    let leaves = vec![vec![1u8; 64], vec![2u8; 64], vec![3u8; 64]];
    let tree = zkret::merkle::MerkleTree::new(&hash, 2, &leaves);
    let root = tree.root();
    let proof = tree.generate_proof(1).unwrap();
    assert_eq!(proof.len(), 64 * 2 + 4);
    assert!(zkret::merkle::verify_proof(&hash, &root, &leaves[1], &proof));
}

#[test]
fn tampered_proof_is_rejected() {
    let hash = make_hash();
    let leaves = vec![vec![1u8; 64], vec![2u8; 64], vec![3u8; 64], vec![4u8; 64]];
    let tree = zkret::merkle::MerkleTree::new(&hash, 2, &leaves);
    let root = tree.root();
    let proof = tree.generate_proof(2).unwrap();
    assert!(zkret::merkle::verify_proof(&hash, &root, &leaves[2], &proof));
    let mut bad = proof.clone();
    bad[10] ^= 1;
    assert!(!zkret::merkle::verify_proof(&hash, &root, &leaves[2], &bad));
    assert!(!zkret::merkle::verify_proof(&hash, &root, &leaves[3], &proof));
}

#[test]
fn out_of_range_index_has_no_proof() {
    let hash = make_hash();
    let tree = zkret::merkle::MerkleTree::new(&hash, 2, &vec![vec![1u8; 64]]);
    assert!(tree.generate_proof(4).is_none());
    assert!(tree.generate_proof(3).is_some());
}

#[test]
fn update_matches_rebuilt_tree() {
    let hash = make_hash();
    let leaves = vec![vec![1u8; 64], vec![2u8; 64]];
    let mut tree = zkret::merkle::MerkleTree::new(&hash, 2, &leaves);
    tree.update(&hash, 1, &vec![9u8; 64]);
    let rebuilt = zkret::merkle::MerkleTree::new(
        &hash,
        2,
        &vec![vec![1u8; 64], vec![9u8; 64]],
    );
    assert_eq!(tree.root(), rebuilt.root());
}

#[test]
fn choice_proof_inputs_round_trip() {
    // The out-of-circuit half of the choice flow: the derived public
    // key sits in the tree and its membership proof convinces the
    // verifier.
    let hash = make_hash();
    let sk = vec![1u8; 64];
    let nul = vec![5u8; 64];
    let choice = vec![3u8; 64];
    let dh = vec![9u8; 64];
    let pub_key = zkret::crypto::derive_participation_pubkey(&hash, &sk, &nul);
    let signature = zkret::crypto::sign_choice_tx(&hash, &sk, &nul, &choice, &dh);
    assert_eq!(signature.len(), 64);
    let tree = zkret::merkle::MerkleTree::new(&hash, 7, &vec![pub_key.clone()]);
    let root = tree.root();
    let proof = tree.generate_proof(0).unwrap();
    assert_eq!(proof.len(), 64 * 7 + 4);
    assert!(zkret::merkle::verify_proof(&hash, &root, &pub_key, &proof));
}

#[test]
fn reveal_inputs_are_consistent() {
    // The out-of-circuit half of the reveal flow: the tag is stable
    // and a changed ciphertext changes its hash.
    let hash = make_hash();
    let sk = vec![1u8; 64];
    let nul = vec![5u8; 64];
    let dh = vec![9u8; 64];
    let ct = b"hello".to_vec();
    let ct_hash = hash.h1(&ct);
    let sig1 = zkret::crypto::sign_reveal_tx(&hash, &sk, &nul, &ct_hash, &dh);
    let sig2 = zkret::crypto::sign_reveal_tx(&hash, &sk, &nul, &ct_hash, &dh);
    assert_eq!(sig1, sig2);
    let other_hash = hash.h1(&b"hello!".to_vec());
    assert_ne!(ct_hash, other_hash);
}
