//! Transaction semantics against the block state, and the block checks.

use ark_ec::AffineRepr;
use ark_crypto_primitives::snark::SNARK;
use ark_ff::{BigInteger, PrimeField};
use ark_std::rand::SeedableRng;
use zkret::transaction::{BlockState, SBytes64, Transaction, TransactionData};

fn push_raw(blob: &mut Vec<u8>, p: &ark_ed_on_bls12_381::EdwardsProjective) {
    blob.extend(p.x.into_bigint().to_bytes_le());
    blob.extend(p.y.into_bigint().to_bytes_le());
    blob.extend(p.t.into_bigint().to_bytes_le());
    blob.extend(p.z.into_bigint().to_bytes_le());
}

fn params_blob(offset: u64) -> Vec<u8> {
    let g = ark_ed_on_bls12_381::EdwardsAffine::generator();
    let mut p = ark_ed_on_bls12_381::EdwardsProjective::from(g) * ark_ed_on_bls12_381::Fr::from(offset);
    let step = ark_ed_on_bls12_381::EdwardsProjective::from(g);
    let mut blob = Vec::new();
    for _ in 0..1024 {
        push_raw(&mut blob, &p);
        p += step;
    }
    blob
}

fn make_hash() -> zkret::hash::Hash {
    zkret::hash::Hash::from_params(&params_blob(3), &params_blob(1000)).unwrap()
}

struct SquareCircuit {
    x: ark_bls12_381::Fr,
}

impl ark_relations::r1cs::ConstraintSynthesizer<ark_bls12_381::Fr> for SquareCircuit {
    fn generate_constraints(
        self,
        cs: ark_relations::r1cs::ConstraintSystemRef<ark_bls12_381::Fr>,
    ) -> Result<(), ark_relations::r1cs::SynthesisError> {
        let x = cs.new_witness_variable(|| Ok(self.x))?;
        let y = cs.new_input_variable(|| Ok(self.x * self.x))?;
        cs.enforce_constraint(
            ark_relations::r1cs::LinearCombination::from(x),
            ark_relations::r1cs::LinearCombination::from(x),
            ark_relations::r1cs::LinearCombination::from(y),
        )?;
        Ok(())
    }
}

fn some_vk_bytes() -> Vec<u8> {
    let mut rng = ark_std::rand::rngs::StdRng::seed_from_u64(7);
    let circuit = SquareCircuit { x: ark_bls12_381::Fr::from(3u64) };
    let (_pk, vk) =
        ark_groth16::Groth16::<ark_bls12_381::Bls12_381>::circuit_specific_setup(circuit, &mut rng)
            .unwrap();
    let mut out = Vec::new();
    ark_serialize::CanonicalSerialize::serialize_compressed(&vk, &mut out).unwrap();
    out
}

fn make_verifiers() -> (zkret::proofs::ChoiceAuthVerifier, zkret::proofs::RevealAuthVerifier) {
    let vk = some_vk_bytes();
    (
        zkret::proofs::ChoiceAuthVerifier::from_vk_bytes(&vk).unwrap(),
        zkret::proofs::RevealAuthVerifier::from_vk_bytes(&vk).unwrap(),
    )
}

fn empty_state() -> BlockState {
    BlockState {
        merkle_root: SBytes64::default(),
        merkle_leaves: Vec::new(),
        nullifiers: Vec::new(),
        unclaimed_pub_keys: Vec::new(),
        revealed_pub_keys: Vec::new(),
        revealed_cts: Vec::new(),
    }
}

fn key64(v: u8) -> SBytes64 {
    SBytes64([v; 32], [v.wrapping_add(1); 32])
}

#[test]
fn enter_rejected_after_state_update() {
    let hash = make_hash();
    let (ca, ra) = make_verifiers();
    let mut bs = empty_state();
    let pub_key = vec![11u8; 64];
    let tx = zkret::transaction::create_enter_tx(&pub_key);
    assert!(tx.verify(&bs, &hash, &ca, &ra));
    tx.update_state(&mut bs, &hash);
    assert!(!tx.verify(&bs, &hash, &ca, &ra));
}

#[test]
fn nullifier_reuse_is_rejected() {
    let hash = make_hash();
    let (ca, ra) = make_verifiers();
    let pk_a = key64(1);
    let pk_b = key64(3);
    let nul = key64(5);
    let mut bs = empty_state();
    bs.merkle_leaves = vec![pk_a, pk_b];
    bs.unclaimed_pub_keys = vec![pk_a, pk_b];
    let tx1 = Transaction {
        transaction_type: 2,
        data: TransactionData(pk_a, nul, key64(7), key64(9), vec![1, 2, 3], Vec::new()),
    };
    // The state-side checks pass for the first spend of this nullifier.
    assert!(tx1.verify_structural(&bs, &hash));
    tx1.update_state(&mut bs, &hash);
    // After the update the same nullifier fails even with a fresh proof.
    let tx2 = Transaction {
        transaction_type: 2,
        data: TransactionData(pk_b, nul, key64(7), key64(9), vec![4, 5, 6], Vec::new()),
    };
    assert!(!tx2.verify_structural(&bs, &hash));
    assert!(!tx2.verify(&bs, &hash, &ca, &ra));
}

#[test]
fn choice_of_non_entered_key_is_rejected() {
    let hash = make_hash();
    let (ca, ra) = make_verifiers();
    let mut bs = empty_state();
    bs.merkle_leaves = vec![key64(1)];
    bs.unclaimed_pub_keys = vec![key64(1)];
    let tx = Transaction {
        transaction_type: 2,
        data: TransactionData(key64(33), key64(5), key64(7), key64(9), vec![1], Vec::new()),
    };
    assert!(!tx.verify(&bs, &hash, &ca, &ra));
}

#[test]
fn choice_removes_key_and_spends_nullifier() {
    let hash = make_hash();
    let pk_a = key64(1);
    let pk_b = key64(3);
    let nul = key64(5);
    let mut bs = empty_state();
    bs.merkle_leaves = vec![pk_a, pk_b];
    bs.unclaimed_pub_keys = vec![pk_a, pk_b];
    let tx = Transaction {
        transaction_type: 2,
        data: TransactionData(pk_a, nul, key64(7), key64(9), Vec::new(), Vec::new()),
    };
    tx.update_state(&mut bs, &hash);
    assert_eq!(bs.unclaimed_pub_keys, vec![pk_b]);
    assert_eq!(bs.nullifiers, vec![nul]);
    assert_eq!(bs.merkle_leaves, vec![pk_a, pk_b]);
}

#[test]
fn reveal_requires_matching_ciphertext_hash() {
    let hash = make_hash();
    let pk = key64(1);
    let ct = b"hello".to_vec();
    let ct_hash = hash.h1(&ct);
    let mut bs = empty_state();
    bs.merkle_leaves = vec![pk];
    let good = Transaction {
        transaction_type: 3,
        data: TransactionData(
            pk,
            SBytes64::from_bytes(&ct_hash),
            key64(7),
            key64(9),
            ct.clone(),
            vec![1, 2],
        ),
    };
    assert!(good.verify_structural(&bs, &hash));
    let wrong = Transaction {
        transaction_type: 3,
        data: TransactionData(
            pk,
            SBytes64::from_bytes(&ct_hash),
            key64(7),
            key64(9),
            b"hello!".to_vec(),
            vec![1, 2],
        ),
    };
    assert!(!wrong.verify_structural(&bs, &hash));
    good.update_state(&mut bs, &hash);
    assert_eq!(bs.revealed_pub_keys, vec![pk]);
    assert_eq!(bs.revealed_cts, vec![ct]);
    // A second reveal of the same key is rejected.
    assert!(!good.verify_structural(&bs, &hash));
}

#[test]
fn update_state_is_deterministic() {
    let hash = make_hash();
    let pk = key64(1);
    let mut bs1 = empty_state();
    bs1.merkle_leaves = vec![pk];
    bs1.unclaimed_pub_keys = vec![pk];
    let mut bs2 = bs1.clone();
    assert_eq!(bs1, bs2);
    let tx = Transaction {
        transaction_type: 2,
        data: TransactionData(pk, key64(5), key64(7), key64(9), Vec::new(), Vec::new()),
    };
    tx.update_state(&mut bs1, &hash);
    tx.update_state(&mut bs2, &hash);
    assert_eq!(bs1, bs2);
}

#[test]
fn accepted_transactions_preserve_invariants() {
    let hash = make_hash();
    let mut bs = BlockState::genesis(&hash);
    let enter1 = zkret::transaction::create_enter_tx(&vec![21u8; 64]);
    enter1.update_state(&mut bs, &hash);
    let enter2 = zkret::transaction::create_enter_tx(&vec![22u8; 64]);
    enter2.update_state(&mut bs, &hash);
    // uniqueness of leaves
    assert_eq!(bs.merkle_leaves.len(), 2);
    assert_ne!(bs.merkle_leaves[0], bs.merkle_leaves[1]);
    // the claim set names entered keys only
    for pk in bs.unclaimed_pub_keys.iter() {
        assert!(bs.merkle_leaves.contains(pk));
    }
    // the stored root is the recomputed root over the leaves
    let leaf_vecs: Vec<Vec<u8>> = bs.merkle_leaves.iter().map(|k| k.to_vec()).collect();
    let tree = zkret::merkle::MerkleTree::new(&hash, 7, &leaf_vecs);
    assert_eq!(bs.merkle_root.to_vec(), tree.root());
    // reveals stay paired with their ciphertexts
    assert_eq!(bs.revealed_cts.len(), bs.revealed_pub_keys.len());
}

#[test]
fn genesis_transaction_is_always_valid() {
    let hash = make_hash();
    let (ca, ra) = make_verifiers();
    let bs = empty_state();
    let tx = Transaction::genesis(b"anyone".to_vec());
    assert_eq!(tx.transaction_type, 0);
    assert_eq!(tx.data.4, b"anyone".to_vec());
    assert!(tx.verify(&bs, &hash, &ca, &ra));
    let unknown = Transaction {
        transaction_type: 9,
        data: TransactionData::default(),
    };
    assert!(!unknown.verify(&bs, &hash, &ca, &ra));
}

#[test]
fn malformed_verifying_key_is_rejected() {
    assert!(zkret::proofs::ChoiceAuthVerifier::from_vk_bytes(&[1, 2, 3]).is_none());
    assert!(zkret::proofs::RevealAuthVerifier::from_vk_bytes(&[]).is_none());
}

#[test]
fn block_lineage_rejects_wrong_parent() {
    let parent_id = [7u8; 32];
    let last_accepted = [1u8; 32];
    let verdict = zkret::block::verify_block_lineage(
        &parent_id,
        5,
        1000,
        &last_accepted,
        4,
        900,
        1000,
    );
    assert_eq!(verdict, Err(zkret::block::BlockError::NotOnLastAccepted));
}

#[test]
fn block_lineage_checks_run_in_order() {
    let id = [1u8; 32];
    assert_eq!(
        zkret::block::verify_block_lineage(&id, 7, 1000, &id, 4, 900, 1000),
        Err(zkret::block::BlockError::HeightNotAboveParent)
    );
    assert_eq!(
        zkret::block::verify_block_lineage(&id, 5, 800, &id, 4, 900, 1000),
        Err(zkret::block::BlockError::TimestampBeforeParent)
    );
    assert_eq!(
        zkret::block::verify_block_lineage(&id, 5, 5000, &id, 4, 900, 1000),
        Err(zkret::block::BlockError::TimestampTooFarAhead)
    );
    assert_eq!(
        zkret::block::verify_block_lineage(&id, 5, 1100, &id, 4, 900, 1000),
        Ok(())
    );
}

#[test]
fn genesis_block_is_recognised() {
    assert!(zkret::block::is_genesis_block(0, &[0u8; 32]));
    assert!(!zkret::block::is_genesis_block(1, &[0u8; 32]));
    assert!(!zkret::block::is_genesis_block(0, &[1u8; 32]));
    assert!(!zkret::block::is_genesis_block(0, &[0u8; 31]));
}

#[test]
fn genesis_state_is_empty_with_computed_root() {
    let hash = make_hash();
    let bs = BlockState::genesis(&hash);
    assert!(bs.merkle_leaves.is_empty());
    assert!(bs.nullifiers.is_empty());
    let empty: Vec<Vec<u8>> = Vec::new();
    let tree = zkret::merkle::MerkleTree::new(&hash, 7, &empty);
    assert_eq!(bs.merkle_root.to_vec(), tree.root());
}

#[test]
fn malformed_proof_is_rejected() {
    // A proof that is no canonical Groth16 encoding yields false, and
    // so does a root of the wrong length; neither is a crash.
    let (ca, ra) = make_verifiers();
    let field = [0u8; 64];
    assert!(!ca.verify(&[1, 2, 3], &field, &field, &field, &field, &field));
    assert!(!ca.verify(&[1, 2, 3], &field, &[0u8; 10], &field, &field, &field));
    assert!(!ra.verify(&[], &field, &field, &field, &field));
}

#[test]
fn block_decision_composes_checks() {
    let hash = make_hash();
    let (ca, ra) = make_verifiers();
    let bs = empty_state();
    let genesis_tx = Transaction::genesis(Vec::new());
    // genesis skips every other check
    assert_eq!(
        zkret::block::verify_block(
            &[0u8; 32], 0, 0, &[9u8; 32], 7, 9, 50, &genesis_tx, &bs, &hash, &ca, &ra
        ),
        Ok(())
    );
    let id = [1u8; 32];
    // a lineage failure names the first failing check
    assert_eq!(
        zkret::block::verify_block(
            &[7u8; 32], 5, 1000, &id, 4, 900, 1000, &genesis_tx, &bs, &hash, &ca, &ra
        ),
        Err(zkret::block::BlockError::NotOnLastAccepted)
    );
    // a sound lineage with a bad transaction is invalid
    let bad = Transaction { transaction_type: 9, data: TransactionData::default() };
    assert_eq!(
        zkret::block::verify_block(&id, 5, 1000, &id, 4, 900, 1000, &bad, &bs, &hash, &ca, &ra),
        Err(zkret::block::BlockError::InvalidTransaction)
    );
    // and with a good one is accepted
    let enter = zkret::transaction::create_enter_tx(&vec![11u8; 64]);
    assert_eq!(
        zkret::block::verify_block(&id, 5, 1000, &id, 4, 900, 1000, &enter, &bs, &hash, &ca, &ra),
        Ok(())
    );
}
