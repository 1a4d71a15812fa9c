//! Groth16 verification for the two circuits.
//!
//! A verifier holds the prepared verifying key of its circuit's trusted
//! setup, handed in as the key's canonical compressed bytes, together
//! with those bytes themselves: the pairing verdict is a pure function
//! of the key bytes and the public inputs, so it carries a name that
//! the contracts up the stack can speak of.  Checking a proof marshals
//! the byte-typed public inputs into field elements, the root point
//! contributing its two affine coordinates; the pairing check itself is
//! the outside library's.
//!
//! Proof generation needs the circuits themselves and stays outside the
//! library, beside the circuit definitions.

use vstd::prelude::*;
use crate::bits::{coord_bits_of_code, decode_to_coord_bits, pack_bit_vec, pack_bits};
use ark_crypto_primitives::snark::SNARK;
use ark_serialize::CanonicalDeserialize;

verus! {

/// A prepared Groth16 verifying key of the outer pairing curve, held
/// behind an opaque struct: the key type's bounded generics cannot be
/// declared to the verifier directly.
#[verifier::external_body]
struct PreparedKey {
    pvk: ark_groth16::PreparedVerifyingKey<ark_bls12_381::Bls12_381>,
}

/// Whether a byte string is the canonical compressed encoding of a
/// Groth16 verifying key: exactly the bytes its deserializer accepts.
pub uninterp spec fn vk_decodable(vk: Seq<u8>) -> bool;

/// The choice circuit's Groth16 outcome: a pure function of the
/// verifying-key bytes, the proof bytes, and the circuit's public
/// inputs — the nullifier, the root's two 32-byte affine coordinates,
/// the chosen key, the Diffie-Hellman key and the tag.  A proof that
/// does not decode, or an input list of the wrong shape, yields false.
pub uninterp spec fn choice_verdict(
    vk: Seq<u8>,
    proof: Seq<u8>,
    nullifier: Seq<u8>,
    root_x: Seq<u8>,
    root_y: Seq<u8>,
    choice: Seq<u8>,
    dh_pub_key: Seq<u8>,
    signature: Seq<u8>,
) -> bool;

/// The reveal circuit's Groth16 outcome: a pure function of the
/// verifying-key bytes, the proof bytes, and the circuit's public
/// inputs — the public key, the ciphertext hash, the Diffie-Hellman
/// key and the tag.  A proof that does not decode yields false.
pub uninterp spec fn reveal_verdict(
    vk: Seq<u8>,
    proof: Seq<u8>,
    pub_key: Seq<u8>,
    ciphertext_hash: Seq<u8>,
    dh_pub_key: Seq<u8>,
    signature: Seq<u8>,
) -> bool;

/// Relies on VerifyingKey::deserialize_compressed of ark-serialize and
/// prepare_verifying_key of ark-groth16: reads a verifying key and
/// precomputes its pairing form.  Deserialization succeeds on exactly
/// the decodable byte strings and the preparation is total, so success
/// is a function of the bytes alone.
#[verifier::external_body]
fn prepare_vk(vk: &[u8]) -> (out: Option<PreparedKey>)
    ensures
        out is Some <==> vk_decodable(vk@),
{
    match ark_groth16::VerifyingKey::<ark_bls12_381::Bls12_381>::deserialize_compressed(vk) {
        Ok(k) => Some(PreparedKey { pvk: ark_groth16::prepare_verifying_key(&k) }),
        Err(_) => None,
    }
}

/// Relies on Groth16::verify_with_processed_vk of ark-groth16 and the
/// bytes-to-field-elements marshalling of ark-ff.  The verdict is
/// deterministic in the checker's key bytes and the arguments: the
/// prepared key is a pure function of the bytes it was built from (see
/// `from_vk_bytes`), the marshalling of each byte string is fixed, and
/// the pairing check itself is deterministic.  A malformed proof or a
/// mismatched input count yields false, never a panic.
#[verifier::external_body]
fn groth16_verify_choice(
    checker: &ChoiceAuthVerifier,
    proof: &[u8],
    nullifier: &[u8],
    root_x: &[u8],
    root_y: &[u8],
    choice: &[u8],
    dh_pub_key: &[u8],
    signature: &[u8],
) -> (r: bool)
    ensures
        r == choice_verdict(
            checker.vk(),
            proof@,
            nullifier@,
            root_x@,
            root_y@,
            choice@,
            dh_pub_key@,
            signature@,
        ),
{
    let pf = match ark_groth16::Proof::deserialize_compressed(proof) {
        Ok(p) => p,
        Err(_) => return false,
    };
    let mut inp = ark_ff::ToConstraintField::<ark_bls12_381::Fr>::to_field_elements(nullifier).unwrap_or_default();
    inp.push(ark_ff::PrimeField::from_le_bytes_mod_order(root_x));
    inp.push(ark_ff::PrimeField::from_le_bytes_mod_order(root_y));
    inp.extend(ark_ff::ToConstraintField::<ark_bls12_381::Fr>::to_field_elements(choice).unwrap_or_default());
    inp.extend(ark_ff::ToConstraintField::<ark_bls12_381::Fr>::to_field_elements(dh_pub_key).unwrap_or_default());
    inp.extend(ark_ff::ToConstraintField::<ark_bls12_381::Fr>::to_field_elements(signature).unwrap_or_default());
    matches!(
        ark_groth16::Groth16::<ark_bls12_381::Bls12_381>::verify_with_processed_vk(&checker.key.pvk, &inp, &pf),
        Ok(true)
    )
}

/// Relies on the same outside calls as the choice-side check, with the
/// reveal circuit's public inputs; deterministic for the same reasons.
#[verifier::external_body]
fn groth16_verify_reveal(
    checker: &RevealAuthVerifier,
    proof: &[u8],
    pub_key: &[u8],
    ciphertext_hash: &[u8],
    dh_pub_key: &[u8],
    signature: &[u8],
) -> (r: bool)
    ensures
        r == reveal_verdict(
            checker.vk(),
            proof@,
            pub_key@,
            ciphertext_hash@,
            dh_pub_key@,
            signature@,
        ),
{
    let pf = match ark_groth16::Proof::deserialize_compressed(proof) {
        Ok(p) => p,
        Err(_) => return false,
    };
    let mut inp = ark_ff::ToConstraintField::<ark_bls12_381::Fr>::to_field_elements(pub_key).unwrap_or_default();
    inp.extend(ark_ff::ToConstraintField::<ark_bls12_381::Fr>::to_field_elements(ciphertext_hash).unwrap_or_default());
    inp.extend(ark_ff::ToConstraintField::<ark_bls12_381::Fr>::to_field_elements(dh_pub_key).unwrap_or_default());
    inp.extend(ark_ff::ToConstraintField::<ark_bls12_381::Fr>::to_field_elements(signature).unwrap_or_default());
    matches!(
        ark_groth16::Groth16::<ark_bls12_381::Bls12_381>::verify_with_processed_vk(&checker.key.pvk, &inp, &pf),
        Ok(true)
    )
}

/// The first affine coordinate of an encoded root, as 32 little-endian
/// bytes: the form the pairing check's marshalling consumes.
pub open spec fn root_x_bytes(root: Seq<u8>) -> Seq<u8> {
    pack_bits(coord_bits_of_code(root).subrange(0, 256))
}

/// The second affine coordinate of an encoded root, as 32 little-endian
/// bytes.
pub open spec fn root_y_bytes(root: Seq<u8>) -> Seq<u8> {
    pack_bits(coord_bits_of_code(root).subrange(256, 512))
}

/// What convinces the choice checker: a 64-byte encoded root and an
/// accepting pairing verdict over its two coordinates.
pub open spec fn choice_proof_ok(
    vk: Seq<u8>,
    proof: Seq<u8>,
    nullifier: Seq<u8>,
    root: Seq<u8>,
    choice: Seq<u8>,
    dh_pub_key: Seq<u8>,
    signature: Seq<u8>,
) -> bool {
    root.len() == 64 && choice_verdict(
        vk,
        proof,
        nullifier,
        root_x_bytes(root),
        root_y_bytes(root),
        choice,
        dh_pub_key,
        signature,
    )
}

/// Checks proofs of the choice circuit: the prover knows a secret key
/// whose public key sits in the tree under the given root and tagged
/// the choice.  The construction in `from_vk_bytes` is the only one,
/// so the prepared key inside is always the preparation of the key
/// bytes the contracts name.
pub struct ChoiceAuthVerifier {
    key: PreparedKey,
    vk_bytes: Vec<u8>,
}

impl ChoiceAuthVerifier {
    /// The verifying-key bytes this checker was built from.
    pub closed spec fn vk(&self) -> Seq<u8> {
        self.vk_bytes@
    }

    /// Reads the circuit's verifying key from its canonical compressed
    /// bytes; fails exactly when they do not decode.
    pub fn from_vk_bytes(vk: &[u8]) -> (out: Option<ChoiceAuthVerifier>)
        ensures
            out is Some <==> vk_decodable(vk@),
            out is Some ==> out->0.vk() == vk@,
    {
        match prepare_vk(vk) {
            Some(key) => Some(
                ChoiceAuthVerifier { key, vk_bytes: vstd::slice::slice_to_vec(vk) },
            ),
            None => None,
        }
    }

    /// Checks one choice proof against its five public inputs.
    pub fn verify(
        &self,
        proof: &[u8],
        nullifier: &[u8],
        root: &[u8],
        choice: &[u8],
        dh_pub_key: &[u8],
        signature: &[u8],
    ) -> (r: bool)
        ensures
            r == choice_proof_ok(
                self.vk(),
                proof@,
                nullifier@,
                root@,
                choice@,
                dh_pub_key@,
                signature@,
            ),
    {
        if root.len() != 64 {
            return false;
        }
        let mut rv: Vec<u8> = Vec::new();
        let mut i: usize = 0;
        while i < 64
            invariant
                i <= 64,
                root@.len() == 64,
                rv@ =~= root@.subrange(0, i as int),
            decreases 64 - i,
        {
            rv.push(root[i]);
            i += 1;
        }
        proof {
            assert(rv@ =~= root@);
        }
        let cb = decode_to_coord_bits(&rv);
        let mut xb: Vec<bool> = Vec::new();
        let mut i: usize = 0;
        while i < 256
            invariant
                i <= 256,
                cb@.len() == 512,
                xb@ =~= cb@.subrange(0, i as int),
            decreases 256 - i,
        {
            xb.push(cb[i]);
            i += 1;
        }
        let mut yb: Vec<bool> = Vec::new();
        let mut i: usize = 256;
        while i < 512
            invariant
                256 <= i <= 512,
                cb@.len() == 512,
                yb@ =~= cb@.subrange(256, i as int),
            decreases 512 - i,
        {
            yb.push(cb[i]);
            i += 1;
        }
        proof {
            assert(xb@.len() % 8 == 0);
            assert(yb@.len() % 8 == 0);
        }
        let root_x = pack_bit_vec(&xb);
        let root_y = pack_bit_vec(&yb);
        proof {
            assert(root_x@ == root_x_bytes(root@));
            assert(root_y@ == root_y_bytes(root@));
        }
        groth16_verify_choice(
            self,
            proof,
            nullifier,
            root_x.as_slice(),
            root_y.as_slice(),
            choice,
            dh_pub_key,
            signature,
        )
    }
}

/// Checks proofs of the reveal circuit: the prover owns the public key
/// and tagged the ciphertext hash.  As with the choice checker, the
/// prepared key inside is always the preparation of the named bytes.
pub struct RevealAuthVerifier {
    key: PreparedKey,
    vk_bytes: Vec<u8>,
}

impl RevealAuthVerifier {
    /// The verifying-key bytes this checker was built from.
    pub closed spec fn vk(&self) -> Seq<u8> {
        self.vk_bytes@
    }

    /// Reads the circuit's verifying key from its canonical compressed
    /// bytes; fails exactly when they do not decode.
    pub fn from_vk_bytes(vk: &[u8]) -> (out: Option<RevealAuthVerifier>)
        ensures
            out is Some <==> vk_decodable(vk@),
            out is Some ==> out->0.vk() == vk@,
    {
        match prepare_vk(vk) {
            Some(key) => Some(
                RevealAuthVerifier { key, vk_bytes: vstd::slice::slice_to_vec(vk) },
            ),
            None => None,
        }
    }

    /// Checks one reveal proof against its four public inputs.
    pub fn verify(
        &self,
        proof: &[u8],
        pub_key: &[u8],
        ciphertext_hash: &[u8],
        dh_pub_key: &[u8],
        signature: &[u8],
    ) -> (r: bool)
        ensures
            r == reveal_verdict(
                self.vk(),
                proof@,
                pub_key@,
                ciphertext_hash@,
                dh_pub_key@,
                signature@,
            ),
    {
        groth16_verify_reveal(self, proof, pub_key, ciphertext_hash, dh_pub_key, signature)
    }
}

} // verus!
