//! The protocol's key derivation and its two deterministic tags, thin
//! compositions of the two Pedersen hashes.
//!
//! `aux_sk = h2(secret_key, nullifier)` is the auxiliary secret point.
//! The participation public key is `h1` of its encoding; the choice and
//! reveal tags chain `h2` over the auxiliary point, the payload and the
//! Diffie-Hellman key.  Their validity is enforced in-circuit, not here.

use vstd::prelude::*;
use crate::hash::{h2_code, pedersen_code};

verus! {

/// The encoded auxiliary secret point of a key pair.
pub open spec fn aux_sk_code(
    g1: Seq<Seq<u8>>,
    g2: Seq<Seq<u8>>,
    sk: Seq<u8>,
    nul: Seq<u8>,
) -> Seq<u8> {
    h2_code(g1, g2, sk, nul)
}

/// The participation public key: the encoded auxiliary point hashed once
/// more with the first hash.
pub open spec fn pub_key_code(
    g1: Seq<Seq<u8>>,
    g2: Seq<Seq<u8>>,
    sk: Seq<u8>,
    nul: Seq<u8>,
) -> Seq<u8> {
    pedersen_code(g1, aux_sk_code(g1, g2, sk, nul))
}

/// The choice tag: the auxiliary point hashed with the chosen key, then
/// with the Diffie-Hellman key.
pub open spec fn sign_choice_code(
    g1: Seq<Seq<u8>>,
    g2: Seq<Seq<u8>>,
    sk: Seq<u8>,
    nul: Seq<u8>,
    choice: Seq<u8>,
    dh: Seq<u8>,
) -> Seq<u8> {
    h2_code(g1, g2, h2_code(g1, g2, aux_sk_code(g1, g2, sk, nul), choice), dh)
}

/// The reveal tag: the auxiliary point hashed with the ciphertext hash,
/// then with the Diffie-Hellman key.
pub open spec fn sign_reveal_code(
    g1: Seq<Seq<u8>>,
    g2: Seq<Seq<u8>>,
    sk: Seq<u8>,
    nul: Seq<u8>,
    ct_hash: Seq<u8>,
    dh: Seq<u8>,
) -> Seq<u8> {
    h2_code(g1, g2, h2_code(g1, g2, aux_sk_code(g1, g2, sk, nul), ct_hash), dh)
}

/// Derives the participation public key of a secret key and nullifier.
pub fn derive_participation_pubkey(hash: &crate::hash::Hash, secret_key: &[u8], nullifier: &[u8]) -> (out: Vec<
    u8,
>)
    requires
        hash.wf(),
        secret_key@.len() <= 128,
        nullifier@.len() <= 128,
    ensures
        out@ == pub_key_code(hash.g1(), hash.g2(), secret_key@, nullifier@),
        out@.len() == 64,
{
    let aux_sk = hash.h2(secret_key, nullifier);
    hash.h1(aux_sk.as_slice())
}

/// Tags a choice of `choice` under the given key material.
pub fn sign_choice_tx(
    hash: &crate::hash::Hash,
    secret_key: &[u8],
    nullifier: &[u8],
    choice: &[u8],
    dh_pub_key: &[u8],
) -> (out: Vec<u8>)
    requires
        hash.wf(),
        secret_key@.len() <= 128,
        nullifier@.len() <= 128,
        choice@.len() <= 128,
        dh_pub_key@.len() <= 128,
    ensures
        out@ == sign_choice_code(
            hash.g1(),
            hash.g2(),
            secret_key@,
            nullifier@,
            choice@,
            dh_pub_key@,
        ),
        out@.len() == 64,
{
    let aux_sk = hash.h2(secret_key, nullifier);
    let penultimate = hash.h2(aux_sk.as_slice(), choice);
    hash.h2(penultimate.as_slice(), dh_pub_key)
}

/// Tags a reveal of the ciphertext hash under the given key material.
pub fn sign_reveal_tx(
    hash: &crate::hash::Hash,
    secret_key: &[u8],
    nullifier: &[u8],
    ciphertext_hash: &[u8],
    dh_pub_key: &[u8],
) -> (out: Vec<u8>)
    requires
        hash.wf(),
        secret_key@.len() <= 128,
        nullifier@.len() <= 128,
        ciphertext_hash@.len() <= 128,
        dh_pub_key@.len() <= 128,
    ensures
        out@ == sign_reveal_code(
            hash.g1(),
            hash.g2(),
            secret_key@,
            nullifier@,
            ciphertext_hash@,
            dh_pub_key@,
        ),
        out@.len() == 64,
{
    let aux_sk = hash.h2(secret_key, nullifier);
    let penultimate = hash.h2(aux_sk.as_slice(), ciphertext_hash);
    hash.h2(penultimate.as_slice(), dh_pub_key)
}

} // verus!
