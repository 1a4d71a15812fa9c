//! Transactions and the replicated block state.
//!
//! Four transaction kinds run against a `BlockState`: genesis (0) does
//! nothing; enter (1) admits a fresh public key into the tree; choice
//! (2) spends a nullifier to claim an unclaimed key, backed by a choice
//! proof; reveal (3) publishes a ciphertext for an entered key, backed
//! by a reveal proof.  `verify` checks a transaction against the state
//! and `update_state` applies it; both are specified against a
//! mathematical model of the state, and the state invariants are proved
//! preserved.

use vstd::prelude::*;
use crate::bits::clone_bytes;
use crate::hash::pedersen_code;
use crate::merkle::{leaves_view, merkle_root_code, two_pow, MerkleTree};
use crate::proofs::{choice_proof_ok, reveal_verdict, ChoiceAuthVerifier, RevealAuthVerifier};

verus! {

/// Depth of the commitment tree: up to 128 participants.
pub const MERKLE_TREE_DEPTH: usize = 7;

/// The all-zero 64-byte field value.
pub open spec fn zero64() -> Seq<u8> {
    Seq::new(64, |i: int| 0u8)
}

/// A 64-byte wire field, stored as two 32-byte halves.
#[derive(Clone, Copy, PartialEq, Eq, Debug)]
pub struct SBytes64(pub [u8; 32], pub [u8; 32]);

impl View for SBytes64 {
    type V = Seq<u8>;

    open spec fn view(&self) -> Seq<u8> {
        self.0@ + self.1@
    }
}

impl SBytes64 {
    /// Reads the first 64 bytes of a buffer.
    pub fn from_bytes(bytes: &[u8]) -> (out: SBytes64)
        requires
            bytes@.len() >= 64,
        ensures
            out@ == bytes@.subrange(0, 64),
    {
        let mut lo = [0u8; 32];
        let mut hi = [0u8; 32];
        let mut i: usize = 0;
        while i < 32
            invariant
                i <= 32,
                bytes@.len() >= 64,
                forall|t: int| 0 <= t < i ==> lo@[t] == bytes@[t],
            decreases 32 - i,
        {
            lo[i] = bytes[i];
            i += 1;
        }
        let mut i: usize = 0;
        while i < 32
            invariant
                i <= 32,
                bytes@.len() >= 64,
                forall|t: int| 0 <= t < i ==> hi@[t] == bytes@[32 + t],
            decreases 32 - i,
        {
            hi[i] = bytes[32 + i];
            i += 1;
        }
        let out = SBytes64(lo, hi);
        proof {
            assert(out@ =~= bytes@.subrange(0, 64));
        }
        out
    }

    /// The field as one 64-byte array.
    pub fn to_u8_64(&self) -> (out: [u8; 64])
        ensures
            out@ == self@,
    {
        let mut out = [0u8; 64];
        let mut i: usize = 0;
        while i < 32
            invariant
                i <= 32,
                out@.len() == 64,
                forall|t: int| 0 <= t < i ==> out@[t] == self.0@[t],
            decreases 32 - i,
        {
            out[i] = self.0[i];
            i += 1;
        }
        let mut i: usize = 0;
        while i < 32
            invariant
                i <= 32,
                out@.len() == 64,
                forall|t: int| 0 <= t < 32 ==> out@[t] == self.0@[t],
                forall|t: int| 0 <= t < i ==> out@[32 + t] == self.1@[t],
            decreases 32 - i,
        {
            out[32 + i] = self.1[i];
            i += 1;
        }
        proof {
            assert(out@ =~= self@);
        }
        out
    }

    /// The field as a byte vector.
    pub fn to_vec(&self) -> (out: Vec<u8>)
        ensures
            out@ == self@,
    {
        let mut out: Vec<u8> = Vec::new();
        let mut i: usize = 0;
        while i < 32
            invariant
                i <= 32,
                out@.len() == i,
                forall|t: int| 0 <= t < i ==> out@[t] == self.0@[t],
            decreases 32 - i,
        {
            out.push(self.0[i]);
            i += 1;
        }
        let mut i: usize = 0;
        while i < 32
            invariant
                i <= 32,
                out@.len() == 32 + i,
                forall|t: int| 0 <= t < 32 ==> out@[t] == self.0@[t],
                forall|t: int| 0 <= t < i ==> out@[32 + t] == self.1@[t],
            decreases 32 - i,
        {
            out.push(self.1[i]);
            i += 1;
        }
        proof {
            assert(out@ =~= self@);
        }
        out
    }

    /// Whether two fields hold the same bytes.
    pub fn eq_bytes(&self, other: &SBytes64) -> (r: bool)
        ensures
            r == (self@ == other@),
    {
        let mut i: usize = 0;
        let mut same = true;
        while i < 32
            invariant
                i <= 32,
                same == (forall|t: int|
                    0 <= t < i ==> self.0@[t] == other.0@[t] && self.1@[t] == other.1@[t]),
            decreases 32 - i,
        {
            if self.0[i] != other.0[i] || self.1[i] != other.1[i] {
                same = false;
            }
            i += 1;
        }
        proof {
            if same {
                assert(self@ =~= other@);
            } else {
                assert(self@.len() == 64 && other@.len() == 64);
                if self@ == other@ {
                    assert forall|t: int|
                        0 <= t < 32 implies self.0@[t] == other.0@[t] && self.1@[t]
                        == other.1@[t] by {
                        assert(self@[t] == other@[t]);
                        assert(self@[t] == self.0@[t] && other@[t] == other.0@[t]);
                        assert(self@[32 + t] == other@[32 + t]);
                        assert(self@[32 + t] == self.1@[t] && other@[32 + t] == other.1@[t]);
                    }
                }
            }
        }
        same
    }
}

impl Default for SBytes64 {
    /// The all-zero field.
    fn default() -> (out: SBytes64)
        ensures
            out@ == zero64(),
    {
        let out = SBytes64([0u8; 32], [0u8; 32]);
        proof {
            assert(out@ =~= zero64());
        }
        out
    }
}

/// The six data fields of a transaction: four fixed 64-byte fields and
/// two variable byte strings, with kind-dependent meaning.
#[derive(Clone, PartialEq, Eq, Debug)]
pub struct TransactionData(
    pub SBytes64,
    pub SBytes64,
    pub SBytes64,
    pub SBytes64,
    pub Vec<u8>,
    pub Vec<u8>,
);

impl Default for TransactionData {
    /// All fields zeroed or empty.
    fn default() -> (out: TransactionData)
        ensures
            out.0@ == zero64(),
            out.1@ == zero64(),
            out.2@ == zero64(),
            out.3@ == zero64(),
            out.4@ == Seq::<u8>::empty(),
            out.5@ == Seq::<u8>::empty(),
    {
        TransactionData(
            SBytes64::default(),
            SBytes64::default(),
            SBytes64::default(),
            SBytes64::default(),
            Vec::new(),
            Vec::new(),
        )
    }
}

/// A transaction: a kind tag and its six data fields.
#[derive(Clone, PartialEq, Eq, Debug)]
pub struct Transaction {
    pub transaction_type: u8,
    pub data: TransactionData,
}

/// The mathematical shadow of a transaction.
#[verifier::ext_equal]
pub struct TxModel {
    pub kind: u8,
    pub f0: Seq<u8>,
    pub f1: Seq<u8>,
    pub f2: Seq<u8>,
    pub f3: Seq<u8>,
    pub f4: Seq<u8>,
    pub f5: Seq<u8>,
}

impl Transaction {
    /// The transaction's mathematical shadow.
    pub open spec fn model(&self) -> TxModel {
        TxModel {
            kind: self.transaction_type,
            f0: self.data.0@,
            f1: self.data.1@,
            f2: self.data.2@,
            f3: self.data.3@,
            f4: self.data.4@,
            f5: self.data.5@,
        }
    }
}

/// The byte strings a vector of 64-byte fields holds.
pub open spec fn b64_views(v: Seq<SBytes64>) -> Seq<Seq<u8>> {
    Seq::new(v.len(), |i: int| v[i]@)
}

/// The replicated state: the committed keys and their tree root, the
/// spent nullifiers, the keys still unclaimed, and the reveals.
#[derive(Clone, PartialEq, Eq, Debug)]
pub struct BlockState {
    pub merkle_root: SBytes64,
    pub merkle_leaves: Vec<SBytes64>,
    pub nullifiers: Vec<SBytes64>,
    pub unclaimed_pub_keys: Vec<SBytes64>,
    pub revealed_pub_keys: Vec<SBytes64>,
    pub revealed_cts: Vec<Vec<u8>>,
}

/// The mathematical shadow of the state.
#[verifier::ext_equal]
pub struct StateModel {
    pub merkle_root: Seq<u8>,
    pub merkle_leaves: Seq<Seq<u8>>,
    pub nullifiers: Seq<Seq<u8>>,
    pub unclaimed_pub_keys: Seq<Seq<u8>>,
    pub revealed_pub_keys: Seq<Seq<u8>>,
    pub revealed_cts: Seq<Seq<u8>>,
}

impl BlockState {
    /// The state's mathematical shadow.
    pub open spec fn model(&self) -> StateModel {
        StateModel {
            merkle_root: self.merkle_root@,
            merkle_leaves: b64_views(self.merkle_leaves@),
            nullifiers: b64_views(self.nullifiers@),
            unclaimed_pub_keys: b64_views(self.unclaimed_pub_keys@),
            revealed_pub_keys: b64_views(self.revealed_pub_keys@),
            revealed_cts: leaves_view(self.revealed_cts@),
        }
    }
}

/// No two entries hold the same bytes.
pub open spec fn distinct(s: Seq<Seq<u8>>) -> bool {
    forall|i: int, j: int| 0 <= i < j < s.len() ==> s[i] != s[j]
}

/// The state invariants: the tree is not over-full, keys and
/// nullifiers are unique, the claim and reveal sets only name entered
/// keys, each reveal carries its ciphertext, and the stored root is the
/// tree's recomputed root.
pub open spec fn wf_state(g1: Seq<Seq<u8>>, g2: Seq<Seq<u8>>, m: StateModel) -> bool {
    &&& m.merkle_leaves.len() <= 128
    &&& distinct(m.merkle_leaves)
    &&& forall|k: int|
        0 <= k < m.unclaimed_pub_keys.len() ==> m.merkle_leaves.contains(
            #[trigger] m.unclaimed_pub_keys[k],
        )
    &&& forall|k: int|
        0 <= k < m.revealed_pub_keys.len() ==> m.merkle_leaves.contains(
            #[trigger] m.revealed_pub_keys[k],
        )
    &&& distinct(m.nullifiers)
    &&& m.revealed_cts.len() == m.revealed_pub_keys.len()
    &&& m.merkle_root == merkle_root_code(g1, g2, m.merkle_leaves, 7)
}

/// The state-dependent part of transaction verification: everything
/// but the zero-knowledge proof.
pub open spec fn spec_verify_structural(g1: Seq<Seq<u8>>, tx: TxModel, m: StateModel) -> bool {
    if tx.kind == 0 {
        true
    } else if tx.kind == 1 {
        !m.merkle_leaves.contains(tx.f0)
    } else if tx.kind == 2 {
        !m.nullifiers.contains(tx.f1) && m.unclaimed_pub_keys.contains(tx.f0)
    } else if tx.kind == 3 {
        &&& m.merkle_leaves.contains(tx.f0)
        &&& !m.revealed_pub_keys.contains(tx.f0)
        &&& tx.f4.len() <= 128
        &&& tx.f1 == pedersen_code(g1, tx.f4)
    } else {
        false
    }
}

/// The whole decision on a transaction: the state-dependent checks,
/// and for the choice and reveal kinds an accepting Groth16 outcome of the
/// matching circuit under the given verifying keys.
pub open spec fn spec_verify(
    g1: Seq<Seq<u8>>,
    choice_vk: Seq<u8>,
    reveal_vk: Seq<u8>,
    tx: TxModel,
    m: StateModel,
) -> bool {
    &&& spec_verify_structural(g1, tx, m)
    &&& (tx.kind == 2 ==> choice_proof_ok(
        choice_vk,
        tx.f4,
        tx.f1,
        m.merkle_root,
        tx.f0,
        tx.f2,
        tx.f3,
    ))
    &&& (tx.kind == 3 ==> reveal_verdict(reveal_vk, tx.f5, tx.f0, tx.f1, tx.f2, tx.f3))
}

/// A sequence with every occurrence of one value removed.
pub open spec fn remove_all(s: Seq<Seq<u8>>, x: Seq<u8>) -> Seq<Seq<u8>>
    decreases s.len(),
{
    if s.len() == 0 {
        s
    } else {
        let rest = remove_all(s.drop_last(), x);
        if s.last() == x {
            rest
        } else {
            rest.push(s.last())
        }
    }
}

/// What applying a transaction does to the state.
pub open spec fn spec_update_state(
    g1: Seq<Seq<u8>>,
    g2: Seq<Seq<u8>>,
    tx: TxModel,
    m: StateModel,
) -> StateModel {
    if tx.kind == 1 {
        let leaves = m.merkle_leaves.push(tx.f0);
        StateModel {
            merkle_root: merkle_root_code(g1, g2, leaves, 7),
            merkle_leaves: leaves,
            unclaimed_pub_keys: m.unclaimed_pub_keys.push(tx.f0),
            ..m
        }
    } else if tx.kind == 2 {
        StateModel {
            nullifiers: m.nullifiers.push(tx.f1),
            unclaimed_pub_keys: remove_all(m.unclaimed_pub_keys, tx.f0),
            ..m
        }
    } else if tx.kind == 3 {
        StateModel {
            revealed_pub_keys: m.revealed_pub_keys.push(tx.f0),
            revealed_cts: m.revealed_cts.push(tx.f4),
            ..m
        }
    } else {
        m
    }
}

/// Whether a vector of 64-byte fields holds the given bytes.
pub fn contains_b64(v: &Vec<SBytes64>, x: &SBytes64) -> (r: bool)
    ensures
        r == b64_views(v@).contains(x@),
{
    let mut i: usize = 0;
    while i < v.len()
        invariant
            i <= v@.len(),
            forall|t: int| 0 <= t < i ==> v@[t]@ != x@,
        decreases v@.len() - i,
    {
        if v[i].eq_bytes(x) {
            proof {
                assert(b64_views(v@)[i as int] == v@[i as int]@);
            }
            return true;
        }
        i += 1;
    }
    proof {
        assert forall|t: int| 0 <= t < b64_views(v@).len() implies b64_views(v@)[t] != x@ by {
            assert(b64_views(v@)[t] == v@[t]@);
        }
    }
    false
}

fn bytes_eq(a: &[u8], b: &[u8]) -> (r: bool)
    ensures
        r == (a@ == b@),
{
    if a.len() != b.len() {
        return false;
    }
    let mut i: usize = 0;
    while i < a.len()
        invariant
            i <= a@.len(),
            a@.len() == b@.len(),
            forall|t: int| 0 <= t < i ==> a@[t] == b@[t],
        decreases a@.len() - i,
    {
        if a[i] != b[i] {
            return false;
        }
        i += 1;
    }
    proof {
        assert(a@ =~= b@);
    }
    true
}

impl Transaction {
    /// The genesis transaction: kind 0 with the genesis payload.
    pub fn genesis(genesis_data: Vec<u8>) -> (out: Transaction)
        ensures
            out.model() == (TxModel {
                kind: 0,
                f0: zero64(),
                f1: zero64(),
                f2: zero64(),
                f3: zero64(),
                f4: genesis_data@,
                f5: Seq::<u8>::empty(),
            }),
    {
        let mut data = TransactionData::default();
        data.4 = genesis_data;
        Transaction { transaction_type: 0, data }
    }

    /// An enter transaction carrying the given public key.
    pub fn enter(pub_key: &[u8]) -> (out: Transaction)
        requires
            pub_key@.len() >= 64,
        ensures
            out.model() == (TxModel {
                kind: 1,
                f0: pub_key@.subrange(0, 64),
                f1: zero64(),
                f2: zero64(),
                f3: zero64(),
                f4: Seq::<u8>::empty(),
                f5: Seq::<u8>::empty(),
            }),
    {
        let mut data = TransactionData::default();
        data.0 = SBytes64::from_bytes(pub_key);
        Transaction { transaction_type: 1, data }
    }

    /// The state-dependent checks alone: everything `verify` asks
    /// except the zero-knowledge proofs.
    pub fn verify_structural(&self, bs: &BlockState, hash: &crate::hash::Hash) -> (r: bool)
        requires
            hash.wf(),
        ensures
            r == spec_verify_structural(hash.g1(), self.model(), bs.model()),
    {
        if self.transaction_type == 0 {
            true
        } else if self.transaction_type == 1 {
            !contains_b64(&bs.merkle_leaves, &self.data.0)
        } else if self.transaction_type == 2 {
            if contains_b64(&bs.nullifiers, &self.data.1) {
                return false;
            }
            contains_b64(&bs.unclaimed_pub_keys, &self.data.0)
        } else if self.transaction_type == 3 {
            if !contains_b64(&bs.merkle_leaves, &self.data.0) {
                return false;
            }
            if contains_b64(&bs.revealed_pub_keys, &self.data.0) {
                return false;
            }
            if self.data.4.len() > 128 {
                return false;
            }
            let expected_ct_hash = hash.h1(self.data.4.as_slice());
            let ct_hash = self.data.1.to_vec();
            bytes_eq(ct_hash.as_slice(), expected_ct_hash.as_slice())
        } else {
            false
        }
    }

    /// Checks the transaction against the state.  The state-dependent
    /// checks come first; only a transaction that passes them reaches
    /// its circuit's verifier, whose verdict then decides.
    pub fn verify(
        &self,
        bs: &BlockState,
        hash: &crate::hash::Hash,
        ca: &ChoiceAuthVerifier,
        ra: &RevealAuthVerifier,
    ) -> (r: bool)
        requires
            hash.wf(),
        ensures
            r == spec_verify(hash.g1(), ca.vk(), ra.vk(), self.model(), bs.model()),
    {
        if !self.verify_structural(bs, hash) {
            return false;
        }
        if self.transaction_type == 2 {
            let nullifier = self.data.1.to_vec();
            let root = self.merkle_root_of(bs);
            let choice = self.data.0.to_vec();
            let dh_pub_key = self.data.2.to_vec();
            let signature = self.data.3.to_vec();
            ca.verify(
                self.data.4.as_slice(),
                nullifier.as_slice(),
                root.as_slice(),
                choice.as_slice(),
                dh_pub_key.as_slice(),
                signature.as_slice(),
            )
        } else if self.transaction_type == 3 {
            let ct_hash = self.data.1.to_vec();
            let pk = self.data.0.to_vec();
            let dh_pub_key = self.data.2.to_vec();
            let signature = self.data.3.to_vec();
            ra.verify(
                self.data.5.as_slice(),
                pk.as_slice(),
                ct_hash.as_slice(),
                dh_pub_key.as_slice(),
                signature.as_slice(),
            )
        } else {
            true
        }
    }

    fn merkle_root_of(&self, bs: &BlockState) -> (out: Vec<u8>)
        ensures
            out@ == bs.model().merkle_root,
    {
        bs.merkle_root.to_vec()
    }

    /// Applies the transaction to the state.  An enter needs room for
    /// one more leaf; the tree root is recomputed over the grown leaf
    /// set.
    pub fn update_state(&self, bs: &mut BlockState, hash: &crate::hash::Hash)
        requires
            hash.wf(),
            self.transaction_type == 1 ==> old(bs).model().merkle_leaves.len() < 128,
        ensures
            final(bs).model() == spec_update_state(
                hash.g1(),
                hash.g2(),
                self.model(),
                old(bs).model(),
            ),
    {
        if self.transaction_type == 1 {
            bs.merkle_leaves.push(self.data.0);
            bs.unclaimed_pub_keys.push(self.data.0);
            proof {
                assert(b64_views(bs.merkle_leaves@) =~= old(bs).model().merkle_leaves.push(
                    self.data.0@,
                ));
                assert(b64_views(bs.unclaimed_pub_keys@) =~= old(
                    bs,
                ).model().unclaimed_pub_keys.push(self.data.0@));
            }
            let mut leaf_vecs: Vec<Vec<u8>> = Vec::new();
            let mut i: usize = 0;
            while i < bs.merkle_leaves.len()
                invariant
                    i <= bs.merkle_leaves@.len(),
                    leaf_vecs@.len() == i,
                    forall|t: int| 0 <= t < i ==> (#[trigger] leaf_vecs@[t])@ == bs.merkle_leaves@[t]@,
                decreases bs.merkle_leaves@.len() - i,
            {
                leaf_vecs.push(bs.merkle_leaves[i].to_vec());
                i += 1;
            }
            proof {
                assert(leaves_view(leaf_vecs@) =~= b64_views(bs.merkle_leaves@));
                assert(two_pow(7) == 128) by {
                    reveal_with_fuel(two_pow, 9);
                }
                assert(crate::merkle::leaves_ok(leaves_view(leaf_vecs@))) by {
                    assert forall|t: int|
                        0 <= t < leaves_view(leaf_vecs@).len() implies (#[trigger] leaves_view(
                        leaf_vecs@,
                    )[t]).len() <= 128 by {
                        assert(leaves_view(leaf_vecs@)[t] == bs.merkle_leaves@[t]@);
                    }
                }
            }
            let mt = MerkleTree::new(hash, MERKLE_TREE_DEPTH, &leaf_vecs);
            let root = mt.root();
            bs.merkle_root = SBytes64::from_bytes(root.as_slice());
            proof {
                assert(bs.merkle_root@ =~= root@);
                assert(bs.model() =~= spec_update_state(
                    hash.g1(),
                    hash.g2(),
                    self.model(),
                    old(bs).model(),
                ));
            }
        } else if self.transaction_type == 2 {
            bs.nullifiers.push(self.data.1);
            let mut kept: Vec<SBytes64> = Vec::new();
            let mut i: usize = 0;
            while i < bs.unclaimed_pub_keys.len()
                invariant
                    i <= bs.unclaimed_pub_keys@.len(),
                    b64_views(kept@) =~= remove_all(
                        b64_views(bs.unclaimed_pub_keys@).take(i as int),
                        self.data.0@,
                    ),
                decreases bs.unclaimed_pub_keys@.len() - i,
            {
                let ghost prefix = b64_views(bs.unclaimed_pub_keys@).take(i as int);
                let keep = !bs.unclaimed_pub_keys[i].eq_bytes(&self.data.0);
                if keep {
                    kept.push(bs.unclaimed_pub_keys[i]);
                }
                proof {
                    let next = b64_views(bs.unclaimed_pub_keys@).take(i as int + 1);
                    assert(next.drop_last() =~= prefix);
                    assert(next.last() == bs.unclaimed_pub_keys@[i as int]@);
                    if keep {
                        assert(b64_views(kept@) =~= remove_all(next, self.data.0@));
                    } else {
                        assert(b64_views(kept@) =~= remove_all(next, self.data.0@));
                    }
                }
                i += 1;
            }
            proof {
                assert(b64_views(bs.unclaimed_pub_keys@).take(
                    bs.unclaimed_pub_keys@.len() as int,
                ) =~= b64_views(bs.unclaimed_pub_keys@));
            }
            bs.unclaimed_pub_keys = kept;
            proof {
                assert(b64_views(bs.nullifiers@) =~= old(bs).model().nullifiers.push(
                    self.data.1@,
                ));
                assert(bs.model() =~= spec_update_state(
                    hash.g1(),
                    hash.g2(),
                    self.model(),
                    old(bs).model(),
                ));
            }
        } else if self.transaction_type == 3 {
            bs.revealed_pub_keys.push(self.data.0);
            let ct = clone_bytes(&self.data.4);
            bs.revealed_cts.push(ct);
            proof {
                assert(b64_views(bs.revealed_pub_keys@) =~= old(
                    bs,
                ).model().revealed_pub_keys.push(self.data.0@));
                assert(leaves_view(bs.revealed_cts@) =~= old(bs).model().revealed_cts.push(
                    self.data.4@,
                ));
                assert(bs.model() =~= spec_update_state(
                    hash.g1(),
                    hash.g2(),
                    self.model(),
                    old(bs).model(),
                ));
            }
        } else {
            proof {
                assert(bs.model() =~= spec_update_state(
                    hash.g1(),
                    hash.g2(),
                    self.model(),
                    old(bs).model(),
                ));
            }
        }
    }
}

/// An enter transaction carrying the given public key.
pub fn create_enter_tx(pub_key: &[u8]) -> (out: Transaction)
    requires
        pub_key@.len() >= 64,
    ensures
        out.model() == (TxModel {
            kind: 1,
            f0: pub_key@.subrange(0, 64),
            f1: zero64(),
            f2: zero64(),
            f3: zero64(),
            f4: Seq::<u8>::empty(),
            f5: Seq::<u8>::empty(),
        }),
{
    Transaction::enter(pub_key)
}

impl BlockState {
    /// The empty state at genesis: no participants, and the root of
    /// the all-zero tree.
    pub fn genesis(hash: &crate::hash::Hash) -> (out: BlockState)
        requires
            hash.wf(),
        ensures
            out.model() == (StateModel {
                merkle_root: merkle_root_code(hash.g1(), hash.g2(), Seq::<Seq<u8>>::empty(), 7),
                merkle_leaves: Seq::<Seq<u8>>::empty(),
                nullifiers: Seq::<Seq<u8>>::empty(),
                unclaimed_pub_keys: Seq::<Seq<u8>>::empty(),
                revealed_pub_keys: Seq::<Seq<u8>>::empty(),
                revealed_cts: Seq::<Seq<u8>>::empty(),
            }),
            wf_state(hash.g1(), hash.g2(), out.model()),
    {
        let none: Vec<Vec<u8>> = Vec::new();
        proof {
            assert(two_pow(7) == 128) by {
                reveal_with_fuel(two_pow, 9);
            }
            assert(leaves_view(none@) =~= Seq::<Seq<u8>>::empty());
        }
        let mt = MerkleTree::new(hash, MERKLE_TREE_DEPTH, &none);
        let root = mt.root();
        let out = BlockState {
            merkle_root: SBytes64::from_bytes(root.as_slice()),
            merkle_leaves: Vec::new(),
            nullifiers: Vec::new(),
            unclaimed_pub_keys: Vec::new(),
            revealed_pub_keys: Vec::new(),
            revealed_cts: Vec::new(),
        };
        proof {
            assert(out.merkle_root@ =~= root@);
            assert(b64_views(out.merkle_leaves@) =~= Seq::<Seq<u8>>::empty());
            assert(b64_views(out.nullifiers@) =~= Seq::<Seq<u8>>::empty());
            assert(b64_views(out.unclaimed_pub_keys@) =~= Seq::<Seq<u8>>::empty());
            assert(b64_views(out.revealed_pub_keys@) =~= Seq::<Seq<u8>>::empty());
            assert(leaves_view(out.revealed_cts@) =~= Seq::<Seq<u8>>::empty());
            assert(out.model() =~= (StateModel {
                merkle_root: merkle_root_code(hash.g1(), hash.g2(), Seq::<Seq<u8>>::empty(), 7),
                merkle_leaves: Seq::<Seq<u8>>::empty(),
                nullifiers: Seq::<Seq<u8>>::empty(),
                unclaimed_pub_keys: Seq::<Seq<u8>>::empty(),
                revealed_pub_keys: Seq::<Seq<u8>>::empty(),
                revealed_cts: Seq::<Seq<u8>>::empty(),
            }));
        }
        out
    }
}

/// Entries that survive the removal were there before, and none of
/// them is the removed value.
proof fn lemma_remove_all_props(s: Seq<Seq<u8>>, x: Seq<u8>)
    ensures
        forall|k: int|
            0 <= k < remove_all(s, x).len() ==> s.contains(#[trigger] remove_all(s, x)[k])
                && remove_all(s, x)[k] != x,
    decreases s.len(),
{
    if s.len() > 0 {
        lemma_remove_all_props(s.drop_last(), x);
        let r = remove_all(s, x);
        let rest = remove_all(s.drop_last(), x);
        assert forall|k: int| 0 <= k < r.len() implies s.contains(#[trigger] r[k]) && r[k]
            != x by {
            if k < rest.len() {
                assert(rest[k] == r[k]);
                let w = choose|w: int| 0 <= w < s.drop_last().len() && s.drop_last()[w] == rest[k];
                assert(s[w] == rest[k]);
            } else {
                assert(r[k] == s.last());
                assert(s[s.len() - 1] == s.last());
            }
        }
    }
}

/// The state invariants hold in every reachable state: any
/// structurally valid transaction applied to a well-formed state with
/// room for it leaves the state well-formed.
pub proof fn lemma_update_preserves_invariants(
    g1: Seq<Seq<u8>>,
    g2: Seq<Seq<u8>>,
    tx: TxModel,
    m: StateModel,
)
    requires
        wf_state(g1, g2, m),
        spec_verify_structural(g1, tx, m),
        tx.kind == 1 ==> m.merkle_leaves.len() < 128,
    ensures
        wf_state(g1, g2, spec_update_state(g1, g2, tx, m)),
{
    let u = spec_update_state(g1, g2, tx, m);
    if tx.kind == 1 {
        let leaves = m.merkle_leaves.push(tx.f0);
        assert(distinct(leaves)) by {
            assert forall|i: int, j: int| 0 <= i < j < leaves.len() implies leaves[i]
                != leaves[j] by {
                if j == leaves.len() - 1 {
                    assert(leaves[i] == m.merkle_leaves[i]);
                    assert(m.merkle_leaves.contains(m.merkle_leaves[i]));
                }
            }
        }
        assert forall|k: int| 0 <= k < u.unclaimed_pub_keys.len() implies u.merkle_leaves.contains(
            #[trigger] u.unclaimed_pub_keys[k],
        ) by {
            if k < m.unclaimed_pub_keys.len() {
                assert(u.unclaimed_pub_keys[k] == m.unclaimed_pub_keys[k]);
                let w = choose|w: int|
                    0 <= w < m.merkle_leaves.len() && m.merkle_leaves[w] == m.unclaimed_pub_keys[k];
                assert(leaves[w] == m.unclaimed_pub_keys[k]);
            } else {
                assert(u.unclaimed_pub_keys[k] == tx.f0);
                assert(leaves[leaves.len() - 1] == tx.f0);
            }
        }
        assert forall|k: int| 0 <= k < u.revealed_pub_keys.len() implies u.merkle_leaves.contains(
            #[trigger] u.revealed_pub_keys[k],
        ) by {
            let w = choose|w: int|
                0 <= w < m.merkle_leaves.len() && m.merkle_leaves[w] == m.revealed_pub_keys[k];
            assert(leaves[w] == m.revealed_pub_keys[k]);
        }
    } else if tx.kind == 2 {
        assert(distinct(u.nullifiers)) by {
            let ns = m.nullifiers.push(tx.f1);
            assert forall|i: int, j: int| 0 <= i < j < ns.len() implies ns[i] != ns[j] by {
                if j == ns.len() - 1 {
                    assert(ns[i] == m.nullifiers[i]);
                    assert(m.nullifiers.contains(m.nullifiers[i]));
                }
            }
        }
        lemma_remove_all_props(m.unclaimed_pub_keys, tx.f0);
        assert forall|k: int| 0 <= k < u.unclaimed_pub_keys.len() implies u.merkle_leaves.contains(
            #[trigger] u.unclaimed_pub_keys[k],
        ) by {
            assert(m.unclaimed_pub_keys.contains(u.unclaimed_pub_keys[k]));
            let w = choose|w: int|
                0 <= w < m.unclaimed_pub_keys.len() && m.unclaimed_pub_keys[w]
                    == u.unclaimed_pub_keys[k];
        }
    } else if tx.kind == 3 {
        assert forall|k: int| 0 <= k < u.revealed_pub_keys.len() implies u.merkle_leaves.contains(
            #[trigger] u.revealed_pub_keys[k],
        ) by {
            if k == u.revealed_pub_keys.len() - 1 {
                assert(u.revealed_pub_keys[k] == tx.f0);
            } else {
                assert(u.revealed_pub_keys[k] == m.revealed_pub_keys[k]);
            }
        }
    }
}

/// Whether a transaction would be accepted against a state: its
/// state-dependent checks pass and, for an enter, the tree has room.
pub open spec fn spec_accepted(g1: Seq<Seq<u8>>, tx: TxModel, m: StateModel) -> bool {
    spec_verify_structural(g1, tx, m) && (tx.kind == 1 ==> m.merkle_leaves.len() < 128)
}

/// The state after a whole run of transactions, applied in order.
pub open spec fn spec_apply_all(
    g1: Seq<Seq<u8>>,
    g2: Seq<Seq<u8>>,
    txs: Seq<TxModel>,
    m: StateModel,
) -> StateModel
    decreases txs.len(),
{
    if txs.len() == 0 {
        m
    } else {
        spec_apply_all(g1, g2, txs.drop_first(), spec_update_state(g1, g2, txs.first(), m))
    }
}

/// Whether every transaction of a run is accepted against the state
/// it meets.
pub open spec fn spec_run_accepted(
    g1: Seq<Seq<u8>>,
    g2: Seq<Seq<u8>>,
    txs: Seq<TxModel>,
    m: StateModel,
) -> bool
    decreases txs.len(),
{
    txs.len() == 0 || (spec_accepted(g1, txs.first(), m) && spec_run_accepted(
        g1,
        g2,
        txs.drop_first(),
        spec_update_state(g1, g2, txs.first(), m),
    ))
}

/// The state invariants hold after any run of accepted transactions
/// from a well-formed state.
pub proof fn lemma_run_preserves_invariants(
    g1: Seq<Seq<u8>>,
    g2: Seq<Seq<u8>>,
    txs: Seq<TxModel>,
    m: StateModel,
)
    requires
        wf_state(g1, g2, m),
        spec_run_accepted(g1, g2, txs, m),
    ensures
        wf_state(g1, g2, spec_apply_all(g1, g2, txs, m)),
    decreases txs.len(),
{
    if txs.len() > 0 {
        lemma_update_preserves_invariants(g1, g2, txs.first(), m);
        lemma_run_preserves_invariants(
            g1,
            g2,
            txs.drop_first(),
            spec_update_state(g1, g2, txs.first(), m),
        );
    }
}

/// Applying a transaction is deterministic: equal transactions against
/// equal states give equal states.
pub proof fn lemma_update_deterministic(
    g1: Seq<Seq<u8>>,
    g2: Seq<Seq<u8>>,
    tx1: TxModel,
    tx2: TxModel,
    m1: StateModel,
    m2: StateModel,
)
    requires
        tx1 == tx2,
        m1 == m2,
    ensures
        spec_update_state(g1, g2, tx1, m1) == spec_update_state(g1, g2, tx2, m2),
{
}

} // verus!
