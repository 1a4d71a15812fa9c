//! Block-level checks around the transaction semantics.
//!
//! A block names its parent, its height and its proposal time.  A
//! non-genesis block is accepted only on top of the last accepted
//! block, one height above its parent, no earlier than its parent and
//! less than an hour ahead of the local clock; its transaction is then
//! checked against the current state.  The genesis block (height zero,
//! empty parent) skips all of that.

use vstd::prelude::*;

verus! {

/// Seconds a block's timestamp may run ahead of the local clock.
pub const MAX_CLOCK_SKEW_SECS: u64 = 3600;

/// What a block is currently known to be.
#[derive(Clone, Copy, PartialEq, Eq, Debug, Structural)]
pub enum BlockStatus {
    Processing,
    Accepted,
    Rejected,
}

/// Why a block fails its checks.
#[derive(Clone, Copy, PartialEq, Eq, Debug, Structural)]
pub enum BlockError {
    /// The parent is not the last accepted block.
    NotOnLastAccepted,
    /// The height is not one above the parent's.
    HeightNotAboveParent,
    /// The timestamp runs before the parent's.
    TimestampBeforeParent,
    /// The timestamp runs an hour or more ahead of the local clock.
    TimestampTooFarAhead,
    /// The transaction failed against the current state.
    InvalidTransaction,
}

/// The all-zero 32-byte id of the missing parent of genesis.
pub open spec fn empty_id() -> Seq<u8> {
    Seq::new(32, |i: int| 0u8)
}

/// The genesis block: height zero with the empty parent id.
pub open spec fn spec_is_genesis(height: u64, parent_id: Seq<u8>) -> bool {
    height == 0 && parent_id == empty_id()
}

/// Whether a block is the genesis block, which skips every other
/// check.
pub fn is_genesis_block(height: u64, parent_id: &[u8]) -> (r: bool)
    ensures
        r == spec_is_genesis(height, parent_id@),
{
    if height != 0 {
        return false;
    }
    if parent_id.len() != 32 {
        proof {
            assert(parent_id@ != empty_id());
        }
        return false;
    }
    let mut i: usize = 0;
    while i < 32
        invariant
            i <= 32,
            parent_id@.len() == 32,
            forall|t: int| 0 <= t < i ==> parent_id@[t] == 0u8,
        decreases 32 - i,
    {
        if parent_id[i] != 0 {
            proof {
                assert(parent_id@[i as int] != empty_id()[i as int]);
            }
            return false;
        }
        i += 1;
    }
    proof {
        assert(parent_id@ =~= empty_id());
    }
    true
}

/// The verdict of the lineage checks, in the order they run: parent
/// identity, height, monotone time, clock skew.
pub open spec fn spec_verify_lineage(
    parent_id: Seq<u8>,
    height: u64,
    timestamp: u64,
    last_accepted_id: Seq<u8>,
    parent_height: u64,
    parent_timestamp: u64,
    now: u64,
) -> Result<(), BlockError> {
    if parent_id != last_accepted_id {
        Err(BlockError::NotOnLastAccepted)
    } else if parent_height + 1 != height {
        Err(BlockError::HeightNotAboveParent)
    } else if parent_timestamp > timestamp {
        Err(BlockError::TimestampBeforeParent)
    } else if timestamp >= now + MAX_CLOCK_SKEW_SECS {
        Err(BlockError::TimestampTooFarAhead)
    } else {
        Ok(())
    }
}

/// Runs the lineage checks of a non-genesis block against its parent,
/// the last accepted id and the local clock.
pub fn verify_block_lineage(
    parent_id: &[u8],
    height: u64,
    timestamp: u64,
    last_accepted_id: &[u8],
    parent_height: u64,
    parent_timestamp: u64,
    now: u64,
) -> (out: Result<(), BlockError>)
    requires
        now + MAX_CLOCK_SKEW_SECS <= u64::MAX,
    ensures
        out == spec_verify_lineage(
            parent_id@,
            height,
            timestamp,
            last_accepted_id@,
            parent_height,
            parent_timestamp,
            now,
        ),
{
    if !ids_eq(parent_id, last_accepted_id) {
        return Err(BlockError::NotOnLastAccepted);
    }
    if parent_height >= u64::MAX || parent_height + 1 != height {
        return Err(BlockError::HeightNotAboveParent);
    }
    if parent_timestamp > timestamp {
        return Err(BlockError::TimestampBeforeParent);
    }
    if timestamp >= now + MAX_CLOCK_SKEW_SECS {
        return Err(BlockError::TimestampTooFarAhead);
    }
    Ok(())
}

fn ids_eq(a: &[u8], b: &[u8]) -> (r: bool)
    ensures
        r == (a@ == b@),
{
    if a.len() != b.len() {
        return false;
    }
    let mut i: usize = 0;
    while i < a.len()
        invariant
            i <= a@.len(),
            a@.len() == b@.len(),
            forall|t: int| 0 <= t < i ==> a@[t] == b@[t],
        decreases a@.len() - i,
    {
        if a[i] != b[i] {
            return false;
        }
        i += 1;
    }
    proof {
        assert(a@ =~= b@);
    }
    true
}

/// The whole verdict on a block, in the order the pipeline runs it:
/// the genesis short-circuit, then the lineage checks, then the
/// transaction against the current state.  (Whether the block was
/// already persisted is a store question and stays with the caller.)
pub open spec fn spec_verify_block(
    parent_id: Seq<u8>,
    height: u64,
    timestamp: u64,
    last_accepted_id: Seq<u8>,
    parent_height: u64,
    parent_timestamp: u64,
    now: u64,
    g1: Seq<Seq<u8>>,
    choice_vk: Seq<u8>,
    reveal_vk: Seq<u8>,
    tx: crate::transaction::TxModel,
    m: crate::transaction::StateModel,
) -> Result<(), BlockError> {
    if spec_is_genesis(height, parent_id) {
        Ok(())
    } else if spec_verify_lineage(
        parent_id,
        height,
        timestamp,
        last_accepted_id,
        parent_height,
        parent_timestamp,
        now,
    ) is Err {
        spec_verify_lineage(
            parent_id,
            height,
            timestamp,
            last_accepted_id,
            parent_height,
            parent_timestamp,
            now,
        )
    } else if crate::transaction::spec_verify(g1, choice_vk, reveal_vk, tx, m) {
        Ok(())
    } else {
        Err(BlockError::InvalidTransaction)
    }
}

/// Decides a block: genesis passes outright; anything else must sit on
/// the last accepted block, keep time, and carry a transaction the
/// current state accepts.
pub fn verify_block(
    parent_id: &[u8],
    height: u64,
    timestamp: u64,
    last_accepted_id: &[u8],
    parent_height: u64,
    parent_timestamp: u64,
    now: u64,
    tx: &crate::transaction::Transaction,
    bs: &crate::transaction::BlockState,
    hash: &crate::hash::Hash,
    ca: &crate::proofs::ChoiceAuthVerifier,
    ra: &crate::proofs::RevealAuthVerifier,
) -> (out: Result<(), BlockError>)
    requires
        hash.wf(),
        now + MAX_CLOCK_SKEW_SECS <= u64::MAX,
    ensures
        out == spec_verify_block(
            parent_id@,
            height,
            timestamp,
            last_accepted_id@,
            parent_height,
            parent_timestamp,
            now,
            hash.g1(),
            ca.vk(),
            ra.vk(),
            tx.model(),
            bs.model(),
        ),
{
    if is_genesis_block(height, parent_id) {
        return Ok(());
    }
    match verify_block_lineage(
        parent_id,
        height,
        timestamp,
        last_accepted_id,
        parent_height,
        parent_timestamp,
        now,
    ) {
        Err(e) => Err(e),
        Ok(()) => {
            if tx.verify(bs, hash, ca, ra) {
                Ok(())
            } else {
                Err(BlockError::InvalidTransaction)
            }
        },
    }
}

/// A failed lineage check names the first check that failed, and a
/// lineage verdict never depends on the state: a block rejected for
/// its parent leaves every state untouched.
pub proof fn lemma_lineage_rejects_wrong_parent(
    parent_id: Seq<u8>,
    height: u64,
    timestamp: u64,
    last_accepted_id: Seq<u8>,
    parent_height: u64,
    parent_timestamp: u64,
    now: u64,
)
    requires
        parent_id != last_accepted_id,
    ensures
        spec_verify_lineage(
            parent_id,
            height,
            timestamp,
            last_accepted_id,
            parent_height,
            parent_timestamp,
            now,
        ) == Result::<(), BlockError>::Err(BlockError::NotOnLastAccepted),
{
}

} // verus!
