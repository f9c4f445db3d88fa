//! The verifiers of the exit game: existence of an output under a committed
//! root, fraud by double spending, ownership, value exchange, and readiness
//! for finalization.
use vstd::prelude::*;
use crate::merkle::MerkleProof;
use crate::primitives::{
    AccountId, Amount, BlockNumber, Digest, ExitError, ExitState, Moment, digest_eq, digest_views,
};
use crate::roots::RootCommitment;
use crate::status::{ChallengeStatus, ExitStatus};
use crate::utxo::Utxo;

verus! {

/// Whether the two runs of identities have one in common.
pub open spec fn share_input(target: Seq<Seq<u8>>, challenge: Seq<Seq<u8>>) -> bool {
    exists|i: int, j: int|
        0 <= i < target.len() && 0 <= j < challenge.len() && target[i] == challenge[j]
}

/// What a fraud proof comes to. An exit claimed under a block that is not
/// later than the challenge's is out of order, whatever the inputs; a later
/// one is fraudulent where it spends an output that the challenge spends
/// too.
pub open spec fn fraud_outcome(
    target_blk: BlockNumber,
    challenge_blk: BlockNumber,
    target_inputs: Seq<Seq<u8>>,
    challenge_inputs: Seq<Seq<u8>>,
) -> Result<(), ExitError> {
    if target_blk <= challenge_blk {
        Err(ExitError::InvalidOrdering)
    } else if share_input(target_inputs, challenge_inputs) {
        Ok(())
    } else {
        Err(ExitError::NoConflict)
    }
}

/// What an existence proof comes to, given the root committed for the block
/// (if any), the root recomputed along the proof's path, the leaf that the
/// proof declares and the identity of the output.
pub open spec fn existence_outcome(
    committed: Option<Seq<u8>>,
    root: Seq<u8>,
    leaf: Seq<u8>,
    utxo_hash: Seq<u8>,
) -> Result<(), ExitError> {
    match committed {
        None => Err(ExitError::ProofNotFound),
        Some(expected) => if expected != root {
            Err(ExitError::InvalidRoot)
        } else if utxo_hash != leaf {
            Err(ExitError::InvalidLeaf)
        } else {
            Ok(())
        },
    }
}

/// What the ownership check comes to: the claimant must be one of the
/// owners, and one signature must be enough to spend.
pub open spec fn ownership_outcome(exitor: AccountId, owners: Seq<AccountId>, quorum: u32) -> Result<
    (),
    ExitError,
> {
    if owners.contains(exitor) && quorum == 1 {
        Ok(())
    } else {
        Err(ExitError::InvalidExitor)
    }
}

/// The parent-denominated amount that a child-denominated amount is worth.
pub open spec fn spec_exchange(c: Amount) -> Amount {
    c
}

/// Whether an exit in `state`, whose window ends at `expired`, can be
/// finalized at the time `now`.
pub open spec fn finalize_outcome(state: ExitState, expired: Moment, now: Moment) -> Result<
    (),
    ExitError,
> {
    match state {
        ExitState::Exiting => if now > expired {
            Ok(())
        } else {
            Err(ExitError::NotYetExpired)
        },
        ExitState::Challenged => Err(ExitError::AlreadyChallenged),
        ExitState::Finalized => Err(ExitError::AlreadyFinalized),
    }
}

/// Whether `digest` is among `digests`.
fn contains_digest(digests: &Vec<Digest>, digest: &Digest) -> (found: bool)
    ensures
        found == exists|j: int| 0 <= j < digests@.len() && digests@[j]@ == digest@,
{
    let mut j: usize = 0;
    while j < digests.len()
        invariant
            j <= digests@.len(),
            forall|k: int| 0 <= k < j ==> digests@[k]@ != digest@,
        decreases digests@.len() - j,
    {
        if digest_eq(&digests[j], digest) {
            return true;
        }
        j = j + 1;
    }
    false
}

/// The detector of double spending.
pub struct FraudProof;

impl FraudProof {
    /// Judges a challenge from the two block numbers and the identities of
    /// the outputs that each side spends.
    pub fn conflict(
        target_blk: BlockNumber,
        challenge_blk: BlockNumber,
        target_inputs: &Vec<Digest>,
        challenge_inputs: &Vec<Digest>,
    ) -> (r: Result<(), ExitError>)
        ensures
            r == fraud_outcome(
                target_blk,
                challenge_blk,
                digest_views(target_inputs@),
                digest_views(challenge_inputs@),
            ),
    {
        if target_blk <= challenge_blk {
            return Err(ExitError::InvalidOrdering);
        }
        let ghost target = digest_views(target_inputs@);
        let ghost challenge = digest_views(challenge_inputs@);
        let mut i: usize = 0;
        while i < target_inputs.len()
            invariant
                i <= target_inputs@.len(),
                target_blk > challenge_blk,
                target == digest_views(target_inputs@),
                challenge == digest_views(challenge_inputs@),
                forall|a: int, b: int|
                    0 <= a < i && 0 <= b < challenge.len() ==> target[a] != challenge[b],
            decreases target_inputs@.len() - i,
        {
            if contains_digest(challenge_inputs, &target_inputs[i]) {
                proof {
                    let j = choose|j: int|
                        0 <= j < challenge_inputs@.len() && challenge_inputs@[j]@
                            == target_inputs@[i as int]@;
                    assert(0 <= j < challenge.len() && target[i as int] == challenge[j]);
                }
                return Ok(());
            }
            assert forall|b: int| 0 <= b < challenge.len() implies target[i as int]
                != challenge[b] by {
                assert(challenge[b] == challenge_inputs@[b]@);
            }
            i = i + 1;
        }
        Err(ExitError::NoConflict)
    }

    /// Judges the challenge `challenge` against the exit `target`.
    pub fn verify(target: &ExitStatus, challenge: &ChallengeStatus) -> (r: Result<(), ExitError>)
        ensures
            r == fraud_outcome(
                target@.blk_num,
                challenge@.blk_num,
                target@.utxo.inputs(),
                challenge@.utxo.inputs(),
            ),
    {
        let target_inputs = target.utxo().inputs();
        let challenge_inputs = challenge.utxo().inputs();
        FraudProof::conflict(
            *target.blk_num(),
            *challenge.blk_num(),
            &target_inputs,
            &challenge_inputs,
        )
    }
}

/// The judge of ownership.
pub struct ExitorHasChcker;

impl ExitorHasChcker {
    /// Whether `exitor` may exit `utxo` by itself.
    pub fn check(exitor: &AccountId, utxo: &Utxo) -> (r: Result<(), ExitError>)
        ensures
            r == ownership_outcome(*exitor, utxo@.owners(), utxo@.quorum()),
    {
        let owners = utxo.owners();
        let mut found = false;
        let mut i: usize = 0;
        while i < owners.len()
            invariant
                i <= owners@.len(),
                found == exists|k: int| 0 <= k < i && owners@[k] == *exitor,
            decreases owners@.len() - i,
        {
            if owners[i] == *exitor {
                found = true;
            }
            i = i + 1;
        }
        if found && utxo.quorum() == 1 {
            Ok(())
        } else {
            Err(ExitError::InvalidExitor)
        }
    }
}

/// The verifier of existence under a committed root.
pub struct ExistProofs;

impl ExistProofs {
    /// Judges an existence proof from the root committed for the block (if
    /// any), the root recomputed along the path, the declared leaf and the
    /// identity of the output.
    pub fn check(committed: Option<Digest>, root: &Digest, leaf: &Digest, utxo_hash: &Digest) -> (r:
        Result<(), ExitError>)
        ensures
            r == existence_outcome(
                match committed {
                    Some(expected) => Some(expected@),
                    None => None,
                },
                root@,
                leaf@,
                utxo_hash@,
            ),
    {
        match committed {
            None => Err(ExitError::ProofNotFound),
            Some(expected) => {
                if !digest_eq(&expected, root) {
                    Err(ExitError::InvalidRoot)
                } else if !digest_eq(utxo_hash, leaf) {
                    Err(ExitError::InvalidLeaf)
                } else {
                    Ok(())
                }
            },
        }
    }

    /// Whether `utxo` was included in the block `blk_num`: a root was
    /// committed for the block, the path of `proof` leads from the identity
    /// of `utxo` to that root, and `proof` declares that identity as its
    /// leaf.
    pub fn is_exist(
        roots: &RootCommitment,
        blk_num: &BlockNumber,
        utxo: &Utxo,
        proof: &MerkleProof,
    ) -> (r: Result<(), ExitError>)
        ensures
            r == existence_outcome(
                if roots@.contains_key(*blk_num) {
                    Some(roots@[*blk_num])
                } else {
                    None
                },
                proof@.root_from(utxo@.hash()),
                proof@.leaf(),
                utxo@.hash(),
            ),
    {
        let committed = roots.get(*blk_num);
        let utxo_hash = utxo.hash();
        let root = proof.root_from(&utxo_hash);
        ExistProofs::check(committed, &root, proof.leaf(), &utxo_hash)
    }
}

/// The exchanger of child-denominated value for parent-denominated value.
pub struct Exchanger;

impl Exchanger {
    /// The parent-denominated amount that `c` is worth. Both amounts are
    /// counted in the same unsigned 64-bit unit, so no amount is out of
    /// range and nothing is lost.
    pub fn exchange(c: Amount) -> (p: Amount)
        ensures
            p == spec_exchange(c),
    {
        c
    }
}

/// The judge of readiness for finalization.
pub struct Finalizer;

impl Finalizer {
    /// Whether the exit `e` can be finalized at the time `now`.
    pub fn validate(e: &ExitStatus, now: Moment) -> (r: Result<(), ExitError>)
        ensures
            r == finalize_outcome(e@.state, e@.expired, now),
    {
        match e.state() {
            ExitState::Exiting => {
                if now > *e.expired() {
                    Ok(())
                } else {
                    Err(ExitError::NotYetExpired)
                }
            },
            ExitState::Challenged => Err(ExitError::AlreadyChallenged),
            ExitState::Finalized => Err(ExitError::AlreadyFinalized),
        }
    }
}

} // verus!
