//! What holds of the exit game as a whole: laws that relate several of its
//! operations, proved over their models.
use vstd::prelude::*;
use crate::checks::{existence_outcome, fraud_outcome, share_input, spec_exchange};
use crate::codec::{Wire, le32, le64, lemma_le32_value, lemma_le64_value};
use crate::hashing::blake2_256;
use crate::ledger::LedgerView;
use crate::parent::{
    ModuleView, challenge_outcome, exit_challenge_outcome, exit_finalize_outcome,
    exit_start_outcome, new_exit, paid_in, paid_out, payout, payout_owner, proof_of,
    start_outcome, submit_outcome,
};
use crate::primitives::{
    AccountId, Amount, BlockNumber, EXIT_WAITING_MOMENT, ExitError, ExitState, Moment,
};
use crate::status::{ExitStatusView, state_tag};
use crate::transaction::TransactionView;
use crate::utxo::{UtxoView, decoded};

verus! {

/// Whether the hasher gives two different byte strings the same digest.
pub open spec fn collide(x: Seq<u8>, y: Seq<u8>) -> bool {
    x != y && blake2_256(x) == blake2_256(y)
}

/// Two transactions with the same bytes are the same transaction.
pub proof fn lemma_transaction_bytes_tell_apart(a: TransactionView, b: TransactionView)
    requires
        a.wire_ok(),
        b.wire_ok(),
        a.wire() == b.wire(),
    ensures
        a == b,
{
    a.lemma_parse_wire(Seq::empty());
    b.lemma_parse_wire(Seq::empty());
}

/// Two outputs with the same bytes are the same output: the bytes change
/// whenever the transaction or the index changes.
pub proof fn lemma_utxo_bytes_tell_apart(a: UtxoView, b: UtxoView)
    requires
        a.wire_ok(),
        b.wire_ok(),
        a.wire() == b.wire(),
    ensures
        a == b,
{
    a.lemma_parse_wire(Seq::empty());
    b.lemma_parse_wire(Seq::empty());
}

/// The identity of an output changes whenever its transaction or its index
/// changes, unless the hasher collides: two different outputs have different
/// identities, or the hasher gives the bytes of their transactions the same
/// digest, or it gives the two byte strings made of a transaction digest and
/// an index the same digest.
pub proof fn lemma_hash_tells_apart(a: UtxoView, b: UtxoView)
    requires
        a.wire_ok(),
        b.wire_ok(),
        a != b,
    ensures
        a.hash() != b.hash() || collide(a.tx.wire(), b.tx.wire()) || collide(
            blake2_256(a.tx.wire()) + le32(a.index),
            blake2_256(b.tx.wire()) + le32(b.index),
        ),
{
    let ta = blake2_256(a.tx.wire());
    let tb = blake2_256(b.tx.wire());
    let pa = ta + le32(a.index);
    let pb = tb + le32(b.index);
    if a.hash() == b.hash() && !collide(a.tx.wire(), b.tx.wire()) {
        lemma_le32_value(a.index, Seq::empty());
        lemma_le32_value(b.index, Seq::empty());
        if pa == pb {
            assert(ta == tb) by {
                assert(ta =~= pa.subrange(0, pa.len() - 4));
                assert(tb =~= pb.subrange(0, pb.len() - 4));
            }
            assert(le32(a.index) == le32(b.index)) by {
                assert(le32(a.index) =~= pa.subrange(pa.len() - 4, pa.len() as int));
                assert(le32(b.index) =~= pb.subrange(pb.len() - 4, pb.len() as int));
            }
            assert(a.index == b.index);
            assert(a.tx.wire() == b.tx.wire());
            lemma_transaction_bytes_tell_apart(a.tx, b.tx);
            assert(false);
        }
    }
}

/// Two exit records with the same bytes are the same record.
pub proof fn lemma_exit_bytes_tell_apart(a: ExitStatusView, b: ExitStatusView)
    requires
        a.utxo.wire_ok(),
        b.utxo.wire_ok(),
        a.wire() == b.wire(),
    ensures
        a == b,
{
    let tail_a = le64(a.started) + le64(a.expired) + seq![state_tag(a.state)];
    let tail_b = le64(b.started) + le64(b.expired) + seq![state_tag(b.state)];
    let rest_a = a.utxo.wire() + tail_a;
    let rest_b = b.utxo.wire() + tail_b;
    lemma_le64_value(a.blk_num, rest_a);
    lemma_le64_value(b.blk_num, rest_b);
    assert(a.wire() =~= le64(a.blk_num) + rest_a);
    assert(b.wire() =~= le64(b.blk_num) + rest_b);
    assert(rest_a == rest_b) by {
        assert(rest_a =~= a.wire().skip(8));
        assert(rest_b =~= b.wire().skip(8));
    }
    a.utxo.lemma_parse_wire(tail_a);
    b.utxo.lemma_parse_wire(tail_b);
    assert(tail_a == tail_b) by {
        assert(tail_a =~= rest_a.skip(a.utxo.wire().len() as int));
        assert(tail_b =~= rest_b.skip(b.utxo.wire().len() as int));
    }
    lemma_le64_value(a.started, le64(a.expired) + seq![state_tag(a.state)]);
    lemma_le64_value(b.started, le64(b.expired) + seq![state_tag(b.state)]);
    assert(tail_a =~= le64(a.started) + (le64(a.expired) + seq![state_tag(a.state)]));
    assert(tail_b =~= le64(b.started) + (le64(b.expired) + seq![state_tag(b.state)]));
    lemma_le64_value(a.expired, seq![state_tag(a.state)]);
    lemma_le64_value(b.expired, seq![state_tag(b.state)]);
    assert(le64(a.expired) + seq![state_tag(a.state)] =~= tail_a.skip(8));
    assert(le64(b.expired) + seq![state_tag(b.state)] =~= tail_b.skip(8));
    assert(state_tag(a.state) == tail_a[16]);
    assert(state_tag(b.state) == tail_b[16]);
}

/// The identifier of an exit record changes whenever the record changes,
/// unless the hasher collides on the bytes of the two records. So a record
/// is refused as a duplicate only where the same claim was filed at the same
/// moment before, or the hasher collided.
pub proof fn lemma_exit_id_tells_apart(a: ExitStatusView, b: ExitStatusView)
    requires
        a.utxo.wire_ok(),
        b.utxo.wire_ok(),
        a != b,
    ensures
        a.id() != b.id() || collide(a.wire(), b.wire()),
{
    if a.wire() == b.wire() {
        lemma_exit_bytes_tell_apart(a, b);
    }
}

/// A payment into the total deposit takes from the account what it adds to
/// the total, and touches no other account.
pub proof fn lemma_paid_in_is_symmetric(
    ledger: LedgerView,
    account: AccountId,
    amount: Amount,
    other: AccountId,
)
    requires
        ledger.balance(account) >= amount,
        ledger.total_deposit + amount <= u64::MAX,
        other != account,
    ensures
        paid_in(ledger, account, amount).balance(account) == ledger.balance(account) - amount,
        paid_in(ledger, account, amount).total_deposit == ledger.total_deposit + amount,
        paid_in(ledger, account, amount).balance(other) == ledger.balance(other),
{
}

/// A payment out of the total deposit adds to the account what it takes from
/// the total, and touches no other account.
pub proof fn lemma_paid_out_is_symmetric(
    ledger: LedgerView,
    account: AccountId,
    amount: Amount,
    other: AccountId,
)
    requires
        ledger.total_deposit >= amount,
        ledger.balance(account) + amount <= u64::MAX,
        other != account,
    ensures
        paid_out(ledger, account, amount).balance(account) == ledger.balance(account) + amount,
        paid_out(ledger, account, amount).total_deposit == ledger.total_deposit - amount,
        paid_out(ledger, account, amount).balance(other) == ledger.balance(other),
{
}

/// An exit that was just started cannot be finalized while its window is
/// open: at any time up to the end of the window, finalization is refused
/// as not yet expired.
pub proof fn lemma_no_finalize_within_window(
    module: ModuleView,
    ledger: LedgerView,
    exitor: AccountId,
    blk_num: BlockNumber,
    depth: u32,
    index: u64,
    proofs: Seq<Seq<u8>>,
    utxo: Seq<u8>,
    now: Moment,
    later: Moment,
)
    requires
        exit_start_outcome(module, ledger, exitor, blk_num, depth, index, proofs, utxo, now) is Ok,
        later <= now + EXIT_WAITING_MOMENT,
    ensures
        ({
            let status = new_exit(blk_num, decoded(utxo).unwrap(), now);
            exit_finalize_outcome(
                module.with_exit(status.id(), status),
                paid_in(ledger, exitor, module.fee),
                status.id(),
                later,
            ) == Err::<(), ExitError>(ExitError::NotYetExpired)
        }),
{
}

/// Once its window is over, an exit that is still `Exiting` is finalized
/// exactly once, as long as the total deposit covers the payout and the
/// owner's balance can hold it: the first finalization succeeds, moves the
/// exit to `Finalized`, credits the first owner with the exchanged value
/// and the fee and takes the same sum from the total deposit; any further
/// one is refused as already finalized.
pub proof fn lemma_finalize_exactly_once(
    module: ModuleView,
    ledger: LedgerView,
    exit_id: Seq<u8>,
    now: Moment,
    again: Moment,
)
    requires
        module.exits.contains_key(exit_id),
        module.exits[exit_id].state == ExitState::Exiting,
        now > module.exits[exit_id].expired,
        ledger.total_deposit >= payout(module, module.exits[exit_id]),
        ledger.balance(payout_owner(module.exits[exit_id])) + payout(
            module,
            module.exits[exit_id],
        ) <= u64::MAX,
    ensures
        ({
            let status = module.exits[exit_id];
            let owner = payout_owner(status);
            let sum = spec_exchange(status.utxo.value()) + module.fee;
            let module_after = module.with_exit_state(exit_id, ExitState::Finalized);
            let ledger_after = paid_out(ledger, owner, sum as Amount);
            &&& exit_finalize_outcome(module, ledger, exit_id, now) is Ok
            &&& module_after.exits[exit_id].state == ExitState::Finalized
            &&& ledger_after.balance(owner) == ledger.balance(owner) + sum
            &&& ledger_after.total_deposit == ledger.total_deposit - sum
            &&& exit_finalize_outcome(module_after, ledger_after, exit_id, again) == Err::<
                (),
                ExitError,
            >(ExitError::AlreadyFinalized)
        }),
{
}

/// A fraud proof against an exit that is not later than the evidence is out
/// of order, whatever the inputs of the two sides.
pub proof fn lemma_fraud_needs_later_exit(
    target_blk: BlockNumber,
    challenge_blk: BlockNumber,
    target_inputs: Seq<Seq<u8>>,
    challenge_inputs: Seq<Seq<u8>>,
)
    requires
        target_blk <= challenge_blk,
    ensures
        fraud_outcome(target_blk, challenge_blk, target_inputs, challenge_inputs) == Err::<
            (),
            ExitError,
        >(ExitError::InvalidOrdering),
{
}

/// A challenge whose evidence decodes and exists, against an exit on record
/// that is not later than the evidence, is refused as out of order, whatever
/// the inputs of the two sides and whatever the state of the exit.
pub proof fn lemma_challenge_needs_later_exit(
    module: ModuleView,
    ledger: LedgerView,
    challenger: AccountId,
    exit_id: Seq<u8>,
    blk_num: BlockNumber,
    depth: u32,
    index: u64,
    proofs: Seq<Seq<u8>>,
    utxo: Seq<u8>,
)
    requires
        decoded(utxo) is Some,
        proof_of(depth, index, proofs) is Some,
        existence_outcome(
            module.root_of(blk_num),
            proof_of(depth, index, proofs).unwrap().root_from(decoded(utxo).unwrap().hash()),
            proof_of(depth, index, proofs).unwrap().leaf(),
            decoded(utxo).unwrap().hash(),
        ) is Ok,
        module.exits.contains_key(exit_id),
        module.exits[exit_id].blk_num <= blk_num,
    ensures
        exit_challenge_outcome(
            module,
            ledger,
            challenger,
            exit_id,
            blk_num,
            depth,
            index,
            proofs,
            utxo,
        ) == Err::<(), ExitError>(ExitError::InvalidOrdering),
{
}

/// A challenge whose evidence decodes and exists, against a later exit that
/// is still `Exiting` and spends an output that the evidence spends too, is
/// upheld, as long as the total deposit covers the fee and the challenger's
/// balance can hold it: the exit moves to `Challenged`, the challenger is
/// credited with the fee and the total deposit is reduced by it.
pub proof fn lemma_challenge_upheld(
    module: ModuleView,
    ledger: LedgerView,
    challenger: AccountId,
    exit_id: Seq<u8>,
    blk_num: BlockNumber,
    depth: u32,
    index: u64,
    proofs: Seq<Seq<u8>>,
    utxo: Seq<u8>,
)
    requires
        decoded(utxo) is Some,
        proof_of(depth, index, proofs) is Some,
        existence_outcome(
            module.root_of(blk_num),
            proof_of(depth, index, proofs).unwrap().root_from(decoded(utxo).unwrap().hash()),
            proof_of(depth, index, proofs).unwrap().leaf(),
            decoded(utxo).unwrap().hash(),
        ) is Ok,
        module.exits.contains_key(exit_id),
        module.exits[exit_id].state == ExitState::Exiting,
        module.exits[exit_id].blk_num > blk_num,
        share_input(module.exits[exit_id].utxo.inputs(), decoded(utxo).unwrap().inputs()),
        ledger.total_deposit >= module.fee,
        ledger.balance(challenger) + module.fee <= u64::MAX,
    ensures
        ({
            let module_after = module.with_exit_state(exit_id, ExitState::Challenged);
            let ledger_after = paid_out(ledger, challenger, module.fee);
            &&& exit_challenge_outcome(
                module,
                ledger,
                challenger,
                exit_id,
                blk_num,
                depth,
                index,
                proofs,
                utxo,
            ) is Ok
            &&& module_after.exits[exit_id].state == ExitState::Challenged
            &&& ledger_after.balance(challenger) == ledger.balance(challenger) + module.fee
            &&& ledger_after.total_deposit == ledger.total_deposit - module.fee
        }),
{
}

/// An exit that was challenged or finalized is never finalized: at any time
/// and on any ledger the attempt is refused, with an error that tells the
/// two states apart.
pub proof fn lemma_no_finalize_after_end(
    module: ModuleView,
    ledger: LedgerView,
    exit_id: Seq<u8>,
    now: Moment,
)
    requires
        module.exits.contains_key(exit_id),
        module.exits[exit_id].state != ExitState::Exiting,
    ensures
        module.exits[exit_id].state == ExitState::Challenged ==> exit_finalize_outcome(
            module,
            ledger,
            exit_id,
            now,
        ) == Err::<(), ExitError>(ExitError::AlreadyChallenged),
        module.exits[exit_id].state == ExitState::Finalized ==> exit_finalize_outcome(
            module,
            ledger,
            exit_id,
            now,
        ) == Err::<(), ExitError>(ExitError::AlreadyFinalized),
{
}

/// An exit that was challenged or finalized is never challenged again: no
/// later challenge is upheld, so the fee that the exit held is paid once.
pub proof fn lemma_no_challenge_after_end(
    module: ModuleView,
    ledger: LedgerView,
    challenger: AccountId,
    exit_id: Seq<u8>,
    existence: Result<(), ExitError>,
    fraud: Result<(), ExitError>,
)
    requires
        module.exits.contains_key(exit_id),
        module.exits[exit_id].state != ExitState::Exiting,
    ensures
        challenge_outcome(module, ledger, challenger, exit_id, existence, fraud) is Err,
{
}

/// A new exit replaces no record: it is stored under an identifier that was
/// free, and every record that was there stays as it was.
pub proof fn lemma_start_keeps_records(
    module: ModuleView,
    ledger: LedgerView,
    exitor: AccountId,
    status: ExitStatusView,
    exit_id: Seq<u8>,
    existence: Result<(), ExitError>,
    other: Seq<u8>,
)
    requires
        start_outcome(module, ledger, exitor, status, exit_id, existence) is Ok,
        module.exits.contains_key(other),
    ensures
        other != exit_id,
        module.with_exit(exit_id, status).exits.contains_key(other),
        module.with_exit(exit_id, status).exits[other] == module.exits[other],
{
}

/// A record only ever moves forward: where a challenge is upheld or a
/// finalization succeeds, the exit was `Exiting`, nothing but its state
/// changes, and every other record stays as it was.
pub proof fn lemma_records_move_forward(
    module: ModuleView,
    ledger: LedgerView,
    challenger: AccountId,
    exit_id: Seq<u8>,
    existence: Result<(), ExitError>,
    fraud: Result<(), ExitError>,
    now: Moment,
    other: Seq<u8>,
)
    requires
        module.exits.contains_key(other),
        other != exit_id,
    ensures
        challenge_outcome(module, ledger, challenger, exit_id, existence, fraud) is Ok ==> {
            let after = module.with_exit_state(exit_id, ExitState::Challenged);
            &&& module.exits[exit_id].state == ExitState::Exiting
            &&& after.exits[exit_id] == module.exits[exit_id].with_state(ExitState::Challenged)
            &&& after.exits.contains_key(other) && after.exits[other] == module.exits[other]
        },
        exit_finalize_outcome(module, ledger, exit_id, now) is Ok ==> {
            let after = module.with_exit_state(exit_id, ExitState::Finalized);
            &&& module.exits[exit_id].state == ExitState::Exiting
            &&& after.exits[exit_id] == module.exits[exit_id].with_state(ExitState::Finalized)
            &&& after.exits.contains_key(other) && after.exits[other] == module.exits[other]
        },
{
}

/// A submission by an account that is no operator is refused; one by an
/// operator adds exactly one root, under the number after the current one,
/// and the committed blocks stay those from 1 to the current one.
pub proof fn lemma_submit_is_sequential(module: ModuleView, origin: AccountId, root: Seq<u8>)
    requires
        module.gapless(),
    ensures
        !module.operator.contains(origin) ==> submit_outcome(module, origin) == Err::<
            (),
            ExitError,
        >(ExitError::PermissionDenied),
        module.operator.contains(origin) && module.current_block < u64::MAX ==> {
            let after = module.with_root(root);
            &&& submit_outcome(module, origin) is Ok
            &&& !module.child_chain.contains_key(after.current_block)
            &&& after.current_block == module.current_block + 1
            &&& after.child_chain.dom() == module.child_chain.dom().insert(after.current_block)
            &&& after.child_chain[after.current_block] == root
            &&& forall|b: BlockNumber|
                module.child_chain.contains_key(b) ==> after.child_chain[b]
                    == module.child_chain[b]
            &&& after.gapless()
        },
{
    if module.operator.contains(origin) && module.current_block < u64::MAX {
        let after = module.with_root(root);
        assert(after.child_chain.dom() =~= module.child_chain.dom().insert(after.current_block));
    }
}

} // verus!
