//! The exit lifecycle on the parent ledger: root submission, deposit, and
//! the start, challenge and finalization of exits.
use vstd::prelude::*;
use crate::checks::{
    ExistProofs, ExitorHasChcker, Exchanger, Finalizer, FraudProof, existence_outcome,
    finalize_outcome, fraud_outcome, ownership_outcome, spec_exchange,
};
use crate::ledger::{Ledger, LedgerView};
use crate::merkle::{MerkleProof, MerkleProofView};
use crate::primitives::{
    AccountId, Amount, BlockNumber, Digest, EXIT_WAITING_MOMENT, Event, EventView, ExitError,
    ExitState, Moment, digest_views,
};
use crate::roots::RootCommitment;
use crate::status::{ChallengeStatus, ExitStatus, ExitStatusView};
use crate::storage::ExitStorage;
use crate::utxo::{Utxo, UtxoView, decoded};

verus! {

/// The model of a `Module`.
pub struct ModuleView {
    pub child_chain: Map<BlockNumber, Seq<u8>>,
    pub current_block: BlockNumber,
    pub operator: Seq<AccountId>,
    pub exits: Map<Seq<u8>, ExitStatusView>,
    pub fee: Amount,
}

impl ModuleView {
    /// The root committed for the block `blk_num`, if there is one.
    pub open spec fn root_of(self, blk_num: BlockNumber) -> Option<Seq<u8>> {
        if self.child_chain.contains_key(blk_num) {
            Some(self.child_chain[blk_num])
        } else {
            None
        }
    }

    /// Whether the committed blocks are those from 1 to the current one.
    pub open spec fn gapless(self) -> bool {
        forall|b: BlockNumber| self.child_chain.contains_key(b) <==> 1 <= b <= self.current_block
    }

    /// The module after `root` is committed for the next block.
    pub open spec fn with_root(self, root: Seq<u8>) -> ModuleView {
        ModuleView {
            child_chain: self.child_chain.insert((self.current_block + 1) as BlockNumber, root),
            current_block: (self.current_block + 1) as BlockNumber,
            ..self
        }
    }

    /// The module after `status` is put under `exit_id`.
    pub open spec fn with_exit(self, exit_id: Seq<u8>, status: ExitStatusView) -> ModuleView {
        ModuleView { exits: self.exits.insert(exit_id, status), ..self }
    }

    /// The module after the exit under `exit_id` moves to `state`.
    pub open spec fn with_exit_state(self, exit_id: Seq<u8>, state: ExitState) -> ModuleView {
        self.with_exit(exit_id, self.exits[exit_id].with_state(state))
    }
}

/// Whether a submission by `origin` is accepted.
pub open spec fn submit_outcome(module: ModuleView, origin: AccountId) -> Result<(), ExitError> {
    if !module.operator.contains(origin) {
        Err(ExitError::PermissionDenied)
    } else if module.current_block == u64::MAX {
        Err(ExitError::ArithmeticOverflow)
    } else {
        Ok(())
    }
}

/// Whether `depositor` can deposit `value`.
pub open spec fn deposit_outcome(ledger: LedgerView, depositor: AccountId, value: Amount) -> Result<
    (),
    ExitError,
> {
    if ledger.balance(depositor) < value {
        Err(ExitError::ArithmeticUnderflow)
    } else if ledger.total_deposit + value > u64::MAX {
        Err(ExitError::ArithmeticOverflow)
    } else {
        Ok(())
    }
}

/// The ledger after `account` pays `amount` into the total deposit.
pub open spec fn paid_in(ledger: LedgerView, account: AccountId, amount: Amount) -> LedgerView {
    ledger.with_balance(account, (ledger.balance(account) - amount) as Amount).with_total_deposit(
        (ledger.total_deposit + amount) as Amount,
    )
}

/// The ledger after `account` is paid `amount` out of the total deposit.
pub open spec fn paid_out(ledger: LedgerView, account: AccountId, amount: Amount) -> LedgerView {
    ledger.with_balance(account, (ledger.balance(account) + amount) as Amount).with_total_deposit(
        (ledger.total_deposit - amount) as Amount,
    )
}

/// Whether `exitor` can start the exit `status` under `exit_id`, given what
/// the existence proof of the claimed output came to. The checks stand in
/// the order in which they are made.
pub open spec fn start_outcome(
    module: ModuleView,
    ledger: LedgerView,
    exitor: AccountId,
    status: ExitStatusView,
    exit_id: Seq<u8>,
    existence: Result<(), ExitError>,
) -> Result<(), ExitError> {
    if ledger.balance(exitor) < module.fee {
        Err(ExitError::ArithmeticUnderflow)
    } else if ledger.total_deposit + module.fee > u64::MAX {
        Err(ExitError::ArithmeticOverflow)
    } else if existence is Err {
        existence
    } else if ownership_outcome(exitor, status.utxo.owners(), status.utxo.quorum()) is Err {
        Err(ExitError::InvalidExitor)
    } else if module.exits.contains_key(exit_id) {
        Err(ExitError::DuplicateExit)
    } else {
        Ok(())
    }
}

/// The proof that the parts of an existence proof make, if they make one.
pub open spec fn proof_of(depth: u32, index: u64, proofs: Seq<Seq<u8>>) -> Option<MerkleProofView> {
    if depth <= 255 && (MerkleProofView { proofs, depth: depth as u8, index }).well_formed() {
        Some(MerkleProofView { proofs, depth: depth as u8, index })
    } else {
        None
    }
}

/// The record of an exit of `utxo` under the block `blk_num`, started at
/// `now`.
pub open spec fn new_exit(blk_num: BlockNumber, utxo: UtxoView, now: Moment) -> ExitStatusView {
    ExitStatusView {
        blk_num,
        utxo,
        started: now,
        expired: (now + EXIT_WAITING_MOMENT) as Moment,
        state: ExitState::Exiting,
    }
}

/// Whether `exitor` can start an exit with these arguments at the time
/// `now`. What cannot be decoded is refused first, then a window that would
/// end after the last moment, then what `start_outcome` refuses.
pub open spec fn exit_start_outcome(
    module: ModuleView,
    ledger: LedgerView,
    exitor: AccountId,
    blk_num: BlockNumber,
    depth: u32,
    index: u64,
    proofs: Seq<Seq<u8>>,
    utxo: Seq<u8>,
    now: Moment,
) -> Result<(), ExitError> {
    if decoded(utxo) is None || proof_of(depth, index, proofs) is None {
        Err(ExitError::DecodeError)
    } else if now + EXIT_WAITING_MOMENT > u64::MAX {
        Err(ExitError::ArithmeticOverflow)
    } else {
        let claimed = decoded(utxo).unwrap();
        let proof = proof_of(depth, index, proofs).unwrap();
        let status = new_exit(blk_num, claimed, now);
        start_outcome(
            module,
            ledger,
            exitor,
            status,
            status.id(),
            existence_outcome(
                module.root_of(blk_num),
                proof.root_from(claimed.hash()),
                proof.leaf(),
                claimed.hash(),
            ),
        )
    }
}

/// Whether `challenger` wins a challenge of the exit under `exit_id`, given
/// what the existence proof of the evidence came to and what the fraud proof
/// came to. The checks stand in the order in which they are made; the fraud
/// proof counts only where the exit is on record.
pub open spec fn challenge_outcome(
    module: ModuleView,
    ledger: LedgerView,
    challenger: AccountId,
    exit_id: Seq<u8>,
    existence: Result<(), ExitError>,
    fraud: Result<(), ExitError>,
) -> Result<(), ExitError> {
    if existence is Err {
        existence
    } else if !module.exits.contains_key(exit_id) {
        Err(ExitError::UnknownExitId)
    } else if fraud is Err {
        fraud
    } else if module.exits[exit_id].state == ExitState::Challenged {
        Err(ExitError::AlreadyChallenged)
    } else if module.exits[exit_id].state == ExitState::Finalized {
        Err(ExitError::AlreadyFinalized)
    } else if ledger.balance(challenger) + module.fee > u64::MAX {
        Err(ExitError::ArithmeticOverflow)
    } else if ledger.total_deposit < module.fee {
        Err(ExitError::ArithmeticUnderflow)
    } else {
        Ok(())
    }
}

/// Whether `challenger` wins a challenge with these arguments. What cannot
/// be decoded is refused first, then what `challenge_outcome` refuses.
pub open spec fn exit_challenge_outcome(
    module: ModuleView,
    ledger: LedgerView,
    challenger: AccountId,
    exit_id: Seq<u8>,
    blk_num: BlockNumber,
    depth: u32,
    index: u64,
    proofs: Seq<Seq<u8>>,
    utxo: Seq<u8>,
) -> Result<(), ExitError> {
    if decoded(utxo) is None || proof_of(depth, index, proofs) is None {
        Err(ExitError::DecodeError)
    } else {
        let evidence = decoded(utxo).unwrap();
        let proof = proof_of(depth, index, proofs).unwrap();
        challenge_outcome(
            module,
            ledger,
            challenger,
            exit_id,
            existence_outcome(
                module.root_of(blk_num),
                proof.root_from(evidence.hash()),
                proof.leaf(),
                evidence.hash(),
            ),
            fraud_outcome(
                module.exits[exit_id].blk_num,
                blk_num,
                module.exits[exit_id].utxo.inputs(),
                evidence.inputs(),
            ),
        )
    }
}

/// The account that an exit pays: the first owner of its output.
pub open spec fn payout_owner(status: ExitStatusView) -> AccountId {
    status.utxo.owners()[0]
}

/// What an exit pays when it is finalized: the exchanged value of its output
/// and the fee that was held for it.
pub open spec fn payout(module: ModuleView, status: ExitStatusView) -> int {
    spec_exchange(status.utxo.value()) + module.fee
}

/// Whether the exit under `exit_id` can be finalized at the time `now`. The
/// checks stand in the order in which they are made.
pub open spec fn exit_finalize_outcome(
    module: ModuleView,
    ledger: LedgerView,
    exit_id: Seq<u8>,
    now: Moment,
) -> Result<(), ExitError> {
    if !module.exits.contains_key(exit_id) {
        Err(ExitError::UnknownExitId)
    } else {
        let status = module.exits[exit_id];
        let value = spec_exchange(status.utxo.value());
        let owner = payout_owner(status);
        if finalize_outcome(status.state, status.expired, now) is Err {
            finalize_outcome(status.state, status.expired, now)
        } else if ledger.total_deposit < value {
            Err(ExitError::ArithmeticUnderflow)
        } else if ledger.balance(owner) + value + module.fee > u64::MAX {
            Err(ExitError::ArithmeticOverflow)
        } else if ledger.total_deposit - value < module.fee {
            Err(ExitError::ArithmeticUnderflow)
        } else {
            Ok(())
        }
    }
}

/// The state of the exit game that the parent ledger keeps: the committed
/// roots, the operators, the exit records and the fee.
#[derive(Debug, PartialEq, Eq)]
pub struct Module {
    child_chain: RootCommitment,
    operator: Vec<AccountId>,
    exit_status_storage: ExitStorage,
    fee: Amount,
}

impl View for Module {
    type V = ModuleView;

    closed spec fn view(&self) -> ModuleView {
        ModuleView {
            child_chain: self.child_chain@,
            current_block: self.child_chain.spec_current_block(),
            operator: self.operator@,
            exits: self.exit_status_storage@,
            fee: self.fee,
        }
    }
}

impl Clone for Module {
    fn clone(&self) -> (copy: Self)
        ensures
            copy@ == self@,
    {
        let operator = self.operator.clone();
        assert(operator@ =~= self.operator@);
        Module {
            child_chain: self.child_chain.clone(),
            operator,
            exit_status_storage: self.exit_status_storage.clone(),
            fee: self.fee,
        }
    }
}

impl Module {
    /// The module at genesis: no root, no exit, the given operators and fee.
    pub fn new(operator: Vec<AccountId>, fee: Amount) -> (module: Module)
        ensures
            module@ == (ModuleView {
                child_chain: Map::empty(),
                current_block: 0,
                operator: operator@,
                exits: Map::empty(),
                fee,
            }),
    {
        Module {
            child_chain: RootCommitment::new(),
            operator,
            exit_status_storage: ExitStorage::new(),
            fee,
        }
    }

    /// In every state of the module the committed blocks are those from 1
    /// to the current one: the numbers have no gap.
    pub proof fn lemma_no_gaps(&self)
        ensures
            self@.gapless(),
    {
        self.child_chain.lemma_no_gaps();
    }

    /// The committed roots.
    pub fn child_chain(&self) -> (roots: &RootCommitment)
        ensures
            roots@ == self@.child_chain,
            roots.spec_current_block() == self@.current_block,
    {
        &self.child_chain
    }

    /// The number of the last committed block; 0 before the first. The
    /// committed blocks are those from 1 to this one.
    pub fn current_block(&self) -> (blk_num: BlockNumber)
        ensures
            blk_num == self@.current_block,
            forall|b: BlockNumber| self@.child_chain.contains_key(b) <==> 1 <= b <= blk_num,
    {
        self.child_chain.current_block()
    }

    /// The accounts that may submit roots.
    pub fn operator(&self) -> (operator: &Vec<AccountId>)
        ensures
            operator@ == self@.operator,
    {
        &self.operator
    }

    /// The record of the exit under `exit_id`, if there is one.
    pub fn exit_status_storage(&self, exit_id: &Digest) -> (r: Option<&ExitStatus>)
        ensures
            match r {
                Some(status) => self@.exits.contains_key(exit_id@) && self@.exits[exit_id@]
                    == status@,
                None => !self@.exits.contains_key(exit_id@),
            },
    {
        self.exit_status_storage.get(exit_id)
    }

    /// The fee that an exit holds in escrow.
    pub fn fee(&self) -> (fee: Amount)
        ensures
            fee == self@.fee,
    {
        self.fee
    }

    /// Whether `account` is an operator.
    fn is_operator(&self, account: AccountId) -> (found: bool)
        ensures
            found == self@.operator.contains(account),
    {
        let mut i: usize = 0;
        while i < self.operator.len()
            invariant
                i <= self.operator@.len(),
                forall|k: int| 0 <= k < i ==> self.operator@[k] != account,
            decreases self.operator@.len() - i,
        {
            if self.operator[i] == account {
                return true;
            }
            i = i + 1;
        }
        false
    }

    /// Commits `root` for the next child block. Only an operator may do so.
    pub fn submit(&mut self, origin: AccountId, root: Digest) -> (r: Result<Event, ExitError>)
        ensures
            match r {
                Ok(event) => submit_outcome(old(self)@, origin) is Ok
                    && final(self)@ == old(self)@.with_root(root@)
                    && event@ == EventView::Submit(root@),
                Err(e) => submit_outcome(old(self)@, origin) == Err::<(), ExitError>(e)
                    && final(self)@ == old(self)@,
            },
    {
        if !self.is_operator(origin) {
            return Err(ExitError::PermissionDenied);
        }
        match self.child_chain.commit(root) {
            Ok(_) => Ok(Event::Submit(root)),
            Err(e) => Err(e),
        }
    }

    /// Moves `value` from the balance of `depositor` into the total deposit.
    pub fn deposit(&mut self, ledger: &mut Ledger, depositor: AccountId, value: Amount) -> (r:
        Result<Event, ExitError>)
        ensures
            final(self)@ == old(self)@,
            match r {
                Ok(event) => deposit_outcome(old(ledger)@, depositor, value) is Ok
                    && final(ledger)@ == paid_in(old(ledger)@, depositor, value)
                    && event@ == EventView::Deposit(depositor, value),
                Err(e) => deposit_outcome(old(ledger)@, depositor, value) == Err::<(), ExitError>(e)
                    && final(ledger)@ == old(ledger)@,
            },
    {
        let new_balance = match ledger.get_balance(depositor).checked_sub(value) {
            Some(amount) => amount,
            None => { return Err(ExitError::ArithmeticUnderflow); },
        };
        let new_total_deposit = match ledger.get_total_deposit().checked_add(value) {
            Some(amount) => amount,
            None => { return Err(ExitError::ArithmeticOverflow); },
        };
        ledger.set_balance(depositor, new_balance);
        ledger.set_total_deposit(new_total_deposit);
        Ok(Event::Deposit(depositor, value))
    }

    /// The second half of `exit_start`: takes the record, its identifier and
    /// what the existence proof came to, and admits the exit or refuses it.
    /// An admitted exit costs `exitor` the fee, which the total deposit
    /// holds until the exit is challenged or finalized.
    pub fn exit_start_verified(
        &mut self,
        ledger: &mut Ledger,
        exitor: AccountId,
        status: ExitStatus,
        exit_id: Digest,
        existence: Result<(), ExitError>,
    ) -> (r: Result<Event, ExitError>)
        ensures
            match r {
                Ok(event) => start_outcome(
                    old(self)@,
                    old(ledger)@,
                    exitor,
                    status@,
                    exit_id@,
                    existence,
                ) is Ok && final(self)@ == old(self)@.with_exit(exit_id@, status@)
                    && final(ledger)@ == paid_in(old(ledger)@, exitor, old(self)@.fee)
                    && event@ == EventView::ExitStart(exitor, exit_id@),
                Err(e) => start_outcome(
                    old(self)@,
                    old(ledger)@,
                    exitor,
                    status@,
                    exit_id@,
                    existence,
                ) == Err::<(), ExitError>(e) && final(self)@ == old(self)@ && final(ledger)@
                    == old(ledger)@,
            },
    {
        let fee = self.fee;
        let new_balance = match ledger.get_balance(exitor).checked_sub(fee) {
            Some(amount) => amount,
            None => { return Err(ExitError::ArithmeticUnderflow); },
        };
        let new_total_deposit = match ledger.get_total_deposit().checked_add(fee) {
            Some(amount) => amount,
            None => { return Err(ExitError::ArithmeticOverflow); },
        };
        match existence {
            Ok(_) => {},
            Err(e) => { return Err(e); },
        }
        match ExitorHasChcker::check(&exitor, status.utxo()) {
            Ok(_) => {},
            Err(e) => { return Err(e); },
        }
        if self.exit_status_storage.get(&exit_id).is_some() {
            return Err(ExitError::DuplicateExit);
        }
        ledger.set_balance(exitor, new_balance);
        ledger.set_total_deposit(new_total_deposit);
        self.exit_status_storage.insert(exit_id, status);
        Ok(Event::ExitStart(exitor, exit_id))
    }

    /// Starts the exit of the output that `utxo` stands for, claimed by
    /// `exitor` under the block `blk_num`, at the time `now`. The record is
    /// built in full, and its identifier is then derived from its bytes.
    pub fn exit_start(
        &mut self,
        ledger: &mut Ledger,
        exitor: AccountId,
        blk_num: BlockNumber,
        depth: u32,
        index: u64,
        proofs: Vec<Digest>,
        utxo: &[u8],
        now: Moment,
    ) -> (r: Result<Event, ExitError>)
        ensures
            match r {
                Ok(event) => {
                    let status = new_exit(blk_num, decoded(utxo@).unwrap(), now);
                    exit_start_outcome(
                        old(self)@,
                        old(ledger)@,
                        exitor,
                        blk_num,
                        depth,
                        index,
                        digest_views(proofs@),
                        utxo@,
                        now,
                    ) is Ok && final(self)@ == old(self)@.with_exit(status.id(), status)
                        && final(ledger)@ == paid_in(old(ledger)@, exitor, old(self)@.fee)
                        && event@ == EventView::ExitStart(exitor, status.id())
                },
                Err(e) => exit_start_outcome(
                    old(self)@,
                    old(ledger)@,
                    exitor,
                    blk_num,
                    depth,
                    index,
                    digest_views(proofs@),
                    utxo@,
                    now,
                ) == Err::<(), ExitError>(e) && final(self)@ == old(self)@ && final(ledger)@
                    == old(ledger)@,
            },
    {
        let claimed = match Utxo::decode(utxo) {
            Ok(claimed) => claimed,
            Err(e) => { return Err(e); },
        };
        if depth > 255 {
            return Err(ExitError::DecodeError);
        }
        let proof = match MerkleProof::new(proofs, depth as u8, index) {
            Some(proof) => proof,
            None => { return Err(ExitError::DecodeError); },
        };
        let expired = match now.checked_add(EXIT_WAITING_MOMENT) {
            Some(expired) => expired,
            None => { return Err(ExitError::ArithmeticOverflow); },
        };
        let existence = ExistProofs::is_exist(&self.child_chain, &blk_num, &claimed, &proof);
        let status = ExitStatus::new(blk_num, claimed, now, expired, ExitState::Exiting);
        let exit_id = status.id();
        self.exit_start_verified(ledger, exitor, status, exit_id, existence)
    }

    /// The second half of `exit_challenge`: takes what the existence proof
    /// of the evidence and the fraud proof came to, and upholds the
    /// challenge or refuses it. A challenge that is upheld moves the exit to
    /// `Challenged` and pays the fee that the exit held to `challenger`.
    /// Only an exit that is still `Exiting` can be challenged.
    pub fn exit_challenge_verified(
        &mut self,
        ledger: &mut Ledger,
        challenger: AccountId,
        exit_id: Digest,
        existence: Result<(), ExitError>,
        fraud: Result<(), ExitError>,
    ) -> (r: Result<Event, ExitError>)
        ensures
            match r {
                Ok(event) => challenge_outcome(
                    old(self)@,
                    old(ledger)@,
                    challenger,
                    exit_id@,
                    existence,
                    fraud,
                ) is Ok && final(self)@ == old(self)@.with_exit_state(
                    exit_id@,
                    ExitState::Challenged,
                ) && final(ledger)@ == paid_out(old(ledger)@, challenger, old(self)@.fee)
                    && event@ == EventView::Challenged(exit_id@),
                Err(e) => challenge_outcome(
                    old(self)@,
                    old(ledger)@,
                    challenger,
                    exit_id@,
                    existence,
                    fraud,
                ) == Err::<(), ExitError>(e) && final(self)@ == old(self)@ && final(ledger)@
                    == old(ledger)@,
            },
    {
        match existence {
            Ok(_) => {},
            Err(e) => { return Err(e); },
        }
        let state = match self.exit_status_storage.get(&exit_id) {
            Some(status) => *status.state(),
            None => { return Err(ExitError::UnknownExitId); },
        };
        match fraud {
            Ok(_) => {},
            Err(e) => { return Err(e); },
        }
        match state {
            ExitState::Exiting => {},
            ExitState::Challenged => { return Err(ExitError::AlreadyChallenged); },
            ExitState::Finalized => { return Err(ExitError::AlreadyFinalized); },
        }
        let fee = self.fee;
        let new_balance = match ledger.get_balance(challenger).checked_add(fee) {
            Some(amount) => amount,
            None => { return Err(ExitError::ArithmeticOverflow); },
        };
        let new_total = match ledger.get_total_deposit().checked_sub(fee) {
            Some(amount) => amount,
            None => { return Err(ExitError::ArithmeticUnderflow); },
        };
        ledger.set_balance(challenger, new_balance);
        ledger.set_total_deposit(new_total);
        self.exit_status_storage.set_state(&exit_id, ExitState::Challenged);
        Ok(Event::Challenged(exit_id))
    }

    /// Challenges the exit under `exit_id` with the output that `utxo`
    /// stands for, included under the block `blk_num`.
    pub fn exit_challenge(
        &mut self,
        ledger: &mut Ledger,
        challenger: AccountId,
        exit_id: Digest,
        blk_num: BlockNumber,
        depth: u32,
        index: u64,
        proofs: Vec<Digest>,
        utxo: &[u8],
    ) -> (r: Result<Event, ExitError>)
        ensures
            match r {
                Ok(event) => exit_challenge_outcome(
                    old(self)@,
                    old(ledger)@,
                    challenger,
                    exit_id@,
                    blk_num,
                    depth,
                    index,
                    digest_views(proofs@),
                    utxo@,
                ) is Ok && final(self)@ == old(self)@.with_exit_state(
                    exit_id@,
                    ExitState::Challenged,
                ) && final(ledger)@ == paid_out(old(ledger)@, challenger, old(self)@.fee)
                    && event@ == EventView::Challenged(exit_id@),
                Err(e) => exit_challenge_outcome(
                    old(self)@,
                    old(ledger)@,
                    challenger,
                    exit_id@,
                    blk_num,
                    depth,
                    index,
                    digest_views(proofs@),
                    utxo@,
                ) == Err::<(), ExitError>(e) && final(self)@ == old(self)@ && final(ledger)@
                    == old(ledger)@,
            },
    {
        let evidence = match Utxo::decode(utxo) {
            Ok(evidence) => evidence,
            Err(e) => { return Err(e); },
        };
        if depth > 255 {
            return Err(ExitError::DecodeError);
        }
        let proof = match MerkleProof::new(proofs, depth as u8, index) {
            Some(proof) => proof,
            None => { return Err(ExitError::DecodeError); },
        };
        let existence = ExistProofs::is_exist(&self.child_chain, &blk_num, &evidence, &proof);
        let challenge_status = ChallengeStatus::new(blk_num, evidence);
        let fraud = match self.exit_status_storage.get(&exit_id) {
            Some(exit_status) => FraudProof::verify(exit_status, &challenge_status),
            None => Err(ExitError::UnknownExitId),
        };
        self.exit_challenge_verified(ledger, challenger, exit_id, existence, fraud)
    }

    /// Finalizes the exit under `exit_id` at the time `now`: pays the
    /// exchanged value of the output and the fee that the exit held to the
    /// first owner of the output, out of the total deposit, and moves the
    /// exit to `Finalized`. Anyone may ask for it once the window is over.
    pub fn exit_finalize(&mut self, ledger: &mut Ledger, exit_id: Digest, now: Moment) -> (r:
        Result<Event, ExitError>)
        ensures
            match r {
                Ok(event) => exit_finalize_outcome(old(self)@, old(ledger)@, exit_id@, now) is Ok
                    && final(self)@ == old(self)@.with_exit_state(exit_id@, ExitState::Finalized)
                    && final(ledger)@ == paid_out(
                    old(ledger)@,
                    payout_owner(old(self)@.exits[exit_id@]),
                    payout(old(self)@, old(self)@.exits[exit_id@]) as Amount,
                ) && event@ == EventView::ExitFinalize(exit_id@),
                Err(e) => exit_finalize_outcome(old(self)@, old(ledger)@, exit_id@, now) == Err::<
                    (),
                    ExitError,
                >(e) && final(self)@ == old(self)@ && final(ledger)@ == old(ledger)@,
            },
    {
        let exit_status = match self.exit_status_storage.get(&exit_id) {
            Some(exit_status) => exit_status,
            None => { return Err(ExitError::UnknownExitId); },
        };
        match Finalizer::validate(exit_status, now) {
            Ok(_) => {},
            Err(e) => { return Err(e); },
        }
        let pvalue = Exchanger::exchange(*exit_status.utxo().value());
        let new_total = match ledger.get_total_deposit().checked_sub(pvalue) {
            Some(amount) => amount,
            None => { return Err(ExitError::ArithmeticUnderflow); },
        };
        let owner: AccountId = exit_status.utxo().owners()[0];
        let new_balance = match ledger.get_balance(owner).checked_add(pvalue) {
            Some(amount) => amount,
            None => { return Err(ExitError::ArithmeticOverflow); },
        };
        let fee = self.fee;
        let new_balance = match new_balance.checked_add(fee) {
            Some(amount) => amount,
            None => { return Err(ExitError::ArithmeticOverflow); },
        };
        let new_total = match new_total.checked_sub(fee) {
            Some(amount) => amount,
            None => { return Err(ExitError::ArithmeticUnderflow); },
        };
        ledger.set_balance(owner, new_balance);
        ledger.set_total_deposit(new_total);
        self.exit_status_storage.set_state(&exit_id, ExitState::Finalized);
        Ok(Event::ExitFinalize(exit_id))
    }
}

} // verus!
