//! The record of an exit and the evidence of a challenge.
use vstd::prelude::*;
use crate::codec::{Wire, le64, put_le64};
use crate::hashing::{blake2_256, blake2b_32};
use crate::primitives::{BlockNumber, Digest, ExitState, Moment};
use crate::utxo::{Utxo, UtxoView};

verus! {

/// The byte that stands for a lifecycle state.
pub open spec fn state_tag(state: ExitState) -> u8 {
    match state {
        ExitState::Exiting => 0,
        ExitState::Challenged => 1,
        ExitState::Finalized => 2,
    }
}

/// The model of an `ExitStatus`.
pub struct ExitStatusView {
    pub blk_num: BlockNumber,
    pub utxo: UtxoView,
    pub started: Moment,
    pub expired: Moment,
    pub state: ExitState,
}

impl ExitStatusView {
    /// The bytes that stand for the record: the block number, the output,
    /// the two timestamps and the state, in this order.
    pub open spec fn wire(self) -> Seq<u8> {
        le64(self.blk_num) + self.utxo.wire() + le64(self.started) + le64(self.expired)
            + seq![state_tag(self.state)]
    }

    /// The identifier of the record: the digest of its bytes.
    pub open spec fn id(self) -> Seq<u8> {
        blake2_256(self.wire())
    }

    /// The record in another state.
    pub open spec fn with_state(self, state: ExitState) -> ExitStatusView {
        ExitStatusView { state, ..self }
    }
}

/// The record of a withdrawal claim: the block and the output that it
/// claims, when it was made, when its challenge window ends, and where in
/// its lifecycle it stands.
#[derive(Debug, PartialEq, Eq)]
pub struct ExitStatus {
    blk_num: BlockNumber,
    utxo: Utxo,
    started: Moment,
    expired: Moment,
    state: ExitState,
}

impl View for ExitStatus {
    type V = ExitStatusView;

    closed spec fn view(&self) -> ExitStatusView {
        ExitStatusView {
            blk_num: self.blk_num,
            utxo: self.utxo@,
            started: self.started,
            expired: self.expired,
            state: self.state,
        }
    }
}

impl Clone for ExitStatus {
    fn clone(&self) -> (copy: Self)
        ensures
            copy@ == self@,
    {
        ExitStatus {
            blk_num: self.blk_num,
            utxo: self.utxo.clone(),
            started: self.started,
            expired: self.expired,
            state: self.state,
        }
    }
}

impl ExitStatus {
    /// The record made of these parts.
    pub fn new(
        blk_num: BlockNumber,
        utxo: Utxo,
        started: Moment,
        expired: Moment,
        state: ExitState,
    ) -> (status: ExitStatus)
        ensures
            status@ == (ExitStatusView { blk_num, utxo: utxo@, started, expired, state }),
    {
        ExitStatus { blk_num, utxo, started, expired, state }
    }

    /// The child block under which the output is claimed.
    pub fn blk_num(&self) -> (blk_num: &BlockNumber)
        ensures
            *blk_num == self@.blk_num,
    {
        &self.blk_num
    }

    /// The claimed output.
    pub fn utxo(&self) -> (utxo: &Utxo)
        ensures
            utxo@ == self@.utxo,
    {
        &self.utxo
    }

    /// When the claim was made.
    pub fn started(&self) -> (started: &Moment)
        ensures
            *started == self@.started,
    {
        &self.started
    }

    /// When the challenge window ends.
    pub fn expired(&self) -> (expired: &Moment)
        ensures
            *expired == self@.expired,
    {
        &self.expired
    }

    /// Where in its lifecycle the claim stands.
    pub fn state(&self) -> (state: &ExitState)
        ensures
            *state == self@.state,
    {
        &self.state
    }

    /// Moves the claim to the state `s`; nothing else changes.
    pub fn set_state(&mut self, s: ExitState)
        ensures
            final(self)@ == old(self)@.with_state(s),
    {
        self.state = s;
    }

    /// The bytes that stand for the record.
    pub fn encode(&self) -> (bytes: Vec<u8>)
        ensures
            bytes@ == self@.wire(),
    {
        let mut bytes: Vec<u8> = Vec::new();
        put_le64(&mut bytes, self.blk_num);
        let mut utxo = self.utxo.encode();
        bytes.append(&mut utxo);
        put_le64(&mut bytes, self.started);
        put_le64(&mut bytes, self.expired);
        let tag: u8 = match self.state {
            ExitState::Exiting => 0,
            ExitState::Challenged => 1,
            ExitState::Finalized => 2,
        };
        bytes.push(tag);
        assert(bytes@ =~= self@.wire());
        bytes
    }

    /// The identifier of the record: the digest of its bytes.
    pub fn id(&self) -> (id: Digest)
        ensures
            id@ == self@.id(),
    {
        let bytes = self.encode();
        blake2b_32(bytes.as_slice())
    }
}

/// The model of a `ChallengeStatus`.
pub struct ChallengeStatusView {
    pub blk_num: BlockNumber,
    pub utxo: UtxoView,
}

/// The evidence of a challenge: an output and the child block under which it
/// was included. It lives for the length of one challenge.
#[derive(Debug, PartialEq, Eq)]
pub struct ChallengeStatus {
    blk_num: BlockNumber,
    utxo: Utxo,
}

impl View for ChallengeStatus {
    type V = ChallengeStatusView;

    closed spec fn view(&self) -> ChallengeStatusView {
        ChallengeStatusView { blk_num: self.blk_num, utxo: self.utxo@ }
    }
}

impl Clone for ChallengeStatus {
    fn clone(&self) -> (copy: Self)
        ensures
            copy@ == self@,
    {
        ChallengeStatus { blk_num: self.blk_num, utxo: self.utxo.clone() }
    }
}

impl ChallengeStatus {
    /// The evidence made of these parts.
    pub fn new(blk_num: BlockNumber, utxo: Utxo) -> (status: ChallengeStatus)
        ensures
            status@ == (ChallengeStatusView { blk_num, utxo: utxo@ }),
    {
        ChallengeStatus { blk_num, utxo }
    }

    /// The child block under which the output was included.
    pub fn blk_num(&self) -> (blk_num: &BlockNumber)
        ensures
            *blk_num == self@.blk_num,
    {
        &self.blk_num
    }

    /// The output presented as evidence.
    pub fn utxo(&self) -> (utxo: &Utxo)
        ensures
            utxo@ == self@.utxo,
    {
        &self.utxo
    }
}

} // verus!
