//! Unspent outputs: the unit of value and ownership on the child ledger.
use vstd::prelude::*;
use crate::codec::{
    Wire, get_le32, items_ok, le32, le32_value, lemma_le32_bytes, lemma_le32_value, put_le32,
};
use crate::hashing::{blake2_256, blake2b_32};
use crate::primitives::{AccountId, Amount, Digest, ExitError, digest_views};
use crate::transaction::{
    Transaction, TransactionOutputView, TransactionView, get_transaction, output_views, put_bytes,
    put_transaction,
};

verus! {

/// An unspent output: a transaction and the index of one of its outputs.
#[derive(Debug, PartialEq, Eq)]
pub struct Utxo {
    tx: Transaction,
    index: u32,
}

/// The model of a `Utxo`.
pub struct UtxoView {
    pub tx: TransactionView,
    pub index: u32,
}

impl View for Utxo {
    type V = UtxoView;

    closed spec fn view(&self) -> UtxoView {
        UtxoView { tx: self.tx@, index: self.index }
    }
}

/// The identity of the output `index` of the transaction whose digest is
/// `tx_hash`.
pub open spec fn spec_utxo_hash(tx_hash: Seq<u8>, index: u32) -> Seq<u8> {
    blake2_256(tx_hash + le32(index))
}

impl UtxoView {
    /// The selected output.
    pub open spec fn output(self) -> TransactionOutputView {
        self.tx.outputs[self.index as int]
    }

    /// The value of the selected output.
    pub open spec fn value(self) -> Amount {
        self.output().value
    }

    /// The owners of the selected output.
    pub open spec fn owners(self) -> Seq<AccountId> {
        self.output().keys
    }

    /// The number of owners that must sign to spend the selected output.
    pub open spec fn quorum(self) -> u32 {
        self.output().quorum
    }

    /// The identity of the output: the digest of the transaction's digest
    /// followed by the index.
    pub open spec fn hash(self) -> Seq<u8> {
        spec_utxo_hash(blake2_256(self.tx.wire()), self.index)
    }

    /// The identities of the outputs that the transaction spends, in the
    /// order of its inputs.
    pub open spec fn inputs(self) -> Seq<Seq<u8>> {
        Seq::new(
            self.tx.inputs.len(),
            |i: int| spec_utxo_hash(self.tx.inputs[i].tx_hash, self.tx.inputs[i].out_index),
        )
    }
}

impl Wire for UtxoView {
    open spec fn wire_ok(self) -> bool {
        self.tx.wire_ok() && self.index < self.tx.outputs.len()
    }

    open spec fn wire(self) -> Seq<u8> {
        self.tx.wire() + le32(self.index)
    }

    open spec fn parse(s: Seq<u8>) -> Option<(UtxoView, nat)> {
        match TransactionView::parse(s) {
            Some((tx, used)) => if s.len() - used >= 4 && le32_value(s.skip(used as int))
                < tx.outputs.len() {
                Some((UtxoView { tx, index: le32_value(s.skip(used as int)) }, used + 4))
            } else {
                None
            },
            None => None,
        }
    }

    proof fn lemma_parse_wire(self, rest: Seq<u8>) {
        let s = self.wire() + rest;
        let tail = le32(self.index) + rest;
        self.tx.lemma_parse_wire(tail);
        assert(s =~= self.tx.wire() + tail);
        assert(s.skip(self.tx.wire().len() as int) =~= tail);
        lemma_le32_value(self.index, rest);
    }

    proof fn lemma_wire_parse(s: Seq<u8>) {
        if let Some((v, total)) = Self::parse(s) {
            let (tx, used) = TransactionView::parse(s).unwrap();
            TransactionView::lemma_wire_parse(s);
            lemma_le32_bytes(s.skip(used as int));
            assert(s.subrange(0, used as int) + s.skip(used as int).subrange(0, 4) =~= s.subrange(
                0,
                total as int,
            ));
        }
    }
}

/// The output that the whole of `bytes` stands for, if it stands for one.
pub open spec fn decoded(bytes: Seq<u8>) -> Option<UtxoView> {
    match UtxoView::parse(bytes) {
        Some((utxo, used)) => if used == bytes.len() {
            Some(utxo)
        } else {
            None
        },
        None => None,
    }
}

/// The bytes of an output stand for that output and for no other.
pub proof fn lemma_decoded_wire(utxo: UtxoView)
    requires
        utxo.wire_ok(),
    ensures
        decoded(utxo.wire()) == Some(utxo),
{
    utxo.lemma_parse_wire(Seq::empty());
    assert(utxo.wire() + Seq::<u8>::empty() =~= utxo.wire());
}

/// Only the bytes of an output stand for it.
pub proof fn lemma_wire_decoded(bytes: Seq<u8>)
    ensures
        decoded(bytes) matches Some(utxo) ==> utxo.wire_ok() && utxo.wire() == bytes,
{
    UtxoView::lemma_wire_parse(bytes);
    assert(bytes.subrange(0, bytes.len() as int) =~= bytes);
}

/// The identity of the output `index` of the transaction whose digest is
/// `tx_hash`.
pub fn utxo_hash(tx_hash: &Digest, index: u32) -> (digest: Digest)
    ensures
        digest@ == spec_utxo_hash(tx_hash@, index),
{
    let mut preimage: Vec<u8> = Vec::new();
    put_bytes(&mut preimage, tx_hash.as_slice());
    put_le32(&mut preimage, index);
    assert(preimage@ =~= tx_hash@ + le32(index));
    blake2b_32(preimage.as_slice())
}

impl Clone for Utxo {
    fn clone(&self) -> (copy: Self)
        ensures
            copy@ == self@,
    {
        proof {
            use_type_invariant(self);
        }
        Utxo { tx: self.tx.clone(), index: self.index }
    }
}

impl Utxo {
    /// What holds of every `Utxo`: its lengths fit the wire layout and its
    /// index selects one of its transaction's outputs.
    #[verifier::type_invariant]
    pub open spec fn inv(&self) -> bool {
        self@.wire_ok()
    }

    /// The output `index` of `tx`; nothing where `tx` has no such output, or
    /// holds a list too long for the wire layout.
    pub fn new(tx: Transaction, index: u32) -> (r: Option<Utxo>)
        ensures
            r is Some <==> (UtxoView { tx: tx@, index }).wire_ok(),
            r matches Some(utxo) ==> utxo@ == (UtxoView { tx: tx@, index }),
    {
        let limit: usize = u32::MAX as usize;
        if tx.inputs.len() > limit || tx.outputs.len() > limit {
            return None;
        }
        if index as usize >= tx.outputs.len() {
            return None;
        }
        let mut i: usize = 0;
        while i < tx.outputs.len()
            invariant
                i <= tx.outputs@.len(),
                limit == u32::MAX,
                forall|k: int| 0 <= k < i ==> tx.outputs@[k].keys@.len() <= u32::MAX,
            decreases tx.outputs@.len() - i,
        {
            if tx.outputs[i].keys.len() > limit {
                assert(!output_views(tx.outputs@)[i as int].wire_ok());
                return None;
            }
            i = i + 1;
        }
        assert(items_ok(tx@.outputs));
        assert(items_ok(tx@.inputs));
        Some(Utxo { tx, index })
    }

    /// The output that `bytes` stands for. Every byte counts: what is cut
    /// short, runs on after the output, writes a length in a longer form
    /// than it needs, or selects an output that the transaction lacks, is
    /// refused.
    pub fn decode(bytes: &[u8]) -> (r: Result<Utxo, ExitError>)
        ensures
            match r {
                Ok(utxo) => decoded(bytes@) == Some(utxo@) && utxo@.wire_ok()
                    && utxo@.wire() == bytes@,
                Err(e) => e == ExitError::DecodeError && decoded(bytes@) is None
                    && forall|v: UtxoView| v.wire_ok() ==> v.wire() != bytes@,
            },
    {
        proof {
            assert(bytes@.skip(0) =~= bytes@);
            lemma_wire_decoded(bytes@);
            assert forall|v: UtxoView| v.wire_ok() && v.wire() == bytes@ implies decoded(bytes@)
                == Some(v) by {
                lemma_decoded_wire(v);
            }
        }
        let (tx, at_index) = match get_transaction(bytes, 0) {
            Some(found) => found,
            None => { return Err(ExitError::DecodeError); },
        };
        let (index, end) = match get_le32(bytes, at_index) {
            Some(found) => found,
            None => { return Err(ExitError::DecodeError); },
        };
        if index as usize >= tx.outputs.len() || end != bytes.len() {
            return Err(ExitError::DecodeError);
        }
        proof {
            UtxoView::lemma_wire_parse(bytes@);
        }
        Ok(Utxo { tx, index })
    }

    /// The bytes that stand for the output.
    pub fn encode(&self) -> (bytes: Vec<u8>)
        ensures
            bytes@ == self@.wire(),
            decoded(bytes@) == Some(self@),
    {
        proof {
            use_type_invariant(self);
            lemma_decoded_wire(self@);
        }
        let mut bytes: Vec<u8> = Vec::new();
        put_transaction(&self.tx, &mut bytes);
        put_le32(&mut bytes, self.index);
        assert(bytes@ =~= self@.wire());
        bytes
    }

    /// The transaction that made the output.
    pub fn transaction(&self) -> (tx: &Transaction)
        ensures
            tx@ == self@.tx,
    {
        &self.tx
    }

    /// The index of the output among its transaction's outputs.
    pub fn index(&self) -> (index: u32)
        ensures
            index == self@.index,
            index < self@.tx.outputs.len(),
    {
        proof {
            use_type_invariant(self);
        }
        self.index
    }

    /// The digest of the transaction that made the output: the one by
    /// which an input of a later transaction refers to it.
    pub fn tx_hash(&self) -> (digest: Digest)
        ensures
            digest@ == blake2_256(self@.tx.wire()),
    {
        proof {
            use_type_invariant(self);
        }
        let mut bytes: Vec<u8> = Vec::new();
        put_transaction(&self.tx, &mut bytes);
        assert(bytes@ =~= self@.tx.wire());
        blake2b_32(bytes.as_slice())
    }

    /// The identity of the output.
    pub fn hash(&self) -> (digest: Digest)
        ensures
            digest@ == self@.hash(),
    {
        let tx_hash = self.tx_hash();
        utxo_hash(&tx_hash, self.index)
    }

    /// The identities of the outputs that the transaction spends: each is
    /// computed anew from the reference that the input holds.
    pub fn inputs(&self) -> (hashes: Vec<Digest>)
        ensures
            digest_views(hashes@) == self@.inputs(),
    {
        let mut hashes: Vec<Digest> = Vec::new();
        let mut i: usize = 0;
        while i < self.tx.inputs.len()
            invariant
                i <= self.tx.inputs@.len(),
                hashes@.len() == i,
                forall|k: int| 0 <= k < i ==> hashes@[k]@ == self@.inputs()[k],
            decreases self.tx.inputs@.len() - i,
        {
            let input = &self.tx.inputs[i];
            hashes.push(utxo_hash(&input.tx_hash, input.out_index));
            i = i + 1;
        }
        assert(digest_views(hashes@) =~= self@.inputs());
        hashes
    }

    /// The value of the output.
    pub fn value(&self) -> (value: &Amount)
        ensures
            *value == self@.value(),
    {
        proof {
            use_type_invariant(self);
        }
        &self.tx.outputs[self.index as usize].value
    }

    /// The accounts that own the output.
    pub fn owners(&self) -> (owners: &Vec<AccountId>)
        ensures
            owners@ == self@.owners(),
    {
        proof {
            use_type_invariant(self);
        }
        &self.tx.outputs[self.index as usize].keys
    }

    /// The number of owners that must sign to spend the output.
    pub fn quorum(&self) -> (quorum: u32)
        ensures
            quorum == self@.quorum(),
    {
        proof {
            use_type_invariant(self);
        }
        self.tx.outputs[self.index as usize].quorum
    }
}

} // verus!
