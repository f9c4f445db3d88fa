//! Transactions of the child ledger: what they hold, and the bytes that
//! stand for them.
use vstd::prelude::*;
use crate::codec::{
    Wire, get_compact, get_le32, get_le64, items_ok, le32, le32_value, le64, le64_value,
    lemma_le32_bytes, lemma_le32_value, lemma_le64_bytes, lemma_le64_value, lemma_parse_items_next,
    lemma_parse_list_wire, lemma_wire_items_push, lemma_wire_parse_list, list_ok, parse_items,
    parse_list, put_compact, put_le32, put_le64, wire_items, wire_list,
};
use crate::primitives::{AccountId, Amount, BlockNumber, Digest};

verus! {

/// A reference to an output of an earlier transaction, which this one spends.
#[derive(Clone, Copy, Debug, PartialEq, Eq)]
pub struct TransactionInput {
    pub tx_hash: Digest,
    pub out_index: u32,
}

/// An output: a value, the accounts that own it, and how many of them must
/// sign to spend it.
#[derive(Debug, PartialEq, Eq)]
pub struct TransactionOutput {
    pub value: Amount,
    pub keys: Vec<AccountId>,
    pub quorum: u32,
}

/// A transaction of the child ledger.
#[derive(Debug, PartialEq, Eq)]
pub struct Transaction {
    pub inputs: Vec<TransactionInput>,
    pub outputs: Vec<TransactionOutput>,
    pub lock_time: BlockNumber,
}

/// The model of a `TransactionInput`.
pub struct TransactionInputView {
    pub tx_hash: Seq<u8>,
    pub out_index: u32,
}

/// The model of a `TransactionOutput`.
pub struct TransactionOutputView {
    pub value: Amount,
    pub keys: Seq<AccountId>,
    pub quorum: u32,
}

/// The model of a `Transaction`.
pub struct TransactionView {
    pub inputs: Seq<TransactionInputView>,
    pub outputs: Seq<TransactionOutputView>,
    pub lock_time: BlockNumber,
}

impl View for TransactionInput {
    type V = TransactionInputView;

    open spec fn view(&self) -> TransactionInputView {
        TransactionInputView { tx_hash: self.tx_hash@, out_index: self.out_index }
    }
}

impl View for TransactionOutput {
    type V = TransactionOutputView;

    open spec fn view(&self) -> TransactionOutputView {
        TransactionOutputView { value: self.value, keys: self.keys@, quorum: self.quorum }
    }
}

/// The models of a run of inputs.
pub open spec fn input_views(inputs: Seq<TransactionInput>) -> Seq<TransactionInputView> {
    Seq::new(inputs.len(), |i: int| inputs[i]@)
}

/// The models of a run of outputs.
pub open spec fn output_views(outputs: Seq<TransactionOutput>) -> Seq<TransactionOutputView> {
    Seq::new(outputs.len(), |i: int| outputs[i]@)
}

impl View for Transaction {
    type V = TransactionView;

    open spec fn view(&self) -> TransactionView {
        TransactionView {
            inputs: input_views(self.inputs@),
            outputs: output_views(self.outputs@),
            lock_time: self.lock_time,
        }
    }
}

impl Clone for TransactionOutput {
    fn clone(&self) -> (copy: Self)
        ensures
            copy@ == self@,
    {
        let keys = self.keys.clone();
        assert(keys@ =~= self.keys@);
        TransactionOutput { value: self.value, keys, quorum: self.quorum }
    }
}

impl Clone for Transaction {
    fn clone(&self) -> (copy: Self)
        ensures
            copy@ == self@,
    {
        let inputs = self.inputs.clone();
        assert(input_views(inputs@) =~= input_views(self.inputs@));
        let mut outputs: Vec<TransactionOutput> = Vec::new();
        let mut i: usize = 0;
        while i < self.outputs.len()
            invariant
                i <= self.outputs@.len(),
                outputs@.len() == i,
                forall|k: int| 0 <= k < i ==> outputs@[k]@ == self.outputs@[k]@,
            decreases self.outputs@.len() - i,
        {
            outputs.push(self.outputs[i].clone());
            i = i + 1;
        }
        assert(output_views(outputs@) =~= output_views(self.outputs@));
        Transaction { inputs, outputs, lock_time: self.lock_time }
    }
}

impl Wire for TransactionInputView {
    open spec fn wire_ok(self) -> bool {
        self.tx_hash.len() == 32
    }

    open spec fn wire(self) -> Seq<u8> {
        self.tx_hash + le32(self.out_index)
    }

    open spec fn parse(s: Seq<u8>) -> Option<(TransactionInputView, nat)> {
        if s.len() >= 36 {
            Some(
                (
                    TransactionInputView {
                        tx_hash: s.subrange(0, 32),
                        out_index: le32_value(s.skip(32)),
                    },
                    36,
                ),
            )
        } else {
            None
        }
    }

    proof fn lemma_parse_wire(self, rest: Seq<u8>) {
        let s = self.wire() + rest;
        lemma_le32_value(self.out_index, rest);
        assert(s.subrange(0, 32) =~= self.tx_hash);
        assert(s.skip(32) =~= le32(self.out_index) + rest);
    }

    proof fn lemma_wire_parse(s: Seq<u8>) {
        if s.len() >= 36 {
            lemma_le32_bytes(s.skip(32));
            assert(s.subrange(0, 32) + s.skip(32).subrange(0, 4) =~= s.subrange(0, 36));
        }
    }
}

impl Wire for TransactionOutputView {
    open spec fn wire_ok(self) -> bool {
        list_ok(self.keys)
    }

    open spec fn wire(self) -> Seq<u8> {
        le64(self.value) + wire_list(self.keys) + le32(self.quorum)
    }

    open spec fn parse(s: Seq<u8>) -> Option<(TransactionOutputView, nat)> {
        if s.len() < 8 {
            None
        } else {
            match parse_list::<u64>(s.skip(8)) {
                Some((keys, used)) => if s.len() - 8 - used >= 4 {
                    Some(
                        (
                            TransactionOutputView {
                                value: le64_value(s),
                                keys,
                                quorum: le32_value(s.skip((8 + used) as int)),
                            },
                            8 + used + 4,
                        ),
                    )
                } else {
                    None
                },
                None => None,
            }
        }
    }

    proof fn lemma_parse_wire(self, rest: Seq<u8>) {
        let s = self.wire() + rest;
        let keys = wire_list(self.keys);
        let tail = le32(self.quorum) + rest;
        lemma_le64_value(self.value, keys + tail);
        assert(s =~= le64(self.value) + (keys + tail));
        assert(s.skip(8) =~= keys + tail);
        lemma_parse_list_wire(self.keys, tail);
        assert(s.skip((8 + keys.len()) as int) =~= tail);
        lemma_le32_value(self.quorum, rest);
    }

    proof fn lemma_wire_parse(s: Seq<u8>) {
        if let Some((v, total)) = Self::parse(s) {
            let (keys, used) = parse_list::<u64>(s.skip(8)).unwrap();
            lemma_le64_bytes(s);
            lemma_wire_parse_list::<u64>(s.skip(8));
            lemma_le32_bytes(s.skip((8 + used) as int));
            assert(s.subrange(0, 8) + s.skip(8).subrange(0, used as int) + s.skip(
                (8 + used) as int,
            ).subrange(0, 4) =~= s.subrange(0, total as int));
        }
    }
}

impl Wire for TransactionView {
    open spec fn wire_ok(self) -> bool {
        list_ok(self.inputs) && list_ok(self.outputs)
    }

    open spec fn wire(self) -> Seq<u8> {
        wire_list(self.inputs) + wire_list(self.outputs) + le64(self.lock_time)
    }

    open spec fn parse(s: Seq<u8>) -> Option<(TransactionView, nat)> {
        match parse_list::<TransactionInputView>(s) {
            Some((inputs, used)) => match parse_list::<TransactionOutputView>(s.skip(used as int)) {
                Some((outputs, more)) => if s.len() - used - more >= 8 {
                    Some(
                        (
                            TransactionView {
                                inputs,
                                outputs,
                                lock_time: le64_value(s.skip((used + more) as int)),
                            },
                            used + more + 8,
                        ),
                    )
                } else {
                    None
                },
                None => None,
            },
            None => None,
        }
    }

    proof fn lemma_parse_wire(self, rest: Seq<u8>) {
        let s = self.wire() + rest;
        let ins = wire_list(self.inputs);
        let outs = wire_list(self.outputs);
        let tail = le64(self.lock_time) + rest;
        lemma_parse_list_wire(self.inputs, outs + tail);
        assert(s =~= ins + (outs + tail));
        assert(s.skip(ins.len() as int) =~= outs + tail);
        lemma_parse_list_wire(self.outputs, tail);
        assert(s.skip((ins.len() + outs.len()) as int) =~= tail);
        lemma_le64_value(self.lock_time, rest);
    }

    proof fn lemma_wire_parse(s: Seq<u8>) {
        if let Some((v, total)) = Self::parse(s) {
            let (inputs, used) = parse_list::<TransactionInputView>(s).unwrap();
            let (outputs, more) = parse_list::<TransactionOutputView>(s.skip(used as int)).unwrap();
            lemma_wire_parse_list::<TransactionInputView>(s);
            lemma_wire_parse_list::<TransactionOutputView>(s.skip(used as int));
            lemma_le64_bytes(s.skip((used + more) as int));
            assert(s.subrange(0, used as int) + s.skip(used as int).subrange(0, more as int)
                + s.skip((used + more) as int).subrange(0, 8) =~= s.subrange(0, total as int));
        }
    }
}

/// Appends `bytes`.
pub(crate) fn put_bytes(out: &mut Vec<u8>, bytes: &[u8])
    ensures
        final(out)@ == old(out)@ + bytes@,
{
    let mut i: usize = 0;
    while i < bytes.len()
        invariant
            i <= bytes@.len(),
            out@ == old(out)@ + bytes@.take(i as int),
        decreases bytes@.len() - i,
    {
        out.push(bytes[i]);
        assert(bytes@.take(i + 1) =~= bytes@.take(i as int).push(bytes@[i as int]));
        i = i + 1;
    }
    assert(bytes@.take(i as int) =~= bytes@);
}

/// Reads the 32 bytes of a digest at `pos`.
fn get_digest(bytes: &[u8], pos: usize) -> (r: Option<(Digest, usize)>)
    requires
        pos <= bytes@.len(),
    ensures
        r matches Some((digest, next)) ==> bytes@.len() - pos >= 32 && next == pos + 32
            && digest@ == bytes@.skip(pos as int).subrange(0, 32),
        r is None ==> bytes@.len() - pos < 32,
{
    if bytes.len() - pos < 32 {
        return None;
    }
    let mut digest: Digest = [0u8; 32];
    let mut k: usize = 0;
    while k < 32
        invariant
            k <= 32,
            pos + 32 <= bytes@.len() <= usize::MAX,
            forall|j: int| 0 <= j < k ==> digest@[j] == bytes@[pos + j],
        decreases 32 - k,
    {
        digest[k] = bytes[pos + k];
        k = k + 1;
    }
    assert(digest@ =~= bytes@.skip(pos as int).subrange(0, 32));
    Some((digest, pos + 32))
}

/// Appends the bytes of an input.
fn put_input(input: &TransactionInput, out: &mut Vec<u8>)
    ensures
        final(out)@ == old(out)@ + input@.wire(),
{
    put_bytes(out, input.tx_hash.as_slice());
    put_le32(out, input.out_index);
    assert(out@ =~= old(out)@ + input@.wire());
}

/// Reads an input at `pos`.
fn get_input(bytes: &[u8], pos: usize) -> (r: Option<(TransactionInput, usize)>)
    requires
        pos <= bytes@.len(),
    ensures
        match r {
            Some((input, next)) => pos <= next <= bytes@.len() && TransactionInputView::parse(
                bytes@.skip(pos as int),
            ) == Some((input@, (next - pos) as nat)),
            None => TransactionInputView::parse(bytes@.skip(pos as int)) is None,
        },
{
    let (tx_hash, after) = match get_digest(bytes, pos) {
        Some(found) => found,
        None => { return None; },
    };
    let (out_index, next) = match get_le32(bytes, after) {
        Some(found) => found,
        None => { return None; },
    };
    assert(bytes@.skip(pos as int).skip(32) =~= bytes@.skip(after as int));
    Some((TransactionInput { tx_hash, out_index }, next))
}

/// Appends the bytes of every input, in order.
fn put_inputs(inputs: &Vec<TransactionInput>, out: &mut Vec<u8>)
    ensures
        final(out)@ == old(out)@ + wire_items(input_views(inputs@)),
{
    let ghost views = input_views(inputs@);
    let mut i: usize = 0;
    assert(old(out)@ + wire_items(views.take(0)) =~= old(out)@);
    while i < inputs.len()
        invariant
            i <= inputs@.len(),
            views == input_views(inputs@),
            out@ == old(out)@ + wire_items(views.take(i as int)),
        decreases inputs@.len() - i,
    {
        put_input(&inputs[i], out);
        proof {
            lemma_wire_items_push(views.take(i as int), views[i as int]);
            assert(views.take(i + 1) =~= views.take(i as int).push(views[i as int]));
            assert(out@ =~= old(out)@ + wire_items(views.take(i + 1)));
        }
        i = i + 1;
    }
    assert(views.take(i as int) =~= views);
}

/// Reads `n` inputs at `pos`.
fn get_inputs(bytes: &[u8], pos: usize, n: u32) -> (r: Option<(Vec<TransactionInput>, usize)>)
    requires
        pos <= bytes@.len(),
    ensures
        match r {
            Some((inputs, next)) => pos <= next <= bytes@.len() && parse_items::<
                TransactionInputView,
            >(bytes@.skip(pos as int), n as nat) == Some(
                (input_views(inputs@), (next - pos) as nat),
            ),
            None => parse_items::<TransactionInputView>(bytes@.skip(pos as int), n as nat) is None,
        },
{
    let ghost s = bytes@.skip(pos as int);
    let mut inputs: Vec<TransactionInput> = Vec::new();
    let mut at: usize = pos;
    let mut j: u32 = 0;
    assert(input_views(inputs@) =~= Seq::empty());
    while j < n
        invariant
            j <= n,
            pos <= at <= bytes@.len(),
            s == bytes@.skip(pos as int),
            parse_items::<TransactionInputView>(s, j as nat) == Some(
                (input_views(inputs@), (at - pos) as nat),
            ),
        decreases n - j,
    {
        proof {
            lemma_parse_items_next::<TransactionInputView>(s, j as nat, n as nat);
            assert(s.skip(at - pos) =~= bytes@.skip(at as int));
        }
        let ghost before = input_views(inputs@);
        match get_input(bytes, at) {
            Some((input, next)) => {
                inputs.push(input);
                at = next;
                assert(input_views(inputs@) =~= before.push(input@));
            },
            None => { return None; },
        }
        j = j + 1;
    }
    Some((inputs, at))
}

/// Appends the bytes of every key, in order.
fn put_keys(keys: &Vec<AccountId>, out: &mut Vec<u8>)
    ensures
        final(out)@ == old(out)@ + wire_items(keys@),
{
    let mut i: usize = 0;
    assert(old(out)@ + wire_items(keys@.take(0)) =~= old(out)@);
    while i < keys.len()
        invariant
            i <= keys@.len(),
            out@ == old(out)@ + wire_items(keys@.take(i as int)),
        decreases keys@.len() - i,
    {
        put_le64(out, keys[i]);
        proof {
            lemma_wire_items_push(keys@.take(i as int), keys@[i as int]);
            assert(keys@.take(i + 1) =~= keys@.take(i as int).push(keys@[i as int]));
            assert(out@ =~= old(out)@ + wire_items(keys@.take(i + 1)));
        }
        i = i + 1;
    }
    assert(keys@.take(i as int) =~= keys@);
}

/// Reads `n` keys at `pos`.
fn get_keys(bytes: &[u8], pos: usize, n: u32) -> (r: Option<(Vec<AccountId>, usize)>)
    requires
        pos <= bytes@.len(),
    ensures
        match r {
            Some((keys, next)) => pos <= next <= bytes@.len() && parse_items::<u64>(
                bytes@.skip(pos as int),
                n as nat,
            ) == Some((keys@, (next - pos) as nat)),
            None => parse_items::<u64>(bytes@.skip(pos as int), n as nat) is None,
        },
{
    let ghost s = bytes@.skip(pos as int);
    let mut keys: Vec<AccountId> = Vec::new();
    let mut at: usize = pos;
    let mut j: u32 = 0;
    assert(keys@ =~= Seq::empty());
    while j < n
        invariant
            j <= n,
            pos <= at <= bytes@.len(),
            s == bytes@.skip(pos as int),
            parse_items::<u64>(s, j as nat) == Some((keys@, (at - pos) as nat)),
        decreases n - j,
    {
        proof {
            lemma_parse_items_next::<u64>(s, j as nat, n as nat);
            assert(s.skip(at - pos) =~= bytes@.skip(at as int));
        }
        match get_le64(bytes, at) {
            Some((key, next)) => {
                keys.push(key);
                at = next;
            },
            None => { return None; },
        }
        j = j + 1;
    }
    Some((keys, at))
}

/// Appends the bytes of an output.
fn put_output(output: &TransactionOutput, out: &mut Vec<u8>)
    requires
        output@.wire_ok(),
    ensures
        final(out)@ == old(out)@ + output@.wire(),
{
    put_le64(out, output.value);
    put_compact(out, output.keys.len() as u32);
    put_keys(&output.keys, out);
    put_le32(out, output.quorum);
    assert(out@ =~= old(out)@ + output@.wire());
}

/// Reads an output at `pos`.
fn get_output(bytes: &[u8], pos: usize) -> (r: Option<(TransactionOutput, usize)>)
    requires
        pos <= bytes@.len(),
    ensures
        match r {
            Some((output, next)) => pos <= next <= bytes@.len() && TransactionOutputView::parse(
                bytes@.skip(pos as int),
            ) == Some((output@, (next - pos) as nat)),
            None => TransactionOutputView::parse(bytes@.skip(pos as int)) is None,
        },
{
    let ghost s = bytes@.skip(pos as int);
    let (value, at_keys) = match get_le64(bytes, pos) {
        Some(found) => found,
        None => { return None; },
    };
    assert(s.skip(8) =~= bytes@.skip(at_keys as int));
    let (n, at_items) = match get_compact(bytes, at_keys) {
        Some(found) => found,
        None => { return None; },
    };
    assert(s.skip(8).skip(at_items - at_keys) =~= bytes@.skip(at_items as int));
    let (keys, at_quorum) = match get_keys(bytes, at_items, n) {
        Some(found) => found,
        None => { return None; },
    };
    assert(s.skip(8 + (at_quorum - at_keys)) =~= bytes@.skip(at_quorum as int));
    let (quorum, next) = match get_le32(bytes, at_quorum) {
        Some(found) => found,
        None => { return None; },
    };
    Some((TransactionOutput { value, keys, quorum }, next))
}

/// Appends the bytes of every output, in order.
fn put_outputs(outputs: &Vec<TransactionOutput>, out: &mut Vec<u8>)
    requires
        items_ok(output_views(outputs@)),
    ensures
        final(out)@ == old(out)@ + wire_items(output_views(outputs@)),
{
    let ghost views = output_views(outputs@);
    let mut i: usize = 0;
    assert(old(out)@ + wire_items(views.take(0)) =~= old(out)@);
    while i < outputs.len()
        invariant
            i <= outputs@.len(),
            views == output_views(outputs@),
            items_ok(views),
            out@ == old(out)@ + wire_items(views.take(i as int)),
        decreases outputs@.len() - i,
    {
        assert(views[i as int].wire_ok());
        put_output(&outputs[i], out);
        proof {
            lemma_wire_items_push(views.take(i as int), views[i as int]);
            assert(views.take(i + 1) =~= views.take(i as int).push(views[i as int]));
            assert(out@ =~= old(out)@ + wire_items(views.take(i + 1)));
        }
        i = i + 1;
    }
    assert(views.take(i as int) =~= views);
}

/// Reads `n` outputs at `pos`.
fn get_outputs(bytes: &[u8], pos: usize, n: u32) -> (r: Option<(Vec<TransactionOutput>, usize)>)
    requires
        pos <= bytes@.len(),
    ensures
        match r {
            Some((outputs, next)) => pos <= next <= bytes@.len() && parse_items::<
                TransactionOutputView,
            >(bytes@.skip(pos as int), n as nat) == Some(
                (output_views(outputs@), (next - pos) as nat),
            ),
            None => parse_items::<TransactionOutputView>(bytes@.skip(pos as int), n as nat)
                is None,
        },
{
    let ghost s = bytes@.skip(pos as int);
    let mut outputs: Vec<TransactionOutput> = Vec::new();
    let mut at: usize = pos;
    let mut j: u32 = 0;
    assert(output_views(outputs@) =~= Seq::empty());
    while j < n
        invariant
            j <= n,
            pos <= at <= bytes@.len(),
            s == bytes@.skip(pos as int),
            parse_items::<TransactionOutputView>(s, j as nat) == Some(
                (output_views(outputs@), (at - pos) as nat),
            ),
        decreases n - j,
    {
        proof {
            lemma_parse_items_next::<TransactionOutputView>(s, j as nat, n as nat);
            assert(s.skip(at - pos) =~= bytes@.skip(at as int));
        }
        let ghost before = output_views(outputs@);
        match get_output(bytes, at) {
            Some((output, next)) => {
                outputs.push(output);
                at = next;
                assert(output_views(outputs@) =~= before.push(output@));
            },
            None => { return None; },
        }
        j = j + 1;
    }
    Some((outputs, at))
}

/// Appends the bytes of a transaction.
pub(crate) fn put_transaction(tx: &Transaction, out: &mut Vec<u8>)
    requires
        tx@.wire_ok(),
    ensures
        final(out)@ == old(out)@ + tx@.wire(),
{
    put_compact(out, tx.inputs.len() as u32);
    put_inputs(&tx.inputs, out);
    put_compact(out, tx.outputs.len() as u32);
    put_outputs(&tx.outputs, out);
    put_le64(out, tx.lock_time);
    assert(out@ =~= old(out)@ + tx@.wire());
}

/// Reads a transaction at `pos`.
pub(crate) fn get_transaction(bytes: &[u8], pos: usize) -> (r: Option<(Transaction, usize)>)
    requires
        pos <= bytes@.len(),
    ensures
        match r {
            Some((tx, next)) => pos <= next <= bytes@.len() && TransactionView::parse(
                bytes@.skip(pos as int),
            ) == Some((tx@, (next - pos) as nat)),
            None => TransactionView::parse(bytes@.skip(pos as int)) is None,
        },
{
    let ghost s = bytes@.skip(pos as int);
    let (n_inputs, at_inputs) = match get_compact(bytes, pos) {
        Some(found) => found,
        None => { return None; },
    };
    assert(s.skip(at_inputs - pos) =~= bytes@.skip(at_inputs as int));
    let (inputs, at_outputs) = match get_inputs(bytes, at_inputs, n_inputs) {
        Some(found) => found,
        None => { return None; },
    };
    assert(s.skip(at_outputs - pos) =~= bytes@.skip(at_outputs as int));
    let (n_outputs, at_items) = match get_compact(bytes, at_outputs) {
        Some(found) => found,
        None => { return None; },
    };
    assert(s.skip(at_outputs - pos).skip(at_items - at_outputs) =~= bytes@.skip(at_items as int));
    let (outputs, at_lock) = match get_outputs(bytes, at_items, n_outputs) {
        Some(found) => found,
        None => { return None; },
    };
    assert(s.skip(at_lock - pos) =~= bytes@.skip(at_lock as int));
    let (lock_time, next) = match get_le64(bytes, at_lock) {
        Some(found) => found,
        None => { return None; },
    };
    Some((Transaction { inputs, outputs, lock_time }, next))
}

} // verus!
