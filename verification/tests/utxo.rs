use parity_codec::Encode;
use plasm_parent::primitives::{Digest, ExitError};
use plasm_parent::transaction::{Transaction, TransactionInput, TransactionOutput};
use plasm_parent::utxo::{Utxo, utxo_hash};

fn sample_transaction() -> Transaction {
    Transaction {
        inputs: vec![TransactionInput { tx_hash: [0x11; 32], out_index: 0 }],
        outputs: vec![
            TransactionOutput { value: 40, keys: vec![1], quorum: 1 },
            TransactionOutput { value: 60, keys: vec![2, 3], quorum: 2 },
        ],
        lock_time: 5,
    }
}

fn sample_bytes() -> Vec<u8> {
    let mut bytes = vec![0x04];
    bytes.extend_from_slice(&[0x11; 32]);
    bytes.extend_from_slice(&[0, 0, 0, 0]);
    bytes.push(0x08);
    bytes.extend_from_slice(&[0x28, 0, 0, 0, 0, 0, 0, 0]);
    bytes.push(0x04);
    bytes.extend_from_slice(&[1, 0, 0, 0, 0, 0, 0, 0]);
    bytes.extend_from_slice(&[1, 0, 0, 0]);
    bytes.extend_from_slice(&[0x3c, 0, 0, 0, 0, 0, 0, 0]);
    bytes.push(0x08);
    bytes.extend_from_slice(&[2, 0, 0, 0, 0, 0, 0, 0]);
    bytes.extend_from_slice(&[3, 0, 0, 0, 0, 0, 0, 0]);
    bytes.extend_from_slice(&[2, 0, 0, 0]);
    bytes.extend_from_slice(&[5, 0, 0, 0, 0, 0, 0, 0]);
    bytes.extend_from_slice(&[0, 0, 0, 0]);
    bytes
}

fn blake2_256(data: &[u8]) -> Digest {
    let mut digest = [0u8; 32];
    digest.copy_from_slice(blake2_rfc::blake2b::blake2b(32, &[], data).as_bytes());
    digest
}

fn scale_bytes(tx: &Transaction, index: u32) -> Vec<u8> {
    let inputs: Vec<([u8; 32], u32)> = tx.inputs.iter().map(|i| (i.tx_hash, i.out_index)).collect();
    let outputs: Vec<(u64, Vec<u64>, u32)> =
        tx.outputs.iter().map(|o| (o.value, o.keys.clone(), o.quorum)).collect();
    ((inputs, outputs, tx.lock_time), index).encode()
}

#[test]
fn new_selects_an_output() {
    let utxo = Utxo::new(sample_transaction(), 1).unwrap();
    assert_eq!(utxo.index(), 1);
    assert_eq!(utxo.transaction(), &sample_transaction());
    assert_eq!(*utxo.value(), 60);
    assert_eq!(utxo.owners(), &vec![2, 3]);
    assert_eq!(utxo.quorum(), 2);
    let first = Utxo::new(sample_transaction(), 0).unwrap();
    assert_eq!(*first.value(), 40);
    assert_eq!(first.owners(), &vec![1]);
    assert_eq!(first.quorum(), 1);
}

#[test]
fn new_refuses_an_index_without_an_output() {
    assert!(Utxo::new(sample_transaction(), 2).is_none());
    assert!(Utxo::new(sample_transaction(), u32::MAX).is_none());
    let empty = Transaction { inputs: vec![], outputs: vec![], lock_time: 0 };
    assert!(Utxo::new(empty, 0).is_none());
}

#[test]
fn encode_writes_the_layout() {
    let utxo = Utxo::new(sample_transaction(), 0).unwrap();
    assert_eq!(utxo.encode(), sample_bytes());
    assert_eq!(utxo.encode().len(), 100);
}

#[test]
fn encode_agrees_with_the_scale_codec() {
    for index in 0..2 {
        let utxo = Utxo::new(sample_transaction(), index).unwrap();
        assert_eq!(utxo.encode(), scale_bytes(&sample_transaction(), index));
    }
    let mut wide = sample_transaction();
    wide.outputs[0].keys = (0..100u64).collect();
    wide.inputs = (0..70u32).map(|i| TransactionInput { tx_hash: [i as u8; 32], out_index: i }).collect();
    let utxo = Utxo::new(wide.clone(), 1).unwrap();
    assert_eq!(utxo.encode(), scale_bytes(&wide, 1));
    assert_eq!(Utxo::decode(&utxo.encode()), Ok(utxo));
}

#[test]
fn decode_reads_back_what_encode_wrote() {
    let utxo = Utxo::new(sample_transaction(), 1).unwrap();
    let decoded = Utxo::decode(&utxo.encode()).unwrap();
    assert_eq!(decoded, utxo);
    assert_eq!(decoded.encode(), utxo.encode());
    assert_eq!(Utxo::decode(&sample_bytes()), Ok(Utxo::new(sample_transaction(), 0).unwrap()));
}

#[test]
fn decode_refuses_what_is_cut_short() {
    let bytes = sample_bytes();
    for len in 0..bytes.len() {
        assert_eq!(Utxo::decode(&bytes[..len]), Err(ExitError::DecodeError));
    }
}

#[test]
fn decode_refuses_bytes_after_the_output() {
    let mut bytes = sample_bytes();
    bytes.push(0);
    assert_eq!(Utxo::decode(&bytes), Err(ExitError::DecodeError));
}

#[test]
fn decode_refuses_an_index_without_an_output() {
    let mut bytes = sample_bytes();
    let at = bytes.len() - 4;
    bytes[at] = 2;
    assert_eq!(Utxo::decode(&bytes), Err(ExitError::DecodeError));
    bytes[at] = 1;
    assert_eq!(Utxo::decode(&bytes).map(|u| u.index()), Ok(1));
}

#[test]
fn decode_refuses_a_length_in_a_longer_form() {
    // the same output with the number of inputs written in two bytes
    let mut bytes = vec![0x05, 0x00];
    bytes.extend_from_slice(&sample_bytes()[1..]);
    assert_eq!(Utxo::decode(&bytes), Err(ExitError::DecodeError));
}

#[test]
fn decode_refuses_the_empty_buffer() {
    assert_eq!(Utxo::decode(&[]), Err(ExitError::DecodeError));
}

#[test]
fn clone_keeps_the_output() {
    let utxo = Utxo::new(sample_transaction(), 1).unwrap();
    let copy = utxo.clone();
    assert_eq!(copy, utxo);
    assert_eq!(copy.hash(), utxo.hash());
    assert_eq!(sample_transaction().clone(), sample_transaction());
}

#[test]
fn utxo_hash_is_the_digest_of_digest_and_index() {
    let expected: Digest = [
        0x01, 0xb5, 0x02, 0x30, 0x82, 0xaf, 0x8e, 0x61, 0x36, 0x99, 0x01, 0xf0, 0xdf, 0xd5, 0xbf,
        0x00, 0x6e, 0x44, 0x6f, 0xd7, 0x2a, 0xd8, 0x96, 0xe1, 0xdf, 0xba, 0x1e, 0x8e, 0x39, 0xd1,
        0xa1, 0x82,
    ];
    assert_eq!(utxo_hash(&[0u8; 32], 7), expected);
    let mut preimage = vec![0u8; 32];
    preimage.extend_from_slice(&[7, 0, 0, 0]);
    assert_eq!(utxo_hash(&[0u8; 32], 7), blake2_256(&preimage));
    assert_ne!(utxo_hash(&[0u8; 32], 7), [0u8; 32]);
}

#[test]
fn hash_is_the_identity_of_the_output() {
    let expected: Digest = [
        0x94, 0xe5, 0x13, 0x31, 0xe5, 0x09, 0x2a, 0x72, 0x25, 0x38, 0xae, 0x3d, 0xbb, 0x44, 0xcc,
        0x2b, 0x1b, 0xd4, 0x55, 0x04, 0xc4, 0xe9, 0x87, 0x7f, 0x70, 0x2f, 0x3b, 0x8c, 0xb1, 0xd6,
        0x3d, 0x33,
    ];
    let utxo = Utxo::new(sample_transaction(), 0).unwrap();
    assert_eq!(utxo.hash(), expected);
    let tx_bytes = &sample_bytes()[..96];
    assert_eq!(utxo.hash(), utxo_hash(&blake2_256(tx_bytes), 0));
}

#[test]
fn hash_is_stable_under_repetition() {
    let utxo = Utxo::new(sample_transaction(), 1).unwrap();
    let first = utxo.hash();
    assert_eq!(utxo.hash(), first);
    assert_eq!(utxo.clone().hash(), first);
    assert_eq!(Utxo::new(sample_transaction(), 1).unwrap().hash(), first);
    assert_eq!(Utxo::decode(&utxo.encode()).unwrap().hash(), first);
}

#[test]
fn hash_changes_with_the_index() {
    let first = Utxo::new(sample_transaction(), 0).unwrap();
    let second = Utxo::new(sample_transaction(), 1).unwrap();
    assert_ne!(first.hash(), second.hash());
}

#[test]
fn hash_changes_with_the_transaction() {
    let base = Utxo::new(sample_transaction(), 0).unwrap().hash();
    let mut value = sample_transaction();
    value.outputs[0].value = 41;
    assert_ne!(Utxo::new(value, 0).unwrap().hash(), base);
    let mut owner = sample_transaction();
    owner.outputs[1].keys.push(4);
    assert_ne!(Utxo::new(owner, 0).unwrap().hash(), base);
    let mut quorum = sample_transaction();
    quorum.outputs[0].quorum = 2;
    assert_ne!(Utxo::new(quorum, 0).unwrap().hash(), base);
    let mut input = sample_transaction();
    input.inputs[0].out_index = 1;
    assert_ne!(Utxo::new(input, 0).unwrap().hash(), base);
    let mut spent = sample_transaction();
    spent.inputs[0].tx_hash[31] = 0x12;
    assert_ne!(Utxo::new(spent, 0).unwrap().hash(), base);
    let mut lock = sample_transaction();
    lock.lock_time = 6;
    assert_ne!(Utxo::new(lock, 0).unwrap().hash(), base);
}

#[test]
fn inputs_are_the_identities_of_the_spent_outputs() {
    let expected: Digest = [
        0xdb, 0xd5, 0xdf, 0x42, 0xb3, 0xd4, 0x12, 0x0a, 0x9e, 0x8f, 0x6d, 0x3b, 0x2e, 0xed, 0xcd,
        0xc2, 0x1a, 0xd2, 0x7c, 0xf7, 0x6e, 0x95, 0x97, 0x85, 0x64, 0xf6, 0x6f, 0x44, 0xe0, 0x24,
        0x01, 0x84,
    ];
    let utxo = Utxo::new(sample_transaction(), 1).unwrap();
    assert_eq!(utxo.inputs(), vec![expected]);
    assert_ne!(utxo.inputs(), vec![[0x11u8; 32]]);
}

#[test]
fn inputs_point_at_the_outputs_they_spend() {
    let parent = Utxo::new(sample_transaction(), 1).unwrap();
    let parent_tx_hash = blake2_256(&sample_bytes()[..96]);
    let child = Transaction {
        inputs: vec![
            TransactionInput { tx_hash: parent_tx_hash, out_index: 1 },
            TransactionInput { tx_hash: parent_tx_hash, out_index: 0 },
        ],
        outputs: vec![TransactionOutput { value: 100, keys: vec![9], quorum: 1 }],
        lock_time: 0,
    };
    let child = Utxo::new(child, 0).unwrap();
    let inputs = child.inputs();
    assert_eq!(inputs.len(), 2);
    assert_eq!(inputs[0], parent.hash());
    assert_eq!(inputs[1], Utxo::new(sample_transaction(), 0).unwrap().hash());
}

#[test]
fn inputs_of_a_transaction_without_inputs_are_none() {
    let tx = Transaction {
        inputs: vec![],
        outputs: vec![TransactionOutput { value: 1, keys: vec![], quorum: 0 }],
        lock_time: 0,
    };
    let utxo = Utxo::new(tx, 0).unwrap();
    assert!(utxo.inputs().is_empty());
    assert!(utxo.owners().is_empty());
}

#[test]
fn long_lists_take_the_longer_length_forms() {
    let mut tx = sample_transaction();
    tx.outputs[1].keys = (0..16_384u64).collect();
    tx.inputs = (0..64u32).map(|i| TransactionInput { tx_hash: [7; 32], out_index: i }).collect();
    let utxo = Utxo::new(tx.clone(), 1).unwrap();
    let bytes = utxo.encode();
    // 64 inputs: two bytes; 16384 keys: four bytes
    assert_eq!(&bytes[..2], &[0x01, 0x01]);
    assert_eq!(bytes.len(), 2 + 64 * 36 + 1 + (8 + 1 + 8 + 4) + (8 + 4 + 16_384 * 8 + 4) + 8 + 4);
    assert_eq!(bytes, scale_bytes(&tx, 1));
    let decoded = Utxo::decode(&bytes).unwrap();
    assert_eq!(decoded, utxo);
    assert_eq!(decoded.owners().len(), 16_384);
    assert_eq!(decoded.inputs().len(), 64);
}

#[test]
fn tx_hash_is_the_digest_of_the_transaction() {
    let utxo = Utxo::new(sample_transaction(), 1).unwrap();
    assert_eq!(utxo.tx_hash(), blake2_256(&sample_bytes()[..96]));
    assert_eq!(utxo.tx_hash(), Utxo::new(sample_transaction(), 0).unwrap().tx_hash());
    assert_eq!(utxo.hash(), utxo_hash(&utxo.tx_hash(), 1));
}
