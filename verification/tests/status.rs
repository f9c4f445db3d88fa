use plasm_parent::primitives::{Digest, ExitState};
use plasm_parent::status::{ChallengeStatus, ExitStatus};
use plasm_parent::transaction::{Transaction, TransactionInput, TransactionOutput};
use plasm_parent::utxo::Utxo;

fn sample_utxo() -> Utxo {
    let tx = Transaction {
        inputs: vec![TransactionInput { tx_hash: [0x11; 32], out_index: 0 }],
        outputs: vec![
            TransactionOutput { value: 40, keys: vec![1], quorum: 1 },
            TransactionOutput { value: 60, keys: vec![2, 3], quorum: 2 },
        ],
        lock_time: 5,
    };
    Utxo::new(tx, 0).unwrap()
}

#[test]
fn exit_status_keeps_its_parts() {
    let status = ExitStatus::new(1, sample_utxo(), 1_000, 86_401_000, ExitState::Exiting);
    assert_eq!(*status.blk_num(), 1);
    assert_eq!(status.utxo(), &sample_utxo());
    assert_eq!(*status.started(), 1_000);
    assert_eq!(*status.expired(), 86_401_000);
    assert_eq!(*status.state(), ExitState::Exiting);
}

#[test]
fn set_state_changes_the_state_alone() {
    let mut status = ExitStatus::new(1, sample_utxo(), 1_000, 86_401_000, ExitState::Exiting);
    status.set_state(ExitState::Challenged);
    assert_eq!(status, ExitStatus::new(1, sample_utxo(), 1_000, 86_401_000, ExitState::Challenged));
    status.set_state(ExitState::Finalized);
    assert_eq!(*status.state(), ExitState::Finalized);
    assert_eq!(*status.blk_num(), 1);
    assert_eq!(*status.started(), 1_000);
    assert_eq!(*status.expired(), 86_401_000);
    assert_eq!(status.utxo(), &sample_utxo());
}

#[test]
fn encode_writes_the_record_in_order() {
    let status = ExitStatus::new(1, sample_utxo(), 1_000, 86_401_000, ExitState::Exiting);
    let mut expected = vec![1, 0, 0, 0, 0, 0, 0, 0];
    expected.extend_from_slice(&sample_utxo().encode());
    expected.extend_from_slice(&1_000u64.to_le_bytes());
    expected.extend_from_slice(&86_401_000u64.to_le_bytes());
    expected.push(0);
    assert_eq!(status.encode(), expected);
    let mut challenged = status.clone();
    challenged.set_state(ExitState::Challenged);
    assert_eq!(*challenged.encode().last().unwrap(), 1);
    challenged.set_state(ExitState::Finalized);
    assert_eq!(*challenged.encode().last().unwrap(), 2);
}

#[test]
fn id_is_the_digest_of_the_record() {
    let expected: Digest = [
        0x7e, 0x54, 0x3a, 0x5c, 0x3b, 0x8a, 0x37, 0x77, 0x4c, 0x62, 0xef, 0x44, 0xd4, 0xc4, 0x9c,
        0x6b, 0xe5, 0x48, 0xf0, 0x3b, 0x78, 0xcf, 0x9f, 0xf8, 0x81, 0xa2, 0xee, 0x8a, 0x07, 0x8d,
        0x5b, 0x30,
    ];
    let status = ExitStatus::new(1, sample_utxo(), 1_000, 86_401_000, ExitState::Exiting);
    assert_eq!(status.id(), expected);
    assert_eq!(status.clone().id(), expected);
    assert_eq!(
        &status.id()[..],
        blake2_rfc::blake2b::blake2b(32, &[], &status.encode()).as_bytes()
    );
}

#[test]
fn id_changes_with_every_part() {
    let base = ExitStatus::new(1, sample_utxo(), 1_000, 86_401_000, ExitState::Exiting).id();
    assert_ne!(ExitStatus::new(2, sample_utxo(), 1_000, 86_401_000, ExitState::Exiting).id(), base);
    assert_ne!(ExitStatus::new(1, sample_utxo(), 1_001, 86_401_000, ExitState::Exiting).id(), base);
    assert_ne!(ExitStatus::new(1, sample_utxo(), 1_000, 86_401_001, ExitState::Exiting).id(), base);
    assert_ne!(ExitStatus::new(1, sample_utxo(), 1_000, 86_401_000, ExitState::Finalized).id(), base);
    let other = Utxo::new(sample_utxo().transaction().clone(), 1).unwrap();
    assert_ne!(ExitStatus::new(1, other, 1_000, 86_401_000, ExitState::Exiting).id(), base);
}

#[test]
fn challenge_status_keeps_its_parts() {
    let status = ChallengeStatus::new(7, sample_utxo());
    assert_eq!(*status.blk_num(), 7);
    assert_eq!(status.utxo(), &sample_utxo());
    assert_eq!(status.clone(), status);
}
