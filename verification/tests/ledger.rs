use plasm_parent::ledger::Ledger;
use plasm_parent::primitives::{Digest, ExitError};
use plasm_parent::roots::RootCommitment;

#[test]
fn a_new_ledger_holds_the_total_alone() {
    let ledger = Ledger::new(1 << 60);
    assert_eq!(ledger.get_total_deposit(), 1 << 60);
    assert_eq!(ledger.get_balance(0), 0);
    assert_eq!(ledger.get_balance(u64::MAX), 0);
}

#[test]
fn set_balance_touches_one_account() {
    let mut ledger = Ledger::new(5);
    ledger.set_balance(1, 100);
    ledger.set_balance(2, 200);
    assert_eq!(ledger.get_balance(1), 100);
    assert_eq!(ledger.get_balance(2), 200);
    assert_eq!(ledger.get_balance(3), 0);
    ledger.set_balance(1, 0);
    assert_eq!(ledger.get_balance(1), 0);
    assert_eq!(ledger.get_balance(2), 200);
    assert_eq!(ledger.get_total_deposit(), 5);
}

#[test]
fn set_total_deposit_touches_no_balance() {
    let mut ledger = Ledger::new(5);
    ledger.set_balance(1, 100);
    ledger.set_total_deposit(u64::MAX);
    assert_eq!(ledger.get_total_deposit(), u64::MAX);
    assert_eq!(ledger.get_balance(1), 100);
}

#[test]
fn roots_are_numbered_from_one() {
    let first: Digest = [1; 32];
    let second: Digest = [2; 32];
    let mut roots = RootCommitment::new();
    assert_eq!(roots.current_block(), 0);
    assert_eq!(roots.get(0), None);
    assert_eq!(roots.get(1), None);
    assert_eq!(roots.commit(first), Ok::<u64, ExitError>(1));
    assert_eq!(roots.commit(second), Ok::<u64, ExitError>(2));
    assert_eq!(roots.current_block(), 2);
    assert_eq!(roots.get(0), None);
    assert_eq!(roots.get(1), Some(first));
    assert_eq!(roots.get(2), Some(second));
    assert_eq!(roots.get(3), None);
    assert_eq!(roots.get(u64::MAX), None);
    assert_eq!(roots.clone(), roots);
}
