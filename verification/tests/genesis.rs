use plasm_parent::ledger::Ledger;
use plasm_parent::parent::Module;

fn new_test_ext() -> (Module, Ledger) {
    let mut ledger = Ledger::new(1 << 60);
    ledger.set_balance(0, 1 << 60);
    ledger.set_balance(1, 1 << 20);
    ledger.set_balance(2, 1 << 20);
    (Module::new(vec![0], 1 << 10), ledger)
}

#[test]
fn it_works_for_default_value() {
    let (module, ledger) = new_test_ext();
    assert_eq!(ledger.get_total_deposit(), 1 << 60);
    assert_eq!(ledger.get_balance(0), 1 << 60);
    assert_eq!(ledger.get_balance(1), 1 << 20);
    assert_eq!(ledger.get_balance(2), 1 << 20);
    assert_eq!(ledger.get_balance(3), 0);
    assert_eq!(module.operator(), &vec![0]);
    assert_eq!(module.fee(), 1 << 10);
    assert_eq!(module.current_block(), 0);
    assert_eq!(module.child_chain().get(0), None);
    assert_eq!(module.child_chain().get(1), None);
    assert!(module.exit_status_storage(&[0u8; 32]).is_none());
}
