use plasm_parent::primitives::{Digest, EXIT_WAITING_MOMENT, Event, ExitError, ExitState, digest_eq};

#[test]
fn digest_eq_compares_every_byte() {
    let zero: Digest = [0; 32];
    assert!(digest_eq(&zero, &[0; 32]));
    for at in 0..32 {
        let mut other = zero;
        other[at] = 1;
        assert!(!digest_eq(&zero, &other));
        assert!(!digest_eq(&other, &zero));
        assert!(digest_eq(&other, &other));
    }
}

#[test]
fn the_window_lasts_twenty_four_hours() {
    assert_eq!(EXIT_WAITING_MOMENT, 86_400_000);
}

#[test]
fn states_errors_and_events_compare_by_content() {
    assert_ne!(ExitState::Exiting, ExitState::Challenged);
    assert_ne!(ExitState::Challenged, ExitState::Finalized);
    assert_ne!(ExitError::AlreadyChallenged, ExitError::AlreadyFinalized);
    assert_ne!(ExitError::ArithmeticOverflow, ExitError::ArithmeticUnderflow);
    assert_eq!(Event::Deposit(1, 2), Event::Deposit(1, 2));
    assert_ne!(Event::Challenged([0; 32]), Event::ExitFinalize([0; 32]));
    assert_ne!(Event::ExitStart(1, [0; 32]), Event::ExitStart(1, [1; 32]));
}
