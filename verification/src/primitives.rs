//! The value types shared by every component, the lifecycle states, the
//! error kinds and the events.
use vstd::prelude::*;

verus! {

/// An account of the parent ledger.
pub type AccountId = u64;

/// An amount of value, child-denominated or parent-denominated.
pub type Amount = u64;

/// The number of a child-ledger block.
pub type BlockNumber = u64;

/// A point in time, in the clock's units.
pub type Moment = u64;

/// A fixed-width digest of the shared hasher.
pub type Digest = [u8; 32];

/// The length of the challenge window: 24 hours in the clock's units.
pub const EXIT_WAITING_MOMENT: Moment = 86_400_000;

/// The lifecycle state of an exit.
#[derive(Clone, Copy, Debug, PartialEq, Eq, Structural)]
pub enum ExitState {
    Exiting,
    Challenged,
    Finalized,
}

/// Why an operation was refused.
#[derive(Clone, Copy, Debug, PartialEq, Eq, Structural)]
pub enum ExitError {
    PermissionDenied,
    ArithmeticOverflow,
    ArithmeticUnderflow,
    DecodeError,
    ProofNotFound,
    InvalidRoot,
    InvalidLeaf,
    InvalidOrdering,
    NoConflict,
    InvalidExitor,
    UnknownExitId,
    DuplicateExit,
    NotYetExpired,
    AlreadyChallenged,
    AlreadyFinalized,
}

/// What a successful operation announces.
#[derive(Clone, Copy, Debug, PartialEq, Eq)]
pub enum Event {
    Submit(Digest),
    Deposit(AccountId, Amount),
    ExitStart(AccountId, Digest),
    Challenged(Digest),
    ExitFinalize(Digest),
}

/// The model of an `Event`.
pub enum EventView {
    Submit(Seq<u8>),
    Deposit(AccountId, Amount),
    ExitStart(AccountId, Seq<u8>),
    Challenged(Seq<u8>),
    ExitFinalize(Seq<u8>),
}

impl View for Event {
    type V = EventView;

    open spec fn view(&self) -> EventView {
        match *self {
            Event::Submit(root) => EventView::Submit(root@),
            Event::Deposit(account, amount) => EventView::Deposit(account, amount),
            Event::ExitStart(account, exit_id) => EventView::ExitStart(account, exit_id@),
            Event::Challenged(exit_id) => EventView::Challenged(exit_id@),
            Event::ExitFinalize(exit_id) => EventView::ExitFinalize(exit_id@),
        }
    }
}

/// The byte strings of a run of digests.
pub open spec fn digest_views(digests: Seq<Digest>) -> Seq<Seq<u8>> {
    Seq::new(digests.len(), |i: int| digests[i]@)
}

/// Whether two digests hold the same bytes.
pub fn digest_eq(a: &Digest, b: &Digest) -> (same: bool)
    ensures
        same == (a@ == b@),
{
    let mut i: usize = 0;
    while i < 32
        invariant
            i <= 32,
            forall|k: int| 0 <= k < i ==> a@[k] == b@[k],
        decreases 32 - i,
    {
        if a[i] != b[i] {
            return false;
        }
        i = i + 1;
    }
    assert(a@ =~= b@);
    true
}

} // verus!
