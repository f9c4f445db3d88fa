//! The exit game of a two-layer ledger bridge.
//!
//! A custody-holding parent ledger anchors the Merkle roots of a child
//! ledger's blocks. A user withdraws child-ledger value on the parent by
//! proving that an unspent output was included under a committed root, and
//! then waiting out a challenge window in which anyone may show, with a
//! fraud proof, that the output had already been spent.
//!
//! - `primitives`: the value types, the lifecycle states, the error kinds
//!   and the events;
//! - `hashing`: the shared hasher;
//! - `codec`: the wire layout of integers, lengths and lists;
//! - `transaction`, `utxo`: transactions and the unspent outputs they make;
//! - `merkle`: inclusion proofs;
//! - `status`: the record of an exit and the evidence of a challenge;
//! - `roots`, `storage`, `ledger`: the committed roots, the exit records and
//!   the balances;
//! - `checks`: the verifiers of existence, fraud, ownership, exchange and
//!   readiness;
//! - `parent`: the lifecycle itself;
//! - `laws`: what holds of all of it together.
pub mod primitives;
pub mod hashing;
pub mod codec;
pub mod transaction;
pub mod utxo;
pub mod merkle;
pub mod status;
pub mod roots;
pub mod storage;
pub mod ledger;
pub mod checks;
pub mod parent;
pub mod laws;
