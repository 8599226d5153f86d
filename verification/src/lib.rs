//! Admission checks for transactions that carry an application identifier.
//!
//! Before a transaction enters the pool or a block, two decisions are made:
//!
//! * the [`check::CheckAppId`] validator walks the decoded call tree and
//!   decides whether the attached application identifier is permitted for
//!   every operation it reaches, and
//! * the block-length accountant ([`length`]) computes the padded length the
//!   transaction would add to the block's per-application accounting and
//!   rejects it when the block's scalar capacity would be exceeded.
//!
//! Both are pure: external state (the next registered application identifier,
//! the block dimensions, the current accounting snapshot) is handed in as
//! plain values, and the accountant returns the new snapshot for the caller
//! to commit, so a rejection leaves everything unchanged.

use vstd::prelude::*;

pub mod call;
pub mod check;
pub mod length;

verus! {

/// Identifier of the application (tenant) on whose behalf a transaction acts.
///
/// The identifier `0` is reserved for the system and may accompany any call;
/// a non-zero identifier is legitimate only for data-submission calls and
/// only once it has been registered.
#[derive(Clone, Copy, PartialEq, Eq, Structural, Debug)]
pub struct AppId(pub u32);

/// Why a transaction was turned away. Every rejection is terminal for the
/// current admission attempt and is reported with its precise reason.
#[derive(Clone, Copy, PartialEq, Eq, Structural, Debug)]
pub enum RejectReason {
    /// A non-zero identifier on a data-submission call is not yet registered.
    InvalidAppId,
    /// A non-zero identifier accompanies a call tree that contains an
    /// operation other than data submission or batching.
    ForbiddenAppId,
    /// Unwrapping of batch calls went past the fixed bound.
    MaxRecursionExceeded,
    /// A length conversion or accounting addition overflowed, or the block's
    /// scalar capacity would be exceeded.
    MaxPaddedLenExceeded,
}

} // verus!
