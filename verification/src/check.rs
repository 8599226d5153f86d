//! The application-identifier validator.

use vstd::prelude::*;

use crate::AppId;
use crate::RejectReason;
use crate::call::Call;
use crate::call::all_leaves_submit;
use crate::call::composite_count;
use crate::call::composite_count_forest;
use crate::call::forest_all_submit;
use crate::call::forest_has_submit;
use crate::call::has_submit_leaf;
use crate::call::lemma_forest_counts_append;
use crate::call::lemma_forest_counts_drop_last;
use crate::call::lemma_forest_preds_append;
use crate::call::lemma_forest_preds_drop_last;
use crate::call::size_forest;
use crate::length::BlockLength;
use crate::length::ExtrinsicsLen;
use crate::length::SCALAR_BYTES;
use crate::length::spec_next_len;
use crate::length::spec_padded_len;
use crate::length::sum_padded;

verus! {

/// How many batch wrappers a traversal may unwrap before it rejects: the
/// second wrapper encountered is already past the bound.
pub const MAX_ITERATIONS: usize = 2;

/// A stable name for this check, for diagnostics of the enclosing pipeline.
pub const IDENTIFIER: &'static str = "CheckAppId";

/// A non-zero identifier accompanies a call tree with a leaf that is neither
/// data submission nor batching.
pub open spec fn forbidden_cond(app_id: AppId, c: Call) -> bool {
    app_id.0 != 0 && !all_leaves_submit(c)
}

/// A non-zero identifier reaches a data-submission leaf without being
/// registered yet.
pub open spec fn invalid_cond(app_id: AppId, next_app_id: AppId, c: Call) -> bool {
    app_id.0 != 0 && has_submit_leaf(c) && app_id.0 >= next_app_id.0
}

/// A non-zero identifier accompanies a call tree whose batch wrappers reach
/// the unwrap bound.
pub open spec fn recursion_cond(app_id: AppId, c: Call) -> bool {
    app_id.0 != 0 && composite_count(c) >= MAX_ITERATIONS
}

/// When the validator accepts: the system identifier always passes, and a
/// non-zero identifier passes exactly when no violation is present.
pub open spec fn validates(app_id: AppId, next_app_id: AppId, c: Call) -> bool {
    &&& !forbidden_cond(app_id, c)
    &&& !invalid_cond(app_id, next_app_id, c)
    &&& !recursion_cond(app_id, c)
}

/// Admission check for the application identifier a transaction carries.
#[derive(Clone, Copy, PartialEq, Eq, Structural, Debug)]
pub struct CheckAppId(pub AppId);

impl CheckAppId {
    /// Builds the check for a given application identifier.
    pub fn from(app_id: AppId) -> (r: Self)
        ensures
            r.0 == app_id,
    {
        CheckAppId(app_id)
    }

    /// The application identifier this transaction carries.
    pub fn app_id(&self) -> (r: AppId)
        ensures
            r == self.0,
    {
        self.0
    }

    /// Validates that the attached identifier is permitted for `call` and for
    /// every call nested inside it.
    ///
    /// `next_app_id` is the registry counter read once for the whole
    /// traversal: the smallest identifier not yet registered. The identifier
    /// `0` is accepted without any traversal. A non-zero identifier is
    /// accepted exactly when every leaf of the tree is data submission, the
    /// identifier is registered (when any such leaf exists), and the batch
    /// wrappers stay under the unwrap bound. Each rejection reason is
    /// returned only for its own violation, and when a single violation is
    /// present the reason is pinned to it; with several at once, which of
    /// them is reported depends on the traversal order and is not promised.
    #[verifier::loop_isolation(false)]
    pub fn ensure_valid_app_id(&self, call: &Call, next_app_id: AppId) -> (r: Result<
        (),
        RejectReason,
    >)
        ensures
            r is Ok <==> validates(self.0, next_app_id, *call),
            self.0 == AppId(0u32) ==> r is Ok,
            r == Err::<(), RejectReason>(RejectReason::ForbiddenAppId) ==> forbidden_cond(
                self.0,
                *call,
            ),
            r == Err::<(), RejectReason>(RejectReason::InvalidAppId) ==> invalid_cond(
                self.0,
                next_app_id,
                *call,
            ),
            r == Err::<(), RejectReason>(RejectReason::MaxRecursionExceeded) ==> recursion_cond(
                self.0,
                *call,
            ),
            r != Err::<(), RejectReason>(RejectReason::MaxPaddedLenExceeded),
            forbidden_cond(self.0, *call) && !invalid_cond(self.0, next_app_id, *call)
                && !recursion_cond(self.0, *call) ==> r == Err::<(), RejectReason>(
                RejectReason::ForbiddenAppId,
            ),
            invalid_cond(self.0, next_app_id, *call) && !forbidden_cond(self.0, *call)
                && !recursion_cond(self.0, *call) ==> r == Err::<(), RejectReason>(
                RejectReason::InvalidAppId,
            ),
            recursion_cond(self.0, *call) && !forbidden_cond(self.0, *call) && !invalid_cond(
                self.0,
                next_app_id,
                *call,
            ) ==> r == Err::<(), RejectReason>(RejectReason::MaxRecursionExceeded),
    {
        if self.0.0 == 0 {
            return Ok(());
        }
        let app: u32 = self.0.0;
        let mut stack: Vec<&Call> = Vec::new();
        stack.push(call);
        let ghost mut forest: Seq<Call> = seq![*call];
        let ghost mut seen_submit: bool = false;
        let mut iterations: usize = 0;
        proof {
            assert(forest.len() == 1 && forest[0] == *call);
            assert(crate::call::composite_count_prefix(forest, 0) == 0);
            assert(crate::call::size_prefix(forest, 0) == 0);
            assert(composite_count_forest(forest) == composite_count(*call));
            if forest_all_submit(forest) {
                assert(all_leaves_submit(forest[0]));
            }
            if has_submit_leaf(*call) {
                assert(has_submit_leaf(forest[0]));
            }
            if forest_has_submit(forest) {
                let i = choose|i: int|
                    0 <= i < forest.len() && has_submit_leaf(#[trigger] forest[i]);
                assert(has_submit_leaf(*call));
            }
        }
        while stack.len() != 0
            invariant
                stack@.len() == forest.len(),
                forall|i: int| 0 <= i < forest.len() ==> *stack@[i] == forest[i],
                forest_all_submit(forest) <==> all_leaves_submit(*call),
                has_submit_leaf(*call) <==> (seen_submit || forest_has_submit(forest)),
                seen_submit ==> app < next_app_id.0,
                composite_count(*call) == iterations + composite_count_forest(forest),
                iterations < MAX_ITERATIONS,
            decreases size_forest(forest),
        {
            let ghost prev_forest = forest;
            let c: &Call = stack.pop().unwrap();
            proof {
                assert(*c == prev_forest.last());
                lemma_forest_counts_drop_last(prev_forest);
                lemma_forest_preds_drop_last(prev_forest);
                forest = prev_forest.drop_last();
            }
            match c {
                Call::SubmitData => {
                    if app >= next_app_id.0 {
                        return Err(RejectReason::InvalidAppId);
                    }
                    proof {
                        seen_submit = true;
                    }
                },
                Call::Other => {
                    return Err(RejectReason::ForbiddenAppId);
                },
                Call::Batch(calls) | Call::BatchAll(calls) | Call::ForceBatch(calls) => {
                    iterations = iterations + 1;
                    if iterations >= MAX_ITERATIONS {
                        return Err(RejectReason::MaxRecursionExceeded);
                    }
                    let ghost base = forest;
                    proof {
                        assert(base + calls@.subrange(0, 0) =~= base);
                    }
                    let mut j: usize = 0;
                    while j < calls.len()
                        invariant
                            j <= calls.len(),
                            stack@.len() == forest.len(),
                            forall|i: int| 0 <= i < forest.len() ==> *stack@[i] == forest[i],
                            forest == base + calls@.subrange(0, j as int),
                        decreases calls.len() - j,
                    {
                        stack.push(&calls[j]);
                        proof {
                            forest = forest.push(calls@[j as int]);
                            assert(forest =~= base + calls@.subrange(0, j + 1));
                        }
                        j += 1;
                    }
                    proof {
                        assert(calls@.subrange(0, calls@.len() as int) =~= calls@);
                        lemma_forest_counts_append(base, calls@);
                        lemma_forest_preds_append(base, calls@);
                    }
                },
            }
        }
        Ok(())
    }

    /// Computes the accounting snapshot the block would hold once this
    /// transaction's `len` serialized bytes are recorded under the attached
    /// identifier.
    ///
    /// Returns `None` — and the current snapshot stands untouched — when the
    /// length does not fit the accounting width, when any padding or
    /// accounting addition overflows, when the grid's scalar capacity
    /// `rows * cols` overflows, or when the new grand total of scalars would
    /// exceed that capacity.
    pub fn next_all_extrinsics_len(
        &self,
        len: usize,
        block_length: &BlockLength,
        current: &ExtrinsicsLen,
    ) -> (r: Option<ExtrinsicsLen>)
        requires
            current.wf(),
        ensures
            r is Some <==> spec_next_len(current@, self.0.0, len as nat, *block_length) is Some,
            r is Some ==> r.unwrap()@ == spec_next_len(
                current@,
                self.0.0,
                len as nat,
                *block_length,
            ).unwrap(),
            r is Some ==> r.unwrap().wf(),
            r is Some ==> sum_padded(r.unwrap()@) == sum_padded(current@) + spec_padded_len(
                len as nat,
            ),
            r is Some ==> sum_padded(r.unwrap()@) / (SCALAR_BYTES as int) <= block_length.rows
                * block_length.cols,
    {
        if len > u32::MAX as usize {
            return None;
        }
        let len32: u32 = len as u32;
        let max_scalars: u32 = match block_length.rows.checked_mul(block_length.cols) {
            None => { return None },
            Some(m) => m,
        };
        let next = match current.add_padded(self.0, len32) {
            None => { return None },
            Some(x) => x,
        };
        let total_scalars: u32 = next.total_num_scalars();
        if total_scalars <= max_scalars {
            Some(next)
        } else {
            None
        }
    }

    /// The combined admission decision: the identifier is validated against
    /// the call tree first, then the block-length accounting is updated.
    ///
    /// Either both steps succeed — and the returned snapshot is what the
    /// caller commits to the block-build state — or the transaction is
    /// rejected with the first failing reason and nothing changes.
    pub fn do_validate(
        &self,
        call: &Call,
        len: usize,
        next_app_id: AppId,
        block_length: &BlockLength,
        current: &ExtrinsicsLen,
    ) -> (r: Result<ExtrinsicsLen, RejectReason>)
        requires
            current.wf(),
        ensures
            r is Ok <==> validates(self.0, next_app_id, *call) && spec_next_len(
                current@,
                self.0.0,
                len as nat,
                *block_length,
            ) is Some,
            r is Ok ==> r.unwrap()@ == spec_next_len(
                current@,
                self.0.0,
                len as nat,
                *block_length,
            ).unwrap(),
            r is Ok ==> r.unwrap().wf(),
            r is Ok ==> sum_padded(r.unwrap()@) == sum_padded(current@) + spec_padded_len(
                len as nat,
            ),
            r == Err::<ExtrinsicsLen, RejectReason>(RejectReason::MaxPaddedLenExceeded)
                <==> validates(self.0, next_app_id, *call) && spec_next_len(
                current@,
                self.0.0,
                len as nat,
                *block_length,
            ) is None,
            r == Err::<ExtrinsicsLen, RejectReason>(RejectReason::ForbiddenAppId)
                ==> forbidden_cond(self.0, *call),
            r == Err::<ExtrinsicsLen, RejectReason>(RejectReason::InvalidAppId) ==> invalid_cond(
                self.0,
                next_app_id,
                *call,
            ),
            r == Err::<ExtrinsicsLen, RejectReason>(RejectReason::MaxRecursionExceeded)
                ==> recursion_cond(self.0, *call),
    {
        match self.ensure_valid_app_id(call, next_app_id) {
            Err(e) => Err(e),
            Ok(()) => match self.next_all_extrinsics_len(len, block_length, current) {
                None => Err(RejectReason::MaxPaddedLenExceeded),
                Some(next) => Ok(next),
            },
        }
    }
}

impl Default for CheckAppId {
    /// The default check carries the system identifier.
    fn default() -> (r: Self)
        ensures
            r.0 == AppId(0u32),
    {
        CheckAppId(AppId(0))
    }
}

} // verus!
