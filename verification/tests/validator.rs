use check_app_id::AppId;
use check_app_id::RejectReason;
use check_app_id::call::Call;
use check_app_id::check::CheckAppId;
use check_app_id::check::IDENTIFIER;
use check_app_id::check::MAX_ITERATIONS;

fn submit() -> Call {
    Call::SubmitData
}

fn remark() -> Call {
    Call::Other
}

fn batch_submit() -> Call {
    Call::Batch(vec![submit(), submit(), submit()])
}

fn batch_mixed() -> Call {
    Call::Batch(vec![remark(), submit(), submit()])
}

// The registry counter used throughout: identifier 1 is registered, 2 is the
// next to be handed out.
fn next_app_id() -> AppId {
    AppId(2)
}

#[test]
fn unregistered_app_id_is_invalid() {
    let r = CheckAppId::from(AppId(100)).ensure_valid_app_id(&submit(), next_app_id());
    assert_eq!(r, Err(RejectReason::InvalidAppId));
}

#[test]
fn system_id_may_call_anything() {
    let r = CheckAppId::from(AppId(0)).ensure_valid_app_id(&remark(), next_app_id());
    assert_eq!(r, Ok(()));
}

#[test]
fn non_submit_call_is_forbidden_for_app_ids() {
    let r = CheckAppId::from(AppId(1)).ensure_valid_app_id(&remark(), next_app_id());
    assert_eq!(r, Err(RejectReason::ForbiddenAppId));
}

#[test]
fn registered_app_id_may_submit_data() {
    let r = CheckAppId::from(AppId(1)).ensure_valid_app_id(&submit(), next_app_id());
    assert_eq!(r, Ok(()));
}

#[test]
fn batch_of_submit_data_is_accepted() {
    let r = CheckAppId::from(AppId(1)).ensure_valid_app_id(&batch_submit(), next_app_id());
    assert_eq!(r, Ok(()));
}

#[test]
fn mixed_batch_is_forbidden_for_app_ids() {
    let r = CheckAppId::from(AppId(1)).ensure_valid_app_id(&batch_mixed(), next_app_id());
    assert_eq!(r, Err(RejectReason::ForbiddenAppId));
}

#[test]
fn mixed_batch_is_accepted_for_system_id() {
    let r = CheckAppId::from(AppId(0)).ensure_valid_app_id(&batch_mixed(), next_app_id());
    assert_eq!(r, Ok(()));
}

#[test]
fn batch_all_and_force_batch_behave_like_batch() {
    let checker = CheckAppId::from(AppId(1));
    let all = Call::BatchAll(vec![submit(), submit()]);
    assert_eq!(checker.ensure_valid_app_id(&all, next_app_id()), Ok(()));
    let forced = Call::ForceBatch(vec![remark()]);
    assert_eq!(
        checker.ensure_valid_app_id(&forced, next_app_id()),
        Err(RejectReason::ForbiddenAppId)
    );
}

#[test]
fn nested_batch_exceeds_recursion_bound() {
    let nested = Call::Batch(vec![Call::Batch(vec![submit()])]);
    let r = CheckAppId::from(AppId(1)).ensure_valid_app_id(&nested, next_app_id());
    assert_eq!(r, Err(RejectReason::MaxRecursionExceeded));
}

#[test]
fn sibling_batches_also_exceed_the_bound() {
    // The bound counts batch unwraps, not nesting depth: a second wrapper
    // anywhere in the tree is already past it.
    let siblings = Call::Batch(vec![submit(), Call::BatchAll(vec![submit()])]);
    let r = CheckAppId::from(AppId(1)).ensure_valid_app_id(&siblings, next_app_id());
    assert_eq!(r, Err(RejectReason::MaxRecursionExceeded));
}

#[test]
fn system_id_bypasses_the_recursion_bound_check() {
    let nested = Call::Batch(vec![Call::Batch(vec![Call::Batch(vec![remark()])])]);
    let r = CheckAppId::from(AppId(0)).ensure_valid_app_id(&nested, next_app_id());
    assert_eq!(r, Ok(()));
}

#[test]
fn empty_batch_is_accepted_vacuously() {
    // No leaf violates the rule, and with no data-submission leaf the
    // registry counter is never consulted.
    let empty = Call::Batch(vec![]);
    let checker = CheckAppId::from(AppId(1));
    assert_eq!(checker.ensure_valid_app_id(&empty, next_app_id()), Ok(()));
    let unregistered = CheckAppId::from(AppId(100));
    assert_eq!(unregistered.ensure_valid_app_id(&empty, next_app_id()), Ok(()));
}

#[test]
fn unregistered_id_in_batch_is_invalid() {
    let r = CheckAppId::from(AppId(2)).ensure_valid_app_id(&batch_submit(), next_app_id());
    assert_eq!(r, Err(RejectReason::InvalidAppId));
}

#[test]
fn accessors_report_the_attached_id() {
    let checker = CheckAppId::from(AppId(7));
    assert_eq!(checker.app_id(), AppId(7));
    assert_eq!(checker.0, AppId(7));
    let by_default = CheckAppId::default();
    assert_eq!(by_default.app_id(), AppId(0));
}

#[test]
fn identifier_and_bound_are_stable() {
    assert_eq!(IDENTIFIER, "CheckAppId");
    assert_eq!(MAX_ITERATIONS, 2);
}
