use check_app_id::AppId;
use check_app_id::RejectReason;
use check_app_id::call::Call;
use check_app_id::check::CheckAppId;
use check_app_id::length::BlockLength;
use check_app_id::length::ExtrinsicsLen;
use check_app_id::length::SCALAR_BYTES;
use check_app_id::length::padded_len;

fn wide() -> BlockLength {
    BlockLength { rows: 32, cols: 32 }
}

fn next_app_id() -> AppId {
    AppId(2)
}

#[test]
fn scalar_width_is_stable() {
    assert_eq!(SCALAR_BYTES, 32);
}

#[test]
fn padding_rounds_up_to_whole_scalars() {
    assert_eq!(padded_len(0), Some(0));
    assert_eq!(padded_len(1), Some(32));
    assert_eq!(padded_len(31), Some(32));
    assert_eq!(padded_len(32), Some(32));
    assert_eq!(padded_len(33), Some(64));
    assert_eq!(padded_len(100), Some(128));
}

#[test]
fn padding_that_does_not_fit_is_refused() {
    assert_eq!(padded_len(u32::MAX), None);
    assert_eq!(padded_len(u32::MAX - 30), None);
    assert_eq!(padded_len(u32::MAX - 31), Some(u32::MAX - 31));
}

#[test]
fn fresh_accounting_is_empty() {
    let fresh = ExtrinsicsLen::new();
    assert_eq!(fresh.num_entries(), 0);
    assert_eq!(fresh.total_padded_bytes(), 0);
    assert_eq!(fresh.total_num_scalars(), 0);
    let by_default = ExtrinsicsLen::default();
    assert_eq!(by_default.num_entries(), 0);
    assert_eq!(by_default.total_padded_bytes(), 0);
}

#[test]
fn admitted_transaction_records_its_padded_length() {
    let checker = CheckAppId::from(AppId(1));
    let fresh = ExtrinsicsLen::new();
    let next = checker
        .next_all_extrinsics_len(10, &wide(), &fresh)
        .expect("fits easily");
    assert_eq!(next.num_entries(), 1);
    assert_eq!(next.entry(0), (1, 32));
    assert_eq!(next.total_padded_bytes(), 32);
    assert_eq!(next.total_num_scalars(), 1);
}

#[test]
fn same_application_accumulates_one_entry() {
    let checker = CheckAppId::from(AppId(1));
    let first = checker
        .next_all_extrinsics_len(10, &wide(), &ExtrinsicsLen::new())
        .expect("fits");
    let second = checker
        .next_all_extrinsics_len(40, &wide(), &first)
        .expect("fits");
    assert_eq!(second.num_entries(), 1);
    assert_eq!(second.entry(0), (1, 32 + 64));
    assert_eq!(second.total_padded_bytes(), 96);
}

#[test]
fn different_applications_get_their_own_entries() {
    let first = CheckAppId::from(AppId(1))
        .next_all_extrinsics_len(10, &wide(), &ExtrinsicsLen::new())
        .expect("fits");
    let second = CheckAppId::from(AppId(0))
        .next_all_extrinsics_len(33, &wide(), &first)
        .expect("fits");
    assert_eq!(second.num_entries(), 2);
    assert_eq!(second.entry(0), (1, 32));
    assert_eq!(second.entry(1), (0, 64));
    assert_eq!(second.total_padded_bytes(), 96);
    assert_eq!(second.total_num_scalars(), 3);
}

#[test]
fn capacity_is_enforced_and_rejection_changes_nothing() {
    // One scalar of capacity: the first 32-byte transaction fills the grid,
    // the next is rejected and the snapshot we hold stands as it was.
    let tight = BlockLength { rows: 1, cols: 1 };
    let checker = CheckAppId::from(AppId(1));
    let first = checker
        .next_all_extrinsics_len(32, &tight, &ExtrinsicsLen::new())
        .expect("exactly fills the grid");
    assert_eq!(first.total_num_scalars(), 1);
    assert!(checker.next_all_extrinsics_len(1, &tight, &first).is_none());
    assert_eq!(first.total_padded_bytes(), 32);
    assert_eq!(first.num_entries(), 1);
}

#[test]
fn length_wider_than_the_accounting_unit_is_rejected() {
    let checker = CheckAppId::from(AppId(1));
    let too_long: usize = (u32::MAX as usize) + 1;
    assert!(checker
        .next_all_extrinsics_len(too_long, &wide(), &ExtrinsicsLen::new())
        .is_none());
}

#[test]
fn capacity_product_overflow_is_rejected() {
    let huge = BlockLength { rows: u32::MAX, cols: 2 };
    let checker = CheckAppId::from(AppId(1));
    assert!(checker
        .next_all_extrinsics_len(1, &huge, &ExtrinsicsLen::new())
        .is_none());
}

#[test]
fn per_application_overflow_is_rejected() {
    // The largest padded length an entry can hold, then one scalar more.
    let vast = BlockLength { rows: 65535, cols: 65535 };
    let checker = CheckAppId::from(AppId(1));
    let first = checker
        .next_all_extrinsics_len((u32::MAX - 31) as usize, &vast, &ExtrinsicsLen::new())
        .expect("fits the vast grid");
    assert_eq!(first.entry(0), (1, u32::MAX - 31));
    assert!(checker.next_all_extrinsics_len(32, &vast, &first).is_none());
}

#[test]
fn do_validate_commits_only_when_both_checks_pass() {
    let checker = CheckAppId::from(AppId(1));
    let fresh = ExtrinsicsLen::new();
    let call = Call::SubmitData;
    let next = checker
        .do_validate(&call, 10, next_app_id(), &wide(), &fresh)
        .expect("valid id and plenty of room");
    assert_eq!(next.total_padded_bytes(), 32);
}

#[test]
fn do_validate_reports_the_validator_reason_first() {
    let checker = CheckAppId::from(AppId(1));
    let fresh = ExtrinsicsLen::new();
    let r = checker.do_validate(&Call::Other, 10, next_app_id(), &wide(), &fresh);
    assert_eq!(r.err(), Some(RejectReason::ForbiddenAppId));
    let tight = BlockLength { rows: 1, cols: 1 };
    let r2 = checker.do_validate(&Call::Other, 4096, next_app_id(), &tight, &fresh);
    assert_eq!(r2.err(), Some(RejectReason::ForbiddenAppId));
}

#[test]
fn do_validate_reports_exhausted_capacity() {
    let checker = CheckAppId::from(AppId(1));
    let tight = BlockLength { rows: 1, cols: 1 };
    let r = checker.do_validate(&Call::SubmitData, 33, next_app_id(), &tight, &ExtrinsicsLen::new());
    assert_eq!(r.err(), Some(RejectReason::MaxPaddedLenExceeded));
}

#[test]
fn accepted_lengths_sum_to_the_running_total() {
    // Three admitted transactions: the recorded total is exactly the sum of
    // their padded lengths, whoever they belong to.
    let lens: [usize; 3] = [10, 33, 64];
    let apps: [u32; 3] = [1, 0, 1];
    let mut snapshot = ExtrinsicsLen::new();
    let mut expected: u32 = 0;
    for k in 0..3 {
        let checker = CheckAppId::from(AppId(apps[k]));
        snapshot = checker
            .next_all_extrinsics_len(lens[k], &wide(), &snapshot)
            .expect("fits");
        expected += padded_len(lens[k] as u32).expect("small");
        assert_eq!(snapshot.total_padded_bytes(), expected);
    }
    assert_eq!(snapshot.total_padded_bytes(), 32 + 64 + 64);
}
