use neftodng::convert::Outcome;
use neftodng::summary::{completion_message, BatchSummary};

fn converted(source: u64, target: u64) -> Outcome {
    Outcome::Converted {
        source_bytes: source,
        target_bytes: target,
    }
}

#[test]
fn sums_the_space_saved_across_converted_files() {
    let mut s = BatchSummary::default();
    s.record(&converted(47_000_000, 28_000_000));
    s.record(&converted(46_000_000, 27_000_000));

    assert_eq!(s.converted, 2);
    assert_eq!(s.saved_bytes, 38_000_000);
}

#[test]
fn skipped_and_failed_files_contribute_no_saving() {
    let mut s = BatchSummary::default();
    s.record(&converted(47_000_000, 28_000_000));
    s.record(&Outcome::Skipped);
    s.record_failure();

    assert_eq!(s.converted, 1);
    assert_eq!(s.skipped, 1);
    assert_eq!(s.failed, 1);
    assert_eq!(s.total(), 3);
    assert_eq!(s.saved_bytes, 19_000_000, "only conversions count");
}

#[test]
fn a_dng_larger_than_its_nef_is_reported_as_a_loss_not_a_saving() {
    let mut s = BatchSummary::default();
    s.record(&converted(20_000_000, 25_000_000));

    assert_eq!(s.saved_bytes, -5_000_000);
}

// The exact size wording is the caller's, so these pass a formatted size and
// assert on structure.

#[test]
fn a_clean_run_reports_the_count_and_the_saving() {
    let mut s = BatchSummary::default();
    for _ in 0..36 {
        s.record(&converted(47_000_000, 28_000_000));
    }

    let (heading, body) = completion_message(&s, 36, "684.0 MB");

    assert_eq!(heading, "All done");
    assert!(body.contains("36"), "should say how many: {body}");
    assert!(body.contains("saved"), "should report the saving: {body}");
    assert!(!body.contains("failed"), "nothing failed: {body}");
    assert!(
        body.contains("verified"),
        "the dialog is what a delete-originals decision rests on, so it must \
         state that the data was checked: {body}"
    );
}

#[test]
fn failures_are_surfaced_in_the_heading_and_counted() {
    let mut s = BatchSummary::default();
    s.record(&converted(47_000_000, 28_000_000));
    s.record_failure();
    s.record_failure();

    let (heading, body) = completion_message(&s, 3, "19.0 MB");

    assert_eq!(heading, "Finished with errors");
    assert!(body.contains("2 failed"), "should count failures: {body}");
}

#[test]
fn skipped_files_are_mentioned_separately_from_failures() {
    let mut s = BatchSummary::default();
    s.record(&converted(47_000_000, 28_000_000));
    s.record(&Outcome::Skipped);

    let (heading, body) = completion_message(&s, 2, "19.0 MB");

    assert_eq!(heading, "All done");
    assert!(body.contains("skipped") || body.contains("Skipped"), "{body}");
    assert!(!body.contains("failed"), "skipping is not failing: {body}");
}

#[test]
fn a_cancelled_run_says_so_rather_than_claiming_success() {
    let mut s = BatchSummary::default();
    for _ in 0..4 {
        s.record(&converted(47_000_000, 28_000_000));
    }

    let (heading, body) = completion_message(&s, 36, "76.0 MB");

    assert_eq!(heading, "Cancelled");
    assert!(body.contains("4"), "should say what did finish: {body}");
}

#[test]
fn growing_files_are_not_described_as_a_saving() {
    let mut s = BatchSummary::default();
    s.record(&converted(20_000_000, 25_000_000));

    let (_, body) = completion_message(&s, 1, "5.0 MB");

    assert!(body.contains("larger"), "should admit growth: {body}");
    assert!(!body.contains("saved"), "must not call growth a saving: {body}");
}

#[test]
fn the_completion_body_reads_line_by_line() {
    let mut s = BatchSummary::default();
    s.record(&converted(47_000_000, 28_000_000));
    s.record(&converted(46_000_000, 27_000_000));
    s.record(&Outcome::Skipped);
    s.record_failure();

    let (heading, body) = completion_message(&s, 4, "38.0 MB");

    assert_eq!(heading, "Finished with errors");
    assert_eq!(
        body,
        "Converted 2 files.\nAll 2 verified bit-for-bit against the originals.\n\
         Skipped 1 that already existed.\n1 failed.\nYou saved 38.0 MB."
    );
}

#[test]
fn a_single_conversion_reads_naturally() {
    let mut s = BatchSummary::default();
    s.record(&converted(20_000_000, 25_000_000));
    let (heading, body) = completion_message(&s, 1, "5.0 MB");
    assert_eq!(heading, "All done");
    assert_eq!(
        body,
        "Converted 1 file.\nAll 1 verified bit-for-bit against the originals.\n\
         The DNGs are 5.0 MB larger than the originals."
    );
}

#[test]
fn a_cancelled_run_counts_against_what_was_queued() {
    let mut s = BatchSummary::default();
    s.record(&converted(10, 10));
    let (heading, body) = completion_message(&s, 5, "");
    assert_eq!(heading, "Cancelled");
    assert_eq!(body, "Converted 1 of 5 files.\nAll 1 verified bit-for-bit against the originals.");
}

#[test]
fn a_run_where_nothing_was_converted_claims_no_verification() {
    let mut s = BatchSummary::default();
    s.record(&Outcome::Skipped);
    s.record(&Outcome::Skipped);
    let (heading, body) = completion_message(&s, 2, "");
    assert_eq!(heading, "All done");
    assert_eq!(body, "Converted 0 files.\nSkipped 2 that already existed.");
}

#[test]
fn results_are_folded_in_whether_they_succeeded_or_failed() {
    let mut s = BatchSummary::default();
    s.record_result(&Ok(converted(47_000_000, 28_000_000)));
    s.record_result(&Ok(Outcome::Skipped));
    s.record_result(&Err("could not convert: bad".to_string()));
    s.record_result(&Err("write failed".to_string()));

    assert_eq!(
        s,
        BatchSummary { converted: 1, skipped: 1, failed: 2, saved_bytes: 19_000_000 }
    );
    assert_eq!(s.total(), 4);
}

#[test]
fn a_fresh_summary_is_empty() {
    let s = BatchSummary::default();
    assert_eq!(s, BatchSummary { converted: 0, skipped: 0, failed: 0, saved_bytes: 0 });
    assert_eq!(s.total(), 0);
}

#[test]
fn whether_a_result_fits_is_known_before_it_is_recorded() {
    let s = BatchSummary::default();
    assert!(s.can_record_result(&Ok(converted(10, 5))));
    assert!(s.can_record_result(&Err("x".to_string())));
    assert!(s.total_fits());

    let full = BatchSummary { converted: 0, skipped: 0, failed: u32::MAX, saved_bytes: 0 };
    assert!(!full.can_record_result(&Err("x".to_string())));
    assert!(full.can_record_result(&Ok(Outcome::Skipped)));
    assert!(full.total_fits());

    let rich = BatchSummary { converted: 1, skipped: 0, failed: 0, saved_bytes: i64::MAX };
    assert!(!rich.can_record_result(&Ok(converted(10, 5))));
    assert!(rich.can_record_result(&Ok(converted(5, 10))));

    let many = BatchSummary { converted: u32::MAX, skipped: 1, failed: 0, saved_bytes: 0 };
    assert!(!many.total_fits());
}
