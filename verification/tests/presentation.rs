use neftodng::convert::Outcome;
use neftodng::presentation::{failure_indicator, present, ICON_DONE, ICON_FAILED, ICON_SKIPPED};

#[test]
fn no_failures_means_no_button_and_no_filtering() {
    // The regression: clearing the queue left "2 failed" showing, and the
    // filter still on, so newly added files appeared as an empty list.
    let i = failure_indicator(0);

    assert!(!i.visible, "nothing failed, so nothing to offer");
    assert!(
        !i.filter_allowed,
        "filtering to failures with none would hide a non-empty queue"
    );
}

#[test]
fn failures_are_counted_in_the_button() {
    assert_eq!(failure_indicator(2).label, "2 failed");
    assert!(failure_indicator(2).visible);
    assert!(failure_indicator(2).filter_allowed);
}

#[test]
fn a_single_failure_reads_naturally() {
    assert_eq!(failure_indicator(1).label, "1 failed");
}

#[test]
fn a_converted_file_shows_both_sizes_and_no_error_styling() {
    let p = present(
        &Ok(Outcome::Converted {
            source_bytes: 47_000_000,
            target_bytes: 28_000_000,
        }),
        "47.0 MB",
        "28.0 MB",
    );

    assert!(p.status.starts_with("Done"), "{}", p.status);
    assert!(
        p.status.contains("verified"),
        "success must state that the data was checked, not just that it finished: {}",
        p.status
    );
    assert!(p.status.contains('→'), "should show the transition: {}", p.status);
    assert_eq!(p.icon, ICON_DONE);
    assert!(!p.failed);
}

#[test]
fn a_skipped_file_is_visually_distinct_from_a_converted_one() {
    let p = present(&Ok(Outcome::Skipped), "", "");

    assert_eq!(p.icon, ICON_SKIPPED);
    assert_ne!(p.icon, ICON_DONE, "a re-run must not look like a conversion");
    assert!(!p.failed, "skipping is not failing");
}

#[test]
fn a_failure_is_marked_failed_and_keeps_the_full_message_for_the_tooltip() {
    let long = "corrupt or unsupported file (subview_padded(): Offset \
                6272000+42920960 is behind EOF)";
    let p = present(&Err(long.to_string()), "", "");

    assert!(p.failed);
    assert_eq!(p.icon, ICON_FAILED);
    assert_eq!(
        p.tooltip.as_deref(),
        Some(long),
        "the untruncated message must survive for the tooltip"
    );
}

#[test]
fn successful_rows_carry_no_tooltip() {
    let p = present(
        &Ok(Outcome::Converted {
            source_bytes: 10,
            target_bytes: 5,
        }),
        "10 bytes",
        "5 bytes",
    );

    assert_eq!(p.tooltip, None, "nothing to explain on success");
}

#[test]
fn the_converted_status_reads_in_full() {
    let p = present(
        &Ok(Outcome::Converted { source_bytes: 47_000_000, target_bytes: 28_000_000 }),
        "47.0 MB",
        "28.0 MB",
    );
    assert_eq!(p.status, "Done · verified · 47.0 MB → 28.0 MB");
}

#[test]
fn a_skipped_row_explains_itself() {
    let p = present(&Ok(Outcome::Skipped), "47.0 MB", "28.0 MB");
    assert_eq!(p.status, "Already exists");
    assert_eq!(
        p.tooltip.as_deref(),
        Some("A DNG is already at the target path. Enable Overwrite existing to replace it.")
    );
}

#[test]
fn a_failed_row_shows_its_message_as_status() {
    let p = present(&Err("write failed: disk full".to_string()), "", "");
    assert_eq!(p.status, "write failed: disk full");
}

#[test]
fn large_failure_counts_are_written_in_full() {
    assert_eq!(failure_indicator(4_294_967_295).label, "4294967295 failed");
    assert_eq!(failure_indicator(10).label, "10 failed");
}
