//! How one file's result is shown in the queue.
//!
//! Kept separate from the widgets so the wording, the icon and the
//! failed/not-failed decision can be checked without a display.

use vstd::prelude::*;

use crate::convert::Outcome;
use crate::text::{decimal, decimal_string};

verus! {

/// Icon shown at the left of a finished row.
pub const ICON_DONE: &'static str = "emblem-ok-symbolic";

pub const ICON_FAILED: &'static str = "dialog-error-symbolic";

pub const ICON_SKIPPED: &'static str = "action-unavailable-symbolic";

/// Everything the queue needs to render one finished row.
#[derive(Debug, Clone, PartialEq, Eq)]
pub struct RowPresentation {
    /// Short text shown on the right of the row.
    pub status: String,
    pub icon: &'static str,
    /// Whether to style the row as an error and include it when filtering.
    pub failed: bool,
    /// Full, untruncated text for the tooltip. `None` when the status already
    /// says everything.
    pub tooltip: Option<String>,
}

/// The status of a converted file, with both sizes as the caller formats them.
pub open spec fn done_status(source_size: Seq<char>, target_size: Seq<char>) -> Seq<char> {
    "Done · verified · "@ + source_size + " → "@ + target_size
}

/// Why a skipped row was skipped, for its tooltip.
pub open spec fn skipped_tooltip() -> Seq<char> {
    "A DNG is already at the target path. Enable Overwrite existing to replace it."@
}

/// What a row shows for a result: a converted file says it was verified and
/// shows both sizes; a skipped file says it already exists and why; a failure
/// shows its message, in full in the tooltip, and is marked failed.
pub open spec fn presents(
    result: Result<Outcome, String>,
    source_size: Seq<char>,
    target_size: Seq<char>,
    p: RowPresentation,
) -> bool {
    match result {
        Ok(Outcome::Converted { .. }) => {
            &&& p.status@ == done_status(source_size, target_size)
            &&& p.icon@ == ICON_DONE@
            &&& !p.failed
            &&& p.tooltip is None
        },
        Ok(Outcome::Skipped) => {
            &&& p.status@ == "Already exists"@
            &&& p.icon@ == ICON_SKIPPED@
            &&& !p.failed
            &&& p.tooltip matches Some(t) && t@ == skipped_tooltip()
        },
        Err(message) => {
            &&& p.status@ == message@
            &&& p.icon@ == ICON_FAILED@
            &&& p.failed
            &&& p.tooltip matches Some(t) && t@ == message@
        },
    }
}

/// Describe one file's result. `source_size` and `target_size` are the sizes of
/// a converted file's source and target as the caller formats them; they are
/// shown only for a converted file.
pub fn present(result: &Result<Outcome, String>, source_size: &str, target_size: &str) -> (r:
    RowPresentation)
    ensures
        presents(*result, source_size@, target_size@, r),
{
    match result {
        Ok(Outcome::Converted { .. }) => {
            // "verified" is the load-bearing word: it says the DNG was read back
            // and proven to hold the same raw data, not merely that writing
            // finished without complaint.
            let mut status = String::from_str("Done · verified · ");
            status.append(source_size);
            status.append(" → ");
            status.append(target_size);
            RowPresentation { status, icon: ICON_DONE, failed: false, tooltip: None }
        },
        Ok(Outcome::Skipped) => RowPresentation {
            status: String::from_str("Already exists"),
            icon: ICON_SKIPPED,
            failed: false,
            tooltip: Some(
                String::from_str(
                    "A DNG is already at the target path. Enable Overwrite existing to replace it.",
                ),
            ),
        },
        // The row label is ellipsized, so the full text is kept for the tooltip.
        Err(message) => RowPresentation {
            status: message.clone(),
            icon: ICON_FAILED,
            failed: true,
            tooltip: Some(message.clone()),
        },
    }
}

/// How the failures filter button should look for a given queue.
#[derive(Debug, Clone, PartialEq, Eq)]
pub struct FailureIndicator {
    pub visible: bool,
    pub label: String,
    /// Whether the filter may stay switched on. Filtering to failures when
    /// there are none leaves an empty list with a non-empty queue.
    pub filter_allowed: bool,
}

/// Derive the failures button from the queue, rather than tracking it
/// separately and having to remember every place that changes the queue: it
/// shows, and may filter, exactly when something failed, and counts the
/// failures.
pub fn failure_indicator(failed: u32) -> (r: FailureIndicator)
    ensures
        r.visible == (failed > 0),
        r.filter_allowed == (failed > 0),
        r.label@ == decimal(failed as nat) + " failed"@,
{
    let mut label = decimal_string(failed as u64);
    label.append(" failed");
    FailureIndicator { visible: failed > 0, label, filter_allowed: failed > 0 }
}

/// A row is marked failed exactly when the file failed; a failure keeps its
/// whole message as the tooltip and as the status; a converted file carries
/// no tooltip and says it was verified; the three kinds of result never share
/// an icon.
pub proof fn law_rows_tell_results_apart(
    result: Result<Outcome, String>,
    source_size: Seq<char>,
    target_size: Seq<char>,
    p: RowPresentation,
)
    requires
        presents(result, source_size, target_size, p),
    ensures
        p.failed <==> result is Err,
        result matches Err(m) ==> (p.status@ == m@ && (p.tooltip matches Some(t) && t@ == m@)),
        result matches Ok(Outcome::Converted { .. }) ==> p.tooltip is None && p.status@.len() > 0,
        result matches Ok(Outcome::Converted { .. }) ==> p.icon@ != ICON_SKIPPED@ && p.icon@ != ICON_FAILED@,
        result matches Ok(Outcome::Skipped) ==> p.icon@ != ICON_DONE@ && p.icon@ != ICON_FAILED@,
        result is Err ==> p.icon@ != ICON_DONE@ && p.icon@ != ICON_SKIPPED@,
{
    reveal_strlit("emblem-ok-symbolic");
    reveal_strlit("dialog-error-symbolic");
    reveal_strlit("action-unavailable-symbolic");
    reveal_strlit("Done · verified · ");
    assert(ICON_DONE@[0] != ICON_SKIPPED@[0]);
    assert(ICON_DONE@[0] != ICON_FAILED@[0]);
    assert(ICON_SKIPPED@[0] != ICON_FAILED@[0]);
}

} // verus!
