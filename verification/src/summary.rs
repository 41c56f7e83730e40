//! Tallying what a batch actually did, for the completion dialog.

use vstd::prelude::*;

use crate::convert::Outcome;
use crate::text::{decimal, decimal_string};

verus! {

/// Running totals for one batch run.
#[derive(Debug, Clone, PartialEq, Eq)]
pub struct BatchSummary {
    pub converted: u32,
    pub skipped: u32,
    pub failed: u32,
    /// Bytes saved by converting. Signed, because an uncompressed DNG can be
    /// larger than the raw file it came from and reporting that as a saving
    /// would be a lie.
    pub saved_bytes: i64,
}

impl Default for BatchSummary {
    fn default() -> (r: Self)
        ensures
            r.converted == 0,
            r.skipped == 0,
            r.failed == 0,
            r.saved_bytes == 0,
    {
        BatchSummary { converted: 0, skipped: 0, failed: 0, saved_bytes: 0 }
    }
}

/// The bytes one file's result saves: the source size less the target size,
/// each read as a signed 64-bit count; nothing for a skipped file.
pub open spec fn saving(outcome: Outcome) -> int {
    match outcome {
        Outcome::Converted { source_bytes, target_bytes } => (source_bytes as i64) as int - (
        target_bytes as i64) as int,
        Outcome::Skipped => 0,
    }
}

/// Whether one file's result can be folded into `s` without a count or the
/// saving leaving its type.
pub open spec fn can_record(s: BatchSummary, outcome: Outcome) -> bool {
    match outcome {
        Outcome::Converted { .. } => {
            &&& s.converted < u32::MAX
            &&& i64::MIN <= saving(outcome) <= i64::MAX
            &&& i64::MIN <= s.saved_bytes + saving(outcome) <= i64::MAX
        },
        Outcome::Skipped => s.skipped < u32::MAX,
    }
}

/// The totals after one file's result is folded into `s`.
pub open spec fn after_outcome(s: BatchSummary, outcome: Outcome) -> BatchSummary {
    match outcome {
        Outcome::Converted { .. } => BatchSummary {
            converted: (s.converted + 1) as u32,
            saved_bytes: (s.saved_bytes + saving(outcome)) as i64,
            ..s
        },
        Outcome::Skipped => BatchSummary { skipped: (s.skipped + 1) as u32, ..s },
    }
}

/// The totals after one file's failure is folded into `s`.
pub open spec fn after_failure(s: BatchSummary) -> BatchSummary {
    BatchSummary { failed: (s.failed + 1) as u32, ..s }
}

/// The number of files a summary has recorded.
pub open spec fn recorded(s: BatchSummary) -> int {
    s.converted + s.skipped + s.failed
}

impl BatchSummary {
    /// Fold one file's result into the totals.
    pub fn record(&mut self, outcome: &Outcome)
        requires
            can_record(*old(self), *outcome),
        ensures
            *final(self) == after_outcome(*old(self), *outcome),
            final(self).saved_bytes == old(self).saved_bytes + saving(*outcome),
            final(self).failed == old(self).failed,
            match *outcome {
                Outcome::Converted { .. } => {
                    &&& final(self).converted == old(self).converted + 1
                    &&& final(self).skipped == old(self).skipped
                },
                Outcome::Skipped => {
                    &&& final(self).converted == old(self).converted
                    &&& final(self).skipped == old(self).skipped + 1
                },
            },
            recorded(*final(self)) == recorded(*old(self)) + 1,
    {
        match outcome {
            Outcome::Converted { source_bytes, target_bytes } => {
                self.converted = self.converted + 1;
                let delta: i64 = (*source_bytes as i64) - (*target_bytes as i64);
                self.saved_bytes = self.saved_bytes + delta;
            },
            Outcome::Skipped => {
                self.skipped = self.skipped + 1;
            },
        }
    }

    /// Fold one file's failure into the totals.
    pub fn record_failure(&mut self)
        requires
            old(self).failed < u32::MAX,
        ensures
            *final(self) == after_failure(*old(self)),
            final(self).failed == old(self).failed + 1,
            final(self).converted == old(self).converted,
            final(self).skipped == old(self).skipped,
            final(self).saved_bytes == old(self).saved_bytes,
            recorded(*final(self)) == recorded(*old(self)) + 1,
    {
        self.failed = self.failed + 1;
    }

    /// Fold one finished file into the totals, whether it succeeded or failed,
    /// as the batch does each time a worker reports back.
    pub fn record_result(&mut self, result: &Result<Outcome, String>)
        requires
            match *result {
                Ok(outcome) => can_record(*old(self), outcome),
                Err(_) => old(self).failed < u32::MAX,
            },
        ensures
            *final(self) == match *result {
                Ok(outcome) => after_outcome(*old(self), outcome),
                Err(_) => after_failure(*old(self)),
            },
            recorded(*final(self)) == recorded(*old(self)) + 1,
    {
        match result {
            Ok(outcome) => self.record(outcome),
            Err(_) => self.record_failure(),
        }
    }

    /// Whether one more finished file fits in the totals, as `record_result`
    /// asks: no count and not the saving leaves its type.
    pub fn can_record_result(&self, result: &Result<Outcome, String>) -> (r: bool)
        ensures
            r == match *result {
                Ok(outcome) => can_record(*self, outcome),
                Err(_) => self.failed < u32::MAX,
            },
    {
        match result {
            Ok(Outcome::Converted { source_bytes, target_bytes }) => {
                let saving: i128 = (*source_bytes as i64) as i128 - (*target_bytes as i64) as i128;
                let total: i128 = self.saved_bytes as i128 + saving;
                self.converted < u32::MAX && i64::MIN as i128 <= saving && saving <= i64::MAX as i128
                    && i64::MIN as i128 <= total && total <= i64::MAX as i128
            },
            Ok(Outcome::Skipped) => self.skipped < u32::MAX,
            Err(_) => self.failed < u32::MAX,
        }
    }

    /// Whether the number of recorded files fits in a `u32`, as `total` asks.
    pub fn total_fits(&self) -> (r: bool)
        ensures
            r == (recorded(*self) <= u32::MAX),
    {
        self.converted as u64 + self.skipped as u64 + self.failed as u64 <= u32::MAX as u64
    }

    /// Files that were actually attempted and finished, successfully or not.
    pub fn total(&self) -> (r: u32)
        requires
            recorded(*self) <= u32::MAX,
        ensures
            r == recorded(*self),
    {
        self.converted + self.skipped + self.failed
    }
}

/// Whether the run ended before every queued file was recorded.
pub open spec fn cancelled(s: BatchSummary, queued: u32) -> bool {
    recorded(s) < queued
}

/// The heading of the completion dialog.
pub open spec fn heading_text(s: BatchSummary, queued: u32) -> Seq<char> {
    if s.failed > 0 {
        "Finished with errors"@
    } else if cancelled(s, queued) {
        "Cancelled"@
    } else {
        "All done"@
    }
}

/// The first line of the completion dialog: how many files were converted.
pub open spec fn converted_line(s: BatchSummary, queued: u32) -> Seq<char> {
    if cancelled(s, queued) {
        "Converted "@ + decimal(s.converted as nat) + " of "@ + decimal(queued as nat) + " files."@
    } else if s.converted == 1 {
        "Converted 1 file."@
    } else {
        "Converted "@ + decimal(s.converted as nat) + " files."@
    }
}

/// A further line, on a line of its own, when `shown`.
pub open spec fn line_if(shown: bool, line: Seq<char>) -> Seq<char> {
    if shown {
        "\n"@ + line
    } else {
        Seq::empty()
    }
}

/// The body of the completion dialog. `size` is the size of the saving, or of
/// the growth, as the caller formats it.
pub open spec fn body_text(s: BatchSummary, queued: u32, size: Seq<char>) -> Seq<char> {
    converted_line(s, queued) + line_if(
        s.converted > 0,
        "All "@ + decimal(s.converted as nat) + " verified bit-for-bit against the originals."@,
    ) + line_if(s.skipped > 0, "Skipped "@ + decimal(s.skipped as nat) + " that already existed."@)
        + line_if(s.failed > 0, decimal(s.failed as nat) + " failed."@) + line_if(
        s.saved_bytes > 0,
        "You saved "@ + size + "."@,
    ) + line_if(s.saved_bytes < 0, "The DNGs are "@ + size + " larger than the originals."@)
}

fn converted_line_string(summary: &BatchSummary, queued: u32) -> (r: String)
    ensures
        r@ == converted_line(*summary, queued),
{
    let total: u64 = summary.converted as u64 + summary.skipped as u64 + summary.failed as u64;
    let converted = decimal_string(summary.converted as u64);
    if total < queued as u64 {
        let q = decimal_string(queued as u64);
        let mut b = String::from_str("Converted ");
        b.append(converted.as_str());
        b.append(" of ");
        b.append(q.as_str());
        b.append(" files.");
        b
    } else if summary.converted == 1 {
        String::from_str("Converted 1 file.")
    } else {
        let mut b = String::from_str("Converted ");
        b.append(converted.as_str());
        b.append(" files.");
        b
    }
}

fn verified_line(summary: &BatchSummary) -> (r: String)
    ensures
        r@ == line_if(
            summary.converted > 0,
            "All "@ + decimal(summary.converted as nat)
                + " verified bit-for-bit against the originals."@,
        ),
{
    if summary.converted > 0 {
        let n = decimal_string(summary.converted as u64);
        let mut line = String::from_str("\n");
        line.append("All ");
        line.append(n.as_str());
        line.append(" verified bit-for-bit against the originals.");
        line
    } else {
        String::new()
    }
}

fn skipped_line(summary: &BatchSummary) -> (r: String)
    ensures
        r@ == line_if(
            summary.skipped > 0,
            "Skipped "@ + decimal(summary.skipped as nat) + " that already existed."@,
        ),
{
    if summary.skipped > 0 {
        let n = decimal_string(summary.skipped as u64);
        let mut line = String::from_str("\n");
        line.append("Skipped ");
        line.append(n.as_str());
        line.append(" that already existed.");
        line
    } else {
        String::new()
    }
}

fn failed_line(summary: &BatchSummary) -> (r: String)
    ensures
        r@ == line_if(summary.failed > 0, decimal(summary.failed as nat) + " failed."@),
{
    if summary.failed > 0 {
        let n = decimal_string(summary.failed as u64);
        let mut line = String::from_str("\n");
        line.append(n.as_str());
        line.append(" failed.");
        line
    } else {
        String::new()
    }
}

fn saved_line(summary: &BatchSummary, size: &str) -> (r: String)
    ensures
        r@ == line_if(summary.saved_bytes > 0, "You saved "@ + size@ + "."@),
{
    if summary.saved_bytes > 0 {
        let mut line = String::from_str("\n");
        line.append("You saved ");
        line.append(size);
        line.append(".");
        line
    } else {
        String::new()
    }
}

fn larger_line(summary: &BatchSummary, size: &str) -> (r: String)
    ensures
        r@ == line_if(
            summary.saved_bytes < 0,
            "The DNGs are "@ + size@ + " larger than the originals."@,
        ),
{
    if summary.saved_bytes < 0 {
        let mut line = String::from_str("\n");
        line.append("The DNGs are ");
        line.append(size);
        line.append(" larger than the originals.");
        line
    } else {
        String::new()
    }
}

/// Heading and body for the dialog shown when a batch finishes.
///
/// `queued` is how many files the run started with, which may exceed the number
/// recorded if the run was cancelled part way. `size` is the saving (or the
/// growth) formatted for display; it is shown only when there was one.
pub fn completion_message(summary: &BatchSummary, queued: u32, size: &str) -> (r: (String, String))
    ensures
        r.0@ == heading_text(*summary, queued),
        r.1@ == body_text(*summary, queued, size@),
{
    let total: u64 = summary.converted as u64 + summary.skipped as u64 + summary.failed as u64;
    let heading = if summary.failed > 0 {
        String::from_str("Finished with errors")
    } else if total < queued as u64 {
        String::from_str("Cancelled")
    } else {
        String::from_str("All done")
    };
    let mut body = converted_line_string(summary, queued);
    let l2 = verified_line(summary);
    let l3 = skipped_line(summary);
    let l4 = failed_line(summary);
    let l5 = saved_line(summary, size);
    let l6 = larger_line(summary, size);
    let ghost b1 = body@;
    body.append(l2.as_str());
    body.append(l3.as_str());
    body.append(l4.as_str());
    body.append(l5.as_str());
    body.append(l6.as_str());
    assert(body@ =~= b1 + l2@ + l3@ + l4@ + l5@ + l6@);
    (heading, body)
}

/// The heading never hides a failure: any failed file makes it `Finished with
/// errors`, however many files were queued; with none failed it reads
/// `Cancelled` exactly when fewer files were recorded than queued, and
/// `All done` otherwise.
pub proof fn law_failures_always_show_in_the_heading(s: BatchSummary, queued: u32, other: u32)
    ensures
        s.failed > 0 ==> heading_text(s, queued) == "Finished with errors"@,
        s.failed > 0 ==> heading_text(s, queued) == heading_text(s, other),
        s.failed == 0 && s.converted + s.skipped < queued ==> heading_text(s, queued)
            == "Cancelled"@,
        s.failed == 0 && s.converted + s.skipped >= queued ==> heading_text(s, queued)
            == "All done"@,
{
}

/// The dialog's body states what the user decides on: a line counting the
/// failures whenever a file failed, and a line saying the conversions were
/// verified bit-for-bit whenever a file was converted.
pub proof fn law_the_body_states_failures_and_verification(s: BatchSummary, queued: u32, size: Seq<char>)
    ensures
        s.failed > 0 ==> ({
            let body = body_text(s, queued, size);
            let line = "\n"@ + decimal(s.failed as nat) + " failed."@;
            exists|k: int|
                0 <= k && k + line.len() <= body.len() && #[trigger] body.subrange(k, k + line.len())
                    == line
        }),
        s.converted > 0 ==> ({
            let body = body_text(s, queued, size);
            let line = "\n"@ + "All "@ + decimal(s.converted as nat)
                + " verified bit-for-bit against the originals."@;
            exists|k: int|
                0 <= k && k + line.len() <= body.len() && #[trigger] body.subrange(k, k + line.len())
                    == line
        }),
{
    let l1 = converted_line(s, queued);
    let l2 = line_if(
        s.converted > 0,
        "All "@ + decimal(s.converted as nat) + " verified bit-for-bit against the originals."@,
    );
    let l3 = line_if(s.skipped > 0, "Skipped "@ + decimal(s.skipped as nat) + " that already existed."@);
    let l4 = line_if(s.failed > 0, decimal(s.failed as nat) + " failed."@);
    let l5 = line_if(s.saved_bytes > 0, "You saved "@ + size + "."@);
    let l6 = line_if(s.saved_bytes < 0, "The DNGs are "@ + size + " larger than the originals."@);
    let body = body_text(s, queued, size);
    assert(body == l1 + l2 + l3 + l4 + l5 + l6);
    if s.failed > 0 {
        let line = "\n"@ + decimal(s.failed as nat) + " failed."@;
        let k = (l1 + l2 + l3).len() as int;
        assert(l4 =~= line);
        assert(body =~= (l1 + l2 + l3) + l4 + (l5 + l6));
        assert(body.subrange(k, k + line.len()) =~= line);
    }
    if s.converted > 0 {
        let line = "\n"@ + "All "@ + decimal(s.converted as nat)
            + " verified bit-for-bit against the originals."@;
        let k = l1.len() as int;
        assert(l2 =~= line);
        assert(body =~= l1 + l2 + (l3 + l4 + l5 + l6));
        assert(body.subrange(k, k + line.len()) =~= line);
    }
}

} // verus!
