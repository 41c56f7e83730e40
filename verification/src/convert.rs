//! Converting one raw file to one DNG, safely.
//!
//! Two hazards are handled here. A raw decoder may panic on malformed input, so
//! a single corrupt file must not take down a whole batch. And a conversion
//! interrupted by a crash, a cancel or a full disk must never leave a truncated
//! `.dng` behind that could later be mistaken for a good one.
//!
//! The conversion of one file is a sequence of steps on the file system and the
//! decoder, each decided from the result of the one before. The decisions live
//! here, as a state machine: [`start`] gives the first action, and [`step`]
//! takes the state and what the last action reported and gives the next state
//! and action. The caller performs the actions.

use vstd::prelude::*;

use crate::paths::{
    components, created_dir_paths, created_dirs, lemma_components_well_formed,
    lemma_part_comps_roundtrip, lemma_prefix_roundtrip, parent, part_comps, part_path, parent_path,
    render, source_in_the_way, source_in_the_way_exec, starts_with,
};
use crate::text::{concat2, concat3};
use crate::verify::{verify_message, VerifyError};

verus! {

#[verifier::external_type_specification]
#[verifier::external_body]
pub struct ExIoError(std::io::Error);

/// What happened to one file.
#[derive(Debug, Clone, Copy, PartialEq, Eq)]
pub enum Outcome {
    /// A DNG was written, with the sizes of both files so the batch can report
    /// how much space was saved.
    Converted { source_bytes: u64, target_bytes: u64 },
    /// The target already existed and overwriting was not requested.
    Skipped,
}

/// Why one file could not be converted.
#[derive(Debug)]
pub enum ConvertError {
    /// The raw file could not be decoded, or the DNG could not be encoded.
    Decode(String),
    /// The decoder panicked on malformed input; contained rather than fatal.
    Panicked(String),
    /// The output could not be created, written or renamed.
    Io(std::io::Error),
    /// The DNG was written but could not be proven to match its source, so it
    /// was discarded rather than presented as a successful conversion.
    Unverified(VerifyError),
    /// The target, a directory above it or its temporary file is the source
    /// itself, so converting would replace or remove the source. Nothing was
    /// done.
    SourceInTheWay,
}

/// Calls `ToString::to_string` on an `std::io::Error`. The text is the
/// operating system's description of the error, so nothing is stated of it.
#[verifier::external_body]
fn io_error_text(e: &std::io::Error) -> String {
    e.to_string()
}

/// The message of a refused conversion.
pub open spec fn source_in_the_way_message() -> Seq<char> {
    "refused: the target would overwrite or remove the source file"@
}

impl ConvertError {
    /// The message shown for this failure. For an I/O failure it is
    /// `write failed: ` followed by the system's description of the error.
    pub fn message(&self) -> (r: String)
        ensures
            match *self {
                ConvertError::Decode(m) => r@ == "could not convert: "@ + m@,
                ConvertError::Panicked(m) => r@ == "corrupt or unsupported file ("@ + m@ + ")"@,
                ConvertError::Io(_) => "write failed: "@.is_prefix_of(r@),
                ConvertError::Unverified(e) => r@ == verify_message(e),
                ConvertError::SourceInTheWay => r@ == source_in_the_way_message(),
            },
    {
        match self {
            ConvertError::Decode(m) => concat2("could not convert: ", m.as_str()),
            ConvertError::Panicked(m) => concat3(
                "corrupt or unsupported file (",
                m.as_str(),
                ")",
            ),
            ConvertError::Io(e) => {
                let t = io_error_text(e);
                let r = concat2("write failed: ", t.as_str());
                assert("write failed: "@.is_prefix_of(r@)) by {
                    assert(r@.subrange(0, "write failed: "@.len() as int) =~= "write failed: "@);
                }
                r
            },
            ConvertError::Unverified(e) => e.message(),
            ConvertError::SourceInTheWay => {
                proof {
                    reveal_strlit("refused: the target would overwrite or remove the source file");
                }
                String::from_str("refused: the target would overwrite or remove the source file")
            },
        }
    }
}

/// One file to convert.
pub struct ConvertJob {
    pub source: String,
    pub target: String,
    /// Whether an existing target may be replaced.
    pub overwrite: bool,
}

/// Where a conversion stands. `missing` is how many levels of the target's
/// directory did not exist before this conversion created them, so that a
/// failure can remove them again.
#[derive(Debug)]
pub enum ConvertState {
    /// Waiting to learn whether the target exists.
    CheckingTarget,
    /// Waiting for the target's directory to be created.
    CreatingDir,
    /// Waiting for a stale temporary file to be removed.
    ClearingPart { missing: usize },
    /// Waiting for the DNG to be written to the temporary file.
    Writing { missing: usize },
    /// Waiting for the temporary file to be checked against the source.
    Verifying { missing: usize },
    /// Waiting for the temporary file to be renamed onto the target.
    Renaming { missing: usize },
    /// Waiting for the sizes of source and target.
    Measuring,
    /// Waiting for the temporary file to be removed after this failure.
    Discarding { error: ConvertError, missing: usize },
    /// Waiting for the directories this conversion created to be removed
    /// after this failure.
    RemovingDirs(ConvertError),
    /// Finished.
    Done,
}

/// What the last action reported.
#[derive(Debug)]
pub enum ConvertEvent {
    TargetChecked { exists: bool },
    /// The target's directory was created, parents included, or could not be.
    /// `missing` is how many of its levels, counted from the directory itself
    /// upwards, did not exist before.
    DirCreated { missing: usize, result: Result<(), std::io::Error> },
    PartCleared,
    /// Writing failed with a decode error, an I/O error or a contained panic.
    Written(Result<(), ConvertError>),
    Verified(Result<(), VerifyError>),
    Renamed(Result<(), std::io::Error>),
    /// The sizes of source and target, zero where one could not be read.
    Measured { source_bytes: u64, target_bytes: u64 },
    Discarded,
    DirsRemoved,
}

/// What to do next.
#[derive(Debug)]
pub enum ConvertAction {
    /// Find out whether `target` exists.
    CheckTarget { target: String },
    /// Create `dir` and its parents, and report how many levels were missing.
    CreateDir { dir: String },
    /// Remove `part` if it is there: debris from a run killed mid-write, to
    /// which nothing may be appended. Its result does not matter.
    ClearPart { part: String },
    /// Decode `source` and write a DNG to `part`, synced to disk, containing any
    /// panic of the decoder.
    Write { source: String, part: String },
    /// Decode `source` and `part` and check that they hold the same raw data,
    /// containing any panic of the decoder.
    Verify { source: String, part: String },
    /// Rename `part` onto `target`.
    Rename { part: String, target: String },
    /// Measure the sizes of `source` and `target`.
    Measure { source: String, target: String },
    /// Remove `part`, so that nothing half-written survives a failure.
    Discard { part: String },
    /// Remove each of `dirs` in turn if it is empty: the directories this
    /// conversion created. The results do not matter.
    RemoveDirs { dirs: Vec<String> },
    /// The conversion is over, with this result.
    Finish(Result<Outcome, ConvertError>),
}

/// The temporary file of a target.
pub open spec fn part_text(target: Seq<char>) -> Seq<char> {
    render(part_comps(components(target)))
}

/// Whether the job would touch its own source: such a job is refused before
/// anything is done.
pub open spec fn in_the_way(job: ConvertJob) -> bool {
    source_in_the_way(components(job.source@), components(job.target@))
}

/// Whether the last action's report is the one the state waits for.
pub open spec fn accepts(state: ConvertState, event: ConvertEvent) -> bool {
    match state {
        ConvertState::CheckingTarget => event is TargetChecked,
        ConvertState::CreatingDir => event is DirCreated,
        ConvertState::ClearingPart { .. } => event is PartCleared,
        ConvertState::Writing { .. } => event is Written,
        ConvertState::Verifying { .. } => event is Verified,
        ConvertState::Renaming { .. } => event is Renamed,
        ConvertState::Measuring => event is Measured,
        ConvertState::Discarding { .. } => event is Discarded,
        ConvertState::RemovingDirs(_) => event is DirsRemoved,
        ConvertState::Done => false,
    }
}

/// Whether the last action's report is the one the state waits for, as
/// [`step`] requires.
pub fn accepts_event(state: &ConvertState, event: &ConvertEvent) -> (r: bool)
    ensures
        r == accepts(*state, *event),
{
    match state {
        ConvertState::CheckingTarget => matches!(event, ConvertEvent::TargetChecked { .. }),
        ConvertState::CreatingDir => matches!(event, ConvertEvent::DirCreated { .. }),
        ConvertState::ClearingPart { .. } => matches!(event, ConvertEvent::PartCleared),
        ConvertState::Writing { .. } => matches!(event, ConvertEvent::Written(_)),
        ConvertState::Verifying { .. } => matches!(event, ConvertEvent::Verified(_)),
        ConvertState::Renaming { .. } => matches!(event, ConvertEvent::Renamed(_)),
        ConvertState::Measuring => matches!(event, ConvertEvent::Measured { .. }),
        ConvertState::Discarding { .. } => matches!(event, ConvertEvent::Discarded),
        ConvertState::RemovingDirs(_) => matches!(event, ConvertEvent::DirsRemoved),
        ConvertState::Done => false,
    }
}

/// Whether `dirs` are the texts `expected`, in order.
pub open spec fn texts_are(dirs: Seq<String>, expected: Seq<Seq<char>>) -> bool {
    &&& dirs.len() == expected.len()
    &&& forall|k: int| 0 <= k < dirs.len() ==> #[trigger] dirs[k]@ == expected[k]
}

/// The step to the temporary file: clear it first.
pub open spec fn clears_part(
    job: ConvertJob,
    missing: usize,
    next: ConvertState,
    action: ConvertAction,
) -> bool {
    &&& next == ConvertState::ClearingPart { missing }
    &&& action matches ConvertAction::ClearPart { part } && part@ == part_text(job.target@)
}

/// Giving up with `e` once writing has begun: the temporary file is removed
/// first.
pub open spec fn discards(
    job: ConvertJob,
    e: ConvertError,
    missing: usize,
    next: ConvertState,
    action: ConvertAction,
) -> bool {
    &&& next == ConvertState::Discarding { error: e, missing }
    &&& action matches ConvertAction::Discard { part } && part@ == part_text(job.target@)
}

/// Giving up with `e`: the directories this conversion created are removed,
/// innermost first, before the conversion ends with `e`.
pub open spec fn removes_dirs(
    job: ConvertJob,
    e: ConvertError,
    missing: usize,
    next: ConvertState,
    action: ConvertAction,
) -> bool {
    if missing == 0 {
        &&& next is Done
        &&& action == ConvertAction::Finish(Err(e))
    } else {
        &&& next == ConvertState::RemovingDirs(e)
        &&& action matches ConvertAction::RemoveDirs { dirs } && texts_are(
            dirs@,
            created_dirs(components(job.target@), missing as nat),
        )
    }
}

/// The next state and action after `event` in `state`.
///
/// An existing target is skipped unless overwriting was asked for. A job that
/// would write, but whose target, target directory or temporary file is its
/// source, is refused instead, and refused at any later step too. Otherwise
/// the target's directory is created, a stale temporary file
/// cleared, the DNG written to the temporary file and checked against the
/// source, and only then renamed onto the target and measured. A failure once
/// writing has begun removes the temporary file, and any failure removes the
/// directories the conversion created, before the conversion ends with it.
pub open spec fn step_post(
    job: ConvertJob,
    state: ConvertState,
    event: ConvertEvent,
    next: ConvertState,
    action: ConvertAction,
) -> bool {
    if in_the_way(job) && !(state is CheckingTarget) {
        &&& next is Done
        &&& action == ConvertAction::Finish(Err(ConvertError::SourceInTheWay))
    } else {
        match state {
            ConvertState::CheckingTarget => match event {
                ConvertEvent::TargetChecked { exists } => if exists && !job.overwrite {
                    &&& next is Done
                    &&& action == ConvertAction::Finish(Ok(Outcome::Skipped))
                } else if in_the_way(job) {
                    &&& next is Done
                    &&& action == ConvertAction::Finish(Err(ConvertError::SourceInTheWay))
                } else {
                    match parent(components(job.target@)) {
                        Some(dir) => {
                            &&& next is CreatingDir
                            &&& action matches ConvertAction::CreateDir { dir: d } && d@ == render(
                                dir,
                            )
                        },
                        None => clears_part(job, 0, next, action),
                    }
                },
                _ => false,
            },
            ConvertState::CreatingDir => match event {
                ConvertEvent::DirCreated { missing, result: Ok(()) } => clears_part(
                    job,
                    missing,
                    next,
                    action,
                ),
                ConvertEvent::DirCreated { missing, result: Err(e) } => removes_dirs(
                    job,
                    ConvertError::Io(e),
                    missing,
                    next,
                    action,
                ),
                _ => false,
            },
            ConvertState::ClearingPart { missing } => match event {
                ConvertEvent::PartCleared => {
                    &&& next == ConvertState::Writing { missing }
                    &&& action matches ConvertAction::Write { source, part } && source@
                        == job.source@ && part@ == part_text(job.target@)
                },
                _ => false,
            },
            ConvertState::Writing { missing } => match event {
                ConvertEvent::Written(Ok(())) => {
                    &&& next == ConvertState::Verifying { missing }
                    &&& action matches ConvertAction::Verify { source, part } && source@
                        == job.source@ && part@ == part_text(job.target@)
                },
                ConvertEvent::Written(Err(e)) => discards(job, e, missing, next, action),
                _ => false,
            },
            ConvertState::Verifying { missing } => match event {
                ConvertEvent::Verified(Ok(())) => {
                    &&& next == ConvertState::Renaming { missing }
                    &&& action matches ConvertAction::Rename { part, target } && part@
                        == part_text(job.target@) && target@ == job.target@
                },
                ConvertEvent::Verified(Err(v)) => discards(
                    job,
                    ConvertError::Unverified(v),
                    missing,
                    next,
                    action,
                ),
                _ => false,
            },
            ConvertState::Renaming { missing } => match event {
                ConvertEvent::Renamed(Ok(())) => {
                    &&& next is Measuring
                    &&& action matches ConvertAction::Measure { source, target } && source@
                        == job.source@ && target@ == job.target@
                },
                ConvertEvent::Renamed(Err(e)) => discards(
                    job,
                    ConvertError::Io(e),
                    missing,
                    next,
                    action,
                ),
                _ => false,
            },
            ConvertState::Measuring => match event {
                ConvertEvent::Measured { source_bytes, target_bytes } => {
                    &&& next is Done
                    &&& action == ConvertAction::Finish(
                        Ok(Outcome::Converted { source_bytes, target_bytes }),
                    )
                },
                _ => false,
            },
            ConvertState::Discarding { error, missing } => match event {
                ConvertEvent::Discarded => removes_dirs(job, error, missing, next, action),
                _ => false,
            },
            ConvertState::RemovingDirs(e) => match event {
                ConvertEvent::DirsRemoved => {
                    &&& next is Done
                    &&& action == ConvertAction::Finish(Err(e))
                },
                _ => false,
            },
            ConvertState::Done => false,
        }
    }
}

/// The first state and action of a conversion: find out whether the target
/// exists.
pub fn start(job: &ConvertJob) -> (r: (ConvertState, ConvertAction))
    ensures
        r.0 is CheckingTarget,
        r.1 matches ConvertAction::CheckTarget { target } && target@ == job.target@,
{
    (ConvertState::CheckingTarget, ConvertAction::CheckTarget { target: job.target.clone() })
}

fn part_of(job: &ConvertJob) -> (r: String)
    ensures
        r@ == part_text(job.target@),
{
    part_path(job.target.as_str())
}

fn give_up(job: &ConvertJob, e: ConvertError, missing: usize) -> (r: (ConvertState, ConvertAction))
    ensures
        removes_dirs(*job, e, missing, r.0, r.1),
{
    if missing == 0 {
        (ConvertState::Done, ConvertAction::Finish(Err(e)))
    } else {
        let dirs = created_dir_paths(job.target.as_str(), missing);
        (ConvertState::RemovingDirs(e), ConvertAction::RemoveDirs { dirs })
    }
}

/// The next state and action after `event` in `state`, as [`step_post`] says.
pub fn step(job: &ConvertJob, state: ConvertState, event: ConvertEvent) -> (r: (
    ConvertState,
    ConvertAction,
))
    requires
        accepts(state, event),
    ensures
        step_post(*job, state, event, r.0, r.1),
{
    let in_way = source_in_the_way_exec(job.source.as_str(), job.target.as_str());
    if in_way && !matches!(state, ConvertState::CheckingTarget) {
        return (ConvertState::Done, ConvertAction::Finish(Err(ConvertError::SourceInTheWay)));
    }
    match state {
        ConvertState::CheckingTarget => match event {
            ConvertEvent::TargetChecked { exists } => {
                if exists && !job.overwrite {
                    (ConvertState::Done, ConvertAction::Finish(Ok(Outcome::Skipped)))
                } else if in_way {
                    (ConvertState::Done, ConvertAction::Finish(Err(ConvertError::SourceInTheWay)))
                } else {
                    match parent_path(job.target.as_str()) {
                        Some(dir) => (ConvertState::CreatingDir, ConvertAction::CreateDir { dir }),
                        None => (
                            ConvertState::ClearingPart { missing: 0 },
                            ConvertAction::ClearPart { part: part_of(job) },
                        ),
                    }
                }
            },
            _ => {
                proof {
                    assert(false);
                }
                (ConvertState::Done, ConvertAction::Finish(Ok(Outcome::Skipped)))
            },
        },
        ConvertState::CreatingDir => match event {
            ConvertEvent::DirCreated { missing, result: Ok(()) } => (
                ConvertState::ClearingPart { missing },
                ConvertAction::ClearPart { part: part_of(job) },
            ),
            ConvertEvent::DirCreated { missing, result: Err(e) } => give_up(
                job,
                ConvertError::Io(e),
                missing,
            ),
            _ => {
                proof {
                    assert(false);
                }
                (ConvertState::Done, ConvertAction::Finish(Ok(Outcome::Skipped)))
            },
        },
        ConvertState::ClearingPart { missing } => match event {
            ConvertEvent::PartCleared => (
                ConvertState::Writing { missing },
                ConvertAction::Write { source: job.source.clone(), part: part_of(job) },
            ),
            _ => {
                proof {
                    assert(false);
                }
                (ConvertState::Done, ConvertAction::Finish(Ok(Outcome::Skipped)))
            },
        },
        ConvertState::Writing { missing } => match event {
            ConvertEvent::Written(Ok(())) => (
                ConvertState::Verifying { missing },
                ConvertAction::Verify { source: job.source.clone(), part: part_of(job) },
            ),
            ConvertEvent::Written(Err(e)) => (
                ConvertState::Discarding { error: e, missing },
                ConvertAction::Discard { part: part_of(job) },
            ),
            _ => {
                proof {
                    assert(false);
                }
                (ConvertState::Done, ConvertAction::Finish(Ok(Outcome::Skipped)))
            },
        },
        ConvertState::Verifying { missing } => match event {
            ConvertEvent::Verified(Ok(())) => (
                ConvertState::Renaming { missing },
                ConvertAction::Rename { part: part_of(job), target: job.target.clone() },
            ),
            ConvertEvent::Verified(Err(v)) => (
                ConvertState::Discarding { error: ConvertError::Unverified(v), missing },
                ConvertAction::Discard { part: part_of(job) },
            ),
            _ => {
                proof {
                    assert(false);
                }
                (ConvertState::Done, ConvertAction::Finish(Ok(Outcome::Skipped)))
            },
        },
        ConvertState::Renaming { missing } => match event {
            ConvertEvent::Renamed(Ok(())) => (
                ConvertState::Measuring,
                ConvertAction::Measure { source: job.source.clone(), target: job.target.clone() },
            ),
            ConvertEvent::Renamed(Err(e)) => (
                ConvertState::Discarding { error: ConvertError::Io(e), missing },
                ConvertAction::Discard { part: part_of(job) },
            ),
            _ => {
                proof {
                    assert(false);
                }
                (ConvertState::Done, ConvertAction::Finish(Ok(Outcome::Skipped)))
            },
        },
        ConvertState::Measuring => match event {
            ConvertEvent::Measured { source_bytes, target_bytes } => (
                ConvertState::Done,
                ConvertAction::Finish(Ok(Outcome::Converted { source_bytes, target_bytes })),
            ),
            _ => {
                proof {
                    assert(false);
                }
                (ConvertState::Done, ConvertAction::Finish(Ok(Outcome::Skipped)))
            },
        },
        ConvertState::Discarding { error, missing } => match event {
            ConvertEvent::Discarded => give_up(job, error, missing),
            _ => {
                proof {
                    assert(false);
                }
                (ConvertState::Done, ConvertAction::Finish(Ok(Outcome::Skipped)))
            },
        },
        ConvertState::RemovingDirs(e) => match event {
            ConvertEvent::DirsRemoved => (ConvertState::Done, ConvertAction::Finish(Err(e))),
            _ => {
                proof {
                    assert(false);
                }
                (ConvertState::Done, ConvertAction::Finish(Ok(Outcome::Skipped)))
            },
        },
        ConvertState::Done => {
            proof {
                assert(false);
            }
            (ConvertState::Done, ConvertAction::Finish(Ok(Outcome::Skipped)))
        },
    }
}

/// The paths an action creates, writes, removes or renames.
pub open spec fn touched(action: ConvertAction) -> Set<Seq<char>> {
    match action {
        ConvertAction::CreateDir { dir } => set![dir@],
        ConvertAction::ClearPart { part } => set![part@],
        ConvertAction::Write { part, .. } => set![part@],
        ConvertAction::Rename { part, target } => set![part@, target@],
        ConvertAction::Discard { part } => set![part@],
        ConvertAction::RemoveDirs { dirs } => Set::new(
            |p: Seq<char>| exists|k: int| 0 <= k < dirs@.len() && #[trigger] dirs@[k]@ == p,
        ),
        _ => Set::empty(),
    }
}

/// How many directories this conversion created and has not yet removed, as
/// the state and the last report show it.
pub open spec fn dirs_left(state: ConvertState, event: ConvertEvent) -> nat {
    match state {
        ConvertState::CreatingDir => match event {
            ConvertEvent::DirCreated { missing, .. } => missing as nat,
            _ => 0,
        },
        ConvertState::ClearingPart { missing } => missing as nat,
        ConvertState::Writing { missing } => missing as nat,
        ConvertState::Verifying { missing } => missing as nat,
        ConvertState::Renaming { missing } => missing as nat,
        ConvertState::Discarding { missing, .. } => missing as nat,
        _ => 0,
    }
}

/// An existing target is never overwritten unless overwriting was asked for:
/// the conversion ends at once as skipped, having touched nothing.
pub proof fn law_existing_target_is_skipped(
    job: ConvertJob,
    next: ConvertState,
    action: ConvertAction,
)
    requires
        !job.overwrite,
        step_post(job, ConvertState::CheckingTarget, ConvertEvent::TargetChecked { exists: true }, next, action),
    ensures
        next is Done,
        action == ConvertAction::Finish(Ok(Outcome::Skipped)),
{
}

/// The target is only ever replaced by a temporary file that has just been
/// checked against the source.
pub proof fn law_rename_only_after_verification(
    job: ConvertJob,
    state: ConvertState,
    event: ConvertEvent,
    next: ConvertState,
    action: ConvertAction,
)
    requires
        step_post(job, state, event, next, action),
        action is Rename,
    ensures
        state is Verifying,
        event matches ConvertEvent::Verified(Ok(())),
        action matches ConvertAction::Rename { part, target } && part@ == part_text(job.target@)
            && target@ == job.target@,
{
}

/// A conversion is reported as done only once the target has been renamed into
/// place: measuring follows a successful rename, and a converted result follows
/// measuring.
pub proof fn law_success_only_after_rename(
    job: ConvertJob,
    state: ConvertState,
    event: ConvertEvent,
    next: ConvertState,
    action: ConvertAction,
)
    requires
        step_post(job, state, event, next, action),
    ensures
        next is Measuring ==> state is Renaming && event matches ConvertEvent::Renamed(Ok(())),
        action matches ConvertAction::Finish(Ok(Outcome::Converted { .. })) ==> state is Measuring,
{
}

/// Once writing has begun, any failure removes the temporary file before the
/// conversion ends with that failure. (A job that would touch its source never
/// gets this far: it is refused before anything is written.)
pub proof fn law_failure_discards_the_part_file(
    job: ConvertJob,
    state: ConvertState,
    event: ConvertEvent,
    next: ConvertState,
    action: ConvertAction,
)
    requires
        !in_the_way(job),
        state is Writing || state is Verifying || state is Renaming,
        step_post(job, state, event, next, action),
        match event {
            ConvertEvent::Written(r) => r is Err,
            ConvertEvent::Verified(r) => r is Err,
            ConvertEvent::Renamed(r) => r is Err,
            _ => false,
        },
    ensures
        next is Discarding,
        action matches ConvertAction::Discard { part } && part@ == part_text(job.target@),
{
}

/// A conversion ends in failure only once every directory it created has been
/// removed again, and what it removes are exactly those directories, innermost
/// first. (A job that would touch its source is refused before it creates
/// anything.)
pub proof fn law_failure_leaves_no_new_directory(
    job: ConvertJob,
    state: ConvertState,
    event: ConvertEvent,
    next: ConvertState,
    action: ConvertAction,
)
    requires
        !in_the_way(job),
        step_post(job, state, event, next, action),
    ensures
        action matches ConvertAction::Finish(Err(_)) ==> dirs_left(state, event) == 0,
        action matches ConvertAction::RemoveDirs { dirs } ==> texts_are(
            dirs@,
            created_dirs(components(job.target@), dirs_left(state, event)),
        ),
{
}

/// A conversion never creates, writes, removes or renames its own source: the
/// paths any step touches all differ from the source, component by component.
pub proof fn law_source_is_never_touched(
    job: ConvertJob,
    state: ConvertState,
    event: ConvertEvent,
    next: ConvertState,
    action: ConvertAction,
)
    requires
        step_post(job, state, event, next, action),
    ensures
        forall|p: Seq<char>| #[trigger] touched(action).contains(p) ==> components(p) != components(
            job.source@,
        ),
{
    let s = components(job.source@);
    let t = components(job.target@);
    if !in_the_way(job) {
        lemma_components_well_formed(job.target@);
        lemma_part_comps_roundtrip(t);
        assert(starts_with(t, t));
        match parent(t) {
            Some(d) => {
                assert(d == t.subrange(0, t.len() - 1));
                lemma_prefix_roundtrip(t, t.len() - 1);
                assert forall|k: int| 0 <= k < d.len() implies #[trigger] components(
                    render(d.subrange(0, d.len() - k)),
                ) != s by {
                    assert(d.subrange(0, d.len() - k) =~= t.subrange(0, d.len() - k));
                    lemma_prefix_roundtrip(t, d.len() - k);
                    if t.subrange(0, d.len() - k) == s {
                        assert(starts_with(t, s));
                    }
                }
                if d == s {
                    assert(starts_with(t, s));
                }
            },
            None => {},
        }
        match action {
            ConvertAction::RemoveDirs { dirs } => {
                assert forall|p: Seq<char>| #[trigger] touched(action).contains(p) implies components(
                    p,
                ) != s by {
                    let k = choose|k: int| 0 <= k < dirs@.len() && #[trigger] dirs@[k]@ == p;
                    let d = parent(t)->0;
                    let m = dirs_left(state, event);
                    assert(created_dirs(t, m)[k] == render(d.subrange(0, d.len() - k)));
                }
            },
            _ => {},
        }
    }
}

} // verus!
