use neftodng::convert::{
    start, step, ConvertAction, ConvertError, ConvertEvent, ConvertJob, ConvertState, Outcome,
};
use neftodng::verify::VerifyError;

fn job(overwrite: bool) -> ConvertJob {
    ConvertJob {
        source: "/pics/2026/a.NEF".to_string(),
        target: "/out/2026/a.dng".to_string(),
        overwrite,
    }
}

fn io(text: &str) -> std::io::Error {
    std::io::Error::new(std::io::ErrorKind::Other, text.to_string())
}

/// Runs the machine to its end, answering each action from `answer`, and
/// returns the actions it asked for and the result it finished with.
fn run(
    job: &ConvertJob,
    mut answer: impl FnMut(&ConvertAction) -> ConvertEvent,
) -> (Vec<String>, Result<Outcome, ConvertError>) {
    let (mut state, mut action) = start(job);
    let mut asked = Vec::new();
    loop {
        if let ConvertAction::Finish(result) = action {
            return (asked, result);
        }
        asked.push(format!("{action:?}"));
        let event = answer(&action);
        let (s, a) = step(job, state, event);
        state = s;
        action = a;
    }
}

fn all_well(action: &ConvertAction) -> ConvertEvent {
    match action {
        ConvertAction::CheckTarget { .. } => ConvertEvent::TargetChecked { exists: false },
        ConvertAction::CreateDir { .. } => ConvertEvent::DirCreated { missing: 0, result: Ok(()) },
        ConvertAction::ClearPart { .. } => ConvertEvent::PartCleared,
        ConvertAction::Write { .. } => ConvertEvent::Written(Ok(())),
        ConvertAction::Verify { .. } => ConvertEvent::Verified(Ok(())),
        ConvertAction::Rename { .. } => ConvertEvent::Renamed(Ok(())),
        ConvertAction::Measure { .. } => ConvertEvent::Measured {
            source_bytes: 47_000_000,
            target_bytes: 28_000_000,
        },
        ConvertAction::Discard { .. } => ConvertEvent::Discarded,
        ConvertAction::RemoveDirs { .. } => ConvertEvent::DirsRemoved,
        ConvertAction::Finish(_) => unreachable!(),
    }
}

#[test]
fn a_conversion_starts_by_looking_at_the_target() {
    let (state, action) = start(&job(false));
    assert!(matches!(state, ConvertState::CheckingTarget));
    assert!(matches!(action, ConvertAction::CheckTarget { target } if target == "/out/2026/a.dng"));
}

#[test]
fn a_good_conversion_writes_verifies_then_renames() {
    let (asked, result) = run(&job(false), all_well);
    assert_eq!(
        asked,
        vec![
            r#"CheckTarget { target: "/out/2026/a.dng" }"#,
            r#"CreateDir { dir: "/out/2026" }"#,
            r#"ClearPart { part: "/out/2026/.a.dng.part" }"#,
            r#"Write { source: "/pics/2026/a.NEF", part: "/out/2026/.a.dng.part" }"#,
            r#"Verify { source: "/pics/2026/a.NEF", part: "/out/2026/.a.dng.part" }"#,
            r#"Rename { part: "/out/2026/.a.dng.part", target: "/out/2026/a.dng" }"#,
            r#"Measure { source: "/pics/2026/a.NEF", target: "/out/2026/a.dng" }"#,
        ]
    );
    assert!(matches!(
        result,
        Ok(Outcome::Converted { source_bytes: 47_000_000, target_bytes: 28_000_000 })
    ));
}

#[test]
fn existing_target_is_skipped_rather_than_overwritten() {
    let (asked, result) = run(&job(false), |a| match a {
        ConvertAction::CheckTarget { .. } => ConvertEvent::TargetChecked { exists: true },
        other => all_well(other),
    });
    assert_eq!(asked.len(), 1);
    assert!(matches!(result, Ok(Outcome::Skipped)));
}

#[test]
fn an_existing_target_is_replaced_when_overwriting() {
    let (asked, result) = run(&job(true), |a| match a {
        ConvertAction::CheckTarget { .. } => ConvertEvent::TargetChecked { exists: true },
        other => all_well(other),
    });
    assert_eq!(asked.len(), 7);
    assert!(matches!(result, Ok(Outcome::Converted { .. })));
}

#[test]
fn a_directory_that_cannot_be_made_ends_the_conversion() {
    let (asked, result) = run(&job(false), |a| match a {
        ConvertAction::CreateDir { .. } => {
            ConvertEvent::DirCreated { missing: 0, result: Err(io("read-only")) }
        }
        other => all_well(other),
    });
    assert_eq!(asked.len(), 2, "nothing is written when the directory is missing");
    let e = result.unwrap_err();
    assert!(matches!(e, ConvertError::Io(_)));
    assert_eq!(e.message(), "write failed: read-only");
}

#[test]
fn a_decoder_panic_is_reported_and_the_part_file_removed() {
    let (asked, result) = run(&job(false), |a| match a {
        ConvertAction::Write { .. } => {
            ConvertEvent::Written(Err(ConvertError::Panicked("index out of bounds".to_string())))
        }
        other => all_well(other),
    });
    assert_eq!(asked.last().unwrap(), r#"Discard { part: "/out/2026/.a.dng.part" }"#);
    assert!(!asked.iter().any(|a| a.starts_with("Rename")));
    let e = result.unwrap_err();
    assert_eq!(e.message(), "corrupt or unsupported file (index out of bounds)");
}

#[test]
fn a_file_that_fails_verification_never_becomes_a_dng() {
    let (asked, result) = run(&job(false), |a| match a {
        ConvertAction::Verify { .. } => {
            ConvertEvent::Verified(Err(VerifyError::Pixels { differing: 1, total: 4 }))
        }
        other => all_well(other),
    });
    assert!(!asked.iter().any(|a| a.starts_with("Rename")));
    assert_eq!(asked.last().unwrap(), r#"Discard { part: "/out/2026/.a.dng.part" }"#);
    let e = result.unwrap_err();
    assert!(matches!(e, ConvertError::Unverified(VerifyError::Pixels { differing: 1, total: 4 })));
    assert_eq!(e.message(), "verification failed: 1 of 4 samples differ from the original");
}

#[test]
fn a_failed_rename_discards_the_part_file() {
    let (asked, result) = run(&job(false), |a| match a {
        ConvertAction::Rename { .. } => ConvertEvent::Renamed(Err(io("cross-device link"))),
        other => all_well(other),
    });
    assert_eq!(asked.last().unwrap(), r#"Discard { part: "/out/2026/.a.dng.part" }"#);
    assert_eq!(result.unwrap_err().message(), "write failed: cross-device link");
}

#[test]
fn a_decode_error_is_worded_for_the_row() {
    let e = ConvertError::Decode("unsupported camera".to_string());
    assert_eq!(e.message(), "could not convert: unsupported camera");
}

#[test]
fn the_source_is_never_among_the_paths_changed() {
    let (asked, _) = run(&job(false), all_well);
    for a in asked {
        if a.starts_with("CreateDir") || a.starts_with("ClearPart") || a.starts_with("Rename")
            || a.starts_with("Discard")
        {
            assert!(!a.contains("a.NEF"), "{a}");
        }
    }
}

#[test]
fn corrupt_input_is_reported_not_fatal_and_leaves_nothing_behind() {
    let (asked, result) = run(&job(false), |a| match a {
        ConvertAction::Write { .. } => ConvertEvent::Written(Err(ConvertError::Decode(
            "not a raw file".to_string(),
        ))),
        other => all_well(other),
    });
    let e = result.unwrap_err();
    assert!(matches!(e, ConvertError::Decode(_)), "corrupt input must be an error, got {e:?}");
    assert!(!asked.iter().any(|a| a.starts_with("Rename")), "no .dng may be left after a failure");
    assert_eq!(
        asked.last().unwrap(),
        r#"Discard { part: "/out/2026/.a.dng.part" }"#,
        "no .part may be left after a failure"
    );
}

fn job_for(source: &str, target: &str, overwrite: bool) -> ConvertJob {
    ConvertJob { source: source.to_string(), target: target.to_string(), overwrite }
}

#[test]
fn a_target_that_is_the_source_is_refused_before_anything_is_written() {
    for (source, target) in [
        ("/p/a.NEF", "/p/a.NEF"),
        ("/p//a.NEF", "/p/./a.NEF"),
        ("/p/.a.dng.part", "/p/a.dng"),
        ("/p/a.NEF", "/p/a.NEF/x.dng"),
        ("/p", "/p/x/y.dng"),
    ] {
        let (asked, result) = run(&job_for(source, target, true), all_well);
        assert_eq!(asked.len(), 1, "only the target is looked at: {source} -> {target}");
        let e = result.unwrap_err();
        assert!(matches!(e, ConvertError::SourceInTheWay));
        assert_eq!(e.message(), "refused: the target would overwrite or remove the source file");
    }
}

#[test]
fn an_existing_target_that_is_the_source_is_still_just_skipped() {
    let (asked, result) = run(&job_for("/p/a.NEF", "/p/a.NEF", false), |a| match a {
        ConvertAction::CheckTarget { .. } => ConvertEvent::TargetChecked { exists: true },
        other => all_well(other),
    });
    assert_eq!(asked.len(), 1);
    assert!(matches!(result, Ok(Outcome::Skipped)));
}

#[test]
fn a_sibling_of_the_source_is_not_in_the_way() {
    let (asked, result) = run(&job_for("/p/a.NEF", "/p/a.dng", true), all_well);
    assert_eq!(asked.len(), 7);
    assert!(matches!(result, Ok(Outcome::Converted { .. })));
}

#[test]
fn directories_created_for_a_failed_conversion_are_removed_again() {
    let (asked, result) = run(&job(false), |a| match a {
        ConvertAction::CreateDir { .. } => ConvertEvent::DirCreated { missing: 2, result: Ok(()) },
        ConvertAction::Verify { .. } => ConvertEvent::Verified(Err(VerifyError::Format)),
        other => all_well(other),
    });
    assert_eq!(
        &asked[asked.len() - 2..],
        &[
            r#"Discard { part: "/out/2026/.a.dng.part" }"#.to_string(),
            r#"RemoveDirs { dirs: ["/out/2026", "/out"] }"#.to_string(),
        ]
    );
    assert!(matches!(result, Err(ConvertError::Unverified(VerifyError::Format))));
}

#[test]
fn a_directory_that_half_failed_is_cleaned_up() {
    let (asked, result) = run(&job(false), |a| match a {
        ConvertAction::CreateDir { .. } => {
            ConvertEvent::DirCreated { missing: 1, result: Err(io("no space")) }
        }
        other => all_well(other),
    });
    assert_eq!(asked.last().unwrap(), r#"RemoveDirs { dirs: ["/out/2026"] }"#);
    assert_eq!(result.unwrap_err().message(), "write failed: no space");
}

#[test]
fn directories_stay_when_the_conversion_succeeds() {
    let (asked, result) = run(&job(false), |a| match a {
        ConvertAction::CreateDir { .. } => ConvertEvent::DirCreated { missing: 2, result: Ok(()) },
        other => all_well(other),
    });
    assert!(!asked.iter().any(|a| a.starts_with("RemoveDirs")));
    assert!(matches!(result, Ok(Outcome::Converted { .. })));
}
