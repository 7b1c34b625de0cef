use demo_launcher::dispatch::{classify_exit, run_args, run_report, BatchPolicy, BatchRun};
use demo_launcher::error::LauncherError;
use demo_launcher::extract::{TargetDescriptor, TargetList};
use demo_launcher::mode::{parse_invocation, Mode};

fn fresh_list(names: &[&str]) -> TargetList {
    let slots = names
        .iter()
        .enumerate()
        .map(|(i, n)| {
            Some(TargetDescriptor {
                name: n.to_string(),
                ordinal: i,
                kinds: vec!["example".to_string()],
            })
        })
        .collect();
    TargetList { slots }
}

#[test]
fn exit_code_zero_is_a_clean_success() {
    let r = classify_exit(Some(0));
    assert!(r.succeeded);
    assert_eq!(r.exit_code, Some(0));
    assert!(!r.signal);
}

#[test]
fn a_nonzero_exit_code_is_a_clean_failure() {
    let r = classify_exit(Some(101));
    assert!(!r.succeeded);
    assert_eq!(r.exit_code, Some(101));
    assert!(!r.signal);
}

#[test]
fn a_missing_exit_code_is_abnormal_termination() {
    let r = classify_exit(None);
    assert!(!r.succeeded);
    assert_eq!(r.exit_code, None);
    assert!(r.signal);
}

#[test]
fn run_args_append_extras_verbatim_after_the_target() {
    let extra = vec!["--release".to_string(), "-q".to_string()];
    let args = run_args(&"x".to_string(), &extra);
    assert_eq!(
        args,
        vec![
            "run".to_string(),
            "--example".to_string(),
            "x".to_string(),
            "--release".to_string(),
            "-q".to_string(),
        ],
    );
}

#[test]
fn run_args_without_extras_name_only_the_target() {
    let args = run_args(&"demo".to_string(), &vec![]);
    assert_eq!(
        args,
        vec!["run".to_string(), "--example".to_string(), "demo".to_string()],
    );
}

#[test]
fn a_successful_run_deserves_no_report() {
    assert!(run_report(&classify_exit(Some(0))).is_none());
}

#[test]
fn a_failing_exit_code_is_reported_with_its_value() {
    let m = run_report(&classify_exit(Some(101))).unwrap();
    assert_eq!(m, "run exited with failing code: 101");
}

#[test]
fn a_negative_exit_code_is_reported_with_its_sign() {
    let m = run_report(&classify_exit(Some(-5))).unwrap();
    assert_eq!(m, "run exited with failing code: -5");
}

#[test]
fn an_abnormal_termination_is_reported_as_such() {
    let m = run_report(&classify_exit(None)).unwrap();
    assert_eq!(m, "run terminated abnormally, without an exit code");
}

#[test]
fn a_batch_dispatches_every_target_in_order() {
    let targets = fresh_list(&["a", "b", "c"]);
    let mut batch = BatchRun::new(&targets, BatchPolicy::FailFast);
    let mut dispatched: Vec<String> = Vec::new();
    while let Some(name) = batch.current().cloned() {
        dispatched.push(name);
        batch.record(classify_exit(Some(0)));
    }
    assert_eq!(
        dispatched,
        vec!["a".to_string(), "b".to_string(), "c".to_string()],
    );
}

#[test]
fn a_fail_fast_batch_stops_after_an_abnormal_termination() {
    let targets = fresh_list(&["a", "b", "c"]);
    let mut batch = BatchRun::new(&targets, BatchPolicy::FailFast);
    assert_eq!(batch.current().unwrap().as_str(), "a");
    batch.record(classify_exit(Some(0)));
    assert_eq!(batch.current().unwrap().as_str(), "b");
    batch.record(classify_exit(None));
    assert!(batch.current().is_none());
}

#[test]
fn a_fail_fast_batch_stops_after_a_failing_exit_code() {
    let targets = fresh_list(&["a", "b"]);
    let mut batch = BatchRun::new(&targets, BatchPolicy::FailFast);
    assert_eq!(batch.current().unwrap().as_str(), "a");
    batch.record(classify_exit(Some(3)));
    assert!(batch.current().is_none());
}

#[test]
fn a_keep_going_batch_continues_past_failures() {
    let targets = fresh_list(&["a", "b", "c"]);
    let mut batch = BatchRun::new(&targets, BatchPolicy::KeepGoing);
    let mut dispatched: Vec<String> = Vec::new();
    while let Some(name) = batch.current().cloned() {
        dispatched.push(name);
        batch.record(classify_exit(None));
    }
    assert_eq!(
        dispatched,
        vec!["a".to_string(), "b".to_string(), "c".to_string()],
    );
}

#[test]
fn a_batch_skips_consumed_slots() {
    let mut targets = fresh_list(&["a", "b"]);
    targets.slots[0] = None;
    let mut batch = BatchRun::new(&targets, BatchPolicy::FailFast);
    assert_eq!(batch.current().unwrap().as_str(), "b");
    batch.record(classify_exit(Some(0)));
    assert!(batch.current().is_none());
}

#[test]
fn the_batch_token_switches_mode_and_is_stripped() {
    let (mode, rest) = parse_invocation(vec!["all".to_string(), "-v".to_string()]);
    assert!(matches!(mode, Mode::Batch));
    assert_eq!(rest, vec!["-v".to_string()]);
}

#[test]
fn the_batch_token_matches_in_any_letter_case() {
    let (mode, rest) = parse_invocation(vec!["ALL".to_string()]);
    assert!(matches!(mode, Mode::Batch));
    assert!(rest.is_empty());
    let (mode2, _) = parse_invocation(vec!["aLl".to_string()]);
    assert!(matches!(mode2, Mode::Batch));
}

#[test]
fn without_the_token_the_invocation_stays_interactive() {
    let args = vec!["--release".to_string(), "all".to_string()];
    let (mode, rest) = parse_invocation(args.clone());
    assert!(matches!(mode, Mode::Interactive));
    assert_eq!(rest, args);
}

#[test]
fn no_arguments_mean_interactive_mode() {
    let (mode, rest) = parse_invocation(vec![]);
    assert!(matches!(mode, Mode::Interactive));
    assert!(rest.is_empty());
}

#[test]
fn a_token_resembling_the_batch_word_does_not_match() {
    let (mode, _) = parse_invocation(vec!["all-targets".to_string()]);
    assert!(matches!(mode, Mode::Interactive));
}

#[test]
fn error_messages_describe_each_failure() {
    assert_eq!(
        LauncherError::ExternalCommandUnavailable.message(),
        "external command could not be launched",
    );
    assert_eq!(
        LauncherError::ExternalCommandFailed.message(),
        "external command reported failure",
    );
    assert_eq!(LauncherError::EncodingError.message(), "metadata output was not valid text");
    assert_eq!(
        LauncherError::MalformedMetadata.message(),
        "metadata output could not be parsed",
    );
    assert_eq!(
        LauncherError::SchemaError("targets".to_string()).message(),
        "missing or mismatched metadata field: targets",
    );
}
