use letters_we_never_sent::cadence_record::{record_command_args, record_outcome, RecordOutcome, RecordParams};
use letters_we_never_sent::process_output::ProcessReport;

#[test]
fn register_fails_gracefully_on_missing_path() {
    let params = RecordParams {
        path: "/nonexistent/path/aggregate.md".to_string(),
        summary: "2026-05: 0 letters".to_string(),
        source_ids: Vec::new(),
        cadence_home: Some("/nonexistent/cadence/home".to_string()),
    };
    let args = record_command_args(&params);
    assert_eq!(
        args,
        vec![
            "record",
            "monthly",
            "--produced-by",
            "letter-curate",
            "--path",
            "/nonexistent/path/aggregate.md",
            "--summary",
            "2026-05: 0 letters"
        ]
    );
    let outcome = record_outcome(Err("No such file or directory (os error 2)".to_string()));
    assert!(matches!(outcome, RecordOutcome::Failed(_) | RecordOutcome::Created { .. }));
}

#[test]
fn register_with_sources_formats_correctly() {
    let params = RecordParams {
        path: "/tmp/aggregate.md".to_string(),
        summary: "2026-05: 2 letters".to_string(),
        source_ids: vec!["ULID1".to_string(), "ULID2".to_string()],
        cadence_home: Some("/nonexistent/cadence/home".to_string()),
    };
    let args = record_command_args(&params);
    assert_eq!(args.len(), 10);
    assert_eq!(args[8], "--sources");
    assert_eq!(args[9], "ULID1,ULID2");
}

#[test]
fn one_source_is_passed_unjoined() {
    let params = RecordParams {
        path: "p".to_string(),
        summary: "s".to_string(),
        source_ids: vec!["ULID1".to_string()],
        cadence_home: None,
    };
    let args = record_command_args(&params);
    assert_eq!(&args[8..], &["--sources".to_string(), "ULID1".to_string()]);
}

#[test]
fn record_outcomes() {
    match record_outcome(Err("gone".to_string())) {
        RecordOutcome::Failed(m) => assert_eq!(m, "cadence not found: gone"),
        other => panic!("unexpected {:?}", other),
    }
    let failed = ProcessReport { success: false, stdout: Vec::new(), stderr: b"no home".to_vec() };
    match record_outcome(Ok(failed)) {
        RecordOutcome::Failed(m) => assert_eq!(m, "cadence record failed: no home"),
        other => panic!("unexpected {:?}", other),
    }
    let created = ProcessReport { success: true, stdout: b"  01HZXY\n".to_vec(), stderr: Vec::new() };
    match record_outcome(Ok(created)) {
        RecordOutcome::Created { id } => assert_eq!(id, "01HZXY"),
        other => panic!("unexpected {:?}", other),
    }
}
