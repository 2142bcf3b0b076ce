use letters_we_never_sent::cadence_intake::{IntakeOutcome, WeeklySource};
use letters_we_never_sent::cadence_record::RecordOutcome;
use letters_we_never_sent::cli::{
    aggregate_file_name, aggregate_name_under_root, curate_intake_config, curate_record_params, format_list, ListRow, curate_summary, fold_intake, format_stats, render_aggregate,
    report_record, CurateArgs, State, StateArg, StateFilter, Stats,
};

fn stats() -> Stats {
    Stats { accepted: 3, declined: 1, pending: 12, send_real: 0, total: 16 }
}

#[test]
fn state_arg_filters() {
    assert_eq!(StateArg::All.filter(), StateFilter::All);
    assert_eq!(StateArg::Pending.filter(), StateFilter::Only(State::Pending));
    assert_eq!(StateArg::Accepted.filter(), StateFilter::Only(State::Accepted));
    assert_eq!(StateArg::Declined.filter(), StateFilter::Only(State::Declined));
    assert_eq!(StateArg::SendReal.filter(), StateFilter::Only(State::SendReal));
}

#[test]
fn distinct_state_args_select_distinct_letters() {
    let all = [StateArg::All, StateArg::Pending, StateArg::Accepted, StateArg::Declined, StateArg::SendReal];
    for (i, a) in all.iter().enumerate() {
        for (j, b) in all.iter().enumerate() {
            assert_eq!(i == j, a.filter() == b.filter());
        }
    }
}

#[test]
fn stats_report() {
    assert_eq!(
        format_stats(&stats()),
        "accepted: 3\ndeclined: 1\npending: 12\nsend-real: 0\ntotal: 16\n"
    );
}

#[test]
fn aggregate_without_sources() {
    let out = render_aggregate(2026, &vec!["/r/a.md".to_string()], false, &stats());
    assert_eq!(
        out,
        "# Monthly aggregate — 2026\n\naccepted: 3  declined: 1  pending: 12  send-real: 0\ntotal: 16\n"
    );
}

#[test]
fn aggregate_with_sources_only_adds_them_in_front() {
    let srcs = vec!["/r/a.md".to_string(), "/w/b.md".to_string()];
    let with = render_aggregate(2026, &srcs, true, &stats());
    let without = render_aggregate(2026, &srcs, false, &stats());
    assert_eq!(with, format!("# sources\n- /r/a.md\n- /w/b.md\n\n{}", without));
    assert_eq!(render_aggregate(2026, &vec![], true, &stats()), format!("# sources\n\n{}", without));
}

#[test]
fn curate_names_and_summary() {
    assert_eq!(aggregate_file_name(2026), "2026-aggregate.md");
    assert_eq!(aggregate_file_name(-3), "-3-aggregate.md");
    assert_eq!(curate_summary(2026, &stats()), "2026: 16 letters");
}

fn curate_args(intake: bool) -> CurateArgs {
    CurateArgs {
        root: None,
        year: Some(2026),
        output: None,
        cadence_intake: intake,
        cadence_since: "14d".to_string(),
        no_cadence_record: false,
        print_sources: false,
    }
}

#[test]
fn intake_follows_the_flag() {
    let cfg = curate_intake_config(&curate_args(true)).unwrap();
    assert_eq!(cfg.since, "14d");
    assert!(cfg.cadence_home.is_none());
    assert!(curate_intake_config(&curate_args(false)).is_none());
}

#[test]
fn intake_folds_into_sources() {
    let mut sources = vec!["/r/a.md".to_string()];
    let mut ids = Vec::new();
    let outcome = IntakeOutcome::Sources(vec![
        WeeklySource { record_id: "01".to_string(), path: "/w/1.md".to_string(), lede: "x".to_string() },
        WeeklySource { record_id: "02".to_string(), path: "/w/2.md".to_string(), lede: String::new() },
    ]);
    assert!(fold_intake(&mut sources, &mut ids, &outcome).is_none());
    assert_eq!(sources, vec!["/r/a.md", "/w/1.md", "/w/2.md"]);
    assert_eq!(ids, vec!["01", "02"]);
}

#[test]
fn unavailable_intake_only_warns() {
    let mut sources = vec!["/r/a.md".to_string()];
    let mut ids: Vec<String> = Vec::new();
    let w = fold_intake(&mut sources, &mut ids, &IntakeOutcome::Unavailable("cadence not found".to_string()));
    assert_eq!(w.as_deref(), Some("warning: cadence intake unavailable: cadence not found"));
    assert_eq!(sources, vec!["/r/a.md"]);
    assert!(ids.is_empty());
    assert!(fold_intake(&mut sources, &mut ids, &IntakeOutcome::Empty).is_none());
    assert_eq!(sources, vec!["/r/a.md"]);
}

#[test]
fn record_report() {
    let mut out = "total: 1\n".to_string();
    assert!(report_record(&mut out, &RecordOutcome::Created { id: "01HZ".to_string() }).is_none());
    assert_eq!(out, "total: 1\n\ncadence record: 01HZ\n");
    let w = report_record(&mut out, &RecordOutcome::Failed("cadence not found: gone".to_string()));
    assert_eq!(w.as_deref(), Some("warning: cadence record not created: cadence not found: gone"));
    assert_eq!(out, "total: 1\n\ncadence record: 01HZ\n");
}

#[test]
fn list_rows() {
    let rows = vec![
        ListRow {
            filename: "2026-05-03.md".to_string(),
            state: "accepted".to_string(),
            accepted_at: "2026-05-04T10:00:00Z".to_string(),
            subject: "the PM".to_string(),
        },
        ListRow {
            filename: "2026-05-04.md".to_string(),
            state: "pending".to_string(),
            accepted_at: "-".to_string(),
            subject: "(unparseable)".to_string(),
        },
    ];
    assert_eq!(
        format_list(&rows),
        "2026-05-03.md accepted 2026-05-04T10:00:00Z  the PM\n2026-05-04.md pending -  (unparseable)\n"
    );
    assert_eq!(format_list(&vec![]), "");
}

#[test]
fn aggregate_goes_to_output_or_under_root() {
    let mut args = curate_args(true);
    assert_eq!(aggregate_name_under_root(&args, 2026).as_deref(), Some("2026-aggregate.md"));
    args.output = Some("/tmp/out.md".to_string());
    assert!(aggregate_name_under_root(&args, 2026).is_none());
}

#[test]
fn registration_follows_unless_suppressed() {
    let mut args = curate_args(true);
    let p = curate_record_params(&args, "/r/2026-aggregate.md".to_string(), "2026: 16 letters".to_string(), vec!["01".to_string()])
        .unwrap();
    assert_eq!(p.path, "/r/2026-aggregate.md");
    assert_eq!(p.summary, "2026: 16 letters");
    assert_eq!(p.source_ids, vec!["01"]);
    assert!(p.cadence_home.is_none());
    args.no_cadence_record = true;
    assert!(curate_record_params(&args, "p".to_string(), "s".to_string(), vec![]).is_none());
}
