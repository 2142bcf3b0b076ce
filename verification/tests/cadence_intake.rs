use letters_we_never_sent::cadence_intake::{
    collect, lede_from_contents, lede_paths, listing_command_args, listing_from_run, parse_records,
    IntakeConfig, IntakeOutcome, LEDE_BYTES,
};
use letters_we_never_sent::json_scan::{extract_objects, extract_str_field};
use letters_we_never_sent::process_output::ProcessReport;

#[test]
fn parse_empty_array() {
    let result = parse_records("[]");
    assert!(matches!(result, Ok(v) if v.is_empty()));
}

#[test]
fn extract_objects_simple() {
    let json = r#"[{"id":"01","path":"/tmp/a.md"},{"id":"02","path":"/tmp/b.md"}]"#;
    let objs = extract_objects(json);
    assert_eq!(objs.len(), 2);
}

#[test]
fn extract_str_field_finds_value() {
    let obj = r#"{"id":"abc123","path":"/home/user/letter.md","tier":"weekly"}"#;
    assert_eq!(extract_str_field(obj, "id").as_deref(), Some("abc123"));
    assert_eq!(
        extract_str_field(obj, "path").as_deref(),
        Some("/home/user/letter.md")
    );
    assert!(extract_str_field(obj, "missing").is_none());
}

/// With a `$CADENCE_HOME` that does not exist, cadence either cannot be
/// launched or fails; the intake is then unavailable (or empty), never a panic.
#[test]
fn collect_unavailable_on_bad_cadence_home() {
    let cfg = IntakeConfig {
        since: "30d".to_string(),
        cadence_home: Some("/nonexistent/cadence/home".to_string()),
    };
    let args = listing_command_args(&cfg);
    assert_eq!(args[5], "30d");
    let not_launched = listing_from_run(Err("No such file or directory (os error 2)".to_string()));
    let outcome = collect(&not_launched, vec![]);
    assert!(matches!(outcome, IntakeOutcome::Unavailable(_) | IntakeOutcome::Empty));
    let failed = listing_from_run(Ok(ProcessReport {
        success: false,
        stdout: Vec::new(),
        stderr: b"error: CADENCE_HOME /nonexistent/cadence/home does not exist\n".to_vec(),
    }));
    let outcome = collect(&failed, vec![]);
    assert!(matches!(outcome, IntakeOutcome::Unavailable(_) | IntakeOutcome::Empty));
}

/// When `cadence` is not on the PATH, collecting does not panic.
#[test]
fn collect_skipped_when_cadence_absent() {
    let cfg = IntakeConfig {
        since: "30d".to_string(),
        cadence_home: None,
    };
    let _args = listing_command_args(&cfg);
    let listing = listing_from_run(Err("No such file or directory (os error 2)".to_string()));
    let _outcome = collect(&listing, vec![]);
}

#[test]
fn default_config_looks_back_thirty_days() {
    let cfg = IntakeConfig::default();
    assert_eq!(cfg.since, "30d");
    assert!(cfg.cadence_home.is_none());
}

#[test]
fn listing_arguments_name_window_and_producer() {
    let cfg = IntakeConfig {
        since: "7d".to_string(),
        cadence_home: None,
    };
    assert_eq!(
        listing_command_args(&cfg),
        vec!["list", "weekly", "--produced-by", "confidant", "--since", "7d", "--json"]
    );
}

#[test]
fn objects_keep_nesting_and_skip_stray_braces() {
    let objs = extract_objects(r#"} [{"a":{"b":"c"}}, {"d":"e"}, {"open":"#);
    assert_eq!(objs, vec![r#"{"a":{"b":"c"}}"#.to_string(), r#"{"d":"e"}"#.to_string()]);
    assert!(extract_objects("[1, 2, 3]").is_empty());
}

#[test]
fn objects_are_sliced_by_characters() {
    let objs = extract_objects("[{\"id\":\"é\"},{\"id\":\"ü\"}]");
    assert_eq!(objs, vec!["{\"id\":\"é\"}".to_string(), "{\"id\":\"ü\"}".to_string()]);
}

#[test]
fn field_after_whitespace_is_found() {
    let obj = "{\"id\" :\t \"x y\", \"path\": \"/p\"}";
    assert_eq!(extract_str_field(obj, "id").as_deref(), Some("x y"));
    assert_eq!(extract_str_field(obj, "path").as_deref(), Some("/p"));
}

#[test]
fn field_that_is_not_a_string_is_absent() {
    let obj = r#"{"id":12,"path":"/p"}"#;
    assert!(extract_str_field(obj, "id").is_none());
    assert!(extract_str_field(r#"{"id""#, "id").is_none());
    assert!(extract_str_field(r#"{"id":"open"#, "id").is_none());
}

#[test]
fn written_field_reads_back() {
    let obj = "{\"path\":  \"/letters/w1.md\",\"id\":\"01H\"}";
    assert_eq!(extract_str_field(obj, "path").as_deref(), Some("/letters/w1.md"));
}

#[test]
fn records_need_both_fields() {
    let json = "  [{\"id\":\"01\",\"path\":\"/a.md\"},{\"id\":\"02\"},{\"path\":\"/c.md\"},{\"path\":\"/d.md\",\"id\":\"04\"}]\n";
    let recs = parse_records(json).unwrap();
    assert_eq!(recs.len(), 2);
    assert_eq!(recs[0].record_id, "01");
    assert_eq!(recs[0].path, "/a.md");
    assert_eq!(recs[1].record_id, "04");
    assert_eq!(recs[1].path, "/d.md");
}

#[test]
fn output_that_is_not_an_array_is_refused() {
    let r = parse_records("  {\"id\":\"01\"} \n");
    assert_eq!(
        r.unwrap_err(),
        "unexpected cadence output (not a JSON array): {\"id\":\"01\"}"
    );
}

#[test]
fn blank_and_empty_listings_are_empty() {
    for text in ["", "  \n", " [] ", "[{\"id\":\"01\"}]"] {
        let listing: Result<String, String> = Ok(text.to_string());
        assert!(matches!(collect(&listing, vec![]), IntakeOutcome::Empty));
        assert!(lede_paths(&listing).is_empty());
    }
}

#[test]
fn failed_run_is_unavailable_with_its_message() {
    let listing: Result<String, String> = Err("cadence list weekly failed: boom".to_string());
    match collect(&listing, vec![]) {
        IntakeOutcome::Unavailable(msg) => assert_eq!(msg, "cadence list weekly failed: boom"),
        other => panic!("unexpected {:?}", other),
    }
    let listing: Result<String, String> = Ok("oops".to_string());
    match collect(&listing, vec![]) {
        IntakeOutcome::Unavailable(msg) => {
            assert_eq!(msg, "unexpected cadence output (not a JSON array): oops")
        }
        other => panic!("unexpected {:?}", other),
    }
}

#[test]
fn sources_carry_ledes_of_their_letters() {
    let listing: Result<String, String> = Ok(
        "[{\"id\":\"01\",\"path\":\"/a.md\"},{\"id\":\"02\",\"path\":\"/b.md\"},{\"id\":\"03\",\"path\":\"/c.md\"}]"
            .to_string(),
    );
    let paths = lede_paths(&listing);
    assert_eq!(paths, vec!["/a.md", "/b.md", "/c.md"]);
    let long = vec![b'x'; 700];
    let contents = vec![Some(b"Dear PM,\n".to_vec()), None, Some(long)];
    match collect(&listing, contents) {
        IntakeOutcome::Sources(ws) => {
            assert_eq!(ws.len(), 3);
            assert_eq!(ws[0].record_id, "01");
            assert_eq!(ws[0].path, "/a.md");
            assert_eq!(ws[0].lede, "Dear PM,\n");
            assert_eq!(ws[1].lede, "");
            assert_eq!(ws[2].lede.len(), LEDE_BYTES);
        }
        other => panic!("unexpected {:?}", other),
    }
}

#[test]
fn missing_contents_give_empty_ledes() {
    let listing: Result<String, String> = Ok("[{\"id\":\"01\",\"path\":\"/a.md\"}]".to_string());
    match collect(&listing, vec![]) {
        IntakeOutcome::Sources(ws) => assert_eq!(ws[0].lede, ""),
        other => panic!("unexpected {:?}", other),
    }
}

#[test]
fn lede_is_capped_and_lossy() {
    assert_eq!(lede_from_contents(None), "");
    assert_eq!(lede_from_contents(Some(b"short")), "short");
    assert_eq!(lede_from_contents(Some(&[b'a', 0xff, b'b'])), "a\u{fffd}b");
    let mut bytes = vec![b'y'; 499];
    bytes.extend_from_slice("é".as_bytes());
    let lede = lede_from_contents(Some(&bytes));
    assert_eq!(lede, format!("{}\u{fffd}", "y".repeat(499)));
}

#[test]
fn run_results_become_listing_text_or_messages() {
    assert_eq!(
        listing_from_run(Err("gone".to_string())),
        Err("cadence not found or failed to launch: gone".to_string())
    );
    let failed = ProcessReport { success: false, stdout: b"[]".to_vec(), stderr: b"bad home".to_vec() };
    assert_eq!(
        listing_from_run(Ok(failed)),
        Err("cadence list weekly failed: bad home".to_string())
    );
    let ok = ProcessReport { success: true, stdout: b"[]\n".to_vec(), stderr: Vec::new() };
    assert_eq!(listing_from_run(Ok(ok)), Ok("[]\n".to_string()));
    let garbled = ProcessReport { success: true, stdout: vec![b'[', 0xc3], stderr: Vec::new() };
    let err = listing_from_run(Ok(garbled)).unwrap_err();
    let why = String::from_utf8(vec![b'[', 0xc3]).unwrap_err().to_string();
    assert_eq!(err, format!("cadence output not UTF-8: {why}"));
}
