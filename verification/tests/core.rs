use executainer::doctor::{
    doctor_outcome, doctor_report, doctor_text, preflight, run_doctor, DoctorRunner,
    PARSER_SELF_CHECK_SAMPLE,
};
use executainer::manifest::{LaneMode, ParseStatus, StrMap, SynthesisStatus, ConflictStatus};
use executainer::prompt_builder::{build_lane_prompt, build_synthesis_prompt, LanePromptInput};
use executainer::result_parser::{sentinel_payload, ParseError, ParsedLaneResult};
use executainer::review::{
    any_writable, read_only_lanes, record_synthesis_written, review_lane_reports, run_result,
    synthesis_step, LaneOutcome, LaneReport, SynthesisStep,
};
use executainer::run_plan::{new_run_manifest, start_run_manifest};
use executainer::synthesizer::synthesize_results;

#[test]
fn lane_prompt_records_deferred_files_and_read_only_contract() {
    let prompt = build_lane_prompt(LanePromptInput {
        lane_id: "lane-01",
        mode: LaneMode::ReadOnly,
        task: "Audit the repository",
        deferred_files: &["README.md".into(), "docs/ADR.md".into()],
        writable_scope: None,
    });

    assert!(prompt.contains("lane-01"));
    assert!(prompt.contains("read-only"));
    assert!(prompt.contains("README.md"));
    assert!(prompt.contains("<<<EXECUTAINER_RESULT_START>>>"));
}

struct StubDoctorRunner {
    tmux: bool,
    codex: bool,
    parser_ok: bool,
    temp_ok: bool,
}

impl DoctorRunner for StubDoctorRunner {
    fn command_exists(&self, command: &str) -> bool {
        match command {
            "tmux" => self.tmux,
            "codex" => self.codex,
            _ => false,
        }
    }

    fn writable_temp_dir(&self) -> bool {
        self.temp_ok
    }

    fn parser_self_check(&self) -> bool {
        self.parser_ok
    }
}

#[test]
fn doctor_reports_failing_checks() {
    let report = run_doctor(
        &StubDoctorRunner {
            tmux: true,
            codex: false,
            parser_ok: true,
            temp_ok: true,
        },
        true,
    );

    assert!(!report.ok);
    assert_eq!(report.checks.len(), 5);
    assert!(
        report
            .checks
            .iter()
            .any(|check| check.name == "codex_cli" && !check.ok)
    );
}

#[test]
fn doctor_passes_when_every_probe_passes() {
    let report = run_doctor(
        &StubDoctorRunner { tmux: true, codex: true, parser_ok: true, temp_ok: true },
        true,
    );
    assert!(report.ok);
    let names: Vec<&str> = report.checks.iter().map(|c| c.name.as_str()).collect();
    assert_eq!(names, vec!["runtime", "tmux", "codex_cli", "writable_temp_dir", "parser_self_check"]);
    assert!(doctor_outcome(&report).is_ok());
}

#[test]
fn doctor_runtime_failure_fails_the_report() {
    let report = doctor_report(false, true, true, true, true);
    assert!(!report.ok);
    assert_eq!(report.checks[0].detail, "could not resolve current executable");
    let err = doctor_outcome(&report).unwrap_err();
    assert_eq!(err.exit_code(), 1);
    assert_eq!(err.message(), "doctor checks failed");
}

#[test]
fn doctor_text_lays_out_a_table() {
    let report = doctor_report(true, true, false, true, true);
    let text = doctor_text(&report);
    let expected = "executainer doctor\n\
- runtime          OK   current executable resolved\n\
- tmux             OK   tmux must be installed for the v1 backend\n\
- codex_cli        FAIL codex CLI must be available on PATH\n\
- writable_temp_dir OK   tmp/executainer must be writable\n\
- parser_self_check OK   sentinel parser must fail closed and parse the golden payload\n\
\noverall: not ready\n";
    assert_eq!(text, expected);
}

const VALID_OUTPUT: &str = r#"
noise
<<<EXECUTAINER_RESULT_START>>>
{"lane_id":"lane-01","status":"ok","summary":"done","proposed_files":["src/main.rs"],"deferred_files":["README.md"],"notes":"ship it"}
<<<EXECUTAINER_RESULT_END>>>
"#;

#[test]
fn sentinel_payload_is_the_trimmed_block() {
    let payload = sentinel_payload(VALID_OUTPUT).expect("single block");
    assert_eq!(
        payload,
        r#"{"lane_id":"lane-01","status":"ok","summary":"done","proposed_files":["src/main.rs"],"deferred_files":["README.md"],"notes":"ship it"}"#
    );
}

#[test]
fn sentinel_payload_fails_closed_without_sentinels() {
    let raw = r#"{"lane_id":"lane-01"}"#;
    assert!(matches!(sentinel_payload(raw), Err(ParseError::MissingSentinel)));
}

#[test]
fn sentinel_payload_refuses_duplicated_blocks() {
    let raw = format!("{VALID_OUTPUT}{VALID_OUTPUT}");
    assert!(matches!(sentinel_payload(&raw), Err(ParseError::MissingSentinel)));
}

#[test]
fn sentinel_payload_refuses_end_before_start() {
    let raw = "<<<EXECUTAINER_RESULT_END>>> {} <<<EXECUTAINER_RESULT_START>>>";
    assert!(matches!(sentinel_payload(raw), Err(ParseError::MissingSentinel)));
    let empty = "<<<EXECUTAINER_RESULT_START>>><<<EXECUTAINER_RESULT_END>>>";
    assert!(matches!(sentinel_payload(empty), Err(ParseError::MissingSentinel)));
}

#[test]
fn sentinel_payload_keeps_unicode_and_trims_unicode_space() {
    let raw = "x<<<EXECUTAINER_RESULT_START>>>\u{3000}\t{\"é\":1}\u{a0}\n<<<EXECUTAINER_RESULT_END>>>y";
    assert_eq!(sentinel_payload(raw).unwrap(), "{\"é\":1}");
}

#[test]
fn synthesis_prompt_fills_placeholders() {
    let prompt = build_synthesis_prompt("Audit", "[1]", "{\"m\":2}");
    assert!(prompt.contains("Task:\nAudit\n"));
    assert!(prompt.contains("[1]"));
    assert!(prompt.contains("{\"m\":2}"));
    assert!(!prompt.contains("{{"));
}

#[test]
fn lane_prompt_lists_none_and_writable_scope() {
    let prompt = build_lane_prompt(LanePromptInput {
        lane_id: "lane-02",
        mode: LaneMode::Writable,
        task: "Fix it",
        deferred_files: &[],
        writable_scope: Some("src/"),
    });
    assert!(prompt.contains("Deferred files:\n- none\n"));
    assert!(prompt.contains("writable scope: src/"));
    assert!(prompt.contains("<<<EXECUTAINER_RESULT_END>>>"));
    assert!(!prompt.contains("{{"));
    let read_only = build_lane_prompt(LanePromptInput {
        lane_id: "lane-03",
        mode: LaneMode::ReadOnly,
        task: "Look",
        deferred_files: &["a.rs".into(), "b.rs".into()],
        writable_scope: None,
    });
    assert!(read_only.contains("- a.rs\n- b.rs\n"));
    assert!(read_only.contains("Writable scope: none"));
}

fn result(lane: &str, summary: &str, files: &[&str]) -> ParsedLaneResult {
    ParsedLaneResult {
        lane_id: lane.into(),
        status: "ok".into(),
        summary: summary.into(),
        proposed_files: files.iter().map(|f| f.to_string()).collect(),
        deferred_files: vec![],
        notes: String::new(),
    }
}

fn manifest(lanes: usize, writable: &[(&str, &str)]) -> executainer::manifest::RunManifest {
    let mut scopes = StrMap::new();
    for (lane, scope) in writable {
        scopes.insert(lane.to_string(), scope.to_string());
    }
    new_run_manifest(
        "20260413-123000-abc123".into(),
        "2026-04-13T12:30:00Z".into(),
        "/tmp/work".into(),
        lanes,
        scopes,
        vec!["README.md".into()],
        "executainer-20260413-123000-abc123".into(),
    )
}

#[test]
fn new_manifest_marks_writable_lanes() {
    let m = manifest(3, &[("lane-02", "src/")]);
    assert_eq!(m.lane_ids, vec!["lane-01", "lane-02", "lane-03"]);
    assert_eq!(m.lane_modes.get(&"lane-02".to_string()), Some(&LaneMode::Writable));
    assert_eq!(m.lane_modes.get(&"lane-01".to_string()), Some(&LaneMode::ReadOnly));
    assert_eq!(
        m.prompt_template_refs.get(&"lane-02".to_string()).map(|s| s.as_str()),
        Some("templates/lane_writable.txt")
    );
    assert_eq!(
        m.prompt_template_refs.get(&"lane-03".to_string()).map(|s| s.as_str()),
        Some("templates/lane_read_only.txt")
    );
    assert_eq!(m.parse_status, ParseStatus::Pending);
    assert_eq!(m.synthesis_status, SynthesisStatus::Pending);
    assert_eq!(m.conflict_status, ConflictStatus::Clear);
    assert!(any_writable(&m));
    assert_eq!(read_only_lanes(&m), vec!["lane-01", "lane-03"]);
}

#[test]
fn review_of_clean_results_allows_synthesis() {
    let mut m = manifest(2, &[]);
    let results = review_lane_reports(
        &mut m,
        vec![
            LaneReport { lane_id: "lane-01".into(), outcome: LaneOutcome::Parsed(result("lane-01", "one", &["a.rs"])) },
            LaneReport { lane_id: "lane-02".into(), outcome: LaneOutcome::Parsed(result("lane-02", "two", &["b.rs"])) },
        ],
    );
    assert_eq!(results.len(), 2);
    assert_eq!(m.parse_status, ParseStatus::Success);
    assert_eq!(m.conflict_status, ConflictStatus::Clear);
    assert_eq!(m.synthesis_status, SynthesisStatus::Pending);
    assert!(m.notes.is_empty());
    let doc = synthesize_results(&results, &m, "Audit");
    assert_eq!(
        doc,
        "# Executainer synthesis\n\nTask: Audit\n\nRun: 20260413-123000-abc123\n\nLane summaries:\n- lane-01: one\n- lane-02: two\n"
    );
    let err = run_result(&m).unwrap_err();
    assert_eq!(err.exit_code(), 1);
    assert_eq!(err.message(), "run 20260413-123000-abc123 failed");
    m.synthesis_status = SynthesisStatus::Completed;
    assert!(run_result(&m).is_ok());
}

#[test]
fn review_blocks_on_duplicate_proposals() {
    let mut m = manifest(2, &[]);
    review_lane_reports(
        &mut m,
        vec![
            LaneReport { lane_id: "lane-01".into(), outcome: LaneOutcome::Parsed(result("lane-01", "one", &["a.rs", "b.rs"])) },
            LaneReport { lane_id: "lane-02".into(), outcome: LaneOutcome::Parsed(result("lane-02", "two", &["b.rs", "a.rs", "b.rs"])) },
        ],
    );
    assert_eq!(m.conflict_status, ConflictStatus::Detected);
    assert_eq!(m.synthesis_status, SynthesisStatus::Blocked);
    assert_eq!(
        m.notes,
        vec![
            "conflict detected for proposed file: b.rs",
            "conflict detected for proposed file: a.rs",
            "conflict detected for proposed file: b.rs",
        ]
    );
    let err = run_result(&m).unwrap_err();
    assert_eq!(err.exit_code(), 2);
    assert_eq!(err.message(), "run 20260413-123000-abc123 requires review");
}

#[test]
fn review_blocks_on_parse_failures_and_writable_lanes() {
    let mut m = manifest(3, &[("lane-03", "docs/")]);
    let results = review_lane_reports(
        &mut m,
        vec![
            LaneReport { lane_id: "lane-01".into(), outcome: LaneOutcome::ParseFailed("sentinel block missing or duplicated".into()) },
            LaneReport { lane_id: "lane-02".into(), outcome: LaneOutcome::MissingOutput("No such file or directory (os error 2)".into()) },
        ],
    );
    assert!(results.is_empty());
    assert_eq!(m.parse_status, ParseStatus::Failed);
    assert_eq!(m.conflict_status, ConflictStatus::Clear);
    assert_eq!(m.synthesis_status, SynthesisStatus::Blocked);
    assert_eq!(
        m.notes,
        vec![
            "lane-01: parse failed: sentinel block missing or duplicated",
            "lane-02: missing output: No such file or directory (os error 2)",
            "synthesis blocked because writable interactive lanes require human completion",
        ]
    );
    assert_eq!(run_result(&m).unwrap_err().exit_code(), 2);
}

#[test]
fn golden_sample_frames_one_payload() {
    let payload = sentinel_payload(PARSER_SELF_CHECK_SAMPLE).expect("golden payload");
    assert!(payload.starts_with("{\"lane_id\":\"lane-01\""));
    assert!(payload.ends_with("\"notes\":\"none\"}"));
}

#[test]
fn preflight_needs_a_ready_machine() {
    assert!(preflight(&doctor_report(true, true, true, true, true)).is_ok());
    let err = preflight(&doctor_report(true, false, true, true, true)).unwrap_err();
    assert_eq!(err.exit_code(), 1);
    assert_eq!(err.message(), "doctor preflight failed");
}

#[test]
fn synthesis_is_written_only_when_not_blocked() {
    let mut clean = manifest(1, &[]);
    review_lane_reports(
        &mut clean,
        vec![LaneReport { lane_id: "lane-01".into(), outcome: LaneOutcome::Parsed(result("lane-01", "s", &["a.rs"])) }],
    );
    assert!(matches!(synthesis_step(&clean), SynthesisStep::Write));
    record_synthesis_written(&mut clean);
    assert_eq!(clean.synthesis_status, SynthesisStatus::Completed);
    assert!(run_result(&clean).is_ok());

    let mut blocked = manifest(1, &[]);
    review_lane_reports(
        &mut blocked,
        vec![LaneReport { lane_id: "lane-01".into(), outcome: LaneOutcome::MissingOutput("gone".into()) }],
    );
    assert!(matches!(synthesis_step(&blocked), SynthesisStep::Skip));
    record_synthesis_written(&mut blocked);
    assert_eq!(blocked.synthesis_status, SynthesisStatus::Blocked);
    assert_eq!(run_result(&blocked).unwrap_err().exit_code(), 2);
}

#[test]
fn started_manifest_is_stamped_in_rfc3339() {
    let m = start_run_manifest(
        "r".into(),
        "/w".into(),
        2,
        StrMap::new(),
        vec![],
        "executainer-r".into(),
    )
    .ok()
    .expect("clock after the epoch");
    assert!(m.created_at.ends_with("+00:00"));
    assert_eq!(&m.created_at[4..5], "-");
    assert_eq!(&m.created_at[10..11], "T");
    assert_eq!(m.lane_ids, vec!["lane-01", "lane-02"]);
}

#[test]
fn review_blocks_on_one_lane_repeating_a_file() {
    let mut m = manifest(2, &[]);
    review_lane_reports(
        &mut m,
        vec![
            LaneReport { lane_id: "lane-01".into(), outcome: LaneOutcome::Parsed(result("lane-01", "one", &["a.rs", "a.rs"])) },
            LaneReport { lane_id: "lane-02".into(), outcome: LaneOutcome::Parsed(result("lane-02", "two", &["b.rs"])) },
        ],
    );
    assert_eq!(m.conflict_status, ConflictStatus::Detected);
    assert_eq!(m.synthesis_status, SynthesisStatus::Blocked);
    assert_eq!(m.notes, vec!["conflict detected for proposed file: a.rs"]);
}

#[test]
fn parsed_results_compare_by_value() {
    let a = result("lane-01", "one", &["a.rs"]);
    let b = a.clone();
    assert_eq!(a, b);
    assert_ne!(a, result("lane-01", "one", &["b.rs"]));
}

#[test]
fn epoch_offset_keeps_seconds_that_fit() {
    assert_eq!(executainer::clock::epoch_offset(1_776_083_400, 5), Some((1_776_083_400, 5)));
    assert_eq!(executainer::clock::epoch_offset(u64::MAX, 0), None);
    assert_eq!(
        executainer::clock::epoch_offset(9_223_372_036_854_775_807, 1),
        Some((i64::MAX, 1))
    );
}

#[test]
fn single_block_is_read_back_trimmed() {
    let raw = format!(
        "chatter\n{}\n  {{\"lane_id\":\"lane-02\"}}\n{}\ntrailer",
        executainer::result_parser::SENTINEL_START,
        executainer::result_parser::SENTINEL_END
    );
    assert_eq!(sentinel_payload(&raw).expect("one block"), "{\"lane_id\":\"lane-02\"}");
}
