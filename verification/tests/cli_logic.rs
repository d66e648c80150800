use executainer::cli::{
    build_read_only_script, build_run_slug, run_slug_from, build_writable_script, check_clean_confirmed,
    check_lane_count, inspect_summary, keep_waiting, lane_ids, launch_command,
    parse_writable_lanes, resolve_task, session_name_for, shell_escape, TaskSource,
};
use executainer::manifest::{ConflictStatus, ParseStatus, StrMap, SynthesisStatus};
use executainer::run_plan::{lane_prompt_for, lane_script_for, new_run_manifest};
use executainer::tmux_backend::{
    capture_pane, create_detached_session, has_session, kill_session, panes_from_outputs,
    send_keys, tmux_output, TmuxError,
};

#[test]
fn zero_lanes_are_refused() {
    let err = check_lane_count(0).unwrap_err();
    assert_eq!(err.exit_code(), 1);
    assert_eq!(err.message(), "--lanes must be at least 1");
    assert!(check_lane_count(3).is_ok());
}

#[test]
fn clean_needs_confirmation() {
    assert_eq!(check_clean_confirmed(false).unwrap_err().message(), "clean requires --yes");
    assert!(check_clean_confirmed(true).is_ok());
}

#[test]
fn task_sources_are_exclusive() {
    let err = resolve_task(Some("Audit this repository".into()), Some("/tmp/task.txt".into())).err().unwrap();
    assert_eq!(err.message(), "choose either --task or --task-file");
    let err = resolve_task(None, None).err().unwrap();
    assert_eq!(err.message(), "run requires --task or --task-file");
    assert!(matches!(resolve_task(Some("t".into()), None), Ok(TaskSource::Inline(t)) if t == "t"));
    assert!(matches!(resolve_task(None, Some("f".into())), Ok(TaskSource::File(f)) if f == "f"));
}

#[test]
fn writable_lanes_are_parsed_and_checked() {
    let scopes = parse_writable_lanes(&["lane-02:src/".into(), "lane-01:docs:extra".into()], 3).ok().unwrap();
    assert_eq!(scopes.len(), 2);
    assert_eq!(scopes.get(&"lane-02".to_string()).unwrap(), "src/");
    assert_eq!(scopes.get(&"lane-01".to_string()).unwrap(), "docs:extra");

    let later_wins = parse_writable_lanes(&["lane-02:a".into(), "lane-02:b".into()], 2).ok().unwrap();
    assert_eq!(later_wins.len(), 1);
    assert_eq!(later_wins.get(&"lane-02".to_string()).unwrap(), "b");

    let plus = parse_writable_lanes(&["lane-+2:x".into()], 2).ok().unwrap();
    assert_eq!(plus.get(&"lane-+2".to_string()).unwrap(), "x");

    let err = parse_writable_lanes(&["lane-01".into()], 3).err().unwrap();
    assert_eq!(err.message(), "invalid --writable-lane value: lane-01");
    let err = parse_writable_lanes(&["worker-1:src".into()], 3).err().unwrap();
    assert_eq!(err.message(), "invalid lane id in --writable-lane: worker-1");
    let err = parse_writable_lanes(&["lane-x:src".into()], 3).err().unwrap();
    assert_eq!(err.message(), "invalid lane id in --writable-lane: lane-x");
    let err = parse_writable_lanes(&["lane-:src".into()], 3).err().unwrap();
    assert_eq!(err.message(), "invalid lane id in --writable-lane: lane-");
    let err = parse_writable_lanes(&["lane-99999999999999999999999:src".into()], 3).err().unwrap();
    assert_eq!(err.message(), "invalid lane id in --writable-lane: lane-99999999999999999999999");
    let err = parse_writable_lanes(&["lane-04:src".into()], 3).err().unwrap();
    assert_eq!(err.exit_code(), 1);
    assert_eq!(err.message(), "writable lane lane-04 exceeds lane count 3");
    let err = parse_writable_lanes(&["lane-00:src".into(), "bad".into()], 12).err().unwrap();
    assert_eq!(err.message(), "writable lane lane-00 exceeds lane count 12");
}

#[test]
fn generated_lane_ids_are_zero_padded() {
    let ids = lane_ids(12);
    assert_eq!(ids[0], "lane-01");
    assert_eq!(ids[8], "lane-09");
    assert_eq!(ids[9], "lane-10");
    assert_eq!(ids[11], "lane-12");
    assert_eq!(lane_ids(100)[99], "lane-100");
    assert!(lane_ids(0).is_empty());
    let accepted = parse_writable_lanes(&format!("{}:scope", ids[10]).split('|').map(String::from).collect::<Vec<_>>(), 12);
    assert!(accepted.is_ok());
}

#[test]
fn run_slug_has_six_hex_digits() {
    assert_eq!(run_slug_from("20260413-123000", 0xabc123), "20260413-123000-abc123");
    assert_eq!(run_slug_from("20260413-123000", 0x1f000005), "20260413-123000-000005");
    assert_eq!(session_name_for("s1"), "executainer-s1");
}

#[test]
fn fresh_run_slugs_end_in_hex() {
    let slug = build_run_slug().ok().expect("clock after the epoch");
    let (stamp, suffix) = slug.rsplit_once('-').unwrap();
    assert_eq!(suffix.len(), 6);
    assert!(suffix.chars().all(|c| c.is_ascii_hexdigit() && !c.is_ascii_uppercase()));
    assert_eq!(stamp.len(), 15);
    assert_eq!(&stamp[8..9], "-");
}

#[test]
fn shell_escape_quotes_single_quotes() {
    assert_eq!(shell_escape("/tmp/a b"), "'/tmp/a b'");
    assert_eq!(shell_escape("it's"), "'it'\\''s'");
    assert_eq!(shell_escape(""), "''");
    assert_eq!(launch_command("/x/lane-01.sh"), "zsh '/x/lane-01.sh'");
}

#[test]
fn read_only_script_runs_codex_exec() {
    let s = build_read_only_script("/w", "/p", "/o", "/s", "/d");
    assert_eq!(
        s,
        "#!/bin/zsh\nset +e\ncat '/p' | codex exec - --skip-git-repo-check -C '/w' -s read-only -o '/o' > '/s' 2>&1\nstatus=$?\necho \"$status\" > '/d'\nexit 0\n"
    );
}

#[test]
fn writable_script_records_scope() {
    let s = build_writable_script("/w", "/p", "/o", "/s", "/d", None);
    assert!(s.starts_with("#!/bin/zsh\necho \"[executainer] writable lane scope: .\" > '/s'\n"));
    assert!(s.contains("codex \"$(cat '/p')\" -C '/w' -s workspace-write -a on-request --no-alt-screen >> '/s' 2>&1\n"));
    assert!(s.ends_with("if [ -f '/o' ]; then\n  true\nelse\n  echo \"writable lane requires manual inspection\" > '/o'\nfi\nexit 0\n"));
    let scoped = build_writable_script("/w", "/p", "/o", "/s", "/d", Some("src/"));
    assert!(scoped.contains("writable lane scope: src/\""));
}

#[test]
fn lane_artifacts_follow_the_lane_mode() {
    let mut scopes = StrMap::new();
    scopes.insert("lane-02".to_string(), "src/".to_string());
    let m = new_run_manifest("r".into(), "t".into(), "/w".into(), 2, scopes, vec![], "executainer-r".into());
    let p1 = lane_prompt_for(&m, &"lane-01".to_string(), "Task");
    assert!(p1.contains("read-only lane"));
    let p2 = lane_prompt_for(&m, &"lane-02".to_string(), "Task");
    assert!(p2.contains("writable scope: src/"));
    let s2 = lane_script_for(&m, &"lane-02".to_string(), "/w", "/p", "/o", "/s", "/d");
    assert!(s2.contains("writable lane scope: src/"));
    let s1 = lane_script_for(&m, &"lane-01".to_string(), "/w", "/p", "/o", "/s", "/d");
    assert!(s1.contains("-s read-only"));
}

#[test]
fn waiting_stops_when_done_or_late() {
    assert!(keep_waiting(&vec![true, false], 10, 60_000));
    assert!(!keep_waiting(&vec![true, true], 10, 60_000));
    assert!(!keep_waiting(&vec![false], 60_001, 60_000));
    assert!(!keep_waiting(&vec![], 0, 60_000));
}

#[test]
fn inspect_summary_lists_the_run() {
    let mut m = new_run_manifest("r1".into(), "t0".into(), "/w".into(), 3, StrMap::new(), vec![], "executainer-r1".into());
    m.parse_status = ParseStatus::Failed;
    m.synthesis_status = SynthesisStatus::Blocked;
    m.conflict_status = ConflictStatus::Detected;
    assert_eq!(
        inspect_summary(&m),
        "run: r1\ncreated: t0\ncwd: /w\nlanes: 3\nparse: Failed\nsynthesis: Blocked\nconflict: Detected\nsession: executainer-r1\n"
    );
    m.session_name = None;
    assert!(inspect_summary(&m).ends_with("conflict: Detected\n"));
}

#[test]
fn tmux_session_plan_has_one_invocation_per_pane() {
    let plan = create_detached_session("s", "/w", 3);
    assert_eq!(plan.len(), 4);
    assert_eq!(plan[0], vec!["new-session", "-d", "-P", "-F", "#{pane_id}", "-s", "s", "-c", "/w"]);
    assert_eq!(plan[1], vec!["split-window", "-t", "s", "-P", "-F", "#{pane_id}", "-c", "/w"]);
    assert_eq!(plan[2], plan[1]);
    assert_eq!(plan[3], vec!["select-layout", "-t", "s", "tiled"]);
    assert_eq!(create_detached_session("s", "/w", 0).len(), 2);
    let panes = panes_from_outputs(vec!["%0".into(), "%1".into(), "".into()]);
    assert_eq!(panes, vec!["%0", "%1"]);
}

#[test]
fn tmux_invocations_and_outputs() {
    assert_eq!(send_keys("%1", "zsh 'x'"), vec!["send-keys", "-t", "%1", "zsh 'x'", "C-m"]);
    assert_eq!(capture_pane("%1"), vec!["capture-pane", "-p", "-t", "%1"]);
    assert_eq!(kill_session("s"), vec!["kill-session", "-t", "s"]);
    assert_eq!(has_session("s"), vec!["has-session", "-t", "s"]);
    assert_eq!(tmux_output(true, "  %3\n", String::new()).unwrap(), "%3");
    assert!(matches!(tmux_output(false, "", "no server".into()), Err(TmuxError::CommandFailed(e)) if e == "no server"));
}
