use pult_desktop::journal::{
    choose_state_dir, default_origin, drain_events, emit_never_journaled, exit_for, list_runs,
    list_runs_in,
    map_event_line, map_record, never_journaled_tail, platform_state_dir, repo_key, run_dir_for, run_dir_for_at,
    runs_root_at, sort_newest_first, state_dir, still_running, stop_target, summarize, synthesize_exit, to_summary,
    valid_run_id, wait_step, writer_alive, JournalRecord, Platform, RunMeta, RunSummary, Status,
    Stop, StopAction, StopInput, StopPhase, Tail, TailAction, TailInput, TailPhase, TailRegistry,
    WaitStep,
};
use pult_desktop::types::RunEvent;
use sha2::{Digest, Sha256};

/// A pid far above any real pid_max, so a probe can never hit a real process.
const DEAD_PID: u32 = 4_000_000_000;

fn sample_meta(run_id: &str, status: Status) -> RunMeta {
    RunMeta {
        schema: 1,
        run_id: run_id.to_string(),
        repo_dir: Some("/tmp/repo".to_string()),
        manifest: Some("/tmp/repo/pult.yaml".to_string()),
        command_id: "deploy".to_string(),
        command_title: "Deploy".to_string(),
        params: vec![],
        origin: "cli".to_string(),
        interactive: false,
        pult_version: "0.4.0".to_string(),
        pid: DEAD_PID,
        pgid: Some(4242),
        started_at: "2026-07-17T13:05:12.412Z".to_string(),
        status,
        exit_code: None,
        ended_at: None,
    }
}

fn record(kind: Option<&str>) -> JournalRecord {
    JournalRecord {
        kind: kind.map(|s| s.to_string()),
        stream: None,
        text: None,
        k: None,
        n: None,
        name: None,
        pct: None,
        code: None,
        stopped: None,
    }
}

#[test]
fn repo_key_matches_pult_and_is_stable_hex() {
    let key = repo_key("/tmp/demo");
    assert_eq!(key.len(), 16);
    assert!(key.bytes().all(|b| b.is_ascii_hexdigit()));
    assert_eq!(key, repo_key("/tmp/demo"));
    assert_ne!(key, repo_key("/tmp/demo2"));
    let digest = Sha256::digest(b"/tmp/demo");
    let expected: String = digest[..8].iter().map(|b| format!("{b:02x}")).collect();
    assert_eq!(key, expected);
}

#[test]
fn valid_run_id_accepts_uuids_and_dashed_ids_rejects_traversal() {
    assert!(valid_run_id("550e8400-e29b-41d4-a716-446655440000"));
    assert!(valid_run_id("desktop-supplied-id"));
    assert!(!valid_run_id("../x"));
    assert!(!valid_run_id("/tmp/evil"));
    assert!(!valid_run_id("a/b"));
    assert!(!valid_run_id(""));
    assert!(!valid_run_id(&"x".repeat(65)));
}

#[test]
fn valid_run_id_edges() {
    assert!(valid_run_id(&"x".repeat(64)));
    assert!(!valid_run_id("a.b"));
    assert!(!valid_run_id("é"));
    assert!(!valid_run_id("a b"));
}

#[test]
fn run_dir_for_at_rejects_path_escaping_ids() {
    let state = "/tmp/state";
    for bad in ["../x", "/tmp/evil", "a/b", ""] {
        assert!(
            run_dir_for_at(state, "/some/repo", bad, false).is_err(),
            "id {bad:?} should be rejected"
        );
    }
    assert_eq!(
        run_dir_for_at(state, "/some/repo", "../x", false).unwrap_err(),
        "`../x` isn't a valid run id"
    );
}

#[test]
fn run_dir_for_at_joins_under_the_repo_key() {
    let key = repo_key("/some/repo");
    assert_eq!(runs_root_at("/tmp/state", "/some/repo", false), format!("/tmp/state/repos/{key}/runs"));
    assert_eq!(
        run_dir_for_at("/tmp/state/", "/some/repo", "r-1", false).unwrap(),
        format!("/tmp/state/repos/{key}/runs/r-1")
    );
    let win_key = repo_key(r"C:\repo");
    assert_eq!(
        run_dir_for_at(r"C:\state", r"C:\repo", "r-1", true).unwrap(),
        format!(r"C:\state\repos\{win_key}\runs\r-1")
    );
}

#[test]
fn writer_alive_is_false_for_a_pid_far_above_any_real_process() {
    assert!(!writer_alive(DEAD_PID, true));
}

#[test]
fn writer_alive_is_false_for_pid_zero() {
    assert!(!writer_alive(0, true));
}

#[test]
fn writer_alive_is_true_for_init() {
    // Pid 1 always exists; a probe of another user's process reports EPERM,
    // which still counts as alive.
    assert!(writer_alive(1, true));
}

#[test]
fn default_origin_is_cli() {
    assert_eq!(default_origin(), "cli");
}

#[test]
fn to_summary_derives_crashed_from_dead_writer() {
    let summary = to_summary(sample_meta("r1", Status::Running), true);
    assert_eq!(summary.status, "crashed");

    let alive = summarize(sample_meta("r1", Status::Running), true);
    assert_eq!(alive.status, "running");
}

#[test]
fn to_summary_maps_every_terminal_status() {
    assert_eq!(to_summary(sample_meta("r1", Status::Exited), true).status, "exited");
    assert_eq!(to_summary(sample_meta("r1", Status::Stopped), true).status, "stopped");
    let s = summarize(sample_meta("r9", Status::Stopped), false);
    assert_eq!(s.status, "stopped");
    assert_eq!(s.run_id, "r9");
    assert_eq!(s.command_title, "Deploy");
}

fn summary(run_id: &str, started_at: &str) -> RunSummary {
    let mut m = sample_meta(run_id, Status::Exited);
    m.started_at = started_at.to_string();
    summarize(m, true)
}

#[test]
fn sort_newest_first_orders_by_start_and_is_stable() {
    let runs = vec![
        summary("older", "2026-01-01T00:00:00.000Z"),
        summary("newer", "2026-06-01T00:00:00.000Z"),
        summary("tie-a", "2026-03-01T00:00:00.000Z"),
        summary("tie-b", "2026-03-01T00:00:00.000Z"),
    ];
    let sorted = sort_newest_first(runs);
    let ids: Vec<&str> = sorted.iter().map(|r| r.run_id.as_str()).collect();
    assert_eq!(ids, vec!["newer", "tie-a", "tie-b", "older"]);
    assert!(sort_newest_first(vec![]).is_empty());
}

#[test]
fn map_record_maps_every_kind_and_skips_unknown() {
    let r1 = "r1".to_string();
    let mut line = record(Some("line"));
    line.stream = Some("stdout".to_string());
    line.text = Some("hi".to_string());
    assert!(matches!(
        map_record(line, &r1),
        Some(RunEvent::Line { run_id, stream, text, tail_gen: None })
            if run_id == "r1" && stream == "stdout" && text == "hi"
    ));

    let mut step = record(Some("step"));
    step.k = Some(1);
    step.n = Some(2);
    step.name = Some("build".to_string());
    assert!(matches!(
        map_record(step, &r1),
        Some(RunEvent::Step { k: 1, n: 2, name, .. }) if name == "build"
    ));

    let mut progress = record(Some("progress"));
    progress.pct = Some(50);
    assert!(matches!(
        map_record(progress, &r1),
        Some(RunEvent::Progress { pct: Some(50), text: None, .. })
    ));

    let mut progress2 = record(Some("progress"));
    progress2.text = Some("thinking".to_string());
    assert!(matches!(
        map_record(progress2, &r1),
        Some(RunEvent::Progress { pct: None, text: Some(t), .. }) if t == "thinking"
    ));

    let mut status = record(Some("status"));
    status.text = Some("verifying".to_string());
    assert!(matches!(
        map_record(status, &r1),
        Some(RunEvent::Status { text, .. }) if text == "verifying"
    ));

    assert!(map_record(record(Some("hologram")), &r1).is_none());
    assert!(map_record(record(None), &r1).is_none());
    assert!(map_record(record(Some("line")), &r1).is_none());
    assert!(map_record(record(Some("status")), &r1).is_none());

    let mut exit = record(Some("exit"));
    exit.code = Some(0);
    exit.stopped = Some(false);
    assert!(matches!(
        map_record(exit, &r1),
        Some(RunEvent::Exit { code: Some(0), stopped: false, crashed: false, .. })
    ));
    assert!(matches!(
        map_record(record(Some("exit")), &r1),
        Some(RunEvent::Exit { code: None, stopped: false, crashed: false, .. })
    ));
}

#[test]
fn map_record_narrows_integers_by_truncation() {
    let r1 = "r1".to_string();
    let mut progress = record(Some("progress"));
    progress.pct = Some(300);
    assert!(matches!(
        map_record(progress, &r1),
        Some(RunEvent::Progress { pct: Some(44), .. })
    ));
}

#[test]
fn map_event_line_reads_json_and_skips_what_is_not_a_record() {
    assert!(matches!(
        map_event_line(r#"{"ts":1,"kind":"line","stream":"stdout","text":"hi"}"#, "r1"),
        Some(RunEvent::Line { run_id, stream, text, tail_gen: None })
            if run_id == "r1" && stream == "stdout" && text == "hi"
    ));
    assert!(matches!(
        map_event_line(r#"{"kind":"step","k":1,"n":2,"name":"build"}"#, "r1"),
        Some(RunEvent::Step { k: 1, n: 2, name, .. }) if name == "build"
    ));
    // A field of the wrong JSON type counts as missing.
    assert!(map_event_line(r#"{"kind":"step","k":"1","n":2,"name":"build"}"#, "r1").is_none());
    assert!(matches!(
        map_event_line(r#"{"kind":"progress","pct":-1,"text":null}"#, "r1"),
        Some(RunEvent::Progress { pct: None, text: None, .. })
    ));
    assert!(matches!(
        map_event_line(r#"{"kind":"exit","code":-2,"stopped":true}"#, "r1"),
        Some(RunEvent::Exit { code: Some(-2), stopped: true, crashed: false, .. })
    ));
    assert!(map_event_line("not json", "r1").is_none());
    assert!(map_event_line("", "r1").is_none());
    assert!(map_event_line(r#"["kind","line"]"#, "r1").is_none());
}

fn journal(lines: &[&str]) -> Vec<u8> {
    let mut out = Vec::new();
    for l in lines {
        out.extend_from_slice(l.as_bytes());
        out.push(b'\n');
    }
    out
}

#[test]
fn drain_events_maps_every_kind_and_skips_unknown() {
    let buf = journal(&[
        r#"{"ts":1,"kind":"line","stream":"stdout","text":"hi"}"#,
        r#"{"ts":2,"kind":"step","k":1,"n":2,"name":"build"}"#,
        r#"{"ts":3,"kind":"progress","pct":50,"text":null}"#,
        r#"{"ts":4,"kind":"progress","pct":null,"text":"thinking"}"#,
        r#"{"ts":5,"kind":"status","text":"verifying"}"#,
        r#"{"ts":6,"kind":"hologram"}"#,
        r#"{"ts":7,"kind":"exit","code":0,"stopped":false}"#,
    ]);
    let (events, used) = drain_events(&buf, "r1").unwrap();
    assert_eq!(used, buf.len());
    assert_eq!(events.len(), 6, "the unknown `hologram` kind must be skipped: {events:?}");
    assert!(
        matches!(&events[0], RunEvent::Line { text, stream, .. } if text == "hi" && stream == "stdout")
    );
    assert!(matches!(&events[1], RunEvent::Step { k: 1, n: 2, name, .. } if name == "build"));
    assert!(matches!(&events[2], RunEvent::Progress { pct: Some(50), text: None, .. }));
    assert!(matches!(
        &events[3],
        RunEvent::Progress { pct: None, text: Some(t), .. } if t == "thinking"
    ));
    assert!(matches!(&events[4], RunEvent::Status { text, .. } if text == "verifying"));
    assert!(matches!(
        &events[5],
        RunEvent::Exit { code: Some(0), stopped: false, crashed: false, .. }
    ));
}

#[test]
fn drain_events_rewinds_a_torn_final_line_until_it_completes() {
    let mut file = journal(&[r#"{"ts":1,"kind":"line","stream":"stdout","text":"whole"}"#]);
    // A crash mid-write: no trailing newline yet.
    file.extend_from_slice(br#"{"ts":2,"kind":"line","stream":"stdout","text":"torn"#);
    let mut offset = 0usize;
    let (events, used) = drain_events(&file[offset..], "r1").unwrap();
    offset += used;
    assert_eq!(events.len(), 1, "the torn line must not be read yet: {events:?}");
    assert!(matches!(&events[0], RunEvent::Line { text, .. } if text == "whole"));

    // The torn line completes; a later pass from the rewound offset must
    // pick it up whole, not read it twice or skip it.
    file.extend_from_slice(b"-now-complete\"}\n");
    let (events2, used2) = drain_events(&file[offset..], "r1").unwrap();
    offset += used2;
    assert_eq!(offset, file.len());
    assert_eq!(events2.len(), 1);
    assert!(matches!(&events2[0], RunEvent::Line { text, .. } if text == "torn-now-complete"));
}

#[test]
fn drain_events_edges() {
    assert_eq!(drain_events(b"", "r1").unwrap().1, 0);
    // Trailing whitespace before the newline, including a CR, is trimmed.
    let (evs, used) = drain_events(b"{\"kind\":\"status\",\"text\":\"x\"} \r\n\n", "r1").unwrap();
    assert_eq!(used, 32);
    assert_eq!(evs.len(), 1);
    // Text that is not UTF-8 fails the read, in a complete line or in the torn rest.
    assert!(drain_events(b"{\"kind\":\"status\"}\n\xff\n", "r1").is_none());
    assert!(drain_events(b"{\"kind\":\"status\"}\n\xe2\x82", "r1").is_none());
}

#[test]
fn exit_for_derives_crash_and_stop() {
    let mut m = sample_meta("r1", Status::Running);
    m.exit_code = Some(3);
    assert!(matches!(
        exit_for("r1".to_string(), Some(&m), false),
        RunEvent::Exit { code: Some(3), stopped: false, crashed: true, .. }
    ));
    assert!(matches!(
        exit_for("r1".to_string(), Some(&m), true),
        RunEvent::Exit { crashed: false, .. }
    ));
    let s = sample_meta("r1", Status::Stopped);
    assert!(matches!(
        exit_for("r1".to_string(), Some(&s), true),
        RunEvent::Exit { stopped: true, crashed: false, code: None, .. }
    ));
    assert!(matches!(
        exit_for("r1".to_string(), None, true),
        RunEvent::Exit { code: None, stopped: false, crashed: true, .. }
    ));
}

#[test]
fn never_journaled_explains_then_fails() {
    let evs = emit_never_journaled("ghost-run");
    assert_eq!(evs.len(), 2);
    assert!(matches!(&evs[0], RunEvent::Line { stream, .. } if stream == "stderr"));
    assert!(matches!(
        &evs[1],
        RunEvent::Exit { code: None, stopped: false, crashed: false, run_id, .. } if run_id == "ghost-run"
    ));
}

fn line_event(text: &str) -> RunEvent {
    RunEvent::Line {
        run_id: "r1".to_string(),
        stream: "stdout".to_string(),
        text: text.to_string(),
        tail_gen: None,
    }
}

fn journaled_exit() -> RunEvent {
    RunEvent::Exit { run_id: "r1".to_string(), code: Some(0), stopped: false, crashed: false, tail_gen: None }
}

#[test]
fn tail_existing_run_replays_backlog_then_emits_journaled_exit() {
    let mut t = Tail::new("r1", 7);
    assert_eq!(t.next_action(), TailAction::OpenEvents);
    assert!(matches!(
        t.step(TailInput::Opened).as_slice(),
        [RunEvent::TailStart { run_id, tail_gen: 7 }] if run_id == "r1"
    ));
    assert_eq!(t.next_action(), TailAction::Drain);
    let out = t.step(TailInput::Drained(vec![line_event("a"), line_event("b"), journaled_exit()]));
    assert_eq!(out.len(), 3);
    assert!(matches!(&out[0], RunEvent::Line { text, tail_gen: Some(7), .. } if text == "a"));
    assert!(matches!(&out[1], RunEvent::Line { text, tail_gen: Some(7), .. } if text == "b"));
    assert!(matches!(
        &out[2],
        RunEvent::Exit { code: Some(0), stopped: false, crashed: false, tail_gen: Some(7), .. }
    ));
    assert_eq!(t.next_action(), TailAction::ObserveMeta);
    let mut meta = sample_meta("r1", Status::Exited);
    meta.exit_code = Some(0);
    t.step(TailInput::Observed { meta: Some(meta), alive: false });
    assert_eq!(t.next_action(), TailAction::Drain);
    assert!(t.step(TailInput::Drained(vec![])).is_empty());
    assert_eq!(t.phase, TailPhase::Done);
    assert_eq!(t.next_action(), TailAction::Finished);
}

#[test]
fn follow_events_drains_once_more_after_observing_terminal_state() {
    let mut t = Tail::new("r1", 7);
    t.step(TailInput::Opened);
    t.step(TailInput::Drained(vec![line_event("hello")]));
    t.step(TailInput::Observed { meta: Some(sample_meta("r1", Status::Exited)), alive: true });
    assert_eq!(t.next_action(), TailAction::Drain);
    let out = t.step(TailInput::Drained(vec![journaled_exit()]));
    assert!(matches!(out.last(), Some(RunEvent::Exit { .. })));
    assert_eq!(t.next_action(), TailAction::Finished);
}

#[test]
fn follow_events_polls_via_sleep_while_writer_is_alive_and_running() {
    let mut t = Tail::new("r1", 7);
    t.step(TailInput::Opened);
    let mut sleeps = 0;
    for _ in 0..2 {
        t.step(TailInput::Drained(vec![]));
        t.step(TailInput::Observed { meta: Some(sample_meta("r1", Status::Running)), alive: true });
        assert_eq!(t.next_action(), TailAction::Sleep);
        t.step(TailInput::Slept);
        sleeps += 1;
    }
    t.step(TailInput::Drained(vec![]));
    t.step(TailInput::Observed { meta: Some(sample_meta("r1", Status::Exited)), alive: true });
    let out = t.step(TailInput::Drained(vec![journaled_exit()]));
    assert_eq!(sleeps, 2);
    assert_eq!(out.len(), 1);
    assert_eq!(t.phase, TailPhase::Done);
}

#[test]
fn tail_existing_run_synthesizes_a_crash_exit_when_the_writer_is_dead() {
    let mut t = Tail::new("crashed-run", 7);
    t.step(TailInput::Opened);
    t.step(TailInput::Drained(vec![]));
    let meta = sample_meta("crashed-run", Status::Running);
    t.step(TailInput::Observed { meta: Some(meta.clone()), alive: false });
    t.step(TailInput::Drained(vec![]));
    assert_eq!(t.next_action(), TailAction::ReadMetaForExit);
    let out = t.step(TailInput::MetaRead { meta: Some(meta), alive: false });
    assert!(matches!(
        out.as_slice(),
        [RunEvent::Exit { crashed: true, code: None, stopped: false, tail_gen: Some(7), .. }]
    ));
    assert_eq!(t.phase, TailPhase::Done);
}

#[test]
fn tail_synthesizes_exit_when_the_events_file_is_missing() {
    let mut t = Tail::new("r1", 7);
    assert!(matches!(t.step(TailInput::OpenFailed).as_slice(), [RunEvent::TailStart { .. }]));
    assert_eq!(t.next_action(), TailAction::ReadMetaForExit);
    let out = t.step(TailInput::MetaRead { meta: Some(sample_meta("r1", Status::Stopped)), alive: true });
    assert!(matches!(
        out.as_slice(),
        [RunEvent::Exit { stopped: true, crashed: false, tail_gen: Some(7), .. }]
    ));
}

#[test]
fn tail_ignores_reports_that_answer_nothing_pending() {
    let mut t = Tail::new("r1", 7);
    assert!(t.step(TailInput::Slept).is_empty());
    assert!(t.step(TailInput::Drained(vec![line_event("x")])).is_empty());
    assert_eq!(t.phase, TailPhase::Opening);
}

#[test]
fn tail_after_a_failed_drain_still_ends_in_an_exit() {
    let mut t = Tail::new("r1", 7);
    t.step(TailInput::Opened);
    t.step(TailInput::DrainFailed);
    let out = t.step(TailInput::MetaRead { meta: None, alive: false });
    assert!(matches!(out.as_slice(), [RunEvent::Exit { crashed: true, .. }]));
}

#[test]
fn tail_registry_claim_is_a_no_op_the_second_time() {
    let mut tails = TailRegistry::new();
    assert!(tails.claim("r1"), "first claim should succeed");
    assert!(!tails.claim("r1"), "a run already being tailed must not be claimed twice");
    tails.release("r1");
    assert!(tails.claim("r1"), "after release, the run id can be claimed again");
    assert!(tails.claim("r2"));
    assert!(tails.is_claimed("r1") && tails.is_claimed("r2"));
    tails.release("r2");
    assert!(!tails.is_claimed("r2"));
    assert!(tails.is_claimed("r1"));
}

#[test]
fn stop_target_requires_meta_and_pgid() {
    assert_eq!(
        stop_target(None).err().unwrap(),
        "That run has already finished or was never journaled."
    );
    let mut m = sample_meta("r1", Status::Running);
    m.pgid = None;
    assert_eq!(
        stop_target(Some(&m)).err().unwrap(),
        "This run has no recorded process group to stop (older pult binary?)."
    );
    m.pgid = Some(77);
    let t = stop_target(Some(&m)).ok().unwrap();
    assert_eq!((t.pid, t.pgid), (DEAD_PID, 77));
}

#[test]
fn stop_terminates_then_kills_only_a_writer_alive_after_the_grace_period() {
    let m = sample_meta("r1", Status::Running);
    let mut s = Stop::new(stop_target(Some(&m)).ok().unwrap());
    assert_eq!(s.next_action(), StopAction::SignalTerm(4242));
    s.step(StopInput::Signalled);
    assert_eq!(s.next_action(), StopAction::ProbeWriter);
    s.step(StopInput::Probed { alive: true, past_deadline: false });
    assert_eq!(s.next_action(), StopAction::Sleep);
    s.step(StopInput::Slept);
    s.step(StopInput::Probed { alive: true, past_deadline: true });
    assert_eq!(s.next_action(), StopAction::ProbeWriter);
    s.step(StopInput::Probed { alive: true, past_deadline: true });
    assert_eq!(s.next_action(), StopAction::SignalKill(4242));
    s.step(StopInput::Signalled);
    assert_eq!(s.phase, StopPhase::Done);

    let mut quick = Stop::new(stop_target(Some(&m)).ok().unwrap());
    quick.step(StopInput::Signalled);
    quick.step(StopInput::Probed { alive: false, past_deadline: false });
    assert_eq!(quick.next_action(), StopAction::Finished);
}

#[test]
fn choose_state_dir_prefers_the_override() {
    assert_eq!(
        choose_state_dir(Some("/s".to_string()), Some("/d".to_string())),
        Some("/s".to_string())
    );
    assert_eq!(choose_state_dir(Some(String::new()), Some("/d".to_string())), None);
    assert_eq!(choose_state_dir(None, Some("/d".to_string())), Some("/d".to_string()));
    assert_eq!(choose_state_dir(None, None), None);
}

#[test]
fn list_runs_in_sorts_newest_first_and_skips_unreadable_dirs() {
    let mut older = sample_meta("older", Status::Exited);
    older.started_at = "2026-01-01T00:00:00.000Z".to_string();
    let mut newer = sample_meta("newer", Status::Running);
    newer.started_at = "2026-06-01T00:00:00.000Z".to_string();
    // `None`: a directory with no `meta.json`, or one that does not parse.
    let runs = list_runs_in(vec![Some(older), None, Some(newer), None], true);
    assert_eq!(runs.len(), 2, "garbage dirs must be skipped: {runs:?}");
    assert_eq!(runs[0].run_id, "newer");
    assert_eq!(runs[1].run_id, "older");
    // The running one's writer (a pid far above any real one) is dead.
    assert_eq!(runs[0].status, "crashed");
    assert_eq!(runs[1].status, "exited");
}

#[test]
fn list_runs_in_is_empty_for_a_root_that_does_not_exist() {
    // A root that does not exist has no entries to read.
    assert!(list_runs_in(vec![], true).is_empty());
    assert!(list_runs_in(vec![None, None], true).is_empty());
}

#[test]
fn platform_state_dir_follows_each_platform() {
    assert_eq!(
        platform_state_dir(Platform::MacOs, Some("/Users/a/Library/Application Support".into()), None),
        Some("/Users/a/Library/Application Support/pult/state".to_string())
    );
    assert_eq!(
        platform_state_dir(Platform::Windows, Some(r"C:\Users\a\AppData\Local".into()), None),
        Some(r"C:\Users\a\AppData\Local\pult\state".to_string())
    );
    assert_eq!(
        platform_state_dir(Platform::OtherUnix, Some("/home/a/.local/state".into()), Some("/home/a".into())),
        Some("/home/a/.local/state/pult".to_string())
    );
    assert_eq!(
        platform_state_dir(Platform::OtherUnix, None, Some("/home/a".into())),
        Some("/home/a/.local/state/pult".to_string())
    );
    assert_eq!(platform_state_dir(Platform::OtherUnix, None, None), None);
    assert_eq!(platform_state_dir(Platform::MacOs, None, Some("/Users/a".into())), None);
}

#[test]
fn state_dir_prefers_the_override() {
    assert_eq!(state_dir(Some("/s".to_string()), Platform::OtherUnix), Some("/s".to_string()));
    assert_eq!(state_dir(Some(String::new()), Platform::MacOs), None);
}

#[test]
fn run_dir_for_needs_a_state_dir() {
    assert_eq!(
        run_dir_for(None, "/repo", "r1", false).err().unwrap(),
        "No run journal is available on this system"
    );
    let root = runs_root_at("/state", "/repo", false);
    assert_eq!(run_dir_for(Some("/state".to_string()), "/repo", "r1", false).ok().unwrap(), format!("{root}/r1"));
    assert!(run_dir_for(Some("/state".to_string()), "/repo", "../x", false).is_err());
}

#[test]
fn wait_step_prefers_an_appeared_journal() {
    assert_eq!(wait_step(true, false), WaitStep::Appeared);
    assert_eq!(wait_step(true, true), WaitStep::Appeared);
    assert_eq!(wait_step(false, true), WaitStep::GaveUp);
    assert_eq!(wait_step(false, false), WaitStep::Poll);
}

fn event_run_id(e: &RunEvent) -> &str {
    match e {
        RunEvent::TailStart { run_id, .. }
        | RunEvent::Line { run_id, .. }
        | RunEvent::Step { run_id, .. }
        | RunEvent::Progress { run_id, .. }
        | RunEvent::Status { run_id, .. }
        | RunEvent::Exit { run_id, .. } => run_id,
    }
}

#[test]
fn events_carry_their_run_id() {
    let buf = journal(&[
        r#"{"kind":"line","stream":"stderr","text":"x"}"#,
        r#"{"kind":"status","text":"y"}"#,
        r#"{"kind":"exit","code":1}"#,
    ]);
    let (events, _) = drain_events(&buf, "run-7").unwrap();
    assert_eq!(events.len(), 3);
    assert!(events.iter().all(|e| event_run_id(e) == "run-7"));
    assert_eq!(event_run_id(&exit_for("run-8".to_string(), None, false)), "run-8");
}

#[test]
fn still_running_needs_a_running_meta_and_a_live_writer() {
    assert!(!still_running(None, true));
    assert!(!still_running(Some(&sample_meta("r1", Status::Running)), true));
    let mut live = sample_meta("r1", Status::Running);
    live.pid = 1;
    assert!(still_running(Some(&live), true));
    live.status = Status::Exited;
    assert!(!still_running(Some(&live), true));
}

/// Drive the waiting decision over a sequence of looks, each saying whether
/// the events file exists and whether the deadline has passed; returns the
/// outcome and how many polls (sleeps) it took.
fn wait_over(looks: &[(bool, bool)]) -> (WaitStep, usize) {
    let mut polls = 0;
    for &(exists, past) in looks {
        match wait_step(exists, past) {
            WaitStep::Poll => polls += 1,
            done => return (done, polls),
        }
    }
    (WaitStep::Poll, polls)
}

#[test]
fn wait_for_run_dir_at_times_out_when_nothing_ever_appears() {
    let (outcome, polls) = wait_over(&[(false, false), (false, false), (false, true)]);
    assert_eq!(outcome, WaitStep::GaveUp);
    assert_eq!(polls, 2);
}

#[test]
fn wait_for_run_dir_at_finds_a_dir_that_appears_mid_wait() {
    let (outcome, polls) = wait_over(&[(false, false), (false, false), (true, false)]);
    assert_eq!(outcome, WaitStep::Appeared);
    assert_eq!(polls, 2);
}

#[test]
fn tail_run_blocking_at_synthesizes_a_failed_exit_when_pult_never_journals() {
    let (outcome, _) = wait_over(&[(false, false), (false, true)]);
    assert_eq!(outcome, WaitStep::GaveUp);
    let emitted = emit_never_journaled("ghost-run");
    assert!(
        emitted
            .iter()
            .any(|e| matches!(e, RunEvent::Line { stream, .. } if stream == "stderr")),
        "should explain why nothing showed up: {emitted:?}"
    );
    match emitted.last() {
        Some(RunEvent::Exit { code: None, stopped: false, .. }) => {}
        other => panic!("expected a failed synthesized Exit, got: {other:?}"),
    }
}

#[test]
fn tail_existing_run_synthesizes_exit_when_terminal_meta_has_no_exit_line() {
    let mut meta = sample_meta("no-exit-line", Status::Stopped);
    meta.exit_code = None;
    let mut t = Tail::new("no-exit-line", 7);
    t.step(TailInput::Opened);
    assert!(t.step(TailInput::Drained(vec![])).is_empty());
    t.step(TailInput::Observed { meta: Some(meta.clone()), alive: false });
    assert!(t.step(TailInput::Drained(vec![])).is_empty());
    let emitted = t.step(TailInput::MetaRead { meta: Some(meta), alive: false });
    match emitted.last() {
        Some(RunEvent::Exit { stopped, crashed, .. }) => {
            assert!(*stopped);
            assert!(!*crashed);
        }
        other => panic!("expected a synthesized Exit, got: {other:?}"),
    }
}

#[test]
fn tail_run_blocking_at_tails_a_run_created_after_a_short_delay() {
    let (outcome, _) = wait_over(&[(false, false), (false, false), (true, false)]);
    assert_eq!(outcome, WaitStep::Appeared);
    let buf = journal(&[
        r#"{"ts":1,"kind":"line","stream":"stdout","text":"hi"}"#,
        r#"{"ts":2,"kind":"exit","code":0,"stopped":false}"#,
    ]);
    let mut meta = sample_meta("delayed-run", Status::Exited);
    meta.exit_code = Some(0);
    let mut t = Tail::new("delayed-run", 7);
    let mut emitted = Vec::new();
    emitted.extend(t.step(TailInput::Opened));
    let (events, _) = drain_events(&buf, "delayed-run").unwrap();
    emitted.extend(t.step(TailInput::Drained(events)));
    emitted.extend(t.step(TailInput::Observed { meta: Some(meta), alive: false }));
    emitted.extend(t.step(TailInput::Drained(vec![])));
    assert_eq!(t.next_action(), TailAction::Finished);
    assert!(matches!(&emitted[0], RunEvent::TailStart { tail_gen: 7, .. }));
    assert!(matches!(&emitted[1], RunEvent::Line { text, tail_gen: Some(7), .. } if text == "hi"));
    match emitted.last() {
        Some(RunEvent::Exit { code: Some(0), crashed: false, .. }) => {}
        other => panic!("expected the journaled Exit, got: {other:?}"),
    }
}

#[test]
fn list_runs_reads_the_repos_runs_directory_only_when_there_is_a_journal() {
    assert!(list_runs(None, "/repo", false, true, |_root| panic!("no journal: nothing to read")).is_empty());
    let expected_root = runs_root_at("/state", "/repo", false);
    let mut newer = sample_meta("newer", Status::Exited);
    newer.started_at = "2026-06-01T00:00:00.000Z".to_string();
    let older = {
        let mut m = sample_meta("older", Status::Exited);
        m.started_at = "2026-01-01T00:00:00.000Z".to_string();
        m
    };
    let runs = list_runs(Some("/state".to_string()), "/repo", false, true, |root| {
        assert_eq!(root, expected_root);
        vec![Some(older), None, Some(newer)]
    });
    let ids: Vec<&str> = runs.iter().map(|r| r.run_id.as_str()).collect();
    assert_eq!(ids, vec!["newer", "older"]);
}

#[test]
fn a_failed_read_after_a_journaled_exit_adds_no_second_exit() {
    let mut t = Tail::new("r1", 3);
    let mut emitted = t.step(TailInput::Opened);
    emitted.extend(t.step(TailInput::Drained(vec![line_event("a"), journaled_exit()])));
    emitted.extend(t.step(TailInput::Observed { meta: Some(sample_meta("r1", Status::Exited)), alive: false }));
    emitted.extend(t.step(TailInput::DrainFailed));
    assert_eq!(t.phase, TailPhase::Done);
    assert_eq!(t.next_action(), TailAction::Finished);
    let exits = emitted.iter().filter(|e| matches!(e, RunEvent::Exit { .. })).count();
    assert_eq!(exits, 1);
}

#[test]
fn every_emission_of_a_tail_carries_its_generation() {
    let mut t = Tail::new("r1", 42);
    let mut emitted = t.step(TailInput::Opened);
    emitted.extend(t.step(TailInput::Drained(vec![line_event("a")])));
    emitted.extend(t.step(TailInput::Observed { meta: None, alive: false }));
    emitted.extend(t.step(TailInput::Drained(vec![])));
    emitted.extend(t.step(TailInput::MetaRead { meta: None, alive: false }));
    assert!(matches!(&emitted[0], RunEvent::TailStart { tail_gen: 42, .. }));
    assert_eq!(emitted.iter().filter(|e| matches!(e, RunEvent::TailStart { .. })).count(), 1);
    for e in &emitted[1..] {
        match e {
            RunEvent::Line { tail_gen, .. } | RunEvent::Exit { tail_gen, .. } => {
                assert_eq!(*tail_gen, Some(42))
            }
            other => panic!("unexpected {other:?}"),
        }
    }
}

#[test]
fn never_journaled_tail_is_fenced() {
    let evs = never_journaled_tail("ghost-run", 5);
    assert_eq!(evs.len(), 3);
    assert!(matches!(&evs[0], RunEvent::TailStart { run_id, tail_gen: 5 } if run_id == "ghost-run"));
    assert!(matches!(&evs[1], RunEvent::Line { stream, tail_gen: Some(5), .. } if stream == "stderr"));
    assert!(matches!(&evs[2], RunEvent::Exit { code: None, tail_gen: Some(5), .. }));
}

#[test]
fn off_unix_every_writer_counts_as_alive() {
    assert!(writer_alive(0, false));
    assert!(writer_alive(DEAD_PID, false));
    assert!(still_running(Some(&sample_meta("r1", Status::Running)), false));
    assert!(!still_running(Some(&sample_meta("r1", Status::Exited)), false));
    assert_eq!(to_summary(sample_meta("r1", Status::Running), false).status, "running");
    assert!(matches!(
        synthesize_exit("r1", Some(&sample_meta("r1", Status::Running)), false),
        RunEvent::Exit { crashed: false, .. }
    ));
    assert!(matches!(
        synthesize_exit("r1", Some(&sample_meta("r1", Status::Running)), true),
        RunEvent::Exit { crashed: true, .. }
    ));
}
