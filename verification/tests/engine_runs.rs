//! Scheduling, single jobs, marker scans, reports and termination.

use update_agents::bytes::{append_capped, PathBytes};
use update_agents::clock::{rfc3339_utc, utc_timestamp, TimeSpan};
use update_agents::job::{
    describe_exit, marker_message, run_job, run_phase, Exit, JobRecord, JobStep, PhaseEnd, Task,
    EXCERPT_BYTES,
};
use update_agents::marker::{begin_scan, MAX_MARKER_BYTES};
use update_agents::model::{CommandSpec, Job, Preflight, RunState, Status, ToolSpec};
use update_agents::number::{hex_text, parse_signed};
use update_agents::process::{
    command_program, group_alive, log_header, neutral_cwd, stat_state_and_pgrp, terminate,
    StatEntry, TermAction, TermStage, Termination,
};
use update_agents::report::{argv_of, build_report, summary};
use update_agents::schedule::{
    claim, drain_or_wait, file_component, finalize, finish, initial_jobs, is_settled, outcome,
    outcome_or_lost, run_failure, tool_file, wait_result, worker_count, worker_loop, JoinReply,
    Outcome, WorkerStep,
};
use update_agents::terminal::{
    log_excerpt, sanitize_terminal, tail, tail_start, version_in,
};

fn at(secs: u64) -> TimeSpan {
    TimeSpan { secs, nanos: 0 }
}

fn cmd(program: &str, args: &[&str]) -> CommandSpec {
    CommandSpec {
        program: program.to_string(),
        args: args.iter().map(|a| a.to_string()).collect(),
    }
}

fn spec(id: &str, resource: &str) -> ToolSpec {
    ToolSpec {
        id: id.to_string(),
        label: id.to_string(),
        update: cmd("/bin/sh", &["-c", "true"]),
        version: None,
        resource: resource.to_string(),
        version_line: 0,
        failure_contains: Vec::new(),
        preflight: Preflight::Ready,
    }
}

fn run_state(specs: Vec<ToolSpec>) -> RunState {
    let dir = PathBytes::from_text("/r");
    RunState {
        jobs: initial_jobs(specs, &dir),
        started: at(0),
        done: false,
        run_dir: dir,
    }
}

fn ended(status: Status) -> Outcome {
    Outcome {
        status,
        message: String::new(),
        before: String::new(),
        after: String::new(),
        exit_code: Some(0),
    }
}

fn exited(code: i32) -> PhaseEnd {
    PhaseEnd::Exited(Exit {
        code: Some(code),
        signal: None,
    })
}

/// What the outside world does for a job.
struct World {
    version_output: &'static str,
    update: fn() -> PhaseEnd,
    log: Vec<u8>,
    chunk: usize,
    cancelled: bool,
}

fn scan(markers: &Vec<String>, log: &[u8], chunk: usize) -> Result<Option<String>, String> {
    let Some(mut scan) = begin_scan(markers)? else {
        return Ok(None);
    };
    for part in log.chunks(chunk) {
        if let Some(marker) = scan.feed(part) {
            return Ok(Some(marker));
        }
    }
    Ok(None)
}

fn play(tool: &ToolSpec, world: &World) -> (Vec<Task>, Outcome) {
    let mut rec = JobRecord::new();
    let mut tasks = Vec::new();
    loop {
        match run_job(tool, at(30), &rec) {
            JobStep::Done(outcome) => return (tasks, outcome),
            JobStep::Perform(task) => {
                tasks.push(task);
                let output = Some(Ok(world.version_output.as_bytes().to_vec()));
                match task {
                    Task::ProbeBefore => rec.before = Some(exited(0)),
                    Task::ReadBefore => rec.before_output = output,
                    Task::CheckBefore => rec.cancelled_before = Some(world.cancelled),
                    Task::Update => rec.update = Some((world.update)()),
                    Task::ScanLog => {
                        rec.scan = Some(scan(&tool.failure_contains, &world.log, world.chunk))
                    }
                    Task::ReadTail => {
                        let start = tail_start(world.log.len() as u64, EXCERPT_BYTES) as usize;
                        rec.log_tail = Some(Some(world.log[start..].to_vec()));
                    }
                    Task::CheckAfter => rec.cancelled_after = Some(false),
                    Task::ProbeAfter => rec.after = Some(exited(0)),
                    Task::ReadAfter => rec.after_output = output,
                }
            }
        }
    }
}

fn world() -> World {
    World {
        version_output: "",
        update: || exited(0),
        log: b"done\n".to_vec(),
        chunk: 65536,
        cancelled: false,
    }
}

#[test]
fn same_resource_serializes() {
    let mut state = run_state(vec![spec("a", "shared"), spec("b", "shared")]);
    assert_eq!(claim(&mut state, false, at(1)), Some(0));
    assert_eq!(state.jobs[0].status, Status::Running);
    assert_eq!(state.jobs[0].started, Some(at(1)));
    assert_eq!(claim(&mut state, false, at(2)), None, "the lease is held");
    assert!(!drain_or_wait(&mut state, false));
    finalize(&mut state, 0, ended(Status::Succeeded), at(4));
    assert_eq!(state.jobs[0].elapsed, at(3));
    assert_eq!(claim(&mut state, false, at(5)), Some(1));
    finalize(&mut state, 1, ended(Status::Failed), at(6));
    assert!(drain_or_wait(&mut state, false));
    assert!(is_settled(&state.jobs));
}

#[test]
fn independent_resources_overlap() {
    let mut state = run_state(vec![spec("a", "x"), spec("b", "y"), spec("c", ""), spec("d", "")]);
    for i in 0..4 {
        assert_eq!(claim(&mut state, false, at(1)), Some(i));
    }
    assert_eq!(claim(&mut state, false, at(1)), None);
}

#[test]
fn versions_follow_version_line() {
    let mut one = spec("v", "vres");
    one.version = Some(cmd("/bin/sh", &["-c", "echo meta; echo 1.2.3"]));
    one.version_line = 1;
    let mut w = world();
    w.version_output = "meta\n1.2.3\n";
    let (tasks, outcome) = play(&one, &w);
    assert_eq!(outcome.status, Status::Succeeded);
    assert_eq!(outcome.before, "1.2.3", "second nonempty line must be picked");
    assert_eq!(outcome.after, "1.2.3");
    assert_eq!(outcome.exit_code, Some(0));
    assert_eq!(
        tasks,
        vec![
            Task::ProbeBefore,
            Task::ReadBefore,
            Task::CheckBefore,
            Task::Update,
            Task::ScanLog,
            Task::CheckAfter,
            Task::ProbeAfter,
            Task::ReadAfter
        ]
    );
    // A missing line is noted, never made up.
    one.version_line = 2;
    let (_, outcome) = play(&one, &w);
    assert_eq!(outcome.before, "");
    assert_eq!(
        outcome.message,
        "before version: no nonempty output line at index 2; \
         after version: no nonempty output line at index 2"
    );
}

#[test]
fn cancel_stops_running_and_queued() {
    let mut state = run_state(vec![spec("long", "lres"), spec("queued", "qres")]);
    assert_eq!(claim(&mut state, false, at(0)), Some(0));
    assert_eq!(claim(&mut state, true, at(1)), None, "nothing starts any more");
    assert!(!drain_or_wait(&mut state, true), "a job is still running");
    finalize(&mut state, 0, ended(Status::Cancelled), at(2));
    assert!(drain_or_wait(&mut state, true));
    assert_eq!(state.jobs[1].status, Status::Cancelled);
    assert_eq!(state.jobs[1].message, "cancelled before start");
    assert_eq!(state.jobs[1].started, None, "queued job must never start");
    finish(&mut state, at(3));
    assert_eq!(state.jobs[0].status, Status::Cancelled);
    assert_eq!(state.jobs[1].status, Status::Cancelled);
    assert_eq!(state.jobs[1].elapsed, at(0));
    assert!(state.done);
    let report = build_report(&state, &PathBytes::from_text("/r"), "", 0, 3);
    assert_eq!(report.counts.cancelled, 2);
    assert!(
        report.jobs.iter().all(|job| job.status == Status::Cancelled),
        "cancelled records are persisted"
    );
    // A job that is cancelled before its update does not update.
    let mut w = world();
    w.cancelled = true;
    let (tasks, outcome) = play(&spec("a", "r"), &w);
    assert_eq!(tasks, vec![Task::CheckBefore]);
    assert_eq!(
        (outcome.status, outcome.message.as_str(), outcome.exit_code),
        (Status::Cancelled, "cancelled", None)
    );
}

#[test]
fn spawn_failure_is_persisted() {
    let mut missing = spec("missing", "mres");
    missing.update.program = "/nonexistent/update-agents-missing-binary".to_string();
    let mut w = world();
    w.update = || PhaseEnd::Failed("No such file".to_string());
    let (_, outcome) = play(&missing, &w);
    assert_eq!(outcome.status, Status::Failed);
    assert_eq!(
        outcome.message,
        "failed to start /nonexistent/update-agents-missing-binary: No such file"
    );
    let mut state = run_state(vec![missing, spec("other", "ores")]);
    finalize(&mut state, 0, outcome, at(1));
    finalize(&mut state, 1, ended(Status::Succeeded), at(1));
    finish(&mut state, at(2));
    let report = build_report(&state, &PathBytes::from_text("/r"), "then", 10, 12);
    assert_eq!(report.jobs[0].status, Status::Failed);
    assert_eq!(report.jobs[1].status, Status::Succeeded);
    assert_eq!((report.counts.failed, report.counts.succeeded), (1, 1));
    assert_eq!(report.counts.total, 2);
    assert_eq!(report.total_secs, 2);
    assert_eq!(report.started, "then");
    assert_eq!(report.finished, "1970-01-01T00:00:12Z");
    assert_eq!(
        report.jobs[0].update_argv,
        vec!["/nonexistent/update-agents-missing-binary", "-c", "true"]
    );
    assert_eq!(report.jobs[0].log, "/r/missing.log");
    assert!(report.jobs[0].before_log.is_none());
}

#[test]
fn blocked_jobs_never_execute() {
    let mut blocked = spec("blk", "bres");
    blocked.preflight = Preflight::Blocked("proxy running".to_string());
    let mut state = run_state(vec![blocked]);
    assert_eq!(state.jobs[0].status, Status::Blocked);
    assert_eq!(state.jobs[0].message, "proxy running");
    assert_eq!(claim(&mut state, false, at(0)), None);
    assert!(drain_or_wait(&mut state, false));
    finish(&mut state, at(1));
    assert_eq!(state.jobs[0].status, Status::Blocked);
    assert_eq!(state.jobs[0].exit_code, None);
    assert_eq!(state.jobs[0].before, "");
    assert_eq!(state.jobs[0].after, "");
    assert_eq!((state.jobs[0].started, state.jobs[0].elapsed), (None, at(0)));
    assert!(state.done);
    // Closing a closed run changes nothing.
    finish(&mut state, at(9));
    assert_eq!(state.jobs[0].status, Status::Blocked);
    assert_eq!(state.jobs[0].elapsed, at(0));
    // A reason is cleaned, whatever it holds.
    let mut odd = spec("odd", "r");
    odd.preflight = Preflight::Skipped("no \u{1b}é".to_string());
    assert_eq!(run_state(vec![odd]).jobs[0].message, "no é");
}

#[test]
fn a_run_is_waited_for_once() {
    assert_eq!(wait_result(Some(JoinReply::Returned(Ok(())))), Ok(()));
    assert_eq!(
        wait_result(Some(JoinReply::Returned(Err("x".to_string())))),
        Err("x".to_string())
    );
    assert_eq!(
        wait_result(Some(JoinReply::Panicked)),
        Err("engine scheduler panicked".to_string())
    );
    assert_eq!(wait_result(None), Ok(()));
}

#[test]
fn skipped_job_executes_nothing_and_ready_peer_succeeds() {
    let mut ghost = spec("ghost", "shared");
    ghost.version = Some(cmd("/bin/sh", &["-c", "echo 0.0.0"]));
    ghost.preflight = Preflight::Skipped("executable 'ghost' not found".to_string());
    let mut state = run_state(vec![ghost, spec("live", "shared")]);
    assert_eq!(claim(&mut state, false, at(0)), Some(1));
    finalize(&mut state, 1, ended(Status::Succeeded), at(1));
    assert!(drain_or_wait(&mut state, false));
    finish(&mut state, at(2));
    let report = build_report(&state, &PathBytes::from_text("/r"), "", 0, 0);
    assert_eq!(report.jobs[0].status, Status::Skipped);
    assert_eq!(report.jobs[1].status, Status::Succeeded);
    assert_eq!(report.counts.skipped, 1);
    assert_eq!(report.counts.succeeded, 1);
    assert_eq!(report.counts.blocked, 0);
    assert_eq!(report.counts.failed, 0);
    assert_eq!(report.counts.unfinished, 0);
    assert_eq!(
        report.jobs[0].before_log.as_deref(),
        Some("/r/ghost.before.log")
    );
    assert_eq!(
        report.jobs[0].after_log.as_deref(),
        Some("/r/ghost.after.log")
    );
}

#[test]
fn failure_marker_flags_false_success() {
    // Marker far before the end: only a scan of the whole log can see it.
    let mut false_success = spec("kilo-like", "kres");
    false_success.failure_contains = vec!["Upgrade failed".to_string()];
    let mut w = world();
    w.log = b"Upgrade failed\n".to_vec();
    w.log.extend(b"x\n".repeat(160_000));
    w.log.extend_from_slice(b"finished\n");
    let (_, outcome) = play(&false_success, &w);
    let failed = outcome;
    assert_eq!(failed.status, Status::Failed);
    assert_eq!(failed.exit_code, Some(0), "exit code stays truthful");
    assert_eq!(
        failed.message,
        "update matched failure marker \"Upgrade failed\" despite exit 0: finished"
    );
    // Wrong case: markers are case-sensitive literals, so this succeeds.
    let mut case_probe = spec("case-ok", "cres");
    case_probe.failure_contains = vec!["upgrade FAILED".to_string()];
    let mut w = world();
    w.log = b"Upgrade failed\n".to_vec();
    let (_, outcome) = play(&case_probe, &w);
    assert_eq!(outcome.status, Status::Succeeded);
}

#[test]
fn markers_are_found_across_chunk_boundaries() {
    let markers = vec!["héllo".to_string(), String::new(), "zz".to_string()];
    let log = "some text héllo and more".as_bytes();
    for chunk in 1..log.len() {
        assert_eq!(scan(&markers, log, chunk), Ok(Some("héllo".to_string())));
        assert_eq!(scan(&markers, &log[..14], chunk), Ok(None));
    }
    assert_eq!(scan(&vec![String::new()], log, 4), Ok(None));
    // The first configured marker wins within one window.
    let both = vec!["b".to_string(), "a".to_string()];
    assert_eq!(scan(&both, b"ab", 2), Ok(Some("b".to_string())));
    assert_eq!(scan(&both, b"ab", 1), Ok(Some("a".to_string())));
}

#[test]
fn marker_scan_enforces_length_bound() {
    let mut detected = spec("limit", "lres");
    detected.failure_contains = vec!["M".repeat(MAX_MARKER_BYTES)];
    let mut w = world();
    w.log = vec![b'M'; 4096];
    w.chunk = 1000;
    let (_, outcome) = play(&detected, &w);
    let matched = outcome;
    assert_eq!(matched.status, Status::Failed);
    assert_eq!(matched.exit_code, Some(0));
    assert!(matched.message.contains("matched failure marker"));

    let mut refused = spec("toolong", "tres");
    refused.failure_contains = vec!["M".repeat(MAX_MARKER_BYTES + 1)];
    let (_, outcome) = play(&refused, &world());
    let rejected = outcome;
    assert_eq!(rejected.status, Status::Failed);
    assert_eq!(rejected.exit_code, Some(0));
    assert!(rejected.message.contains("could not verify"));
    assert!(rejected.message.contains("4097"));
}

#[test]
fn failed_and_late_updates_quote_their_log() {
    let mut w = world();
    w.update = || exited(3);
    w.log = b"# header\nline one\n  last   line \n\n".to_vec();
    let (_, outcome) = play(&spec("a", "r"), &w);
    assert_eq!(outcome.message, "update failed (exit 3): last line");
    assert_eq!(outcome.exit_code, Some(3));
    w.update = || PhaseEnd::TimedOut;
    w.log = Vec::new();
    let (_, outcome) = play(&spec("a", "r"), &w);
    assert_eq!(outcome.status, Status::TimedOut);
    assert_eq!(
        outcome.message,
        "timed out after 30s (terminated, then killed)"
    );
    w.update = || PhaseEnd::Cancelled;
    let (_, outcome) = play(&spec("a", "r"), &w);
    assert_eq!(outcome.status, Status::Cancelled);
    w.update = || {
        PhaseEnd::Exited(Exit {
            code: None,
            signal: Some(9),
        })
    };
    let (_, outcome) = play(&spec("a", "r"), &w);
    assert_eq!(outcome.message, "update failed (signal 9)");
    assert_eq!(marker_message("\"x\""), "update matched failure marker \"x\" despite exit 0");
    assert_eq!(
        describe_exit(&Exit {
            code: None,
            signal: None
        }),
        "unknown exit"
    );
}

#[test]
fn version_probes_that_fail_leave_notes() {
    let mut one = spec("v", "r");
    one.version = Some(cmd("v", &[]));
    let mut rec = JobRecord::new();
    rec.before = Some(exited(2));
    rec.cancelled_before = Some(false);
    rec.update = Some(exited(0));
    rec.scan = Some(Ok(None));
    rec.cancelled_after = Some(false);
    rec.after = Some(PhaseEnd::TimedOut);
    match run_job(&one, at(30), &rec) {
        JobStep::Done(o) => assert_eq!(
            o.message,
            "before version failed (exit 2); after version timed out after 15s"
        ),
        other => panic!("expected an outcome, got {other:?}"),
    }
    rec.before = Some(PhaseEnd::Failed("denied".to_string()));
    rec.after = Some(PhaseEnd::Cancelled);
    match run_job(&one, at(30), &rec) {
        JobStep::Done(o) => assert_eq!(
            o.message,
            "before version: denied; after version cancelled"
        ),
        other => panic!("expected an outcome, got {other:?}"),
    }
    rec.before = Some(exited(0));
    rec.before_output = Some(Err("gone".to_string()));
    rec.cancelled_after = Some(true);
    match run_job(&one, at(30), &rec) {
        JobStep::Done(o) => assert_eq!(
            o.message,
            "before version: output unreadable (gone); after version skipped (run cancelled)"
        ),
        other => panic!("expected an outcome, got {other:?}"),
    }
    // A stray escape character in a version line is cleaned away, and the
    // job keeps its status.
    rec.before_output = Some(Ok("\u{1b}é1\n".as_bytes().to_vec()));
    match run_job(&one, at(30), &rec) {
        JobStep::Done(o) => {
            assert_eq!((o.status, o.before.as_str()), (Status::Succeeded, "é1"))
        }
        other => panic!("expected an outcome, got {other:?}"),
    }
    let lost = outcome_or_lost(None);
    assert_eq!(lost.status, Status::Failed);
    assert_eq!(lost.message, "internal error: worker panic");
}

#[test]
fn tail_is_bounded_and_sanitized() {
    let mut raw: Vec<u8> =
        b"plain\n\x1b[31mred\x1b[0m\n\x1b]0;title\x07osc\nline\rwith\x00ctl\x07end\n\xff\xfebad\n"
            .to_vec();
    raw.extend_from_slice(&[b'x'; 5000]);
    let read = |data: &[u8], max: usize| {
        let start = tail_start(data.len() as u64, max) as usize;
        tail(Some(&data[start..]), max)
    };
    let all = read(&raw, 1 << 20);
    assert!(all.contains("plain"));
    assert!(all.contains("red"));
    assert!(all.contains("osc"));
    assert!(all.contains("end"));
    assert!(!all.contains('\x1b'), "ESC sequences must be stripped");
    assert!(!all.contains('\x00'));
    assert!(!all.contains('\x07'));
    assert!(all.contains("line\nwith"), "lone CR becomes a newline");
    assert!(
        all.contains('\u{FFFD}'),
        "invalid UTF-8 becomes replacements"
    );
    let small = read(&raw, 8);
    assert!(small.chars().count() <= 8);
    assert_eq!(
        read(b"aaa\xC3\xA9\xC3\xA9", 2),
        "é",
        "tail resynchronizes on UTF-8 boundaries"
    );
    assert_eq!(
        read(b"aaa\xC3\xA9\xC3\xA9", 3),
        "é",
        "a cut character is dropped"
    );
    assert_eq!(tail(Some(&raw), 0), "");
    assert_eq!(tail(None, 8), "");
}

#[test]
fn sanitizing_is_stable() {
    let raw = "a\u{1b}[1;31mb\u{1b}]0;t\u{1b}\\c\u{1b}(Bd\re\r\nf\tg";
    let clean = sanitize_terminal(raw);
    assert!(!clean.contains('\u{1b}'));
    assert!(!clean.contains('\r'));
    assert_eq!(sanitize_terminal(&clean), clean);
    // Escape sequences are ASCII: in front of another character the escape
    // character stands alone.
    assert_eq!(sanitize_terminal("a\u{1b}éb"), "aéb");
    assert_eq!(sanitize_terminal("a\u{9b}b\u{85}c\td\n"), "abc\td\n");
    assert_eq!(sanitize_terminal("a\u{1b}"), "a");
    assert_eq!(log_excerpt("one\n\n  two   words \n \n"), "two words");
    assert_eq!(version_in(" \n1.0\n2.0", 1).unwrap(), "2.0");
}

#[test]
fn outcomes_join_reason_and_notes() {
    let notes = vec!["one".to_string(), "two".to_string()];
    let o = outcome(Status::Failed, "why", &notes, "1", "2", Some(4));
    assert_eq!(o.message, "why; one; two");
    assert_eq!((o.before.as_str(), o.after.as_str()), ("1", "2"));
    assert_eq!(outcome(Status::Succeeded, "", &notes, "", "", None).message, "one; two");
    let long = "x".repeat(600);
    let cut = outcome(Status::Failed, &long, &Vec::new(), "", "", None).message;
    assert_eq!(cut, format!("{}...", "x".repeat(509)));
    assert_eq!(
        outcome(Status::Failed, "\u{1b}é", &Vec::new(), "", "", None).message,
        "é"
    );
}

#[test]
fn workers_run_wait_and_stop() {
    let mut state = run_state(vec![spec("a", "r"), spec("b", "r")]);
    assert_eq!(worker_loop(&mut state, false, at(0)), WorkerStep::Run(0));
    assert_eq!(worker_loop(&mut state, false, at(0)), WorkerStep::Wait);
    finalize(&mut state, 0, ended(Status::Succeeded), at(1));
    assert_eq!(worker_loop(&mut state, true, at(1)), WorkerStep::Stop);
    assert_eq!(state.jobs[1].status, Status::Cancelled);
}

#[test]
fn lost_workers_fail_their_jobs() {
    let mut state = run_state(vec![spec("a", "r"), spec("b", "r")]);
    claim(&mut state, false, at(1));
    finish(&mut state, at(5));
    assert_eq!(state.jobs[0].status, Status::Failed);
    assert_eq!(state.jobs[0].message, "internal error: worker lost");
    assert_eq!(state.jobs[0].elapsed, at(4));
    assert_eq!(state.jobs[1].status, Status::Cancelled);
    assert!(is_settled(&state.jobs));
    assert_eq!(worker_count(0, 3), 1);
    assert_eq!(worker_count(9, 3), 3);
    assert_eq!(worker_count(2, 0), 0);
    let e = |s: &str| Some(s.to_string());
    assert_eq!(run_failure(e("s"), true, e("r")), e("s"));
    assert_eq!(run_failure(None, true, e("r")), e("engine worker panicked"));
    assert_eq!(run_failure(None, false, e("r")), e("r"));
}

#[test]
fn log_files_stay_in_their_directory() {
    assert_eq!(file_component("a.b_c-1"), "a.b_c-1");
    assert_eq!(file_component("../é"), ".._".to_string() + "_");
    assert_eq!(file_component(""), "job");
    let dir = PathBytes::from_text("/r");
    assert_eq!(tool_file(&dir, "x/y", ".log").display(), "/r/x_y.log");
    assert_eq!(
        log_header("a", "/bin/a"),
        "# update-agents job a (program /bin/a)\n"
    );
}

#[test]
fn summaries_list_every_tool() {
    let mut state = run_state(vec![spec("alpha", "r"), spec("b", "r")]);
    claim(&mut state, false, at(0));
    let done = Outcome {
        status: Status::Succeeded,
        message: String::new(),
        before: "1".to_string(),
        after: "2".to_string(),
        exit_code: Some(0),
    };
    finalize(
        &mut state,
        0,
        done,
        TimeSpan {
            secs: 1,
            nanos: 260_000_000,
        },
    );
    finish(&mut state, at(2));
    assert_eq!(
        summary(&state),
        "alpha  succeeded  1 -> 2 (1.3s)\n\
         b      cancelled  cancelled before start\n\
         \n\
         succeeded 1  failed 0  blocked 0  skipped 0  timed out 0  cancelled 1  (2 tools)\n\
         report: /r/report.json\n\
         logs: /r\n"
    );
    assert_eq!(argv_of(&cmd("p", &["a", "b"])), vec!["p", "a", "b"]);
}

#[test]
fn phases_end_by_exit_cancellation_or_deadline() {
    let exit = Exit {
        code: Some(1),
        signal: None,
    };
    assert!(matches!(
        run_phase(Some(exit), true, at(0), at(99), at(5)),
        Some(PhaseEnd::Exited(e)) if e == exit
    ));
    assert!(matches!(
        run_phase(None, true, at(0), at(99), at(5)),
        Some(PhaseEnd::Cancelled)
    ));
    assert!(matches!(
        run_phase(None, false, at(0), at(5), at(5)),
        Some(PhaseEnd::TimedOut)
    ));
    assert!(run_phase(None, false, at(0), at(4), at(5)).is_none());
}

#[test]
fn survivors_are_killed_after_the_grace() {
    let mut t = Termination {
        stage: TermStage::Start,
        since: at(0),
    };
    let mut signals = Vec::new();
    let mut now = 0;
    loop {
        // The leader exits at once, a descendant ignores the request.
        let alive = !signals.contains(&TermAction::SignalKill);
        let (next, action) = terminate(t, 7, at(now), alive, t.stage == TermStage::Reap);
        t = next;
        match action {
            TermAction::Pause(ms) => {
                assert!(ms == 100 || ms == 20);
                now += 1;
            }
            TermAction::Proceed => {}
            TermAction::Over => break,
            other => signals.push(other),
        }
    }
    assert_eq!(
        signals,
        vec![TermAction::SignalTerminate, TermAction::SignalKill]
    );
    assert_eq!(now, 5, "the whole grace was given");
    let none = Termination {
        stage: TermStage::Start,
        since: at(0),
    };
    assert_eq!(
        terminate(none, 0, at(0), true, false).1,
        TermAction::Proceed
    );
}

#[test]
fn process_groups_are_read_from_status_lines() {
    assert_eq!(
        stat_state_and_pgrp(b"12 (we) ird (x)) S 1 34 34 0"),
        Some(('S', 34))
    );
    assert_eq!(stat_state_and_pgrp(b"12 sh S 1 34"), None);
    assert_eq!(stat_state_and_pgrp(b"12 (sh) S 1"), None);
    assert_eq!(stat_state_and_pgrp(b"12 (sh) S 1 x"), None);
    let entry = |name: &str, stat: Option<&[u8]>| StatEntry {
        name: name.as_bytes().to_vec(),
        stat: stat.map(|s| s.to_vec()),
    };
    let alive = Some(vec![entry("12", Some(b"12 (sh) S 1 34 34"))]);
    assert!(group_alive(34, &alive));
    assert!(!group_alive(35, &alive));
    let zombie = Some(vec![entry("12", Some(b"12 (sh) Z 1 34 34"))]);
    assert!(!group_alive(34, &zombie));
    assert!(group_alive(34, &None), "no process table: assume alive");
    let unread = Some(vec![entry("self", Some(b"12 (sh) S 1 9")), entry("1", None)]);
    assert!(group_alive(34, &unread), "nothing could be read");
}

#[test]
fn commands_run_in_a_neutral_directory() {
    let cwd = PathBytes::from_text("/work");
    assert_eq!(command_program("git", &cwd).display(), "git");
    assert_eq!(command_program("/bin/git", &cwd).display(), "/bin/git");
    assert_eq!(command_program("./x", &cwd).display(), "/work/./x");
    assert_eq!(neutral_cwd(Some(b"/home/u")).display(), "/home/u");
    assert_eq!(neutral_cwd(Some(b"")).display(), "/");
    assert_eq!(neutral_cwd(Some(b".")).display(), "/", "never a relative one");
    assert_eq!(neutral_cwd(None).display(), "/");
}

#[test]
fn small_helpers_have_exact_forms() {
    assert_eq!(rfc3339_utc(951_782_400), "2000-02-29T00:00:00Z");
    assert_eq!(rfc3339_utc(0), "1970-01-01T00:00:00Z");
    assert_eq!(utc_timestamp(1_735_689_599), "20241231-235959");
    for secs in [0, 59, 60, 86_399, 86_400, 951_782_400, 253_402_300_798] {
        let bare: String = rfc3339_utc(secs)
            .chars()
            .filter(|c| !"-:Z".contains(*c))
            .map(|c| if c == 'T' { '-' } else { c })
            .collect();
        assert_eq!(utc_timestamp(secs), bare);
        assert!(utc_timestamp(secs) < utc_timestamp(secs + 1));
    }
    assert_eq!(hex_text(&[0, 255, 16]), "00ff10");
    assert_eq!(parse_signed(&['-', '4', '2']), Some(-42));
    assert_eq!(parse_signed(&['2', '1', '4', '7', '4', '8', '3', '6', '4', '8']), None);
    let mut buf = Vec::new();
    assert!(!append_capped(&mut buf, b"abc", 5));
    assert!(append_capped(&mut buf, b"defg", 5));
    assert_eq!(buf, b"abcde");
    let job: Job = run_state(vec![spec("a", "r")]).jobs[0].clone();
    assert_eq!(job.log.display(), "/r/a.log");
}
