//! Plain output and exit codes.

use update_agents::bytes::PathBytes;
use update_agents::clock::TimeSpan;
use update_agents::model::{CommandSpec, Job, Preflight, RunState, Status, ToolSpec};
use update_agents::plain::{
    broken_display_code, catalogue_text, collect_transitions, count_hidden, exit_code, finish_code,
    one_line, transition_line, updating_header,
};

fn job(id: &str, status: Status, message: &str) -> Job {
    Job {
        spec: ToolSpec {
            id: id.to_string(),
            label: id.to_string(),
            update: CommandSpec {
                program: id.to_string(),
                args: vec!["update".to_string()],
            },
            version: None,
            resource: id.to_string(),
            version_line: 0,
            failure_contains: Vec::new(),
            preflight: Preflight::Ready,
        },
        status,
        started: None,
        elapsed: TimeSpan { secs: 0, nanos: 0 },
        before: String::new(),
        after: String::new(),
        message: message.to_string(),
        log: PathBytes::from_text(&format!("/tmp/update-agents-{id}.log")),
        exit_code: None,
    }
}

fn state(jobs: Vec<Job>) -> RunState {
    RunState {
        jobs,
        started: TimeSpan { secs: 0, nanos: 0 },
        done: true,
        run_dir: PathBytes::from_text("/tmp/run"),
    }
}

#[test]
fn transition_line_words_not_detected_for_skipped_jobs() {
    let ghost = job("ghost", Status::Skipped, "executable 'ghost' not found");
    assert_eq!(
        transition_line(&ghost),
        "ghost: not detected - executable 'ghost' not found"
    );
    // Only the skipped arm changes wording; every other status is intact.
    assert_eq!(
        transition_line(&job("live", Status::Succeeded, "")),
        "live: ok"
    );
    assert_eq!(
        transition_line(&job("held", Status::Blocked, "dirty tree")),
        "held: blocked - dirty tree"
    );
}

#[test]
fn collect_transitions_suppresses_not_detected_unless_explicit() {
    let jobs = vec![
        job("ghost", Status::Skipped, "reason"),
        job("live", Status::Succeeded, ""),
    ];
    let mut last = vec![Status::Queued; jobs.len()];
    let plain = collect_transitions(&mut last, &jobs, false);
    assert_eq!(
        plain,
        vec!["live: ok"],
        "not-detected lines stay out of plain output without explicit IDs"
    );
    assert_eq!(last, vec![Status::Skipped, Status::Succeeded]);

    let mut last = vec![Status::Queued; jobs.len()];
    let explicit = collect_transitions(&mut last, &jobs, true);
    assert_eq!(
        explicit,
        vec!["ghost: not detected - reason", "live: ok"],
        "explicitly selected tools always get their line"
    );
    assert_eq!(last, vec![Status::Skipped, Status::Succeeded]);
}

#[test]
fn updating_header_mentions_not_detected_count() {
    assert_eq!(
        updating_header(4, 0, 4, 600),
        "updating 4 agent(s), jobs=4, timeout=600s"
    );
    assert_eq!(
        updating_header(4, 1, 4, 600),
        "updating 4 agent(s), 1 not detected, jobs=4, timeout=600s"
    );
}

#[test]
fn transitions_are_collected_once() {
    let jobs = vec![
        job("a", Status::Failed, "boom\nbang"),
        job("b", Status::Running, ""),
    ];
    let mut last = vec![Status::Queued; 2];
    assert_eq!(
        collect_transitions(&mut last, &jobs, false),
        vec!["a: failed - boom bang", "b: running"]
    );
    assert!(collect_transitions(&mut last, &jobs, false).is_empty());
    assert_eq!(count_hidden(&jobs, false), 0);
    let hidden = vec![job("g", Status::Skipped, "x")];
    assert_eq!(count_hidden(&hidden, false), 1);
    assert_eq!(count_hidden(&hidden, true), 0);
}

#[test]
fn long_messages_are_cut_on_one_line() {
    assert_eq!(one_line("a\tb\r\nc"), "a b  c");
    let exact = "x".repeat(300);
    assert_eq!(one_line(&exact), exact);
    let over = "x".repeat(301);
    assert_eq!(one_line(&over), format!("{exact}..."));
}

#[test]
fn exit_codes_follow_the_worst_job() {
    let ok = state(vec![
        job("a", Status::Succeeded, ""),
        job("b", Status::Skipped, ""),
    ]);
    assert_eq!(exit_code(&ok), 0);
    assert_eq!(finish_code(&ok, true), 1);
    assert_eq!(broken_display_code(&ok), 1);
    let blocked = state(vec![
        job("a", Status::Succeeded, ""),
        job("b", Status::Blocked, ""),
    ]);
    assert_eq!(exit_code(&blocked), 3);
    assert_eq!(finish_code(&blocked, false), 3);
    assert_eq!(broken_display_code(&blocked), 3);
    for status in [Status::Failed, Status::TimedOut, Status::Cancelled] {
        let failed = state(vec![
            job("a", Status::Blocked, ""),
            job("b", status, ""),
        ]);
        assert_eq!(exit_code(&failed), 1);
    }
}

#[test]
fn the_catalogue_listing_shows_exact_commands() {
    let mut tool = job("demo", Status::Queued, "").spec;
    tool.label = "Demo".to_string();
    tool.version = Some(CommandSpec {
        program: "demo".to_string(),
        args: vec!["--version".to_string()],
    });
    tool.failure_contains = vec!["bad".to_string(), "worse".to_string()];
    let mut ghost = job("gh", Status::Queued, "").spec;
    ghost.preflight = Preflight::Skipped("not here".to_string());
    let text = catalogue_text(&vec![tool, ghost], "catalogue: /x");
    assert_eq!(
        text,
        "update-agents 0.1.0 - 2 agent(s)\n\
         catalogue: /x\n\
         \n\
         demo  Demo\n\
         \x20     update : demo update\n\
         \x20     version: demo --version (line 0)\n\
         \x20     resource: demo\n\
         \x20     failure markers: \"bad\", \"worse\"\n\
         \x20     state  : ready\n\
         \n\
         gh    gh\n\
         \x20     update : gh update\n\
         \x20     version: (not reported)\n\
         \x20     resource: gh\n\
         \x20     state  : not detected - not here\n\
         \n"
    );
}
