//! The dashboard: cells, rows, keys and what the screen shows.

use update_agents::bytes::PathBytes;
use update_agents::cells::{
    format_duration, pad_left, pad_right, push_cell_padded, push_clipped, push_fit_widths,
    str_width,
};
use update_agents::clock::TimeSpan;
use update_agents::dashboard::{Dashboard, Key, KeyPress};
use update_agents::fingerprint::{mix_str, mix_u64, FNV_OFFSET};
use update_agents::layout::{centered_rect, chrome_layout, split_detail, split_meta, Area};
use update_agents::model::{CommandSpec, Job, Preflight, RunState, Status, ToolSpec};
use update_agents::row::{Columns, Counts, Row, STATUS_W};
use update_agents::schedule::{finalize, finish, initial_jobs, Outcome};
use update_agents::screen::{
    detail_title, fit_line, gauge_label, render_colhead, render_confirm, render_detail,
    render_footer, render_header, render_help, render_rows, FooterShown, ListShown, Segment, Tone,
};

fn at(secs: u64) -> TimeSpan {
    TimeSpan { secs, nanos: 0 }
}

fn job_with(status: Status, message: &str) -> Job {
    Job {
        spec: ToolSpec {
            id: "cursor-agent".to_string(),
            label: "Cursor Agent".to_string(),
            update: CommandSpec {
                program: "cursor-agent".to_string(),
                args: vec!["update".to_string()],
            },
            version: None,
            resource: "cursor-agent".to_string(),
            version_line: 0,
            failure_contains: Vec::new(),
            preflight: Preflight::Ready,
        },
        status,
        started: None,
        elapsed: at(0),
        before: String::new(),
        after: String::new(),
        message: message.to_string(),
        log: PathBytes::from_text("/tmp/update-agents-test.log"),
        exit_code: None,
    }
}

fn row_with(status: Status, message: &str) -> Row {
    Row::new(&job_with(status, message))
}

fn state_of(jobs: Vec<Job>, done: bool) -> RunState {
    RunState {
        jobs,
        started: at(0),
        done,
        run_dir: PathBytes::from_text("/tmp/run"),
    }
}

fn texts(line: &[Segment]) -> Vec<String> {
    line.iter().map(|s| s.text.clone()).collect()
}

fn press(c: char) -> KeyPress {
    KeyPress {
        key: Key::Char(c),
        control: false,
    }
}

fn plain(key: Key) -> KeyPress {
    KeyPress {
        key,
        control: false,
    }
}

#[test]
fn exact_fit_text_is_kept_whole() {
    let mut out = String::new();
    push_clipped(&mut out, "cursor-agent", 12);
    assert_eq!(out, "cursor-agent");
    // STATUS_W is exactly the width of "not detected", the longest
    // status word, so a not-detected row must render its full status,
    // not "not detecte…".
    push_clipped(&mut out, "not detected", STATUS_W);
    assert_eq!(out, "not detected");
    assert_eq!(str_width(&out), STATUS_W);
    // The id cell keeps an exact-fit id unpadded and untruncated.
    push_cell_padded(&mut out, "cursor-agent", 12);
    assert_eq!(out, "cursor-agent");
}

#[test]
fn wider_text_fills_the_whole_column_with_an_ellipsis() {
    let mut out = String::new();
    push_clipped(&mut out, "cursor-agent", 8);
    assert_eq!(out, "cursor-…");
    assert_eq!(str_width(&out), 8);
    // One column wide: only the ellipsis itself fits.
    push_clipped(&mut out, "ab", 1);
    assert_eq!(out, "…");
}

#[test]
fn wide_unicode_characters_never_split_across_the_boundary() {
    let mut out = String::new();
    // Two-cell Hangul syllables: an exact fit stays whole ...
    push_clipped(&mut out, "한글", 4);
    assert_eq!(out, "한글");
    // ... and clipping drops the two-cell character whole instead of
    // overflowing the column or leaving no room for the ellipsis.
    push_clipped(&mut out, "한글", 3);
    assert_eq!(out, "한…");
    assert_eq!(str_width(&out), 3);
}

#[test]
fn control_characters_are_dropped_without_consuming_width() {
    let mut out = String::new();
    push_clipped(&mut out, "ok\u{7}!", 4);
    assert_eq!(out, "ok!");
    // A trailing control character does not count as clipping.
    push_clipped(&mut out, "ok\n", 4);
    assert_eq!(out, "ok");
}

#[test]
fn tail_activity_hides_the_internal_job_header() {
    let header = "# update-agents job cursor-agent (program /opt/cursor-agent)\n";
    // Header-only tail: the overview shows the placeholder, never the
    // internal command path.
    let mut row = row_with(Status::Running, "");
    row.set_tail_activity(header);
    assert_eq!(row.activity, "-");
    // Real output after the header wins over the placeholder.
    row.set_tail_activity(&format!("{header}resolving versions\n"));
    assert_eq!(row.activity, "resolving versions");
    // A quiet agent that finishes successfully keeps a clean activity
    // cell instead of the stale header line.
    let mut done = row_with(Status::Succeeded, "");
    done.set_tail_activity(header);
    assert_eq!(done.activity, "-");
}

#[test]
fn skipped_rows_count_as_done_and_show_their_reason() {
    let mut counts = Counts::default();
    counts.count(Status::Skipped);
    counts.count(Status::Succeeded);
    assert_eq!(counts.skipped, 1);
    assert_eq!(counts.done, 2);
    // The first snapshot pass surfaces the skip reason in the activity
    // cell, exactly like any other terminal message.
    let job = job_with(Status::Skipped, "missing executable");
    let mut row = Row::new(&job);
    row.update(&job);
    assert_eq!(row.activity, "missing executable");
}

#[test]
fn completed_run_dismissal_precedes_dialogs_and_cancellation() {
    let mut spec = job_with(Status::Skipped, "not installed").spec;
    spec.preflight = Preflight::Skipped("not installed".to_string());
    let dir = PathBytes::from_text("/tmp/run");
    let mut state = state_of(initial_jobs(vec![spec], &dir), false);
    finish(&mut state, at(1));
    let mut dash = Dashboard::new(false, at(1));
    dash.help = true;
    dash.confirm = true;
    dash.snapshot(&state, false, at(1));
    let dismissed = dash.on_key(press('x'));
    let interrupted = dash.on_key(KeyPress {
        key: Key::Char('c'),
        control: true,
    });
    assert!(
        dismissed,
        "any key must dismiss a completed run, even with a dialog open"
    );
    assert!(interrupted, "Ctrl-C must also dismiss a completed run");
    assert!(
        !dash.cancelled,
        "dismissing a finished run must not request cancellation"
    );
    assert!(!dash.help && !dash.confirm);
}

/// Three jobs, the middle one not detected.
fn three_rows() -> RunState {
    let mut ghost = job_with(Status::Queued, "").spec;
    ghost.id = "ghost".to_string();
    ghost.preflight = Preflight::Skipped("nope".to_string());
    let live = |id: &str| {
        let mut s = job_with(Status::Queued, "").spec;
        s.id = id.to_string();
        s
    };
    let dir = PathBytes::from_text("/tmp/run");
    state_of(
        initial_jobs(vec![live("live1"), ghost, live("live2")], &dir),
        false,
    )
}

#[test]
fn selection_skips_not_detected_rows() {
    let mut state = three_rows();
    for i in [0, 2] {
        let outcome = Outcome {
            status: Status::Succeeded,
            message: String::new(),
            before: "v".to_string(),
            after: "v".to_string(),
            exit_code: Some(0),
        };
        finalize(&mut state, i, outcome, at(1));
    }
    finish(&mut state, at(1));
    let mut dash = Dashboard::new(false, at(1));
    dash.snapshot(&state, false, at(1));
    assert!(dash.is_visible(0), "ready rows stay visible");
    assert_eq!(dash.sel, 0, "selection starts on the first visible row");
    assert!(!dash.is_visible(1), "the not-detected row must be hidden");
    dash.move_selection(1);
    assert_eq!(dash.sel, 2, "moving down skips the hidden row");
    dash.move_selection(-1);
    assert_eq!(dash.sel, 0, "moving up skips the hidden row again");
}

#[test]
fn keys_drive_the_dialogs_and_the_detail_log() {
    let state = three_rows();
    let mut dash = Dashboard::new(false, at(0));
    dash.snapshot(&state, false, at(3));
    assert_eq!(dash.run_elapsed, 3);
    assert!(!dash.on_key(press('?')));
    assert!(dash.help);
    dash.on_key(press('j'));
    assert!(!dash.help && dash.sel == 0, "any key only closes the help");
    dash.on_key(press('q'));
    assert!(dash.confirm && !dash.cancelled, "quitting asks first");
    dash.on_key(press('n'));
    assert!(!dash.confirm);
    dash.on_key(plain(Key::Enter));
    assert!(dash.detail_open && dash.tail_pending);
    let path = dash.detail_due(at(3)).expect("the log is due");
    assert_eq!(path.display(), "/tmp/run/live1.log");
    dash.take_detail("a\nb\nc".to_string(), at(3));
    assert!(dash.detail_due(at(3)).is_none());
    assert!(dash.detail_due(at(4)).is_some(), "old after 250 ms");
    dash.on_key(plain(Key::Esc));
    dash.on_key(press('y'));
    assert!(dash.cancelled && !dash.confirm);
    dash.on_key(press('q'));
    assert!(!dash.confirm, "no question once cancelling");
}

#[test]
fn pages_move_the_list_or_the_log() {
    let mut jobs = Vec::new();
    for i in 0..10 {
        let mut job = job_with(Status::Queued, "");
        job.spec.id = format!("t{i}");
        if i == 4 {
            job.status = Status::Skipped;
        }
        jobs.push(job);
    }
    let mut dash = Dashboard::new(false, at(0));
    dash.snapshot(&state_of(jobs, false), false, at(0));
    dash.list_h = 5;
    dash.on_key(plain(Key::PageDown));
    assert_eq!(dash.sel, 3, "a hidden target falls back towards the start");
    dash.on_key(plain(Key::PageDown));
    assert_eq!(dash.sel, 7);
    dash.on_key(plain(Key::PageDown));
    assert_eq!(dash.sel, 9, "clamped to the last row");
    dash.on_key(plain(Key::PageUp));
    assert_eq!(dash.sel, 5);
    dash.on_key(plain(Key::PageUp));
    assert_eq!(dash.sel, 1);
    dash.on_key(press('l'));
    dash.take_detail("1\n2\n3\n4\n5\n6".to_string(), at(0));
    dash.log_h = 3;
    dash.on_key(plain(Key::PageDown));
    assert_eq!((dash.log_scroll, dash.follow), (2, false));
    dash.on_key(plain(Key::PageDown));
    assert_eq!((dash.log_scroll, dash.follow), (3, true));
    dash.on_key(plain(Key::PageUp));
    assert_eq!((dash.log_scroll, dash.follow), (1, false));
}

#[test]
fn fingerprints_change_with_what_is_shown() {
    let state = three_rows();
    let mut a = Dashboard::new(false, at(0));
    a.snapshot(&state, false, at(3));
    let mut b = Dashboard::new(false, at(0));
    b.snapshot(&state, false, at(3));
    assert_eq!(a.sig, b.sig);
    assert!(a.needs_draw(false));
    a.drawn_sig = a.sig;
    assert!(!a.needs_draw(false));
    assert!(a.needs_draw(true));
    b.on_key(press('?'));
    b.snapshot(&state, false, at(3));
    assert_ne!(a.sig, b.sig);
}

#[test]
fn fingerprints_are_fnv_1a() {
    // FNV-1a of the single byte `a`, then of its length.
    let mut h = FNV_OFFSET;
    mix_str(&mut h, "a");
    let mut g: u64 = 0xaf63_dc4c_8601_ec8c;
    mix_u64(&mut g, 1);
    assert_eq!(h, g);
}

#[test]
fn the_finished_screen_counts_down() {
    let mut state = three_rows();
    finish(&mut state, at(2));
    let mut dash = Dashboard::new(false, at(0));
    assert_eq!(
        dash.poll_wait(at(0)),
        Some(TimeSpan {
            secs: 0,
            nanos: 125_000_000
        })
    );
    dash.snapshot(&state, false, at(2));
    assert_eq!(dash.completion_seconds(at(2)), 5);
    let later = TimeSpan {
        secs: 6,
        nanos: 400_000_000,
    };
    assert_eq!(dash.completion_seconds(later), 1);
    assert_eq!(
        dash.poll_wait(later),
        Some(TimeSpan {
            secs: 0,
            nanos: 600_000_000
        })
    );
    assert_eq!(dash.poll_wait(at(3)), Some(at(1)));
    assert_eq!(dash.poll_wait(at(7)), None);
    dash.snapshot(&state, false, at(4));
    assert_eq!(dash.run_elapsed, 2, "the run clock is latched");
    match render_footer(&dash, at(4)) {
        FooterShown::Countdown(s) => assert_eq!(s, "Auto-exit in 3s | Any key: exit"),
        other => panic!("expected the countdown, got {other:?}"),
    }
}

#[test]
fn activity_reads_rotate_over_running_rows() {
    let mut jobs = Vec::new();
    for status in [Status::Running, Status::Queued, Status::Running] {
        jobs.push(job_with(status, ""));
    }
    let mut dash = Dashboard::new(false, at(0));
    dash.snapshot(&state_of(jobs, false), false, at(0));
    assert_eq!(dash.next_activity_row(), Some(2));
    assert_eq!(dash.next_activity_row(), Some(0));
    assert_eq!(dash.next_activity_row(), Some(2));
    dash.take_activity(2, "one\n\ntwo\n");
    assert_eq!(dash.rows[2].activity, "two");
    assert_eq!(dash.rows[0].activity, "-");
}

#[test]
fn versions_show_what_changed() {
    let mut job = job_with(Status::Running, "");
    job.before = "1.0".to_string();
    let mut row = Row::new(&job);
    row.update(&job);
    assert_eq!((row.version.as_str(), row.version_dim), ("1.0", true));
    job.after = "1.1".to_string();
    job.status = Status::Succeeded;
    row.update(&job);
    assert_eq!((row.version.as_str(), row.version_dim), ("1.0 → 1.1", false));
    job.after = "1.0".to_string();
    row.update(&job);
    assert_eq!(row.version, "1.0");
}

#[test]
fn durations_are_compact() {
    assert_eq!(format_duration(42), "42s");
    assert_eq!(format_duration(185), "3m05s");
    assert_eq!(format_duration(3720), "1h02m");
    assert_eq!(pad_left("time", 8), "    time");
    assert_eq!(pad_right("id", 4), "id  ");
}

#[test]
fn given_widths_decide_what_fits() {
    let mut out = String::new();
    let chars = vec!['a', 'b', 'c'];
    assert!(!push_fit_widths(&mut out, &chars, &vec![1, 2, 1], 3));
    assert_eq!(out, "ab");
    let mut out = String::new();
    assert!(push_fit_widths(&mut out, &chars, &vec![1, 1, 1], 3));
    assert_eq!(out, "abc");
}

#[test]
fn columns_give_way_on_narrow_screens() {
    let wide = Columns::arrange(100, Some(12), Some(9));
    assert_eq!(
        wide,
        Columns {
            id: 12,
            version: 9,
            time: 8,
            activity: 55
        }
    );
    let narrow = Columns::arrange(20, Some(12), Some(9));
    assert_eq!(
        narrow,
        Columns {
            id: 6,
            version: 0,
            time: 0,
            activity: 0
        }
    );
    let rows = vec![row_with(Status::Queued, "")];
    assert_eq!(Columns::compute(100, &rows).id, 12);
}

#[test]
fn the_screen_is_split_from_top_to_bottom() {
    let area = |y: u16, height: u16| Area {
        x: 2,
        y,
        width: 80,
        height,
    };
    let full = chrome_layout(area(1, 24));
    assert_eq!(full.header, Some(area(1, 1)));
    assert_eq!(full.gauge, Some(area(2, 1)));
    assert_eq!(full.colhead, Some(area(3, 1)));
    assert_eq!(full.rows, area(4, 20));
    assert_eq!(full.footer, Some(area(24, 1)));
    let four = chrome_layout(area(0, 4));
    assert_eq!(
        (four.header, four.gauge, four.colhead, four.rows, four.footer),
        (
            Some(area(0, 1)),
            None,
            Some(area(1, 1)),
            area(2, 1),
            Some(area(3, 1))
        )
    );
    let three = chrome_layout(area(0, 3));
    assert_eq!((three.rows, three.footer), (area(1, 1), Some(area(2, 1))));
    let two = chrome_layout(area(0, 2));
    assert_eq!((two.header, two.rows), (Some(area(0, 1)), area(1, 1)));
    let one = chrome_layout(area(0, 1));
    assert_eq!((one.header, one.rows), (None, area(0, 1)));
    assert_eq!(split_detail(false, area(4, 20)), (area(4, 20), None));
    assert_eq!(
        split_detail(true, area(4, 20)),
        (area(4, 8), Some(area(12, 12)))
    );
    assert_eq!(split_detail(true, area(4, 5)), (area(4, 0), Some(area(4, 5))));
    assert_eq!(split_detail(true, area(4, 6)), (area(4, 2), Some(area(6, 4))));
    assert_eq!(split_meta(area(4, 5)), (area(4, 1), area(5, 4)));
    assert_eq!(split_meta(area(4, 1)), (area(4, 1), area(5, 0)));
    assert_eq!(
        centered_rect(area(0, 11), 20, 5),
        Area {
            x: 32,
            y: 3,
            width: 20,
            height: 5
        }
    );
}

#[test]
fn the_header_counts_what_happened() {
    let mut jobs = vec![
        job_with(Status::Running, ""),
        job_with(Status::Succeeded, ""),
        job_with(Status::Failed, ""),
        job_with(Status::Skipped, ""),
    ];
    jobs[0].started = Some(at(0));
    let mut dash = Dashboard::new(true, at(0));
    dash.snapshot(&state_of(jobs, false), true, at(65));
    let wanted = render_header(&dash);
    assert_eq!(
        texts(&wanted),
        vec![
            "update-agents",
            "3/4 done",
            "CANCELLING",
            "run 1",
            "ok 1",
            "fail 1",
            "not detected 1",
            "up 1m05s"
        ]
    );
    // Narrow lines keep what comes first.
    let line = fit_line(wanted, 22);
    assert_eq!(texts(&line), vec!["update-agents", " ", "3/4 done"]);
    assert_eq!(line[0].tone, Tone::AccentBold);
    assert_eq!(gauge_label(&dash).as_deref(), Some(" 3/4 tools done "));
    assert_eq!(gauge_label(&Dashboard::new(true, at(0))), None);
    let confirm = render_confirm(&dash);
    assert_eq!(texts(&confirm[0]), vec!["1 tool(s) running or queued"]);
    assert_eq!(render_help().len(), 9);
    assert_eq!(render_help()[0][0].text, "j / ↓         ");
}

#[test]
fn the_list_shows_visible_rows() {
    let mut dash = Dashboard::new(false, at(0));
    let col = Columns {
        id: 6,
        version: 8,
        time: 8,
        activity: 10,
    };
    match render_rows(&mut dash, 5, col, at(0)) {
        ListShown::Notice(s) => assert_eq!(s, "no tools loaded"),
        other => panic!("expected a notice, got {other:?}"),
    }
    dash.snapshot(&three_rows(), false, at(0));
    dash.on_key(press('j'));
    assert!(matches!(render_rows(&mut dash, 0, col, at(0)), ListShown::Nothing));
    match render_rows(&mut dash, 5, col, at(0)) {
        ListShown::Lines(lines, highlight) => {
            assert_eq!(lines.len(), 2);
            assert_eq!(highlight, 1);
            assert_eq!(
                texts(&lines[1]),
                vec![
                    "live2 ",
                    " ",
                    "-       ",
                    " ",
                    "queued      ",
                    " ",
                    "       -",
                    " ",
                    "-"
                ]
            );
            assert_eq!(lines[1][0].tone, Tone::AccentBold);
        }
        other => panic!("expected lines, got {other:?}"),
    }
    match render_footer(&dash, at(0)) {
        FooterShown::Hints(l) => assert_eq!(
            texts(&l),
            vec![
                "not detected 1:",
                "ghost",
                "j/k select",
                "enter/l log",
                "? help",
                "q quit",
                "ctrl-c cancel"
            ]
        ),
        other => panic!("expected hints, got {other:?}"),
    }
    assert_eq!(
        texts(&render_colhead(col)),
        vec![
            "id    ",
            " ",
            "version ",
            " ",
            "status      ",
            " ",
            "    time",
            " ",
            "activity"
        ]
    );
}

#[test]
fn the_detail_view_follows_the_log() {
    let mut job = job_with(Status::Failed, "broke");
    job.before = "1.0".to_string();
    job.exit_code = Some(-1);
    let mut dash = Dashboard::new(false, at(0));
    let inner = Area {
        x: 1,
        y: 1,
        width: 40,
        height: 4,
    };
    assert!(detail_title(&dash).is_none());
    dash.snapshot(&state_of(vec![job], false), false, at(0));
    assert_eq!(
        detail_title(&dash).as_deref(),
        Some(" cursor-agent · Cursor Agent ")
    );
    dash.on_key(plain(Key::Enter));
    let shown = render_detail(&mut dash, inner).expect("there is room");
    assert_eq!(
        texts(&shown.meta),
        vec!["failed", " exit -1", "  1.0", "  broke"]
    );
    let log = shown.log.expect("there is room for the log");
    assert_eq!((log.lines, log.placeholder), (vec!["(no output yet)".to_string()], true));
    dash.take_detail("1\n2\n3\n4\n5".to_string(), at(0));
    let log = render_detail(&mut dash, inner).unwrap().log.unwrap();
    assert_eq!((log.lines.len(), log.scroll), (5, 2));
    assert_eq!(dash.log_h, 3);
    let flat = Area { height: 1, ..inner };
    assert!(render_detail(&mut dash, flat).unwrap().log.is_none());
    assert!(render_detail(&mut dash, Area { height: 0, ..inner }).is_none());
}
