//! Options, paths, background runs and the way to a running engine.

use update_agents::background::{
    bg_launch, child_args, first_line, parse_ack_fd, read_ack, ready_ack, refusal_ack, tmux_text,
};
use update_agents::bytes::{bytes_ordered, split_nonempty, PathBytes};
use update_agents::clock::TimeSpan;
use update_agents::model::{CommandSpec, Preflight, ToolSpec};
use update_agents::options::{
    parse_args, parse_arguments, parse_count, parse_secs, read_argument, Argument, Options,
};
use update_agents::paths::{
    builtin_dir, catalogue_dirs, catalogue_source_desc, expand_home, run_dir_path, state_dir, user_dir, BaseEnv,
};
use update_agents::startup::{
    entry, run_updates, select_tools, startup_deadline_exceeded, wants_display, Entry, LockReply,
    StartRecord, StartStep,
};

fn at(secs: u64) -> TimeSpan {
    TimeSpan { secs, nanos: 0 }
}

fn home() -> Option<Vec<u8>> {
    Some(b"/home/u".to_vec())
}

fn args(list: &[&str]) -> Vec<Vec<u8>> {
    list.iter().map(|a| a.as_bytes().to_vec()).collect()
}

fn parse(list: &[&str]) -> Result<Options, String> {
    parse_args(&args(list), &home())
}

fn tool(id: &str) -> ToolSpec {
    ToolSpec {
        id: id.to_string(),
        label: id.to_string(),
        update: CommandSpec {
            program: id.to_string(),
            args: Vec::new(),
        },
        version: None,
        resource: id.to_string(),
        version_line: 0,
        failure_contains: Vec::new(),
        preflight: Preflight::Ready,
    }
}

fn env() -> BaseEnv {
    BaseEnv {
        home: home(),
        data_home: None,
        config_home: Some(b"relative".to_vec()),
        state_home: Some(b"/state".to_vec()),
    }
}

#[test]
fn options_are_parsed_in_order() {
    let o = parse(&[
        "--list", "--plain", "--bg", "--jobs", "3", "--timeout=20", "--agents-dir", "~/d", "a",
        " b ", "a",
    ])
    .unwrap();
    assert!(o.list && o.plain && o.bg && !o.help && !o.version);
    assert_eq!((o.jobs, o.timeout), (Some(3), Some(20)));
    assert_eq!(o.agents_dir.unwrap().display(), "/home/u/d");
    assert_eq!(o.ids, vec!["a", "b"], "ids are trimmed and not repeated");
    let o = parse(&["--", "--help", "-x"]).unwrap();
    assert!(!o.help);
    assert_eq!(o.ids, vec!["--help", "-x"]);
    assert_eq!(parse(&["-"]).unwrap().ids, vec!["-"]);
    assert!(parse(&["--dry-run"]).unwrap().list);
    assert!(parse(&["--help", "--version"]).unwrap().version);
}

#[test]
fn bad_options_are_named() {
    let error = |list: &[&str]| parse(list).unwrap_err();
    assert_eq!(error(&["--jobs"]), "--jobs needs a value");
    assert_eq!(
        error(&["--jobs", "x"]),
        "--jobs expects a whole number, got 'x'"
    );
    assert_eq!(error(&["--jobs=0"]), "--jobs must be at least 1");
    assert_eq!(
        error(&["--timeout", "-1"]),
        "--timeout expects a whole number of seconds, got '-1'"
    );
    assert_eq!(
        error(&["--agents-dir="]),
        "--agents-dir needs a directory path"
    );
    assert_eq!(error(&["--list=1"]), "--list does not take a value");
    assert_eq!(error(&["--x"]), "unknown option '--x' (try --help)");
    assert_eq!(error(&["--x=1"]), "unknown option '--x' (try --help)");
    assert_eq!(error(&["-x"]), "unknown option '-x' (try --help)");
    assert_eq!(error(&[" "]), "empty tool id");
    assert_eq!(parse_count(" +7 ", "--jobs"), Ok(7));
    assert_eq!(parse_secs("18446744073709551615", "t"), Ok(u64::MAX));
    assert!(parse_secs("18446744073709551616", "t").is_err());
}

#[test]
fn values_stand_in_the_same_or_the_next_argument() {
    for (opt, value) in [
        ("--jobs", "3"),
        ("--jobs", "x"),
        ("--timeout", "7"),
        ("--timeout", ""),
        ("--agents-dir", "~/d"),
        ("--agents-dir", ""),
    ] {
        let apart = parse(&["--plain", opt, value, "a"]);
        let joined = format!("{opt}={value}");
        let together = parse(&["--plain", joined.as_str(), "a"]);
        assert_eq!(format!("{apart:?}"), format!("{together:?}"));
    }
}

#[test]
fn arguments_need_not_be_text() {
    let raw = vec![b"--agents-dir=/d\xff".to_vec()];
    let dir = parse_args(&raw, &None).unwrap().agents_dir.unwrap();
    assert_eq!(dir.bytes, b"/d\xff");
    let a = read_argument(b"--a=b=c");
    let part = a.assignment.unwrap();
    assert_eq!(
        (part.name_text.as_str(), part.text.as_str()),
        ("--a", "b=c")
    );
    let given = vec![Argument {
        bytes: b"x".to_vec(),
        text: "\u{fffd}".to_string(),
        long: false,
        assignment: None,
    }];
    assert_eq!(
        parse_arguments(&given, &None).unwrap().ids,
        vec!["\u{fffd}"]
    );
}

#[test]
fn directories_follow_the_environment() {
    let env = env();
    assert_eq!(
        builtin_dir(&env).unwrap().display(),
        "/home/u/.local/share/update-agents/agents.d"
    );
    assert_eq!(
        user_dir(&env).unwrap().display(),
        "/home/u/.config/update-agents/agents.d",
        "a relative variable counts as unset"
    );
    assert_eq!(state_dir(&env).unwrap().display(), "/state/update-agents");
    let homeless = BaseEnv {
        home: Some(b"rel".to_vec()),
        data_home: None,
        config_home: None,
        state_home: None,
    };
    assert_eq!(
        state_dir(&homeless).unwrap_err(),
        "HOME is not set to an absolute path"
    );
    assert_eq!(
        catalogue_source_desc(&None, &env),
        "catalogue: /home/u/.local/share/update-agents/agents.d (builtin) + \
         /home/u/.config/update-agents/agents.d (user)"
    );
    assert_eq!(
        catalogue_source_desc(&None, &homeless),
        "catalogue: builtin + user agents.d directories"
    );
    assert_eq!(
        catalogue_source_desc(&Some(PathBytes::from_text("/x")), &env),
        "catalogue: /x"
    );
    let (builtin, user) = catalogue_dirs(&None, &env).unwrap();
    assert_eq!(
        (builtin.display(), user.unwrap().display()),
        (
            builtin_dir(&env).unwrap().display(),
            user_dir(&env).unwrap().display()
        )
    );
    let (only, none) = catalogue_dirs(&Some(PathBytes::from_text("/x")), &env).unwrap();
    assert_eq!((only.display().as_str(), none.is_none()), ("/x", true));
    assert!(catalogue_dirs(&None, &homeless).is_err());
    assert_eq!(
        run_dir_path(&PathBytes::from_text("/s/runs"), 0, 42).display(),
        "/s/runs/19700101-000000-42"
    );
    assert_eq!(expand_home(b"~/", &home()).display(), "/home/u");
    assert_eq!(expand_home(b"$HOME/x", &home()).display(), "/home/u/x");
    assert_eq!(expand_home(b"~x", &home()).display(), "~x");
    assert_eq!(expand_home(b"~", &None).display(), "~");
}

#[test]
fn the_entry_follows_the_options() {
    let of = |list: &[&str], child: bool, online: Option<bool>| {
        entry(&parse(list).unwrap(), child, online)
    };
    assert_eq!(of(&["--help", "--version"], false, None), Entry::Help);
    assert_eq!(of(&["--version"], false, None), Entry::Version);
    assert_eq!(of(&[], false, None), Entry::ProbeNetwork);
    assert_eq!(of(&[], false, Some(false)), Entry::Offline);
    assert_eq!(of(&["--bg"], false, Some(true)), Entry::Launch);
    assert_eq!(
        of(&["--bg", "--list"], false, Some(true)),
        Entry::BadCombination
    );
    assert_eq!(of(&["--bg"], true, None), Entry::Run);
}

#[test]
fn tools_are_selected_by_id() {
    let specs = vec![tool("a"), tool("b"), tool("c")];
    let pick = |ids: &[&str]| {
        select_tools(&ids.iter().map(|i| i.to_string()).collect(), &specs)
            .map(|list| list.iter().map(|t| t.id.clone()).collect::<Vec<_>>())
    };
    assert_eq!(pick(&[]).unwrap(), vec!["a", "b", "c"]);
    assert_eq!(pick(&["c", "a"]).unwrap(), vec!["c", "a"]);
    assert_eq!(
        pick(&["x", "a", "y"]).unwrap_err(),
        "unknown tool(s): x, y; known: a, b, c"
    );
}

/// Plays a start in which everything goes well, and returns its steps.
fn start(o: &Options, child: bool, rec: &mut StartRecord) -> (Vec<&'static str>, StartStep) {
    let mut steps = Vec::new();
    loop {
        match run_updates(o, child, 8, &env(), at(0), rec) {
            StartStep::LoadCatalogue => {
                steps.push("load");
                rec.catalogue = Some(Ok(vec![tool("a"), tool("b")]));
            }
            StartStep::MakeRunDir(dir) => {
                assert_eq!(dir.display(), "/state/update-agents");
                steps.push("dir");
                rec.run_dir = Some(Ok(PathBytes::from_text("/run")));
            }
            StartStep::RedirectOutput => {
                steps.push("redirect");
                rec.redirected = Some(None);
            }
            StartStep::AcquireLock => {
                steps.push("lock");
                rec.lock = Some(LockReply::Held);
            }
            end => return (steps, end),
        }
    }
}

#[test]
fn the_engine_starts_last() {
    let o = parse(&["--timeout", "9", "b"]).unwrap();
    let (steps, end) = start(&o, true, &mut StartRecord::new());
    assert_eq!(steps, vec!["load", "dir", "redirect", "lock"]);
    match end {
        StartStep::Start(plan) => {
            assert_eq!(plan.tools.len(), 1);
            assert_eq!(plan.tools[0].id, "b");
            assert_eq!((plan.jobs, plan.timeout_secs, plan.explicit), (1, 9, true));
        }
        other => panic!("expected a start, got {other:?}"),
    }
    let o = parse(&[]).unwrap();
    match start(&o, false, &mut StartRecord::new()).1 {
        StartStep::Start(plan) => {
            assert_eq!((plan.jobs, plan.timeout_secs, plan.explicit), (2, 600, false))
        }
        other => panic!("expected a start, got {other:?}"),
    }
    let o = parse(&["--list"]).unwrap();
    let (steps, end) = start(&o, false, &mut StartRecord::new());
    assert_eq!(steps, vec!["load"]);
    assert!(matches!(end, StartStep::List(list) if list.len() == 2));
}

#[test]
fn failed_starts_have_their_message_and_code() {
    let o = parse(&[]).unwrap();
    let fail = |o: &Options, child: bool, rec: &mut StartRecord| match start(o, child, rec).1 {
        StartStep::Fail(text, code) => (text, code),
        other => panic!("expected a failure, got {other:?}"),
    };
    let with = |change: &dyn Fn(&mut StartRecord)| {
        let mut rec = StartRecord::new();
        change(&mut rec);
        rec
    };
    let expect = |text: &str, code: i32| (text.to_string(), code);
    assert_eq!(
        fail(&o, false, &mut with(&|r| r.catalogue = Some(Err("bad".to_string())))),
        expect("catalogue load failed: bad", 2)
    );
    assert_eq!(
        fail(&o, false, &mut with(&|r| r.catalogue = Some(Ok(Vec::new())))),
        expect("no agent definitions found", 2)
    );
    assert_eq!(
        fail(&parse(&["z"]).unwrap(), false, &mut StartRecord::new()),
        expect("unknown tool(s): z; known: a, b", 2)
    );
    assert_eq!(
        fail(&o, true, &mut with(&|r| r.loaded_at = at(55))),
        expect("background startup window elapsed; not starting updates", 1)
    );
    assert_eq!(
        fail(&o, false, &mut with(&|r| r.run_dir = Some(Err("no dir".to_string())))),
        expect("no dir", 1)
    );
    assert_eq!(
        fail(&o, true, &mut with(&|r| r.redirected = Some(Some("io".to_string())))),
        expect("cannot attach run log: io", 1)
    );
    assert_eq!(
        fail(&o, false, &mut with(&|r| r.lock = Some(LockReply::Busy))),
        expect("another update-agents run is already in progress", 1)
    );
    assert_eq!(
        fail(
            &o,
            false,
            &mut with(&|r| r.lock = Some(LockReply::Failed("x".to_string())))
        ),
        expect("run lock: x", 1)
    );
    assert_eq!(
        fail(&o, true, &mut with(&|r| r.locked_at = at(60))),
        expect("background startup window elapsed; not starting updates", 1)
    );
    assert_eq!(
        fail(&o, false, &mut with(&|r| r.signalled = true)),
        expect("shutdown signal received before updates started", 1)
    );
    assert!(!startup_deadline_exceeded(true, at(0), at(54)));
    assert!(startup_deadline_exceeded(true, at(0), at(55)));
    assert!(!startup_deadline_exceeded(false, at(0), at(99)));
}

#[test]
fn the_display_needs_a_terminal() {
    assert!(wants_display(false, false, true, true, Some("xterm")));
    assert!(!wants_display(false, false, true, true, Some("dumb")));
    assert!(!wants_display(false, false, true, true, None));
    assert!(!wants_display(true, false, true, true, Some("xterm")));
    assert!(!wants_display(false, true, true, true, Some("xterm")));
    assert!(!wants_display(false, false, false, true, Some("xterm")));
}

#[test]
fn children_get_every_argument_but_one() {
    assert_eq!(
        child_args(&args(&["--bg", "a", "--jobs", "2"])),
        args(&["a", "--jobs", "2", "--plain"])
    );
    assert_eq!(
        child_args(&args(&["--plain", "--bg"])),
        args(&["--plain"])
    );
    // The user's own flag stays where it is.
    assert_eq!(
        child_args(&args(&["a", "--plain", "--bg", "b"])),
        args(&["a", "--plain", "b"])
    );
    assert_eq!(
        child_args(&args(&["--bg", "a", "--", "x", "--bg"])),
        args(&["a", "--plain", "--", "x", "--bg"])
    );
    // Whatever the launcher was given, the child gets the same options.
    for list in [
        vec!["--bg", "--", "x"],
        vec!["--bg", "a", "--jobs=2", "--", "--plain"],
        vec!["--agents-dir", "--bg", "--bg", "--timeout", "9", "b"],
        vec!["--agents-dir", "--", "--bg", "c", "--list"],
    ] {
        let want = parse(&list).unwrap();
        let got = parse_args(&child_args(&args(&list)), &home()).unwrap();
        assert!(want.bg && !got.bg && got.plain);
        assert_eq!(
            (got.ids, got.jobs, got.timeout, got.list, got.help),
            (want.ids, want.jobs, want.timeout, want.list, want.help)
        );
        assert_eq!(
            got.agents_dir.map(|d| d.bytes),
            want.agents_dir.map(|d| d.bytes)
        );
    }
    assert_eq!(
        tmux_text(&args(&["a", "b"])),
        "update-agents finished: a b"
    );
    assert_eq!(parse_ack_fd(" 7 "), Some(7));
    assert_eq!(parse_ack_fd("x"), None);
}

#[test]
fn the_launcher_reports_what_the_child_says() {
    let ready = read_ack(ready_ack("/run/1").as_bytes());
    let report = bg_launch(&ready, 9);
    assert_eq!(report.code, 0);
    assert_eq!(
        report.out,
        "background update started (pid 9)\n\
         report: /run/1/report.json\n\
         log:    /run/1/session.log\n"
    );
    assert!(report.err.is_empty());
    let refused = read_ack(refusal_ack("no lock").as_bytes());
    let report = bg_launch(&refused, 9);
    assert_eq!(report.code, 1);
    assert_eq!(
        report.err,
        "update-agents: background run failed to start: no lock\n"
    );
    let report = bg_launch(&Some("huh".to_string()), 9);
    assert_eq!(
        report.err,
        "update-agents: unexpected background acknowledgement: huh\n"
    );
    let report = bg_launch(&read_ack(b""), 9);
    assert_eq!(
        report.err,
        "update-agents: background process (pid 9) did not acknowledge startup \
         (it exited early or took too long)\n"
    );
    assert_eq!(first_line("a \r\nb").as_deref(), Some("a"));
    assert_eq!(read_ack(b"\xff\n").as_deref(), Some("\u{fffd}"));
}

#[test]
fn byte_strings_are_ordered_and_split() {
    assert!(bytes_ordered(b"a", b"ab"));
    assert!(!bytes_ordered(b"b", b"ab"));
    assert!(bytes_ordered(b"", b""));
    assert_eq!(
        split_nonempty(b":a::b:", b':'),
        vec![b"a".to_vec(), b"b".to_vec()]
    );
}
