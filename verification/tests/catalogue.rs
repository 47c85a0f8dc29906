//! Loading the catalogue, and the safety checks.

use update_agents::bytes::PathBytes;
use update_agents::catalog::{
    build_spec, is_descriptor_file, load, parse_check, validate_id, wanted_programs, AgentDef,
    BuildStep, Check, CheckDef, DirEntry, DirRead, FileRead, LoadStep, SourceDir,
};
use update_agents::checks::{
    check_git_clean, check_listing, check_process_absent, check_process_absent_ps, cmdline_text,
    exit_text, one_line, Capture, CaptureEnd, CmdlineRead, GitFacts, PipeRead, ProcEntry,
    ProcTable,
};
use update_agents::model::{CommandSpec, Preflight, ToolSpec};
use update_agents::program::{
    expand_home, is_executable, program_candidates, resolve_program, SearchEnv,
};

/// What a descriptor file holds.
enum Content {
    Def(AgentDef),
    Broken(String),
}

const EXE: &str = "/opt/tools/bin";

fn env() -> SearchEnv {
    SearchEnv {
        home: Some(b"/home/u".to_vec()),
        path: Some(b"/usr/bin::/bin".to_vec()),
    }
}

fn descriptor(id: &str, program: &str) -> AgentDef {
    AgentDef {
        schema_version: 1,
        id: id.to_string(),
        label: format!("Label {id}"),
        installed: program.to_string(),
        update: CommandSpec {
            program: program.to_string(),
            args: vec!["update".to_string()],
        },
        version: Some(CommandSpec {
            program: program.to_string(),
            args: vec!["--version".to_string()],
        }),
        version_line: Some(0),
        resource: Some(format!("res-{id}")),
        failure_contains: Vec::new(),
        checks: Vec::new(),
    }
}

fn git_check(path: &str) -> CheckDef {
    CheckDef {
        kind: "git_clean".to_string(),
        path: Some(path.to_string()),
        cmdline_contains: None,
    }
}

fn process_check(patterns: &[&str]) -> CheckDef {
    CheckDef {
        kind: "process_absent".to_string(),
        path: None,
        cmdline_contains: Some(patterns.iter().map(|p| p.to_string()).collect()),
    }
}

/// The answer of a safety check on a machine without the worktree and without
/// a matching process.
fn evaluate(check: &Check) -> Option<String> {
    match check {
        Check::GitClean(path) => check_git_clean(path, &GitFacts::NoDirectory),
        Check::ProcessAbsent(patterns) => check_process_absent(
            &ProcTable {
                own_uid: Ok(1000),
                entries: Ok(vec![ProcEntry {
                    name: b"17".to_vec(),
                    uid: Some(1000),
                    cmdline: CmdlineRead::Bytes(b"/bin/sh\0-c\0true\0".to_vec()),
                }]),
            },
            patterns,
        ),
    }
}

fn build(def: &AgentDef) -> FileRead {
    let found = vec![PathBytes::from_text(EXE)];
    let mut answers = Vec::new();
    loop {
        match build_spec(def, &env(), &found, &answers) {
            Ok(BuildStep::Evaluate(check)) => answers.push(evaluate(&check)),
            Ok(BuildStep::Built(tool)) => return FileRead::Built(tool),
            Err(e) => return FileRead::Invalid(e),
        }
    }
}

fn source(path: &str, files: &[(&str, Content)]) -> SourceDir {
    SourceDir {
        path: PathBytes::from_text(path),
        read: DirRead::Entries(
            files
                .iter()
                .map(|(name, _)| DirEntry {
                    name: name.as_bytes().to_vec(),
                    is_file: true,
                })
                .collect(),
        ),
    }
}

fn load_both(
    builtin: &[(&str, Content)],
    user: Option<&[(&str, Content)]>,
) -> Result<Vec<ToolSpec>, String> {
    let first = source("/b", builtin);
    let second = user.map(|files| source("/u", files));
    let mut answers = Vec::new();
    loop {
        match load(&first, &second, &answers) {
            LoadStep::Read(path) => {
                let text = path.display();
                let files = if text.starts_with("/b/") {
                    builtin
                } else {
                    user.unwrap()
                };
                let content = files
                    .iter()
                    .find(|(name, _)| text[3..] == **name)
                    .map(|(_, content)| content)
                    .unwrap();
                answers.push(match content {
                    Content::Def(def) => build(def),
                    Content::Broken(e) => FileRead::Unparsable(e.clone()),
                });
            }
            LoadStep::Done(result) => return result,
        }
    }
}

fn load_one(files: &[(&str, Content)]) -> Result<Vec<ToolSpec>, String> {
    load_both(files, None)
}

fn ids(tools: &[ToolSpec]) -> Vec<&str> {
    tools.iter().map(|t| t.id.as_str()).collect()
}

fn skipped_reason(spec: &ToolSpec) -> &str {
    match &spec.preflight {
        Preflight::Skipped(reason) => reason,
        other => panic!("expected a skipped preflight, got {other:?}"),
    }
}

fn blocked_reason(spec: &ToolSpec) -> &str {
    match &spec.preflight {
        Preflight::Blocked(reason) => reason,
        other => panic!("expected a blocked preflight, got {other:?}"),
    }
}

#[test]
fn adding_a_descriptor_file_extends_the_catalogue() {
    let specs = load_one(&[]).expect("empty explicit dir loads");
    assert!(specs.is_empty());

    let specs = load_one(&[("b.json", Content::Def(descriptor("beta", EXE)))])
        .expect("one descriptor loads");
    assert_eq!(specs.len(), 1);
    assert_eq!(specs[0].id, "beta");

    // A new file extends the catalogue with zero code changes.
    let specs = load_one(&[
        ("b.json", Content::Def(descriptor("beta", EXE))),
        ("a.json", Content::Def(descriptor("alpha", EXE))),
    ])
    .expect("two descriptors load");
    assert_eq!(
        ids(&specs),
        vec!["alpha", "beta"],
        "descriptors load in sorted file order"
    );
}

#[test]
fn malformed_json_fails_closed() {
    let error = serde_json::from_str::<serde_json::Value>("{ not json").unwrap_err();
    let result = load_one(&[
        ("ok.json", Content::Def(descriptor("ok", EXE))),
        ("broken.json", Content::Broken(error.to_string())),
    ]);
    assert!(
        result.is_err(),
        "one malformed descriptor must abort loading"
    );
    assert!(result.unwrap_err().starts_with("cannot parse /b/broken.json: "));
}

#[test]
fn unknown_fields_fail_closed() {
    let result = load_one(&[(
        "x.json",
        Content::Broken("unknown field `surprise`".to_string()),
    )]);
    assert_eq!(
        result.unwrap_err(),
        "cannot parse /b/x.json: unknown field `surprise`",
        "unknown fields must be rejected"
    );
}

#[test]
fn unknown_check_kind_fails_closed() {
    let mut def = descriptor("y", EXE);
    def.checks = vec![CheckDef {
        kind: "martian".to_string(),
        path: Some("/tmp".to_string()),
        cmdline_contains: None,
    }];
    assert!(load_one(&[("y.json", Content::Def(def))]).is_err());
}

#[test]
fn check_field_mismatch_fails_closed() {
    let mut def = descriptor("z", EXE);
    def.checks = vec![CheckDef {
        kind: "git_clean".to_string(),
        path: Some("/tmp".to_string()),
        cmdline_contains: Some(vec!["x".to_string()]),
    }];
    assert!(load_one(&[("z.json", Content::Def(def))]).is_err());
}

#[test]
fn duplicate_ids_fail_closed() {
    let result = load_one(&[
        ("a.json", Content::Def(descriptor("dup", EXE))),
        ("b.json", Content::Def(descriptor("dup", EXE))),
    ]);
    assert_eq!(
        result.unwrap_err(),
        "duplicate agent id 'dup': defined in both /b/a.json and /b/b.json",
        "duplicate ids must abort loading"
    );
}

#[test]
fn unsafe_ids_fail_closed() {
    for id in ["../escape", "has space", ""] {
        assert!(
            load_one(&[("x.json", Content::Def(descriptor(id, EXE)))]).is_err(),
            "id '{id}' must be rejected"
        );
    }
    assert!(validate_id(&"a".repeat(64)).is_ok());
    assert!(validate_id(&"a".repeat(65)).is_err());
    assert!(validate_id(".hidden").is_err());
    assert!(validate_id("é").is_err());
}

#[test]
fn missing_installed_marks_skipped() {
    let mut def = descriptor("ghost", EXE);
    def.installed = "update-agents-missing-binary-9d4e1f".to_string();
    let specs = load_one(&[("ghost.json", Content::Def(def))])
        .expect("loading succeeds; the tool is skipped");
    assert_eq!(specs.len(), 1);
    let reason = skipped_reason(&specs[0]);
    assert!(
        reason.contains("update-agents-missing-binary-9d4e1f"),
        "reason: {reason}"
    );
}

#[test]
fn missing_program_marks_skipped() {
    let mut def = descriptor("h", EXE);
    def.update = CommandSpec {
        program: "update-agents-missing-cmd-7c2b90".to_string(),
        args: vec!["update".to_string()],
    };
    let specs = load_one(&[("h.json", Content::Def(def))])
        .expect("loading succeeds; the tool is skipped");
    let reason = skipped_reason(&specs[0]);
    assert!(
        reason.contains("update-agents-missing-cmd-7c2b90"),
        "reason: {reason}"
    );
}

#[test]
fn git_clean_on_missing_path_blocks() {
    let mut def = descriptor("g", EXE);
    def.checks = vec![git_check("/tmp/no-such-repo")];
    let specs = load_one(&[("g.json", Content::Def(def))]).expect("load");
    let reason = blocked_reason(&specs[0]);
    assert!(reason.contains("git_clean"), "reason: {reason}");
}

#[test]
fn process_absent_without_match_is_safe() {
    let mut def = descriptor("p", EXE);
    def.checks = vec![process_check(&["update-agents-catalog-probe-3f81c9"])];
    let specs = load_one(&[("p.json", Content::Def(def))]).expect("load");
    assert!(
        matches!(specs[0].preflight, Preflight::Ready),
        "no matching process must not block"
    );
}

#[test]
fn missing_executable_is_skipped_even_with_failing_check() {
    let mut def = descriptor("ghost", EXE);
    def.installed = "update-agents-missing-binary-5a7c22".to_string();
    def.checks = vec![git_check("/tmp/no-such-repo")];
    let specs = load_one(&[("ghost.json", Content::Def(def))]).expect("load");
    let reason = skipped_reason(&specs[0]);
    assert!(
        reason.contains("update-agents-missing-binary-5a7c22"),
        "reason: {reason}"
    );
}

#[test]
fn wrong_schema_version_fails_closed() {
    let mut def = descriptor("s", EXE);
    def.schema_version = 2;
    assert!(load_one(&[("s.json", Content::Def(def))]).is_err());
}

#[test]
fn empty_failure_literal_fails_closed() {
    let mut def = descriptor("e", EXE);
    def.failure_contains = vec![String::new()];
    assert!(
        load_one(&[("e.json", Content::Def(def))]).is_err(),
        "an empty literal would match any output"
    );
}

#[test]
fn failure_contains_marker_length_boundary() {
    // Exactly at the cap of the scan the marker stays live, so the
    // descriptor must load.
    let mut def = descriptor("edge", EXE);
    def.failure_contains = vec!["x".repeat(4096)];
    let specs = load_one(&[("edge.json", Content::Def(def))]).expect("4096-byte marker loads");
    assert_eq!(specs[0].failure_contains, vec!["x".repeat(4096)]);

    // One byte over: the scan would fail at runtime, so loading must already
    // reject the descriptor.
    let mut def = descriptor("over", EXE);
    def.failure_contains = vec!["x".repeat(4097)];
    let err = load_one(&[("over.json", Content::Def(def))])
        .expect_err("4097-byte marker must fail to load");
    assert!(
        err.contains("4096"),
        "reason should cite the limit: {err}"
    );
}

#[test]
fn missing_explicit_directory_fails() {
    let absent = SourceDir {
        path: PathBytes::from_text("/x/agents.d"),
        read: DirRead::NotFound("No such file".to_string()),
    };
    match load(&absent, &None, &Vec::new()) {
        LoadStep::Done(Err(e)) => {
            assert_eq!(e, "agent directory not found: /x/agents.d (No such file)")
        }
        other => panic!("expected an error, got {other:?}"),
    }
}

#[test]
fn user_descriptors_merge_and_duplicates_fail_closed() {
    let builtin = [("a.json", Content::Def(descriptor("alpha", EXE)))];
    let user = [("b.json", Content::Def(descriptor("beta", EXE)))];
    let specs = load_both(&builtin, Some(&user)).expect("merged load");
    assert_eq!(ids(&specs), vec!["alpha", "beta"]);

    let user = [
        ("b.json", Content::Def(descriptor("beta", EXE))),
        ("a2.json", Content::Def(descriptor("alpha", EXE))),
    ];
    assert!(
        load_both(&builtin, Some(&user)).is_err(),
        "a user id colliding with a builtin id must fail closed"
    );
}

#[test]
fn missing_user_directory_is_allowed() {
    let builtin = source("/b", &[("a.json", Content::Def(descriptor("alpha", EXE)))]);
    let absent = Some(SourceDir {
        path: PathBytes::from_text("/u"),
        read: DirRead::NotFound("No such file".to_string()),
    });
    let mut answers = Vec::new();
    match load(&builtin, &absent, &answers) {
        LoadStep::Read(path) => assert_eq!(path.display(), "/b/a.json"),
        other => panic!("expected a file, got {other:?}"),
    }
    answers.push(build(&descriptor("alpha", EXE)));
    match load(&builtin, &absent, &answers) {
        LoadStep::Done(Ok(specs)) => assert_eq!(specs.len(), 1),
        other => panic!("missing user dir is allowed, got {other:?}"),
    }
    // A user directory that exists and cannot be read is an error.
    let broken = Some(SourceDir {
        path: PathBytes::from_text("/u"),
        read: DirRead::Failed("denied".to_string()),
    });
    match load(&builtin, &broken, &answers) {
        LoadStep::Done(Err(e)) => assert_eq!(e, "cannot read agent directory /u: denied"),
        other => panic!("expected an error, got {other:?}"),
    }
}

#[test]
fn only_json_files_are_descriptors() {
    let entry = |name: &str, is_file: bool| DirEntry {
        name: name.as_bytes().to_vec(),
        is_file,
    };
    assert!(is_descriptor_file(&entry("a.json", true)));
    assert!(is_descriptor_file(&entry("..json", true)));
    assert!(!is_descriptor_file(&entry(".json", true)));
    assert!(!is_descriptor_file(&entry("a.json", false)));
    assert!(!is_descriptor_file(&entry("a.JSON", true)));
    assert!(!is_descriptor_file(&entry("json", true)));
}

#[test]
fn unreadable_files_abort_the_loading() {
    let builtin = source("/b", &[("a.json", Content::Def(descriptor("alpha", EXE)))]);
    match load(
        &builtin,
        &None,
        &vec![FileRead::Unreadable("denied".to_string())],
    ) {
        LoadStep::Done(Err(e)) => assert_eq!(e, "cannot read /b/a.json: denied"),
        other => panic!("expected an error, got {other:?}"),
    }
}

#[test]
fn each_defect_has_its_message() {
    let error = |change: &dyn Fn(&mut AgentDef)| {
        let mut def = descriptor("t", EXE);
        change(&mut def);
        match build(&def) {
            FileRead::Invalid(e) => e,
            other => panic!("expected an invalid descriptor, got {other:?}"),
        }
    };
    assert_eq!(
        error(&|d| d.schema_version = 7),
        "unsupported schema_version 7 (expected 1)"
    );
    assert_eq!(
        error(&|d| d.id = "-x".to_string()),
        "invalid agent id '-x': use 1-64 ASCII chars [A-Za-z0-9._-] starting with a letter or digit"
    );
    assert_eq!(
        error(&|d| d.label = " \t".to_string()),
        "label must be non-empty"
    );
    assert_eq!(
        error(&|d| d.installed = "a\0b".to_string()),
        "installed must be a non-empty executable name or path"
    );
    assert_eq!(
        error(&|d| d.update.program = String::new()),
        "update program must be a non-empty executable name or absolute path"
    );
    assert_eq!(
        error(&|d| d.version.as_mut().unwrap().args.push(String::new())),
        "version arguments must be non-empty and free of NUL bytes"
    );
    assert_eq!(
        error(&|d| d.version_line = Some(10001)),
        "version_line 10001 exceeds 10000"
    );
    assert_eq!(
        error(&|d| d.resource = Some(" ".to_string())),
        "resource must be non-empty"
    );
    assert_eq!(
        error(&|d| d.failure_contains = vec!["\0".to_string()]),
        "failure_contains entries must be non-empty and free of NUL bytes"
    );
    assert_eq!(
        error(&|d| d.update.program = "./tool".to_string()),
        "program './tool' looks like a path but is not absolute; use ~, $HOME or an absolute path"
    );
    let check = |c: CheckDef| parse_check(&c, &env()).unwrap_err();
    assert_eq!(
        check(git_check(" ")),
        "git_clean check requires a non-empty 'path'"
    );
    assert_eq!(
        check(git_check("a\0")),
        "git_clean path must be free of NUL bytes"
    );
    assert_eq!(
        check(git_check("rel")),
        "git_clean path 'rel' must start with ~, $HOME or be absolute"
    );
    let mut odd = process_check(&["x"]);
    odd.path = Some("/p".to_string());
    assert_eq!(check(odd), "process_absent check must not set 'path'");
    let mut none = process_check(&[]);
    assert_eq!(
        check(none),
        "process_absent check requires at least one cmdline_contains entry"
    );
    none = process_check(&[]);
    none.cmdline_contains = None;
    assert_eq!(
        check(none),
        "process_absent check requires 'cmdline_contains'"
    );
    assert_eq!(
        check(process_check(&["", "x"])),
        "cmdline_contains entries must be non-empty and free of NUL bytes"
    );
    let mut alien = git_check("/x");
    alien.kind = "martian".to_string();
    assert_eq!(check(alien), "unknown safety check kind 'martian'");
}

#[test]
fn programs_resolve_along_the_search_path() {
    let env = env();
    let shown = |v: Vec<PathBytes>| v.iter().map(|p| p.display()).collect::<Vec<_>>();
    assert_eq!(
        shown(program_candidates("git", &env).unwrap()),
        vec![
            "/usr/bin/git",
            "/bin/git",
            "/home/u/.local/bin/git",
            "/home/u/.grok/bin/git",
            "/home/u/.bun/bin/git"
        ]
    );
    assert_eq!(
        shown(program_candidates("~/bin/x", &env).unwrap()),
        vec!["/home/u/bin/x"]
    );
    assert!(program_candidates("bin/x", &env).is_err());
    let found = vec![
        PathBytes::from_text("/home/u/.grok/bin/git"),
        PathBytes::from_text("/bin/git"),
    ];
    assert_eq!(
        resolve_program("git", &env, &found)
            .unwrap()
            .map(|p| p.display()),
        Some("/bin/git".to_string())
    );
    assert!(resolve_program("hg", &env, &found).unwrap().is_none());
    assert_eq!(
        expand_home("$HOME/x", &env).map(|p| p.display()),
        Some("/home/u/x".to_string())
    );
    assert_eq!(
        expand_home("~", &env).map(|p| p.display()),
        Some("/home/u".to_string())
    );
    assert!(expand_home("~x", &env).is_none());
    // Relative directories are not searched: programs resolve to absolute
    // paths.
    let relative = SearchEnv {
        home: Some(b"rel".to_vec()),
        path: Some(b"bin:/bin".to_vec()),
    };
    assert_eq!(
        shown(program_candidates("x", &relative).unwrap()),
        vec!["/bin/x"]
    );
    let found = vec![PathBytes::from_text("bin/x")];
    assert!(resolve_program("x", &relative, &found).unwrap().is_none());
    assert!(is_executable(true, 0o755));
    assert!(!is_executable(true, 0o644));
    assert!(!is_executable(false, 0o755));
    assert_eq!(wanted_programs(&descriptor("t", "git"), &env).len(), 15);
}

#[test]
fn resolved_programs_replace_bare_names() {
    let mut def = descriptor("t", "tool");
    def.resource = None;
    let found = vec![PathBytes::from_text("/bin/tool")];
    match build_spec(&def, &env(), &found, &Vec::new()).unwrap() {
        BuildStep::Built(tool) => {
            assert_eq!(tool.update.program, "/bin/tool");
            assert_eq!(tool.version.unwrap().program, "/bin/tool");
            assert_eq!(tool.resource, "t", "the resource defaults to the id");
        }
        other => panic!("expected a tool, got {other:?}"),
    }
}

fn capture(end: CaptureEnd, out: &[u8], err: &[u8]) -> Capture {
    Capture {
        end,
        out: PipeRead::Bytes(out.to_vec()),
        err: PipeRead::Bytes(err.to_vec()),
    }
}

#[test]
fn worktrees_must_be_clean() {
    let path = PathBytes::from_text("/w");
    let reason = |c: Capture| check_git_clean(&path, &GitFacts::Status(c));
    assert_eq!(reason(capture(CaptureEnd::Exited(Some(0)), b"", b"")), None);
    assert_eq!(
        reason(capture(CaptureEnd::Exited(Some(0)), b" M a\n M b\n", b"")).unwrap(),
        "git_clean: /w has uncommitted changes (M a)"
    );
    assert_eq!(
        reason(capture(CaptureEnd::Exited(Some(128)), b"", b"\nfatal: no\x07pe\n")).unwrap(),
        "git_clean: git status failed with exit status 128: fatal: no pe"
    );
    assert_eq!(
        reason(capture(CaptureEnd::Exited(None), b"", b"")).unwrap(),
        "git_clean: git status failed with a signal"
    );
    assert_eq!(
        reason(capture(CaptureEnd::TimedOut, b"", b"")).unwrap(),
        "git_clean: git status timed out"
    );
    assert_eq!(
        reason(capture(CaptureEnd::NotStarted("denied".to_string()), b"", b"")).unwrap(),
        "git_clean: cannot run git: denied"
    );
    assert_eq!(
        reason(capture(CaptureEnd::WaitFailed("odd".to_string()), b"", b"")).unwrap(),
        "git_clean: cannot wait for git: odd"
    );
    let lost = Capture {
        end: CaptureEnd::Exited(Some(0)),
        out: PipeRead::Lost,
        err: PipeRead::Lost,
    };
    assert_eq!(
        reason(lost).unwrap(),
        "git_clean: git status output reader failed"
    );
    let unread = Capture {
        end: CaptureEnd::Exited(Some(0)),
        out: PipeRead::Failed("io".to_string()),
        err: PipeRead::Lost,
    };
    assert_eq!(
        reason(unread).unwrap(),
        "git_clean: cannot read git status output: io"
    );
    assert_eq!(
        check_git_clean(&path, &GitFacts::NoGit).unwrap(),
        "git_clean: git executable not found"
    );
    assert_eq!(exit_text(Some(-3)), "exit status -3");
}

#[test]
fn live_processes_block_without_leaking_their_arguments() {
    let patterns = vec!["/opencodex/".to_string(), "start".to_string()];
    let entry = |name: &str, uid: u32, cmdline: CmdlineRead| ProcEntry {
        name: name.as_bytes().to_vec(),
        uid: Some(uid),
        cmdline,
    };
    let table = |entries: Vec<ProcEntry>| ProcTable {
        own_uid: Ok(5),
        entries: Ok(entries),
    };
    let live = || CmdlineRead::Bytes(b"node\0/opt/opencodex/x\0start\0--key=k\0".to_vec());
    assert_eq!(
        check_process_absent(&table(vec![entry("42", 5, live())]), &patterns).unwrap(),
        "process_absent: live process 42 matches [/opencodex/, start]"
    );
    // Other users, exited processes, kernel threads and other entries pass.
    assert_eq!(
        check_process_absent(
            &table(vec![
                entry("42", 6, live()),
                entry("self", 5, live()),
                entry("43", 5, CmdlineRead::Gone),
                entry("44", 5, CmdlineRead::Bytes(Vec::new())),
            ]),
            &patterns
        ),
        None
    );
    assert_eq!(
        check_process_absent(
            &table(vec![entry("45", 5, CmdlineRead::Failed("denied".to_string()))]),
            &patterns
        )
        .unwrap(),
        "process_absent: cannot read cmdline of own process 45: denied"
    );
    assert_eq!(
        check_process_absent(
            &ProcTable {
                own_uid: Err("x".to_string()),
                entries: Ok(Vec::new())
            },
            &patterns
        )
        .unwrap(),
        "process_absent: cannot identify own user: x"
    );
    assert_eq!(
        check_process_absent(
            &ProcTable {
                own_uid: Ok(5),
                entries: Err("y".to_string())
            },
            &patterns
        )
        .unwrap(),
        "process_absent: cannot inspect /proc: y"
    );
    assert_eq!(cmdline_text(b"a\0\0b c\0\xff\0"), "a b c \u{fffd}");
    // A long command line counts as a whole.
    let mut long = vec![b'x'; 70_000];
    long.extend_from_slice(b"\0/opencodex/\0start\0");
    assert!(check_process_absent(
        &table(vec![entry("46", 5, CmdlineRead::Bytes(long))]),
        &patterns
    )
    .is_some());
}

#[test]
fn process_listings_are_read_line_by_line() {
    let patterns = vec!["agent".to_string()];
    let text = "  PID UID COMMAND\n   10  501 /bin/agent run\n  11 7 agent serve\n";
    assert_eq!(
        check_listing(text, 7, &patterns).unwrap(),
        "process_absent: live process 11 matches [agent]"
    );
    // The fields are separated by padding.
    assert_eq!(
        check_listing(text, 501, &patterns).unwrap(),
        "process_absent: live process 10 matches [agent]"
    );
    let padded = capture(
        CaptureEnd::Exited(Some(0)),
        b"  1234   501 /bin/launchd start\n",
        b"",
    );
    let launchd = vec!["/bin/launchd".to_string()];
    assert_eq!(
        check_process_absent_ps(&padded, 501, &launchd).unwrap(),
        "process_absent: live process 1234 matches [/bin/launchd]"
    );
    assert_eq!(check_listing("13 7   \n", 7, &patterns), None);
    // A long listing is looked through to its end.
    let mut long = b"1 2 x\n".repeat(20_000);
    long.extend_from_slice(b"99 501 /bin/launchd\n");
    let run = capture(CaptureEnd::Exited(Some(0)), &long, b"");
    assert!(check_process_absent_ps(&run, 501, &launchd).is_some());
    assert_eq!(
        check_listing("12 7\n", 7, &patterns).unwrap(),
        "process_absent: cannot read command line of own process 12"
    );
    let run = capture(CaptureEnd::Exited(Some(0)), b"11 7 agent serve\n", b"");
    assert!(check_process_absent_ps(&run, 7, &patterns).is_some());
    let run = capture(CaptureEnd::Exited(Some(1)), b"", b"no\n");
    assert_eq!(
        check_process_absent_ps(&run, 7, &patterns).unwrap(),
        "process_absent: ps failed with exit status 1: no"
    );
}

#[test]
fn quoted_output_is_one_bounded_line() {
    assert_eq!(one_line(b"\r\n  a\tb  \nc"), "a b");
    assert_eq!(one_line(&[b'x'; 300]).len(), 240);
    assert_eq!(one_line(b"\xff"), "\u{fffd}");
    assert_eq!(one_line(b""), "");
}
