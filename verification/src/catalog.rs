//! The tool catalogue.
//!
//! Every tool is described by a descriptor file. Loading is strict and fails
//! closed: malformed descriptors, duplicate or unsafe ids and invalid safety
//! checks abort it. A missing executable marks a tool skipped, a failed
//! safety check marks it blocked.

use vstd::prelude::*;
use vstd::slice::*;
use vstd::string::*;
use vstd::utf8::*;

use crate::bytes::{
    bytes_le, bytes_ordered, is_absolute_path, lemma_bytes_le_total, lemma_bytes_le_transitive,
    path_join, utf8_lossy, PathBytes,
};
use crate::marker::{byte_len, MAX_MARKER_BYTES};
use crate::model::{CommandSpec, CommandView, Preflight, PreflightView, ToolSpec, ToolView};
use crate::number::{decimal, push_count, push_decimal};
use crate::program::{
    candidates, path_of_value, paths, program_candidates, program_form, program_string, relative_reason,
    resolve_program, resolved, value_path, well_named, SearchEnv,
};
use crate::text::{
    ascii_alphanumeric, chars_of, copy_texts, has_char, is_ascii_alphanumeric, is_blank, same_text,
    texts, trim, trimmed, trimming_takes_white_ends, white,
};

verus! {

/// Only descriptors written for this schema version load.
pub const SUPPORTED_SCHEMA: u32 = 1;

pub const MAX_ID_LEN: usize = 64;

/// Upper bound for the version line, so that a typo cannot seek absurd depths.
pub const MAX_VERSION_LINE: usize = 10000;

/// A tool as its descriptor states it.
#[derive(Debug)]
pub struct AgentDef {
    pub schema_version: u32,
    pub id: String,
    pub label: String,
    pub installed: String,
    pub update: CommandSpec,
    pub version: Option<CommandSpec>,
    pub version_line: Option<usize>,
    pub resource: Option<String>,
    pub failure_contains: Vec<String>,
    pub checks: Vec<CheckDef>,
}

/// A safety check as a descriptor states it.
#[derive(Debug)]
pub struct CheckDef {
    pub kind: String,
    pub path: Option<String>,
    pub cmdline_contains: Option<Vec<String>>,
}

/// A validated safety check.
#[derive(Debug)]
pub enum Check {
    GitClean(PathBytes),
    ProcessAbsent(Vec<String>),
}

pub enum CheckView {
    GitClean(Seq<u8>),
    ProcessAbsent(Seq<Seq<char>>),
}

impl View for Check {
    type V = CheckView;

    open spec fn view(&self) -> CheckView {
        match self {
            Check::GitClean(path) => CheckView::GitClean(path@),
            Check::ProcessAbsent(patterns) => CheckView::ProcessAbsent(texts(patterns@)),
        }
    }
}

// ---------------------------------------------------------------------------
// Validation
// ---------------------------------------------------------------------------

/// An id is short, starts with a letter or a digit, and is safe as a file
/// name.
pub open spec fn id_is_safe(id: Seq<char>) -> bool {
    &&& 0 < id.len() <= MAX_ID_LEN
    &&& ascii_alphanumeric(id[0])
    &&& forall|i: int|
        0 <= i < id.len() ==> ascii_alphanumeric(#[trigger] id[i]) || id[i] == '-' || id[i] == '_'
            || id[i] == '.'
}

pub open spec fn id_reason(id: Seq<char>) -> Seq<char> {
    "invalid agent id '"@ + id
        + "': use 1-64 ASCII chars [A-Za-z0-9._-] starting with a letter or digit"@
}

/// Checks that an id is safe.
pub fn validate_id(id: &str) -> (r: Result<(), String>)
    ensures
        r is Ok <==> id_is_safe(id@),
        r matches Err(e) ==> e@ == id_reason(id@),
{
    let v = chars_of(id);
    let mut good = 0 < v.len() && v.len() <= MAX_ID_LEN && is_ascii_alphanumeric(v[0]);
    let mut i: usize = 0;
    while good && i < v.len()
        invariant
            v@ == id@,
            i <= v@.len(),
            good ==> 0 < v@.len() <= MAX_ID_LEN && ascii_alphanumeric(v@[0]) && forall|k: int|
                0 <= k < i ==> ascii_alphanumeric(#[trigger] v@[k]) || v@[k] == '-' || v@[k] == '_'
                    || v@[k] == '.',
            !good ==> !id_is_safe(id@),
        decreases v@.len() - i + (if good {
            1int
        } else {
            0int
        }),
    {
        let c = v[i];
        if !(is_ascii_alphanumeric(c) || c == '-' || c == '_' || c == '.') {
            good = false;
        } else {
            i = i + 1;
        }
    }
    if good {
        Ok(())
    } else {
        let mut e = "invalid agent id '".to_owned();
        e.append(id);
        e.append("': use 1-64 ASCII chars [A-Za-z0-9._-] starting with a letter or digit");
        Err(e)
    }
}

/// A text that can be handed to a command: not empty, and free of zero bytes.
pub open spec fn usable(s: Seq<char>) -> bool {
    s.len() > 0 && !s.contains('\0')
}

fn is_usable(s: &str) -> (r: bool)
    ensures
        r == usable(s@),
{
    !is_blank(s) && !has_char(s, '\0')
}

pub open spec fn all_usable(list: Seq<Seq<char>>) -> bool {
    forall|i: int| 0 <= i < list.len() ==> usable(#[trigger] list[i])
}

fn are_all_usable(list: &Vec<String>) -> (r: bool)
    ensures
        r == all_usable(texts(list@)),
{
    for i in 0..list.len()
        invariant
            forall|k: int| 0 <= k < i ==> usable(#[trigger] texts(list@)[k]),
    {
        assert(texts(list@)[i as int] == list@[i as int]@);
        if !is_usable(list[i].as_str()) {
            return false;
        }
    }
    true
}

/// What is wrong with a command, nothing when it is valid.
pub open spec fn command_error(cmd: CommandView, role: Seq<char>) -> Option<Seq<char>> {
    if !usable(cmd.program) {
        Some(role + " program must be a non-empty executable name or absolute path"@)
    } else if !all_usable(cmd.args) {
        Some(role + " arguments must be non-empty and free of NUL bytes"@)
    } else {
        None
    }
}

/// Checks a command of a descriptor.
pub fn validate_command(cmd: &CommandSpec, role: &str) -> (r: Result<(), String>)
    ensures
        match command_error(cmd@, role@) {
            Some(text) => r matches Err(e) && e@ == text,
            None => r is Ok,
        },
{
    if !is_usable(cmd.program.as_str()) {
        let mut e = role.to_owned();
        e.append(" program must be a non-empty executable name or absolute path");
        return Err(e);
    }
    if !are_all_usable(&cmd.args) {
        let mut e = role.to_owned();
        e.append(" arguments must be non-empty and free of NUL bytes");
        return Err(e);
    }
    Ok(())
}

/// What is wrong with a list of literals, nothing when it is valid.
pub open spec fn literals_error(list: Seq<Seq<char>>, field: Seq<char>) -> Option<Seq<char>> {
    if all_usable(list) {
        None
    } else {
        Some(field + " entries must be non-empty and free of NUL bytes"@)
    }
}

/// Checks a list of literals. An empty one would match any output, so it is
/// rejected outright.
pub fn validate_literals(list: &Vec<String>, field: &str) -> (r: Result<(), String>)
    ensures
        match literals_error(texts(list@), field@) {
            Some(text) => r matches Err(e) && e@ == text,
            None => r is Ok,
        },
{
    if are_all_usable(list) {
        Ok(())
    } else {
        let mut e = field.to_owned();
        e.append(" entries must be non-empty and free of NUL bytes");
        Err(e)
    }
}

/// The first of `markers` that is too long for the scan, or their number.
pub open spec fn first_oversized(markers: Seq<Seq<char>>) -> int
    decreases markers.len(),
{
    if markers.len() == 0 || byte_len(markers[0]) > MAX_MARKER_BYTES {
        0
    } else {
        1 + first_oversized(markers.skip(1))
    }
}

pub open spec fn oversized_reason(marker: Seq<char>) -> Seq<char> {
    "failure_contains entry is "@ + decimal(byte_len(marker) as nat)
        + " bytes; the limit is 4096 (engine MAX_MARKER_BYTES)"@
}

fn validate_markers(markers: &Vec<String>) -> (r: Result<(), String>)
    ensures
        ({
            let list = texts(markers@);
            let k = first_oversized(list);
            if k < list.len() {
                r matches Err(e) && e@ == oversized_reason(list[k])
            } else {
                r is Ok
            }
        }),
{
    let ghost list = texts(markers@);
    assert(list.skip(0) =~= list);
    for i in 0..markers.len()
        invariant
            list == texts(markers@),
            first_oversized(list) == i + first_oversized(list.skip(i as int)),
    {
        assert(list.skip(i as int)[0] == markers@[i as int]@);
        assert(list.skip(i as int).skip(1) =~= list.skip(i + 1));
        let n: usize = markers[i].as_str().as_bytes().len();
        if n > MAX_MARKER_BYTES {
            let mut e = "failure_contains entry is ".to_owned();
            push_count(&mut e, n);
            e.append(" bytes; the limit is 4096 (engine MAX_MARKER_BYTES)");
            return Err(e);
        }
    }
    Ok(())
}

/// What is wrong with a safety check, nothing when it is valid.
pub open spec fn check_error(def: CheckDef, env: SearchEnv) -> Option<Seq<char>> {
    if def.kind@ == "git_clean"@ {
        if def.cmdline_contains is Some {
            Some("git_clean check must not set cmdline_contains"@)
        } else if def.path is None || trimmed(def.path->0@).len() == 0 {
            Some("git_clean check requires a non-empty 'path'"@)
        } else if def.path->0@.contains('\0') {
            Some("git_clean path must be free of NUL bytes"@)
        } else if !is_absolute_path(path_of_value(def.path->0@, env)) {
            Some(
                "git_clean path '"@ + def.path->0@
                    + "' must start with ~, $HOME or be absolute"@,
            )
        } else {
            None
        }
    } else if def.kind@ == "process_absent"@ {
        if def.path is Some {
            Some("process_absent check must not set 'path'"@)
        } else if def.cmdline_contains is None {
            Some("process_absent check requires 'cmdline_contains'"@)
        } else if def.cmdline_contains->0@.len() == 0 {
            Some("process_absent check requires at least one cmdline_contains entry"@)
        } else {
            literals_error(texts(def.cmdline_contains->0@), "cmdline_contains"@)
        }
    } else {
        Some("unknown safety check kind '"@ + def.kind@ + "'"@)
    }
}

/// The check that a valid definition states.
pub open spec fn check_of(def: CheckDef, env: SearchEnv) -> CheckView {
    if def.kind@ == "git_clean"@ {
        CheckView::GitClean(path_of_value(def.path->0@, env))
    } else {
        CheckView::ProcessAbsent(texts(def.cmdline_contains->0@))
    }
}

fn is_empty_when_trimmed(s: &str) -> (r: bool)
    ensures
        r == (trimmed(s@).len() == 0),
{
    trim(chars_of(s).as_slice()).len() == 0
}

/// Validates a safety check, each kind with exactly its own fields.
pub fn parse_check(def: &CheckDef, env: &SearchEnv) -> (r: Result<Check, String>)
    ensures
        match check_error(*def, *env) {
            Some(text) => r matches Err(e) && e@ == text,
            None => r matches Ok(c) && c@ == check_of(*def, *env),
        },
{
    if same_text(def.kind.as_str(), "git_clean") {
        if def.cmdline_contains.is_some() {
            return Err("git_clean check must not set cmdline_contains".to_owned());
        }
        let raw = match &def.path {
            Some(path) => path,
            None => return Err("git_clean check requires a non-empty 'path'".to_owned()),
        };
        if is_empty_when_trimmed(raw.as_str()) {
            return Err("git_clean check requires a non-empty 'path'".to_owned());
        }
        if has_char(raw.as_str(), '\0') {
            return Err("git_clean path must be free of NUL bytes".to_owned());
        }
        let path = value_path(raw.as_str(), env);
        if !path.is_absolute() {
            let mut e = "git_clean path '".to_owned();
            e.append(raw.as_str());
            e.append("' must start with ~, $HOME or be absolute");
            return Err(e);
        }
        return Ok(Check::GitClean(path));
    }
    if same_text(def.kind.as_str(), "process_absent") {
        if def.path.is_some() {
            return Err("process_absent check must not set 'path'".to_owned());
        }
        let patterns = match &def.cmdline_contains {
            Some(patterns) => patterns,
            None => return Err("process_absent check requires 'cmdline_contains'".to_owned()),
        };
        if patterns.len() == 0 {
            return Err(
                "process_absent check requires at least one cmdline_contains entry".to_owned(),
            );
        }
        if let Err(e) = validate_literals(patterns, "cmdline_contains") {
            return Err(e);
        }
        assert("git_clean"@ != "process_absent"@) by {
            reveal_strlit("git_clean");
            reveal_strlit("process_absent");
        }
        return Ok(Check::ProcessAbsent(copy_texts(patterns)));
    }
    let mut e = "unknown safety check kind '".to_owned();
    e.append(def.kind.as_str());
    e.append("'");
    Err(e)
}

/// What is wrong with the first invalid check, nothing when all are valid.
pub open spec fn checks_error(defs: Seq<CheckDef>, env: SearchEnv) -> Option<Seq<char>>
    decreases defs.len(),
{
    if defs.len() == 0 {
        None
    } else {
        match check_error(defs[0], env) {
            Some(text) => Some(text),
            None => checks_error(defs.skip(1), env),
        }
    }
}

fn validate_checks(defs: &Vec<CheckDef>, env: &SearchEnv) -> (r: Result<(), String>)
    ensures
        match checks_error(defs@, *env) {
            Some(text) => r matches Err(e) && e@ == text,
            None => r is Ok && forall|i: int|
                0 <= i < defs@.len() ==> check_error(#[trigger] defs@[i], *env) is None,
        },
{
    assert(defs@.skip(0) =~= defs@);
    for i in 0..defs.len()
        invariant
            checks_error(defs@, *env) == checks_error(defs@.skip(i as int), *env),
            forall|k: int| 0 <= k < i ==> check_error(#[trigger] defs@[k], *env) is None,
    {
        assert(defs@.skip(i as int).skip(1) =~= defs@.skip(i + 1));
        if let Err(e) = parse_check(&defs[i], env) {
            return Err(e);
        }
    }
    Ok(())
}

// ---------------------------------------------------------------------------
// Building a tool
// ---------------------------------------------------------------------------

/// The resource of a tool: its own, or its id.
pub open spec fn resource_of(def: AgentDef) -> Seq<char> {
    match def.resource {
        Some(r) => r@,
        None => def.id@,
    }
}

pub open spec fn line_of(def: AgentDef) -> int {
    match def.version_line {
        Some(n) => n as int,
        None => 0,
    }
}

/// The program of the version command, where there is one.
pub open spec fn version_program(def: AgentDef) -> Option<Seq<char>> {
    match def.version {
        Some(v) => Some(v.program@),
        None => None,
    }
}

/// What is wrong with the programs of a descriptor.
pub open spec fn programs_error(def: AgentDef, env: SearchEnv) -> Option<Seq<char>> {
    if !well_named(def.installed@, env) {
        Some(relative_reason(def.installed@))
    } else if !well_named(def.update.program@, env) {
        Some(relative_reason(def.update.program@))
    } else {
        match version_program(def) {
            Some(p) => if well_named(p, env) {
                None
            } else {
                Some(relative_reason(p))
            },
            None => None,
        }
    }
}

/// What is wrong with a descriptor, nothing when it is valid.
pub open spec fn def_error(def: AgentDef, env: SearchEnv) -> Option<Seq<char>> {
    let markers = texts(def.failure_contains@);
    if def.schema_version != SUPPORTED_SCHEMA {
        Some(
            "unsupported schema_version "@ + decimal(def.schema_version as nat)
                + " (expected 1)"@,
        )
    } else if !id_is_safe(def.id@) {
        Some(id_reason(def.id@))
    } else if trimmed(def.label@).len() == 0 {
        Some("label must be non-empty"@)
    } else if !usable(def.installed@) {
        Some("installed must be a non-empty executable name or path"@)
    } else if command_error(def.update@, "update"@) is Some {
        command_error(def.update@, "update"@)
    } else if def.version is Some && command_error(def.version->0@, "version"@) is Some {
        command_error(def.version->0@, "version"@)
    } else if line_of(def) > MAX_VERSION_LINE {
        Some("version_line "@ + decimal(line_of(def) as nat) + " exceeds 10000"@)
    } else if trimmed(resource_of(def)).len() == 0 {
        Some("resource must be non-empty"@)
    } else if !all_usable(markers) {
        literals_error(markers, "failure_contains"@)
    } else if first_oversized(markers) < markers.len() {
        Some(oversized_reason(markers[first_oversized(markers)]))
    } else if checks_error(def.checks@, env) is Some {
        checks_error(def.checks@, env)
    } else {
        programs_error(def, env)
    }
}

fn validate_def(def: &AgentDef, env: &SearchEnv) -> (r: Result<(), String>)
    ensures
        match def_error(*def, *env) {
            Some(text) => r matches Err(e) && e@ == text,
            None => r is Ok && forall|i: int|
                0 <= i < def.checks@.len() ==> check_error(#[trigger] def.checks@[i], *env) is None,
        },
{
    if def.schema_version != SUPPORTED_SCHEMA {
        let mut e = "unsupported schema_version ".to_owned();
        push_decimal(&mut e, def.schema_version as u64);
        e.append(" (expected 1)");
        return Err(e);
    }
    if let Err(e) = validate_id(def.id.as_str()) {
        return Err(e);
    }
    if is_empty_when_trimmed(def.label.as_str()) {
        return Err("label must be non-empty".to_owned());
    }
    if !is_usable(def.installed.as_str()) {
        return Err("installed must be a non-empty executable name or path".to_owned());
    }
    if let Err(e) = validate_command(&def.update, "update") {
        return Err(e);
    }
    if let Some(version) = &def.version {
        if let Err(e) = validate_command(version, "version") {
            return Err(e);
        }
    }
    let line: usize = match def.version_line {
        Some(n) => n,
        None => 0,
    };
    if line > MAX_VERSION_LINE {
        let mut e = "version_line ".to_owned();
        push_count(&mut e, line);
        e.append(" exceeds 10000");
        return Err(e);
    }
    let blank_resource = match &def.resource {
        Some(resource) => is_empty_when_trimmed(resource.as_str()),
        None => is_empty_when_trimmed(def.id.as_str()),
    };
    if blank_resource {
        return Err("resource must be non-empty".to_owned());
    }
    if let Err(e) = validate_literals(&def.failure_contains, "failure_contains") {
        return Err(e);
    }
    if let Err(e) = validate_markers(&def.failure_contains) {
        return Err(e);
    }
    if let Err(e) = validate_checks(&def.checks, env) {
        return Err(e);
    }
    if let Err(e) = program_candidates(def.installed.as_str(), env) {
        return Err(e);
    }
    if let Err(e) = program_candidates(def.update.program.as_str(), env) {
        return Err(e);
    }
    if let Some(version) = &def.version {
        if let Err(e) = program_candidates(version.program.as_str(), env) {
            return Err(e);
        }
    }
    Ok(())
}

/// Why a tool is skipped.
pub open spec fn missing_reason(what: Seq<char>, name: Seq<char>) -> Seq<char> {
    what + " '"@ + name + "' not found in PATH or ~/.local/bin, ~/.grok/bin, ~/.bun/bin"@
}

/// Why a tool is skipped.
pub fn not_found_reason(what: &str, name: &str) -> (r: String)
    ensures
        r@ == missing_reason(what@, name@),
{
    let mut s = what.to_owned();
    s.append(" '");
    s.append(name);
    s.append("' not found in PATH or ~/.local/bin, ~/.grok/bin, ~/.bun/bin");
    s
}

/// Why the tool is skipped: the first of its executables that is missing.
pub open spec fn absence(def: AgentDef, env: SearchEnv, found: Seq<Seq<u8>>) -> Option<Seq<char>> {
    if resolved(def.installed@, env, found) is None {
        Some(missing_reason("executable"@, def.installed@))
    } else if resolved(def.update.program@, env, found) is None {
        Some(missing_reason("update program"@, def.update.program@))
    } else {
        match version_program(def) {
            Some(p) => if resolved(p, env, found) is None {
                Some(missing_reason("version program"@, p))
            } else {
                None
            },
            None => None,
        }
    }
}

/// The first reason among the answers of the safety checks.
pub open spec fn first_reason(answers: Seq<Option<String>>) -> Option<Seq<char>>
    decreases answers.len(),
{
    if answers.len() == 0 {
        None
    } else {
        match answers[0] {
            Some(reason) => Some(reason@),
            None => first_reason(answers.skip(1)),
        }
    }
}

/// The command of a tool, its program resolved.
pub open spec fn command_of(cmd: CommandView, env: SearchEnv, found: Seq<Seq<u8>>) -> CommandView {
    CommandView {
        program: program_form(resolved(cmd.program, env, found), cmd.program),
        args: cmd.args,
    }
}

/// The tool that a valid descriptor describes.
pub open spec fn tool_of(
    def: AgentDef,
    env: SearchEnv,
    found: Seq<Seq<u8>>,
    preflight: PreflightView,
) -> ToolView {
    ToolView {
        id: def.id@,
        label: def.label@,
        update: command_of(def.update@, env, found),
        version: match def.version {
            Some(v) => Some(command_of(v@, env, found)),
            None => None,
        },
        resource: resource_of(def),
        version_line: line_of(def) as usize,
        failure_contains: texts(def.failure_contains@),
        preflight,
    }
}

/// What comes next when a tool is built.
#[derive(Debug)]
pub enum BuildStep {
    /// This safety check is to be evaluated.
    Evaluate(Check),
    Built(ToolSpec),
}

/// What comes next when a tool is built from a valid descriptor.
pub enum BuildView {
    Evaluate(CheckView),
    Built(ToolView),
}

impl View for BuildStep {
    type V = BuildView;

    open spec fn view(&self) -> BuildView {
        match self {
            BuildStep::Evaluate(check) => BuildView::Evaluate(check@),
            BuildStep::Built(tool) => BuildView::Built(tool@),
        }
    }
}

/// The safety checks are evaluated in order, and only when every executable
/// resolves; the first that gives a reason blocks the tool.
pub open spec fn build_outcome(
    def: AgentDef,
    env: SearchEnv,
    found: Seq<Seq<u8>>,
    answers: Seq<Option<String>>,
) -> BuildView {
    match absence(def, env, found) {
        Some(reason) => BuildView::Built(tool_of(def, env, found, PreflightView::Skipped(reason))),
        None => match first_reason(answers) {
            Some(reason) => BuildView::Built(
                tool_of(def, env, found, PreflightView::Blocked(reason)),
            ),
            None => if answers.len() < def.checks@.len() {
                BuildView::Evaluate(check_of(def.checks@[answers.len() as int], env))
            } else {
                BuildView::Built(tool_of(def, env, found, PreflightView::Ready))
            },
        },
    }
}

/// The executables that a descriptor names: every path at which one of them
/// may be found. An invalid descriptor names none.
pub fn wanted_programs(def: &AgentDef, env: &SearchEnv) -> (r: Vec<PathBytes>)
    ensures
        paths(r@) == wanted(*def, *env),
{
    let mut out: Vec<PathBytes> = Vec::new();
    assert(paths(out@) =~= Seq::<Seq<u8>>::empty());
    push_candidates(&mut out, def.installed.as_str(), env);
    push_candidates(&mut out, def.update.program.as_str(), env);
    if let Some(version) = &def.version {
        push_candidates(&mut out, version.program.as_str(), env);
    }
    assert(paths(out@) =~= wanted(*def, *env));
    out
}

/// The paths at which `value` may be found, none when it is invalid.
pub open spec fn valid_candidates(value: Seq<char>, env: SearchEnv) -> Seq<Seq<u8>> {
    if well_named(value, env) {
        crate::program::candidates(value, env)
    } else {
        Seq::empty()
    }
}

/// Every path at which an executable of the descriptor may be found.
pub open spec fn wanted(def: AgentDef, env: SearchEnv) -> Seq<Seq<u8>> {
    valid_candidates(def.installed@, env) + valid_candidates(def.update.program@, env) + (
    match version_program(def) {
        Some(p) => valid_candidates(p, env),
        None => Seq::empty(),
    })
}

fn push_candidates(out: &mut Vec<PathBytes>, value: &str, env: &SearchEnv)
    ensures
        paths(final(out)@) == paths(old(out)@) + valid_candidates(value@, *env),
{
    match program_candidates(value, env) {
        Ok(mut list) => {
            let ghost more = list@;
            out.append(&mut list);
            assert(paths(out@) =~= paths(old(out)@) + paths(more));
        },
        Err(_) => {
            assert(paths(out@) =~= paths(old(out)@) + Seq::<Seq<u8>>::empty());
        },
    }
}

/// Resolves a program whose reference has been validated.
fn resolve_valid(value: &str, env: &SearchEnv, found: &Vec<PathBytes>) -> (r: Option<PathBytes>)
    requires
        well_named(value@, *env),
    ensures
        match resolved(value@, *env, paths(found@)) {
            Some(path) => r matches Some(q) && q@ == path,
            None => r is None,
        },
{
    match resolve_program(value, env, found) {
        Ok(p) => p,
        Err(_) => None,
    }
}

fn build_command(cmd: &CommandSpec, path: &Option<PathBytes>) -> (r: CommandSpec)
    ensures
        r@.args == cmd@.args,
        r@.program == program_form(
            match *path {
                Some(p) => Some(p@),
                None => None,
            },
            cmd.program@,
        ),
{
    CommandSpec {
        program: program_string(path, cmd.program.as_str()),
        args: copy_texts(&cmd.args),
    }
}

/// Builds a tool from its descriptor. `found` are the executables among the
/// wanted programs; `answers` are those of the safety checks evaluated so
/// far, each a reason to block the tool or nothing.
///
/// Absence is a skipped state, never a prompt to install: the first missing
/// executable names the reason. The safety checks of a tool that cannot run
/// are not evaluated.
pub fn build_spec(
    def: &AgentDef,
    env: &SearchEnv,
    found: &Vec<PathBytes>,
    answers: &Vec<Option<String>>,
) -> (r: Result<BuildStep, String>)
    ensures
        match def_error(*def, *env) {
            Some(text) => r matches Err(e) && e@ == text,
            None => r matches Ok(step) && step@ == build_outcome(
                *def,
                *env,
                paths(found@),
                answers@,
            ),
        },
{
    if let Err(e) = validate_def(def, env) {
        return Err(e);
    }
    let mut preflight = Preflight::Ready;
    if resolve_valid(def.installed.as_str(), env, found).is_none() {
        preflight = Preflight::Skipped(not_found_reason("executable", def.installed.as_str()));
    }
    let update_path = resolve_valid(def.update.program.as_str(), env, found);
    if update_path.is_none() {
        if let Preflight::Ready = preflight {
            preflight = Preflight::Skipped(
                not_found_reason("update program", def.update.program.as_str()),
            );
        }
    }
    let mut version: Option<CommandSpec> = None;
    if let Some(cmd) = &def.version {
        let path = resolve_valid(cmd.program.as_str(), env, found);
        if path.is_none() {
            if let Preflight::Ready = preflight {
                preflight = Preflight::Skipped(
                    not_found_reason("version program", cmd.program.as_str()),
                );
            }
        }
        version = Some(build_command(cmd, &path));
    }
    if let Preflight::Ready = preflight {
        assert(absence(*def, *env, paths(found@)) is None);
        let mut i: usize = 0;
        let mut blocked: Option<String> = None;
        assert(answers@.skip(0) =~= answers@);
        while i < answers.len() && blocked.is_none()
            invariant
                i <= answers@.len(),
                blocked is None ==> first_reason(answers@) == first_reason(
                    answers@.skip(i as int),
                ),
                blocked matches Some(s) ==> first_reason(answers@) == Some(s@),
            decreases answers@.len() - i,
        {
            assert(answers@.skip(i as int).skip(1) =~= answers@.skip(i + 1));
            if let Some(reason) = &answers[i] {
                blocked = Some(reason.clone());
            }
            i = i + 1;
        }
        match blocked {
            Some(reason) => preflight = Preflight::Blocked(reason),
            None => {
                if answers.len() < def.checks.len() {
                    match parse_check(&def.checks[answers.len()], env) {
                        Ok(check) => return Ok(BuildStep::Evaluate(check)),
                        Err(e) => return Err(e),
                    }
                }
            },
        }
    }
    let resource = match &def.resource {
        Some(resource) => resource.clone(),
        None => def.id.clone(),
    };
    let version_line: usize = match def.version_line {
        Some(n) => n,
        None => 0,
    };
    let tool = ToolSpec {
        id: def.id.clone(),
        label: def.label.clone(),
        update: build_command(&def.update, &update_path),
        version,
        resource,
        version_line,
        failure_contains: copy_texts(&def.failure_contains),
        preflight,
    };
    Ok(BuildStep::Built(tool))
}

// ---------------------------------------------------------------------------
// Loading
// ---------------------------------------------------------------------------

/// One entry of a descriptor directory.
#[derive(Debug)]
pub struct DirEntry {
    pub name: Vec<u8>,
    /// Whether it is, symlinks followed, a regular file.
    pub is_file: bool,
}

/// What reading a descriptor directory brought.
#[derive(Debug)]
pub enum DirRead {
    Entries(Vec<DirEntry>),
    /// There is no such directory.
    NotFound(String),
    Failed(String),
}

/// A descriptor directory.
#[derive(Debug)]
pub struct SourceDir {
    pub path: PathBytes,
    pub read: DirRead,
}

/// A regular file with the extension of a descriptor.
pub open spec fn is_descriptor(entry: DirEntry) -> bool {
    entry.is_file && has_json_extension(entry.name@)
}

/// The name ends in `.json`, and something stands in front of that.
pub open spec fn has_json_extension(name: Seq<u8>) -> bool {
    name.len() > 5 && name.skip(name.len() - 5) == seq![0x2eu8, 0x6a, 0x73, 0x6f, 0x6e]
}

/// Whether a directory entry is a descriptor file.
pub fn is_descriptor_file(entry: &DirEntry) -> (r: bool)
    ensures
        r == is_descriptor(*entry),
{
    let n: usize = entry.name.len();
    if !entry.is_file || n <= 5 {
        return false;
    }
    let name = &entry.name;
    let ghost end = name@.skip(n - 5);
    let r = name[n - 5] == 0x2e && name[n - 4] == 0x6a && name[n - 3] == 0x73 && name[n - 2] == 0x6f
        && name[n - 1] == 0x6e;
    proof {
        let json = seq![0x2eu8, 0x6a, 0x73, 0x6f, 0x6e];
        if r {
            assert(end =~= json);
        } else if end == json {
            assert(end[0] == json[0] && end[1] == json[1] && end[2] == json[2] && end[3] == json[3]
                && end[4] == json[4]);
        }
    }
    r
}

/// `name` put in its place among sorted names.
pub open spec fn name_inserted(sorted: Seq<Seq<u8>>, name: Seq<u8>) -> Seq<Seq<u8>>
    decreases sorted.len(),
{
    if sorted.len() == 0 || bytes_le(sorted.last(), name) {
        sorted.push(name)
    } else {
        name_inserted(sorted.drop_last(), name).push(sorted.last())
    }
}

/// The names of the descriptor files among `entries`, sorted.
pub open spec fn descriptor_names(entries: Seq<DirEntry>) -> Seq<Seq<u8>>
    decreases entries.len(),
{
    if entries.len() == 0 {
        Seq::empty()
    } else if is_descriptor(entries.last()) {
        name_inserted(descriptor_names(entries.drop_last()), entries.last().name@)
    } else {
        descriptor_names(entries.drop_last())
    }
}

pub open spec fn names_sorted(names: Seq<Seq<u8>>) -> bool {
    forall|i: int, j: int| 0 <= i < j < names.len() ==> bytes_le(#[trigger] names[i], #[trigger] names[j])
}

fn insert_name(names: &mut Vec<PathBytes>, name: PathBytes)
    ensures
        paths(final(names)@) == name_inserted(paths(old(names)@), name@),
{
    let mut at: usize = names.len();
    let ghost all = paths(names@);
    let ghost target = name_inserted(all, name@);
    assert(all.take(all.len() as int) =~= all);
    assert(all.skip(all.len() as int) =~= Seq::<Seq<u8>>::empty());
    assert(target + Seq::<Seq<u8>>::empty() =~= target);
    while at > 0 && !bytes_ordered(names[at - 1].bytes.as_slice(), name.bytes.as_slice())
        invariant
            at <= names@.len(),
            all == paths(names@),
            target == name_inserted(all.take(at as int), name@) + all.skip(at as int),
        decreases at,
    {
        proof {
            let head = all.take(at as int);
            assert(head.last() == names@[at - 1]@);
            assert(head.drop_last() =~= all.take(at - 1));
            let rest = name_inserted(all.take(at - 1), name@);
            assert(rest.push(head.last()) + all.skip(at as int) =~= rest + all.skip(at - 1));
        }
        at = at - 1;
    }
    proof {
        let head = all.take(at as int);
        if at > 0 {
            assert(head.last() == names@[at - 1]@);
        }
        assert(target == head.push(name@) + all.skip(at as int));
    }
    let ghost before = names@;
    names.insert(at, name);
    assert(paths(names@) =~= all.take(at as int).push(name@) + all.skip(at as int));
}

fn sorted_names(entries: &Vec<DirEntry>) -> (r: Vec<PathBytes>)
    ensures
        paths(r@) == descriptor_names(entries@),
{
    let mut names: Vec<PathBytes> = Vec::new();
    assert(paths(names@) =~= Seq::<Seq<u8>>::empty());
    for i in 0..entries.len()
        invariant
            paths(names@) == descriptor_names(entries@.take(i as int)),
    {
        assert(entries@.take(i + 1).drop_last() =~= entries@.take(i as int));
        if is_descriptor_file(&entries[i]) {
            insert_name(&mut names, PathBytes::from_bytes(entries[i].name.as_slice()));
        }
    }
    assert(entries@.take(entries@.len() as int) =~= entries@);
    names
}

/// The descriptor files of a directory, in the order in which they load.
pub open spec fn dir_files(dir: SourceDir) -> Seq<Seq<u8>> {
    match dir.read {
        DirRead::Entries(entries) => descriptor_names(entries@).map_values(
            |n: Seq<u8>| path_join(dir.path@, n),
        ),
        _ => Seq::empty(),
    }
}

/// Why a directory cannot be loaded. A directory that is not required may be
/// missing.
pub open spec fn dir_error(dir: SourceDir, required: bool) -> Option<Seq<char>> {
    match dir.read {
        DirRead::Entries(_) => None,
        DirRead::NotFound(e) => if required {
            Some("agent directory not found: "@ + utf8_lossy(dir.path@) + " ("@ + e@ + ")"@)
        } else {
            None
        },
        DirRead::Failed(e) => Some(
            "cannot read agent directory "@ + utf8_lossy(dir.path@) + ": "@ + e@,
        ),
    }
}

/// Lists the descriptor files of a directory, sorted by name.
pub fn list_dir(dir: &SourceDir, required: bool) -> (r: Result<Vec<PathBytes>, String>)
    ensures
        match dir_error(*dir, required) {
            Some(text) => r matches Err(e) && e@ == text,
            None => r matches Ok(list) && paths(list@) == dir_files(*dir),
        },
{
    match &dir.read {
        DirRead::Entries(entries) => {
            let names = sorted_names(entries);
            let mut out: Vec<PathBytes> = Vec::new();
            assert(paths(out@) =~= Seq::<Seq<u8>>::empty());
            for i in 0..names.len()
                invariant
                    dir.read == DirRead::Entries(*entries),
                    paths(names@) == descriptor_names(entries@),
                    paths(out@) == dir_files(*dir).take(i as int),
            {
                let ghost all = dir_files(*dir);
                let ghost before = paths(out@);
                out.push(dir.path.join_bytes(names[i].bytes.as_slice()));
                assert(paths(names@)[i as int] == names@[i as int]@);
                assert(paths(out@) =~= before.push(all[i as int]));
                assert(all.take(i + 1) =~= all.take(i as int).push(all[i as int]));
            }
            assert(paths(names@).len() == names@.len());
            assert(dir_files(*dir).take(names@.len() as int) =~= dir_files(*dir));
            Ok(out)
        },
        DirRead::NotFound(e) => {
            if required {
                let mut s = "agent directory not found: ".to_owned();
                s.append(dir.path.display().as_str());
                s.append(" (");
                s.append(e.as_str());
                s.append(")");
                return Err(s);
            }
            let none: Vec<PathBytes> = Vec::new();
            assert(paths(none@) =~= Seq::<Seq<u8>>::empty());
            Ok(none)
        },
        DirRead::Failed(e) => {
            let mut s = "cannot read agent directory ".to_owned();
            s.append(dir.path.display().as_str());
            s.append(": ");
            s.append(e.as_str());
            Err(s)
        },
    }
}

/// What became of one descriptor file.
#[derive(Debug)]
pub enum FileRead {
    Unreadable(String),
    /// Its text is not a descriptor.
    Unparsable(String),
    /// The descriptor is not valid.
    Invalid(String),
    Built(ToolSpec),
}

/// The file at `k` has the id of an earlier one.
pub open spec fn is_duplicate(answers: Seq<FileRead>, k: int) -> bool {
    exists|j: int| 0 <= j < k && same_id(answers, j, k)
}

pub open spec fn same_id(answers: Seq<FileRead>, j: int, k: int) -> bool {
    answers[j] is Built && answers[k] is Built && answers[j]->Built_0.id@
        == answers[k]->Built_0.id@
}

/// Loading stops at the file at `k`.
pub open spec fn stops_at(answers: Seq<FileRead>, k: int) -> bool {
    !(answers[k] is Built) || is_duplicate(answers, k)
}

/// The first of the first `n` files at which loading stops, or `n`.
pub open spec fn first_stop(answers: Seq<FileRead>, n: int) -> int
    decreases n,
{
    if n <= 0 {
        0
    } else {
        let p = first_stop(answers, n - 1);
        if p < n - 1 {
            p
        } else if stops_at(answers, n - 1) {
            n - 1
        } else {
            n
        }
    }
}

/// The earlier file with the id of the file at `k`.
pub open spec fn first_with_id(answers: Seq<FileRead>, k: int) -> int {
    choose|j: int| 0 <= j < k && same_id(answers, j, k)
}

/// Why loading stops at the file at `k`.
pub open spec fn stop_text(files: Seq<Seq<u8>>, answers: Seq<FileRead>, k: int) -> Seq<char> {
    let path = utf8_lossy(files[k]);
    match answers[k] {
        FileRead::Unreadable(e) => "cannot read "@ + path + ": "@ + e@,
        FileRead::Unparsable(e) => "cannot parse "@ + path + ": "@ + e@,
        FileRead::Invalid(e) => path + ": "@ + e@,
        FileRead::Built(tool) => "duplicate agent id '"@ + tool.id@ + "': defined in both "@
            + utf8_lossy(files[first_with_id(answers, k)]) + " and "@ + path,
    }
}

/// What comes next when the catalogue is loaded.
#[derive(Debug)]
pub enum LoadStep {
    /// This file is to be read.
    Read(PathBytes),
    Done(Result<Vec<ToolSpec>, String>),
}

/// The tools held by a list.
pub open spec fn tools(v: Seq<ToolSpec>) -> Seq<ToolView> {
    v.map_values(|t: ToolSpec| t@)
}

/// The tools that the files brought.
pub open spec fn built_tools(answers: Seq<FileRead>) -> Seq<ToolView> {
    answers.map_values(|a: FileRead| a->Built_0@)
}

/// The files of both directories.
pub open spec fn all_files(builtin: SourceDir, user: Option<SourceDir>) -> Seq<Seq<u8>> {
    match user {
        Some(dir) => dir_files(builtin) + dir_files(dir),
        None => dir_files(builtin),
    }
}

pub open spec fn user_error(user: Option<SourceDir>) -> Option<Seq<char>> {
    match user {
        Some(dir) => dir_error(dir, false),
        None => None,
    }
}

/// The step that loading the catalogue takes after the given answers.
pub open spec fn load_step(
    builtin: SourceDir,
    user: Option<SourceDir>,
    answers: Seq<FileRead>,
    step: LoadStep,
) -> bool {
    let first = dir_files(builtin);
    let files = all_files(builtin, user);
    let asked = if answers.len() < first.len() || user_error(user) is Some {
        if answers.len() < first.len() {
            answers.len() as int
        } else {
            first.len() as int
        }
    } else if answers.len() < files.len() {
        answers.len() as int
    } else {
        files.len() as int
    };
    let stop = first_stop(answers, asked);
    if dir_error(builtin, true) is Some {
        step matches LoadStep::Done(Err(e)) && e@ == dir_error(builtin, true)->0
    } else if stop < asked {
        step matches LoadStep::Done(Err(e)) && e@ == stop_text(files, answers, stop)
    } else if answers.len() < first.len() {
        step matches LoadStep::Read(p) && p@ == first[answers.len() as int]
    } else if user_error(user) is Some {
        step matches LoadStep::Done(Err(e)) && e@ == user_error(user)->0
    } else if answers.len() < files.len() {
        step matches LoadStep::Read(p) && p@ == files[answers.len() as int]
    } else {
        step matches LoadStep::Done(Ok(list)) && tools(list@) == built_tools(
            answers.take(files.len() as int),
        )
    }
}

/// Looks for the file at which loading stops.
fn find_stop(files: &Vec<PathBytes>, answers: &Vec<FileRead>, n: usize) -> (r: Option<String>)
    requires
        n <= files@.len(),
        n <= answers@.len(),
    ensures
        ({
            let stop = first_stop(answers@, n as int);
            &&& r is Some <==> stop < n
            &&& r matches Some(e) ==> e@ == stop_text(paths(files@), answers@, stop)
            &&& stop <= n
            &&& r is None ==> forall|k: int| 0 <= k < n ==> (#[trigger] answers@[k]) is Built
        }),
{
    for k in 0..n
        invariant
            n <= files@.len(),
            n <= answers@.len(),
            first_stop(answers@, k as int) == k,
            forall|m: int| 0 <= m < k ==> (#[trigger] answers@[m]) is Built,
            forall|i: int, j: int| 0 <= i < j < k ==> !#[trigger] same_id(answers@, i, j),
    {
        let ghost all = paths(files@);
        assert(all[k as int] == files@[k as int]@);
        let path = files[k].display();
        match &answers[k] {
            FileRead::Unreadable(e) => {
                let mut s = "cannot read ".to_owned();
                s.append(path.as_str());
                s.append(": ");
                s.append(e.as_str());
                proof {
                    lemma_first_stop(answers@, k as int, n as int);
                }
                return Some(s);
            },
            FileRead::Unparsable(e) => {
                let mut s = "cannot parse ".to_owned();
                s.append(path.as_str());
                s.append(": ");
                s.append(e.as_str());
                proof {
                    lemma_first_stop(answers@, k as int, n as int);
                }
                return Some(s);
            },
            FileRead::Invalid(e) => {
                let mut s = path;
                s.append(": ");
                s.append(e.as_str());
                proof {
                    lemma_first_stop(answers@, k as int, n as int);
                }
                return Some(s);
            },
            FileRead::Built(tool) => {
                for j in 0..k
                    invariant
                        k < n,
                        n <= files@.len(),
                        n <= answers@.len(),
                        all == paths(files@),
                        path@ == utf8_lossy(all[k as int]),
                        answers@[k as int] == FileRead::Built(*tool),
                        first_stop(answers@, k as int) == k,
                        forall|m: int| 0 <= m < k ==> (#[trigger] answers@[m]) is Built,
                        forall|a: int, b: int|
                            0 <= a < b < k ==> !#[trigger] same_id(answers@, a, b),
                        forall|i: int| 0 <= i < j ==> !#[trigger] same_id(answers@, i, k as int),
                {
                    if let FileRead::Built(other) = &answers[j] {
                        if same_text(other.id.as_str(), tool.id.as_str()) {
                            proof {
                                assert(same_id(answers@, j as int, k as int));
                                assert(is_duplicate(answers@, k as int));
                                lemma_first_stop(answers@, k as int, n as int);
                                let w = first_with_id(answers@, k as int);
                                assert(0 <= w < k && same_id(answers@, w, k as int));
                                if w < j {
                                    assert(same_id(answers@, w, j as int));
                                } else if w > j {
                                    assert(same_id(answers@, j as int, w));
                                }
                                assert(all[j as int] == files@[j as int]@);
                            }
                            let mut s = "duplicate agent id '".to_owned();
                            s.append(tool.id.as_str());
                            s.append("': defined in both ");
                            s.append(files[j].display().as_str());
                            s.append(" and ");
                            s.append(path.as_str());
                            return Some(s);
                        }
                    }
                }
                assert(!is_duplicate(answers@, k as int));
            },
        }
    }
    None
}

proof fn lemma_first_stop(answers: Seq<FileRead>, k: int, n: int)
    requires
        0 <= k < n,
        first_stop(answers, k) == k,
        stops_at(answers, k),
    ensures
        first_stop(answers, n) == k,
    decreases n,
{
    if k < n - 1 {
        lemma_first_stop(answers, k, n - 1);
    }
}

proof fn lemma_no_stop(answers: Seq<FileRead>, n: int)
    requires
        0 <= n,
        first_stop(answers, n) == n,
    ensures
        forall|k: int| 0 <= k < n ==> !#[trigger] stops_at(answers, k),
    decreases n,
{
    if n > 0 {
        lemma_stop_bound(answers, n - 1);
        lemma_no_stop(answers, n - 1);
    }
}

proof fn lemma_stop_bound(answers: Seq<FileRead>, n: int)
    requires
        0 <= n,
    ensures
        0 <= first_stop(answers, n) <= n,
    decreases n,
{
    if n > 0 {
        lemma_stop_bound(answers, n - 1);
    }
}

fn copy_built(answers: &Vec<FileRead>, n: usize) -> (r: Vec<ToolSpec>)
    requires
        n <= answers@.len(),
        forall|k: int| 0 <= k < n ==> (#[trigger] answers@[k]) is Built,
    ensures
        tools(r@) == built_tools(answers@.take(n as int)),
{
    let mut out: Vec<ToolSpec> = Vec::new();
    let ghost all = built_tools(answers@.take(n as int));
    assert(tools(out@) =~= Seq::<ToolView>::empty());
    for i in 0..n
        invariant
            n <= answers@.len(),
            forall|k: int| 0 <= k < n ==> (#[trigger] answers@[k]) is Built,
            all == built_tools(answers@.take(n as int)),
            tools(out@) == all.take(i as int),
    {
        if let FileRead::Built(tool) = &answers[i] {
            let ghost before = tools(out@);
            out.push(tool.clone());
            assert(all[i as int] == tool@);
            assert(tools(out@) =~= before.push(tool@));
            assert(all.take(i + 1) =~= all.take(i as int).push(all[i as int]));
        }
    }
    assert(all.take(n as int) =~= all);
    out
}

/// Loads the catalogue from the built-in directory, which is required, and
/// the user directory, which may be missing or empty. `answers` are those of
/// the files that have been asked for so far. Any file that cannot be read,
/// parsed or validated, and any id that two files share, aborts the loading.
pub fn load(builtin: &SourceDir, user: &Option<SourceDir>, answers: &Vec<FileRead>) -> (r: LoadStep)
    ensures
        load_step(*builtin, *user, answers@, r),
{
    let mut files = match list_dir(builtin, true) {
        Ok(files) => files,
        Err(e) => return LoadStep::Done(Err(e)),
    };
    let first: usize = files.len();
    let ghost head = paths(files@);
    assert(head.len() == first);
    let mut failed: Option<String> = None;
    if let Some(dir) = user {
        match list_dir(dir, false) {
            Ok(mut more) => {
                let ghost tail = paths(more@);
                let ghost start = files@;
                files.append(&mut more);
                assert(paths(files@) =~= head + tail);
            },
            Err(e) => {
                failed = Some(e);
                assert(dir_files(*dir) =~= Seq::<Seq<u8>>::empty());
                assert(head + Seq::<Seq<u8>>::empty() =~= head);
            },
        }
    }
    assert(paths(files@) == all_files(*builtin, *user));
    assert(paths(files@).len() == files@.len());
    let open: usize = if answers.len() < first || failed.is_some() {
        first
    } else {
        files.len()
    };
    let asked: usize = if answers.len() < open {
        answers.len()
    } else {
        open
    };
    if let Some(e) = find_stop(&files, answers, asked) {
        return LoadStep::Done(Err(e));
    }
    if answers.len() < first {
        assert(paths(files@)[answers@.len() as int] == files@[answers@.len() as int]@);
        return LoadStep::Read(files[answers.len()].clone());
    }
    if let Some(e) = failed {
        return LoadStep::Done(Err(e));
    }
    if answers.len() < files.len() {
        assert(paths(files@)[answers@.len() as int] == files@[answers@.len() as int]@);
        return LoadStep::Read(files[answers.len()].clone());
    }
    LoadStep::Done(Ok(copy_built(answers, files.len())))
}

// ---------------------------------------------------------------------------
// Laws
// ---------------------------------------------------------------------------

/// Descriptors load in the order of their file names, each exactly once: a
/// new file extends the catalogue and nothing else changes.
pub proof fn descriptors_load_in_file_order(entries: Seq<DirEntry>)
    ensures
        names_sorted(descriptor_names(entries)),
        descriptor_names(entries).to_multiset() == entries.filter(
            |e: DirEntry| is_descriptor(e),
        ).map_values(|e: DirEntry| e.name@).to_multiset(),
    decreases entries.len(),
{
    broadcast use vstd::seq_lib::group_to_multiset_ensures;

    let keep = |e: DirEntry| is_descriptor(e);
    let name = |e: DirEntry| e.name@;
    if entries.len() == 0 {
        assert(entries.filter(keep) =~= Seq::<DirEntry>::empty()) by {
            reveal(Seq::filter);
        }
        assert(entries.filter(keep).map_values(name) =~= Seq::<Seq<u8>>::empty());
    } else {
        let rest = entries.drop_last();
        descriptors_load_in_file_order(rest);
        assert(entries.filter(keep) == if keep(entries.last()) {
            rest.filter(keep).push(entries.last())
        } else {
            rest.filter(keep)
        }) by {
            reveal(Seq::filter);
        }
        if keep(entries.last()) {
            let n = entries.last().name@;
            lemma_inserted(descriptor_names(rest), n);
            assert(entries.filter(keep).map_values(name) =~= rest.filter(keep).map_values(
                name,
            ).push(n));
        }
    }
}

proof fn lemma_inserted(sorted: Seq<Seq<u8>>, name: Seq<u8>)
    requires
        names_sorted(sorted),
    ensures
        names_sorted(name_inserted(sorted, name)),
        name_inserted(sorted, name).to_multiset() == sorted.to_multiset().insert(name),
        name_inserted(sorted, name).len() == sorted.len() + 1,
        forall|i: int|
            0 <= i < name_inserted(sorted, name).len() ==> (#[trigger] name_inserted(
                sorted,
                name,
            )[i] == name || sorted.contains(name_inserted(sorted, name)[i])),
    decreases sorted.len(),
{
    broadcast use vstd::seq_lib::group_to_multiset_ensures;

    let r = name_inserted(sorted, name);
    if sorted.len() == 0 {
    } else if bytes_le(sorted.last(), name) {
        assert forall|i: int, j: int| 0 <= i < j < r.len() implies bytes_le(
            #[trigger] r[i],
            #[trigger] r[j],
        ) by {
            if j == sorted.len() {
                if i < sorted.len() - 1 {
                    lemma_bytes_le_transitive(sorted[i], sorted.last(), name);
                }
            }
        }
        assert forall|i: int| 0 <= i < r.len() implies (#[trigger] r[i] == name
            || sorted.contains(r[i])) by {
            if i < sorted.len() {
                assert(sorted.contains(sorted[i]));
            }
        }
    } else {
        let front = sorted.drop_last();
        let last = sorted.last();
        lemma_inserted(front, name);
        lemma_bytes_le_total(name, last);
        let p = name_inserted(front, name);
        assert forall|i: int, j: int| 0 <= i < j < r.len() implies bytes_le(
            #[trigger] r[i],
            #[trigger] r[j],
        ) by {
            if j == p.len() {
                assert(r[i] == p[i]);
                if p[i] != name {
                    let k = front.index_of(p[i]);
                    assert(sorted[k] == p[i]);
                }
            } else {
                assert(r[i] == p[i] && r[j] == p[j]);
            }
        }
        assert forall|i: int| 0 <= i < r.len() implies (#[trigger] r[i] == name
            || sorted.contains(r[i])) by {
            if i < p.len() {
                assert(r[i] == p[i]);
                if p[i] != name {
                    let k = front.index_of(p[i]);
                    assert(sorted[k] == p[i]);
                }
            } else {
                assert(sorted[sorted.len() - 1] == last);
            }
        }
        assert(sorted =~= front.push(last));
        assert(sorted.to_multiset() == front.to_multiset().insert(last));
        assert(r.to_multiset() == p.to_multiset().insert(last));
        assert(front.to_multiset().insert(name).insert(last) =~= front.to_multiset().insert(
            last,
        ).insert(name));
    }
}

/// Loading fails closed: a catalogue comes out only when both directories
/// could be listed and every file of theirs was read, parsed and validated,
/// and then no two of its tools share an id.
pub proof fn loading_fails_closed(
    builtin: SourceDir,
    user: Option<SourceDir>,
    answers: Seq<FileRead>,
    step: LoadStep,
)
    requires
        load_step(builtin, user, answers, step),
        step matches LoadStep::Done(Ok(_)),
    ensures
        dir_error(builtin, true) is None,
        user_error(user) is None,
        ({
            let n = all_files(builtin, user).len();
            let list = step->Done_0->Ok_0@;
            &&& list.len() == n
            &&& n <= answers.len()
            &&& forall|k: int| 0 <= k < n ==> (#[trigger] answers[k]) is Built
            &&& forall|i: int, j: int|
                0 <= i < j < n ==> (#[trigger] list[i]).id@ != (#[trigger] list[j]).id@
        }),
{
    let n = all_files(builtin, user).len() as int;
    let list = step->Done_0->Ok_0@;
    let part = answers.take(n);
    assert(tools(list).len() == list.len());
    lemma_stop_bound(answers, n);
    lemma_no_stop(answers, n);
    assert forall|k: int| 0 <= k < n implies (#[trigger] answers[k]) is Built by {
        assert(!stops_at(answers, k));
    }
    assert forall|i: int, j: int| 0 <= i < j < n implies (#[trigger] list[i]).id@ != (
    #[trigger] list[j]).id@ by {
        assert(tools(list)[i] == list[i]@ && tools(list)[j] == list[j]@);
        assert(built_tools(part)[i] == answers[i]->Built_0@);
        assert(built_tools(part)[j] == answers[j]->Built_0@);
        assert(!stops_at(answers, j));
        assert(!same_id(answers, i, j));
    }
}

/// A tool that is built from a descriptor has a safe id, a resource, and only
/// failure markers that the scan takes.
pub proof fn built_tools_are_valid(
    def: AgentDef,
    env: SearchEnv,
    found: Seq<Seq<u8>>,
    answers: Seq<Option<String>>,
)
    requires
        def_error(def, env) is None,
        build_outcome(def, env, found, answers) is Built,
    ensures
        ({
            let tool = build_outcome(def, env, found, answers)->Built_0;
            &&& id_is_safe(tool.id)
            &&& tool.resource.len() > 0
            &&& tool.version_line <= MAX_VERSION_LINE
            &&& forall|k: int|
                0 <= k < tool.failure_contains.len() ==> 0 < (
                #[trigger] tool.failure_contains[k]).len() && byte_len(tool.failure_contains[k])
                    <= MAX_MARKER_BYTES
        }),
{
    let markers = texts(def.failure_contains@);
    lemma_none_oversized(markers);
    assert(trimmed(Seq::<char>::empty()).len() == 0);
    assert forall|k: int| 0 <= k < markers.len() implies 0 < (#[trigger] markers[k]).len()
        && byte_len(markers[k]) <= MAX_MARKER_BYTES by {
        assert(usable(markers[k]));
    }
    let resource = resource_of(def);
    if resource.len() == 0 {
        assert(resource =~= Seq::<char>::empty());
    }
}

proof fn lemma_none_oversized(markers: Seq<Seq<char>>)
    requires
        first_oversized(markers) >= markers.len(),
    ensures
        forall|k: int|
            0 <= k < markers.len() ==> byte_len(#[trigger] markers[k]) <= MAX_MARKER_BYTES,
    decreases markers.len(),
{
    if markers.len() > 0 {
        let rest = markers.skip(1);
        lemma_none_oversized(rest);
        assert forall|k: int| 0 <= k < markers.len() implies byte_len(#[trigger] markers[k])
            <= MAX_MARKER_BYTES by {
            if k > 0 {
                assert(markers[k] == rest[k - 1]);
            }
        }
    }
}

/// A tool runs only when every executable resolves and every safety check was
/// evaluated and gave no reason against it. A missing executable skips the
/// tool, whatever its checks would say.
pub proof fn only_safe_tools_are_ready(
    def: AgentDef,
    env: SearchEnv,
    found: Seq<Seq<u8>>,
    answers: Seq<Option<String>>,
)
    requires
        build_outcome(def, env, found, answers) is Built,
    ensures
        ({
            let tool = build_outcome(def, env, found, answers)->Built_0;
            &&& tool.preflight is Ready ==> absence(def, env, found) is None && answers.len()
                >= def.checks@.len() && forall|k: int|
                0 <= k < answers.len() ==> (#[trigger] answers[k]) is None
            &&& tool.preflight is Skipped <==> absence(def, env, found) is Some
        }),
{
    lemma_no_reason(answers);
}

proof fn lemma_no_reason(answers: Seq<Option<String>>)
    ensures
        first_reason(answers) is None ==> forall|k: int|
            0 <= k < answers.len() ==> (#[trigger] answers[k]) is None,
    decreases answers.len(),
{
    if answers.len() > 0 && answers[0] is None {
        let rest = answers.skip(1);
        lemma_no_reason(rest);
        if first_reason(answers) is None {
            assert forall|k: int| 0 <= k < answers.len() implies (#[trigger] answers[k]) is None by {
                if k > 0 {
                    assert(answers[k] == rest[k - 1]);
                }
            }
        }
    }
}

/// A built tool says what its descriptor says: its resource is the one that
/// the descriptor sets, and only without one its id. The arguments and the
/// failure markers are those of the descriptor, one for one.
pub proof fn tools_say_what_their_descriptor_says(
    def: AgentDef,
    env: SearchEnv,
    found: Seq<Seq<u8>>,
    answers: Seq<Option<String>>,
    tool: ToolSpec,
)
    requires
        def_error(def, env) is None,
        build_outcome(def, env, found, answers) == BuildView::Built(tool@),
    ensures
        tool.id@ == def.id@,
        tool.label@ == def.label@,
        def.resource matches Some(resource) ==> tool.resource@ == resource@,
        def.resource is None ==> tool.resource@ == def.id@,
        def.version_line matches Some(n) ==> tool.version_line == n,
        def.version_line is None ==> tool.version_line == 0,
        tool.failure_contains@.len() == def.failure_contains@.len(),
        forall|k: int|
            0 <= k < def.failure_contains@.len() ==> (#[trigger] tool.failure_contains@[k])@
                == def.failure_contains@[k]@,
        tool.update.args@.len() == def.update.args@.len(),
        forall|k: int|
            0 <= k < def.update.args@.len() ==> (#[trigger] tool.update.args@[k])@
                == def.update.args@[k]@,
        tool.version is Some <==> def.version is Some,
        def.version matches Some(v) ==> tool.version->0.args@.len() == v.args@.len(),
        def.version matches Some(v) ==> forall|k: int|
            0 <= k < v.args@.len() ==> (#[trigger] tool.version->0.args@[k])@ == v.args@[k]@,
{
    assert(tool@ == build_outcome(def, env, found, answers)->Built_0);
    lemma_same_texts(tool.failure_contains@, def.failure_contains@);
    lemma_same_texts(tool.update.args@, def.update.args@);
    if let Some(v) = def.version {
        lemma_same_texts(tool.version->0.args@, v.args@);
    }
}

proof fn lemma_same_texts(a: Seq<String>, b: Seq<String>)
    requires
        texts(a) == texts(b),
    ensures
        a.len() == b.len(),
        forall|k: int| 0 <= k < b.len() ==> (#[trigger] a[k])@ == b[k]@,
{
    assert(texts(a).len() == a.len() && texts(b).len() == b.len());
    assert forall|k: int| 0 <= k < b.len() implies (#[trigger] a[k])@ == b[k]@ by {
        assert(texts(a)[k] == a[k]@ && texts(b)[k] == b[k]@);
    }
}

/// Tools whose descriptors set the same resource share it, whatever else the
/// descriptors say.
pub proof fn resources_are_shared_by_name(
    def: AgentDef,
    tool: ToolSpec,
    other_def: AgentDef,
    other: ToolSpec,
    env: SearchEnv,
    found: Seq<Seq<u8>>,
    answers: Seq<Option<String>>,
    other_answers: Seq<Option<String>>,
)
    requires
        def_error(def, env) is None,
        def_error(other_def, env) is None,
        build_outcome(def, env, found, answers) == BuildView::Built(tool@),
        build_outcome(other_def, env, found, other_answers) == BuildView::Built(other@),
        def.resource is Some,
        other_def.resource is Some,
    ensures
        tool.resource@ == other.resource@ <==> def.resource->0@ == other_def.resource->0@,
{
    tools_say_what_their_descriptor_says(def, env, found, answers, tool);
    tools_say_what_their_descriptor_says(other_def, env, found, other_answers, other);
}

/// A program that is found is started by its path, one that is not keeps the
/// name it was given; the tool is then skipped, and that names the first
/// program missing.
pub proof fn missing_programs_skip_the_tool(
    def: AgentDef,
    env: SearchEnv,
    found: Seq<Seq<u8>>,
    answers: Seq<Option<String>>,
    tool: ToolSpec,
)
    requires
        def_error(def, env) is None,
        build_outcome(def, env, found, answers) == BuildView::Built(tool@),
    ensures
        match resolved(def.update.program@, env, found) {
            Some(path) => tool.update.program@ == utf8_lossy(path),
            None => tool.update.program@ == def.update.program@,
        },
        def.version matches Some(v) ==> match resolved(v.program@, env, found) {
            Some(path) => tool.version->0.program@ == utf8_lossy(path),
            None => tool.version->0.program@ == v.program@,
        },
        tool.preflight is Skipped <==> resolved(def.installed@, env, found) is None || resolved(
            def.update.program@,
            env,
            found,
        ) is None || (def.version is Some && resolved(def.version->0.program@, env, found) is None),
        resolved(def.installed@, env, found) is None ==> tool.preflight->Skipped_0@
            == "executable '"@ + def.installed@
            + "' not found in PATH or ~/.local/bin, ~/.grok/bin, ~/.bun/bin"@,
        resolved(def.installed@, env, found) is Some && resolved(def.update.program@, env, found)
            is None ==> tool.preflight->Skipped_0@ == "update program '"@ + def.update.program@
            + "' not found in PATH or ~/.local/bin, ~/.grok/bin, ~/.bun/bin"@,
        resolved(def.installed@, env, found) is Some && resolved(def.update.program@, env, found)
            is Some && tool.preflight is Skipped ==> tool.preflight->Skipped_0@
            == "version program '"@ + def.version->0.program@
            + "' not found in PATH or ~/.local/bin, ~/.grok/bin, ~/.bun/bin"@,
{
    assert(tool@ == build_outcome(def, env, found, answers)->Built_0);
    reveal_strlit("executable");
    reveal_strlit("executable '");
    reveal_strlit("update program");
    reveal_strlit("update program '");
    reveal_strlit("version program");
    reveal_strlit("version program '");
    reveal_strlit(" '");
    assert("executable"@ + " '"@ =~= "executable '"@);
    assert("update program"@ + " '"@ =~= "update program '"@);
    assert("version program"@ + " '"@ =~= "version program '"@);
}

/// With every program found, the safety checks are asked for one after the
/// other; the first reason against the tool blocks it with that reason, and
/// with none it is ready.
pub proof fn checks_are_asked_in_order(
    def: AgentDef,
    env: SearchEnv,
    found: Seq<Seq<u8>>,
    answers: Seq<Option<String>>,
    step: BuildStep,
    k: int,
)
    requires
        def_error(def, env) is None,
        step@ == build_outcome(def, env, found, answers),
        resolved(def.installed@, env, found) is Some,
        resolved(def.update.program@, env, found) is Some,
        def.version matches Some(v) ==> resolved(v.program@, env, found) is Some,
        0 <= k <= answers.len(),
        forall|i: int| 0 <= i < k ==> (#[trigger] answers[i]) is None,
        k < answers.len() ==> answers[k] is Some,
    ensures
        k < answers.len() ==> (step matches BuildStep::Built(tool) && tool.preflight
            matches Preflight::Blocked(reason) && reason@ == answers[k]->0@),
        k == answers.len() && k < def.checks@.len() ==> (step matches BuildStep::Evaluate(check)
            && check@ == check_of(def.checks@[k], env)),
        k == answers.len() && k >= def.checks@.len() ==> (step matches BuildStep::Built(tool)
            && tool.preflight is Ready),
{
    lemma_first_reason(answers, k);
}

proof fn lemma_first_reason(answers: Seq<Option<String>>, k: int)
    requires
        0 <= k <= answers.len(),
        forall|i: int| 0 <= i < k ==> (#[trigger] answers[i]) is None,
        k < answers.len() ==> answers[k] is Some,
    ensures
        k == answers.len() ==> first_reason(answers) is None,
        k < answers.len() ==> first_reason(answers) == Some(answers[k]->0@),
    decreases k,
{
    if k > 0 {
        let rest = answers.skip(1);
        assert forall|i: int| 0 <= i < k - 1 implies (#[trigger] rest[i]) is None by {
            assert(rest[i] == answers[i + 1]);
        }
        lemma_first_reason(rest, k - 1);
    }
}

/// A safety check is valid exactly when it is of a known kind and has the
/// fields of that kind and no others; it then is of that kind, with the value
/// it states.
pub proof fn checks_have_exactly_their_own_fields(def: CheckDef, env: SearchEnv)
    ensures
        def.kind@ == "git_clean"@ ==> (check_error(def, env) is None <==> def.cmdline_contains
            is None && def.path is Some && (exists|i: int|
            0 <= i < def.path->0@.len() && !white(#[trigger] def.path->0@[i]))
            && !def.path->0@.contains('\0') && path_of_value(def.path->0@, env).len() > 0
            && path_of_value(def.path->0@, env)[0] == 0x2f),
        def.kind@ == "process_absent"@ ==> (check_error(def, env) is None <==> def.path is None
            && def.cmdline_contains is Some && def.cmdline_contains->0@.len() > 0 && forall|i: int|
            0 <= i < def.cmdline_contains->0@.len() ==> (
            #[trigger] def.cmdline_contains->0@[i])@.len() > 0
                && !def.cmdline_contains->0@[i]@.contains('\0')),
        def.kind@ != "git_clean"@ && def.kind@ != "process_absent"@ ==> check_error(def, env)
            is Some,
        def.kind@ == "git_clean"@ ==> check_of(def, env) == CheckView::GitClean(
            path_of_value(def.path->0@, env),
        ),
        def.kind@ == "process_absent"@ ==> check_of(def, env) == CheckView::ProcessAbsent(
            texts(def.cmdline_contains->0@),
        ),
{
    assert("git_clean"@ != "process_absent"@) by {
        reveal_strlit("git_clean");
        reveal_strlit("process_absent");
        assert("git_clean"@.len() != "process_absent"@.len());
    }
    if def.kind@ == "git_clean"@ && def.path is Some {
        lemma_not_blank(def.path->0@);
    }
    if def.kind@ == "process_absent"@ && def.cmdline_contains is Some {
        lemma_usable_texts(def.cmdline_contains->0@);
    }
}

proof fn lemma_not_blank(s: Seq<char>)
    ensures
        trimmed(s).len() > 0 <==> exists|i: int| 0 <= i < s.len() && !white(#[trigger] s[i]),
{
    trimming_takes_white_ends(s);
    let (i, j) = choose|i: int, j: int|
        0 <= i <= j <= s.len() && trimmed(s) == #[trigger] s.subrange(i, j) && (forall|k: int|
            0 <= k < i || j <= k < s.len() ==> white(#[trigger] s[k]));
    if trimmed(s).len() > 0 {
        assert(trimmed(s)[0] == s[i]);
        assert(!white(s[i]));
    }
}

proof fn lemma_usable_texts(list: Seq<String>)
    ensures
        all_usable(texts(list)) <==> forall|i: int|
            0 <= i < list.len() ==> (#[trigger] list[i])@.len() > 0 && !list[i]@.contains('\0'),
{
    let t = texts(list);
    assert(t.len() == list.len());
    if all_usable(t) {
        assert forall|i: int| 0 <= i < list.len() implies (#[trigger] list[i])@.len() > 0
            && !list[i]@.contains('\0') by {
            assert(usable(t[i]));
        }
    } else {
        let i = choose|i: int| 0 <= i < t.len() && !usable(#[trigger] t[i]);
        assert(t[i] == list[i]@);
    }
}

proof fn lemma_all_checks_valid(defs: Seq<CheckDef>, env: SearchEnv)
    ensures
        checks_error(defs, env) is None <==> forall|i: int|
            0 <= i < defs.len() ==> check_error(#[trigger] defs[i], env) is None,
    decreases defs.len(),
{
    if defs.len() > 0 {
        let rest = defs.skip(1);
        lemma_all_checks_valid(rest, env);
        if check_error(defs[0], env) is None && checks_error(rest, env) is None {
            assert forall|i: int| 0 <= i < defs.len() implies check_error(
                #[trigger] defs[i],
                env,
            ) is None by {
                if i > 0 {
                    assert(defs[i] == rest[i - 1]);
                }
            }
        }
        if forall|i: int| 0 <= i < defs.len() ==> check_error(#[trigger] defs[i], env) is None {
            assert forall|i: int| 0 <= i < rest.len() implies check_error(
                #[trigger] rest[i],
                env,
            ) is None by {
                assert(rest[i] == defs[i + 1]);
            }
        }
    }
}

proof fn lemma_some_oversized(markers: Seq<Seq<char>>)
    ensures
        first_oversized(markers) >= markers.len() <==> forall|k: int|
            0 <= k < markers.len() ==> byte_len(#[trigger] markers[k]) <= MAX_MARKER_BYTES,
    decreases markers.len(),
{
    if markers.len() > 0 {
        let rest = markers.skip(1);
        lemma_some_oversized(rest);
        if first_oversized(markers) >= markers.len() {
            lemma_none_oversized(markers);
        }
        if forall|k: int|
            0 <= k < markers.len() ==> byte_len(#[trigger] markers[k]) <= MAX_MARKER_BYTES {
            assert forall|k: int| 0 <= k < rest.len() implies byte_len(#[trigger] rest[k])
                <= MAX_MARKER_BYTES by {
                assert(rest[k] == markers[k + 1]);
            }
        }
    }
}

/// What a command must be made of.
pub open spec fn sound_command(cmd: CommandSpec) -> bool {
    &&& cmd.program@.len() > 0
    &&& !cmd.program@.contains('\0')
    &&& forall|i: int|
        0 <= i < cmd.args@.len() ==> (#[trigger] cmd.args@[i])@.len() > 0
            && !cmd.args@[i]@.contains('\0')
}

/// A name with a slash must stand for an absolute path.
pub open spec fn sound_name(value: Seq<char>, env: SearchEnv) -> bool {
    value.contains('/') ==> path_of_value(value, env).len() > 0 && path_of_value(value, env)[0]
        == 0x2f
}

/// A descriptor is accepted exactly when it is of the supported version, has a
/// safe id and a label, commands and literals that can be handed on, bounded
/// numbers and markers, valid checks, and no relative program paths.
pub proof fn descriptors_are_accepted_exactly_when_sound(def: AgentDef, env: SearchEnv)
    ensures
        def_error(def, env) is None <==> {
            &&& def.schema_version == 1
            &&& 0 < def.id@.len() <= 64
            &&& def.id@[0] != '-' && def.id@[0] != '_' && def.id@[0] != '.'
            &&& forall|i: int|
                0 <= i < def.id@.len() ==> ('0' <= #[trigger] def.id@[i] && def.id@[i] <= '9') || (
                'A' <= def.id@[i] && def.id@[i] <= 'Z') || ('a' <= def.id@[i] && def.id@[i] <= 'z')
                    || def.id@[i] == '-' || def.id@[i] == '_' || def.id@[i] == '.'
            &&& exists|i: int| 0 <= i < def.label@.len() && !white(#[trigger] def.label@[i])
            &&& def.installed@.len() > 0 && !def.installed@.contains('\0')
            &&& sound_command(def.update)
            &&& def.version matches Some(v) ==> sound_command(v)
            &&& def.version_line matches Some(n) ==> n <= 10_000
            &&& def.resource matches Some(r) ==> exists|i: int|
                0 <= i < r@.len() && !white(#[trigger] r@[i])
            &&& forall|i: int|
                0 <= i < def.failure_contains@.len() ==> (
                #[trigger] def.failure_contains@[i])@.len() > 0
                    && !def.failure_contains@[i]@.contains('\0') && encode_utf8(
                    def.failure_contains@[i]@,
                ).len() <= 4096
            &&& forall|i: int|
                0 <= i < def.checks@.len() ==> check_error(#[trigger] def.checks@[i], env) is None
            &&& sound_name(def.installed@, env)
            &&& sound_name(def.update.program@, env)
            &&& def.version matches Some(v) ==> sound_name(v.program@, env)
        },
{
    let markers = texts(def.failure_contains@);
    lemma_not_blank(def.label@);
    lemma_not_blank(resource_of(def));
    lemma_usable_texts(def.update.args@);
    if let Some(v) = def.version {
        lemma_usable_texts(v.args@);
    }
    lemma_usable_texts(def.failure_contains@);
    lemma_some_oversized(markers);
    lemma_all_checks_valid(def.checks@, env);
    assert(id_is_safe(def.id@) ==> !white(def.id@[0]));
    let short = forall|k: int|
        0 <= k < markers.len() ==> byte_len(#[trigger] markers[k]) <= MAX_MARKER_BYTES;
    let short_texts = forall|i: int|
        0 <= i < def.failure_contains@.len() ==> encode_utf8(
            (#[trigger] def.failure_contains@[i])@,
        ).len() <= 4096;
    if short {
        assert forall|i: int| 0 <= i < def.failure_contains@.len() implies encode_utf8(
            (#[trigger] def.failure_contains@[i])@,
        ).len() <= 4096 by {
            assert(byte_len(markers[i]) <= MAX_MARKER_BYTES);
        }
    }
    if short_texts {
        assert forall|k: int| 0 <= k < markers.len() implies byte_len(#[trigger] markers[k])
            <= MAX_MARKER_BYTES by {
            assert(markers[k] == def.failure_contains@[k]@);
        }
    }
    assert(short == short_texts);
}

/// Descriptor files are the regular files whose name ends in `.json`, with
/// something in front of it.
pub proof fn descriptors_end_in_json(entry: DirEntry)
    ensures
        is_descriptor(entry) <==> entry.is_file && exists|stem: Seq<u8>|
            stem.len() > 0 && entry.name@ == #[trigger] (stem + encode_utf8(".json"@)),
{
    reveal_strlit(".json");
    assert(is_ascii_chars(".json"@));
    is_ascii_chars_encode_utf8(".json"@);
    let json = seq![0x2eu8, 0x6a, 0x73, 0x6f, 0x6e];
    assert(encode_utf8(".json"@) =~= json);
    let name = entry.name@;
    if has_json_extension(name) {
        let stem = name.take(name.len() - 5);
        assert(name =~= stem + json);
    }
    if exists|stem: Seq<u8>|
        stem.len() > 0 && entry.name@ == #[trigger] (stem + encode_utf8(".json"@)) {
        let stem = choose|stem: Seq<u8>|
            stem.len() > 0 && entry.name@ == #[trigger] (stem + encode_utf8(".json"@));
        assert(name.skip(name.len() - 5) =~= json);
    }
}

/// When every file brought a tool and no two share an id, loading ends with
/// these tools, in the order of the files, those of the built-in directory
/// first.
pub proof fn valid_descriptors_all_load(
    builtin: SourceDir,
    user: Option<SourceDir>,
    answers: Seq<FileRead>,
    step: LoadStep,
)
    requires
        load_step(builtin, user, answers, step),
        builtin.read is Entries,
        user matches Some(dir) ==> !(dir.read is Failed),
        answers.len() == dir_files(builtin).len() + (match user {
            Some(dir) => dir_files(dir).len(),
            None => 0,
        }),
        forall|k: int| 0 <= k < answers.len() ==> (#[trigger] answers[k]) is Built,
        forall|j: int, k: int|
            0 <= j < k < answers.len() ==> (#[trigger] answers[j])->Built_0.id@ != (
            #[trigger] answers[k])->Built_0.id@,
    ensures
        step matches LoadStep::Done(Ok(list)) && list@.len() == answers.len() && forall|k: int|
            0 <= k < answers.len() ==> (#[trigger] list@[k])@ == answers[k]->Built_0@,
{
    let n = answers.len() as int;
    assert(all_files(builtin, user).len() == n);
    lemma_all_pass(answers, n);
    assert(answers.take(n) =~= answers);
    let list = step->Done_0->Ok_0@;
    assert(tools(list).len() == list.len());
    assert forall|k: int| 0 <= k < answers.len() implies (#[trigger] list[k])@
        == answers[k]->Built_0@ by {
        assert(tools(list)[k] == built_tools(answers)[k]);
    }
}

proof fn lemma_all_pass(answers: Seq<FileRead>, n: int)
    requires
        0 <= n <= answers.len(),
        forall|k: int| 0 <= k < n ==> (#[trigger] answers[k]) is Built,
        forall|j: int, k: int|
            0 <= j < k < n ==> (#[trigger] answers[j])->Built_0.id@ != (
            #[trigger] answers[k])->Built_0.id@,
    ensures
        first_stop(answers, n) == n,
    decreases n,
{
    if n > 0 {
        lemma_all_pass(answers, n - 1);
        assert(!is_duplicate(answers, n - 1));
    }
}

/// A file that cannot be read, parsed or validated, and one whose tool has
/// the id of an earlier one, ends the loading in an error that names the file.
pub proof fn bad_descriptors_end_the_loading(
    builtin: SourceDir,
    user: Option<SourceDir>,
    answers: Seq<FileRead>,
    step: LoadStep,
    k: int,
)
    requires
        load_step(builtin, user, answers, step),
        builtin.read is Entries,
        user matches Some(dir) ==> !(dir.read is Failed),
        answers.len() <= all_files(builtin, user).len(),
        0 <= k < answers.len(),
        forall|i: int| 0 <= i < k ==> (#[trigger] answers[i]) is Built,
        forall|i: int, j: int|
            0 <= i < j < k ==> (#[trigger] answers[i])->Built_0.id@ != (
            #[trigger] answers[j])->Built_0.id@,
        !(answers[k] is Built) || exists|j: int|
            0 <= j < k && (#[trigger] answers[j])->Built_0.id@ == answers[k]->Built_0.id@,
    ensures
        step matches LoadStep::Done(Err(_)),
        ({
            let path = utf8_lossy(all_files(builtin, user)[k]);
            let text = step->Done_0->Err_0@;
            match answers[k] {
                FileRead::Unreadable(e) => text == "cannot read "@ + path + ": "@ + e@,
                FileRead::Unparsable(e) => text == "cannot parse "@ + path + ": "@ + e@,
                FileRead::Invalid(e) => text == path + ": "@ + e@,
                FileRead::Built(tool) => exists|j: int|
                    0 <= j < k && (#[trigger] answers[j])->Built_0.id@ == tool.id@ && text
                        == "duplicate agent id '"@ + tool.id@ + "': defined in both "@
                        + utf8_lossy(all_files(builtin, user)[j]) + " and "@ + path,
            }
        }),
{
    lemma_all_pass(answers, k);
    if answers[k] is Built {
        let j = choose|j: int|
            0 <= j < k && (#[trigger] answers[j])->Built_0.id@ == answers[k]->Built_0.id@;
        assert(same_id(answers, j, k));
        assert(is_duplicate(answers, k));
        let w = first_with_id(answers, k);
        assert(0 <= w < k && same_id(answers, w, k));
        assert(answers[w]->Built_0.id@ == answers[k]->Built_0.id@);
    }
    lemma_first_stop(answers, k, answers.len() as int);
    let first = dir_files(builtin);
    assert(all_files(builtin, user).len() >= first.len());
}

/// The files are asked for one after the other, first those of the built-in
/// directory, then those of the user's.
pub proof fn files_are_read_in_order(
    builtin: SourceDir,
    user: Option<SourceDir>,
    answers: Seq<FileRead>,
    step: LoadStep,
)
    requires
        load_step(builtin, user, answers, step),
        builtin.read is Entries,
        user matches Some(dir) ==> !(dir.read is Failed),
        forall|k: int| 0 <= k < answers.len() ==> (#[trigger] answers[k]) is Built,
        forall|j: int, k: int|
            0 <= j < k < answers.len() ==> (#[trigger] answers[j])->Built_0.id@ != (
            #[trigger] answers[k])->Built_0.id@,
    ensures
        answers.len() < dir_files(builtin).len() ==> (step matches LoadStep::Read(p) && p@
            == dir_files(builtin)[answers.len() as int]),
        user matches Some(dir) ==> dir_files(builtin).len() <= answers.len() < dir_files(
            builtin,
        ).len() + dir_files(dir).len() ==> (step matches LoadStep::Read(p) && p@ == dir_files(
            dir,
        )[answers.len() - dir_files(builtin).len()]),
{
    let n = answers.len() as int;
    lemma_all_pass(answers, n);
}

/// The built-in directory must be there, the user's need not; a directory that
/// cannot be read ends the loading.
pub proof fn only_the_user_directory_may_be_missing(
    builtin: SourceDir,
    user: Option<SourceDir>,
    answers: Seq<FileRead>,
    step: LoadStep,
)
    requires
        load_step(builtin, user, answers, step),
    ensures
        builtin.read matches DirRead::NotFound(e) ==> (step matches LoadStep::Done(Err(t)) && t@
            == "agent directory not found: "@ + utf8_lossy(builtin.path@) + " ("@ + e@ + ")"@),
        builtin.read matches DirRead::Failed(e) ==> (step matches LoadStep::Done(Err(t)) && t@
            == "cannot read agent directory "@ + utf8_lossy(builtin.path@) + ": "@ + e@),
        builtin.read is Entries && dir_files(builtin).len() == 0 && (match user {
            Some(dir) => dir.read is NotFound,
            None => true,
        }) ==> (step matches LoadStep::Done(Ok(list)) && list@.len() == 0),
        builtin.read is Entries && dir_files(builtin).len() == 0 && (user matches Some(dir)
            && dir.read is Failed) ==> (step matches LoadStep::Done(Err(_))),
{
    if builtin.read is Entries && dir_files(builtin).len() == 0 && (match user {
        Some(dir) => dir.read is NotFound,
        None => true,
    }) {
        assert(all_files(builtin, user).len() == 0);
        let list = step->Done_0->Ok_0@;
        assert(tools(list).len() == 0);
    }
}

/// What a listed file stands for: a name below its directory.
pub proof fn files_stand_below_their_directory(dir: SourceDir, entries: Seq<DirEntry>, i: int)
    requires
        dir.read matches DirRead::Entries(list) && list@ == entries,
        0 <= i < dir_files(dir).len(),
    ensures
        dir_files(dir).len() == descriptor_names(entries).len(),
        dir_files(dir)[i] == path_join(dir.path@, descriptor_names(entries)[i]),
{
}

/// An id is safe exactly when it has one to sixty-four characters, all letters,
/// digits, dots, dashes or underscores, the first a letter or a digit.
pub proof fn ids_are_short_and_plain(id: Seq<char>)
    ensures
        id_is_safe(id) <==> 0 < id.len() <= 64 && id[0] != '.' && id[0] != '-' && id[0] != '_'
            && forall|i: int|
            0 <= i < id.len() ==> ('0' <= #[trigger] id[i] && id[i] <= '9') || ('A' <= id[i]
                && id[i] <= 'Z') || ('a' <= id[i] && id[i] <= 'z') || id[i] == '.' || id[i] == '-'
                || id[i] == '_',
        id_reason(id) == "invalid agent id '"@ + id
            + "': use 1-64 ASCII chars [A-Za-z0-9._-] starting with a letter or digit"@,
{
}

/// A command or a list is refused exactly when one of its texts is empty or
/// holds a zero byte; the reason names what was refused.
pub proof fn commands_and_literals_hold_text(cmd: CommandSpec, list: Vec<String>, role: Seq<char>)
    ensures
        command_error(cmd@, role) is None <==> sound_command(cmd),
        cmd.program@.len() == 0 || cmd.program@.contains('\0') ==> command_error(cmd@, role)
            == Some(role + " program must be a non-empty executable name or absolute path"@),
        command_error(cmd@, role) is Some && cmd.program@.len() > 0 && !cmd.program@.contains('\0')
            ==> command_error(cmd@, role) == Some(
            role + " arguments must be non-empty and free of NUL bytes"@,
        ),
        literals_error(texts(list@), role) is None <==> forall|i: int|
            0 <= i < list@.len() ==> (#[trigger] list@[i])@.len() > 0 && !list@[i]@.contains('\0'),
        literals_error(texts(list@), role) is Some ==> literals_error(texts(list@), role) == Some(
            role + " entries must be non-empty and free of NUL bytes"@,
        ),
{
    lemma_usable_texts(cmd.args@);
    lemma_usable_texts(list@);
}

/// The files to look for are the places of every program that a descriptor
/// names: the installed one, the update command and the version command, in
/// this order.
pub proof fn every_program_is_looked_for(def: AgentDef, env: SearchEnv)
    requires
        sound_name(def.installed@, env),
        sound_name(def.update.program@, env),
        def.version matches Some(v) ==> sound_name(v.program@, env),
    ensures
        def.version is None ==> wanted(def, env) == candidates(def.installed@, env) + candidates(
            def.update.program@,
            env,
        ),
        def.version matches Some(v) ==> wanted(def, env) == candidates(def.installed@, env)
            + candidates(def.update.program@, env) + candidates(v.program@, env),
{
    let two = candidates(def.installed@, env) + candidates(def.update.program@, env);
    assert(two + Seq::<Seq<u8>>::empty() =~= two);
}

/// What is wrong with a descriptor is said in words: its version, its id, its
/// label, the line of its version output, in this order.
pub proof fn faults_of_descriptors_are_named(def: AgentDef, env: SearchEnv)
    ensures
        def.schema_version != 1 ==> def_error(def, env) == Some(
            "unsupported schema_version "@ + decimal(def.schema_version as nat)
                + " (expected 1)"@,
        ),
        def.schema_version == 1 && !id_is_safe(def.id@) ==> def_error(def, env) == Some(
            id_reason(def.id@),
        ),
        def.schema_version == 1 && id_is_safe(def.id@) && (forall|i: int|
            0 <= i < def.label@.len() ==> white(#[trigger] def.label@[i])) ==> def_error(def, env)
            == Some("label must be non-empty"@),
{
    lemma_not_blank(def.label@);
}

/// What a step and a check say is what they hold.
pub proof fn steps_say_what_they_hold(
    path: PathBytes,
    patterns: Vec<String>,
    check: Check,
    tool: ToolSpec,
    list: Vec<ToolSpec>,
    i: int,
)
    requires
        0 <= i < list@.len(),
    ensures
        Check::GitClean(path)@ == CheckView::GitClean(path@),
        Check::ProcessAbsent(patterns)@ == CheckView::ProcessAbsent(texts(patterns@)),
        BuildStep::Evaluate(check)@ == BuildView::Evaluate(check@),
        BuildStep::Built(tool)@ == BuildView::Built(tool@),
        tools(list@).len() == list@.len(),
        tools(list@)[i] == list@[i]@,
{
}

/// A user directory that cannot be read ends the loading once the built-in
/// files are in.
pub proof fn unreadable_user_directories_end_the_loading(
    builtin: SourceDir,
    dir: SourceDir,
    error: String,
    answers: Seq<FileRead>,
    step: LoadStep,
)
    requires
        load_step(builtin, Some(dir), answers, step),
        builtin.read is Entries,
        dir.read == DirRead::Failed(error),
        answers.len() >= dir_files(builtin).len(),
        forall|k: int| 0 <= k < dir_files(builtin).len() ==> (#[trigger] answers[k]) is Built,
        forall|j: int, k: int|
            0 <= j < k < dir_files(builtin).len() ==> (#[trigger] answers[j])->Built_0.id@ != (
            #[trigger] answers[k])->Built_0.id@,
    ensures
        step matches LoadStep::Done(Err(text)) && text@ == "cannot read agent directory "@
            + utf8_lossy(dir.path@) + ": "@ + error@,
{
    lemma_all_pass(answers, dir_files(builtin).len() as int);
}

} // verus!
