//! From the command line to a running engine: what is decided before any
//! update may run.

use vstd::prelude::*;
use vstd::string::*;

use crate::background::{ACK_TIMEOUT_SECS, STARTUP_MARGIN_SECS};
use crate::bytes::PathBytes;
use crate::catalog::tools;
use crate::clock::{span_between, TimeSpan};
use crate::model::{ToolSpec, ToolView};
use crate::options::Options;
use crate::paths::{state_dir, state_path, BaseEnv};
use crate::plain::{EX_FAILURE, EX_USAGE};
use crate::text::{join, joined, same_text, texts};

verus! {

pub const DEFAULT_TIMEOUT_SECS: u64 = 600;

// ---------------------------------------------------------------------------
// Entry
// ---------------------------------------------------------------------------

/// What a start of the program leads to.
#[derive(Clone, Copy, Debug, PartialEq, Eq, Structural)]
pub enum Entry {
    Help,
    Version,
    /// Whether there is a network must be found out first.
    ProbeNetwork,
    /// Without network access nothing is done.
    Offline,
    /// A background run cannot list.
    BadCombination,
    /// The program starts itself again in the background.
    Launch,
    Run,
}

/// What the options lead to. A background child skips the network probe: its
/// launcher has already made it.
pub open spec fn entry_of(o: Options, bg_child: bool, online: Option<bool>) -> Entry {
    if o.help {
        Entry::Help
    } else if o.version {
        Entry::Version
    } else if !bg_child && online is None {
        Entry::ProbeNetwork
    } else if !bg_child && online == Some(false) {
        Entry::Offline
    } else if o.bg && !bg_child {
        if o.list {
            Entry::BadCombination
        } else {
            Entry::Launch
        }
    } else {
        Entry::Run
    }
}

/// What the options lead to; `online` is what the network probe said, where
/// it has been made.
pub fn entry(o: &Options, bg_child: bool, online: Option<bool>) -> (r: Entry)
    ensures
        r == entry_of(*o, bg_child, online),
{
    if o.help {
        return Entry::Help;
    }
    if o.version {
        return Entry::Version;
    }
    if !bg_child {
        match online {
            None => return Entry::ProbeNetwork,
            Some(up) => {
                if !up {
                    return Entry::Offline;
                }
            },
        }
    }
    if o.bg && !bg_child {
        if o.list {
            return Entry::BadCombination;
        }
        return Entry::Launch;
    }
    Entry::Run
}

// ---------------------------------------------------------------------------
// Selection
// ---------------------------------------------------------------------------

/// The first tool with the id `id`.
pub open spec fn tool_named(list: Seq<ToolView>, id: Seq<char>) -> Option<ToolView>
    decreases list.len(),
{
    if list.len() == 0 {
        None
    } else if list[0].id == id {
        Some(list[0])
    } else {
        tool_named(list.skip(1), id)
    }
}

/// The ids for which there is no tool.
pub open spec fn unknown_ids(ids: Seq<Seq<char>>, list: Seq<ToolView>) -> Seq<Seq<char>>
    decreases ids.len(),
{
    if ids.len() == 0 {
        Seq::empty()
    } else {
        let rest = unknown_ids(ids.drop_last(), list);
        if tool_named(list, ids.last()) is None {
            rest.push(ids.last())
        } else {
            rest
        }
    }
}

/// The ids of the tools.
pub open spec fn known_ids(list: Seq<ToolView>) -> Seq<Seq<char>> {
    list.map_values(|t: ToolView| t.id)
}

/// What is said of unknown ids.
pub open spec fn unknown_text(ids: Seq<Seq<char>>, list: Seq<ToolView>) -> Seq<char> {
    "unknown tool(s): "@ + joined(unknown_ids(ids, list), ", "@) + "; known: "@ + joined(
        known_ids(list),
        ", "@,
    )
}

/// The selected tools: all of them, or those with the given ids in the order
/// of the ids.
pub open spec fn selection(ids: Seq<Seq<char>>, list: Seq<ToolView>) -> Seq<ToolView> {
    if ids.len() == 0 {
        list
    } else {
        ids.map_values(|id: Seq<char>| tool_named(list, id)->0)
    }
}

fn find_tool(specs: &Vec<ToolSpec>, id: &str) -> (r: Option<usize>)
    ensures
        match tool_named(tools(specs@), id@) {
            Some(t) => r matches Some(i) && i < specs@.len() && specs@[i as int]@ == t,
            None => r is None,
        },
{
    let ghost list = tools(specs@);
    assert(list.skip(0) =~= list);
    for i in 0..specs.len()
        invariant
            list == tools(specs@),
            tool_named(list, id@) == tool_named(list.skip(i as int), id@),
    {
        assert(list.skip(i as int)[0] == specs@[i as int]@);
        assert(list.skip(i as int).skip(1) =~= list.skip(i + 1));
        if same_text(specs[i].id.as_str(), id) {
            return Some(i);
        }
    }
    None
}

fn unknown_among(ids: &Vec<String>, specs: &Vec<ToolSpec>) -> (r: Vec<String>)
    ensures
        texts(r@) == unknown_ids(texts(ids@), tools(specs@)),
{
    let mut out: Vec<String> = Vec::new();
    let ghost all = texts(ids@);
    assert(texts(out@) =~= Seq::<Seq<char>>::empty());
    for i in 0..ids.len()
        invariant
            all == texts(ids@),
            texts(out@) == unknown_ids(all.take(i as int), tools(specs@)),
    {
        assert(all.take(i + 1).drop_last() =~= all.take(i as int));
        assert(all[i as int] == ids@[i as int]@);
        if find_tool(specs, ids[i].as_str()).is_none() {
            let ghost before = texts(out@);
            out.push(ids[i].clone());
            assert(texts(out@) =~= before.push(all[i as int]));
        }
    }
    assert(all.take(ids@.len() as int) =~= all);
    out
}

fn ids_of(specs: &Vec<ToolSpec>) -> (r: Vec<String>)
    ensures
        texts(r@) == known_ids(tools(specs@)),
{
    let mut out: Vec<String> = Vec::new();
    let ghost all = known_ids(tools(specs@));
    assert(texts(out@) =~= Seq::<Seq<char>>::empty());
    for i in 0..specs.len()
        invariant
            all == known_ids(tools(specs@)),
            texts(out@) == all.take(i as int),
    {
        let ghost before = texts(out@);
        out.push(specs[i].id.clone());
        assert(all[i as int] == specs@[i as int]@.id);
        assert(texts(out@) =~= before.push(all[i as int]));
        assert(all.take(i + 1) =~= all.take(i as int).push(all[i as int]));
    }
    assert(all.take(specs@.len() as int) =~= all);
    out
}

proof fn lemma_all_known(ids: Seq<Seq<char>>, list: Seq<ToolView>)
    ensures
        unknown_ids(ids, list).len() == 0 <==> forall|i: int|
            0 <= i < ids.len() ==> tool_named(list, #[trigger] ids[i]) is Some,
    decreases ids.len(),
{
    if ids.len() > 0 {
        let rest = ids.drop_last();
        lemma_all_known(rest, list);
        if unknown_ids(ids, list).len() == 0 {
            assert forall|i: int| 0 <= i < ids.len() implies tool_named(
                list,
                #[trigger] ids[i],
            ) is Some by {
                if i < rest.len() {
                    assert(rest[i] == ids[i]);
                }
            }
        } else if tool_named(list, ids.last()) is None {
            assert(tool_named(list, ids[ids.len() - 1]) is None);
        } else {
            let i = choose|i: int|
                0 <= i < rest.len() && !(tool_named(list, #[trigger] rest[i]) is Some);
            assert(ids[i] == rest[i]);
        }
    }
}

fn copy_tools(specs: &Vec<ToolSpec>) -> (r: Vec<ToolSpec>)
    ensures
        tools(r@) == tools(specs@),
{
    let mut out: Vec<ToolSpec> = Vec::new();
    let ghost all = tools(specs@);
    assert(tools(out@) =~= Seq::<ToolView>::empty());
    for i in 0..specs.len()
        invariant
            all == tools(specs@),
            tools(out@) == all.take(i as int),
    {
        let ghost before = tools(out@);
        out.push(specs[i].clone());
        assert(all[i as int] == specs@[i as int]@);
        assert(tools(out@) =~= before.push(all[i as int]));
        assert(all.take(i + 1) =~= all.take(i as int).push(all[i as int]));
    }
    assert(all.take(specs@.len() as int) =~= all);
    out
}

/// Selects the tools of a run. Unknown ids are an error that names them all.
pub fn select_tools(ids: &Vec<String>, specs: &Vec<ToolSpec>) -> (r: Result<Vec<ToolSpec>, String>)
    ensures
        r is Ok <==> unknown_ids(texts(ids@), tools(specs@)).len() == 0,
        r matches Ok(list) ==> tools(list@) == selection(texts(ids@), tools(specs@)),
        r matches Err(e) ==> e@ == unknown_text(texts(ids@), tools(specs@)),
{
    let unknown = unknown_among(ids, specs);
    assert(texts(unknown@).len() == unknown@.len());
    if unknown.len() > 0 {
        let mut e = "unknown tool(s): ".to_owned();
        e.append(join(&unknown, ", ").as_str());
        e.append("; known: ");
        e.append(join(&ids_of(specs), ", ").as_str());
        return Err(e);
    }
    if ids.len() == 0 {
        return Ok(copy_tools(specs));
    }
    let mut out: Vec<ToolSpec> = Vec::new();
    let ghost all = selection(texts(ids@), tools(specs@));
    proof {
        lemma_all_known(texts(ids@), tools(specs@));
        assert(tools(out@) =~= Seq::<ToolView>::empty());
    }
    for i in 0..ids.len()
        invariant
            ids@.len() > 0,
            unknown_ids(texts(ids@), tools(specs@)).len() == 0,
            all == selection(texts(ids@), tools(specs@)),
            tools(out@) == all.take(i as int),
            forall|k: int|
                0 <= k < ids@.len() ==> tool_named(
                    tools(specs@),
                    #[trigger] texts(ids@)[k],
                ) is Some,
    {
        assert(texts(ids@)[i as int] == ids@[i as int]@);
        if let Some(k) = find_tool(specs, ids[i].as_str()) {
            let ghost before = tools(out@);
            out.push(specs[k].clone());
            assert(tools(out@) =~= before.push(all[i as int]));
            assert(all.take(i + 1) =~= all.take(i as int).push(all[i as int]));
        }
    }
    assert(all.take(ids@.len() as int) =~= all);
    Ok(out)
}

// ---------------------------------------------------------------------------
// Admission
// ---------------------------------------------------------------------------

/// How long a background child may take to start, in seconds.
pub open spec fn admission_secs() -> int {
    ACK_TIMEOUT_SECS - STARTUP_MARGIN_SECS
}

/// A background child that started at `started` is too late at `now`: its
/// launcher has given up or is about to.
pub open spec fn too_late(bg_child: bool, started: TimeSpan, now: TimeSpan) -> bool {
    bg_child && span_between(started, now).total() >= admission_secs() * 1_000_000_000
}

/// Whether the admission window of a background child has passed; nothing new
/// may be started then.
pub fn startup_deadline_exceeded(bg_child: bool, started: TimeSpan, now: TimeSpan) -> (r: bool)
    requires
        now.wf(),
    ensures
        r == too_late(bg_child, started, now),
{
    bg_child && now.since(&started).reached(
        &TimeSpan::from_secs(ACK_TIMEOUT_SECS - STARTUP_MARGIN_SECS),
    )
}

/// The number of parallel updates: as asked for, or the number of cores; at
/// most one for each selected tool, and at least one.
pub open spec fn job_limit(asked: Option<usize>, cores: int, selected: int) -> int {
    let wish = match asked {
        Some(n) => n as int,
        None => cores,
    };
    let fit = if wish < selected {
        wish
    } else {
        selected
    };
    if fit < 1 {
        1
    } else {
        fit
    }
}

fn limit_jobs(asked: Option<usize>, cores: usize, selected: usize) -> (r: usize)
    ensures
        r == job_limit(asked, cores as int, selected as int),
{
    let wish: usize = match asked {
        Some(n) => n,
        None => cores,
    };
    let fit: usize = if wish < selected {
        wish
    } else {
        selected
    };
    if fit < 1 {
        1
    } else {
        fit
    }
}

/// What asking for the run lock brought.
#[derive(Debug)]
pub enum LockReply {
    Held,
    /// Another run holds it.
    Busy,
    Failed(String),
}

/// What has happened in a start so far; a field is empty until its step has
/// been performed.
#[derive(Debug)]
pub struct StartRecord {
    /// The catalogue that was loaded, or why it could not be.
    pub catalogue: Option<Result<Vec<ToolSpec>, String>>,
    /// When that was done.
    pub loaded_at: TimeSpan,
    /// The directory of the run, or why it could not be made.
    pub run_dir: Option<Result<PathBytes, String>>,
    /// Why the output of a background child could not be redirected.
    pub redirected: Option<Option<String>>,
    pub lock: Option<LockReply>,
    /// When the lock was asked for.
    pub locked_at: TimeSpan,
    /// Whether a shutdown signal has arrived by then.
    pub signalled: bool,
}

impl StartRecord {
    /// Nothing has happened yet.
    pub fn new() -> (r: StartRecord)
        ensures
            r.catalogue is None,
            r.run_dir is None,
            r.redirected is None,
            r.lock is None,
            r.loaded_at == (TimeSpan { secs: 0, nanos: 0 }),
            r.locked_at == (TimeSpan { secs: 0, nanos: 0 }),
            !r.signalled,
    {
        StartRecord {
            catalogue: None,
            loaded_at: TimeSpan::zero(),
            run_dir: None,
            redirected: None,
            lock: None,
            locked_at: TimeSpan::zero(),
            signalled: false,
        }
    }
}

/// What comes next in a start.
#[derive(Debug)]
pub enum StartStep {
    LoadCatalogue,
    /// The run directory is to be made below this state directory.
    MakeRunDir(PathBytes),
    RedirectOutput,
    AcquireLock,
    /// The catalogue listing of these tools is to be printed, and no more.
    List(Vec<ToolSpec>),
    /// The start fails with this message and exit code.
    Fail(String, i32),
    /// The engine is to be started on these tools.
    Start(StartPlan),
}

/// What the engine is started with.
#[derive(Debug)]
pub struct StartPlan {
    pub tools: Vec<ToolSpec>,
    pub jobs: usize,
    pub timeout_secs: u64,
    /// Whether the tools were selected by id.
    pub explicit: bool,
}

/// What comes next in a start, over models.
pub enum StartView {
    LoadCatalogue,
    MakeRunDir(Seq<u8>),
    RedirectOutput,
    AcquireLock,
    List(Seq<ToolView>),
    Fail(Seq<char>, i32),
    Start(Seq<ToolView>, int, int, bool),
}

impl View for StartStep {
    type V = StartView;

    open spec fn view(&self) -> StartView {
        match self {
            StartStep::LoadCatalogue => StartView::LoadCatalogue,
            StartStep::MakeRunDir(dir) => StartView::MakeRunDir(dir@),
            StartStep::RedirectOutput => StartView::RedirectOutput,
            StartStep::AcquireLock => StartView::AcquireLock,
            StartStep::List(list) => StartView::List(tools(list@)),
            StartStep::Fail(text, code) => StartView::Fail(text@, *code),
            StartStep::Start(plan) => StartView::Start(
                tools(plan.tools@),
                plan.jobs as int,
                plan.timeout_secs as int,
                plan.explicit,
            ),
        }
    }
}

pub open spec fn window_text() -> Seq<char> {
    "background startup window elapsed; not starting updates"@
}

/// What comes next once the tools have been selected: the run directory, the
/// output, the lock, and the last admission gate.
pub open spec fn admission_step(
    o: Options,
    bg_child: bool,
    cores: int,
    env: BaseEnv,
    started: TimeSpan,
    rec: StartRecord,
    chosen: Seq<ToolView>,
) -> StartView {
    if state_path(env) is None {
        StartView::Fail("HOME is not set to an absolute path"@, EX_FAILURE)
    } else {
        match rec.run_dir {
            None => StartView::MakeRunDir(state_path(env)->0),
            Some(Err(e)) => StartView::Fail(e@, EX_FAILURE),
            Some(Ok(_)) => if bg_child && rec.redirected is None {
                StartView::RedirectOutput
            } else if bg_child && rec.redirected->0 is Some {
                StartView::Fail("cannot attach run log: "@ + rec.redirected->0->0@, EX_FAILURE)
            } else {
                match rec.lock {
                    None => StartView::AcquireLock,
                    Some(LockReply::Busy) => StartView::Fail(
                        "another update-agents run is already in progress"@,
                        EX_FAILURE,
                    ),
                    Some(LockReply::Failed(e)) => StartView::Fail("run lock: "@ + e@, EX_FAILURE),
                    Some(LockReply::Held) => if too_late(bg_child, started, rec.locked_at) {
                        StartView::Fail(window_text(), EX_FAILURE)
                    } else if rec.signalled {
                        StartView::Fail(
                            "shutdown signal received before updates started"@,
                            EX_FAILURE,
                        )
                    } else {
                        StartView::Start(
                            chosen,
                            job_limit(o.jobs, cores, chosen.len() as int),
                            match o.timeout {
                                Some(n) => n as int,
                                None => DEFAULT_TIMEOUT_SECS as int,
                            },
                            o.ids@.len() > 0,
                        )
                    },
                }
            },
        }
    }
}

/// What comes next in a start.
pub open spec fn start_step(
    o: Options,
    bg_child: bool,
    cores: int,
    env: BaseEnv,
    started: TimeSpan,
    rec: StartRecord,
) -> StartView {
    match rec.catalogue {
        None => StartView::LoadCatalogue,
        Some(Err(e)) => StartView::Fail("catalogue load failed: "@ + e@, EX_USAGE),
        Some(Ok(specs)) => {
            let ids = texts(o.ids@);
            let chosen = selection(ids, tools(specs@));
            if too_late(bg_child, started, rec.loaded_at) {
                StartView::Fail(window_text(), EX_FAILURE)
            } else if unknown_ids(ids, tools(specs@)).len() > 0 {
                StartView::Fail(unknown_text(ids, tools(specs@)), EX_USAGE)
            } else if o.list {
                StartView::List(chosen)
            } else if chosen.len() == 0 {
                StartView::Fail("no agent definitions found"@, EX_USAGE)
            } else {
                admission_step(o, bg_child, cores, env, started, rec, chosen)
            }
        },
    }
}

/// Decides what comes next in a start: catalogue, selection, run directory,
/// lock, and last the engine. Every failure comes before any update can run;
/// a background child also refuses to start once its launcher's window has
/// passed.
pub fn run_updates(
    o: &Options,
    bg_child: bool,
    cores: usize,
    env: &BaseEnv,
    started: TimeSpan,
    rec: &StartRecord,
) -> (r: StartStep)
    requires
        rec.loaded_at.wf(),
        rec.locked_at.wf(),
    ensures
        r@ == start_step(*o, bg_child, cores as int, *env, started, *rec),
{
    let specs = match &rec.catalogue {
        None => return StartStep::LoadCatalogue,
        Some(Err(e)) => {
            let mut s = "catalogue load failed: ".to_owned();
            s.append(e.as_str());
            return StartStep::Fail(s, EX_USAGE);
        },
        Some(Ok(specs)) => specs,
    };
    if startup_deadline_exceeded(bg_child, started, rec.loaded_at) {
        return StartStep::Fail(
            "background startup window elapsed; not starting updates".to_owned(),
            EX_FAILURE,
        );
    }
    let chosen = match select_tools(&o.ids, specs) {
        Ok(list) => list,
        Err(e) => return StartStep::Fail(e, EX_USAGE),
    };
    assert(tools(chosen@).len() == chosen@.len());
    if o.list {
        return StartStep::List(chosen);
    }
    if chosen.len() == 0 {
        return StartStep::Fail("no agent definitions found".to_owned(), EX_USAGE);
    }
    let state = match state_dir(env) {
        Ok(dir) => dir,
        Err(e) => return StartStep::Fail(e, EX_FAILURE),
    };
    match &rec.run_dir {
        None => return StartStep::MakeRunDir(state),
        Some(Err(e)) => return StartStep::Fail(e.clone(), EX_FAILURE),
        Some(Ok(_)) => {},
    }
    if bg_child {
        match &rec.redirected {
            None => return StartStep::RedirectOutput,
            Some(Some(e)) => {
                let mut s = "cannot attach run log: ".to_owned();
                s.append(e.as_str());
                return StartStep::Fail(s, EX_FAILURE);
            },
            Some(None) => {},
        }
    }
    match &rec.lock {
        None => return StartStep::AcquireLock,
        Some(LockReply::Busy) => {
            return StartStep::Fail(
                "another update-agents run is already in progress".to_owned(),
                EX_FAILURE,
            );
        },
        Some(LockReply::Failed(e)) => {
            let mut s = "run lock: ".to_owned();
            s.append(e.as_str());
            return StartStep::Fail(s, EX_FAILURE);
        },
        Some(LockReply::Held) => {},
    }
    if startup_deadline_exceeded(bg_child, started, rec.locked_at) {
        return StartStep::Fail(
            "background startup window elapsed; not starting updates".to_owned(),
            EX_FAILURE,
        );
    }
    if rec.signalled {
        return StartStep::Fail(
            "shutdown signal received before updates started".to_owned(),
            EX_FAILURE,
        );
    }
    let jobs: usize = limit_jobs(o.jobs, cores, chosen.len());
    let timeout_secs: u64 = match o.timeout {
        Some(n) => n,
        None => DEFAULT_TIMEOUT_SECS,
    };
    StartStep::Start(
        StartPlan { tools: chosen, jobs, timeout_secs, explicit: o.ids.len() > 0 },
    )
}

/// Whether a run gets the interactive display: on a terminal that is not
/// dumb, and neither plain nor in the background.
pub fn wants_display(
    plain: bool,
    bg_child: bool,
    stdin_is_terminal: bool,
    stdout_is_terminal: bool,
    term: Option<&str>,
) -> (r: bool)
    ensures
        r == (!plain && !bg_child && stdin_is_terminal && stdout_is_terminal && (term matches Some(
            t,
        ) && t@ != "dumb"@)),
{
    let smart = match term {
        Some(t) => !same_text(t, "dumb"),
        None => false,
    };
    !plain && !bg_child && stdin_is_terminal && stdout_is_terminal && smart
}

// ---------------------------------------------------------------------------
// Laws
// ---------------------------------------------------------------------------

/// The engine starts only after everything else has succeeded: the catalogue
/// was loaded, every id is known, the lock is held, no shutdown was asked
/// for, and a background child is still inside its window. Then it starts on
/// at least one tool, with at least one job.
pub proof fn updates_start_last(
    o: Options,
    bg_child: bool,
    cores: int,
    env: BaseEnv,
    started: TimeSpan,
    rec: StartRecord,
)
    requires
        start_step(o, bg_child, cores, env, started, rec) is Start,
    ensures
        rec.catalogue matches Some(Ok(specs)) && unknown_ids(texts(o.ids@), tools(specs@)).len()
            == 0,
        rec.run_dir matches Some(Ok(_)),
        rec.lock matches Some(LockReply::Held),
        !rec.signalled,
        !o.list,
        !too_late(bg_child, started, rec.loaded_at),
        !too_late(bg_child, started, rec.locked_at),
        start_step(o, bg_child, cores, env, started, rec)->Start_0.len() > 0,
        1 <= start_step(o, bg_child, cores, env, started, rec)->Start_1 <= start_step(
            o,
            bg_child,
            cores,
            env,
            started,
            rec,
        )->Start_0.len(),
{
}

/// A listing changes nothing: it is decided before the run directory, the
/// lock or the engine come into play.
pub proof fn listing_touches_nothing(
    o: Options,
    bg_child: bool,
    cores: int,
    env: BaseEnv,
    started: TimeSpan,
    rec: StartRecord,
)
    requires
        o.list,
    ensures
        ({
            let step = start_step(o, bg_child, cores, env, started, rec);
            step is LoadCatalogue || step is List || step is Fail
        }),
{
}

/// Selected tools come in the order of their ids, one for each id.
pub proof fn selection_follows_the_ids(ids: Seq<Seq<char>>, list: Seq<ToolView>)
    requires
        ids.len() > 0,
        unknown_ids(ids, list).len() == 0,
    ensures
        known_ids(selection(ids, list)) == ids,
{
    lemma_all_known(ids, list);
    assert forall|i: int| 0 <= i < ids.len() implies selection(ids, list)[i].id
        == #[trigger] ids[i] by {
        lemma_named(list, ids[i]);
    }
    assert(known_ids(selection(ids, list)) =~= ids);
}

proof fn lemma_named(list: Seq<ToolView>, id: Seq<char>)
    ensures
        tool_named(list, id) matches Some(t) ==> t.id == id,
    decreases list.len(),
{
    if list.len() > 0 {
        lemma_named(list.skip(1), id);
    }
}

/// An engine that is started with a number of jobs asked for gets exactly that
/// number, or one for each selected tool where these are fewer, whatever the
/// machine; without one it gets the number of cores in the same way. The time
/// limit is the one asked for, or ten minutes.
pub proof fn engines_start_as_asked(
    o: Options,
    bg_child: bool,
    cores: int,
    env: BaseEnv,
    started: TimeSpan,
    rec: StartRecord,
    plan: StartPlan,
)
    requires
        start_step(o, bg_child, cores, env, started, rec) == StartStep::Start(plan)@,
    ensures
        plan.tools@.len() >= 1,
        plan.jobs >= 1,
        o.jobs matches Some(n) ==> n >= 1 ==> plan.jobs == if n <= plan.tools@.len() {
            n as int
        } else {
            plan.tools@.len() as int
        },
        o.jobs matches Some(n) ==> n >= 1 ==> plan.jobs <= n,
        o.jobs is None && cores >= 1 ==> plan.jobs == if cores <= plan.tools@.len() {
            cores
        } else {
            plan.tools@.len() as int
        },
        o.timeout matches Some(n) ==> plan.timeout_secs == n,
        o.timeout is None ==> plan.timeout_secs == 600,
        plan.explicit <==> o.ids@.len() > 0,
{
    assert(tools(plan.tools@).len() == plan.tools@.len());
    assert(StartStep::Start(plan)@ is Start);
}

/// With a number of jobs asked for, the machine's cores make no difference.
pub proof fn asked_jobs_do_not_depend_on_the_machine(
    o: Options,
    bg_child: bool,
    cores: int,
    other_cores: int,
    env: BaseEnv,
    started: TimeSpan,
    rec: StartRecord,
)
    requires
        o.jobs is Some,
    ensures
        start_step(o, bg_child, cores, env, started, rec) == start_step(
            o,
            bg_child,
            other_cores,
            env,
            started,
            rec,
        ),
{
}

/// Without ids a run is on all tools of the catalogue, in their order; with
/// ids it has for each id, in their order, the tool of that id.
pub proof fn engines_start_on_the_selected_tools(
    o: Options,
    bg_child: bool,
    cores: int,
    env: BaseEnv,
    started: TimeSpan,
    rec: StartRecord,
    plan: StartPlan,
    specs: Vec<ToolSpec>,
)
    requires
        start_step(o, bg_child, cores, env, started, rec) == StartStep::Start(plan)@,
        rec.catalogue == Some(Ok::<Vec<ToolSpec>, String>(specs)),
    ensures
        o.ids@.len() == 0 ==> plan.tools@.len() == specs@.len() && forall|i: int|
            0 <= i < specs@.len() ==> (#[trigger] plan.tools@[i])@ == specs@[i]@,
        o.ids@.len() > 0 ==> plan.tools@.len() == o.ids@.len() && forall|i: int|
            0 <= i < o.ids@.len() ==> (#[trigger] plan.tools@[i]).id@ == o.ids@[i]@ && exists|k: int|
                0 <= k < specs@.len() && (#[trigger] specs@[k])@ == plan.tools@[i]@,
{
    assert(StartStep::Start(plan)@ is Start);
    lemma_selected(o, specs, plan.tools);
}

/// A listing is of the tools that a run would be on.
pub proof fn listings_show_the_selected_tools(
    o: Options,
    bg_child: bool,
    cores: int,
    env: BaseEnv,
    started: TimeSpan,
    rec: StartRecord,
    list: Vec<ToolSpec>,
    specs: Vec<ToolSpec>,
)
    requires
        start_step(o, bg_child, cores, env, started, rec) == StartStep::List(list)@,
        rec.catalogue == Some(Ok::<Vec<ToolSpec>, String>(specs)),
    ensures
        o.list,
        o.ids@.len() == 0 ==> list@.len() == specs@.len() && forall|i: int|
            0 <= i < specs@.len() ==> (#[trigger] list@[i])@ == specs@[i]@,
        o.ids@.len() > 0 ==> list@.len() == o.ids@.len() && forall|i: int|
            0 <= i < o.ids@.len() ==> (#[trigger] list@[i]).id@ == o.ids@[i]@ && exists|k: int|
                0 <= k < specs@.len() && (#[trigger] specs@[k])@ == list@[i]@,
{
    assert(StartStep::List(list)@ is List);
    lemma_selected(o, specs, list);
}

proof fn lemma_selected(o: Options, specs: Vec<ToolSpec>, list: Vec<ToolSpec>)
    requires
        unknown_ids(texts(o.ids@), tools(specs@)).len() == 0,
        tools(list@) == selection(texts(o.ids@), tools(specs@)),
    ensures
        o.ids@.len() == 0 ==> list@.len() == specs@.len() && forall|i: int|
            0 <= i < specs@.len() ==> (#[trigger] list@[i])@ == specs@[i]@,
        o.ids@.len() > 0 ==> list@.len() == o.ids@.len() && forall|i: int|
            0 <= i < o.ids@.len() ==> (#[trigger] list@[i]).id@ == o.ids@[i]@ && exists|k: int|
                0 <= k < specs@.len() && (#[trigger] specs@[k])@ == list@[i]@,
{
    let ids = texts(o.ids@);
    let all = tools(specs@);
    let out = tools(list@);
    assert(ids.len() == o.ids@.len() && all.len() == specs@.len() && out.len() == list@.len());
    if ids.len() == 0 {
        assert forall|i: int| 0 <= i < specs@.len() implies (#[trigger] list@[i])@ == specs@[i]@ by {
            assert(out[i] == all[i]);
        }
    } else {
        lemma_all_known(ids, all);
        assert forall|i: int| 0 <= i < o.ids@.len() implies (#[trigger] list@[i]).id@ == o.ids@[i]@
            && exists|k: int| 0 <= k < specs@.len() && (#[trigger] specs@[k])@ == list@[i]@ by {
            assert(out[i] == list@[i]@);
            assert(ids[i] == o.ids@[i]@);
            lemma_named(all, ids[i]);
            let k = lemma_named_at(all, ids[i]);
            assert(all[k] == specs@[k]@);
        }
    }
}

proof fn lemma_named_at(list: Seq<ToolView>, id: Seq<char>) -> (k: int)
    requires
        tool_named(list, id) is Some,
    ensures
        0 <= k < list.len(),
        list[k] == tool_named(list, id)->0,
    decreases list.len(),
{
    if list[0].id == id {
        0
    } else {
        let k = lemma_named_at(list.skip(1), id);
        assert(list.skip(1)[k] == list[k + 1]);
        k + 1
    }
}

proof fn lemma_not_named(list: Seq<ToolView>, id: Seq<char>)
    ensures
        tool_named(list, id) is None <==> forall|k: int|
            0 <= k < list.len() ==> (#[trigger] list[k]).id != id,
    decreases list.len(),
{
    if list.len() > 0 {
        let rest = list.skip(1);
        lemma_not_named(rest, id);
        if list[0].id != id {
            if tool_named(rest, id) is None {
                assert forall|k: int| 0 <= k < list.len() implies (#[trigger] list[k]).id != id by {
                    if k > 0 {
                        assert(list[k] == rest[k - 1]);
                    }
                }
            } else {
                let k = choose|k: int| 0 <= k < rest.len() && !((#[trigger] rest[k]).id != id);
                assert(list[k + 1] == rest[k]);
            }
        }
    }
}

/// An id that no tool has ends the start as a usage error; a background child
/// that is too late fails before that.
pub proof fn unknown_ids_are_usage_errors(
    o: Options,
    bg_child: bool,
    cores: int,
    env: BaseEnv,
    started: TimeSpan,
    rec: StartRecord,
    specs: Vec<ToolSpec>,
    i: int,
)
    requires
        rec.catalogue == Some(Ok::<Vec<ToolSpec>, String>(specs)),
        0 <= i < o.ids@.len(),
        forall|k: int| 0 <= k < specs@.len() ==> (#[trigger] specs@[k]).id@ != o.ids@[i]@,
    ensures
        start_step(o, bg_child, cores, env, started, rec) matches StartView::Fail(_, code) && (code
            == 2 || (code == 1 && bg_child)),
        unknown_ids(texts(o.ids@), tools(specs@)).contains(o.ids@[i]@),
{
    let ids = texts(o.ids@);
    let all = tools(specs@);
    assert(ids[i] == o.ids@[i]@);
    assert forall|k: int| 0 <= k < all.len() implies (#[trigger] all[k]).id != ids[i] by {
        assert(all[k] == specs@[k]@);
    }
    lemma_not_named(all, ids[i]);
    lemma_unknown(ids, all, i);
}

proof fn lemma_unknown(ids: Seq<Seq<char>>, list: Seq<ToolView>, i: int)
    requires
        0 <= i < ids.len(),
        tool_named(list, ids[i]) is None,
    ensures
        unknown_ids(ids, list).contains(ids[i]),
        unknown_ids(ids, list).len() > 0,
    decreases ids.len(),
{
    let rest = unknown_ids(ids.drop_last(), list);
    let r = unknown_ids(ids, list);
    if i == ids.len() - 1 {
        assert(r[rest.len() as int] == ids[i]);
    } else {
        assert(ids.drop_last()[i] == ids[i]);
        lemma_unknown(ids.drop_last(), list, i);
        let k = rest.index_of(ids[i]);
        assert(r[k] == ids[i]);
    }
}

/// Only ids that no tool has are said to be unknown.
pub proof fn known_ids_are_not_complained_of(ids: Seq<Seq<char>>, list: Seq<ToolView>, id: Seq<char>)
    requires
        exists|k: int| 0 <= k < list.len() && (#[trigger] list[k]).id == id,
    ensures
        !unknown_ids(ids, list).contains(id),
    decreases ids.len(),
{
    lemma_not_named(list, id);
    if ids.len() > 0 {
        known_ids_are_not_complained_of(ids.drop_last(), list, id);
        let rest = unknown_ids(ids.drop_last(), list);
        let r = unknown_ids(ids, list);
        if r.contains(id) {
            let k = r.index_of(id);
            if k < rest.len() {
                assert(rest[k] == id);
            }
        }
    }
}

/// A background child is too late once fifty-five seconds have passed since it
/// was started, and never before; a run in the foreground never is.
pub proof fn the_window_is_fifty_five_seconds(bg_child: bool, started: TimeSpan, now: TimeSpan)
    requires
        started.nanos < 1_000_000_000,
        now.nanos < 1_000_000_000,
    ensures
        too_late(bg_child, started, now) <==> bg_child && (now.secs - started.secs) * 1_000_000_000
            + (now.nanos - started.nanos) >= 55_000_000_000,
{
    let d = now.total() - started.total();
    if d > 0 {
        assert(d / 1_000_000_000 * 1_000_000_000 + d % 1_000_000_000 == d);
        assert(d / 1_000_000_000 <= now.secs);
    }
}

/// Help and the version come before everything else; without network access
/// nothing else is done; a background run is started by a launcher that found
/// the network, and cannot list.
pub proof fn entries_are_decided_in_order(o: Options, bg_child: bool, online: Option<bool>)
    ensures
        entry_of(o, bg_child, online) is Help <==> o.help,
        entry_of(o, bg_child, online) is Version <==> o.version && !o.help,
        entry_of(o, bg_child, online) is ProbeNetwork <==> !o.help && !o.version && !bg_child
            && online is None,
        entry_of(o, bg_child, online) is Offline <==> !o.help && !o.version && !bg_child && online
            == Some(false),
        entry_of(o, bg_child, online) is BadCombination <==> !o.help && !o.version && !bg_child
            && online == Some(true) && o.bg && o.list,
        entry_of(o, bg_child, online) is Launch <==> !o.help && !o.version && !bg_child && online
            == Some(true) && o.bg && !o.list,
        entry_of(o, bg_child, online) is Run <==> !o.help && !o.version && (bg_child || (online
            == Some(true) && !o.bg)),
{
    if let Some(up) = online {
        assert(up || online == Some(false));
        assert(!up || online == Some(true));
    }
}

/// The steps of a start in their order: the catalogue, the run directory, for
/// a background child the output, then the lock; each failure is told.
pub proof fn starts_go_step_by_step(
    o: Options,
    bg_child: bool,
    cores: int,
    env: BaseEnv,
    started: TimeSpan,
    rec: StartRecord,
)
    ensures
        ({
            let step = start_step(o, bg_child, cores, env, started, rec);
            &&& rec.catalogue is None <==> step is LoadCatalogue
            &&& rec.catalogue matches Some(Err(e)) ==> step == StartView::Fail(
                "catalogue load failed: "@ + e@,
                2,
            )
            &&& step matches StartView::MakeRunDir(dir) ==> rec.run_dir is None && state_path(env)
                == Some(dir)
            &&& step is RedirectOutput ==> bg_child && rec.redirected is None && rec.run_dir is Some
            &&& step is AcquireLock ==> rec.lock is None && (rec.run_dir matches Some(Ok(_))) && (
            bg_child ==> rec.redirected == Some(None::<String>))
            &&& step matches StartView::Fail(_, code) ==> code == 1 || code == 2
        }),
{
}

/// With a catalogue whose tools are all selected, nothing asked but the run
/// itself, and time left, every step leads to the next: a missing directory, a
/// missing redirection, the lock, and the engine; a lock that another run
/// holds, an error or a shutdown signal ends the start.
pub proof fn starts_come_to_the_engine(
    o: Options,
    bg_child: bool,
    cores: int,
    env: BaseEnv,
    started: TimeSpan,
    rec: StartRecord,
    specs: Vec<ToolSpec>,
)
    requires
        rec.catalogue == Some(Ok::<Vec<ToolSpec>, String>(specs)),
        specs@.len() > 0,
        o.ids@.len() == 0,
        !o.list,
        state_path(env) is Some,
        !too_late(bg_child, started, rec.loaded_at),
        !too_late(bg_child, started, rec.locked_at),
    ensures
        ({
            let step = start_step(o, bg_child, cores, env, started, rec);
            let made = rec.run_dir matches Some(Ok(_));
            let attached = made && (!bg_child || rec.redirected == Some(None::<String>));
            &&& rec.run_dir is None ==> step == StartView::MakeRunDir(state_path(env)->0)
            &&& rec.run_dir matches Some(Err(e)) ==> step == StartView::Fail(e@, 1)
            &&& made && bg_child && rec.redirected is None ==> step is RedirectOutput
            &&& made && bg_child ==> (rec.redirected matches Some(Some(e)) ==> step
                == StartView::Fail("cannot attach run log: "@ + e@, 1))
            &&& attached && rec.lock is None ==> step is AcquireLock
            &&& attached && (rec.lock matches Some(LockReply::Busy)) ==> step == StartView::Fail(
                "another update-agents run is already in progress"@,
                1,
            )
            &&& attached ==> (rec.lock matches Some(LockReply::Failed(e)) ==> step
                == StartView::Fail("run lock: "@ + e@, 1))
            &&& attached && (rec.lock matches Some(LockReply::Held)) && rec.signalled ==> step
                == StartView::Fail("shutdown signal received before updates started"@, 1)
            &&& attached && (rec.lock matches Some(LockReply::Held)) && !rec.signalled ==> step
                is Start
        }),
{
    assert(texts(o.ids@).len() == 0);
    assert(tools(specs@).len() == specs@.len());
}

/// Unknown ids are all named, and so are the known ones; a background child
/// that is too late says so.
pub proof fn unknown_ids_are_named(ids: Seq<Seq<char>>, list: Seq<ToolView>)
    ensures
        unknown_text(ids, list) == "unknown tool(s): "@ + joined(unknown_ids(ids, list), ", "@)
            + "; known: "@ + joined(list.map_values(|t: ToolView| t.id), ", "@),
        window_text() == "background startup window elapsed; not starting updates"@,
{
    assert(known_ids(list) =~= list.map_values(|t: ToolView| t.id));
}

/// What a step says is what it holds.
pub proof fn start_steps_say_what_they_hold(
    dir: PathBytes,
    text: String,
    code: i32,
    list: Vec<ToolSpec>,
)
    ensures
        StartStep::MakeRunDir(dir)@ == StartView::MakeRunDir(dir@),
        StartStep::Fail(text, code)@ == StartView::Fail(text@, code),
        StartStep::List(list)@ == StartView::List(tools(list@)),
        StartStep::LoadCatalogue@ is LoadCatalogue,
        StartStep::RedirectOutput@ is RedirectOutput,
        StartStep::AcquireLock@ is AcquireLock,
{
}

/// A background child that is too late fails, before the catalogue is used and
/// again before the engine is started.
pub proof fn late_children_do_not_start(
    o: Options,
    cores: int,
    env: BaseEnv,
    started: TimeSpan,
    rec: StartRecord,
)
    requires
        rec.catalogue matches Some(Ok(_)),
        rec.loaded_at.nanos < 1_000_000_000,
        started.nanos < 1_000_000_000,
        (rec.loaded_at.secs - started.secs) * 1_000_000_000 + (rec.loaded_at.nanos - started.nanos)
            >= 55_000_000_000,
    ensures
        start_step(o, true, cores, env, started, rec) == StartView::Fail(window_text(), 1),
{
    the_window_is_fifty_five_seconds(true, started, rec.loaded_at);
}

} // verus!
