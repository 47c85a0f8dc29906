# update-agents

Updates AI coding agents in parallel. The library under `src/` holds everything
the program decides, verified with Verus; `app/` is the program around it.

## Library

| Modules | What they decide |
|---|---|
| `text`, `number`, `bytes`, `clock`, `json` | text, numerals, byte strings and paths, time and dates, JSON trees |
| `terminal`, `marker` | sanitized log output, failure markers in logs |
| `model` | tools, jobs and runs |
| `program`, `checks`, `catalog` | executables, safety checks, the tool catalogue |
| `schedule`, `job`, `process`, `report` | which job runs next, one job from end to end, child processes, the report |
| `options`, `paths`, `startup`, `background`, `plain` | the command line, directories, the way to a running engine, background runs, plain output |
| `selfupdate` | release versions, checksums, the self-update |
| `cells`, `row`, `dashboard`, `fingerprint`, `layout`, `screen` | the live dashboard |

Where a decision depends on what the world answers, the library takes the
record of the answers so far and returns the next step: `job::run_job`,
`catalog::load`, `catalog::build_spec`, `startup::run_updates`,
`process::terminate`, `selfupdate::run_self_update`. The program performs the
step, adds the answer and asks again.

Contracts speak of the values that a terminal, a file or a user sees: a text is
its sequence of characters, a path its bytes. What outside crates and the
standard library compute is behind a few functions whose contracts are trusted;
each says so above its definition.

Properties of the whole are proof functions in the modules they are about, for
instance `schedule::every_step_keeps_the_run_sound`,
`job::success_is_verified`, `catalog::loading_fails_closed`,
`startup::updates_start_last` and
`selfupdate::only_verified_downloads_are_installed`.

## Program

`app/main.rs` is the entry point: signals, the run lock, background processes.
`app/engine.rs` runs worker threads and child processes, `app/catalog.rs` reads
descriptor files, `app/ui.rs` draws the dashboard, `app/selfupdate.rs` downloads
releases, `app/host.rs` converts values.
