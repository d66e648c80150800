# executainer

A command line tool that runs agent work in isolated tmux lanes and keeps a
durable record of each run. This crate is its verified core, written in Verus;
`app/` is the thin program around it.

## Layout

- `src/text.rs`: character-level text operations (pattern substitution, trimming,
  occurrence search, decimal and hexadecimal numerals, number parsing) with their
  mathematical meaning.
- `src/result_parser.rs`: the sentinel framing of a lane's result; fails closed.
- `src/review.rs`: review of lane results: parse status, collisions between proposed
  files, whether synthesis may go ahead, and how a run ends.
- `src/prompt_builder.rs`, `src/synthesizer.rs`: lane prompts, the synthesis prompt
  and the synthesis document.
- `src/cli.rs`: errors and exit codes, task sources, `--writable-lane` values, lane
  identifiers, run identifiers, lane scripts and shell quoting, inspection summaries.
- `src/run_plan.rs`: the manifest of a new run and each lane's prompt and script.
- `src/clock.rs`: the UTC clock, read without panicking, and chrono's writing of it.
- `src/manifest.rs`: the run manifest and its string-keyed maps.
- `src/tmux_backend.rs`: the tmux invocations of a run and how their output is read.
- `src/doctor.rs`: the environment checklist.
- `app/`: argument parsing, files, processes, JSON encoding of the records, and
  the waiting loop.
