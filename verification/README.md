# pult_desktop

The backend of a desktop companion for `pult`: it resolves the `pult` binary,
reads `pult`'s machine surfaces (`--list --json`, `doctor --json`,
`--version`), resolves dynamic `pick.source` options, spawns journaled runs,
and reads pult's run journal back (discovery, live tailing, crash detection,
stopping a run by its process group).

The logic is a library verified with Verus; the Tauri shell around it only
performs I/O.

## Layout

- `src/` — the verified library.
  - `text.rs`: character-level text operations (trimming, splitting,
    `u32` parsing) with their specifications.
  - `events.rs`: the `PULT_EVENTS` v1 line grammar.
  - `types.rs`: the listing, doctor report and run event values.
  - `pult_bin.rs`: binary resolution, shell quoting, `{param}`
    interpolation, pick-source planning and output handling, the invocation
    of a journaled run.
  - `journal.rs`: the run journal reader: state directory and repo key,
    run ids, summaries and their order, record mapping and incremental
    draining, and the state machines that drive a tail and a stop.
  - `commands.rs`: turning `pult`'s exit status and output into the
    results the frontend shows.
- `tests/` — tests of the library, run against the real outside crates.
- `app/` — the Tauri application: commands, settings store, child
  processes, file system, clock and signals. It drives the library's
  state machines (`Tail`, `Stop`) and converts between the library's values
  and their serde copies.

## Checking

Each public function states its result in `requires`/`ensures` over
mathematical models (`Seq<char>` for text, sequences of records, sets of
claimed run ids); the properties that span functions are public proof
functions, for example that reading the journal in two passes loses and
repeats no record, that a finished tail ends in exactly one `Exit`, and that
a stop escalates to `SIGKILL` only after the grace period.
