//! Typed mirrors of pult's documented JSON surfaces (schema 1): the
//! `pult --list --json` listing, the `pult doctor --json` report, and the
//! run events streamed to the frontend. Deserialization lives with the
//! application shell; these are the values the verified logic works on.

use vstd::prelude::*;

verus! {

/// One `<param>` entry from a command's `params` array: `kind` is `"pick"`
/// (with `options` or `source`) or `"input"`; every other field is
/// optional so additive schema changes are tolerated.
#[derive(Debug, Clone)]
pub struct Param {
    pub name: String,
    pub kind: String,
    pub options: Option<Vec<String>>,
    pub source: Option<String>,
    pub depends_on: Option<Vec<String>>,
    pub default: Option<String>,
    pub secret: Option<bool>,
}

/// One entry in `includes[]`.
#[derive(Debug, Clone)]
pub struct IncludeInfo {
    pub source: String,
    pub kind: String,
    pub name: Option<String>,
    pub url: Option<String>,
    pub rev: Option<String>,
    pub rev_kind: Option<String>,
    pub resolved_sha: Option<String>,
}

/// One entry in `commands[]`.
#[derive(Debug, Clone)]
pub struct CommandInfo {
    pub id: String,
    pub title: String,
    /// The include source this command came from; `None` = root manifest.
    pub origin: Option<String>,
    /// The raw `category:` the author declared, if any.
    pub category: Option<String>,
    /// Operator-facing one-liner; absent means a title-only card.
    pub description: Option<String>,
    pub params: Vec<Param>,
    /// The readiness probe; `None` = none declared.
    pub check: Option<String>,
    pub interactive: bool,
    /// Step labels a live run emits as `step k/n <name>`.
    pub steps: Option<Vec<String>>,
}

/// `pult --list --json`, the stable listing surface.
#[derive(Debug, Clone)]
pub struct Listing {
    pub schema: u32,
    pub pult_version: String,
    pub name: String,
    pub manifest: String,
    pub dir: String,
    pub run_dir: String,
    pub scope: String,
    /// Whether this manifest is trusted at its current resolved hash.
    pub trusted: bool,
    pub includes: Vec<IncludeInfo>,
    pub commands: Vec<CommandInfo>,
}

/// One entry in `pult doctor --json`'s `commands[]`.
#[derive(Debug, Clone)]
pub struct DoctorEntry {
    pub id: String,
    pub title: String,
    pub check: Option<String>,
    /// `None` when the command declares no `check:`: nothing ran.
    pub ready: Option<bool>,
    pub exit_code: Option<i32>,
}

/// `pult doctor --json`, the stable readiness surface.
#[derive(Debug, Clone)]
pub struct DoctorReport {
    pub schema: u32,
    pub name: String,
    pub manifest: String,
    pub commands: Vec<DoctorEntry>,
}

/// A line of output from a run, a machine event from its `PULT_EVENTS`
/// channel, or its terminal exit, as emitted to the frontend. `run_id`
/// tells concurrent runs apart; `tail_gen` is the generation of the tail
/// that emitted the event (absent: no fence to check). `TailStart` opens a
/// tail's emissions and carries its generation as a required field.
#[derive(Debug, Clone)]
pub enum RunEvent {
    TailStart { run_id: String, tail_gen: u64 },
    Line { run_id: String, stream: String, text: String, tail_gen: Option<u64> },
    Step { run_id: String, k: u32, n: u32, name: String, tail_gen: Option<u64> },
    Progress { run_id: String, pct: Option<u8>, text: Option<String>, tail_gen: Option<u64> },
    Status { run_id: String, text: String, tail_gen: Option<u64> },
    Exit {
        run_id: String,
        code: Option<i32>,
        /// The run ended because it was stopped, not on its own.
        stopped: bool,
        /// The journal said "running" but its writer was dead.
        crashed: bool,
        tail_gen: Option<u64>,
    },
}

impl RunEvent {
    /// The generation an event is fenced with, if any.
    pub open spec fn generation(self) -> Option<u64> {
        match self {
            RunEvent::TailStart { tail_gen, .. } => Some(tail_gen),
            RunEvent::Line { tail_gen, .. } => tail_gen,
            RunEvent::Step { tail_gen, .. } => tail_gen,
            RunEvent::Progress { tail_gen, .. } => tail_gen,
            RunEvent::Status { tail_gen, .. } => tail_gen,
            RunEvent::Exit { tail_gen, .. } => tail_gen,
        }
    }

    /// The same event with its generation set to `gen`.
    pub open spec fn stamped(self, gen: u64) -> RunEvent {
        match self {
            RunEvent::TailStart { run_id, .. } => RunEvent::TailStart { run_id, tail_gen: gen },
            RunEvent::Line { run_id, stream, text, .. } => RunEvent::Line {
                run_id,
                stream,
                text,
                tail_gen: Some(gen),
            },
            RunEvent::Step { run_id, k, n, name, .. } => RunEvent::Step {
                run_id,
                k,
                n,
                name,
                tail_gen: Some(gen),
            },
            RunEvent::Progress { run_id, pct, text, .. } => RunEvent::Progress {
                run_id,
                pct,
                text,
                tail_gen: Some(gen),
            },
            RunEvent::Status { run_id, text, .. } => RunEvent::Status {
                run_id,
                text,
                tail_gen: Some(gen),
            },
            RunEvent::Exit { run_id, code, stopped, crashed, .. } => RunEvent::Exit {
                run_id,
                code,
                stopped,
                crashed,
                tail_gen: Some(gen),
            },
        }
    }

    /// The run this event belongs to.
    pub open spec fn run(self) -> String {
        match self {
            RunEvent::TailStart { run_id, .. } => run_id,
            RunEvent::Line { run_id, .. } => run_id,
            RunEvent::Step { run_id, .. } => run_id,
            RunEvent::Progress { run_id, .. } => run_id,
            RunEvent::Status { run_id, .. } => run_id,
            RunEvent::Exit { run_id, .. } => run_id,
        }
    }

    /// Whether this is the terminal `Exit` event.
    pub open spec fn is_exit(self) -> bool {
        self is Exit
    }

    /// Stamp (or overwrite) this event's `tail_gen` with `gen`; every other
    /// field is kept. On `TailStart` this sets its required generation.
    pub fn stamp_tail_gen(self, gen: u64) -> (r: Self)
        ensures
            r == self.stamped(gen),
    {
        match self {
            RunEvent::TailStart { run_id, .. } => RunEvent::TailStart { run_id, tail_gen: gen },
            RunEvent::Line { run_id, stream, text, .. } => RunEvent::Line {
                run_id,
                stream,
                text,
                tail_gen: Some(gen),
            },
            RunEvent::Step { run_id, k, n, name, .. } => RunEvent::Step {
                run_id,
                k,
                n,
                name,
                tail_gen: Some(gen),
            },
            RunEvent::Progress { run_id, pct, text, .. } => RunEvent::Progress {
                run_id,
                pct,
                text,
                tail_gen: Some(gen),
            },
            RunEvent::Status { run_id, text, .. } => RunEvent::Status {
                run_id,
                text,
                tail_gen: Some(gen),
            },
            RunEvent::Exit { run_id, code, stopped, crashed, .. } => RunEvent::Exit {
                run_id,
                code,
                stopped,
                crashed,
                tail_gen: Some(gen),
            },
        }
    }
}

/// Stamping fences an event with exactly the given generation, keeps its
/// kind, and a later stamp overrides an earlier one: stamping twice is
/// stamping once with the last generation, and stamping with the generation
/// an event already carries changes nothing.
pub proof fn stamping_sets_the_generation(e: RunEvent, g1: u64, g2: u64)
    ensures
        e.stamped(g1).generation() == Some(g1),
        e.stamped(g1).is_exit() == e.is_exit(),
        e.stamped(g1).stamped(g2) == e.stamped(g2),
        e.generation() == Some(g1) ==> e.stamped(g1) == e,
{
}

} // verus!
