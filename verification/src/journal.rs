//! Reader for pult's run journal (schema 1). Pult is the journal's single
//! writer; this side only discovers, parses and tails what pult wrote: a
//! run directory per run under `<state>/repos/<repo key>/runs/<run id>`,
//! holding `meta.json` (identity and outcome) and `events.jsonl` (one
//! event record per line).

use vstd::prelude::*;
use sha2::{Digest, Sha256};
use crate::pult_bin::{join_path, spec_join};
use crate::text::{chars_eq, chars_of, string_from_chars, trim_end, trim_end_chars};
use vstd::utf8::{decode_utf8, valid_utf8};
use crate::events::opt_str_model;
use crate::types::RunEvent;

verus! {

broadcast use vstd::string::group_string_axioms;

/// A run's lifecycle state as `meta.json` records it.
#[derive(Debug, Clone, Copy, PartialEq, Eq, Structural)]
pub enum Status {
    Running,
    Exited,
    Stopped,
}

/// `meta.json`: one run's identity, audit record and outcome. Paths are
/// held as text; `params` keeps the supplied values as key/value pairs.
#[derive(Debug, Clone)]
pub struct RunMeta {
    pub schema: u32,
    pub run_id: String,
    pub repo_dir: Option<String>,
    pub manifest: Option<String>,
    pub command_id: String,
    pub command_title: String,
    pub params: Vec<(String, String)>,
    pub origin: String,
    pub interactive: bool,
    pub pult_version: String,
    /// Pid of the journaling pult process (the writer, never its child).
    pub pid: u32,
    /// Pult's process group, the capability a stop signals.
    pub pgid: Option<i32>,
    pub started_at: String,
    pub status: Status,
    pub exit_code: Option<i32>,
    pub ended_at: Option<String>,
}

/// One entry of a run listing: a display-ready summary whose `status` is
/// `"running"`, `"exited"`, `"stopped"` or the reader-derived `"crashed"`.
#[derive(Debug, Clone)]
pub struct RunSummary {
    pub run_id: String,
    pub command_id: String,
    pub command_title: String,
    pub status: String,
    pub exit_code: Option<i32>,
    pub started_at: String,
    pub ended_at: Option<String>,
    pub origin: String,
    pub interactive: bool,
}

/// The origin recorded when `meta.json` names none.
pub fn default_origin() -> (r: String)
    ensures
        r@ == "cli"@,
{
    String::from_str("cli")
}

// --- Run ids and run directories ------------------------------------------

/// What a run id may hold: 1 to 64 ASCII letters, digits and `-`. Such an
/// id has no separator and no `.`, so it names exactly one directory entry.
pub open spec fn spec_valid_run_id(s: Seq<char>) -> bool {
    &&& 1 <= s.len() <= 64
    &&& forall|i: int| 0 <= i < s.len() ==> is_id_char(#[trigger] s[i])
}

pub open spec fn is_id_char(c: char) -> bool {
    ('a' <= c && c <= 'z') || ('A' <= c && c <= 'Z') || ('0' <= c && c <= '9') || c == '-'
}

/// Whether `s` is safe to use as a run directory name: the one
/// caller-supplied string that reaches a path join here.
pub fn valid_run_id(s: &str) -> (r: bool)
    ensures
        r == spec_valid_run_id(s@),
{
    let c = chars_of(s);
    if c.len() == 0 || c.len() > 64 {
        return false;
    }
    let mut i: usize = 0;
    while i < c.len()
        invariant
            c@ == s@,
            i <= c@.len(),
            forall|j: int| 0 <= j < i ==> is_id_char(#[trigger] c@[j]),
        decreases c@.len() - i,
    {
        let ch = c[i];
        if !(('a' <= ch && ch <= 'z') || ('A' <= ch && ch <= 'Z') || ('0' <= ch && ch <= '9')
            || ch == '-') {
            return false;
        }
        i += 1;
    }
    true
}

/// A valid run id holds no path separator and no `.`: joined onto a runs
/// directory it can only name an entry directly inside it.
pub proof fn valid_run_ids_cannot_escape(s: Seq<char>)
    requires
        spec_valid_run_id(s),
    ensures
        forall|i: int| 0 <= i < s.len() ==> s[i] != '/' && s[i] != '\\' && s[i] != '.',
{
    assert forall|i: int| 0 <= i < s.len() implies s[i] != '/' && s[i] != '\\' && s[i] != '.' by {
        assert(is_id_char(s[i]));
    }
}

/// The SHA-256 digest of `data`.
pub uninterp spec fn sha256(data: Seq<u8>) -> Seq<u8>;

/// `sha2::Sha256::digest`: the SHA-256 digest of `data`, which is 32 bytes
/// long.
#[verifier::external_body]
fn sha256_digest(data: &[u8]) -> (r: Vec<u8>)
    ensures
        r@ == sha256(data@),
        r@.len() == 32,
{
    Sha256::digest(data).to_vec()
}

/// A nibble as a lowercase hex digit.
pub open spec fn hex_digit(n: int) -> char {
    seq!['0', '1', '2', '3', '4', '5', '6', '7', '8', '9', 'a', 'b', 'c', 'd', 'e', 'f'][n]
}

/// `bytes` as lowercase hex, two digits per byte.
pub open spec fn hex_of(bytes: Seq<u8>) -> Seq<char>
    decreases bytes.len(),
{
    if bytes.len() == 0 {
        Seq::<char>::empty()
    } else {
        hex_of(bytes.drop_last()) + seq![
            hex_digit(bytes.last() as int / 16),
            hex_digit(bytes.last() as int % 16),
        ]
    }
}

/// The repo key: the first 16 hex digits (8 bytes) of the SHA-256 of the
/// canonical repo directory's UTF-8 text, the same key pult's writer uses.
pub open spec fn spec_repo_key(canonical_dir: Seq<char>) -> Seq<char> {
    hex_of(sha256(vstd::utf8::encode_utf8(canonical_dir)).take(8))
}

/// First 16 hex chars of SHA-256 of the canonical repo dir: always 16
/// lowercase hex digits.
pub fn repo_key(canonical_dir: &str) -> (r: String)
    ensures
        r@ == spec_repo_key(canonical_dir@),
        r@.len() == 16,
        forall|i: int|
            0 <= i < 16 ==> {
                let c = #[trigger] r@[i];
                ('0' <= c && c <= '9') || ('a' <= c && c <= 'f')
            },
{
    let digest = sha256_digest(canonical_dir.as_bytes());
    let digits = vec!['0', '1', '2', '3', '4', '5', '6', '7', '8', '9', 'a', 'b', 'c', 'd', 'e', 'f'];
    assert(digits@ =~= seq!['0', '1', '2', '3', '4', '5', '6', '7', '8', '9', 'a', 'b', 'c', 'd', 'e', 'f']);
    let ghost d = digest@;
    let mut key: Vec<char> = Vec::new();
    let mut i: usize = 0;
    assert(d.take(0) =~= Seq::<u8>::empty());
    while i < 8
        invariant
            d == digest@,
            d.len() == 32,
            i <= 8,
            digits@ == seq!['0', '1', '2', '3', '4', '5', '6', '7', '8', '9', 'a', 'b', 'c', 'd', 'e', 'f'],
            key@ == hex_of(d.take(i as int)),
        decreases 8 - i,
    {
        let b = digest[i];
        let hi = (b / 16) as usize;
        let lo = (b % 16) as usize;
        key.push(digits[hi]);
        key.push(digits[lo]);
        proof {
            assert(d.take(i + 1).drop_last() =~= d.take(i as int));
            assert(d.take(i + 1).last() == b);
        }
        i += 1;
    }
    proof {
        lemma_hex_of_shape(d.take(8));
    }
    string_from_chars(key.as_slice())
}

proof fn lemma_hex_of_shape(b: Seq<u8>)
    ensures
        hex_of(b).len() == 2 * b.len(),
        forall|i: int|
            0 <= i < hex_of(b).len() ==> {
                let c = #[trigger] hex_of(b)[i];
                ('0' <= c && c <= '9') || ('a' <= c && c <= 'f')
            },
    decreases b.len(),
{
    if b.len() > 0 {
        lemma_hex_of_shape(b.drop_last());
        let h = hex_of(b);
        let p = hex_of(b.drop_last());
        let hi = b.last() as int / 16;
        let lo = b.last() as int % 16;
        assert(0 <= hi < 16 && 0 <= lo < 16);
        assert forall|i: int| 0 <= i < h.len() implies {
            let c = #[trigger] h[i];
            ('0' <= c && c <= '9') || ('a' <= c && c <= 'f')
        } by {
            if i < p.len() {
                assert(h[i] == p[i]);
            } else {
                let n = if i == p.len() { hi } else { lo };
                assert(h[i] == hex_digit(n));
            }
        }
    }
}

/// This repo's `runs/` directory under a state directory, given the repo's
/// canonical directory, with the platform's path separator (`\\` on
/// Windows).
pub open spec fn spec_runs_root(state: Seq<char>, canonical_repo: Seq<char>, windows: bool) -> Seq<
    char,
> {
    spec_join(
        spec_join(spec_join(state, "repos"@, windows), spec_repo_key(canonical_repo), windows),
        "runs"@,
        windows,
    )
}

/// `<state>/repos/<repo key>/runs`.
pub fn runs_root_at(state: &str, canonical_repo: &str, windows: bool) -> (r: String)
    ensures
        r@ == spec_runs_root(state@, canonical_repo@, windows),
{
    let repos = join_path(state, "repos", windows);
    let key = repo_key(canonical_repo);
    let keyed = join_path(repos.as_str(), key.as_str(), windows);
    join_path(keyed.as_str(), "runs", windows)
}

/// The message for a refused run id.
pub open spec fn invalid_run_id_message(run_id: Seq<char>) -> Seq<char> {
    "`"@ + run_id + "` isn't a valid run id"@
}

/// One run's directory, for a caller-supplied run id: refused unless the
/// id is valid, so no id can reach outside the repo's runs directory.
pub fn run_dir_for_at(state: &str, canonical_repo: &str, run_id: &str, windows: bool) -> (r:
    Result<String, String>)
    ensures
        r matches Ok(p) ==> spec_valid_run_id(run_id@) && p@ == spec_join(
            spec_runs_root(state@, canonical_repo@, windows),
            run_id@,
            windows,
        ),
        r matches Err(e) ==> !spec_valid_run_id(run_id@) && e@ == invalid_run_id_message(
            run_id@,
        ),
        r is Ok <==> spec_valid_run_id(run_id@),
{
    if !valid_run_id(run_id) {
        let mut msg = String::from_str("`");
        msg.append(run_id);
        msg.append("` isn't a valid run id");
        return Err(msg);
    }
    let root = runs_root_at(state, canonical_repo, windows);
    Ok(join_path(root.as_str(), run_id, windows))
}

/// Where the journal state lives: an explicit `PULT_STATE_DIR` wins (set
/// but empty means there is no journal), otherwise the platform default.
pub fn choose_state_dir(env_override: Option<String>, platform_default: Option<String>) -> (r:
    Option<String>)
    ensures
        r == (match env_override {
            Some(e) => if e@.len() == 0 {
                None
            } else {
                Some(e)
            },
            None => platform_default,
        }),
{
    match env_override {
        Some(e) => {
            if e.unicode_len() == 0 {
                None
            } else {
                Some(e)
            }
        },
        None => platform_default,
    }
}

/// The platform whose conventions place the journal state.
#[derive(Debug, Clone, Copy, PartialEq, Eq, Structural)]
pub enum Platform {
    MacOs,
    Windows,
    /// Linux and the other unixes.
    OtherUnix,
}

/// The platform default for the state directory, from the user directory
/// that platform keeps it under (`base`: the data directory on macOS, the
/// local data directory on Windows, the XDG state directory elsewhere) and,
/// where that is missing on the other unixes, the home directory.
pub open spec fn spec_platform_state_dir(
    platform: Platform,
    base: Option<String>,
    home: Option<String>,
) -> Option<Seq<char>> {
    match platform {
        Platform::MacOs => match base {
            Some(d) => Some(spec_join(spec_join(d@, "pult"@, false), "state"@, false)),
            None => None,
        },
        Platform::Windows => match base {
            Some(d) => Some(spec_join(spec_join(d@, "pult"@, true), "state"@, true)),
            None => None,
        },
        Platform::OtherUnix => match base {
            Some(d) => Some(spec_join(d@, "pult"@, false)),
            None => match home {
                Some(h) => Some(spec_join(h@, ".local/state/pult"@, false)),
                None => None,
            },
        },
    }
}

/// See [`spec_platform_state_dir`].
pub fn platform_state_dir(platform: Platform, base: Option<String>, home: Option<String>) -> (r:
    Option<String>)
    ensures
        opt_str_model(r) == spec_platform_state_dir(platform, base, home),
{
    match platform {
        Platform::MacOs => match base {
            Some(d) => {
                let p = join_path(d.as_str(), "pult", false);
                Some(join_path(p.as_str(), "state", false))
            },
            None => None,
        },
        Platform::Windows => match base {
            Some(d) => {
                let p = join_path(d.as_str(), "pult", true);
                Some(join_path(p.as_str(), "state", true))
            },
            None => None,
        },
        Platform::OtherUnix => match base {
            Some(d) => Some(join_path(d.as_str(), "pult", false)),
            None => match home {
                Some(h) => Some(join_path(h.as_str(), ".local/state/pult", false)),
                None => None,
            },
        },
    }
}

/// `dirs::data_dir()`, as text. It depends on the user and the
/// environment, so nothing is claimed of it.
#[verifier::external_body]
fn user_data_dir() -> Option<String> {
    dirs::data_dir().map(|p| p.to_string_lossy().into_owned())
}

/// `dirs::data_local_dir()`, as text. It depends on the user and the
/// environment, so nothing is claimed of it.
#[verifier::external_body]
fn user_data_local_dir() -> Option<String> {
    dirs::data_local_dir().map(|p| p.to_string_lossy().into_owned())
}

/// `dirs::state_dir()`, as text. It depends on the user and the
/// environment, so nothing is claimed of it.
#[verifier::external_body]
fn user_state_dir() -> Option<String> {
    dirs::state_dir().map(|p| p.to_string_lossy().into_owned())
}

/// `dirs::home_dir()`, as text. It depends on the user and the
/// environment, so nothing is claimed of it.
#[verifier::external_body]
fn user_home_dir() -> Option<String> {
    dirs::home_dir().map(|p| p.to_string_lossy().into_owned())
}

/// The per-user state directory journals live under: `PULT_STATE_DIR`
/// (`env_override`, read by the caller) wins, and set but empty means no
/// journal; otherwise the platform default (see
/// [`spec_platform_state_dir`]), looked up only then. `None` means no
/// journal can be resolved, which callers treat as "no runs".
pub fn state_dir(env_override: Option<String>, platform: Platform) -> (r: Option<String>)
    ensures
        env_override matches Some(e) ==> r == (if e@.len() == 0 {
            None
        } else {
            Some(e)
        }),
        env_override is None ==> exists|base: Option<String>, home: Option<String>|
            opt_str_model(r) == spec_platform_state_dir(platform, base, home),
{
    match env_override {
        Some(e) => choose_state_dir(Some(e), None),
        None => {
            let base = match platform {
                Platform::MacOs => user_data_dir(),
                Platform::Windows => user_data_local_dir(),
                Platform::OtherUnix => user_state_dir(),
            };
            let home = if platform == Platform::OtherUnix && base.is_none() {
                user_home_dir()
            } else {
                None
            };
            let ghost (b, h) = (base, home);
            let r = platform_state_dir(platform, base, home);
            assert(opt_str_model(r) == spec_platform_state_dir(platform, b, h));
            r
        },
    }
}

/// The message when no journal state directory can be resolved.
pub open spec fn no_journal_message() -> Seq<char> {
    "No run journal is available on this system"@
}

/// One run's directory when the state directory may be missing (see
/// [`state_dir`]): refused with [`no_journal_message`] when it is, else
/// as [`run_dir_for_at`].
pub fn run_dir_for(state: Option<String>, canonical_repo: &str, run_id: &str, windows: bool) -> (r:
    Result<String, String>)
    ensures
        state is None ==> (r matches Err(e) && e@ == no_journal_message()),
        state matches Some(st) ==> {
            &&& r is Ok <==> spec_valid_run_id(run_id@)
            &&& r matches Ok(p) ==> p@ == spec_join(
                spec_runs_root(st@, canonical_repo@, windows),
                run_id@,
                windows,
            )
            &&& r matches Err(e) ==> e@ == invalid_run_id_message(run_id@)
        },
{
    match state {
        Some(st) => run_dir_for_at(st.as_str(), canonical_repo, run_id, windows),
        None => Err(String::from_str("No run journal is available on this system")),
    }
}

// --- Writer liveness and run summaries --------------------------------------

/// What an existence probe (`kill(pid, 0)`, which sends no signal) said.
pub enum ProbeOutcome {
    /// The process exists.
    Exists,
    /// The process exists but belongs to another user (`EPERM`).
    PermissionDenied,
    /// Any other failure, `ESRCH` included: no such process.
    Gone,
}

/// `nix::sys::signal::kill(pid, None)`: probe whether process `pid` exists
/// without signalling it. The answer depends on the machine's processes at
/// the time of the call, so nothing is claimed of it.
#[verifier::external_body]
fn probe_process(pid: i32) -> ProbeOutcome {
    match nix::sys::signal::kill(nix::unistd::Pid::from_raw(pid), None) {
        Ok(()) => ProbeOutcome::Exists,
        Err(nix::errno::Errno::EPERM) => ProbeOutcome::PermissionDenied,
        Err(_) => ProbeOutcome::Gone,
    }
}

/// Liveness from a probe: a process that exists is alive, even one owned by
/// another user.
pub fn alive_from_probe(o: ProbeOutcome) -> (r: bool)
    ensures
        r == !(o is Gone),
{
    match o {
        ProbeOutcome::Exists => true,
        ProbeOutcome::PermissionDenied => true,
        ProbeOutcome::Gone => false,
    }
}

/// Whether the journaling pult process `pid` is still alive. On unix the
/// pid is read as a signed process id; zero or negative (which `kill` would
/// take for a process group) is never alive and is never probed. Off unix
/// there is no cheap liveness probe, and every writer counts as alive, the
/// least wrong answer when the question cannot be asked.
pub fn writer_alive(pid: u32, unix: bool) -> (r: bool)
    ensures
        !unix ==> r,
        unix && (pid as i32) <= 0 ==> !r,
{
    if !unix {
        return true;
    }
    let p = pid as i32;
    if p <= 0 {
        return false;
    }
    alive_from_probe(probe_process(p))
}

/// The status word a summary shows: `"crashed"` when the journal says
/// running but the writer is dead, else the journal's own status.
pub open spec fn status_word(status: Status, alive: bool) -> Seq<char> {
    if status == Status::Running && !alive {
        "crashed"@
    } else {
        match status {
            Status::Running => "running"@,
            Status::Exited => "exited"@,
            Status::Stopped => "stopped"@,
        }
    }
}

/// Whether `s` summarizes `meta` with the given writer liveness.
pub open spec fn summarizes(s: RunSummary, meta: RunMeta, alive: bool) -> bool {
    &&& s.run_id == meta.run_id
    &&& s.command_id == meta.command_id
    &&& s.command_title == meta.command_title
    &&& s.status@ == status_word(meta.status, alive)
    &&& s.exit_code == meta.exit_code
    &&& s.started_at == meta.started_at
    &&& s.ended_at == meta.ended_at
    &&& s.origin == meta.origin
    &&& s.interactive == meta.interactive
}

/// The summary of `meta` given whether its writer is alive.
pub fn summarize(meta: RunMeta, alive: bool) -> (r: RunSummary)
    ensures
        summarizes(r, meta, alive),
{
    let crashed = meta.status == Status::Running && !alive;
    let status = if crashed {
        String::from_str("crashed")
    } else {
        match meta.status {
            Status::Running => String::from_str("running"),
            Status::Exited => String::from_str("exited"),
            Status::Stopped => String::from_str("stopped"),
        }
    };
    RunSummary {
        run_id: meta.run_id,
        command_id: meta.command_id,
        command_title: meta.command_title,
        status,
        exit_code: meta.exit_code,
        started_at: meta.started_at,
        ended_at: meta.ended_at,
        origin: meta.origin,
        interactive: meta.interactive,
    }
}

/// A display-ready summary of `meta`, probing the writer only when the
/// journal says the run is still running (see [`writer_alive`] for `unix`).
pub fn to_summary(meta: RunMeta, unix: bool) -> (r: RunSummary)
    ensures
        summary_of(r, meta, unix),
{
    let ghost m = meta;
    let alive = if meta.status == Status::Running {
        writer_alive(meta.pid, unix)
    } else {
        true
    };
    let r = summarize(meta, alive);
    proof {
        if m.status != Status::Running {
            assert(status_word(m.status, true) == status_word(m.status, alive));
        }
        if unix && (m.pid as i32) <= 0 && m.status == Status::Running {
            assert(!alive);
        }
    }
    r
}

// --- Mapping `events.jsonl` records ------------------------------------------

/// The fields of one `events.jsonl` record that the reader looks at, each
/// present only when the record has it with the right JSON type: `kind`,
/// `stream`, `text` and `name` as strings, `k`, `n` and `pct` as unsigned
/// integers, `code` as a signed integer, `stopped` as a boolean. A line that
/// is not a JSON object has none of them.
#[derive(Debug, Clone)]
pub struct JournalRecord {
    pub kind: Option<String>,
    pub stream: Option<String>,
    pub text: Option<String>,
    pub k: Option<u64>,
    pub n: Option<u64>,
    pub name: Option<String>,
    pub pct: Option<u64>,
    pub code: Option<i64>,
    pub stopped: Option<bool>,
}

pub open spec fn kind_is(r: JournalRecord, word: Seq<char>) -> bool {
    r.kind matches Some(k) && k@ == word
}

/// What a journal record means as a frontend event: `line`, `step` and
/// `status` need their fields (else the record is skipped), `progress` and
/// `exit` take theirs when present (`k`, `n`, `pct` and `code` narrowed to
/// the event's integer widths by truncation, `stopped` defaulting to false),
/// and any other kind is skipped. A journaled exit is never a crash.
pub open spec fn spec_map_event(r: JournalRecord, run_id: String) -> Option<RunEvent> {
    if kind_is(r, "line"@) {
        match (r.stream, r.text) {
            (Some(stream), Some(text)) => Some(
                RunEvent::Line { run_id, stream, text, tail_gen: None },
            ),
            _ => None,
        }
    } else if kind_is(r, "step"@) {
        match (r.k, r.n, r.name) {
            (Some(k), Some(n), Some(name)) => Some(
                RunEvent::Step { run_id, k: k as u32, n: n as u32, name, tail_gen: None },
            ),
            _ => None,
        }
    } else if kind_is(r, "progress"@) {
        Some(
            RunEvent::Progress {
                run_id,
                pct: match r.pct {
                    Some(p) => Some(p as u8),
                    None => None,
                },
                text: r.text,
                tail_gen: None,
            },
        )
    } else if kind_is(r, "status"@) {
        match r.text {
            Some(text) => Some(RunEvent::Status { run_id, text, tail_gen: None }),
            None => None,
        }
    } else if kind_is(r, "exit"@) {
        Some(
            RunEvent::Exit {
                run_id,
                code: match r.code {
                    Some(c) => Some(c as i32),
                    None => None,
                },
                stopped: match r.stopped {
                    Some(b) => b,
                    None => false,
                },
                crashed: false,
                tail_gen: None,
            },
        )
    } else {
        None
    }
}

fn kind_matches(kind: &str, word: &str) -> (r: bool)
    ensures
        r == (kind@ == word@),
{
    let a = chars_of(kind);
    let b = chars_of(word);
    chars_eq(a.as_slice(), b.as_slice())
}

/// Map one parsed `events.jsonl` record to the frontend's event shape; `None`
/// for a record to skip (a kind this reader does not know, or a missing
/// field).
pub fn map_record(r: JournalRecord, run_id: &String) -> (e: Option<RunEvent>)
    ensures
        e == spec_map_event(r, *run_id),
{
    let ghost rg = r;
    let kind = match &r.kind {
        Some(k) => k.clone(),
        None => {
            return None;
        },
    };
    let e = if kind_matches(kind.as_str(), "line") {
        match (r.stream, r.text) {
            (Some(stream), Some(text)) => Some(
                RunEvent::Line { run_id: run_id.clone(), stream, text, tail_gen: None },
            ),
            _ => None,
        }
    } else if kind_matches(kind.as_str(), "step") {
        match (r.k, r.n, r.name) {
            (Some(k), Some(n), Some(name)) => Some(
                RunEvent::Step {
                    run_id: run_id.clone(),
                    k: k as u32,
                    n: n as u32,
                    name,
                    tail_gen: None,
                },
            ),
            _ => None,
        }
    } else if kind_matches(kind.as_str(), "progress") {
        let pct = match r.pct {
            Some(p) => Some(p as u8),
            None => None,
        };
        Some(RunEvent::Progress { run_id: run_id.clone(), pct, text: r.text, tail_gen: None })
    } else if kind_matches(kind.as_str(), "status") {
        match r.text {
            Some(text) => Some(RunEvent::Status { run_id: run_id.clone(), text, tail_gen: None }),
            None => None,
        }
    } else if kind_matches(kind.as_str(), "exit") {
        let code = match r.code {
            Some(c) => Some(c as i32),
            None => None,
        };
        let stopped = match r.stopped {
            Some(b) => b,
            None => false,
        };
        Some(
            RunEvent::Exit { run_id: run_id.clone(), code, stopped, crashed: false, tail_gen: None },
        )
    } else {
        None
    };
    assert(e == spec_map_event(rg, *run_id));
    e
}

/// What `serde_json` reads from one line of text: the fields of
/// [`JournalRecord`] as the JSON object on that line holds them (none when
/// the line is not a JSON object).
pub uninterp spec fn json_record(line: Seq<char>) -> JournalRecord;

/// `serde_json::from_str::<serde_json::Value>` on `line`, then each field
/// read with `Value::get` and `as_str` / `as_u64` / `as_i64` / `as_bool`.
/// The result depends on the text alone; what JSON parsing makes of it is
/// left to the name `json_record`.
#[verifier::external_body]
fn read_record(line: &str) -> (r: JournalRecord)
    ensures
        r == json_record(line@),
{
    let d: serde_json::Value = serde_json::from_str(line).unwrap_or_default();
    let s = |k: &str| d.get(k).and_then(|v| v.as_str()).map(String::from);
    let u = |k: &str| d.get(k).and_then(|v| v.as_u64());
    let code = d.get("code").and_then(|v| v.as_i64());
    let stopped = d.get("stopped").and_then(|v| v.as_bool());
    JournalRecord {
        kind: s("kind"), stream: s("stream"), text: s("text"), k: u("k"), n: u("n"),
        name: s("name"), pct: u("pct"), code, stopped,
    }
}

/// Map one line of `events.jsonl` (its trailing whitespace already trimmed)
/// to the frontend's event shape; `None` for a line that is not JSON, or a
/// record to skip.
pub fn map_event_line(line: &str, run_id: &str) -> (e: Option<RunEvent>)
    ensures
        exists|id: String| id@ == run_id@ && e == spec_map_event(json_record(line@), id),
{
    let id = String::from_str(run_id);
    map_record(read_record(line), &id)
}

/// `std::str::from_utf8`: the text of `bytes` when they are valid UTF-8,
/// `None` (the documented `Err`) when they are not.
#[verifier::external_body]
fn utf8_text(bytes: &[u8]) -> (r: Option<String>)
    ensures
        r is Some <==> valid_utf8(bytes@),
        r matches Some(t) ==> t@ == decode_utf8(bytes@),
{
    std::str::from_utf8(bytes).ok().map(String::from)
}

/// The event one complete line of `events.jsonl` (without its `\n`) yields.
/// Trimming the line's trailing whitespace also drops the `\n` a reader that
/// keeps it would see, so the result is the same either way.
pub open spec fn line_event(line: Seq<u8>, run_id: String) -> Option<RunEvent> {
    spec_map_event(json_record(trim_end(decode_utf8(line))), run_id)
}

/// The events that `lines` yield, in order, skipped records left out.
pub open spec fn mapped_events(lines: Seq<Seq<u8>>, run_id: String) -> Seq<RunEvent>
    decreases lines.len(),
{
    if lines.len() == 0 {
        Seq::empty()
    } else {
        let before = mapped_events(lines.drop_last(), run_id);
        match line_event(lines.last(), run_id) {
            Some(e) => before.push(e),
            None => before,
        }
    }
}

/// A read of `buf` succeeds when every complete line, and the torn rest
/// after the last `\n`, is valid UTF-8 (reading text line by line fails on
/// any that is not).
pub open spec fn drain_ok(buf: Seq<u8>) -> bool {
    &&& forall|i: int|
        0 <= i < byte_lines_acc(buf).0.len() ==> #[trigger] valid_utf8(byte_lines_acc(buf).0[i])
    &&& valid_utf8(byte_lines_acc(buf).1)
}

/// One pass over the bytes appended to `events.jsonl` since the last pass:
/// each complete record mapped to a frontend event (skipped records left
/// out), and how many bytes those records take. A torn final line (no `\n`
/// yet: still being written) is not consumed, so a later pass, reading
/// from the returned offset, picks it up whole. `None` when the text is not
/// valid UTF-8, which ends the tail as a failed read does.
pub fn drain_events(buf: &[u8], run_id: &str) -> (r: Option<(Vec<RunEvent>, usize)>)
    ensures
        r is Some <==> drain_ok(buf@),
        r matches Some((evs, used)) ==> {
            &&& used == consumed(buf@)
            &&& exists|id: String|
                id@ == run_id@ && evs@ == mapped_events(byte_lines_acc(buf@).0, id)
        },
{
    let (lines, used) = complete_lines(buf);
    let ghost ls = byte_lines_acc(buf@).0;
    let mut rest: Vec<u8> = Vec::new();
    let mut j: usize = used;
    while j < buf.len()
        invariant
            used <= j <= buf@.len(),
            rest@ == buf@.subrange(used as int, j as int),
        decreases buf@.len() - j,
    {
        rest.push(buf[j]);
        j += 1;
    }
    proof {
        lemma_byte_lines_tail(buf@);
        assert(rest@ =~= byte_lines_acc(buf@).1);
    }
    if utf8_text(rest.as_slice()).is_none() {
        return None;
    }
    let id = String::from_str(run_id);
    let mut evs: Vec<RunEvent> = Vec::new();
    let mut i: usize = 0;
    assert(ls.take(0) =~= Seq::<Seq<u8>>::empty());
    while i < lines.len()
        invariant
            i <= lines@.len(),
            lines@.map_values(|l: Vec<u8>| l@) == ls,
            ls == byte_lines_acc(buf@).0,
            id@ == run_id@,
            forall|k: int| 0 <= k < i ==> #[trigger] valid_utf8(ls[k]),
            evs@ == mapped_events(ls.take(i as int), id),
        decreases lines@.len() - i,
    {
        assert(lines@[i as int]@ == ls[i as int]);
        let text = match utf8_text(lines[i].as_slice()) {
            Some(t) => t,
            None => {
                assert(!valid_utf8(byte_lines_acc(buf@).0[i as int]));
                return None;
            },
        };
        let cs = chars_of(text.as_str());
        let trimmed = trim_end_chars(cs.as_slice());
        let line = string_from_chars(trimmed.as_slice());
        let e = map_record(read_record(line.as_str()), &id);
        assert(ls.take(i + 1).drop_last() =~= ls.take(i as int));
        assert(ls.take(i + 1).last() == ls[i as int]);
        match e {
            Some(ev) => {
                evs.push(ev);
            },
            None => {},
        }
        i += 1;
    }
    assert(ls.take(lines@.len() as int) =~= ls);
    Some((evs, used))
}

/// A journaled event record never yields a crashed exit: a crash is only
/// ever derived by the reader, never recorded.
pub proof fn mapped_exits_are_never_crashes(r: JournalRecord, run_id: String)
    ensures
        spec_map_event(r, run_id) matches Some(RunEvent::Exit { crashed, .. }) ==> !crashed,
{
}

// --- Terminal exits ---------------------------------------------------------

/// The `Exit` to emit for a run whose events ended without one: from its
/// meta when readable (a crash when it still says running but the writer is
/// dead), or a crash when even the meta is gone.
pub open spec fn spec_exit_for(run_id: String, meta: Option<RunMeta>, alive: bool) -> RunEvent {
    match meta {
        Some(m) => RunEvent::Exit {
            run_id,
            code: m.exit_code,
            stopped: m.status == Status::Stopped,
            crashed: m.status == Status::Running && !alive,
            tail_gen: None,
        },
        None => RunEvent::Exit {
            run_id,
            code: None,
            stopped: false,
            crashed: true,
            tail_gen: None,
        },
    }
}

pub open spec fn opt_meta(meta: Option<&RunMeta>) -> Option<RunMeta> {
    match meta {
        Some(m) => Some(*m),
        None => None,
    }
}

/// Whether a run is still going, as a tail observes it: its meta says
/// running and its writer is alive (see [`writer_alive`] for `unix`). The
/// writer is probed only when the meta says running.
pub fn still_running(meta: Option<&RunMeta>, unix: bool) -> (r: bool)
    ensures
        r ==> (opt_meta(meta) matches Some(m) && m.status == Status::Running && (!unix || (
        m.pid as i32) > 0)),
        !unix ==> (r <==> (opt_meta(meta) matches Some(m) && m.status == Status::Running)),
{
    match meta {
        Some(m) => m.status == Status::Running && writer_alive(m.pid, unix),
        None => false,
    }
}

/// The synthesized `Exit` given the meta and whether its writer is alive.
pub fn exit_for(run_id: String, meta: Option<&RunMeta>, alive: bool) -> (r: RunEvent)
    ensures
        r == spec_exit_for(run_id, opt_meta(meta), alive),
{
    match meta {
        Some(m) => RunEvent::Exit {
            run_id,
            code: m.exit_code,
            stopped: m.status == Status::Stopped,
            crashed: m.status == Status::Running && !alive,
            tail_gen: None,
        },
        None => RunEvent::Exit { run_id, code: None, stopped: false, crashed: true, tail_gen: None },
    }
}

/// Build the terminal `Exit` for a run whose events file ended without one,
/// probing the writer only when the meta still says running (see
/// [`writer_alive`] for `unix`).
pub fn synthesize_exit(run_id: &str, meta: Option<&RunMeta>, unix: bool) -> (r: RunEvent)
    ensures
        exists|id: String, alive: bool|
            id@ == run_id@ && r == #[trigger] spec_exit_for(id, opt_meta(meta), alive),
        unix && (opt_meta(meta) matches Some(m) && (m.pid as i32) <= 0) ==> exists|id: String|
            id@ == run_id@ && r == #[trigger] spec_exit_for(id, opt_meta(meta), false),
        !unix ==> exists|id: String|
            id@ == run_id@ && r == #[trigger] spec_exit_for(id, opt_meta(meta), true),
{
    let alive = match meta {
        Some(m) => if m.status == Status::Running {
            writer_alive(m.pid, unix)
        } else {
            true
        },
        None => true,
    };
    let id = String::from_str(run_id);
    let ghost idg = id;
    let r = exit_for(id, meta, alive);
    proof {
        if let Some(m) = opt_meta(meta) {
            if m.status != Status::Running {
                assert(spec_exit_for(idg, opt_meta(meta), alive) == spec_exit_for(
                    idg,
                    opt_meta(meta),
                    false,
                ));
            }
        }
    }
    r
}

/// The explanatory line of the "never journaled" fallback.
pub open spec fn never_journaled_text() -> Seq<char> {
    "pult never journaled this run — check that pult is installed and supports --run-id (older versions don't journal)"@
}

/// Whether `evs` is the "never journaled" fallback for `run_id`: a stderr
/// line explaining that pult never journaled the run, then a failed `Exit`.
pub open spec fn is_never_journaled(evs: Seq<RunEvent>, run_id: Seq<char>) -> bool {
    &&& evs.len() == 2
    &&& evs[0] matches RunEvent::Line { run_id: id, stream, text, tail_gen } && id@ == run_id
        && stream@ == "stderr"@ && text@ == never_journaled_text() && tail_gen is None
    &&& evs[1] matches RunEvent::Exit { run_id: id, code, stopped, crashed, tail_gen } && id@
        == run_id && code is None && !stopped && !crashed && tail_gen is None
}

/// What to emit when a run's journal directory never appears (a pult too
/// old to journal, or no journal state directory at all).
pub fn emit_never_journaled(run_id: &str) -> (r: Vec<RunEvent>)
    ensures
        is_never_journaled(r@, run_id@),
{
    let mut out: Vec<RunEvent> = Vec::new();
    out.push(
        RunEvent::Line {
            run_id: String::from_str(run_id),
            stream: String::from_str("stderr"),
            text: String::from_str(
                "pult never journaled this run — check that pult is installed and supports --run-id (older versions don't journal)",
            ),
            tail_gen: None,
        },
    );
    out.push(
        RunEvent::Exit {
            run_id: String::from_str(run_id),
            code: None,
            stopped: false,
            crashed: false,
            tail_gen: None,
        },
    );
    out
}

// --- Tailing a run ----------------------------------------------------------

/// Where a tail is: opening `events.jsonl`,
/// alternating drains and meta observations (sleeping between them while
/// the writer runs), the one extra drain after a terminal observation,
/// reading the meta for a synthesized exit, or finished.
#[derive(Debug, Clone, Copy, PartialEq, Eq, Structural)]
pub enum TailPhase {
    Opening,
    Draining,
    Observing,
    Sleeping,
    FinalDraining,
    AwaitingMeta,
    Done,
}

/// The outside work a tail asks for next.
#[derive(Debug, Clone, Copy, PartialEq, Eq, Structural)]
pub enum TailAction {
    /// Open `events.jsonl`.
    OpenEvents,
    /// Read and map every complete record appended since the last drain.
    Drain,
    /// Read `meta.json` and probe its writer.
    ObserveMeta,
    /// Sleep one poll interval.
    Sleep,
    /// Read `meta.json` (and probe its writer) to synthesize the exit.
    ReadMetaForExit,
    /// Nothing more: the tail is over.
    Finished,
}

/// What the outside work reported.
pub enum TailInput {
    Opened,
    OpenFailed,
    /// The mapped events of one drain pass, in file order.
    Drained(Vec<RunEvent>),
    /// An I/O error while draining: nothing more is coming.
    DrainFailed,
    /// The meta as read (`None`: unreadable) and whether its writer is alive.
    Observed { meta: Option<RunMeta>, alive: bool },
    Slept,
    /// The meta read for a synthesized exit, and whether its writer is alive.
    MetaRead { meta: Option<RunMeta>, alive: bool },
}

/// One tail of one run's journal: backlog first, then live-follow while the
/// writer runs, one more drain after observing a terminal state (the writer
/// appends its `exit` record before flipping the meta), and a synthesized
/// `Exit` when no journaled one arrived. Its emissions open with a
/// `TailStart` carrying its generation, and every one is fenced with that
/// generation, so a frontend can drop stragglers of a superseded tail.
pub struct Tail {
    pub run_id: String,
    /// The generation every emission of this tail is fenced with.
    pub gen: u64,
    pub phase: TailPhase,
    /// The opening `TailStart` has been emitted.
    pub started: bool,
    /// An `Exit` has been emitted.
    pub saw_exit: bool,
}

/// Whether `evs` holds an `Exit`.
pub open spec fn has_exit(evs: Seq<RunEvent>) -> bool {
    exists|i: int| 0 <= i < evs.len() && (#[trigger] evs[i]) is Exit
}

/// Whether a meta observation means the run goes on: the meta says running
/// and its writer is alive.
pub open spec fn keeps_running(meta: Option<RunMeta>, alive: bool) -> bool {
    meta matches Some(m) && m.status == Status::Running && alive
}

/// The work a tail in `phase` waits for.
pub open spec fn pending_action(phase: TailPhase) -> TailAction {
    match phase {
        TailPhase::Opening => TailAction::OpenEvents,
        TailPhase::Draining => TailAction::Drain,
        TailPhase::Observing => TailAction::ObserveMeta,
        TailPhase::Sleeping => TailAction::Sleep,
        TailPhase::FinalDraining => TailAction::Drain,
        TailPhase::AwaitingMeta => TailAction::ReadMetaForExit,
        TailPhase::Done => TailAction::Finished,
    }
}

/// The core of one step: the next phase, whether an `Exit` has been
/// emitted, and the events to pass on (before fencing); `None` for a report
/// that does not answer the pending work. A failed drain ends the tail when
/// an `Exit` has already been passed on (nothing more is coming, and a run
/// ends in one `Exit`), and otherwise asks for the meta to synthesize one.
pub open spec fn tail_core(t: Tail, input: TailInput) -> Option<(TailPhase, bool, Seq<RunEvent>)> {
    match (t.phase, input) {
        (TailPhase::Opening, TailInput::Opened) => Some(
            (TailPhase::Draining, t.saw_exit, Seq::empty()),
        ),
        (TailPhase::Opening, TailInput::OpenFailed) => Some(
            (TailPhase::AwaitingMeta, t.saw_exit, Seq::empty()),
        ),
        (TailPhase::Draining, TailInput::Drained(evs)) => Some(
            (TailPhase::Observing, t.saw_exit || has_exit(evs@), evs@),
        ),
        (TailPhase::Draining, TailInput::DrainFailed) => Some(
            (
                if t.saw_exit {
                    TailPhase::Done
                } else {
                    TailPhase::AwaitingMeta
                },
                t.saw_exit,
                Seq::empty(),
            ),
        ),
        (TailPhase::Observing, TailInput::Observed { meta, alive }) => Some(
            (
                if keeps_running(meta, alive) {
                    TailPhase::Sleeping
                } else {
                    TailPhase::FinalDraining
                },
                t.saw_exit,
                Seq::empty(),
            ),
        ),
        (TailPhase::Sleeping, TailInput::Slept) => Some(
            (TailPhase::Draining, t.saw_exit, Seq::empty()),
        ),
        (TailPhase::FinalDraining, TailInput::Drained(evs)) => Some(
            (
                if t.saw_exit || has_exit(evs@) {
                    TailPhase::Done
                } else {
                    TailPhase::AwaitingMeta
                },
                t.saw_exit || has_exit(evs@),
                evs@,
            ),
        ),
        (TailPhase::FinalDraining, TailInput::DrainFailed) => Some(
            (
                if t.saw_exit {
                    TailPhase::Done
                } else {
                    TailPhase::AwaitingMeta
                },
                t.saw_exit,
                Seq::empty(),
            ),
        ),
        (TailPhase::AwaitingMeta, TailInput::MetaRead { meta, alive }) => Some(
            (TailPhase::Done, true, seq![spec_exit_for(t.run_id, meta, alive)]),
        ),
        _ => None,
    }
}

/// `evs`, each fenced with generation `gen`.
pub open spec fn stamp_all(evs: Seq<RunEvent>, gen: u64) -> Seq<RunEvent> {
    evs.map_values(|e: RunEvent| e.stamped(gen))
}

/// The event that opens a tail's emissions.
pub open spec fn tail_start(t: Tail) -> RunEvent {
    RunEvent::TailStart { run_id: t.run_id, tail_gen: t.gen }
}

/// One step of a tail: its next state and what it emits. A report that does
/// not answer the pending work changes nothing. The first step that does
/// emits `TailStart` first; every event passed on is fenced with the tail's
/// generation.
pub open spec fn spec_tail_step(t: Tail, input: TailInput) -> (Tail, Seq<RunEvent>) {
    match tail_core(t, input) {
        None => (t, Seq::empty()),
        Some((phase, saw_exit, evs)) => (
            Tail { run_id: t.run_id, gen: t.gen, phase, started: true, saw_exit },
            (if t.started {
                Seq::empty()
            } else {
                seq![tail_start(t)]
            }) + stamp_all(evs, t.gen),
        ),
    }
}

/// The view of a core step computed in exec code.
pub open spec fn core_view(r: Option<(TailPhase, bool, Vec<RunEvent>)>) -> Option<
    (TailPhase, bool, Seq<RunEvent>),
> {
    match r {
        Some((p, s, v)) => Some((p, s, v@)),
        None => None,
    }
}

/// Whether `evs` holds an `Exit`.
fn any_exit(evs: &Vec<RunEvent>) -> (r: bool)
    ensures
        r == has_exit(evs@),
{
    let mut i: usize = 0;
    while i < evs.len()
        invariant
            i <= evs@.len(),
            forall|j: int| 0 <= j < i ==> !((#[trigger] evs@[j]) is Exit),
        decreases evs@.len() - i,
    {
        if let RunEvent::Exit { .. } = &evs[i] {
            return true;
        }
        i += 1;
    }
    false
}

impl Tail {
    /// A fresh tail of `run_id`'s existing run directory, fenced with
    /// generation `gen`; its first work is opening `events.jsonl`.
    pub fn new(run_id: &str, gen: u64) -> (t: Tail)
        ensures
            t.run_id@ == run_id@,
            t.gen == gen,
            t.phase == TailPhase::Opening,
            !t.started,
            !t.saw_exit,
    {
        Tail {
            run_id: String::from_str(run_id),
            gen,
            phase: TailPhase::Opening,
            started: false,
            saw_exit: false,
        }
    }

    /// The outside work this tail waits for.
    pub fn next_action(&self) -> (a: TailAction)
        ensures
            a == pending_action(self.phase),
    {
        match self.phase {
            TailPhase::Opening => TailAction::OpenEvents,
            TailPhase::Draining => TailAction::Drain,
            TailPhase::Observing => TailAction::ObserveMeta,
            TailPhase::Sleeping => TailAction::Sleep,
            TailPhase::FinalDraining => TailAction::Drain,
            TailPhase::AwaitingMeta => TailAction::ReadMetaForExit,
            TailPhase::Done => TailAction::Finished,
        }
    }

    /// See [`tail_core`].
    fn advance(&self, input: TailInput) -> (r: Option<(TailPhase, bool, Vec<RunEvent>)>)
        ensures
            core_view(r) == tail_core(*self, input),
    {
        match (self.phase, input) {
            (TailPhase::Opening, TailInput::Opened) => Some(
                (TailPhase::Draining, self.saw_exit, Vec::new()),
            ),
            (TailPhase::Opening, TailInput::OpenFailed) => Some(
                (TailPhase::AwaitingMeta, self.saw_exit, Vec::new()),
            ),
            (TailPhase::Draining, TailInput::Drained(evs)) => {
                let seen = any_exit(&evs);
                Some((TailPhase::Observing, self.saw_exit || seen, evs))
            },
            (TailPhase::Draining, TailInput::DrainFailed) => {
                let next = if self.saw_exit {
                    TailPhase::Done
                } else {
                    TailPhase::AwaitingMeta
                };
                Some((next, self.saw_exit, Vec::new()))
            },
            (TailPhase::Observing, TailInput::Observed { meta, alive }) => {
                let running = match &meta {
                    Some(m) => m.status == Status::Running && alive,
                    None => false,
                };
                let next = if running {
                    TailPhase::Sleeping
                } else {
                    TailPhase::FinalDraining
                };
                Some((next, self.saw_exit, Vec::new()))
            },
            (TailPhase::Sleeping, TailInput::Slept) => Some(
                (TailPhase::Draining, self.saw_exit, Vec::new()),
            ),
            (TailPhase::FinalDraining, TailInput::Drained(evs)) => {
                let seen = self.saw_exit || any_exit(&evs);
                let next = if seen {
                    TailPhase::Done
                } else {
                    TailPhase::AwaitingMeta
                };
                Some((next, seen, evs))
            },
            (TailPhase::FinalDraining, TailInput::DrainFailed) => {
                let next = if self.saw_exit {
                    TailPhase::Done
                } else {
                    TailPhase::AwaitingMeta
                };
                Some((next, self.saw_exit, Vec::new()))
            },
            (TailPhase::AwaitingMeta, TailInput::MetaRead { meta, alive }) => {
                let e = exit_for(self.run_id.clone(), meta.as_ref(), alive);
                let mut out: Vec<RunEvent> = Vec::new();
                out.push(e);
                Some((TailPhase::Done, true, out))
            },
            _ => None,
        }
    }

    /// Take in what the pending work reported; returns the events to emit,
    /// in order.
    pub fn step(&mut self, input: TailInput) -> (emit: Vec<RunEvent>)
        ensures
            (*final(self), emit@) == spec_tail_step(*old(self), input),
    {
        match self.advance(input) {
            None => Vec::new(),
            Some((phase, saw_exit, evs)) => {
                let mut out: Vec<RunEvent> = Vec::new();
                if !self.started {
                    out.push(RunEvent::TailStart { run_id: self.run_id.clone(), tail_gen: self.gen });
                }
                stamp_onto(&mut out, evs, self.gen);
                self.phase = phase;
                self.saw_exit = saw_exit;
                self.started = true;
                out
            },
        }
    }
}

/// Append `evs` to `out`, each fenced with generation `gen`.
fn stamp_onto(out: &mut Vec<RunEvent>, evs: Vec<RunEvent>, gen: u64)
    ensures
        final(out)@ == old(out)@ + stamp_all(evs@, gen),
{
    let ghost start = old(out)@;
    let ghost all = evs@;
    let mut rest = evs;
    let ghost mut taken: Seq<RunEvent> = Seq::empty();
    assert(taken + rest@ =~= all);
    assert(start + stamp_all(taken, gen) =~= start);
    while rest.len() > 0
        invariant
            taken + rest@ == all,
            out@ == start + stamp_all(taken, gen),
        decreases rest@.len(),
    {
        let ghost before = rest@;
        let e = rest.remove(0);
        proof {
            assert(taken.push(e) + rest@ =~= all) by {
                assert(before =~= seq![e] + rest@);
            }
            assert(stamp_all(taken.push(e), gen) =~= stamp_all(taken, gen).push(e.stamped(gen)));
        }
        out.push(e.stamp_tail_gen(gen));
        proof {
            taken = taken.push(e);
        }
    }
    assert(taken =~= all);
}

/// The state and emissions of a tail started in `t` after the reports
/// `inputs`, in order.
pub open spec fn run_tail(t: Tail, inputs: Seq<TailInput>) -> (Tail, Seq<RunEvent>)
    decreases inputs.len(),
{
    if inputs.len() == 0 {
        (t, Seq::empty())
    } else {
        let (tp, ep) = run_tail(t, inputs.drop_last());
        let (tn, en) = spec_tail_step(tp, inputs.last());
        (tn, ep + en)
    }
}

/// The number of `Exit` events in `evs`.
pub open spec fn count_exits(evs: Seq<RunEvent>) -> nat
    decreases evs.len(),
{
    if evs.len() == 0 {
        0
    } else {
        count_exits(evs.drop_last()) + if evs.last() is Exit {
            1nat
        } else {
            0nat
        }
    }
}

/// Whether a report answers a drain.
pub open spec fn is_drain_phase(p: TailPhase) -> bool {
    p == TailPhase::Draining || p == TailPhase::FinalDraining
}

/// How many `Exit` events the journal itself supplied: those in the drain
/// passes the tail took in.
pub open spec fn journaled_exits(t: Tail, inputs: Seq<TailInput>) -> nat
    decreases inputs.len(),
{
    if inputs.len() == 0 {
        0
    } else {
        let tp = run_tail(t, inputs.drop_last()).0;
        journaled_exits(t, inputs.drop_last()) + match inputs.last() {
            TailInput::Drained(evs) => if is_drain_phase(tp.phase) {
                count_exits(evs@)
            } else {
                0nat
            },
            _ => 0nat,
        }
    }
}

proof fn lemma_count_exits_concat(a: Seq<RunEvent>, b: Seq<RunEvent>)
    ensures
        count_exits(a + b) == count_exits(a) + count_exits(b),
    decreases b.len(),
{
    if b.len() == 0 {
        assert(a + b =~= a);
    } else {
        assert((a + b).drop_last() =~= a + b.drop_last());
        lemma_count_exits_concat(a, b.drop_last());
    }
}

proof fn lemma_has_exit_count(s: Seq<RunEvent>)
    ensures
        has_exit(s) <==> count_exits(s) > 0,
    decreases s.len(),
{
    if s.len() > 0 {
        lemma_has_exit_count(s.drop_last());
        if has_exit(s) && !(s.last() is Exit) {
            let i = choose|i: int| 0 <= i < s.len() && (#[trigger] s[i]) is Exit;
            assert(s.drop_last()[i] == s[i]);
        }
        if has_exit(s.drop_last()) {
            let i = choose|i: int| 0 <= i < s.drop_last().len() && (#[trigger] s.drop_last()[i]) is Exit;
            assert(s[i] == s.drop_last()[i]);
        }
        if s.last() is Exit {
            assert(s[s.len() - 1] is Exit);
        }
    }
}

proof fn lemma_count_single(e: RunEvent)
    ensures
        count_exits(seq![e]) == if e is Exit {
            1nat
        } else {
            0nat
        },
{
    assert(seq![e].drop_last() =~= Seq::<RunEvent>::empty());
    assert(count_exits(Seq::<RunEvent>::empty()) == 0);
    assert(seq![e].last() == e);
}

proof fn lemma_count_stamped(evs: Seq<RunEvent>, gen: u64)
    ensures
        count_exits(stamp_all(evs, gen)) == count_exits(evs),
    decreases evs.len(),
{
    if evs.len() > 0 {
        lemma_count_stamped(evs.drop_last(), gen);
        assert(stamp_all(evs, gen).drop_last() =~= stamp_all(evs.drop_last(), gen));
        assert(stamp_all(evs, gen).last() == evs.last().stamped(gen));
    }
}

/// What a tail keeps true from its start through any reports.
proof fn lemma_tail_invariant(t0: Tail, inputs: Seq<TailInput>)
    requires
        t0.phase == TailPhase::Opening,
        !t0.started,
        !t0.saw_exit,
    ensures
        ({
            let (t, em) = run_tail(t0, inputs);
            let j = journaled_exits(t0, inputs);
            &&& t.run_id == t0.run_id
            &&& t.gen == t0.gen
            &&& t.started <==> em.len() > 0
            &&& em.len() > 0 ==> em[0] == tail_start(t0)
            &&& forall|i: int| 0 <= i < em.len() ==> (#[trigger] em[i]).generation() == Some(t0.gen)
            &&& t.phase == TailPhase::Opening ==> j == 0 && !t.saw_exit && !t.started
            &&& t.phase == TailPhase::AwaitingMeta ==> !t.saw_exit
            &&& t.phase != TailPhase::Done ==> t.saw_exit == (j > 0) && count_exits(em) == j
            &&& t.phase == TailPhase::Done ==> count_exits(em) == (if j == 0 {
                1
            } else {
                j
            })
        }),
    decreases inputs.len(),
{
    if inputs.len() == 0 {
        assert(count_exits(Seq::<RunEvent>::empty()) == 0);
    } else {
        let prev = inputs.drop_last();
        lemma_tail_invariant(t0, prev);
        let (tp, ep) = run_tail(t0, prev);
        let input = inputs.last();
        let (tn, en) = spec_tail_step(tp, input);
        assert(run_tail(t0, inputs) == (tn, ep + en));
        let jp = journaled_exits(t0, prev);
        let j = journaled_exits(t0, inputs);
        assert(count_exits(Seq::<RunEvent>::empty()) == 0);
        match tail_core(tp, input) {
            None => {
                assert(en =~= Seq::<RunEvent>::empty());
                assert(ep + en =~= ep);
                match input {
                    TailInput::Drained(evs) => {
                        assert(!is_drain_phase(tp.phase));
                    },
                    _ => {},
                }
                assert(j == jp);
            },
            Some((phase, saw, evs)) => {
                let head: Seq<RunEvent> = if tp.started {
                    Seq::empty()
                } else {
                    seq![tail_start(tp)]
                };
                let st = stamp_all(evs, tp.gen);
                assert(en == head + st);
                lemma_count_stamped(evs, tp.gen);
                lemma_count_exits_concat(head, st);
                lemma_count_exits_concat(ep, en);
                lemma_count_single(tail_start(tp));
                assert(count_exits(head) == 0);
                assert forall|i: int| 0 <= i < (ep + en).len() implies (#[trigger] (ep + en)[i]).generation()
                    == Some(t0.gen) by {
                    if i < ep.len() {
                        assert((ep + en)[i] == ep[i]);
                    } else if i < ep.len() + head.len() {
                        assert((ep + en)[i] == tail_start(tp));
                    } else {
                        let k = i - ep.len() - head.len();
                        assert((ep + en)[i] == st[k]);
                        assert(st[k] == evs[k].stamped(tp.gen));
                    }
                }
                if ep.len() == 0 {
                    assert(!tp.started);
                    assert((ep + en)[0] == tail_start(tp));
                } else {
                    assert((ep + en)[0] == ep[0]);
                }
                match input {
                    TailInput::Drained(ds) => {
                        lemma_has_exit_count(ds@);
                        assert(is_drain_phase(tp.phase));
                        assert(j == jp + count_exits(ds@));
                        assert(evs == ds@);
                    },
                    TailInput::MetaRead { meta, alive } => {
                        lemma_count_single(spec_exit_for(tp.run_id, meta, alive));
                        assert(j == jp);
                    },
                    _ => {
                        assert(j == jp);
                        assert(evs =~= Seq::<RunEvent>::empty());
                    },
                }
            },
        }
    }
}

/// A tail fences its emissions and ends in one `Exit`. Its first emission is
/// the `TailStart` of its run and generation, and every emission carries
/// that generation. A finished tail passed on every `Exit` the journal
/// supplied and added one exactly when the journal supplied none, whatever
/// the reads reported (a failed read after a journaled `Exit` adds none):
/// a run whose journal holds at most one `exit` record ends, for the
/// frontend, in exactly one `Exit`.
pub proof fn finished_tail_ends_in_exactly_one_exit(
    run_id: String,
    gen: u64,
    inputs: Seq<TailInput>,
)
    ensures
        ({
            let t0 = Tail { run_id, gen, phase: TailPhase::Opening, started: false, saw_exit: false };
            let (t, em) = run_tail(t0, inputs);
            let j = journaled_exits(t0, inputs);
            &&& em.len() > 0 ==> em[0] == RunEvent::TailStart { run_id, tail_gen: gen }
            &&& forall|i: int| 0 <= i < em.len() ==> (#[trigger] em[i]).generation() == Some(gen)
            &&& t.phase == TailPhase::Done ==> count_exits(em) == (if j == 0 {
                1
            } else {
                j
            })
            &&& t.phase == TailPhase::Done && j <= 1 ==> count_exits(em) == 1
        }),
{
    let t0 = Tail { run_id, gen, phase: TailPhase::Opening, started: false, saw_exit: false };
    lemma_tail_invariant(t0, inputs);
}

/// How many reports the tail took in that found the run still running.
pub open spec fn running_observations(t: Tail, inputs: Seq<TailInput>) -> nat
    decreases inputs.len(),
{
    if inputs.len() == 0 {
        0
    } else {
        let tp = run_tail(t, inputs.drop_last()).0;
        running_observations(t, inputs.drop_last()) + match inputs.last() {
            TailInput::Observed { meta, alive } => if tp.phase == TailPhase::Observing
                && keeps_running(meta, alive) {
                1nat
            } else {
                0nat
            },
            _ => 0nat,
        }
    }
}

/// How many sleeps the tail took in.
pub open spec fn sleeps_taken(t: Tail, inputs: Seq<TailInput>) -> nat
    decreases inputs.len(),
{
    if inputs.len() == 0 {
        0
    } else {
        let tp = run_tail(t, inputs.drop_last()).0;
        sleeps_taken(t, inputs.drop_last()) + if inputs.last() is Slept && tp.phase
            == TailPhase::Sleeping {
            1nat
        } else {
            0nat
        }
    }
}

/// A tail polls by sleeping exactly once after each observation that finds
/// the run still running (its meta says running and its writer is alive),
/// and at no other time: it has taken in as many sleeps as such
/// observations, but for the one sleep it may be waiting for.
pub proof fn a_tail_sleeps_once_per_running_observation(t0: Tail, inputs: Seq<TailInput>)
    requires
        t0.phase == TailPhase::Opening,
    ensures
        running_observations(t0, inputs) == sleeps_taken(t0, inputs) + if run_tail(
            t0,
            inputs,
        ).0.phase == TailPhase::Sleeping {
            1nat
        } else {
            0nat
        },
    decreases inputs.len(),
{
    if inputs.len() > 0 {
        let prev = inputs.drop_last();
        a_tail_sleeps_once_per_running_observation(t0, prev);
        let (tp, ep) = run_tail(t0, prev);
        let (tn, en) = spec_tail_step(tp, inputs.last());
        assert(run_tail(t0, inputs) == (tn, ep + en));
    }
}

/// The "never journaled" fallback as a tail of generation `gen` emits it:
/// its `TailStart`, then the explanatory line and the failed `Exit` of
/// [`emit_never_journaled`], both fenced with `gen`.
pub fn never_journaled_tail(run_id: &str, gen: u64) -> (r: Vec<RunEvent>)
    ensures
        r@.len() == 3,
        r@[0] matches RunEvent::TailStart { run_id: id, tail_gen } && id@ == run_id@ && tail_gen
            == gen,
        exists|evs: Seq<RunEvent>|
            is_never_journaled(evs, run_id@) && r@.subrange(1, 3) == #[trigger] stamp_all(evs, gen),
{
    let mut out: Vec<RunEvent> = Vec::new();
    out.push(RunEvent::TailStart { run_id: String::from_str(run_id), tail_gen: gen });
    let evs = emit_never_journaled(run_id);
    let ghost eg = evs@;
    stamp_onto(&mut out, evs, gen);
    assert(out@.subrange(1, 3) =~= stamp_all(eg, gen));
    out
}

// --- Listing runs newest first ----------------------------------------------

/// The order `str` compares by, from position `i` on: lexicographic by
/// character (UTF-8 byte order is code-point order).
pub open spec fn lt_from(a: Seq<char>, b: Seq<char>, i: int) -> bool
    decreases a.len() - i,
{
    if i < 0 || i >= a.len() {
        0 <= i < b.len()
    } else if i >= b.len() {
        false
    } else if a[i] != b[i] {
        a[i] < b[i]
    } else {
        lt_from(a, b, i + 1)
    }
}

/// `a < b` as strings.
pub open spec fn str_lt(a: Seq<char>, b: Seq<char>) -> bool {
    lt_from(a, b, 0)
}

proof fn lemma_lt_from_transitive(a: Seq<char>, b: Seq<char>, c: Seq<char>, i: int)
    requires
        0 <= i,
        lt_from(a, b, i),
        lt_from(b, c, i),
    ensures
        lt_from(a, c, i),
    decreases a.len() - i,
{
    if i < a.len() && i < b.len() && i < c.len() && a[i] == b[i] && b[i] == c[i] {
        lemma_lt_from_transitive(a, b, c, i + 1);
    }
}

proof fn lemma_lt_from_irreflexive(a: Seq<char>, i: int)
    requires
        0 <= i,
    ensures
        !lt_from(a, a, i),
    decreases a.len() - i,
{
    if i < a.len() {
        lemma_lt_from_irreflexive(a, i + 1);
    }
}

/// `a < b` as strings.
pub fn str_less(a: &[char], b: &[char]) -> (r: bool)
    ensures
        r == str_lt(a@, b@),
{
    let mut i: usize = 0;
    while i < a.len() && i < b.len() && a[i] == b[i]
        invariant
            i <= a@.len(),
            i <= b@.len(),
            str_lt(a@, b@) == lt_from(a@, b@, i as int),
        decreases a@.len() - i,
    {
        i += 1;
    }
    if i >= a.len() {
        i < b.len()
    } else if i >= b.len() {
        false
    } else {
        a[i] < b[i]
    }
}

/// Whether `runs` is ordered newest first by `started_at` (the writer's
/// RFC 3339 UTC timestamps, which sort as text).
pub open spec fn newest_first(runs: Seq<RunSummary>) -> bool {
    forall|i: int, j: int|
        0 <= i < j < runs.len() ==> !str_lt(
            (#[trigger] runs[i]).started_at@,
            (#[trigger] runs[j]).started_at@,
        )
}

/// The runs of `runs` that started at `k`, in order.
pub open spec fn started_at_key(runs: Seq<RunSummary>, k: Seq<char>) -> Seq<RunSummary>
    decreases runs.len(),
{
    if runs.len() == 0 {
        Seq::empty()
    } else if runs.last().started_at@ == k {
        started_at_key(runs.drop_last(), k).push(runs.last())
    } else {
        started_at_key(runs.drop_last(), k)
    }
}

proof fn lemma_started_at_key_concat(a: Seq<RunSummary>, b: Seq<RunSummary>, k: Seq<char>)
    ensures
        started_at_key(a + b, k) == started_at_key(a, k) + started_at_key(b, k),
    decreases b.len(),
{
    if b.len() == 0 {
        assert(a + b =~= a);
        assert(started_at_key(a, k) + Seq::<RunSummary>::empty() =~= started_at_key(a, k));
    } else {
        assert((a + b).drop_last() =~= a + b.drop_last());
        lemma_started_at_key_concat(a, b.drop_last(), k);
        if b.last().started_at@ == k {
            assert(started_at_key(a, k) + started_at_key(b.drop_last(), k).push(b.last())
                =~= (started_at_key(a, k) + started_at_key(b.drop_last(), k)).push(b.last()));
        }
    }
}

proof fn lemma_started_at_key_none(s: Seq<RunSummary>, k: Seq<char>)
    requires
        forall|i: int| 0 <= i < s.len() ==> (#[trigger] s[i]).started_at@ != k,
    ensures
        started_at_key(s, k) == Seq::<RunSummary>::empty(),
    decreases s.len(),
{
    if s.len() > 0 {
        assert(s.last() == s[s.len() - 1]);
        lemma_started_at_key_none(s.drop_last(), k);
    }
}

proof fn lemma_started_at_key_single(x: RunSummary, k: Seq<char>)
    ensures
        started_at_key(seq![x], k) == if x.started_at@ == k {
            seq![x]
        } else {
            Seq::<RunSummary>::empty()
        },
{
    assert(seq![x].drop_last() =~= Seq::<RunSummary>::empty());
    assert(started_at_key(Seq::<RunSummary>::empty(), k) == Seq::<RunSummary>::empty());
    assert(seq![x].last() == x);
    assert(Seq::<RunSummary>::empty().push(x) =~= seq![x]);
}

/// `runs` ordered newest first by a stable sort: the same runs, with
/// `started_at` never increasing along the list, and runs that started at
/// the same time kept in the order they came in.
pub fn sort_newest_first(runs: Vec<RunSummary>) -> (r: Vec<RunSummary>)
    ensures
        r@.to_multiset() == runs@.to_multiset(),
        newest_first(r@),
        forall|k: Seq<char>| #[trigger] started_at_key(r@, k) == started_at_key(runs@, k),
{
    let ghost input = runs@;
    let mut out: Vec<RunSummary> = Vec::new();
    let mut rest = runs;
    let ghost mut taken: Seq<RunSummary> = Seq::empty();
    assert(taken + rest@ =~= input);
    while rest.len() > 0
        invariant
            taken + rest@ == input,
            out@.to_multiset() == taken.to_multiset(),
            newest_first(out@),
            forall|k: Seq<char>| #[trigger] started_at_key(out@, k) == started_at_key(taken, k),
        decreases rest@.len(),
    {
        let ghost rest_before = rest@;
        let x = rest.remove(0);
        let xs = chars_of(x.started_at.as_str());
        let mut p: usize = 0;
        let mut found = false;
        while p < out.len() && !found
            invariant
                p <= out@.len(),
                xs@ == x.started_at@,
                found ==> p < out@.len() && str_lt(out@[p as int].started_at@, x.started_at@),
                forall|k: int| 0 <= k < p ==> !str_lt((#[trigger] out@[k]).started_at@, x.started_at@),
            decreases out@.len() - p + (if found {
                0int
            } else {
                1int
            }),
        {
            let ks = chars_of(out[p].started_at.as_str());
            if str_less(ks.as_slice(), xs.as_slice()) {
                found = true;
            } else {
                p += 1;
            }
        }
        let ghost before = out@;
        out.insert(p, x);
        proof {
            assert forall|i: int, j: int| 0 <= i < j < out@.len() implies !str_lt(
                (#[trigger] out@[i]).started_at@,
                (#[trigger] out@[j]).started_at@,
            ) by {
                if i < p && j < p {
                    assert(out@[i] == before[i] && out@[j] == before[j]);
                } else if i < p && j == p {
                    assert(out@[i] == before[i] && out@[j] == x);
                } else if i < p {
                    assert(out@[i] == before[i] && out@[j] == before[j - 1]);
                } else if i == p {
                    assert(out@[i] == x && out@[j] == before[j - 1]);
                    let q = before[p as int].started_at@;
                    let y = before[j - 1].started_at@;
                    assert(str_lt(q, x.started_at@));
                    if str_lt(x.started_at@, y) {
                        lemma_lt_from_transitive(q, x.started_at@, y, 0);
                        if p == j - 1 {
                            lemma_lt_from_irreflexive(q, 0);
                        } else {
                            assert(!str_lt(before[p as int].started_at@, before[j - 1].started_at@));
                        }
                    }
                } else {
                    assert(out@[i] == before[i - 1] && out@[j] == before[j - 1]);
                }
            }
            assert(rest_before =~= seq![x] + rest@);
            assert(taken.push(x) + rest@ =~= taken + rest_before);
            vstd::seq_lib::to_multiset_build(taken, x);
            vstd::seq_lib::to_multiset_insert(before, p as int, x);
            assert(out@ == before.insert(p as int, x));
            assert forall|k: Seq<char>| #[trigger] started_at_key(out@, k) == started_at_key(
                taken.push(x),
                k,
            ) by {
                let pre = before.take(p as int);
                let post = before.skip(p as int);
                assert(out@ =~= pre + seq![x] + post);
                assert(before =~= pre + post);
                assert(taken.push(x) =~= taken + seq![x]);
                lemma_started_at_key_concat(pre + seq![x], post, k);
                lemma_started_at_key_concat(pre, seq![x], k);
                lemma_started_at_key_concat(pre, post, k);
                lemma_started_at_key_concat(taken, seq![x], k);
                lemma_started_at_key_single(x, k);
                if x.started_at@ == k {
                    assert forall|i: int| 0 <= i < post.len() implies (#[trigger] post[i]).started_at@
                        != k by {
                        assert(post[i] == before[p + i]);
                        let q = before[p as int].started_at@;
                        assert(str_lt(q, x.started_at@));
                        if i > 0 {
                            assert(!str_lt(before[p as int].started_at@, before[p + i].started_at@));
                        }
                        if post[i].started_at@ == k {
                            if i > 0 {
                                assert(str_lt(before[p as int].started_at@, before[p + i].started_at@));
                            } else {
                                lemma_lt_from_irreflexive(q, 0);
                            }
                        }
                    }
                    lemma_started_at_key_none(post, k);
                    assert(started_at_key(pre, k) + seq![x] + Seq::<RunSummary>::empty() =~= started_at_key(pre, k) + seq![x]);
                } else {
                    assert(started_at_key(pre, k) + Seq::<RunSummary>::empty() =~= started_at_key(pre, k));
                    assert(started_at_key(taken, k) + Seq::<RunSummary>::empty() =~= started_at_key(taken, k));
                }
            }
        }
        proof {
            taken = taken.push(x);
        }
    }
    assert(taken + rest@ =~= taken);
    assert(taken =~= input);
    out
}

// --- Which runs are being tailed -------------------------------------------

/// The run ids currently being tailed, so that no run is tailed twice at
/// once. Shared between tails, it is kept behind a lock by its owner.
#[derive(Debug, Clone)]
pub struct TailRegistry {
    claimed: Vec<String>,
}

impl View for TailRegistry {
    type V = Set<Seq<char>>;

    closed spec fn view(&self) -> Set<Seq<char>> {
        Set::new(
            |s: Seq<char>| exists|i: int| 0 <= i < self.claimed@.len() && (#[trigger] self.claimed@[i])@ == s,
        )
    }
}

impl TailRegistry {
    /// An empty registry.
    pub fn new() -> (r: Self)
        ensures
            r@ == Set::<Seq<char>>::empty(),
    {
        let r = TailRegistry { claimed: Vec::new() };
        assert(r@ =~= Set::<Seq<char>>::empty());
        r
    }

    /// Whether `run_id` is being tailed.
    pub fn is_claimed(&self, run_id: &str) -> (r: bool)
        ensures
            r == self@.contains(run_id@),
    {
        let id = chars_of(run_id);
        let mut i: usize = 0;
        while i < self.claimed.len()
            invariant
                i <= self.claimed@.len(),
                id@ == run_id@,
                forall|j: int| 0 <= j < i ==> (#[trigger] self.claimed@[j])@ != run_id@,
            decreases self.claimed@.len() - i,
        {
            let c = chars_of(self.claimed[i].as_str());
            if chars_eq(c.as_slice(), id.as_slice()) {
                assert(self@.contains(run_id@));
                return true;
            }
            i += 1;
        }
        false
    }

    /// Claim `run_id` for tailing: `true` if this call claimed it, `false`
    /// if it was already being tailed. Either way it is claimed afterwards.
    pub fn claim(&mut self, run_id: &str) -> (r: bool)
        ensures
            r == !old(self)@.contains(run_id@),
            final(self)@ == old(self)@.insert(run_id@),
    {
        if self.is_claimed(run_id) {
            assert(self@.insert(run_id@) =~= self@);
            return false;
        }
        let ghost before = self@;
        let ghost old_claimed = self.claimed@;
        self.claimed.push(String::from_str(run_id));
        assert forall|s: Seq<char>| #[trigger] self@.contains(s) == before.insert(run_id@).contains(s) by {
            if before.contains(s) {
                let i = choose|i: int| 0 <= i < old_claimed.len() && (#[trigger] old_claimed[i])@ == s;
                assert(self.claimed@[i] == old_claimed[i]);
            }
            if self@.contains(s) && s != run_id@ {
                let i = choose|i: int| 0 <= i < self.claimed@.len() && (#[trigger] self.claimed@[i])@ == s;
                assert(i < old_claimed.len());
                assert(self.claimed@[i] == old_claimed[i]);
            }
            if s == run_id@ {
                assert(self.claimed@[old_claimed.len() as int]@ == s);
            }
        }
        assert(self@ =~= before.insert(run_id@));
        true
    }

    /// Release `run_id`: it is no longer being tailed.
    pub fn release(&mut self, run_id: &str)
        ensures
            final(self)@ == old(self)@.remove(run_id@),
    {
        let id = chars_of(run_id);
        let ghost before = self@;
        let ghost old_claimed = self.claimed@;
        let mut kept: Vec<String> = Vec::new();
        let mut i: usize = 0;
        while i < self.claimed.len()
            invariant
                i <= self.claimed@.len(),
                self.claimed@ == old_claimed,
                id@ == run_id@,
                forall|s: Seq<char>|
                    #[trigger] names_within(kept@, s, kept@.len() as int) <==> (s != run_id@
                        && names_within(old_claimed, s, i as int)),
            decreases self.claimed@.len() - i,
        {
            let c = chars_of(self.claimed[i].as_str());
            let ghost kb = kept@;
            if !chars_eq(c.as_slice(), id.as_slice()) {
                kept.push(self.claimed[i].clone());
                assert forall|s: Seq<char>|
                    #[trigger] names_within(kept@, s, kept@.len() as int) <==> (s != run_id@
                        && names_within(old_claimed, s, i + 1)) by {
                    if names_within(kept@, s, kept@.len() as int) {
                        let j = choose|j: int| 0 <= j < kept@.len() && (#[trigger] kept@[j])@ == s;
                        if j < kb.len() {
                            assert(kept@[j] == kb[j]);
                            assert(names_within(kb, s, kb.len() as int));
                            let m = choose|m: int| 0 <= m < i && (#[trigger] old_claimed[m])@ == s;
                            assert(m < i + 1);
                        } else {
                            assert(old_claimed[i as int]@ == s);
                        }
                    }
                    if s != run_id@ && names_within(old_claimed, s, i + 1) {
                        let j = choose|j: int| 0 <= j < i + 1 && (#[trigger] old_claimed[j])@ == s;
                        if j < i {
                            assert(names_within(old_claimed, s, i as int));
                            assert(names_within(kb, s, kb.len() as int));
                            let m = choose|m: int| 0 <= m < kb.len() && (#[trigger] kb[m])@ == s;
                            assert(kept@[m] == kb[m]);
                        } else {
                            assert(kept@[kb.len() as int]@ == s);
                        }
                    }
                }
            } else {
                assert forall|s: Seq<char>|
                    #[trigger] names_within(kept@, s, kept@.len() as int) <==> (s != run_id@
                        && names_within(old_claimed, s, i + 1)) by {
                    if s != run_id@ && names_within(old_claimed, s, i + 1) {
                        let j = choose|j: int| 0 <= j < i + 1 && (#[trigger] old_claimed[j])@ == s;
                        assert(j < i);
                        assert(names_within(old_claimed, s, i as int));
                    }
                    if names_within(kept@, s, kept@.len() as int) {
                        let m = choose|m: int| 0 <= m < i && (#[trigger] old_claimed[m])@ == s;
                        assert(names_within(old_claimed, s, i + 1));
                    }
                }
            }
            i += 1;
        }
        self.claimed = kept;
        assert forall|s: Seq<char>| #[trigger] self@.contains(s) == before.remove(run_id@).contains(s) by {
            assert(self@.contains(s) == names_within(self.claimed@, s, self.claimed@.len() as int));
            assert(before.contains(s) == names_within(old_claimed, s, old_claimed.len() as int));
        }
        assert(self@ =~= before.remove(run_id@));
    }
}

/// Whether one of the first `n` of `v` is `s`.
pub open spec fn names_within(v: Seq<String>, s: Seq<char>, n: int) -> bool {
    exists|j: int| 0 <= j < n && (#[trigger] v[j])@ == s
}

/// A claimed run id cannot be claimed again until it is released, and once
/// released it can be claimed again. Claiming an id already being tailed
/// changes nothing (so a second request to tail a run in progress is a
/// no-op), and releasing an id leaves every other claim in place.
pub proof fn claims_are_exclusive_until_released(
    tailing: Set<Seq<char>>,
    run_id: Seq<char>,
    other: Seq<char>,
)
    ensures
        tailing.insert(run_id).contains(run_id),
        !tailing.insert(run_id).remove(run_id).contains(run_id),
        tailing.contains(run_id) ==> tailing.insert(run_id) == tailing,
        other != run_id ==> (tailing.remove(run_id).contains(other) <==> tailing.contains(other)),
{
    if tailing.contains(run_id) {
        assert(tailing.insert(run_id) =~= tailing);
    }
}

// --- Stopping a run -----------------------------------------------------------

/// The message when a run's meta cannot be read.
pub open spec fn not_journaled_message() -> Seq<char> {
    "That run has already finished or was never journaled."@
}

/// The message when a run's meta records no process group.
pub open spec fn no_group_message() -> Seq<char> {
    "This run has no recorded process group to stop (older pult binary?)."@
}

/// What to stop: the journaled writer's pid and its process group.
pub struct StopTarget {
    pub pid: u32,
    pub pgid: i32,
}

/// Who to signal for a stop, from the run's meta: refused when the meta is
/// unreadable or records no process group (an older pult).
pub fn stop_target(meta: Option<&RunMeta>) -> (r: Result<StopTarget, String>)
    ensures
        match opt_meta(meta) {
            None => r matches Err(e) && e@ == not_journaled_message(),
            Some(m) => match m.pgid {
                None => r matches Err(e) && e@ == no_group_message(),
                Some(g) => r matches Ok(t) && t.pid == m.pid && t.pgid == g,
            },
        },
{
    match meta {
        None => Err(String::from_str("That run has already finished or was never journaled.")),
        Some(m) => match m.pgid {
            None => Err(
                String::from_str(
                    "This run has no recorded process group to stop (older pult binary?).",
                ),
            ),
            Some(g) => Ok(StopTarget { pid: m.pid, pgid: g }),
        },
    }
}

/// Where a stop is: sending `SIGTERM` to the group, polling the writer
/// during the grace period (sleeping between polls), checking it once more
/// after the grace period, sending `SIGKILL`, or finished.
#[derive(Debug, Clone, Copy, PartialEq, Eq, Structural)]
pub enum StopPhase {
    Terminating,
    Waiting,
    Sleeping,
    FinalCheck,
    Killing,
    Done,
}

/// The outside work a stop asks for next.
#[derive(Debug, Clone, Copy, PartialEq, Eq, Structural)]
pub enum StopAction {
    /// Send `SIGTERM` to process group `pgid`.
    SignalTerm(i32),
    /// Probe whether the writer is alive, and whether the grace period is over.
    ProbeWriter,
    /// Sleep one poll interval.
    Sleep,
    /// Send `SIGKILL` to process group `pgid`.
    SignalKill(i32),
    Finished,
}

/// What the outside work reported.
pub enum StopInput {
    Signalled,
    Probed { alive: bool, past_deadline: bool },
    Slept,
}

/// One stop of one journaled run: `SIGTERM` to its process group, a grace
/// period polling the writer, then `SIGKILL` only if the writer is still
/// alive after it.
pub struct Stop {
    pub target: StopTarget,
    pub phase: StopPhase,
}

pub open spec fn stop_pending(s: Stop) -> StopAction {
    match s.phase {
        StopPhase::Terminating => StopAction::SignalTerm(s.target.pgid),
        StopPhase::Waiting => StopAction::ProbeWriter,
        StopPhase::Sleeping => StopAction::Sleep,
        StopPhase::FinalCheck => StopAction::ProbeWriter,
        StopPhase::Killing => StopAction::SignalKill(s.target.pgid),
        StopPhase::Done => StopAction::Finished,
    }
}

/// The next phase of a stop after a report; a report that does not answer
/// the pending work changes nothing.
pub open spec fn spec_stop_next(phase: StopPhase, input: StopInput) -> StopPhase {
    match (phase, input) {
        (StopPhase::Terminating, StopInput::Signalled) => StopPhase::Waiting,
        (StopPhase::Waiting, StopInput::Probed { alive, past_deadline }) => if !alive {
            StopPhase::Done
        } else if past_deadline {
            StopPhase::FinalCheck
        } else {
            StopPhase::Sleeping
        },
        (StopPhase::Sleeping, StopInput::Slept) => StopPhase::Waiting,
        (StopPhase::FinalCheck, StopInput::Probed { alive, .. }) => if alive {
            StopPhase::Killing
        } else {
            StopPhase::Done
        },
        (StopPhase::Killing, StopInput::Signalled) => StopPhase::Done,
        _ => phase,
    }
}

impl Stop {
    /// A stop of `target`; its first work is `SIGTERM` to the group.
    pub fn new(target: StopTarget) -> (s: Stop)
        ensures
            s.target == target,
            s.phase == StopPhase::Terminating,
    {
        Stop { target, phase: StopPhase::Terminating }
    }

    /// The outside work this stop waits for.
    pub fn next_action(&self) -> (a: StopAction)
        ensures
            a == stop_pending(*self),
    {
        match self.phase {
            StopPhase::Terminating => StopAction::SignalTerm(self.target.pgid),
            StopPhase::Waiting => StopAction::ProbeWriter,
            StopPhase::Sleeping => StopAction::Sleep,
            StopPhase::FinalCheck => StopAction::ProbeWriter,
            StopPhase::Killing => StopAction::SignalKill(self.target.pgid),
            StopPhase::Done => StopAction::Finished,
        }
    }

    /// Take in what the pending work reported.
    pub fn step(&mut self, input: StopInput)
        ensures
            final(self).target == old(self).target,
            final(self).phase == spec_stop_next(old(self).phase, input),
    {
        self.phase = match (self.phase, input) {
            (StopPhase::Terminating, StopInput::Signalled) => StopPhase::Waiting,
            (StopPhase::Waiting, StopInput::Probed { alive, past_deadline }) => {
                if !alive {
                    StopPhase::Done
                } else if past_deadline {
                    StopPhase::FinalCheck
                } else {
                    StopPhase::Sleeping
                }
            },
            (StopPhase::Sleeping, StopInput::Slept) => StopPhase::Waiting,
            (StopPhase::FinalCheck, StopInput::Probed { alive, .. }) => {
                if alive {
                    StopPhase::Killing
                } else {
                    StopPhase::Done
                }
            },
            (StopPhase::Killing, StopInput::Signalled) => StopPhase::Done,
            (p, _) => p,
        };
    }
}

/// The phase a stop reaches from `phase` after the reports `inputs`.
pub open spec fn run_stop(phase: StopPhase, inputs: Seq<StopInput>) -> StopPhase
    decreases inputs.len(),
{
    if inputs.len() == 0 {
        phase
    } else {
        spec_stop_next(run_stop(phase, inputs.drop_last()), inputs.last())
    }
}

/// Whether, among `inputs`, a probe found the writer alive after the grace
/// period.
pub open spec fn alive_after_grace(inputs: Seq<StopInput>) -> bool {
    exists|i: int| 0 <= i < inputs.len() && found_alive_late(#[trigger] inputs[i])
}

/// Whether a report is a probe that found the writer alive after the grace
/// period.
pub open spec fn found_alive_late(input: StopInput) -> bool {
    input matches StopInput::Probed { alive, past_deadline } && alive && past_deadline
}

/// A stop sends `SIGTERM` before anything else, and only escalates to
/// `SIGKILL` once a probe has found the writer still alive after the grace
/// period (and a second probe has confirmed it).
pub proof fn stop_escalates_only_after_the_grace_period(inputs: Seq<StopInput>)
    ensures
        run_stop(StopPhase::Terminating, inputs) == StopPhase::Killing ==> alive_after_grace(
            inputs,
        ),
        run_stop(StopPhase::Terminating, inputs) == StopPhase::FinalCheck ==> alive_after_grace(
            inputs,
        ),
    decreases inputs.len(),
{
    if inputs.len() > 0 {
        let prev = inputs.drop_last();
        stop_escalates_only_after_the_grace_period(prev);
        let p = run_stop(StopPhase::Terminating, prev);
        if alive_after_grace(prev) {
            let i = choose|i: int| 0 <= i < prev.len() && found_alive_late(#[trigger] prev[i]);
            assert(inputs[i] == prev[i]);
        }
        if p == StopPhase::Waiting {
            assert(inputs[inputs.len() - 1] == inputs.last());
        }
    }
}

/// How many reports among `inputs` answered the given phase of a stop
/// started at `Terminating`, and were of the kind `is_kind` picks.
pub open spec fn answered_in(
    inputs: Seq<StopInput>,
    phase: StopPhase,
    is_kind: spec_fn(StopInput) -> bool,
) -> nat
    decreases inputs.len(),
{
    if inputs.len() == 0 {
        0
    } else {
        let p = run_stop(StopPhase::Terminating, inputs.drop_last());
        answered_in(inputs.drop_last(), phase, is_kind) + if p == phase && is_kind(inputs.last()) {
            1nat
        } else {
            0nat
        }
    }
}

/// The `SIGTERM`s a stop sent: signals reported while terminating.
pub open spec fn terms_sent(inputs: Seq<StopInput>) -> nat {
    answered_in(inputs, StopPhase::Terminating, |i: StopInput| i is Signalled)
}

/// The `SIGKILL`s a stop sent: signals reported while killing.
pub open spec fn kills_sent(inputs: Seq<StopInput>) -> nat {
    answered_in(inputs, StopPhase::Killing, |i: StopInput| i is Signalled)
}

/// The final checks, after the grace period, that found the writer alive.
pub open spec fn alive_at_final_check(inputs: Seq<StopInput>) -> nat {
    answered_in(
        inputs,
        StopPhase::FinalCheck,
        |i: StopInput| i matches StopInput::Probed { alive, .. } && alive,
    )
}

/// A finished stop sent exactly one `SIGTERM`, first, and exactly one
/// `SIGKILL` when the check after the grace period found the writer still
/// alive, none otherwise; at no point has it sent more than one of either.
pub proof fn a_stop_terminates_once_and_kills_only_a_survivor(inputs: Seq<StopInput>)
    ensures
        ({
            let p = run_stop(StopPhase::Terminating, inputs);
            &&& terms_sent(inputs) == if p == StopPhase::Terminating {
                0nat
            } else {
                1nat
            }
            &&& kills_sent(inputs) <= alive_at_final_check(inputs) <= 1
            &&& p == StopPhase::Done ==> kills_sent(inputs) == alive_at_final_check(inputs)
            &&& kills_sent(inputs) == 1 ==> alive_after_grace(inputs)
            &&& p != StopPhase::Killing && p != StopPhase::Done ==> alive_at_final_check(inputs)
                == 0
            &&& p == StopPhase::Killing ==> alive_at_final_check(inputs) == 1 && kills_sent(inputs)
                == 0
        }),
    decreases inputs.len(),
{
    stop_escalates_only_after_the_grace_period(inputs);
    if inputs.len() > 0 {
        let prev = inputs.drop_last();
        a_stop_terminates_once_and_kills_only_a_survivor(prev);
        stop_escalates_only_after_the_grace_period(prev);
        let p = run_stop(StopPhase::Terminating, prev);
        if alive_after_grace(prev) {
            let i = choose|i: int| 0 <= i < prev.len() && found_alive_late(#[trigger] prev[i]);
            assert(inputs[i] == prev[i]);
        }
    }
}

// --- Complete records of `events.jsonl` -------------------------------------

/// Splitting bytes at `\n`: the completed lines (without their `\n`) and the
/// bytes after the last `\n`.
pub open spec fn byte_lines_acc(s: Seq<u8>) -> (Seq<Seq<u8>>, Seq<u8>)
    decreases s.len(),
{
    if s.len() == 0 {
        (Seq::<Seq<u8>>::empty(), Seq::<u8>::empty())
    } else {
        let (done, cur) = byte_lines_acc(s.drop_last());
        if s.last() == 10u8 {
            (done.push(cur), Seq::<u8>::empty())
        } else {
            (done, cur.push(s.last()))
        }
    }
}

proof fn lemma_byte_lines_tail(s: Seq<u8>)
    ensures
        byte_lines_acc(s).1.len() <= s.len(),
        byte_lines_acc(s).1 == s.skip(s.len() - byte_lines_acc(s).1.len()),
        forall|i: int|
            s.len() - byte_lines_acc(s).1.len() <= i < s.len() ==> #[trigger] s[i] != 10u8,
        byte_lines_acc(s).1.len() < s.len() ==> s[s.len() - byte_lines_acc(s).1.len() - 1]
            == 10u8,
    decreases s.len(),
{
    if s.len() > 0 {
        let p = s.drop_last();
        lemma_byte_lines_tail(p);
        let cur = byte_lines_acc(p).1;
        if s.last() != 10u8 {
            assert(cur.push(s.last()) =~= s.skip(s.len() - cur.len() - 1));
            assert forall|i: int| s.len() - cur.len() - 1 <= i < s.len() implies #[trigger] s[i]
                != 10u8 by {
                if i < s.len() - 1 {
                    assert(s[i] == p[i]);
                }
            }
            if cur.len() + 1 < s.len() {
                assert(s[s.len() - cur.len() - 2] == p[p.len() - cur.len() - 1]);
            }
        } else {
            assert(s.skip(s.len() as int) =~= Seq::<u8>::empty());
        }
    } else {
        assert(s.skip(0) =~= s);
    }
}

/// The complete records at the start of `buf` (text appended to
/// `events.jsonl` since the last read), each without its `\n`, and how many
/// bytes they take. A final line with no `\n` yet is torn (still being
/// written): it is not consumed, so a later read picks it up whole.
pub fn complete_lines(buf: &[u8]) -> (r: (Vec<Vec<u8>>, usize))
    ensures
        r.0@.map_values(|l: Vec<u8>| l@) == byte_lines_acc(buf@).0,
        r.1 <= buf@.len(),
        r.1 == buf@.len() - byte_lines_acc(buf@).1.len(),
        forall|i: int| r.1 <= i < buf@.len() ==> #[trigger] buf@[i] != 10u8,
        r.1 > 0 ==> buf@[r.1 - 1] == 10u8,
{
    let mut done: Vec<Vec<u8>> = Vec::new();
    let mut cur: Vec<u8> = Vec::new();
    let mut consumed: usize = 0;
    let mut i: usize = 0;
    assert(buf@.take(0) =~= Seq::<u8>::empty());
    while i < buf.len()
        invariant
            i <= buf@.len(),
            (done@.map_values(|l: Vec<u8>| l@), cur@) == byte_lines_acc(buf@.take(i as int)),
            consumed == i - cur@.len(),
        decreases buf@.len() - i,
    {
        proof {
            assert(buf@.take(i + 1).drop_last() =~= buf@.take(i as int));
            lemma_byte_lines_tail(buf@.take(i as int));
        }
        let b = buf[i];
        if b == 10u8 {
            let line = cur;
            cur = Vec::new();
            let ghost before = done@;
            done.push(line);
            assert(done@.map_values(|l: Vec<u8>| l@) =~= before.map_values(|l: Vec<u8>| l@).push(
                line@,
            ));
            consumed = i + 1;
        } else {
            cur.push(b);
        }
        i += 1;
    }
    proof {
        assert(buf@.take(buf@.len() as int) =~= buf@);
        lemma_byte_lines_tail(buf@);
    }
    (done, consumed)
}


/// How many bytes of `buf` its complete records take: everything up to and
/// including the last `\n`.
pub open spec fn consumed(buf: Seq<u8>) -> int {
    buf.len() - byte_lines_acc(buf).1.len()
}

/// Reading one more byte: a `\n` completes the current line.
spec fn lines_step(st: (Seq<Seq<u8>>, Seq<u8>), b: u8) -> (Seq<Seq<u8>>, Seq<u8>) {
    if b == 10u8 {
        (st.0.push(st.1), Seq::<u8>::empty())
    } else {
        (st.0, st.1.push(b))
    }
}

/// Reading `bytes` on from the state `st`.
spec fn lines_from(st: (Seq<Seq<u8>>, Seq<u8>), bytes: Seq<u8>) -> (Seq<Seq<u8>>, Seq<u8>)
    decreases bytes.len(),
{
    if bytes.len() == 0 {
        st
    } else {
        lines_step(lines_from(st, bytes.drop_last()), bytes.last())
    }
}

proof fn lemma_lines_append(s: Seq<u8>, b: Seq<u8>)
    ensures
        byte_lines_acc(s + b) == lines_from(byte_lines_acc(s), b),
    decreases b.len(),
{
    if b.len() == 0 {
        assert(s + b =~= s);
    } else {
        lemma_lines_append(s, b.drop_last());
        assert((s + b).drop_last() =~= s + b.drop_last());
        assert((s + b).last() == b.last());
    }
}

proof fn lemma_lines_from_prefix(d: Seq<Seq<u8>>, c: Seq<u8>, b: Seq<u8>)
    ensures
        lines_from((d, c), b).0 == d + lines_from((Seq::<Seq<u8>>::empty(), c), b).0,
        lines_from((d, c), b).1 == lines_from((Seq::<Seq<u8>>::empty(), c), b).1,
    decreases b.len(),
{
    if b.len() == 0 {
        assert(d + Seq::<Seq<u8>>::empty() =~= d);
    } else {
        lemma_lines_from_prefix(d, c, b.drop_last());
        let x = lines_from((Seq::<Seq<u8>>::empty(), c), b.drop_last());
        assert((d + x.0).push(x.1) =~= d + x.0.push(x.1));
    }
}

proof fn lemma_no_newline_is_all_rest(c: Seq<u8>)
    requires
        forall|i: int| 0 <= i < c.len() ==> #[trigger] c[i] != 10u8,
    ensures
        byte_lines_acc(c) == (Seq::<Seq<u8>>::empty(), c),
    decreases c.len(),
{
    if c.len() == 0 {
        assert(c =~= Seq::<u8>::empty());
    } else {
        let p = c.drop_last();
        assert forall|i: int| 0 <= i < p.len() implies #[trigger] p[i] != 10u8 by {
            assert(p[i] == c[i]);
        }
        lemma_no_newline_is_all_rest(p);
        assert(c.last() == c[c.len() - 1]);
        assert(p.push(c.last()) =~= c);
    }
}

proof fn lemma_mapped_events_append(x: Seq<Seq<u8>>, y: Seq<Seq<u8>>, run_id: String)
    ensures
        mapped_events(x + y, run_id) == mapped_events(x, run_id) + mapped_events(y, run_id),
    decreases y.len(),
{
    if y.len() == 0 {
        assert(x + y =~= x);
        assert(mapped_events(x, run_id) + Seq::<RunEvent>::empty() =~= mapped_events(x, run_id));
    } else {
        lemma_mapped_events_append(x, y.drop_last(), run_id);
        assert((x + y).drop_last() =~= x + y.drop_last());
        assert((x + y).last() == y.last());
        let l = mapped_events(x, run_id);
        let r = mapped_events(y.drop_last(), run_id);
        match line_event(y.last(), run_id) {
            Some(e) => {
                assert((l + r).push(e) =~= l + r.push(e));
            },
            None => {},
        }
    }
}

/// Reading the journal in two passes, the second from the offset the first
/// returned, reads every record exactly once: with `a` the bytes there at
/// the first pass and `b` those appended after it, the records (and the
/// events they yield) of the two passes together are those of one pass
/// over `a + b`, in order, and both leave the same torn rest.
pub proof fn reading_on_from_the_offset_loses_and_repeats_nothing(
    a: Seq<u8>,
    b: Seq<u8>,
    run_id: String,
)
    ensures
        byte_lines_acc(a + b).0 == byte_lines_acc(a).0 + byte_lines_acc(
            a.skip(consumed(a)) + b,
        ).0,
        byte_lines_acc(a + b).1 == byte_lines_acc(a.skip(consumed(a)) + b).1,
        mapped_events(byte_lines_acc(a + b).0, run_id) == mapped_events(byte_lines_acc(a).0, run_id)
            + mapped_events(byte_lines_acc(a.skip(consumed(a)) + b).0, run_id),
{
    let rest = byte_lines_acc(a).1;
    lemma_byte_lines_tail(a);
    assert(a.skip(consumed(a)) == rest);
    assert forall|i: int| 0 <= i < rest.len() implies #[trigger] rest[i] != 10u8 by {
        assert(rest[i] == a[consumed(a) + i]);
    }
    lemma_no_newline_is_all_rest(rest);
    lemma_lines_append(a, b);
    lemma_lines_append(rest, b);
    lemma_lines_from_prefix(byte_lines_acc(a).0, rest, b);
    lemma_mapped_events_append(
        byte_lines_acc(a).0,
        byte_lines_acc(rest + b).0,
        run_id,
    );
}


// --- Listing runs ------------------------------------------------------------

/// The metas that were read, in order (`None` marks an entry whose
/// `meta.json` was missing or unreadable).
pub open spec fn present(metas: Seq<Option<RunMeta>>) -> Seq<RunMeta>
    decreases metas.len(),
{
    if metas.len() == 0 {
        Seq::empty()
    } else {
        let before = present(metas.drop_last());
        match metas.last() {
            Some(m) => before.push(m),
            None => before,
        }
    }
}

/// What [`to_summary`] promises of its result `s` for `meta`.
pub open spec fn summary_of(s: RunSummary, meta: RunMeta, unix: bool) -> bool {
    &&& exists|alive: bool| summarizes(s, meta, alive)
    &&& meta.status != Status::Running ==> summarizes(s, meta, true)
    &&& !unix ==> summarizes(s, meta, true)
    &&& unix && (meta.pid as i32) <= 0 ==> summarizes(s, meta, false)
}

/// Whether `r` lists the runs whose metas are `metas`: one summary per
/// readable meta, sorted newest first, stably.
pub open spec fn lists_runs(r: Seq<RunSummary>, metas: Seq<Option<RunMeta>>, unix: bool) -> bool {
    exists|s: Seq<RunSummary>|
        #![trigger s.to_multiset()]
        {
            &&& s.len() == present(metas).len()
            &&& forall|i: int|
                0 <= i < s.len() ==> summary_of(#[trigger] s[i], present(metas)[i], unix)
            &&& r.to_multiset() == s.to_multiset()
            &&& newest_first(r)
            &&& forall|k: Seq<char>| #[trigger] started_at_key(r, k) == started_at_key(s, k)
        }
}

/// Every journaled run of a repo, newest first, from the metas read from
/// its run directories in whatever order the directory listing gave them:
/// unreadable entries are skipped (a garbage directory never breaks the
/// listing), every other one summarized, and the summaries sorted newest
/// first, stably.
pub fn list_runs_in(metas: Vec<Option<RunMeta>>, unix: bool) -> (r: Vec<RunSummary>)
    ensures
        lists_runs(r@, metas@, unix),
{
    let ghost input = metas@;
    let mut rest = metas;
    let mut sums: Vec<RunSummary> = Vec::new();
    let ghost mut taken: Seq<Option<RunMeta>> = Seq::empty();
    assert(taken + rest@ =~= input);
    while rest.len() > 0
        invariant
            taken + rest@ == input,
            sums@.len() == present(taken).len(),
            forall|i: int|
                0 <= i < sums@.len() ==> summary_of(#[trigger] sums@[i], present(taken)[i], unix),
        decreases rest@.len(),
    {
        let ghost before = rest@;
        let m = rest.remove(0);
        proof {
            assert(taken.push(m).drop_last() =~= taken);
            assert(taken.push(m) + rest@ =~= input) by {
                assert(before =~= seq![m] + rest@);
            }
        }
        match m {
            Some(meta) => {
                let ghost mg = meta;
                let s = to_summary(meta, unix);
                sums.push(s);
                proof {
                    assert(summary_of(s, mg, unix));
                }
            },
            None => {},
        }
        proof {
            taken = taken.push(m);
        }
    }
    assert(taken =~= input);
    let ghost s = sums@;
    let r = sort_newest_first(sums);
    assert(r@.to_multiset() == s.to_multiset());
    r
}

/// Every journaled run of a repo, newest first: none when there is no
/// journal state directory (and then nothing is read); otherwise the runs
/// whose metas `read_runs_dir` reads from the repo's runs directory (one
/// entry per directory in it, `None` for an unreadable one).
pub fn list_runs(
    state: Option<String>,
    canonical_repo: &str,
    windows: bool,
    unix: bool,
    read_runs_dir: impl FnOnce(String) -> Vec<Option<RunMeta>>,
) -> (r: Vec<RunSummary>)
    requires
        forall|root: String| call_requires(read_runs_dir, (root,)),
    ensures
        state is None ==> r@.len() == 0,
        state matches Some(st) ==> exists|root: String, metas: Vec<Option<RunMeta>>|
            {
                &&& root@ == spec_runs_root(st@, canonical_repo@, windows)
                &&& #[trigger] call_ensures(read_runs_dir, (root,), metas)
                &&& lists_runs(r@, metas@, unix)
            },
{
    match state {
        None => Vec::new(),
        Some(st) => {
            let root = runs_root_at(st.as_str(), canonical_repo, windows);
            let ghost rootg = root;
            let metas = read_runs_dir(root);
            let ghost mg = metas;
            let r = list_runs_in(metas, unix);
            assert(lists_runs(r@, mg@, unix));
            r
        },
    }
}


/// Every event a tail emits is attributed to its run: each event mapped from
/// the journal's records carries the run id it was read for, and so does a
/// synthesized exit, so concurrent runs on the shared channel never get
/// their events cross-attributed.
pub proof fn events_carry_their_run_id(
    lines: Seq<Seq<u8>>,
    run_id: String,
    meta: Option<RunMeta>,
    alive: bool,
)
    ensures
        forall|i: int|
            0 <= i < mapped_events(lines, run_id).len() ==> (#[trigger] mapped_events(
                lines,
                run_id,
            )[i]).run() == run_id,
        spec_exit_for(run_id, meta, alive).run() == run_id,
    decreases lines.len(),
{
    if lines.len() > 0 {
        events_carry_their_run_id(lines.drop_last(), run_id, meta, alive);
        let before = mapped_events(lines.drop_last(), run_id);
        assert forall|i: int| 0 <= i < mapped_events(lines, run_id).len() implies (
        #[trigger] mapped_events(lines, run_id)[i]).run() == run_id by {
            if i < before.len() {
                assert(mapped_events(lines, run_id)[i] == before[i]);
            }
        }
    }
}


// --- Waiting out the spawn race ----------------------------------------------

/// What waiting for a freshly spawned run's journal does after one look.
#[derive(Debug, Clone, Copy, PartialEq, Eq, Structural)]
pub enum WaitStep {
    /// Its `events.jsonl` exists: tail the run.
    Appeared,
    /// The deadline passed with no journal: the run was never journaled.
    GaveUp,
    /// Sleep one poll interval and look again.
    Poll,
}

/// One look while waiting for a run's journal to appear: the events file
/// existing wins, even at the deadline; otherwise give up once the deadline
/// has passed, else poll again.
pub fn wait_step(events_exist: bool, past_deadline: bool) -> (w: WaitStep)
    ensures
        w == (if events_exist {
            WaitStep::Appeared
        } else if past_deadline {
            WaitStep::GaveUp
        } else {
            WaitStep::Poll
        }),
{
    if events_exist {
        WaitStep::Appeared
    } else if past_deadline {
        WaitStep::GaveUp
    } else {
        WaitStep::Poll
    }
}


proof fn lemma_lt_from_common_prefix(a: Seq<char>, b: Seq<char>, k: int, i: int)
    requires
        0 <= k <= i <= a.len(),
        i <= b.len(),
        forall|m: int| 0 <= m < i ==> a[m] == b[m],
    ensures
        lt_from(a, b, k) == lt_from(a, b, i),
    decreases i - k,
{
    if k < i {
        lemma_lt_from_common_prefix(a, b, k + 1, i);
    }
}

/// Strings compare as text, on the whole of both: where two strings first
/// differ, the one with the smaller character there is less; a proper
/// prefix is less than the longer string; and a string is never less than
/// one it is a prefix extension of. So `started_at` timestamps are ordered
/// by every character, the time of day included.
pub proof fn strings_compare_at_their_first_difference(a: Seq<char>, b: Seq<char>, i: int)
    requires
        0 <= i <= a.len(),
        i <= b.len(),
        forall|m: int| 0 <= m < i ==> a[m] == b[m],
    ensures
        i < a.len() && i < b.len() && a[i] != b[i] ==> (str_lt(a, b) <==> a[i] < b[i]),
        i == a.len() && i < b.len() ==> str_lt(a, b),
        i == b.len() ==> !str_lt(a, b),
{
    lemma_lt_from_common_prefix(a, b, 0, i);
}


/// In a list ordered newest first, of two runs whose start times first
/// differ at some character, the earlier in the list has the greater
/// character there: the list is in descending text order of `started_at`
/// over whole timestamps, so two runs on the same day are ordered by time.
pub proof fn newest_first_orders_by_whole_timestamps(
    runs: Seq<RunSummary>,
    i: int,
    j: int,
    m: int,
)
    requires
        newest_first(runs),
        0 <= i < j < runs.len(),
        0 <= m < runs[i].started_at@.len(),
        m < runs[j].started_at@.len(),
        forall|k: int| 0 <= k < m ==> runs[i].started_at@[k] == runs[j].started_at@[k],
        runs[i].started_at@[m] != runs[j].started_at@[m],
    ensures
        runs[j].started_at@[m] < runs[i].started_at@[m],
{
    let a = runs[i].started_at@;
    let b = runs[j].started_at@;
    assert(!str_lt(a, b));
    strings_compare_at_their_first_difference(a, b, m);
}


/// What each kind of journal record becomes, field by field, every field
/// read on its own: a `progress` event's text is the record's text whether
/// or not it has a percentage, and its percentage comes from the record's
/// `pct` alone (narrowed to a byte); `line`, `step` and `status` carry their
/// fields over when all are present and are skipped otherwise; an `exit`
/// carries its code (narrowed) and stop flag (false when absent) and is
/// never a crash; a record of any other kind, or none, is skipped. Every
/// event carries the run id and no generation.
pub proof fn journal_records_map_field_by_field(r: JournalRecord, run_id: String)
    ensures
        kind_is(r, "progress"@) ==> (spec_map_event(r, run_id) matches Some(
            RunEvent::Progress { run_id: id, pct, text, tail_gen },
        ) && id == run_id && text == r.text && tail_gen is None && (pct is Some <==> r.pct is Some)
            && (r.pct matches Some(p) ==> (p <= 255 ==> pct == Some(p as u8)))),
        kind_is(r, "line"@) ==> (spec_map_event(r, run_id) is Some <==> (r.stream is Some
            && r.text is Some)),
        (kind_is(r, "line"@) && r.stream is Some && r.text is Some) ==> (spec_map_event(r, run_id)
            matches Some(RunEvent::Line { run_id: id, stream, text, tail_gen }) && id == run_id
            && Some(stream) == r.stream && Some(text) == r.text && tail_gen is None),
        kind_is(r, "step"@) ==> (spec_map_event(r, run_id) is Some <==> (r.k is Some && r.n is Some
            && r.name is Some)),
        (kind_is(r, "step"@) && (r.k matches Some(k) && r.n matches Some(n) && k <= u32::MAX && n
            <= u32::MAX) && r.name is Some) ==> (spec_map_event(r, run_id) matches Some(
            RunEvent::Step { run_id: id, k: sk, n: sn, name, tail_gen },
        ) && id == run_id && Some(sk as u64) == r.k && Some(sn as u64) == r.n && Some(name)
            == r.name && tail_gen is None),
        kind_is(r, "status"@) ==> (spec_map_event(r, run_id) is Some <==> r.text is Some),
        (kind_is(r, "status"@) && r.text is Some) ==> (spec_map_event(r, run_id) matches Some(
            RunEvent::Status { run_id: id, text, tail_gen },
        ) && id == run_id && Some(text) == r.text && tail_gen is None),
        kind_is(r, "exit"@) ==> (spec_map_event(r, run_id) matches Some(
            RunEvent::Exit { run_id: id, code, stopped, crashed, tail_gen },
        ) && id == run_id && !crashed && tail_gen is None && (code is Some <==> r.code is Some)
            && (r.code matches Some(c) ==> (i32::MIN <= c <= i32::MAX ==> code == Some(c as i32)))
            && (stopped <==> r.stopped == Some(true))),
        !(kind_is(r, "progress"@) || kind_is(r, "line"@) || kind_is(r, "step"@) || kind_is(
            r,
            "status"@,
        ) || kind_is(r, "exit"@)) ==> spec_map_event(r, run_id) is None,
{
    reveal_strlit("line");
    reveal_strlit("step");
    reveal_strlit("progress");
    reveal_strlit("status");
    reveal_strlit("exit");
    assert("progress"@.len() != "line"@.len() && "progress"@.len() != "step"@.len());
    assert("step"@[0] != "line"@[0]);
    assert("status"@.len() != "line"@.len() && "status"@.len() != "step"@.len());
    assert("status"@[1] != "progress"@[1]);
    assert("exit"@[0] != "line"@[0] && "exit"@[0] != "step"@[0]);
    assert("exit"@.len() != "progress"@.len() && "exit"@.len() != "status"@.len());
}

} // verus!
