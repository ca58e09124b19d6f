//! Parser for the `PULT_EVENTS` progress-events protocol, v1:
//!
//! ```text
//! progress <0-100|?> [text]    # determinate percent, or ? = indeterminate
//! status <text>                # transient activity line
//! step <k>/<n> <name>          # entering step k of n
//! ```
//!
//! Unknown verbs and malformed lines are dropped: [`parse`] never fails and
//! never panics, it returns `None` for anything outside the grammar.

use vstd::prelude::*;
use crate::text::{
    chars_eq, chars_of, parse_u32, parse_u32_chars, slice_chars, split_once, split_once_chars,
    string_from_chars, trim, trim_chars, trim_start, trim_start_chars,
};

verus! {

/// One parsed protocol line.
#[derive(Debug, Clone, PartialEq, Eq)]
pub enum PultEvent {
    /// `progress <0-100|?> [text]`; `pct: None` is the indeterminate `?` form.
    Progress { pct: Option<u8>, text: Option<String> },
    /// `status <text>`, a transient activity line.
    Status(String),
    /// `step <k>/<n> <name>`: entering step `k` of `n` (1-based, `k <= n`).
    Step { k: u32, n: u32, name: String },
}

/// The mathematical value of a [`PultEvent`]: strings as character sequences.
pub enum PultEventModel {
    Progress { pct: Option<u8>, text: Option<Seq<char>> },
    Status(Seq<char>),
    Step { k: u32, n: u32, name: Seq<char> },
}

pub open spec fn opt_str_model(o: Option<String>) -> Option<Seq<char>> {
    match o {
        Some(s) => Some(s@),
        None => None,
    }
}

impl PultEvent {
    pub open spec fn model(self) -> PultEventModel {
        match self {
            PultEvent::Progress { pct, text } => PultEventModel::Progress {
                pct,
                text: opt_str_model(text),
            },
            PultEvent::Status(t) => PultEventModel::Status(t@),
            PultEvent::Step { k, n, name } => PultEventModel::Step { k, n, name: name@ },
        }
    }
}

pub open spec fn opt_event_model(o: Option<PultEvent>) -> Option<PultEventModel> {
    match o {
        Some(e) => Some(e.model()),
        None => None,
    }
}

pub open spec fn word_progress() -> Seq<char> {
    seq!['p', 'r', 'o', 'g', 'r', 'e', 's', 's']
}

pub open spec fn word_status() -> Seq<char> {
    seq!['s', 't', 'a', 't', 'u', 's']
}

pub open spec fn word_step() -> Seq<char> {
    seq!['s', 't', 'e', 'p']
}

/// Split on the first space: `(s, "")` when there is none; the text after
/// the space loses its leading whitespace.
pub open spec fn split_first(s: Seq<char>) -> (Seq<char>, Seq<char>) {
    match split_once(s, ' ') {
        Some((a, b)) => (a, trim_start(b)),
        None => (s, Seq::<char>::empty()),
    }
}

/// An over-range percentage clamps to 100 rather than failing the line.
pub open spec fn clamp_pct(p: u32) -> u8 {
    if p > 100 {
        100u8
    } else {
        p as u8
    }
}

pub open spec fn spec_parse_progress(rest: Seq<char>) -> Option<PultEventModel> {
    let (pct_str, t) = split_first(rest);
    let text = if t.len() == 0 {
        None
    } else {
        Some(t)
    };
    if pct_str == seq!['?'] {
        Some(PultEventModel::Progress { pct: None, text })
    } else {
        match parse_u32(pct_str) {
            Some(p) => Some(PultEventModel::Progress { pct: Some(clamp_pct(p)), text }),
            None => None,
        }
    }
}

pub open spec fn spec_parse_step(rest: Seq<char>) -> Option<PultEventModel> {
    let (kn, name) = split_first(rest);
    match split_once(kn, '/') {
        Some((ks, ns)) => match (parse_u32(ks), parse_u32(ns)) {
            (Some(k), Some(n)) => if k == 0 || n == 0 || k > n || name.len() == 0 {
                None
            } else {
                Some(PultEventModel::Step { k, n, name })
            },
            _ => None,
        },
        None => None,
    }
}

/// The protocol's grammar: what one line means, if anything.
pub open spec fn spec_parse(line: Seq<char>) -> Option<PultEventModel> {
    let (verb, rest) = split_first(trim(line));
    if verb == word_progress() {
        spec_parse_progress(rest)
    } else if verb == word_status() {
        if rest.len() == 0 {
            None
        } else {
            Some(PultEventModel::Status(rest))
        }
    } else if verb == word_step() {
        spec_parse_step(rest)
    } else {
        None
    }
}

/// Split on the first space; the remainder loses its leading whitespace.
fn split_first_chars(s: &[char]) -> (r: (Vec<char>, Vec<char>))
    ensures
        (r.0@, r.1@) == split_first(s@),
{
    match split_once_chars(s, ' ') {
        Some((a, b)) => {
            let rest = trim_start_chars(b.as_slice());
            (a, rest)
        },
        None => {
            let whole = slice_chars(s, 0, s.len());
            assert(whole@ =~= s@);
            (whole, Vec::new())
        },
    }
}

fn parse_progress(rest: &[char]) -> (r: Option<PultEvent>)
    ensures
        opt_event_model(r) == spec_parse_progress(rest@),
{
    let (pct_str, t) = split_first_chars(rest);
    let text = if t.len() == 0 {
        None
    } else {
        Some(string_from_chars(t.as_slice()))
    };
    let question = vec!['?'];
    if chars_eq(pct_str.as_slice(), question.as_slice()) {
        assert(question@ =~= seq!['?']);
        return Some(PultEvent::Progress { pct: None, text });
    }
    proof {
        assert(question@ =~= seq!['?']);
    }
    match parse_u32_chars(pct_str.as_slice()) {
        Some(p) => {
            let pct: u8 = if p > 100 {
                100
            } else {
                p as u8
            };
            Some(PultEvent::Progress { pct: Some(pct), text })
        },
        None => None,
    }
}

fn parse_step(rest: &[char]) -> (r: Option<PultEvent>)
    ensures
        opt_event_model(r) == spec_parse_step(rest@),
{
    let (kn, name) = split_first_chars(rest);
    let (ks, ns) = match split_once_chars(kn.as_slice(), '/') {
        Some(pair) => pair,
        None => return None,
    };
    let k = match parse_u32_chars(ks.as_slice()) {
        Some(k) => k,
        None => return None,
    };
    let n = match parse_u32_chars(ns.as_slice()) {
        Some(n) => n,
        None => return None,
    };
    if k == 0 || n == 0 || k > n || name.len() == 0 {
        return None;
    }
    Some(PultEvent::Step { k, n, name: string_from_chars(name.as_slice()) })
}

/// Parse one line of the protocol. `None` for anything malformed or an
/// unrecognized verb; a garbled or forward-looking line is simply dropped.
pub fn parse(line: &str) -> (r: Option<PultEvent>)
    ensures
        opt_event_model(r) == spec_parse(line@),
{
    let all = chars_of(line);
    let trimmed = trim_chars(all.as_slice());
    let (verb, rest) = split_first_chars(trimmed.as_slice());
    let w_progress = vec!['p', 'r', 'o', 'g', 'r', 'e', 's', 's'];
    let w_status = vec!['s', 't', 'a', 't', 'u', 's'];
    let w_step = vec!['s', 't', 'e', 'p'];
    assert(w_progress@ =~= word_progress());
    assert(w_status@ =~= word_status());
    assert(w_step@ =~= word_step());
    if chars_eq(verb.as_slice(), w_progress.as_slice()) {
        parse_progress(rest.as_slice())
    } else if chars_eq(verb.as_slice(), w_status.as_slice()) {
        if rest.len() == 0 {
            None
        } else {
            Some(PultEvent::Status(string_from_chars(rest.as_slice())))
        }
    } else if chars_eq(verb.as_slice(), w_step.as_slice()) {
        parse_step(rest.as_slice())
    } else {
        None
    }
}

/// Whatever a line holds, what the parser makes of it is well-formed: a
/// determinate percentage never exceeds 100, a step has `1 <= k <= n` and a
/// non-empty name, and a status has non-empty text.
pub proof fn parsed_events_are_well_formed(line: Seq<char>)
    ensures
        match spec_parse(line) {
            Some(PultEventModel::Progress { pct: Some(p), .. }) => p <= 100,
            Some(PultEventModel::Step { k, n, name }) => 1 <= k && k <= n && name.len() > 0,
            Some(PultEventModel::Status(t)) => t.len() > 0,
            _ => true,
        },
{
}

} // verus!
