//! What the frontend's commands answer, given what the `pult` child process
//! produced: the success values and the operator-facing error strings the
//! UI shows verbatim.

use vstd::prelude::*;
use crate::pult_bin::{lossy_text, stderr_text, utf8_lossy};
use crate::text::{chars_of, string_from_chars, trim, trim_chars};

verus! {

broadcast use vstd::string::group_string_axioms;

/// Whether `pat` occurs in `s` starting at position `i`.
pub open spec fn occurs_at(s: Seq<char>, pat: Seq<char>, i: int) -> bool {
    0 <= i && i + pat.len() <= s.len() && s.subrange(i, i + pat.len()) == pat
}

/// Whether `pat` occurs anywhere in `s`.
pub open spec fn contains_text(s: Seq<char>, pat: Seq<char>) -> bool {
    exists|i: int| #[trigger] occurs_at(s, pat, i)
}

/// Whether `pat` occurs in `s` (`str::contains`).
pub fn contains_chars(s: &[char], pat: &[char]) -> (r: bool)
    ensures
        r == contains_text(s@, pat@),
{
    if pat.len() > s.len() {
        assert forall|i: int| !#[trigger] occurs_at(s@, pat@, i) by {}
        return false;
    }
    if pat.len() == 0 {
        assert(s@.subrange(0, 0) =~= pat@);
        assert(occurs_at(s@, pat@, 0));
        return true;
    }
    let sl = s.len();
    let n = s.len() - pat.len() + 1;
    let mut i: usize = 0;
    while i < n
        invariant
            n == s@.len() - pat@.len() + 1,
            sl == s@.len(),
            pat@.len() >= 1,
            i <= n,
            forall|j: int| 0 <= j < i ==> !#[trigger] occurs_at(s@, pat@, j),
        decreases n - i,
    {
        let mut k: usize = 0;
        let mut same = true;
        while k < pat.len() && same
            invariant
                i < n,
                sl == s@.len(),
                pat@.len() >= 1,
                n == s@.len() - pat@.len() + 1,
                k <= pat@.len(),
                same ==> forall|m: int| 0 <= m < k ==> s@[i + m] == pat@[m],
                !same ==> exists|m: int| 0 <= m < pat@.len() && s@[i + m] != pat@[m],
            decreases pat@.len() - k + (if same {
                1int
            } else {
                0int
            }),
        {
            if s[i + k] != pat[k] {
                same = false;
            } else {
                k += 1;
            }
        }
        if same {
            assert(s@.subrange(i as int, i + pat@.len()) =~= pat@);
            assert(occurs_at(s@, pat@, i as int));
            return true;
        }
        proof {
            let m = choose|m: int| 0 <= m < pat@.len() && s@[i + m] != pat@[m];
            if occurs_at(s@, pat@, i as int) {
                assert(s@.subrange(i as int, i + pat@.len())[m] == s@[i + m]);
            }
        }
        i += 1;
    }
    assert forall|j: int| !#[trigger] occurs_at(s@, pat@, j) by {
        if 0 <= j < n {
            assert(j < i);
        }
    }
    false
}

/// The error for a listing that could not be read, with its detail.
pub open spec fn commands_unreadable(detail: Seq<char>) -> Seq<char> {
    "Couldn't read this repository's commands: "@ + detail
}

/// The error for a repository without a manifest.
pub open spec fn no_manifest_message() -> Seq<char> {
    "No pult.yaml here — point me at a repository that has one"@
}

/// "Couldn't read this repository's commands: " followed by `detail`.
pub fn commands_unreadable_message(detail: &str) -> (r: String)
    ensures
        r@ == commands_unreadable(detail@),
{
    let mut msg = String::from_str("Couldn't read this repository's commands: ");
    msg.append(detail);
    msg
}

/// What a failed `pult --list --json` means: a repository with no
/// `pult.yaml` gets its own message; otherwise pult's trimmed stderr is
/// quoted.
pub fn listing_failure(stderr: &[u8]) -> (r: String)
    ensures
        r@ == if contains_text(trim(utf8_lossy(stderr@)), "no pult.yaml found"@) {
            no_manifest_message()
        } else {
            commands_unreadable(trim(utf8_lossy(stderr@)))
        },
{
    let text = stderr_text(stderr);
    let c = chars_of(text.as_str());
    let pat = chars_of("no pult.yaml found");
    if contains_chars(c.as_slice(), pat.as_slice()) {
        String::from_str("No pult.yaml here — point me at a repository that has one")
    } else {
        commands_unreadable_message(text.as_str())
    }
}

/// What `pult --trust --list` answers: nothing on success, else an error
/// quoting pult's trimmed stderr.
pub fn trust_outcome(success: bool, stderr: &[u8]) -> (r: Result<(), String>)
    ensures
        success ==> r is Ok,
        !success ==> (r matches Err(e) && e@ == "Couldn't trust this repository: "@ + trim(
            utf8_lossy(stderr@),
        )),
{
    if success {
        Ok(())
    } else {
        let mut msg = String::from_str("Couldn't trust this repository: ");
        let t = stderr_text(stderr);
        msg.append(t.as_str());
        Err(msg)
    }
}

/// The error when `pult doctor --json`'s output is not a report (its exit
/// status alone is no error: it is 1 whenever a check failed).
pub fn doctor_failure(stderr: &[u8]) -> (r: String)
    ensures
        r@ == "Couldn't check readiness: "@ + trim(utf8_lossy(stderr@)),
{
    let mut msg = String::from_str("Couldn't check readiness: ");
    let t = stderr_text(stderr);
    msg.append(t.as_str());
    msg
}

/// What `pult --version` answers: its trimmed stdout, or an error quoting
/// its trimmed stderr.
pub fn version_outcome(success: bool, stdout: &[u8], stderr: &[u8]) -> (r: Result<String, String>)
    ensures
        success ==> (r matches Ok(v) && v@ == trim(utf8_lossy(stdout@))),
        !success ==> (r matches Err(e) && e@ == "Couldn't get pult's version: "@ + trim(
            utf8_lossy(stderr@),
        )),
{
    if success {
        let t = lossy_text(stdout);
        let c = chars_of(t.as_str());
        let tr = trim_chars(c.as_slice());
        Ok(string_from_chars(tr.as_slice()))
    } else {
        let mut msg = String::from_str("Couldn't get pult's version: ");
        let t = stderr_text(stderr);
        msg.append(t.as_str());
        Err(msg)
    }
}

} // verus!
