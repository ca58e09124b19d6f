//! Locating the `pult` binary and preparing the `pick.source` shell-outs:
//! the binary resolution precedence, the sidecar's file name, strict
//! `{param}` interpolation of an option source, POSIX single-quoting of the
//! substituted values, and turning an option source's output into options.

use vstd::prelude::*;
use crate::events::opt_str_model;
use crate::text::{
    chars_eq, chars_of, index_of_from, is_ws, slice_chars, string_from_chars, trim, trim_chars,
    trim_end, trim_start,
};
use crate::types::{CommandInfo, Listing, Param};
use vstd::utf8::{decode_utf8, valid_utf8};

verus! {

broadcast use vstd::string::group_string_axioms;

// --- POSIX single-quoting ------------------------------------------------

/// What one character of a value becomes inside the quotes: an embedded `'`
/// closes the quote, emits an escaped quote and reopens (`'\''`).
pub open spec fn quote_char(c: char) -> Seq<char> {
    if c == '\'' {
        seq!['\'', '\\', '\'', '\'']
    } else {
        seq![c]
    }
}

/// The quoted body of `v`, character by character.
pub open spec fn quote_body(v: Seq<char>) -> Seq<char>
    decreases v.len(),
{
    if v.len() == 0 {
        Seq::<char>::empty()
    } else {
        quote_char(v[0]) + quote_body(v.drop_first())
    }
}

/// `v` as one POSIX shell word: `'` + body + `'`.
pub open spec fn spec_shell_quote(v: Seq<char>) -> Seq<char> {
    seq!['\''] + quote_body(v) + seq!['\'']
}

/// How a POSIX shell reads a word made only of quoted material: a
/// single-quoted run is literal up to the next `'`, and a backslash outside
/// quotes stands for the character after it. Any other unquoted character
/// (a space, `;`, `$`, a backquote, ...) makes this `None`: nothing in the
/// word is left for the shell to interpret.
pub open spec fn sh_unquote(w: Seq<char>) -> Option<Seq<char>>
    decreases w.len(),
{
    if w.len() == 0 {
        Some(Seq::<char>::empty())
    } else if w[0] == '\'' {
        match index_of_from(w, '\'', 1) {
            Some(j) => match sh_unquote(
                {
                    proof {
                        lemma_index_of_from_bounds(w, '\'', 1);
                    }
                    w.skip(j + 1)
                },
            ) {
                Some(rest) => Some(w.subrange(1, j) + rest),
                None => None,
            },
            None => None,
        }
    } else if w[0] == '\\' && w.len() >= 2 {
        match sh_unquote(w.skip(2)) {
            Some(rest) => Some(seq![w[1]] + rest),
            None => None,
        }
    } else {
        None
    }
}

/// Where a search hit lands: at or after `from`, inside `s`, on a `c`.
pub proof fn lemma_index_of_from_bounds(s: Seq<char>, c: char, from: int)
    ensures
        index_of_from(s, c, from) matches Some(j) ==> from <= j < s.len() && s[j] == c
            && forall|k: int| from <= k < j ==> s[k] != c,
    decreases s.len() - from,
{
    if 0 <= from < s.len() && s[from] != c {
        lemma_index_of_from_bounds(s, c, from + 1);
    }
}

proof fn lemma_quote_body_concat(a: Seq<char>, b: Seq<char>)
    ensures
        quote_body(a + b) == quote_body(a) + quote_body(b),
    decreases a.len(),
{
    if a.len() == 0 {
        assert(a + b =~= b);
    } else {
        assert((a + b).drop_first() =~= a.drop_first() + b);
        lemma_quote_body_concat(a.drop_first(), b);
        assert(quote_body(a + b) =~= quote_char(a[0]) + quote_body(a.drop_first() + b));
    }
}

proof fn lemma_index_of_from_first(s: Seq<char>, c: char, from: int, k: int)
    requires
        0 <= from <= k < s.len(),
        s[k] == c,
        forall|j: int| from <= j < k ==> s[j] != c,
    ensures
        index_of_from(s, c, from) == Some(k),
    decreases k - from,
{
    if from < k {
        lemma_index_of_from_first(s, c, from + 1, k);
    }
}

/// Reading `'p'` followed by `rest` gives `p` followed by what `rest` reads as,
/// for a literal `p` that holds no quote.
proof fn lemma_unquote_segment(p: Seq<char>, rest: Seq<char>)
    requires
        forall|i: int| 0 <= i < p.len() ==> p[i] != '\'',
    ensures
        sh_unquote(seq!['\''] + p + seq!['\''] + rest) == (match sh_unquote(rest) {
            Some(r) => Some(p + r),
            None => None,
        }),
{
    let w = seq!['\''] + p + seq!['\''] + rest;
    let k = (p.len() + 1) as int;
    assert forall|j: int| 1 <= j < k implies w[j] != '\'' by {
        assert(w[j] == p[j - 1]);
    }
    assert(w[k] == '\'');
    lemma_index_of_from_first(w, '\'', 1, k);
    assert(w.subrange(1, k) =~= p);
    assert(w.skip(k + 1) =~= rest);
}

/// Reading `'p` + body(v) + `'` back gives `p + v`, for a literal prefix
/// `p` that holds no quote.
proof fn lemma_unquote_quoted(p: Seq<char>, v: Seq<char>)
    requires
        forall|i: int| 0 <= i < p.len() ==> p[i] != '\'',
    ensures
        sh_unquote(seq!['\''] + p + quote_body(v) + seq!['\'']) == Some(p + v),
    decreases v.len(),
{
    let e: Seq<char> = Seq::empty();
    let w = seq!['\''] + p + quote_body(v) + seq!['\''];
    if v.len() == 0 {
        assert(quote_body(v) =~= e);
        assert(w =~= seq!['\''] + p + seq!['\''] + e);
        lemma_unquote_segment(p, e);
        assert(sh_unquote(e) == Some(e));
        assert(p + e =~= p + v);
    } else if v[0] != '\'' {
        let p2 = p.push(v[0]);
        assert(quote_body(v) == quote_char(v[0]) + quote_body(v.drop_first()));
        assert(w =~= seq!['\''] + p2 + quote_body(v.drop_first()) + seq!['\'']);
        assert forall|i: int| 0 <= i < p2.len() implies p2[i] != '\'' by {
            if i < p.len() {
                assert(p2[i] == p[i]);
            }
        }
        lemma_unquote_quoted(p2, v.drop_first());
        assert(p2 + v.drop_first() =~= p + v);
    } else {
        let v2 = v.drop_first();
        let tail = seq!['\''] + quote_body(v2) + seq!['\''];
        assert(quote_body(v) == quote_char(v[0]) + quote_body(v2));
        let after = seq!['\\', '\''] + tail;
        assert(w =~= seq!['\''] + p + seq!['\''] + after);
        lemma_unquote_segment(p, after);
        assert(after[0] == '\\');
        assert(after.skip(2) =~= tail);
        assert(tail =~= seq!['\''] + e + quote_body(v2) + seq!['\'']);
        lemma_unquote_quoted(e, v2);
        assert(e + v2 =~= v2);
        assert(sh_unquote(after) == Some(seq![after[1]] + v2));
        assert(seq![after[1]] + v2 =~= v);
        assert(p + v =~= p + v);
    }
}

/// A quoted value reads back, under POSIX shell quoting, as exactly the
/// value, and the quoted word leaves no character for the shell to
/// interpret: whatever a value holds, it can neither change the script
/// around it nor reach it altered.
pub proof fn shell_quote_reads_back_as_the_value(v: Seq<char>)
    ensures
        sh_unquote(spec_shell_quote(v)) == Some(v),
{
    let e: Seq<char> = Seq::empty();
    assert(spec_shell_quote(v) =~= seq!['\''] + e + quote_body(v) + seq!['\'']);
    lemma_unquote_quoted(e, v);
    assert(e + v =~= v);
}

/// The characters of `v`, POSIX single-quoted.
fn shell_quote_chars(v: &[char]) -> (r: Vec<char>)
    ensures
        r@ == spec_shell_quote(v@),
{
    let mut out: Vec<char> = Vec::new();
    out.push('\'');
    let mut i: usize = 0;
    assert(v@.take(0) =~= Seq::<char>::empty());
    while i < v.len()
        invariant
            i <= v@.len(),
            out@ == seq!['\''] + quote_body(v@.take(i as int)),
        decreases v@.len() - i,
    {
        let c = v[i];
        proof {
            assert(v@.take(i + 1) =~= v@.take(i as int) + seq![c]);
            lemma_quote_body_concat(v@.take(i as int), seq![c]);
            assert(seq![c].drop_first() =~= Seq::<char>::empty());
            assert(quote_body(Seq::<char>::empty()) =~= Seq::<char>::empty());
            assert(quote_body(seq![c]) =~= quote_char(c));
        }
        if c == '\'' {
            out.push('\'');
            out.push('\\');
            out.push('\'');
            out.push('\'');
        } else {
            out.push(c);
        }
        i += 1;
    }
    assert(v@.take(v@.len() as int) =~= v@);
    out.push('\'');
    out
}

/// POSIX single-quote a value for `sh -c`, escaping embedded `'` as `'\''`.
pub fn shell_quote(value: &str) -> (r: String)
    ensures
        r@ == spec_shell_quote(value@),
{
    let v = chars_of(value);
    let q = shell_quote_chars(v.as_slice());
    string_from_chars(q.as_slice())
}

// --- `{param}` interpolation of an option source -------------------------

/// Parameter values are a map from name to value: no name occurs twice
/// among the pairs.
pub open spec fn distinct_keys(values: Seq<(String, String)>) -> bool {
    forall|i: int, j: int|
        0 <= i < j < values.len() ==> (#[trigger] values[i]).0@ != (#[trigger] values[j]).0@
}


/// Whether `name` is one of the declared `depends_on` names.
pub open spec fn declared(deps: Seq<String>, name: Seq<char>) -> bool {
    exists|j: int| 0 <= j < deps.len() && (#[trigger] deps[j])@ == name
}

/// The value supplied for `key`: the first pair whose key is `key`,
/// searching from position `from`.
pub open spec fn lookup_from(values: Seq<(String, String)>, key: Seq<char>, from: int) -> Option<
    Seq<char>,
>
    decreases values.len() - from,
{
    if from < 0 || from >= values.len() {
        None
    } else if values[from].0@ == key {
        Some(values[from].1@)
    } else {
        lookup_from(values, key, from + 1)
    }
}

/// The value supplied for `key`, or the empty string when there is none.
pub open spec fn value_or_empty(values: Seq<(String, String)>, key: Seq<char>) -> Seq<char> {
    match lookup_from(values, key, 0) {
        Some(v) => v,
        None => Seq::<char>::empty(),
    }
}

/// Why an option source could not be interpolated.
pub enum InterpError {
    /// A `{` with no `}` after it.
    Unterminated,
    /// A `{name}` whose name is not declared in `depends_on`.
    Undeclared(Seq<char>),
}

pub open spec fn prepend_ok(c: Seq<char>, r: Result<Seq<char>, InterpError>) -> Result<
    Seq<char>,
    InterpError,
> {
    match r {
        Ok(t) => Ok(c + t),
        Err(e) => Err(e),
    }
}

/// Strict interpolation of `t` from position `i` on: `{{` and `}}` stand for
/// literal braces, `{name}` is replaced by the shell-quoted value of a
/// declared name, any other character is copied.
pub open spec fn spec_interpolate_from(
    t: Seq<char>,
    i: int,
    deps: Seq<String>,
    values: Seq<(String, String)>,
) -> Result<Seq<char>, InterpError>
    decreases t.len() - i,
{
    if i < 0 || i >= t.len() {
        Ok(Seq::<char>::empty())
    } else if t[i] == '{' && i + 1 < t.len() && t[i + 1] == '{' {
        prepend_ok(seq!['{'], spec_interpolate_from(t, i + 2, deps, values))
    } else if t[i] == '{' {
        match index_of_from(t, '}', i + 1) {
            None => Err(InterpError::Unterminated),
            Some(end) => {
                let name = t.subrange(i + 1, end);
                if !declared(deps, name) {
                    Err(InterpError::Undeclared(name))
                } else {
                    proof {
                        lemma_index_of_from_bounds(t, '}', i + 1);
                    }
                    prepend_ok(
                        spec_shell_quote(value_or_empty(values, name)),
                        spec_interpolate_from(t, end + 1, deps, values),
                    )
                }
            },
        }
    } else if t[i] == '}' && i + 1 < t.len() && t[i + 1] == '}' {
        prepend_ok(seq!['}'], spec_interpolate_from(t, i + 2, deps, values))
    } else {
        prepend_ok(seq![t[i]], spec_interpolate_from(t, i + 1, deps, values))
    }
}

pub open spec fn spec_interpolate(
    t: Seq<char>,
    deps: Seq<String>,
    values: Seq<(String, String)>,
) -> Result<Seq<char>, InterpError> {
    spec_interpolate_from(t, 0, deps, values)
}

/// The text shown for an interpolation failure.
pub open spec fn interp_error_message(e: InterpError) -> Seq<char> {
    match e {
        InterpError::Unterminated => "This param's option source has an unterminated `{`"@,
        InterpError::Undeclared(name) => "This param's option source references {"@ + name
            + "}, which isn't in its depends_on list"@,
    }
}

/// What an interpolation returns: the script, or the message for its error.
pub open spec fn interp_outcome(r: Result<Seq<char>, InterpError>) -> Result<Seq<char>, Seq<char>> {
    match r {
        Ok(s) => Ok(s),
        Err(e) => Err(interp_error_message(e)),
    }
}

pub open spec fn string_result_view(r: Result<String, String>) -> Result<Seq<char>, Seq<char>> {
    match r {
        Ok(s) => Ok(s@),
        Err(e) => Err(e@),
    }
}

/// Whether `name` is one of `deps`.
fn is_declared(deps: &[String], name: &[char]) -> (r: bool)
    ensures
        r == declared(deps@, name@),
{
    let mut j: usize = 0;
    while j < deps.len()
        invariant
            j <= deps@.len(),
            forall|k: int| 0 <= k < j ==> (#[trigger] deps@[k])@ != name@,
        decreases deps@.len() - j,
    {
        let d = chars_of(deps[j].as_str());
        if chars_eq(d.as_slice(), name) {
            return true;
        }
        j += 1;
    }
    false
}

/// The value supplied for `key`, or an empty value.
fn value_for(values: &[(String, String)], key: &[char]) -> (r: Vec<char>)
    ensures
        r@ == value_or_empty(values@, key@),
{
    let mut j: usize = 0;
    while j < values.len()
        invariant
            j <= values@.len(),
            lookup_from(values@, key@, 0) == lookup_from(values@, key@, j as int),
        decreases values@.len() - j,
    {
        let k = chars_of(values[j].0.as_str());
        if chars_eq(k.as_slice(), key) {
            return chars_of(values[j].1.as_str());
        }
        j += 1;
    }
    Vec::new()
}

/// The first `c` in `s` at or after `from`.
fn find_char_from(s: &[char], c: char, from: usize) -> (r: Option<usize>)
    ensures
        r matches Some(j) ==> index_of_from(s@, c, from as int) == Some(j as int) && j < s.len(),
        r is None ==> index_of_from(s@, c, from as int) is None,
{
    let mut j = from;
    while j < s.len()
        invariant
            from <= j,
            index_of_from(s@, c, from as int) == index_of_from(s@, c, j as int),
        decreases s@.len() - j,
    {
        if s[j] == c {
            return Some(j);
        }
        j += 1;
    }
    None
}

/// Strict `{param}` interpolation of a `pick.source` template: only a name
/// declared in `depends_on` may be substituted (anything else is an error
/// naming it), `{{` and `}}` stand for literal braces, and every substituted
/// value is shell-quoted (a missing value counts as empty). A `}` that is
/// neither doubled nor closing a placeholder is copied as it is.
pub fn interpolate_source(
    template: &str,
    depends_on: &[String],
    values: &[(String, String)],
) -> (r: Result<String, String>)
    requires
        distinct_keys(values@),
    ensures
        string_result_view(r) == interp_outcome(
            spec_interpolate(template@, depends_on@, values@),
        ),
{
    let t = chars_of(template);
    let ghost tv = t@;
    let mut out: Vec<char> = Vec::new();
    let mut i: usize = 0;
    while i < t.len()
        invariant
            tv == t@,
            tv == template@,
            i <= t@.len(),
            spec_interpolate(tv, depends_on@, values@) == prepend_ok(
                out@,
                spec_interpolate_from(tv, i as int, depends_on@, values@),
            ),
        decreases t@.len() - i,
    {
        let ghost before = out@;
        let c = t[i];
        if c == '{' && i + 1 < t.len() && t[i + 1] == '{' {
            out.push('{');
            proof {
                assert(before + seq!['{'] =~= out@);
                assert(forall|r: Seq<char>| #[trigger] (before + (seq!['{'] + r)) =~= out@ + r);
            }
            i += 2;
        } else if c == '{' {
            match find_char_from(t.as_slice(), '}', i + 1) {
                None => {
                    let msg = String::from_str("This param's option source has an unterminated `{`");
                    return Err(msg);
                },
                Some(end) => {
                    proof {
                        lemma_index_of_from_bounds(tv, '}', i + 1);
                    }
                    let name = slice_chars(t.as_slice(), i + 1, end);
                    if !is_declared(depends_on, name.as_slice()) {
                        let mut msg = String::from_str("This param's option source references {");
                        let name_s = string_from_chars(name.as_slice());
                        msg.append(name_s.as_str());
                        msg.append("}, which isn't in its depends_on list");
                        return Err(msg);
                    }
                    let v = value_for(values, name.as_slice());
                    let mut q = shell_quote_chars(v.as_slice());
                    let ghost qv = q@;
                    out.append(&mut q);
                    proof {
                        assert(forall|r: Seq<char>| #[trigger] (before + (qv + r)) =~= out@ + r);
                    }
                    i = end + 1;
                },
            }
        } else if c == '}' && i + 1 < t.len() && t[i + 1] == '}' {
            out.push('}');
            proof {
                assert(forall|r: Seq<char>| #[trigger] (before + (seq!['}'] + r)) =~= out@ + r);
            }
            i += 2;
        } else {
            out.push(c);
            proof {
                assert(forall|r: Seq<char>| #[trigger] (before + (seq![c] + r)) =~= out@ + r);
            }
            i += 1;
        }
    }
    assert(out@ + Seq::<char>::empty() =~= out@);
    Ok(string_from_chars(out.as_slice()))
}

/// Whether `t` holds no brace at all.
pub open spec fn brace_free(t: Seq<char>) -> bool {
    forall|k: int| 0 <= k < t.len() ==> #[trigger] t[k] != '{' && t[k] != '}'
}

proof fn lemma_brace_free_from(
    t: Seq<char>,
    i: int,
    deps: Seq<String>,
    values: Seq<(String, String)>,
)
    requires
        brace_free(t),
        0 <= i <= t.len(),
    ensures
        spec_interpolate_from(t, i, deps, values) == Ok::<Seq<char>, InterpError>(t.skip(i)),
    decreases t.len() - i,
{
    if i < t.len() {
        lemma_brace_free_from(t, i + 1, deps, values);
        assert(seq![t[i]] + t.skip(i + 1) =~= t.skip(i));
    } else {
        assert(t.skip(i) =~= Seq::<char>::empty());
    }
}

/// A source without braces has nothing to substitute: it comes back as it
/// is, whatever `depends_on` and the values are.
pub proof fn brace_free_source_is_unchanged(
    t: Seq<char>,
    deps: Seq<String>,
    values: Seq<(String, String)>,
)
    requires
        brace_free(t),
    ensures
        spec_interpolate(t, deps, values) == Ok::<Seq<char>, InterpError>(t),
{
    lemma_brace_free_from(t, 0, deps, values);
    assert(t.skip(0) =~= t);
}

// --- Resolving the `pult` binary ----------------------------------------

/// The message for a configured override that is not a file.
pub open spec fn configured_missing_message(c: Seq<char>) -> Seq<char> {
    "The configured pult path doesn't exist: "@ + c + ". Fix it in Settings."@
}

/// The message when nothing resolves.
pub open spec fn pult_not_found_message() -> Seq<char> {
    "pult isn't installed, isn't on PATH, and no bundled copy was found. Install pult or set its path in Settings."@
}

/// The resolution precedence: a configured override always wins (and is an
/// error if it is not a file), then `pult` on `PATH`, then the bundled
/// sidecar if it is a file.
pub open spec fn spec_choose_pult(
    configured: Option<Seq<char>>,
    configured_is_file: bool,
    on_path: Option<Seq<char>>,
    sidecar: Seq<char>,
    sidecar_is_file: bool,
) -> Result<Seq<char>, Seq<char>> {
    match configured {
        Some(c) => if configured_is_file {
            Ok(c)
        } else {
            Err(configured_missing_message(c))
        },
        None => match on_path {
            Some(p) => Ok(p),
            None => if sidecar_is_file {
                Ok(sidecar)
            } else {
                Err(pult_not_found_message())
            },
        },
    }
}

/// `std::path::Path::is_file`: whether `path` names a regular file right
/// now. What it returns depends on the file system, so nothing is claimed
/// of it.
#[verifier::external_body]
fn path_is_file(path: &str) -> bool {
    std::path::Path::new(path).is_file()
}

/// The resolution precedence on already-gathered facts: the override and
/// whether it is a file, the `PATH` lookup's answer, the sidecar path and
/// whether it is a file.
pub fn choose_pult_path(
    configured: Option<String>,
    configured_is_file: bool,
    on_path: Option<String>,
    sidecar: String,
    sidecar_is_file: bool,
) -> (r: Result<String, String>)
    ensures
        string_result_view(r) == spec_choose_pult(
            opt_str_model(configured),
            configured_is_file,
            opt_str_model(on_path),
            sidecar@,
            sidecar_is_file,
        ),
{
    match configured {
        Some(c) => {
            if configured_is_file {
                Ok(c)
            } else {
                let mut msg = String::from_str("The configured pult path doesn't exist: ");
                msg.append(c.as_str());
                msg.append(". Fix it in Settings.");
                Err(msg)
            }
        },
        None => match on_path {
            Some(p) => Ok(p),
            None => {
                if sidecar_is_file {
                    Ok(sidecar)
                } else {
                    Err(
                        String::from_str(
                            "pult isn't installed, isn't on PATH, and no bundled copy was found. Install pult or set its path in Settings.",
                        ),
                    )
                }
            },
        },
    }
}

/// Resolve the `pult` binary: the configured override (which must be a
/// file; `PATH` is then never consulted), else `which_pult`'s answer, else
/// the sidecar if it is a file, else the "not found" message shown by the
/// UI.
pub fn resolve_pult_path(
    configured: Option<String>,
    which_pult: impl FnOnce() -> Option<String>,
    sidecar: String,
) -> (r: Result<String, String>)
    requires
        configured is None ==> call_requires(which_pult, ()),
    ensures
        exists|cf: bool, w: Option<String>, sf: bool|
            {
                &&& configured is None ==> call_ensures(which_pult, (), w)
                &&& string_result_view(r) == spec_choose_pult(
                    opt_str_model(configured),
                    cf,
                    opt_str_model(w),
                    sidecar@,
                    sf,
                )
            },
{
    match configured {
        Some(c) => {
            let cf = path_is_file(c.as_str());
            let r = choose_pult_path(Some(c), cf, None, sidecar, false);
            assert(string_result_view(r) == spec_choose_pult(
                opt_str_model(configured),
                cf,
                opt_str_model(None::<String>),
                sidecar@,
                false,
            ));
            r
        },
        None => {
            let w = which_pult();
            let ghost wv = w;
            let sf = match &w {
                Some(_) => false,
                None => path_is_file(sidecar.as_str()),
            };
            let ghost sv = sidecar@;
            let r = choose_pult_path(None, false, w, sidecar, sf);
            assert(string_result_view(r) == spec_choose_pult(
                opt_str_model(configured),
                false,
                opt_str_model(wv),
                sv,
                sf,
            ));
            r
        },
    }
}

/// `which::which("pult")`, as text: the first executable file named `pult`
/// in a `PATH` directory. What it finds depends on `PATH` and the file
/// system, so nothing is claimed of it.
#[verifier::external_body]
fn pult_on_path() -> Option<String> {
    which::which("pult").ok().map(|p| p.to_string_lossy().into_owned())
}

/// The sidecar candidate's text; the empty path when there is none.
pub open spec fn sidecar_text(sidecar: Option<String>) -> Seq<char> {
    match sidecar {
        Some(p) => p@,
        None => Seq::<char>::empty(),
    }
}

/// Resolve the `pult` binary to run: the settings override `configured`,
/// else `pult` on `PATH` (looked up only when nothing is configured), else
/// the bundled sidecar at its candidate path `sidecar` (`None` when the
/// app's own executable path is unknown: an empty path, which is never a
/// file), else the "not found" message the UI shows.
pub fn resolve_pult(configured: Option<String>, sidecar: Option<String>) -> (r: Result<
    String,
    String,
>)
    ensures
        exists|cf: bool, w: Option<String>, sf: bool|
            string_result_view(r) == #[trigger] spec_choose_pult(
                opt_str_model(configured),
                cf,
                opt_str_model(w),
                sidecar_text(sidecar),
                sf,
            ),
{
    let candidate = match sidecar {
        Some(p) => p,
        None => String::new(),
    };
    let ghost cand = candidate@;
    let ghost conf = configured;
    assert(cand == sidecar_text(sidecar));
    let finder = || pult_on_path();
    let r = resolve_pult_path(configured, finder, candidate);
    proof {
        let (cf, w, sf) = choose|cf: bool, w: Option<String>, sf: bool|
            {
                &&& conf is None ==> call_ensures(finder, (), w)
                &&& string_result_view(r) == spec_choose_pult(
                    opt_str_model(conf),
                    cf,
                    opt_str_model(w),
                    cand,
                    sf,
                )
            };
        assert(string_result_view(r) == spec_choose_pult(
            opt_str_model(conf),
            cf,
            opt_str_model(w),
            sidecar_text(sidecar),
            sf,
        ));
    }
    r
}

/// The bundled sidecar's file name: `pult.exe` on Windows, `pult` elsewhere.
pub fn sidecar_binary_name(windows: bool) -> (r: &'static str)
    ensures
        r@ == (if windows {
            "pult.exe"@
        } else {
            "pult"@
        }),
{
    if windows {
        "pult.exe"
    } else {
        "pult"
    }
}

/// Whether `c` separates path components on the platform.
pub open spec fn is_path_sep(c: char, windows: bool) -> bool {
    c == '/' || (windows && c == '\\')
}

/// `dir` joined with a relative `name`: a separator is added unless `dir`
/// is empty or already ends with one.
pub open spec fn spec_join(dir: Seq<char>, name: Seq<char>, windows: bool) -> Seq<char> {
    if dir.len() == 0 || is_path_sep(dir.last(), windows) {
        dir + name
    } else {
        dir + seq![if windows { '\\' } else { '/' }] + name
    }
}

/// `dir` joined with the relative path `name`.
pub fn join_path(dir: &str, name: &str, windows: bool) -> (r: String)
    ensures
        r@ == spec_join(dir@, name@, windows),
{
    let d = chars_of(dir);
    let mut out = String::from_str(dir);
    if d.len() > 0 && (d[d.len() - 1] == '/' || (windows && d[d.len() - 1] == '\\')) {
        out.append(name);
    } else if d.len() > 0 {
        if windows {
            out.append("\\");
            proof {
                reveal_strlit("\\");
            }
        } else {
            out.append("/");
            proof {
                reveal_strlit("/");
            }
        }
        out.append(name);
    } else {
        out.append(name);
    }
    out
}

/// Where the sidecar binary lives inside `dir`.
pub fn sidecar_path_in(dir: &str, windows: bool) -> (r: String)
    ensures
        r@ == spec_join(
            dir@,
            if windows {
                "pult.exe"@
            } else {
                "pult"@
            },
            windows,
        ),
{
    join_path(dir, sidecar_binary_name(windows), windows)
}

// --- Text from a child process -----------------------------------------

/// What `String::from_utf8_lossy` makes of `bytes`: the UTF-8 decoding, with
/// each invalid sequence replaced by U+FFFD.
pub uninterp spec fn utf8_lossy(bytes: Seq<u8>) -> Seq<char>;

/// `String::from_utf8_lossy`: the text of `bytes`. Its documentation
/// promises that valid UTF-8 is decoded as it is; how invalid sequences are
/// replaced is left to the name `utf8_lossy`.
#[verifier::external_body]
pub(crate) fn lossy_text(bytes: &[u8]) -> (r: String)
    ensures
        r@ == utf8_lossy(bytes@),
        valid_utf8(bytes@) ==> r@ == decode_utf8(bytes@),
{
    String::from_utf8_lossy(bytes).into_owned()
}

/// A process's stderr, as text, trimmed for display.
pub fn stderr_text(stderr: &[u8]) -> (r: String)
    ensures
        r@ == trim(utf8_lossy(stderr@)),
{
    let t = lossy_text(stderr);
    let c = chars_of(t.as_str());
    let tr = trim_chars(c.as_slice());
    string_from_chars(tr.as_slice())
}

// --- Options from a `pick.source` script's output -------------------------

/// The most options handed back to the UI.
pub const MAX_PICK_OPTIONS: usize = 500;

/// Splitting text into lines: the completed lines so far and the line being
/// read.
pub open spec fn lines_acc(s: Seq<char>) -> (Seq<Seq<char>>, Seq<char>)
    decreases s.len(),
{
    if s.len() == 0 {
        (Seq::<Seq<char>>::empty(), Seq::<char>::empty())
    } else {
        let (done, cur) = lines_acc(s.drop_last());
        if s.last() == '\n' {
            (done.push(cur), Seq::<char>::empty())
        } else {
            (done, cur.push(s.last()))
        }
    }
}

/// `s` split at every `\n` (the text after the last one included).
pub open spec fn split_lines(s: Seq<char>) -> Seq<Seq<char>> {
    lines_acc(s).0.push(lines_acc(s).1)
}

/// The trimmed, non-empty lines among `lines`, in order.
pub open spec fn nonblank_trimmed(lines: Seq<Seq<char>>) -> Seq<Seq<char>>
    decreases lines.len(),
{
    if lines.len() == 0 {
        Seq::<Seq<char>>::empty()
    } else {
        let rest = nonblank_trimmed(lines.drop_last());
        if trim(lines.last()).len() > 0 {
            rest.push(trim(lines.last()))
        } else {
            rest
        }
    }
}

/// At most the first `n` elements of `s`.
pub open spec fn at_most<A>(s: Seq<A>, n: int) -> Seq<A> {
    if s.len() <= n {
        s
    } else {
        s.take(n)
    }
}

pub open spec fn option_source_exited_message() -> Seq<char> {
    "This param's option source exited with an error"@
}

pub open spec fn option_source_failed_message(stderr: Seq<char>) -> Seq<char> {
    "This param's option source failed: "@ + stderr
}

pub open spec fn no_options_message() -> Seq<char> {
    "This param's option source returned no options"@
}

/// What a finished option source yields: on a failed exit, an error quoting
/// its trimmed stderr (if any); otherwise the trimmed non-empty lines of its
/// stdout, at most [`MAX_PICK_OPTIONS`] of them, and an error if there are
/// none.
pub open spec fn spec_pick_options(success: bool, stdout: Seq<u8>, stderr: Seq<u8>) -> Result<
    Seq<Seq<char>>,
    Seq<char>,
> {
    if !success {
        let e = trim(utf8_lossy(stderr));
        if e.len() == 0 {
            Err(option_source_exited_message())
        } else {
            Err(option_source_failed_message(e))
        }
    } else {
        let opts = at_most(nonblank_trimmed(split_lines(utf8_lossy(stdout))), 500);
        if opts.len() == 0 {
            Err(no_options_message())
        } else {
            Ok(opts)
        }
    }
}

pub open spec fn strings_model(v: Seq<String>) -> Seq<Seq<char>> {
    v.map_values(|s: String| s@)
}

pub open spec fn options_result_view(r: Result<Vec<String>, String>) -> Result<
    Seq<Seq<char>>,
    Seq<char>,
> {
    match r {
        Ok(v) => Ok(strings_model(v@)),
        Err(e) => Err(e@),
    }
}

/// The lines of `s`.
fn split_lines_chars(s: &[char]) -> (r: Vec<Vec<char>>)
    ensures
        r@.map_values(|l: Vec<char>| l@) == split_lines(s@),
{
    let mut done: Vec<Vec<char>> = Vec::new();
    let mut cur: Vec<char> = Vec::new();
    let mut i: usize = 0;
    assert(s@.take(0) =~= Seq::<char>::empty());
    while i < s.len()
        invariant
            i <= s@.len(),
            (done@.map_values(|l: Vec<char>| l@), cur@) == lines_acc(s@.take(i as int)),
        decreases s@.len() - i,
    {
        proof {
            assert(s@.take(i + 1).drop_last() =~= s@.take(i as int));
        }
        let c = s[i];
        if c == '\n' {
            let line = cur;
            cur = Vec::new();
            let ghost before = done@;
            done.push(line);
            assert(done@.map_values(|l: Vec<char>| l@) =~= before.map_values(|l: Vec<char>| l@).push(line@));
        } else {
            cur.push(c);
        }
        i += 1;
    }
    assert(s@.take(s@.len() as int) =~= s@);
    let ghost before = done@;
    done.push(cur);
    assert(done@.map_values(|l: Vec<char>| l@) =~= before.map_values(|l: Vec<char>| l@).push(cur@));
    done
}

proof fn lemma_nonblank_prefix_grows(lines: Seq<Seq<char>>, j: int)
    requires
        0 <= j < lines.len(),
    ensures
        nonblank_trimmed(lines.take(j + 1)) == (if trim(lines[j]).len() > 0 {
            nonblank_trimmed(lines.take(j)).push(trim(lines[j]))
        } else {
            nonblank_trimmed(lines.take(j))
        }),
{
    assert(lines.take(j + 1).drop_last() =~= lines.take(j));
}

/// The options an option source's output yields, or the error to show.
pub fn pick_options_from_output(success: bool, stdout: &[u8], stderr: &[u8]) -> (r: Result<
    Vec<String>,
    String,
>)
    ensures
        options_result_view(r) == spec_pick_options(success, stdout@, stderr@),
{
    if !success {
        let e = stderr_text(stderr);
        if e.unicode_len() == 0 {
            return Err(String::from_str("This param's option source exited with an error"));
        }
        let mut msg = String::from_str("This param's option source failed: ");
        msg.append(e.as_str());
        return Err(msg);
    }
    let text = lossy_text(stdout);
    let chars = chars_of(text.as_str());
    let lines = split_lines_chars(chars.as_slice());
    let ghost lm = lines@.map_values(|l: Vec<char>| l@);
    let mut out: Vec<String> = Vec::new();
    let mut j: usize = 0;
    assert(lm.take(0) =~= Seq::<Seq<char>>::empty());
    while j < lines.len() && out.len() < MAX_PICK_OPTIONS
        invariant
            lm == lines@.map_values(|l: Vec<char>| l@),
            j <= lines@.len(),
            strings_model(out@) == at_most(nonblank_trimmed(lm.take(j as int)), 500),
            out@.len() <= 500,
        decreases lines@.len() - j,
    {
        let t = trim_chars(lines[j].as_slice());
        proof {
            lemma_nonblank_prefix_grows(lm, j as int);
            assert(lm[j as int] == lines@[j as int]@);
        }
        if t.len() > 0 {
            let ghost before = out@;
            out.push(string_from_chars(t.as_slice()));
            assert(strings_model(out@) =~= strings_model(before).push(t@));
        }
        j += 1;
    }
    proof {
        if j < lines@.len() {
            // Already at the cap: further lines can only add past it.
            lemma_at_most_stable(lm, j as int);
        }
        assert(lm.take(lm.len() as int) =~= lm);
    }
    if out.len() == 0 {
        return Err(String::from_str("This param's option source returned no options"));
    }
    Ok(out)
}

/// Once 500 options are found, the remaining lines change nothing.
proof fn lemma_at_most_stable(lines: Seq<Seq<char>>, j: int)
    requires
        0 <= j <= lines.len(),
        nonblank_trimmed(lines.take(j)).len() >= 500,
    ensures
        at_most(nonblank_trimmed(lines), 500) == at_most(nonblank_trimmed(lines.take(j)), 500),
    decreases lines.len() - j,
{
    if j < lines.len() {
        lemma_nonblank_prefix_grows(lines, j);
        lemma_at_most_stable(lines, j + 1);
        let a = nonblank_trimmed(lines.take(j));
        let b = nonblank_trimmed(lines.take(j + 1));
        assert(b.take(500) =~= a.take(500));
    } else {
        assert(lines.take(j) =~= lines);
    }
}

// --- Planning a `pick.source` resolution ---------------------------------

/// Index of the first command whose id is `id`, from position `from` on.
pub open spec fn find_command_from(cmds: Seq<CommandInfo>, id: Seq<char>, from: int) -> Option<int>
    decreases cmds.len() - from,
{
    if from < 0 || from >= cmds.len() {
        None
    } else if cmds[from].id@ == id {
        Some(from)
    } else {
        find_command_from(cmds, id, from + 1)
    }
}

/// Index of the first param whose name is `name`, from position `from` on.
pub open spec fn find_param_from(params: Seq<Param>, name: Seq<char>, from: int) -> Option<int>
    decreases params.len() - from,
{
    if from < 0 || from >= params.len() {
        None
    } else if params[from].name@ == name {
        Some(from)
    } else {
        find_param_from(params, name, from + 1)
    }
}

/// Index of the first dependency, from position `from` on, that has no
/// supplied value.
pub open spec fn first_missing_from(
    deps: Seq<String>,
    values: Seq<(String, String)>,
    from: int,
) -> Option<int>
    decreases deps.len() - from,
{
    if from < 0 || from >= deps.len() {
        None
    } else if lookup_from(values, deps[from]@, 0) is None {
        Some(from)
    } else {
        first_missing_from(deps, values, from + 1)
    }
}

pub open spec fn opt_vec_or_empty(o: Option<Vec<String>>) -> Seq<String> {
    match o {
        Some(v) => v@,
        None => Seq::<String>::empty(),
    }
}

pub open spec fn untrusted_message() -> Seq<char> {
    "Trust this repository before resolving live options."@
}

/// What resolving a dynamic `pick` param's options amounts to, given the
/// repository's listing: the refusals (untrusted repository, unknown
/// command or param, a param without a `source`, a dependency without a
/// value, a source that does not interpolate) in that order, or the script
/// to run with `sh -c` and the directory to run it in (the listing's
/// `run_dir`, or `path` when that is empty).
pub open spec fn spec_plan_pick_source(
    listing: Listing,
    path: Seq<char>,
    command_id: Seq<char>,
    param_name: Seq<char>,
    values: Seq<(String, String)>,
) -> Result<(Seq<char>, Seq<char>), Seq<char>> {
    if !listing.trusted {
        Err(untrusted_message())
    } else {
        match find_command_from(listing.commands@, command_id, 0) {
            None => Err("Unknown command: "@ + command_id),
            Some(ci) => match find_param_from(listing.commands@[ci].params@, param_name, 0) {
                None => Err("Unknown param: "@ + param_name),
                Some(pi) => {
                    let param = listing.commands@[ci].params@[pi];
                    match param.source {
                        None => Err(param_name + " isn't a dynamic pick param"@),
                        Some(source) => {
                            let deps = opt_vec_or_empty(param.depends_on);
                            match first_missing_from(deps, values, 0) {
                                Some(k) => Err(
                                    param_name + " depends on "@ + deps[k]@
                                        + ", which has no value yet"@,
                                ),
                                None => match spec_interpolate(source@, deps, values) {
                                    Err(e) => Err(interp_error_message(e)),
                                    Ok(script) => Ok(
                                        (
                                            script,
                                            if listing.run_dir@.len() == 0 {
                                                path
                                            } else {
                                                listing.run_dir@
                                            },
                                        ),
                                    ),
                                },
                            }
                        },
                    }
                },
            },
        }
    }
}

pub open spec fn plan_result_view(r: Result<(String, String), String>) -> Result<
    (Seq<char>, Seq<char>),
    Seq<char>,
> {
    match r {
        Ok((a, b)) => Ok((a@, b@)),
        Err(e) => Err(e@),
    }
}

fn find_command(cmds: &[CommandInfo], id: &[char]) -> (r: Option<usize>)
    ensures
        r matches Some(k) ==> find_command_from(cmds@, id@, 0) == Some(k as int) && k < cmds@.len(),
        r is None ==> find_command_from(cmds@, id@, 0) is None,
{
    let mut k: usize = 0;
    while k < cmds.len()
        invariant
            k <= cmds@.len(),
            find_command_from(cmds@, id@, 0) == find_command_from(cmds@, id@, k as int),
        decreases cmds@.len() - k,
    {
        let c = chars_of(cmds[k].id.as_str());
        if chars_eq(c.as_slice(), id) {
            return Some(k);
        }
        k += 1;
    }
    None
}

fn find_param(params: &[Param], name: &[char]) -> (r: Option<usize>)
    ensures
        r matches Some(k) ==> find_param_from(params@, name@, 0) == Some(k as int) && k
            < params@.len(),
        r is None ==> find_param_from(params@, name@, 0) is None,
{
    let mut k: usize = 0;
    while k < params.len()
        invariant
            k <= params@.len(),
            find_param_from(params@, name@, 0) == find_param_from(params@, name@, k as int),
        decreases params@.len() - k,
    {
        let c = chars_of(params[k].name.as_str());
        if chars_eq(c.as_slice(), name) {
            return Some(k);
        }
        k += 1;
    }
    None
}

/// Whether some pair's key is `key`.
fn has_value(values: &[(String, String)], key: &[char]) -> (r: bool)
    ensures
        r == lookup_from(values@, key@, 0) is Some,
{
    let mut j: usize = 0;
    while j < values.len()
        invariant
            j <= values@.len(),
            lookup_from(values@, key@, 0) == lookup_from(values@, key@, j as int),
        decreases values@.len() - j,
    {
        let k = chars_of(values[j].0.as_str());
        if chars_eq(k.as_slice(), key) {
            return true;
        }
        j += 1;
    }
    false
}

fn first_missing(deps: &[String], values: &[(String, String)]) -> (r: Option<usize>)
    ensures
        r matches Some(k) ==> first_missing_from(deps@, values@, 0) == Some(k as int) && k
            < deps@.len(),
        r is None ==> first_missing_from(deps@, values@, 0) is None,
{
    let mut k: usize = 0;
    while k < deps.len()
        invariant
            k <= deps@.len(),
            first_missing_from(deps@, values@, 0) == first_missing_from(deps@, values@, k as int),
        decreases deps@.len() - k,
    {
        let d = chars_of(deps[k].as_str());
        if !has_value(values, d.as_slice()) {
            return Some(k);
        }
        k += 1;
    }
    None
}

/// Plan the resolution of a dynamic `pick` param's live options from the
/// repository's listing: refuse an untrusted repository (option sources
/// are manifest-authored shell code, gated like `check:`), an unknown
/// command or param, a param without a `source`, or a `depends_on` name
/// without a value; otherwise interpolate the source strictly and pick the
/// directory to run it in.
pub fn plan_pick_source(
    listing: &Listing,
    path: &str,
    command_id: &str,
    param_name: &str,
    values: &[(String, String)],
) -> (r: Result<(String, String), String>)
    requires
        distinct_keys(values@),
    ensures
        plan_result_view(r) == spec_plan_pick_source(
            *listing,
            path@,
            command_id@,
            param_name@,
            values@,
        ),
{
    if !listing.trusted {
        return Err(String::from_str("Trust this repository before resolving live options."));
    }
    let id = chars_of(command_id);
    let ci = match find_command(listing.commands.as_slice(), id.as_slice()) {
        Some(ci) => ci,
        None => {
            let mut msg = String::from_str("Unknown command: ");
            msg.append(command_id);
            return Err(msg);
        },
    };
    let command = &listing.commands[ci];
    let pname = chars_of(param_name);
    let pi = match find_param(command.params.as_slice(), pname.as_slice()) {
        Some(pi) => pi,
        None => {
            let mut msg = String::from_str("Unknown param: ");
            msg.append(param_name);
            return Err(msg);
        },
    };
    let param = &command.params[pi];
    let source = match &param.source {
        Some(s) => s,
        None => {
            let mut msg = String::from_str(param_name);
            msg.append(" isn't a dynamic pick param");
            return Err(msg);
        },
    };
    let deps: Vec<String> = match &param.depends_on {
        Some(d) => d.clone(),
        None => Vec::new(),
    };
    assert(deps@ == opt_vec_or_empty(param.depends_on));
    if let Some(k) = first_missing(deps.as_slice(), values) {
        let mut msg = String::from_str(param_name);
        msg.append(" depends on ");
        msg.append(deps[k].as_str());
        msg.append(", which has no value yet");
        return Err(msg);
    }
    let script = match interpolate_source(source.as_str(), deps.as_slice(), values) {
        Ok(s) => s,
        Err(e) => return Err(e),
    };
    let cwd = if listing.run_dir.unicode_len() == 0 {
        String::from_str(path)
    } else {
        listing.run_dir.clone()
    };
    Ok((script, cwd))
}


// --- Spawning a journaled run --------------------------------------------------

/// Parameter values by their text, in order.
pub open spec fn pairs_view(values: Seq<(String, String)>) -> Seq<(Seq<char>, Seq<char>)> {
    values.map_values(|p: (String, String)| (p.0@, p.1@))
}

/// What `serde_json` writes for the JSON object mapping each key of `pairs`
/// to its value as a JSON string (a later pair replacing an earlier one with
/// the same key).
pub uninterp spec fn params_json_text(pairs: Seq<(Seq<char>, Seq<char>)>) -> Seq<char>;

/// `serde_json::Value::to_string` on the object built from `values`, each
/// value a JSON string: the `--params-json` payload. The text depends on the
/// pairs alone; what JSON it is left to the name `params_json_text`.
#[verifier::external_body]
fn params_json(values: &[(String, String)]) -> (r: String)
    ensures
        r@ == params_json_text(pairs_view(values@)),
{
    let map: serde_json::Map<String, serde_json::Value> = values
        .iter()
        .map(|(k, v)| (k.clone(), serde_json::Value::String(v.clone())))
        .collect();
    serde_json::Value::Object(map).to_string()
}

/// How to start a journaled run of a manifest command: `pult`'s arguments,
/// the text to feed on its stdin, the environment variable to set and the
/// one to remove.
pub struct Invocation {
    pub args: Vec<String>,
    pub stdin: String,
    pub set_env: (String, String),
    pub remove_env: String,
}

/// The invocation for running command `id` as run `run_id` with the given
/// parameter values: `pult <id> --params-json --run-id <run_id>`, the values
/// fed as a JSON object on stdin (which keeps secrets out of the argument
/// list), `PULT_ORIGIN=desktop` so the journal records where the run came
/// from, and an inherited `PULT_EVENTS` removed so the spawned `pult` claims
/// its own events channel and journals normally.
pub fn run_invocation(id: &str, run_id: &str, values: &[(String, String)]) -> (r: Invocation)
    requires
        distinct_keys(values@),
    ensures
        r.args@.map_values(|a: String| a@) == seq![id@, "--params-json"@, "--run-id"@, run_id@],
        r.stdin@ == params_json_text(pairs_view(values@)),
        r.set_env.0@ == "PULT_ORIGIN"@,
        r.set_env.1@ == "desktop"@,
        r.remove_env@ == "PULT_EVENTS"@,
{
    let mut args: Vec<String> = Vec::new();
    args.push(String::from_str(id));
    args.push(String::from_str("--params-json"));
    args.push(String::from_str("--run-id"));
    args.push(String::from_str(run_id));
    assert(args@.map_values(|a: String| a@) =~= seq![
        id@,
        "--params-json"@,
        "--run-id"@,
        run_id@,
    ]);
    Invocation {
        args,
        stdin: params_json(values),
        set_env: (String::from_str("PULT_ORIGIN"), String::from_str("desktop")),
        remove_env: String::from_str("PULT_EVENTS"),
    }
}


/// Text with no whitespace at either end.
pub open spec fn is_trimmed(s: Seq<char>) -> bool {
    s.len() > 0 ==> !is_ws(s[0]) && !is_ws(s.last())
}

proof fn lemma_trim_start_first(s: Seq<char>)
    ensures
        trim_start(s).len() > 0 ==> !is_ws(trim_start(s)[0]),
    decreases s.len(),
{
    if s.len() > 0 && is_ws(s[0]) {
        lemma_trim_start_first(s.drop_first());
    }
}

proof fn lemma_trim_end_prefix(s: Seq<char>)
    ensures
        trim_end(s).len() <= s.len(),
        trim_end(s) == s.take(trim_end(s).len() as int),
        trim_end(s).len() > 0 ==> !is_ws(trim_end(s).last()),
    decreases s.len(),
{
    if s.len() > 0 && is_ws(s.last()) {
        lemma_trim_end_prefix(s.drop_last());
        assert(s.drop_last().take(trim_end(s).len() as int) =~= s.take(trim_end(s).len() as int));
    } else {
        assert(s.take(s.len() as int) =~= s);
    }
}

/// `str::trim` leaves no whitespace at either end.
pub proof fn trimmed_text_has_no_surrounding_whitespace(s: Seq<char>)
    ensures
        is_trimmed(trim(s)),
{
    let t = trim_start(s);
    lemma_trim_start_first(s);
    lemma_trim_end_prefix(t);
    if trim(s).len() > 0 {
        assert(trim(s)[0] == t[0]);
    }
}

proof fn lemma_nonblank_trimmed_shape(lines: Seq<Seq<char>>)
    ensures
        forall|i: int|
            0 <= i < nonblank_trimmed(lines).len() ==> #[trigger] nonblank_trimmed(lines)[i].len() > 0
                && is_trimmed(nonblank_trimmed(lines)[i]),
    decreases lines.len(),
{
    if lines.len() > 0 {
        lemma_nonblank_trimmed_shape(lines.drop_last());
        trimmed_text_has_no_surrounding_whitespace(lines.last());
        let rest = nonblank_trimmed(lines.drop_last());
        assert forall|i: int| 0 <= i < nonblank_trimmed(lines).len() implies #[trigger] nonblank_trimmed(
            lines,
        )[i].len() > 0 && is_trimmed(nonblank_trimmed(lines)[i]) by {
            if i < rest.len() {
                assert(nonblank_trimmed(lines)[i] == rest[i]);
            }
        }
    }
}

/// A pick source's options are never blank and never padded with
/// whitespace, there is at least one, and there are at most
/// [`MAX_PICK_OPTIONS`].
pub proof fn pick_options_are_trimmed_nonblank_and_capped(
    success: bool,
    stdout: Seq<u8>,
    stderr: Seq<u8>,
)
    ensures
        spec_pick_options(success, stdout, stderr) matches Ok(opts) ==> {
            &&& 1 <= opts.len() <= MAX_PICK_OPTIONS
            &&& forall|i: int|
                0 <= i < opts.len() ==> (#[trigger] opts[i]).len() > 0 && is_trimmed(opts[i])
        },
{
    let all = nonblank_trimmed(split_lines(utf8_lossy(stdout)));
    lemma_nonblank_trimmed_shape(split_lines(utf8_lossy(stdout)));
    if success && all.len() > 500 {
        assert forall|i: int| 0 <= i < 500 implies (#[trigger] all.take(500)[i]).len() > 0
            && is_trimmed(all.take(500)[i]) by {
            assert(all.take(500)[i] == all[i]);
        }
    }
}


/// Option sources are shell code authored by the manifest, so they are
/// gated on trust as `check:` scripts are: for a repository that is not
/// trusted no script is ever planned, whatever the command, param and
/// values, and the refusal says to trust it first.
pub proof fn untrusted_repositories_never_run_option_sources(
    listing: Listing,
    path: Seq<char>,
    command_id: Seq<char>,
    param_name: Seq<char>,
    values: Seq<(String, String)>,
)
    ensures
        spec_plan_pick_source(listing, path, command_id, param_name, values) is Ok
            ==> listing.trusted,
        !listing.trusted ==> spec_plan_pick_source(listing, path, command_id, param_name, values)
            == Err::<(Seq<char>, Seq<char>), Seq<char>>(untrusted_message()),
{
}


proof fn lemma_lookup_finds(values: Seq<(String, String)>, key: Seq<char>, from: int, j: int)
    requires
        distinct_keys(values),
        0 <= from <= j < values.len(),
        values[j].0@ == key,
    ensures
        lookup_from(values, key, from) == Some(values[j].1@),
    decreases j - from,
{
    if from < j {
        assert(values[from].0@ != values[j].0@);
        lemma_lookup_finds(values, key, from + 1, j);
    }
}

proof fn lemma_lookup_missing(values: Seq<(String, String)>, key: Seq<char>, from: int)
    requires
        forall|k: int| 0 <= k < values.len() ==> (#[trigger] values[k]).0@ != key,
    ensures
        lookup_from(values, key, from) is None,
    decreases values.len() - from,
{
    if 0 <= from < values.len() {
        assert(values[from].0@ != key);
        lemma_lookup_missing(values, key, from + 1);
    }
}

/// The value substituted for a name is the value paired with that name,
/// whatever the other pairs are, and the empty string when no pair names it.
pub proof fn each_name_takes_its_own_value(values: Seq<(String, String)>, j: int, name: Seq<char>)
    requires
        distinct_keys(values),
    ensures
        0 <= j < values.len() ==> value_or_empty(values, values[j].0@) == values[j].1@,
        (forall|k: int| 0 <= k < values.len() ==> (#[trigger] values[k]).0@ != name)
            ==> value_or_empty(values, name) == Seq::<char>::empty(),
{
    if 0 <= j < values.len() {
        lemma_lookup_finds(values, values[j].0@, 0, j);
    }
    if forall|k: int| 0 <= k < values.len() ==> (#[trigger] values[k]).0@ != name {
        lemma_lookup_missing(values, name, 0);
    }
}

proof fn lemma_index_of_first(s: Seq<char>, c: char, from: int, e: int)
    requires
        0 <= from <= e < s.len(),
        s[e] == c,
        forall|m: int| from <= m < e ==> s[m] != c,
    ensures
        index_of_from(s, c, from) == Some(e),
    decreases e - from,
{
    if from < e {
        lemma_index_of_first(s, c, from + 1, e);
    }
}

/// A run of characters with no brace is copied through unchanged.
proof fn lemma_plain_run(
    t: Seq<char>,
    i: int,
    k: int,
    deps: Seq<String>,
    values: Seq<(String, String)>,
)
    requires
        0 <= i <= k <= t.len(),
        forall|m: int| i <= m < k ==> #[trigger] t[m] != '{' && t[m] != '}',
    ensures
        spec_interpolate_from(t, i, deps, values) == prepend_ok(
            t.subrange(i, k),
            spec_interpolate_from(t, k, deps, values),
        ),
    decreases k - i,
{
    let rest = spec_interpolate_from(t, k, deps, values);
    if i == k {
        if let Ok(x) = rest {
            assert(t.subrange(i, k) + x =~= x);
        }
    } else {
        lemma_plain_run(t, i + 1, k, deps, values);
        assert(t[i] != '{' && t[i] != '}');
        if let Ok(x) = rest {
            assert(seq![t[i]] + (t.subrange(i + 1, k) + x) =~= t.subrange(i, k) + x);
        }
    }
}

/// A declared `{name}` placeholder is replaced by exactly the shell-quoted
/// value paired with `name`, and the text around it is kept as it is.
pub proof fn a_placeholder_is_replaced_by_its_own_quoted_value(
    pre: Seq<char>,
    name: Seq<char>,
    post: Seq<char>,
    deps: Seq<String>,
    values: Seq<(String, String)>,
    j: int,
)
    requires
        brace_free(pre),
        brace_free(name),
        brace_free(post),
        declared(deps, name),
        distinct_keys(values),
        0 <= j < values.len(),
        values[j].0@ == name,
    ensures
        spec_interpolate(pre + seq!['{'] + name + seq!['}'] + post, deps, values) == Ok::<
            Seq<char>,
            InterpError,
        >(pre + spec_shell_quote(values[j].1@) + post),
{
    let t = pre + seq!['{'] + name + seq!['}'] + post;
    let p = pre.len() as int;
    let e = p + 1 + name.len();
    assert(t[p] == '{');
    assert(t[e] == '}');
    assert forall|m: int| 0 <= m < p implies #[trigger] t[m] != '{' && t[m] != '}' by {
        assert(t[m] == pre[m]);
    }
    assert forall|m: int| p + 1 <= m < e implies #[trigger] t[m] != '}' by {
        assert(t[m] == name[m - p - 1]);
    }
    assert forall|m: int| e + 1 <= m < t.len() implies #[trigger] t[m] != '{' && t[m] != '}' by {
        assert(t[m] == post[m - e - 1]);
    }
    if name.len() > 0 {
        assert(t[p + 1] == name[0]);
    }
    assert(t[p + 1] != '{');
    lemma_plain_run(t, 0, p, deps, values);
    lemma_index_of_first(t, '}', p + 1, e);
    assert(t.subrange(p + 1, e) =~= name);
    lemma_plain_run(t, e + 1, t.len() as int, deps, values);
    assert(t.subrange(e + 1, t.len() as int) =~= post);
    assert(spec_interpolate_from(t, t.len() as int, deps, values) == Ok::<Seq<char>, InterpError>(
        Seq::<char>::empty(),
    ));
    assert(post + Seq::<char>::empty() =~= post);
    each_name_takes_its_own_value(values, j, name);
    assert(t.subrange(0, p) =~= pre);
    let q = spec_shell_quote(values[j].1@);
    assert(pre + (q + post) =~= pre + q + post);
}

} // verus!
