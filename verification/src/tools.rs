//! Finding an external tool: the candidate paths to probe, and the decision
//! on what the probes found. Probing the file system and launching the tool
//! are left to the caller, which hands the outcomes back.

use vstd::prelude::*;

use crate::codes;
use crate::diagnostics::{diagnostic_view, Diagnostic, DiagnosticView, Severity};
use crate::layout::{trim_chars, trimmed};
use crate::text::{append_chars, append_str, chars_of, lit, string_from_chars};

verus! {

/// `name` placed inside directory `dir`, as `Path::join` does for a
/// relative name: no separator is added to an empty directory or to one
/// that already ends in `/`.
pub open spec fn path_join(dir: Seq<char>, name: Seq<char>) -> Seq<char> {
    if dir.len() == 0 {
        name
    } else if dir.last() == '/' {
        dir + name
    } else {
        dir.push('/') + name
    }
}

/// `name` inside `dir` (see [`path_join`]).
pub fn join_path(dir: &str, name: &str) -> (r: String)
    ensures
        r@ == path_join(dir@, name@),
{
    let d = chars_of(dir);
    let mut out = crate::text::copy_chars(&d);
    if d.len() > 0 && d[d.len() - 1] != '/' {
        out.push('/');
    }
    let ghost mid = out@;
    append_str(&mut out, name);
    proof {
        if d@.len() > 0 {
            assert(d@.last() == d@[d@.len() - 1]);
            if d@.last() != '/' {
                assert(mid =~= d@.push('/'));
            } else {
                assert(mid == d@);
            }
        } else {
            assert(d@ + name@ =~= name@);
        }
    }
    string_from_chars(&out)
}

/// Whether a tool name names a path rather than a bare command.
pub open spec fn names_path(t: Seq<char>) -> bool {
    t.contains('/') || t.contains('\\')
}

/// The paths to probe, in order, for the (trimmed) tool name `t`: the name
/// itself when it names a path, else the name inside each search directory.
pub open spec fn tool_candidate_paths(t: Seq<char>, dirs: Seq<Seq<char>>) -> Seq<Seq<char>> {
    if names_path(t) {
        seq![t]
    } else {
        dirs.map_values(|d: Seq<char>| path_join(d, t))
    }
}

/// How launching a found tool with `--version` ended.
#[derive(Debug, Clone, PartialEq, Eq)]
pub enum ToolLaunch {
    /// The tool ran and exited, with success or not; its exit status as
    /// text.
    Exited { success: bool, status: String },
    /// The tool could not be executed; the error as text.
    Failed(String),
}

/// A tool diagnostic: an error with no location.
pub open spec fn tool_diagnostic(code: Seq<char>, message: Seq<char>, next_action: Seq<char>) -> DiagnosticView {
    DiagnosticView {
        code,
        severity: Severity::Error,
        location: None,
        message,
        next_action,
        ordinal: 0,
    }
}

/// The index of the first `true`, if any.
pub open spec fn first_true(s: Seq<bool>) -> Option<int>
    decreases s.len(),
{
    if s.len() == 0 {
        None
    } else {
        match first_true(s.drop_last()) {
            Some(i) => Some(i),
            None => if s.last() {
                Some(s.len() - 1)
            } else {
                None
            },
        }
    }
}

/// Whether a (trimmed) tool name is `deno`, whose failed start is an error.
pub open spec fn is_deno_name(t: Seq<char>) -> bool {
    t == "deno"@ || t == "deno.exe"@
}

/// What launching the tool `t` found at `path` decides.
pub open spec fn launch_result(code: Seq<char>, t: Seq<char>, path: Seq<char>, launch: ToolLaunch) -> Result<
    Seq<char>,
    DiagnosticView,
> {
    match launch {
        ToolLaunch::Exited { success, status } => if is_deno_name(t) && !success {
            Err(
                tool_diagnostic(
                    code,
                    "Required tool '"@ + t + "' at '"@ + path + "' failed to start (exit status: "@
                        + status@ + ")"@,
                    "Ensure '"@ + t + "' is properly installed and functional"@,
                ),
            )
        } else {
            Ok(path)
        },
        ToolLaunch::Failed(e) => Err(
            tool_diagnostic(
                code,
                "Required tool '"@ + t + "' at '"@ + path + "' could not be executed: "@ + e@,
                "Ensure '"@ + t + "' has execute permissions and can run"@,
            ),
        ),
    }
}

/// The resolution of tool `name` over the search directories `dirs`, given
/// which candidates were executable files and how launching the first of
/// them ended: the path of that candidate, or the diagnostic under `code`.
pub open spec fn tool_resolution(
    code: Seq<char>,
    name: Seq<char>,
    dirs: Seq<Seq<char>>,
    executable: Seq<bool>,
    launch: Option<ToolLaunch>,
) -> Result<Seq<char>, DiagnosticView> {
    let t = trimmed(name);
    let cands = tool_candidate_paths(t, dirs);
    if t.len() == 0 {
        Err(tool_diagnostic(code, "Required tool name cannot be empty"@, "Specify a valid tool name"@))
    } else {
        match first_true(executable) {
            Some(i) => launch_result(code, t, cands[i], launch.unwrap()),
            None => if names_path(t) {
                Err(
                    tool_diagnostic(
                        code,
                        "Required tool '"@ + t + "' was not found at specified path"@,
                        "Ensure '"@ + t + "' exists and is executable"@,
                    ),
                )
            } else {
                Err(
                    tool_diagnostic(
                        code,
                        "Required tool '"@ + t + "' was not found on PATH"@,
                        "Ensure '"@ + t + "' is installed and available on PATH"@,
                    ),
                )
            },
        }
    }
}

fn contains_char(s: &Vec<char>, c: char) -> (r: bool)
    ensures
        r == s@.contains(c),
{
    let mut i: usize = 0;
    while i < s.len()
        invariant
            i <= s@.len(),
            forall|k: int| 0 <= k < i ==> s@[k] != c,
        decreases s@.len() - i,
    {
        if s[i] == c {
            assert(s@[i as int] == c);
            return true;
        }
        i = i + 1;
    }
    false
}

/// The paths to probe for `tool_name`, in order (see
/// [`tool_candidate_paths`]); none for an empty name.
pub fn tool_candidates(tool_name: &str, path_dirs: &Vec<String>) -> (r: Vec<String>)
    ensures
        trimmed(tool_name@).len() == 0 ==> r@.len() == 0,
        trimmed(tool_name@).len() > 0 ==> crate::pages::texts(r@) == tool_candidate_paths(
            trimmed(tool_name@),
            crate::pages::texts(path_dirs@),
        ),
{
    let t = trim_chars(&chars_of(tool_name));
    let mut out: Vec<String> = Vec::new();
    if t.len() == 0 {
        return out;
    }
    let ts = string_from_chars(&t);
    if contains_char(&t, '/') || contains_char(&t, '\\') {
        out.push(ts);
        assert(crate::pages::texts(out@) =~= seq![t@]);
        return out;
    }
    let ghost dirs = crate::pages::texts(path_dirs@);
    let mut i: usize = 0;
    while i < path_dirs.len()
        invariant
            i <= path_dirs@.len(),
            ts@ == t@,
            dirs == crate::pages::texts(path_dirs@),
            crate::pages::texts(out@) == dirs.take(i as int).map_values(|d: Seq<char>| path_join(d, t@)),
        decreases path_dirs@.len() - i,
    {
        let ghost before = crate::pages::texts(out@);
        out.push(join_path(path_dirs[i].as_str(), ts.as_str()));
        assert(crate::pages::texts(out@) =~= before.push(path_join(dirs[i as int], t@)));
        assert(dirs.take(i + 1).map_values(|d: Seq<char>| path_join(d, t@)) =~= dirs.take(
            i as int,
        ).map_values(|d: Seq<char>| path_join(d, t@)).push(path_join(dirs[i as int], t@)));
        i = i + 1;
    }
    assert(dirs.take(path_dirs@.len() as int) == dirs);
    out
}

fn first_executable(executable: &Vec<bool>) -> (r: Option<usize>)
    ensures
        match r {
            Some(i) => first_true(executable@) == Some(i as int),
            None => first_true(executable@) is None,
        },
{
    let mut i: usize = 0;
    while i < executable.len()
        invariant
            i <= executable@.len(),
            first_true(executable@.take(i as int)) is None,
        decreases executable@.len() - i,
    {
        assert(executable@.take(i + 1).drop_last() == executable@.take(i as int));
        if executable[i] {
            assert(first_true(executable@.take(i + 1)) == Some(i as int));
            proof {
                lemma_first_true_prefix(executable@, i as int + 1);
            }
            return Some(i);
        }
        i = i + 1;
    }
    assert(executable@.take(executable@.len() as int) == executable@);
    None
}

proof fn lemma_first_true_prefix(s: Seq<bool>, n: int)
    requires
        0 <= n <= s.len(),
        first_true(s.take(n)) is Some,
    ensures
        first_true(s) == first_true(s.take(n)),
    decreases s.len() - n,
{
    if n < s.len() {
        assert(s.take(n + 1).drop_last() == s.take(n));
        lemma_first_true_prefix(s, n + 1);
    } else {
        assert(s.take(n) == s);
    }
}

fn tool_error(code: &'static str, message: &Vec<char>, next_action: &Vec<char>) -> (r: Diagnostic)
    ensures
        diagnostic_view(r) == tool_diagnostic(code@, message@, next_action@),
{
    let m = string_from_chars(message);
    let n = string_from_chars(next_action);
    Diagnostic::new(code, Severity::Error, None, m.as_str(), n.as_str())
}

/// Decides the resolution of tool `tool_name` (see [`tool_resolution`]):
/// `executable[i]` tells whether candidate `i` of [`tool_candidates`] is an
/// executable file, and `launch` how launching the first such candidate
/// with `--version` ended.
pub fn resolve_tool_with(
    code: &'static str,
    tool_name: &str,
    path_dirs: &Vec<String>,
    executable: &Vec<bool>,
    launch: Option<&ToolLaunch>,
) -> (r: Result<String, Diagnostic>)
    requires
        first_true(executable@) is Some ==> launch is Some,
        first_true(executable@) matches Some(i) ==> i < tool_candidate_paths(
            trimmed(tool_name@),
            crate::pages::texts(path_dirs@),
        ).len(),
    ensures
        match (r, tool_resolution(
            code@,
            tool_name@,
            crate::pages::texts(path_dirs@),
            executable@,
            match launch {
                Some(l) => Some(*l),
                None => None,
            },
        )) {
            (Ok(p), Ok(q)) => p@ == q,
            (Err(d), Err(e)) => diagnostic_view(d) == e,
            _ => false,
        },
{
    let t = trim_chars(&chars_of(tool_name));
    if t.len() == 0 {
        return Err(tool_error(code, &lit("Required tool name cannot be empty"), &lit("Specify a valid tool name")));
    }
    match first_executable(executable) {
        Some(i) => {
            let cands = tool_candidates(tool_name, path_dirs);
            let path = chars_of(cands[i].as_str());
            assert(path@ == tool_candidate_paths(t@, crate::pages::texts(path_dirs@))[i as int]);
            let deno = crate::layout::str_is(&t, "deno") || crate::layout::str_is(&t, "deno.exe");
            match launch.unwrap() {
                ToolLaunch::Exited { success, status } => {
                    if deno && !*success {
                        let mut m = lit("Required tool '");
                        append_chars(&mut m, &t);
                        append_str(&mut m, "' at '");
                        append_chars(&mut m, &path);
                        append_str(&mut m, "' failed to start (exit status: ");
                        append_str(&mut m, status.as_str());
                        append_str(&mut m, ")");
                        let mut n = lit("Ensure '");
                        append_chars(&mut n, &t);
                        append_str(&mut n, "' is properly installed and functional");
                        Err(tool_error(code, &m, &n))
                    } else {
                        Ok(string_from_chars(&path))
                    }
                },
                ToolLaunch::Failed(e) => {
                    let mut m = lit("Required tool '");
                    append_chars(&mut m, &t);
                    append_str(&mut m, "' at '");
                    append_chars(&mut m, &path);
                    append_str(&mut m, "' could not be executed: ");
                    append_str(&mut m, e.as_str());
                    let mut n = lit("Ensure '");
                    append_chars(&mut n, &t);
                    append_str(&mut n, "' has execute permissions and can run");
                    Err(tool_error(code, &m, &n))
                },
            }
        },
        None => {
            let mut m = lit("Required tool '");
            append_chars(&mut m, &t);
            let mut n = lit("Ensure '");
            append_chars(&mut n, &t);
            if contains_char(&t, '/') || contains_char(&t, '\\') {
                append_str(&mut m, "' was not found at specified path");
                append_str(&mut n, "' exists and is executable");
            } else {
                append_str(&mut m, "' was not found on PATH");
                append_str(&mut n, "' is installed and available on PATH");
            }
            Err(tool_error(code, &m, &n))
        },
    }
}

} // verus!
