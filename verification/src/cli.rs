//! Command-line argument parsing and the success summaries of each command.

use vstd::prelude::*;

use crate::codes::{CLI_JSON_NOT_SUPPORTED, CLI_USAGE};
use crate::diagnostics::{Diagnostic, Severity};
use crate::text::{append_str, chars_of, str_eq, string_from_chars};

verus! {

/// Subcommands supported by `wda deps`.
#[derive(Debug, Clone, PartialEq, Eq)]
pub enum DepsCommand {
    Add(String),
    Remove(String),
    Update(Option<String>),
}

/// Parsed command-line invocation.
#[derive(Debug, Clone, PartialEq, Eq)]
pub enum Invocation {
    Check,
    Init,
    Deps(DepsCommand),
    Build,
    Version,
    UsageError(Diagnostic),
}

/// What a parse decides, over plain character sequences.
pub enum ParseOutcome {
    Check,
    Init,
    Add(Seq<char>),
    Remove(Seq<char>),
    Update(Option<Seq<char>>),
    Build,
    Version,
    /// `wda.cli.usage` with the given message.
    Usage(Seq<char>),
    /// `wda.cli.json-not-supported`.
    JsonNotSupported,
}

/// Unicode `White_Space` (what `char::is_whitespace` tests, and what
/// `str::trim` strips).
pub open spec fn is_white_space(c: char) -> bool {
    let u = c as u32;
    (0x09 <= u && u <= 0x0d) || u == 0x20 || u == 0x85 || u == 0xa0 || u == 0x1680 || (0x2000 <= u
        && u <= 0x200a) || u == 0x2028 || u == 0x2029 || u == 0x202f || u == 0x205f || u == 0x3000
}

pub fn is_white_space_char(c: char) -> (r: bool)
    ensures
        r == is_white_space(c),
{
    let u = c as u32;
    (0x09 <= u && u <= 0x0d) || u == 0x20 || u == 0x85 || u == 0xa0 || u == 0x1680 || (0x2000 <= u
        && u <= 0x200a) || u == 0x2028 || u == 0x2029 || u == 0x202f || u == 0x205f || u == 0x3000
}

/// Whether `s` is empty once trimmed: all its characters are white space.
pub open spec fn is_blank(s: Seq<char>) -> bool {
    forall|k: int| 0 <= k < s.len() ==> is_white_space(#[trigger] s[k])
}

pub fn is_blank_str(s: &str) -> (r: bool)
    ensures
        r == is_blank(s@),
{
    let cs = chars_of(s);
    let mut i: usize = 0;
    while i < cs.len()
        invariant
            i <= cs.len(),
            cs@ == s@,
            forall|k: int| 0 <= k < i ==> is_white_space(#[trigger] cs@[k]),
        decreases cs.len() - i,
    {
        if !is_white_space_char(cs[i]) {
            return false;
        }
        i = i + 1;
    }
    true
}

pub open spec fn is_command_word(t: Seq<char>) -> bool {
    t == "check"@ || t == "init"@ || t == "deps"@ || t == "build"@ || t == "--version"@
}

/// How `wda deps <rest>` parses.
pub open spec fn deps_outcome(rest: Seq<Seq<char>>) -> ParseOutcome {
    if rest.len() == 0 {
        ParseOutcome::Usage("Missing subcommand for 'deps': expected add, remove, or update"@)
    } else if rest[0] == "add"@ {
        if rest.len() < 2 {
            ParseOutcome::Usage("Missing package specifier for 'deps add'"@)
        } else if is_blank(rest[1]) {
            ParseOutcome::Usage("Package specifier cannot be empty"@)
        } else if rest.len() > 2 {
            ParseOutcome::Usage("Unexpected argument: "@ + rest[2])
        } else {
            ParseOutcome::Add(rest[1])
        }
    } else if rest[0] == "remove"@ {
        if rest.len() < 2 {
            ParseOutcome::Usage("Missing dependency name for 'deps remove'"@)
        } else if is_blank(rest[1]) {
            ParseOutcome::Usage("Dependency name cannot be empty"@)
        } else if rest.len() > 2 {
            ParseOutcome::Usage("Unexpected argument: "@ + rest[2])
        } else {
            ParseOutcome::Remove(rest[1])
        }
    } else if rest[0] == "update"@ {
        if rest.len() == 1 {
            ParseOutcome::Update(None)
        } else if rest.len() == 2 {
            if is_blank(rest[1]) {
                ParseOutcome::Usage("Dependency name filter cannot be empty"@)
            } else {
                ParseOutcome::Update(Some(rest[1]))
            }
        } else {
            ParseOutcome::Usage("Unexpected argument: "@ + rest[2])
        }
    } else {
        ParseOutcome::Usage("Unknown deps subcommand: "@ + rest[0])
    }
}

/// How an argument vector parses. The command is the first argument, or the
/// second when the first is the program name; `--json` anywhere is refused.
pub open spec fn parse_outcome(args: Seq<Seq<char>>) -> ParseOutcome {
    if args.len() == 0 {
        ParseOutcome::Usage("No command or arguments provided"@)
    } else if exists|i: int| 0 <= i < args.len() && args[i] == "--json"@ {
        ParseOutcome::JsonNotSupported
    } else if !is_command_word(args[0]) && !(args.len() > 1 && is_command_word(args[1])) {
        if args.len() > 1 {
            ParseOutcome::Usage("Unknown command or flag: "@ + args[1])
        } else {
            ParseOutcome::Usage("Unknown command or flag: "@ + args[0])
        }
    } else {
        let start: int = if is_command_word(args[0]) {
            1
        } else {
            2
        };
        let cmd = args[start - 1];
        let rest = args.skip(start);
        if cmd != "deps"@ && rest.len() > 0 {
            ParseOutcome::Usage("Unexpected argument: "@ + rest[0])
        } else if cmd == "check"@ {
            ParseOutcome::Check
        } else if cmd == "init"@ {
            ParseOutcome::Init
        } else if cmd == "deps"@ {
            deps_outcome(rest)
        } else if cmd == "build"@ {
            ParseOutcome::Build
        } else {
            ParseOutcome::Version
        }
    }
}

/// The next action every usage error carries.
pub open spec fn usage_action() -> Seq<char> {
    "Run 'wda --version' or check command usage: wda <check|init|deps|build|--version>"@
}

/// The next action of the `--json` refusal.
pub open spec fn json_action() -> Seq<char> {
    "Remove the --json flag and run the command again"@
}

/// Whether `d` is the error diagnostic (no location, no ordinal) with the given
/// code, message and next action.
pub open spec fn is_plain_error(d: Diagnostic, code: &str, message: Seq<char>, action: Seq<char>) -> bool {
    &&& d.code == code
    &&& d.severity == Severity::Error
    &&& d.location is None
    &&& d.message@ == message
    &&& d.next_action@ == action
    &&& d.ordinal == 0
}

/// Whether the invocation `inv` is what the outcome `o` describes.
pub open spec fn invocation_matches(inv: Invocation, o: ParseOutcome) -> bool {
    match o {
        ParseOutcome::Check => inv == Invocation::Check,
        ParseOutcome::Init => inv == Invocation::Init,
        ParseOutcome::Build => inv == Invocation::Build,
        ParseOutcome::Version => inv == Invocation::Version,
        ParseOutcome::Add(s) => inv matches Invocation::Deps(DepsCommand::Add(a)) && a@ == s,
        ParseOutcome::Remove(s) => inv matches Invocation::Deps(DepsCommand::Remove(a)) && a@ == s,
        ParseOutcome::Update(None) => inv matches Invocation::Deps(DepsCommand::Update(None)),
        ParseOutcome::Update(Some(s)) => inv matches Invocation::Deps(DepsCommand::Update(Some(a)))
            && a@ == s,
        ParseOutcome::Usage(m) => inv matches Invocation::UsageError(d) && is_plain_error(
            d,
            CLI_USAGE,
            m,
            usage_action(),
        ),
        ParseOutcome::JsonNotSupported => inv matches Invocation::UsageError(d) && is_plain_error(
            d,
            CLI_JSON_NOT_SUPPORTED,
            "JSON output mode (--json) is not supported"@,
            json_action(),
        ),
    }
}

pub open spec fn arg_views(args: Seq<&str>) -> Seq<Seq<char>> {
    args.map_values(|a: &str| a@)
}

fn make_json_not_supported_error() -> (d: Diagnostic)
    ensures
        is_plain_error(
            d,
            CLI_JSON_NOT_SUPPORTED,
            "JSON output mode (--json) is not supported"@,
            json_action(),
        ),
{
    Diagnostic::new(
        CLI_JSON_NOT_SUPPORTED,
        Severity::Error,
        None,
        "JSON output mode (--json) is not supported",
        "Remove the --json flag and run the command again",
    )
}

fn make_usage_error(message: &str) -> (d: Diagnostic)
    ensures
        is_plain_error(d, CLI_USAGE, message@, usage_action()),
{
    Diagnostic::new(
        CLI_USAGE,
        Severity::Error,
        None,
        message,
        "Run 'wda --version' or check command usage: wda <check|init|deps|build|--version>",
    )
}

fn usage_with(prefix: &str, arg: &str) -> (inv: Invocation)
    ensures
        invocation_matches(inv, ParseOutcome::Usage(prefix@ + arg@)),
{
    let mut m: Vec<char> = Vec::new();
    append_str(&mut m, prefix);
    append_str(&mut m, arg);
    let message = string_from_chars(&m);
    Invocation::UsageError(make_usage_error(message.as_str()))
}

fn is_command(t: &str) -> (r: bool)
    ensures
        r == is_command_word(t@),
{
    str_eq(t, "check") || str_eq(t, "init") || str_eq(t, "deps") || str_eq(t, "build") || str_eq(
        t,
        "--version",
    )
}

fn parse_deps_args(args: &[&str], start: usize) -> (inv: Invocation)
    requires
        start <= args@.len(),
    ensures
        invocation_matches(inv, deps_outcome(arg_views(args@).skip(start as int))),
{
    let ghost v = arg_views(args@).skip(start as int);
    let n = args.len() - start;
    if n == 0 {
        return Invocation::UsageError(
            make_usage_error("Missing subcommand for 'deps': expected add, remove, or update"),
        );
    }
    let sub = args[start];
    assert(v[0] == sub@);
    if n >= 2 {
        assert(v[1] == args[start + 1]@);
    }
    if n >= 3 {
        assert(v[2] == args[start + 2]@);
    }
    if str_eq(sub, "add") {
        if n < 2 {
            Invocation::UsageError(make_usage_error("Missing package specifier for 'deps add'"))
        } else if is_blank_str(args[start + 1]) {
            Invocation::UsageError(make_usage_error("Package specifier cannot be empty"))
        } else if n > 2 {
            usage_with("Unexpected argument: ", args[start + 2])
        } else {
            Invocation::Deps(DepsCommand::Add(args[start + 1].to_owned()))
        }
    } else if str_eq(sub, "remove") {
        if n < 2 {
            Invocation::UsageError(make_usage_error("Missing dependency name for 'deps remove'"))
        } else if is_blank_str(args[start + 1]) {
            Invocation::UsageError(make_usage_error("Dependency name cannot be empty"))
        } else if n > 2 {
            usage_with("Unexpected argument: ", args[start + 2])
        } else {
            Invocation::Deps(DepsCommand::Remove(args[start + 1].to_owned()))
        }
    } else if str_eq(sub, "update") {
        if n == 1 {
            Invocation::Deps(DepsCommand::Update(None))
        } else if n == 2 {
            if is_blank_str(args[start + 1]) {
                Invocation::UsageError(make_usage_error("Dependency name filter cannot be empty"))
            } else {
                Invocation::Deps(DepsCommand::Update(Some(args[start + 1].to_owned())))
            }
        } else {
            usage_with("Unexpected argument: ", args[start + 2])
        }
    } else {
        usage_with("Unknown deps subcommand: ", sub)
    }
}

/// Parses an argument vector into an [`Invocation`] (see [`parse_outcome`]):
/// `check`, `init`, `deps`, `build` and `--version`, optionally behind the
/// program name; anything else is a usage error carrying `wda.cli.usage`, and
/// `--json` anywhere is refused with `wda.cli.json-not-supported`.
pub fn parse_args(args: &[&str]) -> (inv: Invocation)
    ensures
        invocation_matches(inv, parse_outcome(arg_views(args@))),
{
    let ghost v = arg_views(args@);
    if args.len() == 0 {
        return Invocation::UsageError(make_usage_error("No command or arguments provided"));
    }
    let mut i: usize = 0;
    while i < args.len()
        invariant
            i <= args.len(),
            v == arg_views(args@),
            forall|k: int| 0 <= k < i ==> v[k] != "--json"@,
        decreases args.len() - i,
    {
        assert(v[i as int] == args[i as int]@);
        if str_eq(args[i], "--json") {
            return Invocation::UsageError(make_json_not_supported_error());
        }
        i = i + 1;
    }
    assert(!(exists|k: int| 0 <= k < v.len() && v[k] == "--json"@));
    assert(v[0] == args[0]@);
    if args.len() > 1 {
        assert(v[1] == args[1]@);
    }
    let start: usize = if is_command(args[0]) {
        1
    } else if args.len() > 1 && is_command(args[1]) {
        2
    } else if args.len() > 1 {
        return usage_with("Unknown command or flag: ", args[1]);
    } else {
        return usage_with("Unknown command or flag: ", args[0]);
    };
    let cmd = args[start - 1];
    assert(v[start - 1] == cmd@);
    let ghost rest = v.skip(start as int);
    if !str_eq(cmd, "deps") && start < args.len() {
        assert(rest[0] == args[start as int]@);
        return usage_with("Unexpected argument: ", args[start]);
    }
    if str_eq(cmd, "check") {
        Invocation::Check
    } else if str_eq(cmd, "init") {
        Invocation::Init
    } else if str_eq(cmd, "deps") {
        parse_deps_args(args, start)
    } else if str_eq(cmd, "build") {
        Invocation::Build
    } else {
        Invocation::Version
    }
}

/// Renders the success summary of `wda deps`.
pub fn render_deps_summary(command: &DepsCommand) -> (r: String)
    ensures
        r@ == (match command {
            DepsCommand::Add(spec) => "Dependencies updated.\nAdded: "@ + spec@,
            DepsCommand::Remove(name) => "Dependencies updated.\nRemoved: "@ + name@,
            DepsCommand::Update(Some(name)) => "Dependencies updated.\nUpdated: "@ + name@,
            DepsCommand::Update(None) => "Dependencies updated."@,
        }),
{
    let mut out: Vec<char> = Vec::new();
    match command {
        DepsCommand::Add(spec) => {
            append_str(&mut out, "Dependencies updated.\nAdded: ");
            append_str(&mut out, spec.as_str());
        },
        DepsCommand::Remove(name) => {
            append_str(&mut out, "Dependencies updated.\nRemoved: ");
            append_str(&mut out, name.as_str());
        },
        DepsCommand::Update(Some(name)) => {
            append_str(&mut out, "Dependencies updated.\nUpdated: ");
            append_str(&mut out, name.as_str());
        },
        DepsCommand::Update(None) => {
            append_str(&mut out, "Dependencies updated.");
        },
    }
    string_from_chars(&out)
}

/// The accessibility capability-boundary note of the `wda check` summary.
pub const A11Y_SCOPE_NOTE: &'static str = "Note: Automated checks do not guarantee WCAG accessibility compliance. Contextual criteria require manual review.";

/// Renders the success summary of `wda check`, including the accessibility
/// capability-boundary note.
pub fn render_check_summary() -> (r: String)
    ensures
        r@ == "Validation succeeded.\n"@ + A11Y_SCOPE_NOTE@,
{
    let mut out: Vec<char> = Vec::new();
    append_str(&mut out, "Validation succeeded.\n");
    append_str(&mut out, A11Y_SCOPE_NOTE);
    string_from_chars(&out)
}

/// Renders the success summary of `wda init`, naming the design system used
/// and, when there is one, the reason for falling back to it.
pub fn render_init_summary(design_system_name: &str, fallback_reason: Option<&str>) -> (r: String)
    ensures
        r@ == (match fallback_reason {
            Some(reason) => "Project initialized.\nDesign System: "@ + design_system_name@
                + "\nNote: "@ + reason@,
            None => "Project initialized.\nDesign System: "@ + design_system_name@,
        }),
{
    let mut out: Vec<char> = Vec::new();
    append_str(&mut out, "Project initialized.\nDesign System: ");
    append_str(&mut out, design_system_name);
    match fallback_reason {
        Some(reason) => {
            append_str(&mut out, "\nNote: ");
            append_str(&mut out, reason);
        },
        None => {},
    }
    string_from_chars(&out)
}

/// Renders the success summary of `wda build` for the output directory shown
/// as `dist_display` (its absolute path) and whether the output needs HTTP.
pub fn render_build_summary(dist_display: &str, needs_http: bool) -> (r: String)
    ensures
        r@ == "Build succeeded.\nOutput: "@ + dist_display@ + "\n"@ + (if needs_http {
            "HTTP server required; opening via file:// will not work."@
        } else {
            "No known HTTP requirement was detected."@
        }),
{
    let mut out: Vec<char> = Vec::new();
    append_str(&mut out, "Build succeeded.\nOutput: ");
    append_str(&mut out, dist_display);
    append_str(&mut out, "\n");
    if needs_http {
        append_str(&mut out, "HTTP server required; opening via file:// will not work.");
    } else {
        append_str(&mut out, "No known HTTP requirement was detected.");
    }
    string_from_chars(&out)
}

} // verus!
