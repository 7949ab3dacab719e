//! Dependency state for `wda deps`: the staged files, the outcome to commit,
//! the errors, and the canonical `package.json` (its `dependencies` read
//! from parsed JSON, and its text).

use vstd::prelude::*;

use crate::diagnostics::{Diagnostic, ToolFault};
use crate::diagnostics::seq_order;
use crate::json::{
    names_rise, nested_members, parse_json, parsed_json, pretty_json, print_json_pretty, string_members, string_text,
    JsonValue,
};
use crate::pages::string_pairs;
use crate::scripts::{first_member, get_member, member};
use crate::text::{append_str, chars_of, lit, string_from_chars};

verus! {

// ---------------------------------------------------------------------------
// Staged files, outcomes, errors
// ---------------------------------------------------------------------------

/// The files a confined `deno` run left in its staging directory.
#[derive(Debug, Clone, PartialEq, Eq)]
pub struct StagedFiles {
    /// The text of `package.json`.
    pub package_json: String,
    /// The text of `deno.lock`, when `deno` left one.
    pub deno_lock: Option<String>,
}

/// The dependency state to commit to the project root.
#[derive(Debug, Clone, PartialEq, Eq)]
pub enum CommitOutcome {
    /// Dependencies remain: `package.json` and `deno.lock` are replaced.
    NonEmpty { package_json: String, deno_lock: Option<String> },
    /// No dependency remains: both files are deleted.
    Empty,
}

impl CommitOutcome {
    /// A non-empty outcome with both texts.
    pub fn non_empty(package_json: &str, deno_lock: &str) -> (r: Self)
        ensures
            r matches CommitOutcome::NonEmpty { package_json: p, deno_lock: Some(l) } && p@
                == package_json@ && l@ == deno_lock@,
    {
        CommitOutcome::NonEmpty {
            package_json: package_json.to_string(),
            deno_lock: Some(deno_lock.to_string()),
        }
    }

    /// The empty-state outcome.
    pub fn empty() -> (r: Self)
        ensures
            r is Empty,
    {
        CommitOutcome::Empty
    }

    /// Whether this is the empty-state outcome.
    pub fn is_empty(&self) -> (r: bool)
        ensures
            r == (*self is Empty),
    {
        match self {
            CommitOutcome::Empty => true,
            CommitOutcome::NonEmpty { .. } => false,
        }
    }

    /// The staged files of a non-empty outcome.
    pub fn staged_files(&self) -> (r: Option<StagedFiles>)
        ensures
            match *self {
                CommitOutcome::NonEmpty { package_json, deno_lock } => r == Some(
                    StagedFiles { package_json, deno_lock },
                ),
                CommitOutcome::Empty => r is None,
            },
    {
        match self {
            CommitOutcome::NonEmpty { package_json, deno_lock } => Some(
                StagedFiles { package_json: package_json.clone(), deno_lock: deno_lock.clone() },
            ),
            CommitOutcome::Empty => None,
        }
    }

    /// The non-empty outcome that commits `files`.
    pub fn from_staged(files: &StagedFiles) -> (r: Self)
        ensures
            r == (CommitOutcome::NonEmpty {
                package_json: files.package_json,
                deno_lock: files.deno_lock,
            }),
    {
        CommitOutcome::NonEmpty {
            package_json: files.package_json.clone(),
            deno_lock: files.deno_lock.clone(),
        }
    }
}

/// An error of a dependency command.
#[derive(Debug, Clone, PartialEq, Eq)]
pub enum DepsError {
    /// A finding, such as a usage error.
    Diagnostic(Diagnostic),
    /// A tool fault, such as an unreadable file.
    ToolFault(ToolFault),
}

impl DepsError {
    /// The diagnostic, for that variant.
    pub fn diagnostic(&self) -> (r: Option<&Diagnostic>)
        ensures
            match *self {
                DepsError::Diagnostic(d) => r == Some(&d),
                DepsError::ToolFault(_) => r is None,
            },
    {
        match self {
            DepsError::Diagnostic(d) => Some(d),
            DepsError::ToolFault(_) => None,
        }
    }

    /// The tool fault, for that variant.
    pub fn tool_fault(&self) -> (r: Option<&ToolFault>)
        ensures
            match *self {
                DepsError::ToolFault(f) => r == Some(&f),
                DepsError::Diagnostic(_) => r is None,
            },
    {
        match self {
            DepsError::ToolFault(f) => Some(f),
            DepsError::Diagnostic(_) => None,
        }
    }

    /// The error as one line: the rendered diagnostic or tool fault.
    pub fn to_display_string(&self) -> (r: String)
        ensures
            r@ == match *self {
                DepsError::Diagnostic(d) => crate::diagnostics::rendered(d),
                DepsError::ToolFault(f) => crate::diagnostics::rendered_fault(f),
            },
    {
        match self {
            DepsError::Diagnostic(d) => crate::diagnostics::render(d),
            DepsError::ToolFault(f) => crate::diagnostics::render_fault(f),
        }
    }
}

// ---------------------------------------------------------------------------
// Reading `package.json`
// ---------------------------------------------------------------------------

/// What reading `package.json` found.
#[derive(Debug, PartialEq, Eq)]
pub enum ManifestSource {
    /// There is no such file.
    Absent,
    /// The file could not be read; the error as text.
    Unreadable(String),
    /// The file's text parsed as JSON, or the parser's error as text.
    Parsed(Result<JsonValue, String>),
}

/// A tool fault with this message and path.
pub open spec fn fault_is(f: ToolFault, message: Seq<char>, path: Option<Seq<char>>) -> bool {
    &&& f.message@ == message
    &&& match (f.path, path) {
        (Some(p), Some(q)) => p@ == q,
        (None, None) => true,
        _ => false,
    }
}

/// A sorted map of names to versions (as pairs) with `name` set to
/// `version` (`BTreeMap::insert`).
pub open spec fn entry_put(m: Seq<(Seq<char>, Seq<char>)>, name: Seq<char>, version: Seq<char>) -> Seq<
    (Seq<char>, Seq<char>),
>
    decreases m.len(),
{
    if m.len() == 0 {
        seq![(name, version)]
    } else if seq_order(m.last().0, name) == 0 {
        m.drop_last().push((name, version))
    } else if seq_order(m.last().0, name) < 0 {
        m.push((name, version))
    } else {
        entry_put(m.drop_last(), name, version).push(m.last())
    }
}

/// The name of the first member whose value is not a string.
pub open spec fn first_non_string(members: Seq<(String, JsonValue)>) -> Option<Seq<char>>
    decreases members.len(),
{
    if members.len() == 0 {
        None
    } else if !(members[0].1 is String) {
        Some(members[0].0@)
    } else {
        first_non_string(members.drop_first())
    }
}

/// The map that the string-valued members build, in member order.
pub open spec fn version_map(members: Seq<(String, JsonValue)>) -> Seq<(Seq<char>, Seq<char>)>
    decreases members.len(),
{
    if members.len() == 0 {
        seq![]
    } else {
        let prev = version_map(members.drop_last());
        match members.last().1 {
            JsonValue::String(v) => entry_put(prev, members.last().0@, v@),
            _ => prev,
        }
    }
}

/// What reading `package.json` at `path` gives: its `dependencies` as a
/// sorted map, empty when the file or the key is absent; or the fault
/// message.
pub open spec fn manifest_reading(path: Seq<char>, source: ManifestSource) -> Result<
    Seq<(Seq<char>, Seq<char>)>,
    Seq<char>,
> {
    match source {
        ManifestSource::Absent => Ok(seq![]),
        ManifestSource::Unreadable(e) => Err(
            "Failed to read package.json at "@ + path + ": "@ + e@,
        ),
        ManifestSource::Parsed(Err(e)) => Err("Failed to parse package.json at "@ + path + ": "@ + e@),
        ManifestSource::Parsed(Ok(v)) => match v {
            JsonValue::Object(_) => match member(v, "dependencies"@) {
                None => Ok(seq![]),
                Some(JsonValue::Object(ms)) => match first_non_string(ms@) {
                    Some(k) => Err(
                        "Invalid dependency version for '"@ + k + "' in "@ + path
                            + ": value must be a string"@,
                    ),
                    None => Ok(version_map(ms@)),
                },
                Some(_) => Err(
                    "Invalid package.json at "@ + path + ": 'dependencies' must be an object"@,
                ),
            },
            _ => Err("Invalid package.json at "@ + path + ": root must be an object"@),
        },
    }
}

fn fault_at(message: &Vec<char>, path: &str) -> (r: ToolFault)
    ensures
        fault_is(r, message@, Some(path@)),
{
    let m = string_from_chars(message);
    ToolFault::new(m.as_str(), Some(path))
}

proof fn lemma_entry_put_at(m: Seq<(Seq<char>, Seq<char>)>, name: Seq<char>, version: Seq<char>, j: int)
    requires
        0 <= j <= m.len(),
        j == 0 || seq_order(m[j - 1].0, name) <= 0,
        forall|i: int| j <= i < m.len() ==> seq_order(#[trigger] m[i].0, name) > 0,
    ensures
        j > 0 && seq_order(m[j - 1].0, name) == 0 ==> entry_put(m, name, version) == m.update(
            j - 1,
            (name, version),
        ),
        !(j > 0 && seq_order(m[j - 1].0, name) == 0) ==> entry_put(m, name, version) == m.insert(
            j,
            (name, version),
        ),
    decreases m.len(),
{
    if m.len() == 0 {
        assert(m.insert(j, (name, version)) =~= seq![(name, version)]);
    } else if j == m.len() {
        if seq_order(m[j - 1].0, name) == 0 {
            assert(m.drop_last().push((name, version)) =~= m.update(j - 1, (name, version)));
        } else {
            assert(m.insert(j, (name, version)) =~= m.push((name, version)));
        }
    } else {
        let t = m.drop_last();
        assert forall|i: int| j <= i < t.len() implies seq_order(#[trigger] t[i].0, name) > 0 by {
            assert(t[i] == m[i]);
        }
        assert(seq_order(m.last().0, name) > 0) by {
            assert(m.last() == m[m.len() - 1]);
        }
        if j > 0 {
            assert(t[j - 1] == m[j - 1]);
        }
        lemma_entry_put_at(t, name, version, j);
        assert(t.insert(j, (name, version)).push(m.last()) =~= m.insert(j, (name, version)));
        if j > 0 {
            assert(t.update(j - 1, (name, version)).push(m.last()) =~= m.update(j - 1, (name, version)));
        }
    }
}

fn put_entry(m: &mut Vec<(Vec<char>, Vec<char>)>, name: Vec<char>, version: Vec<char>)
    ensures
        crate::entries::pair_views(final(m)@) == entry_put(
            crate::entries::pair_views(old(m)@),
            name@,
            version@,
        ),
{
    let ghost nv = name@;
    let ghost vv = version@;
    let mut j: usize = m.len();
    while j > 0 && crate::diagnostics::compare_chars(&m[j - 1].0, &name) > 0
        invariant
            j <= m@.len(),
            nv == name@,
            forall|i: int| j <= i < m@.len() ==> seq_order(#[trigger] crate::entries::pair_views(m@)[i].0, nv) > 0,
        decreases j,
    {
        assert(crate::entries::pair_views(m@)[j - 1] == (m@[j - 1].0@, m@[j - 1].1@));
        j = j - 1;
    }
    if j > 0 {
        assert(crate::entries::pair_views(m@)[j - 1] == (m@[j - 1].0@, m@[j - 1].1@));
    }
    proof {
        lemma_entry_put_at(crate::entries::pair_views(m@), nv, vv, j as int);
    }
    let ghost before = crate::entries::pair_views(m@);
    if j > 0 && crate::diagnostics::compare_chars(&m[j - 1].0, &name) == 0 {
        m.set(j - 1, (name, version));
        assert(crate::entries::pair_views(m@) =~= before.update(j - 1, (nv, vv)));
        return;
    }
    m.insert(j, (name, version));
    assert(crate::entries::pair_views(m@) =~= before.insert(j as int, (nv, vv)));
}

fn pair_strings(m: &Vec<(Vec<char>, Vec<char>)>) -> (r: Vec<(String, String)>)
    ensures
        string_pairs(r@) == crate::entries::pair_views(m@),
{
    let mut out: Vec<(String, String)> = Vec::new();
    let mut i: usize = 0;
    while i < m.len()
        invariant
            i <= m@.len(),
            string_pairs(out@) == crate::entries::pair_views(m@).take(i as int),
        decreases m@.len() - i,
    {
        let ghost before = string_pairs(out@);
        out.push((string_from_chars(&m[i].0), string_from_chars(&m[i].1)));
        assert(string_pairs(out@) =~= before.push((m@[i as int].0@, m@[i as int].1@)));
        assert(crate::entries::pair_views(m@).take(i + 1) =~= crate::entries::pair_views(m@).take(
            i as int,
        ).push((m@[i as int].0@, m@[i as int].1@)));
        i = i + 1;
    }
    assert(crate::entries::pair_views(m@).take(m@.len() as int) == crate::entries::pair_views(m@));
    out
}

fn versions_of(members: &Vec<(String, JsonValue)>, path: &str) -> (r: Result<Vec<(String, String)>, ToolFault>)
    ensures
        match (r, first_non_string(members@)) {
            (Ok(m), None) => string_pairs(m@) == version_map(members@),
            (Err(f), Some(k)) => fault_is(
                f,
                "Invalid dependency version for '"@ + k + "' in "@ + path@ + ": value must be a string"@,
                Some(path@),
            ),
            _ => false,
        },
{
    let mut acc: Vec<(Vec<char>, Vec<char>)> = Vec::new();
    assert(crate::entries::pair_views(acc@) =~= seq![]);
    let mut i: usize = 0;
    assert(members@.skip(0) == members@);
    while i < members.len()
        invariant
            i <= members@.len(),
            first_non_string(members@.skip(i as int)) == first_non_string(members@),
            first_non_string(members@.take(i as int)) is None,
            crate::entries::pair_views(acc@) == version_map(members@.take(i as int)),
        decreases members@.len() - i,
    {
        assert(members@.skip(i as int)[0] == members@[i as int]);
        assert(members@.skip(i as int).drop_first() == members@.skip(i + 1));
        assert(members@.take(i + 1).drop_last() == members@.take(i as int));
        assert(members@.take(i + 1).last() == members@[i as int]);
        match &members[i].1 {
            JsonValue::String(v) => {
                put_entry(&mut acc, chars_of(members[i].0.as_str()), chars_of(v.as_str()));
                proof {
                    lemma_first_non_string_push(members@.take(i as int), members@[i as int]);
                    assert(members@.take(i + 1) =~= members@.take(i as int).push(members@[i as int]));
                }
            },
            _ => {
                let mut m = lit("Invalid dependency version for '");
                append_str(&mut m, members[i].0.as_str());
                append_str(&mut m, "' in ");
                append_str(&mut m, path);
                append_str(&mut m, ": value must be a string");
                return Err(fault_at(&m, path));
            },
        }
        i = i + 1;
    }
    assert(members@.take(members@.len() as int) == members@);
    Ok(pair_strings(&acc))
}

proof fn lemma_first_non_string_push(s: Seq<(String, JsonValue)>, x: (String, JsonValue))
    requires
        first_non_string(s) is None,
        x.1 is String,
    ensures
        first_non_string(s.push(x)) is None,
    decreases s.len(),
{
    let t = s.push(x);
    if s.len() > 0 {
        assert(t[0] == s[0]);
        assert(s[0].1 is String);
        assert(t.drop_first() =~= s.drop_first().push(x));
        lemma_first_non_string_push(s.drop_first(), x);
        assert(first_non_string(t.drop_first()) is None);
        assert(t.len() > 0);
        assert(first_non_string(t) == first_non_string(t.drop_first()));
    } else {
        assert(t[0] == x);
        assert(t.drop_first() =~= seq![]);
        assert(first_non_string(t.drop_first()) is None);
    }
}

/// Reads the `dependencies` of `package.json` at `manifest_path` from what
/// reading the file found (see [`manifest_reading`]): empty when the file
/// or the key is absent, else the string-valued members as a sorted map; a
/// fault naming the path otherwise.
pub fn read_manifest(manifest_path: &str, source: &ManifestSource) -> (r: Result<Vec<(String, String)>, ToolFault>)
    ensures
        match (r, manifest_reading(manifest_path@, *source)) {
            (Ok(m), Ok(n)) => string_pairs(m@) == n,
            (Err(f), Err(msg)) => fault_is(f, msg, Some(manifest_path@)),
            _ => false,
        },
{
    match source {
        ManifestSource::Absent => {
            let out: Vec<(String, String)> = Vec::new();
            assert(string_pairs(out@) =~= seq![]);
            Ok(out)
        },
        ManifestSource::Unreadable(e) => {
            let mut m = lit("Failed to read package.json at ");
            append_str(&mut m, manifest_path);
            append_str(&mut m, ": ");
            append_str(&mut m, e.as_str());
            Err(fault_at(&m, manifest_path))
        },
        ManifestSource::Parsed(Err(e)) => {
            let mut m = lit("Failed to parse package.json at ");
            append_str(&mut m, manifest_path);
            append_str(&mut m, ": ");
            append_str(&mut m, e.as_str());
            Err(fault_at(&m, manifest_path))
        },
        ManifestSource::Parsed(Ok(v)) => {
            match v {
                JsonValue::Object(_) => {},
                _ => {
                    let mut m = lit("Invalid package.json at ");
                    append_str(&mut m, manifest_path);
                    append_str(&mut m, ": root must be an object");
                    return Err(fault_at(&m, manifest_path));
                },
            }
            match get_member(v, "dependencies") {
                None => {
                    let out: Vec<(String, String)> = Vec::new();
                    assert(string_pairs(out@) =~= seq![]);
                    Ok(out)
                },
                Some(JsonValue::Object(ms)) => versions_of(ms, manifest_path),
                Some(_) => {
                    let mut m = lit("Invalid package.json at ");
                    append_str(&mut m, manifest_path);
                    append_str(&mut m, ": 'dependencies' must be an object");
                    Err(fault_at(&m, manifest_path))
                },
            }
        },
    }
}

/// Reads the dependencies of `package.json`: [`read_manifest`].
pub fn read_dependencies(manifest_path: &str, source: &ManifestSource) -> (r: Result<Vec<(String, String)>, ToolFault>)
    ensures
        match (r, manifest_reading(manifest_path@, *source)) {
            (Ok(m), Ok(n)) => string_pairs(m@) == n,
            (Err(f), Err(msg)) => fault_is(f, msg, Some(manifest_path@)),
            _ => false,
        },
{
    read_manifest(manifest_path, source)
}

// ---------------------------------------------------------------------------
// Writing `package.json`
// ---------------------------------------------------------------------------

/// `v` is the manifest object `{"dependencies": {name: version, ...}}` of
/// `entries`, members in the order of `entries`.
pub open spec fn is_manifest_value(v: JsonValue, entries: Seq<(Seq<char>, Seq<char>)>) -> bool {
    match v {
        JsonValue::Object(top) => {
            &&& top@.len() == 1
            &&& top@[0].0@ == "dependencies"@
            &&& match top@[0].1 {
                JsonValue::Object(ds) => {
                    &&& ds@.len() == entries.len()
                    &&& forall|i: int|
                        0 <= i < entries.len() ==> (#[trigger] ds@[i]).0@ == entries[i].0 && (ds@[i].1 matches JsonValue::String(
                            t,
                        ) && t@ == entries[i].1)
                },
                _ => false,
            }
        },
        _ => false,
    }
}

/// A sorted map as pairs: its names rise strictly.
pub open spec fn entries_rise(entries: Seq<(Seq<char>, Seq<char>)>) -> bool {
    names_rise(entries.map_values(|e: (Seq<char>, Seq<char>)| e.0))
}

/// Reading `package.json` back from the text `s`, at any path, gives
/// `entries`.
pub open spec fn reads_back(s: Seq<char>, entries: Seq<(Seq<char>, Seq<char>)>) -> bool {
    parsed_json(s) matches Ok(w) && forall|path: Seq<char>|
        #[trigger] manifest_reading(path, ManifestSource::Parsed(Ok::<JsonValue, String>(w))) == Ok::<
            Seq<(Seq<char>, Seq<char>)>,
            Seq<char>,
        >(entries)
}

proof fn lemma_manifest_nested(v: JsonValue, entries: Seq<(Seq<char>, Seq<char>)>)
    requires
        is_manifest_value(v, entries),
        entries_rise(entries),
    ensures
        nested_members(v) == Some(seq![("dependencies"@, entries)]),
{
    let top = v->Object_0;
    let ds = top@[0].1->Object_0;
    let dn = ds@.map_values(|m: (String, JsonValue)| m.0@);
    assert forall|i: int, j: int| 0 <= i < j < dn.len() implies seq_order(#[trigger] dn[i], #[trigger] dn[j]) < 0 by {
        assert(dn[i] == entries.map_values(|e: (Seq<char>, Seq<char>)| e.0)[i]);
        assert(dn[j] == entries.map_values(|e: (Seq<char>, Seq<char>)| e.0)[j]);
    }
    assert(ds@.map_values(|m: (String, JsonValue)| (m.0@, string_text(m.1))) =~= entries);
    assert(string_members(top@[0].1) == Some(entries));
    let tn = top@.map_values(|m: (String, JsonValue)| m.0@);
    assert(names_rise(tn));
    assert(top@.map_values(|m: (String, JsonValue)| (m.0@, string_members(m.1).unwrap())) =~= seq![
        ("dependencies"@, entries),
    ]);
}

proof fn lemma_no_non_string(ms: Seq<(String, JsonValue)>)
    requires
        forall|i: int| 0 <= i < ms.len() ==> (#[trigger] ms[i]).1 is String,
    ensures
        first_non_string(ms) is None,
    decreases ms.len(),
{
    if ms.len() > 0 {
        assert forall|i: int| 0 <= i < ms.drop_first().len() implies (#[trigger] ms.drop_first()[i]).1 is String by {
            assert(ms.drop_first()[i] == ms[i + 1]);
        }
        lemma_no_non_string(ms.drop_first());
    }
}

proof fn lemma_version_map_rising(ms: Seq<(String, JsonValue)>)
    requires
        forall|i: int| 0 <= i < ms.len() ==> (#[trigger] ms[i]).1 is String,
        names_rise(ms.map_values(|m: (String, JsonValue)| m.0@)),
    ensures
        version_map(ms) == ms.map_values(|m: (String, JsonValue)| (m.0@, string_text(m.1))),
    decreases ms.len(),
{
    if ms.len() > 0 {
        let p = ms.drop_last();
        let names = ms.map_values(|m: (String, JsonValue)| m.0@);
        assert forall|i: int| 0 <= i < p.len() implies (#[trigger] p[i]).1 is String by {
            assert(p[i] == ms[i]);
        }
        assert(p.map_values(|m: (String, JsonValue)| m.0@) =~= names.drop_last());
        assert forall|i: int, j: int| 0 <= i < j < names.drop_last().len() implies seq_order(
            #[trigger] names.drop_last()[i],
            #[trigger] names.drop_last()[j],
        ) < 0 by {
            assert(names[i] == names.drop_last()[i]);
            assert(names[j] == names.drop_last()[j]);
        }
        lemma_version_map_rising(p);
        let prev = version_map(p);
        let last = ms.last();
        assert(ms[ms.len() - 1].1 is String);
        if p.len() > 0 {
            assert(prev.last() == (p.last().0@, string_text(p.last().1)));
            assert(names[ms.len() - 2] == p.last().0@);
            assert(names[ms.len() - 1] == last.0@);
            assert(seq_order(names[ms.len() - 2], names[ms.len() - 1]) < 0);
        }
        assert(ms.map_values(|m: (String, JsonValue)| (m.0@, string_text(m.1))) =~= p.map_values(
            |m: (String, JsonValue)| (m.0@, string_text(m.1)),
        ).push((last.0@, string_text(last.1))));
    }
}

/// What `package.json` holding `w` reads as, when `w` is a manifest object
/// of rising entries.
proof fn lemma_read_back(w: JsonValue, entries: Seq<(Seq<char>, Seq<char>)>)
    requires
        nested_members(w) == Some(seq![("dependencies"@, entries)]),
    ensures
        forall|path: Seq<char>|
            #[trigger] manifest_reading(path, ManifestSource::Parsed(Ok::<JsonValue, String>(w))) == Ok::<
                Seq<(Seq<char>, Seq<char>)>,
                Seq<char>,
            >(entries),
{
    let top = w->Object_0;
    let tm = top@.map_values(|m: (String, JsonValue)| (m.0@, string_members(m.1).unwrap()));
    assert(tm == seq![("dependencies"@, entries)]);
    assert(tm.len() == 1);
    assert(tm[0] == ("dependencies"@, entries));
    assert(string_members(top@[0].1) is Some);
    assert(first_member(top@, "dependencies"@) == Some(top@[0].1));
    let u = top@[0].1;
    let ms = u->Object_0;
    assert(string_members(u) == Some(entries));
    lemma_no_non_string(ms@);
    lemma_version_map_rising(ms@);
}

/// The manifest object of `dependencies` (see [`is_manifest_value`]).
pub fn manifest_value(dependencies: &Vec<(String, String)>) -> (v: JsonValue)
    ensures
        is_manifest_value(v, string_pairs(dependencies@)),
{
    let mut ds: Vec<(String, JsonValue)> = Vec::new();
    let mut i: usize = 0;
    while i < dependencies.len()
        invariant
            i <= dependencies@.len(),
            ds@.len() == i,
            forall|k: int|
                0 <= k < i ==> (#[trigger] ds@[k]).0@ == dependencies@[k].0@ && (ds@[k].1 matches JsonValue::String(t)
                    && t@ == dependencies@[k].1@),
        decreases dependencies@.len() - i,
    {
        let name = dependencies[i].0.clone();
        let version = dependencies[i].1.clone();
        ds.push((name, JsonValue::String(version)));
        i = i + 1;
    }
    let mut top: Vec<(String, JsonValue)> = Vec::new();
    top.push(("dependencies".to_string(), JsonValue::Object(ds)));
    proof {
        reveal_strlit("dependencies");
    }
    JsonValue::Object(top)
}

/// The manifest text from the rendered JSON: the JSON and a final newline,
/// or the fault for a rendering error.
pub fn manifest_text(rendered: Result<String, String>) -> (r: Result<String, ToolFault>)
    ensures
        match (r, rendered) {
            (Ok(s), Ok(t)) => s@ == t@ + "\n"@,
            (Err(f), Err(e)) => fault_is(f, "Failed to format manifest JSON: "@ + e@, None),
            _ => false,
        },
{
    match rendered {
        Ok(t) => {
            let mut m = chars_of(t.as_str());
            append_str(&mut m, "\n");
            Ok(string_from_chars(&m))
        },
        Err(e) => {
            let mut m = lit("Failed to format manifest JSON: ");
            append_str(&mut m, e.as_str());
            let s = string_from_chars(&m);
            Err(ToolFault::new(s.as_str(), None))
        },
    }
}

/// The canonical `package.json` text for `dependencies` (a sorted map, as
/// pairs): only the `dependencies` key, pretty-printed, with a final
/// newline. Read back, the text gives the same map.
pub fn serialize_manifest(dependencies: &Vec<(String, String)>) -> (r: Result<String, ToolFault>)
    ensures
        exists|v: JsonValue|
            #[trigger] is_manifest_value(v, string_pairs(dependencies@)) && match (r, pretty_json(v)) {
                (Ok(s), Ok(t)) => s@ == t + "\n"@,
                (Err(f), Err(e)) => fault_is(f, "Failed to format manifest JSON: "@ + e, None),
                _ => false,
            },
        entries_rise(string_pairs(dependencies@)) ==> (r matches Ok(s) && reads_back(s@, string_pairs(dependencies@))),
{
    let ghost entries = string_pairs(dependencies@);
    let v = manifest_value(dependencies);
    proof {
        if entries_rise(entries) {
            lemma_manifest_nested(v, entries);
        }
    }
    let printed = print_json_pretty(&v);
    proof {
        if entries_rise(entries) {
            let t = printed->Ok_0;
            let w = parsed_json(t@ + "\n"@)->Ok_0;
            lemma_read_back(w, entries);
        }
    }
    let r = manifest_text(printed);
    assert(is_manifest_value(v, string_pairs(dependencies@)));
    r
}

/// The canonical manifest text: [`serialize_manifest`].
pub fn serialize_dependencies(dependencies: &Vec<(String, String)>) -> (r: Result<String, ToolFault>)
    ensures
        exists|v: JsonValue|
            #[trigger] is_manifest_value(v, string_pairs(dependencies@)) && match (r, pretty_json(v)) {
                (Ok(s), Ok(t)) => s@ == t + "\n"@,
                (Err(f), Err(e)) => fault_is(f, "Failed to format manifest JSON: "@ + e, None),
                _ => false,
            },        entries_rise(string_pairs(dependencies@)) ==> (r matches Ok(s) && reads_back(s@, string_pairs(dependencies@))),
{
    serialize_manifest(dependencies)
}

/// The text that writing `dependencies` puts into `package.json`: the
/// canonical manifest text; the caller writes it to the file. Reading the
/// file back gives the same map.
pub fn write_dependencies(dependencies: &Vec<(String, String)>) -> (r: Result<String, ToolFault>)
    ensures
        exists|v: JsonValue|
            #[trigger] is_manifest_value(v, string_pairs(dependencies@)) && match (r, pretty_json(v)) {
                (Ok(s), Ok(t)) => s@ == t + "\n"@,
                (Err(f), Err(e)) => fault_is(f, "Failed to format manifest JSON: "@ + e, None),
                _ => false,
            },        entries_rise(string_pairs(dependencies@)) ==> (r matches Ok(s) && reads_back(s@, string_pairs(dependencies@))),
{
    serialize_manifest(dependencies)
}

// ---------------------------------------------------------------------------
// The staged manifest
// ---------------------------------------------------------------------------

/// Whether a staged `package.json` (parsed) declares no dependency: true
/// when the key is absent or an empty object, false for any other value;
/// the fault message when it is not JSON or not an object.
pub open spec fn staged_emptiness(parsed: Result<JsonValue, String>) -> Result<bool, Seq<char>> {
    match parsed {
        Err(e) => Err("Failed to parse staged package.json: "@ + e@),
        Ok(v) => match v {
            JsonValue::Object(_) => match member(v, "dependencies"@) {
                None => Ok(true),
                Some(JsonValue::Object(ms)) => Ok(ms@.len() == 0),
                Some(_) => Ok(false),
            },
            _ => Err("Invalid staged package.json: root must be an object"@),
        },
    }
}

/// Decides whether the staged `package.json` declares no dependency (see
/// [`staged_emptiness`]).
pub fn is_staged_dependencies_empty(parsed: &Result<JsonValue, String>) -> (r: Result<bool, ToolFault>)
    ensures
        match (r, staged_emptiness(*parsed)) {
            (Ok(b), Ok(c)) => b == c,
            (Err(f), Err(m)) => fault_is(f, m, None),
            _ => false,
        },
{
    match parsed {
        Err(e) => {
            let mut m = lit("Failed to parse staged package.json: ");
            append_str(&mut m, e.as_str());
            let s = string_from_chars(&m);
            Err(ToolFault::new(s.as_str(), None))
        },
        Ok(v) => {
            match v {
                JsonValue::Object(_) => {},
                _ => {
                    return Err(ToolFault::new("Invalid staged package.json: root must be an object", None));
                },
            }
            match get_member(v, "dependencies") {
                None => Ok(true),
                Some(JsonValue::Object(ms)) => Ok(ms.len() == 0),
                Some(_) => Ok(false),
            }
        },
    }
}


// ---------------------------------------------------------------------------
// The decisions of `add`, `remove` and `update` before `deno` runs
// ---------------------------------------------------------------------------

/// A tool fault with this message and path, as a dependency error.
pub open spec fn is_fault(e: DepsError, message: Seq<char>, path: Option<Seq<char>>) -> bool {
    e matches DepsError::ToolFault(f) && fault_is(f, message, path)
}

/// A diagnostic error without location under `code`, as a dependency error.
pub open spec fn is_finding(e: DepsError, code: Seq<char>, message: Seq<char>, next_action: Seq<char>) -> bool {
    e matches DepsError::Diagnostic(d) && crate::diagnostics::diagnostic_view(d)
        == crate::tools::tool_diagnostic(code, message, next_action)
}

/// The manifest path of a project root.
pub open spec fn manifest_path(root: Seq<char>) -> Seq<char> {
    crate::tools::path_join(root, "package.json"@)
}

/// Whether a sorted map (as pairs) has the key.
pub open spec fn has_key(m: Seq<(Seq<char>, Seq<char>)>, k: Seq<char>) -> bool {
    exists|i: int| 0 <= i < m.len() && (#[trigger] m[i]).0 == k
}

/// The next action that the usage errors of `remove` and `update` share.
pub open spec fn inspect_graph() -> Seq<char> {
    "Run 'wda deps' to inspect the current dependency graph"@
}

fn root_fault(root: &str) -> (r: DepsError)
    ensures
        is_fault(r, "Project root directory not found: "@ + root@, Some(root@)),
{
    let mut m = lit("Project root directory not found: ");
    append_str(&mut m, root);
    DepsError::ToolFault(fault_at(&m, root))
}

fn finding(code: &'static str, message: &Vec<char>, next_action: &str) -> (r: DepsError)
    ensures
        is_finding(r, code@, message@, next_action@),
{
    let m = string_from_chars(message);
    DepsError::Diagnostic(
        Diagnostic::new(code, crate::diagnostics::Severity::Error, None, m.as_str(), next_action),
    )
}

fn args_of(a: &str, b: &str, c: &Vec<char>) -> (r: Vec<String>)
    ensures
        crate::pages::texts(r@) == seq![a@, b@, c@],
{
    let mut v: Vec<String> = Vec::new();
    v.push(a.to_string());
    v.push(b.to_string());
    v.push(string_from_chars(c));
    assert(crate::pages::texts(v@) =~= seq![a@, b@, c@]);
    v
}

fn key_present(m: &Vec<(String, String)>, k: &Vec<char>) -> (r: bool)
    ensures
        r == has_key(string_pairs(m@), k@),
{
    let mut i: usize = 0;
    while i < m.len()
        invariant
            i <= m@.len(),
            forall|j: int| 0 <= j < i ==> (#[trigger] string_pairs(m@)[j]).0 != k@,
        decreases m@.len() - i,
    {
        let key = chars_of(m[i].0.as_str());
        assert(string_pairs(m@)[i as int].0 == m@[i as int].0@);
        if crate::text::chars_eq(&key, k) {
            return true;
        }
        i = i + 1;
    }
    false
}

/// What adding decides before `deno` runs, for the root (a directory or
/// not) and what reading its `package.json` found: the arguments of the
/// staged `deno add`, or the error.
pub open spec fn add_decision(root: Seq<char>, root_is_dir: bool, manifest: ManifestSource, spec: Seq<char>) -> Result<
    Seq<Seq<char>>,
    (Seq<char>, Option<Seq<char>>, Seq<char>),
> {
    if !root_is_dir {
        Err(("Project root directory not found: "@ + root, Some(root), seq![]))
    } else {
        match manifest_reading(manifest_path(root), manifest) {
            Err(m) => Err((m, Some(manifest_path(root)), seq![])),
            Ok(_) => if trimmed_name(spec).len() == 0 {
                Err(
                    (
                        "Dependency specification cannot be empty"@,
                        None,
                        "Specify a valid package name or dependency specifier"@,
                    ),
                )
            } else {
                Ok(seq!["add"@, "--package-json"@, trimmed_name(spec)])
            },
        }
    }
}

pub open spec fn trimmed_name(s: Seq<char>) -> Seq<char> {
    crate::layout::trimmed(s)
}

/// A dependency error matches a decision's error triple (message, path,
/// next action): a triple with a path is a tool fault with that message and
/// path; one without is a finding under `code` with that message and next
/// action.
pub open spec fn error_matches(e: DepsError, code: Seq<char>, err: (Seq<char>, Option<Seq<char>>, Seq<char>)) -> bool {
    if err.1 is Some {
        is_fault(e, err.0, err.1)
    } else {
        is_finding(e, code, err.0, err.2)
    }
}

/// Decides what adding `spec` to the project at `root` does before `deno`
/// runs (see [`add_decision`]): the arguments of the staged `deno add`;
/// a tool fault when the root is not a directory or `package.json` is
/// corrupt; a tool-fault finding for an empty specification.
pub fn add_dependency(root: &str, root_is_dir: bool, manifest: &ManifestSource, spec: &str) -> (r: Result<
    Vec<String>,
    DepsError,
>)
    ensures
        match (r, add_decision(root@, root_is_dir, *manifest, spec@)) {
            (Ok(a), Ok(b)) => crate::pages::texts(a@) == b,
            (Err(e), Err(err)) => error_matches(e, crate::codes::TOOL_FAULT@, err),
            _ => false,
        },
{
    if !root_is_dir {
        return Err(root_fault(root));
    }
    let mp = crate::tools::join_path(root, "package.json");
    match read_manifest(mp.as_str(), manifest) {
        Err(f) => {
            return Err(DepsError::ToolFault(f));
        },
        Ok(_) => {},
    }
    let t = crate::layout::trim_chars(&chars_of(spec));
    if t.len() == 0 {
        return Err(
            finding(
                crate::codes::TOOL_FAULT,
                &lit("Dependency specification cannot be empty"),
                "Specify a valid package name or dependency specifier",
            ),
        );
    }
    Ok(args_of("add", "--package-json", &t))
}

/// Adding a dependency: [`add_dependency`].
pub fn add(root: &str, root_is_dir: bool, manifest: &ManifestSource, spec: &str) -> (r: Result<Vec<String>, DepsError>)
    ensures
        match (r, add_decision(root@, root_is_dir, *manifest, spec@)) {
            (Ok(a), Ok(b)) => crate::pages::texts(a@) == b,
            (Err(e), Err(err)) => error_matches(e, crate::codes::TOOL_FAULT@, err),
            _ => false,
        },
{
    add_dependency(root, root_is_dir, manifest, spec)
}

/// What removing decides before `deno` runs: the arguments of the staged
/// `deno remove`, or the error. An empty name and an undeclared name are
/// usage errors, found before and after reading `package.json`.
pub open spec fn remove_decision(root: Seq<char>, root_is_dir: bool, manifest: ManifestSource, name: Seq<char>) -> Result<
    Seq<Seq<char>>,
    (Seq<char>, Option<Seq<char>>, Seq<char>),
> {
    let t = trimmed_name(name);
    if !root_is_dir {
        Err(("Project root directory not found: "@ + root, Some(root), seq![]))
    } else if t.len() == 0 {
        Err(("Dependency name cannot be empty"@, None, inspect_graph()))
    } else {
        match manifest_reading(manifest_path(root), manifest) {
            Err(m) => Err((m, Some(manifest_path(root)), seq![])),
            Ok(deps) => if !has_key(deps, t) {
                Err(("Dependency '"@ + t + "' is not declared in package.json"@, None, inspect_graph()))
            } else {
                Ok(seq!["remove"@, "--package-json"@, t])
            },
        }
    }
}

/// Decides what removing `name` from the project at `root` does before
/// `deno` runs (see [`remove_decision`]).
pub fn remove_dependency(root: &str, root_is_dir: bool, manifest: &ManifestSource, name: &str) -> (r: Result<
    Vec<String>,
    DepsError,
>)
    ensures
        match (r, remove_decision(root@, root_is_dir, *manifest, name@)) {
            (Ok(a), Ok(b)) => crate::pages::texts(a@) == b,
            (Err(e), Err(err)) => error_matches(e, crate::codes::CLI_USAGE@, err),
            _ => false,
        },
{
    if !root_is_dir {
        return Err(root_fault(root));
    }
    let t = crate::layout::trim_chars(&chars_of(name));
    if t.len() == 0 {
        return Err(
            finding(
                crate::codes::CLI_USAGE,
                &lit("Dependency name cannot be empty"),
                "Run 'wda deps' to inspect the current dependency graph",
            ),
        );
    }
    let mp = crate::tools::join_path(root, "package.json");
    let deps = match read_manifest(mp.as_str(), manifest) {
        Err(f) => {
            return Err(DepsError::ToolFault(f));
        },
        Ok(d) => d,
    };
    if !key_present(&deps, &t) {
        let mut m = lit("Dependency '");
        crate::text::append_chars(&mut m, &t);
        append_str(&mut m, "' is not declared in package.json");
        return Err(finding(crate::codes::CLI_USAGE, &m, "Run 'wda deps' to inspect the current dependency graph"));
    }
    Ok(args_of("remove", "--package-json", &t))
}

/// Removing a dependency: [`remove_dependency`].
pub fn remove(root: &str, root_is_dir: bool, manifest: &ManifestSource, name: &str) -> (r: Result<Vec<String>, DepsError>)
    ensures
        match (r, remove_decision(root@, root_is_dir, *manifest, name@)) {
            (Ok(a), Ok(b)) => crate::pages::texts(a@) == b,
            (Err(e), Err(err)) => error_matches(e, crate::codes::CLI_USAGE@, err),
            _ => false,
        },
{
    remove_dependency(root, root_is_dir, manifest, name)
}

/// What updating decides before `deno` runs: the arguments of the staged
/// `deno update` (with the filter name, if any); nothing to do for a
/// project without dependencies and no filter; or the error.
pub open spec fn update_decision(
    root: Seq<char>,
    root_is_dir: bool,
    manifest: ManifestSource,
    filter: Option<Seq<char>>,
) -> Result<Option<Seq<Seq<char>>>, (Seq<char>, Option<Seq<char>>, Seq<char>)> {
    if !root_is_dir {
        Err(("Project root directory not found: "@ + root, Some(root), seq![]))
    } else {
        match manifest_reading(manifest_path(root), manifest) {
            Err(m) => Err((m, Some(manifest_path(root)), seq![])),
            Ok(deps) => match filter {
                Some(f) => {
                    let t = trimmed_name(f);
                    if t.len() == 0 {
                        Err(("Dependency name cannot be empty"@, None, inspect_graph()))
                    } else if !has_key(deps, t) {
                        Err(("Dependency '"@ + t + "' is not declared in package.json"@, None, inspect_graph()))
                    } else {
                        Ok(Some(seq!["update"@, t]))
                    }
                },
                None => if deps.len() == 0 {
                    Ok(None)
                } else {
                    Ok(Some(seq!["update"@]))
                },
            },
        }
    }
}

/// Law: `wda deps update <name>` for a declared dependency updates that
/// dependency alone: when the root is a directory, `package.json` reads as
/// `deps`, and the filter, trimmed, is non-empty and the name of one of
/// `deps`, the staged `deno` arguments are exactly `update` and that name.
pub proof fn law_update_filter_names_the_dependency(
    root: Seq<char>,
    manifest: ManifestSource,
    filter: Seq<char>,
    deps: Seq<(Seq<char>, Seq<char>)>,
    i: int,
)
    requires
        manifest_reading(manifest_path(root), manifest) == Ok::<Seq<(Seq<char>, Seq<char>)>, Seq<char>>(deps),
        0 <= i < deps.len(),
        deps[i].0 == crate::layout::trimmed(filter),
        crate::layout::trimmed(filter).len() > 0,
    ensures
        update_decision(root, true, manifest, Some(filter)) == Ok::<
            Option<Seq<Seq<char>>>,
            (Seq<char>, Option<Seq<char>>, Seq<char>),
        >(Some(seq!["update"@, crate::layout::trimmed(filter)])),
{
    assert(has_key(deps, trimmed_name(filter)));
}

/// Law: `wda deps update` without a name updates every dependency when
/// there is one and does nothing when there is none; with a name that no
/// dependency has, it is a usage error naming it, and `deno` is not run.
pub proof fn law_update_scope(
    root: Seq<char>,
    manifest: ManifestSource,
    filter: Seq<char>,
    deps: Seq<(Seq<char>, Seq<char>)>,
)
    requires
        manifest_reading(manifest_path(root), manifest) == Ok::<Seq<(Seq<char>, Seq<char>)>, Seq<char>>(deps),
    ensures
        deps.len() > 0 ==> update_decision(root, true, manifest, None) == Ok::<
            Option<Seq<Seq<char>>>,
            (Seq<char>, Option<Seq<char>>, Seq<char>),
        >(Some(seq!["update"@])),
        deps.len() == 0 ==> update_decision(root, true, manifest, None) == Ok::<
            Option<Seq<Seq<char>>>,
            (Seq<char>, Option<Seq<char>>, Seq<char>),
        >(None),
        crate::layout::trimmed(filter).len() > 0 && (forall|i: int|
            0 <= i < deps.len() ==> (#[trigger] deps[i]).0 != crate::layout::trimmed(filter)) ==> update_decision(
            root,
            true,
            manifest,
            Some(filter),
        ) == Err::<Option<Seq<Seq<char>>>, (Seq<char>, Option<Seq<char>>, Seq<char>)>(
            (
                "Dependency '"@ + crate::layout::trimmed(filter) + "' is not declared in package.json"@,
                None,
                inspect_graph(),
            ),
        ),
{
}

/// Decides what updating the project at `root` does before `deno` runs
/// (see [`update_decision`]): `None` is the no-op of a project without
/// dependencies.
pub fn update_dependencies(root: &str, root_is_dir: bool, manifest: &ManifestSource, name_filter: Option<&str>) -> (r:
    Result<Option<Vec<String>>, DepsError>)
    ensures
        match (r, update_decision(
            root@,
            root_is_dir,
            *manifest,
            match name_filter {
                Some(f) => Some(f@),
                None => None,
            },
        )) {
            (Ok(Some(a)), Ok(Some(b))) => crate::pages::texts(a@) == b,
            (Ok(None), Ok(None)) => true,
            (Err(e), Err(err)) => error_matches(e, crate::codes::CLI_USAGE@, err),
            _ => false,
        },
{
    if !root_is_dir {
        return Err(root_fault(root));
    }
    let mp = crate::tools::join_path(root, "package.json");
    let deps = match read_manifest(mp.as_str(), manifest) {
        Err(f) => {
            return Err(DepsError::ToolFault(f));
        },
        Ok(d) => d,
    };
    match name_filter {
        Some(f) => {
            let t = crate::layout::trim_chars(&chars_of(f));
            if t.len() == 0 {
                return Err(
                    finding(
                        crate::codes::CLI_USAGE,
                        &lit("Dependency name cannot be empty"),
                        "Run 'wda deps' to inspect the current dependency graph",
                    ),
                );
            }
            if !key_present(&deps, &t) {
                let mut m = lit("Dependency '");
                crate::text::append_chars(&mut m, &t);
                append_str(&mut m, "' is not declared in package.json");
                return Err(
                    finding(crate::codes::CLI_USAGE, &m, "Run 'wda deps' to inspect the current dependency graph"),
                );
            }
            let mut v: Vec<String> = Vec::new();
            v.push("update".to_string());
            v.push(string_from_chars(&t));
            assert(crate::pages::texts(v@) =~= seq!["update"@, t@]);
            Ok(Some(v))
        },
        None => {
            if deps.len() == 0 {
                assert(string_pairs(deps@).len() == 0);
                return Ok(None);
            }
            let mut v: Vec<String> = Vec::new();
            v.push("update".to_string());
            assert(crate::pages::texts(v@) =~= seq!["update"@]);
            Ok(Some(v))
        },
    }
}

/// Updating dependencies: [`update_dependencies`].
pub fn update_dependency(root: &str, root_is_dir: bool, manifest: &ManifestSource, name_filter: Option<&str>) -> (r:
    Result<Option<Vec<String>>, DepsError>)
    ensures
        match (r, update_decision(
            root@,
            root_is_dir,
            *manifest,
            match name_filter {
                Some(f) => Some(f@),
                None => None,
            },
        )) {
            (Ok(Some(a)), Ok(Some(b))) => crate::pages::texts(a@) == b,
            (Ok(None), Ok(None)) => true,
            (Err(e), Err(err)) => error_matches(e, crate::codes::CLI_USAGE@, err),
            _ => false,
        },
{
    update_dependencies(root, root_is_dir, manifest, name_filter)
}

/// Updating dependencies: [`update_dependencies`].
pub fn update(root: &str, root_is_dir: bool, manifest: &ManifestSource, name_filter: Option<&str>) -> (r: Result<
    Option<Vec<String>>,
    DepsError,
>)
    ensures
        match (r, update_decision(
            root@,
            root_is_dir,
            *manifest,
            match name_filter {
                Some(f) => Some(f@),
                None => None,
            },
        )) {
            (Ok(Some(a)), Ok(Some(b))) => crate::pages::texts(a@) == b,
            (Ok(None), Ok(None)) => true,
            (Err(e), Err(err)) => error_matches(e, crate::codes::CLI_USAGE@, err),
            _ => false,
        },
{
    update_dependencies(root, root_is_dir, manifest, name_filter)
}

/// What a removal commits, from the staged files: the empty state when the
/// staged `package.json` declares no dependency, else the staged files; the
/// fault when its text does not parse as JSON or is not an object (see
/// [`staged_emptiness`]).
pub fn removal_outcome(staged: &StagedFiles) -> (r: Result<CommitOutcome, ToolFault>)
    ensures
        match parsed_json(staged.package_json@) {
            Err(m) => r matches Err(f) && fault_is(f, "Failed to parse staged package.json: "@ + m, None),
            Ok(v) => match (r, staged_emptiness(Ok::<JsonValue, String>(v))) {
                (Ok(o), Ok(true)) => o is Empty,
                (Ok(o), Ok(false)) => o == (CommitOutcome::NonEmpty {
                    package_json: staged.package_json,
                    deno_lock: staged.deno_lock,
                }),
                (Err(f), Err(m)) => fault_is(f, m, None),
                _ => false,
            },
        },
{
    let parsed = parse_json(staged.package_json.as_str());
    match is_staged_dependencies_empty(&parsed) {
        Err(f) => Err(f),
        Ok(true) => Ok(CommitOutcome::Empty),
        Ok(false) => Ok(CommitOutcome::from_staged(staged)),
    }
}

/// What reading `package.json` found when the file held `text`: its parse
/// (see [`parsed_json`]).
pub fn manifest_source_of_text(text: &str) -> (r: ManifestSource)
    ensures
        match (r, parsed_json(text@)) {
            (ManifestSource::Parsed(Ok(v)), Ok(w)) => v == w,
            (ManifestSource::Parsed(Err(e)), Err(m)) => e@ == m,
            _ => false,
        },
{
    ManifestSource::Parsed(parse_json(text))
}

} // verus!
