//! Script entries and their imports, the lock-coverage check of external
//! imports, and the texts and decisions around the `deno` toolchain.

use vstd::prelude::*;

use crate::codes;
use crate::diagnostics::{join, path_components, slashed, split_on, views};
use crate::json::{parse_json_bytes, parsed_json_bytes, JsonValue};
use crate::project::{file_index, lookup_key, ProjectFile, ProjectTree};
use crate::pages::{path_order, texts};
use crate::layout::source_dir;
use crate::layout::{extension, first_index, trimmed};
use crate::report::{first_occurrence, lemma_first_occurrence, trimmed_start};
use crate::text::{append_chars, append_str, chars_of, lit, occurs_at, starts_with, starts_with_chars, string_from_chars};

verus! {

// ---------------------------------------------------------------------------
// Workspace configuration
// ---------------------------------------------------------------------------

/// The TypeScript `lib` names that type-checking makes available: the
/// browser DOM and the latest ECMAScript.
pub const DENO_CHECK_LIB: [&'static str; 4] = ["dom", "dom.iterable", "dom.asynciterable", "esnext"];

pub open spec fn deno_check_libs() -> Seq<Seq<char>> {
    seq!["dom"@, "dom.iterable"@, "dom.asynciterable"@, "esnext"@]
}

/// Names in double quotes, separated by `, `.
pub open spec fn quoted_list(names: Seq<Seq<char>>) -> Seq<char> {
    join(names.map_values(|n: Seq<char>| "\""@ + n + "\""@), ", "@)
}

/// The `lib` names as the items of a JSON array.
pub fn deno_check_lib_json_array() -> (r: String)
    ensures
        r@ == quoted_list(deno_check_libs()),
{
    let mut parts: Vec<Vec<char>> = Vec::new();
    let mut i: usize = 0;
    let ghost names = deno_check_libs();
    while i < 4
        invariant
            i <= 4,
            names == deno_check_libs(),
            forall|k: int| 0 <= k < 4 ==> (#[trigger] DENO_CHECK_LIB@[k])@ == names[k],
            views(parts@) == names.take(i as int).map_values(|n: Seq<char>| "\""@ + n + "\""@),
        decreases 4 - i,
    {
        let mut q = lit("\"");
        append_str(&mut q, DENO_CHECK_LIB[i]);
        append_str(&mut q, "\"");
        let ghost before = views(parts@);
        parts.push(q);
        assert(views(parts@) =~= before.push("\""@ + names[i as int] + "\""@));
        assert(names.take(i + 1).map_values(|n: Seq<char>| "\""@ + n + "\""@) =~= names.take(
            i as int,
        ).map_values(|n: Seq<char>| "\""@ + n + "\""@).push("\""@ + names[i as int] + "\""@));
        i = i + 1;
    }
    assert(names.take(4) == names);
    let j = crate::diagnostics::join_with(&parts, ", ");
    string_from_chars(&j)
}

/// The build workspace: a temporary directory, outside the project, in
/// which `deno` installs, type-checks and bundles.
#[derive(Debug)]
pub struct BuildWorkspace {
    pub path: String,
}

/// The workspace's `deno.json`: npm packages in a manual `node_modules/`,
/// and the browser `lib` list.
pub open spec fn workspace_config() -> Seq<char> {
    "{\n  \"nodeModulesDir\": \"manual\",\n  \"compilerOptions\": {\n    \"lib\": ["@ + quoted_list(
        deno_check_libs(),
    ) + "]\n  }\n}\n"@
}

impl BuildWorkspace {
    /// The workspace's `deno.json` (see [`workspace_config`]).
    pub fn deno_json(&self) -> (r: String)
        ensures
            r@ == workspace_config(),
    {
        let mut t = lit("{\n  \"nodeModulesDir\": \"manual\",\n  \"compilerOptions\": {\n    \"lib\": [");
        let libs = deno_check_lib_json_array();
        append_str(&mut t, libs.as_str());
        append_str(&mut t, "]\n  }\n}\n");
        string_from_chars(&t)
    }

    /// The workspace directory.
    pub fn path(&self) -> (r: &str)
        ensures
            r@ == self.path@,
    {
        self.path.as_str()
    }
}

// ---------------------------------------------------------------------------
// Specifiers
// ---------------------------------------------------------------------------

/// A local module specifier: relative (`.`) or absolute (`/`).
pub open spec fn is_local_specifier(s: Seq<char>) -> bool {
    s.len() > 0 && (s[0] == '.' || s[0] == '/')
}

/// Whether a module specifier is local (see [`is_local_specifier`]).
pub fn is_local_module_specifier(specifier: &str) -> (r: bool)
    ensures
        r == is_local_specifier(specifier@),
{
    let s = chars_of(specifier);
    s.len() > 0 && (s[0] == '.' || s[0] == '/')
}

/// The package a bare specifier names: `@scope/name` for a scoped package,
/// else the first `/`-separated segment.
pub open spec fn package_name(bare: Seq<char>) -> Seq<char> {
    let k = first_index(bare, '/');
    if k < 0 {
        bare
    } else {
        let first = bare.take(k);
        if first.len() > 0 && first[0] == '@' {
            let rest = bare.skip(k + 1);
            let k2 = first_index(rest, '/');
            first + seq!['/'] + (if k2 < 0 {
                rest
            } else {
                rest.take(k2)
            })
        } else {
            first
        }
    }
}

fn first_index_of(s: &Vec<char>, from: usize, c: char) -> (r: Option<usize>)
    requires
        from <= s@.len(),
    ensures
        match r {
            Some(k) => from <= k < s@.len() && (k - from) as int == first_index(
                s@.skip(from as int),
                c,
            ),
            None => first_index(s@.skip(from as int), c) == -1,
        },
{
    let mut k: usize = from;
    while k < s.len() && s[k] != c
        invariant
            from <= k <= s@.len(),
            first_index(s@.skip(from as int), c) == (if first_index(s@.skip(k as int), c) < 0 {
                -1
            } else {
                (k - from) + first_index(s@.skip(k as int), c)
            }),
        decreases s@.len() - k,
    {
        assert(s@.skip(k as int).drop_first() == s@.skip(k + 1));
        assert(s@.skip(k as int)[0] == s@[k as int]);
        k = k + 1;
    }
    if k < s.len() {
        assert(s@.skip(k as int)[0] == s@[k as int]);
        Some(k)
    } else {
        assert(s@.skip(k as int).len() == 0);
        None
    }
}

/// The package a bare specifier names (see [`package_name`]).
pub fn package_name_from_bare_specifier(bare: &str) -> (r: String)
    ensures
        r@ == package_name(bare@),
{
    let b = chars_of(bare);
    assert(b@.skip(0) == b@);
    match first_index_of(&b, 0, '/') {
        None => bare.to_owned(),
        Some(k) => {
            let first = crate::text::slice_chars(&b, 0, k);
            assert(first@ == b@.take(k as int));
            if first.len() > 0 && first[0] == '@' {
                let mut out = first;
                out.push('/');
                assert(b@.skip(k + 1) == b@.skip((k + 1) as int));
                match first_index_of(&b, k + 1, '/') {
                    None => {
                        let rest = crate::text::slice_chars(&b, k + 1, b.len());
                        append_chars(&mut out, &rest);
                    },
                    Some(k2) => {
                        let rest = crate::text::slice_chars(&b, k + 1, k2);
                        assert(rest@ == b@.skip(k + 1).take((k2 - (k + 1)) as int));
                        append_chars(&mut out, &rest);
                    },
                }
                string_from_chars(&out)
            } else {
                string_from_chars(&first)
            }
        },
    }
}

/// The keys of the `specifiers` section of `deno.lock`.
#[derive(Debug)]
pub struct LockState {
    pub keys: Vec<String>,
}

/// Whether the lock keys cover a module specifier: it is a key, or it is an
/// external specifier (not local, no `://`) whose package, without an `npm:`
/// prefix, has a key `npm:<package>@...`.
pub open spec fn lock_covers(keys: Seq<Seq<char>>, spec: Seq<char>) -> bool {
    let bare = if starts_with(spec, "npm:"@) {
        spec.skip(4)
    } else {
        spec
    };
    let prefix = "npm:"@ + package_name(bare) + "@"@;
    ||| keys.contains(spec)
    ||| (!is_local_specifier(spec) && !crate::text::contains_seq(spec, "://"@) && bare.len() > 0
        && exists|i: int| 0 <= i < keys.len() && starts_with(#[trigger] keys[i], prefix))
}

pub open spec fn key_views(keys: Seq<String>) -> Seq<Seq<char>> {
    keys.map_values(|k: String| k@)
}

impl LockState {
    /// Whether the lock covers `specifier` (see [`lock_covers`]).
    pub fn covers(&self, specifier: &str) -> (r: bool)
        ensures
            r == lock_covers(key_views(self.keys@), specifier@),
    {
        let ghost keys = key_views(self.keys@);
        let s = chars_of(specifier);
        let mut i: usize = 0;
        while i < self.keys.len()
            invariant
                i <= self.keys@.len(),
                keys == key_views(self.keys@),
                s@ == specifier@,
                forall|k: int| 0 <= k < i ==> keys[k] != specifier@,
            decreases self.keys@.len() - i,
        {
            let key = chars_of(self.keys[i].as_str());
            assert(keys[i as int] == self.keys@[i as int]@);
            if crate::text::chars_eq(&key, &s) {
                assert(keys[i as int] == specifier@);
                return true;
            }
            i = i + 1;
        }
        assert(!keys.contains(specifier@));
        if is_local_module_specifier(specifier) || crate::text::contains_chars(&s, &lit("://")) {
            return false;
        }
        let npm = lit("npm:");
        let bare: Vec<char> = if starts_with_chars(&s, &npm) {
            proof {
                reveal_strlit("npm:");
            }
            crate::text::slice_chars(&s, 4, s.len())
        } else {
            crate::text::copy_chars(&s)
        };
        if bare.len() == 0 {
            return false;
        }
        assert(bare@ == (if starts_with(specifier@, "npm:"@) {
            specifier@.skip(4)
        } else {
            specifier@
        })) by {
            reveal_strlit("npm:");
        }
        let bare_text = string_from_chars(&bare);
        let package = package_name_from_bare_specifier(bare_text.as_str());
        let mut prefix = lit("npm:");
        append_str(&mut prefix, package.as_str());
        prefix.push('@');
        assert(prefix@ == "npm:"@ + package_name(bare@) + "@"@) by {
            reveal_strlit("@");
            assert("@"@ =~= seq!['@']);
        }
        let mut j: usize = 0;
        while j < self.keys.len()
            invariant
                j <= self.keys@.len(),
                keys == key_views(self.keys@),
                prefix@ == "npm:"@ + package_name(bare@) + "@"@,
                bare@.len() > 0,
                !is_local_specifier(specifier@),
                !crate::text::contains_seq(specifier@, "://"@),
                bare@ == (if starts_with(specifier@, "npm:"@) {
                    specifier@.skip(4)
                } else {
                    specifier@
                }),
                forall|k: int| 0 <= k < j ==> !starts_with(#[trigger] keys[k], prefix@),
            decreases self.keys@.len() - j,
        {
            let key = chars_of(self.keys[j].as_str());
            assert(keys[j as int] == self.keys@[j as int]@);
            if starts_with_chars(&key, &prefix) {
                assert(keys[j as int] == key@);
                assert(starts_with(keys[j as int], prefix@));
                return true;
            }
            assert(keys[j as int] == key@);
            j = j + 1;
        }
        false
    }
}

/// The value of the first member named `name`.
pub open spec fn first_member(members: Seq<(String, JsonValue)>, name: Seq<char>) -> Option<JsonValue>
    decreases members.len(),
{
    if members.len() == 0 {
        None
    } else if members[0].0@ == name {
        Some(members[0].1)
    } else {
        first_member(members.drop_first(), name)
    }
}

/// The member `name` of a JSON value, if it is an object that has it.
pub open spec fn member(v: JsonValue, name: Seq<char>) -> Option<JsonValue> {
    match v {
        JsonValue::Object(members) => first_member(members@, name),
        _ => None,
    }
}

/// Finds the first member named `name` of a JSON value (see [`member`]).
pub fn get_member<'a>(v: &'a JsonValue, name: &str) -> (r: Option<&'a JsonValue>)
    ensures
        match r {
            Some(x) => member(*v, name@) == Some(*x),
            None => member(*v, name@) is None,
        },
{
    match v {
        JsonValue::Object(members) => {
            let n = chars_of(name);
            let mut i: usize = 0;
            assert(members@.skip(0) == members@);
            while i < members.len()
                invariant
                    i <= members@.len(),
                    n@ == name@,
                    member(*v, name@) == first_member(members@, name@),
                    first_member(members@.skip(i as int), name@) == first_member(members@, name@),
                decreases members@.len() - i,
            {
                assert(members@.skip(i as int)[0] == members@[i as int]);
                assert(members@.skip(i as int).drop_first() == members@.skip(i + 1));
                let k = chars_of(members[i].0.as_str());
                if crate::text::chars_eq(&k, &n) {
                    assert(members@[i as int].0@ == name@);
                    assert(first_member(members@.skip(i as int), name@) == Some(members@[i as int].1));
                    return Some(&members[i].1);
                }
                i = i + 1;
            }
            None
        },
        _ => None,
    }
}

/// The lock keys of a parsed `deno.lock`: the member names of its
/// `specifiers` object; none when the lock is absent, unreadable or shaped
/// otherwise.
pub open spec fn lock_keys(lock: Option<JsonValue>) -> Seq<Seq<char>> {
    match lock {
        Some(v) => match member(v, "specifiers"@) {
            Some(JsonValue::Object(members)) => members@.map_values(|m: (String, JsonValue)| m.0@),
            _ => seq![],
        },
        None => seq![],
    }
}

/// `deno.lock` parsed from its bytes, when it was read (`None` when it could
/// not be read or does not parse; see [`parsed_json_bytes`]).
pub fn lock_of_bytes(bytes: Option<&Vec<u8>>) -> (r: Option<JsonValue>)
    ensures
        match bytes {
            None => r is None,
            Some(b) => match parsed_json_bytes(b@) {
                Ok(v) => r == Some(v),
                Err(_) => r is None,
            },
        },
{
    match bytes {
        None => None,
        Some(b) => match parse_json_bytes(b) {
            Ok(v) => Some(v),
            Err(_) => None,
        },
    }
}

/// The lock state of a parsed `deno.lock` (see [`lock_keys`]).
pub fn read_lock_state(lock: Option<&JsonValue>) -> (r: LockState)
    ensures
        key_views(r.keys@) == lock_keys(match lock {
            Some(v) => Some(*v),
            None => None,
        }),
{
    let mut keys: Vec<String> = Vec::new();
    match lock {
        Some(v) => match get_member(v, "specifiers") {
            Some(JsonValue::Object(members)) => {
                let mut i: usize = 0;
                while i < members.len()
                    invariant
                        i <= members@.len(),
                        key_views(keys@) == members@.take(i as int).map_values(
                            |m: (String, JsonValue)| m.0@,
                        ),
                    decreases members@.len() - i,
                {
                    let ghost before = key_views(keys@);
                    keys.push(members[i].0.clone());
                    assert(key_views(keys@) =~= before.push(members@[i as int].0@));
                    assert(members@.take(i + 1).map_values(|m: (String, JsonValue)| m.0@) =~= members@.take(
                        i as int,
                    ).map_values(|m: (String, JsonValue)| m.0@).push(members@[i as int].0@));
                    i = i + 1;
                }
                assert(members@.take(members@.len() as int) == members@);
            },
            _ => {},
        },
        None => {},
    }
    assert(lock is None ==> key_views(keys@) =~= seq![]);
    LockState { keys }
}

// ---------------------------------------------------------------------------
// Module specifiers in script text
// ---------------------------------------------------------------------------

/// The specifier in quotes at the start of `input` (after white space):
/// what lies between an opening `'` or `"` and the next same quote.
pub open spec fn quoted(input: Seq<char>) -> Option<Seq<char>> {
    let t = trimmed_start(input);
    if t.len() == 0 || (t[0] != '\'' && t[0] != '"') {
        None
    } else {
        let rest = t.drop_first();
        let k = first_index(rest, t[0]);
        if k < 0 {
            None
        } else {
            Some(rest.take(k))
        }
    }
}

pub open spec fn opt_seq(o: Option<Seq<char>>) -> Seq<Seq<char>> {
    match o {
        Some(x) => seq![x],
        None => seq![],
    }
}

/// The specifiers of dynamic `import(` calls in `t`, from position `i` on;
/// after each call the scan steps over one character.
pub open spec fn dynamic_specifiers(t: Seq<char>, i: int) -> Seq<Seq<char>>
    decreases t.len() - i,
{
    let start = first_occurrence(t, "import("@, i);
    if start < 0 || i < 0 {
        seq![]
    } else {
        proof {
            reveal_strlit("import(");
            lemma_first_occurrence(t, "import("@, i);
        }
        let r = start + 7;
        let here = opt_seq(quoted(t.skip(r)));
        if r >= t.len() {
            here
        } else {
            here + dynamic_specifiers(t, r + 1)
        }
    }
}

/// The specifiers one line of script text names: that of an `import` or
/// `export` statement (after ` from `, or directly after the keyword), then
/// those of dynamic `import(` calls.
pub open spec fn line_specifiers(line: Seq<char>) -> Seq<Seq<char>> {
    let t = trimmed_start(line);
    let k = first_occurrence(t, " from "@, 0);
    let statement = if starts_with(t, "import"@) || starts_with(t, "export"@) {
        if k >= 0 {
            opt_seq(quoted(t.skip(k + 6)))
        } else {
            opt_seq(quoted(t.skip(6)))
        }
    } else {
        seq![]
    };
    statement + dynamic_specifiers(t, 0)
}

proof fn lemma_no_occurrence(s: Seq<char>, pat: Seq<char>, i: int)
    requires
        0 <= i,
        forall|j: int| i <= j ==> !occurs_at(s, pat, j),
    ensures
        first_occurrence(s, pat, i) == -1,
    decreases s.len() + 1 - i,
{
    if i + pat.len() <= s.len() {
        lemma_no_occurrence(s, pat, i + 1);
    }
}

/// A pattern without the quote `q`, absent from the specifier and from the
/// keyword part, occurs nowhere in the line `import q S q;`.
proof fn lemma_import_line_avoids(q: char, spec: Seq<char>, pat: Seq<char>)
    requires
        pat.len() >= 6,
        forall|k: int| 0 <= k < pat.len() ==> pat[k] != q,
        forall|j: int| !occurs_at(spec, pat, j),
        forall|j: int| 0 <= j && j + pat.len() <= 7 ==> !occurs_at("import "@, pat, j),
    ensures
        forall|j: int| !occurs_at("import "@ + seq![q] + spec + seq![q] + ";"@, pat, j),
{
    reveal_strlit("import ");
    reveal_strlit(";");
    let t = "import "@ + seq![q] + spec + seq![q] + ";"@;
    let n = pat.len() as int;
    let close = 8 + spec.len() as int;
    assert forall|j: int| !occurs_at(t, pat, j) by {
        if occurs_at(t, pat, j) {
            let w = t.subrange(j, j + n);
            assert(w == pat);
            if j + n <= 7 {
                assert(t.subrange(j, j + n) =~= "import "@.subrange(j, j + n));
                assert(occurs_at("import "@, pat, j));
            } else if j <= 7 {
                assert(w[7 - j] == t[7]);
                assert(t[7] == q);
            } else if j + n <= close {
                assert(t.subrange(j, j + n) =~= spec.subrange(j - 8, j - 8 + n));
                assert(occurs_at(spec, pat, j - 8));
            } else {
                assert(j <= close);
                assert(w[close - j] == t[close]);
                assert(t[close] == q);
            }
        }
    }
}

/// Law: a side-effect import names its module. The line `import q S q;`,
/// with `S` in the quotes `q` (double or single, not inside `S`) and
/// neither ` from ` nor `import(` in `S`, has exactly `S` as its module
/// specifiers.
pub proof fn law_side_effect_import(q: char, spec: Seq<char>)
    requires
        q == '"' || q == '\'',
        forall|k: int| 0 <= k < spec.len() ==> spec[k] != q,
        forall|j: int| !occurs_at(spec, " from "@, j),
        forall|j: int| !occurs_at(spec, "import("@, j),
    ensures
        line_specifiers("import "@ + seq![q] + spec + seq![q] + ";"@) == seq![spec],
{
    reveal_strlit("import ");
    reveal_strlit(" from ");
    reveal_strlit("import(");
    reveal_strlit("import");
    reveal_strlit("export");
    reveal_strlit(";");
    let t = "import "@ + seq![q] + spec + seq![q] + ";"@;
    assert forall|j: int| 0 <= j && j + 6 <= 7 implies !occurs_at("import "@, " from "@, j) by {
        if occurs_at("import "@, " from "@, j) {
            assert("import "@.subrange(j, j + 6)[0] == " from "@[0]);
        }
    }
    assert forall|j: int| 0 <= j && j + 7 <= 7 implies !occurs_at("import "@, "import("@, j) by {
        if occurs_at("import "@, "import("@, j) {
            assert("import "@.subrange(j, j + 7)[6] == "import("@[6]);
        }
    }
    lemma_import_line_avoids(q, spec, " from "@);
    lemma_import_line_avoids(q, spec, "import("@);
    lemma_no_occurrence(t, " from "@, 0);
    lemma_no_occurrence(t, "import("@, 0);
    assert(!crate::cli::is_white_space(t[0]));
    assert(crate::layout::leading_ws(t) == 0);
    assert(t.skip(0) =~= t);
    assert(trimmed_start(t) == t);
    assert(t.take(6) =~= "import"@);
    assert(starts_with(t, "import"@));
    assert(dynamic_specifiers(t, 0) == Seq::<Seq<char>>::empty());
    let after = t.skip(6);
    assert(after[0] == ' ');
    assert(crate::cli::is_white_space(' '));
    assert(!crate::cli::is_white_space(q));
    assert(after.drop_first()[0] == q);
    assert(crate::layout::leading_ws(after.drop_first()) == 0);
    assert(crate::layout::leading_ws(after) == 1);
    let u = trimmed_start(after);
    assert(u =~= seq![q] + spec + seq![q] + ";"@);
    let rest = u.drop_first();
    assert(rest =~= spec + seq![q] + ";"@);
    crate::layout::lemma_first_index_at(rest, q, spec.len() as int);
    assert(rest.take(spec.len() as int) =~= spec);
    assert(quoted(after) == Some(spec));
    assert(line_specifiers(t) =~= seq![spec]);
}

/// Law: an `import` or `export` statement with ` from ` names the module
/// quoted after it. In the line `kw B from q S q;` (`kw` being `import` or
/// `export`), where the bindings `B` hold no `from` and no `(`, and `S`, in
/// the quotes `q`, holds neither `q` nor `(`, the module specifiers are
/// exactly `S`.
pub proof fn law_import_from_names_module(kw: Seq<char>, bindings: Seq<char>, q: char, spec: Seq<char>)
    requires
        kw == "import"@ || kw == "export"@,
        q == '"' || q == '\'',
        forall|j: int| !occurs_at(bindings, "from"@, j),
        forall|k: int| 0 <= k < bindings.len() ==> bindings[k] != '(',
        forall|k: int| 0 <= k < spec.len() ==> spec[k] != q && spec[k] != '(',
    ensures
        line_specifiers(kw + " "@ + bindings + " from "@ + seq![q] + spec + seq![q] + ";"@) == seq![spec],
{
    reveal_strlit("import");
    reveal_strlit("export");
    reveal_strlit(" ");
    reveal_strlit(" from ");
    reveal_strlit("from");
    reveal_strlit("import(");
    reveal_strlit(";");
    let head = kw + " "@;
    let t = head + bindings + " from "@ + seq![q] + spec + seq![q] + ";"@;
    let m = 7 + bindings.len() as int;
    assert(head.len() == 7);
    assert forall|k: int| 0 <= k < 7 implies head[k] != 'f' && head[k] != '(' && head[k] != q by {
        if k < 6 {
            assert(head[k] == kw[k]);
        }
    }
    assert forall|j: int| 0 <= j < m implies !occurs_at(t, " from "@, j) by {
        if occurs_at(t, " from "@, j) {
            let w = t.subrange(j, j + 6);
            assert(w == " from "@);
            if j + 1 <= 6 {
                assert(w[1] == t[j + 1]);
                assert(t[j + 1] == head[j + 1]);
            } else if j + 5 <= m {
                assert(t.subrange(j + 1, j + 5) =~= bindings.subrange(j + 1 - 7, j + 5 - 7));
                assert(t.subrange(j + 1, j + 5) =~= w.subrange(1, 5));
                assert(w.subrange(1, 5) =~= "from"@);
                assert(occurs_at(bindings, "from"@, j + 1 - 7));
            } else {
                assert(t[m] == ' ');
                assert(w[m - j] == t[m]);
            }
        }
    }
    assert(t.subrange(m, m + 6) =~= " from "@);
    assert(occurs_at(t, " from "@, m));
    assert(first_occurrence(t, " from "@, 0) == m) by {
        lemma_occurrence_first(t, " from "@, 0, m);
    }
    assert forall|j: int| !occurs_at(t, "import("@, j) by {
        if occurs_at(t, "import("@, j) {
            let w = t.subrange(j, j + 7);
            assert(w == "import("@);
            assert(w[6] == t[j + 6]);
            let i = j + 6;
            if i < 7 {
                assert(t[i] == head[i]);
            } else if i < m {
                assert(t[i] == bindings[i - 7]);
            } else if i < m + 7 {
            } else if i < m + 7 + spec.len() {
                assert(t[i] == spec[i - m - 7]);
            }
        }
    }
    lemma_no_occurrence(t, "import("@, 0);
    assert(!crate::cli::is_white_space(t[0]));
    assert(crate::layout::leading_ws(t) == 0);
    assert(t.skip(0) =~= t);
    assert(trimmed_start(t) == t);
    assert(t.take(6) =~= kw);
    assert(starts_with(t, "import"@) || starts_with(t, "export"@));
    let after = t.skip(m + 6);
    assert(after =~= seq![q] + spec + seq![q] + ";"@);
    assert(!crate::cli::is_white_space(q));
    assert(crate::layout::leading_ws(after) == 0);
    assert(after.skip(0) =~= after);
    let rest = after.drop_first();
    assert(rest =~= spec + seq![q] + ";"@);
    crate::layout::lemma_first_index_at(rest, q, spec.len() as int);
    assert(rest.take(spec.len() as int) =~= spec);
    assert(quoted(after) == Some(spec));
    assert(line_specifiers(t) =~= seq![spec]);
}

/// Law: a dynamic import names its module. In the line
/// `P import(q S q);`, where `P` starts with neither white space nor an
/// `import`/`export` keyword and holds no `(`, and `S`, in the quotes `q`,
/// holds neither `q` nor `(`, the module specifiers are exactly `S`.
#[verifier::rlimit(40)]
pub proof fn law_dynamic_import_names_module(prefix: Seq<char>, q: char, spec: Seq<char>)
    requires
        prefix.len() > 0,
        !crate::cli::is_white_space(prefix[0]),
        prefix[0] != 'i' && prefix[0] != 'e',
        forall|k: int| 0 <= k < prefix.len() ==> prefix[k] != '(',
        q == '"' || q == '\'',
        forall|k: int| 0 <= k < spec.len() ==> spec[k] != q && spec[k] != '(',
    ensures
        line_specifiers(prefix + "import("@ + seq![q] + spec + seq![q] + ");"@) == seq![spec],
{
    reveal_strlit("import(");
    reveal_strlit("import");
    reveal_strlit("export");
    reveal_strlit(");");
    let t = prefix + "import("@ + seq![q] + spec + seq![q] + ");"@;
    let m = prefix.len() as int;
    let r = m + 7;
    assert(crate::layout::leading_ws(t) == 0);
    assert(t.skip(0) =~= t);
    assert(trimmed_start(t) == t);
    assert(!starts_with(t, "import"@)) by {
        if starts_with(t, "import"@) {
            assert(t.take(6)[0] == t[0]);
        }
    }
    assert(!starts_with(t, "export"@)) by {
        if starts_with(t, "export"@) {
            assert(t.take(6)[0] == t[0]);
        }
    }
    assert(first_occurrence(t, "import("@, 0) == m) by {
        assert forall|j: int| 0 <= j < m implies !occurs_at(t, "import("@, j) by {
            if occurs_at(t, "import("@, j) {
                let w = t.subrange(j, j + 7);
                assert(w[6] == t[j + 6]);
                if j + 6 < m {
                    assert(t[j + 6] == prefix[j + 6]);
                } else {
                    assert(t[j + 6] == "import("@[j + 6 - m]);
                }
            }
        }
        assert(t.subrange(m, m + 7) =~= "import("@);
        lemma_occurrence_first(t, "import("@, 0, m);
    }
    assert(quoted(t.skip(r)) == Some(spec)) by {
        assert(t.skip(r) =~= seq![q] + spec + seq![q] + ");"@);
        let after = t.skip(r);
        assert(!crate::cli::is_white_space(q));
        assert(crate::layout::leading_ws(after) == 0);
        assert(after.skip(0) =~= after);
        let rest = after.drop_first();
        assert(rest =~= spec + seq![q] + ");"@);
        crate::layout::lemma_first_index_at(rest, q, spec.len() as int);
        assert(rest.take(spec.len() as int) =~= spec);
    }
    assert(r < t.len());
    assert(first_occurrence(t, "import("@, r + 1) == -1) by {
        assert forall|j: int| r + 1 <= j implies !occurs_at(t, "import("@, j) by {
            if occurs_at(t, "import("@, j) {
                let w = t.subrange(j, j + 7);
                assert(w[6] == t[j + 6]);
                let i = j + 6;
                if i < r + 1 + spec.len() {
                    assert(t[i] == spec[i - r - 1]);
                }
            }
        }
        lemma_no_occurrence(t, "import("@, r + 1);
    }
    lemma_one_dynamic(t, m, spec);
    lemma_plain_line(t);
}

proof fn lemma_one_dynamic(t: Seq<char>, m: int, spec: Seq<char>)
    requires
        0 <= m,
        m + 7 < t.len(),
        first_occurrence(t, "import("@, 0) == m,
        quoted(t.skip(m + 7)) == Some(spec),
        first_occurrence(t, "import("@, m + 8) == -1,
    ensures
        dynamic_specifiers(t, 0) == seq![spec],
{
    reveal_strlit("import(");
    assert(dynamic_specifiers(t, m + 8) == Seq::<Seq<char>>::empty());
    assert(dynamic_specifiers(t, 0) =~= seq![spec]);
}

proof fn lemma_plain_line(t: Seq<char>)
    requires
        trimmed_start(t) == t,
        !starts_with(t, "import"@),
        !starts_with(t, "export"@),
    ensures
        line_specifiers(t) == dynamic_specifiers(t, 0),
{
    assert(line_specifiers(t) =~= dynamic_specifiers(t, 0));
}

proof fn lemma_occurrence_first(s: Seq<char>, pat: Seq<char>, i: int, m: int)
    requires
        0 <= i <= m,
        occurs_at(s, pat, m),
        forall|j: int| i <= j < m ==> !occurs_at(s, pat, j),
    ensures
        first_occurrence(s, pat, i) == m,
    decreases m - i,
{
    if i < m {
        lemma_occurrence_first(s, pat, i + 1, m);
    }
}

/// The lines of a text (`str::lines`): split at `\n`, each without one
/// trailing `\r`, with no empty line after a final `\n`.
pub open spec fn text_lines(s: Seq<char>) -> Seq<Seq<char>> {
    let parts = split_on(s, '\n');
    let kept = if s.len() == 0 {
        seq![]
    } else if s.last() == '\n' {
        parts.drop_last()
    } else {
        parts
    };
    kept.map_values(|p: Seq<char>| if p.len() > 0 && p.last() == '\r' { p.drop_last() } else { p })
}

/// The specifiers of all lines, in order.
pub open spec fn lines_specifiers(lines: Seq<Seq<char>>) -> Seq<Seq<char>>
    decreases lines.len(),
{
    if lines.len() == 0 {
        seq![]
    } else {
        lines_specifiers(lines.drop_last()) + line_specifiers(lines.last())
    }
}

/// The module specifiers of script text (see [`line_specifiers`]).
pub open spec fn module_specifiers(source: Seq<char>) -> Seq<Seq<char>> {
    lines_specifiers(text_lines(source))
}

fn quoted_from(s: &Vec<char>, from: usize) -> (r: Option<Vec<char>>)
    requires
        from <= s@.len(),
    ensures
        match r {
            Some(q) => quoted(s@.skip(from as int)) == Some(q@),
            None => quoted(s@.skip(from as int)) is None,
        },
{
    let ghost input = s@.skip(from as int);
    let t0 = crate::report::trim_start_index(s, from);
    if t0 >= s.len() {
        return None;
    }
    let q = s[t0];
    assert(s@.skip(t0 as int)[0] == q);
    if q != '\'' && q != '"' {
        return None;
    }
    assert(s@.skip(t0 as int).drop_first() == s@.skip(t0 + 1));
    match first_index_of(s, t0 + 1, q) {
        None => None,
        Some(k) => {
            let r = crate::text::slice_chars(s, t0 + 1, k);
            assert(r@ == s@.skip(t0 + 1).take((k - (t0 + 1)) as int));
            Some(r)
        },
    }
}

/// The quoted specifier at the start of `input` (see [`quoted`]).
pub fn quoted_specifier(input: &str) -> (r: Option<String>)
    ensures
        match r {
            Some(q) => quoted(input@) == Some(q@),
            None => quoted(input@) is None,
        },
{
    let s = chars_of(input);
    assert(s@.skip(0) == s@);
    match quoted_from(&s, 0) {
        Some(q) => Some(string_from_chars(&q)),
        None => None,
    }
}

fn opt_push(out: &mut Vec<Vec<char>>, o: Option<Vec<char>>)
    ensures
        views(final(out)@) == views(old(out)@) + opt_seq(match o {
            Some(x) => Some(x@),
            None => None,
        }),
{
    match o {
        Some(x) => {
            let ghost before = views(out@);
            let ghost xv = x@;
            out.push(x);
            assert(views(out@) =~= before + seq![xv]);
        },
        None => {
            assert(views(out@) =~= views(out@) + seq![]);
        },
    }
}

fn dynamic_specifiers_of(t: &Vec<char>) -> (r: Vec<Vec<char>>)
    ensures
        views(r@) == dynamic_specifiers(t@, 0),
{
    let pat = lit("import(");
    proof {
        reveal_strlit("import(");
    }
    let mut out: Vec<Vec<char>> = Vec::new();
    let mut i: usize = 0;
    assert(views(out@) + dynamic_specifiers(t@, 0) =~= dynamic_specifiers(t@, 0));
    loop
        invariant
            i <= t@.len(),
            pat@ == "import("@,
            pat@.len() == 7,
            views(out@) + dynamic_specifiers(t@, i as int) == dynamic_specifiers(t@, 0),
        decreases t@.len() - i,
    {
        proof {
            lemma_first_occurrence(t@, pat@, i as int);
        }
        match crate::report::find_from(t, &pat, i) {
            None => {
                assert(views(out@) =~= views(out@) + dynamic_specifiers(t@, i as int));
                return out;
            },
            Some(start) => {
                let n = t.len();
                assert(start + 7 <= n);
                let r = start + 7;
                let ghost before = views(out@);
                let here = quoted_from(t, r);
                opt_push(&mut out, here);
                if r >= n {
                    assert(views(out@) =~= before + dynamic_specifiers(t@, i as int));
                    return out;
                }
                assert(before + dynamic_specifiers(t@, i as int) =~= views(out@) + dynamic_specifiers(
                    t@,
                    r + 1,
                ));
                i = r + 1;
            },
        }
    }
}

fn line_specifiers_of(line: &Vec<char>) -> (r: Vec<Vec<char>>)
    ensures
        views(r@) == line_specifiers(line@),
{
    let t0 = crate::report::trim_start_index(line, 0);
    assert(line@.skip(0) == line@);
    let t = crate::text::slice_chars(line, t0, line.len());
    assert(t@ == trimmed_start(line@));
    let mut out: Vec<Vec<char>> = Vec::new();
    let import_kw = lit("import");
    let export_kw = lit("export");
    let from_kw = lit(" from ");
    proof {
        reveal_strlit("import");
        reveal_strlit("export");
        reveal_strlit(" from ");
    }
    if starts_with_chars(&t, &import_kw) || starts_with_chars(&t, &export_kw) {
        proof {
            lemma_first_occurrence(t@, from_kw@, 0);
        }
        match crate::report::find_from(&t, &from_kw, 0) {
            Some(k) => {
                let n = t.len();
                assert(k + 6 <= n);
                assert(t@.skip(k + 6) == t@.skip((k + 6) as int));
                let q = quoted_from(&t, k + 6);
                opt_push(&mut out, q);
            },
            None => {
                assert(t@.len() >= 6);
                let q = quoted_from(&t, 6);
                opt_push(&mut out, q);
            },
        }
    }
    assert(views(out@) =~= seq![] + (if starts_with(t@, "import"@) || starts_with(t@, "export"@) {
        let k = first_occurrence(t@, " from "@, 0);
        if k >= 0 {
            opt_seq(quoted(t@.skip(k + 6)))
        } else {
            opt_seq(quoted(t@.skip(6)))
        }
    } else {
        seq![]
    }));
    let dynamic = dynamic_specifiers_of(&t);
    let ghost before = views(out@);
    let mut k: usize = 0;
    while k < dynamic.len()
        invariant
            k <= dynamic@.len(),
            views(out@) == before + views(dynamic@).take(k as int),
        decreases dynamic@.len() - k,
    {
        let ghost cur = views(out@);
        out.push(crate::text::copy_chars(&dynamic[k]));
        assert(views(out@) =~= cur.push(dynamic@[k as int]@));
        assert(views(dynamic@).take(k + 1) =~= views(dynamic@).take(k as int).push(dynamic@[k as int]@));
        assert(views(out@) =~= before + views(dynamic@).take(k + 1));
        k = k + 1;
    }
    assert(views(dynamic@).take(dynamic@.len() as int) == views(dynamic@));
    out
}

/// The lines of a text (see [`text_lines`]).
pub fn lines_of(s: &Vec<char>) -> (r: Vec<Vec<char>>)
    ensures
        views(r@) == text_lines(s@),
{
    let raw = crate::diagnostics::split_chars(s, '\n');
    let n = s.len();
    let count = if n == 0 {
        0
    } else if s[n - 1] == '\n' {
        proof {
            crate::diagnostics::lemma_split_on_nonempty(s@, '\n');
        }
        raw.len() - 1
    } else {
        raw.len()
    };
    let ghost kept = if s@.len() == 0 {
        seq![]
    } else if s@.last() == '\n' {
        split_on(s@, '\n').drop_last()
    } else {
        split_on(s@, '\n')
    };
    assert(views(raw@).take(count as int) =~= kept);
    let mut out: Vec<Vec<char>> = Vec::new();
    let mut i: usize = 0;
    while i < count
        invariant
            i <= count <= raw@.len(),
            views(raw@).take(count as int) == kept,
            views(out@) == kept.take(i as int).map_values(
                |p: Seq<char>| if p.len() > 0 && p.last() == '\r' { p.drop_last() } else { p },
            ),
        decreases count - i,
    {
        let p = &raw[i];
        let m = p.len();
        let line = if m > 0 && p[m - 1] == '\r' {
            crate::text::slice_chars(p, 0, m - 1)
        } else {
            crate::text::copy_chars(p)
        };
        assert(kept[i as int] == p@);
        let ghost before = views(out@);
        let ghost lv = line@;
        assert(lv == (if p@.len() > 0 && p@.last() == '\r' { p@.drop_last() } else { p@ }));
        out.push(line);
        assert(views(out@) =~= before.push(lv));
        assert(kept.take(i + 1) =~= kept.take(i as int).push(kept[i as int]));
        assert(views(out@) =~= kept.take(i + 1).map_values(
            |p: Seq<char>| if p.len() > 0 && p.last() == '\r' { p.drop_last() } else { p },
        ));
        i = i + 1;
    }
    assert(kept.take(count as int) == kept);
    out
}

/// The module specifiers of script text: each line's `import`/`export`
/// specifier and its dynamic `import(` specifiers (see
/// [`module_specifiers`]).
pub fn extract_module_specifiers(source: &str) -> (r: Vec<String>)
    ensures
        crate::pages::texts(r@) == module_specifiers(source@),
{
    let s = chars_of(source);
    let lines = lines_of(&s);
    let mut all: Vec<Vec<char>> = Vec::new();
    let mut j: usize = 0;
    while j < lines.len()
        invariant
            j <= lines@.len(),
            views(lines@) == text_lines(source@),
            views(all@) == lines_specifiers(views(lines@).take(j as int)),
        decreases lines@.len() - j,
    {
        assert(views(lines@).take(j + 1).drop_last() == views(lines@).take(j as int));
        assert(views(lines@).take(j + 1).last() == lines@[j as int]@);
        let more = line_specifiers_of(&lines[j]);
        let ghost before = views(all@);
        let mut k: usize = 0;
        while k < more.len()
            invariant
                k <= more@.len(),
                views(all@) == before + views(more@).take(k as int),
            decreases more@.len() - k,
        {
            let ghost cur = views(all@);
            all.push(crate::text::copy_chars(&more[k]));
            assert(views(all@) =~= cur.push(more@[k as int]@));
            assert(views(more@).take(k + 1) =~= views(more@).take(k as int).push(more@[k as int]@));
            assert(views(all@) =~= before + views(more@).take(k + 1));
            k = k + 1;
        }
        assert(views(more@).take(more@.len() as int) == views(more@));
        j = j + 1;
    }
    assert(views(lines@).take(lines@.len() as int) == views(lines@));
    crate::pages::string_list(&all)
}

// ---------------------------------------------------------------------------
// Paths in tool output
// ---------------------------------------------------------------------------

/// A path as a `file://` URL: forward slashes, and a third slash before a
/// path that does not start with one.
pub open spec fn file_url(path: Seq<char>) -> Seq<char> {
    let forward = slashed(path);
    if forward.len() > 0 && forward[0] == '/' {
        "file://"@ + forward
    } else {
        "file:///"@ + forward
    }
}

/// Renders a path as a `file://` URL (see [`file_url`]).
pub fn file_url_form(path: &str) -> (r: String)
    ensures
        r@ == file_url(path@),
{
    let p = chars_of(path);
    let forward = crate::diagnostics::slash_chars(&p);
    let mut out = if forward.len() > 0 && forward[0] == '/' {
        lit("file://")
    } else {
        lit("file:///")
    };
    append_chars(&mut out, &forward);
    string_from_chars(&out)
}

/// `to` between every two characters of `s` and at both ends (what
/// replacing the empty text gives).
pub open spec fn interleaved(s: Seq<char>, to: Seq<char>) -> Seq<char>
    decreases s.len(),
{
    if s.len() == 0 {
        to
    } else {
        to + seq![s[0]] + interleaved(s.drop_first(), to)
    }
}

/// `s` with every occurrence of `from`, found left to right without
/// overlap, replaced by `to` (`str::replace`).
pub open spec fn replaced(s: Seq<char>, from: Seq<char>, to: Seq<char>) -> Seq<char>
    decreases s.len(),
{
    if from.len() == 0 {
        interleaved(s, to)
    } else if s.len() < from.len() {
        s
    } else if s.take(from.len() as int) == from {
        to + replaced(s.skip(from.len() as int), from, to)
    } else {
        seq![s[0]] + replaced(s.drop_first(), from, to)
    }
}

/// Replaces every occurrence of `from` in `s` by `to` (see [`replaced`]).
pub fn replace_text(s: &Vec<char>, from: &Vec<char>, to: &Vec<char>) -> (r: Vec<char>)
    ensures
        r@ == replaced(s@, from@, to@),
{
    let mut out: Vec<char> = Vec::new();
    let mut i: usize = 0;
    if from.len() == 0 {
        assert(s@.skip(0) == s@);
        while i < s.len()
            invariant
                i <= s@.len(),
                from@.len() == 0,
                out@ + interleaved(s@.skip(i as int), to@) == interleaved(s@, to@),
            decreases s@.len() - i,
        {
            assert(s@.skip(i as int).drop_first() == s@.skip(i + 1));
            assert(s@.skip(i as int)[0] == s@[i as int]);
            let ghost before = out@;
            append_chars(&mut out, to);
            out.push(s[i]);
            assert(before + interleaved(s@.skip(i as int), to@) =~= out@ + interleaved(
                s@.skip(i + 1),
                to@,
            ));
            i = i + 1;
        }
        append_chars(&mut out, to);
        assert(s@.skip(i as int).len() == 0);
        return out;
    }
    assert(s@.skip(0) == s@);
    while i < s.len()
        invariant
            i <= s@.len(),
            from@.len() > 0,
            out@ + replaced(s@.skip(i as int), from@, to@) == replaced(s@, from@, to@),
        decreases s@.len() - i,
    {
        let ghost rest = s@.skip(i as int);
        let ghost before = out@;
        if crate::text::matches_at(s, from, i) {
            assert(rest.take(from@.len() as int) =~= s@.subrange(i as int, i + from@.len()));
            assert(rest.skip(from@.len() as int) =~= s@.skip(i + from@.len()));
            append_chars(&mut out, to);
            assert(before + replaced(rest, from@, to@) =~= out@ + replaced(
                s@.skip(i + from@.len()),
                from@,
                to@,
            ));
            i = i + from.len();
        } else {
            proof {
                if rest.len() >= from@.len() {
                    assert(rest.take(from@.len() as int) =~= s@.subrange(i as int, i + from@.len()));
                }
            }
            assert(rest.drop_first() == s@.skip(i + 1));
            assert(rest[0] == s@[i as int]);
            if s.len() - i < from.len() {
                assert(replaced(rest, from@, to@) == rest);
                let tail = crate::text::slice_chars(s, i, s.len());
                append_chars(&mut out, &tail);
                assert(s@.subrange(i as int, s@.len() as int) == rest);
                return out;
            }
            out.push(s[i]);
            assert(before + replaced(rest, from@, to@) =~= out@ + replaced(
                s@.skip(i + 1),
                from@,
                to@,
            ));
            i = i + 1;
        }
    }
    assert(s@.skip(i as int).len() == 0);
    assert(out@ + seq![] =~= out@);
    out
}

/// `p` without a leading `\\?\` (the verbatim prefix of a canonical
/// Windows path).
pub open spec fn without_verbatim(p: Seq<char>) -> Seq<char> {
    if starts_with(p, "\\\\?\\"@) {
        p.skip(4)
    } else {
        p
    }
}

/// Tool output with the workspace's paths put back as the project root's:
/// the workspace's `file://` URL and native path, and, when its canonical
/// form (verbatim prefix dropped) differs, that form's URL and native path.
pub open spec fn workspace_paths_rewritten(
    stderr: Seq<char>,
    workspace: Seq<char>,
    root: Seq<char>,
    canonical: Option<Seq<char>>,
) -> Seq<char> {
    let a = replaced(stderr, file_url(workspace), file_url(root));
    let b = replaced(a, workspace, root);
    match canonical {
        Some(c) => {
            let st = without_verbatim(c);
            if st != workspace {
                replaced(replaced(b, file_url(st), file_url(root)), st, root)
            } else {
                b
            }
        },
        None => b,
    }
}

/// Rewrites the workspace's paths in tool output to the project root's (see
/// [`workspace_paths_rewritten`]); `canonical` is the workspace path as the
/// file system resolves it, when it could.
pub fn rewrite_workspace_paths(
    stderr: &str,
    workspace_path: &str,
    root: &str,
    canonical: Option<&str>,
) -> (r: String)
    ensures
        r@ == workspace_paths_rewritten(stderr@, workspace_path@, root@, match canonical {
            Some(c) => Some(c@),
            None => None,
        }),
{
    let s = chars_of(stderr);
    let native = chars_of(workspace_path);
    let root_native = chars_of(root);
    let root_url = chars_of(file_url_form(root).as_str());
    let ws_url = chars_of(file_url_form(workspace_path).as_str());
    let a = replace_text(&s, &ws_url, &root_url);
    let b = replace_text(&a, &native, &root_native);
    match canonical {
        Some(c) => {
            let cc = chars_of(c);
            let prefix = lit("\\\\?\\");
            proof {
                reveal_strlit("\\\\?\\");
            }
            let st = if starts_with_chars(&cc, &prefix) {
                crate::text::slice_chars(&cc, 4, cc.len())
            } else {
                crate::text::copy_chars(&cc)
            };
            if !crate::text::chars_eq(&st, &native) {
                let st_text = string_from_chars(&st);
                let st_url = chars_of(file_url_form(st_text.as_str()).as_str());
                let x = replace_text(&b, &st_url, &root_url);
                let y = replace_text(&x, &st, &root_native);
                string_from_chars(&y)
            } else {
                string_from_chars(&b)
            }
        },
        None => string_from_chars(&b),
    }
}

// ---------------------------------------------------------------------------
// Script entries and the files they import
// ---------------------------------------------------------------------------

/// The components a relative local import `spec` of script `source` names:
/// the source's directory, then the specifier's components, the last one
/// given the extension `.ts` when it has none.
pub open spec fn import_components(source: Seq<char>, spec: Seq<char>) -> Seq<Seq<char>> {
    let comps = source_dir(source) + path_components(spec);
    if comps.len() > 0 && comps.last() != ".."@ && extension(comps.last()) is None {
        comps.drop_last().push(comps.last() + ".ts"@)
    } else {
        comps
    }
}

/// The project file (by path) of the text the file system gives for `p`.
pub open spec fn text_of(files: Seq<ProjectFile>, p: Seq<char>) -> Option<Seq<char>> {
    let i = file_index(files, lookup_key(path_components(p)));
    if 0 <= i < files.len() {
        match files[i].content {
            Ok(t) => Some(t@),
            Err(_) => None,
        }
    } else {
        None
    }
}

/// The project files that the local imports in `specs`, written in script
/// `source`, lead to, by their paths. A rooted specifier names no project
/// file.
pub open spec fn import_targets(files: Seq<ProjectFile>, source: Seq<char>, specs: Seq<Seq<char>>) -> Seq<
    Seq<char>,
>
    decreases specs.len(),
{
    if specs.len() == 0 {
        seq![]
    } else {
        let prev = import_targets(files, source, specs.drop_last());
        let spec = specs.last();
        let key = lookup_key(import_components(source, spec));
        if is_local_specifier(spec) && spec[0] != '/' && file_index(files, key) >= 0 {
            prev.push(key)
        } else {
            prev
        }
    }
}

/// The files that script `p` imports locally; none when its text cannot be
/// read.
pub open spec fn script_imports(files: Seq<ProjectFile>, p: Seq<char>) -> Seq<Seq<char>> {
    match text_of(files, p) {
        Some(t) => import_targets(files, p, module_specifiers(t)),
        None => seq![],
    }
}

/// Every script of `s` has its imports in `s`.
pub open spec fn imports_closed(files: Seq<ProjectFile>, s: Set<Seq<char>>) -> bool {
    forall|p: Seq<char>, k: int|
        s.contains(p) && 0 <= k < script_imports(files, p).len() ==> s.contains(
            #[trigger] script_imports(files, p)[k],
        )
}

/// `s` is the set of scripts reachable from `entries`: it holds them, holds
/// the imports of each of its scripts, and lies within every set that does.
pub open spec fn is_reachable_set(files: Seq<ProjectFile>, entries: Set<Seq<char>>, s: Set<Seq<char>>) -> bool {
    &&& entries.subset_of(s)
    &&& imports_closed(files, s)
    &&& forall|t: Set<Seq<char>>|
        entries.subset_of(t) && imports_closed(files, t) ==> #[trigger] s.subset_of(t)
}

/// The scripts reachable from entries are one set: any two sets that hold
/// the entries, hold the imports of their scripts and lie within every such
/// set are equal.
pub proof fn law_reachable_set_unique(
    files: Seq<ProjectFile>,
    entries: Set<Seq<char>>,
    s1: Set<Seq<char>>,
    s2: Set<Seq<char>>,
)
    requires
        is_reachable_set(files, entries, s1),
        is_reachable_set(files, entries, s2),
    ensures
        s1 == s2,
{
    assert(s1.subset_of(s2));
    assert(s2.subset_of(s1));
    assert(s1 =~= s2);
}

/// Paths in path order, none twice.
pub open spec fn sorted_distinct(s: Seq<Seq<char>>) -> bool {
    &&& s.no_duplicates()
    &&& forall|i: int, j: int| 0 <= i < j < s.len() ==> path_order(s[i], s[j]) <= 0
}

fn has_no_extension(c: &Vec<Vec<char>>) -> (r: bool)
    ensures
        r == (views(c@).len() > 0 && views(c@).last() != ".."@ && extension(views(c@).last()) is None),
{
    let n = c.len();
    if n == 0 {
        return false;
    }
    assert(views(c@).last() == c@[n - 1]@);
    if crate::layout::str_is(&c[n - 1], "..") {
        return false;
    }
    match crate::layout::find_last_dot(&c[n - 1]) {
        None => true,
        Some(k) => k == 0,
    }
}

/// The components of a relative local import (see [`import_components`]).
fn import_components_of(source: &str, spec: &Vec<char>) -> (r: Vec<Vec<char>>)
    ensures
        views(r@) == import_components(source@, spec@),
{
    let dir = crate::layout::source_dir_of(source);
    let sc = crate::diagnostics::components_of(spec);
    let mut comps = crate::layout::concat_pieces(&dir, &sc);
    if has_no_extension(&comps) {
        let n = comps.len();
        let mut last = crate::text::copy_chars(&comps[n - 1]);
        append_str(&mut last, ".ts");
        let ghost before = views(comps@);
        comps.set(n - 1, last);
        assert(views(comps@) =~= before.drop_last().push(before.last() + ".ts"@));
    }
    comps
}

/// The path that components name once `..` is resolved (see [`lookup_key`]).
fn lookup_key_of(comps: &Vec<Vec<char>>) -> (r: Vec<char>)
    ensures
        r@ == lookup_key(views(comps@)),
{
    let mut stack: Vec<Vec<char>> = Vec::new();
    assert(views(stack@) =~= seq![]);
    crate::layout::walk_components(&mut stack, comps);
    crate::diagnostics::join_with_slash(&stack)
}

fn import_targets_of(tree: &ProjectTree, source: &str, specs: &Vec<String>) -> (r: Vec<Vec<char>>)
    ensures
        views(r@) == import_targets(tree.files@, source@, texts(specs@)),
{
    let ghost ss = texts(specs@);
    let mut out: Vec<Vec<char>> = Vec::new();
    let mut i: usize = 0;
    while i < specs.len()
        invariant
            i <= specs@.len(),
            ss == texts(specs@),
            views(out@) == import_targets(tree.files@, source@, ss.take(i as int)),
        decreases specs@.len() - i,
    {
        assert(ss.take(i + 1).drop_last() == ss.take(i as int));
        assert(ss.take(i + 1).last() == specs@[i as int]@);
        let sp = chars_of(specs[i].as_str());
        if is_local_module_specifier(specs[i].as_str()) && sp[0] != '/' {
            let comps = import_components_of(source, &sp);
            let key = lookup_key_of(&comps);
            if tree.index_of(&key).is_some() {
                let ghost before = views(out@);
                let ghost kv = key@;
                out.push(key);
                assert(views(out@) =~= before.push(kv));
            }
        }
        i = i + 1;
    }
    assert(ss.take(specs@.len() as int) == ss);
    out
}

/// The text of the project file that `p` leads to (see [`text_of`]).
pub fn text_of_path<'a>(tree: &'a ProjectTree, p: &Vec<char>) -> (r: Option<&'a String>)
    ensures
        match r {
            Some(t) => text_of(tree.files@, p@) == Some(t@),
            None => text_of(tree.files@, p@) is None,
        },
{
    let comps = crate::diagnostics::components_of(p);
    match tree.find(&comps) {
        Some(i) => {
            proof {
                crate::project::lemma_file_index_range(tree.files@, lookup_key(path_components(p@)));
            }
            match &tree.files[i].content {
                Ok(t) => Some(t),
                Err(_) => None,
            }
        },
        None => None,
    }
}

/// The files that script `p` imports locally (see [`script_imports`]).
fn script_imports_of(tree: &ProjectTree, p: &Vec<char>) -> (r: Vec<Vec<char>>)
    ensures
        views(r@) == script_imports(tree.files@, p@),
{
    match text_of_path(tree, p) {
        Some(t) => {
            let specs = extract_module_specifiers(t.as_str());
            let source = string_from_chars(p);
            import_targets_of(tree, source.as_str(), &specs)
        },
        None => Vec::new(),
    }
}

fn contains_text(v: &Vec<Vec<char>>, x: &Vec<char>) -> (r: bool)
    ensures
        r == views(v@).contains(x@),
{
    let mut i: usize = 0;
    while i < v.len()
        invariant
            i <= v@.len(),
            forall|k: int| 0 <= k < i ==> views(v@)[k] != x@,
        decreases v@.len() - i,
    {
        assert(views(v@)[i as int] == v@[i as int]@);
        if crate::text::chars_eq(&v[i], x) {
            return true;
        }
        i = i + 1;
    }
    false
}

/// Inserts a new path into paths in path order.
fn insert_sorted_distinct(v: &mut Vec<Vec<char>>, x: &Vec<char>)
    requires
        sorted_distinct(views(old(v)@)),
        !views(old(v)@).contains(x@),
    ensures
        sorted_distinct(views(final(v)@)),
        views(final(v)@).to_set() == views(old(v)@).to_set().insert(x@),
        views(final(v)@).len() == views(old(v)@).len() + 1,
{
    let ghost s = views(v@);
    let j = crate::pages::place_of_path(v, x);
    v.insert(j, crate::text::copy_chars(x));
    let ghost t = views(v@);
    assert(t =~= s.insert(j as int, x@));
    assert forall|a: int, b: int| 0 <= a < b < t.len() implies path_order(t[a], t[b]) <= 0 by {
        if b < j {
            assert(t[a] == s[a] && t[b] == s[b]);
            assert(path_order(s[a], s[b]) <= 0);
        } else if b == j {
            assert(t[b] == x@);
            assert(t[a] == s[a]);
            if a < j - 1 {
                assert(path_order(s[a], s[j - 1]) <= 0);
                crate::pages::lemma_path_order(s[a], s[j - 1], x@);
            }
        } else if a == j {
            assert(t[a] == x@ && t[b] == s[b - 1]);
            assert(path_order(s[b - 1], x@) > 0);
            crate::pages::lemma_path_order(x@, s[b - 1], x@);
        } else if a < j {
            assert(t[a] == s[a] && t[b] == s[b - 1]);
            assert(path_order(s[a], s[b - 1]) <= 0);
        } else {
            assert(t[a] == s[a - 1] && t[b] == s[b - 1]);
            assert(path_order(s[a - 1], s[b - 1]) <= 0);
        }
    }
    assert(t.no_duplicates()) by {
        assert forall|a: int, b: int| 0 <= a < t.len() && 0 <= b < t.len() && a != b implies t[a]
            != t[b] by {
            if a != j && b != j {
                let a2 = if a < j { a } else { a - 1 };
                let b2 = if b < j { b } else { b - 1 };
                assert(t[a] == s[a2] && t[b] == s[b2]);
            } else if a == j {
                let b2 = if b < j { b } else { b - 1 };
                assert(t[b] == s[b2]);
                assert(s.contains(s[b2]));
            } else {
                let a2 = if a < j { a } else { a - 1 };
                assert(t[a] == s[a2]);
                assert(s.contains(s[a2]));
            }
        }
    }
    assert(t.to_set() =~= s.to_set().insert(x@)) by {
        assert forall|y: Seq<char>| t.to_set().contains(y) implies s.to_set().insert(x@).contains(y) by {
            let k = choose|k: int| 0 <= k < t.len() && t[k] == y;
            if k < j {
                assert(s[k] == y);
            } else if k > j {
                assert(s[k - 1] == y);
            }
        }
        assert forall|y: Seq<char>| s.to_set().insert(x@).contains(y) implies t.to_set().contains(y) by {
            if y == x@ {
                assert(t[j as int] == y);
            } else {
                let k = choose|k: int| 0 <= k < s.len() && s[k] == y;
                if k < j {
                    assert(t[k] == y);
                } else {
                    assert(t[k + 1] == y);
                }
            }
        }
    }
}

/// Distinct elements drawn from `u` are no more than `u` has.
pub proof fn lemma_distinct_within(v: Seq<Seq<char>>, u: Seq<Seq<char>>)
    requires
        v.no_duplicates(),
        forall|i: int| 0 <= i < v.len() ==> u.contains(#[trigger] v[i]),
    ensures
        v.len() <= u.len(),
{
    v.unique_seq_to_set();
    assert(v.to_set().subset_of(u.to_set())) by {
        assert forall|x: Seq<char>| v.to_set().contains(x) implies u.to_set().contains(x) by {
            let k = choose|k: int| 0 <= k < v.len() && v[k] == x;
            assert(u.contains(v[k]));
        }
    }
    u.lemma_cardinality_of_set();
    vstd::seq_lib::seq_to_set_is_finite(u);
    vstd::set_lib::lemma_len_subset(v.to_set(), u.to_set());
}

/// The scripts reachable from the entries through local imports, in path
/// order (see [`is_reachable_set`]). Import targets are project files,
/// named by their paths.
pub fn reachable_script_paths(tree: &ProjectTree, entries: &Vec<String>) -> (r: Vec<String>)
    ensures
        is_reachable_set(tree.files@, texts(entries@).to_set(), texts(r@).to_set()),
        sorted_distinct(texts(r@)),
{
    let ghost files = tree.files@;
    let ghost es = texts(entries@);
    let ghost e = es.to_set();
    let ghost paths = files.map_values(|f: ProjectFile| f.path@);
    let ghost universe = es + paths;
    let mut pending: Vec<Vec<char>> = Vec::new();
    let mut i: usize = 0;
    while i < entries.len()
        invariant
            i <= entries@.len(),
            es == texts(entries@),
            views(pending@) == es.take(i as int),
        decreases entries@.len() - i,
    {
        let ghost before = views(pending@);
        pending.push(chars_of(entries[i].as_str()));
        assert(views(pending@) =~= before.push(entries@[i as int]@));
        assert(es.take(i + 1) =~= es.take(i as int).push(entries@[i as int]@));
        i = i + 1;
    }
    assert(es.take(entries@.len() as int) == es);
    let mut visited: Vec<Vec<char>> = Vec::new();
    assert(views(visited@) =~= seq![]);
    assert forall|y: Seq<char>| e.contains(y) implies views(pending@).contains(y) by {}
    assert forall|k: int| 0 <= k < pending@.len() implies universe.contains(#[trigger] views(pending@)[k]) by {
        assert(universe[k] == es[k]);
    }
    while pending.len() > 0
        invariant
            files == tree.files@,
            universe == es + paths,
            paths == files.map_values(|f: ProjectFile| f.path@),
            e == es.to_set(),
            sorted_distinct(views(visited@)),
            forall|k: int| 0 <= k < visited@.len() ==> universe.contains(#[trigger] views(visited@)[k]),
            forall|k: int| 0 <= k < pending@.len() ==> universe.contains(#[trigger] views(pending@)[k]),
            forall|y: Seq<char>|
                e.contains(y) ==> views(visited@).contains(y) || views(pending@).contains(y),
            forall|x: Seq<char>, k: int|
                views(visited@).contains(x) && 0 <= k < script_imports(files, x).len() ==> views(
                    visited@,
                ).contains(#[trigger] script_imports(files, x)[k]) || views(pending@).contains(
                    script_imports(files, x)[k],
                ),
            forall|t: Set<Seq<char>>|
                e.subset_of(t) && imports_closed(files, t) ==> (forall|y: Seq<char>|
                    views(visited@).contains(y) || views(pending@).contains(y) ==> #[trigger] t.contains(y)),
        decreases universe.len() - visited@.len(), pending@.len(),
    {
        let ghost v0 = views(visited@);
        let ghost p0 = views(pending@);
        let p = pending.pop().unwrap();
        assert(views(pending@) =~= p0.drop_last());
        assert(p@ == p0.last());
        assert(p0 =~= views(pending@).push(p@));
        if contains_text(&visited, &p) {
            assert forall|y: Seq<char>| p0.contains(y) implies views(visited@).contains(y) || views(
                pending@,
            ).contains(y) by {
                let k = choose|k: int| 0 <= k < p0.len() && p0[k] == y;
                if k < p0.len() - 1 {
                    assert(views(pending@)[k] == y);
                }
            }
            continue;
        }
        proof {
            assert(universe.contains(p@)) by {
                assert(p0[p0.len() - 1] == p@);
            }
            let w = v0.push(p@);
            assert(w.no_duplicates()) by {
                assert forall|a: int, b: int| 0 <= a < w.len() && 0 <= b < w.len() && a != b implies w[a]
                    != w[b] by {
                    if a < v0.len() && b < v0.len() {
                    } else if a < v0.len() {
                        assert(v0.contains(v0[a]));
                    } else {
                        assert(v0.contains(v0[b]));
                    }
                }
            }
            assert forall|k: int| 0 <= k < w.len() implies universe.contains(#[trigger] w[k]) by {
                if k < v0.len() {
                    assert(universe.contains(v0[k]));
                }
            }
            lemma_distinct_within(w, universe);
        }
        insert_sorted_distinct(&mut visited, &p);
        let imports = script_imports_of(tree, &p);
        let ghost v1 = views(visited@);
        let ghost pm = views(pending@);
        let mut k: usize = 0;
        while k < imports.len()
            invariant
                k <= imports@.len(),
                files == tree.files@,
                universe == es + paths,
                paths == files.map_values(|f: ProjectFile| f.path@),
                views(imports@) == script_imports(files, p@),
                views(visited@) == v1,
                v1.to_set() == v0.to_set().insert(p@),
                forall|m: int| 0 <= m < pm.len() ==> views(pending@)[m] == pm[m],
                pm.len() <= pending@.len(),
                forall|m: int| 0 <= m < pending@.len() ==> universe.contains(#[trigger] views(pending@)[m]),
                forall|m: int| 0 <= m < k ==> v1.contains(#[trigger] views(imports@)[m]) || views(pending@).contains(views(imports@)[m]),
                forall|m: int| pm.len() <= m < pending@.len() ==> exists|q: int| 0 <= q < k && #[trigger] views(pending@)[m] == views(imports@)[q],
            decreases imports@.len() - k,
        {
            let q = &imports[k];
            assert(views(imports@)[k as int] == q@);
            if !contains_text(&visited, q) {
                let ghost before = views(pending@);
                pending.push(crate::text::copy_chars(q));
                assert(views(pending@) =~= before.push(q@));
                proof {
                    let sp = script_imports(files, p@);
                    assert(sp[k as int] == q@);
                    assert(universe.contains(q@)) by {
                        lemma_import_in_paths(files, p@, k as int);
                        assert(paths.contains(q@));
                        let j = choose|j: int| 0 <= j < paths.len() && paths[j] == q@;
                        assert(universe[es.len() + j] == q@);
                    }
                    assert forall|m: int| 0 <= m < k + 1 implies v1.contains(#[trigger] views(imports@)[m]) || views(pending@).contains(views(imports@)[m]) by {
                        if m < k {
                            if before.contains(views(imports@)[m]) && !v1.contains(views(imports@)[m]) {
                                let z = choose|z: int| 0 <= z < before.len() && before[z] == views(imports@)[m];
                                assert(views(pending@)[z] == views(imports@)[m]);
                            }
                        } else {
                            assert(views(pending@)[before.len() as int] == q@);
                        }
                    }
                    assert forall|m: int| pm.len() <= m < pending@.len() implies exists|x: int| 0 <= x < k + 1 && #[trigger] views(pending@)[m] == views(imports@)[x] by {
                        if m < before.len() {
                            assert(views(pending@)[m] == before[m]);
                        } else {
                            assert(views(pending@)[m] == views(imports@)[k as int]);
                        }
                    }
                }
            } else {
                assert(v1.contains(views(imports@)[k as int]));
            }
            k = k + 1;
        }
        proof {
            let vs = views(visited@);
            let ps = views(pending@);
            assert forall|k: int| 0 <= k < visited@.len() implies universe.contains(#[trigger] views(visited@)[k]) by {
                assert(v1.to_set().contains(v1[k]));
                if v1[k] != p@ {
                    assert(v0.to_set().contains(v1[k]));
                    let z = choose|z: int| 0 <= z < v0.len() && v0[z] == v1[k];
                    assert(universe.contains(v0[z]));
                } else {
                    assert(p0[p0.len() - 1] == p@);
                    assert(universe.contains(p0[p0.len() - 1]));
                }
            }
            assert forall|y: Seq<char>| e.contains(y) implies vs.contains(y) || ps.contains(y) by {
                if v0.contains(y) {
                    assert(v1.to_set().contains(y));
                } else {
                    assert(p0.contains(y));
                    let z = choose|z: int| 0 <= z < p0.len() && p0[z] == y;
                    if z == p0.len() - 1 {
                        assert(v1.to_set().contains(p@));
                    } else {
                        assert(pm[z] == y);
                        assert(ps[z] == y);
                    }
                }
            }
            assert forall|x: Seq<char>, m: int|
                vs.contains(x) && 0 <= m < script_imports(files, x).len() implies vs.contains(
                    #[trigger] script_imports(files, x)[m],
                ) || ps.contains(script_imports(files, x)[m]) by {
                assert(v1.to_set().contains(x));
                if x == p@ {
                    assert(views(imports@)[m] == script_imports(files, x)[m]);
                } else {
                    assert(v0.to_set().contains(x));
                    assert(v0.contains(x));
                    let sx = script_imports(files, x)[m];
                    if v0.contains(sx) {
                        assert(v1.to_set().contains(sx));
                    } else {
                        assert(p0.contains(sx));
                        let z = choose|z: int| 0 <= z < p0.len() && p0[z] == sx;
                        if z == p0.len() - 1 {
                            assert(v1.to_set().contains(p@));
                        } else {
                            assert(ps[z] == sx);
                        }
                    }
                }
            }
            assert forall|t: Set<Seq<char>>| e.subset_of(t) && imports_closed(files, t) implies (forall|y: Seq<char>|
                vs.contains(y) || ps.contains(y) ==> #[trigger] t.contains(y)) by {
                assert(t.contains(p@)) by {
                    assert(p0.contains(p@)) by {
                        assert(p0[p0.len() - 1] == p@);
                    }
                }
                assert forall|y: Seq<char>| vs.contains(y) || ps.contains(y) implies #[trigger] t.contains(y) by {
                    if vs.contains(y) {
                        assert(v1.to_set().contains(y));
                        if y != p@ {
                            assert(v0.to_set().contains(y));
                            assert(v0.contains(y));
                        }
                    } else {
                        let z = choose|z: int| 0 <= z < ps.len() && ps[z] == y;
                        if z < pm.len() {
                            assert(pm[z] == y);
                            assert(p0[z] == y);
                        } else {
                            let x = choose|x: int| 0 <= x < imports@.len() && ps[z] == views(imports@)[x];
                            assert(script_imports(files, p@)[x] == y);
                        }
                    }
                }
            }
        }
    }
    let r = crate::pages::string_list(&visited);
    proof {
        let vs = views(visited@);
        assert(texts(r@) == vs);
        assert(e.subset_of(vs.to_set())) by {
            assert forall|y: Seq<char>| e.contains(y) implies vs.to_set().contains(y) by {
                assert(vs.contains(y));
            }
        }
        assert(imports_closed(files, vs.to_set())) by {
            assert forall|p: Seq<char>, k: int|
                vs.to_set().contains(p) && 0 <= k < script_imports(files, p).len() implies vs.to_set().contains(
                    #[trigger] script_imports(files, p)[k],
                ) by {
                assert(vs.contains(p));
            }
        }
        assert forall|t: Set<Seq<char>>| e.subset_of(t) && imports_closed(files, t) implies #[trigger] vs.to_set().subset_of(t) by {
            assert forall|y: Seq<char>| vs.to_set().contains(y) implies t.contains(y) by {
                assert(vs.contains(y));
            }
        }
    }
    r
}

proof fn lemma_import_in_paths(files: Seq<ProjectFile>, p: Seq<char>, k: int)
    requires
        0 <= k < script_imports(files, p).len(),
    ensures
        files.map_values(|f: ProjectFile| f.path@).contains(script_imports(files, p)[k]),
{
    match text_of(files, p) {
        Some(t) => {
            lemma_targets_in_paths(files, p, module_specifiers(t), k);
        },
        None => {},
    }
}

proof fn lemma_targets_in_paths(files: Seq<ProjectFile>, source: Seq<char>, specs: Seq<Seq<char>>, k: int)
    requires
        0 <= k < import_targets(files, source, specs).len(),
    ensures
        files.map_values(|f: ProjectFile| f.path@).contains(import_targets(files, source, specs)[k]),
    decreases specs.len(),
{
    let prev = import_targets(files, source, specs.drop_last());
    let spec = specs.last();
    let key = lookup_key(import_components(source, spec));
    if k < prev.len() {
        lemma_targets_in_paths(files, source, specs.drop_last(), k);
    } else {
        crate::project::lemma_file_index_range(files, key);
        let i = file_index(files, key);
        assert(files.map_values(|f: ProjectFile| f.path@)[i] == key);
    }
}

} // verus!
