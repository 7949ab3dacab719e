//! Page discovery, the fixed source-to-`dist/` mapping, collision detection,
//! reference classification and resolution, and relative path computation.
//!
//! Paths are project-relative strings whose separators are `/` or `\`; a path
//! is read through its components (see [`path_components`]).

use vstd::prelude::*;

use crate::diagnostics::{
    components_of, join, join_with_slash, path_components, slash_chars, slashed, views,
};
use crate::cli::{is_white_space, is_white_space_char};
use crate::css::{scan_css, token_wf, css_tokens, CssToken, CssTokenKind};
use crate::text::{line_col, line_col_at, ends_with, ends_with_chars};
use crate::project::{file_exists, ProjectFile, ProjectTree};
use crate::text::{
    append_chars, ascii_lower, chars_of, contains_chars, contains_seq, eq_ignore_ascii_case,
    eq_ignore_ascii_case_chars, lit, lower_char, slice_chars, starts_with, starts_with_chars,
    string_from_chars,
};

verus! {

/// The path begins with a `.` current-directory component.
pub open spec fn has_leading_cur_dir(s: Seq<char>) -> bool {
    s == seq!['.'] || (s.len() >= 2 && s[0] == '.' && s[1] == '/')
}

/// Some component of the (slashed) path begins with `.`: a dotfile or dot
/// directory, a `..` parent, or a leading `.`.
pub open spec fn has_dot_component(s: Seq<char>) -> bool {
    has_leading_cur_dir(s) || exists|k: int|
        0 <= k < path_components(s).len() && #[trigger] path_components(s)[k][0] == '.'
}

/// Index of the last `.` in `name`, or `-1`.
pub open spec fn last_dot(name: Seq<char>) -> int
    decreases name.len(),
{
    if name.len() == 0 {
        -1
    } else if name.last() == '.' {
        name.len() - 1
    } else {
        last_dot(name.drop_last())
    }
}

/// The extension of a file name (`Path::extension`): what follows the last
/// `.`, provided something precedes that `.`.
pub open spec fn extension(name: Seq<char>) -> Option<Seq<char>> {
    let k = last_dot(name);
    if k <= 0 {
        None
    } else {
        Some(name.skip(k + 1))
    }
}

/// The last component of `rest` has extension `e`, ignoring ASCII case.
pub open spec fn has_extension(rest: Seq<Seq<char>>, e: Seq<char>) -> bool {
    rest.len() > 0 && match extension(rest.last()) {
        Some(x) => eq_ignore_ascii_case(x, e),
        None => false,
    }
}

/// `rest` with the extension of its last component replaced by `js`.
pub open spec fn with_js_extension(rest: Seq<Seq<char>>) -> Seq<Seq<char>> {
    let name = rest.last();
    rest.update(rest.len() - 1, name.take(last_dot(name)) + seq!['.', 'j', 's'])
}

/// The `dist/` components that a source path maps to, if any:
/// `pages/<rel>.html` to `dist/<rel>.html`, `styles/<rel>.css` to
/// `dist/styles/<rel>.css`, `scripts/<rel>.ts` to `dist/scripts/<rel>.js`,
/// `assets/<rel>` to `dist/assets/<rel>`, `tokens/tokens.json` to
/// `dist/styles/tokens.css`; `wda.json`, `README.md`, `.gitignore`, `docs/`,
/// `components/`, `dist/`, dot components and rooted paths map to nothing.
pub open spec fn dist_components(p: Seq<char>) -> Option<Seq<Seq<char>>> {
    let s = slashed(p);
    let c = path_components(s);
    let rest = c.drop_first();
    if s == "wda.json"@ || s == "README.md"@ || s == ".gitignore"@ || starts_with(s, "docs/"@)
        || starts_with(s, "components/"@) || starts_with(s, "dist/"@) {
        None
    } else if has_dot_component(s) {
        None
    } else if s == "tokens/tokens.json"@ {
        Some(seq!["dist"@, "styles"@, "tokens.css"@])
    } else if s.len() > 0 && s[0] == '/' {
        None
    } else if c.len() == 0 {
        None
    } else if c[0] == "pages"@ && has_extension(rest, "html"@) {
        Some(seq!["dist"@] + rest)
    } else if c[0] == "styles"@ && has_extension(rest, "css"@) {
        Some(seq!["dist"@, "styles"@] + rest)
    } else if c[0] == "scripts"@ && has_extension(rest, "ts"@) {
        Some(seq!["dist"@, "scripts"@] + with_js_extension(rest))
    } else if c[0] == "assets"@ {
        Some(seq!["dist"@, "assets"@] + rest)
    } else {
        None
    }
}

/// The `dist/` path (joined with `/`) that a source path maps to, if any.
pub open spec fn dist_path(p: Seq<char>) -> Option<Seq<char>> {
    match dist_components(p) {
        Some(c) => Some(join(c, seq!['/'])),
        None => None,
    }
}

/// Whether the path begins with a `.` component (see [`has_leading_cur_dir`]).
pub fn is_leading_cur_dir(s: &Vec<char>) -> (r: bool)
    ensures
        r == has_leading_cur_dir(s@),
{
    if s.len() == 1 && s[0] == '.' {
        assert(s@ == seq!['.']);
        true
    } else if s.len() >= 2 && s[0] == '.' && s[1] == '/' {
        true
    } else {
        assert(s@ != seq!['.']) by {
            if s@ == seq!['.'] {
                assert(s@[0] == '.');
            }
        }
        false
    }
}

fn any_dot_piece(c: &Vec<Vec<char>>) -> (r: bool)
    requires
        forall|m: int| 0 <= m < c@.len() ==> (#[trigger] c@[m])@.len() > 0,
    ensures
        r == exists|k: int| 0 <= k < views(c@).len() && #[trigger] views(c@)[k][0] == '.',
{
    let mut k: usize = 0;
    while k < c.len()
        invariant
            k <= c.len(),
            forall|m: int| 0 <= m < c@.len() ==> (#[trigger] c@[m])@.len() > 0,
            forall|m: int| 0 <= m < k ==> #[trigger] views(c@)[m][0] != '.',
        decreases c.len() - k,
    {
        assert(views(c@)[k as int] == c@[k as int]@);
        assert(c@[k as int]@.len() > 0);
        if c[k][0] == '.' {
            return true;
        }
        k = k + 1;
    }
    false
}

/// The index of the last `.` of a name (see [`last_dot`]).
pub fn find_last_dot(name: &Vec<char>) -> (r: Option<usize>)
    ensures
        match r {
            Some(k) => k as int == last_dot(name@) && k < name@.len(),
            None => last_dot(name@) == -1,
        },
{
    let mut i = name.len();
    assert(name@.take(i as int) == name@);
    while i > 0
        invariant
            i <= name.len(),
            last_dot(name@) == last_dot(name@.take(i as int)),
        decreases i,
    {
        assert(name@.take(i as int).drop_last() == name@.take(i - 1));
        if name[i - 1] == '.' {
            return Some(i - 1);
        }
        i = i - 1;
    }
    None
}

proof fn lemma_last_dot_range(name: Seq<char>)
    ensures
        -1 <= last_dot(name) < name.len(),
    decreases name.len(),
{
    if name.len() > 0 {
        lemma_last_dot_range(name.drop_last());
    }
}

/// Whether the last of the components from `from` on has extension `e` (see
/// [`has_extension`]).
pub fn has_extension_of(rest: &Vec<Vec<char>>, from: usize, e: &str) -> (r: bool)
    requires
        from <= rest@.len(),
    ensures
        r == has_extension(views(rest@).skip(from as int), e@),
{
    let ghost v = views(rest@).skip(from as int);
    if rest.len() == from {
        return false;
    }
    let name = &rest[rest.len() - 1];
    assert(v.last() == name@);
    match find_last_dot(name) {
        None => false,
        Some(k) => {
            if k == 0 {
                return false;
            }
            assert(k < name.len());
            let x = crate::text::slice_chars(name, k + 1, name.len());
            assert(x@ == name@.skip(k + 1));
            let ev = lit(e);
            eq_ignore_ascii_case_chars(&x, &ev)
        },
    }
}

fn push_piece(out: &mut Vec<Vec<char>>, s: &str)
    ensures
        views(final(out)@) == views(old(out)@).push(s@),
{
    let v = chars_of(s);
    out.push(v);
    assert(views(out@) =~= views(old(out)@).push(s@));
}

fn append_pieces(out: &mut Vec<Vec<char>>, c: &Vec<Vec<char>>, from: usize)
    requires
        from <= c@.len(),
    ensures
        views(final(out)@) == views(old(out)@) + views(c@).skip(from as int),
{
    let mut i = from;
    while i < c.len()
        invariant
            from <= i <= c.len(),
            views(out@) == views(old(out)@) + views(c@).subrange(from as int, i as int),
        decreases c.len() - i,
    {
        let piece = crate::text::copy_chars(&c[i]);
        let ghost before = views(out@);
        out.push(piece);
        assert(views(out@) =~= before.push(c@[i as int]@));
        assert(views(c@).subrange(from as int, i + 1) =~= views(c@).subrange(from as int, i as int).push(
            c@[i as int]@,
        ));
        i = i + 1;
    }
    assert(views(c@).subrange(from as int, c@.len() as int) == views(c@).skip(from as int));
}

/// Whether characters `s` spell the text `lit_str`.
pub fn str_is(s: &Vec<char>, lit_str: &str) -> (r: bool)
    ensures
        r == (s@ == lit_str@),
{
    let l = lit(lit_str);
    crate::text::chars_eq(s, &l)
}

/// The `dist/` components of a source path (see [`dist_components`]).
pub fn dist_components_of(source_rel: &str) -> (r: Option<Vec<Vec<char>>>)
    ensures
        match r {
            Some(c) => dist_components(source_rel@) == Some(views(c@)),
            None => dist_components(source_rel@) is None,
        },
{
    let raw = chars_of(source_rel);
    let s = slash_chars(&raw);
    if str_is(&s, "wda.json") || str_is(&s, "README.md") || str_is(&s, ".gitignore")
        || starts_with_chars(&s, &lit("docs/")) || starts_with_chars(&s, &lit("components/"))
        || starts_with_chars(&s, &lit("dist/")) {
        return None;
    }
    let c = components_of(&s);
    proof {
        crate::diagnostics::lemma_named_pieces_nonempty(crate::diagnostics::split_on(s@, '/'));
        assert forall|m: int| 0 <= m < c@.len() implies (#[trigger] c@[m])@.len() > 0 by {
            assert(views(c@)[m] == c@[m]@);
        }
    }
    if is_leading_cur_dir(&s) || any_dot_piece(&c) {
        return None;
    }
    let mut out: Vec<Vec<char>> = Vec::new();
    if str_is(&s, "tokens/tokens.json") {
        push_piece(&mut out, "dist");
        push_piece(&mut out, "styles");
        push_piece(&mut out, "tokens.css");
        return Some(out);
    }
    if s.len() > 0 && s[0] == '/' {
        return None;
    }
    if c.len() == 0 {
        return None;
    }
    let ghost rest = views(c@).drop_first();
    assert(views(c@)[0] == c@[0]@);
    let first = &c[0];
    if str_is(first, "pages") && has_extension_of(&c, 1, "html") {
        push_piece(&mut out, "dist");
        append_pieces(&mut out, &c, 1);
        return Some(out);
    }
    if str_is(first, "styles") && has_extension_of(&c, 1, "css") {
        push_piece(&mut out, "dist");
        push_piece(&mut out, "styles");
        append_pieces(&mut out, &c, 1);
        return Some(out);
    }
    if str_is(first, "scripts") && has_extension_of(&c, 1, "ts") {
        push_piece(&mut out, "dist");
        push_piece(&mut out, "scripts");
        append_pieces(&mut out, &c, 1);
        assert(views(c@).skip(1) == rest);
        assert(rest.len() > 0);
        assert(out@.len() == views(out@).len());
        assert(views(out@).len() >= 2);
        let ghost before = views(out@);
        let ghost raw_before = out@;
        assert(before == seq!["dist"@, "scripts"@] + rest);
        assert(before.last() == rest.last());
        let name = out.pop().unwrap();
        assert(name == raw_before.last());
        assert(before.last() == raw_before.last()@);
        assert(views(out@) =~= before.drop_last());
        assert(name@ == rest.last());
        let k = match find_last_dot(&name) {
            Some(k) => k,
            None => {
                proof {
                    lemma_last_dot_range(name@);
                }
                0
            },
        };
        let mut renamed = crate::text::slice_chars(&name, 0, k);
        renamed.push('.');
        renamed.push('j');
        renamed.push('s');
        let ghost mid = views(out@);
        out.push(renamed);
        assert(views(out@) =~= mid.push(renamed@));
        proof {
            assert(last_dot(name@) > 0);
            assert(k as int == last_dot(name@));
            assert(renamed@ =~= name@.take(last_dot(name@)) + seq!['.', 'j', 's']);
            let w = with_js_extension(rest);
            assert(w =~= rest.drop_last().push(renamed@));
            assert(mid =~= seq!["dist"@, "scripts"@] + rest.drop_last());
            assert(views(out@) =~= seq!["dist"@, "scripts"@] + w);
        }
        return Some(out);
    }
    if str_is(first, "assets") {
        push_piece(&mut out, "dist");
        push_piece(&mut out, "assets");
        append_pieces(&mut out, &c, 1);
        return Some(out);
    }
    None
}

/// Maps a project-relative source path to its canonical `dist/`-relative
/// target path (see [`dist_components`] for the fixed mapping table).
pub fn map_source_to_dist(source_rel: &str) -> (r: Option<String>)
    ensures
        match r {
            Some(d) => dist_path(source_rel@) == Some(d@),
            None => dist_path(source_rel@) is None,
        },
{
    match dist_components_of(source_rel) {
        Some(c) => {
            let joined = join_with_slash(&c);
            Some(string_from_chars(&joined))
        },
        None => None,
    }
}

// ---------------------------------------------------------------------------
// Trimming
// ---------------------------------------------------------------------------

/// Number of leading white-space characters of `s`.
pub open spec fn leading_ws(s: Seq<char>) -> nat
    decreases s.len(),
{
    if s.len() == 0 || !is_white_space(s[0]) {
        0
    } else {
        1 + leading_ws(s.drop_first())
    }
}

/// Number of trailing white-space characters of `s`.
pub open spec fn trailing_ws(s: Seq<char>) -> nat
    decreases s.len(),
{
    if s.len() == 0 || !is_white_space(s.last()) {
        0
    } else {
        1 + trailing_ws(s.drop_last())
    }
}

/// `s` without leading and trailing white space (`str::trim`).
pub open spec fn trimmed(s: Seq<char>) -> Seq<char> {
    let a = leading_ws(s);
    if a == s.len() {
        seq![]
    } else {
        s.subrange(a as int, s.len() - trailing_ws(s))
    }
}

proof fn lemma_leading_ws(s: Seq<char>, i: int)
    requires
        0 <= i <= s.len(),
        forall|k: int| 0 <= k < i ==> is_white_space(#[trigger] s[k]),
    ensures
        leading_ws(s) == i + leading_ws(s.skip(i)),
    decreases i,
{
    if i > 0 {
        assert(s.skip(1) == s.drop_first());
        lemma_leading_ws(s.drop_first(), i - 1);
        assert(s.drop_first().skip(i - 1) == s.skip(i));
    } else {
        assert(s.skip(0) == s);
    }
}

proof fn lemma_trailing_ws(s: Seq<char>, i: int)
    requires
        0 <= i <= s.len(),
        forall|k: int| s.len() - i <= k < s.len() ==> is_white_space(#[trigger] s[k]),
    ensures
        trailing_ws(s) == i + trailing_ws(s.take(s.len() - i)),
    decreases i,
{
    if i > 0 {
        lemma_trailing_ws(s.drop_last(), i - 1);
        assert(s.drop_last().take(s.drop_last().len() - (i - 1)) == s.take(s.len() - i));
    } else {
        assert(s.take(s.len() as int) == s);
    }
}

proof fn lemma_ws_bounds(s: Seq<char>)
    ensures
        leading_ws(s) <= s.len(),
        trailing_ws(s) <= s.len(),
        leading_ws(s) < s.len() ==> leading_ws(s) + trailing_ws(s) < s.len(),
    decreases s.len(),
{
    if s.len() > 0 {
        lemma_ws_bounds(s.drop_first());
        lemma_ws_bounds(s.drop_last());
        if leading_ws(s) < s.len() {
            let a = leading_ws(s) as int;
            // the character at `a` is not white space, so trailing stops after it
            assert(!is_white_space(s[a])) by {
                lemma_leading_ws_stops(s);
            }
            lemma_trailing_ws_stops(s, a);
        }
    }
}

proof fn lemma_leading_bound(s: Seq<char>)
    ensures
        leading_ws(s) <= s.len(),
    decreases s.len(),
{
    if s.len() > 0 {
        lemma_leading_bound(s.drop_first());
    }
}

proof fn lemma_leading_ws_stops(s: Seq<char>)
    ensures
        leading_ws(s) < s.len() ==> !is_white_space(s[leading_ws(s) as int]),
        forall|k: int| 0 <= k < leading_ws(s) ==> is_white_space(#[trigger] s[k]),
    decreases s.len(),
{
    lemma_leading_bound(s);
    if s.len() > 0 && is_white_space(s[0]) {
        lemma_leading_bound(s.drop_first());
        lemma_leading_ws_stops(s.drop_first());
        assert forall|k: int| 0 <= k < leading_ws(s) implies is_white_space(#[trigger] s[k]) by {
            if k > 0 {
                assert(s[k] == s.drop_first()[k - 1]);
            }
        }
    }
}

proof fn lemma_trailing_ws_stops(s: Seq<char>, a: int)
    requires
        0 <= a < s.len(),
        !is_white_space(s[a]),
    ensures
        a + trailing_ws(s) < s.len(),
    decreases s.len(),
{
    if is_white_space(s.last()) {
        lemma_trailing_ws_stops(s.drop_last(), a);
    }
}

/// A text that neither starts nor ends with white space is its own trim.
pub proof fn lemma_trimmed_plain(s: Seq<char>)
    requires
        s.len() > 0,
        !is_white_space(s[0]),
        !is_white_space(s.last()),
    ensures
        trimmed(s) == s,
{
    assert(leading_ws(s) == 0);
    assert(trailing_ws(s) == 0);
    assert(s.subrange(0, s.len() as int) =~= s);
}

/// `s` without leading and trailing white space.
pub fn trim_chars(s: &Vec<char>) -> (r: Vec<char>)
    ensures
        r@ == trimmed(s@),
{
    let mut a: usize = 0;
    while a < s.len() && is_white_space_char(s[a])
        invariant
            a <= s.len(),
            forall|k: int| 0 <= k < a ==> is_white_space(#[trigger] s@[k]),
        decreases s.len() - a,
    {
        a = a + 1;
    }
    proof {
        lemma_leading_ws(s@, a as int);
        if a < s.len() {
            assert(leading_ws(s@.skip(a as int)) == 0);
        } else {
            assert(s@.skip(a as int).len() == 0);
        }
    }
    if a == s.len() {
        return Vec::new();
    }
    let mut b: usize = 0;
    while b < s.len() - a && is_white_space_char(s[s.len() - 1 - b])
        invariant
            a < s.len(),
            b <= s.len() - a,
            forall|k: int| s.len() - b <= k < s.len() ==> is_white_space(#[trigger] s@[k]),
        decreases s.len() - a - b,
    {
        b = b + 1;
    }
    proof {
        lemma_trailing_ws(s@, b as int);
        lemma_ws_bounds(s@);
        lemma_leading_ws_stops(s@);
        if b < s.len() - a {
            assert(trailing_ws(s@.take(s.len() - b)) == 0);
        } else {
            assert(!is_white_space(s@[a as int]));
            assert(false);
        }
    }
    slice_chars(s, a, s.len() - b)
}

// ---------------------------------------------------------------------------
// Secret paths
// ---------------------------------------------------------------------------

/// The file name of a path: its last component unless that is `..`.
pub open spec fn file_name(c: Seq<Seq<char>>) -> Seq<char> {
    if c.len() > 0 && c.last() != ".."@ {
        c.last()
    } else {
        seq![]
    }
}

/// A path is secret when it is (or lies under) a dotfile or dot directory, or
/// names a `.env*` file.
pub open spec fn is_secret(p: Seq<char>) -> bool {
    let s = slashed(p);
    let c = path_components(s);
    starts_with(file_name(c), ".env"@) || starts_with(s, ".env"@) || contains_seq(s, "/.env"@)
        || exists|k: int| 0 <= k < c.len() && #[trigger] c[k] != ".."@ && c[k][0] == '.'
}

fn any_hidden_component(c: &Vec<Vec<char>>) -> (r: bool)
    requires
        forall|m: int| 0 <= m < c@.len() ==> (#[trigger] c@[m])@.len() > 0,
    ensures
        r == exists|k: int|
            0 <= k < views(c@).len() && #[trigger] views(c@)[k] != ".."@ && views(c@)[k][0] == '.',
{
    let mut k: usize = 0;
    while k < c.len()
        invariant
            k <= c.len(),
            forall|m: int| 0 <= m < c@.len() ==> (#[trigger] c@[m])@.len() > 0,
            forall|m: int|
                0 <= m < k ==> !(#[trigger] views(c@)[m] != ".."@ && views(c@)[m][0] == '.'),
        decreases c.len() - k,
    {
        assert(views(c@)[k as int] == c@[k as int]@);
        assert(c@[k as int]@.len() > 0);
        if c[k][0] == '.' && !str_is(&c[k], "..") {
            return true;
        }
        k = k + 1;
    }
    false
}

/// Whether a path is secret (see [`is_secret`]): a dotfile, something under a
/// dot directory, or a `.env*` file.
pub fn is_secret_path(path: &str) -> (r: bool)
    ensures
        r == is_secret(path@),
{
    let raw = chars_of(path);
    let s = slash_chars(&raw);
    let c = components_of(&s);
    proof {
        crate::diagnostics::lemma_named_pieces_nonempty(crate::diagnostics::split_on(s@, '/'));
        assert forall|m: int| 0 <= m < c@.len() implies (#[trigger] c@[m])@.len() > 0 by {
            assert(views(c@)[m] == c@[m]@);
        }
    }
    let env = lit(".env");
    let name_is_env = if c.len() > 0 && !str_is(&c[c.len() - 1], "..") {
        assert(views(c@).last() == c@[c@.len() - 1]@);
        starts_with_chars(&c[c.len() - 1], &env)
    } else {
        assert(starts_with(seq![], ".env"@) == false) by {
            reveal_strlit(".env");
        }
        false
    };
    name_is_env || starts_with_chars(&s, &env) || contains_chars(&s, &lit("/.env"))
        || any_hidden_component(&c)
}

// ---------------------------------------------------------------------------
// Reference classification and resolution
// ---------------------------------------------------------------------------

/// Classification of a reference URL.
#[derive(Debug, Clone, PartialEq, Eq)]
pub enum ReferenceKind {
    /// Scheme-bearing URL (`http:`, `https:`, `data:`, `mailto:`, ...), with
    /// the scheme lower-cased.
    Scheme(String),
    /// Protocol-relative URL (starts with `//`).
    ProtocolRelative,
    /// Pure fragment reference (starts with `#`).
    Fragment,
    /// Project-relative or file-relative path, trimmed.
    FilePath(String),
}

/// Index of the first `c` in `s`, or `-1`.
pub open spec fn first_index(s: Seq<char>, c: char) -> int
    decreases s.len(),
{
    if s.len() == 0 {
        -1
    } else if s[0] == c {
        0
    } else {
        let k = first_index(s.drop_first(), c);
        if k < 0 {
            -1
        } else {
            k + 1
        }
    }
}

pub open spec fn is_ascii_alnum(c: char) -> bool {
    ('a' <= c && c <= 'z') || ('A' <= c && c <= 'Z') || ('0' <= c && c <= '9')
}

/// RFC 3986 scheme syntax: `ALPHA *( ALPHA / DIGIT / "+" / "-" / "." )`.
pub open spec fn is_scheme(p: Seq<char>) -> bool {
    p.len() > 0 && crate::diagnostics::is_ascii_alpha(p[0]) && forall|k: int|
        1 <= k < p.len() ==> is_ascii_alnum(#[trigger] p[k]) || p[k] == '+' || p[k] == '-' || p[k]
            == '.'
}

/// What a reference classifies as, over character sequences.
pub enum ReferenceClass {
    Scheme(Seq<char>),
    ProtocolRelative,
    Fragment,
    FilePath(Seq<char>),
}

/// The classification of a raw reference: a fragment starts with `#`, a
/// protocol-relative URL with `//`, a scheme-bearing URL has a valid scheme
/// before its first `:`; anything else is a file path.
pub open spec fn reference_class(raw: Seq<char>) -> ReferenceClass {
    let t = trimmed(raw);
    let colon = first_index(t, ':');
    if t.len() > 0 && t[0] == '#' {
        ReferenceClass::Fragment
    } else if starts_with(t, "//"@) {
        ReferenceClass::ProtocolRelative
    } else if colon >= 0 && is_scheme(t.take(colon)) {
        ReferenceClass::Scheme(t.take(colon).map_values(|c: char| ascii_lower(c)))
    } else {
        ReferenceClass::FilePath(t)
    }
}

pub open spec fn kind_matches(k: ReferenceKind, c: ReferenceClass) -> bool {
    match c {
        ReferenceClass::Scheme(s) => k matches ReferenceKind::Scheme(x) && x@ == s,
        ReferenceClass::ProtocolRelative => k == ReferenceKind::ProtocolRelative,
        ReferenceClass::Fragment => k == ReferenceKind::Fragment,
        ReferenceClass::FilePath(s) => k matches ReferenceKind::FilePath(x) && x@ == s,
    }
}

fn find_first(s: &Vec<char>, c: char) -> (r: Option<usize>)
    ensures
        match r {
            Some(k) => k as int == first_index(s@, c) && k < s@.len(),
            None => first_index(s@, c) == -1,
        },
{
    let mut i: usize = 0;
    assert(s@.skip(0) == s@);
    while i < s.len()
        invariant
            i <= s.len(),
            forall|m: int| 0 <= m < i ==> s@[m] != c,
            first_index(s@, c) == (if first_index(s@.skip(i as int), c) < 0 {
                -1
            } else {
                first_index(s@.skip(i as int), c) + i
            }),
        decreases s.len() - i,
    {
        if s[i] == c {
            return Some(i);
        }
        assert(s@.skip(i as int).drop_first() == s@.skip(i + 1));
        i = i + 1;
    }
    None
}

fn lower_ascii_chars(s: &Vec<char>) -> (r: Vec<char>)
    ensures
        r@ == s@.map_values(|c: char| ascii_lower(c)),
{
    let mut out: Vec<char> = Vec::new();
    let mut i: usize = 0;
    while i < s.len()
        invariant
            i <= s.len(),
            out@ == s@.take(i as int).map_values(|c: char| ascii_lower(c)),
        decreases s.len() - i,
    {
        out.push(lower_char(s[i]));
        assert(s@.take(i + 1).map_values(|c: char| ascii_lower(c)) =~= s@.take(i as int).map_values(
            |c: char| ascii_lower(c),
        ).push(ascii_lower(s@[i as int])));
        i = i + 1;
    }
    assert(s@.take(s.len() as int) == s@);
    out
}

fn scheme_chars(p: &Vec<char>) -> (r: bool)
    ensures
        r == is_scheme(p@),
{
    if p.len() == 0 {
        return false;
    }
    let c0 = p[0];
    if !(('a' <= c0 && c0 <= 'z') || ('A' <= c0 && c0 <= 'Z')) {
        return false;
    }
    let mut k: usize = 1;
    while k < p.len()
        invariant
            1 <= k <= p.len(),
            forall|m: int|
                1 <= m < k ==> is_ascii_alnum(#[trigger] p@[m]) || p@[m] == '+' || p@[m] == '-'
                    || p@[m] == '.',
        decreases p.len() - k,
    {
        let c = p[k];
        if !(('a' <= c && c <= 'z') || ('A' <= c && c <= 'Z') || ('0' <= c && c <= '9') || c == '+'
            || c == '-' || c == '.') {
            return false;
        }
        k = k + 1;
    }
    true
}

/// Classifies a reference (see [`reference_class`]).
pub fn classify_reference(raw: &str) -> (r: ReferenceKind)
    ensures
        kind_matches(r, reference_class(raw@)),
{
    let cs = chars_of(raw);
    let t = trim_chars(&cs);
    if t.len() > 0 && t[0] == '#' {
        return ReferenceKind::Fragment;
    }
    if starts_with_chars(&t, &lit("//")) {
        return ReferenceKind::ProtocolRelative;
    }
    match find_first(&t, ':') {
        Some(k) => {
            let prefix = slice_chars(&t, 0, k);
            assert(prefix@ == t@.take(k as int));
            if scheme_chars(&prefix) {
                let lower = lower_ascii_chars(&prefix);
                return ReferenceKind::Scheme(string_from_chars(&lower));
            }
        },
        None => {},
    }
    ReferenceKind::FilePath(string_from_chars(&t))
}

/// `c` without `..` components.
pub open spec fn without_parents(c: Seq<Seq<char>>) -> Seq<Seq<char>>
    decreases c.len(),
{
    if c.len() == 0 {
        seq![]
    } else if c.last() == ".."@ {
        without_parents(c.drop_last())
    } else {
        without_parents(c.drop_last()).push(c.last())
    }
}

/// The normal components (no `.`, `..` or root) of a path.
pub open spec fn normal_components(p: Seq<char>) -> Seq<Seq<char>> {
    without_parents(path_components(slashed(p)))
}

/// The normal components of the directory holding a file.
pub open spec fn parent_components(p: Seq<char>) -> Seq<Seq<char>> {
    let c = path_components(slashed(p));
    if c.len() == 0 {
        seq![]
    } else {
        without_parents(c.drop_last())
    }
}

/// Walks `comps` from `stack`: `..` pops a component (if any), any other
/// component is pushed.
pub open spec fn walk(stack: Seq<Seq<char>>, comps: Seq<Seq<char>>) -> Seq<Seq<char>>
    decreases comps.len(),
{
    if comps.len() == 0 {
        stack
    } else {
        let s = walk(stack, comps.drop_last());
        if comps.last() == ".."@ {
            if s.len() > 0 {
                s.drop_last()
            } else {
                s
            }
        } else {
            s.push(comps.last())
        }
    }
}

/// `s` up to its first `?` or `#`.
pub open spec fn without_query(s: Seq<char>) -> Seq<char> {
    let q = first_index(s, '?');
    let h = first_index(s, '#');
    if q < 0 && h < 0 {
        s
    } else if q < 0 || (h >= 0 && h < q) {
        s.take(h)
    } else {
        s.take(q)
    }
}

/// The project-relative components a file-path reference resolves to from
/// `source`: a path starting with `../` walks from the source's directory,
/// any other path from the project root; query and fragment are ignored.
pub open spec fn reference_target(file_path: Seq<char>, source: Seq<char>) -> Seq<Seq<char>> {
    let n = slashed(without_query(file_path));
    let start = if starts_with(n, "../"@) {
        parent_components(source)
    } else {
        seq![]
    };
    walk(start, path_components(n))
}

/// The first `upto` components of `c` without `..` (see [`without_parents`]).
pub fn without_parents_of(c: &Vec<Vec<char>>, upto: usize) -> (r: Vec<Vec<char>>)
    requires
        upto <= c@.len(),
    ensures
        views(r@) == without_parents(views(c@).take(upto as int)),
{
    let mut out: Vec<Vec<char>> = Vec::new();
    let mut i: usize = 0;
    while i < upto
        invariant
            i <= upto <= c@.len(),
            views(out@) == without_parents(views(c@).take(i as int)),
        decreases upto - i,
    {
        assert(views(c@).take(i + 1).drop_last() == views(c@).take(i as int));
        assert(views(c@).take(i + 1).last() == c@[i as int]@);
        if !str_is(&c[i], "..") {
            let piece = crate::text::copy_chars(&c[i]);
            let ghost before = views(out@);
            out.push(piece);
            assert(views(out@) =~= before.push(c@[i as int]@));
        }
        i = i + 1;
    }
    out
}

/// Applies [`walk`] in place.
pub fn walk_components(stack: &mut Vec<Vec<char>>, comps: &Vec<Vec<char>>)
    ensures
        views(final(stack)@) == walk(views(old(stack)@), views(comps@)),
{
    let mut i: usize = 0;
    while i < comps.len()
        invariant
            i <= comps.len(),
            views(stack@) == walk(views(old(stack)@), views(comps@).take(i as int)),
        decreases comps.len() - i,
    {
        assert(views(comps@).take(i + 1).drop_last() == views(comps@).take(i as int));
        assert(views(comps@).take(i + 1).last() == comps@[i as int]@);
        let ghost before = views(stack@);
        if str_is(&comps[i], "..") {
            if stack.len() > 0 {
                stack.pop();
                assert(views(stack@) =~= before.drop_last());
            }
        } else {
            let piece = crate::text::copy_chars(&comps[i]);
            stack.push(piece);
            assert(views(stack@) =~= before.push(comps@[i as int]@));
        }
        i = i + 1;
    }
    assert(views(comps@).take(comps.len() as int) == views(comps@));
}

fn without_query_chars(s: &Vec<char>) -> (r: Vec<char>)
    ensures
        r@ == without_query(s@),
{
    let q = find_first(s, '?');
    let h = find_first(s, '#');
    match (q, h) {
        (None, None) => slice_chars(s, 0, s.len()),
        (None, Some(h)) => slice_chars(s, 0, h),
        (Some(q), None) => slice_chars(s, 0, q),
        (Some(q), Some(h)) => if h < q {
            slice_chars(s, 0, h)
        } else {
            slice_chars(s, 0, q)
        },
    }
}

/// The components of the directory holding `source` (see [`parent_components`]).
fn parent_components_of(source: &str) -> (r: Vec<Vec<char>>)
    ensures
        views(r@) == parent_components(source@),
{
    let raw = chars_of(source);
    let s = slash_chars(&raw);
    let c = components_of(&s);
    if c.len() == 0 {
        return Vec::new();
    }
    let r = without_parents_of(&c, c.len() - 1);
    assert(views(c@).take(c.len() - 1) == views(c@).drop_last());
    r
}

/// The target components of a file-path reference (see [`reference_target`]).
pub fn reference_target_of(file_path: &str, source_file: &str) -> (r: Vec<Vec<char>>)
    ensures
        views(r@) == reference_target(file_path@, source_file@),
{
    let raw = chars_of(file_path);
    let path_only = without_query_chars(&raw);
    let n = slash_chars(&path_only);
    let mut stack = if starts_with_chars(&n, &lit("../")) {
        parent_components_of(source_file)
    } else {
        let e: Vec<Vec<char>> = Vec::new();
        assert(views(e@) =~= seq![]);
        e
    };
    let comps = components_of(&n);
    walk_components(&mut stack, &comps);
    stack
}

/// Resolves a file-path reference relative to the containing document or the
/// project root (see [`reference_target`]), joined with `/`.
pub fn resolve_reference_target(file_path: &str, source_file: &str) -> (r: String)
    ensures
        r@ == join(reference_target(file_path@, source_file@), seq!['/']),
{
    let c = reference_target_of(file_path, source_file);
    let j = join_with_slash(&c);
    string_from_chars(&j)
}

/// The path from the directory `from` to `to`: one `..` per component of
/// `from` past their common prefix, then the rest of `to`.
pub open spec fn relative_components(from: Seq<Seq<char>>, to: Seq<Seq<char>>) -> Seq<Seq<char>> {
    let k = common_prefix_len(from, to);
    Seq::new((from.len() - k) as nat, |i: int| ".."@) + to.skip(k)
}

/// Length of the longest common prefix of two component sequences.
pub open spec fn common_prefix_len(a: Seq<Seq<char>>, b: Seq<Seq<char>>) -> int
    decreases a.len(),
{
    if a.len() == 0 || b.len() == 0 || a[0] != b[0] {
        0
    } else {
        1 + common_prefix_len(a.drop_first(), b.drop_first())
    }
}

proof fn lemma_common_prefix(a: Seq<Seq<char>>, b: Seq<Seq<char>>, i: int)
    requires
        0 <= i <= a.len(),
        i <= b.len(),
        forall|m: int| 0 <= m < i ==> a[m] == b[m],
    ensures
        common_prefix_len(a, b) == i + common_prefix_len(a.skip(i), b.skip(i)),
    decreases i,
{
    if i > 0 {
        lemma_common_prefix(a.drop_first(), b.drop_first(), i - 1);
        assert(a.drop_first().skip(i - 1) == a.skip(i));
        assert(b.drop_first().skip(i - 1) == b.skip(i));
    } else {
        assert(a.skip(0) == a);
        assert(b.skip(0) == b);
    }
}

/// Computes the relative path from the directory `from_dir` to `to_file`
/// over their normal components (see [`relative_components`]), joined with `/`.
pub fn make_relative_path(from_dir: &str, to_file: &str) -> (r: String)
    ensures
        r@ == join(
            relative_components(normal_components(from_dir@), normal_components(to_file@)),
            seq!['/'],
        ),
{
    let fr = chars_of(from_dir);
    let fs = slash_chars(&fr);
    let fc = components_of(&fs);
    let from = without_parents_of(&fc, fc.len());
    assert(views(fc@).take(fc.len() as int) == views(fc@));
    let tr = chars_of(to_file);
    let ts = slash_chars(&tr);
    let tc = components_of(&ts);
    let to = without_parents_of(&tc, tc.len());
    assert(views(tc@).take(tc.len() as int) == views(tc@));
    let ghost f = views(from@);
    let ghost t = views(to@);
    let mut common: usize = 0;
    while common < from.len() && common < to.len() && crate::text::chars_eq(&from[common], &to[common])
        invariant
            common <= from.len(),
            common <= to.len(),
            f == views(from@),
            t == views(to@),
            forall|m: int| 0 <= m < common ==> f[m] == t[m],
        decreases from.len() - common,
    {
        assert(f[common as int] == from@[common as int]@);
        assert(t[common as int] == to@[common as int]@);
        common = common + 1;
    }
    proof {
        lemma_common_prefix(f, t, common as int);
        if common < from.len() && common < to.len() {
            assert(f.skip(common as int)[0] == f[common as int]);
            assert(t.skip(common as int)[0] == t[common as int]);
            assert(f[common as int] == from@[common as int]@);
            assert(t[common as int] == to@[common as int]@);
        }
        assert(common_prefix_len(f.skip(common as int), t.skip(common as int)) == 0);
    }
    let mut rel: Vec<Vec<char>> = Vec::new();
    let mut i = common;
    while i < from.len()
        invariant
            common <= i <= from.len(),
            views(rel@) == Seq::new((i - common) as nat, |k: int| ".."@),
        decreases from.len() - i,
    {
        let ghost before = views(rel@);
        let up = lit("..");
        rel.push(up);
        assert(views(rel@) =~= before.push(".."@));
        assert(before.push(".."@) =~= Seq::new((i + 1 - common) as nat, |k: int| ".."@));
        i = i + 1;
    }
    append_pieces(&mut rel, &to, common);
    let j = join_with_slash(&rel);
    string_from_chars(&j)
}

/// Law: walking the relative path from `from` reaches `to`, whenever both are
/// made of normal components.
pub proof fn lemma_relative_path_round_trip(from: Seq<Seq<char>>, to: Seq<Seq<char>>)
    requires
        forall|k: int| 0 <= k < from.len() ==> #[trigger] from[k] != ".."@,
        forall|k: int| 0 <= k < to.len() ==> #[trigger] to[k] != ".."@,
    ensures
        walk(from, relative_components(from, to)) == to,
{
    let k = common_prefix_len(from, to);
    lemma_common_prefix_bounds(from, to);
    let ups = Seq::new((from.len() - k) as nat, |i: int| ".."@);
    lemma_walk_ups(from, (from.len() - k) as nat);
    lemma_walk_concat(from, ups, to.skip(k));
    lemma_walk_push_all(from.take(k), to.skip(k));
    lemma_common_prefix_equal(from, to);
    assert(from.take(k) + to.skip(k) =~= to);
}

proof fn lemma_common_prefix_bounds(a: Seq<Seq<char>>, b: Seq<Seq<char>>)
    ensures
        0 <= common_prefix_len(a, b) <= a.len(),
        common_prefix_len(a, b) <= b.len(),
    decreases a.len(),
{
    if a.len() > 0 && b.len() > 0 && a[0] == b[0] {
        lemma_common_prefix_bounds(a.drop_first(), b.drop_first());
    }
}

proof fn lemma_common_prefix_equal(a: Seq<Seq<char>>, b: Seq<Seq<char>>)
    ensures
        forall|m: int| 0 <= m < common_prefix_len(a, b) ==> a[m] == b[m],
    decreases a.len(),
{
    if a.len() > 0 && b.len() > 0 && a[0] == b[0] {
        lemma_common_prefix_equal(a.drop_first(), b.drop_first());
        lemma_common_prefix_bounds(a.drop_first(), b.drop_first());
        assert forall|m: int| 0 <= m < common_prefix_len(a, b) implies a[m] == b[m] by {
            if m > 0 {
                assert(a[m] == a.drop_first()[m - 1]);
                assert(b[m] == b.drop_first()[m - 1]);
            }
        }
    }
}

proof fn lemma_walk_concat(s: Seq<Seq<char>>, a: Seq<Seq<char>>, b: Seq<Seq<char>>)
    ensures
        walk(s, a + b) == walk(walk(s, a), b),
    decreases b.len(),
{
    if b.len() == 0 {
        assert(a + b =~= a);
    } else {
        lemma_walk_concat(s, a, b.drop_last());
        assert((a + b).drop_last() =~= a + b.drop_last());
        assert((a + b).last() == b.last());
    }
}

proof fn lemma_walk_ups(s: Seq<Seq<char>>, n: nat)
    requires
        n <= s.len(),
    ensures
        walk(s, Seq::new(n, |i: int| ".."@)) == s.take(s.len() - n),
    decreases n,
{
    let ups = Seq::new(n, |i: int| ".."@);
    if n == 0 {
        assert(s.take(s.len() as int) =~= s);
    } else {
        lemma_walk_ups(s, (n - 1) as nat);
        assert(ups.drop_last() =~= Seq::new((n - 1) as nat, |i: int| ".."@));
        assert(s.take(s.len() - (n - 1)).drop_last() =~= s.take(s.len() - n));
    }
}

proof fn lemma_walk_push_all(s: Seq<Seq<char>>, c: Seq<Seq<char>>)
    requires
        forall|k: int| 0 <= k < c.len() ==> #[trigger] c[k] != ".."@,
    ensures
        walk(s, c) == s + c,
    decreases c.len(),
{
    if c.len() == 0 {
        assert(s + c =~= s);
    } else {
        lemma_walk_push_all(s, c.drop_last());
        assert(c.drop_last().len() < c.len());
        assert(c.last() == c[c.len() - 1]);
        assert((s + c.drop_last()).push(c.last()) =~= s + c);
    }
}

// ---------------------------------------------------------------------------
// Reference extraction from CSS
// ---------------------------------------------------------------------------

/// A raw reference extracted from HTML or CSS, with its source file and
/// position.
#[derive(Debug, Clone, PartialEq, Eq)]
pub struct ExtractedReference {
    pub raw_url: String,
    pub source_file: String,
    pub line: Option<usize>,
    pub col: Option<usize>,
}

/// An extracted reference over character sequences.
pub struct ReferenceSpec {
    pub url: Seq<char>,
    pub source: Seq<char>,
    pub line: Option<usize>,
    pub col: Option<usize>,
}

pub open spec fn reference_view(r: ExtractedReference) -> ReferenceSpec {
    ReferenceSpec { url: r.raw_url@, source: r.source_file@, line: r.line, col: r.col }
}

pub open spec fn reference_views(s: Seq<ExtractedReference>) -> Seq<ReferenceSpec> {
    s.map_values(|r: ExtractedReference| reference_view(r))
}

/// `s` trimmed, then without one pair of matching surrounding quotes
/// (trimmed again inside).
pub open spec fn unquoted(s: Seq<char>) -> Seq<char> {
    let t = trimmed(s);
    if t.len() >= 2 && ((t[0] == '"' && t.last() == '"') || (t[0] == '\'' && t.last() == '\'')) {
        trimmed(t.subrange(1, t.len() - 1))
    } else {
        t
    }
}

fn unquote_chars(s: &Vec<char>) -> (r: Vec<char>)
    ensures
        r@ == unquoted(s@),
{
    let t = trim_chars(s);
    let n = t.len();
    if n >= 2 && ((t[0] == '"' && t[n - 1] == '"') || (t[0] == '\'' && t[n - 1] == '\'')) {
        let inner = slice_chars(&t, 1, n - 1);
        trim_chars(&inner)
    } else {
        t
    }
}

/// The URL a CSS token names, as extraction reports it.
pub open spec fn token_url(s: Seq<char>, t: CssToken) -> Seq<char> {
    let raw = s.subrange(t.arg_start as int, t.arg_end as int);
    match t.kind {
        CssTokenKind::Import => raw,
        _ => unquoted(trimmed(raw)),
    }
}

/// Line of a position inside a block whose first character sits at
/// `base_line`/`base_col`.
pub open spec fn shifted_line(rel: (nat, nat), base_line: nat) -> nat {
    if rel.0 == 1 {
        base_line
    } else {
        (base_line + rel.0 - 1) as nat
    }
}

pub open spec fn shifted_col(rel: (nat, nat), base_col: nat) -> nat {
    if rel.0 == 1 {
        (base_col + rel.1 - 1) as nat
    } else {
        rel.1
    }
}

/// The references that the tokens `toks` of CSS text `s` yield: every token
/// with a non-empty URL, positioned relative to `base_line`/`base_col`.
pub open spec fn css_references_of(
    s: Seq<char>,
    toks: Seq<CssToken>,
    source: Seq<char>,
    base_line: nat,
    base_col: nat,
) -> Seq<ReferenceSpec>
    decreases toks.len(),
{
    if toks.len() == 0 {
        seq![]
    } else {
        let prev = css_references_of(s, toks.drop_last(), source, base_line, base_col);
        let t = toks.last();
        let url = token_url(s, t);
        let rel = line_col(s.take(t.start as int));
        if url.len() == 0 {
            prev
        } else {
            prev.push(
                ReferenceSpec {
                    url,
                    source,
                    line: Some(shifted_line(rel, base_line) as usize),
                    col: Some(shifted_col(rel, base_col) as usize),
                },
            )
        }
    }
}

/// The static references of CSS text.
pub open spec fn css_references(css: Seq<char>, source: Seq<char>, base_line: nat, base_col: nat) -> Seq<
    ReferenceSpec,
> {
    css_references_of(css, css_tokens(css), source, base_line, base_col)
}

/// The size limits within which positions cannot overflow.
pub open spec fn css_position_limits(n: nat, base_line: nat, base_col: nat) -> bool {
    &&& 4 * n + 1 <= usize::MAX
    &&& base_line + n + 1 <= usize::MAX
    &&& base_col + 4 * n + 1 <= usize::MAX
}

/// Extracts the references of CSS characters `cs` (see [`css_references`]).
pub fn css_references_in(cs: &Vec<char>, source_file: &str, base_line: usize, base_col: usize) -> (r:
    Vec<ExtractedReference>)
    requires
        css_position_limits(cs@.len(), base_line as nat, base_col as nat),
    ensures
        reference_views(r@) == css_references(cs@, source_file@, base_line as nat, base_col as nat),
{
    let toks = scan_css(cs);
    let mut refs: Vec<ExtractedReference> = Vec::new();
    let mut i: usize = 0;
    while i < toks.len()
        invariant
            i <= toks@.len(),
            toks@ == css_tokens(cs@),
            css_position_limits(cs@.len(), base_line as nat, base_col as nat),
            forall|k: int| 0 <= k < toks@.len() ==> token_wf(#[trigger] toks@[k], cs@.len()),
            reference_views(refs@) == css_references_of(
                cs@,
                toks@.take(i as int),
                source_file@,
                base_line as nat,
                base_col as nat,
            ),
        decreases toks@.len() - i,
    {
        let t = toks[i];
        assert(token_wf(toks@[i as int], cs@.len()));
        assert(toks@.take(i + 1).drop_last() == toks@.take(i as int));
        assert(toks@.take(i + 1).last() == t);
        let raw = slice_chars(cs, t.arg_start, t.arg_end);
        let url = match t.kind {
            CssTokenKind::Import => raw,
            _ => {
                let tr = trim_chars(&raw);
                unquote_chars(&tr)
            },
        };
        if url.len() > 0 {
            let (rl, rc) = line_col_at(cs, t.start);
            proof {
                crate::text::lemma_line_col_bounds(cs@.take(t.start as int));
            }
            let line = if rl == 1 {
                base_line
            } else {
                base_line + rl - 1
            };
            let col = if rl == 1 {
                base_col + rc - 1
            } else {
                rc
            };
            let ghost before = reference_views(refs@);
            let r = ExtractedReference {
                raw_url: string_from_chars(&url),
                source_file: source_file.to_owned(),
                line: Some(line),
                col: Some(col),
            };
            refs.push(r);
            assert(reference_views(refs@) =~= before.push(reference_view(r)));
        }
        i = i + 1;
    }
    assert(toks@.take(toks@.len() as int) == toks@);
    refs
}

/// Extracts the static `url(...)` and `@import` references of CSS text whose
/// first character sits at `base_line`/`base_col` (see [`css_references`]).
pub fn extract_references_from_css(css: &str, source_file: &str, base_line: usize, base_col: usize) -> (r:
    Vec<ExtractedReference>)
    requires
        css_position_limits(css@.len(), base_line as nat, base_col as nat),
    ensures
        reference_views(r@) == css_references(css@, source_file@, base_line as nat, base_col as nat),
{
    let cs = chars_of(css);
    css_references_in(&cs, source_file, base_line, base_col)
}

// ---------------------------------------------------------------------------
// Reference rewriting
// ---------------------------------------------------------------------------

/// The components of the directory holding `source`, as written.
pub open spec fn source_dir(source: Seq<char>) -> Seq<Seq<char>> {
    let c = path_components(slashed(source));
    if c.len() == 0 {
        seq![]
    } else {
        c.drop_last()
    }
}

/// The file name with its extension replaced by `js` (`Path::set_extension`).
pub open spec fn js_name(name: Seq<char>) -> Seq<char> {
    match extension(name) {
        Some(_) => name.take(last_dot(name)) + seq!['.', 'j', 's'],
        None => name + seq!['.', 'j', 's'],
    }
}

/// A rewrite target: `dist/` components, and whether it was rooted (in which
/// case it does not begin with `dist`).
pub struct RewriteTarget {
    pub comps: Seq<Seq<char>>,
    pub rooted: bool,
}

/// Which source file a file-path reference `n` (normalized) designates: the
/// project-relative resolution when that file exists, else the one relative to
/// the referencing document, else, for a TypeScript reference, its place below
/// `scripts/`.
pub open spec fn reference_candidate(files: Seq<ProjectFile>, n: Seq<char>, source: Seq<char>) -> Seq<
    Seq<char>,
> {
    let resolved = reference_target(n, source);
    let parent = source_dir(source) + resolved;
    if file_exists(files, resolved) {
        resolved
    } else if file_exists(files, parent) {
        parent
    } else if has_extension(resolved, "ts"@) || ends_with(n, ".ts"@) {
        if resolved.len() > 0 && resolved[0] == "scripts"@ {
            resolved
        } else if parent.len() > 0 && parent[0] == "scripts"@ {
            parent
        } else {
            seq!["scripts"@] + resolved
        }
    } else {
        resolved
    }
}

/// The `dist/` target of a normalized file-path reference, if it has one.
pub open spec fn rewrite_target(files: Seq<ProjectFile>, n: Seq<char>, source: Seq<char>) -> Option<
    RewriteTarget,
> {
    if n == "styles/tokens.css"@ || n == "tokens/tokens.json"@ {
        Some(RewriteTarget { comps: seq!["dist"@, "styles"@, "tokens.css"@], rooted: false })
    } else {
        match dist_components(join(reference_candidate(files, n, source), seq!['/'])) {
            Some(d) => Some(RewriteTarget { comps: d, rooted: false }),
            None => if ends_with(n, ".ts"@) {
                let c = path_components(n);
                let js = without_parents(c.drop_last().push(js_name(c.last())));
                if n.len() > 0 && n[0] == '/' {
                    Some(RewriteTarget { comps: js, rooted: true })
                } else {
                    Some(RewriteTarget { comps: seq!["dist"@] + js, rooted: false })
                }
            } else {
                None
            },
        }
    }
}

/// A reference rewritten so that it resolves against the `dist/` layout from
/// the page or stylesheet `source` that holds it. Scheme-bearing,
/// protocol-relative and fragment references, references from sources that do
/// not map into `dist/`, and references without a target are kept as they are.
pub open spec fn rewritten_reference(files: Seq<ProjectFile>, raw: Seq<char>, source: Seq<char>) -> Seq<
    char,
> {
    let path_only = without_query(raw);
    let suffix = raw.skip(path_only.len() as int);
    let t = trimmed(path_only);
    let n = slashed(t);
    if !(reference_class(raw) is FilePath) || t.len() == 0 {
        raw
    } else {
        match dist_components(source) {
            None => raw,
            Some(ds) => match rewrite_target(files, n, source) {
                None => raw,
                Some(target) => {
                    let rel = join(
                        relative_components(without_parents(ds.drop_last()), without_parents(target.comps)),
                        seq!['/'],
                    );
                    let fin = if starts_with(t, "./"@) && !starts_with(rel, "../"@) {
                        "./"@ + rel
                    } else if t[0] == '/' {
                        if !target.rooted {
                            seq!['/'] + join(target.comps.drop_first(), seq!['/'])
                        } else {
                            seq!['/'] + rel
                        }
                    } else {
                        rel
                    };
                    fin + suffix
                },
            },
        }
    }
}

pub proof fn lemma_first_index_at(s: Seq<char>, c: char, k: int)
    requires
        0 <= k <= s.len(),
        k == s.len() || s[k] == c,
        forall|j: int| 0 <= j < k ==> s[j] != c,
    ensures
        first_index(s, c) == if k == s.len() { -1 } else { k },
    decreases s.len(),
{
    if s.len() > 0 && k > 0 {
        assert forall|j: int| 0 <= j < k - 1 implies s.drop_first()[j] != c by {
            assert(s.drop_first()[j] == s[j + 1]);
        }
        if k < s.len() {
            assert(s.drop_first()[k - 1] == s[k]);
        }
        lemma_first_index_at(s.drop_first(), c, k - 1);
    }
}

proof fn lemma_next_index(s: Seq<char>, c: char, k: int) -> (q: int)
    requires
        0 <= k <= s.len(),
    ensures
        k <= q <= s.len(),
        q == s.len() || s[q] == c,
        forall|j: int| k <= j < q ==> s[j] != c,
    decreases s.len() - k,
{
    if k == s.len() || s[k] == c {
        k
    } else {
        lemma_next_index(s, c, k + 1)
    }
}

/// Law: rewriting a reference keeps its query and fragment. When `raw` has
/// a `?` or `#`, the rewritten reference ends with the part of `raw` from
/// the first of them on, character for character, whatever the source and
/// the project.
pub proof fn law_rewrite_keeps_query_and_fragment(files: Seq<ProjectFile>, raw: Seq<char>, source: Seq<char>, k: int)
    requires
        0 <= k < raw.len(),
        raw[k] == '?' || raw[k] == '#',
        forall|j: int| 0 <= j < k ==> raw[j] != '?' && raw[j] != '#',
    ensures
        ({
            let r = rewritten_reference(files, raw, source);
            &&& r.len() >= raw.len() - k
            &&& r.skip(r.len() - (raw.len() - k)) == raw.skip(k)
        }),
{
    let q = lemma_next_index(raw, '?', k);
    let h = lemma_next_index(raw, '#', k);
    lemma_first_index_at(raw, '?', q);
    lemma_first_index_at(raw, '#', h);
    assert(without_query(raw) == raw.take(k));
    let suffix = raw.skip(k);
    let r = rewritten_reference(files, raw, source);
    assert(raw.skip(raw.len() - (raw.len() - k)) == suffix);
    if r != raw {
        let fin = r.take(r.len() - suffix.len());
        assert(r =~= fin + suffix);
        assert(r.skip(r.len() - (raw.len() - k)) =~= suffix);
    }
}

proof fn lemma_without_query_prefix(s: Seq<char>)
    ensures
        without_query(s).len() <= s.len(),
        without_query(s) == s.take(without_query(s).len() as int),
{
    lemma_first_index_range(s, '?');
    lemma_first_index_range(s, '#');
    assert(s.take(s.len() as int) == s);
}

proof fn lemma_first_index_range(s: Seq<char>, c: char)
    ensures
        -1 <= first_index(s, c) < s.len(),
    decreases s.len(),
{
    if s.len() > 0 && s[0] != c {
        lemma_first_index_range(s.drop_first(), c);
    }
}

/// The components of the directory holding `source` (see [`source_dir`]).
pub fn source_dir_of(source: &str) -> (r: Vec<Vec<char>>)
    ensures
        views(r@) == source_dir(source@),
{
    let raw = chars_of(source);
    let s = slash_chars(&raw);
    let mut c = components_of(&s);
    if c.len() == 0 {
        return c;
    }
    let ghost before = views(c@);
    c.pop();
    assert(views(c@) =~= before.drop_last());
    c
}

/// Two component lists, one after the other.
pub fn concat_pieces(a: &Vec<Vec<char>>, b: &Vec<Vec<char>>) -> (r: Vec<Vec<char>>)
    ensures
        views(r@) == views(a@) + views(b@),
{
    let mut out: Vec<Vec<char>> = Vec::new();
    assert(views(out@) =~= seq![]);
    append_pieces(&mut out, a, 0);
    append_pieces(&mut out, b, 0);
    assert(views(a@).skip(0) == views(a@));
    assert(views(b@).skip(0) == views(b@));
    out
}

/// Whether the first component is `word`.
pub fn first_is(c: &Vec<Vec<char>>, word: &str) -> (r: bool)
    ensures
        r == (views(c@).len() > 0 && views(c@)[0] == word@),
{
    if c.len() == 0 {
        return false;
    }
    assert(views(c@)[0] == c@[0]@);
    str_is(&c[0], word)
}

fn candidate_of(tree: &ProjectTree, n: &Vec<char>, n_str: &str, source: &str) -> (r: Vec<Vec<char>>)
    requires
        n_str@ == n@,
    ensures
        views(r@) == reference_candidate(tree.files@, n@, source@),
{
    let resolved = reference_target_of(n_str, source);
    let dir = source_dir_of(source);
    let parent = concat_pieces(&dir, &resolved);
    if tree.has_file(&resolved) {
        resolved
    } else if tree.has_file(&parent) {
        parent
    } else if has_extension_of(&resolved, 0, "ts") || ends_with_chars(n, &lit(".ts")) {
        assert(views(resolved@).skip(0) == views(resolved@));
        if first_is(&resolved, "scripts") {
            resolved
        } else if first_is(&parent, "scripts") {
            parent
        } else {
            let mut head: Vec<Vec<char>> = Vec::new();
            push_piece(&mut head, "scripts");
            assert(views(head@) =~= seq![] + seq!["scripts"@]);
            concat_pieces(&head, &resolved)
        }
    } else {
        assert(views(resolved@).skip(0) == views(resolved@));
        resolved
    }
}

fn without_parents_all(c: &Vec<Vec<char>>) -> (r: Vec<Vec<char>>)
    ensures
        views(r@) == without_parents(views(c@)),
{
    let r = without_parents_of(c, c.len());
    assert(views(c@).take(c.len() as int) == views(c@));
    r
}

fn js_name_of(name: &Vec<char>) -> (r: Vec<char>)
    ensures
        r@ == js_name(name@),
{
    let mut out = match find_last_dot(name) {
        Some(k) if k > 0 => slice_chars(name, 0, k),
        _ => crate::text::copy_chars(name),
    };
    out.push('.');
    out.push('j');
    out.push('s');
    out
}

/// Rewrite target of a reference (see [`rewrite_target`]); the flag tells a
/// rooted target.
fn rewrite_target_of(tree: &ProjectTree, n: &Vec<char>, source: &str) -> (r: Option<(Vec<Vec<char>>, bool)>)
    ensures
        match r {
            Some((c, rooted)) => rewrite_target(tree.files@, n@, source@) matches Some(t) && t.comps
                == views(c@) && t.rooted == rooted,
            None => rewrite_target(tree.files@, n@, source@) is None,
        },
{
    if str_is(n, "styles/tokens.css") || str_is(n, "tokens/tokens.json") {
        let mut out: Vec<Vec<char>> = Vec::new();
        push_piece(&mut out, "dist");
        push_piece(&mut out, "styles");
        push_piece(&mut out, "tokens.css");
        assert(views(out@) =~= seq!["dist"@, "styles"@, "tokens.css"@]);
        return Some((out, false));
    }
    let n_string = string_from_chars(n);
    let cand = candidate_of(tree, n, n_string.as_str(), source);
    let joined = join_with_slash(&cand);
    let joined_string = string_from_chars(&joined);
    match dist_components_of(joined_string.as_str()) {
        Some(d) => Some((d, false)),
        None => {
            if !ends_with_chars(n, &lit(".ts")) {
                return None;
            }
            let mut c = components_of(n);
            proof {
                reveal_strlit(".ts");
            }
            if c.len() == 0 {
                // a reference ending in `.ts` has a last component
                proof {
                    lemma_ends_with_ts_has_component(n@);
                }
                return None;
            }
            let ghost before = views(c@);
            let last = c.pop().unwrap();
            assert(last@ == before.last());
            let renamed = js_name_of(&last);
            c.push(renamed);
            assert(views(c@) =~= before.drop_last().push(js_name(before.last())));
            let js = without_parents_all(&c);
            if n.len() > 0 && n[0] == '/' {
                Some((js, true))
            } else {
                let mut head: Vec<Vec<char>> = Vec::new();
                push_piece(&mut head, "dist");
                assert(views(head@) =~= seq!["dist"@]);
                Some((concat_pieces(&head, &js), false))
            }
        },
    }
}

proof fn lemma_ends_with_ts_has_component(n: Seq<char>)
    requires
        ends_with(n, ".ts"@),
    ensures
        path_components(n).len() > 0,
{
    reveal_strlit(".ts");
    let sp = crate::diagnostics::split_on(n, '/');
    crate::diagnostics::lemma_split_on_nonempty(n.drop_last(), '/');
    assert(".ts"@.len() == 3);
    assert(".ts"@[2] == 's');
    assert(n.skip(n.len() - 3)[2] == n.last());
    assert(n.last() == 's');
    let p = crate::diagnostics::split_on(n.drop_last(), '/');
    assert(sp == p.update(p.len() - 1, p.last().push(n.last())));
    assert(sp.last() == p.last().push('s'));
    assert(sp.last().last() == 's');
    assert(crate::diagnostics::is_named_piece(sp.last())) by {
        if sp.last() == seq!['.'] {
            assert(sp.last().last() == '.');
        }
    }
    assert(crate::diagnostics::named_pieces(sp).len() > 0);
}

fn relative_string(from_dir: &Vec<Vec<char>>, to: &Vec<Vec<char>>) -> (r: Vec<char>)
    ensures
        r@ == join(
            relative_components(without_parents(views(from_dir@)), without_parents(views(to@))),
            seq!['/'],
        ),
{
    let from = without_parents_all(from_dir);
    let target = without_parents_all(to);
    let ghost f = views(from@);
    let ghost t = views(target@);
    let mut common: usize = 0;
    while common < from.len() && common < target.len() && crate::text::chars_eq(
        &from[common],
        &target[common],
    )
        invariant
            common <= from.len(),
            common <= target.len(),
            f == views(from@),
            t == views(target@),
            forall|m: int| 0 <= m < common ==> f[m] == t[m],
        decreases from.len() - common,
    {
        assert(f[common as int] == from@[common as int]@);
        assert(t[common as int] == target@[common as int]@);
        common = common + 1;
    }
    proof {
        lemma_common_prefix(f, t, common as int);
        if common < from.len() && common < target.len() {
            assert(f.skip(common as int)[0] == f[common as int]);
            assert(t.skip(common as int)[0] == t[common as int]);
            assert(f[common as int] == from@[common as int]@);
            assert(t[common as int] == target@[common as int]@);
        }
        assert(common_prefix_len(f.skip(common as int), t.skip(common as int)) == 0);
    }
    let mut rel: Vec<Vec<char>> = Vec::new();
    let mut i = common;
    while i < from.len()
        invariant
            common <= i <= from.len(),
            views(rel@) == Seq::new((i - common) as nat, |k: int| ".."@),
        decreases from.len() - i,
    {
        let ghost before = views(rel@);
        let up = lit("..");
        rel.push(up);
        assert(views(rel@) =~= before.push(".."@));
        assert(before.push(".."@) =~= Seq::new((i + 1 - common) as nat, |k: int| ".."@));
        i = i + 1;
    }
    append_pieces(&mut rel, &target, common);
    join_with_slash(&rel)
}

/// Rewrites a single reference so that it resolves against the `dist/` layout
/// (see [`rewritten_reference`]): script references to `.ts` sources become
/// `.js`, other file references their mapped `dist/` paths.
pub fn rewrite_reference(raw_url: &str, source_file: &str, tree: &ProjectTree) -> (r: String)
    ensures
        r@ == rewritten_reference(tree.files@, raw_url@, source_file@),
{
    let kind = classify_reference(raw_url);
    match kind {
        ReferenceKind::FilePath(_) => {},
        _ => {
            return raw_url.to_owned();
        },
    }
    let raw = chars_of(raw_url);
    let path_only = without_query_chars(&raw);
    proof {
        lemma_without_query_prefix(raw@);
    }
    let suffix = slice_chars(&raw, path_only.len(), raw.len());
    let t = trim_chars(&path_only);
    if t.len() == 0 {
        return raw_url.to_owned();
    }
    let ds = match dist_components_of(source_file) {
        Some(d) => d,
        None => {
            return raw_url.to_owned();
        },
    };
    let n = slash_chars(&t);
    let (target, rooted) = match rewrite_target_of(tree, &n, source_file) {
        Some(x) => x,
        None => {
            return raw_url.to_owned();
        },
    };
    let mut from_dir = crate::layout::copy_pieces(&ds);
    if from_dir.len() > 0 {
        let ghost before = views(from_dir@);
        from_dir.pop();
        assert(views(from_dir@) =~= before.drop_last());
    }
    let rel = relative_string(&from_dir, &target);
    let mut fin: Vec<char> = Vec::new();
    if starts_with_chars(&t, &lit("./")) && !starts_with_chars(&rel, &lit("../")) {
        fin.push('.');
        fin.push('/');
        append_chars(&mut fin, &rel);
        assert(fin@ =~= "./"@ + rel@) by {
            reveal_strlit("./");
        }
    } else if t[0] == '/' {
        fin.push('/');
        if !rooted {
            let mut rest = crate::layout::copy_pieces(&target);
            if rest.len() > 0 {
                rest.remove(0);
            }
            assert(views(rest@) =~= views(target@).drop_first());
            let j = join_with_slash(&rest);
            append_chars(&mut fin, &j);
        } else {
            append_chars(&mut fin, &rel);
        }
    } else {
        append_chars(&mut fin, &rel);
    }
    append_chars(&mut fin, &suffix);
    assert(suffix@ == raw@.skip(path_only@.len() as int));
    string_from_chars(&fin)
}

/// A copy of a component list.
pub fn copy_pieces(c: &Vec<Vec<char>>) -> (r: Vec<Vec<char>>)
    ensures
        views(r@) == views(c@),
{
    let mut out: Vec<Vec<char>> = Vec::new();
    assert(views(out@) =~= seq![]);
    append_pieces(&mut out, c, 0);
    assert(views(c@).skip(0) == views(c@));
    out
}

/// Law: scheme-bearing, protocol-relative and fragment references are kept
/// byte for byte.
pub proof fn lemma_non_file_references_kept(files: Seq<ProjectFile>, raw: Seq<char>, source: Seq<char>)
    requires
        !(reference_class(raw) is FilePath),
    ensures
        rewritten_reference(files, raw, source) == raw,
{
}

/// Rewriting CSS up to the tokens `toks`: the text produced so far and the
/// position up to which the source has been consumed.
pub open spec fn css_rewrite_fold(
    files: Seq<ProjectFile>,
    s: Seq<char>,
    toks: Seq<CssToken>,
    source: Seq<char>,
) -> (Seq<char>, int)
    decreases toks.len(),
{
    if toks.len() == 0 {
        (seq![], 0)
    } else {
        let (o, l) = css_rewrite_fold(files, s, toks.drop_last(), source);
        let t = toks.last();
        let url = s.subrange(t.span_start as int, t.span_end as int);
        let new = rewritten_reference(files, url, source);
        let nonempty = t.kind == CssTokenKind::Import || t.span_start < t.span_end;
        if nonempty && new != url && t.span_start >= l {
            (o + s.subrange(l, t.span_start as int) + new, t.span_end as int)
        } else {
            (o, l)
        }
    }
}

/// CSS text with every `url(...)` and `@import` reference rewritten (see
/// [`rewritten_reference`]); everything else is kept.
pub open spec fn rewritten_css(files: Seq<ProjectFile>, s: Seq<char>, source: Seq<char>) -> Seq<char> {
    let (o, l) = css_rewrite_fold(files, s, css_tokens(s), source);
    o + s.subrange(l, s.len() as int)
}

/// Rewrites the references of CSS characters (see [`rewritten_css`]).
pub fn rewrite_css_chars(cs: &Vec<char>, source_file: &str, tree: &ProjectTree) -> (r: Vec<char>)
    ensures
        r@ == rewritten_css(tree.files@, cs@, source_file@),
{
    let toks = scan_css(cs);
    let mut out: Vec<char> = Vec::new();
    let mut last: usize = 0;
    let mut i: usize = 0;
    while i < toks.len()
        invariant
            i <= toks@.len(),
            toks@ == css_tokens(cs@),
            forall|k: int| 0 <= k < toks@.len() ==> token_wf(#[trigger] toks@[k], cs@.len()),
            last <= cs@.len(),
            (out@, last as int) == css_rewrite_fold(tree.files@, cs@, toks@.take(i as int), source_file@),
        decreases toks@.len() - i,
    {
        let t = toks[i];
        assert(token_wf(toks@[i as int], cs@.len()));
        assert(toks@.take(i + 1).drop_last() == toks@.take(i as int));
        assert(toks@.take(i + 1).last() == t);
        let nonempty = match t.kind {
            CssTokenKind::Import => true,
            _ => t.span_start < t.span_end,
        };
        if nonempty && t.span_start >= last {
            let url = slice_chars(cs, t.span_start, t.span_end);
            let url_string = string_from_chars(&url);
            let new = rewrite_reference(url_string.as_str(), source_file, tree);
            let new_chars = chars_of(new.as_str());
            if !crate::text::chars_eq(&new_chars, &url) {
                let gap = slice_chars(cs, last, t.span_start);
                append_chars(&mut out, &gap);
                append_chars(&mut out, &new_chars);
                last = t.span_end;
            }
        }
        i = i + 1;
    }
    assert(toks@.take(toks@.len() as int) == toks@);
    let tail = slice_chars(cs, last, cs.len());
    append_chars(&mut out, &tail);
    out
}

/// Rewrites the static `url(...)` and `@import` references of CSS text so that
/// they resolve against the `dist/` layout (see [`rewritten_css`]).
pub fn rewrite_css_references(css: &str, source_file: &str, tree: &ProjectTree) -> (r: String)
    ensures
        r@ == rewritten_css(tree.files@, css@, source_file@),
{
    let cs = chars_of(css);
    let out = rewrite_css_chars(&cs, source_file, tree);
    string_from_chars(&out)
}

} // verus!
