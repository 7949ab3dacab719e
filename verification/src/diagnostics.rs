//! Diagnostics: severities, locations, findings, reports and their
//! single-line rendering.

use vstd::prelude::*;

use crate::codes::TOOL_FAULT;
use crate::text::{
    append_chars, append_str, chars_of, decimal, digit_char, hex_lower, push_decimal, push_hex,
    string_from_chars,
};

verus! {

/// Diagnostic severity level.
#[derive(Debug, Clone, Copy, PartialEq, Eq, Structural, PartialOrd, Ord, Hash)]
pub enum Severity {
    Error,
    Warning,
}

/// Version compatibility status for the project format.
#[derive(Debug, Clone, Copy, PartialEq, Eq, Structural, PartialOrd, Ord, Hash)]
pub enum VersionStatus {
    Current,
    SupportedLegacy,
    DeprecatedLegacy,
    Unsupported,
}

impl VersionStatus {
    /// Maps the version status to its diagnostic severity, if any:
    /// `Current` has none, the two legacy states warn, `Unsupported` is an error.
    pub fn severity_of(self) -> (r: Option<Severity>)
        ensures
            r == (match self {
                VersionStatus::Current => None,
                VersionStatus::SupportedLegacy => Some(Severity::Warning),
                VersionStatus::DeprecatedLegacy => Some(Severity::Warning),
                VersionStatus::Unsupported => Some(Severity::Error),
            }),
    {
        match self {
            VersionStatus::Current => None,
            VersionStatus::SupportedLegacy => Some(Severity::Warning),
            VersionStatus::DeprecatedLegacy => Some(Severity::Warning),
            VersionStatus::Unsupported => Some(Severity::Error),
        }
    }
}

/// Source location of a diagnostic: a project-relative path (with `/` or `\`
/// separators) and an optional line and column.
#[derive(Debug, Clone, PartialEq, Eq, PartialOrd, Ord, Hash)]
pub struct Location {
    pub path: String,
    pub line: Option<usize>,
    pub column: Option<usize>,
}

impl Location {
    pub fn new(path: &str, line: Option<usize>, column: Option<usize>) -> (r: Self)
        ensures
            r.path@ == path@,
            r.line == line,
            r.column == column,
    {
        Location { path: path.to_owned(), line, column }
    }

    pub fn path_only(path: &str) -> (r: Self)
        ensures
            r.path@ == path@,
            r.line is None,
            r.column is None,
    {
        Location { path: path.to_owned(), line: None, column: None }
    }
}

/// A finding reported by the validation engine.
#[derive(Debug, Clone, PartialEq, Eq)]
pub struct Diagnostic {
    pub code: &'static str,
    pub severity: Severity,
    pub location: Option<Location>,
    pub message: String,
    pub next_action: String,
    pub ordinal: usize,
}

impl Diagnostic {
    pub fn new(
        code: &'static str,
        severity: Severity,
        location: Option<Location>,
        message: &str,
        next_action: &str,
    ) -> (r: Self)
        ensures
            r.code == code,
            r.severity == severity,
            r.location == location,
            r.message@ == message@,
            r.next_action@ == next_action@,
            r.ordinal == 0,
    {
        Diagnostic {
            code,
            severity,
            location,
            message: message.to_owned(),
            next_action: next_action.to_owned(),
            ordinal: 0,
        }
    }

    pub fn with_ordinal(self, ordinal: usize) -> (r: Self)
        ensures
            r == (Diagnostic { ordinal, ..self }),
    {
        let mut d = self;
        d.ordinal = ordinal;
        d
    }
}

// ---------------------------------------------------------------------------
// Escaping
// ---------------------------------------------------------------------------

/// Unicode general category `Cc` (what `char::is_control` tests):
/// U+0000..=U+001F and U+007F..=U+009F.
pub open spec fn is_control_char(c: char) -> bool {
    (c as u32) < 0x20 || (0x7f <= (c as u32) && (c as u32) <= 0x9f)
}

/// The printable replacement of one character.
pub open spec fn escape_char(c: char) -> Seq<char> {
    if c == '\n' {
        seq!['\\', 'n']
    } else if c == '\r' {
        seq!['\\', 'r']
    } else if c == '\t' {
        seq!['\\', 't']
    } else if is_control_char(c) {
        seq!['\\', 'u', '{'] + hex_lower((c as u32) as nat) + seq!['}']
    } else {
        seq![c]
    }
}

/// A character sequence with every control character replaced by its escape.
pub open spec fn escaped(s: Seq<char>) -> Seq<char>
    decreases s.len(),
{
    if s.len() == 0 {
        seq![]
    } else {
        escaped(s.drop_last()) + escape_char(s.last())
    }
}

fn is_control(c: char) -> (r: bool)
    ensures
        r == is_control_char(c),
{
    let u = c as u32;
    u < 0x20 || (0x7f <= u && u <= 0x9f)
}

/// Escapes the characters of `cs` (see [`escaped`]).
pub fn escape_chars(cs: &Vec<char>) -> (r: Vec<char>)
    ensures
        r@ == escaped(cs@),
{
    let mut out: Vec<char> = Vec::new();
    let mut i: usize = 0;
    while i < cs.len()
        invariant
            i <= cs.len(),
            out@ == escaped(cs@.take(i as int)),
        decreases cs.len() - i,
    {
        let c = cs[i];
        assert(cs@.take(i + 1).drop_last() == cs@.take(i as int));
        if c == '\n' {
            out.push('\\');
            out.push('n');
        } else if c == '\r' {
            out.push('\\');
            out.push('r');
        } else if c == '\t' {
            out.push('\\');
            out.push('t');
        } else if is_control(c) {
            out.push('\\');
            out.push('u');
            out.push('{');
            push_hex(&mut out, c as u32);
            out.push('}');
        } else {
            out.push(c);
        }
        assert(out@ == escaped(cs@.take(i + 1)));
        i = i + 1;
    }
    assert(cs@.take(cs.len() as int) == cs@);
    out
}

/// Escapes newlines, carriage returns, tabs and every other control character
/// into printable escape sequences (`\n`, `\r`, `\t`, `\u{<hex>}`).
pub fn escape_control_chars(input: &str) -> (r: String)
    ensures
        r@ == escaped(input@),
{
    let cs = chars_of(input);
    let out = escape_chars(&cs);
    string_from_chars(&out)
}

proof fn lemma_hex_no_control(n: nat)
    ensures
        forall|k: int| 0 <= k < hex_lower(n).len() ==> !is_control_char(#[trigger] hex_lower(n)[k]),
    decreases n,
{
    assert(!is_control_char(digit_char(n % 16)));
    if n >= 16 {
        lemma_hex_no_control(n / 16);
        let p = hex_lower(n / 16);
        assert forall|k: int| 0 <= k < hex_lower(n).len() implies !is_control_char(
            #[trigger] hex_lower(n)[k],
        ) by {
            if k < p.len() {
                assert(hex_lower(n)[k] == p[k]);
            }
        }
    }
}

/// Law: an escaped sequence holds no control character, so it never spans
/// more than one line.
pub proof fn lemma_escaped_has_no_control(s: Seq<char>)
    ensures
        forall|k: int| 0 <= k < escaped(s).len() ==> !is_control_char(#[trigger] escaped(s)[k]),
    decreases s.len(),
{
    if s.len() > 0 {
        lemma_escaped_has_no_control(s.drop_last());
        let c = s.last();
        lemma_hex_no_control((c as u32) as nat);
        let e = escape_char(c);
        assert forall|k: int| 0 <= k < e.len() implies !is_control_char(#[trigger] e[k]) by {
            if c != '\n' && c != '\r' && c != '\t' && is_control_char(c) {
                let h = hex_lower((c as u32) as nat);
                if 3 <= k < 3 + h.len() {
                    assert(e[k] == h[k - 3]);
                }
            }
        }
        let p = escaped(s.drop_last());
        assert forall|k: int| 0 <= k < escaped(s).len() implies !is_control_char(#[trigger] escaped(s)[k]) by {
            if k < p.len() {
                assert(escaped(s)[k] == p[k]);
            } else {
                assert(escaped(s)[k] == e[k - p.len()]);
            }
        }
    }
}

// ---------------------------------------------------------------------------
// Path normalization
// ---------------------------------------------------------------------------

/// `\` separators turned into `/`.
pub open spec fn slashed(s: Seq<char>) -> Seq<char> {
    s.map_values(|c: char| if c == '\\' { '/' } else { c })
}

/// The pieces of `s` between occurrences of `sep` (as `str::split` yields them).
pub open spec fn split_on(s: Seq<char>, sep: char) -> Seq<Seq<char>>
    decreases s.len(),
{
    if s.len() == 0 {
        seq![seq![]]
    } else {
        let p = split_on(s.drop_last(), sep);
        if s.last() == sep {
            p.push(seq![])
        } else {
            p.update(p.len() - 1, p.last().push(s.last()))
        }
    }
}

pub proof fn lemma_split_on_nonempty(s: Seq<char>, sep: char)
    ensures
        split_on(s, sep).len() >= 1,
    decreases s.len(),
{
    if s.len() > 0 {
        lemma_split_on_nonempty(s.drop_last(), sep);
    }
}

/// A path piece that names something: not empty and not `.`.
pub open spec fn is_named_piece(c: Seq<char>) -> bool {
    c.len() > 0 && c != seq!['.']
}

/// The named pieces of `parts`, in order.
pub open spec fn named_pieces(parts: Seq<Seq<char>>) -> Seq<Seq<char>>
    decreases parts.len(),
{
    if parts.len() == 0 {
        seq![]
    } else {
        let k = named_pieces(parts.drop_last());
        if is_named_piece(parts.last()) {
            k.push(parts.last())
        } else {
            k
        }
    }
}

/// Every named piece is non-empty.
pub proof fn lemma_named_pieces_nonempty(parts: Seq<Seq<char>>)
    ensures
        forall|k: int| 0 <= k < named_pieces(parts).len() ==> (#[trigger] named_pieces(parts)[k]).len()
            > 0,
    decreases parts.len(),
{
    if parts.len() > 0 {
        lemma_named_pieces_nonempty(parts.drop_last());
        let k = named_pieces(parts.drop_last());
        if is_named_piece(parts.last()) {
            assert forall|i: int| 0 <= i < k.push(parts.last()).len() implies (#[trigger] k.push(
                parts.last(),
            )[i]).len() > 0 by {
                if i < k.len() {
                    assert(k.push(parts.last())[i] == k[i]);
                }
            }
        }
    }
}

/// The components of a path written with `/` separators: the pieces between
/// separators, without empty and `.` pieces (`..` is kept).
pub open spec fn path_components(s: Seq<char>) -> Seq<Seq<char>> {
    named_pieces(split_on(s, '/'))
}

/// `parts` joined with `sep` between consecutive parts.
pub open spec fn join(parts: Seq<Seq<char>>, sep: Seq<char>) -> Seq<char>
    decreases parts.len(),
{
    if parts.len() == 0 {
        seq![]
    } else if parts.len() == 1 {
        parts[0]
    } else {
        join(parts.drop_last(), sep) + sep + parts.last()
    }
}

pub open spec fn is_ascii_alpha(c: char) -> bool {
    ('a' <= c && c <= 'z') || ('A' <= c && c <= 'Z')
}

/// A Windows drive component such as `C:`.
pub open spec fn is_drive_component(c: Seq<char>) -> bool {
    c.len() == 2 && is_ascii_alpha(c[0]) && c[1] == ':'
}

/// The components that a normalized path keeps: a leading drive component is
/// dropped, and an absolute path (rooted, or carrying a drive) keeps only its
/// last component.
pub open spec fn normalized_components(p: Seq<char>) -> Seq<Seq<char>> {
    let s = slashed(p);
    let parts = path_components(s);
    let drive = parts.len() > 0 && is_drive_component(parts[0]);
    let rest = if drive {
        parts.drop_first()
    } else {
        parts
    };
    let absolute = (s.len() > 0 && s[0] == '/') || drive;
    if absolute && rest.len() > 0 {
        seq![rest.last()]
    } else {
        rest
    }
}

/// Project-relative rendering of a path: `/` separators, no host root or
/// drive prefix, control characters escaped.
pub open spec fn normalized_path(p: Seq<char>) -> Seq<char> {
    escaped(join(normalized_components(p), seq!['/']))
}

pub fn slash_chars(cs: &Vec<char>) -> (r: Vec<char>)
    ensures
        r@ == slashed(cs@),
{
    let mut out: Vec<char> = Vec::new();
    let mut i: usize = 0;
    while i < cs.len()
        invariant
            i <= cs.len(),
            out@ == slashed(cs@.take(i as int)),
        decreases cs.len() - i,
    {
        let c = cs[i];
        if c == '\\' {
            out.push('/');
        } else {
            out.push(c);
        }
        assert(slashed(cs@.take(i + 1)) == slashed(cs@.take(i as int)).push(out@.last()));
        i = i + 1;
    }
    assert(cs@.take(cs.len() as int) == cs@);
    out
}

pub open spec fn views(v: Seq<Vec<char>>) -> Seq<Seq<char>> {
    v.map_values(|x: Vec<char>| x@)
}

fn is_named(c: &Vec<char>) -> (r: bool)
    ensures
        r == is_named_piece(c@),
{
    if c.len() == 0 {
        false
    } else if c.len() == 1 && c[0] == '.' {
        assert(c@ == seq!['.']);
        false
    } else {
        assert(c@ != seq!['.']) by {
            if c@ == seq!['.'] {
                assert(c@.len() == 1);
                assert(c@[0] == '.');
            }
        }
        true
    }
}

/// The components of a `/`-separated path (see [`path_components`]).
pub fn components_of(s: &Vec<char>) -> (r: Vec<Vec<char>>)
    ensures
        views(r@) == path_components(s@),
{
    let mut parts: Vec<Vec<char>> = Vec::new();
    let mut cur: Vec<char> = Vec::new();
    let mut i: usize = 0;
    proof {
        lemma_split_on_nonempty(s@.take(0), '/');
    }
    while i < s.len()
        invariant
            i <= s.len(),
            split_on(s@.take(i as int), '/').len() >= 1,
            cur@ == split_on(s@.take(i as int), '/').last(),
            views(parts@) == named_pieces(split_on(s@.take(i as int), '/').drop_last()),
        decreases s.len() - i,
    {
        let c = s[i];
        let ghost pre = s@.take(i as int);
        let ghost sp = split_on(pre, '/');
        assert(s@.take(i + 1).drop_last() == pre);
        if c == '/' {
            let named = is_named(&cur);
            if named {
                parts.push(cur);
            }
            cur = Vec::new();
            assert(split_on(s@.take(i + 1), '/') == sp.push(seq![]));
            assert(sp.push(seq![]).drop_last() == sp);
            assert(views(parts@) == named_pieces(sp));
        } else {
            cur.push(c);
            assert(split_on(s@.take(i + 1), '/') == sp.update(sp.len() - 1, sp.last().push(c)));
            assert(sp.update(sp.len() - 1, sp.last().push(c)).drop_last() == sp.drop_last());
        }
        i = i + 1;
    }
    assert(s@.take(s.len() as int) == s@);
    let named = is_named(&cur);
    if named {
        parts.push(cur);
    }
    parts
}

/// The pieces of `s` between occurrences of `sep` (see [`split_on`]).
pub fn split_chars(s: &Vec<char>, sep: char) -> (r: Vec<Vec<char>>)
    ensures
        views(r@) == split_on(s@, sep),
{
    let mut parts: Vec<Vec<char>> = Vec::new();
    let mut cur: Vec<char> = Vec::new();
    let mut i: usize = 0;
    proof {
        lemma_split_on_nonempty(s@.take(0), sep);
    }
    assert(views(parts@) =~= split_on(s@.take(0), sep).drop_last());
    while i < s.len()
        invariant
            i <= s.len(),
            split_on(s@.take(i as int), sep).len() >= 1,
            cur@ == split_on(s@.take(i as int), sep).last(),
            views(parts@) == split_on(s@.take(i as int), sep).drop_last(),
        decreases s.len() - i,
    {
        let c = s[i];
        let ghost pre = s@.take(i as int);
        let ghost sp = split_on(pre, sep);
        assert(s@.take(i + 1).drop_last() == pre);
        if c == sep {
            let ghost before = views(parts@);
            let ghost cv = cur@;
            parts.push(cur);
            cur = Vec::new();
            assert(split_on(s@.take(i + 1), sep) == sp.push(seq![]));
            assert(views(parts@) =~= before.push(cv));
            assert(sp.drop_last().push(sp.last()) =~= sp);
            assert(sp.push(seq![]).drop_last() == sp);
        } else {
            cur.push(c);
            assert(split_on(s@.take(i + 1), sep) == sp.update(sp.len() - 1, sp.last().push(c)));
            assert(sp.update(sp.len() - 1, sp.last().push(c)).drop_last() == sp.drop_last());
        }
        i = i + 1;
    }
    assert(s@.take(s.len() as int) == s@);
    let ghost before = views(parts@);
    parts.push(cur);
    assert(views(parts@) =~= before.push(split_on(s@, sep).last()));
    assert(split_on(s@, sep).drop_last().push(split_on(s@, sep).last()) =~= split_on(s@, sep));
    parts
}

pub fn join_with_slash(parts: &Vec<Vec<char>>) -> (r: Vec<char>)
    ensures
        r@ == join(views(parts@), seq!['/']),
{
    let mut out: Vec<char> = Vec::new();
    let mut i: usize = 0;
    while i < parts.len()
        invariant
            i <= parts.len(),
            out@ == join(views(parts@).take(i as int), seq!['/']),
        decreases parts.len() - i,
    {
        let ghost pre = views(parts@).take(i as int);
        assert(views(parts@).take(i + 1).drop_last() == pre);
        if i > 0 {
            out.push('/');
        }
        append_chars(&mut out, &parts[i]);
        i = i + 1;
    }
    assert(views(parts@).take(parts.len() as int) == views(parts@));
    out
}

/// `parts` joined with `sep` between consecutive parts.
pub fn join_with(parts: &Vec<Vec<char>>, sep: &str) -> (r: Vec<char>)
    ensures
        r@ == join(views(parts@), sep@),
{
    let mut out: Vec<char> = Vec::new();
    let mut i: usize = 0;
    while i < parts.len()
        invariant
            i <= parts.len(),
            out@ == join(views(parts@).take(i as int), sep@),
        decreases parts.len() - i,
    {
        let ghost pre = views(parts@).take(i as int);
        assert(views(parts@).take(i + 1).drop_last() == pre);
        if i > 0 {
            crate::text::append_str(&mut out, sep);
        }
        append_chars(&mut out, &parts[i]);
        i = i + 1;
    }
    assert(views(parts@).take(parts.len() as int) == views(parts@));
    out
}

fn is_drive(c: &Vec<char>) -> (r: bool)
    ensures
        r == is_drive_component(c@),
{
    c.len() == 2 && (('a' <= c[0] && c[0] <= 'z') || ('A' <= c[0] && c[0] <= 'Z')) && c[1] == ':'
}

/// The components kept by [`normalize_path`] (see [`normalized_components`]).
pub fn normalized_components_of(path: &str) -> (r: Vec<Vec<char>>)
    ensures
        views(r@) == normalized_components(path@),
{
    let raw = chars_of(path);
    let s = slash_chars(&raw);
    let mut parts = components_of(&s);
    let drive = parts.len() > 0 && is_drive(&parts[0]);
    if drive {
        parts.remove(0);
        assert(views(parts@) == path_components(s@).drop_first());
    }
    let absolute = (s.len() > 0 && s[0] == '/') || drive;
    if absolute && parts.len() > 0 {
        let ghost before = views(parts@);
        let last = parts.pop().unwrap();
        assert(last@ == before.last());
        let mut single: Vec<Vec<char>> = Vec::new();
        single.push(last);
        assert(views(single@) == seq![before.last()]);
        return single;
    }
    parts
}

/// Normalizes a path to project-relative form with `/` separators, stripping
/// host root and drive prefixes and escaping control characters.
pub fn normalize_path(path: &str) -> (r: String)
    ensures
        r@ == normalized_path(path@),
{
    let parts = normalized_components_of(path);
    let joined = join_with_slash(&parts);
    let out = escape_chars(&joined);
    string_from_chars(&out)
}

// ---------------------------------------------------------------------------
// Ordering
// ---------------------------------------------------------------------------

/// Lexicographic comparison of character sequences by code point (the order
/// of `str`'s `Ord`, since UTF-8 preserves code point order): `-1`, `0` or `1`.
pub open spec fn seq_order(a: Seq<char>, b: Seq<char>) -> int
    decreases a.len(),
{
    if a.len() == 0 {
        if b.len() == 0 {
            0
        } else {
            -1
        }
    } else if b.len() == 0 {
        1
    } else if (a[0] as u32) < (b[0] as u32) {
        -1
    } else if (a[0] as u32) > (b[0] as u32) {
        1
    } else {
        seq_order(a.drop_first(), b.drop_first())
    }
}

/// Comparison of natural numbers: `-1`, `0` or `1`.
pub open spec fn num_order(a: int, b: int) -> int {
    if a < b {
        -1
    } else if a > b {
        1
    } else {
        0
    }
}

/// `Option`'s order: `None` first, then `Some` by value.
pub open spec fn opt_order(a: Option<usize>, b: Option<usize>) -> int {
    match (a, b) {
        (None, None) => 0,
        (None, Some(_)) => -1,
        (Some(_), None) => 1,
        (Some(x), Some(y)) => num_order(x as int, y as int),
    }
}

/// The normalized location path of a diagnostic (empty without location).
pub open spec fn location_key(loc: Option<Location>) -> Seq<char> {
    match loc {
        None => seq![],
        Some(l) => normalized_path(l.path@),
    }
}

pub open spec fn location_line(loc: Option<Location>) -> Option<usize> {
    match loc {
        None => None,
        Some(l) => l.line,
    }
}

pub open spec fn location_column(loc: Option<Location>) -> Option<usize> {
    match loc {
        None => None,
        Some(l) => l.column,
    }
}

/// The total order of diagnostics: normalized path, then line, then column,
/// then code, then ordinal.
pub open spec fn diag_order(a: Diagnostic, b: Diagnostic) -> int {
    let c1 = seq_order(location_key(a.location), location_key(b.location));
    let c2 = opt_order(location_line(a.location), location_line(b.location));
    let c3 = opt_order(location_column(a.location), location_column(b.location));
    let c4 = seq_order(a.code@, b.code@);
    let c5 = num_order(a.ordinal as int, b.ordinal as int);
    if c1 != 0 {
        c1
    } else if c2 != 0 {
        c2
    } else if c3 != 0 {
        c3
    } else if c4 != 0 {
        c4
    } else {
        c5
    }
}

/// Compares character sequences (see [`seq_order`]).
pub fn compare_chars(a: &Vec<char>, b: &Vec<char>) -> (r: i8)
    ensures
        r as int == seq_order(a@, b@),
{
    let mut i: usize = 0;
    assert(a@.skip(0) == a@);
    assert(b@.skip(0) == b@);
    while i < a.len() && i < b.len()
        invariant
            i <= a.len(),
            i <= b.len(),
            seq_order(a@, b@) == seq_order(a@.skip(i as int), b@.skip(i as int)),
        decreases a.len() - i,
    {
        let x = a[i] as u32;
        let y = b[i] as u32;
        if x < y {
            return -1;
        } else if x > y {
            return 1;
        }
        assert(a@.skip(i as int).drop_first() == a@.skip(i + 1));
        assert(b@.skip(i as int).drop_first() == b@.skip(i + 1));
        i = i + 1;
    }
    if a.len() == b.len() {
        0
    } else if i == a.len() {
        -1
    } else {
        1
    }
}

fn compare_opt(a: Option<usize>, b: Option<usize>) -> (r: i8)
    ensures
        r as int == opt_order(a, b),
{
    match (a, b) {
        (None, None) => 0,
        (None, Some(_)) => -1,
        (Some(_), None) => 1,
        (Some(x), Some(y)) => if x < y {
            -1
        } else if x > y {
            1
        } else {
            0
        },
    }
}

fn location_key_of(loc: &Option<Location>) -> (r: Vec<char>)
    ensures
        r@ == location_key(*loc),
{
    match loc {
        None => Vec::new(),
        Some(l) => {
            let parts = normalized_components_of(l.path.as_str());
            let joined = join_with_slash(&parts);
            escape_chars(&joined)
        },
    }
}

fn line_of(loc: &Option<Location>) -> (r: Option<usize>)
    ensures
        r == location_line(*loc),
{
    match loc {
        None => None,
        Some(l) => l.line,
    }
}

fn column_of(loc: &Option<Location>) -> (r: Option<usize>)
    ensures
        r == location_column(*loc),
{
    match loc {
        None => None,
        Some(l) => l.column,
    }
}

/// Compares two diagnostics in the diagnostic total order.
pub fn compare_diagnostics(a: &Diagnostic, b: &Diagnostic) -> (r: i8)
    ensures
        r as int == diag_order(*a, *b),
{
    let ka = location_key_of(&a.location);
    let kb = location_key_of(&b.location);
    let c1 = compare_chars(&ka, &kb);
    if c1 != 0 {
        return c1;
    }
    let c2 = compare_opt(line_of(&a.location), line_of(&b.location));
    if c2 != 0 {
        return c2;
    }
    let c3 = compare_opt(column_of(&a.location), column_of(&b.location));
    if c3 != 0 {
        return c3;
    }
    let ca = chars_of(a.code);
    let cb = chars_of(b.code);
    let c4 = compare_chars(&ca, &cb);
    if c4 != 0 {
        return c4;
    }
    if a.ordinal < b.ordinal {
        -1
    } else if a.ordinal > b.ordinal {
        1
    } else {
        0
    }
}

/// `x` placed into `s` after every element not greater than it.
pub open spec fn insert_sorted(s: Seq<Diagnostic>, x: Diagnostic) -> Seq<Diagnostic>
    decreases s.len(),
{
    if s.len() == 0 {
        seq![x]
    } else if diag_order(s.last(), x) <= 0 {
        s.push(x)
    } else {
        insert_sorted(s.drop_last(), x).push(s.last())
    }
}

/// The stable sort of `s` in the diagnostic order: elements that compare equal
/// keep their relative order.
pub open spec fn sorted_diagnostics(s: Seq<Diagnostic>) -> Seq<Diagnostic>
    decreases s.len(),
{
    if s.len() == 0 {
        seq![]
    } else {
        insert_sorted(sorted_diagnostics(s.drop_last()), s.last())
    }
}

proof fn lemma_insert_at(s: Seq<Diagnostic>, x: Diagnostic, j: int)
    requires
        0 <= j <= s.len(),
        forall|k: int| j <= k < s.len() ==> diag_order(#[trigger] s[k], x) > 0,
        j == 0 || diag_order(s[j - 1], x) <= 0,
    ensures
        insert_sorted(s, x) == s.insert(j, x),
    decreases s.len(),
{
    if s.len() == 0 {
        assert(s.insert(j, x) =~= seq![x]);
    } else if j == s.len() {
        assert(s.insert(j, x) =~= s.push(x));
    } else {
        assert(diag_order(s.last(), x) > 0);
        let t = s.drop_last();
        assert forall|k: int| j <= k < t.len() implies diag_order(#[trigger] t[k], x) > 0 by {
            assert(t[k] == s[k]);
        }
        lemma_insert_at(t, x, j);
        assert(t.insert(j, x).push(s.last()) =~= s.insert(j, x));
    }
}

pub proof fn lemma_seq_order_antisym(a: Seq<char>, b: Seq<char>)
    ensures
        seq_order(a, b) == -seq_order(b, a),
        seq_order(a, b) == 0 ==> a == b,
    decreases a.len(),
{
    if a.len() > 0 && b.len() > 0 && (a[0] as u32) == (b[0] as u32) {
        lemma_seq_order_antisym(a.drop_first(), b.drop_first());
        if seq_order(a, b) == 0 {
            assert(a[0] == b[0]) by {
                vstd::utf8::char_u32_cast(a[0], a[0] as u32);
                vstd::utf8::char_u32_cast(b[0], b[0] as u32);
            }
            assert(a =~= seq![a[0]] + a.drop_first());
            assert(b =~= seq![b[0]] + b.drop_first());
        }
    }
}

pub proof fn lemma_seq_order_trans(a: Seq<char>, b: Seq<char>, c: Seq<char>)
    requires
        seq_order(a, b) <= 0,
        seq_order(b, c) <= 0,
    ensures
        seq_order(a, c) <= 0,
    decreases a.len(),
{
    if a.len() > 0 && b.len() > 0 && c.len() > 0 && (a[0] as u32) == (b[0] as u32) && (b[0]
        as u32) == (c[0] as u32) {
        lemma_seq_order_trans(a.drop_first(), b.drop_first(), c.drop_first());
    }
}

proof fn lemma_diag_order_antisym(a: Diagnostic, b: Diagnostic)
    ensures
        diag_order(a, b) == -diag_order(b, a),
{
    lemma_seq_order_antisym(location_key(a.location), location_key(b.location));
    lemma_seq_order_antisym(a.code@, b.code@);
}

proof fn lemma_diag_order_trans(a: Diagnostic, b: Diagnostic, c: Diagnostic)
    requires
        diag_order(a, b) <= 0,
        diag_order(b, c) <= 0,
    ensures
        diag_order(a, c) <= 0,
{
    let (ka, kb, kc) = (location_key(a.location), location_key(b.location), location_key(c.location));
    lemma_seq_order_antisym(ka, kb);
    lemma_seq_order_antisym(kb, kc);
    lemma_seq_order_antisym(ka, kc);
    lemma_seq_order_antisym(a.code@, b.code@);
    lemma_seq_order_antisym(b.code@, c.code@);
    lemma_seq_order_antisym(a.code@, c.code@);
    if seq_order(ka, kb) <= 0 && seq_order(kb, kc) <= 0 {
        lemma_seq_order_trans(ka, kb, kc);
    }
    if seq_order(a.code@, b.code@) <= 0 && seq_order(b.code@, c.code@) <= 0 {
        lemma_seq_order_trans(a.code@, b.code@, c.code@);
    }
}

/// Every element of `s` is ordered before or equal to every later element.
pub open spec fn is_sorted_diagnostics(s: Seq<Diagnostic>) -> bool {
    forall|i: int, j: int| 0 <= i < j < s.len() ==> diag_order(#[trigger] s[i], #[trigger] s[j]) <= 0
}

proof fn lemma_insert_sorted_props(s: Seq<Diagnostic>, x: Diagnostic)
    requires
        is_sorted_diagnostics(s),
    ensures
        is_sorted_diagnostics(insert_sorted(s, x)),
        insert_sorted(s, x).to_multiset() == s.to_multiset().insert(x),
    decreases s.len(),
{
    broadcast use vstd::seq_lib::group_seq_properties;
    if s.len() == 0 {
        assert(insert_sorted(s, x) =~= seq![x]);
    } else if diag_order(s.last(), x) <= 0 {
        let r = s.push(x);
        assert forall|i: int, j: int| 0 <= i < j < r.len() implies diag_order(
            #[trigger] r[i],
            #[trigger] r[j],
        ) <= 0 by {
            if j == s.len() {
                if i < s.len() - 1 {
                    lemma_diag_order_trans(s[i], s.last(), x);
                }
            } else {
                assert(r[i] == s[i] && r[j] == s[j]);
            }
        }
    } else {
        let t = s.drop_last();
        let y = s.last();
        assert(is_sorted_diagnostics(t)) by {
            assert forall|i: int, j: int| 0 <= i < j < t.len() implies diag_order(
                #[trigger] t[i],
                #[trigger] t[j],
            ) <= 0 by {
                assert(t[i] == s[i] && t[j] == s[j]);
            }
        }
        lemma_insert_sorted_props(t, x);
        let u = insert_sorted(t, x);
        let r = u.push(y);
        lemma_diag_order_antisym(y, x);
        assert forall|k: int| 0 <= k < u.len() implies diag_order(#[trigger] u[k], y) <= 0 by {
            assert(u.to_multiset().count(u[k]) > 0);
            assert(u.contains(u[k]));
            let m = t.to_multiset().insert(x);
            assert(m.count(u[k]) > 0);
            if u[k] != x {
                assert(t.to_multiset().count(u[k]) > 0);
                assert(t.contains(u[k]));
                let idx = choose|idx: int| 0 <= idx < t.len() && t[idx] == u[k];
                assert(s[idx] == t[idx]);
                assert(diag_order(s[idx], s[s.len() - 1]) <= 0);
            }
        }
        assert forall|i: int, j: int| 0 <= i < j < r.len() implies diag_order(
            #[trigger] r[i],
            #[trigger] r[j],
        ) <= 0 by {
            if j == u.len() {
                assert(r[i] == u[i]);
            } else {
                assert(r[i] == u[i] && r[j] == u[j]);
            }
        }
        assert(s =~= t.push(y));
    }
}

/// Law: sorting yields a sorted permutation of the diagnostics it was given.
pub proof fn lemma_sorted_diagnostics(s: Seq<Diagnostic>)
    ensures
        is_sorted_diagnostics(sorted_diagnostics(s)),
        sorted_diagnostics(s).to_multiset() == s.to_multiset(),
    decreases s.len(),
{
    broadcast use vstd::seq_lib::group_seq_properties;
    if s.len() > 0 {
        lemma_sorted_diagnostics(s.drop_last());
        lemma_insert_sorted_props(sorted_diagnostics(s.drop_last()), s.last());
        assert(s =~= s.drop_last().push(s.last()));
    }
}

/// The diagnostics that compare equal to `y`.
pub open spec fn same_key(y: Diagnostic) -> spec_fn(Diagnostic) -> bool {
    |d: Diagnostic| diag_order(d, y) == 0
}

proof fn lemma_same_key_pair(a: Diagnostic, b: Diagnostic, y: Diagnostic)
    requires
        diag_order(a, y) == 0,
        diag_order(b, y) == 0,
    ensures
        diag_order(a, b) == 0,
{
    lemma_diag_order_antisym(b, y);
    lemma_diag_order_antisym(a, y);
    lemma_diag_order_antisym(a, b);
    lemma_diag_order_trans(a, y, b);
    lemma_diag_order_trans(b, y, a);
}

proof fn lemma_insert_filter(t: Seq<Diagnostic>, x: Diagnostic, y: Diagnostic)
    ensures
        insert_sorted(t, x).filter(same_key(y)) == (if diag_order(x, y) == 0 {
            t.filter(same_key(y)).push(x)
        } else {
            t.filter(same_key(y))
        }),
    decreases t.len(),
{
    reveal(Seq::filter);
    let p = same_key(y);
    assert(p(x) == (diag_order(x, y) == 0));
    if t.len() == 0 {
        let one = seq![x];
        assert(one.drop_last() =~= t);
        assert(one.last() == x);
        assert(t.filter(p) == t);
        assert(one.filter(p) == (if p(x) {
            t.filter(p).push(x)
        } else {
            t.filter(p)
        }));
    } else if diag_order(t.last(), x) <= 0 {
        let r = t.push(x);
        assert(r.drop_last() =~= t);
        assert(r.last() == x);
        assert(r.filter(p) == (if p(x) {
            t.filter(p).push(x)
        } else {
            t.filter(p)
        }));
    } else {
        let d = t.drop_last();
        let l = t.last();
        lemma_insert_filter(d, x, y);
        let u = insert_sorted(d, x);
        let r = u.push(l);
        assert(r.drop_last() =~= u);
        assert(r.last() == l);
        assert(p(l) == (diag_order(l, y) == 0));
        assert(r.filter(p) == (if p(l) {
            u.filter(p).push(l)
        } else {
            u.filter(p)
        }));
        assert(t.filter(p) == (if p(l) {
            d.filter(p).push(l)
        } else {
            d.filter(p)
        }));
        if diag_order(x, y) == 0 && diag_order(l, y) == 0 {
            lemma_same_key_pair(l, x, y);
        }
    }
}

proof fn lemma_sorted_is_fixed(s: Seq<Diagnostic>)
    requires
        is_sorted_diagnostics(s),
    ensures
        sorted_diagnostics(s) == s,
    decreases s.len(),
{
    if s.len() > 0 {
        let d = s.drop_last();
        assert(is_sorted_diagnostics(d)) by {
            assert forall|i: int, j: int| 0 <= i < j < d.len() implies diag_order(#[trigger] d[i], #[trigger] d[j])
                <= 0 by {
                assert(d[i] == s[i] && d[j] == s[j]);
            }
        }
        lemma_sorted_is_fixed(d);
        if d.len() > 0 {
            assert(d.last() == s[s.len() - 2]);
            assert(s.last() == s[s.len() - 1]);
            assert(d.push(s.last()) =~= s);
        } else {
            assert(seq![s.last()] =~= s);
        }
    }
}

/// Law: sorting is stable and settles the order: the diagnostics that
/// compare equal to any `y` keep their relative order, and sorting a sorted
/// sequence again changes nothing.
pub proof fn law_sort_stable_and_idempotent(s: Seq<Diagnostic>, y: Diagnostic)
    ensures
        sorted_diagnostics(s).filter(same_key(y)) == s.filter(same_key(y)),
        sorted_diagnostics(sorted_diagnostics(s)) == sorted_diagnostics(s),
    decreases s.len(),
{
    lemma_sorted_diagnostics(s);
    lemma_sorted_is_fixed(sorted_diagnostics(s));
    if s.len() > 0 {
        let d = s.drop_last();
        reveal(Seq::filter);
        let p = same_key(y);
        law_sort_stable_and_idempotent(d, y);
        lemma_insert_filter(sorted_diagnostics(d), s.last(), y);
        assert(s.drop_last() == d);
        assert(p(s.last()) == (diag_order(s.last(), y) == 0));
        assert(s.filter(p) == (if p(s.last()) {
            d.filter(p).push(s.last())
        } else {
            d.filter(p)
        }));
    }
}

// ---------------------------------------------------------------------------
// Diagnostics as plain values
// ---------------------------------------------------------------------------

/// A diagnostic over plain values: its text fields taken by their characters.
pub struct DiagnosticView {
    pub code: Seq<char>,
    pub severity: Severity,
    pub location: Option<(Seq<char>, Option<usize>, Option<usize>)>,
    pub message: Seq<char>,
    pub next_action: Seq<char>,
    pub ordinal: usize,
}

pub open spec fn location_view(l: Location) -> (Seq<char>, Option<usize>, Option<usize>) {
    (l.path@, l.line, l.column)
}

pub open spec fn diagnostic_view(d: Diagnostic) -> DiagnosticView {
    DiagnosticView {
        code: d.code@,
        severity: d.severity,
        location: match d.location {
            Some(l) => Some(location_view(l)),
            None => None,
        },
        message: d.message@,
        next_action: d.next_action@,
        ordinal: d.ordinal,
    }
}

pub open spec fn diagnostic_views(s: Seq<Diagnostic>) -> Seq<DiagnosticView> {
    s.map_values(|d: Diagnostic| diagnostic_view(d))
}

/// Diagnostics `ds`, created without ordinal, as a report that already held
/// `count` diagnostics stores them when they are added one by one: each takes
/// its position as ordinal.
pub open spec fn numbered_from(ds: Seq<DiagnosticView>, count: nat) -> Seq<DiagnosticView> {
    Seq::new(ds.len(), |i: int| DiagnosticView { ordinal: (count + i) as usize, ..ds[i] })
}

/// The diagnostic order (see [`diag_order`]) over plain values.
pub open spec fn view_order(a: DiagnosticView, b: DiagnosticView) -> int {
    let ka = match a.location {
        Some(l) => normalized_path(l.0),
        None => seq![],
    };
    let kb = match b.location {
        Some(l) => normalized_path(l.0),
        None => seq![],
    };
    let la = match a.location {
        Some(l) => l.1,
        None => None,
    };
    let lb = match b.location {
        Some(l) => l.1,
        None => None,
    };
    let ca = match a.location {
        Some(l) => l.2,
        None => None,
    };
    let cb = match b.location {
        Some(l) => l.2,
        None => None,
    };
    let c1 = seq_order(ka, kb);
    let c2 = opt_order(la, lb);
    let c3 = opt_order(ca, cb);
    let c4 = seq_order(a.code, b.code);
    let c5 = num_order(a.ordinal as int, b.ordinal as int);
    if c1 != 0 {
        c1
    } else if c2 != 0 {
        c2
    } else if c3 != 0 {
        c3
    } else if c4 != 0 {
        c4
    } else {
        c5
    }
}

pub open spec fn insert_sorted_view(s: Seq<DiagnosticView>, x: DiagnosticView) -> Seq<DiagnosticView>
    decreases s.len(),
{
    if s.len() == 0 {
        seq![x]
    } else if view_order(s.last(), x) <= 0 {
        s.push(x)
    } else {
        insert_sorted_view(s.drop_last(), x).push(s.last())
    }
}

/// The stable sort of diagnostics over plain values (see
/// [`sorted_diagnostics`]).
pub open spec fn sorted_views(s: Seq<DiagnosticView>) -> Seq<DiagnosticView>
    decreases s.len(),
{
    if s.len() == 0 {
        seq![]
    } else {
        insert_sorted_view(sorted_views(s.drop_last()), s.last())
    }
}

proof fn lemma_insert_sorted_view(s: Seq<Diagnostic>, x: Diagnostic)
    ensures
        diagnostic_views(insert_sorted(s, x)) == insert_sorted_view(
            diagnostic_views(s),
            diagnostic_view(x),
        ),
    decreases s.len(),
{
    if s.len() > 0 {
        assert(diagnostic_views(s).last() == diagnostic_view(s.last()));
        assert(diagnostic_views(s).drop_last() == diagnostic_views(s.drop_last()));
        assert(diag_order(s.last(), x) == view_order(diagnostic_view(s.last()), diagnostic_view(x)));
        if diag_order(s.last(), x) <= 0 {
            assert(diagnostic_views(s.push(x)) =~= diagnostic_views(s).push(diagnostic_view(x)));
        } else {
            lemma_insert_sorted_view(s.drop_last(), x);
            assert(diagnostic_views(insert_sorted(s.drop_last(), x).push(s.last()))
                =~= diagnostic_views(insert_sorted(s.drop_last(), x)).push(
                diagnostic_view(s.last()),
            ));
        }
    } else {
        assert(diagnostic_views(seq![x]) =~= seq![diagnostic_view(x)]);
    }
}

/// Sorting commutes with taking plain values: the order depends on nothing
/// else.
pub proof fn lemma_sorted_views(s: Seq<Diagnostic>)
    ensures
        diagnostic_views(sorted_diagnostics(s)) == sorted_views(diagnostic_views(s)),
    decreases s.len(),
{
    if s.len() == 0 {
        assert(diagnostic_views(seq![]) =~= seq![]);
    } else {
        lemma_sorted_views(s.drop_last());
        lemma_insert_sorted_view(sorted_diagnostics(s.drop_last()), s.last());
        assert(diagnostic_views(s).drop_last() == diagnostic_views(s.drop_last()));
        assert(diagnostic_views(s).last() == diagnostic_view(s.last()));
    }
}

// ---------------------------------------------------------------------------
// Reports
// ---------------------------------------------------------------------------

impl Diagnostic {
    /// A copy of the diagnostic.
    pub fn clone_diagnostic(&self) -> (r: Diagnostic)
        ensures
            r == *self,
    {
        Diagnostic {
            code: self.code,
            severity: self.severity,
            location: match &self.location {
                Some(l) => Some(Location { path: l.path.clone(), line: l.line, column: l.column }),
                None => None,
            },
            message: self.message.clone(),
            next_action: self.next_action.clone(),
            ordinal: self.ordinal,
        }
    }
}

/// Validation report holding the collected diagnostics.
#[derive(Debug, Clone, Default, PartialEq, Eq)]
pub struct ValidationReport {
    pub diagnostics: Vec<Diagnostic>,
}

/// Whether some diagnostic of `s` is an error.
pub open spec fn has_error_in(s: Seq<Diagnostic>) -> bool {
    exists|i: int| 0 <= i < s.len() && s[i].severity == Severity::Error
}

/// The diagnostic that [`ValidationReport::add`] stores: an unset ordinal
/// (`0`) takes the diagnostic's position unless the report was empty.
pub open spec fn with_position(d: Diagnostic, count: nat) -> Diagnostic {
    if d.ordinal == 0 && count > 0 {
        Diagnostic { ordinal: count as usize, ..d }
    } else {
        d
    }
}

/// Whether some diagnostic is an error.
pub open spec fn has_error_view(ds: Seq<DiagnosticView>) -> bool {
    exists|i: int| 0 <= i < ds.len() && ds[i].severity == Severity::Error
}

/// A report has an error exactly when its plain values do.
pub proof fn lemma_has_error_view(s: Seq<Diagnostic>)
    ensures
        has_error_in(s) == has_error_view(diagnostic_views(s)),
{
    let v = diagnostic_views(s);
    if has_error_in(s) {
        let k = choose|k: int| 0 <= k < s.len() && s[k].severity == Severity::Error;
        assert(v[k].severity == Severity::Error);
    }
    if has_error_view(v) {
        let k = choose|k: int| 0 <= k < v.len() && v[k].severity == Severity::Error;
        assert(s[k].severity == Severity::Error);
    }
}

/// Numbering diagnostics added in two runs is numbering them in one.
pub proof fn lemma_numbered_append(ds: Seq<DiagnosticView>, more: Seq<DiagnosticView>, count: nat)
    ensures
        numbered_from(ds, count) + numbered_from(more, count + ds.len()) == numbered_from(
            ds + more,
            count,
        ),
{
    assert(numbered_from(ds, count) + numbered_from(more, count + ds.len()) =~= numbered_from(
        ds + more,
        count,
    ));
}

/// Adds a diagnostic created without ordinal: it takes its position.
pub fn add_fresh(report: &mut ValidationReport, d: Diagnostic)
    requires
        d.ordinal == 0,
    ensures
        diagnostic_views(final(report).diagnostics@) == diagnostic_views(old(report).diagnostics@)
            + numbered_from(seq![diagnostic_view(d)], old(report).diagnostics@.len()),
{
    report.add(d);
    assert(diagnostic_views(report.diagnostics@) =~= diagnostic_views(old(report).diagnostics@)
        + numbered_from(seq![diagnostic_view(d)], old(report).diagnostics@.len()));
}

impl ValidationReport {
    pub fn new() -> (r: Self)
        ensures
            r.diagnostics@.len() == 0,
    {
        ValidationReport { diagnostics: Vec::new() }
    }

    /// Appends `diagnostic`, giving it its position as ordinal when it has none.
    pub fn add(&mut self, diagnostic: Diagnostic)
        ensures
            final(self).diagnostics@ == old(self).diagnostics@.push(
                with_position(diagnostic, old(self).diagnostics@.len()),
            ),
    {
        let mut d = diagnostic;
        if d.ordinal == 0 && self.diagnostics.len() > 0 {
            d.ordinal = self.diagnostics.len();
        }
        self.diagnostics.push(d);
    }

    /// Whether the report holds a diagnostic of severity `Error`.
    pub fn has_error(&self) -> (r: bool)
        ensures
            r == has_error_in(self.diagnostics@),
    {
        let mut i: usize = 0;
        while i < self.diagnostics.len()
            invariant
                i <= self.diagnostics.len(),
                forall|k: int| 0 <= k < i ==> self.diagnostics@[k].severity != Severity::Error,
            decreases self.diagnostics.len() - i,
        {
            match self.diagnostics[i].severity {
                Severity::Error => {
                    return true;
                },
                Severity::Warning => {},
            }
            i = i + 1;
        }
        false
    }

    /// Sorts the diagnostics, stably, in the diagnostic total order.
    pub fn sort(&mut self)
        ensures
            final(self).diagnostics@ == sorted_diagnostics(old(self).diagnostics@),
    {
        let mut input: Vec<Diagnostic> = Vec::new();
        std::mem::swap(&mut input, &mut self.diagnostics);
        let ghost original = input@;
        let mut out: Vec<Diagnostic> = Vec::new();
        let mut i: usize = 0;
        let n = input.len();
        while i < n
            invariant
                n == original.len(),
                i <= n,
                input@ == original.skip(i as int),
                out@ == sorted_diagnostics(original.take(i as int)),
            decreases n - i,
        {
            let x = input.remove(0);
            assert(x == original[i as int]);
            assert(original.skip(i as int).drop_first() == original.skip(i + 1));
            let mut j = out.len();
            while j > 0 && compare_diagnostics(&out[j - 1], &x) > 0
                invariant
                    j <= out.len(),
                    forall|k: int| j <= k < out.len() ==> diag_order(#[trigger] out@[k], x) > 0,
                decreases j,
            {
                j = j - 1;
            }
            proof {
                lemma_insert_at(out@, x, j as int);
                assert(original.take(i + 1).drop_last() == original.take(i as int));
            }
            out.insert(j, x);
            i = i + 1;
        }
        assert(original.take(n as int) == original);
        self.diagnostics = out;
    }
}

// ---------------------------------------------------------------------------
// Tool faults and rendering
// ---------------------------------------------------------------------------

/// An internal tool failure (such as an unreadable file), with the path it
/// concerns when one is known.
#[derive(Debug, Clone, PartialEq, Eq)]
pub struct ToolFault {
    pub message: String,
    pub path: Option<String>,
}

impl ToolFault {
    pub fn new(message: &str, path: Option<&str>) -> (r: Self)
        ensures
            r.message@ == message@,
            r.path is Some <==> path is Some,
            path is Some ==> r.path->0@ == path->0@,
    {
        let p = match path {
            Some(p) => Some(p.to_owned()),
            None => None,
        };
        ToolFault { message: message.to_owned(), path: p }
    }

    /// The fault as `<path>: <message>`, or `<message>` without a path.
    pub fn to_display_string(&self) -> (r: String)
        ensures
            r@ == (match self.path {
                Some(p) => p@ + ": "@ + self.message@,
                None => self.message@,
            }),
    {
        let mut out: Vec<char> = Vec::new();
        match &self.path {
            Some(p) => {
                append_str(&mut out, p.as_str());
                append_str(&mut out, ": ");
            },
            None => {},
        }
        append_str(&mut out, self.message.as_str());
        string_from_chars(&out)
    }
}

pub open spec fn severity_label(s: Severity) -> Seq<char> {
    match s {
        Severity::Error => "error"@,
        Severity::Warning => "warning"@,
    }
}

/// `path[:line][:column]` of a location, as rendered.
pub open spec fn location_label(loc: Location) -> Seq<char> {
    let p = normalized_path(loc.path@);
    match (loc.line, loc.column) {
        (Some(l), Some(c)) => p + seq![':'] + decimal(l as nat) + seq![':'] + decimal(c as nat),
        (Some(l), None) => p + seq![':'] + decimal(l as nat),
        (None, None) => p,
        (None, Some(c)) => p + seq![':', ':'] + decimal(c as nat),
    }
}

/// The single-line rendering of a diagnostic:
/// `<severity>: [<code>] <location>: <message> (<next action>)`, the location
/// part left out when it renders empty.
pub open spec fn rendered(d: Diagnostic) -> Seq<char> {
    let loc = match d.location {
        Some(l) => location_label(l),
        None => seq![],
    };
    let head = severity_label(d.severity) + ": ["@ + escaped(d.code@) + "] "@;
    let tail = escaped(d.message@) + " ("@ + escaped(d.next_action@) + ")"@;
    if loc.len() == 0 {
        head + tail
    } else {
        head + loc + ": "@ + tail
    }
}

/// The single-line rendering of a tool fault:
/// `error: [wda.tool.fault] <path>: <message>`, the path part left out when
/// there is none or it normalizes to nothing.
pub open spec fn rendered_fault(f: ToolFault) -> Seq<char> {
    let p = match f.path {
        Some(p) => normalized_path(p@),
        None => seq![],
    };
    if p.len() > 0 {
        "error: ["@ + TOOL_FAULT@ + "] "@ + p + ": "@ + escaped(f.message@)
    } else {
        "error: ["@ + TOOL_FAULT@ + "] "@ + escaped(f.message@)
    }
}

fn location_label_of(loc: &Location) -> (r: Vec<char>)
    ensures
        r@ == location_label(*loc),
{
    let parts = normalized_components_of(loc.path.as_str());
    let joined = join_with_slash(&parts);
    let mut out = escape_chars(&joined);
    match (loc.line, loc.column) {
        (Some(l), Some(c)) => {
            out.push(':');
            push_decimal(&mut out, l);
            out.push(':');
            push_decimal(&mut out, c);
        },
        (Some(l), None) => {
            out.push(':');
            push_decimal(&mut out, l);
        },
        (None, None) => {},
        (None, Some(c)) => {
            out.push(':');
            out.push(':');
            push_decimal(&mut out, c);
        },
    }
    out
}

/// Renders a diagnostic as a single line (see [`rendered`]).
pub fn render(diagnostic: &Diagnostic) -> (r: String)
    ensures
        r@ == rendered(*diagnostic),
{
    let loc = match &diagnostic.location {
        Some(l) => location_label_of(l),
        None => Vec::new(),
    };
    let mut out: Vec<char> = Vec::new();
    match diagnostic.severity {
        Severity::Error => append_str(&mut out, "error"),
        Severity::Warning => append_str(&mut out, "warning"),
    }
    append_str(&mut out, ": [");
    let code = chars_of(diagnostic.code);
    append_chars(&mut out, &escape_chars(&code));
    append_str(&mut out, "] ");
    if loc.len() > 0 {
        append_chars(&mut out, &loc);
        append_str(&mut out, ": ");
    }
    let message = chars_of(diagnostic.message.as_str());
    append_chars(&mut out, &escape_chars(&message));
    append_str(&mut out, " (");
    let action = chars_of(diagnostic.next_action.as_str());
    append_chars(&mut out, &escape_chars(&action));
    append_str(&mut out, ")");
    string_from_chars(&out)
}

/// Renders a tool fault as a single line carrying code `wda.tool.fault`
/// (see [`rendered_fault`]).
pub fn render_fault(fault: &ToolFault) -> (r: String)
    ensures
        r@ == rendered_fault(*fault),
{
    let path = match &fault.path {
        Some(p) => {
            let parts = normalized_components_of(p.as_str());
            let joined = join_with_slash(&parts);
            escape_chars(&joined)
        },
        None => Vec::new(),
    };
    let mut out: Vec<char> = Vec::new();
    append_str(&mut out, "error: [");
    append_str(&mut out, TOOL_FAULT);
    append_str(&mut out, "] ");
    if path.len() > 0 {
        append_chars(&mut out, &path);
        append_str(&mut out, ": ");
    }
    let message = chars_of(fault.message.as_str());
    append_chars(&mut out, &escape_chars(&message));
    string_from_chars(&out)
}

/// No character of `s` is a control character; in particular `s` holds no
/// line break and prints as a single line.
pub open spec fn has_no_control(s: Seq<char>) -> bool {
    forall|k: int| 0 <= k < s.len() ==> !is_control_char(#[trigger] s[k])
}

proof fn lemma_no_control_concat(a: Seq<char>, b: Seq<char>)
    requires
        has_no_control(a),
        has_no_control(b),
    ensures
        has_no_control(a + b),
{
    assert forall|k: int| 0 <= k < (a + b).len() implies !is_control_char(#[trigger] (a + b)[k]) by {
        if k < a.len() {
            assert((a + b)[k] == a[k]);
        } else {
            assert((a + b)[k] == b[k - a.len()]);
        }
    }
}

proof fn lemma_decimal_no_control(n: nat)
    ensures
        has_no_control(decimal(n)),
    decreases n,
{
    assert(!is_control_char(digit_char(n % 10)));
    if n >= 10 {
        lemma_decimal_no_control(n / 10);
        lemma_no_control_concat(decimal(n / 10), seq![digit_char(n % 10)]);
    }
}

proof fn lemma_escaped_no_control(s: Seq<char>)
    ensures
        has_no_control(escaped(s)),
{
    lemma_escaped_has_no_control(s);
}

proof fn lemma_location_label_no_control(loc: Location)
    ensures
        has_no_control(location_label(loc)),
{
    let p = normalized_path(loc.path@);
    lemma_escaped_no_control(join(normalized_components(loc.path@), seq!['/']));
    let colon = seq![':'];
    assert(has_no_control(colon));
    assert(has_no_control(seq![':', ':']));
    match (loc.line, loc.column) {
        (Some(l), Some(c)) => {
            lemma_decimal_no_control(l as nat);
            lemma_decimal_no_control(c as nat);
            lemma_no_control_concat(p, colon);
            lemma_no_control_concat(p + colon, decimal(l as nat));
            lemma_no_control_concat(p + colon + decimal(l as nat), colon);
            lemma_no_control_concat(p + colon + decimal(l as nat) + colon, decimal(c as nat));
        },
        (Some(l), None) => {
            lemma_decimal_no_control(l as nat);
            lemma_no_control_concat(p, colon);
            lemma_no_control_concat(p + colon, decimal(l as nat));
        },
        (None, None) => {},
        (None, Some(c)) => {
            lemma_decimal_no_control(c as nat);
            lemma_no_control_concat(p, seq![':', ':']);
            lemma_no_control_concat(p + seq![':', ':'], decimal(c as nat));
        },
    }
}

/// Law: a rendered diagnostic holds no control character, so it is exactly
/// one line whatever its message, action, code or path hold.
pub proof fn lemma_rendered_is_single_line(d: Diagnostic)
    ensures
        has_no_control(rendered(d)),
{
    reveal_strlit("error");
    reveal_strlit("warning");
    reveal_strlit(": [");
    reveal_strlit("] ");
    reveal_strlit(": ");
    reveal_strlit(" (");
    reveal_strlit(")");
    let loc = match d.location {
        Some(l) => location_label(l),
        None => seq![],
    };
    match d.location {
        Some(l) => lemma_location_label_no_control(l),
        None => {},
    }
    let sev = severity_label(d.severity);
    assert(has_no_control(sev));
    assert(has_no_control(": ["@));
    assert(has_no_control("] "@));
    assert(has_no_control(": "@));
    assert(has_no_control(" ("@));
    assert(has_no_control(")"@));
    lemma_escaped_no_control(d.code@);
    lemma_escaped_no_control(d.message@);
    lemma_escaped_no_control(d.next_action@);
    let head = sev + ": ["@ + escaped(d.code@) + "] "@;
    lemma_no_control_concat(sev, ": ["@);
    lemma_no_control_concat(sev + ": ["@, escaped(d.code@));
    lemma_no_control_concat(sev + ": ["@ + escaped(d.code@), "] "@);
    let tail = escaped(d.message@) + " ("@ + escaped(d.next_action@) + ")"@;
    lemma_no_control_concat(escaped(d.message@), " ("@);
    lemma_no_control_concat(escaped(d.message@) + " ("@, escaped(d.next_action@));
    lemma_no_control_concat(escaped(d.message@) + " ("@ + escaped(d.next_action@), ")"@);
    lemma_no_control_concat(head, tail);
    lemma_no_control_concat(head, loc);
    lemma_no_control_concat(head + loc, ": "@);
    lemma_no_control_concat(head + loc + ": "@, tail);
}

/// Law: a rendered tool fault holds no control character, so it is exactly
/// one line whatever its message or path hold.
pub proof fn lemma_rendered_fault_is_single_line(f: ToolFault)
    ensures
        has_no_control(rendered_fault(f)),
{
    reveal_strlit("error: [");
    reveal_strlit("wda.tool.fault");
    reveal_strlit("] ");
    reveal_strlit(": ");
    let p = match f.path {
        Some(p) => normalized_path(p@),
        None => seq![],
    };
    match f.path {
        Some(q) => lemma_escaped_no_control(join(normalized_components(q@), seq!['/'])),
        None => {},
    }
    assert(has_no_control("error: ["@));
    assert(has_no_control(TOOL_FAULT@));
    assert(has_no_control("] "@));
    assert(has_no_control(": "@));
    lemma_escaped_no_control(f.message@);
    let head = "error: ["@ + TOOL_FAULT@ + "] "@;
    lemma_no_control_concat("error: ["@, TOOL_FAULT@);
    lemma_no_control_concat("error: ["@ + TOOL_FAULT@, "] "@);
    lemma_no_control_concat(head, p);
    lemma_no_control_concat(head + p, ": "@);
    lemma_no_control_concat(head + p + ": "@, escaped(f.message@));
    lemma_no_control_concat(head, escaped(f.message@));
}

} // verus!
