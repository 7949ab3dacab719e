//! `<wda-include>` expansion with root containment and cycle detection.
//!
//! A page's `<wda-include src="...">` tags are replaced by the text of the
//! files they name, themselves expanded. An include resolves from the
//! directory of the file that holds it; it may not climb above the project
//! root, must name an existing file whose canonical location lies inside the
//! root, and may not lead back to a file that is being expanded. Everything
//! that is not an include (`<slot>`, `{{ }}`, control flow) is kept byte for
//! byte.

use vstd::prelude::*;
use vstd::utf8::encode_utf8;

use crate::codes;
use crate::diagnostics::{
    components_of, diagnostic_view, diagnostic_views, is_ascii_alpha, join, join_with_slash,
    numbered_from, path_components, add_fresh, has_error_view, slash_chars, slashed, sorted_views, views, Diagnostic,
    DiagnosticView, Location, Severity, ValidationReport,
};
use crate::html::{
    attribute_text, attribute_views, boundaries_check, decode_text, edit_views, html5gum_tokens,
    line_col_of_offset, name_is, name_matches, offset_line_col, on_boundaries, sort_edits,
    sort_edits_by_start, text_between, text_slice, token_views, tokenize_html, HtmlToken,
    HtmlTokenSpec, TextEdit,
};
use crate::layout::{
    str_is, trim_chars, trimmed, walk, walk_components, without_parents, without_parents_of,
};
use crate::ids::{check_duplicate_ids, duplicate_id_views};
use crate::project::{file_index, lookup_key, texts_fit, ProjectFile, ProjectTree};
use crate::text::{append_chars, append_str, chars_of, lit, string_from_chars};

verus! {

// ---------------------------------------------------------------------------
// Include tags
// ---------------------------------------------------------------------------

/// A `<wda-include>` tag: its `src` attribute (trimmed), the byte span that
/// the expansion replaces, and the line and column where it starts.
#[derive(Debug)]
pub struct IncludeTag {
    pub src: Option<String>,
    pub start: usize,
    pub end: usize,
    pub line: usize,
    pub col: usize,
}

/// An include tag over plain values.
pub struct IncludeSpec {
    pub src: Option<Seq<char>>,
    pub start: usize,
    pub end: usize,
    pub line: usize,
    pub col: usize,
}

pub open spec fn opt_text(o: Option<String>) -> Option<Seq<char>> {
    match o {
        Some(t) => Some(t@),
        None => None,
    }
}

pub open spec fn include_view(t: IncludeTag) -> IncludeSpec {
    IncludeSpec { src: opt_text(t.src), start: t.start, end: t.end, line: t.line, col: t.col }
}

pub open spec fn include_views(s: Seq<IncludeTag>) -> Seq<IncludeSpec> {
    s.map_values(|t: IncludeTag| include_view(t))
}

/// The trimmed value of the first `src` attribute, if any.
pub open spec fn src_attribute(attrs: Seq<(Seq<u8>, Seq<u8>)>) -> Option<Seq<char>>
    decreases attrs.len(),
{
    if attrs.len() == 0 {
        None
    } else if name_is(attrs[0].0, "src"@) {
        Some(trimmed(attribute_text(attrs[0].1)))
    } else {
        src_attribute(attrs.drop_first())
    }
}

/// The scan of HTML text `s` with tokens `toks` for include tags: the tag
/// that is open (its end tag not seen yet) and the tags completed so far. A
/// self-closing tag completes at once; an open tag completes at its end tag,
/// which extends its span, or, without one, at the next include tag or the
/// end of the text.
pub open spec fn include_scan(s: Seq<char>, toks: Seq<HtmlTokenSpec>) -> (
    Option<IncludeSpec>,
    Seq<IncludeSpec>,
)
    decreases toks.len(),
{
    if toks.len() == 0 {
        (None, seq![])
    } else {
        let (pending, incs) = include_scan(s, toks.drop_last());
        match toks.last() {
            HtmlTokenSpec::Start { name, self_closing, attributes, start, end } => {
                if name_is(name, "wda-include"@) {
                    let flushed = match pending {
                        Some(p) => incs.push(p),
                        None => incs,
                    };
                    let lc = line_col_of_offset(s, start as nat);
                    let tag = IncludeSpec {
                        src: src_attribute(attributes),
                        start,
                        end,
                        line: lc.0 as usize,
                        col: lc.1 as usize,
                    };
                    if self_closing {
                        (None, flushed.push(tag))
                    } else {
                        (Some(tag), flushed)
                    }
                } else {
                    (pending, incs)
                }
            },
            HtmlTokenSpec::End { name, end, .. } => {
                if name_is(name, "wda-include"@) {
                    match pending {
                        Some(p) => (None, incs.push(IncludeSpec { end, ..p })),
                        None => (None, incs),
                    }
                } else {
                    (pending, incs)
                }
            },
            HtmlTokenSpec::Other => (pending, incs),
        }
    }
}

/// The include tags of HTML text `s` with tokens `toks`, in text order.
pub open spec fn include_tags(s: Seq<char>, toks: Seq<HtmlTokenSpec>) -> Seq<IncludeSpec> {
    let (pending, incs) = include_scan(s, toks);
    match pending {
        Some(p) => incs.push(p),
        None => incs,
    }
}

fn src_attribute_of(attrs: &Vec<(Vec<u8>, Vec<u8>)>) -> (r: Option<String>)
    ensures
        opt_text(r) == src_attribute(attribute_views(attrs@)),
{
    let ghost all = attribute_views(attrs@);
    assert(all.skip(0) == all);
    let mut i: usize = 0;
    while i < attrs.len()
        invariant
            i <= attrs@.len(),
            all == attribute_views(attrs@),
            src_attribute(all.skip(i as int)) == src_attribute(all),
        decreases attrs@.len() - i,
    {
        assert(all.skip(i as int)[0] == all[i as int]);
        assert(all.skip(i as int).drop_first() == all.skip(i + 1));
        if name_matches(&attrs[i].0, "src") {
            let text = match decode_text(&attrs[i].1) {
                Some(t) => t,
                None => String::new(),
            };
            let cs = chars_of(text.as_str());
            let t = trim_chars(&cs);
            return Some(string_from_chars(&t));
        }
        i = i + 1;
    }
    None
}

fn push_include(incs: &mut Vec<IncludeTag>, t: IncludeTag)
    ensures
        include_views(final(incs)@) == include_views(old(incs)@).push(include_view(t)),
{
    incs.push(t);
    assert(include_views(incs@) =~= include_views(old(incs)@).push(include_view(t)));
}

/// Finds the include tags of HTML text from its tokens (see
/// [`include_tags`]).
pub fn include_tags_in(content: &str, tokens: &Vec<HtmlToken>) -> (r: Vec<IncludeTag>)
    requires
        encode_utf8(content@).len() < usize::MAX,
    ensures
        include_views(r@) == include_tags(content@, token_views(tokens@)),
{
    let mut incs: Vec<IncludeTag> = Vec::new();
    let mut pending: Option<IncludeTag> = None;
    let mut i: usize = 0;
    while i < tokens.len()
        invariant
            i <= tokens@.len(),
            encode_utf8(content@).len() < usize::MAX,
            include_scan(content@, token_views(tokens@).take(i as int)) == (
                match pending {
                    Some(p) => Some(include_view(p)),
                    None => None,
                },
                include_views(incs@),
            ),
        decreases tokens@.len() - i,
    {
        assert(token_views(tokens@).take(i + 1).drop_last() == token_views(tokens@).take(i as int));
        match &tokens[i] {
            HtmlToken::Start(tag) => {
                if name_matches(&tag.name, "wda-include") {
                    let prev = pending;
                    pending = None;
                    match prev {
                        Some(p) => push_include(&mut incs, p),
                        None => {},
                    }
                    let src = src_attribute_of(&tag.attributes);
                    let (line, col) = offset_line_col(content, tag.start);
                    let t = IncludeTag { src, start: tag.start, end: tag.end, line, col };
                    if tag.self_closing {
                        push_include(&mut incs, t);
                    } else {
                        pending = Some(t);
                    }
                }
            },
            HtmlToken::End(tag) => {
                if name_matches(&tag.name, "wda-include") {
                    let prev = pending;
                    pending = None;
                    match prev {
                        Some(p) => {
                            let t = IncludeTag { end: tag.end, ..p };
                            push_include(&mut incs, t);
                        },
                        None => {},
                    }
                }
            },
            HtmlToken::Other => {},
        }
        i = i + 1;
    }
    assert(token_views(tokens@).take(tokens@.len() as int) == token_views(tokens@));
    match pending {
        Some(p) => push_include(&mut incs, p),
        None => {},
    }
    incs
}

// ---------------------------------------------------------------------------
// Include paths
// ---------------------------------------------------------------------------

/// Whether walking `comps` from depth `depth` ever climbs above depth zero:
/// `..` goes up one level, any other component down one.
pub open spec fn escapes_from(depth: int, comps: Seq<Seq<char>>) -> bool
    decreases comps.len(),
{
    if comps.len() == 0 {
        false
    } else if comps[0] == ".."@ {
        depth - 1 < 0 || escapes_from(depth - 1, comps.drop_first())
    } else {
        escapes_from(depth + 1, comps.drop_first())
    }
}

/// Whether include path `src`, written in the directory with normal
/// components `base`, leaves the project root: it is rooted (`/`, `\`), has a
/// drive (`C:`), or climbs with `..` above the root.
pub open spec fn include_escapes_root(src: Seq<char>, base: Seq<Seq<char>>) -> bool {
    if src.len() == 0 {
        false
    } else if src[0] == '/' || src[0] == '\\' {
        true
    } else if src.len() >= 2 && is_ascii_alpha(src[0]) && src[1] == ':' {
        true
    } else {
        escapes_from(base.len() as int, path_components(slashed(src)))
    }
}

/// The normal components of a directory path.
pub open spec fn directory_components(p: Seq<char>) -> Seq<Seq<char>> {
    without_parents(path_components(p))
}

/// The normal components of the directory that holds file `p`.
pub open spec fn holding_directory(p: Seq<char>) -> Seq<Seq<char>> {
    let c = path_components(p);
    if c.len() == 0 {
        seq![]
    } else {
        without_parents(c.drop_last())
    }
}

/// The project-relative components that include path `src` resolves to from
/// the directory `base`.
pub open spec fn include_target(src: Seq<char>, base: Seq<Seq<char>>) -> Seq<Seq<char>> {
    walk(base, path_components(slashed(src)))
}

fn escaping_from(base: &Vec<Vec<char>>, src: &Vec<char>) -> (r: bool)
    ensures
        r == include_escapes_root(src@, views(base@)),
{
    let n = src.len();
    if n == 0 {
        return false;
    }
    if src[0] == '/' || src[0] == '\\' {
        return true;
    }
    if n >= 2 && (('a' <= src[0] && src[0] <= 'z') || ('A' <= src[0] && src[0] <= 'Z')) && src[1]
        == ':' {
        return true;
    }
    let s = slash_chars(src);
    let comps = components_of(&s);
    let ghost all = views(comps@);
    let mut depth: u128 = base.len() as u128;
    assert(all.skip(0) == all);
    assert(include_escapes_root(src@, views(base@)) == escapes_from(base@.len() as int, all));
    let mut i: usize = 0;
    while i < comps.len()
        invariant
            i <= comps@.len(),
            all == views(comps@),
            depth <= base@.len() + i,
            base@.len() <= usize::MAX,
            include_escapes_root(src@, views(base@)) == escapes_from(base@.len() as int, all),
            escapes_from(depth as int, all.skip(i as int)) == escapes_from(
                base@.len() as int,
                all,
            ),
        decreases comps@.len() - i,
    {
        assert(all.skip(i as int)[0] == comps@[i as int]@);
        assert(all.skip(i as int).drop_first() == all.skip(i + 1));
        if str_is(&comps[i], "..") {
            if depth == 0 {
                assert(escapes_from(depth as int, all.skip(i as int)));
                return true;
            }
            depth = depth - 1;
        } else {
            depth = depth + 1;
        }
        i = i + 1;
    }
    false
}

/// Whether include path `src`, written in directory `base_rel`, leaves the
/// project root (see [`include_escapes_root`]).
pub fn is_include_root_escaping(src: &str, base_rel: &str) -> (r: bool)
    ensures
        r == include_escapes_root(src@, directory_components(base_rel@)),
{
    let b = chars_of(base_rel);
    let c = components_of(&b);
    let base = without_parents_of(&c, c.len());
    assert(views(c@).take(c@.len() as int) == views(c@));
    let s = chars_of(src);
    escaping_from(&base, &s)
}

fn target_from(base: &Vec<Vec<char>>, src: &Vec<char>) -> (r: Vec<Vec<char>>)
    ensures
        views(r@) == include_target(src@, views(base@)),
{
    let mut stack = crate::layout::copy_pieces(base);
    let s = slash_chars(src);
    let comps = components_of(&s);
    walk_components(&mut stack, &comps);
    stack
}

/// The project-relative path that include path `src`, written in directory
/// `base_rel`, resolves to, with `/` separators (see [`include_target`]).
pub fn resolve_target_rel_path(src: &str, base_rel: &str) -> (r: String)
    ensures
        r@ == join(include_target(src@, directory_components(base_rel@)), seq!['/']),
{
    let b = chars_of(base_rel);
    let c = components_of(&b);
    let base = without_parents_of(&c, c.len());
    assert(views(c@).take(c@.len() as int) == views(c@));
    let s = chars_of(src);
    let t = target_from(&base, &s);
    string_from_chars(&join_with_slash(&t))
}

// ---------------------------------------------------------------------------
// Expansion
// ---------------------------------------------------------------------------

/// The error diagnostic for an include tag of the file at `rel`.
pub open spec fn tag_error(
    code: Seq<char>,
    rel: Seq<char>,
    inc: IncludeSpec,
    message: Seq<char>,
    action: Seq<char>,
) -> DiagnosticView {
    DiagnosticView {
        code,
        severity: Severity::Error,
        location: Some((rel, Some(inc.line), Some(inc.col))),
        message,
        next_action: action,
        ordinal: 0,
    }
}

/// What becomes of one include tag: an error, or the expansion of a file.
pub enum TagOutcome {
    Fails(DiagnosticView),
    Expands { comps: Seq<Seq<char>>, canonical: Seq<char>, text: Seq<char> },
}

/// The canonical location of a file, when inside the root.
pub open spec fn canonical_view(f: ProjectFile) -> Option<Seq<char>> {
    opt_text(f.canonical)
}

/// The outcome of include tag `inc` of the file `current`, whose directory
/// has the normal components `base`, while the files with canonical
/// locations `stack` are being expanded: the tag needs a `src`; the path may
/// not leave the root; it must name an existing file whose canonical location
/// lies inside the root, is not being expanded, and can be read.
pub open spec fn tag_outcome(
    files: Seq<ProjectFile>,
    inc: IncludeSpec,
    current: Seq<char>,
    base: Seq<Seq<char>>,
    stack: Seq<Seq<char>>,
) -> TagOutcome {
    let rel = slashed(current);
    let src = match inc.src {
        Some(t) => t,
        None => seq![],
    };
    let escapes = tag_error(
        codes::BUILD_INCLUDE_ESCAPES_ROOT@,
        rel,
        inc,
        "Include path '"@ + src + "' in '"@ + rel + "' escapes project root"@,
        "Ensure include path stays within project root"@,
    );
    let unresolvable = tag_error(
        codes::BUILD_INCLUDE_UNRESOLVABLE@,
        rel,
        inc,
        "Include path '"@ + src + "' in '"@ + rel + "' cannot be resolved"@,
        "Ensure include path points to an existing file"@,
    );
    if src.len() == 0 {
        TagOutcome::Fails(
            tag_error(
                codes::BUILD_INCLUDE_UNRESOLVABLE@,
                rel,
                inc,
                "Include tag in '"@ + rel + "' is missing or has empty 'src' attribute"@,
                "Provide a valid 'src' attribute on the <wda-include> tag"@,
            ),
        )
    } else if include_escapes_root(src, base) {
        TagOutcome::Fails(escapes)
    } else {
        let comps = include_target(src, base);
        let i = file_index(files, join(comps, seq!['/']));
        if i < 0 {
            TagOutcome::Fails(unresolvable)
        } else {
            match canonical_view(files[i]) {
                None => TagOutcome::Fails(escapes),
                Some(c) => if stack.contains(c) {
                    TagOutcome::Fails(
                        tag_error(
                            codes::BUILD_INCLUDE_CYCLE@,
                            rel,
                            inc,
                            "Cyclic include detected for '"@ + src + "' in '"@ + rel + "'"@,
                            "Remove circular <wda-include> dependency"@,
                        ),
                    )
                } else {
                    match files[i].content {
                        Err(e) => TagOutcome::Fails(
                            tag_error(
                                codes::BUILD_INCLUDE_UNRESOLVABLE@,
                                rel,
                                inc,
                                "Failed to read include target '"@ + src + "': "@ + e@,
                                "Ensure include target is readable"@,
                            ),
                        ),
                        Ok(t) => TagOutcome::Expands { comps, canonical: c, text: t@ },
                    }
                },
            }
        }
    }
}

/// The canonical locations of the files.
pub open spec fn canonical_views(files: Seq<ProjectFile>) -> Seq<Option<Seq<char>>> {
    files.map_values(|f: ProjectFile| canonical_view(f))
}

/// A stack of files being expanded: distinct canonical locations of files
/// of the project.
pub open spec fn stack_ok(files: Seq<ProjectFile>, stack: Seq<Seq<char>>) -> bool {
    &&& stack.no_duplicates()
    &&& forall|k: int| 0 <= k < stack.len() ==> canonical_views(files).contains(Some(#[trigger] stack[k]))
}

/// A stack of files being expanded is no longer than the project has files.
pub proof fn lemma_stack_len(files: Seq<ProjectFile>, stack: Seq<Seq<char>>)
    requires
        stack_ok(files, stack),
    ensures
        stack.len() <= files.len(),
{
    let opts = canonical_views(files);
    let s2 = stack.map_values(|x: Seq<char>| Some(x));
    assert(s2.no_duplicates()) by {
        assert forall|i: int, j: int| 0 <= i < s2.len() && 0 <= j < s2.len() && i != j implies s2[i]
            != s2[j] by {
            assert(stack[i] != stack[j]);
        }
    }
    s2.unique_seq_to_set();
    assert(s2.to_set().subset_of(opts.to_set())) by {
        assert forall|x: Option<Seq<char>>| s2.to_set().contains(x) implies opts.to_set().contains(
            x,
        ) by {
            let k = choose|k: int| 0 <= k < s2.len() && s2[k] == x;
            assert(opts.contains(Some(stack[k])));
        }
    }
    opts.lemma_cardinality_of_set();
    vstd::seq_lib::seq_to_set_is_finite(opts);
    vstd::set_lib::lemma_len_subset(s2.to_set(), opts.to_set());
}

/// Pushing the file that an include tag expands keeps the stack good.
pub proof fn lemma_expands_keeps_stack(
    files: Seq<ProjectFile>,
    inc: IncludeSpec,
    current: Seq<char>,
    base: Seq<Seq<char>>,
    stack: Seq<Seq<char>>,
)
    requires
        stack_ok(files, stack),
    ensures
        tag_outcome(files, inc, current, base, stack) matches TagOutcome::Expands {
            canonical,
            ..
        } ==> stack_ok(files, stack.push(canonical)) && stack.len() < files.len(),
{
    if let TagOutcome::Expands { canonical, .. } = tag_outcome(files, inc, current, base, stack) {
        let src = inc.src.unwrap();
        let comps = include_target(src, base);
        let i = file_index(files, join(comps, seq!['/']));
        crate::project::lemma_file_index_range(files, join(comps, seq!['/']));
        assert(canonical_views(files)[i] == Some(canonical));
        let s = stack.push(canonical);
        assert forall|k: int| 0 <= k < s.len() implies canonical_views(files).contains(
            Some(#[trigger] s[k]),
        ) by {
            if k < stack.len() {
                assert(s[k] == stack[k]);
            }
        }
        assert(s.no_duplicates()) by {
            assert forall|a: int, b: int| 0 <= a < s.len() && 0 <= b < s.len() && a != b implies s[a]
                != s[b] by {
                if a < stack.len() && b < stack.len() {
                    assert(s[a] == stack[a] && s[b] == stack[b]);
                } else if a < stack.len() {
                    assert(s[a] == stack[a]);
                    assert(stack.contains(stack[a]));
                } else if b < stack.len() {
                    assert(s[b] == stack[b]);
                    assert(stack.contains(stack[b]));
                }
            }
        }
        lemma_stack_len(files, s);
    }
}

/// The text of `out` with each replacement `(a, b, t)` in turn putting `t`
/// in place of bytes `a..b`; a replacement whose range is not well
/// delimited in the current text is passed over.
pub open spec fn replace_all(out: Seq<char>, reps: Seq<(int, int, Seq<char>)>) -> Seq<char>
    decreases reps.len(),
{
    if reps.len() == 0 {
        out
    } else {
        let (a, b, t) = reps[0];
        let next = if on_boundaries(out, a, b) {
            text_between(out, 0, a) + t + text_between(out, b, encode_utf8(out).len() as int)
        } else {
            out
        };
        replace_all(next, reps.drop_first())
    }
}

/// The expansion of the text `content` of file `current` (directory `base`)
/// while the files `stack` are being expanded: the text with each include
/// tag replaced by the expansion of the file it names, the replacements made
/// from the last tag to the first, and the diagnostics of the tags that
/// could not be expanded, in the order met.
pub open spec fn expansion(
    files: Seq<ProjectFile>,
    content: Seq<char>,
    current: Seq<char>,
    base: Seq<Seq<char>>,
    stack: Seq<Seq<char>>,
) -> (Seq<char>, Seq<DiagnosticView>)
    decreases files.len() - stack.len(), 1int, 0int,
    when stack_ok(files, stack)
{
    let incs = include_tags(content, html5gum_tokens(content));
    if incs.len() == 0 {
        (content, seq![])
    } else {
        let (reps, ds) = expand_tags(files, incs, current, base, stack);
        (replace_all(content, sort_edits(reps, true)), ds)
    }
}

/// The components of a path without its last one.
pub open spec fn parent_of(c: Seq<Seq<char>>) -> Seq<Seq<char>> {
    if c.len() == 0 {
        seq![]
    } else {
        c.drop_last()
    }
}

/// The replacements and diagnostics of include tags `incs` (see
/// [`expansion`]).
pub open spec fn expand_tags(
    files: Seq<ProjectFile>,
    incs: Seq<IncludeSpec>,
    current: Seq<char>,
    base: Seq<Seq<char>>,
    stack: Seq<Seq<char>>,
) -> (Seq<(int, int, Seq<char>)>, Seq<DiagnosticView>)
    decreases files.len() - stack.len(), 0int, incs.len(),
    when stack_ok(files, stack)
{
    if incs.len() == 0 {
        (seq![], seq![])
    } else {
        let (reps, ds) = expand_tags(files, incs.drop_last(), current, base, stack);
        let inc = incs.last();
        match tag_outcome(files, inc, current, base, stack) {
            TagOutcome::Fails(d) => (reps, ds.push(d)),
            TagOutcome::Expands { comps, canonical, text } => {
                proof {
                    lemma_expands_keeps_stack(files, inc, current, base, stack);
                }
                let (t, cds) = expansion(
                    files,
                    text,
                    join(comps, seq!['/']),
                    parent_of(comps),
                    stack.push(canonical),
                );
                (reps.push((inc.start as int, inc.end as int, t)), ds + cds)
            },
        }
    }
}

/// An include tag's outcome as computed: a diagnostic, or the file to expand.
enum TagStep {
    Fail(Diagnostic),
    Expand { comps: Vec<Vec<char>>, canonical: Vec<char>, index: usize },
}

fn tag_diagnostic(
    code: &'static str,
    rel: &Vec<char>,
    inc: &IncludeTag,
    message: &Vec<char>,
    action: &str,
) -> (r: Diagnostic)
    ensures
        diagnostic_view(r) == tag_error(code@, rel@, include_view(*inc), message@, action@),
{
    let rel_text = string_from_chars(rel);
    let msg = string_from_chars(message);
    Diagnostic::new(
        code,
        Severity::Error,
        Some(Location::new(rel_text.as_str(), Some(inc.line), Some(inc.col))),
        msg.as_str(),
        action,
    )
}

/// `'` + `src` + `' in '` + `rel` + `'`, after `head` and before `tail`.
fn path_message(head: &str, src: &Vec<char>, rel: &Vec<char>, tail: &str) -> (r: Vec<char>)
    ensures
        r@ == head@ + src@ + "' in '"@ + rel@ + tail@,
{
    let mut m = lit(head);
    append_chars(&mut m, src);
    append_str(&mut m, "' in '");
    append_chars(&mut m, rel);
    append_str(&mut m, tail);
    m
}

fn tag_step(
    tree: &ProjectTree,
    inc: &IncludeTag,
    current: &str,
    base: &Vec<Vec<char>>,
    stack: &Vec<Vec<char>>,
) -> (r: TagStep)
    ensures
        match r {
            TagStep::Fail(d) => tag_outcome(
                tree.files@,
                include_view(*inc),
                current@,
                views(base@),
                views(stack@),
            ) == TagOutcome::Fails(diagnostic_view(d)),
            TagStep::Expand { comps, canonical, index } => {
                &&& index < tree.files@.len()
                &&& tree.files@[index as int].content is Ok
                &&& tag_outcome(tree.files@, include_view(*inc), current@, views(base@), views(stack@))
                    == TagOutcome::Expands {
                    comps: views(comps@),
                    canonical: canonical@,
                    text: tree.files@[index as int].content->Ok_0@,
                }
            },
        },
{
    let cur = chars_of(current);
    let rel = slash_chars(&cur);
    let src: Vec<char> = match &inc.src {
        Some(t) => chars_of(t.as_str()),
        None => Vec::new(),
    };
    if src.len() == 0 {
        let mut m = lit("Include tag in '");
        append_chars(&mut m, &rel);
        append_str(&mut m, "' is missing or has empty 'src' attribute");
        return TagStep::Fail(
            tag_diagnostic(
                codes::BUILD_INCLUDE_UNRESOLVABLE,
                &rel,
                inc,
                &m,
                "Provide a valid 'src' attribute on the <wda-include> tag",
            ),
        );
    }
    if escaping_from(base, &src) {
        let m = path_message("Include path '", &src, &rel, "' escapes project root");
        return TagStep::Fail(
            tag_diagnostic(
                codes::BUILD_INCLUDE_ESCAPES_ROOT,
                &rel,
                inc,
                &m,
                "Ensure include path stays within project root",
            ),
        );
    }
    let comps = target_from(base, &src);
    let key = join_with_slash(&comps);
    match tree.index_of(&key) {
        None => {
            let m = path_message("Include path '", &src, &rel, "' cannot be resolved");
            TagStep::Fail(
                tag_diagnostic(
                    codes::BUILD_INCLUDE_UNRESOLVABLE,
                    &rel,
                    inc,
                    &m,
                    "Ensure include path points to an existing file",
                ),
            )
        },
        Some(i) => {
            proof {
                crate::project::lemma_file_index_range(tree.files@, key@);
            }
            let file = &tree.files[i];
            match &file.canonical {
                None => {
                    let m = path_message("Include path '", &src, &rel, "' escapes project root");
                    TagStep::Fail(
                        tag_diagnostic(
                            codes::BUILD_INCLUDE_ESCAPES_ROOT,
                            &rel,
                            inc,
                            &m,
                            "Ensure include path stays within project root",
                        ),
                    )
                },
                Some(c) => {
                    let canonical = chars_of(c.as_str());
                    if stack_holds(stack, &canonical) {
                        let m = path_message("Cyclic include detected for '", &src, &rel, "'");
                        return TagStep::Fail(
                            tag_diagnostic(
                                codes::BUILD_INCLUDE_CYCLE,
                                &rel,
                                inc,
                                &m,
                                "Remove circular <wda-include> dependency",
                            ),
                        );
                    }
                    match &file.content {
                        Err(e) => {
                            let mut m = lit("Failed to read include target '");
                            append_chars(&mut m, &src);
                            append_str(&mut m, "': ");
                            append_str(&mut m, e.as_str());
                            TagStep::Fail(
                                tag_diagnostic(
                                    codes::BUILD_INCLUDE_UNRESOLVABLE,
                                    &rel,
                                    inc,
                                    &m,
                                    "Ensure include target is readable",
                                ),
                            )
                        },
                        Ok(_) => TagStep::Expand { comps, canonical, index: i },
                    }
                },
            }
        },
    }
}

/// Whether `c` is on the stack.
fn stack_holds(stack: &Vec<Vec<char>>, c: &Vec<char>) -> (r: bool)
    ensures
        r == views(stack@).contains(c@),
{
    let mut i: usize = 0;
    while i < stack.len()
        invariant
            i <= stack@.len(),
            forall|k: int| 0 <= k < i ==> stack@[k]@ != c@,
        decreases stack@.len() - i,
    {
        if crate::text::chars_eq(&stack[i], c) {
            assert(views(stack@)[i as int] == c@);
            return true;
        }
        i = i + 1;
    }
    assert forall|k: int| 0 <= k < views(stack@).len() implies views(stack@)[k] != c@ by {
        assert(views(stack@)[k] == stack@[k]@);
    }
    false
}

/// Applies the replacements in turn (see [`replace_all`]).
fn replace_ranges(content: &str, reps: &Vec<TextEdit>) -> (r: String)
    ensures
        r@ == replace_all(content@, edit_views(reps@)),
{
    broadcast use vstd::utf8::group_utf8_lib;

    let ghost all = edit_views(reps@);
    let mut out = content.to_owned();
    let mut i: usize = 0;
    assert(all.skip(0) == all);
    while i < reps.len()
        invariant
            i <= reps@.len(),
            all == edit_views(reps@),
            replace_all(out@, all.skip(i as int)) == replace_all(content@, all),
        decreases reps@.len() - i,
    {
        assert(all.skip(i as int)[0] == all[i as int]);
        assert(all.skip(i as int).drop_first() == all.skip(i + 1));
        let a = reps[i].start;
        let b = reps[i].end;
        if boundaries_check(out.as_str(), a, b) {
            let len = out.as_str().as_bytes().len();
            proof {
                reveal_with_fuel(vstd::utf8::is_char_boundary, 1);
                vstd::utf8::encode_utf8_valid_utf8(out@);
                vstd::utf8::is_char_boundary_start_end_of_seq(encode_utf8(out@));
            }
            let mut next: Vec<char> = Vec::new();
            append_str(&mut next, text_slice(out.as_str(), 0, a));
            append_chars(&mut next, &reps[i].text);
            append_str(&mut next, text_slice(out.as_str(), b, len));
            out = string_from_chars(&next);
        }
        i = i + 1;
    }
    out
}

/// Expands the include tags of `content`, the text of file `current` whose
/// directory has the normal components `base`, while the files `stack` are
/// being expanded, adding the diagnostics to `report` (see [`expansion`]).
fn expand_internal(
    content: &str,
    current: &str,
    base: &Vec<Vec<char>>,
    tree: &ProjectTree,
    stack: &mut Vec<Vec<char>>,
    report: &mut ValidationReport,
) -> (r: String)
    requires
        stack_ok(tree.files@, views(old(stack)@)),
        texts_fit(tree.files@),
        encode_utf8(content@).len() < usize::MAX,
    ensures
        views(final(stack)@) == views(old(stack)@),
        r@ == expansion(tree.files@, content@, current@, views(base@), views(old(stack)@)).0,
        diagnostic_views(final(report).diagnostics@) == diagnostic_views(old(report).diagnostics@)
            + numbered_from(
            expansion(tree.files@, content@, current@, views(base@), views(old(stack)@)).1,
            old(report).diagnostics@.len(),
        ),
    decreases tree.files@.len() - old(stack)@.len(),
{
    let ghost files = tree.files@;
    let ghost st = views(stack@);
    let ghost count = report.diagnostics@.len();
    let tokens = tokenize_html(content);
    let incs = include_tags_in(content, &tokens);
    let ghost all = include_views(incs@);
    if incs.len() == 0 {
        assert(diagnostic_views(report.diagnostics@) =~= diagnostic_views(report.diagnostics@)
            + numbered_from(seq![], count));
        return content.to_owned();
    }
    let mut reps: Vec<TextEdit> = Vec::new();
    let mut i: usize = 0;
    while i < incs.len()
        invariant
            i <= incs@.len(),
            all == include_views(incs@),
            all == include_tags(content@, html5gum_tokens(content@)),
            files == tree.files@,
            texts_fit(files),
            stack_ok(files, st),
            views(stack@) == st,
            stack@.len() == old(stack)@.len(),
            (edit_views(reps@), expand_tags(files, all.take(i as int), current@, views(base@), st).1)
                == expand_tags(files, all.take(i as int), current@, views(base@), st),
            diagnostic_views(report.diagnostics@) == diagnostic_views(old(report).diagnostics@)
                + numbered_from(
                expand_tags(files, all.take(i as int), current@, views(base@), st).1,
                count,
            ),
            count == old(report).diagnostics@.len(),
        decreases incs@.len() - i,
    {
        assert(all.take(i + 1).drop_last() == all.take(i as int));
        assert(all.take(i + 1).last() == include_view(incs@[i as int]));
        let ghost prev = expand_tags(files, all.take(i as int), current@, views(base@), st);
        let inc = &incs[i];
        match tag_step(tree, inc, current, base, stack) {
            TagStep::Fail(d) => {
                add_fresh(report, d);
                proof {
                    crate::diagnostics::lemma_numbered_append(prev.1, seq![diagnostic_view(d)], count);
                }
            },
            TagStep::Expand { comps, canonical, index } => {
                proof {
                    lemma_expands_keeps_stack(files, include_view(*inc), current@, views(base@), st);
                }
                let ghost before = report.diagnostics@.len();
                stack.push(canonical);
                assert(views(stack@) =~= st.push(canonical@));
                let text = match &tree.files[index].content {
                    Ok(t) => t,
                    Err(_) => {
                        proof {
                            assert(false);
                        }
                        return content.to_owned();
                    },
                };
                assert(encode_utf8(text@).len() < usize::MAX) by {
                    assert(match tree.files@[index as int].content {
                        Ok(t) => encode_utf8(t@).len() < usize::MAX,
                        Err(_) => true,
                    });
                }
                let child_rel_chars = join_with_slash(&comps);
                let child_rel = string_from_chars(&child_rel_chars);
                let n = comps.len();
                let mut child_base: Vec<Vec<char>> = crate::layout::copy_pieces(&comps);
                if n > 0 {
                    child_base.pop();
                    assert(views(child_base@) =~= views(comps@).drop_last());
                }
                assert(views(child_base@) == parent_of(views(comps@)));
                let ghost pushed = stack@;
                let t = expand_internal(
                    text.as_str(),
                    child_rel.as_str(),
                    &child_base,
                    tree,
                    stack,
                    report,
                );
                assert(views(stack@) == views(pushed));
                assert(stack@.len() == pushed.len());
                let ghost after_call = stack@;
                stack.pop();
                assert(stack@ == after_call.subrange(0, after_call.len() - 1));
                assert(views(stack@) =~= views(after_call).drop_last());
                assert(views(stack@) =~= st);
                let ghost child = expansion(
                    files,
                    text@,
                    join(views(comps@), seq!['/']),
                    parent_of(views(comps@)),
                    st.push(canonical@),
                );
                proof {
                    crate::diagnostics::lemma_numbered_append(prev.1, child.1, count);
                }
                let e = TextEdit { start: inc.start, end: inc.end, text: chars_of(t.as_str()) };
                let ghost before_reps = edit_views(reps@);
                reps.push(e);
                assert(edit_views(reps@) =~= before_reps.push(
                    (inc.start as int, inc.end as int, t@),
                ));
            },
        }
        i = i + 1;
    }
    assert(all.take(incs@.len() as int) == all);
    let sorted = sort_edits_by_start(reps, true, Ghost(content@));
    replace_ranges(content, &sorted)
}

/// The canonical location of the page at `page`, as the first entry of the
/// expansion stack, when the project has that file inside its root.
pub open spec fn page_stack(files: Seq<ProjectFile>, page: Seq<char>) -> Seq<Seq<char>> {
    let i = file_index(files, lookup_key(path_components(page)));
    if i >= 0 {
        match canonical_view(files[i]) {
            Some(c) => seq![c],
            None => seq![],
        }
    } else {
        seq![]
    }
}

/// The include expansion of the text of the page at project-relative path
/// `page`.
pub open spec fn include_expansion(files: Seq<ProjectFile>, content: Seq<char>, page: Seq<char>) -> (
    Seq<char>,
    Seq<DiagnosticView>,
) {
    expansion(files, content, page, holding_directory(page), page_stack(files, page))
}

/// The expansion of the text of the page at project-relative path `page`:
/// the expanded text, with the diagnostics of the includes followed by the
/// duplicate-id errors of the expanded text.
pub open spec fn page_expansion(files: Seq<ProjectFile>, content: Seq<char>, page: Seq<char>) -> (
    Seq<char>,
    Seq<DiagnosticView>,
) {
    let (x, d) = include_expansion(files, content, page);
    (x, d + duplicate_id_views(page, x))
}

/// Expands all `<wda-include>` tags of `content`, the text of the page at
/// project-relative path `page_path`, and checks the ids of the expanded
/// text again: the expanded text when no include failed and no id names
/// two elements, else a report with the diagnostics of every failed include
/// and every repeated id, sorted (see [`page_expansion`]).
pub fn expand_includes_for_page(content: &str, page_path: &str, tree: &ProjectTree) -> (r: Result<
    String,
    ValidationReport,
>)
    requires
        texts_fit(tree.files@),
        encode_utf8(content@).len() < usize::MAX,
    ensures
        match r {
            Ok(t) => {
                &&& !has_error_view(numbered_from(page_expansion(tree.files@, content@, page_path@).1, 0))
                &&& t@ == page_expansion(tree.files@, content@, page_path@).0
            },
            Err(report) => {
                &&& has_error_view(numbered_from(page_expansion(tree.files@, content@, page_path@).1, 0))
                &&& diagnostic_views(report.diagnostics@) == sorted_views(
                    numbered_from(page_expansion(tree.files@, content@, page_path@).1, 0),
                )
            },
        },
{
    let mut report = ValidationReport::new();
    let page = chars_of(page_path);
    let comps = components_of(&page);
    let n = comps.len();
    let base = if n > 0 {
        let b = without_parents_of(&comps, n - 1);
        assert(views(comps@).take(n - 1) == views(comps@).drop_last());
        b
    } else {
        Vec::new()
    };
    let mut stack: Vec<Vec<char>> = Vec::new();
    match tree.find(&comps) {
        Some(i) => {
            proof {
                crate::project::lemma_file_index_range(tree.files@, lookup_key(views(comps@)));
            }
            match &tree.files[i].canonical {
                Some(c) => {
                    stack.push(chars_of(c.as_str()));
                },
                None => {},
            }
        },
        None => {},
    }
    assert(views(stack@) =~= page_stack(tree.files@, page_path@));
    proof {
        let st = views(stack@);
        if st.len() == 1 {
            let i = file_index(tree.files@, lookup_key(path_components(page_path@)));
            assert(canonical_views(tree.files@)[i] == Some(st[0]));
        }
        assert(stack_ok(tree.files@, st));
    }
    assert(diagnostic_views(report.diagnostics@) =~= seq![]);
    assert(views(base@) == holding_directory(page_path@));
    let ghost st0 = views(stack@);
    let expanded = expand_internal(content, page_path, &base, tree, &mut stack, &mut report);
    assert(st0 == page_stack(tree.files@, page_path@));
    let ghost inc = include_expansion(tree.files@, content@, page_path@);
    assert(diagnostic_views(report.diagnostics@) == seq![] + numbered_from(inc.1, 0));
    assert(diagnostic_views(report.diagnostics@) =~= numbered_from(inc.1, 0));
    assert(expanded@ == inc.0);
    check_duplicate_ids(expanded.as_str(), page_path, &mut report);
    proof {
        crate::diagnostics::lemma_numbered_append(inc.1, duplicate_id_views(page_path@, expanded@), 0);
    }
    assert(diagnostic_views(report.diagnostics@) =~= numbered_from(
        page_expansion(tree.files@, content@, page_path@).1,
        0,
    ));
    let failed = report.has_error();
    proof {
        let ds = diagnostic_views(report.diagnostics@);
        if failed {
            let k = choose|k: int|
                0 <= k < report.diagnostics@.len() && report.diagnostics@[k].severity
                    == Severity::Error;
            assert(ds[k].severity == Severity::Error);
        } else {
            assert forall|k: int| 0 <= k < ds.len() implies ds[k].severity != Severity::Error by {
                assert(report.diagnostics@[k].severity != Severity::Error);
            }
        }
    }
    if failed {
        let ghost unsorted = report.diagnostics@;
        report.sort();
        proof {
            crate::diagnostics::lemma_sorted_views(unsorted);
        }
        Err(report)
    } else {
        Ok(expanded)
    }
}

/// Expands all `<wda-include>` tags of a page's `content`, as the page
/// `index.html` at the project root (see [`expand_includes_for_page`]).
pub fn expand_includes(content: &str, tree: &ProjectTree) -> (r: Result<String, ValidationReport>)
    requires
        texts_fit(tree.files@),
        encode_utf8(content@).len() < usize::MAX,
    ensures
        match r {
            Ok(t) => {
                &&& !has_error_view(numbered_from(page_expansion(tree.files@, content@, "index.html"@).1, 0))
                &&& t@ == page_expansion(tree.files@, content@, "index.html"@).0
            },
            Err(report) => {
                &&& has_error_view(numbered_from(page_expansion(tree.files@, content@, "index.html"@).1, 0))
                &&& diagnostic_views(report.diagnostics@) == sorted_views(
                    numbered_from(page_expansion(tree.files@, content@, "index.html"@).1, 0),
                )
            },
        },
{
    expand_includes_for_page(content, "index.html", tree)
}

} // verus!
