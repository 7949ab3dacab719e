//! Rendering the design review criteria template for a design system: the
//! sections of other design systems are dropped, and the design system's
//! name and accessibility baseline are filled in.

use vstd::prelude::*;

use crate::diagnostics::views;
use crate::layout::{trim_chars, trimmed};
use crate::scripts::{lines_of, replace_text, replaced, text_lines};
use crate::text::{append_chars, chars_of, ends_with, ends_with_chars, lit, starts_with, starts_with_chars, string_from_chars};

verus! {

/// The opening marker of a design-system section.
pub open spec fn section_open() -> Seq<char> {
    "{{#if_design_system \""@
}

/// The closing part of an opening marker.
pub open spec fn section_open_end() -> Seq<char> {
    "\"}}"@
}

/// The closing marker of a section.
pub open spec fn section_close() -> Seq<char> {
    "{{/if_design_system}}"@
}

/// The design system that a trimmed line opens a section for, if it is an
/// opening marker.
pub open spec fn opened_section(t: Seq<char>) -> Option<Seq<char>> {
    if starts_with(t, section_open()) && ends_with(t.skip(section_open().len() as int), section_open_end()) {
        let rest = t.skip(section_open().len() as int);
        Some(rest.take(rest.len() - section_open_end().len()))
    } else {
        None
    }
}

/// A line with the placeholders filled in.
pub open spec fn filled(line: Seq<char>, design_system: Seq<char>, baseline: Seq<char>) -> Seq<char> {
    replaced(replaced(line, "{{DESIGN_SYSTEM_NAME}}"@, design_system), "{{ACCESSIBILITY_BASELINE}}"@, baseline)
}

/// The rendering of the lines, with whether lines are kept at the end: a
/// marker line is dropped and sets whether the following lines are kept
/// (an opening marker keeps them for its own design system only, a closing
/// marker keeps them again); a kept line is filled in and ends with `\n`.
pub open spec fn rendered_lines(lines: Seq<Seq<char>>, design_system: Seq<char>, baseline: Seq<char>) -> (Seq<char>, bool)
    decreases lines.len(),
{
    if lines.len() == 0 {
        (seq![], true)
    } else {
        let (out, keep) = rendered_lines(lines.drop_last(), design_system, baseline);
        let line = lines.last();
        let t = trimmed(line);
        match opened_section(t) {
            Some(target) => (out, target == design_system),
            None => if t == section_close() {
                (out, true)
            } else if keep {
                (out + filled(line, design_system, baseline) + seq!['\n'], keep)
            } else {
                (out, keep)
            },
        }
    }
}

/// The criteria text rendered from the template `source`.
pub open spec fn rendered_criteria(source: Seq<char>, design_system: Seq<char>, baseline: Seq<char>) -> Seq<char> {
    rendered_lines(text_lines(source), design_system, baseline).0
}

fn opened_section_of(t: &Vec<char>) -> (r: Option<Vec<char>>)
    ensures
        match (r, opened_section(t@)) {
            (Some(x), Some(y)) => x@ == y,
            (None, None) => true,
            _ => false,
        },
{
    let open = lit("{{#if_design_system \"");
    let close = lit("\"}}");
    if !starts_with_chars(t, &open) {
        return None;
    }
    let rest = crate::text::slice_chars(t, open.len(), t.len());
    assert(rest@ == t@.skip(open@.len() as int));
    if !ends_with_chars(&rest, &close) {
        return None;
    }
    let target = crate::text::slice_chars(&rest, 0, rest.len() - close.len());
    assert(target@ =~= rest@.take(rest@.len() - close@.len()));
    Some(target)
}

/// Renders the criteria template `source` for a design system and its
/// accessibility baseline (see [`rendered_criteria`]).
pub fn render_criteria(source: &str, design_system: &str, accessibility_baseline: &str) -> (r: String)
    ensures
        r@ == rendered_criteria(source@, design_system@, accessibility_baseline@),
{
    let lines = lines_of(&chars_of(source));
    let ghost ls = views(lines@);
    let ds = chars_of(design_system);
    let ab = chars_of(accessibility_baseline);
    let name_marker = lit("{{DESIGN_SYSTEM_NAME}}");
    let baseline_marker = lit("{{ACCESSIBILITY_BASELINE}}");
    let close = lit("{{/if_design_system}}");
    let mut out: Vec<char> = Vec::new();
    let mut keep = true;
    let mut i: usize = 0;
    assert(ls.take(0) =~= seq![]);
    while i < lines.len()
        invariant
            i <= lines@.len(),
            ls == views(lines@),
            ds@ == design_system@,
            ab@ == accessibility_baseline@,
            name_marker@ == "{{DESIGN_SYSTEM_NAME}}"@,
            baseline_marker@ == "{{ACCESSIBILITY_BASELINE}}"@,
            close@ == section_close(),
            rendered_lines(ls.take(i as int), design_system@, accessibility_baseline@) == (out@, keep),
        decreases lines@.len() - i,
    {
        assert(ls.take(i + 1).drop_last() == ls.take(i as int));
        assert(ls.take(i + 1).last() == lines@[i as int]@);
        let t = trim_chars(&lines[i]);
        match opened_section_of(&t) {
            Some(target) => {
                keep = crate::text::chars_eq(&target, &ds);
            },
            None => {
                if crate::text::chars_eq(&t, &close) {
                    keep = true;
                } else if keep {
                    let a = replace_text(&lines[i], &name_marker, &ds);
                    let b = replace_text(&a, &baseline_marker, &ab);
                    append_chars(&mut out, &b);
                    out.push('\n');
                }
            },
        }
        i = i + 1;
    }
    assert(ls.take(lines@.len() as int) == ls);
    string_from_chars(&out)
}

} // verus!
