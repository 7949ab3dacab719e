//! Element ids of a page: each id may name one element only. Includes can
//! bring two elements with one id into a page whose sources were each clean,
//! so the expanded page is checked again.

use vstd::prelude::*;

use crate::codes;
use crate::diagnostics::{
    add_fresh, diagnostic_view, diagnostic_views, numbered_from, Diagnostic, DiagnosticView, Location, Severity,
    ValidationReport,
};
use crate::html::{
    attribute_text, attribute_views, decode_text, name_is, name_matches, token_views, tokenize_html, html5gum_tokens,
    HtmlToken, HtmlTokenSpec,
};
use crate::text::{append_str, lit, string_from_chars};

verus! {

/// The value of the first attribute named `id` (ignoring ASCII case).
pub open spec fn id_attribute(attrs: Seq<(Seq<u8>, Seq<u8>)>) -> Option<Seq<u8>>
    decreases attrs.len(),
{
    if attrs.len() == 0 {
        None
    } else if name_is(attrs[0].0, "id"@) {
        Some(attrs[0].1)
    } else {
        id_attribute(attrs.drop_first())
    }
}

/// The ids that the start tags of a token stream give, in order; an empty
/// value names nothing and is left out.
pub open spec fn id_values(toks: Seq<HtmlTokenSpec>) -> Seq<Seq<u8>>
    decreases toks.len(),
{
    if toks.len() == 0 {
        seq![]
    } else {
        let prev = id_values(toks.drop_last());
        match toks.last() {
            HtmlTokenSpec::Start { attributes, .. } => match id_attribute(attributes) {
                Some(v) => if v.len() > 0 {
                    prev.push(v)
                } else {
                    prev
                },
                None => prev,
            },
            _ => prev,
        }
    }
}

/// How often `x` occurs in `s`.
pub open spec fn occurrences(s: Seq<Seq<u8>>, x: Seq<u8>) -> nat
    decreases s.len(),
{
    if s.len() == 0 {
        0
    } else {
        occurrences(s.drop_last(), x) + if s.last() == x {
            1nat
        } else {
            0nat
        }
    }
}

/// The ids that occur more than once, each once, in the order of their
/// second occurrence.
pub open spec fn repeated_ids(ids: Seq<Seq<u8>>) -> Seq<Seq<u8>>
    decreases ids.len(),
{
    if ids.len() == 0 {
        seq![]
    } else {
        let prev = repeated_ids(ids.drop_last());
        if occurrences(ids.drop_last(), ids.last()) == 1 {
            prev.push(ids.last())
        } else {
            prev
        }
    }
}

/// The error for an id that names more than one element of `page`.
pub open spec fn duplicate_id_view(page: Seq<char>, id: Seq<u8>) -> DiagnosticView {
    DiagnosticView {
        code: codes::HTML_DUPLICATE_ID@,
        severity: Severity::Error,
        location: Some((page, None, None)),
        message: "Duplicate id '"@ + attribute_text(id) + "' names more than one element of the page"@,
        next_action: "Give each element of the page an id of its own"@,
        ordinal: 0,
    }
}

/// The duplicate-id errors of the tokens of page `page`: one per repeated
/// id.
pub open spec fn duplicate_id_views_of(page: Seq<char>, toks: Seq<HtmlTokenSpec>) -> Seq<DiagnosticView> {
    repeated_ids(id_values(toks)).map_values(|id: Seq<u8>| duplicate_id_view(page, id))
}

/// The duplicate-id errors of the HTML text `content` of page `page`.
pub open spec fn duplicate_id_views(page: Seq<char>, content: Seq<char>) -> Seq<DiagnosticView> {
    duplicate_id_views_of(page, html5gum_tokens(content))
}

fn id_of(attrs: &Vec<(Vec<u8>, Vec<u8>)>) -> (r: Option<&Vec<u8>>)
    ensures
        match r {
            Some(v) => id_attribute(attribute_views(attrs@)) == Some(v@),
            None => id_attribute(attribute_views(attrs@)) is None,
        },
{
    let ghost all = attribute_views(attrs@);
    assert(all.skip(0) =~= all);
    let mut i: usize = 0;
    while i < attrs.len()
        invariant
            i <= attrs@.len(),
            all == attribute_views(attrs@),
            id_attribute(all.skip(i as int)) == id_attribute(all),
        decreases attrs@.len() - i,
    {
        assert(all.skip(i as int)[0] == (attrs@[i as int].0@, attrs@[i as int].1@));
        if name_matches(&attrs[i].0, "id") {
            return Some(&attrs[i].1);
        }
        assert(all.skip(i as int).drop_first() == all.skip(i + 1));
        i = i + 1;
    }
    assert(all.skip(i as int) =~= seq![]);
    None
}

fn same_bytes(a: &Vec<u8>, b: &Vec<u8>) -> (r: bool)
    ensures
        r == (a@ == b@),
{
    if a.len() != b.len() {
        return false;
    }
    let mut i: usize = 0;
    while i < a.len()
        invariant
            i <= a@.len() == b@.len(),
            forall|k: int| 0 <= k < i ==> a@[k] == b@[k],
        decreases a@.len() - i,
    {
        if a[i] != b[i] {
            return false;
        }
        i = i + 1;
    }
    assert(a@ =~= b@);
    true
}

fn count_in(ids: &Vec<Vec<u8>>, end: usize, x: &Vec<u8>) -> (r: usize)
    requires
        end <= ids@.len(),
    ensures
        r == occurrences(ids@.take(end as int).map_values(|v: Vec<u8>| v@), x@),
{
    let ghost vs = ids@.map_values(|v: Vec<u8>| v@);
    let mut n: usize = 0;
    let mut k: usize = 0;
    while k < end
        invariant
            k <= end <= ids@.len(),
            vs == ids@.map_values(|v: Vec<u8>| v@),
            n == occurrences(vs.take(k as int), x@),
            n <= k,
        decreases end - k,
    {
        assert(vs.take(k + 1).drop_last() == vs.take(k as int));
        assert(vs.take(k + 1).last() == ids@[k as int]@);
        if same_bytes(&ids[k], x) {
            n = n + 1;
        }
        k = k + 1;
    }
    assert(ids@.take(end as int).map_values(|v: Vec<u8>| v@) == vs.take(end as int));
    n
}

/// The duplicate-id errors of the tokens of page `page`, created without
/// ordinal (see [`duplicate_id_views_of`]).
pub fn duplicate_ids_in(tokens: &Vec<HtmlToken>, page: &str) -> (r: Vec<Diagnostic>)
    ensures
        diagnostic_views(r@) == duplicate_id_views_of(page@, token_views(tokens@)),
        forall|i: int| 0 <= i < r@.len() ==> (#[trigger] r@[i]).ordinal == 0,
{
    let ghost toks = token_views(tokens@);
    let mut ids: Vec<Vec<u8>> = Vec::new();
    let mut i: usize = 0;
    while i < tokens.len()
        invariant
            i <= tokens@.len(),
            toks == token_views(tokens@),
            ids@.map_values(|v: Vec<u8>| v@) == id_values(toks.take(i as int)),
        decreases tokens@.len() - i,
    {
        assert(toks.take(i + 1).drop_last() == toks.take(i as int));
        assert(toks.take(i + 1).last() == toks[i as int]);
        let ghost before = ids@.map_values(|v: Vec<u8>| v@);
        match &tokens[i] {
            HtmlToken::Start(t) => match id_of(&t.attributes) {
                Some(v) => {
                    if v.len() > 0 {
                        ids.push(v.clone());
                        assert(ids@.map_values(|v: Vec<u8>| v@) =~= before.push(v@));
                    }
                },
                None => {},
            },
            _ => {},
        }
        i = i + 1;
    }
    assert(toks.take(tokens@.len() as int) == toks);
    let ghost vs = ids@.map_values(|v: Vec<u8>| v@);
    let mut out: Vec<Diagnostic> = Vec::new();
    let mut j: usize = 0;
    while j < ids.len()
        invariant
            j <= ids@.len(),
            vs == ids@.map_values(|v: Vec<u8>| v@),
            diagnostic_views(out@) == repeated_ids(vs.take(j as int)).map_values(
                |id: Seq<u8>| duplicate_id_view(page@, id),
            ),
            forall|k: int| 0 <= k < out@.len() ==> (#[trigger] out@[k]).ordinal == 0,
        decreases ids@.len() - j,
    {
        assert(vs.take(j + 1).drop_last() == vs.take(j as int));
        assert(vs.take(j + 1).last() == ids@[j as int]@);
        let c = count_in(&ids, j, &ids[j]);
        assert(ids@.take(j as int).map_values(|v: Vec<u8>| v@) == vs.take(j as int));
        if c == 1 {
            let mut m = lit("Duplicate id '");
            match decode_text(&ids[j]) {
                Some(t) => append_str(&mut m, t.as_str()),
                None => {},
            }
            append_str(&mut m, "' names more than one element of the page");
            let msg = string_from_chars(&m);
            let d = Diagnostic::new(
                codes::HTML_DUPLICATE_ID,
                Severity::Error,
                Some(Location::path_only(page)),
                msg.as_str(),
                "Give each element of the page an id of its own",
            );
            let ghost before = diagnostic_views(out@);
            proof {
                reveal_strlit("Duplicate id '");
                reveal_strlit("' names more than one element of the page");
            }
            assert(diagnostic_view(d) == duplicate_id_view(page@, vs[j as int]));
            out.push(d);
            assert(diagnostic_views(out@) =~= before.push(diagnostic_view(d)));
        }
        j = j + 1;
    }
    assert(vs.take(ids@.len() as int) == vs);
    out
}

/// Checks that no id names two elements of the HTML text `content` of page
/// `page`: one error per repeated id, added to `report`.
pub fn check_duplicate_ids(content: &str, page: &str, report: &mut ValidationReport)
    ensures
        diagnostic_views(final(report).diagnostics@) == diagnostic_views(old(report).diagnostics@)
            + numbered_from(duplicate_id_views(page@, content@), old(report).diagnostics@.len()),
{
    let tokens = tokenize_html(content);
    let found = duplicate_ids_in(&tokens, page);
    let ghost start = old(report).diagnostics@.len();
    let ghost fv = diagnostic_views(found@);
    let mut i: usize = 0;
    while i < found.len()
        invariant
            i <= found@.len(),
            fv == diagnostic_views(found@),
            forall|k: int| 0 <= k < found@.len() ==> (#[trigger] found@[k]).ordinal == 0,
            start == old(report).diagnostics@.len(),
            diagnostic_views(report.diagnostics@) == diagnostic_views(old(report).diagnostics@) + numbered_from(
                fv.take(i as int),
                start,
            ),
        decreases found@.len() - i,
    {
        let ghost before = diagnostic_views(report.diagnostics@);
        let d = found[i].clone_diagnostic();
        assert(d.ordinal == 0);
        add_fresh(report, d);
        proof {
            crate::diagnostics::lemma_numbered_append(fv.take(i as int), seq![diagnostic_view(d)], start);
            assert(fv.take(i as int) + seq![diagnostic_view(d)] =~= fv.take(i + 1));
        }
        i = i + 1;
    }
    assert(fv.take(found@.len() as int) == fv);
}

} // verus!
