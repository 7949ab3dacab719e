//! Script entries of the expanded pages, and the read-only check that every
//! external import reachable from them is covered by the lock state.

use vstd::prelude::*;

use crate::codes;
use crate::diagnostics::{
    add_fresh, compare_chars, diagnostic_view, diagnostic_views, join, join_with_slash, numbered_from,
    seq_order, slash_chars, slashed, sorted_views, views, Diagnostic, DiagnosticView, Location,
    Severity, ValidationReport,
};
use crate::html::extract_references_from_html;
use crate::json::JsonValue;
use crate::layout::{
    classify_reference, reference_class, reference_target, reference_target_of, reference_view,
    reference_views, ExtractedReference, ReferenceClass, ReferenceKind, ReferenceSpec,
};
use crate::pages::{compare_paths, page_references, path_order, put_path, set_put, string_list, string_pairs, texts};
use crate::project::{file_exists, ProjectFile, ProjectTree};
use crate::scripts::{
    extract_module_specifiers, is_local_module_specifier, is_local_specifier, is_reachable_set,
    key_views, lock_covers, lock_keys, module_specifiers, reachable_script_paths, read_lock_state,
    sorted_distinct, text_of, text_of_path, LockState,
};
use crate::text::{append_str, ends_with, ends_with_chars, lit, starts_with, starts_with_chars, string_from_chars};
use vstd::utf8::encode_utf8;

verus! {

// ---------------------------------------------------------------------------
// Script entries
// ---------------------------------------------------------------------------

/// What reference `r` adds to the entry set `acc`: a file-path reference
/// whose target lies below `scripts/`, ends in `.ts` and exists.
pub open spec fn entry_step(files: Seq<ProjectFile>, acc: Seq<Seq<char>>, r: ReferenceSpec) -> Seq<Seq<char>> {
    match reference_class(r.url) {
        ReferenceClass::FilePath(fp) => {
            let t = reference_target(fp, r.source);
            let s = join(t, seq!['/']);
            if starts_with(slashed(s), "scripts/"@) && ends_with(slashed(s), ".ts"@) && file_exists(
                files,
                t,
            ) {
                set_put(acc, s)
            } else {
                acc
            }
        },
        _ => acc,
    }
}

/// The entry set after the references `refs`.
pub open spec fn entries_after(files: Seq<ProjectFile>, refs: Seq<ReferenceSpec>) -> Seq<Seq<char>>
    decreases refs.len(),
{
    if refs.len() == 0 {
        seq![]
    } else {
        entry_step(files, entries_after(files, refs.drop_last()), refs.last())
    }
}

/// The script entries of the expanded pages, in path order, none twice.
pub open spec fn script_entries(files: Seq<ProjectFile>, pages: Seq<(Seq<char>, Seq<char>)>) -> Seq<
    Seq<char>,
> {
    entries_after(files, page_references(pages))
}

fn entry_step_of(tree: &ProjectTree, r: &ExtractedReference, acc: &mut Vec<Vec<char>>)
    ensures
        views(final(acc)@) == entry_step(tree.files@, views(old(acc)@), reference_view(*r)),
{
    let fp = match classify_reference(r.raw_url.as_str()) {
        ReferenceKind::FilePath(fp) => fp,
        _ => {
            return;
        },
    };
    assert(reference_class(r.raw_url@) == ReferenceClass::FilePath(fp@));
    let t = reference_target_of(fp.as_str(), r.source_file.as_str());
    let s = join_with_slash(&t);
    let n = slash_chars(&s);
    let prefix = lit("scripts/");
    let suffix = lit(".ts");
    if starts_with_chars(&n, &prefix) && ends_with_chars(&n, &suffix) && tree.has_file(&t) {
        put_path(acc, &s);
    }
}

/// The script entries referenced by the expanded pages (`(path, text)`
/// pairs): the project-relative `scripts/**/*.ts` files that a page names
/// and that exist, in path order (see [`script_entries`]).
pub fn discover_script_entries(tree: &ProjectTree, pages: &Vec<(String, String)>) -> (r: Vec<String>)
    requires
        forall|i: int| 0 <= i < pages@.len() ==> encode_utf8((#[trigger] pages@[i]).1@).len() < usize::MAX,
    ensures
        texts(r@) == script_entries(tree.files@, string_pairs(pages@)),
{
    let ghost ps = string_pairs(pages@);
    let mut acc: Vec<Vec<char>> = Vec::new();
    assert(views(acc@) =~= seq![]);
    let mut i: usize = 0;
    while i < pages.len()
        invariant
            i <= pages@.len(),
            ps == string_pairs(pages@),
            forall|k: int| 0 <= k < pages@.len() ==> encode_utf8((#[trigger] pages@[k]).1@).len() < usize::MAX,
            views(acc@) == entries_after(tree.files@, page_references(ps.take(i as int))),
        decreases pages@.len() - i,
    {
        assert(ps.take(i + 1).drop_last() == ps.take(i as int));
        assert(ps.take(i + 1).last() == (pages@[i as int].0@, pages@[i as int].1@));
        let refs = extract_references_from_html(pages[i].1.as_str(), pages[i].0.as_str());
        let ghost done = page_references(ps.take(i as int));
        let ghost rs = reference_views(refs@);
        assert(page_references(ps.take(i + 1)) == done + rs);
        let mut k: usize = 0;
        assert(done + rs.take(0) =~= done);
        while k < refs.len()
            invariant
                k <= refs@.len(),
                rs == reference_views(refs@),
                views(acc@) == entries_after(tree.files@, done + rs.take(k as int)),
            decreases refs@.len() - k,
        {
            entry_step_of(tree, &refs[k], &mut acc);
            assert((done + rs.take(k + 1)).drop_last() =~= done + rs.take(k as int));
            assert((done + rs.take(k + 1)).last() == reference_view(refs@[k as int]));
            k = k + 1;
        }
        assert(rs.take(refs@.len() as int) == rs);
        i = i + 1;
    }
    assert(ps.take(pages@.len() as int) == ps);
    string_list(&acc)
}


// ---------------------------------------------------------------------------
// Lock coverage
// ---------------------------------------------------------------------------

/// The order of `(script, specifier)` pairs: by path, then by text.
pub open spec fn pair_order(a: (Seq<char>, Seq<char>), b: (Seq<char>, Seq<char>)) -> int {
    if path_order(a.0, b.0) != 0 {
        path_order(a.0, b.0)
    } else {
        seq_order(a.1, b.1)
    }
}

/// A sorted set of pairs with `x` added: unchanged when it holds an equal
/// pair.
pub open spec fn pair_put(s: Seq<(Seq<char>, Seq<char>)>, x: (Seq<char>, Seq<char>)) -> Seq<
    (Seq<char>, Seq<char>),
>
    decreases s.len(),
{
    if s.len() == 0 {
        seq![x]
    } else if pair_order(s.last(), x) == 0 {
        s
    } else if pair_order(s.last(), x) < 0 {
        s.push(x)
    } else {
        pair_put(s.drop_last(), x).push(s.last())
    }
}

/// The pairs `acc` with those of script `p` added whose specifier, one of
/// `specs`, is external and not covered by the lock `keys`.
pub open spec fn unlocked_in(
    keys: Seq<Seq<char>>,
    acc: Seq<(Seq<char>, Seq<char>)>,
    p: Seq<char>,
    specs: Seq<Seq<char>>,
) -> Seq<(Seq<char>, Seq<char>)>
    decreases specs.len(),
{
    if specs.len() == 0 {
        acc
    } else {
        let prev = unlocked_in(keys, acc, p, specs.drop_last());
        let s = specs.last();
        if !is_local_specifier(s) && !lock_covers(keys, s) {
            pair_put(prev, (p, s))
        } else {
            prev
        }
    }
}

/// The unlocked `(script, specifier)` pairs of the readable `scripts`, in
/// pair order, none twice.
pub open spec fn unlocked_pairs(files: Seq<ProjectFile>, keys: Seq<Seq<char>>, scripts: Seq<Seq<char>>) -> Seq<
    (Seq<char>, Seq<char>),
>
    decreases scripts.len(),
{
    if scripts.len() == 0 {
        seq![]
    } else {
        let prev = unlocked_pairs(files, keys, scripts.drop_last());
        let p = scripts.last();
        match text_of(files, p) {
            Some(t) => unlocked_in(keys, prev, p, module_specifiers(t)),
            None => prev,
        }
    }
}

/// The diagnostic for an unlocked specifier.
pub open spec fn unlocked_diagnostic(pair: (Seq<char>, Seq<char>)) -> DiagnosticView {
    DiagnosticView {
        code: codes::BUILD_DEPENDENCY_UNLOCKED@,
        severity: Severity::Error,
        location: Some((pair.0, None, None)),
        message: "Dependency specifier '"@ + pair.1 + "' is not covered by deno.lock"@,
        next_action: "Run `wda deps` to update the dependency graph, then run the build again"@,
        ordinal: 0,
    }
}

/// The report of the lock check over the reachable scripts `reachable`.
pub open spec fn lock_report(files: Seq<ProjectFile>, keys: Seq<Seq<char>>, reachable: Seq<Seq<char>>) -> Seq<
    DiagnosticView,
> {
    sorted_views(
        numbered_from(
            unlocked_pairs(files, keys, reachable).map_values(|q: (Seq<char>, Seq<char>)| unlocked_diagnostic(q)),
            0,
        ),
    )
}

fn compare_pairs(a: &(Vec<char>, Vec<char>), b: &(Vec<char>, Vec<char>)) -> (r: i8)
    ensures
        r as int == pair_order((a.0@, a.1@), (b.0@, b.1@)),
{
    let c = compare_paths(&a.0, &b.0);
    if c != 0 {
        c
    } else {
        compare_chars(&a.1, &b.1)
    }
}

pub open spec fn pair_views(s: Seq<(Vec<char>, Vec<char>)>) -> Seq<(Seq<char>, Seq<char>)> {
    s.map_values(|q: (Vec<char>, Vec<char>)| (q.0@, q.1@))
}

proof fn lemma_pair_put_at(s: Seq<(Seq<char>, Seq<char>)>, x: (Seq<char>, Seq<char>), j: int)
    requires
        0 <= j <= s.len(),
        j == 0 || pair_order(s[j - 1], x) <= 0,
        forall|i: int| j <= i < s.len() ==> pair_order(#[trigger] s[i], x) > 0,
    ensures
        j > 0 && pair_order(s[j - 1], x) == 0 ==> pair_put(s, x) == s,
        !(j > 0 && pair_order(s[j - 1], x) == 0) ==> pair_put(s, x) == s.insert(j, x),
    decreases s.len(),
{
    if s.len() == 0 {
        assert(s.insert(j, x) =~= seq![x]);
    } else if j == s.len() {
        assert(s.insert(j, x) =~= s.push(x));
    } else {
        let t = s.drop_last();
        assert forall|i: int| j <= i < t.len() implies pair_order(#[trigger] t[i], x) > 0 by {
            assert(t[i] == s[i]);
        }
        assert(pair_order(s.last(), x) > 0) by {
            assert(s.last() == s[s.len() - 1]);
        }
        if j > 0 {
            assert(t[j - 1] == s[j - 1]);
        }
        lemma_pair_put_at(t, x, j);
        assert(t.insert(j, x).push(s.last()) =~= s.insert(j, x));
        if j > 0 && pair_order(s[j - 1], x) == 0 {
            assert(t.push(s.last()) =~= s);
        }
    }
}

fn put_pair(s: &mut Vec<(Vec<char>, Vec<char>)>, x: (Vec<char>, Vec<char>))
    ensures
        pair_views(final(s)@) == pair_put(pair_views(old(s)@), (x.0@, x.1@)),
{
    let ghost xv = (x.0@, x.1@);
    let mut j: usize = s.len();
    while j > 0 && compare_pairs(&s[j - 1], &x) > 0
        invariant
            j <= s@.len(),
            xv == (x.0@, x.1@),
            forall|i: int| j <= i < s@.len() ==> pair_order(#[trigger] pair_views(s@)[i], xv) > 0,
        decreases j,
    {
        assert(pair_views(s@)[j - 1] == (s@[j - 1].0@, s@[j - 1].1@));
        j = j - 1;
    }
    if j > 0 {
        assert(pair_views(s@)[j - 1] == (s@[j - 1].0@, s@[j - 1].1@));
    }
    proof {
        lemma_pair_put_at(pair_views(s@), xv, j as int);
    }
    if j > 0 && compare_pairs(&s[j - 1], &x) == 0 {
        return;
    }
    let ghost before = pair_views(s@);
    s.insert(j, x);
    assert(pair_views(s@) =~= before.insert(j as int, xv));
}

/// Checks that the external imports reachable from the script entries of
/// the expanded pages are covered by the lock (`deno.lock` as parsed, or
/// `None` when it is absent or not JSON): one diagnostic per unlocked
/// `(script, specifier)` pair, sorted. Without entries the report is empty.
/// Read-only: changing the graph belongs to the dependency commands.
pub fn check_locked_dependencies(tree: &ProjectTree, pages: &Vec<(String, String)>, lock: Option<&JsonValue>) -> (r:
    ValidationReport)
    requires
        forall|i: int| 0 <= i < pages@.len() ==> encode_utf8((#[trigger] pages@[i]).1@).len() < usize::MAX,
    ensures
        ({
            let entries = script_entries(tree.files@, string_pairs(pages@));
            let keys = lock_keys(
                match lock {
                    Some(v) => Some(*v),
                    None => None,
                },
            );
            &&& entries.len() == 0 ==> r.diagnostics@.len() == 0
            &&& entries.len() > 0 ==> exists|reachable: Seq<Seq<char>>|
                #[trigger] is_reachable_set(tree.files@, entries.to_set(), reachable.to_set())
                    && sorted_distinct(reachable) && diagnostic_views(r.diagnostics@) == lock_report(
                    tree.files@,
                    keys,
                    reachable,
                )
        }),
{
    let mut report = ValidationReport::new();
    let entries = discover_script_entries(tree, pages);
    if entries.len() == 0 {
        return report;
    }
    let lock_state = read_lock_state(lock);
    let ghost keys = key_views(lock_state.keys@);
    let reachable = reachable_script_paths(tree, &entries);
    let ghost rv = texts(reachable@);
    let mut unlocked: Vec<(Vec<char>, Vec<char>)> = Vec::new();
    assert(pair_views(unlocked@) =~= seq![]);
    let mut i: usize = 0;
    while i < reachable.len()
        invariant
            i <= reachable@.len(),
            rv == texts(reachable@),
            keys == key_views(lock_state.keys@),
            pair_views(unlocked@) == unlocked_pairs(tree.files@, keys, rv.take(i as int)),
        decreases reachable@.len() - i,
    {
        assert(rv.take(i + 1).drop_last() == rv.take(i as int));
        assert(rv.take(i + 1).last() == reachable@[i as int]@);
        let p = crate::text::chars_of(reachable[i].as_str());
        match text_of_path(tree, &p) {
            Some(t) => {
                let specs = extract_module_specifiers(t.as_str());
                let ghost sv = texts(specs@);
                let ghost base = pair_views(unlocked@);
                let mut k: usize = 0;
                assert(sv.take(0) =~= seq![]);
                while k < specs.len()
                    invariant
                        k <= specs@.len(),
                        sv == texts(specs@),
                        keys == key_views(lock_state.keys@),
                        pair_views(unlocked@) == unlocked_in(keys, base, p@, sv.take(k as int)),
                    decreases specs@.len() - k,
                {
                    assert(sv.take(k + 1).drop_last() == sv.take(k as int));
                    assert(sv.take(k + 1).last() == specs@[k as int]@);
                    let s = specs[k].as_str();
                    if !is_local_module_specifier(s) && !lock_state.covers(s) {
                        put_pair(&mut unlocked, (crate::text::copy_chars(&p), crate::text::chars_of(s)));
                    }
                    k = k + 1;
                }
                assert(sv.take(specs@.len() as int) == sv);
            },
            None => {},
        }
        i = i + 1;
    }
    assert(rv.take(reachable@.len() as int) == rv);
    let ghost pairs = pair_views(unlocked@);
    let ghost mut ds: Seq<DiagnosticView> = seq![];
    let mut j: usize = 0;
    while j < unlocked.len()
        invariant
            j <= unlocked@.len(),
            pairs == pair_views(unlocked@),
            ds == pairs.take(j as int).map_values(|q: (Seq<char>, Seq<char>)| unlocked_diagnostic(q)),
            diagnostic_views(report.diagnostics@) == numbered_from(ds, 0),
        decreases unlocked@.len() - j,
    {
        let src = string_from_chars(&unlocked[j].0);
        let mut m = lit("Dependency specifier '");
        crate::text::append_chars(&mut m, &unlocked[j].1);
        append_str(&mut m, "' is not covered by deno.lock");
        let msg = string_from_chars(&m);
        let d = Diagnostic::new(
            codes::BUILD_DEPENDENCY_UNLOCKED,
            Severity::Error,
            Some(Location::path_only(src.as_str())),
            msg.as_str(),
            "Run `wda deps` to update the dependency graph, then run the build again",
        );
        let ghost before = ds;
        assert(diagnostic_view(d) == unlocked_diagnostic(pairs[j as int]));
        add_fresh(&mut report, d);
        proof {
            crate::diagnostics::lemma_numbered_append(before, seq![diagnostic_view(d)], 0);
            ds = before.push(diagnostic_view(d));
            assert(pairs.take(j + 1).map_values(|q: (Seq<char>, Seq<char>)| unlocked_diagnostic(q)) =~= ds);
        }
        j = j + 1;
    }
    assert(pairs.take(unlocked@.len() as int) == pairs);
    let ghost unsorted = report.diagnostics@;
    report.sort();
    proof {
        crate::diagnostics::lemma_sorted_views(unsorted);
        assert(is_reachable_set(tree.files@, script_entries(tree.files@, string_pairs(pages@)).to_set(), rv.to_set()));
    }
    report
}

} // verus!
