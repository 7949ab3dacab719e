//! Page discovery, source-to-`dist/` mapping with collision detection, and the
//! reachable copy set, over the project tree.
//!
//! Paths are ordered as `std::path::Path` orders them: component by
//! component, a root before a leading `.`, before `..`, before names, and
//! names by their characters.

use vstd::prelude::*;

use crate::codes;
use crate::diagnostics::{
    add_fresh, has_error_view, join_with, compare_chars, components_of, diagnostic_view, diagnostic_views, join, num_order, numbered_from,
    path_components, seq_order, slash_chars, slashed, sorted_views, views, Diagnostic,
    DiagnosticView, Location, Severity, ValidationReport,
};
use crate::css::CssToken;
use crate::html::{extract_references_from_html, html5gum_tokens, html_references, rewrite_html_references, rewritten_html};
use crate::layout::{
    classify_reference, concat_pieces, dist_components, dist_components_of, rewrite_css_references, rewritten_css, has_extension, css_position_limits, css_references, dist_path, extension,
    extract_references_from_css, first_is, has_extension_of, has_leading_cur_dir,
    is_leading_cur_dir, is_secret, is_secret_path, map_source_to_dist, reference_class,
    reference_target, reference_target_of, reference_views, source_dir, source_dir_of, str_is,
    ExtractedReference, ReferenceClass, ReferenceKind, ReferenceSpec,
};
use crate::project::{file_exists, file_index, texts_fit};
use vstd::utf8::encode_utf8;
use crate::project::{ProjectFile, ProjectTree};
use crate::text::{append_chars, append_str, chars_of, eq_ignore_ascii_case, lit, string_from_chars};

verus! {

// ---------------------------------------------------------------------------
// Path order
// ---------------------------------------------------------------------------

/// A component of a path as `Path::components` yields it.
pub enum PathPiece {
    Root,
    Current,
    Parent,
    Name(Seq<char>),
}

/// The components of a `/`-separated path: a root for a leading `/`, a
/// current-directory component for a leading `.`, then `..` and names.
pub open spec fn path_pieces(p: Seq<char>) -> Seq<PathPiece> {
    let named = path_components(p).map_values(
        |c: Seq<char>|
            if c == ".."@ {
                PathPiece::Parent
            } else {
                PathPiece::Name(c)
            },
    );
    if p.len() > 0 && p[0] == '/' {
        seq![PathPiece::Root] + named
    } else if has_leading_cur_dir(p) {
        seq![PathPiece::Current] + named
    } else {
        named
    }
}

pub open spec fn piece_rank(p: PathPiece) -> int {
    match p {
        PathPiece::Root => 0,
        PathPiece::Current => 1,
        PathPiece::Parent => 2,
        PathPiece::Name(_) => 3,
    }
}

pub open spec fn piece_order(a: PathPiece, b: PathPiece) -> int {
    match (a, b) {
        (PathPiece::Name(x), PathPiece::Name(y)) => seq_order(x, y),
        _ => num_order(piece_rank(a), piece_rank(b)),
    }
}

pub open spec fn pieces_order(a: Seq<PathPiece>, b: Seq<PathPiece>) -> int
    decreases a.len(),
{
    if a.len() == 0 {
        if b.len() == 0 {
            0
        } else {
            -1
        }
    } else if b.len() == 0 {
        1
    } else if piece_order(a[0], b[0]) != 0 {
        piece_order(a[0], b[0])
    } else {
        pieces_order(a.drop_first(), b.drop_first())
    }
}

/// The order of paths: `-1`, `0` or `1`.
pub open spec fn path_order(a: Seq<char>, b: Seq<char>) -> int {
    pieces_order(path_pieces(a), path_pieces(b))
}

/// A path component as an executable value.
pub enum Piece {
    Root,
    Current,
    Parent,
    Name(Vec<char>),
}

pub open spec fn piece_view(p: Piece) -> PathPiece {
    match p {
        Piece::Root => PathPiece::Root,
        Piece::Current => PathPiece::Current,
        Piece::Parent => PathPiece::Parent,
        Piece::Name(n) => PathPiece::Name(n@),
    }
}

pub open spec fn piece_views(s: Seq<Piece>) -> Seq<PathPiece> {
    s.map_values(|p: Piece| piece_view(p))
}

/// The components of a path (see [`path_pieces`]).
pub fn pieces_of(p: &Vec<char>) -> (r: Vec<Piece>)
    ensures
        piece_views(r@) == path_pieces(p@),
{
    let comps = components_of(p);
    let ghost named = path_components(p@).map_values(
        |c: Seq<char>|
            if c == ".."@ {
                PathPiece::Parent
            } else {
                PathPiece::Name(c)
            },
    );
    let mut out: Vec<Piece> = Vec::new();
    if p.len() > 0 && p[0] == '/' {
        out.push(Piece::Root);
    } else if is_leading_cur_dir(p) {
        out.push(Piece::Current);
    }
    let ghost lead = piece_views(out@);
    let mut i: usize = 0;
    while i < comps.len()
        invariant
            i <= comps@.len(),
            views(comps@) == path_components(p@),
            named.len() == comps@.len(),
            forall|k: int| 0 <= k < named.len() ==> #[trigger] named[k] == (if views(comps@)[k] == ".."@ {
                PathPiece::Parent
            } else {
                PathPiece::Name(views(comps@)[k])
            }),
            piece_views(out@) == lead + named.take(i as int),
        decreases comps@.len() - i,
    {
        let ghost before = piece_views(out@);
        assert(views(comps@)[i as int] == comps@[i as int]@);
        let piece = if str_is(&comps[i], "..") {
            Piece::Parent
        } else {
            Piece::Name(crate::text::copy_chars(&comps[i]))
        };
        out.push(piece);
        assert(piece_views(out@) =~= before.push(piece_view(piece)));
        assert(named.take(i + 1) =~= named.take(i as int).push(named[i as int]));
        i = i + 1;
    }
    assert(named.take(comps@.len() as int) == named);
    assert(piece_views(out@) =~= path_pieces(p@));
    out
}

fn piece_rank_of(p: &Piece) -> (r: i8)
    ensures
        r as int == piece_rank(piece_view(*p)),
{
    match p {
        Piece::Root => 0,
        Piece::Current => 1,
        Piece::Parent => 2,
        Piece::Name(_) => 3,
    }
}

/// Compares two paths (see [`path_order`]).
pub fn compare_paths(a: &Vec<char>, b: &Vec<char>) -> (r: i8)
    ensures
        r as int == path_order(a@, b@),
{
    let pa = pieces_of(a);
    let pb = pieces_of(b);
    let ghost va = piece_views(pa@);
    let ghost vb = piece_views(pb@);
    let mut i: usize = 0;
    assert(va.skip(0) == va && vb.skip(0) == vb);
    while i < pa.len() && i < pb.len()
        invariant
            i <= pa@.len(),
            i <= pb@.len(),
            va == piece_views(pa@),
            vb == piece_views(pb@),
            pieces_order(va, vb) == path_order(a@, b@),
            pieces_order(va.skip(i as int), vb.skip(i as int)) == pieces_order(va, vb),
        decreases pa@.len() - i,
    {
        assert(va.skip(i as int)[0] == piece_view(pa@[i as int]));
        assert(vb.skip(i as int)[0] == piece_view(pb@[i as int]));
        assert(va.skip(i as int).drop_first() == va.skip(i + 1));
        assert(vb.skip(i as int).drop_first() == vb.skip(i + 1));
        let c: i8 = match (&pa[i], &pb[i]) {
            (Piece::Name(x), Piece::Name(y)) => compare_chars(x, y),
            _ => {
                let ra = piece_rank_of(&pa[i]);
                let rb = piece_rank_of(&pb[i]);
                if ra < rb {
                    -1
                } else if ra > rb {
                    1
                } else {
                    0
                }
            },
        };
        assert(c as int == piece_order(piece_view(pa@[i as int]), piece_view(pb@[i as int])));
        if c != 0 {
            return c;
        }
        i = i + 1;
    }
    if i == pa.len() {
        if i == pb.len() {
            0
        } else {
            -1
        }
    } else {
        1
    }
}

pub proof fn lemma_piece_order(a: PathPiece, b: PathPiece, c: PathPiece)
    ensures
        piece_order(a, b) == -piece_order(b, a),
        piece_order(a, b) == 0 ==> a == b,
        piece_order(a, b) <= 0 && piece_order(b, c) <= 0 ==> piece_order(a, c) <= 0,
{
    match (a, b) {
        (PathPiece::Name(x), PathPiece::Name(y)) => {
            crate::diagnostics::lemma_seq_order_antisym(x, y);
        },
        _ => {},
    }
    match (a, b, c) {
        (PathPiece::Name(x), PathPiece::Name(y), PathPiece::Name(z)) => {
            if seq_order(x, y) <= 0 && seq_order(y, z) <= 0 {
                crate::diagnostics::lemma_seq_order_trans(x, y, z);
            }
        },
        _ => {},
    }
}

pub proof fn lemma_pieces_order(a: Seq<PathPiece>, b: Seq<PathPiece>, c: Seq<PathPiece>)
    ensures
        pieces_order(a, b) == -pieces_order(b, a),
        pieces_order(a, b) == 0 ==> a == b,
        pieces_order(a, b) <= 0 && pieces_order(b, c) <= 0 ==> pieces_order(a, c) <= 0,
    decreases a.len(),
{
    if a.len() > 0 && b.len() > 0 {
        let cc = if c.len() > 0 { c[0] } else { a[0] };
        lemma_piece_order(a[0], b[0], cc);
        lemma_piece_order(b[0], cc, a[0]);
        lemma_piece_order(a[0], cc, b[0]);
        if c.len() > 0 {
            lemma_pieces_order(a.drop_first(), b.drop_first(), c.drop_first());
        } else {
            lemma_pieces_order(a.drop_first(), b.drop_first(), a.drop_first());
        }
        if pieces_order(a, b) == 0 {
            assert(a == seq![a[0]] + a.drop_first());
            assert(b == seq![b[0]] + b.drop_first());
        }
    }
}

/// The order of paths is total: antisymmetric up to equal components, and
/// transitive.
pub proof fn lemma_path_order(a: Seq<char>, b: Seq<char>, c: Seq<char>)
    ensures
        path_order(a, b) == -path_order(b, a),
        path_order(a, b) == 0 ==> path_pieces(a) == path_pieces(b),
        path_order(a, b) <= 0 && path_order(b, c) <= 0 ==> path_order(a, c) <= 0,
{
    lemma_pieces_order(path_pieces(a), path_pieces(b), path_pieces(c));
}

// ---------------------------------------------------------------------------
// Sorted path collections
// ---------------------------------------------------------------------------

/// `s` with `x` placed after every path that does not follow it.
pub open spec fn insert_path(s: Seq<Seq<char>>, x: Seq<char>) -> Seq<Seq<char>>
    decreases s.len(),
{
    if s.len() == 0 {
        seq![x]
    } else if path_order(s.last(), x) <= 0 {
        s.push(x)
    } else {
        insert_path(s.drop_last(), x).push(s.last())
    }
}

/// The paths in order, equal paths in their original order.
pub open spec fn sort_paths(s: Seq<Seq<char>>) -> Seq<Seq<char>>
    decreases s.len(),
{
    if s.len() == 0 {
        seq![]
    } else {
        insert_path(sort_paths(s.drop_last()), s.last())
    }
}

/// A sorted set of paths with `x` added (`BTreeSet::insert`): unchanged
/// when it holds an equal path.
pub open spec fn set_put(s: Seq<Seq<char>>, x: Seq<char>) -> Seq<Seq<char>>
    decreases s.len(),
{
    if s.len() == 0 {
        seq![x]
    } else if path_order(s.last(), x) == 0 {
        s
    } else if path_order(s.last(), x) < 0 {
        s.push(x)
    } else {
        set_put(s.drop_last(), x).push(s.last())
    }
}

/// Where `x` goes in `s`: after the paths that do not follow it, counting
/// from the end.
spec fn placed_at(s: Seq<Seq<char>>, x: Seq<char>, j: int) -> bool {
    &&& 0 <= j <= s.len()
    &&& j == 0 || path_order(s[j - 1], x) <= 0
    &&& forall|i: int| j <= i < s.len() ==> path_order(#[trigger] s[i], x) > 0
}

proof fn lemma_insert_path_at(s: Seq<Seq<char>>, x: Seq<char>, j: int)
    requires
        placed_at(s, x, j),
    ensures
        insert_path(s, x) == s.insert(j, x),
        path_order(s.last(), x) == 0 && s.len() > 0 ==> j == s.len(),
        j > 0 && path_order(s[j - 1], x) == 0 ==> set_put(s, x) == s,
        !(j > 0 && path_order(s[j - 1], x) == 0) ==> set_put(s, x) == s.insert(j, x),
    decreases s.len(),
{
    if s.len() == 0 {
        assert(s.insert(j, x) =~= seq![x]);
    } else if j == s.len() {
        assert(s.insert(j, x) =~= s.push(x));
    } else {
        let t = s.drop_last();
        assert forall|i: int| j <= i < t.len() implies path_order(#[trigger] t[i], x) > 0 by {
            assert(t[i] == s[i]);
        }
        assert(path_order(s.last(), x) > 0) by {
            assert(s.last() == s[s.len() - 1]);
        }
        lemma_insert_path_at(t, x, j);
        assert(t.insert(j, x).push(s.last()) =~= s.insert(j, x));
        if j > 0 && path_order(s[j - 1], x) == 0 {
            assert(t[j - 1] == s[j - 1]);
            assert(t.push(s.last()) =~= s);
        }
    }
}

/// Where `x` goes among paths `s`, counting from the end: after the paths
/// that do not follow it.
pub fn place_of_path(s: &Vec<Vec<char>>, x: &Vec<char>) -> (r: usize)
    ensures
        0 <= r <= s@.len(),
        r == 0 || path_order(views(s@)[r - 1], x@) <= 0,
        forall|i: int| r <= i < s@.len() ==> path_order(#[trigger] views(s@)[i], x@) > 0,
{
    place_of(s, x)
}

fn place_of(s: &Vec<Vec<char>>, x: &Vec<char>) -> (r: usize)
    ensures
        placed_at(views(s@), x@, r as int),
{
    let mut j: usize = s.len();
    while j > 0 && compare_paths(&s[j - 1], x) > 0
        invariant
            j <= s@.len(),
            forall|i: int| j <= i < s@.len() ==> path_order(#[trigger] views(s@)[i], x@) > 0,
        decreases j,
    {
        assert(views(s@)[j - 1] == s@[j - 1]@);
        j = j - 1;
    }
    if j > 0 {
        assert(views(s@)[j - 1] == s@[j - 1]@);
    }
    j
}

/// Sorts paths (see [`sort_paths`]).
pub fn sort_path_list(v: &Vec<Vec<char>>) -> (r: Vec<Vec<char>>)
    ensures
        views(r@) == sort_paths(views(v@)),
{
    let mut out: Vec<Vec<char>> = Vec::new();
    let mut i: usize = 0;
    while i < v.len()
        invariant
            i <= v@.len(),
            views(out@) == sort_paths(views(v@).take(i as int)),
        decreases v@.len() - i,
    {
        assert(views(v@).take(i + 1).drop_last() == views(v@).take(i as int));
        assert(views(v@).take(i + 1).last() == v@[i as int]@);
        let j = place_of(&out, &v[i]);
        proof {
            lemma_insert_path_at(views(out@), v@[i as int]@, j as int);
        }
        let ghost before = views(out@);
        out.insert(j, crate::text::copy_chars(&v[i]));
        assert(views(out@) =~= before.insert(j as int, v@[i as int]@));
        i = i + 1;
    }
    assert(views(v@).take(v@.len() as int) == views(v@));
    out
}

/// Adds a path to a sorted set of paths (see [`set_put`]).
pub fn put_path(s: &mut Vec<Vec<char>>, x: &Vec<char>)
    ensures
        views(final(s)@) == set_put(views(old(s)@), x@),
{
    let j = place_of(s, x);
    proof {
        lemma_insert_path_at(views(s@), x@, j as int);
    }
    if j > 0 && compare_paths(&s[j - 1], x) == 0 {
        assert(views(s@)[j - 1] == s@[j - 1]@);
        return;
    }
    if j > 0 {
        assert(views(s@)[j - 1] == s@[j - 1]@);
    }
    let ghost before = views(s@);
    s.insert(j, crate::text::copy_chars(x));
    assert(views(s@) =~= before.insert(j as int, x@));
}

// ---------------------------------------------------------------------------
// Page discovery
// ---------------------------------------------------------------------------

/// The texts of strings.
pub open spec fn texts(s: Seq<String>) -> Seq<Seq<char>> {
    s.map_values(|t: String| t@)
}

/// A page: an `.html` file (any case) somewhere below `pages/`.
pub open spec fn is_page_path(p: Seq<char>) -> bool {
    let c = path_components(p);
    &&& c.len() >= 2
    &&& c[0] == "pages"@
    &&& crate::layout::has_extension(c, "html"@)
}

/// The paths of the pages among `files`, in file order.
pub open spec fn page_paths(files: Seq<ProjectFile>) -> Seq<Seq<char>>
    decreases files.len(),
{
    if files.len() == 0 {
        seq![]
    } else {
        let p = page_paths(files.drop_last());
        if is_page_path(files.last().path@) {
            p.push(files.last().path@)
        } else {
            p
        }
    }
}

/// The pages of the project, in path order.
pub open spec fn discovered_pages(files: Seq<ProjectFile>) -> Seq<Seq<char>> {
    sort_paths(page_paths(files))
}

proof fn lemma_split_plain(a: Seq<char>, sep: char)
    requires
        forall|k: int| 0 <= k < a.len() ==> a[k] != sep,
    ensures
        crate::diagnostics::split_on(a, sep) == seq![a],
    decreases a.len(),
{
    if a.len() > 0 {
        lemma_split_plain(a.drop_last(), sep);
        assert(a[a.len() - 1] != sep);
        assert(a.drop_last().push(a.last()) =~= a);
        assert(seq![a.drop_last()].update(0, a.drop_last().push(a.last())) =~= seq![a]);
    } else {
        assert(a =~= Seq::<char>::empty());
    }
}

proof fn lemma_split_concat(a: Seq<char>, b: Seq<char>, sep: char)
    ensures
        crate::diagnostics::split_on(a + seq![sep] + b, sep) == crate::diagnostics::split_on(a, sep)
            + crate::diagnostics::split_on(b, sep),
    decreases b.len(),
{
    let s = a + seq![sep] + b;
    if b.len() == 0 {
        assert(s.drop_last() =~= a);
    } else {
        assert(s.drop_last() =~= a + seq![sep] + b.drop_last());
        lemma_split_concat(a, b.drop_last(), sep);
        crate::diagnostics::lemma_split_on_nonempty(b.drop_last(), sep);
        crate::diagnostics::lemma_split_on_nonempty(a, sep);
        let x = crate::diagnostics::split_on(a, sep);
        let y = crate::diagnostics::split_on(b.drop_last(), sep);
        if b.last() == sep {
            assert((x + y).push(seq![]) =~= x + y.push(seq![]));
        } else {
            assert((x + y).update((x + y).len() - 1, (x + y).last().push(s.last())) =~= x + y.update(
                y.len() - 1,
                y.last().push(b.last()),
            ));
        }
    }
}

proof fn lemma_last_dot_suffix(a: Seq<char>, b: Seq<char>)
    requires
        forall|k: int| 0 <= k < b.len() ==> b[k] != '.',
    ensures
        crate::layout::last_dot(a + b) == crate::layout::last_dot(a),
    decreases b.len(),
{
    if b.len() > 0 {
        assert((a + b).drop_last() =~= a + b.drop_last());
        assert((a + b).last() == b.last());
        lemma_last_dot_suffix(a, b.drop_last());
    } else {
        assert(a + b =~= a);
    }
}

proof fn lemma_page_paths_hold(files: Seq<ProjectFile>, i: int)
    requires
        0 <= i < files.len(),
        is_page_path(files[i].path@),
    ensures
        page_paths(files).contains(files[i].path@),
    decreases files.len(),
{
    if i < files.len() - 1 {
        lemma_page_paths_hold(files.drop_last(), i);
        let p = page_paths(files.drop_last());
        let k = choose|k: int| 0 <= k < p.len() && p[k] == files[i].path@;
        if is_page_path(files.last().path@) {
            assert(p.push(files.last().path@)[k] == files[i].path@);
        }
    } else {
        assert(page_paths(files).last() == files[i].path@);
    }
}

proof fn lemma_insert_path_holds(s: Seq<Seq<char>>, x: Seq<char>)
    ensures
        insert_path(s, x).contains(x),
        forall|y: Seq<char>| s.contains(y) ==> insert_path(s, x).contains(y),
    decreases s.len(),
{
    if s.len() == 0 {
        assert(insert_path(s, x)[0] == x);
    } else if path_order(s.last(), x) <= 0 {
        assert(s.push(x)[s.len() as int] == x);
        assert forall|y: Seq<char>| s.contains(y) implies insert_path(s, x).contains(y) by {
            let k = choose|k: int| 0 <= k < s.len() && s[k] == y;
            assert(s.push(x)[k] == y);
        }
    } else {
        let d = s.drop_last();
        lemma_insert_path_holds(d, x);
        let r = insert_path(d, x);
        let kx = choose|k: int| 0 <= k < r.len() && r[k] == x;
        assert(r.push(s.last())[kx] == x);
        assert forall|y: Seq<char>| s.contains(y) implies insert_path(s, x).contains(y) by {
            let k = choose|k: int| 0 <= k < s.len() && s[k] == y;
            if k == s.len() - 1 {
                assert(r.push(s.last())[r.len() as int] == y);
            } else {
                assert(d[k] == y);
                assert(d.contains(y));
                let j = choose|j: int| 0 <= j < r.len() && r[j] == y;
                assert(r.push(s.last())[j] == y);
            }
        }
    }
}

proof fn lemma_sort_paths_hold(s: Seq<Seq<char>>, y: Seq<char>)
    requires
        s.contains(y),
    ensures
        sort_paths(s).contains(y),
    decreases s.len(),
{
    let k = choose|k: int| 0 <= k < s.len() && s[k] == y;
    lemma_insert_path_holds(sort_paths(s.drop_last()), s.last());
    if k < s.len() - 1 {
        assert(s.drop_last()[k] == y);
        lemma_sort_paths_hold(s.drop_last(), y);
    }
}

/// Law: pages are found at any depth below `pages/`. For a directory name
/// `d` (not empty, not `.`) and a file name `stem.html` (`stem` not empty),
/// neither holding `/`, the path `pages/d/stem.html` is a page, and when a
/// file of the project has that path it is among the discovered pages.
pub proof fn law_nested_page_is_discovered(files: Seq<ProjectFile>, d: Seq<char>, stem: Seq<char>, i: int)
    requires
        d.len() > 0,
        d != seq!['.'],
        stem.len() > 0,
        forall|k: int| 0 <= k < d.len() ==> d[k] != '/',
        forall|k: int| 0 <= k < stem.len() ==> stem[k] != '/',
        0 <= i < files.len(),
        files[i].path@ == "pages/"@ + d + "/"@ + stem + ".html"@,
    ensures
        is_page_path("pages/"@ + d + "/"@ + stem + ".html"@),
        discovered_pages(files).contains("pages/"@ + d + "/"@ + stem + ".html"@),
{
    reveal_strlit("pages/");
    reveal_strlit("pages");
    reveal_strlit("/");
    reveal_strlit(".html");
    reveal_strlit("html");
    let name = stem + ".html"@;
    let p = "pages/"@ + d + "/"@ + stem + ".html"@;
    assert forall|k: int| 0 <= k < name.len() implies name[k] != '/' by {
        if k >= stem.len() {
            assert(name[k] == ".html"@[k - stem.len()]);
        }
    }
    assert(p =~= "pages"@ + seq!['/'] + (d + seq!['/'] + name));
    lemma_split_concat("pages"@, d + seq!['/'] + name, '/');
    lemma_split_concat(d, name, '/');
    lemma_split_plain("pages"@, '/');
    lemma_split_plain(d, '/');
    lemma_split_plain(name, '/');
    let parts = crate::diagnostics::split_on(p, '/');
    assert(parts =~= seq!["pages"@, d, name]);
    assert(path_components(p) =~= seq!["pages"@, d, name]) by {
        let p0 = Seq::<Seq<char>>::empty();
        let p1 = seq!["pages"@];
        let p2 = seq!["pages"@, d];
        assert(p1.drop_last() =~= p0);
        assert(p2.drop_last() =~= p1);
        assert(parts.drop_last() =~= p2);
        assert("pages"@ != seq!['.']) by {
            assert("pages"@.len() == 5);
        }
        assert(name.len() > 0 && name != seq!['.']);
        assert(crate::diagnostics::named_pieces(p0) == p0);
        assert(crate::diagnostics::named_pieces(p1) =~= p1);
        assert(crate::diagnostics::named_pieces(p2) =~= p2);
        assert(crate::diagnostics::named_pieces(parts) =~= parts);
    }
    assert(name =~= (stem + seq!['.']) + "html"@);
    lemma_last_dot_suffix(stem + seq!['.'], "html"@);
    assert((stem + seq!['.']).last() == '.');
    assert(crate::layout::last_dot(name) == stem.len());
    assert(name.skip(stem.len() + 1int) =~= "html"@);
    assert(eq_ignore_ascii_case("html"@, "html"@));
    assert(is_page_path(p));
    lemma_page_paths_hold(files, i);
    lemma_sort_paths_hold(page_paths(files), p);
}

/// Law: a page directly in `pages/` is discovered too: for a file name
/// `stem.html` (`stem` not empty, no `/`), the path `pages/stem.html` is a
/// page, and when a file of the project has it, it is among the discovered
/// pages.
pub proof fn law_top_level_page_is_discovered(files: Seq<ProjectFile>, stem: Seq<char>, i: int)
    requires
        stem.len() > 0,
        forall|k: int| 0 <= k < stem.len() ==> stem[k] != '/',
        0 <= i < files.len(),
        files[i].path@ == "pages/"@ + stem + ".html"@,
    ensures
        is_page_path("pages/"@ + stem + ".html"@),
        discovered_pages(files).contains("pages/"@ + stem + ".html"@),
{
    reveal_strlit("pages/");
    reveal_strlit("pages");
    reveal_strlit(".html");
    reveal_strlit("html");
    let name = stem + ".html"@;
    let p = "pages/"@ + stem + ".html"@;
    assert forall|k: int| 0 <= k < name.len() implies name[k] != '/' by {
        if k >= stem.len() {
            assert(name[k] == ".html"@[k - stem.len()]);
        }
    }
    assert(p =~= "pages"@ + seq!['/'] + name);
    lemma_split_concat("pages"@, name, '/');
    lemma_split_plain("pages"@, '/');
    lemma_split_plain(name, '/');
    let parts = crate::diagnostics::split_on(p, '/');
    assert(parts =~= seq!["pages"@, name]);
    assert(path_components(p) =~= seq!["pages"@, name]) by {
        let p0 = Seq::<Seq<char>>::empty();
        let p1 = seq!["pages"@];
        assert(p1.drop_last() =~= p0);
        assert(parts.drop_last() =~= p1);
        assert("pages"@ != seq!['.']) by {
            assert("pages"@.len() == 5);
        }
        assert(name.len() > 0 && name != seq!['.']);
        assert(crate::diagnostics::named_pieces(p0) == p0);
        assert(crate::diagnostics::named_pieces(p1) =~= p1);
        assert(crate::diagnostics::named_pieces(parts) =~= parts);
    }
    assert(name =~= (stem + seq!['.']) + "html"@);
    lemma_last_dot_suffix(stem + seq!['.'], "html"@);
    assert((stem + seq!['.']).last() == '.');
    assert(crate::layout::last_dot(name) == stem.len());
    assert(name.skip(stem.len() + 1int) =~= "html"@);
    assert(eq_ignore_ascii_case("html"@, "html"@));
    assert(is_page_path(p));
    lemma_page_paths_hold(files, i);
    lemma_sort_paths_hold(page_paths(files), p);
}

fn is_page(path: &Vec<char>) -> (r: bool)
    ensures
        r == is_page_path(path@),
{
    let c = components_of(path);
    c.len() >= 2 && str_is(&c[0], "pages") && has_extension_of(&c, 0, "html") && {
        assert(views(c@).skip(0) == views(c@));
        true
    }
}

/// Strings with the given characters.
pub fn string_list(v: &Vec<Vec<char>>) -> (r: Vec<String>)
    ensures
        texts(r@) == views(v@),
{
    let mut out: Vec<String> = Vec::new();
    let mut i: usize = 0;
    while i < v.len()
        invariant
            i <= v@.len(),
            texts(out@) == views(v@).take(i as int),
        decreases v@.len() - i,
    {
        let ghost before = texts(out@);
        let t = string_from_chars(&v[i]);
        out.push(t);
        assert(texts(out@) =~= before.push(v@[i as int]@));
        assert(views(v@)[i as int] == v@[i as int]@);
        assert(views(v@).take(i + 1) =~= views(v@).take(i as int).push(v@[i as int]@));
        i = i + 1;
    }
    assert(views(v@).take(v@.len() as int) == views(v@));
    out
}

/// Discovers the pages of the project: the `.html` files below `pages/`
/// (never `components/`, `docs/` or `dist/`), sorted by path.
pub fn discover_pages(tree: &ProjectTree) -> (r: Vec<String>)
    ensures
        texts(r@) == discovered_pages(tree.files@),
{
    let mut found: Vec<Vec<char>> = Vec::new();
    let mut i: usize = 0;
    while i < tree.files.len()
        invariant
            i <= tree.files@.len(),
            views(found@) == page_paths(tree.files@.take(i as int)),
        decreases tree.files@.len() - i,
    {
        assert(tree.files@.take(i + 1).drop_last() == tree.files@.take(i as int));
        let p = chars_of(tree.files[i].path.as_str());
        if is_page(&p) {
            let ghost before = views(found@);
            found.push(p);
            assert(views(found@) =~= before.push(tree.files@[i as int].path@));
        }
        i = i + 1;
    }
    assert(tree.files@.take(tree.files@.len() as int) == tree.files@);
    let sorted = sort_path_list(&found);
    string_list(&sorted)
}

// ---------------------------------------------------------------------------
// Source mapping
// ---------------------------------------------------------------------------

/// A sorted map of paths with `k` set to `v` (`BTreeMap::insert`): an equal
/// key keeps its text and takes the new value.
pub open spec fn map_put(m: Seq<(Seq<char>, Seq<char>)>, k: Seq<char>, v: Seq<char>) -> Seq<
    (Seq<char>, Seq<char>),
>
    decreases m.len(),
{
    if m.len() == 0 {
        seq![(k, v)]
    } else if path_order(m.last().0, k) == 0 {
        m.drop_last().push((m.last().0, v))
    } else if path_order(m.last().0, k) < 0 {
        m.push((k, v))
    } else {
        map_put(m.drop_last(), k, v).push(m.last())
    }
}

/// Sorted groups of paths keyed by path, with `src` added to the group of
/// `d`.
pub open spec fn group_put(g: Seq<(Seq<char>, Seq<Seq<char>>)>, d: Seq<char>, src: Seq<char>) -> Seq<
    (Seq<char>, Seq<Seq<char>>),
>
    decreases g.len(),
{
    if g.len() == 0 {
        seq![(d, seq![src])]
    } else if path_order(g.last().0, d) == 0 {
        g.drop_last().push((g.last().0, g.last().1.push(src)))
    } else if path_order(g.last().0, d) < 0 {
        g.push((d, seq![src]))
    } else {
        group_put(g.drop_last(), d, src).push(g.last())
    }
}

/// Each source that maps into `dist/`, keyed by source path.
pub open spec fn source_mapping(srcs: Seq<Seq<char>>) -> Seq<(Seq<char>, Seq<char>)>
    decreases srcs.len(),
{
    if srcs.len() == 0 {
        seq![]
    } else {
        let m = source_mapping(srcs.drop_last());
        match dist_path(srcs.last()) {
            Some(d) => map_put(m, srcs.last(), d),
            None => m,
        }
    }
}

/// The sources that map into `dist/`, grouped by destination.
pub open spec fn dist_groups(srcs: Seq<Seq<char>>) -> Seq<(Seq<char>, Seq<Seq<char>>)>
    decreases srcs.len(),
{
    if srcs.len() == 0 {
        seq![]
    } else {
        let g = dist_groups(srcs.drop_last());
        match dist_path(srcs.last()) {
            Some(d) => group_put(g, d, srcs.last()),
            None => g,
        }
    }
}

/// `s` with `x` placed after every text not greater than it.
pub open spec fn insert_text(s: Seq<Seq<char>>, x: Seq<char>) -> Seq<Seq<char>>
    decreases s.len(),
{
    if s.len() == 0 {
        seq![x]
    } else if seq_order(s.last(), x) <= 0 {
        s.push(x)
    } else {
        insert_text(s.drop_last(), x).push(s.last())
    }
}

/// The texts in order (`sort` on strings).
pub open spec fn sort_texts(s: Seq<Seq<char>>) -> Seq<Seq<char>>
    decreases s.len(),
{
    if s.len() == 0 {
        seq![]
    } else {
        insert_text(sort_texts(s.drop_last()), s.last())
    }
}

/// The collision diagnostic for source `s`, one of the sources `ss` that all
/// map to destination `d`.
pub open spec fn collision_diagnostic(d: Seq<char>, ss: Seq<Seq<char>>, s: Seq<char>) -> DiagnosticView {
    DiagnosticView {
        code: codes::BUILD_OUTPUT_PATH_COLLISION@,
        severity: Severity::Error,
        location: Some((slashed(s), None, None)),
        message: "Output path '"@ + slashed(d) + "' collides: multiple source paths ('"@ + join(
            sort_texts(ss.map_values(|x: Seq<char>| slashed(x))),
            "', '"@,
        ) + "') map to the same destination"@,
        next_action: "Ensure each source file maps to a unique destination path in dist/"@,
        ordinal: 0,
    }
}

/// A diagnostic for each source of each destination that several sources
/// map to, destinations in path order.
pub open spec fn collision_diagnostics(g: Seq<(Seq<char>, Seq<Seq<char>>)>) -> Seq<DiagnosticView>
    decreases g.len(),
{
    if g.len() == 0 {
        seq![]
    } else {
        let prev = collision_diagnostics(g.drop_last());
        let (d, ss) = g.last();
        if ss.len() > 1 {
            prev + ss.map_values(|x: Seq<char>| collision_diagnostic(d, ss, x))
        } else {
            prev
        }
    }
}

pub open spec fn pair_views(m: Seq<(Vec<char>, Vec<char>)>) -> Seq<(Seq<char>, Seq<char>)> {
    m.map_values(|p: (Vec<char>, Vec<char>)| (p.0@, p.1@))
}

pub open spec fn group_views(g: Seq<(Vec<char>, Vec<Vec<char>>)>) -> Seq<
    (Seq<char>, Seq<Seq<char>>),
> {
    g.map_values(|p: (Vec<char>, Vec<Vec<char>>)| (p.0@, views(p.1@)))
}

pub open spec fn string_pairs(m: Seq<(String, String)>) -> Seq<(Seq<char>, Seq<char>)> {
    m.map_values(|p: (String, String)| (p.0@, p.1@))
}

proof fn lemma_map_put_at(m: Seq<(Seq<char>, Seq<char>)>, k: Seq<char>, v: Seq<char>, j: int)
    requires
        placed_at(m.map_values(|p: (Seq<char>, Seq<char>)| p.0), k, j),
    ensures
        j > 0 && path_order(m[j - 1].0, k) == 0 ==> map_put(m, k, v) == m.update(
            j - 1,
            (m[j - 1].0, v),
        ),
        !(j > 0 && path_order(m[j - 1].0, k) == 0) ==> map_put(m, k, v) == m.insert(j, (k, v)),
    decreases m.len(),
{
    let ks = m.map_values(|p: (Seq<char>, Seq<char>)| p.0);
    if m.len() == 0 {
        assert(m.insert(j, (k, v)) =~= seq![(k, v)]);
    } else if j == m.len() {
        assert(ks[j - 1] == m[j - 1].0);
        assert(m.last() == m[j - 1]);
        if path_order(m[j - 1].0, k) == 0 {
            assert(m.drop_last().push((m.last().0, v)) =~= m.update(j - 1, (m[j - 1].0, v)));
        } else {
            assert(m.insert(j, (k, v)) =~= m.push((k, v)));
        }
    } else {
        let t = m.drop_last();
        let kt = t.map_values(|p: (Seq<char>, Seq<char>)| p.0);
        assert(path_order(m.last().0, k) > 0) by {
            assert(ks[m.len() - 1] == m.last().0);
        }
        assert forall|i: int| j <= i < kt.len() implies path_order(#[trigger] kt[i], k) > 0 by {
            assert(kt[i] == ks[i]);
        }
        if j > 0 {
            assert(kt[j - 1] == ks[j - 1]);
        }
        lemma_map_put_at(t, k, v, j);
        if j > 0 && path_order(m[j - 1].0, k) == 0 {
            assert(t.update(j - 1, (t[j - 1].0, v)).push(m.last()) =~= m.update(
                j - 1,
                (m[j - 1].0, v),
            ));
        } else {
            assert(t.insert(j, (k, v)).push(m.last()) =~= m.insert(j, (k, v)));
        }
    }
}

proof fn lemma_group_put_at(g: Seq<(Seq<char>, Seq<Seq<char>>)>, d: Seq<char>, src: Seq<char>, j: int)
    requires
        placed_at(g.map_values(|p: (Seq<char>, Seq<Seq<char>>)| p.0), d, j),
    ensures
        j > 0 && path_order(g[j - 1].0, d) == 0 ==> group_put(g, d, src) == g.update(
            j - 1,
            (g[j - 1].0, g[j - 1].1.push(src)),
        ),
        !(j > 0 && path_order(g[j - 1].0, d) == 0) ==> group_put(g, d, src) == g.insert(
            j,
            (d, seq![src]),
        ),
    decreases g.len(),
{
    let ks = g.map_values(|p: (Seq<char>, Seq<Seq<char>>)| p.0);
    if g.len() == 0 {
        assert(g.insert(j, (d, seq![src])) =~= seq![(d, seq![src])]);
    } else if j == g.len() {
        assert(ks[j - 1] == g[j - 1].0);
        assert(g.last() == g[j - 1]);
        if path_order(g[j - 1].0, d) == 0 {
            assert(g.drop_last().push((g.last().0, g.last().1.push(src))) =~= g.update(
                j - 1,
                (g[j - 1].0, g[j - 1].1.push(src)),
            ));
        } else {
            assert(g.insert(j, (d, seq![src])) =~= g.push((d, seq![src])));
        }
    } else {
        let t = g.drop_last();
        let kt = t.map_values(|p: (Seq<char>, Seq<Seq<char>>)| p.0);
        assert(path_order(g.last().0, d) > 0) by {
            assert(ks[g.len() - 1] == g.last().0);
        }
        assert forall|i: int| j <= i < kt.len() implies path_order(#[trigger] kt[i], d) > 0 by {
            assert(kt[i] == ks[i]);
        }
        if j > 0 {
            assert(kt[j - 1] == ks[j - 1]);
        }
        lemma_group_put_at(t, d, src, j);
        if j > 0 && path_order(g[j - 1].0, d) == 0 {
            assert(t.update(j - 1, (t[j - 1].0, t[j - 1].1.push(src))).push(g.last()) =~= g.update(
                j - 1,
                (g[j - 1].0, g[j - 1].1.push(src)),
            ));
        } else {
            assert(t.insert(j, (d, seq![src])).push(g.last()) =~= g.insert(j, (d, seq![src])));
        }
    }
}

fn key_place<V>(m: &Vec<(Vec<char>, V)>, k: &Vec<char>) -> (r: usize)
    ensures
        placed_at(m@.map_values(|p: (Vec<char>, V)| p.0@), k@, r as int),
{
    let ghost ks = m@.map_values(|p: (Vec<char>, V)| p.0@);
    let mut j: usize = m.len();
    while j > 0 && compare_paths(&m[j - 1].0, k) > 0
        invariant
            j <= m@.len(),
            ks == m@.map_values(|p: (Vec<char>, V)| p.0@),
            forall|i: int| j <= i < m@.len() ==> path_order(#[trigger] ks[i], k@) > 0,
        decreases j,
    {
        assert(ks[j - 1] == m@[j - 1].0@);
        j = j - 1;
    }
    if j > 0 {
        assert(ks[j - 1] == m@[j - 1].0@);
    }
    j
}

fn put_mapping(m: &mut Vec<(Vec<char>, Vec<char>)>, k: &Vec<char>, v: &Vec<char>)
    ensures
        pair_views(final(m)@) == map_put(pair_views(old(m)@), k@, v@),
{
    let j = key_place(m, k);
    let ghost pm = pair_views(m@);
    assert(pm.map_values(|p: (Seq<char>, Seq<char>)| p.0) =~= m@.map_values(
        |p: (Vec<char>, Vec<char>)| p.0@,
    ));
    proof {
        lemma_map_put_at(pm, k@, v@, j as int);
    }
    if j > 0 && compare_paths(&m[j - 1].0, k) == 0 {
        let key = crate::text::copy_chars(&m[j - 1].0);
        let entry = (key, crate::text::copy_chars(v));
        m.set(j - 1, entry);
        assert(pair_views(m@) =~= pm.update(j - 1, (pm[j - 1].0, v@)));
    } else {
        m.insert(j, (crate::text::copy_chars(k), crate::text::copy_chars(v)));
        assert(pair_views(m@) =~= pm.insert(j as int, (k@, v@)));
    }
}

fn put_group(g: &mut Vec<(Vec<char>, Vec<Vec<char>>)>, d: &Vec<char>, src: &Vec<char>)
    ensures
        group_views(final(g)@) == group_put(group_views(old(g)@), d@, src@),
{
    let j = key_place(g, d);
    let ghost pg = group_views(g@);
    assert(pg.map_values(|p: (Seq<char>, Seq<Seq<char>>)| p.0) =~= g@.map_values(
        |p: (Vec<char>, Vec<Vec<char>>)| p.0@,
    ));
    proof {
        lemma_group_put_at(pg, d@, src@, j as int);
    }
    if j > 0 && compare_paths(&g[j - 1].0, d) == 0 {
        let key = crate::text::copy_chars(&g[j - 1].0);
        let mut members = crate::layout::copy_pieces(&g[j - 1].1);
        members.push(crate::text::copy_chars(src));
        assert(views(members@) =~= pg[j - 1].1.push(src@));
        g.set(j - 1, (key, members));
        assert(group_views(g@) =~= pg.update(j - 1, (pg[j - 1].0, pg[j - 1].1.push(src@))));
    } else {
        let mut members: Vec<Vec<char>> = Vec::new();
        members.push(crate::text::copy_chars(src));
        assert(views(members@) =~= seq![src@]);
        g.insert(j, (crate::text::copy_chars(d), members));
        assert(group_views(g@) =~= pg.insert(j as int, (d@, seq![src@])));
    }
}

spec fn placed_text_at(s: Seq<Seq<char>>, x: Seq<char>, j: int) -> bool {
    &&& 0 <= j <= s.len()
    &&& j == 0 || seq_order(s[j - 1], x) <= 0
    &&& forall|i: int| j <= i < s.len() ==> seq_order(#[trigger] s[i], x) > 0
}

proof fn lemma_insert_text_at(s: Seq<Seq<char>>, x: Seq<char>, j: int)
    requires
        placed_text_at(s, x, j),
    ensures
        insert_text(s, x) == s.insert(j, x),
    decreases s.len(),
{
    if s.len() == 0 {
        assert(s.insert(j, x) =~= seq![x]);
    } else if j == s.len() {
        assert(s.insert(j, x) =~= s.push(x));
    } else {
        let t = s.drop_last();
        assert forall|i: int| j <= i < t.len() implies seq_order(#[trigger] t[i], x) > 0 by {
            assert(t[i] == s[i]);
        }
        assert(seq_order(s.last(), x) > 0) by {
            assert(s.last() == s[s.len() - 1]);
        }
        lemma_insert_text_at(t, x, j);
        assert(t.insert(j, x).push(s.last()) =~= s.insert(j, x));
    }
}

/// Sorts texts (see [`sort_texts`]).
fn sort_text_list(v: &Vec<Vec<char>>) -> (r: Vec<Vec<char>>)
    ensures
        views(r@) == sort_texts(views(v@)),
{
    let mut out: Vec<Vec<char>> = Vec::new();
    let mut i: usize = 0;
    while i < v.len()
        invariant
            i <= v@.len(),
            views(out@) == sort_texts(views(v@).take(i as int)),
        decreases v@.len() - i,
    {
        assert(views(v@).take(i + 1).drop_last() == views(v@).take(i as int));
        assert(views(v@).take(i + 1).last() == v@[i as int]@);
        let mut j: usize = out.len();
        while j > 0 && compare_chars(&out[j - 1], &v[i]) > 0
            invariant
                j <= out@.len(),
                i < v@.len(),
                forall|k: int| j <= k < out@.len() ==> seq_order(#[trigger] views(out@)[k], v@[i as int]@) > 0,
            decreases j,
        {
            assert(views(out@)[j - 1] == out@[j - 1]@);
            j = j - 1;
        }
        if j > 0 {
            assert(views(out@)[j - 1] == out@[j - 1]@);
        }
        proof {
            lemma_insert_text_at(views(out@), v@[i as int]@, j as int);
        }
        let ghost before = views(out@);
        out.insert(j, crate::text::copy_chars(&v[i]));
        assert(views(out@) =~= before.insert(j as int, v@[i as int]@));
        i = i + 1;
    }
    assert(views(v@).take(v@.len() as int) == views(v@));
    out
}

fn slashed_list(v: &Vec<Vec<char>>) -> (r: Vec<Vec<char>>)
    ensures
        views(r@) == views(v@).map_values(|x: Seq<char>| slashed(x)),
{
    let mut out: Vec<Vec<char>> = Vec::new();
    let mut i: usize = 0;
    while i < v.len()
        invariant
            i <= v@.len(),
            views(out@) == views(v@).take(i as int).map_values(|x: Seq<char>| slashed(x)),
        decreases v@.len() - i,
    {
        let ghost before = views(out@);
        out.push(slash_chars(&v[i]));
        assert(views(out@) =~= before.push(slashed(v@[i as int]@)));
        assert(views(v@).take(i + 1) =~= views(v@).take(i as int).push(v@[i as int]@));
        assert(views(v@).take(i + 1).map_values(|x: Seq<char>| slashed(x)) =~= views(v@).take(
            i as int,
        ).map_values(|x: Seq<char>| slashed(x)).push(slashed(v@[i as int]@)));
        i = i + 1;
    }
    assert(views(v@).take(v@.len() as int) == views(v@));
    out
}

fn add_collisions(
    report: &mut ValidationReport,
    d: &Vec<char>,
    members: &Vec<Vec<char>>,
)
    requires
        members@.len() > 1,
    ensures
        diagnostic_views(final(report).diagnostics@) == diagnostic_views(old(report).diagnostics@)
            + numbered_from(
            views(members@).map_values(|x: Seq<char>| collision_diagnostic(d@, views(members@), x)),
            old(report).diagnostics@.len(),
        ),
{
    let ghost ss = views(members@);
    let ghost all = ss.map_values(|x: Seq<char>| collision_diagnostic(d@, ss, x));
    let ghost count = report.diagnostics@.len();
    let dist_str = slash_chars(d);
    let listed = slashed_list(members);
    let sorted = sort_text_list(&listed);
    let joined = join_with(&sorted, "', '");
    let mut m = lit("Output path '");
    append_chars(&mut m, &dist_str);
    append_str(&mut m, "' collides: multiple source paths ('");
    append_chars(&mut m, &joined);
    append_str(&mut m, "') map to the same destination");
    let message = string_from_chars(&m);
    assert(diagnostic_views(report.diagnostics@) =~= diagnostic_views(old(report).diagnostics@)
        + numbered_from(all.take(0), count));
    let mut i: usize = 0;
    while i < members.len()
        invariant
            i <= members@.len(),
            ss == views(members@),
            all == ss.map_values(|x: Seq<char>| collision_diagnostic(d@, ss, x)),
            count == old(report).diagnostics@.len(),
            message@ == "Output path '"@ + slashed(d@) + "' collides: multiple source paths ('"@
                + join(sort_texts(ss.map_values(|x: Seq<char>| slashed(x))), "', '"@)
                + "') map to the same destination"@,
            diagnostic_views(report.diagnostics@) == diagnostic_views(old(report).diagnostics@)
                + numbered_from(all.take(i as int), count),
        decreases members@.len() - i,
    {
        let src_str = string_from_chars(&slash_chars(&members[i]));
        let diag = Diagnostic::new(
            codes::BUILD_OUTPUT_PATH_COLLISION,
            Severity::Error,
            Some(Location::path_only(src_str.as_str())),
            message.as_str(),
            "Ensure each source file maps to a unique destination path in dist/",
        );
        assert(diagnostic_view(diag) == all[i as int]);
        let ghost before = diagnostic_views(report.diagnostics@);
        add_fresh(report, diag);
        proof {
            crate::diagnostics::lemma_numbered_append(all.take(i as int), seq![all[i as int]], count);
        }
        assert(all.take(i + 1) =~= all.take(i as int) + seq![all[i as int]]);
        i = i + 1;
    }
    assert(all.take(members@.len() as int) == all);
}

/// Maps each source path to its `dist/` destination (see
/// [`map_source_to_dist`]), keyed and ordered by source path. When several
/// sources map to one destination, the result is a report with an
/// output-path collision error for each of them.
pub fn compute_source_mapping(sources: &Vec<String>) -> (r: Result<Vec<(String, String)>, ValidationReport>)
    ensures
        match r {
            Ok(m) => {
                &&& string_pairs(m@) == source_mapping(texts(sources@))
                &&& !has_error_view(numbered_from(collision_diagnostics(dist_groups(texts(sources@))), 0))
            },
            Err(report) => {
                &&& has_error_view(numbered_from(collision_diagnostics(dist_groups(texts(sources@))), 0))
                &&& diagnostic_views(report.diagnostics@) == sorted_views(
                    numbered_from(collision_diagnostics(dist_groups(texts(sources@))), 0),
                )
            },
        },
{
    let ghost srcs = texts(sources@);
    let mut mapping: Vec<(Vec<char>, Vec<char>)> = Vec::new();
    let mut groups: Vec<(Vec<char>, Vec<Vec<char>>)> = Vec::new();
    let mut i: usize = 0;
    while i < sources.len()
        invariant
            i <= sources@.len(),
            srcs == texts(sources@),
            pair_views(mapping@) == source_mapping(srcs.take(i as int)),
            group_views(groups@) == dist_groups(srcs.take(i as int)),
        decreases sources@.len() - i,
    {
        assert(srcs.take(i + 1).drop_last() == srcs.take(i as int));
        assert(srcs.take(i + 1).last() == sources@[i as int]@);
        match map_source_to_dist(sources[i].as_str()) {
            Some(d) => {
                let s = chars_of(sources[i].as_str());
                let dc = chars_of(d.as_str());
                put_group(&mut groups, &dc, &s);
                put_mapping(&mut mapping, &s, &dc);
            },
            None => {},
        }
        i = i + 1;
    }
    assert(srcs.take(sources@.len() as int) == srcs);
    let ghost gv = group_views(groups@);
    let mut report = ValidationReport::new();
    assert(diagnostic_views(report.diagnostics@) =~= numbered_from(collision_diagnostics(gv.take(0)), 0));
    let mut k: usize = 0;
    while k < groups.len()
        invariant
            k <= groups@.len(),
            gv == group_views(groups@),
            diagnostic_views(report.diagnostics@) == numbered_from(
                collision_diagnostics(gv.take(k as int)),
                0,
            ),
        decreases groups@.len() - k,
    {
        assert(gv.take(k + 1).drop_last() == gv.take(k as int));
        assert(gv.take(k + 1).last() == gv[k as int]);
        let ghost prev = collision_diagnostics(gv.take(k as int));
        if groups[k].1.len() > 1 {
            let ghost before_len = report.diagnostics@.len();
            assert(before_len == prev.len()) by {
                assert(numbered_from(prev, 0).len() == prev.len());
            }
            add_collisions(&mut report, &groups[k].0, &groups[k].1);
            proof {
                let more = views(groups@[k as int].1@).map_values(
                    |x: Seq<char>| collision_diagnostic(groups@[k as int].0@, views(groups@[k as int].1@), x),
                );
                crate::diagnostics::lemma_numbered_append(prev, more, 0);
            }
        }
        k = k + 1;
    }
    assert(gv.take(groups@.len() as int) == gv);
    let failed = report.has_error();
    proof {
        crate::diagnostics::lemma_has_error_view(report.diagnostics@);
    }
    if failed {
        let ghost unsorted = report.diagnostics@;
        report.sort();
        proof {
            crate::diagnostics::lemma_sorted_views(unsorted);
        }
        return Err(report);
    }
    let mut out: Vec<(String, String)> = Vec::new();
    let mut j: usize = 0;
    while j < mapping.len()
        invariant
            j <= mapping@.len(),
            string_pairs(out@) == pair_views(mapping@).take(j as int),
        decreases mapping@.len() - j,
    {
        let ghost before = string_pairs(out@);
        let a = string_from_chars(&mapping[j].0);
        let b = string_from_chars(&mapping[j].1);
        out.push((a, b));
        assert(string_pairs(out@) =~= before.push((mapping@[j as int].0@, mapping@[j as int].1@)));
        assert(pair_views(mapping@).take(j + 1) =~= pair_views(mapping@).take(j as int).push(
            (mapping@[j as int].0@, mapping@[j as int].1@),
        ));
        j = j + 1;
    }
    assert(pair_views(mapping@).take(mapping@.len() as int) == pair_views(mapping@));
    Ok(out)
}

/// Discovers the pages and maps them into `dist/` (see [`discover_pages`]
/// and [`compute_source_mapping`]).
pub fn discover_and_map_pages(tree: &ProjectTree) -> (r: Result<Vec<(String, String)>, ValidationReport>)
    ensures
        match r {
            Ok(m) => {
                &&& string_pairs(m@) == source_mapping(discovered_pages(tree.files@))
                &&& !has_error_view(
                    numbered_from(collision_diagnostics(dist_groups(discovered_pages(tree.files@))), 0),
                )
            },
            Err(report) => {
                &&& has_error_view(
                    numbered_from(collision_diagnostics(dist_groups(discovered_pages(tree.files@))), 0),
                )
                &&& diagnostic_views(report.diagnostics@) == sorted_views(
                    numbered_from(collision_diagnostics(dist_groups(discovered_pages(tree.files@))), 0),
                )
            },
        },
{
    let pages = discover_pages(tree);
    compute_source_mapping(&pages)
}

// ---------------------------------------------------------------------------
// Reachability
// ---------------------------------------------------------------------------

/// What one extracted reference contributes to the copy set and the report.
pub enum ReferenceUse {
    /// Not a file path: left alone.
    Skipped,
    /// A diagnostic.
    Fails(DiagnosticView),
    /// Resolves to a file that is produced or copied some other way.
    Resolved,
    /// Resolves to this file, which is copied into `dist/`.
    Copied(Seq<char>),
}

/// What reference `r` contributes: a file-path reference may not name a
/// secret path; it resolves project-relative, else relative to the
/// referencing file; the generated `styles/tokens.css` always resolves; any
/// other target must exist and map into `dist/`, and is copied when it lies
/// under `assets/` or `styles/`.
pub open spec fn reference_use(files: Seq<ProjectFile>, r: ReferenceSpec) -> ReferenceUse {
    match reference_class(r.url) {
        ReferenceClass::FilePath(fp) => {
            let resolved = reference_target(fp, r.source);
            let resolved_str = join(resolved, seq!['/']);
            let source_str = slashed(r.source);
            let parent = source_dir(r.source) + resolved;
            let parent_str = join(parent, seq!['/']);
            let candidate = if file_exists(files, resolved) {
                resolved
            } else if file_exists(files, parent) {
                parent
            } else {
                resolved
            };
            let cand_str = join(candidate, seq!['/']);
            if is_secret(resolved_str) || is_secret(fp) {
                ReferenceUse::Fails(
                    DiagnosticView {
                        code: codes::BUILD_SECRET_PATH_REFERENCED@,
                        severity: Severity::Error,
                        location: Some((source_str, r.line, r.col)),
                        message: "Reference to secret path '"@ + resolved_str
                            + "' is forbidden and will not be copied into dist/"@,
                        next_action: "Remove reference to secret file or dotfile"@,
                        ordinal: 0,
                    },
                )
            } else if resolved_str == "styles/tokens.css"@ || parent_str == "styles/tokens.css"@ {
                ReferenceUse::Resolved
            } else if !(file_exists(files, candidate) && dist_path(cand_str) is Some) {
                ReferenceUse::Fails(
                    DiagnosticView {
                        code: codes::BUILD_REFERENCE_UNRESOLVABLE@,
                        severity: Severity::Error,
                        location: Some((source_str, r.line, r.col)),
                        message: "Static reference '"@ + r.url + "' in '"@ + source_str
                            + "' cannot be resolved to a source file"@,
                        next_action: "Ensure referenced file exists or update reference path"@,
                        ordinal: 0,
                    },
                )
            } else if candidate.len() > 0 && (candidate[0] == "assets"@ || candidate[0]
                == "styles"@) && cand_str != "tokens/tokens.json"@ {
                ReferenceUse::Copied(cand_str)
            } else {
                ReferenceUse::Resolved
            }
        },
        _ => ReferenceUse::Skipped,
    }
}

/// The copy set and diagnostics after reference `r`.
pub open spec fn reference_step(
    files: Seq<ProjectFile>,
    state: (Seq<Seq<char>>, Seq<DiagnosticView>),
    r: ReferenceSpec,
) -> (Seq<Seq<char>>, Seq<DiagnosticView>) {
    let (copy, ds) = state;
    match reference_use(files, r) {
        ReferenceUse::Fails(d) => (copy, ds.push(d)),
        ReferenceUse::Copied(p) => (set_put(copy, p), ds),
        _ => (copy, ds),
    }
}

/// The copy set and diagnostics after the references `refs`, from `start`.
pub open spec fn reach_refs(
    files: Seq<ProjectFile>,
    start: (Seq<Seq<char>>, Seq<DiagnosticView>),
    refs: Seq<ReferenceSpec>,
) -> (Seq<Seq<char>>, Seq<DiagnosticView>)
    decreases refs.len(),
{
    if refs.len() == 0 {
        start
    } else {
        reference_step(files, reach_refs(files, start, refs.drop_last()), refs.last())
    }
}

/// The references of the expanded pages, page after page.
pub open spec fn page_references(pages: Seq<(Seq<char>, Seq<char>)>) -> Seq<ReferenceSpec>
    decreases pages.len(),
{
    if pages.len() == 0 {
        seq![]
    } else {
        let (page, content) = pages.last();
        page_references(pages.drop_last()) + html_references(
            content,
            html5gum_tokens(content),
            page,
        )
    }
}

/// A stylesheet: a `.css` file (any case) somewhere below `styles/`.
pub open spec fn is_stylesheet_path(p: Seq<char>) -> bool {
    let c = path_components(p);
    &&& c.len() >= 2
    &&& c[0] == "styles"@
    &&& crate::layout::has_extension(c, "css"@)
}

/// The paths of the stylesheets among `files`, in file order.
pub open spec fn stylesheet_paths(files: Seq<ProjectFile>) -> Seq<Seq<char>>
    decreases files.len(),
{
    if files.len() == 0 {
        seq![]
    } else {
        let p = stylesheet_paths(files.drop_last());
        if is_stylesheet_path(files.last().path@) {
            p.push(files.last().path@)
        } else {
            p
        }
    }
}

/// The references of the readable stylesheets at `paths`, one after the
/// other.
pub open spec fn stylesheet_references(files: Seq<ProjectFile>, paths: Seq<Seq<char>>) -> Seq<
    ReferenceSpec,
>
    decreases paths.len(),
{
    if paths.len() == 0 {
        seq![]
    } else {
        let prev = stylesheet_references(files, paths.drop_last());
        let i = file_index(files, paths.last());
        if 0 <= i < files.len() {
            match files[i].content {
                Ok(t) => prev + css_references(t@, paths.last(), 1, 1),
                Err(_) => prev,
            }
        } else {
            prev
        }
    }
}

/// The reachable copy set and the diagnostics of all references: those of
/// the expanded pages, then those of the stylesheets in path order.
pub open spec fn reachability(files: Seq<ProjectFile>, pages: Seq<(Seq<char>, Seq<char>)>) -> (
    Seq<Seq<char>>,
    Seq<DiagnosticView>,
) {
    reach_refs(
        files,
        (seq![], seq![]),
        page_references(pages) + stylesheet_references(files, sort_paths(stylesheet_paths(files))),
    )
}

/// Processes one reference (see [`reference_use`]): adds its diagnostic to
/// `report` or its file to the copy set.
fn process_reference(
    tree: &ProjectTree,
    r: &ExtractedReference,
    copy_set: &mut Vec<Vec<char>>,
    report: &mut ValidationReport,
)
    ensures
        ({
            let (c, ds) = reference_step(
                tree.files@,
                (views(old(copy_set)@), seq![]),
                crate::layout::reference_view(*r),
            );
            &&& views(final(copy_set)@) == c
            &&& diagnostic_views(final(report).diagnostics@) == diagnostic_views(
                old(report).diagnostics@,
            ) + numbered_from(ds, old(report).diagnostics@.len())
        }),
{
    let ghost rv = crate::layout::reference_view(*r);
    let fp = match classify_reference(r.raw_url.as_str()) {
        ReferenceKind::FilePath(fp) => fp,
        _ => {
            assert(!(reference_class(r.raw_url@) is FilePath));
            assert(reference_use(tree.files@, rv) == ReferenceUse::Skipped);
            assert(diagnostic_views(report.diagnostics@) =~= diagnostic_views(report.diagnostics@)
                + numbered_from(seq![], report.diagnostics@.len()));
            return;
        },
    };
    assert(reference_class(r.raw_url@) == ReferenceClass::FilePath(fp@));
    let resolved = reference_target_of(fp.as_str(), r.source_file.as_str());
    let resolved_str = crate::diagnostics::join_with_slash(&resolved);
    let resolved_string = string_from_chars(&resolved_str);
    let source_chars = chars_of(r.source_file.as_str());
    let source_str = slash_chars(&source_chars);
    let source_string = string_from_chars(&source_str);
    if is_secret_path(resolved_string.as_str()) || is_secret_path(fp.as_str()) {
        let mut m = lit("Reference to secret path '");
        append_chars(&mut m, &resolved_str);
        append_str(&mut m, "' is forbidden and will not be copied into dist/");
        let msg = string_from_chars(&m);
        let d = Diagnostic::new(
            codes::BUILD_SECRET_PATH_REFERENCED,
            Severity::Error,
            Some(Location::new(source_string.as_str(), r.line, r.col)),
            msg.as_str(),
            "Remove reference to secret file or dotfile",
        );
        assert(reference_use(tree.files@, rv) == ReferenceUse::Fails(diagnostic_view(d)));
        add_fresh(report, d);
        return;
    }
    let dir = source_dir_of(r.source_file.as_str());
    let parent = concat_pieces(&dir, &resolved);
    let parent_str = crate::diagnostics::join_with_slash(&parent);
    if str_is(&resolved_str, "styles/tokens.css") || str_is(&parent_str, "styles/tokens.css") {
        assert(diagnostic_views(report.diagnostics@) =~= diagnostic_views(report.diagnostics@)
            + numbered_from(seq![], report.diagnostics@.len()));
        return;
    }
    let candidate = if tree.has_file(&resolved) {
        resolved
    } else if tree.has_file(&parent) {
        parent
    } else {
        resolved
    };
    let cand_str = crate::diagnostics::join_with_slash(&candidate);
    let cand_string = string_from_chars(&cand_str);
    let ok = tree.has_file(&candidate) && map_source_to_dist(cand_string.as_str()).is_some();
    if !ok {
        let mut m = lit("Static reference '");
        append_str(&mut m, r.raw_url.as_str());
        append_str(&mut m, "' in '");
        append_chars(&mut m, &source_str);
        append_str(&mut m, "' cannot be resolved to a source file");
        let msg = string_from_chars(&m);
        let d = Diagnostic::new(
            codes::BUILD_REFERENCE_UNRESOLVABLE,
            Severity::Error,
            Some(Location::new(source_string.as_str(), r.line, r.col)),
            msg.as_str(),
            "Ensure referenced file exists or update reference path",
        );
        assert(reference_use(tree.files@, rv) == ReferenceUse::Fails(diagnostic_view(d)));
        add_fresh(report, d);
        return;
    }
    assert(diagnostic_views(report.diagnostics@) =~= diagnostic_views(report.diagnostics@)
        + numbered_from(seq![], report.diagnostics@.len()));
    if (first_is(&candidate, "assets") || first_is(&candidate, "styles")) && !str_is(
        &cand_str,
        "tokens/tokens.json",
    ) {
        put_path(copy_set, &cand_str);
    }
}

/// A reference step adds to the diagnostics already there.
proof fn lemma_step_appends(
    files: Seq<ProjectFile>,
    c: Seq<Seq<char>>,
    ds: Seq<DiagnosticView>,
    r: ReferenceSpec,
)
    ensures
        reference_step(files, (c, ds), r) == (
            reference_step(files, (c, seq![]), r).0,
            ds + reference_step(files, (c, seq![]), r).1,
        ),
{
    match reference_use(files, r) {
        ReferenceUse::Fails(d) => {
            assert(ds.push(d) =~= ds + seq![].push(d));
        },
        _ => {
            assert(ds =~= ds + seq![]);
        },
    }
}

fn stylesheet_path_list(tree: &ProjectTree) -> (r: Vec<Vec<char>>)
    ensures
        views(r@) == sort_paths(stylesheet_paths(tree.files@)),
{
    let mut found: Vec<Vec<char>> = Vec::new();
    let mut i: usize = 0;
    while i < tree.files.len()
        invariant
            i <= tree.files@.len(),
            views(found@) == stylesheet_paths(tree.files@.take(i as int)),
        decreases tree.files@.len() - i,
    {
        assert(tree.files@.take(i + 1).drop_last() == tree.files@.take(i as int));
        let p = chars_of(tree.files[i].path.as_str());
        let c = components_of(&p);
        let is_css = c.len() >= 2 && str_is(&c[0], "styles") && has_extension_of(&c, 0, "css");
        assert(views(c@).skip(0) == views(c@));
        if is_css {
            let ghost before = views(found@);
            found.push(p);
            assert(views(found@) =~= before.push(tree.files@[i as int].path@));
        }
        i = i + 1;
    }
    assert(tree.files@.take(tree.files@.len() as int) == tree.files@);
    sort_path_list(&found)
}

fn process_references(
    tree: &ProjectTree,
    refs: &Vec<ExtractedReference>,
    copy_set: &mut Vec<Vec<char>>,
    report: &mut ValidationReport,
    Ghost(done): Ghost<Seq<ReferenceSpec>>,
    Ghost(ds): Ghost<Seq<DiagnosticView>>,
) -> (ds_out: Ghost<Seq<DiagnosticView>>)
    requires
        reach_refs(tree.files@, (seq![], seq![]), done) == (views(old(copy_set)@), ds),
        diagnostic_views(old(report).diagnostics@) == numbered_from(ds, 0),
    ensures
        reach_refs(tree.files@, (seq![], seq![]), done + reference_views(refs@)) == (
            views(final(copy_set)@),
            ds_out@,
        ),
        diagnostic_views(final(report).diagnostics@) == numbered_from(ds_out@, 0),
{
    let ghost rs = reference_views(refs@);
    let ghost mut acc = ds;
    let mut i: usize = 0;
    assert(done + rs.take(0) =~= done);
    while i < refs.len()
        invariant
            i <= refs@.len(),
            rs == reference_views(refs@),
            reach_refs(tree.files@, (seq![], seq![]), done + rs.take(i as int)) == (
                views(copy_set@),
                acc,
            ),
            diagnostic_views(report.diagnostics@) == numbered_from(acc, 0),
        decreases refs@.len() - i,
    {
        let ghost c0 = views(copy_set@);
        let ghost before = diagnostic_views(report.diagnostics@);
        process_reference(tree, &refs[i], copy_set, report);
        proof {
            let rv = crate::layout::reference_view(refs@[i as int]);
            lemma_step_appends(tree.files@, c0, acc, rv);
            let step = reference_step(tree.files@, (c0, seq![]), rv);
            assert(before.len() == acc.len());
            crate::diagnostics::lemma_numbered_append(acc, step.1, 0);
            assert((done + rs.take(i + 1)).drop_last() =~= done + rs.take(i as int));
            assert((done + rs.take(i + 1)).last() == rv);
            acc = acc + step.1;
        }
        i = i + 1;
    }
    assert(rs.take(refs@.len() as int) == rs);
    Ghost(acc)
}

/// Computes the reachable copy set and checks every static reference of the
/// expanded pages (`(path, text)` pairs, in the order given) and of the
/// stylesheets below `styles/`: the set of files to copy, in path order, and
/// the sorted report of unresolvable and secret references (see
/// [`reachability`]).
pub fn compute_reachability(tree: &ProjectTree, pages: &Vec<(String, String)>) -> (r: (
    Vec<String>,
    ValidationReport,
))
    requires
        texts_fit(tree.files@),
        forall|i: int| 0 <= i < pages@.len() ==> encode_utf8((#[trigger] pages@[i]).1@).len() < usize::MAX,
    ensures
        texts(r.0@) == reachability(tree.files@, string_pairs(pages@)).0,
        diagnostic_views(r.1.diagnostics@) == sorted_views(
            numbered_from(reachability(tree.files@, string_pairs(pages@)).1, 0),
        ),
{
    let ghost ps = string_pairs(pages@);
    let mut copy_set: Vec<Vec<char>> = Vec::new();
    let mut report = ValidationReport::new();
    let ghost mut ds: Seq<DiagnosticView> = seq![];
    assert(diagnostic_views(report.diagnostics@) =~= numbered_from(ds, 0));
    assert(views(copy_set@) =~= seq![]);
    let mut i: usize = 0;
    while i < pages.len()
        invariant
            i <= pages@.len(),
            ps == string_pairs(pages@),
            forall|k: int| 0 <= k < pages@.len() ==> encode_utf8((#[trigger] pages@[k]).1@).len() < usize::MAX,
            reach_refs(tree.files@, (seq![], seq![]), page_references(ps.take(i as int))) == (
                views(copy_set@),
                ds,
            ),
            diagnostic_views(report.diagnostics@) == numbered_from(ds, 0),
        decreases pages@.len() - i,
    {
        assert(ps.take(i + 1).drop_last() == ps.take(i as int));
        assert(ps.take(i + 1).last() == (pages@[i as int].0@, pages@[i as int].1@));
        let refs = extract_references_from_html(pages[i].1.as_str(), pages[i].0.as_str());
        let Ghost(out) = process_references(
            tree,
            &refs,
            &mut copy_set,
            &mut report,
            Ghost(page_references(ps.take(i as int))),
            Ghost(ds),
        );
        proof {
            ds = out;
        }
        i = i + 1;
    }
    assert(ps.take(pages@.len() as int) == ps);
    let sheets = stylesheet_path_list(tree);
    let ghost sv = views(sheets@);
    let ghost pr = page_references(ps);
    assert(stylesheet_references(tree.files@, sv.take(0)) =~= seq![]);
    assert(pr + seq![] =~= pr);
    let mut k: usize = 0;
    while k < sheets.len()
        invariant
            k <= sheets@.len(),
            sv == views(sheets@),
            texts_fit(tree.files@),
            reach_refs(
                tree.files@,
                (seq![], seq![]),
                pr + stylesheet_references(tree.files@, sv.take(k as int)),
            ) == (views(copy_set@), ds),
            diagnostic_views(report.diagnostics@) == numbered_from(ds, 0),
        decreases sheets@.len() - k,
    {
        assert(sv.take(k + 1).drop_last() == sv.take(k as int));
        assert(sv.take(k + 1).last() == sheets@[k as int]@);
        let ghost prev = stylesheet_references(tree.files@, sv.take(k as int));
        match tree.index_of(&sheets[k]) {
            Some(idx) => {
                proof {
                    crate::project::lemma_file_index_range(tree.files@, sheets@[k as int]@);
                }
                match &tree.files[idx].content {
                    Ok(t) => {
                        assert(match tree.files@[idx as int].content {
                            Ok(t) => encode_utf8(t@).len() < usize::MAX && 4 * t@.len() + 2
                                <= usize::MAX,
                            Err(_) => true,
                        });
                        let path = string_from_chars(&sheets[k]);
                        let refs = extract_references_from_css(t.as_str(), path.as_str(), 1, 1);
                        assert(pr + prev + reference_views(refs@) =~= pr + (prev + reference_views(
                            refs@,
                        )));
                        let Ghost(out) = process_references(
                            tree,
                            &refs,
                            &mut copy_set,
                            &mut report,
                            Ghost(pr + prev),
                            Ghost(ds),
                        );
                        proof {
                            ds = out;
                        }
                    },
                    Err(_) => {},
                }
            },
            None => {
                proof {
                    crate::project::lemma_file_index_range(tree.files@, sheets@[k as int]@);
                }
            },
        }
        k = k + 1;
    }
    assert(sv.take(sheets@.len() as int) == sv);
    let ghost unsorted = report.diagnostics@;
    report.sort();
    proof {
        crate::diagnostics::lemma_sorted_views(unsorted);
    }
    (string_list(&copy_set), report)
}

// ---------------------------------------------------------------------------
// Output plan
// ---------------------------------------------------------------------------

/// One file of the build output: its path below the output directory, and
/// either its text or, without text, the source file it is a copy of.
#[derive(Debug)]
pub struct OutputFile {
    pub path: String,
    pub text: Option<String>,
    pub source: String,
}

/// An output file over plain values.
pub struct OutputSpec {
    pub path: Seq<char>,
    pub text: Option<Seq<char>>,
    pub source: Seq<char>,
}

pub open spec fn output_view(f: OutputFile) -> OutputSpec {
    OutputSpec {
        path: f.path@,
        text: match f.text {
            Some(t) => Some(t@),
            None => None,
        },
        source: f.source@,
    }
}

pub open spec fn output_views(s: Seq<OutputFile>) -> Seq<OutputSpec> {
    s.map_values(|f: OutputFile| output_view(f))
}

/// Where source `p` goes below the output directory: its `dist/` path
/// without the leading `dist`.
pub open spec fn output_path(p: Seq<char>) -> Option<Seq<char>> {
    match dist_components(p) {
        Some(c) => Some(
            if c.len() > 0 && c[0] == "dist"@ {
                join(c.drop_first(), seq!['/'])
            } else {
                join(c, seq!['/'])
            },
        ),
        None => None,
    }
}

/// The output files of the expanded pages: each page that maps into `dist/`,
/// with its references rewritten.
pub open spec fn page_outputs(files: Seq<ProjectFile>, pages: Seq<(Seq<char>, Seq<char>)>) -> Seq<
    OutputSpec,
>
    decreases pages.len(),
{
    if pages.len() == 0 {
        seq![]
    } else {
        let prev = page_outputs(files, pages.drop_last());
        let (page, content) = pages.last();
        match output_path(page) {
            Some(o) => prev.push(
                OutputSpec {
                    path: o,
                    text: Some(rewritten_html(files, content, html5gum_tokens(content), page)),
                    source: page,
                },
            ),
            None => prev,
        }
    }
}

/// Whether the file at `p` is a stylesheet by its extension.
pub open spec fn is_css_file(p: Seq<char>) -> bool {
    has_extension(path_components(p), "css"@)
}

/// The message for a stylesheet the project does not hold.
pub open spec fn missing_file_message(p: Seq<char>) -> Seq<char> {
    "'"@ + p + "' is not a file of the project"@
}

/// The output files of the reachable set: stylesheets with their references
/// rewritten, other files copied; or the error of the first stylesheet that
/// cannot be read.
pub open spec fn reachable_outputs(files: Seq<ProjectFile>, set: Seq<Seq<char>>) -> Result<
    Seq<OutputSpec>,
    Seq<char>,
>
    decreases set.len(),
{
    if set.len() == 0 {
        Ok(seq![])
    } else {
        match reachable_outputs(files, set.drop_last()) {
            Err(e) => Err(e),
            Ok(prev) => {
                let src = set.last();
                match output_path(src) {
                    None => Ok(prev),
                    Some(o) => if is_css_file(src) {
                        let i = file_index(files, src);
                        if 0 <= i < files.len() {
                            match files[i].content {
                                Ok(t) => Ok(
                                    prev.push(
                                        OutputSpec {
                                            path: o,
                                            text: Some(rewritten_css(files, t@, src)),
                                            source: src,
                                        },
                                    ),
                                ),
                                Err(e) => Err(e@),
                            }
                        } else {
                            Err(missing_file_message(src))
                        }
                    } else {
                        Ok(prev.push(OutputSpec { path: o, text: None, source: src }))
                    },
                }
            },
        }
    }
}

/// An asset: a file somewhere below `assets/`.
pub open spec fn is_asset_path(p: Seq<char>) -> bool {
    let c = path_components(p);
    c.len() >= 2 && c[0] == "assets"@
}

/// The paths of the assets among `files`, in file order.
pub open spec fn asset_paths(files: Seq<ProjectFile>) -> Seq<Seq<char>>
    decreases files.len(),
{
    if files.len() == 0 {
        seq![]
    } else {
        let p = asset_paths(files.drop_last());
        if is_asset_path(files.last().path@) {
            p.push(files.last().path@)
        } else {
            p
        }
    }
}

/// Whether a path equal to `p` is in `set`.
pub open spec fn holds_path(set: Seq<Seq<char>>, p: Seq<char>) -> bool {
    exists|i: int| 0 <= i < set.len() && path_order(set[i], p) == 0
}

/// A warning for each asset (in path order) that is not secret and not in
/// the reachable set.
pub open spec fn unreferenced_assets(assets: Seq<Seq<char>>, set: Seq<Seq<char>>) -> Seq<
    DiagnosticView,
>
    decreases assets.len(),
{
    if assets.len() == 0 {
        seq![]
    } else {
        let prev = unreferenced_assets(assets.drop_last(), set);
        let a = assets.last();
        if !is_secret(a) && !holds_path(set, a) {
            prev.push(
                DiagnosticView {
                    code: codes::BUILD_UNREFERENCED_ASSET@,
                    severity: Severity::Warning,
                    location: Some((slashed(a), None, None)),
                    message: "Asset '"@ + slashed(a)
                        + "' is under 'assets/' but not referenced by any page or stylesheet and will not be copied into dist/"@,
                    next_action: "Reference this asset from a page or stylesheet, or remove it from assets/"@,
                    ordinal: 0,
                },
            )
        } else {
            prev
        }
    }
}

proof fn lemma_outputs_err(files: Seq<ProjectFile>, set: Seq<Seq<char>>, k: int)
    requires
        0 <= k <= set.len(),
        reachable_outputs(files, set.take(k)) is Err,
    ensures
        reachable_outputs(files, set) == reachable_outputs(files, set.take(k)),
    decreases set.len() - k,
{
    if k < set.len() {
        assert(set.take(k + 1).drop_last() == set.take(k));
        lemma_outputs_err(files, set, k + 1);
    } else {
        assert(set.take(k) == set);
    }
}

fn output_path_of(p: &str) -> (r: Option<String>)
    ensures
        match r {
            Some(o) => output_path(p@) == Some(o@),
            None => output_path(p@) is None,
        },
{
    match dist_components_of(p) {
        Some(c) => {
            if c.len() > 0 && str_is(&c[0], "dist") {
                let mut rest = crate::layout::copy_pieces(&c);
                rest.remove(0);
                assert(views(rest@) =~= views(c@).drop_first());
                Some(string_from_chars(&crate::diagnostics::join_with_slash(&rest)))
            } else {
                Some(string_from_chars(&crate::diagnostics::join_with_slash(&c)))
            }
        },
        None => None,
    }
}

fn holds_path_exec(set: &Vec<String>, p: &Vec<char>) -> (r: bool)
    ensures
        r == holds_path(texts(set@), p@),
{
    let mut i: usize = 0;
    while i < set.len()
        invariant
            i <= set@.len(),
            forall|k: int| 0 <= k < i ==> path_order(#[trigger] texts(set@)[k], p@) != 0,
        decreases set@.len() - i,
    {
        let x = chars_of(set[i].as_str());
        if compare_paths(&x, p) == 0 {
            assert(texts(set@)[i as int] == set@[i as int]@);
            return true;
        }
        assert(texts(set@)[i as int] == set@[i as int]@);
        i = i + 1;
    }
    false
}

fn push_output(out: &mut Vec<OutputFile>, f: OutputFile)
    ensures
        output_views(final(out)@) == output_views(old(out)@).push(output_view(f)),
{
    out.push(f);
    assert(output_views(out@) =~= output_views(old(out)@).push(output_view(f)));
}

/// Plans the build output: the expanded pages (`(path, text)` pairs, in the
/// order given) with their references rewritten, then each file of the
/// reachable set that maps into `dist/` (stylesheets rewritten, other files
/// copied), each at its `dist/` place; and a sorted report with a warning for
/// each unreferenced, non-secret asset. It fails with the error of the first
/// reachable stylesheet that cannot be read.
pub fn copy_reachable_set(
    tree: &ProjectTree,
    expanded_pages: &Vec<(String, String)>,
    reachable_set: &Vec<String>,
) -> (r: Result<(ValidationReport, Vec<OutputFile>), String>)
    ensures
        match r {
            Ok((report, outs)) => {
                &&& reachable_outputs(tree.files@, texts(reachable_set@)) is Ok
                &&& output_views(outs@) == page_outputs(tree.files@, string_pairs(expanded_pages@))
                    + reachable_outputs(tree.files@, texts(reachable_set@))->Ok_0
                &&& diagnostic_views(report.diagnostics@) == sorted_views(
                    numbered_from(
                        unreferenced_assets(
                            sort_paths(asset_paths(tree.files@)),
                            texts(reachable_set@),
                        ),
                        0,
                    ),
                )
            },
            Err(e) => reachable_outputs(tree.files@, texts(reachable_set@)) == Err::<Seq<OutputSpec>, Seq<char>>(e@),
        },
{
    // Unreferenced assets.
    let mut found: Vec<Vec<char>> = Vec::new();
    let mut i: usize = 0;
    while i < tree.files.len()
        invariant
            i <= tree.files@.len(),
            views(found@) == asset_paths(tree.files@.take(i as int)),
        decreases tree.files@.len() - i,
    {
        assert(tree.files@.take(i + 1).drop_last() == tree.files@.take(i as int));
        let p = chars_of(tree.files[i].path.as_str());
        let c = components_of(&p);
        if c.len() >= 2 && str_is(&c[0], "assets") {
            let ghost before = views(found@);
            found.push(p);
            assert(views(found@) =~= before.push(tree.files@[i as int].path@));
        }
        i = i + 1;
    }
    assert(tree.files@.take(tree.files@.len() as int) == tree.files@);
    let assets = sort_path_list(&found);
    let ghost av = views(assets@);
    let ghost set = texts(reachable_set@);
    let mut report = ValidationReport::new();
    assert(diagnostic_views(report.diagnostics@) =~= numbered_from(
        unreferenced_assets(av.take(0), set),
        0,
    ));
    let mut k: usize = 0;
    while k < assets.len()
        invariant
            k <= assets@.len(),
            av == views(assets@),
            set == texts(reachable_set@),
            diagnostic_views(report.diagnostics@) == numbered_from(
                unreferenced_assets(av.take(k as int), set),
                0,
            ),
        decreases assets@.len() - k,
    {
        assert(av.take(k + 1).drop_last() == av.take(k as int));
        assert(av.take(k + 1).last() == assets@[k as int]@);
        let a = &assets[k];
        let a_str = string_from_chars(a);
        if !is_secret_path(a_str.as_str()) && !holds_path_exec(reachable_set, a) {
            let rel = slash_chars(a);
            let rel_str = string_from_chars(&rel);
            let mut m = lit("Asset '");
            append_chars(&mut m, &rel);
            append_str(
                &mut m,
                "' is under 'assets/' but not referenced by any page or stylesheet and will not be copied into dist/",
            );
            let msg = string_from_chars(&m);
            let d = Diagnostic::new(
                codes::BUILD_UNREFERENCED_ASSET,
                Severity::Warning,
                Some(Location::path_only(rel_str.as_str())),
                msg.as_str(),
                "Reference this asset from a page or stylesheet, or remove it from assets/",
            );
            let ghost prev = unreferenced_assets(av.take(k as int), set);
            assert(report.diagnostics@.len() == prev.len()) by {
                assert(numbered_from(prev, 0).len() == prev.len());
            }
            add_fresh(&mut report, d);
            proof {
                crate::diagnostics::lemma_numbered_append(prev, seq![diagnostic_view(d)], 0);
                assert(prev + seq![diagnostic_view(d)] =~= prev.push(diagnostic_view(d)));
            }
        }
        k = k + 1;
    }
    assert(av.take(assets@.len() as int) == av);
    let ghost unsorted = report.diagnostics@;
    report.sort();
    proof {
        crate::diagnostics::lemma_sorted_views(unsorted);
    }
    // Pages.
    let ghost ps = string_pairs(expanded_pages@);
    let mut outs: Vec<OutputFile> = Vec::new();
    let mut j: usize = 0;
    while j < expanded_pages.len()
        invariant
            j <= expanded_pages@.len(),
            ps == string_pairs(expanded_pages@),
            output_views(outs@) == page_outputs(tree.files@, ps.take(j as int)),
        decreases expanded_pages@.len() - j,
    {
        assert(ps.take(j + 1).drop_last() == ps.take(j as int));
        assert(ps.take(j + 1).last() == (expanded_pages@[j as int].0@, expanded_pages@[j as int].1@));
        let page = &expanded_pages[j].0;
        match output_path_of(page.as_str()) {
            Some(o) => {
                let text = rewrite_html_references(expanded_pages[j].1.as_str(), page.as_str(), tree);
                let source = page.clone();
                push_output(&mut outs, OutputFile { path: o, text: Some(text), source });
            },
            None => {},
        }
        j = j + 1;
    }
    assert(ps.take(expanded_pages@.len() as int) == ps);
    let ghost pages_out = output_views(outs@);
    // Reachable set.
    let mut n: usize = 0;
    assert(pages_out + seq![] =~= pages_out);
    while n < reachable_set.len()
        invariant
            n <= reachable_set@.len(),
            set == texts(reachable_set@),
            reachable_outputs(tree.files@, set.take(n as int)) is Ok,
            output_views(outs@) == pages_out + reachable_outputs(tree.files@, set.take(n as int))->Ok_0,
        decreases reachable_set@.len() - n,
    {
        assert(set.take(n + 1).drop_last() == set.take(n as int));
        assert(set.take(n + 1).last() == reachable_set@[n as int]@);
        let ghost prev = reachable_outputs(tree.files@, set.take(n as int))->Ok_0;
        let src = &reachable_set[n];
        match output_path_of(src.as_str()) {
            Some(o) => {
                let sc = chars_of(src.as_str());
                let comps = components_of(&sc);
                let css = has_extension_of(&comps, 0, "css");
                assert(views(comps@).skip(0) == views(comps@));
                if css {
                    match tree.index_of(&sc) {
                        Some(idx) => {
                            proof {
                                crate::project::lemma_file_index_range(tree.files@, sc@);
                            }
                            match &tree.files[idx].content {
                                Ok(t) => {
                                    let text = rewrite_css_references(t.as_str(), src.as_str(), tree);
                                    let ghost before = output_views(outs@);
                                    push_output(
                                        &mut outs,
                                        OutputFile { path: o, text: Some(text), source: src.clone() },
                                    );
                                    assert(pages_out + prev.push(output_view(outs@.last())) =~= (pages_out + prev).push(output_view(outs@.last())));
                                },
                                Err(e) => {
                                    proof {
                                        lemma_outputs_err(tree.files@, set, n + 1);
                                    }
                                    return Err(e.clone());
                                },
                            }
                        },
                        None => {
                            proof {
                                crate::project::lemma_file_index_range(tree.files@, sc@);
                            }
                            let mut m = lit("'");
                            append_str(&mut m, src.as_str());
                            append_str(&mut m, "' is not a file of the project");
                            proof {
                                lemma_outputs_err(tree.files@, set, n + 1);
                            }
                            return Err(string_from_chars(&m));
                        },
                    }
                } else {
                    push_output(&mut outs, OutputFile { path: o, text: None, source: src.clone() });
                    assert(pages_out + prev.push(output_view(outs@.last())) =~= (pages_out + prev).push(output_view(outs@.last())));
                }
            },
            None => {},
        }
        n = n + 1;
    }
    assert(set.take(reachable_set@.len() as int) == set);
    Ok((report, outs))
}

} // verus!
