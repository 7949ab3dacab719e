//! Secret files and dotfiles never reach the copy set or `dist/`: no path
//! that is secret (a component starting with a dot, or a name starting with
//! `.env`) maps into `dist/`, and a file is copied only when it maps.

use vstd::prelude::*;

use crate::diagnostics::{is_named_piece, named_pieces, path_components, slashed, split_on, DiagnosticView};
use crate::layout::{dist_path, file_name, has_dot_component, is_secret, ReferenceSpec};
use crate::pages::{reach_refs, reachability, reference_use, set_put, ReferenceUse};
use crate::project::ProjectFile;
use crate::text::{contains_seq, occurs_at, starts_with};

verus! {

/// A reference never has a secret file copied: what is copied has a
/// `dist/` path, and no secret path has one.
proof fn lemma_copied_not_secret(files: Seq<ProjectFile>, r: ReferenceSpec)
    ensures
        reference_use(files, r) matches ReferenceUse::Copied(c) ==> !is_secret(c),
{
    match reference_use(files, r) {
        ReferenceUse::Copied(c) => {
            assert(dist_path(c) is Some);
            if is_secret(c) {
                law_excluded_sources_never_map(c);
            }
        },
        _ => {},
    }
}

proof fn lemma_set_put_members(s: Seq<Seq<char>>, x: Seq<char>)
    ensures
        forall|k: int| 0 <= k < set_put(s, x).len() ==> #[trigger] set_put(s, x)[k] == x || s.contains(set_put(s, x)[k]),
    decreases s.len(),
{
    if s.len() > 0 {
        lemma_set_put_members(s.drop_last(), x);
        let t = set_put(s, x);
        assert forall|k: int| 0 <= k < t.len() implies #[trigger] t[k] == x || s.contains(t[k]) by {
            let d = s.drop_last();
            if crate::pages::path_order(s.last(), x) == 0 {
                assert(s[k] == t[k]);
            } else if crate::pages::path_order(s.last(), x) < 0 {
                if k < s.len() {
                    assert(s[k] == t[k]);
                }
            } else {
                let u = set_put(d, x);
                if k < u.len() {
                    assert(t[k] == u[k]);
                    if u[k] != x {
                        let m = choose|m: int| 0 <= m < d.len() && d[m] == u[k];
                        assert(s[m] == d[m]);
                    }
                } else {
                    assert(t[k] == s.last());
                    assert(s[s.len() - 1] == s.last());
                }
            }
        }
    }
}

/// Along any references, a copy set without secret paths stays without
/// them.
proof fn lemma_reach_refs_no_secret(
    files: Seq<ProjectFile>,
    start: (Seq<Seq<char>>, Seq<DiagnosticView>),
    refs: Seq<ReferenceSpec>,
)
    requires
        forall|k: int| 0 <= k < start.0.len() ==> !is_secret(#[trigger] start.0[k]),
    ensures
        forall|k: int|
            0 <= k < reach_refs(files, start, refs).0.len() ==> !is_secret(#[trigger] reach_refs(files, start, refs).0[k]),
    decreases refs.len(),
{
    if refs.len() > 0 {
        let d = refs.drop_last();
        lemma_reach_refs_no_secret(files, start, d);
        let prev = reach_refs(files, start, d);
        let r = refs.last();
        lemma_copied_not_secret(files, r);
        match reference_use(files, r) {
            ReferenceUse::Copied(c) => {
                lemma_set_put_members(prev.0, c);
                let n = set_put(prev.0, c);
                assert forall|k: int| 0 <= k < n.len() implies !is_secret(#[trigger] n[k]) by {
                    if n[k] != c {
                        let m = choose|m: int| 0 <= m < prev.0.len() && prev.0[m] == n[k];
                        assert(!is_secret(prev.0[m]));
                    }
                }
            },
            _ => {},
        }
    }
}

/// Law: the copy set never holds a secret file or a dotfile: no copied path
/// has a component that starts with a dot, and none names a `.env` file,
/// whatever the project holds.
pub proof fn law_copy_set_holds_no_secret(files: Seq<ProjectFile>, pages: Seq<(Seq<char>, Seq<char>)>)
    ensures
        forall|k: int|
            0 <= k < reachability(files, pages).0.len() ==> !is_secret(#[trigger] reachability(files, pages).0[k]),
{
    let refs = crate::pages::page_references(pages) + crate::pages::stylesheet_references(
        files,
        crate::pages::sort_paths(crate::pages::stylesheet_paths(files)),
    );
    lemma_reach_refs_no_secret(files, (Seq::<Seq<char>>::empty(), Seq::<DiagnosticView>::empty()), refs);
}

/// The piece of a split that starts at a character right after a separator
/// (or at the start) begins with that character, and with the next one when
/// that is no separator.
proof fn lemma_piece_at(s: Seq<char>, i: int)
    requires
        0 <= i < s.len(),
        s[i] != '/',
        i == 0 || s[i - 1] == '/',
    ensures
        exists|k: int|
            0 <= k < split_on(s, '/').len() && (#[trigger] split_on(s, '/')[k]).len() >= 1 && split_on(s, '/')[k][0]
                == s[i] && (i + 1 < s.len() && s[i + 1] != '/' ==> split_on(s, '/')[k].len() >= 2 && split_on(
                s,
                '/',
            )[k][1] == s[i + 1]),
    decreases s.len(),
{
    let d = s.drop_last();
    crate::diagnostics::lemma_split_on_nonempty(d, '/');
    let p = split_on(d, '/');
    let q = split_on(s, '/');
    if i == s.len() - 1 {
        assert(p.last().len() == 0) by {
            if d.len() > 0 {
                assert(d.last() == s[i - 1]);
                crate::diagnostics::lemma_split_on_nonempty(d.drop_last(), '/');
            } else {
                assert(p == seq![Seq::<char>::empty()]);
            }
        }
        assert(s.last() == s[i]);
        let k = p.len() - 1;
        assert(q == p.update(k, p.last().push(s.last())));
        assert(q[k] == p.last().push(s[i]));
        assert(q[k] =~= seq![s[i]]);
        assert(q[k].len() >= 1 && q[k][0] == s[i] && (i + 1 < s.len() && s[i + 1] != '/' ==> q[k].len() >= 2
            && q[k][1] == s[i + 1]));
    } else if i == s.len() - 2 && s.last() != '/' {
        let dd = d.drop_last();
        crate::diagnostics::lemma_split_on_nonempty(dd, '/');
        let pp = split_on(dd, '/');
        assert(pp.last().len() == 0) by {
            if dd.len() > 0 {
                assert(dd.last() == s[i - 1]);
                crate::diagnostics::lemma_split_on_nonempty(dd.drop_last(), '/');
            } else {
                assert(pp == seq![Seq::<char>::empty()]);
            }
        }
        assert(d.last() == s[i]);
        let k = pp.len() - 1;
        assert(p == pp.update(k, pp.last().push(d.last())));
        assert(p[k] =~= seq![s[i]]);
        assert(p.len() == pp.len());
        assert(q == p.update(k, p.last().push(s.last())));
        assert(s.last() == s[i + 1]);
        assert(q[k] =~= seq![s[i], s[i + 1]]);
        assert(q[k].len() >= 1 && q[k][0] == s[i] && (i + 1 < s.len() && s[i + 1] != '/' ==> q[k].len() >= 2
            && q[k][1] == s[i + 1]));
    } else {
        assert(d[i] == s[i]);
        if i > 0 {
            assert(d[i - 1] == s[i - 1]);
        }
        lemma_piece_at(d, i);
        let k = choose|k: int|
            0 <= k < p.len() && (#[trigger] p[k]).len() >= 1 && p[k][0] == d[i] && (i + 1 < d.len() && d[i + 1]
                != '/' ==> p[k].len() >= 2 && p[k][1] == d[i + 1]);
        if i + 1 < d.len() {
            assert(d[i + 1] == s[i + 1]);
        }
        if s.last() == '/' {
            assert(q == p.push(seq![]));
            assert(q[k] == p[k]);
            if i + 1 < s.len() && s[i + 1] != '/' {
                assert(i + 1 < d.len()) by {
                    if i + 1 == d.len() {
                        assert(s[i + 1] == s.last());
                    }
                }
            }
            assert(q[k].len() >= 1 && q[k][0] == s[i] && (i + 1 < s.len() && s[i + 1] != '/' ==> q[k].len() >= 2
                && q[k][1] == s[i + 1]));
        } else {
            let r = p.update(p.len() - 1, p.last().push(s.last()));
            assert(q == r);
            if k == p.len() - 1 {
                assert(q[k] == p[k].push(s.last()));
                assert(q[k][0] == p[k][0]);
                if p[k].len() >= 2 {
                    assert(q[k][1] == p[k][1]);
                } else if i + 1 < s.len() && s[i + 1] != '/' {
                    assert(i + 1 == s.len() - 1);
                    assert(q[k][1] == s.last());
                }
            } else {
                assert(q[k] == p[k]);
            }
            assert(q[k].len() >= 1 && q[k][0] == s[i] && (i + 1 < s.len() && s[i + 1] != '/' ==> q[k].len() >= 2
                && q[k][1] == s[i + 1]));
        }
    }
}

/// A named piece of `parts` is one of its named pieces.
proof fn lemma_named_member(parts: Seq<Seq<char>>, k: int)
    requires
        0 <= k < parts.len(),
        is_named_piece(parts[k]),
    ensures
        named_pieces(parts).contains(parts[k]),
    decreases parts.len(),
{
    let d = parts.drop_last();
    if k == parts.len() - 1 {
        assert(parts.last() == parts[k]);
        assert(named_pieces(parts).last() == parts[k]);
        assert(named_pieces(parts)[named_pieces(parts).len() - 1] == parts[k]);
    } else {
        assert(d[k] == parts[k]);
        lemma_named_member(d, k);
        let m = choose|m: int| 0 <= m < named_pieces(d).len() && named_pieces(d)[m] == parts[k];
        if is_named_piece(parts.last()) {
            assert(named_pieces(parts)[m] == named_pieces(d)[m]);
        }
    }
}

/// A component starting with `.e` at position `i` of a slashed path makes it
/// hold a dot component.
proof fn lemma_dot_piece_at(s: Seq<char>, i: int)
    requires
        0 <= i,
        i + 1 < s.len(),
        s[i] == '.',
        s[i + 1] == 'e',
        i == 0 || s[i - 1] == '/',
    ensures
        exists|k: int| 0 <= k < path_components(s).len() && #[trigger] path_components(s)[k][0] == '.',
{
    lemma_piece_at(s, i);
    let parts = split_on(s, '/');
    let k = choose|k: int|
        0 <= k < parts.len() && (#[trigger] parts[k]).len() >= 1 && parts[k][0] == s[i] && (i + 1 < s.len() && s[i
            + 1] != '/' ==> parts[k].len() >= 2 && parts[k][1] == s[i + 1]);
    assert(is_named_piece(parts[k])) by {
        if parts[k] == seq!['.'] {
            assert(parts[k].len() == 1);
        }
    }
    lemma_named_member(parts, k);
    let m = choose|m: int| 0 <= m < path_components(s).len() && path_components(s)[m] == parts[k];
    assert(path_components(s)[m][0] == '.');
}

/// Law: secret files, dotfiles and internal sources never map into `dist/`:
/// a path that is secret, has a component starting with a dot, lies below
/// `docs/`, `components/` or `dist/`, or is `wda.json`, `README.md` or
/// `.gitignore`, has no `dist/` path.
pub proof fn law_excluded_sources_never_map(p: Seq<char>)
    requires
        is_secret(p) || has_dot_component(slashed(p)) || starts_with(slashed(p), "docs/"@) || starts_with(
            slashed(p),
            "components/"@,
        ) || starts_with(slashed(p), "dist/"@) || slashed(p) == "wda.json"@ || slashed(p) == "README.md"@
            || slashed(p) == ".gitignore"@,
    ensures
        dist_path(p) is None,
{
    reveal_strlit(".env");
    reveal_strlit("/.env");
    let s = slashed(p);
    let c = path_components(s);
    if is_secret(p) && !has_dot_component(s) {
        if starts_with(file_name(c), ".env"@) {
            assert(c.len() > 0);
            assert(c.last() == c[c.len() - 1]);
            assert(file_name(c).take(4)[0] == '.');
        } else if starts_with(s, ".env"@) {
            assert(s.take(4)[0] == '.' && s.take(4)[1] == 'e');
            lemma_dot_piece_at(s, 0);
        } else if contains_seq(s, "/.env"@) {
            let i = choose|i: int| occurs_at(s, "/.env"@, i);
            assert(s.subrange(i, i + 5)[0] == '/');
            assert(s.subrange(i, i + 5)[1] == '.');
            assert(s.subrange(i, i + 5)[2] == 'e');
            lemma_dot_piece_at(s, i + 1);
        } else {
            let k = choose|k: int| 0 <= k < c.len() && #[trigger] c[k] != ".."@ && c[k][0] == '.';
        }
    }
}

} // verus!
