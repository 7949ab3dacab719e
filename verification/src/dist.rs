//! Replacing `dist/` with a staged tree, step by step: the output is built
//! in a sibling staging directory, and only a completed stage is swapped
//! into `dist/`; the previous tree is moved aside first and removed last.
//! The caller performs each requested file operation.

use vstd::prelude::*;

use crate::deps::fault_is;
use crate::diagnostics::{join, slash_chars, slashed, ToolFault};
use crate::pages::{path_pieces, piece_view, piece_views, pieces_of, PathPiece, Piece};
use crate::text::{append_chars, append_str, chars_of, decimal, lit, push_decimal, string_from_chars};
use crate::tools::{join_path, path_join};

verus! {

/// The hint given when `dist/` cannot be replaced.
pub const DIST_HELD_HINT: &'static str = "dist/ is probably holding an open handle; close any preview server, file watcher, or terminal rooted at dist/, then run the build again";

/// The number of staging directory names tried before giving up.
pub const STAGE_ATTEMPTS: usize = 100;

// ---------------------------------------------------------------------------
// Project-relative paths
// ---------------------------------------------------------------------------

pub open spec fn piece_text(p: PathPiece) -> Seq<char> {
    match p {
        PathPiece::Root => seq![],
        PathPiece::Current => seq!['.'],
        PathPiece::Parent => seq!['.', '.'],
        PathPiece::Name(n) => n,
    }
}

/// The text of path components.
pub open spec fn pieces_text(ps: Seq<PathPiece>) -> Seq<char> {
    if ps.len() == 1 && ps[0] == PathPiece::Root {
        seq!['/']
    } else {
        join(ps.map_values(|p: PathPiece| piece_text(p)), seq!['/'])
    }
}

/// Whether `base` is a leading part of `ps`.
pub open spec fn pieces_prefix(base: Seq<PathPiece>, ps: Seq<PathPiece>) -> bool {
    base.len() <= ps.len() && ps.take(base.len() as int) == base
}

/// The components of a path's parent (`Path::parent`), if it has one.
pub open spec fn parent_pieces(ps: Seq<PathPiece>) -> Option<Seq<PathPiece>> {
    if ps.len() == 0 || (ps.len() == 1 && ps[0] == PathPiece::Root) {
        None
    } else {
        Some(ps.drop_last())
    }
}

/// `path` for a message about the project at `root`: relative to the root
/// when it lies below it; else `..` and the path relative to the root's
/// parent when it lies below that; else as it is; with `/` separators.
pub open spec fn project_relative(root: Seq<char>, path: Seq<char>) -> Seq<char> {
    let pp = path_pieces(path);
    let rp = path_pieces(root);
    if pieces_prefix(rp, pp) {
        slashed(pieces_text(pp.skip(rp.len() as int)))
    } else {
        match parent_pieces(rp) {
            Some(q) => if pieces_prefix(q, pp) {
                slashed(path_join(seq!['.', '.'], pieces_text(pp.skip(q.len() as int))))
            } else {
                slashed(path)
            },
            None => slashed(path),
        }
    }
}

fn same_piece(a: &Piece, b: &Piece) -> (r: bool)
    ensures
        r == (piece_view(*a) == piece_view(*b)),
{
    match (a, b) {
        (Piece::Root, Piece::Root) => true,
        (Piece::Current, Piece::Current) => true,
        (Piece::Parent, Piece::Parent) => true,
        (Piece::Name(x), Piece::Name(y)) => crate::text::chars_eq(x, y),
        _ => false,
    }
}

fn is_prefix(base: &Vec<Piece>, upto: usize, ps: &Vec<Piece>) -> (r: bool)
    requires
        upto <= base@.len(),
    ensures
        r == pieces_prefix(piece_views(base@).take(upto as int), piece_views(ps@)),
{
    if upto > ps.len() {
        return false;
    }
    let mut i: usize = 0;
    while i < upto
        invariant
            i <= upto,
            upto <= base@.len(),
            upto <= ps@.len(),
            forall|k: int| 0 <= k < i ==> piece_views(ps@)[k] == piece_views(base@)[k],
        decreases upto - i,
    {
        if !same_piece(&base[i], &ps[i]) {
            assert(piece_views(ps@).take(upto as int)[i as int] != piece_views(base@).take(upto as int)[i as int]);
            return false;
        }
        i = i + 1;
    }
    assert(piece_views(ps@).take(upto as int) =~= piece_views(base@).take(upto as int));
    true
}

fn text_from(ps: &Vec<Piece>, from: usize) -> (r: Vec<char>)
    requires
        from <= ps@.len(),
    ensures
        r@ == pieces_text(piece_views(ps@).skip(from as int)),
{
    let ghost rest = piece_views(ps@).skip(from as int);
    if ps.len() - from == 1 {
        match &ps[from] {
            Piece::Root => {
                assert(rest[0] == PathPiece::Root);
                assert(rest.len() == 1);
                proof {
                    reveal_strlit("/");
                }
                return lit("/");
            },
            _ => {},
        }
    }
    let ghost texts = rest.map_values(|p: PathPiece| piece_text(p));
    let mut out: Vec<char> = Vec::new();
    let mut i: usize = from;
    while i < ps.len()
        invariant
            from <= i <= ps@.len(),
            rest == piece_views(ps@).skip(from as int),
            texts == rest.map_values(|p: PathPiece| piece_text(p)),
            out@ == join(texts.take(i - from), seq!['/']),
        decreases ps@.len() - i,
    {
        let t = match &ps[i] {
            Piece::Root => Vec::new(),
            Piece::Current => lit("."),
            Piece::Parent => lit(".."),
            Piece::Name(n) => crate::text::copy_chars(n),
        };
        proof {
            reveal_strlit(".");
            reveal_strlit("..");
            assert(rest[i - from] == piece_view(ps@[i as int]));
            assert(t@ == texts[i - from]);
        }
        let ghost before = out@;
        if i > from {
            out.push('/');
        }
        append_chars(&mut out, &t);
        proof {
            let tk = texts.take(i + 1 - from);
            assert(tk.drop_last() =~= texts.take(i - from));
            assert(tk.last() == texts[i - from]);
            if i > from {
                assert(out@ =~= before + seq!['/'] + t@);
            } else {
                assert(tk.len() == 1);
                assert(out@ =~= t@);
            }
        }
        i = i + 1;
    }
    assert(texts.take(ps@.len() - from) =~= texts);
    proof {
        if rest.len() == 1 {
            assert(rest[0] != PathPiece::Root);
        }
    }
    out
}

/// `path` relative to the project at `root`, for messages (see
/// [`project_relative`]).
pub fn project_relative_path(root: &str, path: &str) -> (r: String)
    ensures
        r@ == project_relative(root@, path@),
{
    let pc = chars_of(path);
    let pp = pieces_of(&pc);
    let rp = pieces_of(&chars_of(root));
    assert(piece_views(rp@).take(rp@.len() as int) =~= piece_views(rp@));
    if is_prefix(&rp, rp.len(), &pp) {
        let t = text_from(&pp, rp.len());
        return string_from_chars(&slash_chars(&t));
    }
    let has_parent = !(rp.len() == 0 || (rp.len() == 1 && match &rp[0] {
        Piece::Root => true,
        _ => false,
    }));
    if has_parent {
        let q = rp.len() - 1;
        assert(piece_views(rp@).take(q as int) =~= piece_views(rp@).drop_last());
        if is_prefix(&rp, q, &pp) {
            let t = string_from_chars(&text_from(&pp, q));
            let j = join_path("..", t.as_str());
            proof {
                reveal_strlit("..");
            }
            return string_from_chars(&slash_chars(&chars_of(j.as_str())));
        }
    }
    string_from_chars(&slash_chars(&pc))
}

// ---------------------------------------------------------------------------
// Tree removal
// ---------------------------------------------------------------------------

/// The order in which the entries of a tree are removed: the entries as
/// listed (each directory before its contents), reversed, then the
/// directory itself (the empty relative path).
pub open spec fn removal_sequence(entries: Seq<Seq<char>>) -> Seq<Seq<char>> {
    entries.reverse().push(seq![])
}

/// The removal order of a tree's entries (see [`removal_sequence`]).
pub fn removal_order(entries: &Vec<String>) -> (r: Vec<String>)
    ensures
        crate::pages::texts(r@) == removal_sequence(crate::pages::texts(entries@)),
{
    let ghost es = crate::pages::texts(entries@);
    let mut out: Vec<String> = Vec::new();
    let mut i: usize = entries.len();
    while i > 0
        invariant
            i <= entries@.len(),
            es == crate::pages::texts(entries@),
            crate::pages::texts(out@) == es.skip(i as int).reverse(),
        decreases i,
    {
        let ghost before = crate::pages::texts(out@);
        out.push(entries[i - 1].clone());
        assert(crate::pages::texts(out@) =~= before.push(es[i - 1]));
        assert(es.skip(i - 1).reverse() =~= es.skip(i as int).reverse().push(es[i - 1]));
        i = i - 1;
    }
    let ghost before = crate::pages::texts(out@);
    out.push(String::new());
    assert(crate::pages::texts(out@) =~= before.push(seq![]));
    assert(es.skip(0) == es);
    out
}

/// The path a failed entry names: the directory's name, joined with the
/// entry's relative path unless it is the directory itself.
pub open spec fn residual_path(dir_name: Seq<char>, relative: Seq<char>) -> Seq<char> {
    if relative.len() == 0 {
        dir_name
    } else {
        path_join(dir_name, relative)
    }
}

/// The message of a removal that left entries behind.
pub open spec fn residual_message(root: Seq<char>, dir_name: Seq<char>, failure: Seq<char>, failed: Seq<Seq<char>>) -> Seq<
    char,
> {
    failure + "; residual paths remain: "@ + join(
        failed.map_values(|rel: Seq<char>| project_relative(root, residual_path(dir_name, rel))),
        ", "@,
    )
}

/// The result of removing a tree (the directory named `dir_name` below
/// `root`'s parent or `root`) whose entries `failed` could not be removed:
/// success when none failed, else a fault listing them, project-relative.
pub fn remove_tree(root: &str, dir_name: &str, failure_message: &str, failed: &Vec<String>) -> (r: Result<(), ToolFault>)
    ensures
        failed@.len() == 0 <==> r is Ok,
        r matches Err(f) ==> fault_is(
            f,
            residual_message(root@, dir_name@, failure_message@, crate::pages::texts(failed@)),
            Some(root@),
        ),
{
    if failed.len() == 0 {
        return Ok(());
    }
    let ghost fs = crate::pages::texts(failed@);
    let ghost shown = fs.map_values(|rel: Seq<char>| project_relative(root@, residual_path(dir_name@, rel)));
    let mut m = lit(failure_message);
    append_str(&mut m, "; residual paths remain: ");
    let ghost head = m@;
    let mut i: usize = 0;
    while i < failed.len()
        invariant
            i <= failed@.len(),
            fs == crate::pages::texts(failed@),
            shown == fs.map_values(|rel: Seq<char>| project_relative(root@, residual_path(dir_name@, rel))),
            m@ == head + join(shown.take(i as int), ", "@),
        decreases failed@.len() - i,
    {
        let rel = failed[i].as_str();
        let rel_chars = chars_of(rel);
        let p = if rel_chars.len() == 0 {
            dir_name.to_string()
        } else {
            join_path(dir_name, rel)
        };
        proof {
            if failed@[i as int]@.len() == 0 {
                assert(residual_path(dir_name@, fs[i as int]) == dir_name@);
            }
        }
        let shown_i = project_relative_path(root, p.as_str());
        let ghost before = m@;
        if i > 0 {
            append_str(&mut m, ", ");
        }
        append_str(&mut m, shown_i.as_str());
        proof {
            let tk = shown.take(i + 1);
            assert(tk.drop_last() =~= shown.take(i as int));
            assert(tk.last() == shown[i as int]);
            if i > 0 {
                assert(m@ =~= before + ", "@ + shown[i as int]);
            } else {
                assert(shown.take(i as int).len() == 0);
                assert(m@ =~= head + shown[i as int]);
            }
        }
        i = i + 1;
    }
    assert(shown.take(failed@.len() as int) == shown);
    let msg = string_from_chars(&m);
    Err(ToolFault::new(msg.as_str(), Some(root)))
}


// ---------------------------------------------------------------------------
// Staged replacement of `dist/`
// ---------------------------------------------------------------------------

/// Where a replacement stands.
#[derive(Debug, Clone, Copy, PartialEq, Eq, Structural)]
pub enum DistPhase {
    CreatingStage,
    Writing,
    CheckingDist,
    MovingOldDist,
    InstallingStage,
    RestoringDist,
    CleaningStage,
    RemovingBackup,
    Done,
}

/// How the requested operation went.
#[derive(Debug)]
pub enum DistEvent {
    /// The directory was created or the rename done.
    Succeeded,
    /// The operation failed; the error as text.
    Failed(String),
    /// The staging directory name is taken; a fresh suffix for the next
    /// name.
    AlreadyExists(String),
    /// The stage writer finished.
    Written(Result<(), ToolFault>),
    /// Whether `dist/` exists.
    Exists(bool),
    /// A tree was removed; the entries (relative paths, the empty path for
    /// the directory itself) whose removal failed.
    Removed(Vec<String>),
}

/// What the replacement asks of the caller next.
#[derive(Debug)]
pub enum DistAction {
    /// Create this directory (not its parents; an existing one is
    /// reported, not reused).
    CreateDir(String),
    /// Write the output into this stage directory.
    RunWriter(String),
    /// Check whether this path exists.
    CheckExists(String),
    /// Rename the previous `dist/` aside, to the backup.
    MoveAside { from: String, to: String },
    /// Rename the completed stage onto `dist/`.
    Install { from: String, to: String },
    /// Rename the backup back onto `dist/`.
    Restore { from: String, to: String },
    /// Remove the stage tree, entry by entry in [`removal_order`], without
    /// following symbolic links.
    RemoveStage(String),
    /// Remove the backup tree in the same way.
    RemoveBackup(String),
    /// Stop with this result.
    Finish(Result<(), ToolFault>),
}

/// A replacement in progress.
#[derive(Debug)]
pub struct DistReplace {
    pub root: String,
    /// The directory that holds the stage (the root's parent).
    pub parent: String,
    /// The root's name, used in the stage and backup names.
    pub root_name: String,
    /// The suffix of the current stage name.
    pub suffix: String,
    /// The suffix of the backup name.
    pub backup_suffix: String,
    pub attempt: usize,
    pub had_dist: bool,
    /// The install error, kept while the previous tree is restored.
    pub install_error: String,
    /// The error to report once the stage is cleaned up.
    pub pending: Option<ToolFault>,
    pub phase: DistPhase,
}

/// A replacement action over plain values; a finish carries the fault's
/// message and path.
pub enum DistStep {
    CreateDir(Seq<char>),
    RunWriter(Seq<char>),
    CheckExists(Seq<char>),
    MoveAside(Seq<char>, Seq<char>),
    Install(Seq<char>, Seq<char>),
    Restore(Seq<char>, Seq<char>),
    RemoveStage(Seq<char>),
    RemoveBackup(Seq<char>),
    Finish(Option<(Seq<char>, Option<Seq<char>>)>),
}

pub open spec fn fault_view(f: ToolFault) -> (Seq<char>, Option<Seq<char>>) {
    (
        f.message@,
        match f.path {
            Some(p) => Some(p@),
            None => None,
        },
    )
}

pub open spec fn dist_step_view(a: DistAction) -> DistStep {
    match a {
        DistAction::CreateDir(p) => DistStep::CreateDir(p@),
        DistAction::RunWriter(p) => DistStep::RunWriter(p@),
        DistAction::CheckExists(p) => DistStep::CheckExists(p@),
        DistAction::MoveAside { from, to } => DistStep::MoveAside(from@, to@),
        DistAction::Install { from, to } => DistStep::Install(from@, to@),
        DistAction::Restore { from, to } => DistStep::Restore(from@, to@),
        DistAction::RemoveStage(p) => DistStep::RemoveStage(p@),
        DistAction::RemoveBackup(p) => DistStep::RemoveBackup(p@),
        DistAction::Finish(r) => DistStep::Finish(
            match r {
                Ok(()) => None,
                Err(f) => Some(fault_view(f)),
            },
        ),
    }
}

/// The name of the stage directory of attempt `attempt`.
pub open spec fn stage_name(root_name: Seq<char>, suffix: Seq<char>, attempt: nat) -> Seq<char> {
    "."@ + root_name + ".wda-stage-"@ + suffix + "-"@ + decimal(attempt)
}

/// The name of the backup of the previous `dist/`.
pub open spec fn backup_name(root_name: Seq<char>, backup_suffix: Seq<char>) -> Seq<char> {
    "."@ + root_name + ".wda-old-"@ + backup_suffix
}

pub open spec fn stage_of(m: DistReplace) -> Seq<char> {
    path_join(m.parent@, stage_name(m.root_name@, m.suffix@, m.attempt as nat))
}

pub open spec fn backup_of(m: DistReplace) -> Seq<char> {
    path_join(m.root@, backup_name(m.root_name@, m.backup_suffix@))
}

pub open spec fn dist_of(m: DistReplace) -> Seq<char> {
    path_join(m.root@, "dist"@)
}

/// The install failure message, with the restore failure when there was
/// one.
pub open spec fn install_message(err: Seq<char>, restore: Option<Seq<char>>) -> Seq<char> {
    match restore {
        Some(r) => "Failed to install staged dist/: "@ + DIST_HELD_HINT@ + ": "@ + err
            + "; restoring the previous dist/ also failed: "@ + r,
        None => "Failed to install staged dist/: "@ + DIST_HELD_HINT@ + ": "@ + err,
    }
}

/// The next phase, the next action, and the error kept for after the
/// clean-up, after event `e` in replacement `m` (the other fields as in
/// [`DistReplace::step`]).
#[verifier::opaque]
pub open spec fn dist_next(m: DistReplace, e: DistEvent) -> (DistPhase, DistStep, Option<(Seq<char>, Option<Seq<char>>)>) {
    let pending = match m.pending {
        Some(f) => Some(fault_view(f)),
        None => None,
    };
    match (m.phase, e) {
        (DistPhase::CreatingStage, DistEvent::Failed(err)) => (
            DistPhase::Done,
            DistStep::Finish(Some(("Failed to create build staging directory: "@ + err@, Some(stage_of(m))))),
            pending,
        ),
        (DistPhase::CreatingStage, DistEvent::AlreadyExists(next)) => if m.attempt + 1 >= STAGE_ATTEMPTS {
            (
                DistPhase::Done,
                DistStep::Finish(Some(("Unable to allocate a unique build staging directory"@, Some(m.parent@)))),
                pending,
            )
        } else {
            (
                DistPhase::CreatingStage,
                DistStep::CreateDir(path_join(m.parent@, stage_name(m.root_name@, next@, (m.attempt + 1) as nat))),
                pending,
            )
        },
        (DistPhase::CreatingStage, _) => (DistPhase::Writing, DistStep::RunWriter(stage_of(m)), pending),
        (DistPhase::Writing, DistEvent::Written(Err(f))) => (
            DistPhase::CleaningStage,
            DistStep::RemoveStage(stage_of(m)),
            Some(fault_view(f)),
        ),
        (DistPhase::Writing, _) => (DistPhase::CheckingDist, DistStep::CheckExists(dist_of(m)), pending),
        (DistPhase::CheckingDist, DistEvent::Exists(true)) => (
            DistPhase::MovingOldDist,
            DistStep::MoveAside(dist_of(m), backup_of(m)),
            pending,
        ),
        (DistPhase::CheckingDist, _) => (
            DistPhase::InstallingStage,
            DistStep::Install(stage_of(m), dist_of(m)),
            pending,
        ),
        (DistPhase::MovingOldDist, DistEvent::Failed(err)) => (
            DistPhase::CleaningStage,
            DistStep::RemoveStage(stage_of(m)),
            Some(("Failed to prepare dist/ replacement: "@ + DIST_HELD_HINT@ + ": "@ + err@, Some(dist_of(m)))),
        ),
        (DistPhase::MovingOldDist, _) => (
            DistPhase::InstallingStage,
            DistStep::Install(stage_of(m), dist_of(m)),
            pending,
        ),
        (DistPhase::InstallingStage, DistEvent::Failed(err)) => if m.had_dist {
            (DistPhase::RestoringDist, DistStep::Restore(backup_of(m), dist_of(m)), pending)
        } else {
            (
                DistPhase::CleaningStage,
                DistStep::RemoveStage(stage_of(m)),
                Some((install_message(err@, None), Some(dist_of(m)))),
            )
        },
        (DistPhase::InstallingStage, _) => if m.had_dist {
            (DistPhase::RemovingBackup, DistStep::RemoveBackup(backup_of(m)), pending)
        } else {
            (DistPhase::Done, DistStep::Finish(None), pending)
        },
        (DistPhase::RestoringDist, DistEvent::Failed(r)) => (
            DistPhase::CleaningStage,
            DistStep::RemoveStage(stage_of(m)),
            Some((install_message(m.install_error@, Some(r@)), Some(dist_of(m)))),
        ),
        (DistPhase::RestoringDist, _) => (
            DistPhase::CleaningStage,
            DistStep::RemoveStage(stage_of(m)),
            Some((install_message(m.install_error@, None), Some(dist_of(m)))),
        ),
        (DistPhase::CleaningStage, DistEvent::Removed(failed)) => if failed@.len() == 0 {
            (DistPhase::Done, DistStep::Finish(pending), pending)
        } else {
            (
                DistPhase::Done,
                DistStep::Finish(
                    Some(
                        (
                            residual_message(
                                m.root@,
                                stage_name(m.root_name@, m.suffix@, m.attempt as nat),
                                "Failed to clean up build staging output"@,
                                crate::pages::texts(failed@),
                            ),
                            Some(m.root@),
                        ),
                    ),
                ),
                pending,
            )
        },
        (DistPhase::RemovingBackup, DistEvent::Removed(failed)) => if failed@.len() == 0 {
            (DistPhase::Done, DistStep::Finish(None), pending)
        } else {
            (
                DistPhase::Done,
                DistStep::Finish(
                    Some(
                        (
                            residual_message(
                                m.root@,
                                backup_name(m.root_name@, m.backup_suffix@),
                                "Failed to remove old deployment backup"@,
                                crate::pages::texts(failed@),
                            ),
                            Some(m.root@),
                        ),
                    ),
                ),
                pending,
            )
        },
        _ => (DistPhase::Done, DistStep::Finish(pending), pending),
    }
}

fn copy_fault(f: &ToolFault) -> (r: ToolFault)
    ensures
        r == *f,
{
    ToolFault {
        message: f.message.clone(),
        path: match &f.path {
            Some(p) => Some(p.clone()),
            None => None,
        },
    }
}

fn stage_name_of(root_name: &str, suffix: &str, attempt: usize) -> (r: String)
    ensures
        r@ == stage_name(root_name@, suffix@, attempt as nat),
{
    let mut n = lit(".");
    append_str(&mut n, root_name);
    append_str(&mut n, ".wda-stage-");
    append_str(&mut n, suffix);
    append_str(&mut n, "-");
    push_decimal(&mut n, attempt);
    string_from_chars(&n)
}

fn backup_name_of(root_name: &str, backup_suffix: &str) -> (r: String)
    ensures
        r@ == backup_name(root_name@, backup_suffix@),
{
    let mut n = lit(".");
    append_str(&mut n, root_name);
    append_str(&mut n, ".wda-old-");
    append_str(&mut n, backup_suffix);
    string_from_chars(&n)
}

fn install_message_of(err: &str, restore: Option<&str>) -> (r: String)
    ensures
        r@ == install_message(
            err@,
            match restore {
                Some(x) => Some(x@),
                None => None,
            },
        ),
{
    let mut m = lit("Failed to install staged dist/: ");
    append_str(&mut m, DIST_HELD_HINT);
    append_str(&mut m, ": ");
    append_str(&mut m, err);
    match restore {
        Some(x) => {
            append_str(&mut m, "; restoring the previous dist/ also failed: ");
            append_str(&mut m, x);
        },
        None => {},
    }
    string_from_chars(&m)
}

impl DistReplace {
    /// Starts replacing `dist/` below `root`: the stage is created in `parent`,
    /// named after `root_name` and `suffix`; the previous `dist/` is moved to
    /// a backup named after `backup_suffix`.
    pub fn new(root: &str, parent: &str, root_name: &str, suffix: &str, backup_suffix: &str) -> (r: (
        DistReplace,
        DistAction,
    ))
        ensures
            r.0.root@ == root@,
            r.0.parent@ == parent@,
            r.0.root_name@ == root_name@,
            r.0.suffix@ == suffix@,
            r.0.backup_suffix@ == backup_suffix@,
            r.0.attempt == 0,
            !r.0.had_dist,
            r.0.pending is None,
            r.0.phase == DistPhase::CreatingStage,
            dist_step_view(r.1) == DistStep::CreateDir(stage_of(r.0)),
    {
        let name = stage_name_of(root_name, suffix, 0);
        let m = DistReplace {
            root: root.to_string(),
            parent: parent.to_string(),
            root_name: root_name.to_string(),
            suffix: suffix.to_string(),
            backup_suffix: backup_suffix.to_string(),
            attempt: 0,
            had_dist: false,
            install_error: String::new(),
            pending: None,
            phase: DistPhase::CreatingStage,
        };
        let a = DistAction::CreateDir(join_path(parent, name.as_str()));
        (m, a)
    }

    /// Takes how the last request went and decides the next one (see
    /// [`dist_next`]).
    pub fn step(&mut self, event: DistEvent) -> (r: DistAction)
        requires
            old(self).attempt < STAGE_ATTEMPTS,
        ensures
            final(self).root == old(self).root,
            final(self).parent == old(self).parent,
            final(self).root_name == old(self).root_name,
            final(self).backup_suffix == old(self).backup_suffix,
            final(self).attempt < STAGE_ATTEMPTS,
            ({
                let (p, a, pending) = dist_next(*old(self), event);
                &&& final(self).phase == p
                &&& dist_step_view(r) == a
                &&& match final(self).pending {
                    Some(f) => pending == Some(fault_view(f)),
                    None => pending is None,
                }
            }),
            old(self).phase == DistPhase::CheckingDist ==> final(self).had_dist == (event matches DistEvent::Exists(true)),
            old(self).phase != DistPhase::CheckingDist ==> final(self).had_dist == old(self).had_dist,
            old(self).phase == DistPhase::CreatingStage ==> (event matches DistEvent::AlreadyExists(next) ==> (old(self).attempt
                + 1 < STAGE_ATTEMPTS ==> final(self).attempt == old(self).attempt + 1 && final(self).suffix@ == next@)),
            !(old(self).phase == DistPhase::CreatingStage && event is AlreadyExists) ==> final(self).attempt == old(self).attempt
                && final(self).suffix == old(self).suffix,
            old(self).phase == DistPhase::InstallingStage ==> (event matches DistEvent::Failed(err) ==> final(self).install_error@ == err@),
            old(self).phase != DistPhase::InstallingStage ==> final(self).install_error == old(self).install_error,
    {
        let stage = join_path(self.parent.as_str(), stage_name_of(self.root_name.as_str(), self.suffix.as_str(), self.attempt).as_str());
        let dist = join_path(self.root.as_str(), "dist");
        let backup = join_path(self.root.as_str(), backup_name_of(self.root_name.as_str(), self.backup_suffix.as_str()).as_str());
        proof {
            reveal(dist_next);
        }
        match (self.phase, event) {
            (DistPhase::CreatingStage, DistEvent::Failed(err)) => {
                self.phase = DistPhase::Done;
                let mut m = lit("Failed to create build staging directory: ");
                append_str(&mut m, err.as_str());
                let msg = string_from_chars(&m);
                DistAction::Finish(Err(ToolFault::new(msg.as_str(), Some(stage.as_str()))))
            },
            (DistPhase::CreatingStage, DistEvent::AlreadyExists(next)) => {
                if self.attempt + 1 >= STAGE_ATTEMPTS {
                    self.phase = DistPhase::Done;
                    DistAction::Finish(
                        Err(ToolFault::new("Unable to allocate a unique build staging directory", Some(self.parent.as_str()))),
                    )
                } else {
                    self.attempt = self.attempt + 1;
                    self.suffix = next;
                    let name = stage_name_of(self.root_name.as_str(), self.suffix.as_str(), self.attempt);
                    DistAction::CreateDir(join_path(self.parent.as_str(), name.as_str()))
                }
            },
            (DistPhase::CreatingStage, _) => {
                self.phase = DistPhase::Writing;
                DistAction::RunWriter(stage)
            },
            (DistPhase::Writing, DistEvent::Written(Err(f))) => {
                self.pending = Some(f);
                self.phase = DistPhase::CleaningStage;
                DistAction::RemoveStage(stage)
            },
            (DistPhase::Writing, _) => {
                self.phase = DistPhase::CheckingDist;
                DistAction::CheckExists(dist)
            },
            (DistPhase::CheckingDist, DistEvent::Exists(true)) => {
                self.had_dist = true;
                self.phase = DistPhase::MovingOldDist;
                DistAction::MoveAside { from: dist, to: backup }
            },
            (DistPhase::CheckingDist, _) => {
                self.had_dist = false;
                self.phase = DistPhase::InstallingStage;
                DistAction::Install { from: stage, to: dist }
            },
            (DistPhase::MovingOldDist, DistEvent::Failed(err)) => {
                let mut m = lit("Failed to prepare dist/ replacement: ");
                append_str(&mut m, DIST_HELD_HINT);
                append_str(&mut m, ": ");
                append_str(&mut m, err.as_str());
                let msg = string_from_chars(&m);
                self.pending = Some(ToolFault::new(msg.as_str(), Some(dist.as_str())));
                self.phase = DistPhase::CleaningStage;
                DistAction::RemoveStage(stage)
            },
            (DistPhase::MovingOldDist, _) => {
                self.phase = DistPhase::InstallingStage;
                DistAction::Install { from: stage, to: dist }
            },
            (DistPhase::InstallingStage, DistEvent::Failed(err)) => {
                if self.had_dist {
                    self.install_error = err;
                    self.phase = DistPhase::RestoringDist;
                    DistAction::Restore { from: backup, to: dist }
                } else {
                    let msg = install_message_of(err.as_str(), None);
                    self.install_error = err;
                    self.pending = Some(ToolFault::new(msg.as_str(), Some(dist.as_str())));
                    self.phase = DistPhase::CleaningStage;
                    DistAction::RemoveStage(stage)
                }
            },
            (DistPhase::InstallingStage, _) => {
                if self.had_dist {
                    self.phase = DistPhase::RemovingBackup;
                    DistAction::RemoveBackup(backup)
                } else {
                    self.phase = DistPhase::Done;
                    DistAction::Finish(Ok(()))
                }
            },
            (DistPhase::RestoringDist, DistEvent::Failed(r)) => {
                let msg = install_message_of(self.install_error.as_str(), Some(r.as_str()));
                self.pending = Some(ToolFault::new(msg.as_str(), Some(dist.as_str())));
                self.phase = DistPhase::CleaningStage;
                DistAction::RemoveStage(stage)
            },
            (DistPhase::RestoringDist, _) => {
                let msg = install_message_of(self.install_error.as_str(), None);
                self.pending = Some(ToolFault::new(msg.as_str(), Some(dist.as_str())));
                self.phase = DistPhase::CleaningStage;
                DistAction::RemoveStage(stage)
            },
            (DistPhase::CleaningStage, DistEvent::Removed(failed)) => {
                self.phase = DistPhase::Done;
                if failed.len() == 0 {
                    DistAction::Finish(
                        match &self.pending {
                            Some(f) => Err(copy_fault(f)),
                            None => Ok(()),
                        },
                    )
                } else {
                    let name = stage_name_of(self.root_name.as_str(), self.suffix.as_str(), self.attempt);
                    DistAction::Finish(
                        remove_tree(self.root.as_str(), name.as_str(), "Failed to clean up build staging output", &failed),
                    )
                }
            },
            (DistPhase::RemovingBackup, DistEvent::Removed(failed)) => {
                self.phase = DistPhase::Done;
                let name = backup_name_of(self.root_name.as_str(), self.backup_suffix.as_str());
                DistAction::Finish(
                    remove_tree(self.root.as_str(), name.as_str(), "Failed to remove old deployment backup", &failed),
                )
            },
            _ => {
                self.phase = DistPhase::Done;
                DistAction::Finish(
                    match &self.pending {
                        Some(f) => Err(copy_fault(f)),
                        None => Ok(()),
                    },
                )
            },
        }
    }
}


// ---------------------------------------------------------------------------
// Runs of the replacement
// ---------------------------------------------------------------------------

/// Some tool fault with this view.
pub open spec fn fault_with(v: (Seq<char>, Option<Seq<char>>)) -> ToolFault {
    choose|f: ToolFault| fault_view(f) == v
}

/// The replacement after event `e` (see [`DistReplace::step`]).
pub open spec fn dist_after(m: DistReplace, e: DistEvent) -> DistReplace {
    let (p, a, pending) = dist_next(m, e);
    let retry = m.phase == DistPhase::CreatingStage && e is AlreadyExists && m.attempt + 1 < STAGE_ATTEMPTS;
    DistReplace {
        suffix: if retry {
            e->AlreadyExists_0
        } else {
            m.suffix
        },
        attempt: if retry {
            (m.attempt + 1) as usize
        } else {
            m.attempt
        },
        had_dist: if m.phase == DistPhase::CheckingDist {
            e matches DistEvent::Exists(true)
        } else {
            m.had_dist
        },
        install_error: if m.phase == DistPhase::InstallingStage && e is Failed {
            e->Failed_0
        } else {
            m.install_error
        },
        pending: match pending {
            Some(v) => Some(fault_with(v)),
            None => None,
        },
        phase: p,
        ..m
    }
}

/// The replacement `m` after the events `events`, and the actions it asked
/// for: `first`, then one per event until it is done. Event `i` answers
/// action `i`.
pub open spec fn dist_run(m: DistReplace, first: DistStep, events: Seq<DistEvent>) -> (DistReplace, Seq<DistStep>)
    decreases events.len(),
{
    if events.len() == 0 {
        (m, seq![first])
    } else {
        let (r, acts) = dist_run(m, first, events.drop_last());
        if r.phase == DistPhase::Done {
            (r, acts)
        } else {
            (dist_after(r, events.last()), acts.push(dist_next(r, events.last()).1))
        }
    }
}

/// Whether the writer's run answered by `e` succeeded.
pub open spec fn written_ok(a: DistStep, e: DistEvent) -> bool {
    a is RunWriter && !(e matches DistEvent::Written(Err(_)))
}

proof fn lemma_next_kinds(m: DistReplace, e: DistEvent)
    requires
        m.phase != DistPhase::Done,
    ensures
        ({
            let (p, a, _) = dist_next(m, e);
            &&& p == DistPhase::Writing ==> a is RunWriter
            &&& p == DistPhase::CheckingDist ==> m.phase == DistPhase::Writing && !(e matches DistEvent::Written(Err(_)))
            &&& (p == DistPhase::MovingOldDist <==> (m.phase == DistPhase::CheckingDist && e matches DistEvent::Exists(true)))
            &&& p == DistPhase::MovingOldDist ==> a is MoveAside
            &&& p == DistPhase::InstallingStage ==> a is Install && (m.phase == DistPhase::CheckingDist || (m.phase
                == DistPhase::MovingOldDist && !(e is Failed)))
            &&& a is MoveAside ==> m.phase == DistPhase::CheckingDist
            &&& a is Install ==> (m.phase == DistPhase::CheckingDist || m.phase == DistPhase::MovingOldDist)
            &&& a is RemoveBackup ==> m.phase == DistPhase::InstallingStage && !(e is Failed)
            &&& a is Restore ==> m.phase == DistPhase::InstallingStage && m.had_dist
            &&& p == DistPhase::Writing ==> m.phase == DistPhase::CreatingStage
            &&& p == DistPhase::CreatingStage ==> m.phase == DistPhase::CreatingStage
        }),
{
    reveal(dist_next);
}

proof fn lemma_run_len(m: DistReplace, first: DistStep, events: Seq<DistEvent>)
    ensures
        1 <= dist_run(m, first, events).1.len() <= events.len() + 1,
        dist_run(m, first, events).0.phase != DistPhase::Done ==> dist_run(m, first, events).1.len() == events.len()
            + 1,
        dist_run(m, first, events).1[0] == first,
    decreases events.len(),
{
    if events.len() > 0 {
        lemma_run_len(m, first, events.drop_last());
    }
}

/// The invariant behind [`law_dist_touched_only_after_stage_written`].
proof fn lemma_written_before_dist(m: DistReplace, events: Seq<DistEvent>)
    requires
        m.phase == DistPhase::CreatingStage,
    ensures
        ({
            let (r, acts) = dist_run(m, DistStep::CreateDir(stage_of(m)), events);
            &&& r.phase == DistPhase::Writing ==> acts.last() is RunWriter
            &&& (r.phase == DistPhase::CheckingDist || r.phase == DistPhase::MovingOldDist) ==> exists|j: int|
                0 <= j < acts.len() && j < events.len() && written_ok(#[trigger] acts[j], events[j])
            &&& forall|k: int|
                0 <= k < acts.len() && ((#[trigger] acts[k]) is MoveAside || acts[k] is Install) ==> exists|j: int|
                    0 <= j < k && written_ok(#[trigger] acts[j], events[j])
        }),
    decreases events.len(),
{
    let first = DistStep::CreateDir(stage_of(m));
    lemma_run_len(m, first, events);
    if events.len() > 0 {
        let prev = events.drop_last();
        lemma_written_before_dist(m, prev);
        lemma_run_len(m, first, prev);
        let (r0, a0) = dist_run(m, first, prev);
        let (r, acts) = dist_run(m, first, events);
        let e = events.last();
        if r0.phase != DistPhase::Done {
            lemma_next_kinds(r0, e);
            let n = a0.len();
            assert(acts[n - 1] == a0.last());
            assert(events[n - 1] == e);
            assert forall|k: int| 0 <= k < acts.len() && ((#[trigger] acts[k]) is MoveAside || acts[k] is Install) implies exists|j: int|
                0 <= j < k && written_ok(#[trigger] acts[j], events[j]) by {
                if k < n {
                    assert(acts[k] == a0[k]);
                    let j = choose|j: int| 0 <= j < k && written_ok(#[trigger] a0[j], prev[j]);
                    assert(acts[j] == a0[j] && events[j] == prev[j]);
                } else {
                    let j = choose|j: int| 0 <= j < a0.len() && j < prev.len() && written_ok(#[trigger] a0[j], prev[j]);
                    assert(acts[j] == a0[j] && events[j] == prev[j]);
                }
            }
            if r.phase == DistPhase::CheckingDist {
                assert(written_ok(acts[n - 1], events[n - 1]));
            } else if r.phase == DistPhase::MovingOldDist {
                let j = choose|j: int| 0 <= j < a0.len() && j < prev.len() && written_ok(#[trigger] a0[j], prev[j]);
                assert(acts[j] == a0[j] && events[j] == prev[j]);
            }
        } else {
            assert forall|k: int| 0 <= k < acts.len() && ((#[trigger] acts[k]) is MoveAside || acts[k] is Install) implies exists|j: int|
                0 <= j < k && written_ok(#[trigger] acts[j], events[j]) by {
                let j = choose|j: int| 0 <= j < k && written_ok(#[trigger] a0[j], prev[j]);
                assert(events[j] == prev[j]);
            }
        }
    }
}

/// A failed stage never touches the previous tree: in every run started
/// by [`DistReplace::new`], `dist/` is moved aside or replaced only after
/// the stage writer reported success.
pub proof fn law_dist_touched_only_after_stage_written(m: DistReplace, events: Seq<DistEvent>, k: int)
    requires
        m.phase == DistPhase::CreatingStage,
        0 <= k < dist_run(m, DistStep::CreateDir(stage_of(m)), events).1.len(),
        dist_run(m, DistStep::CreateDir(stage_of(m)), events).1[k] is MoveAside || dist_run(
            m,
            DistStep::CreateDir(stage_of(m)),
            events,
        ).1[k] is Install,
    ensures
        exists|j: int| 0 <= j < k && written_ok(#[trigger] dist_run(m, DistStep::CreateDir(stage_of(m)), events).1[j], events[j]),
{
    lemma_written_before_dist(m, events);
}

/// The invariant behind [`law_backup_removed_only_after_install`].
proof fn lemma_install_before_removal(m: DistReplace, events: Seq<DistEvent>)
    requires
        m.phase == DistPhase::CreatingStage,
    ensures
        ({
            let (r, acts) = dist_run(m, DistStep::CreateDir(stage_of(m)), events);
            &&& r.phase == DistPhase::InstallingStage ==> acts.last() is Install
            &&& forall|k: int|
                0 <= k < acts.len() && (#[trigger] acts[k]) is RemoveBackup ==> exists|j: int|
                    0 <= j < k && (#[trigger] acts[j]) is Install && !(events[j] is Failed)
        }),
    decreases events.len(),
{
    let first = DistStep::CreateDir(stage_of(m));
    lemma_run_len(m, first, events);
    if events.len() > 0 {
        let prev = events.drop_last();
        lemma_install_before_removal(m, prev);
        lemma_run_len(m, first, prev);
        let (r0, a0) = dist_run(m, first, prev);
        let (r, acts) = dist_run(m, first, events);
        let e = events.last();
        if r0.phase != DistPhase::Done {
            lemma_next_kinds(r0, e);
            let n = a0.len();
            assert(acts[n - 1] == a0.last());
            assert(events[n - 1] == e);
            assert forall|k: int| 0 <= k < acts.len() && (#[trigger] acts[k]) is RemoveBackup implies exists|j: int|
                0 <= j < k && (#[trigger] acts[j]) is Install && !(events[j] is Failed) by {
                if k < n {
                    assert(acts[k] == a0[k]);
                    let j = choose|j: int| 0 <= j < k && (#[trigger] a0[j]) is Install && !(prev[j] is Failed);
                    assert(acts[j] == a0[j] && events[j] == prev[j]);
                } else {
                    assert(acts[n - 1] is Install);
                }
            }
        } else {
            assert forall|k: int| 0 <= k < acts.len() && (#[trigger] acts[k]) is RemoveBackup implies exists|j: int|
                0 <= j < k && (#[trigger] acts[j]) is Install && !(events[j] is Failed) by {
                let j = choose|j: int| 0 <= j < k && (#[trigger] a0[j]) is Install && !(prev[j] is Failed);
                assert(events[j] == prev[j]);
            }
        }
    }
}

/// The previous tree is removed only after the new one is in place: in
/// every run, the backup is removed only after the rename of the stage
/// onto `dist/` went through.
pub proof fn law_backup_removed_only_after_install(m: DistReplace, events: Seq<DistEvent>, k: int)
    requires
        m.phase == DistPhase::CreatingStage,
        0 <= k < dist_run(m, DistStep::CreateDir(stage_of(m)), events).1.len(),
        dist_run(m, DistStep::CreateDir(stage_of(m)), events).1[k] is RemoveBackup,
    ensures
        exists|j: int|
            0 <= j < k && (#[trigger] dist_run(m, DistStep::CreateDir(stage_of(m)), events).1[j]) is Install
                && !(events[j] is Failed),
{
    lemma_install_before_removal(m, events);
}


proof fn lemma_next_phases(m: DistReplace, e: DistEvent)
    requires
        m.phase != DistPhase::Done,
    ensures
        ({
            let (p, a, _) = dist_next(m, e);
            &&& a is Install ==> p == DistPhase::InstallingStage
            &&& a is MoveAside ==> p == DistPhase::MovingOldDist
            &&& (m.phase == DistPhase::InstallingStage && e is Failed && m.had_dist) ==> a == DistStep::Restore(
                backup_of(m),
                dist_of(m),
            )
            &&& (p == DistPhase::CreatingStage || p == DistPhase::Writing || p == DistPhase::CheckingDist) ==> (
            m.phase == DistPhase::CreatingStage || m.phase == DistPhase::Writing)
        }),
{
    reveal(dist_next);
}

/// Whether the run moved the previous `dist/` aside before action `k`.
pub open spec fn moved_aside_before(acts: Seq<DistStep>, events: Seq<DistEvent>, k: int) -> bool {
    exists|j: int| 0 <= j < k && (#[trigger] acts[j]) is MoveAside && !(events[j] is Failed)
}

/// What a run keeps true for [`law_failed_install_restores_previous_dist`].
pub open spec fn restore_invariant(m: DistReplace, r: DistReplace, acts: Seq<DistStep>, events: Seq<DistEvent>) -> bool {
    &&& (r.phase == DistPhase::CreatingStage || r.phase == DistPhase::Writing || r.phase == DistPhase::CheckingDist)
        ==> forall|j: int| 0 <= j < acts.len() ==> !((#[trigger] acts[j]) is MoveAside)
    &&& r.phase == DistPhase::MovingOldDist ==> r.had_dist && acts.last() is MoveAside && forall|j: int|
        0 <= j < acts.len() - 1 ==> !((#[trigger] acts[j]) is MoveAside)
    &&& r.phase == DistPhase::InstallingStage ==> (r.had_dist <==> moved_aside_before(acts, events, acts.len() - 1))
    &&& acts.last() is Install ==> r.phase == DistPhase::InstallingStage
    &&& r.root == m.root && r.root_name == m.root_name && r.backup_suffix == m.backup_suffix
    &&& forall|k: int|
        0 <= k < acts.len() - 1 && (#[trigger] acts[k]) is Install && events[k] is Failed && moved_aside_before(
            acts,
            events,
            k,
        ) ==> acts[k + 1] == DistStep::Restore(backup_of(m), dist_of(m))
}

proof fn lemma_moved_prefix(a0: Seq<DistStep>, prev: Seq<DistEvent>, acts: Seq<DistStep>, events: Seq<DistEvent>, n: int)
    requires
        n == a0.len(),
        n <= prev.len() + 1,
        acts.len() == n + 1,
        acts.take(n) == a0,
        events.len() >= n,
        forall|j: int| 0 <= j < n - 1 ==> events[j] == prev[j],
    ensures
        forall|k: int| 0 <= k <= n - 1 ==> #[trigger] moved_aside_before(acts, events, k) == moved_aside_before(a0, prev, k),
{
    assert forall|k: int| 0 <= k <= n - 1 implies #[trigger] moved_aside_before(acts, events, k) == moved_aside_before(
        a0,
        prev,
        k,
    ) by {
        if moved_aside_before(acts, events, k) {
            let j = choose|j: int| 0 <= j < k && (#[trigger] acts[j]) is MoveAside && !(events[j] is Failed);
            assert(acts.take(n)[j] == acts[j]);
            assert(a0[j] == acts[j] && prev[j] == events[j]);
        }
        if moved_aside_before(a0, prev, k) {
            let j = choose|j: int| 0 <= j < k && (#[trigger] a0[j]) is MoveAside && !(prev[j] is Failed);
            assert(acts.take(n)[j] == acts[j]);
            assert(a0[j] == acts[j] && prev[j] == events[j]);
        }
    }
}

/// The invariant behind [`law_failed_install_restores_previous_dist`].
#[verifier::rlimit(40)]
proof fn lemma_restore_after_failed_install(m: DistReplace, events: Seq<DistEvent>)
    requires
        m.phase == DistPhase::CreatingStage,
    ensures
        ({
            let (r, acts) = dist_run(m, DistStep::CreateDir(stage_of(m)), events);
            restore_invariant(m, r, acts, events)
        }),
    decreases events.len(),
{
    let first = DistStep::CreateDir(stage_of(m));
    lemma_run_len(m, first, events);
    if events.len() == 0 {
        assert(dist_run(m, first, events).1 == seq![first]);
    } else {
        let prev = events.drop_last();
        lemma_restore_after_failed_install(m, prev);
        lemma_run_len(m, first, prev);
        let (r0, a0) = dist_run(m, first, prev);
        let (r, acts) = dist_run(m, first, events);
        let e = events.last();
        if r0.phase != DistPhase::Done {
            lemma_next_kinds(r0, e);
            lemma_next_phases(r0, e);
            let n = a0.len() as int;
            let a = dist_next(r0, e).1;
            assert(acts == a0.push(a));
            assert(acts.take(n) =~= a0);
            assert(acts[n - 1] == a0.last());
            assert(events[n - 1] == e);
            assert forall|j: int| 0 <= j < n - 1 implies events[j] == prev[j] by {}
            lemma_moved_prefix(a0, prev, acts, events, n);
            if r.phase == DistPhase::InstallingStage {
                if r0.phase == DistPhase::MovingOldDist {
                    assert(acts[n - 1] is MoveAside && !(events[n - 1] is Failed));
                    assert(moved_aside_before(acts, events, n));
                } else if r0.phase == DistPhase::CheckingDist {
                    assert(!r.had_dist);
                    if moved_aside_before(acts, events, n) {
                        let j = choose|j: int| 0 <= j < n && (#[trigger] acts[j]) is MoveAside && !(events[j] is Failed);
                        assert(acts[j] == a0[j]);
                    }
                }
            }
            assert forall|k: int|
                0 <= k < acts.len() - 1 && (#[trigger] acts[k]) is Install && events[k] is Failed && moved_aside_before(
                    acts,
                    events,
                    k,
                ) implies acts[k + 1] == DistStep::Restore(backup_of(m), dist_of(m)) by {
                if k < n - 1 {
                    assert(acts[k] == a0[k] && events[k] == prev[k] && acts[k + 1] == a0[k + 1]);
                } else {
                    assert(a0.last() is Install);
                    assert(r0.phase == DistPhase::InstallingStage);
                    assert(r0.had_dist);
                }
            }
        } else {
            assert forall|k: int|
                0 <= k < acts.len() - 1 && (#[trigger] acts[k]) is Install && events[k] is Failed && moved_aside_before(
                    acts,
                    events,
                    k,
                ) implies acts[k + 1] == DistStep::Restore(backup_of(m), dist_of(m)) by {
                assert(events[k] == prev[k]);
                if moved_aside_before(acts, events, k) {
                    let j = choose|j: int| 0 <= j < k && (#[trigger] acts[j]) is MoveAside && !(events[j] is Failed);
                    assert(events[j] == prev[j]);
                }
            }
            if r.phase == DistPhase::InstallingStage {
                assert forall|k: int| 0 <= k <= acts.len() - 1 implies #[trigger] moved_aside_before(acts, events, k)
                    == moved_aside_before(acts, prev, k) by {
                    if moved_aside_before(acts, events, k) {
                        let j = choose|j: int| 0 <= j < k && (#[trigger] acts[j]) is MoveAside && !(events[j] is Failed);
                        assert(events[j] == prev[j]);
                    }
                    if moved_aside_before(acts, prev, k) {
                        let j = choose|j: int| 0 <= j < k && (#[trigger] acts[j]) is MoveAside && !(prev[j] is Failed);
                        assert(events[j] == prev[j]);
                    }
                }
            }
        }
    }
}

/// A failed install restores what was moved aside: in every run started by
/// [`DistReplace::new`], when the rename of the stage onto `dist/` fails
/// after the previous `dist/` was moved aside, the next action renames the
/// previous tree back.
pub proof fn law_failed_install_restores_previous_dist(m: DistReplace, events: Seq<DistEvent>, k: int)
    requires
        m.phase == DistPhase::CreatingStage,
        0 <= k < dist_run(m, DistStep::CreateDir(stage_of(m)), events).1.len() - 1,
        dist_run(m, DistStep::CreateDir(stage_of(m)), events).1[k] is Install,
        events[k] is Failed,
        moved_aside_before(dist_run(m, DistStep::CreateDir(stage_of(m)), events).1, events, k),
    ensures
        dist_run(m, DistStep::CreateDir(stage_of(m)), events).1[k + 1] == DistStep::Restore(backup_of(m), dist_of(m)),
{
    lemma_restore_after_failed_install(m, events);
}

} // verus!
