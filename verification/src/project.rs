//! The project tree as plain data: every regular file below the project root
//! with its project-relative path, its text (or why it could not be read), and
//! where its canonical location lies.
//!
//! File lookups go by normal components: `..` steps are resolved lexically and
//! never leave the root.

use vstd::prelude::*;
use vstd::utf8::encode_utf8;

use crate::diagnostics::{join, join_with_slash, views};
use crate::layout::walk;
use crate::text::{chars_eq, chars_of};

verus! {

/// One regular file of the project.
#[derive(Debug, PartialEq, Eq)]
pub struct ProjectFile {
    /// Project-relative path with `/` separators.
    pub path: String,
    /// The file's text, or the message of the error that reading it gave.
    pub content: Result<String, String>,
    /// The project-relative path of the file's canonical location (symbolic
    /// links resolved), or `None` when that location lies outside the root.
    pub canonical: Option<String>,
}

/// The regular files of a project.
#[derive(Debug, PartialEq, Eq)]
pub struct ProjectTree {
    pub files: Vec<ProjectFile>,
}

/// Every readable file's text is small enough that byte offsets, lines and
/// columns in it fit in `usize`.
pub open spec fn texts_fit(files: Seq<ProjectFile>) -> bool {
    forall|i: int|
        0 <= i < files.len() ==> match #[trigger] files[i].content {
            Ok(t) => encode_utf8(t@).len() < usize::MAX && 4 * t@.len() + 2 <= usize::MAX,
            Err(_) => true,
        }
}

/// Index of the file with path `p`, or `-1`.
pub open spec fn file_index(files: Seq<ProjectFile>, p: Seq<char>) -> int
    decreases files.len(),
{
    if files.len() == 0 {
        -1
    } else if files.last().path@ == p {
        files.len() - 1
    } else {
        file_index(files.drop_last(), p)
    }
}

/// The path a component list names, `..` resolved lexically.
pub open spec fn lookup_key(comps: Seq<Seq<char>>) -> Seq<char> {
    join(walk(seq![], comps), seq!['/'])
}

/// Whether a file exists at the given components.
pub open spec fn file_exists(files: Seq<ProjectFile>, comps: Seq<Seq<char>>) -> bool {
    file_index(files, lookup_key(comps)) >= 0
}

pub proof fn lemma_file_index_range(files: Seq<ProjectFile>, p: Seq<char>)
    ensures
        -1 <= file_index(files, p) < files.len(),
        file_index(files, p) >= 0 ==> files[file_index(files, p)].path@ == p,
    decreases files.len(),
{
    if files.len() > 0 && files.last().path@ != p {
        lemma_file_index_range(files.drop_last(), p);
    }
}

impl ProjectTree {
    pub fn new(files: Vec<ProjectFile>) -> (r: Self)
        ensures
            r.files@ == files@,
    {
        ProjectTree { files }
    }

    /// Index of the file at path `p` (see [`file_index`]).
    pub fn index_of(&self, p: &Vec<char>) -> (r: Option<usize>)
        ensures
            match r {
                Some(i) => i as int == file_index(self.files@, p@),
                None => file_index(self.files@, p@) == -1,
            },
    {
        let mut i = self.files.len();
        assert(self.files@.take(i as int) == self.files@);
        while i > 0
            invariant
                i <= self.files@.len(),
                file_index(self.files@, p@) == file_index(self.files@.take(i as int), p@),
            decreases i,
        {
            assert(self.files@.take(i as int).drop_last() == self.files@.take(i - 1));
            let path = chars_of(self.files[i - 1].path.as_str());
            if chars_eq(&path, p) {
                return Some(i - 1);
            }
            i = i - 1;
        }
        None
    }

    /// Index of the file at the given components (see [`file_exists`]).
    pub fn find(&self, comps: &Vec<Vec<char>>) -> (r: Option<usize>)
        ensures
            match r {
                Some(i) => i as int == file_index(self.files@, lookup_key(views(comps@))),
                None => file_index(self.files@, lookup_key(views(comps@))) == -1,
            },
    {
        let mut stack: Vec<Vec<char>> = Vec::new();
        assert(views(stack@) =~= seq![]);
        crate::layout::walk_components(&mut stack, comps);
        let key = join_with_slash(&stack);
        self.index_of(&key)
    }

    /// Whether a file exists at the given components.
    pub fn has_file(&self, comps: &Vec<Vec<char>>) -> (r: bool)
        ensures
            r == file_exists(self.files@, views(comps@)),
    {
        self.find(comps).is_some()
    }
}

} // verus!
