use vstd::prelude::*;
use crate::directory::Directory;

verus! {

/// What a check found for one descriptor.
#[derive(Debug, Clone, Copy, PartialEq, Eq)]
pub enum Status<'a> {
    Exists(Directory<'a>),
    Missing(Directory<'a>),
}

impl<'a> Status<'a> {
    /// The descriptor that was checked.
    pub open spec fn dir(self) -> Directory<'a> {
        match self {
            Status::Exists(d) => d,
            Status::Missing(d) => d,
        }
    }

    /// The descriptor that was checked, whatever the outcome.
    pub fn directory(&self) -> (r: Directory<'a>)
        ensures
            r == self.dir(),
    {
        match self {
            Status::Exists(d) => *d,
            Status::Missing(d) => *d,
        }
    }

    /// Whether the check found the directory missing.
    pub fn is_missing(&self) -> (r: bool)
        ensures
            r == (*self is Missing),
    {
        match self {
            Status::Exists(_) => false,
            Status::Missing(_) => true,
        }
    }
}

/// The outcome for one descriptor, given whether its path exists.
pub open spec fn classify(d: Directory, exists: bool) -> Status {
    if exists {
        Status::Exists(d)
    } else {
        Status::Missing(d)
    }
}

/// The outcome for each descriptor, in the order of the descriptors.
pub open spec fn checked<'a>(paths: Seq<Directory<'a>>, exists: Seq<bool>) -> Seq<Status<'a>> {
    Seq::new(paths.len(), |i: int| classify(paths[i], exists[i]))
}

/// Classifies each descriptor as existing or missing. `exists[i]` tells
/// whether the path of `paths[i]`, joined to the home directory, exists.
/// A missing directory is an expected outcome, not an error.
pub fn check_dirs<'a>(paths: &Vec<Directory<'a>>, exists: &Vec<bool>) -> (r: Vec<Status<'a>>)
    requires
        paths@.len() == exists@.len(),
    ensures
        r@ == checked(paths@, exists@),
{
    let mut out: Vec<Status<'a>> = Vec::new();
    let mut i: usize = 0;
    while i < paths.len()
        invariant
            paths@.len() == exists@.len(),
            i <= paths@.len(),
            out@ == checked(paths@.subrange(0, i as int), exists@.subrange(0, i as int)),
        decreases paths@.len() - i,
    {
        let d = paths[i];
        if exists[i] {
            out.push(Status::Exists(d));
        } else {
            out.push(Status::Missing(d));
        }
        i = i + 1;
        assert(out@ =~= checked(paths@.subrange(0, i as int), exists@.subrange(0, i as int)));
    }
    assert(paths@.subrange(0, i as int) =~= paths@);
    assert(exists@.subrange(0, i as int) =~= exists@);
    out
}

/// The check yields one outcome per descriptor, in the order of the
/// descriptors, each carrying its own descriptor: none is dropped, repeated
/// or moved on its way to the creation.
pub proof fn check_keeps_order<'a>(paths: Seq<Directory<'a>>, exists: Seq<bool>)
    ensures
        checked(paths, exists).len() == paths.len(),
        forall|i: int| 0 <= i < paths.len() ==> #[trigger] checked(paths, exists)[i].dir() == paths[i],
        checked(paths, exists).map_values(|s: Status<'a>| s.dir()) == paths,
{
    assert(checked(paths, exists).map_values(|s: Status<'a>| s.dir()) =~= paths);
}

/// The heading printed before the check.
pub fn check_heading() -> (r: String)
    ensures
        r@ == "<yellow>Checking directories</>"@,
{
    String::from_str("<yellow>Checking directories</>")
}

/// The status line printed for one descriptor after the check.
pub open spec fn check_line_text(s: Status) -> Seq<char> {
    match s {
        Status::Exists(d) => d.rel_path() + "<green> \u{2713}</>"@,
        Status::Missing(d) => d.rel_path() + "<red> \u{10102}</>"@,
    }
}

/// The status line for one descriptor: its path and a mark for the outcome.
pub fn check_line(s: &Status) -> (r: String)
    ensures
        r@ == check_line_text(*s),
{
    let line = String::from_str(s.directory().to_path());
    match s {
        Status::Exists(_) => line.concat("<green> \u{2713}</>"),
        Status::Missing(_) => line.concat("<red> \u{10102}</>"),
    }
}

} // verus!
