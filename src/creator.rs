use vstd::prelude::*;
use crate::directory::Directory;
use crate::checker::Status;

verus! {

/// The descriptors that a check found missing, in the order of the check.
pub open spec fn missing_dirs<'a>(s: Seq<Status<'a>>) -> Seq<Directory<'a>>
    decreases s.len(),
{
    if s.len() == 0 {
        Seq::empty()
    } else {
        let rest = missing_dirs(s.drop_last());
        if s.last() is Missing {
            rest.push(s.last().dir())
        } else {
            rest
        }
    }
}

/// Every descriptor that went through a check, in the order of the check,
/// whether it existed or not.
pub fn create_dirs<'a>(validated: &Vec<Status<'a>>) -> (r: Vec<Directory<'a>>)
    ensures
        r@.len() == validated@.len(),
        forall|i: int| 0 <= i < r@.len() ==> r@[i] == #[trigger] validated@[i].dir(),
{
    let mut out: Vec<Directory<'a>> = Vec::new();
    let mut i: usize = 0;
    while i < validated.len()
        invariant
            i <= validated@.len(),
            out@.len() == i,
            forall|j: int| 0 <= j < i ==> out@[j] == #[trigger] validated@[j].dir(),
        decreases validated@.len() - i,
    {
        out.push(validated[i].directory());
        i = i + 1;
    }
    out
}

/// The directories to create: those that the check found missing, each
/// once for each time it was checked, in the order of the check. Each is a
/// single level below its parent; nothing is created recursively.
pub fn dirs_to_create<'a>(validated: &Vec<Status<'a>>) -> (r: Vec<Directory<'a>>)
    ensures
        r@ == missing_dirs(validated@),
{
    let mut out: Vec<Directory<'a>> = Vec::new();
    let mut i: usize = 0;
    while i < validated.len()
        invariant
            i <= validated@.len(),
            out@ == missing_dirs(validated@.subrange(0, i as int)),
        decreases validated@.len() - i,
    {
        let s = validated[i];
        if s.is_missing() {
            out.push(s.directory());
        }
        assert(validated@.subrange(0, i + 1).drop_last() =~= validated@.subrange(0, i as int));
        i = i + 1;
    }
    assert(validated@.subrange(0, i as int) =~= validated@);
    out
}

/// The heading printed before the creation.
pub fn create_heading() -> (r: String)
    ensures
        r@ == "<yellow>Creating directories</>"@,
{
    String::from_str("<yellow>Creating directories</>")
}

/// The line printed for one descriptor during the creation.
pub open spec fn create_line_text(s: Status) -> Seq<char> {
    match s {
        Status::Exists(d) => d.rel_path() + " <yellow>SKIPPED</>"@,
        Status::Missing(d) => d.rel_path() + " <green>CREATED</>"@,
    }
}

/// The line for one descriptor: its path, and whether it is skipped because
/// it exists or created because it is missing.
pub fn create_line(s: &Status) -> (r: String)
    ensures
        r@ == create_line_text(*s),
{
    let line = String::from_str(s.directory().to_path());
    match s {
        Status::Exists(_) => line.concat(" <yellow>SKIPPED</>"),
        Status::Missing(_) => line.concat(" <green>CREATED</>"),
    }
}

} // verus!
