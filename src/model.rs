//! A model of the part of the filesystem under the home directory: the set of
//! relative paths that exist. The empty path is the home directory itself,
//! which always exists. Paths are written without `.` or `..` components and
//! without a trailing `/`, so two paths name one directory exactly where they
//! are equal.
use vstd::prelude::*;
use crate::directory::Directory;
use crate::checker::{checked, Status};
use crate::creator::missing_dirs;

verus! {

/// Whether the directory at relative path `p` exists.
pub open spec fn has_dir(present: Set<Seq<char>>, p: Seq<char>) -> bool {
    p.len() == 0 || present.contains(p)
}

/// The relative path of the directory that holds `p`: everything before the
/// last `/`, or the home directory where there is none.
pub open spec fn parent(p: Seq<char>) -> Seq<char>
    decreases p.len(),
{
    if p.len() == 0 {
        p
    } else if p.last() == '/' {
        p.drop_last()
    } else {
        parent(p.drop_last())
    }
}

/// What probing each descriptor's path reports.
pub open spec fn probed(paths: Seq<Directory>, present: Set<Seq<char>>) -> Seq<bool> {
    Seq::new(paths.len(), |i: int| has_dir(present, paths[i].rel_path()))
}

/// The relative paths that a creation stage creates, in order.
pub open spec fn plan_paths(s: Seq<Status>) -> Seq<Seq<char>> {
    missing_dirs(s).map_values(|d: Directory| d.rel_path())
}

/// The existing paths after creating each path of `plan` in turn, one level
/// each: a creation succeeds where the parent exists at that moment, and
/// changes nothing otherwise.
pub open spec fn after_creating(present: Set<Seq<char>>, plan: Seq<Seq<char>>) -> Set<Seq<char>>
    decreases plan.len(),
{
    if plan.len() == 0 {
        present
    } else {
        let before = after_creating(present, plan.drop_last());
        if has_dir(before, parent(plan.last())) {
            before.insert(plan.last())
        } else {
            before
        }
    }
}

proof fn lemma_after_creating_bounds(present: Set<Seq<char>>, plan: Seq<Seq<char>>)
    ensures
        forall|p: Seq<char>| present.contains(p) ==> after_creating(present, plan).contains(p),
        forall|p: Seq<char>|
            after_creating(present, plan).contains(p) ==> present.contains(p) || plan.contains(p),
    decreases plan.len(),
{
    if plan.len() > 0 {
        lemma_after_creating_bounds(present, plan.drop_last());
        assert forall|p: Seq<char>| after_creating(present, plan).contains(p) implies present.contains(p)
            || plan.contains(p) by {
            if after_creating(present, plan.drop_last()).contains(p) && !present.contains(p) {
                let k = choose|k: int| 0 <= k < plan.drop_last().len() && plan.drop_last()[k] == p;
                assert(plan[k] == p);
            } else if !present.contains(p) {
                assert(plan[plan.len() - 1] == p);
            }
        }
    }
}

proof fn lemma_after_creating_prefix(present: Set<Seq<char>>, plan: Seq<Seq<char>>, j: int)
    requires
        0 <= j <= plan.len(),
    ensures
        forall|p: Seq<char>|
            after_creating(present, plan.subrange(0, j)).contains(p) ==> after_creating(
                present,
                plan,
            ).contains(p),
    decreases plan.len(),
{
    if j < plan.len() {
        lemma_after_creating_prefix(present, plan.drop_last(), j);
        assert(plan.drop_last().subrange(0, j) =~= plan.subrange(0, j));
        assert forall|p: Seq<char>|
            after_creating(present, plan.drop_last()).contains(p) implies after_creating(
            present,
            plan,
        ).contains(p) by {}
    } else {
        assert(plan.subrange(0, j) =~= plan);
    }
}

proof fn lemma_missing_dirs_contents<'a>(s: Seq<Status<'a>>)
    ensures
        forall|d: Directory<'a>|
            missing_dirs(s).contains(d) <==> exists|i: int|
                0 <= i < s.len() && #[trigger] s[i] == Status::Missing(d),
    decreases s.len(),
{
    if s.len() > 0 {
        lemma_missing_dirs_contents(s.drop_last());
        assert forall|d: Directory<'a>|
            missing_dirs(s).contains(d) <==> exists|i: int|
                0 <= i < s.len() && #[trigger] s[i] == Status::Missing(d) by {
            let rest = missing_dirs(s.drop_last());
            if missing_dirs(s).contains(d) {
                if rest.contains(d) {
                    let i = choose|i: int|
                        0 <= i < s.drop_last().len() && #[trigger] s.drop_last()[i] == Status::Missing(d);
                    assert(s[i] == Status::Missing(d));
                } else {
                    assert(s[s.len() - 1] == Status::Missing(d));
                }
            }
            if exists|i: int| 0 <= i < s.len() && #[trigger] s[i] == Status::Missing(d) {
                let i = choose|i: int| 0 <= i < s.len() && #[trigger] s[i] == Status::Missing(d);
                if i < s.len() - 1 {
                    assert(s.drop_last()[i] == Status::Missing(d));
                    assert(rest.contains(d));
                    let k = choose|k: int| 0 <= k < rest.len() && rest[k] == d;
                    if s.last() is Missing {
                        assert(missing_dirs(s)[k] == d);
                    } else {
                        assert(missing_dirs(s)[k] == d);
                    }
                } else {
                    assert(missing_dirs(s)[missing_dirs(s).len() - 1] == d);
                }
            }
        }
    }
}

/// A path is in the creation plan exactly where some descriptor with that
/// path was found missing.
proof fn lemma_plan_paths_contents(s: Seq<Status>, p: Seq<char>)
    ensures
        plan_paths(s).contains(p) <==> exists|i: int|
            0 <= i < s.len() && s[i] is Missing && #[trigger] s[i].dir().rel_path() == p,
{
    lemma_missing_dirs_contents(s);
    let m = missing_dirs(s);
    if plan_paths(s).contains(p) {
        let k = choose|k: int| 0 <= k < plan_paths(s).len() && plan_paths(s)[k] == p;
        assert(m.contains(m[k]));
        let i = choose|i: int| 0 <= i < s.len() && #[trigger] s[i] == Status::Missing(m[k]);
        assert(s[i].dir().rel_path() == p);
    }
    if exists|i: int| 0 <= i < s.len() && s[i] is Missing && #[trigger] s[i].dir().rel_path() == p {
        let i = choose|i: int|
            0 <= i < s.len() && s[i] is Missing && #[trigger] s[i].dir().rel_path() == p;
        let d = s[i].dir();
        assert(s[i] == Status::Missing(d));
        assert(m.contains(d));
        let k = choose|k: int| 0 <= k < m.len() && m[k] == d;
        assert(plan_paths(s)[k] == p);
    }
}

proof fn lemma_plan_push(s: Seq<Status>)
    requires
        s.len() > 0,
    ensures
        plan_paths(s) == (if s.last() is Missing {
            plan_paths(s.drop_last()).push(s.last().dir().rel_path())
        } else {
            plan_paths(s.drop_last())
        }),
{
    if s.last() is Missing {
        assert(plan_paths(s) =~= plan_paths(s.drop_last()).push(s.last().dir().rel_path()));
    } else {
        assert(plan_paths(s) =~= plan_paths(s.drop_last()));
    }
}

/// The plan of a prefix of a check is a prefix of the plan of the check.
proof fn lemma_plan_prefix(s: Seq<Status>, a: int)
    requires
        0 <= a <= s.len(),
    ensures
        plan_paths(s.subrange(0, a)).len() <= plan_paths(s).len(),
        plan_paths(s.subrange(0, a)) == plan_paths(s).subrange(
            0,
            plan_paths(s.subrange(0, a)).len() as int,
        ),
    decreases s.len(),
{
    if a == s.len() {
        assert(s.subrange(0, a) =~= s);
        assert(plan_paths(s).subrange(0, plan_paths(s).len() as int) =~= plan_paths(s));
    } else {
        lemma_plan_prefix(s.drop_last(), a);
        assert(s.drop_last().subrange(0, a) =~= s.subrange(0, a));
        lemma_plan_push(s);
        let n = plan_paths(s.subrange(0, a)).len() as int;
        assert(plan_paths(s).subrange(0, n) =~= plan_paths(s.drop_last()).subrange(0, n));
    }
}

/// A path created by the first `a` steps of a run is still there at the end.
proof fn lemma_kept_to_end(present: Set<Seq<char>>, s: Seq<Status>, a: int, p: Seq<char>)
    requires
        0 <= a <= s.len(),
        has_dir(after_creating(present, plan_paths(s.subrange(0, a))), p),
    ensures
        has_dir(after_creating(present, plan_paths(s)), p),
{
    lemma_plan_prefix(s, a);
    lemma_after_creating_prefix(present, plan_paths(s), plan_paths(s.subrange(0, a)).len() as int);
}

/// Whether the path of each descriptor exists before the run, or its parent
/// does, or its parent is the path of an earlier descriptor.
pub open spec fn creatable(paths: Seq<Directory>, present: Set<Seq<char>>) -> bool {
    forall|i: int|
        0 <= i < paths.len() ==> {
            ||| has_dir(present, #[trigger] paths[i].rel_path())
            ||| has_dir(present, parent(paths[i].rel_path()))
            ||| exists|j: int| 0 <= j < i && paths[j].rel_path() == parent(paths[i].rel_path())
        }
}

proof fn lemma_each_created(paths: Seq<Directory>, present: Set<Seq<char>>, i: int)
    requires
        creatable(paths, present),
        0 <= i < paths.len(),
    ensures
        has_dir(
            after_creating(present, plan_paths(checked(paths, probed(paths, present)).subrange(0, i + 1))),
            paths[i].rel_path(),
        ),
    decreases i,
{
    let s = checked(paths, probed(paths, present));
    let p = paths[i].rel_path();
    let pre = plan_paths(s.subrange(0, i));
    assert(s.subrange(0, i + 1).drop_last() =~= s.subrange(0, i));
    lemma_plan_push(s.subrange(0, i + 1));
    lemma_after_creating_bounds(present, plan_paths(s.subrange(0, i + 1)));
    if !has_dir(present, p) {
        assert(s[i] == Status::Missing(paths[i]));
        lemma_after_creating_bounds(present, pre);
        if !has_dir(present, parent(p)) {
            let j = choose|j: int| 0 <= j < i && paths[j].rel_path() == parent(p);
            lemma_each_created(paths, present, j);
            assert(s.subrange(0, i).subrange(0, j + 1) =~= s.subrange(0, j + 1));
            lemma_kept_to_end(present, s.subrange(0, i), j + 1, parent(p));
        }
        assert(has_dir(after_creating(present, pre), parent(p)));
        assert(pre.push(p).drop_last() =~= pre);
        assert(plan_paths(s.subrange(0, i + 1)) == pre.push(p));
    }
}

/// Checking then creating: every descriptor whose path exists is classified
/// as existing and is not among the paths to create, so the creation leaves
/// it as it is; it removes nothing; and where every path exists it creates
/// nothing at all.
pub proof fn existing_dirs_left_alone(paths: Seq<Directory>, present: Set<Seq<char>>)
    ensures
        ({
            let s = checked(paths, probed(paths, present));
            &&& forall|i: int|
                0 <= i < paths.len() && has_dir(present, #[trigger] paths[i].rel_path()) ==> {
                    &&& s[i] is Exists
                    &&& !plan_paths(s).contains(paths[i].rel_path())
                }
            &&& forall|p: Seq<char>|
                present.contains(p) ==> after_creating(present, plan_paths(s)).contains(p)
            &&& (forall|i: int|
                0 <= i < paths.len() ==> has_dir(present, #[trigger] paths[i].rel_path()))
                ==> plan_paths(s).len() == 0 && after_creating(present, plan_paths(s)) == present
        }),
{
    let s = checked(paths, probed(paths, present));
    lemma_after_creating_bounds(present, plan_paths(s));
    assert forall|i: int|
        0 <= i < paths.len() && has_dir(present, #[trigger] paths[i].rel_path()) implies {
        &&& s[i] is Exists
        &&& !plan_paths(s).contains(paths[i].rel_path())
    } by {
        lemma_plan_paths_contents(s, paths[i].rel_path());
    }
    if forall|i: int| 0 <= i < paths.len() ==> has_dir(present, #[trigger] paths[i].rel_path()) {
        if plan_paths(s).len() > 0 {
            let p = plan_paths(s)[0];
            lemma_plan_paths_contents(s, p);
            let i = choose|i: int|
                0 <= i < s.len() && s[i] is Missing && #[trigger] s[i].dir().rel_path() == p;
            assert(has_dir(present, paths[i].rel_path()));
        }
    }
}

/// Checking then creating: every descriptor whose path is missing is
/// classified as missing and is among the paths to create; it exists after
/// the creation where its parent exists before, or is created earlier in
/// the same run.
pub proof fn missing_dirs_get_created(paths: Seq<Directory>, present: Set<Seq<char>>)
    ensures
        ({
            let s = checked(paths, probed(paths, present));
            forall|i: int|
                0 <= i < paths.len() && !has_dir(present, #[trigger] paths[i].rel_path()) ==> {
                    &&& s[i] is Missing
                    &&& plan_paths(s).contains(paths[i].rel_path())
                    &&& creatable(paths, present) ==> after_creating(
                        present,
                        plan_paths(s),
                    ).contains(paths[i].rel_path())
                }
        }),
{
    let s = checked(paths, probed(paths, present));
    assert forall|i: int|
        0 <= i < paths.len() && !has_dir(present, #[trigger] paths[i].rel_path()) implies {
        &&& s[i] is Missing
        &&& plan_paths(s).contains(paths[i].rel_path())
        &&& creatable(paths, present) ==> after_creating(present, plan_paths(s)).contains(
            paths[i].rel_path(),
        )
    } by {
        lemma_plan_paths_contents(s, paths[i].rel_path());
        if creatable(paths, present) {
            lemma_each_created(paths, present, i);
            lemma_kept_to_end(present, s, i + 1, paths[i].rel_path());
        }
    }
}

/// Checking then creating twice: where every path can be created, the
/// second check finds every descriptor existing, and the second creation
/// creates nothing.
pub proof fn check_then_create_is_idempotent(paths: Seq<Directory>, present: Set<Seq<char>>)
    requires
        creatable(paths, present),
    ensures
        ({
            let after = after_creating(present, plan_paths(checked(paths, probed(paths, present))));
            let again = checked(paths, probed(paths, after));
            &&& forall|i: int| 0 <= i < paths.len() ==> #[trigger] again[i] is Exists
            &&& plan_paths(again).len() == 0
            &&& after_creating(after, plan_paths(again)) == after
        }),
{
    let s = checked(paths, probed(paths, present));
    let after = after_creating(present, plan_paths(s));
    lemma_after_creating_bounds(present, plan_paths(s));
    missing_dirs_get_created(paths, present);
    assert forall|i: int| 0 <= i < paths.len() implies has_dir(after, #[trigger] paths[i].rel_path()) by {}
    existing_dirs_left_alone(paths, after);
}

} // verus!
