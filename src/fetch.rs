use vstd::prelude::*;

verus! {

/// The archive that is fetched.
pub const ARCHIVE_URL: &'static str = "https://github.com/lewis6991/gitsigns.nvim/archive/refs/heads/main.tar.gz";

/// The prefix of the name of the temporary directory that receives it.
pub const CACHE_PREFIX: &'static str = "rug-cache";

/// What follows the last `/` of a path (all of it when there is none).
pub open spec fn last_segment(p: Seq<char>) -> Seq<char>
    decreases p.len(),
{
    if p.len() == 0 {
        p
    } else if p.last() == '/' {
        Seq::empty()
    } else {
        last_segment(p.drop_last()).push(p.last())
    }
}

/// The name of the file that an archive fetched from a URL with path `path`
/// is written to: the last segment of the path, or `tmp.bin` where the path
/// has no segments (it does not start with `/`) or the last one is empty.
pub open spec fn file_name_of(path: Seq<char>) -> Seq<char> {
    if path.len() > 0 && path[0] == '/' && last_segment(path).len() > 0 {
        last_segment(path)
    } else {
        "tmp.bin"@
    }
}

proof fn lemma_last_segment(p: Seq<char>, k: int)
    requires
        0 < k <= p.len(),
        p[k - 1] == '/',
        forall|j: int| k <= j < p.len() ==> p[j] != '/',
    ensures
        last_segment(p) == p.subrange(k, p.len() as int),
    decreases p.len(),
{
    if p.len() == k {
        assert(p.subrange(k, k) =~= Seq::<char>::empty());
    } else {
        lemma_last_segment(p.drop_last(), k);
        assert(p.subrange(k, p.len() as int) =~= p.drop_last().subrange(k, p.len() - 1).push(
            p.last(),
        ));
    }
}

/// The name of the file to write an archive to, from the path of the URL
/// it was finally fetched from.
pub fn file_name_from_path(path: &str) -> (r: String)
    ensures
        r@ == file_name_of(path@),
{
    let n = path.unicode_len();
    if n == 0 || path.get_char(0) != '/' {
        return String::from_str("tmp.bin");
    }
    let mut k: usize = n;
    while k > 0 && path.get_char(k - 1) != '/'
        invariant
            n == path@.len(),
            k <= n,
            path@[0] == '/',
            forall|j: int| k <= j < n ==> path@[j] != '/',
        decreases k,
    {
        k = k - 1;
    }
    proof {
        lemma_last_segment(path@, k as int);
    }
    let segment = path.substring_char(k, n);
    if segment.unicode_len() == 0 {
        String::from_str("tmp.bin")
    } else {
        String::from_str(segment)
    }
}

} // verus!
