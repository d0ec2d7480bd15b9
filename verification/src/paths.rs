//! A string model of filesystem paths.
//!
//! Volumes and relative paths are plain strings; joining them inserts a
//! single separator, and the file name of a path is the suffix after the
//! last separator.

use vstd::prelude::*;
use vstd::string::*;

verus! {

/// The path obtained by placing `rel` under the directory `base`.
pub open spec fn join_view(base: Seq<char>, rel: Seq<char>) -> Seq<char> {
    base + seq!['/'] + rel
}

/// The file name of a path: the suffix after the last `/`
/// (the whole path when it holds no `/`).
pub open spec fn file_name_view(s: Seq<char>) -> Seq<char>
    decreases s.len(),
{
    if s.len() == 0 {
        s
    } else if s.last() == '/' {
        Seq::empty()
    } else {
        file_name_view(s.drop_last()).push(s.last())
    }
}

/// Join a volume root and a relative path with a single separator.
pub fn join_path(base: &str, rel: &str) -> (r: String)
    ensures
        r@ == join_view(base@, rel@),
{
    proof {
        reveal_strlit("/");
    }
    let r = String::from_str(base).concat("/").concat(rel);
    proof {
        assert(r@ =~= join_view(base@, rel@));
    }
    r
}

/// Two joins of one relative path agree only when the roots agree, so a
/// placed path lies under exactly one volume root.
pub proof fn lemma_join_left_injective(a: Seq<char>, b: Seq<char>, rel: Seq<char>)
    requires
        join_view(a, rel) == join_view(b, rel),
    ensures
        a == b,
{
    assert(join_view(a, rel).len() == a.len() + 1 + rel.len());
    assert(join_view(b, rel).len() == b.len() + 1 + rel.len());
    assert(a.len() == b.len());
    assert forall|i: int| 0 <= i < a.len() implies a[i] == b[i] by {
        assert(join_view(a, rel)[i] == a[i]);
        assert(join_view(b, rel)[i] == b[i]);
    }
    assert(a =~= b);
}

proof fn lemma_file_name_is_suffix(s: Seq<char>, k: int)
    requires
        0 <= k <= s.len(),
        forall|j: int| k <= j < s.len() ==> s[j] != '/',
        k == 0 || s[k - 1] == '/',
    ensures
        file_name_view(s) == s.subrange(k, s.len() as int),
    decreases s.len(),
{
    if s.len() == k {
        if k == 0 {
            assert(s.subrange(0, 0) =~= s);
        } else {
            assert(s.last() == '/');
            assert(s.subrange(k, s.len() as int) =~= Seq::<char>::empty());
        }
    } else {
        let t = s.drop_last();
        assert(s.last() != '/');
        lemma_file_name_is_suffix(t, k);
        assert(s.subrange(k, s.len() as int) =~= t.subrange(k, t.len() as int).push(s.last()));
    }
}

/// The file name of `path`: everything after the last `/`.
pub fn file_name_of(path: &str) -> (r: String)
    ensures
        r@ == file_name_view(path@),
{
    let len = path.unicode_len();
    let mut i: usize = 0;
    let mut start: usize = 0;
    while i < len
        invariant
            len == path@.len(),
            0 <= start <= i <= len,
            start == 0 || path@[start - 1] == '/',
            forall|j: int| start <= j < i ==> path@[j] != '/',
        decreases len - i,
    {
        if path.get_char(i) == '/' {
            start = i + 1;
        }
        i += 1;
    }
    let name = path.substring_char(start, len);
    proof {
        lemma_file_name_is_suffix(path@, start as int);
    }
    String::from_str(name)
}

} // verus!
