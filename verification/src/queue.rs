//! Path arithmetic of the wallpaper queue: resources relative to the
//! library root they were scanned from.

use vstd::prelude::*;

verus! {

/// `s` without its trailing '/' characters.
pub open spec fn trim_end_slashes(s: Seq<char>) -> Seq<char>
    decreases s.len(),
{
    if s.len() > 0 && s.last() == '/' {
        trim_end_slashes(s.drop_last())
    } else {
        s
    }
}

/// `s` without its leading '/' characters.
pub open spec fn trim_start_slashes(s: Seq<char>) -> Seq<char>
    decreases s.len(),
{
    if s.len() > 0 && s[0] == '/' {
        trim_start_slashes(s.drop_first())
    } else {
        s
    }
}

/// `prefix` is where `s` starts.
pub open spec fn starts_with(s: Seq<char>, prefix: Seq<char>) -> bool {
    prefix.len() <= s.len() && s.subrange(0, prefix.len() as int) == prefix
}

/// `resource` lies under the directory `root` (given without trailing
/// slashes): `root` starts it and ends there at a path boundary, that is
/// the root is empty, or `resource` ends right after it, or a '/' follows.
pub open spec fn under_dir(resource: Seq<char>, root: Seq<char>) -> bool {
    &&& starts_with(resource, root)
    &&& (root.len() == 0 || resource.len() == root.len() || resource[root.len() as int] == '/')
}

/// The remainder of `resource` under `library_root`: the library root is
/// taken without trailing slashes, `resource` must lie under it as a
/// directory, and the rest loses its leading slashes. `None` when `resource`
/// is outside the root, a sibling whose name merely begins with the root's
/// last component included.
pub open spec fn relative_path(library_root: Seq<char>, resource: Seq<char>) -> Option<Seq<char>> {
    let root = trim_end_slashes(library_root);
    if under_dir(resource, root) {
        Some(trim_start_slashes(resource.subrange(root.len() as int, resource.len() as int)))
    } else {
        None
    }
}

/// Strips `library_root` from `resource` and returns the path remainder.
/// Returns `None` when `resource` is outside `library_root`.
pub fn relative_under_root(library_root: &str, resource: &str) -> (r: Option<String>)
    ensures
        match r {
            Some(rest) => relative_path(library_root@, resource@) == Some(rest@),
            None => relative_path(library_root@, resource@) is None,
        },
{
    let root_len = library_root.unicode_len();
    let res_len = resource.unicode_len();
    let mut end: usize = root_len;
    assert(library_root@.subrange(0, root_len as int) =~= library_root@);
    while end > 0 && library_root.get_char(end - 1) == '/'
        invariant
            end <= root_len,
            root_len == library_root@.len(),
            trim_end_slashes(library_root@) == trim_end_slashes(library_root@.subrange(0, end as int)),
        decreases end,
    {
        assert(library_root@.subrange(0, end as int).drop_last() =~= library_root@.subrange(0, end - 1));
        end = end - 1;
    }
    let ghost root = library_root@.subrange(0, end as int);
    assert(trim_end_slashes(library_root@) == root);
    if end > res_len {
        return None;
    }
    let mut k: usize = 0;
    while k < end
        invariant
            k <= end,
            end <= res_len,
            end <= root_len,
            res_len == resource@.len(),
            root_len == library_root@.len(),
            forall|m: int| 0 <= m < k ==> library_root@[m] == resource@[m],
            root == library_root@.subrange(0, end as int),
            trim_end_slashes(library_root@) == root,
        decreases end - k,
    {
        if library_root.get_char(k) != resource.get_char(k) {
            assert(resource@.subrange(0, end as int)[k as int] != root[k as int]);
            assert(resource@.subrange(0, end as int) != root);
            return None;
        }
        k = k + 1;
    }
    assert(resource@.subrange(0, end as int) =~= root);
    if end > 0 && end < res_len && resource.get_char(end) != '/' {
        return None;
    }
    let mut start: usize = end;
    assert(resource@.subrange(end as int, res_len as int) =~= resource@.subrange(start as int, res_len as int));
    while start < res_len && resource.get_char(start) == '/'
        invariant
            end <= start <= res_len,
            res_len == resource@.len(),
            trim_start_slashes(resource@.subrange(end as int, res_len as int))
                == trim_start_slashes(resource@.subrange(start as int, res_len as int)),
        decreases res_len - start,
    {
        assert(resource@.subrange(start as int, res_len as int).drop_first() =~= resource@.subrange(start + 1, res_len as int));
        start = start + 1;
    }
    let rest = resource.substring_char(start, res_len);
    Some(rest.to_owned())
}

/// Stripping a library root from a path joined under it gives back the
/// joined part, without its leading slashes: for any root and any `rel`,
/// the remainder of `root + "/" + rel` under `root` is `rel` trimmed.
pub proof fn lemma_relative_path_of_join(root: Seq<char>, rel: Seq<char>)
    ensures
        relative_path(root, root + seq!['/'] + rel) == Some(trim_start_slashes(rel)),
{
    let joined = root + seq!['/'] + rel;
    let t = trim_end_slashes(root);
    lemma_trim_end_is_prefix(root);
    assert(joined.subrange(0, t.len() as int) =~= t) by {
        assert forall|m: int| 0 <= m < t.len() implies joined.subrange(0, t.len() as int)[m] == t[m] by {
            assert(joined[m] == root[m]);
        }
    }
    assert(joined[t.len() as int] == '/') by {
        if t.len() < root.len() {
            assert(joined[t.len() as int] == root[t.len() as int]);
        }
    }
    let tail = joined.subrange(t.len() as int, joined.len() as int);
    lemma_trim_start_slashes_prefix(tail, (root.len() - t.len() + 1) as nat);
    assert(tail.subrange((root.len() - t.len() + 1) as int, tail.len() as int) =~= rel);
}

/// Trimming trailing slashes keeps a prefix, and what it drops is slashes.
proof fn lemma_trim_end_is_prefix(s: Seq<char>)
    ensures
        trim_end_slashes(s).len() <= s.len(),
        s.subrange(0, trim_end_slashes(s).len() as int) == trim_end_slashes(s),
        forall|m: int| trim_end_slashes(s).len() <= m < s.len() ==> s[m] == '/',
    decreases s.len(),
{
    if s.len() > 0 && s.last() == '/' {
        lemma_trim_end_is_prefix(s.drop_last());
        let t = trim_end_slashes(s);
        assert(s.subrange(0, t.len() as int) =~= s.drop_last().subrange(0, t.len() as int));
        assert forall|m: int| t.len() <= m < s.len() implies s[m] == '/' by {
            if m < s.len() - 1 {
                assert(s.drop_last()[m] == s[m]);
            }
        }
    } else {
        assert(s.subrange(0, s.len() as int) =~= s);
    }
}

/// Leading slashes, however many, disappear under `trim_start_slashes`.
proof fn lemma_trim_start_slashes_prefix(s: Seq<char>, n: nat)
    requires
        n <= s.len(),
        forall|m: int| 0 <= m < n ==> s[m] == '/',
    ensures
        trim_start_slashes(s) == trim_start_slashes(s.subrange(n as int, s.len() as int)),
    decreases n,
{
    if n == 0 {
        assert(s.subrange(0, s.len() as int) =~= s);
    } else {
        assert(s.drop_first().subrange((n - 1) as int, s.drop_first().len() as int) =~= s.subrange(n as int, s.len() as int));
        lemma_trim_start_slashes_prefix(s.drop_first(), (n - 1) as nat);
    }
}

/// `k` is the length of `root` without its trailing slashes: everything
/// from `k` on is '/', and the character before `k` is not.
pub open spec fn root_end(root: Seq<char>, k: int) -> bool {
    &&& 0 <= k <= root.len()
    &&& forall|m: int| k <= m < root.len() ==> root[m] == '/'
    &&& (k == 0 || root[k - 1] != '/')
}

/// The length of `s` without its trailing slashes is `k`.
proof fn lemma_trim_end_len(s: Seq<char>, k: int)
    requires
        root_end(s, k),
    ensures
        trim_end_slashes(s) == s.subrange(0, k),
{
    lemma_trim_end_is_prefix(s);
    let t = trim_end_slashes(s).len() as int;
    lemma_trim_end_last(s);
    if k < t {
        assert(s[t - 1] == '/');
    } else if t < k {
        assert(s[k - 1] == '/');
    }
}

/// What trimming trailing slashes keeps does not end with '/'.
proof fn lemma_trim_end_last(s: Seq<char>)
    ensures
        trim_end_slashes(s).len() == 0 || trim_end_slashes(s).last() != '/',
    decreases s.len(),
{
    if s.len() > 0 && s.last() == '/' {
        lemma_trim_end_last(s.drop_last());
    }
}

/// Trimming leading slashes drops exactly the slashes before the first
/// other character.
proof fn lemma_trim_start_at(s: Seq<char>, j: int)
    requires
        0 <= j <= s.len(),
        forall|m: int| 0 <= m < j ==> s[m] == '/',
        j == s.len() || s[j] != '/',
    ensures
        trim_start_slashes(s) == s.subrange(j, s.len() as int),
    decreases j,
{
    if j == 0 {
        assert(s.subrange(0, s.len() as int) =~= s);
    } else {
        assert(s.drop_first().subrange(j - 1, s.drop_first().len() as int) =~= s.subrange(j, s.len() as int));
        lemma_trim_start_at(s.drop_first(), j - 1);
    }
}

/// A resource has a path relative to a library root exactly when the root,
/// without its trailing slashes (its first `k` characters), is character
/// for character where the resource starts, and ends there at a path
/// boundary: the root is empty, or the resource ends right after it, or a
/// '/' follows. So a sibling directory whose name merely begins with the
/// root's last component has none.
pub proof fn lemma_relative_path_exists_iff(root: Seq<char>, resource: Seq<char>, k: int)
    requires
        root_end(root, k),
    ensures
        relative_path(root, resource) is Some <==> {
            &&& k <= resource.len()
            &&& forall|m: int| 0 <= m < k ==> resource[m] == root[m]
            &&& (k == 0 || resource.len() == k || resource[k] == '/')
        },
{
    lemma_trim_end_len(root, k);
    let t = root.subrange(0, k);
    if k <= resource.len() && (forall|m: int| 0 <= m < k ==> resource[m] == root[m]) {
        assert(resource.subrange(0, k) =~= t);
    }
    if relative_path(root, resource) is Some {
        assert forall|m: int| 0 <= m < k implies resource[m] == root[m] by {
            assert(resource.subrange(0, k)[m] == t[m]);
        }
    }
}

/// The relative path is what follows the root in the resource, without the
/// slashes that start it: the characters from the first non-'/' position
/// `j` after the root's `k` characters.
pub proof fn lemma_relative_path_value(root: Seq<char>, resource: Seq<char>, k: int, j: int)
    requires
        root_end(root, k),
        k <= j <= resource.len(),
        forall|m: int| k <= m < j ==> resource[m] == '/',
        j == resource.len() || resource[j] != '/',
        relative_path(root, resource) is Some,
    ensures
        relative_path(root, resource) == Some(resource.subrange(j, resource.len() as int)),
{
    lemma_trim_end_len(root, k);
    let rest = resource.subrange(k, resource.len() as int);
    lemma_trim_start_at(rest, j - k);
    assert(rest.subrange(j - k, rest.len() as int) =~= resource.subrange(j, resource.len() as int));
}

} // verus!
