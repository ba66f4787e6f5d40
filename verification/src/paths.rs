//! Byte-level path logic: substring exclusion matching, relativizing a
//! path against a root, and joining a root with a relative path.
//!
//! Paths are handled as byte strings with `/` (byte 47) as the separator.
//! For every entry produced by walking a root, the entry's path is either
//! the root itself or the root followed by a separator and a non-empty
//! remainder; `strip_ok` captures that shape and `rel_of` extracts the
//! remainder, which `join_spec` maps onto the other root.

use vstd::prelude::*;

verus! {

/// The path separator byte, `/`.
pub const SEP: u8 = 47;

/// `needle` occurs somewhere in `hay` as a contiguous run of bytes.
pub open spec fn is_substr(hay: Seq<u8>, needle: Seq<u8>) -> bool {
    exists|k: int| 0 <= k && k + needle.len() <= hay.len() && #[trigger] hay.subrange(k, k + needle.len() as int) == needle
}

/// `path` contains at least one of `pats` as a substring.
pub open spec fn excluded(path: Seq<u8>, pats: Seq<Vec<u8>>) -> bool {
    exists|i: int| 0 <= i < pats.len() && is_substr(path, pats[i]@)
}

/// `path` lies under `root`: it is `root` itself, or `root` followed by
/// the separator and at least one further byte.
pub open spec fn strip_ok(path: Seq<u8>, root: Seq<u8>) -> bool {
    ||| path == root
    ||| (path.len() > root.len() + 1
        && path.subrange(0, root.len() as int) == root
        && path[root.len() as int] == SEP)
}

/// The remainder of `path` after `root` and the separator; empty when
/// `path` is `root` itself. Meaningful only under `strip_ok`.
pub open spec fn rel_of(path: Seq<u8>, root: Seq<u8>) -> Seq<u8> {
    if path == root {
        Seq::empty()
    } else {
        path.subrange(root.len() as int + 1, path.len() as int)
    }
}

/// `root` extended by the separator and `rel`; `root` itself when `rel`
/// is empty.
pub open spec fn join_spec(root: Seq<u8>, rel: Seq<u8>) -> Seq<u8> {
    if rel.len() == 0 {
        root
    } else {
        root + seq![SEP] + rel
    }
}

/// Whether two byte strings are equal.
pub fn bytes_eq(a: &Vec<u8>, b: &Vec<u8>) -> (r: bool)
    ensures
        r == (a@ == b@),
{
    if a.len() != b.len() {
        return false;
    }
    let mut i: usize = 0;
    while i < a.len()
        invariant
            i <= a.len(),
            a@.len() == b@.len(),
            forall|j: int| 0 <= j < i ==> a@[j] == b@[j],
        decreases a.len() - i,
    {
        if a[i] != b[i] {
            return false;
        }
        i += 1;
    }
    proof {
        assert(a@ =~= b@);
    }
    true
}

fn match_at(hay: &Vec<u8>, needle: &Vec<u8>, k: usize) -> (r: bool)
    requires
        k + needle@.len() <= hay@.len(),
    ensures
        r == (hay@.subrange(k as int, k + needle@.len()) == needle@),
{
    let hl: usize = hay.len();
    let mut j: usize = 0;
    while j < needle.len()
        invariant
            j <= needle@.len(),
            hl == hay@.len(),
            k + needle@.len() <= hay@.len(),
            forall|m: int| 0 <= m < j ==> hay@[k + m] == needle@[m],
        decreases needle.len() - j,
    {
        proof {
            assert(k + j < hl);
        }
        if hay[k + j] != needle[j] {
            proof {
                assert(hay@.subrange(k as int, k + needle@.len())[j as int] == hay@[k + j]);
            }
            return false;
        }
        j += 1;
    }
    proof {
        assert(hay@.subrange(k as int, k + needle@.len()) =~= needle@);
    }
    true
}

/// Whether `needle` occurs in `hay` as a contiguous byte substring.
pub fn contains_sub(hay: &Vec<u8>, needle: &Vec<u8>) -> (r: bool)
    ensures
        r == is_substr(hay@, needle@),
{
    if needle.len() > hay.len() {
        proof {
            if is_substr(hay@, needle@) {
                let k = choose|k: int| 0 <= k && k + needle@.len() <= hay@.len()
                    && #[trigger] hay@.subrange(k, k + needle@.len() as int) == needle@;
                assert(false);
            }
        }
        return false;
    }
    if needle.len() == 0 {
        proof {
            assert(hay@.subrange(0, 0 + needle@.len() as int) =~= needle@);
        }
        return true;
    }
    let mut k: usize = 0;
    while k <= hay.len() - needle.len()
        invariant
            1 <= needle@.len() <= hay@.len(),
            k <= hay@.len() - needle@.len() + 1,
            forall|m: int| 0 <= m < k ==> #[trigger] hay@.subrange(m, m + needle@.len() as int) != needle@,
        decreases hay.len() - needle.len() - k + 1,
    {
        if match_at(hay, needle, k) {
            return true;
        }
        k += 1;
    }
    proof {
        if is_substr(hay@, needle@) {
            let m = choose|m: int| 0 <= m && m + needle@.len() <= hay@.len()
                && #[trigger] hay@.subrange(m, m + needle@.len() as int) == needle@;
            assert(m < k);
            assert(false);
        }
    }
    false
}

/// Whether `path` matches any of the exclude patterns, i.e. contains any
/// element of `pats` as a literal substring. An empty pattern list never
/// excludes; an empty pattern excludes every path.
pub fn is_excluded(path: &Vec<u8>, pats: &Vec<Vec<u8>>) -> (r: bool)
    ensures
        r == excluded(path@, pats@),
{
    let mut i: usize = 0;
    while i < pats.len()
        invariant
            i <= pats@.len(),
            forall|j: int| 0 <= j < i ==> !is_substr(path@, pats@[j]@),
        decreases pats.len() - i,
    {
        if contains_sub(path, &pats[i]) {
            return true;
        }
        i += 1;
    }
    proof {
        if excluded(path@, pats@) {
            let j = choose|j: int| 0 <= j < pats@.len() && is_substr(path@, pats@[j]@);
            assert(false);
        }
    }
    false
}

/// No byte of `rel` is the separator: a relative path of one segment.
pub open spec fn no_sep(rel: Seq<u8>) -> bool {
    forall|k: int| 0 <= k < rel.len() ==> rel[k] != SEP
}

/// `path` names a direct child of `root`: it lies under `root` with a
/// non-empty remainder of a single segment.
pub open spec fn is_direct_child(path: Seq<u8>, root: Seq<u8>) -> bool {
    strip_ok(path, root) && rel_of(path, root).len() > 0 && no_sep(rel_of(path, root))
}

/// Whether `path` names a direct child of `root`.
pub fn direct_child_check(path: &Vec<u8>, root: &Vec<u8>) -> (r: bool)
    ensures
        r == is_direct_child(path@, root@),
{
    let rel = match strip_prefix(path, root) {
        Some(rel) => rel,
        None => {
            return false;
        },
    };
    if rel.len() == 0 {
        return false;
    }
    let mut i: usize = 0;
    while i < rel.len()
        invariant
            i <= rel@.len(),
            strip_ok(path@, root@),
            rel@ == rel_of(path@, root@),
            rel@.len() > 0,
            forall|k: int| 0 <= k < i ==> rel@[k] != SEP,
        decreases rel.len() - i,
    {
        if rel[i] == SEP {
            proof {
                assert(rel_of(path@, root@)[i as int] == SEP);
            }
            return false;
        }
        i += 1;
    }
    true
}

/// Copies a byte string.
pub fn copy_bytes(a: &Vec<u8>) -> (r: Vec<u8>)
    ensures
        r@ == a@,
{
    let mut out: Vec<u8> = Vec::new();
    let mut i: usize = 0;
    while i < a.len()
        invariant
            i <= a@.len(),
            out@ =~= a@.subrange(0, i as int),
        decreases a.len() - i,
    {
        out.push(a[i]);
        i += 1;
    }
    proof {
        assert(out@ =~= a@);
    }
    out
}

/// Relativizes `path` against `root`: `Some(rel)` exactly when `path`
/// lies under `root`, with `rel` the remainder after the separator.
pub fn strip_prefix(path: &Vec<u8>, root: &Vec<u8>) -> (r: Option<Vec<u8>>)
    ensures
        match r {
            Some(rel) => strip_ok(path@, root@) && rel@ == rel_of(path@, root@),
            None => !strip_ok(path@, root@),
        },
{
    if path.len() < root.len() {
        return None;
    }
    let mut i: usize = 0;
    while i < root.len()
        invariant
            i <= root@.len(),
            root@.len() <= path@.len(),
            forall|j: int| 0 <= j < i ==> path@[j] == root@[j],
        decreases root.len() - i,
    {
        if path[i] != root[i] {
            proof {
                assert(path@ != root@) by {
                    assert(path@[i as int] != root@[i as int]);
                }
                assert(path@.subrange(0, root@.len() as int)[i as int] == path@[i as int]);
            }
            return None;
        }
        i += 1;
    }
    if path.len() == root.len() {
        proof {
            assert(path@ =~= root@);
        }
        return Some(Vec::new());
    }
    if path.len() == root.len() + 1 || path[root.len()] != SEP {
        proof {
            assert(path@ != root@) by {
                assert(path@.len() != root@.len());
            }
        }
        return None;
    }
    let mut rel: Vec<u8> = Vec::new();
    let mut j: usize = root.len() + 1;
    while j < path.len()
        invariant
            root@.len() + 1 <= j <= path@.len(),
            rel@ =~= path@.subrange(root@.len() as int + 1, j as int),
        decreases path.len() - j,
    {
        rel.push(path[j]);
        j += 1;
    }
    proof {
        assert(path@.subrange(0, root@.len() as int) =~= root@);
        assert(path@ != root@) by {
            assert(path@.len() != root@.len());
        }
        assert(rel@ =~= rel_of(path@, root@));
    }
    Some(rel)
}

/// Joins `root` with the relative path `rel`, inserting the separator;
/// `rel` empty gives `root` back unchanged.
pub fn join_path(root: &Vec<u8>, rel: &Vec<u8>) -> (r: Vec<u8>)
    ensures
        r@ == join_spec(root@, rel@),
{
    let mut out = copy_bytes(root);
    if rel.len() == 0 {
        return out;
    }
    out.push(SEP);
    let mut i: usize = 0;
    while i < rel.len()
        invariant
            i <= rel@.len(),
            out@ =~= root@ + seq![SEP] + rel@.subrange(0, i as int),
        decreases rel.len() - i,
    {
        out.push(rel[i]);
        i += 1;
    }
    proof {
        assert(out@ =~= join_spec(root@, rel@));
    }
    out
}

/// Relativizing the result of a join gives the relative path back:
/// `join_spec(root, rel)` always lies under `root`, and stripping `root`
/// from it yields `rel` again. The deletion pass relies on this inverse
/// mapping to decide survivorship.
pub proof fn lemma_join_strip(root: Seq<u8>, rel: Seq<u8>)
    ensures
        strip_ok(join_spec(root, rel), root),
        rel_of(join_spec(root, rel), root) == rel,
{
    if rel.len() == 0 {
        assert(rel_of(join_spec(root, rel), root) =~= rel);
    } else {
        let p = root + seq![SEP] + rel;
        assert(p.subrange(0, root.len() as int) =~= root);
        assert(p[root.len() as int] == SEP);
        assert(p != root) by {
            assert(p.len() != root.len());
        }
        assert(rel_of(p, root) =~= rel);
    }
}

/// A path that lies under `root` is exactly the join of `root` with its
/// own remainder: `strip_ok` and `rel_of`/`join_spec` are inverses.
pub proof fn lemma_strip_join(path: Seq<u8>, root: Seq<u8>)
    requires
        strip_ok(path, root),
    ensures
        join_spec(root, rel_of(path, root)) == path,
{
    if path == root {
        assert(join_spec(root, rel_of(path, root)) =~= path);
    } else {
        let rel = rel_of(path, root);
        assert(rel.len() > 0);
        assert(join_spec(root, rel) =~= path);
    }
}

} // verus!
