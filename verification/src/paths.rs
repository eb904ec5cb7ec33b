//! Path handling for the batch writer.
//!
//! Paths are plain strings with `/` as the separator. Joining and taking a
//! parent are defined here, precisely, over the characters of the path; the
//! rest of the crate and its callers use these functions rather than any
//! platform path type.

use vstd::prelude::*;
use vstd::string::*;

verus! {

/// The path separator.
pub open spec fn sep() -> char {
    '/'
}

/// `base` joined with `rel`: `rel` itself when it is absolute (starts with
/// `/`) or when `base` is empty; otherwise `base` and `rel` with exactly one
/// separator added between them when `base` does not already end in one.
/// `rel` is kept verbatim: no normalization and no rejection of `..`
/// segments.
pub open spec fn joined_path(base: Seq<char>, rel: Seq<char>) -> Seq<char> {
    if rel.len() > 0 && rel[0] == sep() {
        rel
    } else if base.len() == 0 {
        rel
    } else if base[base.len() - 1] == sep() {
        base + rel
    } else {
        base + seq![sep()] + rel
    }
}

/// The largest index `i <= from` such that every character of `p` in
/// `[i, from)` is a separator.
pub open spec fn skip_separators_back(p: Seq<char>, from: int) -> int
    decreases from,
{
    if 0 < from <= p.len() && p[from - 1] == sep() {
        skip_separators_back(p, from - 1)
    } else {
        from
    }
}

/// The largest index `i <= from` such that no character of `p` in
/// `[i, from)` is a separator.
pub open spec fn skip_component_back(p: Seq<char>, from: int) -> int
    decreases from,
{
    if 0 < from <= p.len() && p[from - 1] != sep() {
        skip_component_back(p, from - 1)
    } else {
        from
    }
}

/// The parent of `p`: `p` without its final component and the separators
/// around it. `None` for the empty path and for paths made of separators
/// only; the empty string for a bare one-component path; `/` when only the
/// root is left.
pub open spec fn parent_path(p: Seq<char>) -> Option<Seq<char>> {
    let i = skip_separators_back(p, p.len() as int);
    if i == 0 {
        None
    } else {
        let j = skip_component_back(p, i);
        if j == 0 {
            Some(Seq::empty())
        } else {
            let k = skip_separators_back(p, j);
            if k == 0 {
                Some(seq![sep()])
            } else {
                Some(p.take(k))
            }
        }
    }
}

/// Joins `base` and `rel` as [`joined_path`] describes.
pub fn join_path(base: &str, rel: &str) -> (r: String)
    ensures
        r@ == joined_path(base@, rel@),
{
    let rel_len = rel.unicode_len();
    let base_len = base.unicode_len();
    if rel_len > 0 && rel.get_char(0) == '/' {
        rel.to_owned()
    } else if base_len == 0 {
        rel.to_owned()
    } else if base.get_char(base_len - 1) == '/' {
        base.to_owned().concat(rel)
    } else {
        let r = base.to_owned().concat("/").concat(rel);
        proof {
            reveal_strlit("/");
            assert(r@ =~= base@ + seq![sep()] + rel@);
        }
        r
    }
}

/// The joined path ends with `rel` verbatim: whatever `base` is, and whether
/// or not `rel` escapes it with `..` segments, the final characters of the
/// result are exactly `rel`.
pub proof fn lemma_join_keeps_rel(base: Seq<char>, rel: Seq<char>)
    ensures
        rel.len() <= joined_path(base, rel).len(),
        joined_path(base, rel).subrange(
            joined_path(base, rel).len() - rel.len(),
            joined_path(base, rel).len() as int,
        ) == rel,
{
    let j = joined_path(base, rel);
    assert(j.subrange(j.len() - rel.len(), j.len() as int) =~= rel);
}

/// Returns the parent of `path` as [`parent_path`] describes.
pub fn parent_of(path: &str) -> (r: Option<String>)
    ensures
        r.deep_view() == parent_path(path@),
{
    let n = path.unicode_len();
    let mut i = n;
    while i > 0 && path.get_char(i - 1) == '/'
        invariant
            i <= n,
            n == path@.len(),
            skip_separators_back(path@, n as int) == skip_separators_back(path@, i as int),
        decreases i,
    {
        i = i - 1;
    }
    assert(skip_separators_back(path@, n as int) == i);
    if i == 0 {
        return None;
    }
    let mut j = i;
    while j > 0 && path.get_char(j - 1) != '/'
        invariant
            j <= i <= n,
            n == path@.len(),
            skip_component_back(path@, i as int) == skip_component_back(path@, j as int),
        decreases j,
    {
        j = j - 1;
    }
    assert(skip_component_back(path@, i as int) == j);
    if j == 0 {
        return Some(String::new());
    }
    let mut k = j;
    while k > 0 && path.get_char(k - 1) == '/'
        invariant
            k <= j <= n,
            n == path@.len(),
            skip_separators_back(path@, j as int) == skip_separators_back(path@, k as int),
        decreases k,
    {
        k = k - 1;
    }
    assert(skip_separators_back(path@, j as int) == k);
    if k == 0 {
        let root = String::from_str("/");
        proof {
            reveal_strlit("/");
            assert(root@ =~= seq![sep()]);
        }
        return Some(root);
    }
    Some(path.substring_char(0, k).to_owned())
}

} // verus!
