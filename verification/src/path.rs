//! File-system paths as `std::path::Path` reads them on Unix: `/` is the
//! only separator, a leading `/` is the root, a leading `.` followed by a
//! separator (or alone) is the current directory, and inside the path empty
//! and `.` components are skipped.
use vstd::prelude::*;

use crate::text::{chars_eq, chars_slice, str_chars};

verus! {

/// The path starts at the root.
pub open spec fn path_has_root(s: Seq<char>) -> bool {
    s.len() > 0 && s[0] == '/'
}

/// The path starts with the current directory `.`.
pub open spec fn path_cur_start(s: Seq<char>) -> bool {
    !path_has_root(s) && s.len() > 0 && s[0] == '.' && (s.len() == 1 || s[1] == '/')
}

/// Where the components after the root or the leading `.` begin.
pub open spec fn body_start(s: Seq<char>) -> int {
    if path_has_root(s) || path_cur_start(s) {
        1
    } else {
        0
    }
}

/// The start of the text between separators that ends at `j`.
pub open spec fn seg_start(s: Seq<char>, j: int) -> int
    decreases j,
{
    if j <= body_start(s) || s[j - 1] == '/' {
        j
    } else {
        seg_start(s, j - 1)
    }
}

/// A component of the path ends at `j`: the text between separators that
/// ends there is neither empty nor `.`.
pub open spec fn is_comp_end(s: Seq<char>, j: int) -> bool {
    &&& body_start(s) < j <= s.len()
    &&& s[j - 1] != '/'
    &&& !(seg_start(s, j) == j - 1 && s[j - 1] == '.')
}

/// The end of the last component within `s[..e]`; `body_start(s)` when there
/// is none.
pub open spec fn comp_end(s: Seq<char>, e: int) -> int
    decreases e,
{
    if e <= body_start(s) {
        body_start(s)
    } else if is_comp_end(s, e) {
        e
    } else {
        comp_end(s, e - 1)
    }
}

/// The file name of a path (`Path::file_name`): its last component, unless
/// that is `..` or there is none.
pub open spec fn spec_path_file_name(s: Seq<char>) -> Option<Seq<char>> {
    let e = comp_end(s, s.len() as int);
    if e > body_start(s) {
        let name = s.subrange(seg_start(s, e), e);
        if name == ".."@ {
            None
        } else {
            Some(name)
        }
    } else {
        None
    }
}

/// The parent of a path (`Path::parent`): the text before its last
/// component, without trailing separators and `.` components; the empty
/// path for `.`; none for the root and the empty path.
pub open spec fn spec_path_parent(s: Seq<char>) -> Option<Seq<char>> {
    let e = comp_end(s, s.len() as int);
    if e > body_start(s) {
        Some(s.subrange(0, comp_end(s, seg_start(s, e) - 1)))
    } else if path_cur_start(s) {
        Some(seq![])
    } else {
        None
    }
}

/// `base.join(name)` for a relative `name`: a separator goes between them
/// unless `base` is empty or ends with one.
pub open spec fn spec_path_join(base: Seq<char>, name: Seq<char>) -> Seq<char> {
    if base.len() == 0 {
        name
    } else if base.last() == '/' {
        base + name
    } else {
        base + "/"@ + name
    }
}

/// The start of the text between separators that ends at `j`, as
/// `seg_start` states.
fn seg_start_of(p: &[char], bs: usize, j: usize) -> (r: usize)
    requires
        bs == body_start(p@),
        j <= p@.len(),
    ensures
        r == seg_start(p@, j as int),
        r <= j,
        j >= bs ==> r >= bs,
{
    let mut i: usize = j;
    while i > bs && p[i - 1] != '/'
        invariant
            i <= j <= p@.len(),
            bs == body_start(p@),
            j >= bs ==> i >= bs,
            seg_start(p@, j as int) == seg_start(p@, i as int),
        decreases i,
    {
        i = i - 1;
    }
    i
}

/// The end of the last component within `p[..e]`, as `comp_end` states.
fn comp_end_of(p: &[char], bs: usize, e: usize) -> (r: usize)
    requires
        bs == body_start(p@),
        bs <= p@.len(),
        e <= p@.len(),
    ensures
        r == comp_end(p@, e as int),
        bs <= r,
        r <= e || r == bs,
{
    let mut i: usize = e;
    while i > bs
        invariant
            i <= e <= p@.len(),
            bs == body_start(p@),
            comp_end(p@, e as int) == comp_end(p@, i as int),
        decreases i,
    {
        if p[i - 1] != '/' {
            let ss = seg_start_of(p, bs, i);
            if !(ss == i - 1 && p[i - 1] == '.') {
                return i;
            }
        }
        i = i - 1;
    }
    bs
}

/// The start of the components of `p`, as `body_start` states.
fn body_start_of(p: &[char]) -> (r: usize)
    ensures
        r == body_start(p@),
        r <= p@.len(),
{
    if p.len() > 0 && p[0] == '/' {
        1
    } else if p.len() > 0 && p[0] == '.' && (p.len() == 1 || p[1] == '/') {
        1
    } else {
        0
    }
}

/// The parent and the file name of a path, as `spec_path_parent` and
/// `spec_path_file_name` state.
pub fn path_parent_and_file_name(p: &[char]) -> (r: (Option<Vec<char>>, Option<Vec<char>>))
    ensures
        match r.0 {
            Some(v) => spec_path_parent(p@) == Some(v@),
            None => spec_path_parent(p@) is None,
        },
        match r.1 {
            Some(v) => spec_path_file_name(p@) == Some(v@),
            None => spec_path_file_name(p@) is None,
        },
{
    let bs = body_start_of(p);
    let e = comp_end_of(p, bs, p.len());
    if e > bs {
        let ss = seg_start_of(p, bs, e);
        let pe = if ss == 0 {
            bs
        } else {
            comp_end_of(p, bs, ss - 1)
        };
        let parent = chars_slice(p, 0, pe);
        let name = chars_slice(p, ss, e);
        let dd = str_chars("..");
        if chars_eq(&name, &dd) {
            (Some(parent), None)
        } else {
            (Some(parent), Some(name))
        }
    } else if bs == 1 && p[0] == '.' {
        (Some(Vec::new()), None)
    } else {
        (None, None)
    }
}

/// A component's text holds no separator, and follows one unless it starts
/// the components.
pub proof fn lemma_seg_start_bounds(s: Seq<char>, j: int)
    requires
        0 <= j <= s.len(),
    ensures
        seg_start(s, j) <= j,
        j >= body_start(s) ==> seg_start(s, j) >= body_start(s),
        forall|i: int| seg_start(s, j) <= i < j ==> s[i] != '/',
        seg_start(s, j) > body_start(s) ==> s[seg_start(s, j) - 1] == '/',
    decreases j,
{
    if !(j <= body_start(s) || s[j - 1] == '/') {
        lemma_seg_start_bounds(s, j - 1);
    }
}

/// The text between separators that ends at `j` starts at `k` when no
/// separator lies in `s[k..j]` and `k` starts the components or follows a
/// separator.
pub proof fn lemma_seg_start_at(s: Seq<char>, k: int, j: int)
    requires
        body_start(s) <= k <= j <= s.len(),
        forall|i: int| k <= i < j ==> s[i] != '/',
        k == body_start(s) || s[k - 1] == '/',
    ensures
        seg_start(s, j) == k,
    decreases j - k,
{
    if j > k {
        lemma_seg_start_at(s, k, j - 1);
    }
}

/// The last component end lies between the start of the components and
/// `e`, ends a component when it lies past that start, and is found again
/// from itself.
pub proof fn lemma_comp_end_bounds(s: Seq<char>, e: int)
    requires
        e <= s.len(),
    ensures
        body_start(s) <= comp_end(s, e),
        comp_end(s, e) <= e || comp_end(s, e) == body_start(s),
        comp_end(s, e) > body_start(s) ==> is_comp_end(s, comp_end(s, e)),
        comp_end(s, comp_end(s, e)) == comp_end(s, e),
    decreases e,
{
    if e > body_start(s) && !is_comp_end(s, e) {
        lemma_comp_end_bounds(s, e - 1);
    }
}

/// Two paths that agree on `[..e]` and start their components at the same
/// place split that part alike.
pub proof fn lemma_seg_start_prefix(s1: Seq<char>, s2: Seq<char>, j: int)
    requires
        0 <= j <= s1.len(),
        j <= s2.len(),
        body_start(s1) == body_start(s2),
        forall|i: int| 0 <= i < j ==> s1[i] == s2[i],
    ensures
        seg_start(s1, j) == seg_start(s2, j),
    decreases j,
{
    if !(j <= body_start(s1) || s1[j - 1] == '/') {
        lemma_seg_start_prefix(s1, s2, j - 1);
    }
}

/// Two paths that agree on `[..e]` and start their components at the same
/// place have the same last component end there.
pub proof fn lemma_comp_end_prefix(s1: Seq<char>, s2: Seq<char>, e: int)
    requires
        e <= s1.len(),
        e <= s2.len(),
        body_start(s1) == body_start(s2),
        forall|i: int| 0 <= i < e ==> s1[i] == s2[i],
    ensures
        comp_end(s1, e) == comp_end(s2, e),
    decreases e,
{
    if e > body_start(s1) {
        lemma_seg_start_prefix(s1, s2, e);
        lemma_comp_end_prefix(s1, s2, e - 1);
    }
}

/// Joining a file name onto the parent of a path gives a path whose parent
/// is that parent and whose file name is that name: for a path that names
/// a file, and a name without separators that is neither `.` nor `..`.
pub proof fn lemma_join_onto_parent(s: Seq<char>, leaf: Seq<char>)
    requires
        spec_path_file_name(s) is Some,
        leaf.len() > 0,
        forall|i: int| 0 <= i < leaf.len() ==> leaf[i] != '/',
        leaf != "."@,
        leaf != ".."@,
    ensures
        spec_path_parent(s) is Some,
        spec_path_parent(spec_path_join(spec_path_parent(s)->0, leaf)) == spec_path_parent(s),
        spec_path_file_name(spec_path_join(spec_path_parent(s)->0, leaf)) == Some(leaf),
{
    reveal_strlit("/");
    reveal_strlit(".");
    reveal_strlit("..");
    assert(leaf.len() == 1 ==> leaf[0] != '.') by {
        if leaf.len() == 1 && leaf[0] == '.' {
            assert(leaf =~= "."@);
        }
    }
    let len = s.len() as int;
    let bs = body_start(s);
    lemma_comp_end_bounds(s, len);
    let e = comp_end(s, len);
    lemma_seg_start_bounds(s, e);
    let ss = seg_start(s, e);
    assert(ss < e) by {
        if ss == e {
            assert(seg_start(s, e) == seg_start(s, e - 1));
            lemma_seg_start_bounds(s, e - 1);
        }
    }
    lemma_comp_end_bounds(s, ss - 1);
    let pe = comp_end(s, ss - 1);
    let b = s.subrange(0, pe);
    assert(spec_path_parent(s) == Some(b));
    let out = spec_path_join(b, leaf);
    assert(pe < len);
    if pe == 0 {
        assert(out == leaf);
        assert(body_start(out) == 0) by {
            if leaf.len() == 1 {
                assert(leaf[0] == leaf.last());
            }
        }
        lemma_seg_start_at(out, 0, out.len() as int);
        assert(is_comp_end(out, out.len() as int));
        assert(comp_end(out, out.len() as int) == out.len());
        assert(out.subrange(0, out.len() as int) =~= leaf);
        assert(comp_end(out, -1) == 0);
        assert(out.subrange(0, 0) =~= b);
    } else {
        let slash_end = b.last() == '/';
        assert(slash_end ==> pe == 1 && path_has_root(s)) by {
            if pe > bs {
                assert(is_comp_end(s, pe));
            }
        }
        let q: int = if slash_end { pe } else { pe + 1 };
        assert(out.len() == q + leaf.len());
        assert forall|i: int| 0 <= i < pe implies out[i] == s[i] by {
            assert(out[i] == b[i]);
        }
        assert forall|i: int| q <= i < out.len() implies out[i] == leaf[i - q] by {}
        assert(out[q - 1] == '/');
        assert(body_start(out) == bs) by {
            assert(out[0] == s[0]);
            if pe >= 2 {
                assert(out[1] == s[1]);
            } else if !slash_end {
                assert(out[1] == '/');
                if s[0] == '.' && bs == 0 {
                    assert(is_comp_end(s, pe));
                    assert(seg_start(s, 1) == seg_start(s, 0));
                }
            }
        }
        assert(is_comp_end(out, out.len() as int)) by {
            assert(out[out.len() - 1] == leaf.last());
            lemma_seg_start_at(out, q, out.len() as int);
        }
        assert(comp_end(out, out.len() as int) == out.len());
        lemma_seg_start_at(out, q, out.len() as int);
        assert(out.subrange(q, out.len() as int) =~= leaf);
        if slash_end {
            assert(comp_end(out, q - 1) == 1);
            assert(out.subrange(0, 1) =~= b);
        } else {
            lemma_comp_end_prefix(out, s, pe);
            assert(comp_end(out, q - 1) == pe);
            assert(out.subrange(0, pe) =~= b);
        }
    }
}

} // verus!
