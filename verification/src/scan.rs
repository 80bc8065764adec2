//! Similar folder names: the Ratcliff/Obershelp matching of two names
//! (the number of characters in their recursively found longest common
//! runs), from which the similarity ratio `2 * matches / total` follows.
use vstd::prelude::*;

use crate::pack::names_view;
use crate::text::{chars_slice, str_chars};

verus! {

/// The length of the common run of `a` from `i` and `b` from `j`.
pub open spec fn common_run(a: Seq<char>, b: Seq<char>, i: int, j: int) -> nat
    decreases a.len() - i,
{
    if 0 <= i < a.len() && 0 <= j < b.len() && a[i] == b[j] {
        1 + common_run(a, b, i + 1, j + 1)
    } else {
        0
    }
}

/// The best run `(len, i, j)` after also trying the starts `(i, 0..n)` of
/// row `i`, starting from `best`; a start replaces the best only when its
/// run is strictly longer.
pub open spec fn best_in_row(a: Seq<char>, b: Seq<char>, i: int, n: int, best: (nat, int, int)) -> (
    nat,
    int,
    int,
)
    decreases n,
{
    if n <= 0 {
        best
    } else {
        let prev = best_in_row(a, b, i, n - 1, best);
        let k = common_run(a, b, i, n - 1);
        if k > prev.0 {
            (k, i, n - 1)
        } else {
            prev
        }
    }
}

/// The best run over the rows `0..m`.
pub open spec fn best_rows(a: Seq<char>, b: Seq<char>, m: int) -> (nat, int, int)
    decreases m,
{
    if m <= 0 {
        (0, 0, 0)
    } else {
        best_in_row(a, b, m - 1, b.len() as int, best_rows(a, b, m - 1))
    }
}

/// The longest common run of `a` and `b`, `(len, i, j)`: the first start,
/// in the order of `i` then `j`, whose run has the greatest length.
pub open spec fn longest_match(a: Seq<char>, b: Seq<char>) -> (nat, int, int) {
    best_rows(a, b, a.len() as int)
}

/// A run is in range: it starts inside both sequences and fits in both.
pub open spec fn run_in_range(a: Seq<char>, b: Seq<char>, r: (nat, int, int)) -> bool {
    r.0 > 0 ==> 0 <= r.1 && r.1 + r.0 <= a.len() && 0 <= r.2 && r.2 + r.0 <= b.len()
}

/// The run at `(i, j)` fits in both sequences.
pub proof fn lemma_common_run_bound(a: Seq<char>, b: Seq<char>, i: int, j: int)
    requires
        0 <= i,
        0 <= j,
    ensures
        common_run(a, b, i, j) > 0 ==> i + common_run(a, b, i, j) <= a.len() && j + common_run(
            a,
            b,
            i,
            j,
        ) <= b.len(),
    decreases a.len() - i,
{
    if 0 <= i < a.len() && 0 <= j < b.len() && a[i] == b[j] {
        lemma_common_run_bound(a, b, i + 1, j + 1);
    }
}

/// The best of a row is in range when the starting best is.
pub proof fn lemma_best_in_row_range(a: Seq<char>, b: Seq<char>, i: int, n: int, best: (nat, int, int))
    requires
        0 <= i,
        n <= b.len(),
        run_in_range(a, b, best),
    ensures
        run_in_range(a, b, best_in_row(a, b, i, n, best)),
    decreases n,
{
    if n > 0 {
        lemma_best_in_row_range(a, b, i, n - 1, best);
        lemma_common_run_bound(a, b, i, n - 1);
    }
}

/// The best over the rows is in range.
pub proof fn lemma_best_rows_range(a: Seq<char>, b: Seq<char>, m: int)
    ensures
        run_in_range(a, b, best_rows(a, b, m)),
    decreases m,
{
    if m > 0 {
        lemma_best_rows_range(a, b, m - 1);
        lemma_best_in_row_range(a, b, m - 1, b.len() as int, best_rows(a, b, m - 1));
    }
}

/// The number of matching characters that the Ratcliff/Obershelp
/// algorithm finds: the longest common run, plus the matches to its left
/// and to its right.
pub open spec fn matching_count(a: Seq<char>, b: Seq<char>) -> nat
    decreases a.len(),
{
    let (len, i, j) = longest_match(a, b);
    if len == 0 {
        0
    } else {
        proof {
            lemma_best_rows_range(a, b, a.len() as int);
        }
        len + matching_count(a.subrange(0, i), b.subrange(0, j)) + matching_count(
            a.subrange(i + len, a.len() as int),
            b.subrange(j + len, b.len() as int),
        )
    }
}

/// The length of the common run of `a` from `i` and `b` from `j`.
fn run_length(a: &[char], b: &[char], i: usize, j: usize) -> (k: usize)
    requires
        i <= a.len(),
        j <= b.len(),
    ensures
        k == common_run(a@, b@, i as int, j as int),
{
    let mut k: usize = 0;
    while i + k < a.len() && j + k < b.len() && a[i + k] == b[j + k]
        invariant
            i + k <= a.len(),
            j + k <= b.len(),
            common_run(a@, b@, i as int, j as int) == k + common_run(
                a@,
                b@,
                (i + k) as int,
                (j + k) as int,
            ),
        decreases a.len() - i - k,
    {
        k = k + 1;
    }
    k
}

/// Count the matching characters of `a` and `b`, as `matching_count` states.
pub fn find_longest_match(a: &[char], b: &[char]) -> (r: usize)
    ensures
        r == matching_count(a@, b@),
    decreases a.len(),
{
    let mut best_len: usize = 0;
    let mut best_ai: usize = 0;
    let mut best_bi: usize = 0;
    let mut ai: usize = 0;
    while ai < a.len()
        invariant
            ai <= a.len(),
            (best_len as nat, best_ai as int, best_bi as int) == best_rows(a@, b@, ai as int),
        decreases a.len() - ai,
    {
        let ghost row_start = (best_len as nat, best_ai as int, best_bi as int);
        let mut bi: usize = 0;
        while bi < b.len()
            invariant
                ai < a.len(),
                bi <= b.len(),
                (best_len as nat, best_ai as int, best_bi as int) == best_in_row(
                    a@,
                    b@,
                    ai as int,
                    bi as int,
                    row_start,
                ),
            decreases b.len() - bi,
        {
            let k = run_length(a, b, ai, bi);
            if k > best_len {
                best_len = k;
                best_ai = ai;
                best_bi = bi;
            }
            bi = bi + 1;
        }
        ai = ai + 1;
    }
    if best_len == 0 {
        return 0;
    }
    proof {
        lemma_best_rows_range(a@, b@, a@.len() as int);
    }
    assert(best_ai + best_len <= a.len());
    assert(best_bi + best_len <= b.len());
    let left_a = chars_slice(a, 0, best_ai);
    let left_b = chars_slice(b, 0, best_bi);
    let right_a = chars_slice(a, best_ai + best_len, a.len());
    let right_b = chars_slice(b, best_bi + best_len, b.len());
    let left = find_longest_match(&left_a, &left_b);
    let right = find_longest_match(&right_a, &right_b);
    proof {
        lemma_matching_count_bound(left_a@, left_b@);
        lemma_matching_count_bound(right_a@, right_b@);
    }
    best_len + left + right
}

/// The matches never outnumber the characters of either sequence.
pub proof fn lemma_matching_count_bound(a: Seq<char>, b: Seq<char>)
    ensures
        matching_count(a, b) <= a.len(),
        matching_count(a, b) <= b.len(),
    decreases a.len(),
{
    let (len, i, j) = longest_match(a, b);
    if len > 0 {
        lemma_best_rows_range(a, b, a.len() as int);
        lemma_matching_count_bound(a.subrange(0, i), b.subrange(0, j));
        lemma_matching_count_bound(
            a.subrange(i + len, a.len() as int),
            b.subrange(j + len, b.len() as int),
        );
    }
}

/// Every run of a row is at most its best, and the best started from a
/// run at least as long as `best` stays at least as long.
pub proof fn lemma_best_in_row_max(a: Seq<char>, b: Seq<char>, i: int, n: int, best: (nat, int, int))
    ensures
        best_in_row(a, b, i, n, best).0 >= best.0,
        forall|j: int| 0 <= j < n ==> common_run(a, b, i, j) <= best_in_row(a, b, i, n, best).0,
    decreases n,
{
    if n > 0 {
        lemma_best_in_row_max(a, b, i, n - 1, best);
    }
}

/// The longest match is as long as any common run.
pub proof fn lemma_best_rows_max(a: Seq<char>, b: Seq<char>, m: int)
    ensures
        forall|i: int, j: int|
            0 <= i < m && 0 <= j < b.len() ==> common_run(a, b, i, j) <= best_rows(a, b, m).0,
    decreases m,
{
    if m > 0 {
        lemma_best_rows_max(a, b, m - 1);
        lemma_best_in_row_max(a, b, m - 1, b.len() as int, best_rows(a, b, m - 1));
    }
}

/// The run of a sequence with itself from its start is the whole sequence.
pub proof fn lemma_self_run(a: Seq<char>, i: int)
    requires
        0 <= i <= a.len(),
    ensures
        common_run(a, a, i, i) == a.len() - i,
    decreases a.len() - i,
{
    if i < a.len() {
        lemma_self_run(a, i + 1);
    }
}

/// A name matches itself completely: its matching count is its length,
/// so the similarity of a name with itself is 1.
pub proof fn lemma_matching_count_self(a: Seq<char>)
    ensures
        matching_count(a, a) == a.len(),
{
    let (len, i, j) = longest_match(a, a);
    if a.len() > 0 {
        lemma_self_run(a, 0);
        lemma_best_rows_max(a, a, a.len() as int);
        assert(common_run(a, a, 0, 0) <= len);
        lemma_best_rows_range(a, a, a.len() as int);
        assert(len == a.len());
        assert(i == 0 && j == 0);
        let e = a.subrange(0, 0);
        let f = a.subrange(a.len() as int, a.len() as int);
        assert(e.len() == 0 && f.len() == 0);
        assert(matching_count(e, e) == 0);
        assert(matching_count(f, f) == 0);
    }
}

/// `a[p..p+len]` and `b[q..q+len]` are a common run: both lie inside their
/// sequence and hold the same characters.
pub open spec fn run_at(a: Seq<char>, b: Seq<char>, p: int, q: int, len: int) -> bool {
    &&& 0 <= p
    &&& 0 <= q
    &&& 0 <= len
    &&& p + len <= a.len()
    &&& q + len <= b.len()
    &&& a.subrange(p, p + len) == b.subrange(q, q + len)
}

/// A common run starting at `(p, q)` that is longer than `len`.
pub open spec fn run_longer_at(a: Seq<char>, b: Seq<char>, p: int, q: int, len: int) -> bool {
    run_at(a, b, p, q, len + 1)
}

/// Equal stretches give a common run at least as long.
proof fn lemma_run_from_equal(a: Seq<char>, b: Seq<char>, i: int, j: int, n: int)
    requires
        run_at(a, b, i, j, n),
    ensures
        common_run(a, b, i, j) >= n,
    decreases n,
{
    if n > 0 {
        assert(a[i] == a.subrange(i, i + n)[0]);
        assert(b[j] == b.subrange(j, j + n)[0]);
        assert(a.subrange(i + 1, i + n) =~= a.subrange(i, i + n).subrange(1, n));
        assert(b.subrange(j + 1, j + n) =~= b.subrange(j, j + n).subrange(1, n));
        lemma_run_from_equal(a, b, i + 1, j + 1, n - 1);
    }
}

/// A common run of some length holds equal stretches of every length up
/// to it.
proof fn lemma_equal_from_run(a: Seq<char>, b: Seq<char>, i: int, j: int, m: int)
    requires
        0 <= i,
        0 <= j,
        0 <= m <= common_run(a, b, i, j),
        0 < m || (i <= a.len() && j <= b.len()),
    ensures
        run_at(a, b, i, j, m),
    decreases m,
{
    if m > 0 {
        lemma_equal_from_run(a, b, i + 1, j + 1, m - 1);
        assert forall|k: int| 0 <= k < m implies #[trigger] a.subrange(i, i + m)[k] == b.subrange(j, j + m)[k] by {
            if k > 0 {
                assert(a.subrange(i, i + m)[k] == a.subrange(i + 1, i + m)[k - 1]);
                assert(b.subrange(j, j + m)[k] == b.subrange(j + 1, j + m)[k - 1]);
            }
        }
        assert(a.subrange(i, i + m) =~= b.subrange(j, j + m));
    } else {
        assert(a.subrange(i, i) =~= b.subrange(j, j));
    }
}

/// A row's best stays shorter than `n` when it starts so and every run of
/// the row tried is.
proof fn lemma_row_below(a: Seq<char>, b: Seq<char>, p: int, m: int, best: (nat, int, int), n: nat)
    requires
        best.0 < n,
        forall|q: int| 0 <= q < m ==> common_run(a, b, p, q) < n,
    ensures
        best_in_row(a, b, p, m, best).0 < n,
    decreases m,
{
    if m > 0 {
        lemma_row_below(a, b, p, m - 1, best, n);
    }
}

/// A row's best found after `m0` starts is kept when no later run tried is
/// longer.
proof fn lemma_row_keep(a: Seq<char>, b: Seq<char>, p: int, m0: int, m: int, best: (nat, int, int))
    requires
        0 <= m0 <= m,
        forall|q: int| m0 <= q < m ==> common_run(a, b, p, q) <= best_in_row(a, b, p, m0, best).0,
    ensures
        best_in_row(a, b, p, m, best) == best_in_row(a, b, p, m0, best),
    decreases m,
{
    if m > m0 {
        lemma_row_keep(a, b, p, m0, m - 1, best);
    }
}

/// The longest match is the first start, in the order of `a` then `b`,
/// of a common run that no common run outgrows.
proof fn lemma_longest_match_is(a: Seq<char>, b: Seq<char>, i: int, j: int, n: nat)
    requires
        n > 0,
        run_at(a, b, i, j, n as int),
        forall|p: int, q: int| !#[trigger] run_longer_at(a, b, p, q, n as int),
        forall|p: int, q: int|
            (p < i || (p == i && q < j)) ==> !#[trigger] run_at(a, b, p, q, n as int),
    ensures
        longest_match(a, b) == (n, i, j),
{
    lemma_run_from_equal(a, b, i, j, n as int);
    assert forall|p: int, q: int| 0 <= p && 0 <= q implies #[trigger] common_run(a, b, p, q) <= n by {
        if common_run(a, b, p, q) > n {
            lemma_equal_from_run(a, b, p, q, (n + 1) as int);
            assert(run_longer_at(a, b, p, q, n as int));
        }
    }
    assert forall|p: int, q: int| 0 <= p && 0 <= q && (p < i || (p == i && q < j)) implies #[trigger] common_run(
        a,
        b,
        p,
        q,
    ) < n by {
        if common_run(a, b, p, q) >= n {
            lemma_equal_from_run(a, b, p, q, n as int);
        }
    }
    assert(common_run(a, b, i, j) == n);
    // The rows before `i` hold only shorter runs.
    assert forall|m: int| 0 <= m <= i implies #[trigger] best_rows(a, b, m).0 < n by {
        lemma_rows_below(a, b, m, i, n);
    }
    let before = best_rows(a, b, i);
    // Row `i`: shorter runs up to `j`, then the run at `j`, then none longer.
    lemma_row_below(a, b, i, j, before, n);
    let at_j = best_in_row(a, b, i, j + 1, before);
    assert(at_j == (n, i, j));
    lemma_row_keep(a, b, i, j + 1, b.len() as int, before);
    assert(best_rows(a, b, i + 1) == (n, i, j));
    lemma_rows_keep(a, b, i, a.len() as int, n, j);
}

/// The best over the rows before `i` is shorter than `n` when every run
/// there is.
proof fn lemma_rows_below(a: Seq<char>, b: Seq<char>, m: int, i: int, n: nat)
    requires
        n > 0,
        m <= i,
        forall|p: int, q: int| 0 <= p && 0 <= q && p < i ==> #[trigger] common_run(a, b, p, q) < n,
    ensures
        best_rows(a, b, m).0 < n,
    decreases m,
{
    if m > 0 {
        lemma_rows_below(a, b, m - 1, i, n);
        lemma_row_below(a, b, m - 1, b.len() as int, best_rows(a, b, m - 1), n);
    }
}

/// Once the best run `(n, i, j)` is found, later rows keep it when no run
/// is longer.
proof fn lemma_rows_keep(a: Seq<char>, b: Seq<char>, i: int, m: int, n: nat, j: int)
    requires
        0 <= i < m,
        best_rows(a, b, i + 1) == (n, i, j),
        forall|p: int, q: int| 0 <= p && 0 <= q ==> #[trigger] common_run(a, b, p, q) <= n,
    ensures
        best_rows(a, b, m) == (n, i, j),
    decreases m,
{
    if m > i + 1 {
        lemma_rows_keep(a, b, i, m - 1, n, j);
        lemma_row_keep(a, b, m - 1, 0, b.len() as int, best_rows(a, b, m - 1));
    }
}

/// The matches are counted around the longest common run. When
/// `a[i..i+n]` and `b[j..j+n]` are a common run that no common run
/// outgrows, and no common run as long starts earlier (in `a`, then in
/// `b`), the matching count is `n` plus the matching count of the parts
/// before the run plus that of the parts after it: the matches on both
/// sides of the run count.
pub proof fn lemma_matching_count_around_longest_run(a: Seq<char>, b: Seq<char>, i: int, j: int, n: int)
    requires
        n > 0,
        run_at(a, b, i, j, n),
        forall|p: int, q: int| !#[trigger] run_longer_at(a, b, p, q, n),
        forall|p: int, q: int| (p < i || (p == i && q < j)) ==> !#[trigger] run_at(a, b, p, q, n),
    ensures
        matching_count(a, b) == n + matching_count(a.subrange(0, i), b.subrange(0, j))
            + matching_count(a.subrange(i + n, a.len() as int), b.subrange(j + n, b.len() as int)),
{
    lemma_longest_match_is(a, b, i, j, n as nat);
}

/// The Ratcliff/Obershelp counts of two names: the matching characters
/// and the total length; the similarity ratio is `2 * matches / total`
/// (1 when both names are empty).
pub fn sequence_matcher_counts(a: &str, b: &str) -> (r: (usize, usize))
    requires
        a@.len() + b@.len() <= usize::MAX,
    ensures
        r.0 == matching_count(a@, b@),
        r.1 == a@.len() + b@.len(),
{
    let ac = str_chars(a);
    let bc = str_chars(b);
    (find_longest_match(&ac, &bc), ac.len() + bc.len())
}

/// `a` is lexicographically at most `b` (by code point, which is also the
/// byte order of their UTF-8 encodings).
pub open spec fn lex_le(a: Seq<char>, b: Seq<char>) -> bool
    decreases a.len(),
{
    if a.len() == 0 {
        true
    } else if b.len() == 0 {
        false
    } else if a[0] != b[0] {
        a[0] < b[0]
    } else {
        lex_le(a.drop_first(), b.drop_first())
    }
}

/// Sorts names with `slice::sort`, which puts them in ascending
/// lexicographic order (the order of `String`'s `Ord`) and keeps the same
/// names.
#[verifier::external_body]
fn sort_names(v: &mut Vec<String>)
    ensures
        names_view(final(v)@).to_multiset() == names_view(old(v)@).to_multiset(),
        forall|i: int, j: int|
            0 <= i < j < final(v)@.len() ==> lex_le(#[trigger] final(v)@[i]@, #[trigger] final(v)@[j]@),
{
    v.sort();
}

/// Neighbouring names of a sorted listing, with their matching counts.
pub struct SimilarCandidate {
    /// The earlier name in sorted order.
    pub former: String,
    /// The name that follows it.
    pub current: String,
    /// The matching characters of the two names.
    pub matches: usize,
    /// The sum of the two names' lengths.
    pub total: usize,
}

/// Service for scanning BMS folders.
pub struct FolderScanService {}

impl FolderScanService {
    /// Create a new `FolderScanService`.
    pub fn new() -> Self {
        FolderScanService {  }
    }

    /// Sort the directory names and pair each with the one before it,
    /// with the counts of their similarity ratio; the pairs whose ratio
    /// reaches the trigger are the similar folders.
    pub fn scan_folder_similar_folders(&self, dir_names: Vec<String>) -> (r: Vec<SimilarCandidate>)
        requires
            forall|k: int| 0 <= k < dir_names@.len() ==> (#[trigger] dir_names@[k])@.len() <= usize::MAX / 4,
        ensures
            r@.len() == if dir_names@.len() == 0 { 0 } else { dir_names@.len() - 1 },
            forall|k: int|
                0 <= k < r@.len() ==> {
                    let c = #[trigger] r@[k];
                    &&& lex_le(c.former@, c.current@)
                    &&& c.matches == matching_count(c.former@, c.current@)
                    &&& c.total == c.former@.len() + c.current@.len()
                },
            forall|k: int|
                0 <= k < r@.len() ==> names_view(dir_names@).contains((#[trigger] r@[k]).former@)
                    && names_view(dir_names@).contains(r@[k].current@),
            exists|sorted: Seq<Seq<char>>|
                {
                    &&& #[trigger] sorted.to_multiset() == names_view(dir_names@).to_multiset()
                    &&& forall|x: int, y: int|
                        0 <= x < y < sorted.len() ==> lex_le(#[trigger] sorted[x], #[trigger] sorted[y])
                    &&& forall|k: int|
                        0 <= k < r@.len() ==> (#[trigger] r@[k]).former@ == sorted[k]
                            && r@[k].current@ == sorted[k + 1]
                },
    {
        broadcast use vstd::seq_lib::group_to_multiset_ensures;

        let mut sorted = dir_names;
        let ghost orig = names_view(sorted@);
        sort_names(&mut sorted);
        proof {
            assert forall|k: int| 0 <= k < sorted@.len() implies (#[trigger] sorted@[k])@.len()
                <= usize::MAX / 4 by {
                assert(names_view(sorted@)[k] == sorted@[k]@);
                assert(names_view(sorted@).contains(sorted@[k]@));
                assert(names_view(sorted@).to_multiset().count(sorted@[k]@) > 0);
                assert(orig.contains(sorted@[k]@));
                let m = choose|m: int| 0 <= m < orig.len() && orig[m] == sorted@[k]@;
                assert(dir_names@[m]@ == orig[m]);
            }
        }
        assert(names_view(sorted@).to_multiset().len() == orig.to_multiset().len());
        assert(sorted@.len() == dir_names@.len());
        let mut out: Vec<SimilarCandidate> = Vec::new();
        let mut i: usize = 1;
        while i < sorted.len()
            invariant
                1 <= i,
                sorted@.len() == 0 ==> i == 1,
                sorted@.len() > 0 ==> i <= sorted@.len(),
                out@.len() == i - 1,
                names_view(sorted@).to_multiset() == orig.to_multiset(),
                orig == names_view(dir_names@),
                sorted@.len() == dir_names@.len(),
                forall|k: int| 0 <= k < sorted@.len() ==> (#[trigger] sorted@[k])@.len() <= usize::MAX / 4,
                forall|x: int, y: int|
                    0 <= x < y < sorted@.len() ==> lex_le(#[trigger] sorted@[x]@, #[trigger] sorted@[y]@),
                forall|k: int|
                    0 <= k < out@.len() ==> {
                        let c = #[trigger] out@[k];
                        &&& c.former@ == sorted@[k]@
                        &&& c.current@ == sorted@[k + 1]@
                        &&& c.matches == matching_count(c.former@, c.current@)
                        &&& c.total == c.former@.len() + c.current@.len()
                    },
            decreases sorted.len() - i,
        {
            let (m, t) = sequence_matcher_counts(sorted[i - 1].as_str(), sorted[i].as_str());
            out.push(
                SimilarCandidate {
                    former: sorted[i - 1].clone(),
                    current: sorted[i].clone(),
                    matches: m,
                    total: t,
                },
            );
            i = i + 1;
        }
        proof {
            let sv = names_view(sorted@);
            assert forall|x: int, y: int| 0 <= x < y < sv.len() implies lex_le(
                #[trigger] sv[x],
                #[trigger] sv[y],
            ) by {
                assert(sv[x] == sorted@[x]@ && sv[y] == sorted@[y]@);
            }
            assert forall|k: int| 0 <= k < out@.len() implies (#[trigger] out@[k]).former@ == sv[k]
                && out@[k].current@ == sv[k + 1] by {
                assert(k + 1 < sorted@.len());
            }
            assert forall|k: int| 0 <= k < out@.len() implies lex_le(
                (#[trigger] out@[k]).former@,
                out@[k].current@,
            ) by {
                assert(k + 1 < sorted@.len());
                assert(lex_le(sorted@[k]@, sorted@[k + 1]@));
            }
            assert forall|k: int| 0 <= k < out@.len() implies names_view(dir_names@).contains(
                (#[trigger] out@[k]).former@,
            ) && names_view(dir_names@).contains(out@[k].current@) by {
                assert(k + 1 < sorted@.len());
                assert(names_view(sorted@)[k] == sorted@[k]@);
                assert(names_view(sorted@)[k + 1] == sorted@[k + 1]@);
                assert(names_view(sorted@).contains(sorted@[k]@));
                assert(names_view(sorted@).contains(sorted@[k + 1]@));
                assert(names_view(sorted@).to_multiset().count(sorted@[k]@) > 0);
                assert(names_view(sorted@).to_multiset().count(sorted@[k + 1]@) > 0);
            }
        }
        out
    }
}

} // verus!
