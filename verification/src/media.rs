//! Folder cleanup: temporary files, zero-sized media, redundant media that
//! a better format of the same track makes unnecessary, and the renaming of
//! numbered work folders after their counterparts elsewhere.
use vstd::prelude::*;

use crate::pack::{names_view, pairs_view, spec_first_prefixed};
use crate::text::{
    all_ascii_digits, before_first, chars_all_ascii_digits, chars_before_first, chars_end_with,
    chars_eq, chars_first_word, chars_rfind_before, chars_slice, chars_start_with, first_word,
    has_prefix, has_suffix, lemma_rfind_char_bounds, rfind_char, str_chars, str_eq,
    string_from_chars, to_lowercase, spec_to_lowercase,
};

verus! {

/// The extensions of media files.
pub open spec fn spec_media_exts() -> Seq<Seq<char>> {
    seq![
        ".ogg"@,
        ".wav"@,
        ".flac"@,
        ".mp4"@,
        ".wmv"@,
        ".avi"@,
        ".mpg"@,
        ".mpeg"@,
        ".bmp"@,
        ".jpg"@,
        ".png"@,
    ]
}

/// The name ends with a media extension (case-sensitive).
pub open spec fn spec_is_media_name(name: Seq<char>) -> bool {
    exists|k: int| 0 <= k < spec_media_exts().len() && has_suffix(name, #[trigger] spec_media_exts()[k])
}

/// The extensions of media files, in the order of `spec_media_exts`.
pub fn media_file_exts() -> (r: Vec<&'static str>)
    ensures
        r@.map_values(|s: &str| s@) == spec_media_exts(),
{
    let r = vec![".ogg", ".wav", ".flac", ".mp4", ".wmv", ".avi", ".mpg", ".mpeg", ".bmp", ".jpg", ".png"];
    assert(r@.map_values(|s: &str| s@) =~= spec_media_exts());
    r
}

/// Whether `name` ends with one of the media extensions.
pub fn is_media_file_name(name: &str) -> (r: bool)
    ensures
        r == spec_is_media_name(name@),
{
    let exts = media_file_exts();
    let n = str_chars(name);
    let mut i: usize = 0;
    while i < exts.len()
        invariant
            i <= exts@.len(),
            exts@.map_values(|s: &str| s@) == spec_media_exts(),
            n@ == name@,
            forall|k: int| 0 <= k < i ==> !has_suffix(name@, #[trigger] spec_media_exts()[k]),
        decreases exts.len() - i,
    {
        let e = str_chars(exts[i]);
        assert(spec_media_exts()[i as int] == exts@[i as int]@);
        if chars_end_with(&n, &e) {
            return true;
        }
        i = i + 1;
    }
    false
}

/// A file that operating systems leave behind: `desktop.ini`,
/// `thumbs.db` or `.ds_store` in any case, or a name starting with
/// `.trash-` or `._`.
pub open spec fn spec_is_temp_file(name: Seq<char>) -> bool {
    let lower = spec_to_lowercase(name);
    ||| lower == "desktop.ini"@
    ||| lower == "thumbs.db"@
    ||| lower == ".ds_store"@
    ||| has_prefix(name, ".trash-"@)
    ||| has_prefix(name, "._"@)
}

/// Whether `name` is a temporary file's name.
pub fn is_temp_file(name: &str) -> (r: bool)
    ensures
        r == spec_is_temp_file(name@),
{
    let lower = to_lowercase(name);
    let n = str_chars(name);
    str_eq(lower.as_str(), "desktop.ini") || str_eq(lower.as_str(), "thumbs.db") || str_eq(
        lower.as_str(),
        ".ds_store",
    ) || chars_start_with(&n, &str_chars(".trash-")) || chars_start_with(&n, &str_chars("._"))
}

/// What the cleanup does with one directory entry.
#[derive(PartialEq, Eq, Structural, Debug)]
pub enum CleanupAction {
    /// Remove the temporary file.
    RemoveTemp,
    /// A media file: remove it if its size is zero.
    CheckEmptyMedia,
    /// A directory: clean it too.
    Descend,
    /// Leave the entry alone.
    Keep,
}

/// The cleanup action for an entry named `name` that is a file (`is_file`)
/// or a directory (`is_dir`).
pub open spec fn spec_cleanup_action(name: Seq<char>, is_file: bool, is_dir: bool) -> CleanupAction {
    if is_file {
        if spec_is_temp_file(name) {
            CleanupAction::RemoveTemp
        } else if spec_is_media_name(name) {
            CleanupAction::CheckEmptyMedia
        } else {
            CleanupAction::Keep
        }
    } else if is_dir {
        CleanupAction::Descend
    } else {
        CleanupAction::Keep
    }
}

/// The cleanup action for one entry of a directory being cleaned of
/// zero-sized media and temporary files.
pub fn cleanup_action(name: &str, is_file: bool, is_dir: bool) -> (r: CleanupAction)
    ensures
        r == spec_cleanup_action(name@, is_file, is_dir),
{
    if is_file {
        if is_temp_file(name) {
            CleanupAction::RemoveTemp
        } else if is_media_file_name(name) {
            CleanupAction::CheckEmptyMedia
        } else {
            CleanupAction::Keep
        }
    } else if is_dir {
        CleanupAction::Descend
    } else {
        CleanupAction::Keep
    }
}

/// Whether a media file of size `len` is removed (it is empty).
pub fn removes_empty_media(action: &CleanupAction, len: u64) -> (r: bool)
    ensures
        r == (*action == CleanupAction::CheckEmptyMedia && len == 0),
{
    match action {
        CleanupAction::CheckEmptyMedia => len == 0,
        _ => false,
    }
}

/// The extension of a file name, as `Path::extension` finds it: the text
/// after the last `.`, when that dot does not start the name (and the name
/// is not `..`).
pub open spec fn spec_extension(name: Seq<char>) -> Option<Seq<char>> {
    if name == ".."@ {
        None
    } else {
        match rfind_char(name, '.') {
            Some(i) => if i == 0 {
                None
            } else {
                Some(name.subrange(i + 1, name.len() as int))
            },
            None => None,
        }
    }
}

/// The stem of a file name, as `Path::file_stem` finds it.
pub open spec fn spec_file_stem(name: Seq<char>) -> Seq<char> {
    if name == ".."@ {
        name
    } else {
        match rfind_char(name, '.') {
            Some(i) => if i == 0 {
                name
            } else {
                name.subrange(0, i)
            },
            None => name,
        }
    }
}

/// The name `Path::with_extension(ext)` gives a non-empty file name.
pub open spec fn spec_with_extension(name: Seq<char>, ext: Seq<char>) -> Seq<char> {
    if ext.len() > 0 {
        spec_file_stem(name) + "."@ + ext
    } else {
        spec_file_stem(name)
    }
}

/// The extension of `name`, as `spec_extension` states.
pub fn file_extension(name: &[char]) -> (r: Option<Vec<char>>)
    ensures
        match r {
            Some(e) => spec_extension(name@) == Some(e@),
            None => spec_extension(name@) is None,
        },
{
    if is_dot_dot(name) {
        return None;
    }
    match chars_rfind_before(name, '.', name.len()) {
        Some(i) => {
            proof {
                lemma_rfind_char_bounds(name@, '.', name@.len() as int);
            }
            if i == 0 {
                None
            } else {
                Some(chars_slice(name, i + 1, name.len()))
            }
        },
        None => None,
    }
}

/// The stem of `name`, as `spec_file_stem` states.
pub fn file_stem(name: &[char]) -> (r: Vec<char>)
    ensures
        r@ == spec_file_stem(name@),
{
    let whole = chars_slice(name, 0, name.len());
    assert(name@.subrange(0, name@.len() as int) =~= name@);
    if is_dot_dot(name) {
        return whole;
    }
    match chars_rfind_before(name, '.', name.len()) {
        Some(i) => {
            proof {
                lemma_rfind_char_bounds(name@, '.', name@.len() as int);
            }
            if i == 0 {
                whole
            } else {
                chars_slice(name, 0, i)
            }
        },
        None => whole,
    }
}

/// Whether `name` is `..`.
fn is_dot_dot(name: &[char]) -> (r: bool)
    ensures
        r == (name@ == ".."@),
{
    let dd = str_chars("..");
    chars_eq(name, &dd)
}

/// The name `name` takes with the extension `ext`, as `spec_with_extension`
/// states.
pub fn with_extension(name: &[char], ext: &[char]) -> (r: Vec<char>)
    ensures
        r@ == spec_with_extension(name@, ext@),
{
    let mut r = file_stem(name);
    if ext.len() > 0 {
        let ghost stem = r@;
        r.push('.');
        let mut i: usize = 0;
        while i < ext.len()
            invariant
                i <= ext@.len(),
                r@ == stem.push('.') + ext@.subrange(0, i as int),
            decreases ext.len() - i,
        {
            r.push(ext[i]);
            i = i + 1;
            assert(r@ =~= stem.push('.') + ext@.subrange(0, i as int));
        }
        assert(r@ =~= stem + "."@ + ext@) by {
            reveal_strlit(".");
            assert(ext@.subrange(0, ext@.len() as int) =~= ext@);
        }
    }
    r
}

/// A media removal rule: when a file with one of the first extensions
/// exists, files of the same stem with the second extensions are removed.
pub type RemoveMediaRule = Vec<(Vec<&'static str>, Vec<&'static str>)>;

/// The view of a rule.
pub open spec fn rule_view(rule: Seq<(Vec<&'static str>, Vec<&'static str>)>) -> Seq<
    (Seq<Seq<char>>, Seq<Seq<char>>),
> {
    rule.map_values(
        |r: (Vec<&'static str>, Vec<&'static str>)|
            (r.0@.map_values(|s: &str| s@), r.1@.map_values(|s: &str| s@)),
    )
}

/// The ORAJA rule: mp4 over avi/wmv/mpg/mpeg, avi over wmv/mpg/mpeg,
/// flac or wav over ogg, flac over wav, mpg over wmv.
pub open spec fn spec_oraja_rule() -> Seq<(Seq<Seq<char>>, Seq<Seq<char>>)> {
    seq![
        (seq!["mp4"@], seq!["avi"@, "wmv"@, "mpg"@, "mpeg"@]),
        (seq!["avi"@], seq!["wmv"@, "mpg"@, "mpeg"@]),
        (seq!["flac"@, "wav"@], seq!["ogg"@]),
        (seq!["flac"@], seq!["wav"@]),
        (seq!["mpg"@], seq!["wmv"@]),
    ]
}

/// ORAJA removal rule.
pub fn get_remove_media_rule_oraja() -> (r: RemoveMediaRule)
    ensures
        rule_view(r@) == spec_oraja_rule(),
{
    let r: RemoveMediaRule = vec![
        (vec!["mp4"], vec!["avi", "wmv", "mpg", "mpeg"]),
        (vec!["avi"], vec!["wmv", "mpg", "mpeg"]),
        (vec!["flac", "wav"], vec!["ogg"]),
        (vec!["flac"], vec!["wav"]),
        (vec!["mpg"], vec!["wmv"]),
    ];
    assert(rule_view(r@)[0] =~= spec_oraja_rule()[0]);
    assert(rule_view(r@)[1] =~= spec_oraja_rule()[1]);
    assert(rule_view(r@)[2] =~= spec_oraja_rule()[2]);
    assert(rule_view(r@)[3] =~= spec_oraja_rule()[3]);
    assert(rule_view(r@)[4] =~= spec_oraja_rule()[4]);
    assert(rule_view(r@) =~= spec_oraja_rule());
    r
}

/// A file of a work directory as the media cleanup reads it: its name,
/// whether it is a regular file, and its size when that could be read.
pub struct WorkFile {
    /// The file's name.
    pub name: String,
    /// Whether it is a regular file.
    pub is_file: bool,
    /// Its size in bytes, when that could be read.
    pub len: Option<u64>,
}

/// The views of a work directory's entries.
pub open spec fn work_files_view(v: Seq<WorkFile>) -> Seq<(Seq<char>, bool, Option<u64>)> {
    v.map_values(|f: WorkFile| (f.name@, f.is_file, f.len))
}

/// `name` is the name of a regular file of the listing.
pub open spec fn spec_is_listed_file(entries: Seq<(Seq<char>, bool, Option<u64>)>, name: Seq<char>) -> bool {
    exists|k: int| 0 <= k < entries.len() && (#[trigger] entries[k]).1 && entries[k].0 == name
}

/// The extension that a rule compares: the file's extension, or the empty
/// text when it has none.
pub open spec fn spec_ext_or_empty(name: Seq<char>) -> Seq<char> {
    match spec_extension(name) {
        Some(e) => e,
        None => seq![],
    }
}

/// Removal candidates of the file `name` for the first `k` lower-priority
/// extensions: `(name, other)` for each such sibling file that exists.
pub open spec fn spec_lower_cands(
    name: Seq<char>,
    lowers: Seq<Seq<char>>,
    entries: Seq<(Seq<char>, bool, Option<u64>)>,
    k: int,
) -> Seq<(Seq<char>, Seq<char>)>
    decreases k,
{
    if k <= 0 || k > lowers.len() {
        seq![]
    } else {
        let prev = spec_lower_cands(name, lowers, entries, k - 1);
        let other = spec_with_extension(name, lowers[k - 1]);
        if spec_is_listed_file(entries, other) {
            prev.push((name, other))
        } else {
            prev
        }
    }
}

/// Removal candidates of the file `name` under the first `j` rules: each
/// rule whose higher-priority extensions hold the file's extension gives
/// its candidates, unless the file is empty.
pub open spec fn spec_rule_cands(
    name: Seq<char>,
    empty: bool,
    entries: Seq<(Seq<char>, bool, Option<u64>)>,
    rule: Seq<(Seq<Seq<char>>, Seq<Seq<char>>)>,
    j: int,
) -> Seq<(Seq<char>, Seq<char>)>
    decreases j,
{
    if j <= 0 || j > rule.len() {
        seq![]
    } else {
        let prev = spec_rule_cands(name, empty, entries, rule, j - 1);
        if rule[j - 1].0.contains(spec_ext_or_empty(name)) && !empty {
            prev + spec_lower_cands(name, rule[j - 1].1, entries, rule[j - 1].1.len() as int)
        } else {
            prev
        }
    }
}

/// Removal candidates of the first `i` entries, in listing order.
pub open spec fn spec_entry_cands(
    entries: Seq<(Seq<char>, bool, Option<u64>)>,
    rule: Seq<(Seq<Seq<char>>, Seq<Seq<char>>)>,
    i: int,
) -> Seq<(Seq<char>, Seq<char>)>
    decreases i,
{
    if i <= 0 || i > entries.len() {
        seq![]
    } else {
        let prev = spec_entry_cands(entries, rule, i - 1);
        let e = entries[i - 1];
        if e.1 {
            prev + spec_rule_cands(e.0, e.2 == Some(0u64), entries, rule, rule.len() as int)
        } else {
            prev
        }
    }
}

/// `pairs` extended by `c` unless a pair already removes the same file.
pub open spec fn dedupe_step(pairs: Seq<(Seq<char>, Seq<char>)>, c: (Seq<char>, Seq<char>)) -> Seq<
    (Seq<char>, Seq<char>),
> {
    if exists|k: int| 0 <= k < pairs.len() && (#[trigger] pairs[k]).1 == c.1 {
        pairs
    } else {
        pairs.push(c)
    }
}

/// The candidates, keeping only the first pair that removes each file.
pub open spec fn dedupe_targets(c: Seq<(Seq<char>, Seq<char>)>) -> Seq<(Seq<char>, Seq<char>)>
    decreases c.len(),
{
    if c.len() == 0 {
        seq![]
    } else {
        dedupe_step(dedupe_targets(c.drop_last()), c.last())
    }
}

/// The removals a rule plans for a work directory: pairs `(kept, removed)`.
pub open spec fn spec_media_removals(
    entries: Seq<(Seq<char>, bool, Option<u64>)>,
    rule: Seq<(Seq<Seq<char>>, Seq<Seq<char>>)>,
) -> Seq<(Seq<char>, Seq<char>)> {
    dedupe_targets(spec_entry_cands(entries, rule, entries.len() as int))
}

/// After deduplication no two pairs remove the same file.
pub proof fn lemma_dedupe_distinct(c: Seq<(Seq<char>, Seq<char>)>)
    ensures
        forall|i: int, j: int|
            0 <= i < j < dedupe_targets(c).len() ==> dedupe_targets(c)[i].1 != dedupe_targets(
                c,
            )[j].1,
    decreases c.len(),
{
    if c.len() > 0 {
        lemma_dedupe_distinct(c.drop_last());
        let prev = dedupe_targets(c.drop_last());
        let x = c.last();
        if !(exists|k: int| 0 <= k < prev.len() && (#[trigger] prev[k]).1 == x.1) {
            let d = prev.push(x);
            assert(dedupe_targets(c) == d);
            assert forall|i: int, j: int| 0 <= i < j < d.len() implies d[i].1 != d[j].1 by {
                if j == prev.len() {
                    assert(d[i] == prev[i]);
                } else {
                    assert(d[i] == prev[i] && d[j] == prev[j]);
                }
            }
        }
    }
}

/// The media cleanup removes each file at most once.
pub proof fn lemma_media_removed_once(
    entries: Seq<(Seq<char>, bool, Option<u64>)>,
    rule: Seq<(Seq<Seq<char>>, Seq<Seq<char>>)>,
)
    ensures
        forall|i: int, j: int|
            0 <= i < j < spec_media_removals(entries, rule).len() ==> spec_media_removals(
                entries,
                rule,
            )[i].1 != spec_media_removals(entries, rule)[j].1,
{
    lemma_dedupe_distinct(spec_entry_cands(entries, rule, entries.len() as int));
}

/// Every candidate of the lower extensions of `name` keeps `name` and
/// removes a listed file.
proof fn lemma_lower_cands_listed(
    name: Seq<char>,
    lowers: Seq<Seq<char>>,
    entries: Seq<(Seq<char>, bool, Option<u64>)>,
    k: int,
)
    ensures
        forall|m: int|
            0 <= m < spec_lower_cands(name, lowers, entries, k).len() ==> (#[trigger] spec_lower_cands(
                name,
                lowers,
                entries,
                k,
            )[m]).0 == name && spec_is_listed_file(entries, spec_lower_cands(name, lowers, entries, k)[m].1),
    decreases k,
{
    if k > 0 && k <= lowers.len() {
        lemma_lower_cands_listed(name, lowers, entries, k - 1);
        let prev = spec_lower_cands(name, lowers, entries, k - 1);
        let other = spec_with_extension(name, lowers[k - 1]);
        if spec_is_listed_file(entries, other) {
            let cur = prev.push((name, other));
            assert forall|m: int| 0 <= m < cur.len() implies (#[trigger] cur[m]).0 == name
                && spec_is_listed_file(entries, cur[m].1) by {
                if m < prev.len() {
                    assert(cur[m] == prev[m]);
                }
            }
        }
    }
}

/// Every candidate of the rules for `name` keeps `name` and removes a
/// listed file.
proof fn lemma_rule_cands_listed(
    name: Seq<char>,
    empty: bool,
    entries: Seq<(Seq<char>, bool, Option<u64>)>,
    rule: Seq<(Seq<Seq<char>>, Seq<Seq<char>>)>,
    j: int,
)
    ensures
        forall|m: int|
            0 <= m < spec_rule_cands(name, empty, entries, rule, j).len() ==> (#[trigger] spec_rule_cands(
                name,
                empty,
                entries,
                rule,
                j,
            )[m]).0 == name && spec_is_listed_file(entries, spec_rule_cands(name, empty, entries, rule, j)[m].1),
    decreases j,
{
    if j > 0 && j <= rule.len() {
        lemma_rule_cands_listed(name, empty, entries, rule, j - 1);
        lemma_lower_cands_listed(name, rule[j - 1].1, entries, rule[j - 1].1.len() as int);
        let prev = spec_rule_cands(name, empty, entries, rule, j - 1);
        let low = spec_lower_cands(name, rule[j - 1].1, entries, rule[j - 1].1.len() as int);
        if rule[j - 1].0.contains(spec_ext_or_empty(name)) && !empty {
            assert forall|m: int| 0 <= m < (prev + low).len() implies (#[trigger] (prev + low)[m]).0
                == name && spec_is_listed_file(entries, (prev + low)[m].1) by {
                if m < prev.len() {
                    assert((prev + low)[m] == prev[m]);
                } else {
                    assert((prev + low)[m] == low[m - prev.len()]);
                }
            }
        }
    }
}

/// Every candidate of the first `i` entries keeps a listed file and
/// removes a listed file.
proof fn lemma_entry_cands_listed(
    entries: Seq<(Seq<char>, bool, Option<u64>)>,
    rule: Seq<(Seq<Seq<char>>, Seq<Seq<char>>)>,
    i: int,
)
    ensures
        forall|m: int|
            0 <= m < spec_entry_cands(entries, rule, i).len() ==> spec_is_listed_file(
                entries,
                (#[trigger] spec_entry_cands(entries, rule, i)[m]).0,
            ) && spec_is_listed_file(entries, spec_entry_cands(entries, rule, i)[m].1),
    decreases i,
{
    if i > 0 && i <= entries.len() {
        lemma_entry_cands_listed(entries, rule, i - 1);
        let e = entries[i - 1];
        if e.1 {
            let prev = spec_entry_cands(entries, rule, i - 1);
            let more = spec_rule_cands(e.0, e.2 == Some(0u64), entries, rule, rule.len() as int);
            lemma_rule_cands_listed(e.0, e.2 == Some(0u64), entries, rule, rule.len() as int);
            assert(spec_is_listed_file(entries, e.0)) by {
                assert(entries[i - 1].1 && entries[i - 1].0 == e.0);
            }
            assert forall|m: int| 0 <= m < (prev + more).len() implies spec_is_listed_file(
                entries,
                (#[trigger] (prev + more)[m]).0,
            ) && spec_is_listed_file(entries, (prev + more)[m].1) by {
                if m < prev.len() {
                    assert((prev + more)[m] == prev[m]);
                } else {
                    assert((prev + more)[m] == more[m - prev.len()]);
                }
            }
        }
    }
}

/// Deduplication keeps only candidates.
proof fn lemma_dedupe_subset(c: Seq<(Seq<char>, Seq<char>)>)
    ensures
        forall|m: int| 0 <= m < dedupe_targets(c).len() ==> c.contains(#[trigger] dedupe_targets(c)[m]),
    decreases c.len(),
{
    if c.len() > 0 {
        lemma_dedupe_subset(c.drop_last());
        let prev = dedupe_targets(c.drop_last());
        assert forall|m: int| 0 <= m < dedupe_targets(c).len() implies c.contains(
            #[trigger] dedupe_targets(c)[m],
        ) by {
            if m < prev.len() {
                assert(dedupe_targets(c)[m] == prev[m]);
                let w = choose|w: int| 0 <= w < c.drop_last().len() && c.drop_last()[w] == prev[m];
                assert(c[w] == prev[m]);
            } else {
                assert(dedupe_targets(c)[m] == c.last());
                assert(c[c.len() - 1] == c.last());
            }
        }
    }
}

/// The media cleanup removes only files of the directory, and each only
/// because a file of the directory that supersedes it exists.
pub proof fn lemma_media_removals_listed(
    entries: Seq<(Seq<char>, bool, Option<u64>)>,
    rule: Seq<(Seq<Seq<char>>, Seq<Seq<char>>)>,
)
    ensures
        forall|m: int|
            0 <= m < spec_media_removals(entries, rule).len() ==> spec_is_listed_file(
                entries,
                (#[trigger] spec_media_removals(entries, rule)[m]).0,
            ) && spec_is_listed_file(entries, spec_media_removals(entries, rule)[m].1),
{
    let c = spec_entry_cands(entries, rule, entries.len() as int);
    lemma_entry_cands_listed(entries, rule, entries.len() as int);
    lemma_dedupe_subset(c);
    assert forall|m: int| 0 <= m < spec_media_removals(entries, rule).len() implies spec_is_listed_file(
        entries,
        (#[trigger] spec_media_removals(entries, rule)[m]).0,
    ) && spec_is_listed_file(entries, spec_media_removals(entries, rule)[m].1) by {
        let x = spec_media_removals(entries, rule)[m];
        assert(c.contains(x));
        let w = choose|w: int| 0 <= w < c.len() && c[w] == x;
        assert(c[w] == x);
    }
}

/// The candidates of the first `k` lower extensions of `name` hold the
/// pair of the lower extension at `t < k` when that sibling is listed.
proof fn lemma_lower_cands_has(
    name: Seq<char>,
    lowers: Seq<Seq<char>>,
    entries: Seq<(Seq<char>, bool, Option<u64>)>,
    k: int,
    t: int,
)
    requires
        0 <= t < k <= lowers.len(),
        spec_is_listed_file(entries, spec_with_extension(name, lowers[t])),
    ensures
        spec_lower_cands(name, lowers, entries, k).contains(
            (name, spec_with_extension(name, lowers[t])),
        ),
    decreases k,
{
    let x = (name, spec_with_extension(name, lowers[t]));
    let prev = spec_lower_cands(name, lowers, entries, k - 1);
    let cur = spec_lower_cands(name, lowers, entries, k);
    if t == k - 1 {
        assert(cur == prev.push(x));
        assert(cur[prev.len() as int] == x);
    } else {
        lemma_lower_cands_has(name, lowers, entries, k - 1, t);
        let w = choose|w: int| 0 <= w < prev.len() && prev[w] == x;
        assert(cur[w] == x);
    }
}

/// The candidates of the first `j` rules for a non-empty file hold every
/// candidate of a rule `jj < j` whose preferred extensions hold the file's.
proof fn lemma_rule_cands_has(
    name: Seq<char>,
    entries: Seq<(Seq<char>, bool, Option<u64>)>,
    rule: Seq<(Seq<Seq<char>>, Seq<Seq<char>>)>,
    j: int,
    jj: int,
    x: (Seq<char>, Seq<char>),
)
    requires
        0 <= jj < j <= rule.len(),
        rule[jj].0.contains(spec_ext_or_empty(name)),
        spec_lower_cands(name, rule[jj].1, entries, rule[jj].1.len() as int).contains(x),
    ensures
        spec_rule_cands(name, false, entries, rule, j).contains(x),
    decreases j,
{
    let prev = spec_rule_cands(name, false, entries, rule, j - 1);
    let cur = spec_rule_cands(name, false, entries, rule, j);
    if jj == j - 1 {
        let l = spec_lower_cands(name, rule[jj].1, entries, rule[jj].1.len() as int);
        assert(cur == prev + l);
        let w = choose|w: int| 0 <= w < l.len() && l[w] == x;
        assert(cur[prev.len() + w] == x);
    } else {
        lemma_rule_cands_has(name, entries, rule, j - 1, jj, x);
        let w = choose|w: int| 0 <= w < prev.len() && prev[w] == x;
        assert(cur[w] == x);
    }
}

/// The candidates of the first `i` entries hold every candidate of a
/// regular file among them.
proof fn lemma_entry_cands_has(
    entries: Seq<(Seq<char>, bool, Option<u64>)>,
    rule: Seq<(Seq<Seq<char>>, Seq<Seq<char>>)>,
    i: int,
    k: int,
    x: (Seq<char>, Seq<char>),
)
    requires
        0 <= k < i <= entries.len(),
        entries[k].1,
        spec_rule_cands(entries[k].0, entries[k].2 == Some(0u64), entries, rule, rule.len() as int).contains(x),
    ensures
        spec_entry_cands(entries, rule, i).contains(x),
    decreases i,
{
    let prev = spec_entry_cands(entries, rule, i - 1);
    let cur = spec_entry_cands(entries, rule, i);
    if k == i - 1 {
        let l = spec_rule_cands(entries[k].0, entries[k].2 == Some(0u64), entries, rule, rule.len() as int);
        assert(cur == prev + l);
        let w = choose|w: int| 0 <= w < l.len() && l[w] == x;
        assert(cur[prev.len() + w] == x);
    } else {
        lemma_entry_cands_has(entries, rule, i - 1, k, x);
        let w = choose|w: int| 0 <= w < prev.len() && prev[w] == x;
        assert(cur[w] == x);
    }
}

/// Deduplication drops a candidate only when a pair removing the same file
/// is kept.
proof fn lemma_dedupe_covers(c: Seq<(Seq<char>, Seq<char>)>, x: (Seq<char>, Seq<char>))
    requires
        c.contains(x),
    ensures
        exists|m: int| 0 <= m < dedupe_targets(c).len() && (#[trigger] dedupe_targets(c)[m]).1 == x.1,
    decreases c.len(),
{
    let prev = dedupe_targets(c.drop_last());
    let d = dedupe_targets(c);
    let w = choose|w: int| 0 <= w < c.len() && c[w] == x;
    if w < c.len() - 1 {
        assert(c.drop_last()[w] == x);
        lemma_dedupe_covers(c.drop_last(), x);
        let m = choose|m: int| 0 <= m < prev.len() && (#[trigger] prev[m]).1 == x.1;
        assert(d[m] == prev[m]);
    } else {
        assert(c.last() == x);
        if exists|k: int| 0 <= k < prev.len() && (#[trigger] prev[k]).1 == x.1 {
            let m = choose|m: int| 0 <= m < prev.len() && (#[trigger] prev[m]).1 == x.1;
            assert(d == prev);
            assert(d[m].1 == x.1);
        } else {
            assert(d == prev.push(x));
            assert(d[prev.len() as int].1 == x.1);
        }
    }
}

/// A file named `stem.ext`, for a non-empty stem and an extension without
/// dots, has that extension and that stem.
proof fn lemma_stem_and_extension(stem: Seq<char>, ext: Seq<char>)
    requires
        stem.len() > 0,
        ext.len() > 0,
        forall|i: int| 0 <= i < ext.len() ==> ext[i] != '.',
    ensures
        spec_extension(stem + "."@ + ext) == Some(ext),
        spec_file_stem(stem + "."@ + ext) == stem,
{
    reveal_strlit(".");
    reveal_strlit("..");
    let name = stem + "."@ + ext;
    let k = stem.len() as int;
    assert(name[k] == '.');
    assert(name != ".."@) by {
        assert(name.len() >= 3);
    }
    lemma_rfind_char_bounds(name, '.', name.len() as int);
    match rfind_char(name, '.') {
        Some(i) => {
            if i > k {
                assert(name[i] == ext[i - k - 1]);
            }
            assert(name.subrange(k + 1, name.len() as int) =~= ext);
            assert(name.subrange(0, k) =~= stem);
        },
        None => {},
    }
}

/// The ORAJA preferences: a file with the extension `hi` makes one of the
/// same stem with the extension `lo` redundant. mp4 over avi, wmv, mpg and
/// mpeg; avi over wmv, mpg and mpeg; flac and wav over ogg; flac over wav;
/// mpg over wmv.
pub open spec fn is_oraja_preference(hi: Seq<char>, lo: Seq<char>) -> bool {
    ||| hi == "mp4"@ && (lo == "avi"@ || lo == "wmv"@ || lo == "mpg"@ || lo == "mpeg"@)
    ||| hi == "avi"@ && (lo == "wmv"@ || lo == "mpg"@ || lo == "mpeg"@)
    ||| (hi == "flac"@ || hi == "wav"@) && lo == "ogg"@
    ||| hi == "flac"@ && lo == "wav"@
    ||| hi == "mpg"@ && lo == "wmv"@
}

/// Where the ORAJA rule prefers `hi` over `lo`: the entry whose preferred
/// extensions hold `hi` and the position of `lo` among its removed ones.
proof fn lemma_oraja_pair_index(hi: Seq<char>, lo: Seq<char>) -> (r: (int, int))
    requires
        is_oraja_preference(hi, lo),
    ensures
        0 <= r.0 < spec_oraja_rule().len(),
        spec_oraja_rule()[r.0].0.contains(hi),
        0 <= r.1 < spec_oraja_rule()[r.0].1.len(),
        spec_oraja_rule()[r.0].1[r.1] == lo,
{
    reveal_strlit("mp4");
    reveal_strlit("avi");
    reveal_strlit("wmv");
    reveal_strlit("mpg");
    reveal_strlit("mpeg");
    reveal_strlit("flac");
    reveal_strlit("wav");
    reveal_strlit("ogg");
    let rl = spec_oraja_rule();
    assert(rl[0].0[0] == "mp4"@);
    assert(rl[1].0[0] == "avi"@);
    assert(rl[2].0[0] == "flac"@);
    assert(rl[2].0[1] == "wav"@);
    assert(rl[3].0[0] == "flac"@);
    assert(rl[4].0[0] == "mpg"@);
    if hi == "mp4"@ && lo == "avi"@ {
        (0, 0)
    } else if hi == "mp4"@ && lo == "wmv"@ {
        (0, 1)
    } else if hi == "mp4"@ && lo == "mpg"@ {
        (0, 2)
    } else if hi == "mp4"@ && lo == "mpeg"@ {
        (0, 3)
    } else if hi == "avi"@ && lo == "wmv"@ {
        (1, 0)
    } else if hi == "avi"@ && lo == "mpg"@ {
        (1, 1)
    } else if hi == "avi"@ && lo == "mpeg"@ {
        (1, 2)
    } else if (hi == "flac"@ || hi == "wav"@) && lo == "ogg"@ {
        (2, 0)
    } else if hi == "flac"@ && lo == "wav"@ {
        (3, 0)
    } else {
        (4, 0)
    }
}

/// Under the ORAJA rule a file goes when a non-empty file of the same stem
/// with a preferred extension exists: mp4 over avi, wmv, mpg and mpeg; avi
/// over wmv, mpg and mpeg; flac and wav over ogg; flac over wav; mpg over
/// wmv. Some planned removal then removes `stem.lo`.
pub proof fn lemma_oraja_removes_superseded(
    entries: Seq<(Seq<char>, bool, Option<u64>)>,
    stem: Seq<char>,
    hi: Seq<char>,
    lo: Seq<char>,
    k: int,
)
    requires
        stem.len() > 0,
        is_oraja_preference(hi, lo),
        0 <= k < entries.len(),
        entries[k].0 == stem + "."@ + hi,
        entries[k].1,
        entries[k].2 != Some(0u64),
        spec_is_listed_file(entries, stem + "."@ + lo),
    ensures
        exists|m: int|
            0 <= m < spec_media_removals(entries, spec_oraja_rule()).len() && (
            #[trigger] spec_media_removals(entries, spec_oraja_rule())[m]).1 == stem + "."@ + lo,
{
    reveal_strlit("mp4");
    reveal_strlit("avi");
    reveal_strlit("wmv");
    reveal_strlit("mpg");
    reveal_strlit("mpeg");
    reveal_strlit("flac");
    reveal_strlit("wav");
    reveal_strlit("ogg");
    let rl = spec_oraja_rule();
    let name = stem + "."@ + hi;
    lemma_stem_and_extension(stem, hi);
    lemma_stem_and_extension(stem, lo);
    assert(spec_ext_or_empty(name) == hi);
    assert(spec_with_extension(name, lo) == stem + "."@ + lo);
    let (jj, t) = lemma_oraja_pair_index(hi, lo);
    let x = (name, stem + "."@ + lo);
    lemma_lower_cands_has(name, rl[jj].1, entries, rl[jj].1.len() as int, t);
    lemma_rule_cands_has(name, entries, rl, rl.len() as int, jj, x);
    assert(entries[k].2 == Some(0u64) <==> false);
    lemma_entry_cands_has(entries, rl, entries.len() as int, k, x);
    let c = spec_entry_cands(entries, rl, entries.len() as int);
    lemma_dedupe_covers(c, x);
    let m = choose|m: int| 0 <= m < dedupe_targets(c).len() && (#[trigger] dedupe_targets(c)[m]).1 == x.1;
    assert(spec_media_removals(entries, spec_oraja_rule()) == dedupe_targets(c));
    assert(spec_media_removals(entries, spec_oraja_rule())[m].1 == stem + "."@ + lo);
}

/// `x` pairs `name` with its sibling under a lower extension of a rule
/// entry whose preferred extensions hold the extension of `name`.
pub open spec fn is_rule_pair(
    name: Seq<char>,
    rule: Seq<(Seq<Seq<char>>, Seq<Seq<char>>)>,
    x: (Seq<char>, Seq<char>),
) -> bool {
    exists|j: int, t: int|
        #![trigger rule[j].1[t]]
        0 <= j < rule.len() && rule[j].0.contains(spec_ext_or_empty(name)) && 0 <= t
            < rule[j].1.len() && x == (name, spec_with_extension(name, rule[j].1[t]))
}

/// The removal `x = (kept, removed)` is justified by the rule: `kept` is a
/// non-empty regular file of the listing, `removed` is a listed file, and
/// `removed` is the sibling of `kept` under an extension that the rule
/// ranks below that of `kept`.
pub open spec fn is_justified_removal(
    entries: Seq<(Seq<char>, bool, Option<u64>)>,
    rule: Seq<(Seq<Seq<char>>, Seq<Seq<char>>)>,
    x: (Seq<char>, Seq<char>),
) -> bool {
    &&& exists|k: int|
        0 <= k < entries.len() && entries[k].1 && entries[k].2 != Some(0u64) && #[trigger] entries[k].0
            == x.0
    &&& is_rule_pair(x.0, rule, x)
    &&& spec_is_listed_file(entries, x.1)
}

/// Every candidate of the lower extensions is a rule pair when the entry
/// of the rule holds the file's extension.
proof fn lemma_lower_cands_pairs(
    name: Seq<char>,
    rule: Seq<(Seq<Seq<char>>, Seq<Seq<char>>)>,
    jj: int,
    entries: Seq<(Seq<char>, bool, Option<u64>)>,
    k: int,
)
    requires
        0 <= jj < rule.len(),
        rule[jj].0.contains(spec_ext_or_empty(name)),
    ensures
        forall|m: int|
            0 <= m < spec_lower_cands(name, rule[jj].1, entries, k).len() ==> is_rule_pair(
                name,
                rule,
                #[trigger] spec_lower_cands(name, rule[jj].1, entries, k)[m],
            ),
    decreases k,
{
    let lowers = rule[jj].1;
    if k > 0 && k <= lowers.len() {
        lemma_lower_cands_pairs(name, rule, jj, entries, k - 1);
        let prev = spec_lower_cands(name, lowers, entries, k - 1);
        let cur = spec_lower_cands(name, lowers, entries, k);
        assert forall|m: int| 0 <= m < cur.len() implies is_rule_pair(name, rule, #[trigger] cur[m]) by {
            if m < prev.len() {
                assert(cur[m] == prev[m]);
            } else {
                assert(cur[m] == (name, spec_with_extension(name, rule[jj].1[k - 1])));
            }
        }
    }
}

/// Every candidate of the rules for a file is a rule pair, and there is
/// none for an empty file.
proof fn lemma_rule_cands_pairs(
    name: Seq<char>,
    empty: bool,
    entries: Seq<(Seq<char>, bool, Option<u64>)>,
    rule: Seq<(Seq<Seq<char>>, Seq<Seq<char>>)>,
    j: int,
)
    ensures
        empty ==> spec_rule_cands(name, empty, entries, rule, j).len() == 0,
        forall|m: int|
            0 <= m < spec_rule_cands(name, empty, entries, rule, j).len() ==> is_rule_pair(
                name,
                rule,
                #[trigger] spec_rule_cands(name, empty, entries, rule, j)[m],
            ),
    decreases j,
{
    if j > 0 && j <= rule.len() {
        lemma_rule_cands_pairs(name, empty, entries, rule, j - 1);
        let prev = spec_rule_cands(name, empty, entries, rule, j - 1);
        if rule[j - 1].0.contains(spec_ext_or_empty(name)) && !empty {
            let low = spec_lower_cands(name, rule[j - 1].1, entries, rule[j - 1].1.len() as int);
            lemma_lower_cands_pairs(name, rule, j - 1, entries, rule[j - 1].1.len() as int);
            assert forall|m: int| 0 <= m < (prev + low).len() implies is_rule_pair(
                name,
                rule,
                #[trigger] (prev + low)[m],
            ) by {
                if m < prev.len() {
                    assert((prev + low)[m] == prev[m]);
                } else {
                    assert((prev + low)[m] == low[m - prev.len()]);
                }
            }
        }
    }
}

/// Every candidate of the first `i` entries is a justified removal.
proof fn lemma_entry_cands_justified(
    entries: Seq<(Seq<char>, bool, Option<u64>)>,
    rule: Seq<(Seq<Seq<char>>, Seq<Seq<char>>)>,
    i: int,
)
    ensures
        forall|m: int|
            0 <= m < spec_entry_cands(entries, rule, i).len() ==> is_justified_removal(
                entries,
                rule,
                #[trigger] spec_entry_cands(entries, rule, i)[m],
            ),
    decreases i,
{
    if i > 0 && i <= entries.len() {
        lemma_entry_cands_justified(entries, rule, i - 1);
        lemma_entry_cands_listed(entries, rule, i);
        let e = entries[i - 1];
        let prev = spec_entry_cands(entries, rule, i - 1);
        let cur = spec_entry_cands(entries, rule, i);
        if e.1 {
            let more = spec_rule_cands(e.0, e.2 == Some(0u64), entries, rule, rule.len() as int);
            lemma_rule_cands_pairs(e.0, e.2 == Some(0u64), entries, rule, rule.len() as int);
            lemma_rule_cands_listed(e.0, e.2 == Some(0u64), entries, rule, rule.len() as int);
            assert forall|m: int| 0 <= m < cur.len() implies is_justified_removal(
                entries,
                rule,
                #[trigger] cur[m],
            ) by {
                assert(cur == prev + more);
                if m < prev.len() {
                    assert(cur[m] == prev[m]);
                } else {
                    let x = more[m - prev.len()];
                    assert(cur[m] == x);
                    assert(x.0 == e.0);
                    assert(e.2 != Some(0u64));
                    assert(entries[i - 1].0 == x.0);
                }
            }
        }
    }
}

/// Every removal that a rule plans is justified by it: the kept file is a
/// non-empty regular file of the directory, the removed file is listed,
/// and it is the kept file's sibling under an extension that the rule
/// ranks below the kept file's.
pub proof fn lemma_media_removals_justified(
    entries: Seq<(Seq<char>, bool, Option<u64>)>,
    rule: Seq<(Seq<Seq<char>>, Seq<Seq<char>>)>,
)
    ensures
        forall|m: int|
            0 <= m < spec_media_removals(entries, rule).len() ==> is_justified_removal(
                entries,
                rule,
                #[trigger] spec_media_removals(entries, rule)[m],
            ),
{
    let c = spec_entry_cands(entries, rule, entries.len() as int);
    lemma_entry_cands_justified(entries, rule, entries.len() as int);
    lemma_dedupe_subset(c);
    assert forall|m: int| 0 <= m < spec_media_removals(entries, rule).len() implies is_justified_removal(
        entries,
        rule,
        #[trigger] spec_media_removals(entries, rule)[m],
    ) by {
        let x = spec_media_removals(entries, rule)[m];
        assert(c.contains(x));
        let w = choose|w: int| 0 <= w < c.len() && c[w] == x;
        assert(c[w] == x);
    }
}

/// The removal `x = (kept, removed)` follows the ORAJA preferences: the
/// kept file is a non-empty regular file of the directory, and `removed` is
/// its sibling under an extension that the extension of `kept` is
/// preferred to.
pub open spec fn follows_oraja(entries: Seq<(Seq<char>, bool, Option<u64>)>, x: (Seq<char>, Seq<char>)) -> bool {
    &&& exists|lo: Seq<char>|
        is_oraja_preference(spec_ext_or_empty(x.0), lo) && x.1 == #[trigger] spec_with_extension(x.0, lo)
    &&& exists|k: int|
        0 <= k < entries.len() && entries[k].1 && entries[k].2 != Some(0u64) && #[trigger] entries[k].0
            == x.0
}

/// The ORAJA rule removes only what its preferences name: every planned
/// removal follows them.
pub proof fn lemma_oraja_removals_follow_preferences(entries: Seq<(Seq<char>, bool, Option<u64>)>)
    ensures
        forall|m: int|
            0 <= m < spec_media_removals(entries, spec_oraja_rule()).len() ==> follows_oraja(
                entries,
                #[trigger] spec_media_removals(entries, spec_oraja_rule())[m],
            ),
{
    let rl = spec_oraja_rule();
    lemma_media_removals_justified(entries, rl);
    assert forall|m: int| 0 <= m < spec_media_removals(entries, rl).len() implies follows_oraja(
        entries,
        #[trigger] spec_media_removals(entries, rl)[m],
    ) by {
        let x = spec_media_removals(entries, rl)[m];
        assert(is_justified_removal(entries, rl, x));
        let (j, t) = choose|j: int, t: int|
            #![trigger rl[j].1[t]]
            0 <= j < rl.len() && rl[j].0.contains(spec_ext_or_empty(x.0)) && 0 <= t < rl[j].1.len()
                && x == (x.0, spec_with_extension(x.0, rl[j].1[t]));
        let hi = spec_ext_or_empty(x.0);
        let lo = rl[j].1[t];
        let w = choose|w: int| 0 <= w < rl[j].0.len() && rl[j].0[w] == hi;
        assert(is_oraja_preference(hi, lo)) by {
            if j == 0 {
                assert(rl[0].0 == seq!["mp4"@]);
                assert(rl[0].1 == seq!["avi"@, "wmv"@, "mpg"@, "mpeg"@]);
            } else if j == 1 {
                assert(rl[1].0 == seq!["avi"@]);
                assert(rl[1].1 == seq!["wmv"@, "mpg"@, "mpeg"@]);
            } else if j == 2 {
                assert(rl[2].0 == seq!["flac"@, "wav"@]);
                assert(rl[2].1 == seq!["ogg"@]);
            } else if j == 3 {
                assert(rl[3].0 == seq!["flac"@]);
                assert(rl[3].1 == seq!["wav"@]);
            } else {
                assert(rl[4].0 == seq!["mpg"@]);
                assert(rl[4].1 == seq!["wmv"@]);
            }
        }
        assert(x.1 == spec_with_extension(x.0, lo));
    }
}

/// Adding one more candidate is one dedupe step.
pub proof fn lemma_dedupe_push(c: Seq<(Seq<char>, Seq<char>)>, x: (Seq<char>, Seq<char>))
    ensures
        dedupe_targets(c.push(x)) == dedupe_step(dedupe_targets(c), x),
{
    assert(c.push(x).drop_last() =~= c);
}

/// Extends the planned pairs by one candidate, as `dedupe_step` states.
fn add_candidate(pairs: &mut Vec<(String, String)>, kept: String, removed: String)
    ensures
        pairs_view(final(pairs)@) == dedupe_step(pairs_view(old(pairs)@), (kept@, removed@)),
{
    let ghost pv = pairs_view(pairs@);
    let r = str_chars(removed.as_str());
    let mut k: usize = 0;
    while k < pairs.len()
        invariant
            k <= pairs@.len(),
            pv == pairs_view(pairs@),
            r@ == removed@,
            forall|m: int| 0 <= m < k ==> (#[trigger] pv[m]).1 != removed@,
        decreases pairs.len() - k,
    {
        assert(pv[k as int].1 == pairs@[k as int].1@);
        if chars_eq(&str_chars(pairs[k].1.as_str()), &r) {
            return;
        }
        k = k + 1;
    }
    pairs.push((kept, removed));
    assert(pairs_view(pairs@) =~= pv.push((kept@, removed@)));
}

/// Whether some regular file of the listing is named `name`.
fn is_listed_file(files: &[WorkFile], name: &[char]) -> (r: bool)
    ensures
        r == spec_is_listed_file(work_files_view(files@), name@),
{
    let ghost ev = work_files_view(files@);
    let mut k: usize = 0;
    while k < files.len()
        invariant
            k <= files@.len(),
            ev == work_files_view(files@),
            forall|m: int| 0 <= m < k ==> !((#[trigger] ev[m]).1 && ev[m].0 == name@),
        decreases files.len() - k,
    {
        assert(ev[k as int] == (files@[k as int].name@, files@[k as int].is_file, files@[k as int].len));
        if files[k].is_file && chars_eq(&str_chars(files[k].name.as_str()), name) {
            return true;
        }
        k = k + 1;
    }
    false
}

/// Whether the extensions `exts` hold `ext`.
fn exts_contain(exts: &Vec<&'static str>, ext: &[char]) -> (r: bool)
    ensures
        r == exts@.map_values(|s: &str| s@).contains(ext@),
{
    let ghost ev = exts@.map_values(|s: &str| s@);
    let mut k: usize = 0;
    while k < exts.len()
        invariant
            k <= exts@.len(),
            ev == exts@.map_values(|s: &str| s@),
            forall|m: int| 0 <= m < k ==> ev[m] != ext@,
        decreases exts.len() - k,
    {
        if chars_eq(&str_chars(exts[k]), ext) {
            assert(ev[k as int] == ext@);
            return true;
        }
        k = k + 1;
    }
    false
}

/// Whether a listing holds more than one `mp4` file (a hint is shown then).
pub open spec fn spec_has_multiple_mp4(names: Seq<Seq<char>>) -> bool {
    names.filter(|n: Seq<char>| spec_extension(n) == Some("mp4"@)).len() > 1
}

/// Service for removing redundant media files from folders based on
/// priority rules (e.g. keep mp4, remove avi/wmv).
pub struct FolderMediaService {}

impl FolderMediaService {
    /// Create a new `FolderMediaService`.
    pub fn new() -> Self {
        FolderMediaService {  }
    }

    /// The removals that `rule` plans for a work directory with the
    /// entries `files`: pairs `(kept, removed)` of file names, where the
    /// file `removed` goes because the file `kept` exists.
    pub fn workdir_remove_unneed_media_files(&self, files: &[WorkFile], rule: &RemoveMediaRule) -> (r: Vec<
        (String, String),
    >)
        ensures
            pairs_view(r@) == spec_media_removals(work_files_view(files@), rule_view(rule@)),
    {
        let ghost ev = work_files_view(files@);
        let ghost rv = rule_view(rule@);
        let mut pairs: Vec<(String, String)> = Vec::new();
        let mut i: usize = 0;
        while i < files.len()
            invariant
                i <= files@.len(),
                ev == work_files_view(files@),
                rv == rule_view(rule@),
                pairs_view(pairs@) == dedupe_targets(spec_entry_cands(ev, rv, i as int)),
            decreases files.len() - i,
        {
            let ghost base = spec_entry_cands(ev, rv, i as int);
            assert(ev[i as int] == (files@[i as int].name@, files@[i as int].is_file, files@[i as int].len));
            if files[i].is_file {
                let name = str_chars(files[i].name.as_str());
                let ext = match file_extension(&name) {
                    Some(e) => e,
                    None => Vec::new(),
                };
                assert(ext@ == spec_ext_or_empty(name@));
                let empty = match files[i].len {
                    Some(l) => l == 0,
                    None => false,
                };
                let mut j: usize = 0;
                while j < rule.len()
                    invariant
                        i < files@.len(),
                        j <= rule@.len(),
                        ev == work_files_view(files@),
                        rv == rule_view(rule@),
                        name@ == files@[i as int].name@,
                        ext@ == spec_ext_or_empty(name@),
                        empty == (files@[i as int].len == Some(0u64)),
                        base == spec_entry_cands(ev, rv, i as int),
                        pairs_view(pairs@) == dedupe_targets(
                            base + spec_rule_cands(name@, empty, ev, rv, j as int),
                        ),
                    decreases rule.len() - j,
                {
                    let ghost before_rule = base + spec_rule_cands(name@, empty, ev, rv, j as int);
                    let uppers = &rule[j].0;
                    let lowers = &rule[j].1;
                    assert(rv[j as int].0 == uppers@.map_values(|s: &str| s@));
                    assert(rv[j as int].1 == lowers@.map_values(|s: &str| s@));
                    if exts_contain(uppers, &ext) && !empty {
                        let ghost lv = lowers@.map_values(|s: &str| s@);
                        let mut k: usize = 0;
                        while k < lowers.len()
                            invariant
                                k <= lowers@.len(),
                                i < files@.len(),
                                ev == work_files_view(files@),
                                lv == lowers@.map_values(|s: &str| s@),
                                name@ == files@[i as int].name@,
                                pairs_view(pairs@) == dedupe_targets(
                                    before_rule + spec_lower_cands(name@, lv, ev, k as int),
                                ),
                            decreases lowers.len() - k,
                        {
                            let ghost cur = before_rule + spec_lower_cands(name@, lv, ev, k as int);
                            let other = with_extension(&name, &str_chars(lowers[k]));
                            assert(lv[k as int] == lowers@[k as int]@);
                            if is_listed_file(files, &other) {
                                proof {
                                    lemma_dedupe_push(cur, (name@, other@));
                                    assert(before_rule + spec_lower_cands(name@, lv, ev, k + 1)
                                        =~= cur.push((name@, other@)));
                                }
                                add_candidate(
                                    &mut pairs,
                                    files[i].name.clone(),
                                    string_from_chars(&other),
                                );
                            } else {
                                assert(before_rule + spec_lower_cands(name@, lv, ev, k + 1)
                                    =~= cur);
                            }
                            k = k + 1;
                        }
                        assert(base + spec_rule_cands(name@, empty, ev, rv, j + 1) =~= before_rule
                            + spec_lower_cands(name@, lv, ev, lv.len() as int));
                    } else {
                        assert(base + spec_rule_cands(name@, empty, ev, rv, j + 1) =~= before_rule);
                    }
                    j = j + 1;
                }
                assert(spec_entry_cands(ev, rv, i + 1) =~= base + spec_rule_cands(
                    name@,
                    empty,
                    ev,
                    rv,
                    rv.len() as int,
                ));
            } else {
                assert(spec_entry_cands(ev, rv, i + 1) =~= base);
            }
            i = i + 1;
        }
        pairs
    }

    /// Whether the files `file_names` of a work directory hold more than
    /// one `mp4` file.
    pub fn has_multiple_mp4(&self, file_names: &[String]) -> (r: bool)
        ensures
            r == spec_has_multiple_mp4(names_view(file_names@)),
    {
        let ghost all = names_view(file_names@);
        let ghost pred = |n: Seq<char>| spec_extension(n) == Some("mp4"@);
        let mp4 = str_chars("mp4");
        let mut count: usize = 0;
        let mut i: usize = 0;
        while i < file_names.len()
            invariant
                i <= file_names@.len(),
                all == names_view(file_names@),
                mp4@ == "mp4"@,
                pred == (|n: Seq<char>| spec_extension(n) == Some("mp4"@)),
                count == all.subrange(0, i as int).filter(pred).len(),
                count <= i,
            decreases file_names.len() - i,
        {
            let ghost prev = all.subrange(0, i as int);
            assert(all[i as int] == file_names@[i as int]@);
            match file_extension(&str_chars(file_names[i].as_str())) {
                Some(e) => {
                    if chars_eq(&e, &mp4) {
                        count = count + 1;
                    }
                },
                None => {},
            }
            i = i + 1;
            proof {
                assert(all.subrange(0, i as int).drop_last() =~= prev);
                reveal_with_fuel(Seq::<_>::filter, 1);
            }
        }
        assert(all.subrange(0, all.len() as int) =~= all);
        count > 1
    }
}

/// The part of a work folder's name that identifies its number: the first
/// whitespace-separated word (empty when there is none) up to its first `.`.
pub open spec fn spec_numeric_part(name: Seq<char>) -> Seq<char> {
    before_first(
        match first_word(name) {
            Some(w) => w,
            None => seq![],
        },
        '.',
    )
}

/// The name a destination folder `dst` takes from the source folders
/// `srcs`: when its numeric part is all ASCII digits, the first source
/// name that starts with it, if that name differs from `dst`.
pub open spec fn spec_copy_target(srcs: Seq<Seq<char>>, dst: Seq<char>) -> Option<Seq<char>> {
    let num = spec_numeric_part(dst);
    if !all_ascii_digits(num) {
        None
    } else {
        match spec_first_prefixed(srcs, num, 0) {
            Some(j) => if srcs[j] != dst {
                Some(srcs[j])
            } else {
                None
            },
            None => None,
        }
    }
}

/// The renames `(dst, new name)` for the first `n` destination folders.
pub open spec fn spec_copy_renames_upto(srcs: Seq<Seq<char>>, dsts: Seq<Seq<char>>, n: int) -> Seq<
    (Seq<char>, Seq<char>),
>
    decreases n,
{
    if n <= 0 || n > dsts.len() {
        seq![]
    } else {
        let prev = spec_copy_renames_upto(srcs, dsts, n - 1);
        match spec_copy_target(srcs, dsts[n - 1]) {
            Some(t) => prev.push((dsts[n - 1], t)),
            None => prev,
        }
    }
}

/// Service for cleaning up folders: renaming numbered directories and
/// removing zero-sized media and temporary files.
pub struct FolderCleanupService {}

impl FolderCleanupService {
    /// Create a new `FolderCleanupService`.
    pub fn new() -> Self {
        FolderCleanupService {  }
    }

    /// Plan copying names from the source numbered directories (`src_names`)
    /// to the matching destination directories (`dst_names`): the renames
    /// `(dst, new name)` in destination order.
    pub fn copy_numbered_workdir_names(&self, src_names: &[String], dst_names: &[String]) -> (r: Vec<
        (String, String),
    >)
        ensures
            pairs_view(r@) == spec_copy_renames_upto(
                names_view(src_names@),
                names_view(dst_names@),
                dst_names@.len() as int,
            ),
    {
        let ghost srcs = names_view(src_names@);
        let ghost dsts = names_view(dst_names@);
        let mut renames: Vec<(String, String)> = Vec::new();
        let mut i: usize = 0;
        while i < dst_names.len()
            invariant
                i <= dst_names@.len(),
                srcs == names_view(src_names@),
                dsts == names_view(dst_names@),
                pairs_view(renames@) == spec_copy_renames_upto(srcs, dsts, i as int),
            decreases dst_names.len() - i,
        {
            let ghost prev = pairs_view(renames@);
            let dst = str_chars(dst_names[i].as_str());
            assert(dsts[i as int] == dst@);
            let word = match chars_first_word(&dst) {
                Some(w) => w,
                None => Vec::new(),
            };
            let num = chars_before_first(&word, '.');
            assert(num@ == spec_numeric_part(dst@));
            if chars_all_ascii_digits(&num) {
                match crate::pack::first_prefixed_chars(src_names, &num) {
                    Some(j) => {
                        proof {
                            crate::pack::lemma_first_prefixed(srcs, num@, 0);
                        }
                        assert(srcs[j as int] == src_names@[j as int]@);
                        if !chars_eq(&str_chars(src_names[j].as_str()), &dst) {
                            renames.push((dst_names[i].clone(), src_names[j].clone()));
                            assert(pairs_view(renames@) =~= prev.push((dst@, srcs[j as int])));
                        }
                    },
                    None => {},
                }
            }
            i = i + 1;
        }
        renames
    }
}

} // verus!
