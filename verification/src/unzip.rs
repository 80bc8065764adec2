//! Unpacking chart archives into work folders: which archives are taken,
//! where their contents go, how a cache directory is flattened, and how
//! files get their number.
use vstd::prelude::*;

use crate::media::{file_stem, spec_file_stem};
use crate::pack::names_view;
use crate::port::{entries_view, DirEntry, FileMetadata};
use crate::rename::{is_number_char, is_number_name};
use crate::text::{
    all_ascii_digits, before_first, chars_all_ascii_digits, chars_before_first, chars_end_with,
    chars_first_word, chars_rfind_before, chars_slice, chars_start_with, first_word, has_prefix,
    has_suffix, int_decimal, int_to_decimal, is_ascii_digit, is_whitespace,
    lemma_find_char_from_bounds, lemma_rfind_char_bounds, nat_digits, next_ws_from, rfind_char, skip_ws_from,
    spec_to_lowercase, str_chars, string_from, string_from_chars, to_lowercase,
};

verus! {

/// A set file of a pack: the part of its name before the first space is a
/// number of ASCII or fullwidth digits.
pub open spec fn spec_is_num_set_file_name(name: Seq<char>) -> bool {
    let id = before_first(name, ' ');
    id.len() > 0 && is_number_name(id)
}

/// Whether the file `name` is a numbered set file of a pack.
pub fn is_num_set_file_name(name: &str) -> (r: bool)
    ensures
        r == spec_is_num_set_file_name(name@),
{
    let cs = str_chars(name);
    let id = chars_before_first(&cs, ' ');
    if id.len() == 0 {
        return false;
    }
    let mut i: usize = 0;
    while i < id.len()
        invariant
            i <= id.len(),
            id@ == before_first(name@, ' '),
            forall|j: int| 0 <= j < i ==> is_number_char(#[trigger] id@[j]),
        decreases id.len() - i,
    {
        let c = id[i];
        if !(('0' <= c && c <= '9') || ('\u{FF10}' <= c && c <= '\u{FF19}')) {
            assert(!is_number_char(id@[i as int]));
            return false;
        }
        i = i + 1;
    }
    true
}

/// The directory `dir` holds the work `id`: its name is `id`, or `id`
/// followed by a `.` or a space and more.
pub open spec fn spec_is_id_target_dir(dir: Seq<char>, id: Seq<char>) -> bool {
    has_prefix(dir, id) && (dir.len() == id.len() || dir[id.len() as int] == '.' || dir[id.len() as int] == ' ')
}

/// Index of the first directory among `entries[from..]` that holds the work `id`.
pub open spec fn spec_first_id_target(entries: Seq<(Seq<char>, bool)>, id: Seq<char>, from: int) -> Option<int>
    decreases entries.len() - from,
{
    if from < 0 || from >= entries.len() {
        None
    } else if entries[from].1 && spec_is_id_target_dir(entries[from].0, id) {
        Some(from)
    } else {
        spec_first_id_target(entries, id, from + 1)
    }
}

/// Whether the directory `dir_name` holds the work `id`.
pub fn is_id_target_dir(dir_name: &str, id: &str) -> (r: bool)
    ensures
        r == spec_is_id_target_dir(dir_name@, id@),
{
    let d = str_chars(dir_name);
    let i = str_chars(id);
    if !chars_start_with(&d, &i) {
        return false;
    }
    d.len() == i.len() || d[i.len()] == '.' || d[i.len()] == ' '
}

/// The extension after the last `.` of a name, the whole name when it has
/// none: what `name.rsplit('.').next()` yields.
pub open spec fn spec_last_ext(name: Seq<char>) -> Seq<char> {
    match rfind_char(name, '.') {
        Some(i) => name.subrange(i + 1, name.len() as int),
        None => name,
    }
}

/// The extensions of the files that get a number.
pub open spec fn spec_numbering_exts() -> Seq<Seq<char>> {
    seq!["zip"@, "7z"@, "rar"@, "mp4"@, "bms"@, "bme"@, "bml"@, "pms"@]
}

/// A file of a pack directory, with what numbering needs to know of it.
pub struct PackFile {
    /// The file's name.
    pub name: String,
    /// A `{name}.part` file (an unfinished download) lies beside it.
    pub has_part_file: bool,
    /// The file's metadata, when it could be read.
    pub metadata: Option<FileMetadata>,
}

/// The view of a list of pack files: name, part flag and length.
pub open spec fn pack_files_view(v: Seq<PackFile>) -> Seq<(Seq<char>, bool, Option<u64>)> {
    v.map_values(
        |f: PackFile|
            (
                f.name@,
                f.has_part_file,
                match f.metadata {
                    Some(m) => Some(m.len),
                    None => None,
                },
            ),
    )
}

/// A file that `set_file_num` may number: its first word is not a number
/// yet, no download of it is under way, it is not empty, and its extension
/// is one of `spec_numbering_exts`.
pub open spec fn spec_is_numbering_candidate(name: Seq<char>, has_part_file: bool, len: Option<u64>) -> bool {
    &&& !(first_word(name) matches Some(w) && all_ascii_digits(w))
    &&& !has_part_file
    &&& len matches Some(l) && l > 0
    &&& spec_numbering_exts().contains(spec_last_ext(name))
}

/// The names of the first `n` files that may be numbered, in order.
pub open spec fn spec_numbering_candidates(files: Seq<(Seq<char>, bool, Option<u64>)>, n: int) -> Seq<Seq<char>>
    decreases n,
{
    if n <= 0 {
        seq![]
    } else {
        let prev = spec_numbering_candidates(files, n - 1);
        let f = files[n - 1];
        if spec_is_numbering_candidate(f.0, f.1, f.2) {
            prev.push(f.0)
        } else {
            prev
        }
    }
}

/// The name `"{num} {name}"` of a numbered file.
pub open spec fn spec_numbered_name(num: int, name: Seq<char>) -> Seq<char> {
    int_decimal(num) + " "@ + name
}

/// An archive: the name ends with `.zip`, `.7z` or `.rar` (case-sensitive).
pub open spec fn spec_is_archive_name(name: Seq<char>) -> bool {
    has_suffix(name, ".zip"@) || has_suffix(name, ".7z"@) || has_suffix(name, ".rar"@)
}

/// The names of the archive files among the first `n` entries, in order.
pub open spec fn spec_archive_names(entries: Seq<(Seq<char>, bool)>, n: int) -> Seq<Seq<char>>
    decreases n,
{
    if n <= 0 {
        seq![]
    } else {
        let prev = spec_archive_names(entries, n - 1);
        let e = entries[n - 1];
        if e.1 && spec_is_archive_name(e.0) {
            prev.push(e.0)
        } else {
            prev
        }
    }
}

/// The file flags of the entries: name and whether it is a regular file.
pub open spec fn entries_file_view(entries: Seq<DirEntry>) -> Seq<(Seq<char>, bool)> {
    entries.map_values(|e: DirEntry| (e.name@, e.is_file))
}

/// Length of `s[..end]` once its trailing dots are removed.
pub open spec fn trim_dots_len(s: Seq<char>, end: int) -> int
    decreases end,
{
    if end <= 0 || end > s.len() {
        0
    } else if s[end - 1] == '.' {
        trim_dots_len(s, end - 1)
    } else {
        end
    }
}

/// The folder an archive is unpacked into: the archive's file stem without
/// trailing dots.
pub open spec fn spec_archive_dir_name(file_name: Seq<char>) -> Seq<char> {
    let stem = spec_file_stem(file_name);
    stem.subrange(0, trim_dots_len(stem, stem.len() as int))
}

/// A file of a cache directory that is a chart: its lower-cased name ends
/// with one of `exts`.
pub open spec fn spec_is_chart_name(name: Seq<char>, exts: Seq<Seq<char>>) -> bool {
    exists|k: int| 0 <= k < exts.len() && has_suffix(spec_to_lowercase(name), #[trigger] exts[k])
}

/// The decimal digits of a natural number are a non-empty run of ASCII digits.
pub proof fn lemma_nat_digits_are_digits(n: nat)
    ensures
        nat_digits(n).len() > 0,
        all_ascii_digits(nat_digits(n)),
    decreases n,
{
    if n >= 10 {
        lemma_nat_digits_are_digits(n / 10);
        let d = nat_digits(n);
        assert forall|i: int| 0 <= i < d.len() implies is_ascii_digit(#[trigger] d[i]) by {
            if i < d.len() - 1 {
                assert(d[i] == nat_digits(n / 10)[i]);
            }
        }
    }
}

/// From `j` on, the first whitespace of `s` is at `k` when none lies between.
proof fn lemma_next_ws_at(s: Seq<char>, j: int, k: int)
    requires
        0 <= j <= k < s.len(),
        is_whitespace(s[k]),
        forall|i: int| j <= i < k ==> !is_whitespace(#[trigger] s[i]),
    ensures
        next_ws_from(s, j) == k,
    decreases k - j,
{
    if j < k {
        lemma_next_ws_at(s, j + 1, k);
    }
}

/// A file that `set_file_num` numbered is a numbered set file under that
/// number, and is not offered for numbering again.
pub proof fn lemma_numbered_file_is_final(num: int, name: Seq<char>, has_part_file: bool, len: Option<u64>)
    requires
        num >= 0,
    ensures
        spec_is_num_set_file_name(spec_numbered_name(num, name)),
        first_word(spec_numbered_name(num, name)) == Some(int_decimal(num)),
        !spec_is_numbering_candidate(spec_numbered_name(num, name), has_part_file, len),
{
    reveal_strlit(" ");
    let d = int_decimal(num);
    let s = spec_numbered_name(num, name);
    lemma_nat_digits_are_digits(num as nat);
    let k = d.len() as int;
    assert(s[k] == ' ');
    assert forall|i: int| 0 <= i < k implies s[i] != ' ' && !is_whitespace(#[trigger] s[i]) by {
        assert(s[i] == d[i]);
        assert(is_ascii_digit(d[i]));
    }
    lemma_find_char_from_bounds(s, ' ', 0);
    assert(s.subrange(0, k) =~= d);
    assert(before_first(s, ' ') == d);
    assert forall|i: int| 0 <= i < d.len() implies is_number_char(#[trigger] d[i]) by {
        assert(is_ascii_digit(d[i]));
    }
    assert(skip_ws_from(s, 0) == 0) by {
        assert(!is_whitespace(s[0]));
    }
    lemma_next_ws_at(s, 0, k);
}

/// The extension after the last `.` of `stem.ext` is `ext`, for an `ext`
/// without dots.
proof fn lemma_last_ext_of(stem: Seq<char>, ext: Seq<char>)
    requires
        forall|i: int| 0 <= i < ext.len() ==> ext[i] != '.',
    ensures
        spec_last_ext(stem + "."@ + ext) == ext,
{
    reveal_strlit(".");
    let name = stem + "."@ + ext;
    let k = stem.len() as int;
    assert(name[k] == '.');
    lemma_rfind_char_bounds(name, '.', name.len() as int);
    match rfind_char(name, '.') {
        Some(i) => {
            if i > k {
                assert(name[i] == ext[i - k - 1]);
            }
            assert(name.subrange(k + 1, name.len() as int) =~= ext);
        },
        None => {},
    }
}

/// The files offered for numbering are the packs and charts: a file that
/// is not empty, has no download under way and is not numbered yet is
/// offered exactly when its extension is `zip`, `7z`, `rar`, `mp4`, `bms`,
/// `bme`, `bml` or `pms`; an empty file, one not measured, or one still
/// downloading never is.
pub proof fn lemma_numbering_candidate_by_extension(stem: Seq<char>, ext: Seq<char>, len: u64)
    requires
        forall|i: int| 0 <= i < ext.len() ==> ext[i] != '.',
    ensures
        len > 0 && !(first_word(stem + "."@ + ext) matches Some(w) && all_ascii_digits(w)) ==> (
        spec_is_numbering_candidate(stem + "."@ + ext, false, Some(len)) <==> (ext == "zip"@ || ext
            == "7z"@ || ext == "rar"@ || ext == "mp4"@ || ext == "bms"@ || ext == "bme"@ || ext
            == "bml"@ || ext == "pms"@)),
        !spec_is_numbering_candidate(stem + "."@ + ext, true, Some(len)),
        !spec_is_numbering_candidate(stem + "."@ + ext, false, Some(0u64)),
        !spec_is_numbering_candidate(stem + "."@ + ext, false, None),
{
    lemma_last_ext_of(stem, ext);
    let exts = spec_numbering_exts();
    assert(exts[0] == "zip"@);
    assert(exts[1] == "7z"@);
    assert(exts[2] == "rar"@);
    assert(exts[3] == "mp4"@);
    assert(exts[4] == "bms"@);
    assert(exts[5] == "bme"@);
    assert(exts[6] == "bml"@);
    assert(exts[7] == "pms"@);
    assert(exts.len() == 8);
    if exts.contains(ext) {
        let i = choose|i: int| 0 <= i < exts.len() && exts[i] == ext;
        assert(0 <= i < 8);
    }
}

/// The directory made for the work `id` holds that work.
pub proof fn lemma_id_dir_holds_id(id: Seq<char>)
    ensures
        spec_is_id_target_dir(id, id),
{
    assert(id.subrange(0, id.len() as int) =~= id);
}

/// The extensions of chart files, lower case.
pub open spec fn spec_chart_file_exts() -> Seq<Seq<char>> {
    seq![".bms"@, ".bme"@, ".bml"@, ".pms"@, ".bmson"@]
}

/// The extensions of chart files, in the order of `spec_chart_file_exts`;
/// a cache directory with a chart below it is in place.
pub fn chart_file_exts() -> (r: Vec<&'static str>)
    ensures
        r@.map_values(|s: &str| s@) == spec_chart_file_exts(),
{
    let r = vec![".bms", ".bme", ".bml", ".pms", ".bmson"];
    assert(r@.map_values(|s: &str| s@) =~= spec_chart_file_exts());
    r
}

/// What flattening a cache directory does after one look at it.
#[derive(Debug, Clone, Copy, PartialEq, Eq, Structural)]
pub enum FlattenStep {
    /// The contents are in place.
    Done,
    /// Several folders and no chart among them: it has to be done by hand.
    Fail,
    /// One folder and few files: move the folder's contents up and look again.
    MoveInner,
}

/// The step that flattening takes on a cache directory with `folder_count`
/// folders and `file_count` files; `has_chart` (whether some file below the
/// directory is a chart) counts only when there are several folders.
pub fn cache_flatten_step(folder_count: usize, file_count: usize, has_chart: bool) -> (r: FlattenStep)
    ensures
        (folder_count == 0 || (folder_count == 1 && file_count >= 10)) ==> r == FlattenStep::Done,
        folder_count > 1 ==> r == (if has_chart {
            FlattenStep::Done
        } else {
            FlattenStep::Fail
        }),
        folder_count == 1 && file_count < 10 ==> r == FlattenStep::MoveInner,
{
    if folder_count == 0 || (folder_count == 1 && file_count >= 10) {
        FlattenStep::Done
    } else if folder_count > 1 {
        if has_chart {
            FlattenStep::Done
        } else {
            FlattenStep::Fail
        }
    } else {
        FlattenStep::MoveInner
    }
}

/// Whether flattening a cache directory succeeded: it did not fail, and
/// the directory holds something (an empty one is removed).
pub fn cache_flatten_succeeded(failed: bool, folder_count: usize, file_count: usize) -> (r: bool)
    ensures
        r == (!failed && (folder_count > 0 || file_count > 0)),
{
    !failed && (folder_count > 0 || file_count > 0)
}

/// Whether the file `name` is a chart, by the extensions `exts` (compared
/// with the lower-cased name).
pub fn is_chart_name(name: &str, exts: &[&str]) -> (r: bool)
    ensures
        r == spec_is_chart_name(name@, exts@.map_values(|s: &str| s@)),
{
    let ghost ev = exts@.map_values(|s: &str| s@);
    let lower = to_lowercase(name);
    let l = str_chars(lower.as_str());
    let mut i: usize = 0;
    while i < exts.len()
        invariant
            i <= exts@.len(),
            ev == exts@.map_values(|s: &str| s@),
            l@ == spec_to_lowercase(name@),
            forall|k: int| 0 <= k < i ==> !has_suffix(spec_to_lowercase(name@), #[trigger] ev[k]),
        decreases exts.len() - i,
    {
        let e = str_chars(exts[i]);
        assert(ev[i as int] == exts@[i as int]@);
        if chars_end_with(&l, &e) {
            return true;
        }
        i = i + 1;
    }
    false
}

/// The extensions of the files that get a number, in the order of
/// `spec_numbering_exts`.
fn numbering_exts() -> (r: Vec<&'static str>)
    ensures
        r@.map_values(|s: &str| s@) == spec_numbering_exts(),
{
    let r = vec!["zip", "7z", "rar", "mp4", "bms", "bme", "bml", "pms"];
    assert(r@.map_values(|s: &str| s@) =~= spec_numbering_exts());
    r
}

/// The extension after the last `.` of `name`, as `spec_last_ext` states.
fn last_ext(name: &[char]) -> (r: Vec<char>)
    ensures
        r@ == spec_last_ext(name@),
{
    match chars_rfind_before(name, '.', name.len()) {
        Some(i) => {
            proof {
                lemma_rfind_char_bounds(name@, '.', name@.len() as int);
            }
            chars_slice(name, i + 1, name.len())
        },
        None => {
            let r = chars_slice(name, 0, name.len());
            assert(name@.subrange(0, name@.len() as int) =~= name@);
            r
        },
    }
}

/// Whether `ext` is one of the extensions of files that get a number.
fn is_numbering_ext(ext: &[char]) -> (r: bool)
    ensures
        r == spec_numbering_exts().contains(ext@),
{
    let exts = numbering_exts();
    let mut i: usize = 0;
    while i < exts.len()
        invariant
            i <= exts@.len(),
            exts@.map_values(|s: &str| s@) == spec_numbering_exts(),
            forall|k: int| 0 <= k < i ==> spec_numbering_exts()[k] != ext@,
        decreases exts.len() - i,
    {
        let e = str_chars(exts[i]);
        assert(spec_numbering_exts()[i as int] == exts@[i as int]@);
        if crate::text::chars_eq(&e, ext) {
            return true;
        }
        i = i + 1;
    }
    false
}

/// Whether the file `name` may be numbered, as `spec_is_numbering_candidate` states.
pub fn is_numbering_candidate(name: &str, has_part_file: bool, len: Option<u64>) -> (r: bool)
    ensures
        r == spec_is_numbering_candidate(name@, has_part_file, len),
{
    let cs = str_chars(name);
    match chars_first_word(&cs) {
        Some(w) => {
            if chars_all_ascii_digits(&w) {
                return false;
            }
        },
        None => {},
    }
    if has_part_file {
        return false;
    }
    match len {
        Some(l) => {
            if l == 0 {
                return false;
            }
        },
        None => {
            return false;
        },
    }
    let ext = last_ext(&cs);
    is_numbering_ext(&ext)
}

/// Service for extracting BMS archive files (numeric and name-based modes).
pub struct UnzipService {}

impl UnzipService {
    /// Create a new `UnzipService`.
    pub fn new() -> Self {
        UnzipService {}
    }

    /// The work number of a numbered pack file: the first whitespace-separated
    /// word of its name; none for a blank name.
    pub fn numeric_id(&self, file_name: &str) -> (r: Option<String>)
        ensures
            match r {
                Some(id) => first_word(file_name@) == Some(id@),
                None => first_word(file_name@) is None,
            },
    {
        let cs = str_chars(file_name);
        match chars_first_word(&cs) {
            Some(w) => Some(string_from_chars(&w)),
            None => None,
        }
    }

    /// The first directory among the entries of the root that holds the work
    /// `id` (its contents go there; none: a directory named `id` is made).
    pub fn find_id_target_dir(&self, entries: &[DirEntry], id: &str) -> (r: Option<usize>)
        ensures
            match r {
                Some(i) => spec_first_id_target(entries_view(entries@), id@, 0) == Some(i as int),
                None => spec_first_id_target(entries_view(entries@), id@, 0) is None,
            },
    {
        let ghost ev = entries_view(entries@);
        let mut i: usize = 0;
        while i < entries.len()
            invariant
                i <= entries.len(),
                ev == entries_view(entries@),
                spec_first_id_target(ev, id@, 0) == spec_first_id_target(ev, id@, i as int),
            decreases entries.len() - i,
        {
            if entries[i].is_dir && is_id_target_dir(entries[i].name.as_str(), id) {
                return Some(i);
            }
            i = i + 1;
        }
        None
    }

    /// The names of the files that `set_file_num` offers for numbering, in
    /// the order of `files`.
    pub fn numbering_candidates(&self, files: &[PackFile]) -> (r: Vec<String>)
        ensures
            names_view(r@) == spec_numbering_candidates(pack_files_view(files@), files@.len() as int),
    {
        let ghost fv = pack_files_view(files@);
        let mut r: Vec<String> = Vec::new();
        let mut i: usize = 0;
        while i < files.len()
            invariant
                i <= files.len(),
                fv == pack_files_view(files@),
                names_view(r@) == spec_numbering_candidates(fv, i as int),
            decreases files.len() - i,
        {
            let f = &files[i];
            let len = match f.metadata {
                Some(m) => Some(m.len),
                None => None,
            };
            if is_numbering_candidate(f.name.as_str(), f.has_part_file, len) {
                r.push(string_from(f.name.as_str()));
            }
            assert(names_view(r@) =~= spec_numbering_candidates(fv, i + 1));
            i = i + 1;
        }
        r
    }

    /// The rename that gives the `file_idx`-th candidate the number `num`:
    /// `(name, "{num} {name}")`; none for an index past the candidates.
    pub fn set_file_num_target(&self, candidates: &[String], file_idx: usize, num: i32) -> (r: Option<(String, String)>)
        ensures
            file_idx < candidates@.len() ==> (r matches Some(p) && p.0@ == candidates@[file_idx as int]@
                && p.1@ == spec_numbered_name(num as int, candidates@[file_idx as int]@)),
            file_idx >= candidates@.len() ==> r is None,
    {
        if file_idx >= candidates.len() {
            return None;
        }
        let name = candidates[file_idx].as_str();
        let digits = int_to_decimal(num as i64);
        let mut s = string_from_chars(&digits);
        s.append(" ");
        s.append(name);
        Some((string_from(name), s))
    }

    /// The names of the archive files among the entries of a pack directory.
    pub fn archive_names(&self, entries: &[DirEntry]) -> (r: Vec<String>)
        ensures
            names_view(r@) == spec_archive_names(entries_file_view(entries@), entries@.len() as int),
    {
        let ghost ev = entries_file_view(entries@);
        let zip = str_chars(".zip");
        let sz = str_chars(".7z");
        let rar = str_chars(".rar");
        let mut r: Vec<String> = Vec::new();
        let mut i: usize = 0;
        while i < entries.len()
            invariant
                i <= entries.len(),
                ev == entries_file_view(entries@),
                zip@ == ".zip"@,
                sz@ == ".7z"@,
                rar@ == ".rar"@,
                names_view(r@) == spec_archive_names(ev, i as int),
            decreases entries.len() - i,
        {
            let e = &entries[i];
            if e.is_file {
                let n = str_chars(e.name.as_str());
                if chars_end_with(&n, &zip) || chars_end_with(&n, &sz) || chars_end_with(&n, &rar) {
                    r.push(string_from(e.name.as_str()));
                }
            }
            assert(names_view(r@) =~= spec_archive_names(ev, i + 1));
            i = i + 1;
        }
        r
    }

    /// The folder an archive is unpacked into: its file stem without
    /// trailing dots.
    pub fn archive_dir_name(&self, file_name: &str) -> (r: String)
        ensures
            r@ == spec_archive_dir_name(file_name@),
    {
        let cs = str_chars(file_name);
        let stem = file_stem(&cs);
        let mut end: usize = stem.len();
        while end > 0 && stem[end - 1] == '.'
            invariant
                end <= stem.len(),
                trim_dots_len(stem@, stem@.len() as int) == trim_dots_len(stem@, end as int),
            decreases end,
        {
            end = end - 1;
        }
        let t = chars_slice(&stem, 0, end);
        string_from_chars(&t)
    }
}

} // verus!
