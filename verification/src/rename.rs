//! Renaming work folders by the title and artist of the charts inside.
use vstd::prelude::*;

use crate::fs_name::{
    get_valid_fs_name, is_fs_forbidden, is_fs_safe, lemma_valid_fs_name_is_safe, spec_valid_fs_name,
    valid_fs_char,
};
use crate::pack::pairs_view;
use crate::port::{entries_view, DirEntry};
use crate::text::{
    chars_find_from, chars_slice, chars_trim, find_char, is_ascii_digit,
    is_fullwidth_digit, lemma_find_char_from_bounds, str_chars, str_eq, string_from,
    string_from_chars, trim, trim_end_len, trim_start, skip_ws_from,
};

verus! {

/// `c` is an ASCII or a fullwidth digit.
pub open spec fn is_number_char(c: char) -> bool {
    is_ascii_digit(c) || is_fullwidth_digit(c)
}

/// Every character of `s` is an ASCII or a fullwidth digit.
pub open spec fn is_number_name(s: Seq<char>) -> bool {
    forall|i: int| 0 <= i < s.len() ==> is_number_char(#[trigger] s[i])
}

/// A folder that `append_name_by_bms` names: its name is not blank and is
/// made of digits only.
pub open spec fn spec_wants_bms_name(name: Seq<char>) -> bool {
    trim(name).len() > 0 && is_number_name(name)
}

/// `"{title} [{artist}]"`, each part made file-system safe.
pub open spec fn spec_bms_name(title: Seq<char>, artist: Seq<char>) -> Seq<char> {
    spec_valid_fs_name(title) + " ["@ + spec_valid_fs_name(artist) + "]"@
}

/// The new name of a numbered folder `dir` whose charts carry `title` and
/// `artist`: `"{dir}. {title} [{artist}]"` with `dir` trimmed; none for a
/// folder with another name, or when title and artist are both empty.
pub open spec fn spec_rename_folder_by_bms(dir: Seq<char>, title: Seq<char>, artist: Seq<char>) -> Option<Seq<char>> {
    if trim(dir).len() > 0 && !is_number_name(dir) {
        None
    } else if title.len() == 0 && artist.len() == 0 {
        None
    } else {
        Some(trim(dir) + ". "@ + spec_bms_name(title, artist))
    }
}

/// `s` ends with `]`.
pub open spec fn ends_with_bracket(s: Seq<char>) -> bool {
    s.len() > 0 && s.last() == ']'
}

/// The name `"{dir} [{artist}]"` of a folder that does not end with `]` yet.
pub open spec fn spec_artist_appended_name(dir: Seq<char>, artist: Seq<char>) -> Option<Seq<char>> {
    if ends_with_bracket(dir) {
        None
    } else {
        Some(dir + " ["@ + spec_valid_fs_name(artist) + "]"@)
    }
}

/// The name `set_name_by_bms` gives a folder: `"{title} [{artist}]"`, none
/// when title and artist are both empty.
pub open spec fn spec_set_name_target(title: Seq<char>, artist: Seq<char>) -> Option<Seq<char>> {
    if title.len() == 0 && artist.len() == 0 {
        None
    } else {
        Some(spec_bms_name(title, artist))
    }
}

/// The name `undo_set_name` gives a folder: the part before its first
/// space; none when the name holds no space (it stays as it is), or when
/// it starts with a space (the empty part names the root itself, which is
/// a directory, so the folder is kept).
pub open spec fn spec_undo_target(name: Seq<char>) -> Option<Seq<char>> {
    match find_char(name, ' ') {
        Some(i) => if i > 0 {
            Some(name.subrange(0, i))
        } else {
            None
        },
        None => None,
    }
}

/// A work directory with the title and artist of its charts, when it has any.
pub struct WorkDirInfo {
    /// The directory's name.
    pub name: String,
    /// Title and artist read from the directory's charts.
    pub info: Option<(String, String)>,
}

/// The view of a title and artist pair.
pub open spec fn info_view(info: Option<(String, String)>) -> Option<(Seq<char>, Seq<char>)> {
    match info {
        Some(p) => Some((p.0@, p.1@)),
        None => None,
    }
}

/// The views of a list of work directories.
pub open spec fn work_dirs_view(v: Seq<WorkDirInfo>) -> Seq<(Seq<char>, Option<(Seq<char>, Seq<char>)>)> {
    v.map_values(|d: WorkDirInfo| (d.name@, info_view(d.info)))
}

/// The renames `append_name_by_bms` makes among the first `n` directories:
/// each numbered directory whose charts have a title or an artist, in order.
pub open spec fn spec_append_name_plan(dirs: Seq<(Seq<char>, Option<(Seq<char>, Seq<char>)>)>, n: int) -> Seq<(Seq<char>, Seq<char>)>
    decreases n,
{
    if n <= 0 {
        seq![]
    } else {
        let prev = spec_append_name_plan(dirs, n - 1);
        let d = dirs[n - 1];
        if spec_wants_bms_name(d.0) {
            match d.1 {
                Some(ta) => match spec_rename_folder_by_bms(d.0, ta.0, ta.1) {
                    Some(new_name) => prev.push((d.0, new_name)),
                    None => prev,
                },
                None => prev,
            }
        } else {
            prev
        }
    }
}

/// The renames `append_artist_name_by_bms` makes among the first `n`
/// directories: each one not ending with `]` whose charts were read.
pub open spec fn spec_append_artist_plan(dirs: Seq<(Seq<char>, Option<(Seq<char>, Seq<char>)>)>, n: int) -> Seq<(Seq<char>, Seq<char>)>
    decreases n,
{
    if n <= 0 {
        seq![]
    } else {
        let prev = spec_append_artist_plan(dirs, n - 1);
        let d = dirs[n - 1];
        match d.1 {
            Some(ta) => match spec_artist_appended_name(d.0, ta.1) {
                Some(new_name) => prev.push((d.0, new_name)),
                None => prev,
            },
            None => prev,
        }
    }
}

/// Some directory among `entries` is named `name`.
pub open spec fn spec_has_dir_named(entries: Seq<(Seq<char>, bool)>, name: Seq<char>) -> bool {
    exists|j: int| 0 <= j < entries.len() && entries[j].1 && #[trigger] entries[j].0 == name
}

/// The renames `undo_set_name` makes among the first `n` entries: each
/// directory whose name holds a space goes to the part before it, unless a
/// directory of that name exists already or an earlier rename made one.
pub open spec fn spec_undo_plan(entries: Seq<(Seq<char>, bool)>, n: int) -> Seq<(Seq<char>, Seq<char>)>
    decreases n,
{
    if n <= 0 {
        seq![]
    } else {
        let prev = spec_undo_plan(entries, n - 1);
        let e = entries[n - 1];
        match spec_undo_target(e.0) {
            Some(t) => if e.1 && !spec_has_dir_named(entries, t) && !prev.map_values(
                |p: (Seq<char>, Seq<char>)| p.1,
            ).contains(t) {
                prev.push((e.0, t))
            } else {
                prev
            },
            None => prev,
        }
    }
}

/// Appending the artist is done once: a renamed folder ends with `]`, so
/// `append_artist_name_by_bms` leaves it as it is next time.
pub proof fn lemma_artist_appended_once(dir: Seq<char>, artist: Seq<char>, other_artist: Seq<char>)
    requires
        spec_artist_appended_name(dir, artist) is Some,
    ensures
        spec_artist_appended_name(spec_artist_appended_name(dir, artist)->0, other_artist) is None,
{
    reveal_strlit("]");
}

/// A folder that `append_name_by_bms` renamed is not renamed by it again:
/// its new name holds a `.`, so it is no bare number.
pub proof fn lemma_bms_named_folder_is_final(dir: Seq<char>, title: Seq<char>, artist: Seq<char>)
    requires
        spec_rename_folder_by_bms(dir, title, artist) is Some,
    ensures
        !spec_wants_bms_name(spec_rename_folder_by_bms(dir, title, artist)->0),
{
    reveal_strlit(". ");
    let n = spec_rename_folder_by_bms(dir, title, artist)->0;
    let k = trim(dir).len() as int;
    assert(n[k] == '.');
    assert(!is_number_char(n[k]));
}

/// `undo_set_name` reverts `set_name_by_bms`: the folder named
/// `"{title} [{artist}]"` goes back to `{title}` (made file-system safe),
/// for a non-empty title without spaces.
pub proof fn lemma_undo_reverts_set_name(title: Seq<char>, artist: Seq<char>)
    requires
        forall|i: int| 0 <= i < title.len() ==> title[i] != ' ',
        title.len() > 0,
    ensures
        spec_undo_target(spec_set_name_target(title, artist)->0) == Some(spec_valid_fs_name(title)),
{
    reveal_strlit(" [");
    let n = spec_set_name_target(title, artist)->0;
    let v = spec_valid_fs_name(title);
    let k = v.len() as int;
    assert(n[k] == ' ');
    assert forall|j: int| 0 <= j < k implies n[j] != ' ' by {
        assert(n[j] == valid_fs_char(title[j]));
    }
    lemma_find_char_from_bounds(n, ' ', 0);
    assert(find_char(n, ' ') == Some(k));
    assert(n.subrange(0, k) =~= v);
}

/// Undoing is done once: the new name holds no space, so it is kept next time.
pub proof fn lemma_undo_target_is_final(name: Seq<char>)
    requires
        spec_undo_target(name) is Some,
    ensures
        spec_undo_target(spec_undo_target(name)->0) is None,
{
    lemma_find_char_from_bounds(name, ' ', 0);
    let t = spec_undo_target(name)->0;
    lemma_find_char_from_bounds(t, ' ', 0);
}

/// The first non-whitespace position from `from` lies between `from` and
/// the end.
proof fn lemma_skip_ws_bounds(s: Seq<char>, from: int)
    requires
        0 <= from <= s.len(),
    ensures
        from <= skip_ws_from(s, from) <= s.len(),
    decreases s.len() - from,
{
    if from < s.len() && crate::text::is_whitespace(s[from]) {
        lemma_skip_ws_bounds(s, from + 1);
    }
}

/// The length without trailing whitespace lies between 0 and `end`.
proof fn lemma_trim_end_len_bounds(s: Seq<char>, end: int)
    requires
        0 <= end <= s.len(),
    ensures
        0 <= trim_end_len(s, end) <= end,
    decreases end,
{
    if end > 0 && crate::text::is_whitespace(s[end - 1]) {
        lemma_trim_end_len_bounds(s, end - 1);
    }
}

/// Trimming keeps a name safe: every character of the trimmed name is one
/// of the name.
proof fn lemma_trim_fs_safe(s: Seq<char>)
    requires
        is_fs_safe(s),
    ensures
        is_fs_safe(trim(s)),
{
    lemma_skip_ws_bounds(s, 0);
    let a = skip_ws_from(s, 0);
    let t = trim_start(s);
    lemma_trim_end_len_bounds(t, t.len() as int);
    assert forall|i: int| 0 <= i < trim(s).len() implies !is_fs_forbidden(#[trigger] trim(s)[i]) by {
        assert(trim(s)[i] == t[i]);
        assert(t[i] == s[a + i]);
    }
}

/// A digit is no character that file systems refuse.
proof fn lemma_number_name_fs_safe(s: Seq<char>)
    requires
        is_number_name(s),
    ensures
        is_fs_safe(s),
{
    assert forall|i: int| 0 <= i < s.len() implies !is_fs_forbidden(#[trigger] s[i]) by {
        assert(is_number_char(s[i]));
    }
}

/// `"{title} [{artist}]"` made of the sanitised parts is safe.
proof fn lemma_bms_name_fs_safe(title: Seq<char>, artist: Seq<char>)
    ensures
        is_fs_safe(spec_bms_name(title, artist)),
{
    reveal_strlit(" [");
    reveal_strlit("]");
    lemma_valid_fs_name_is_safe(title);
    lemma_valid_fs_name_is_safe(artist);
    let t = spec_valid_fs_name(title);
    let a = spec_valid_fs_name(artist);
    let n = spec_bms_name(title, artist);
    assert forall|i: int| 0 <= i < n.len() implies !is_fs_forbidden(#[trigger] n[i]) by {
        if i < t.len() {
            assert(n[i] == t[i]);
        } else if i < t.len() + 2 {
        } else if i < t.len() + 2 + a.len() {
            assert(n[i] == a[i - t.len() - 2]);
        }
    }
}

/// Every new name that a rename plans is safe on file systems: the names
/// made from a title and an artist always are, and those made from a
/// folder's own name (appending the artist, undoing a rename) are when
/// that name is.
pub proof fn lemma_rename_targets_fs_safe(dir: Seq<char>, title: Seq<char>, artist: Seq<char>)
    ensures
        spec_set_name_target(title, artist) matches Some(n) ==> is_fs_safe(n),
        spec_rename_folder_by_bms(dir, title, artist) matches Some(n) ==> is_fs_safe(n),
        is_fs_safe(dir) ==> (spec_artist_appended_name(dir, artist) matches Some(n) ==> is_fs_safe(n)),
        is_fs_safe(dir) ==> (spec_undo_target(dir) matches Some(n) ==> is_fs_safe(n)),
{
    reveal_strlit(" [");
    reveal_strlit("]");
    reveal_strlit(". ");
    lemma_bms_name_fs_safe(title, artist);
    if let Some(n) = spec_rename_folder_by_bms(dir, title, artist) {
        let t = trim(dir);
        if t.len() > 0 {
            lemma_number_name_fs_safe(dir);
            lemma_trim_fs_safe(dir);
        }
        let b = spec_bms_name(title, artist);
        assert forall|i: int| 0 <= i < n.len() implies !is_fs_forbidden(#[trigger] n[i]) by {
            if i < t.len() {
                assert(n[i] == t[i]);
            } else if i < t.len() + 2 {
            } else {
                assert(n[i] == b[i - t.len() - 2]);
            }
        }
    }
    if is_fs_safe(dir) {
        if let Some(n) = spec_artist_appended_name(dir, artist) {
            lemma_valid_fs_name_is_safe(artist);
            let a = spec_valid_fs_name(artist);
            assert forall|i: int| 0 <= i < n.len() implies !is_fs_forbidden(#[trigger] n[i]) by {
                if i < dir.len() {
                    assert(n[i] == dir[i]);
                } else if i < dir.len() + 2 {
                } else if i < dir.len() + 2 + a.len() {
                    assert(n[i] == a[i - dir.len() - 2]);
                }
            }
        }
        if let Some(n) = spec_undo_target(dir) {
            lemma_find_char_from_bounds(dir, ' ', 0);
            assert forall|i: int| 0 <= i < n.len() implies !is_fs_forbidden(#[trigger] n[i]) by {
                assert(n[i] == dir[i]);
            }
        }
    }
}

/// The rename plans lead only to safe names: every target of
/// `append_name_by_bms` is safe, and every target of
/// `append_artist_name_by_bms` and `undo_set_name` is safe when the
/// folder renamed is.
pub proof fn lemma_rename_plans_fs_safe(
    dirs: Seq<(Seq<char>, Option<(Seq<char>, Seq<char>)>)>,
    entries: Seq<(Seq<char>, bool)>,
    n: int,
)
    ensures
        forall|k: int|
            0 <= k < spec_append_name_plan(dirs, n).len() ==> is_fs_safe(
                (#[trigger] spec_append_name_plan(dirs, n)[k]).1,
            ),
        forall|k: int|
            0 <= k < spec_append_artist_plan(dirs, n).len() && is_fs_safe(
                (#[trigger] spec_append_artist_plan(dirs, n)[k]).0,
            ) ==> is_fs_safe(spec_append_artist_plan(dirs, n)[k].1),
        forall|k: int|
            0 <= k < spec_undo_plan(entries, n).len() && is_fs_safe(
                (#[trigger] spec_undo_plan(entries, n)[k]).0,
            ) ==> is_fs_safe(spec_undo_plan(entries, n)[k].1),
    decreases n,
{
    if n > 0 {
        lemma_rename_plans_fs_safe(dirs, entries, n - 1);
        let p1 = spec_append_name_plan(dirs, n - 1);
        let p2 = spec_append_artist_plan(dirs, n - 1);
        let p3 = spec_undo_plan(entries, n - 1);
        let d = dirs[n - 1];
        match d.1 {
            Some(ta) => lemma_rename_targets_fs_safe(d.0, ta.0, ta.1),
            None => {},
        }
        lemma_rename_targets_fs_safe(entries[n - 1].0, seq![], seq![]);
        let c1 = spec_append_name_plan(dirs, n);
        let c2 = spec_append_artist_plan(dirs, n);
        let c3 = spec_undo_plan(entries, n);
        assert forall|k: int| 0 <= k < c1.len() implies is_fs_safe((#[trigger] c1[k]).1) by {
            if k < p1.len() {
                assert(c1[k] == p1[k]);
            }
        }
        assert forall|k: int| 0 <= k < c2.len() && is_fs_safe((#[trigger] c2[k]).0) implies is_fs_safe(
            c2[k].1,
        ) by {
            if k < p2.len() {
                assert(c2[k] == p2[k]);
            }
        }
        assert forall|k: int| 0 <= k < c3.len() && is_fs_safe((#[trigger] c3[k]).0) implies is_fs_safe(
            c3[k].1,
        ) by {
            if k < p3.len() {
                assert(c3[k] == p3[k]);
            }
        }
    }
}

/// `undo_set_name` never renames two folders to one name, nor a folder to
/// the name of a directory that exists.
pub proof fn lemma_undo_plan_targets_are_free(entries: Seq<(Seq<char>, bool)>, n: int)
    ensures
        forall|i: int, j: int|
            0 <= i < j < spec_undo_plan(entries, n).len() ==> spec_undo_plan(entries, n)[i].1
                != spec_undo_plan(entries, n)[j].1,
        forall|i: int|
            0 <= i < spec_undo_plan(entries, n).len() ==> !spec_has_dir_named(
                entries,
                #[trigger] spec_undo_plan(entries, n)[i].1,
            ),
    decreases n,
{
    if n > 0 {
        lemma_undo_plan_targets_are_free(entries, n - 1);
        let prev = spec_undo_plan(entries, n - 1);
        let targets = prev.map_values(|p: (Seq<char>, Seq<char>)| p.1);
        assert forall|i: int| 0 <= i < prev.len() implies targets[i] == #[trigger] prev[i].1 by {}
    }
}

/// What to do with a work directory in which no chart was found.
#[derive(Debug, Clone, Copy, PartialEq, Eq, Structural)]
pub enum NoChartStep {
    /// The directory is empty: remove it, and count it as failed.
    RemoveEmpty,
    /// Give the directory up as failed.
    GiveUp,
    /// Its one element is a directory: move that one's elements out, then look again.
    MoveOut,
}

/// How `set_name_by_bms` goes on once the target name is known.
#[derive(Debug, Clone, Copy, PartialEq, Eq, Structural)]
pub enum SetNameStep {
    /// The directory has its name already.
    Unchanged,
    /// No directory has the target name: rename.
    Rename,
    /// A directory has the target name: merge into it when the two are alike.
    Merge,
}

/// Every character of `cs` is an ASCII or a fullwidth digit.
fn chars_are_number(cs: &[char]) -> (r: bool)
    ensures
        r == is_number_name(cs@),
{
    let mut i: usize = 0;
    while i < cs.len()
        invariant
            i <= cs.len(),
            forall|j: int| 0 <= j < i ==> is_number_char(#[trigger] cs@[j]),
        decreases cs.len() - i,
    {
        let c = cs[i];
        if !(('0' <= c && c <= '9') || ('\u{FF10}' <= c && c <= '\u{FF19}')) {
            return false;
        }
        i = i + 1;
    }
    true
}

/// Whether `append_name_by_bms` names the folder `name`: it is not blank and
/// made of ASCII or fullwidth digits.
pub fn wants_bms_name(name: &str) -> (r: bool)
    ensures
        r == spec_wants_bms_name(name@),
{
    let cs = str_chars(name);
    let t = chars_trim(&cs);
    t.len() > 0 && chars_are_number(&cs)
}

/// `"{title} [{artist}]"`, each part made file-system safe.
fn bms_name(title: &str, artist: &str) -> (r: String)
    ensures
        r@ == spec_bms_name(title@, artist@),
{
    let mut s = get_valid_fs_name(title);
    s.append(" [");
    let a = get_valid_fs_name(artist);
    s.append(a.as_str());
    s.append("]");
    s
}

/// The new name of the folder named `name` that `undo_set_name` gives it:
/// the part before the first space; none when there is no space, or when
/// that part is empty.
pub fn undo_set_name_target(name: &str) -> (r: Option<String>)
    ensures
        match r {
            Some(t) => spec_undo_target(name@) == Some(t@),
            None => spec_undo_target(name@) is None,
        },
{
    let cs = str_chars(name);
    match chars_find_from(&cs, ' ', 0) {
        Some(i) => {
            proof { lemma_find_char_from_bounds(cs@, ' ', 0); }
            if i == 0 {
                return None;
            }
            let head = chars_slice(&cs, 0, i);
            Some(string_from_chars(&head))
        },
        None => None,
    }
}

/// Some directory among `entries` is named `name`.
fn has_dir_named(entries: &[DirEntry], name: &str) -> (r: bool)
    ensures
        r == spec_has_dir_named(entries_view(entries@), name@),
{
    let ghost ev = entries_view(entries@);
    let mut j: usize = 0;
    while j < entries.len()
        invariant
            j <= entries.len(),
            ev == entries_view(entries@),
            forall|k: int| 0 <= k < j ==> !(ev[k].1 && ev[k].0 == name@),
        decreases entries.len() - j,
    {
        if entries[j].is_dir && str_eq(entries[j].name.as_str(), name) {
            assert(ev[j as int].1 && ev[j as int].0 == name@);
            return true;
        }
        j = j + 1;
    }
    false
}

/// Some pair of `plan` has `name` as its second part.
fn is_planned_target(plan: &Vec<(String, String)>, name: &str) -> (r: bool)
    ensures
        r == pairs_view(plan@).map_values(|p: (Seq<char>, Seq<char>)| p.1).contains(name@),
{
    let ghost targets = pairs_view(plan@).map_values(|p: (Seq<char>, Seq<char>)| p.1);
    let mut j: usize = 0;
    while j < plan.len()
        invariant
            j <= plan.len(),
            targets == pairs_view(plan@).map_values(|p: (Seq<char>, Seq<char>)| p.1),
            targets.len() == plan@.len(),
            forall|k: int| 0 <= k < j ==> targets[k] != name@,
        decreases plan.len() - j,
    {
        if str_eq(plan[j].1.as_str(), name) {
            assert(targets[j as int] == name@);
            return true;
        }
        j = j + 1;
    }
    false
}

/// Service for renaming folders based on BMS metadata (title, artist).
pub struct FolderRenameService {}

impl FolderRenameService {
    /// Create a new `FolderRenameService`.
    pub fn new() -> Self {
        FolderRenameService {}
    }

    /// The new name `"{dir}. {title} [{artist}]"` of a folder whose name is
    /// a bare number (or blank), from the title and artist of its charts.
    pub fn rename_folder_by_bms(&self, dir_name: &str, title: &str, artist: &str) -> (r: Option<String>)
        ensures
            match r {
                Some(n) => spec_rename_folder_by_bms(dir_name@, title@, artist@) == Some(n@),
                None => spec_rename_folder_by_bms(dir_name@, title@, artist@) is None,
            },
    {
        let cs = str_chars(dir_name);
        let t = chars_trim(&cs);
        if t.len() > 0 && !chars_are_number(&cs) {
            return None;
        }
        let tc = str_chars(title);
        let ac = str_chars(artist);
        if tc.len() == 0 && ac.len() == 0 {
            return None;
        }
        let mut s = string_from_chars(&t);
        s.append(". ");
        let suffix = bms_name(title, artist);
        s.append(suffix.as_str());
        Some(s)
    }

    /// Append `{title} [{artist}]` to directories whose name is a bare
    /// number: the renames, in the order of `dirs`, as `(old, new)` names.
    pub fn append_name_by_bms(&self, dirs: &[WorkDirInfo]) -> (r: Vec<(String, String)>)
        ensures
            pairs_view(r@) == spec_append_name_plan(work_dirs_view(dirs@), dirs@.len() as int),
    {
        let ghost dv = work_dirs_view(dirs@);
        let mut r: Vec<(String, String)> = Vec::new();
        let mut i: usize = 0;
        while i < dirs.len()
            invariant
                i <= dirs.len(),
                dv == work_dirs_view(dirs@),
                pairs_view(r@) == spec_append_name_plan(dv, i as int),
            decreases dirs.len() - i,
        {
            let d = &dirs[i];
            if wants_bms_name(d.name.as_str()) {
                match &d.info {
                    Some(ta) => {
                        match self.rename_folder_by_bms(d.name.as_str(), ta.0.as_str(), ta.1.as_str()) {
                            Some(new_name) => {
                                r.push((string_from(d.name.as_str()), new_name));
                            },
                            None => {},
                        }
                    },
                    None => {},
                }
            }
            assert(pairs_view(r@) =~= spec_append_name_plan(dv, i + 1));
            i = i + 1;
        }
        r
    }

    /// The name `"{dir} [{artist}]"` of a folder not ending with `]` yet.
    pub fn artist_appended_name(&self, dir_name: &str, artist: &str) -> (r: Option<String>)
        ensures
            match r {
                Some(n) => spec_artist_appended_name(dir_name@, artist@) == Some(n@),
                None => spec_artist_appended_name(dir_name@, artist@) is None,
            },
    {
        let cs = str_chars(dir_name);
        if cs.len() > 0 && cs[cs.len() - 1] == ']' {
            return None;
        }
        let mut s = string_from(dir_name);
        s.append(" [");
        let a = get_valid_fs_name(artist);
        s.append(a.as_str());
        s.append("]");
        Some(s)
    }

    /// Append `[{artist}]` to directories that don't already end with `]`:
    /// the renames, in the order of `dirs`, as `(old, new)` names.
    /// Directories whose charts were not read are left out.
    pub fn append_artist_name_by_bms(&self, dirs: &[WorkDirInfo]) -> (r: Vec<(String, String)>)
        ensures
            pairs_view(r@) == spec_append_artist_plan(work_dirs_view(dirs@), dirs@.len() as int),
    {
        let ghost dv = work_dirs_view(dirs@);
        let mut r: Vec<(String, String)> = Vec::new();
        let mut i: usize = 0;
        while i < dirs.len()
            invariant
                i <= dirs.len(),
                dv == work_dirs_view(dirs@),
                pairs_view(r@) == spec_append_artist_plan(dv, i as int),
            decreases dirs.len() - i,
        {
            let d = &dirs[i];
            match &d.info {
                Some(ta) => {
                    match self.artist_appended_name(d.name.as_str(), ta.1.as_str()) {
                        Some(new_name) => {
                            r.push((string_from(d.name.as_str()), new_name));
                        },
                        None => {},
                    }
                },
                None => {},
            }
            assert(pairs_view(r@) =~= spec_append_artist_plan(dv, i + 1));
            i = i + 1;
        }
        r
    }

    /// The name `"{title} [{artist}]"` that `set_name_by_bms` gives a
    /// folder; none when title and artist are both empty.
    pub fn set_name_target(&self, title: &str, artist: &str) -> (r: Option<String>)
        ensures
            match r {
                Some(n) => spec_set_name_target(title@, artist@) == Some(n@),
                None => spec_set_name_target(title@, artist@) is None,
            },
    {
        let tc = str_chars(title);
        let ac = str_chars(artist);
        if tc.len() == 0 && ac.len() == 0 {
            return None;
        }
        Some(bms_name(title, artist))
    }

    /// What to do with a work directory without charts that holds
    /// `element_count` elements (`only_is_dir`: its one element is a directory).
    pub fn no_chart_step(&self, element_count: usize, only_is_dir: bool) -> (r: NoChartStep)
        ensures
            element_count == 0 ==> r == NoChartStep::RemoveEmpty,
            element_count > 1 ==> r == NoChartStep::GiveUp,
            element_count == 1 ==> r == (if only_is_dir {
                NoChartStep::MoveOut
            } else {
                NoChartStep::GiveUp
            }),
    {
        if element_count == 0 {
            NoChartStep::RemoveEmpty
        } else if element_count != 1 {
            NoChartStep::GiveUp
        } else if only_is_dir {
            NoChartStep::MoveOut
        } else {
            NoChartStep::GiveUp
        }
    }

    /// How `set_name_by_bms` goes on for the folder `dir_name` whose target
    /// name is `target` (`target_is_dir`: a directory of that name exists).
    pub fn set_name_step(&self, dir_name: &str, target: &str, target_is_dir: bool) -> (r: SetNameStep)
        ensures
            r == (if dir_name@ == target@ {
                SetNameStep::Unchanged
            } else if !target_is_dir {
                SetNameStep::Rename
            } else {
                SetNameStep::Merge
            }),
    {
        if str_eq(dir_name, target) {
            SetNameStep::Unchanged
        } else if !target_is_dir {
            SetNameStep::Rename
        } else {
            SetNameStep::Merge
        }
    }

    /// Undo `set_name`: each directory goes back to the part of its name
    /// before the first space, unless that part is empty (the root itself)
    /// or a directory of that name exists. The
    /// renames, in the order of `entries`, as `(old, new)` names.
    pub fn undo_set_name(&self, entries: &[DirEntry]) -> (r: Vec<(String, String)>)
        ensures
            pairs_view(r@) == spec_undo_plan(entries_view(entries@), entries@.len() as int),
    {
        let ghost ev = entries_view(entries@);
        let mut r: Vec<(String, String)> = Vec::new();
        let mut i: usize = 0;
        while i < entries.len()
            invariant
                i <= entries.len(),
                ev == entries_view(entries@),
                pairs_view(r@) == spec_undo_plan(ev, i as int),
            decreases entries.len() - i,
        {
            let e = &entries[i];
            match undo_set_name_target(e.name.as_str()) {
                Some(t) => {
                    if e.is_dir && !has_dir_named(entries, t.as_str()) && !is_planned_target(&r, t.as_str()) {
                        r.push((string_from(e.name.as_str()), t));
                    }
                },
                None => {},
            }
            assert(pairs_view(r@) =~= spec_undo_plan(ev, i + 1));
            i = i + 1;
        }
        r
    }
}

} // verus!
