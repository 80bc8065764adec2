//! Big-pack directory operations: splitting a pack into groups by the
//! first character of each work, undoing that, merging split folders and
//! moving works between packs. Each operation is planned here from the
//! directory listings it reads; the plan says which moves to perform.
use vstd::prelude::*;

use crate::error::DomainError;
use crate::text::{
    ascii_upper, chars_end_with, chars_eq, chars_rfind_before, chars_slice, chars_start_with,
    has_prefix, has_suffix, is_ascii_alpha, is_ascii_digit, lemma_rfind_char_bounds, rfind_char,
    str_chars, string_from, string_from_chars,
};

verus! {

/// Regular expression for Japanese Hiragana.
pub const RE_JAPANESE_HIRAGANA: &'static str = "[\u{3040}-\u{309F}]+";

/// Regular expression for Japanese Katakana.
pub const RE_JAPANESE_KATAKANA: &'static str = "[\u{30A0}-\u{30FF}]+";

/// Regular expression for Chinese characters.
pub const RE_CHINESE_CHARACTER: &'static str = "[\u{4E00}-\u{9FA5}]+";

/// Whether the regular expression `pattern` matches somewhere in `text`
/// (`Regex::new(pattern)` then `Regex::is_match(text)`).
pub uninterp spec fn spec_regex_is_match(pattern: Seq<char>, text: Seq<char>) -> bool;

/// `c` is a Hiragana character (`U+3040..=U+309F`).
pub open spec fn is_hiragana(c: char) -> bool {
    '\u{3040}' <= c && c <= '\u{309F}'
}

/// `c` is a Katakana character (`U+30A0..=U+30FF`).
pub open spec fn is_katakana(c: char) -> bool {
    '\u{30A0}' <= c && c <= '\u{30FF}'
}

/// `c` is a Chinese character (`U+4E00..=U+9FA5`).
pub open spec fn is_chinese_character(c: char) -> bool {
    '\u{4E00}' <= c && c <= '\u{9FA5}'
}

/// Compiles `pattern` with `regex::Regex::new` and tests `text` with
/// `is_match`; an invalid pattern matches nothing. The answer is the named
/// function of the pattern and the text. For the three character-range
/// patterns above and a one-character text, it is whether the character
/// lies in the range (a class `[a-b]+` matches somewhere in a text exactly
/// when one of its characters lies in `a..=b`); other patterns are not
/// restated.
#[verifier::external_body]
fn regex_is_match(pattern: &str, text: &str) -> (r: bool)
    ensures
        r == spec_regex_is_match(pattern@, text@),
        pattern@ == RE_JAPANESE_HIRAGANA@ && text@.len() == 1 ==> r == is_hiragana(text@[0]),
        pattern@ == RE_JAPANESE_KATAKANA@ && text@.len() == 1 ==> r == is_katakana(text@[0]),
        pattern@ == RE_CHINESE_CHARACTER@ && text@.len() == 1 ==> r == is_chinese_character(text@[0]),
{
    match regex::Regex::new(pattern) {
        Ok(re) => re.is_match(text),
        Err(_) => false,
    }
}

/// The group a name whose first character is `c` falls into, given whether
/// `c` is Hiragana, Katakana or a Chinese character by the patterns above.
pub open spec fn spec_char_group(c: char, hiragana: bool, katakana: bool, chinese: bool) -> Seq<
    char,
> {
    if is_ascii_digit(c) {
        "0-9"@
    } else if is_ascii_alpha(c) && 'A' <= ascii_upper(c) && ascii_upper(c) <= 'D' {
        "ABCD"@
    } else if is_ascii_alpha(c) && 'E' <= ascii_upper(c) && ascii_upper(c) <= 'K' {
        "EFGHIJK"@
    } else if is_ascii_alpha(c) && 'L' <= ascii_upper(c) && ascii_upper(c) <= 'Q' {
        "LMNOPQ"@
    } else if is_ascii_alpha(c) && 'R' <= ascii_upper(c) && ascii_upper(c) <= 'T' {
        "RST"@
    } else if is_ascii_alpha(c) && 'U' <= ascii_upper(c) && ascii_upper(c) <= 'Z' {
        "UVWXYZ"@
    } else if hiragana {
        "平假名"@
    } else if katakana {
        "片假名"@
    } else if chinese {
        "汉字"@
    } else {
        "+"@
    }
}

/// The group of a name: "未分类" for the empty name, else the group of its
/// first character.
pub open spec fn spec_first_char_rule(name: Seq<char>) -> Seq<char> {
    if name.len() == 0 {
        "未分类"@
    } else {
        let c = name[0];
        spec_char_group(c, is_hiragana(c), is_katakana(c), is_chinese_character(c))
    }
}

/// The ASCII upper case of `c`.
pub fn to_ascii_uppercase(c: char) -> (r: char)
    ensures
        r == ascii_upper(c),
{
    match c {
        'a' => 'A',
        'b' => 'B',
        'c' => 'C',
        'd' => 'D',
        'e' => 'E',
        'f' => 'F',
        'g' => 'G',
        'h' => 'H',
        'i' => 'I',
        'j' => 'J',
        'k' => 'K',
        'l' => 'L',
        'm' => 'M',
        'n' => 'N',
        'o' => 'O',
        'p' => 'P',
        'q' => 'Q',
        'r' => 'R',
        's' => 'S',
        't' => 'T',
        'u' => 'U',
        'v' => 'V',
        'w' => 'W',
        'x' => 'X',
        'y' => 'Y',
        'z' => 'Z',
        _ => c,
    }
}

/// Whether the first character of `name`, upper-cased, lies in `start..=end`.
pub fn _check_range(name: &str, start: char, end: char) -> (r: bool)
    ensures
        r == (name@.len() > 0 && start <= ascii_upper(name@[0]) && ascii_upper(name@[0]) <= end),
{
    let cs = str_chars(name);
    if cs.len() == 0 {
        return false;
    }
    let u = to_ascii_uppercase(cs[0]);
    u >= start && u <= end
}

/// The group for a first character `c`, given the outcomes of the three
/// pattern tests on it.
pub fn first_char_group(c: char, hiragana: bool, katakana: bool, chinese: bool) -> (r: String)
    ensures
        r@ == spec_char_group(c, hiragana, katakana, chinese),
{
    if '0' <= c && c <= '9' {
        return string_from("0-9");
    }
    if ('a' <= c && c <= 'z') || ('A' <= c && c <= 'Z') {
        let upper = to_ascii_uppercase(c);
        if 'A' <= upper && upper <= 'D' {
            return string_from("ABCD");
        }
        if 'E' <= upper && upper <= 'K' {
            return string_from("EFGHIJK");
        }
        if 'L' <= upper && upper <= 'Q' {
            return string_from("LMNOPQ");
        }
        if 'R' <= upper && upper <= 'T' {
            return string_from("RST");
        }
        if 'U' <= upper && upper <= 'Z' {
            return string_from("UVWXYZ");
        }
    }
    if hiragana {
        return string_from("平假名");
    }
    if katakana {
        return string_from("片假名");
    }
    if chinese {
        return string_from("汉字");
    }
    string_from("+")
}

/// Find the first character rule group for a name.
pub fn find_first_char_rule(name: &str) -> (r: String)
    ensures
        r@ == spec_first_char_rule(name@),
{
    let cs = str_chars(name);
    if cs.len() == 0 {
        return string_from("未分类");
    }
    let first = cs[0];
    let mut one: Vec<char> = Vec::new();
    one.push(first);
    let c_str = string_from_chars(&one);
    assert(c_str@ =~= seq![name@[0]]);
    let hiragana = regex_is_match(RE_JAPANESE_HIRAGANA, c_str.as_str());
    let katakana = regex_is_match(RE_JAPANESE_KATAKANA, c_str.as_str());
    let chinese = regex_is_match(RE_CHINESE_CHARACTER, c_str.as_str());
    first_char_group(first, hiragana, katakana, chinese)
}

/// The name of the group directory for the group `rule` of a pack.
pub open spec fn spec_group_dir_name(root_name: Seq<char>, rule: Seq<char>) -> Seq<char> {
    root_name + " ["@ + rule + "]"@
}

/// The name of the group directory `"{root_name} [{rule}]"`.
pub fn group_dir_name(root_name: &str, rule: &str) -> (r: String)
    ensures
        r@ == spec_group_dir_name(root_name@, rule@),
{
    let mut s = string_from(root_name);
    s.append(" [");
    s.append(rule);
    s.append("]");
    s
}

/// Service for splitting BMS packs into groups by first character.
pub struct PackSplitService {}

impl PackSplitService {
    /// Create a new `PackSplitService`.
    pub fn new() -> Self {
        PackSplitService {  }
    }

    /// Plan the split of the pack named `root_folder_name` whose entries are
    /// named `element_names`: `None` (nothing moves) when the pack's name
    /// ends with `]`, else for each entry, in order, the name of the group
    /// directory beside the pack that it moves into.
    pub fn split_folders_with_first_char(
        &self,
        root_folder_name: &str,
        element_names: &[String],
    ) -> (r: Option<Vec<String>>)
        ensures
            has_suffix(root_folder_name@, "]"@) ==> r is None,
            !has_suffix(root_folder_name@, "]"@) ==> (r matches Some(groups) && groups@.len()
                == element_names@.len() && forall|k: int|
                0 <= k < groups@.len() ==> #[trigger] groups@[k]@ == spec_group_dir_name(
                    root_folder_name@,
                    spec_first_char_rule(element_names@[k]@),
                )),
            !has_suffix(root_folder_name@, "]"@) ==> (r matches Some(groups) && names_view(groups@)
                == spec_split_groups(root_folder_name@, names_view(element_names@))),
    {
        let rc = str_chars(root_folder_name);
        let close = str_chars("]");
        if chars_end_with(&rc, &close) {
            return None;
        }
        let mut groups: Vec<String> = Vec::new();
        let mut i: usize = 0;
        while i < element_names.len()
            invariant
                i <= element_names@.len(),
                groups@.len() == i,
                forall|k: int|
                    0 <= k < i ==> #[trigger] groups@[k]@ == spec_group_dir_name(
                        root_folder_name@,
                        spec_first_char_rule(element_names@[k]@),
                    ),
            decreases element_names.len() - i,
        {
            let rule = find_first_char_rule(element_names[i].as_str());
            groups.push(group_dir_name(root_folder_name, rule.as_str()));
            i = i + 1;
        }
        assert(names_view(groups@) =~= spec_split_groups(root_folder_name@, names_view(element_names@)));
        Some(groups)
    }

    /// Plan the undo of a split: among the directories beside the pack
    /// (`parent_dirs`, the directory names of the pack's parent), those
    /// named `"{root_folder_name} [..]"`, in order; their contents move back
    /// into the pack.
    pub fn undo_split_pack(&self, root_folder_name: &str, parent_dirs: &[String]) -> (r: Vec<
        String,
    >)
        ensures
            r@.map_values(|s: String| s@) == parent_dirs@.map_values(|s: String| s@).filter(
                |n: Seq<char>| is_split_group_of(n, root_folder_name@),
            ),
    {
        let ghost pred = |n: Seq<char>| is_split_group_of(n, root_folder_name@);
        let ghost all = parent_dirs@.map_values(|s: String| s@);
        let mut prefix = str_chars(root_folder_name);
        prefix.push(' ');
        prefix.push('[');
        let close = str_chars("]");
        assert(prefix@ =~= root_folder_name@ + " ["@) by {
            reveal_strlit(" [");
        }
        let mut out: Vec<String> = Vec::new();
        let mut i: usize = 0;
        while i < parent_dirs.len()
            invariant
                i <= parent_dirs@.len(),
                all == parent_dirs@.map_values(|s: String| s@),
                prefix@ == root_folder_name@ + " ["@,
                close@ == "]"@,
                pred == (|n: Seq<char>| is_split_group_of(n, root_folder_name@)),
                out@.map_values(|s: String| s@) == all.subrange(0, i as int).filter(pred),
            decreases parent_dirs.len() - i,
        {
            let ghost prev = all.subrange(0, i as int);
            let n = str_chars(parent_dirs[i].as_str());
            if chars_start_with(&n, &prefix) && chars_end_with(&n, &close) {
                out.push(parent_dirs[i].clone());
            }
            i = i + 1;
            proof {
                assert(all.subrange(0, i as int).drop_last() =~= prev);
                reveal_with_fuel(Seq::<_>::filter, 1);
                assert(out@.map_values(|s: String| s@) =~= all.subrange(0, i as int).filter(pred));
            }
        }
        assert(all.subrange(0, all.len() as int) =~= all);
        out
    }
}

/// `n` names a group directory split off the pack `root_name`.
pub open spec fn is_split_group_of(n: Seq<char>, root_name: Seq<char>) -> bool {
    has_prefix(n, root_name + " ["@) && has_suffix(n, "]"@)
}

/// Every group directory that a split makes is found by `undo_split_pack`
/// for the same pack.
pub proof fn lemma_split_group_found_by_undo(root_name: Seq<char>, rule: Seq<char>)
    ensures
        is_split_group_of(spec_group_dir_name(root_name, rule), root_name),
{
    reveal_strlit("]");
    let n = spec_group_dir_name(root_name, rule);
    let p = root_name + " ["@;
    assert(n.subrange(0, p.len() as int) =~= p);
    assert(n.subrange(n.len() - 1, n.len() as int) =~= "]"@);
}

/// Undoing a split finds every group directory that the split filled: for
/// each element of the pack, the group directory it went into, once it
/// stands beside the pack, is among those whose contents undo moves back.
pub proof fn lemma_undo_finds_split_groups(
    root_name: Seq<char>,
    elements: Seq<Seq<char>>,
    parent_dirs: Seq<Seq<char>>,
)
    requires
        forall|k: int|
            0 <= k < elements.len() ==> parent_dirs.contains(
                spec_group_dir_name(root_name, spec_first_char_rule(#[trigger] elements[k])),
            ),
    ensures
        forall|k: int|
            0 <= k < elements.len() ==> parent_dirs.filter(
                |n: Seq<char>| is_split_group_of(n, root_name),
            ).contains(spec_group_dir_name(root_name, spec_first_char_rule(#[trigger] elements[k]))),
{
    let pred = |n: Seq<char>| is_split_group_of(n, root_name);
    assert forall|k: int| 0 <= k < elements.len() implies parent_dirs.filter(pred).contains(
        spec_group_dir_name(root_name, spec_first_char_rule(#[trigger] elements[k])),
    ) by {
        let g = spec_group_dir_name(root_name, spec_first_char_rule(elements[k]));
        lemma_split_group_found_by_undo(root_name, spec_first_char_rule(elements[k]));
        assert(parent_dirs.contains(g));
        let j = choose|j: int| 0 <= j < parent_dirs.len() && parent_dirs[j] == g;
        parent_dirs.lemma_filter_contains(pred, j);
    }
}

/// The group directories that splitting the pack `root_name` with the
/// entries `elements` fills, one for each entry, in the entries' order.
pub open spec fn spec_split_groups(root_name: Seq<char>, elements: Seq<Seq<char>>) -> Seq<Seq<char>> {
    Seq::new(
        elements.len(),
        |k: int| spec_group_dir_name(root_name, spec_first_char_rule(elements[k])),
    )
}

/// The entries that a split moves into the directory named `n`.
pub open spec fn spec_split_contents(root_name: Seq<char>, elements: Seq<Seq<char>>, n: Seq<char>) -> Set<
    Seq<char>,
> {
    Set::new(
        |e: Seq<char>|
            exists|k: int|
                0 <= k < elements.len() && elements[k] == e && #[trigger] spec_split_groups(
                    root_name,
                    elements,
                )[k] == n,
    )
}

/// The directories that undoing the split visits, when `before` are the
/// directories that stood beside the pack before the split: those among
/// `before` and the filled groups that are named like a group of the pack.
pub open spec fn spec_undo_after_split(
    root_name: Seq<char>,
    elements: Seq<Seq<char>>,
    before: Seq<Seq<char>>,
) -> Seq<Seq<char>> {
    (before + spec_split_groups(root_name, elements)).filter(
        |n: Seq<char>| is_split_group_of(n, root_name),
    )
}

/// What undoing moves back into the pack after a split: the split's
/// contents of each directory it visits.
pub open spec fn spec_undo_gathered(
    root_name: Seq<char>,
    elements: Seq<Seq<char>>,
    visited: Seq<Seq<char>>,
) -> Set<Seq<char>> {
    Set::new(
        |e: Seq<char>|
            exists|i: int|
                0 <= i < visited.len() && #[trigger] spec_split_contents(
                    root_name,
                    elements,
                    visited[i],
                ).contains(e),
    )
}

/// Splitting a pack and then undoing the split gives its entries back:
/// for a pack whose name does not end with `]` (else nothing is split), and
/// when no directory beside it was named like one of its groups before the
/// split, the undo visits exactly the group directories that the split
/// filled, and what it moves back into the pack is exactly the pack's
/// entries.
pub proof fn lemma_split_then_undo_restores(
    root_name: Seq<char>,
    elements: Seq<Seq<char>>,
    before: Seq<Seq<char>>,
)
    requires
        !has_suffix(root_name, "]"@),
        forall|j: int| 0 <= j < before.len() ==> !is_split_group_of(#[trigger] before[j], root_name),
    ensures
        spec_undo_after_split(root_name, elements, before).to_set() == spec_split_groups(
            root_name,
            elements,
        ).to_set(),
        spec_undo_gathered(root_name, elements, spec_undo_after_split(root_name, elements, before))
            == elements.to_set(),
{
    let groups = spec_split_groups(root_name, elements);
    let pred = |n: Seq<char>| is_split_group_of(n, root_name);
    let all = before + groups;
    let undo = spec_undo_after_split(root_name, elements, before);
    assert(undo == all.filter(pred));
    assert forall|n: Seq<char>| undo.contains(n) implies groups.contains(n) by {
        let i = choose|i: int| 0 <= i < undo.len() && undo[i] == n;
        all.lemma_filter_pred(pred, i);
        all.lemma_filter_contains_rev(pred, n);
        let j = choose|j: int| 0 <= j < all.len() && all[j] == n;
        if j < before.len() {
            assert(all[j] == before[j]);
        } else {
            assert(groups[j - before.len()] == n);
        }
    }
    assert forall|n: Seq<char>| groups.contains(n) implies undo.contains(n) by {
        let k = choose|k: int| 0 <= k < groups.len() && groups[k] == n;
        lemma_split_group_found_by_undo(root_name, spec_first_char_rule(elements[k]));
        assert(all[before.len() + k] == n);
        all.lemma_filter_contains(pred, before.len() + k);
    }
    assert(undo.to_set() =~= groups.to_set());
    let gathered = spec_undo_gathered(root_name, elements, undo);
    assert forall|e: Seq<char>| gathered.contains(e) implies elements.contains(e) by {
        let i = choose|i: int|
            0 <= i < undo.len() && #[trigger] spec_split_contents(root_name, elements, undo[i]).contains(e);
        let k = choose|k: int|
            0 <= k < elements.len() && elements[k] == e && #[trigger] spec_split_groups(
                root_name,
                elements,
            )[k] == undo[i];
        assert(elements[k] == e);
    }
    assert forall|e: Seq<char>| elements.contains(e) implies gathered.contains(e) by {
        let k = choose|k: int| 0 <= k < elements.len() && elements[k] == e;
        let n = groups[k];
        assert(groups.contains(n));
        assert(undo.contains(n));
        let i = choose|i: int| 0 <= i < undo.len() && undo[i] == n;
        assert(spec_split_contents(root_name, elements, undo[i]).contains(e));
    }
    assert(gathered =~= elements.to_set());
}

/// A group directory ends with `]`, so splitting it again moves nothing.
pub proof fn lemma_split_group_is_final(root_name: Seq<char>, rule: Seq<char>)
    ensures
        has_suffix(spec_group_dir_name(root_name, rule), "]"@),
{
    reveal_strlit("]");
    let n = spec_group_dir_name(root_name, rule);
    assert(n.subrange(n.len() - 1, n.len() as int) =~= "]"@);
}

/// `merge_split_folders` takes a group directory back to its pack: the
/// merge base of `"{root} [{rule}]"` is `root`, for a rule without `[`.
pub proof fn lemma_merge_base_of_split_group(root_name: Seq<char>, rule: Seq<char>)
    requires
        forall|i: int| 0 <= i < rule.len() ==> rule[i] != '[',
    ensures
        spec_merge_base(spec_group_dir_name(root_name, rule)) == Some(root_name),
{
    reveal_strlit(" [");
    reveal_strlit("]");
    let n = spec_group_dir_name(root_name, rule);
    let k = root_name.len() + 1int;
    assert(n[k] == '[');
    assert(n.last() == ']');
    assert forall|j: int| k < j < n.len() implies n[j] != '[' by {
        if j < n.len() - 1 {
            assert(n[j] == rule[j - k - 1]);
        }
    }
    lemma_rfind_char_bounds(n, '[', n.len() as int);
    assert(rfind_char(n, '[') == Some(k));
    assert(n.subrange(0, k - 1) =~= root_name);
}

/// The name a folder `"{name} [{artist}]"` merges into: the text before
/// the character that precedes its last `[`. Only names ending in `]` that
/// hold a `[` have one.
pub open spec fn spec_merge_base(name: Seq<char>) -> Option<Seq<char>> {
    if name.len() > 0 && name.last() == ']' {
        match rfind_char(name, '[') {
            Some(i) => Some(name.subrange(0, i - 1)),
            None => None,
        }
    } else {
        None
    }
}

/// Splitting `name` for merging cuts it at a character boundary: when it
/// ends in `]` and holds a `[`, that `[` is not its first character and
/// follows an ASCII character (a merge cuts the name by byte offset, which
/// panics on other names).
pub open spec fn merge_name_sliceable(name: Seq<char>) -> bool {
    name.len() > 0 && name.last() == ']' ==> match rfind_char(name, '[') {
        Some(i) => i >= 1 && (name[i - 1] as u32) < 0x80,
        None => true,
    }
}

/// How many of `names` start with `"{base} ["`.
pub open spec fn spec_split_count(names: Seq<Seq<char>>, base: Seq<char>) -> nat {
    names.filter(|d: Seq<char>| has_prefix(d, base + " ["@)).len()
}

/// The merge pair that the directory `d` yields among the directories
/// `names`: `(base, d)` when `d` has a non-empty merge base that is itself
/// one of the directories and at most two directories are split off it.
pub open spec fn spec_merge_pair(names: Seq<Seq<char>>, d: Seq<char>) -> Option<
    (Seq<char>, Seq<char>),
> {
    match spec_merge_base(d) {
        Some(base) => if base.len() > 0 && names.contains(base) && spec_split_count(names, base)
            <= 2 {
            Some((base, d))
        } else {
            None
        },
        None => None,
    }
}

/// The merge pairs of the first `n` directories, in order.
pub open spec fn spec_merge_pairs_upto(names: Seq<Seq<char>>, n: int) -> Seq<
    (Seq<char>, Seq<char>),
>
    decreases n,
{
    if n <= 0 || n > names.len() {
        seq![]
    } else {
        let prev = spec_merge_pairs_upto(names, n - 1);
        match spec_merge_pair(names, names[n - 1]) {
            Some(p) => prev.push(p),
            None => prev,
        }
    }
}

/// All merge pairs of a directory listing, in listing order.
pub open spec fn spec_merge_pairs(names: Seq<Seq<char>>) -> Seq<(Seq<char>, Seq<char>)> {
    spec_merge_pairs_upto(names, names.len() as int)
}

/// Two consecutive pairs move from the same directory.
pub open spec fn spec_has_duplicate_source(pairs: Seq<(Seq<char>, Seq<char>)>) -> bool {
    exists|i: int| 0 <= i < pairs.len() - 1 && #[trigger] pairs[i].1 == pairs[i + 1].1
}

/// A merge base, computed as `spec_merge_base` states.
fn merge_base(name: &[char]) -> (r: Option<Vec<char>>)
    requires
        merge_name_sliceable(name@),
    ensures
        match r {
            Some(b) => spec_merge_base(name@) == Some(b@),
            None => spec_merge_base(name@) is None,
        },
{
    if name.len() == 0 || name[name.len() - 1] != ']' {
        return None;
    }
    match chars_rfind_before(name, '[', name.len()) {
        Some(i) => {
            proof {
                lemma_rfind_char_bounds(name@, '[', name@.len() as int);
            }
            Some(chars_slice(name, 0, i - 1))
        },
        None => None,
    }
}

/// Whether `names` holds `x`.
fn names_contain(names: &[Vec<char>], x: &[char]) -> (r: bool)
    ensures
        r == names@.map_values(|v: Vec<char>| v@).contains(x@),
{
    let ghost all = names@.map_values(|v: Vec<char>| v@);
    let mut i: usize = 0;
    while i < names.len()
        invariant
            i <= names@.len(),
            all == names@.map_values(|v: Vec<char>| v@),
            forall|k: int| 0 <= k < i ==> all[k] != x@,
        decreases names.len() - i,
    {
        if chars_eq(names[i].as_slice(), x) {
            assert(all[i as int] == x@);
            return true;
        }
        i = i + 1;
    }
    false
}

/// How many of `names` start with `"{base} ["`.
fn split_count(names: &[Vec<char>], base: &[char]) -> (r: usize)
    ensures
        r == spec_split_count(names@.map_values(|v: Vec<char>| v@), base@),
{
    let ghost all = names@.map_values(|v: Vec<char>| v@);
    let ghost pred = |d: Seq<char>| has_prefix(d, base@ + " ["@);
    let mut prefix: Vec<char> = chars_slice(base, 0, base.len());
    prefix.push(' ');
    prefix.push('[');
    assert(prefix@ =~= base@ + " ["@) by {
        reveal_strlit(" [");
    }
    let mut count: usize = 0;
    let mut i: usize = 0;
    while i < names.len()
        invariant
            i <= names@.len(),
            all == names@.map_values(|v: Vec<char>| v@),
            prefix@ == base@ + " ["@,
            pred == (|d: Seq<char>| has_prefix(d, base@ + " ["@)),
            count == all.subrange(0, i as int).filter(pred).len(),
            count <= i,
        decreases names.len() - i,
    {
        let ghost prev = all.subrange(0, i as int);
        if chars_start_with(names[i].as_slice(), &prefix) {
            count = count + 1;
        }
        i = i + 1;
        proof {
            assert(all.subrange(0, i as int).drop_last() =~= prev);
            reveal_with_fuel(Seq::<_>::filter, 1);
        }
    }
    assert(all.subrange(0, all.len() as int) =~= all);
    count
}

/// The message of the error for duplicate merge sources.
#[verifier::external_body]
fn duplicate_targets_message(names: &Vec<String>) -> String {
    format!("Found duplicate target directories: {names:?}")
}

/// Service for merging BMS packs.
pub struct PackMergeService {}

impl PackMergeService {
    /// Create a new `PackMergeService`.
    pub fn new() -> Self {
        PackMergeService {  }
    }

    /// Merge split folders back together: given the directory names of
    /// the root, the pairs `(target, from)` whose `from` directory's
    /// contents move into `target`, in listing order; an error when two
    /// consecutive pairs come from the same directory.
    pub fn merge_split_folders(&self, dir_names: &[String]) -> (r: Result<
        Vec<(String, String)>,
        DomainError,
    >)
        requires
            forall|k: int| 0 <= k < dir_names@.len() ==> merge_name_sliceable(#[trigger] dir_names@[k]@),
        ensures
            spec_has_duplicate_source(spec_merge_pairs(dir_names@.map_values(|s: String| s@)))
                <==> r is Err,
            r matches Ok(pairs) ==> pairs@.map_values(|p: (String, String)| (p.0@, p.1@))
                == spec_merge_pairs(dir_names@.map_values(|s: String| s@)),
    {
        let ghost all = dir_names@.map_values(|s: String| s@);
        let mut names: Vec<Vec<char>> = Vec::new();
        let mut j: usize = 0;
        while j < dir_names.len()
            invariant
                j <= dir_names@.len(),
                all == dir_names@.map_values(|s: String| s@),
                names@.map_values(|v: Vec<char>| v@) == all.subrange(0, j as int),
            decreases dir_names.len() - j,
        {
            let ghost prev = names@.map_values(|v: Vec<char>| v@);
            let v = str_chars(dir_names[j].as_str());
            names.push(v);
            assert(names@.map_values(|v: Vec<char>| v@) =~= prev.push(v@));
            assert(all.subrange(0, j + 1) =~= all.subrange(0, j as int).push(all[j as int]));
            j = j + 1;
            assert(names@.map_values(|v: Vec<char>| v@) =~= all.subrange(0, j as int));
        }
        assert(all.subrange(0, all.len() as int) =~= all);
        let mut pairs: Vec<(String, String)> = Vec::new();
        let mut i: usize = 0;
        while i < names.len()
            invariant
                i <= names@.len(),
                names@.len() == dir_names@.len(),
                all == dir_names@.map_values(|s: String| s@),
                all == names@.map_values(|v: Vec<char>| v@),
                forall|k: int| 0 <= k < dir_names@.len() ==> merge_name_sliceable(#[trigger] dir_names@[k]@),
                pairs@.map_values(|p: (String, String)| (p.0@, p.1@)) == spec_merge_pairs_upto(
                    all,
                    i as int,
                ),
            decreases names.len() - i,
        {
            let ghost prev = pairs@.map_values(|p: (String, String)| (p.0@, p.1@));
            assert(names@[i as int]@ == all[i as int]);
            assert(merge_name_sliceable(dir_names@[i as int]@));
            match merge_base(names[i].as_slice()) {
                Some(base) => {
                    if base.len() > 0 && names_contain(&names, &base) && split_count(&names, &base)
                        <= 2 {
                        let from = dir_names[i].clone();
                        let target = string_from_chars(&base);
                        pairs.push((target, from));
                        assert(pairs@.map_values(|p: (String, String)| (p.0@, p.1@)) =~= prev.push(
                            (base@, all[i as int]),
                        ));
                    }
                },
                None => {},
            }
            i = i + 1;
        }
        let ghost ps = spec_merge_pairs(all);
        let mut duplicates: Vec<String> = Vec::new();
        let mut k: usize = 0;
        while k < pairs.len() && pairs.len() - k > 1
            invariant
                ps == pairs@.map_values(|p: (String, String)| (p.0@, p.1@)),
                k <= pairs@.len(),
                k == 0 || k < pairs@.len(),
                (duplicates@.len() > 0) == (exists|m: int|
                    0 <= m < k && #[trigger] ps[m].1 == ps[m + 1].1),
            decreases pairs.len() - k,
        {
            let a = str_chars(pairs[k].1.as_str());
            let b = str_chars(pairs[k + 1].1.as_str());
            assert(ps[k as int].1 == pairs@[k as int].1@);
            assert(ps[k + 1].1 == pairs@[k + 1].1@);
            if chars_eq(&a, &b) {
                duplicates.push(pairs[k + 1].1.clone());
            }
            k = k + 1;
        }
        proof {
            assert(k + 1 >= ps.len());
            if spec_has_duplicate_source(ps) {
                let m = choose|m: int| 0 <= m < ps.len() - 1 && #[trigger] ps[m].1 == ps[m + 1].1;
                assert(0 <= m < k && ps[m].1 == ps[m + 1].1);
            }
            if exists|m: int| 0 <= m < k && #[trigger] ps[m].1 == ps[m + 1].1 {
                let m = choose|m: int| 0 <= m < k && #[trigger] ps[m].1 == ps[m + 1].1;
                assert(0 <= m < ps.len() - 1 && ps[m].1 == ps[m + 1].1);
            }
        }
        if duplicates.len() > 0 {
            return Err(DomainError::Archive(duplicate_targets_message(&duplicates)));
        }
        Ok(pairs)
    }
}

/// The index of the first of `tos[i..]` that starts with `from`.
pub open spec fn spec_first_prefixed(tos: Seq<Seq<char>>, from: Seq<char>, i: int) -> Option<int>
    decreases tos.len() - i,
{
    if i < 0 || i >= tos.len() {
        None
    } else if has_prefix(tos[i], from) {
        Some(i)
    } else {
        spec_first_prefixed(tos, from, i + 1)
    }
}

/// The same-name pairs of the first `n` source works: each source work is
/// paired with the first target work whose name starts with its name.
pub open spec fn spec_same_name_pairs_upto(froms: Seq<Seq<char>>, tos: Seq<Seq<char>>, n: int) -> Seq<
    (Seq<char>, Seq<char>),
>
    decreases n,
{
    if n <= 0 || n > froms.len() {
        seq![]
    } else {
        let prev = spec_same_name_pairs_upto(froms, tos, n - 1);
        match spec_first_prefixed(tos, froms[n - 1], 0) {
            Some(j) => prev.push((froms[n - 1], tos[j])),
            None => prev,
        }
    }
}

/// The same-name pairs `(from, to)` of two directory listings, in the
/// order of the source listing.
pub open spec fn spec_same_name_pairs(froms: Seq<Seq<char>>, tos: Seq<Seq<char>>) -> Seq<
    (Seq<char>, Seq<char>),
> {
    spec_same_name_pairs_upto(froms, tos, froms.len() as int)
}

/// A found index lies in range, names a match, and no earlier one does.
pub proof fn lemma_first_prefixed(tos: Seq<Seq<char>>, from: Seq<char>, i: int)
    requires
        0 <= i,
    ensures
        spec_first_prefixed(tos, from, i) matches Some(j) ==> i <= j < tos.len() && has_prefix(
            tos[j],
            from,
        ),
    decreases tos.len() - i,
{
    if i < tos.len() && !has_prefix(tos[i], from) {
        lemma_first_prefixed(tos, from, i + 1);
    }
}

/// The views of a list of names.
pub open spec fn names_view(v: Seq<String>) -> Seq<Seq<char>> {
    v.map_values(|s: String| s@)
}

/// The views of a list of name pairs.
pub open spec fn pairs_view(v: Seq<(String, String)>) -> Seq<(Seq<char>, Seq<char>)> {
    v.map_values(|p: (String, String)| (p.0@, p.1@))
}

/// The first of `tos` that starts with `from`.
fn first_prefixed(tos: &[String], from: &str) -> (r: Option<usize>)
    ensures
        match r {
            Some(j) => spec_first_prefixed(names_view(tos@), from@, 0) == Some(j as int),
            None => spec_first_prefixed(names_view(tos@), from@, 0) is None,
        },
{
    let ghost all = names_view(tos@);
    let f = str_chars(from);
    let mut i: usize = 0;
    while i < tos.len()
        invariant
            i <= tos@.len(),
            all == names_view(tos@),
            f@ == from@,
            spec_first_prefixed(all, from@, 0) == spec_first_prefixed(all, from@, i as int),
        decreases tos.len() - i,
    {
        let t = str_chars(tos[i].as_str());
        assert(all[i as int] == tos@[i as int]@);
        if chars_start_with(&t, &f) {
            return Some(i);
        }
        i = i + 1;
    }
    None
}

/// The first of `tos` that starts with the characters `from`.
pub fn first_prefixed_chars(tos: &[String], from: &[char]) -> (r: Option<usize>)
    ensures
        match r {
            Some(j) => spec_first_prefixed(names_view(tos@), from@, 0) == Some(j as int),
            None => spec_first_prefixed(names_view(tos@), from@, 0) is None,
        },
{
    let ghost all = names_view(tos@);
    let mut i: usize = 0;
    while i < tos.len()
        invariant
            i <= tos@.len(),
            all == names_view(tos@),
            spec_first_prefixed(all, from@, 0) == spec_first_prefixed(all, from@, i as int),
        decreases tos.len() - i,
    {
        let t = str_chars(tos[i].as_str());
        assert(all[i as int] == tos@[i as int]@);
        if chars_start_with(&t, from) {
            return Some(i);
        }
        i = i + 1;
    }
    None
}

/// The same-name pairs of two listings, as `spec_same_name_pairs` states.
pub fn same_name_pairs(from_names: &[String], to_names: &[String]) -> (r: Vec<(String, String)>)
    ensures
        pairs_view(r@) == spec_same_name_pairs(names_view(from_names@), names_view(to_names@)),
{
    let ghost froms = names_view(from_names@);
    let ghost tos = names_view(to_names@);
    let mut pairs: Vec<(String, String)> = Vec::new();
    let mut i: usize = 0;
    while i < from_names.len()
        invariant
            i <= from_names@.len(),
            froms == names_view(from_names@),
            tos == names_view(to_names@),
            pairs_view(pairs@) == spec_same_name_pairs_upto(froms, tos, i as int),
        decreases from_names.len() - i,
    {
        let ghost prev = pairs_view(pairs@);
        assert(froms[i as int] == from_names@[i as int]@);
        match first_prefixed(to_names, from_names[i].as_str()) {
            Some(j) => {
                proof {
                    lemma_first_prefixed(tos, froms[i as int], 0);
                }
                assert(tos[j as int] == to_names@[j as int]@);
                pairs.push((from_names[i].clone(), to_names[j].clone()));
                assert(pairs_view(pairs@) =~= prev.push((froms[i as int], tos[j as int])));
            },
            None => {},
        }
        i = i + 1;
    }
    pairs
}

/// What moving the works of one pack into another does.
pub enum WorkMovePlan {
    /// Each listed work directory moves into a directory of the same name
    /// in the target pack.
    Works(Vec<String>),
    /// The source holds no work directory: its contents move into the
    /// target as they are.
    WholeDir,
}

/// The view of the sibling listings: each sibling's name with the names of
/// its sub-directories.
pub open spec fn siblings_view(v: Seq<(String, Vec<String>)>) -> Seq<(Seq<char>, Seq<Seq<char>>)> {
    v.map_values(|s: (String, Vec<String>)| (s.0@, names_view(s.1@)))
}

/// The moves into siblings for the first `n` siblings: for each sibling
/// other than the pack itself, the same-name pairs between the pack's works
/// and the sibling's works, each with the sibling's name.
pub open spec fn spec_sibling_moves_upto(
    root_name: Seq<char>,
    froms: Seq<Seq<char>>,
    siblings: Seq<(Seq<char>, Seq<Seq<char>>)>,
    n: int,
) -> Seq<(Seq<char>, Seq<char>, Seq<char>)>
    decreases n,
{
    if n <= 0 || n > siblings.len() {
        seq![]
    } else {
        let prev = spec_sibling_moves_upto(root_name, froms, siblings, n - 1);
        let sib = siblings[n - 1];
        if sib.0 == root_name {
            prev
        } else {
            prev + spec_same_name_pairs(froms, sib.1).map_values(
                |p: (Seq<char>, Seq<char>)| (sib.0, p.0, p.1),
            )
        }
    }
}

/// The moves of `move_out_works` for the first `n` directories of a root:
/// each element of each directory, in order, as `(directory, element)`;
/// the element goes up into the root under its own name.
pub open spec fn spec_move_out_plan(subs: Seq<(Seq<char>, Seq<Seq<char>>)>, n: int) -> Seq<(Seq<char>, Seq<char>)>
    decreases n,
{
    if n <= 0 || n > subs.len() {
        seq![]
    } else {
        spec_move_out_plan(subs, n - 1) + subs[n - 1].1.map_values(|w: Seq<char>| (subs[n - 1].0, w))
    }
}

/// Service for moving BMS packs.
pub struct PackMoveService {}

impl PackMoveService {
    /// Create a new `PackMoveService`.
    pub fn new() -> Self {
        PackMoveService {  }
    }

    /// Plan moving works from one pack into another, given the names of the
    /// work directories of the source: each work moves into the target under
    /// its name; when there is none, the source's contents move as they are.
    pub fn move_works_in_pack(&self, work_dirs: Vec<String>) -> (r: WorkMovePlan)
        ensures
            work_dirs@.len() > 0 ==> r == WorkMovePlan::Works(work_dirs),
            work_dirs@.len() == 0 ==> r == WorkMovePlan::WholeDir,
    {
        if work_dirs.len() > 0 {
            WorkMovePlan::Works(work_dirs)
        } else {
            WorkMovePlan::WholeDir
        }
    }

    /// The check before merging works with the same name: the source, then
    /// the target, must be a directory (shown by `from_display` and
    /// `to_display` in the error).
    pub fn same_name_precheck(&self, from_is_dir: bool, to_is_dir: bool, from_display: &str, to_display: &str) -> (r: Result<(), DomainError>)
        ensures
            !from_is_dir ==> (r matches Err(DomainError::Archive(m)) && m@ == "源路径不存在或不是目录: "@ + from_display@),
            from_is_dir && !to_is_dir ==> (r matches Err(DomainError::Archive(m)) && m@ == "目标路径不存在或不是目录: "@ + to_display@),
            from_is_dir && to_is_dir ==> r is Ok,
    {
        if !from_is_dir {
            let mut m = string_from("源路径不存在或不是目录: ");
            m.append(from_display);
            return Err(DomainError::Archive(m));
        }
        if !to_is_dir {
            let mut m = string_from("目标路径不存在或不是目录: ");
            m.append(to_display);
            return Err(DomainError::Archive(m));
        }
        Ok(())
    }

    /// Plan moving works one level up: given each directory of the root
    /// with the names of its elements, the moves `(directory, element)` in
    /// order; each element goes into the root under its own name.
    pub fn move_out_works(&self, subdirs: &[(String, Vec<String>)]) -> (r: Vec<(String, String)>)
        ensures
            pairs_view(r@) == spec_move_out_plan(siblings_view(subdirs@), subdirs@.len() as int),
    {
        let ghost sv = siblings_view(subdirs@);
        let mut r: Vec<(String, String)> = Vec::new();
        let mut i: usize = 0;
        while i < subdirs.len()
            invariant
                i <= subdirs@.len(),
                sv == siblings_view(subdirs@),
                pairs_view(r@) == spec_move_out_plan(sv, i as int),
            decreases subdirs.len() - i,
        {
            let ghost prev = pairs_view(r@);
            let sub = &subdirs[i].0;
            let works = &subdirs[i].1;
            let ghost added = sv[i as int].1.map_values(|w: Seq<char>| (sv[i as int].0, w));
            assert(sv[i as int].0 == sub@);
            assert(sv[i as int].1 == names_view(works@));
            let mut k: usize = 0;
            while k < works.len()
                invariant
                    k <= works@.len(),
                    i < subdirs@.len(),
                    sv == siblings_view(subdirs@),
                    sv[i as int].0 == sub@,
                    sv[i as int].1 == names_view(works@),
                    added == sv[i as int].1.map_values(|w: Seq<char>| (sv[i as int].0, w)),
                    pairs_view(r@) == prev + added.subrange(0, k as int),
                decreases works.len() - k,
            {
                let ghost before = pairs_view(r@);
                r.push((string_from(sub.as_str()), string_from(works[k].as_str())));
                assert(names_view(works@)[k as int] == works@[k as int]@);
                assert(added[k as int] == (sub@, works@[k as int]@));
                assert(pairs_view(r@) =~= before.push((sub@, works@[k as int]@)));
                assert(added.subrange(0, k + 1) =~= added.subrange(0, k as int).push(added[k as int]));
                assert(pairs_view(r@) =~= prev + added.subrange(0, k + 1));
                k = k + 1;
            }
            assert(added.subrange(0, added.len() as int) =~= added);
            assert(pairs_view(r@) =~= spec_move_out_plan(sv, i + 1));
            i = i + 1;
        }
        r
    }

    /// Plan merging works with the same name. The source, then the target,
    /// must be a directory, else the error of `same_name_precheck` comes
    /// back. Otherwise, given the work directories of the source and of the
    /// target pack, the pairs `(from, to)` where `to` is the first target
    /// work whose name starts with the source work's name, in source order.
    pub fn move_works_with_same_name(
        &self,
        from_is_dir: bool,
        to_is_dir: bool,
        from_display: &str,
        to_display: &str,
        from_names: &[String],
        to_names: &[String],
    ) -> (r: Result<Vec<(String, String)>, DomainError>)
        ensures
            !from_is_dir ==> (r matches Err(DomainError::Archive(m)) && m@ == "源路径不存在或不是目录: "@ + from_display@),
            from_is_dir && !to_is_dir ==> (r matches Err(DomainError::Archive(m)) && m@ == "目标路径不存在或不是目录: "@ + to_display@),
            from_is_dir && to_is_dir ==> (r matches Ok(pairs) && pairs_view(pairs@)
                == spec_same_name_pairs(names_view(from_names@), names_view(to_names@))),
    {
        match self.same_name_precheck(from_is_dir, to_is_dir, from_display, to_display) {
            Err(e) => Err(e),
            Ok(()) => Ok(same_name_pairs(from_names, to_names)),
        }
    }

    /// Plan merging works with the same name into the sibling packs: given
    /// the pack's name, its work directories, and each directory beside it
    /// with its work directories, the moves `(sibling, from, to)` in order.
    pub fn move_works_with_same_name_to_siblings(
        &self,
        root_base_name: &str,
        from_names: &[String],
        siblings: &[(String, Vec<String>)],
    ) -> (r: Vec<(String, String, String)>)
        ensures
            r@.map_values(|m: (String, String, String)| (m.0@, m.1@, m.2@))
                == spec_sibling_moves_upto(
                root_base_name@,
                names_view(from_names@),
                siblings_view(siblings@),
                siblings@.len() as int,
            ),
    {
        let ghost froms = names_view(from_names@);
        let ghost sibs = siblings_view(siblings@);
        let mut moves: Vec<(String, String, String)> = Vec::new();
        let mut i: usize = 0;
        while i < siblings.len()
            invariant
                i <= siblings@.len(),
                froms == names_view(from_names@),
                sibs == siblings_view(siblings@),
                moves@.map_values(|m: (String, String, String)| (m.0@, m.1@, m.2@))
                    == spec_sibling_moves_upto(root_base_name@, froms, sibs, i as int),
            decreases siblings.len() - i,
        {
            let ghost prev = moves@.map_values(|m: (String, String, String)| (m.0@, m.1@, m.2@));
            let sib_name: &String = &siblings[i].0;
            assert(sibs[i as int].0 == sib_name@);
            assert(sibs[i as int].1 == names_view(siblings@[i as int].1@));
            if !chars_eq(&str_chars(sib_name.as_str()), &str_chars(root_base_name)) {
                let pairs = same_name_pairs(from_names, siblings[i].1.as_slice());
                let ghost added = spec_same_name_pairs(froms, sibs[i as int].1).map_values(
                    |p: (Seq<char>, Seq<char>)| (sibs[i as int].0, p.0, p.1),
                );
                let mut k: usize = 0;
                while k < pairs.len()
                    invariant
                        k <= pairs@.len(),
                        i < siblings@.len(),
                        sibs.len() == siblings@.len(),
                        pairs_view(pairs@) == spec_same_name_pairs(froms, sibs[i as int].1),
                        sibs[i as int].0 == sib_name@,
                        added == spec_same_name_pairs(froms, sibs[i as int].1).map_values(
                            |p: (Seq<char>, Seq<char>)| (sibs[i as int].0, p.0, p.1),
                        ),
                        moves@.map_values(|m: (String, String, String)| (m.0@, m.1@, m.2@))
                            == prev + added.subrange(0, k as int),
                    decreases pairs.len() - k,
                {
                    let ghost before = moves@.map_values(
                        |m: (String, String, String)| (m.0@, m.1@, m.2@),
                    );
                    let m = (sib_name.clone(), pairs[k].0.clone(), pairs[k].1.clone());
                    moves.push(m);
                    assert(pairs_view(pairs@)[k as int] == (pairs@[k as int].0@, pairs@[k as int].1@));
                    assert(added.len() == pairs@.len());
                    assert(added[k as int] == (sib_name@, pairs@[k as int].0@, pairs@[k as int].1@));
                    assert(moves@.map_values(|m: (String, String, String)| (m.0@, m.1@, m.2@))
                        =~= before.push((m.0@, m.1@, m.2@)));
                    assert(added.subrange(0, k + 1) =~= added.subrange(0, k as int).push(added[k as int]));
                    assert(moves@.map_values(|m: (String, String, String)| (m.0@, m.1@, m.2@))
                        =~= prev + added.subrange(0, k + 1));
                    k = k + 1;
                }
                assert(added.subrange(0, added.len() as int) =~= added);
            } else {
                assert(moves@.map_values(|m: (String, String, String)| (m.0@, m.1@, m.2@))
                    =~= spec_sibling_moves_upto(root_base_name@, froms, sibs, i + 1));
            }
            i = i + 1;
        }
        moves
    }
}

} // verus!
