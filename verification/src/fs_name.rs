//! File-name sanitising.
use vstd::prelude::*;

use crate::text::{str_chars, string_from_chars};

verus! {

/// The character that stands in a file name for `c`: each character that
/// file systems refuse is mapped to its fullwidth form, others are kept.
pub open spec fn valid_fs_char(c: char) -> char {
    if c == ':' {
        '：'
    } else if c == '\\' {
        '＼'
    } else if c == '/' {
        '／'
    } else if c == '*' {
        '＊'
    } else if c == '?' {
        '？'
    } else if c == '!' {
        '！'
    } else if c == '"' {
        '＂'
    } else if c == '<' {
        '＜'
    } else if c == '>' {
        '＞'
    } else if c == '|' {
        '｜'
    } else {
        c
    }
}

/// The character that stands in a file name for `c`, as `valid_fs_char` states.
pub fn valid_fs_char_exec(c: char) -> (r: char)
    ensures
        r == valid_fs_char(c),
{
    match c {
        ':' => '：',
        '\\' => '＼',
        '/' => '／',
        '*' => '＊',
        '?' => '？',
        '!' => '！',
        '"' => '＂',
        '<' => '＜',
        '>' => '＞',
        '|' => '｜',
        _ => c,
    }
}

/// The file-system-safe form of `name`: every character is replaced by
/// `valid_fs_char` of it, so the length and all other characters stay.
pub open spec fn spec_valid_fs_name(name: Seq<char>) -> Seq<char> {
    name.map_values(|c: char| valid_fs_char(c))
}

/// Replace characters invalid in filenames with fullwidth alternatives.
pub fn get_valid_fs_name(name: &str) -> (r: String)
    ensures
        r@ == spec_valid_fs_name(name@),
{
    let cs = str_chars(name);
    let mut out: Vec<char> = Vec::new();
    let mut i: usize = 0;
    while i < cs.len()
        invariant
            i <= cs.len(),
            cs@ == name@,
            out@ == cs@.subrange(0, i as int).map_values(|c: char| valid_fs_char(c)),
        decreases cs.len() - i,
    {
        out.push(valid_fs_char_exec(cs[i]));
        i = i + 1;
        assert(out@ =~= cs@.subrange(0, i as int).map_values(|c: char| valid_fs_char(c)));
    }
    assert(cs@.subrange(0, cs@.len() as int) =~= cs@);
    string_from_chars(&out)
}

/// `c` is one of the characters that file systems refuse in a name.
pub open spec fn is_fs_forbidden(c: char) -> bool {
    c == ':' || c == '\\' || c == '/' || c == '*' || c == '?' || c == '!' || c == '"' || c == '<'
        || c == '>' || c == '|'
}

/// No character of `s` is one that file systems refuse.
pub open spec fn is_fs_safe(s: Seq<char>) -> bool {
    forall|i: int| 0 <= i < s.len() ==> !is_fs_forbidden(#[trigger] s[i])
}

/// No character of a sanitised name is one that file systems refuse.
pub proof fn lemma_valid_fs_name_is_safe(name: Seq<char>)
    ensures
        forall|i: int|
            0 <= i < spec_valid_fs_name(name).len() ==> {
                let c = #[trigger] spec_valid_fs_name(name)[i];
                c != ':' && c != '\\' && c != '/' && c != '*' && c != '?' && c != '!' && c != '"'
                    && c != '<' && c != '>' && c != '|'
            },
{
}

/// Sanitising is idempotent: a sanitised name is left as it is.
pub proof fn lemma_valid_fs_name_idempotent(name: Seq<char>)
    ensures
        spec_valid_fs_name(spec_valid_fs_name(name)) == spec_valid_fs_name(name),
{
    assert(spec_valid_fs_name(spec_valid_fs_name(name)) =~= spec_valid_fs_name(name));
}

} // verus!
