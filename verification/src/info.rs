//! What the library derives for a work directory from its name and from
//! the titles of its charts.
use vstd::prelude::*;

use crate::encoding::{get_boftt_encoding, spec_boftt_encoding};
use crate::text::{
    before_first, char_is_whitespace, chars_before_first, chars_slice, chars_trim, is_whitespace, str_chars,
    string_from_chars, trim,
};

verus! {

/// The work number a directory name starts with: the part before its first `.`.
pub open spec fn spec_dir_work_id(dir_name: Seq<char>) -> Seq<char> {
    before_first(dir_name, '.')
}

/// The encoding that the charts of the directory `dir_name` are read with
/// first: the BOFTT encoding of the work its name starts with.
pub open spec fn spec_dir_encoding(dir_name: Seq<char>) -> Option<Seq<char>> {
    spec_boftt_encoding(spec_dir_work_id(dir_name))
}

/// The encoding to read the charts of the directory `dir_name` with first,
/// when its work number has one.
pub fn dir_boftt_encoding(dir_name: &str) -> (r: Option<&'static str>)
    ensures
        match r {
            Some(e) => spec_dir_encoding(dir_name@) == Some(e@),
            None => spec_dir_encoding(dir_name@) is None,
        },
{
    let cs = str_chars(dir_name);
    let id = chars_before_first(&cs, '.');
    let id_s = string_from_chars(&id);
    get_boftt_encoding(id_s.as_str())
}

/// Number of occurrences of `c` in `s`.
pub open spec fn count_char(s: Seq<char>, c: char) -> nat
    decreases s.len(),
{
    if s.len() == 0 {
        0
    } else {
        count_char(s.drop_last(), c) + if s.last() == c {
            1nat
        } else {
            0nat
        }
    }
}

/// A work title whose last character is a dash that pairs with no other
/// (the count of dashes is odd) and follows a space: the dash is dropped,
/// and then the surrounding whitespace; other titles are kept.
pub open spec fn spec_clean_work_title(title: Seq<char>) -> Seq<char> {
    if title.len() >= 2 && title.last() == '-' && count_char(title, '-') % 2 == 1 && is_whitespace(
        title[title.len() - 2],
    ) {
        trim(title.drop_last())
    } else {
        title
    }
}

/// The title of a work once a dangling trailing dash is removed, as
/// `spec_clean_work_title` states.
pub fn clean_work_title(title: &str) -> (r: String)
    ensures
        r@ == spec_clean_work_title(title@),
{
    let cs = str_chars(title);
    let n = cs.len();
    if n < 2 || cs[n - 1] != '-' {
        return string_from_chars(&cs);
    }
    let mut count: usize = 0;
    let mut i: usize = 0;
    while i < n
        invariant
            i <= n,
            n == cs@.len(),
            count == count_char(cs@.subrange(0, i as int), '-'),
            count <= i,
        decreases n - i,
    {
        assert(cs@.subrange(0, i as int) =~= cs@.subrange(0, (i + 1) as int).drop_last());
        if cs[i] == '-' {
            count = count + 1;
        }
        i = i + 1;
    }
    assert(cs@.subrange(0, n as int) =~= cs@);
    let before = cs[n - 2];
    if count % 2 == 1 && char_is_whitespace(before) {
        let head = chars_slice(&cs, 0, n - 1);
        assert(head@ =~= cs@.drop_last());
        let t = chars_trim(&head);
        string_from_chars(&t)
    } else {
        string_from_chars(&cs)
    }
}

} // verus!
