//! BMS events: their web pages, and the numbered work folders of an event.
use vstd::prelude::*;

use crate::text::{
    all_ascii_digits, before_first, chars_all_ascii_digits, chars_before_first, chars_eq,
    chars_start_with, has_prefix, int_decimal, int_to_decimal, is_ascii_digit, str_chars,
    string_from, string_from_chars,
};

verus! {

/// BMS event types for work information pages.
#[derive(Debug, Clone, Copy, PartialEq, Eq, Structural)]
pub enum BMSEvent {
    /// BOF Team Festival.
    BOFTT,
    /// BOF 2021.
    BOF21,
    /// `LetsBMS` Edit 3.
    LetsBMSEdit3,
}

/// The event that a numeric value names; unknown values name BOFTT.
pub open spec fn spec_event_from_value(val: int) -> BMSEvent {
    if val == 21 {
        BMSEvent::BOF21
    } else if val == 103 {
        BMSEvent::LetsBMSEdit3
    } else {
        BMSEvent::BOFTT
    }
}

/// The numeric value of an event.
pub open spec fn spec_event_value(e: BMSEvent) -> int {
    match e {
        BMSEvent::BOFTT => 20,
        BMSEvent::BOF21 => 21,
        BMSEvent::LetsBMSEdit3 => 103,
    }
}

/// The page that lists the works of an event.
pub open spec fn spec_list_url(e: BMSEvent) -> Seq<char> {
    match e {
        BMSEvent::BOFTT => "https://manbow.nothing.sh/event/event.cgi?action=sp&event=146"@,
        BMSEvent::BOF21 => "https://manbow.nothing.sh/event/event.cgi?action=sp&event=149"@,
        BMSEvent::LetsBMSEdit3 => "https://venue.bmssearch.net/letsbmsedit3"@,
    }
}

/// The page of work number `n` of an event.
pub open spec fn spec_work_info_url(e: BMSEvent, n: int) -> Seq<char> {
    match e {
        BMSEvent::BOFTT => "https://manbow.nothing.sh/event/event.cgi?action=More_def&num="@
            + int_decimal(n) + "&event=146"@,
        BMSEvent::BOF21 => "https://manbow.nothing.sh/event/event.cgi?action=More_def&num="@
            + int_decimal(n) + "&event=149"@,
        BMSEvent::LetsBMSEdit3 => "https://venue.bmssearch.net/letsbmsedit3/"@ + int_decimal(n),
    }
}

/// The pages a jump opens, in order: the list page when no work is given,
/// else the page of each work.
pub open spec fn spec_jump_urls(e: BMSEvent, work_ids: Seq<i32>) -> Seq<Seq<char>> {
    if work_ids.len() == 0 {
        seq![spec_list_url(e)]
    } else {
        work_ids.map_values(|id: i32| spec_work_info_url(e, id as int))
    }
}

impl BMSEvent {
    /// The event that `val` names, defaulting to BOFTT.
    pub fn from_value(val: i32) -> (r: Self)
        ensures
            r == spec_event_from_value(val as int),
    {
        match val {
            21 => BMSEvent::BOF21,
            103 => BMSEvent::LetsBMSEdit3,
            _ => BMSEvent::BOFTT,
        }
    }

    /// The numeric value of the event (20, 21 or 103).
    pub fn value(self) -> (r: i32)
        ensures
            r as int == spec_event_value(self),
    {
        match self {
            BMSEvent::BOFTT => 20,
            BMSEvent::BOF21 => 21,
            BMSEvent::LetsBMSEdit3 => 103,
        }
    }

    /// The event's list page.
    pub fn list_url(self) -> (r: &'static str)
        ensures
            r@ == spec_list_url(self),
    {
        match self {
            BMSEvent::BOFTT => "https://manbow.nothing.sh/event/event.cgi?action=sp&event=146",
            BMSEvent::BOF21 => "https://manbow.nothing.sh/event/event.cgi?action=sp&event=149",
            BMSEvent::LetsBMSEdit3 => "https://venue.bmssearch.net/letsbmsedit3",
        }
    }

    /// The page of work number `work_num`.
    pub fn work_info_url(self, work_num: i32) -> (r: String)
        ensures
            r@ == spec_work_info_url(self, work_num as int),
    {
        let num = string_from_chars(&int_to_decimal(work_num as i64));
        match self {
            BMSEvent::BOFTT => {
                let mut s = String::from_str(
                    "https://manbow.nothing.sh/event/event.cgi?action=More_def&num=",
                );
                s.append(num.as_str());
                s.append("&event=146");
                s
            },
            BMSEvent::BOF21 => {
                let mut s = String::from_str(
                    "https://manbow.nothing.sh/event/event.cgi?action=More_def&num=",
                );
                s.append(num.as_str());
                s.append("&event=149");
                s
            },
            BMSEvent::LetsBMSEdit3 => {
                let mut s = String::from_str("https://venue.bmssearch.net/letsbmsedit3/");
                s.append(num.as_str());
                s
            },
        }
    }

    /// Parse an i32 into a `BMSEvent`, defaulting to BOFTT.
    pub fn from_i32(val: i32) -> (r: Self)
        ensures
            r == spec_event_from_value(val as int),
    {
        Self::from_value(val)
    }
}

/// Every event is named by its own value.
pub proof fn lemma_event_value_roundtrip(e: BMSEvent)
    ensures
        spec_event_from_value(spec_event_value(e)) == e,
{
}

/// The list page of an event is none of its work pages, and no two events
/// share a list page.
pub proof fn lemma_list_page_is_no_work_page(e: BMSEvent, f: BMSEvent, n: int)
    ensures
        spec_list_url(e) != spec_work_info_url(e, n),
        e != f ==> spec_list_url(e) != spec_list_url(f),
{
    reveal_strlit("https://manbow.nothing.sh/event/event.cgi?action=sp&event=146");
    reveal_strlit("https://manbow.nothing.sh/event/event.cgi?action=sp&event=149");
    reveal_strlit("https://venue.bmssearch.net/letsbmsedit3");
    reveal_strlit("https://manbow.nothing.sh/event/event.cgi?action=More_def&num=");
    reveal_strlit("&event=146");
    reveal_strlit("&event=149");
    reveal_strlit("https://venue.bmssearch.net/letsbmsedit3/");
    let list = spec_list_url(e);
    let work = spec_work_info_url(e, n);
    match e {
        BMSEvent::BOFTT => {
            assert(list[49] == 's');
            assert(work[49] == 'M');
        },
        BMSEvent::BOF21 => {
            assert(list[49] == 's');
            assert(work[49] == 'M');
        },
        BMSEvent::LetsBMSEdit3 => {
            assert(work.len() > list.len());
        },
    }
    if e != f {
        let other = spec_list_url(f);
        if e == BMSEvent::LetsBMSEdit3 || f == BMSEvent::LetsBMSEdit3 {
            assert(list.len() != other.len());
        } else {
            assert(list[list.len() - 1] != other[other.len() - 1]);
        }
    }
}

/// The work pages of an event sit beside its list page: on the venue they
/// are the list page followed by `/` and the work's number; on the BOF
/// site they share the list page's address up to the action and its
/// closing `&event=` part.
pub proof fn lemma_work_pages_beside_list_page(e: BMSEvent, n: int)
    ensures
        e == BMSEvent::LetsBMSEdit3 ==> spec_work_info_url(e, n) == spec_list_url(e) + "/"@
            + int_decimal(n),
        e != BMSEvent::LetsBMSEdit3 ==> spec_work_info_url(e, n).subrange(0, 49) == spec_list_url(
            e,
        ).subrange(0, 49) && spec_work_info_url(e, n).subrange(
            spec_work_info_url(e, n).len() - 10,
            spec_work_info_url(e, n).len() as int,
        ) == spec_list_url(e).subrange(
            spec_list_url(e).len() - 10,
            spec_list_url(e).len() as int,
        ),
{
    reveal_strlit("https://manbow.nothing.sh/event/event.cgi?action=sp&event=146");
    reveal_strlit("https://manbow.nothing.sh/event/event.cgi?action=sp&event=149");
    reveal_strlit("https://venue.bmssearch.net/letsbmsedit3");
    reveal_strlit("https://manbow.nothing.sh/event/event.cgi?action=More_def&num=");
    reveal_strlit("&event=146");
    reveal_strlit("&event=149");
    reveal_strlit("https://venue.bmssearch.net/letsbmsedit3/");
    reveal_strlit("/");
    let list = spec_list_url(e);
    let work = spec_work_info_url(e, n);
    if e == BMSEvent::LetsBMSEdit3 {
        assert(work =~= list + "/"@ + int_decimal(n));
    } else {
        assert(work.subrange(0, 49) =~= list.subrange(0, 49));
        assert(work.subrange(work.len() - 10, work.len() as int) =~= list.subrange(
            list.len() - 10,
            list.len() as int,
        ));
    }
}

/// The pages to open for a jump to the works `work_ids` of `event`: the
/// list page when `work_ids` is empty, else one page per work, in order.
pub fn jump_to_work_info(event: BMSEvent, work_ids: &[i32]) -> (urls: Vec<String>)
    ensures
        urls@.map_values(|u: String| u@) == spec_jump_urls(event, work_ids@),
{
    let mut urls: Vec<String> = Vec::new();
    if work_ids.len() == 0 {
        urls.push(string_from(event.list_url()));
        assert(urls@.map_values(|u: String| u@) =~= spec_jump_urls(event, work_ids@));
        return urls;
    }
    let mut i: usize = 0;
    while i < work_ids.len()
        invariant
            i <= work_ids.len(),
            urls@.map_values(|u: String| u@) == work_ids@.subrange(0, i as int).map_values(
                |id: i32| spec_work_info_url(event, id as int),
            ),
        decreases work_ids.len() - i,
    {
        let ghost prev = urls@.map_values(|u: String| u@);
        let u = event.work_info_url(work_ids[i]);
        urls.push(u);
        assert(urls@.map_values(|u: String| u@) =~= prev.push(u@));
        i = i + 1;
        assert(urls@.map_values(|u: String| u@) =~= work_ids@.subrange(0, i as int).map_values(
            |id: i32| spec_work_info_url(event, id as int),
        ));
    }
    assert(work_ids@.subrange(0, work_ids@.len() as int) =~= work_ids@);
    urls
}

/// The names of the numbered folders `1..=count` of an event directory.
pub open spec fn spec_numbered_names(count: int) -> Seq<Seq<char>> {
    Seq::new(if count > 0 { count as nat } else { 0 }, |i: int| int_decimal(i + 1))
}

/// The names `"1"`, `"2"`, … `"{max_count}"` of the folders an event
/// directory should hold (none when `max_count` is not positive).
pub fn check_num_folder(max_count: i32) -> (names: Vec<String>)
    ensures
        names@.map_values(|n: String| n@) == spec_numbered_names(max_count as int),
{
    let mut names: Vec<String> = Vec::new();
    let mut i: i64 = 1;
    while i <= max_count as i64
        invariant
            1 <= i,
            i <= (if max_count > 0 { max_count as i64 + 1 } else { 1 }),
            names@.map_values(|n: String| n@) =~= Seq::new(
                (i - 1) as nat,
                |k: int| int_decimal(k + 1),
            ),
        decreases max_count as i64 + 1 - i,
    {
        let ghost prev = names@.map_values(|n: String| n@);
        let n = string_from_chars(&int_to_decimal(i));
        names.push(n);
        assert(names@.map_values(|n: String| n@) =~= prev.push(n@));
        i = i + 1;
        assert(names@.map_values(|n: String| n@) =~= Seq::new(
            (i - 1) as nat,
            |k: int| int_decimal(k + 1),
        ));
    }
    assert(names@.map_values(|n: String| n@) =~= spec_numbered_names(max_count as int));
    names
}

/// An existing entry `entry` blocks creating the folder named `id`: it is
/// `id` itself or starts with `"{id}."` or `"{id} "`.
pub open spec fn spec_id_conflicts(entry: Seq<char>, id: Seq<char>) -> bool {
    entry == id || has_prefix(entry, id.push('.')) || has_prefix(entry, id.push(' '))
}

/// Some existing entry blocks creating the folder named `id`.
pub open spec fn spec_id_exists(existing: Seq<Seq<char>>, id: Seq<char>) -> bool {
    exists|k: int| 0 <= k < existing.len() && spec_id_conflicts(#[trigger] existing[k], id)
}

/// The numbered folders that creating `count` folders makes: those of
/// `1..=count` that no existing directory entry blocks, in order.
pub open spec fn spec_folders_to_create(existing: Seq<Seq<char>>, count: int) -> Seq<Seq<char>> {
    spec_numbered_names(count).filter(|n: Seq<char>| !spec_id_exists(existing, n))
}

/// Creating numbered folders leaves none of `1..=count` missing: each name
/// is either held by an existing entry for that work, or created; and no
/// created folder is one that an existing entry holds.
pub proof fn lemma_create_covers_numbered(existing: Seq<Seq<char>>, count: int)
    ensures
        forall|k: int|
            0 <= k < spec_folders_to_create(existing, count).len() ==> !spec_id_exists(
                existing,
                #[trigger] spec_folders_to_create(existing, count)[k],
            ),
        forall|i: int|
            0 <= i < spec_numbered_names(count).len() ==> spec_id_exists(
                existing,
                #[trigger] spec_numbered_names(count)[i],
            ) || spec_folders_to_create(existing, count).contains(spec_numbered_names(count)[i]),
{
    let names = spec_numbered_names(count);
    let pred = |n: Seq<char>| !spec_id_exists(existing, n);
    assert forall|i: int| 0 <= i < names.len() && !spec_id_exists(existing, #[trigger] names[i])
        implies spec_folders_to_create(existing, count).contains(names[i]) by {
        names.lemma_filter_contains(pred, i);
    }
    assert forall|k: int| 0 <= k < spec_folders_to_create(existing, count).len() implies !spec_id_exists(
        existing,
        #[trigger] spec_folders_to_create(existing, count)[k],
    ) by {
        names.lemma_filter_pred(pred, k);
    }
}

/// Whether the existing directory name `entry` blocks the folder `id`.
pub fn id_conflicts(entry: &str, id: &str) -> (r: bool)
    ensures
        r == spec_id_conflicts(entry@, id@),
{
    let e = str_chars(entry);
    let mut dot = str_chars(id);
    let mut space = str_chars(id);
    dot.push('.');
    space.push(' ');
    let ic = str_chars(id);
    chars_eq(&e, &ic) || chars_start_with(&e, &dot) || chars_start_with(&e, &space)
}

/// Create numbered folders in a BMS event directory: given the names of the
/// directories already there, the names of the folders to create, in order.
pub fn create_num_folders(existing_elements: &[String], folder_count: i32) -> (to_create: Vec<
    String,
>)
    ensures
        to_create@.map_values(|n: String| n@) == spec_folders_to_create(
            existing_elements@.map_values(|n: String| n@),
            folder_count as int,
        ),
{
    let ghost existing = existing_elements@.map_values(|n: String| n@);
    let ghost pred = |n: Seq<char>| !spec_id_exists(existing, n);
    let names = check_num_folder(folder_count);
    let ghost all = names@.map_values(|n: String| n@);
    let mut out: Vec<String> = Vec::new();
    let mut i: usize = 0;
    while i < names.len()
        invariant
            i <= names.len(),
            all == names@.map_values(|n: String| n@),
            all == spec_numbered_names(folder_count as int),
            existing == existing_elements@.map_values(|n: String| n@),
            pred == (|n: Seq<char>| !spec_id_exists(existing, n)),
            out@.map_values(|n: String| n@) == all.subrange(0, i as int).filter(pred),
        decreases names.len() - i,
    {
        let mut exists = false;
        let mut k: usize = 0;
        while k < existing_elements.len()
            invariant
                k <= existing_elements.len(),
                i < names.len(),
                existing == existing_elements@.map_values(|n: String| n@),
                exists == (exists|j: int|
                    0 <= j < k && spec_id_conflicts(#[trigger] existing[j], names@[i as int]@)),
            decreases existing_elements.len() - k,
        {
            assert(existing[k as int] == existing_elements@[k as int]@);
            if id_conflicts(existing_elements[k].as_str(), names[i].as_str()) {
                exists = true;
            }
            k = k + 1;
        }
        assert(exists == spec_id_exists(existing, all[i as int]));
        let ghost prev = all.subrange(0, i as int);
        if !exists {
            out.push(names[i].clone());
        }
        i = i + 1;
        proof {
            assert(all.subrange(0, i as int).drop_last() =~= prev);
            reveal_with_fuel(Seq::<_>::filter, 1);
            assert(out@.map_values(|n: String| n@) =~= all.subrange(0, i as int).filter(pred));
        }
    }
    assert(all.subrange(0, all.len() as int) =~= all);
    out
}

/// The value of a string of ASCII digits.
pub open spec fn digits_value(s: Seq<char>) -> nat
    decreases s.len(),
{
    if s.len() == 0 {
        0
    } else {
        digits_value(s.drop_last()) * 10 + ((s.last() as u32) - ('0' as u32)) as nat
    }
}

/// The row (the work number less one) under which a work directory named
/// `work_name` goes into the work table: its id is the text before the
/// first `.`, which must be a non-empty run of ASCII digits whose value
/// fits in `u32` and is not zero.
pub open spec fn spec_work_table_row(work_name: Seq<char>) -> Option<u32> {
    let id = before_first(work_name, '.');
    if id.len() == 0 || !all_ascii_digits(id) {
        None
    } else if digits_value(id) == 0 || digits_value(id) > u32::MAX {
        None
    } else {
        Some((digits_value(id) - 1) as u32)
    }
}

/// The row of the work table for a work directory, as
/// `spec_work_table_row` states; `None` for a directory that is skipped.
pub fn work_table_row(work_name: &str) -> (r: Option<u32>)
    ensures
        r == spec_work_table_row(work_name@),
{
    let cs = str_chars(work_name);
    let id = chars_before_first(&cs, '.');
    if id.len() == 0 || !chars_all_ascii_digits(&id) {
        return None;
    }
    let mut value: u64 = 0;
    let mut i: usize = 0;
    while i < id.len()
        invariant
            i <= id.len(),
            all_ascii_digits(id@),
            value <= u32::MAX as u64 + 1,
            value <= u32::MAX ==> value == digits_value(id@.subrange(0, i as int)),
            value > u32::MAX ==> digits_value(id@.subrange(0, i as int)) > u32::MAX,
        decreases id.len() - i,
    {
        let d = (id[i] as u32 - '0' as u32) as u64;
        assert(id@.subrange(0, i + 1).drop_last() =~= id@.subrange(0, i as int));
        assert(is_ascii_digit(id@[i as int]));
        if value <= u32::MAX as u64 {
            let next = value * 10 + d;
            value = if next > u32::MAX as u64 { u32::MAX as u64 + 1 } else { next };
        } else {
            proof {
                lemma_digits_value_grows(id@.subrange(0, i + 1));
            }
        }
        i = i + 1;
    }
    assert(id@.subrange(0, id@.len() as int) =~= id@);
    if value == 0 || value > u32::MAX as u64 {
        None
    } else {
        Some((value - 1) as u32)
    }
}

/// Appending a digit never makes a value smaller.
pub proof fn lemma_digits_value_grows(s: Seq<char>)
    requires
        s.len() > 0,
    ensures
        digits_value(s) >= digits_value(s.drop_last()),
{
}

} // verus!
