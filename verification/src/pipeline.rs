//! What every toolkit shares: reading payloads, and counting pages.

use vstd::prelude::*;
use vstd::string::*;

use crate::decimal::{
    digits, is_digit, lemma_digits, lemma_digits_round_trip, read_unsigned, unsigned,
    unsigned_up_to,
};
use crate::json::{referent, referents, Json};
use crate::text::{
    blank, cut_once, law_blanks_are_trimmed, law_cut, lemma_find, option_str_view, option_view,
    snug, split_once, strs_view, trim, trimmed,
};

verus! {

// ---------------------------------------------------------------- payloads

/// The value reached by the names of `path`, which stand between `separator`s.
pub open spec fn reached(value: Json, path: Seq<char>, separator: char) -> Option<Json>
    decreases path.len(),
{
    proof {
        lemma_find(path, separator);
    }
    match split_once(path, separator) {
        Some((name, rest)) => match value.member(name) {
            Some(next) => reached(next, rest, separator),
            None => None,
        },
        None => value.member(path),
    }
}

/// The value that a pointer such as `/data/messages` leads to. Every step is
/// the name of a member.
pub open spec fn pointed(value: Json, pointer: Seq<char>) -> Option<Json> {
    if pointer.len() > 0 && pointer[0] == '/' {
        reached(value, pointer.drop_first(), '/')
    } else {
        None
    }
}

/// The list that the first pointer to lead to one leads to.
pub open spec fn first_items(payload: Json, pointers: Seq<Seq<char>>) -> Seq<Json>
    decreases pointers.len(),
{
    if pointers.len() == 0 {
        Seq::empty()
    } else {
        match pointed(payload, pointers[0]) {
            Some(Json::Array(items)) => items@,
            _ => first_items(payload, pointers.drop_first()),
        }
    }
}

/// The text that a value amounts to: a text that is not blank, without the
/// white space around it, or a number as it is written.
pub open spec fn scalar(value: Json) -> Option<Seq<char>> {
    match value {
        Json::Str(text) => if trim(text@).len() > 0 {
            Some(trim(text@))
        } else {
            None
        },
        Json::Number(number) => Some(number.text()),
        _ => None,
    }
}

/// The text at the end of a dotted path.
pub open spec fn scalar_at(value: Json, path: Seq<char>) -> Option<Seq<char>> {
    match reached(value, path, '.') {
        Some(end) => scalar(end),
        None => None,
    }
}

/// The text at the end of the first dotted path to have one.
pub open spec fn pick(value: Json, paths: Seq<Seq<char>>) -> Option<Seq<char>>
    decreases paths.len(),
{
    if paths.len() == 0 {
        None
    } else {
        match scalar_at(value, paths[0]) {
            Some(text) => Some(text),
            None => pick(value, paths.drop_first()),
        }
    }
}

/// The value reached by the names of `path`, which stand between `separator`s.
fn reach<'a>(value: &'a Json, path: &str, separator: char) -> (end: Option<&'a Json>)
    ensures
        referent(end) == reached(*value, path@, separator),
    decreases path@.len(),
{
    match cut_once(path, separator) {
        Some((name, rest)) => {
            proof {
                lemma_find(path@, separator);
            }
            match value.get(name) {
                Some(next) => reach(next, rest, separator),
                None => None,
            }
        },
        None => value.get(path),
    }
}

/// The value that a pointer such as `/data/messages` leads to.
pub fn follow<'a>(payload: &'a Json, pointer: &str) -> (end: Option<&'a Json>)
    ensures
        referent(end) == pointed(*payload, pointer@),
{
    let n: usize = pointer.unicode_len();
    if n > 0 && pointer.get_char(0) == '/' {
        let path = pointer.substring_char(1, n);
        assert(path@ =~= pointer@.drop_first());
        reach(payload, path, '/')
    } else {
        None
    }
}

/// The items of the first list that one of the pointers leads to.
pub fn first_array<'a>(payload: &'a Json, pointers: &[&str]) -> (items: Vec<&'a Json>)
    ensures
        referents(items@) == first_items(*payload, strs_view(pointers@)),
{
    let ghost views = strs_view(pointers@);
    let mut i: usize = 0;
    assert(views.skip(0) =~= views);
    while i < pointers.len()
        invariant
            i <= pointers@.len(),
            views == strs_view(pointers@),
            first_items(*payload, views) == first_items(*payload, views.skip(i as int)),
        decreases pointers@.len() - i,
    {
        assert(views.skip(i as int).drop_first() =~= views.skip(i + 1));
        match follow(payload, pointers[i]) {
            Some(Json::Array(list)) => {
                let items = references(list);
                return items;
            },
            _ => {},
        }
        i = i + 1;
    }
    let none: Vec<&'a Json> = Vec::new();
    assert(referents(none@) =~= Seq::empty());
    none
}

/// References to the values of a list.
fn references<'a>(list: &'a Vec<Json>) -> (items: Vec<&'a Json>)
    ensures
        referents(items@) == list@,
{
    let mut items: Vec<&'a Json> = Vec::new();
    let mut i: usize = 0;
    while i < list.len()
        invariant
            i <= list@.len(),
            referents(items@) =~= list@.take(i as int),
        decreases list@.len() - i,
    {
        let ghost before = items@;
        items.push(&list[i]);
        assert(referents(items@) =~= referents(before).push(list@[i as int]));
        i = i + 1;
    }
    assert(list@.take(list@.len() as int) =~= list@);
    items
}

/// The text at the end of the first dotted path to have one.
pub fn pick_str(value: &Json, paths: &[&str]) -> (text: Option<String>)
    ensures
        option_view(text) == pick(*value, strs_view(paths@)),
{
    let ghost views = strs_view(paths@);
    let mut i: usize = 0;
    assert(views.skip(0) =~= views);
    while i < paths.len()
        invariant
            i <= paths@.len(),
            views == strs_view(paths@),
            pick(*value, views) == pick(*value, views.skip(i as int)),
        decreases paths@.len() - i,
    {
        assert(views.skip(i as int).drop_first() =~= views.skip(i + 1));
        match reach(value, paths[i], '.') {
            Some(Json::Str(text)) => {
                let inner = trimmed(text.as_str());
                if inner.unicode_len() > 0 {
                    return Some(inner.to_owned());
                }
            },
            Some(Json::Number(number)) => {
                return Some(number.to_text());
            },
            _ => {},
        }
        i = i + 1;
    }
    None
}

/// The text at the end of one dotted path.
pub(crate) fn pick_one(value: &Json, path: &str) -> (text: Option<String>)
    ensures
        option_view(text) == pick(*value, seq![path@]),
{
    let paths: [&str; 1] = [path];
    assert(strs_view(paths@) =~= seq![path@]);
    pick_str(value, &paths)
}

/// The text at the end of the first of two dotted paths to have one.
pub(crate) fn pick_two(value: &Json, first: &str, second: &str) -> (text: Option<String>)
    ensures
        option_view(text) == pick(*value, seq![first@, second@]),
{
    let paths: [&str; 2] = [first, second];
    assert(strs_view(paths@) =~= seq![first@, second@]);
    pick_str(value, &paths)
}

/// The text at the end of the first of three dotted paths to have one.
pub(crate) fn pick_three(value: &Json, first: &str, second: &str, third: &str) -> (text: Option<
    String,
>)
    ensures
        option_view(text) == pick(*value, seq![first@, second@, third@]),
{
    let paths: [&str; 3] = [first, second, third];
    assert(strs_view(paths@) =~= seq![first@, second@, third@]);
    pick_str(value, &paths)
}

// ---------------------------------------------------------------- page numbers

/// The page that a numbered position names: the first, where it names none.
pub open spec fn numbered(position: Option<Seq<char>>) -> nat {
    match position {
        Some(text) => match unsigned_up_to(trim(text), u32::MAX as nat) {
            Some(n) if n > 0 => n,
            _ => 1,
        },
        None => 1,
    }
}

/// The page that a numbered position names.
///
/// A position that cannot be read starts the walk over rather than stalling
/// it: what was ingested already is skipped.
pub fn page_number(position: Option<&str>) -> (page: u32)
    ensures
        page == numbered(option_str_view(position)),
        page >= 1,
{
    match position {
        Some(text) => match read_unsigned(trimmed(text), u32::MAX as u64) {
            Some(n) => if n > 0 {
                n as u32
            } else {
                1
            },
            None => 1,
        },
        None => 1,
    }
}

/// The page after `page`, which held `items` items where `page_size` were
/// asked for.
///
/// A short page is the last one. So is the page that reaches the item number
/// `reach`, past which the provider serves nothing.
pub fn next_page_number(page: u32, items: usize, page_size: usize, reach: u32) -> (next: Option<u32>)
    ensures
        next is Some <==> items >= page_size && page * page_size < reach && page < u32::MAX,
        next matches Some(n) ==> n == page + 1,
{
    if items < page_size || page == u32::MAX {
        return None;
    }
    match (page as u64).checked_mul(page_size as u64) {
        Some(served) => if served < reach as u64 {
            Some(page + 1)
        } else {
            None
        },
        None => None,
    }
}

/// A page number survives being written down and read back.
pub proof fn law_page_number_round_trip(page: nat)
    requires
        1 <= page <= u32::MAX,
    ensures
        numbered(Some(digits(page))) == page,
{
    lemma_digits(page);
    lemma_digits_round_trip(page);
    let text = digits(page);
    assert(is_digit(text[0]));
    assert(is_digit(text[text.len() - 1]));
    assert(trim(text) == text);
}

// ---------------------------------------------------------------- laws

/// A path is followed name by name.
pub proof fn law_paths_go_name_by_name(
    value: Json,
    name: Seq<char>,
    rest: Seq<char>,
    separator: char,
)
    requires
        !name.contains(separator),
    ensures
        reached(value, name, separator) == value.member(name),
        reached(value, name + seq![separator] + rest, separator) == (match value.member(name) {
            Some(next) => reached(next, rest, separator),
            None => None,
        }),
{
    law_cut(name, rest, separator);
}

/// A pointer is a path behind a slash; what starts otherwise leads nowhere.
pub proof fn law_pointers_start_with_a_slash(value: Json, path: Seq<char>, other: Seq<char>)
    ensures
        pointed(value, seq!['/'] + path) == reached(value, path, '/'),
        other.len() == 0 || other[0] != '/' ==> pointed(value, other) is None,
{
    assert((seq!['/'] + path).drop_first() =~= path);
}

/// The items are those of the first pointer to lead to a list, whole and in their
/// order; where no pointer leads to one there are none.
pub proof fn law_items_come_from_the_first_list(
    payload: Json,
    before: Seq<Seq<char>>,
    pointer: Seq<char>,
    after: Seq<Seq<char>>,
)
    requires
        forall|i: int|
            0 <= i < before.len() ==> !(pointed(payload, #[trigger] before[i]) matches Some(end)
                && end is Array),
    ensures
        first_items(payload, before).len() == 0,
        pointed(payload, pointer) matches Some(Json::Array(items)) ==> first_items(
            payload,
            before.push(pointer) + after,
        ) == items@,
    decreases before.len(),
{
    let all = before.push(pointer) + after;
    if before.len() > 0 {
        let rest = before.drop_first();
        assert forall|i: int| 0 <= i < rest.len() implies !(pointed(
            payload,
            #[trigger] rest[i],
        ) matches Some(end) && end is Array) by {
            assert(rest[i] == before[i + 1]);
        }
        law_items_come_from_the_first_list(payload, rest, pointer, after);
        assert(all.drop_first() =~= rest.push(pointer) + after);
        assert(all[0] == before[0]);
    } else {
        assert(all[0] == pointer);
    }
}

/// A text amounts to itself without the blanks around it, unless it is all blank;
/// a number to its digits; and nothing else amounts to a text.
pub proof fn law_scalars(value: Json, before: Seq<char>, text: Seq<char>, after: Seq<char>)
    requires
        blank(before),
        blank(after),
        snug(text),
    ensures
        value matches Json::Str(held) ==> (held@ == before + text + after ==> scalar(value) == (
        if text.len() > 0 {
            Some(text)
        } else {
            None::<Seq<char>>
        })),
        value matches Json::Number(number) ==> scalar(value) == Some(number.text()),
        !(value is Str) && !(value is Number) ==> scalar(value) is None,
{
    law_blanks_are_trimmed(before, text, after);
}

/// The text is that of the first path to have one; where no path has one there is
/// none.
pub proof fn law_the_first_path_to_have_a_text_counts(
    value: Json,
    before: Seq<Seq<char>>,
    path: Seq<char>,
    after: Seq<Seq<char>>,
)
    requires
        forall|i: int|
            0 <= i < before.len() ==> (match reached(value, #[trigger] before[i], '.') {
                Some(end) => scalar(end) is None,
                None => true,
            }),
    ensures
        pick(value, before) is None,
        reached(value, path, '.') matches Some(end) ==> (scalar(end) is Some ==> pick(
            value,
            before.push(path) + after,
        ) == scalar(end)),
    decreases before.len(),
{
    let all = before.push(path) + after;
    if before.len() > 0 {
        let rest = before.drop_first();
        assert forall|i: int| 0 <= i < rest.len() implies (match reached(
            value,
            #[trigger] rest[i],
            '.',
        ) {
            Some(end) => scalar(end) is None,
            None => true,
        }) by {
            assert(rest[i] == before[i + 1]);
        }
        law_the_first_path_to_have_a_text_counts(value, rest, path, after);
        assert(all.drop_first() =~= rest.push(path) + after);
        assert(all[0] == before[0]);
    } else {
        assert(all[0] == path);
    }
}

/// A numbered position is a number from one up, with blanks around it or without.
/// Whatever else it is, it is the first page.
pub proof fn law_numbered_positions(before: Seq<char>, text: Seq<char>, after: Seq<char>)
    requires
        blank(before),
        blank(after),
        snug(text),
    ensures
        numbered(None) == 1,
        numbered(Some(before + text + after)) == (match unsigned(text) {
            Some(n) => if 1 <= n <= u32::MAX {
                n
            } else {
                1
            },
            None => 1,
        }),
{
    law_blanks_are_trimmed(before, text, after);
}

} // verus!
