//! What a row of the sidebar shows: where a search matched it, and its age.

use crate::text;
use vstd::prelude::*;
use vstd::string::*;

verus! {

/// What `char::to_lowercase` gives for a character.
pub uninterp spec fn lower_case(c: char) -> Seq<char>;

/// What `char::to_uppercase` gives for a character.
pub uninterp spec fn upper_case(c: char) -> Seq<char>;

/// Whether a character is a capital of the Latin alphabet, plain or accented,
/// whose small letter stands 32 places behind it.
pub open spec fn is_capital(c: char) -> bool {
    'A' <= c <= 'Z' || ('\u{c0}' <= c <= '\u{de}' && c != '\u{d7}')
}

/// Whether a character is a small letter of the Latin alphabet, plain or
/// accented, whose capital stands 32 places before it.
pub open spec fn is_small(c: char) -> bool {
    'a' <= c <= 'z' || ('\u{e0}' <= c <= '\u{fe}' && c != '\u{f7}')
}

/// The lower case of a character.
pub open spec fn lowered(c: char) -> Seq<char> {
    if is_capital(c) {
        seq![(c as u32 + 32) as char]
    } else if is_small(c) || c as u32 <= 0x7f {
        seq![c]
    } else {
        lower_case(c)
    }
}

/// The upper case of a character.
pub open spec fn raised(c: char) -> Seq<char> {
    if is_small(c) {
        seq![(c as u32 - 32) as char]
    } else if is_capital(c) || c as u32 <= 0x7f {
        seq![c]
    } else {
        upper_case(c)
    }
}

/// The lower case of a character, by `char::to_lowercase`: the mapping of the
/// Unicode character database. Said outright is what that is for ASCII and for
/// the accented letters of the Latin alphabet that come next.
#[verifier::external_body]
fn to_lower(c: char) -> (letters: Vec<char>)
    ensures
        letters@ == lower_case(c),
        letters@ == lowered(c),
{
    c.to_lowercase().collect()
}

/// The upper case of a character, by `char::to_uppercase`: the mapping of the
/// Unicode character database. Said outright is what that is for ASCII and for
/// the accented letters of the Latin alphabet that come next.
#[verifier::external_body]
fn to_upper(c: char) -> (letters: Vec<char>)
    ensures
        letters@ == upper_case(c),
        letters@ == raised(c),
{
    c.to_uppercase().collect()
}

/// A character in both cases.
#[derive(Debug, PartialEq, Eq)]
pub struct Cased {
    pub lower: Vec<char>,
    pub upper: Vec<char>,
}

/// What a [`Cased`] holds.
#[verifier::ext_equal]
pub struct CasedView {
    pub lower: Seq<char>,
    pub upper: Seq<char>,
}

impl DeepView for Cased {
    type V = CasedView;

    open spec fn deep_view(&self) -> CasedView {
        CasedView { lower: self.lower@, upper: self.upper@ }
    }
}

/// A character in both cases.
pub open spec fn cased(c: char) -> CasedView {
    CasedView { lower: lowered(c), upper: raised(c) }
}

/// Whether two characters are one, letter case aside: they have the same lower
/// case or the same upper case.
pub open spec fn is_same_letter(a: CasedView, b: CasedView) -> bool {
    a.lower == b.lower || a.upper == b.upper
}

/// Whether the query stands at a place, letter case aside.
pub open spec fn stands_at(query: Seq<CasedView>, candidate: Seq<CasedView>, at: int) -> bool {
    forall|k: int|
        0 <= k < query.len() ==> is_same_letter(candidate[at + k], #[trigger] query[k])
}

/// The first place at or after `at` where the query stands.
pub open spec fn first_place(
    query: Seq<CasedView>,
    candidate: Seq<CasedView>,
    at: int,
) -> Option<int>
    decreases candidate.len() - at,
{
    if at + query.len() > candidate.len() {
        None
    } else if stands_at(query, candidate, at) {
        Some(at)
    } else {
        first_place(query, candidate, at + 1)
    }
}

/// The numbers of the characters a query matches: those of its first occurrence
/// in one piece.
pub open spec fn match_positions(
    query: Seq<CasedView>,
    candidate: Seq<CasedView>,
) -> Option<Seq<nat>> {
    if query.len() == 0 {
        Some(Seq::empty())
    } else {
        match first_place(query, candidate, 0) {
            Some(at) => Some(Seq::new(query.len(), |k: int| (at + k) as nat)),
            None => None,
        }
    }
}

/// A text in both cases, character by character.
pub open spec fn cased_text(text: Seq<char>) -> Seq<CasedView> {
    text.map_values(|c: char| cased(c))
}

/// Whether two lists of characters are the same.
fn same_letters(a: &Vec<char>, b: &Vec<char>) -> (same: bool)
    ensures
        same == (a@ == b@),
{
    if a.len() != b.len() {
        return false;
    }
    let mut k: usize = 0;
    while k < a.len()
        invariant
            k <= a.len(),
            a.len() == b.len(),
            forall|j: int| 0 <= j < k ==> #[trigger] a@[j] == b@[j],
        decreases a.len() - k,
    {
        if a[k] != b[k] {
            assert(a@[k as int] != b@[k as int]);
            return false;
        }
        k = k + 1;
    }
    assert(a@ =~= b@);
    true
}

/// A text in both cases, character by character.
pub fn in_both_cases(text: &str) -> (letters: Vec<Cased>)
    ensures
        letters.deep_view() == cased_text(text@),
{
    let all = text::characters(text);
    let mut letters: Vec<Cased> = Vec::new();
    let mut k: usize = 0;
    assert(letters.deep_view() =~= cased_text(text@.take(0)));
    while k < all.len()
        invariant
            k <= all.len(),
            all@ == text@,
            letters.deep_view() == cased_text(text@.take(k as int)),
        decreases all.len() - k,
    {
        let ghost before = letters.deep_view();
        let letter = Cased { lower: to_lower(all[k]), upper: to_upper(all[k]) };
        letters.push(letter);
        proof {
            assert(letters.deep_view() =~= before.push(letter.deep_view()));
            assert(text@.take(k + 1) =~= text@.take(k as int).push(text@[k as int]));
            assert(cased_text(text@.take(k + 1)) =~= cased_text(text@.take(k as int)).push(
                cased(text@[k as int]),
            ));
        }
        k = k + 1;
    }
    assert(text@.take(k as int) =~= text@);
    letters
}

fn is_at(query: &Vec<Cased>, candidate: &Vec<Cased>, at: usize) -> (found: bool)
    requires
        at + query.len() <= candidate.len(),
    ensures
        found == stands_at(query.deep_view(), candidate.deep_view(), at as int),
{
    let ghost (wanted, letters) = (query.deep_view(), candidate.deep_view());
    let mut k: usize = 0;
    while k < query.len()
        invariant
            k <= query.len(),
            at + query.len() <= candidate.len(),
            wanted == query.deep_view(),
            letters == candidate.deep_view(),
            forall|j: int|
                0 <= j < k ==> is_same_letter(letters[at + j], #[trigger] wanted[j]),
        decreases query.len() - k,
    {
        proof {
            assert(wanted[k as int] == query[k as int].deep_view());
            assert(letters[at + k] == candidate[at + k].deep_view());
        }
        if !same_letters(&candidate[at + k].lower, &query[k].lower) && !same_letters(
            &candidate[at + k].upper,
            &query[k].upper,
        ) {
            return false;
        }
        k = k + 1;
    }
    true
}

/// Where a query matches, among characters in both cases.
pub fn positions_of(query: &Vec<Cased>, candidate: &Vec<Cased>) -> (positions: Option<Vec<usize>>)
    ensures
        match match_positions(query.deep_view(), candidate.deep_view()) {
            Some(numbers) => positions matches Some(list) && list@.len() == numbers.len() && forall|
                k: int,
            |
                0 <= k < numbers.len() ==> #[trigger] list@[k] == numbers[k],
            None => positions is None,
        },
{
    let ghost (wanted, letters) = (query.deep_view(), candidate.deep_view());
    if query.len() == 0 {
        return Some(Vec::new());
    }
    if query.len() > candidate.len() {
        return None;
    }
    let last: usize = candidate.len() - query.len();
    let mut at: usize = 0;
    while at <= last
        invariant
            at <= last + 1,
            last + query.len() == candidate.len(),
            query.len() > 0,
            wanted == query.deep_view(),
            letters == candidate.deep_view(),
            first_place(wanted, letters, 0) == first_place(wanted, letters, at as int),
        decreases last + 1 - at,
    {
        if is_at(query, candidate, at) {
            let mut list: Vec<usize> = Vec::new();
            let mut k: usize = 0;
            while k < query.len()
                invariant
                    k <= query.len(),
                    at + query.len() <= candidate.len(),
                    list@.len() == k,
                    forall|j: int| 0 <= j < k ==> #[trigger] list@[j] == at + j,
                decreases query.len() - k,
            {
                list.push(at + k);
                k = k + 1;
            }
            return Some(list);
        }
        at = at + 1;
    }
    None
}

/// Character offsets in `candidate` matching a contiguous, case-insensitive run
/// of `query`, for highlighting search hits. `None` when there is no match.
pub fn fuzzy_match_positions(query: &str, candidate: &str) -> (positions: Option<Vec<usize>>)
    ensures
        match match_positions(cased_text(query@), cased_text(candidate@)) {
            Some(numbers) => positions matches Some(list) && list@.len() == numbers.len() && forall|
                k: int,
            |
                0 <= k < numbers.len() ==> #[trigger] list@[k] == numbers[k],
            None => positions is None,
        },
{
    positions_of(&in_both_cases(query), &in_both_cases(candidate))
}

/// A small letter matches its capital, plain or accented.
pub proof fn law_case_is_no_difference(c: char)
    requires
        is_capital(c),
    ensures
        is_same_letter(cased(c), cased((c as u32 + 32) as char)),
        is_same_letter(cased((c as u32 + 32) as char), cased(c)),
{
}

/// A match is one: the characters found are where the query stands, letter case
/// aside, and it stands nowhere before.
pub proof fn law_the_first_match_is_shown(
    query: Seq<CasedView>,
    candidate: Seq<CasedView>,
    from: int,
)
    requires
        0 <= from <= candidate.len(),
    ensures
        match first_place(query, candidate, from) {
            Some(at) => {
                &&& from <= at
                &&& at + query.len() <= candidate.len()
                &&& stands_at(query, candidate, at)
                &&& forall|k: int| from <= k < at ==> !#[trigger] stands_at(query, candidate, k)
            },
            None => forall|k: int|
                from <= k && k + query.len() <= candidate.len() ==> !#[trigger] stands_at(
                    query,
                    candidate,
                    k,
                ),
        },
    decreases candidate.len() - from,
{
    if from + query.len() <= candidate.len() && !stands_at(query, candidate, from) {
        if from < candidate.len() {
            law_the_first_match_is_shown(query, candidate, from + 1);
        }
    }
}

/// Whether a second and its nanoseconds are a time the calendar has: from the
/// first day of the year -262143 to the last of the year 262142. The last second
/// of a minute may run on into a leap second.
pub open spec fn is_moment(seconds: i64, nanos: u32) -> bool {
    &&& -8334601228800 <= seconds <= 8210266876799
    &&& nanos < 1_000_000_000 || (is_in_leap_second(nanos) && nanos < 2_000_000_000 && seconds % 60
        == 59)
}

/// Whether a moment with so many nanoseconds lies in a leap second.
pub open spec fn is_in_leap_second(nanos: u32) -> bool {
    nanos >= 1_000_000_000
}

/// The leap second to count between two moments: the one that the earlier of the
/// two times of day lies in.
pub open spec fn leap_between(
    entry_seconds: i64,
    entry_nanos: u32,
    now_seconds: i64,
    now_nanos: u32,
) -> int {
    let (entry_time, now_time) = (entry_seconds % 86_400, now_seconds % 86_400);
    if now_time > entry_time && is_in_leap_second(entry_nanos) {
        1
    } else if now_time < entry_time && is_in_leap_second(now_nanos) {
        -1
    } else {
        0
    }
}

/// A quotient, rounded towards zero.
pub open spec fn rounded_down(n: int, by: int) -> int {
    if n >= 0 {
        n / by
    } else {
        -((-n) / by)
    }
}

/// The whole seconds from one moment to another.
pub open spec fn seconds_from(
    entry_seconds: i64,
    entry_nanos: u32,
    now_seconds: i64,
    now_nanos: u32,
) -> int {
    rounded_down(
        (now_seconds - entry_seconds + leap_between(
            entry_seconds,
            entry_nanos,
            now_seconds,
            now_nanos,
        )) * 1_000_000_000 + (now_nanos - entry_nanos),
        1_000_000_000,
    )
}

/// The whole seconds between two moments, by `chrono`'s
/// `DateTime::signed_duration_since` and `TimeDelta::num_seconds`: the
/// difference of the two, a leap second counted by the times of day, rounded
/// towards zero; negative for an entry that lies ahead.
#[verifier::external_body]
fn elapsed_seconds(
    entry_seconds: i64,
    entry_nanos: u32,
    now_seconds: i64,
    now_nanos: u32,
) -> (seconds: i64)
    requires
        is_moment(entry_seconds, entry_nanos),
        is_moment(now_seconds, now_nanos),
    ensures
        seconds == seconds_from(entry_seconds, entry_nanos, now_seconds, now_nanos),
{
    let entry = chrono::DateTime::from_timestamp(entry_seconds, entry_nanos).unwrap();
    let now = chrono::DateTime::from_timestamp(now_seconds, now_nanos).unwrap();
    now.signed_duration_since(entry).num_seconds()
}

/// An age in its largest fitting unit, at least one of it.
pub open spec fn age_text(seconds: int) -> Seq<char> {
    let minutes = rounded_down(seconds, 60);
    let hours = rounded_down(seconds, 3_600);
    let days = rounded_down(seconds, 86_400);
    let (count, unit) = if minutes < 60 {
        (minutes, "m"@)
    } else if hours < 24 {
        (hours, "h"@)
    } else if days < 7 {
        (days, "d"@)
    } else if days / 7 < 4 {
        (days / 7, "w"@)
    } else {
        (days / 30, "mo"@)
    };
    text::decimal(
        if count < 1 {
            1
        } else {
            count as nat
        },
    ) + unit
}

/// A compact age, as history rows show it: `5m`, `3h`, `2d`, `1w`, `4mo`.
pub fn format_age(seconds: i64) -> (age: String)
    ensures
        age@ == age_text(seconds as int),
{
    if seconds < 60 {
        return text::joined(text::number(1).as_str(), "m");
    }
    let seconds = seconds as u64;
    let (count, unit) = if seconds / 60 < 60 {
        (seconds / 60, "m")
    } else if seconds / 3_600 < 24 {
        (seconds / 3_600, "h")
    } else if seconds / 86_400 < 7 {
        (seconds / 86_400, "d")
    } else if seconds / 86_400 / 7 < 4 {
        (seconds / 86_400 / 7, "w")
    } else {
        (seconds / 86_400 / 30, "mo")
    };
    let shown: u64 = if count < 1 {
        1
    } else {
        count
    };
    text::joined(text::number(shown).as_str(), unit)
}

/// The age of a history row, from when it was made and what time it is.
pub fn format_history_entry_timestamp(
    entry_seconds: i64,
    entry_nanos: u32,
    now_seconds: i64,
    now_nanos: u32,
) -> (age: String)
    requires
        is_moment(entry_seconds, entry_nanos),
        is_moment(now_seconds, now_nanos),
    ensures
        age@ == age_text(seconds_from(entry_seconds, entry_nanos, now_seconds, now_nanos)),
{
    format_age(elapsed_seconds(entry_seconds, entry_nanos, now_seconds, now_nanos))
}

} // verus!
