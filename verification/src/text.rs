//! Text and optional text: comparison, ordering and the small amount of
//! splitting the rest of the crate needs.
//!
//! Everything is stated over a string's view, the sequence of its characters.

use vstd::prelude::*;
use vstd::string::*;
use vstd::utf8::*;

verus! {

/// What an optional string holds.
pub open spec fn opt(text: Option<String>) -> Option<Seq<char>> {
    text.deep_view()
}

/// Whether two byte strings are in lexicographic order, the first strictly
/// before the second.
pub open spec fn bytes_before(a: Seq<u8>, b: Seq<u8>) -> bool
    decreases a.len(),
{
    if b.len() == 0 {
        false
    } else if a.len() == 0 {
        true
    } else if a[0] != b[0] {
        a[0] < b[0]
    } else {
        bytes_before(a.drop_first(), b.drop_first())
    }
}

/// The order strings have: lexicographic by their UTF-8 bytes.
pub open spec fn text_before(a: Seq<char>, b: Seq<char>) -> bool {
    bytes_before(encode_utf8(a), encode_utf8(b))
}

/// The order optional strings have: an absent one precedes every present one.
pub open spec fn opt_text_before(a: Option<Seq<char>>, b: Option<Seq<char>>) -> bool {
    match (a, b) {
        (None, None) => false,
        (None, Some(_)) => true,
        (Some(_), None) => false,
        (Some(a), Some(b)) => text_before(a, b),
    }
}

proof fn lemma_bytes_irreflexive(a: Seq<u8>)
    ensures
        !bytes_before(a, a),
    decreases a.len(),
{
    if a.len() > 0 {
        lemma_bytes_irreflexive(a.drop_first());
    }
}

proof fn lemma_bytes_transitive(a: Seq<u8>, b: Seq<u8>, c: Seq<u8>)
    requires
        bytes_before(a, b),
        bytes_before(b, c),
    ensures
        bytes_before(a, c),
    decreases a.len(),
{
    if a.len() > 0 && a[0] == b[0] && b[0] == c[0] {
        lemma_bytes_transitive(a.drop_first(), b.drop_first(), c.drop_first());
    }
}

proof fn lemma_bytes_total(a: Seq<u8>, b: Seq<u8>)
    ensures
        bytes_before(a, b) || bytes_before(b, a) || a == b,
    decreases a.len(),
{
    if a.len() > 0 && b.len() > 0 {
        if a[0] == b[0] {
            lemma_bytes_total(a.drop_first(), b.drop_first());
            if a.drop_first() == b.drop_first() {
                assert(a =~= seq![a[0]] + a.drop_first());
                assert(b =~= seq![b[0]] + b.drop_first());
            }
        }
    } else if a.len() == 0 && b.len() == 0 {
        assert(a =~= b);
    }
}

/// Two texts have the same bytes only when they have the same characters.
pub proof fn lemma_encoding_injective(a: Seq<char>, b: Seq<char>)
    requires
        encode_utf8(a) == encode_utf8(b),
    ensures
        a == b,
{
    encode_utf8_decode_utf8(a);
    encode_utf8_decode_utf8(b);
}

/// The order of texts is a strict total order.
pub proof fn lemma_text_order(a: Seq<char>, b: Seq<char>, c: Seq<char>)
    ensures
        !text_before(a, a),
        text_before(a, b) && text_before(b, c) ==> text_before(a, c),
        text_before(a, b) || text_before(b, a) || a == b,
        !(text_before(a, b) && text_before(b, a)),
{
    let (x, y, z) = (encode_utf8(a), encode_utf8(b), encode_utf8(c));
    lemma_bytes_irreflexive(x);
    if bytes_before(x, y) && bytes_before(y, z) {
        lemma_bytes_transitive(x, y, z);
    }
    lemma_bytes_total(x, y);
    if x == y {
        lemma_encoding_injective(a, b);
    }
    if bytes_before(x, y) && bytes_before(y, x) {
        lemma_bytes_transitive(x, y, x);
    }
}

/// The order of optional texts is a strict total order.
pub proof fn lemma_opt_text_order(
    a: Option<Seq<char>>,
    b: Option<Seq<char>>,
    c: Option<Seq<char>>,
)
    ensures
        !opt_text_before(a, a),
        opt_text_before(a, b) && opt_text_before(b, c) ==> opt_text_before(a, c),
        opt_text_before(a, b) || opt_text_before(b, a) || a == b,
        !(opt_text_before(a, b) && opt_text_before(b, a)),
{
    let at = a.unwrap_or(Seq::empty());
    let bt = b.unwrap_or(Seq::empty());
    let ct = c.unwrap_or(Seq::empty());
    lemma_text_order(at, bt, ct);
}

/// Whether two strings hold the same text.
pub fn same_text(a: &str, b: &str) -> (same: bool)
    ensures
        same == (a@ == b@),
{
    let x: &[u8] = a.as_bytes();
    let y: &[u8] = b.as_bytes();
    if x.len() != y.len() {
        return false;
    }
    let mut i: usize = 0;
    while i < x.len()
        invariant
            i <= x.len(),
            x.len() == y.len(),
            x@ == encode_utf8(a@),
            y@ == encode_utf8(b@),
            forall|k: int| 0 <= k < i ==> x@[k] == y@[k],
        decreases x.len() - i,
    {
        if x[i] != y[i] {
            return false;
        }
        i = i + 1;
    }
    proof {
        assert(x@ =~= y@);
        lemma_encoding_injective(a@, b@);
    }
    true
}

/// Whether two optional strings hold the same text, or neither holds any.
pub fn same_opt_text(a: Option<&str>, b: Option<&str>) -> (same: bool)
    ensures
        same == (a.deep_view() == b.deep_view()),
{
    match (a, b) {
        (Some(a), Some(b)) => same_text(a, b),
        (None, None) => true,
        _ => false,
    }
}

/// An optional owned string, borrowed.
pub fn borrowed(text: &Option<String>) -> (borrowed: Option<&str>)
    ensures
        borrowed.deep_view() == opt(*text),
{
    match text {
        Some(text) => Some(text.as_str()),
        None => None,
    }
}

/// An optional borrowed string, owned.
pub fn owned(text: Option<&str>) -> (owned: Option<String>)
    ensures
        opt(owned) == text.deep_view(),
{
    match text {
        Some(text) => Some(text.to_owned()),
        None => None,
    }
}

/// Whether `a` precedes `b` in the order strings have.
pub fn is_before(a: &str, b: &str) -> (before: bool)
    ensures
        before == text_before(a@, b@),
{
    let x: &[u8] = a.as_bytes();
    let y: &[u8] = b.as_bytes();
    let mut i: usize = 0;
    proof {
        assert(x@.skip(0) =~= x@);
        assert(y@.skip(0) =~= y@);
    }
    while i < x.len() && i < y.len()
        invariant
            i <= x.len(),
            i <= y.len(),
            x@ == encode_utf8(a@),
            y@ == encode_utf8(b@),
            bytes_before(x@, y@) == bytes_before(x@.skip(i as int), y@.skip(i as int)),
        decreases x.len() - i,
    {
        proof {
            assert(x@.skip(i as int)[0] == x@[i as int]);
            assert(y@.skip(i as int)[0] == y@[i as int]);
            assert(x@.skip(i as int).drop_first() =~= x@.skip(i + 1));
            assert(y@.skip(i as int).drop_first() =~= y@.skip(i + 1));
        }
        if x[i] != y[i] {
            return x[i] < y[i];
        }
        i = i + 1;
    }
    i == x.len() && i < y.len()
}

/// Whether `a` precedes `b` in the order optional strings have.
pub fn is_opt_before(a: Option<&str>, b: Option<&str>) -> (before: bool)
    ensures
        before == opt_text_before(a.deep_view(), b.deep_view()),
{
    match (a, b) {
        (None, Some(_)) => true,
        (Some(a), Some(b)) => is_before(a, b),
        _ => false,
    }
}

/// Whether a list of strings holds one with this text.
pub fn lists_text(list: &Vec<String>, text: &str) -> (listed: bool)
    ensures
        listed == list.deep_view().contains(text@),
{
    let mut i: usize = 0;
    while i < list.len()
        invariant
            i <= list.len(),
            forall|k: int| 0 <= k < i ==> list.deep_view()[k] != text@,
        decreases list.len() - i,
    {
        if same_text(list[i].as_str(), text) {
            assert(list.deep_view()[i as int] == text@);
            return true;
        }
        i = i + 1;
    }
    false
}

/// Two texts, one after the other.
pub fn joined(a: &str, b: &str) -> (both: String)
    ensures
        both@ == a@ + b@,
{
    a.to_owned().concat(b)
}

/// Three texts, one after the other.
pub fn joined3(a: &str, b: &str, c: &str) -> (all: String)
    ensures
        all@ == a@ + b@ + c@,
{
    a.to_owned().concat(b).concat(c)
}

/// The texts with a separator between them.
pub open spec fn join(texts: Seq<Seq<char>>, separator: Seq<char>) -> Seq<char>
    decreases texts.len(),
{
    if texts.len() == 0 {
        Seq::empty()
    } else if texts.len() == 1 {
        texts[0]
    } else {
        join(texts.drop_last(), separator) + separator + texts.last()
    }
}

pub fn joined_with(texts: &Vec<String>, separator: &str) -> (all: String)
    ensures
        all@ == join(texts.deep_view(), separator@),
{
    let ghost list = texts.deep_view();
    if texts.len() == 0 {
        return String::new();
    }
    let mut all = texts[0].clone();
    let mut i: usize = 1;
    proof {
        assert(list.take(1).len() == 1);
        assert(list.take(1)[0] == texts[0]@);
    }
    while i < texts.len()
        invariant
            1 <= i <= texts.len(),
            list == texts.deep_view(),
            all@ == join(list.take(i as int), separator@),
        decreases texts.len() - i,
    {
        proof {
            assert(list.take(i + 1).drop_last() =~= list.take(i as int));
            assert(list.take(i + 1).last() == texts[i as int]@);
        }
        all = joined3(all.as_str(), separator, texts[i].as_str());
        i = i + 1;
    }
    assert(list.take(list.len() as int) =~= list);
    all
}

/// The characters of a string.
pub fn characters(text: &str) -> (list: Vec<char>)
    ensures
        list@ == text@,
{
    let mut list: Vec<char> = Vec::new();
    for c in it: text.chars()
        invariant
            list@ == it.seq().take(it.index() as int),
            it.seq() == text@,
    {
        list.push(c);
        assert(it.seq().take(it.index() as int).push(c) =~= it.seq().take(it.index() + 1));
    }
    assert(text@.take(text@.len() as int) =~= text@);
    list
}

/// The text between two character positions.
pub fn slice(text: &str, from: usize, to: usize) -> (part: String)
    requires
        from <= to <= text@.len(),
    ensures
        part@ == text@.subrange(from as int, to as int),
{
    text.substring_char(from, to).to_owned()
}

/// `String::push`: the character ends up behind what the string held.
pub assume_specification[ String::push ](s: &mut String, c: char)
    ensures
        final(s)@ == old(s)@.push(c),
;

/// Whether a character is an ASCII digit or an ASCII letter.
pub open spec fn is_ascii_alnum(c: char) -> bool {
    ('0' <= c <= '9') || ('a' <= c <= 'z') || ('A' <= c <= 'Z')
}

/// Whether a character is an ASCII hexadecimal digit, in either case.
pub open spec fn is_ascii_hex(c: char) -> bool {
    ('0' <= c <= '9') || ('a' <= c <= 'f') || ('A' <= c <= 'F')
}

/// A character with an ASCII capital made small.
pub open spec fn ascii_lower(c: char) -> char {
    if 'A' <= c <= 'Z' {
        ((c as u32) + 32) as char
    } else {
        c
    }
}

/// A text with every ASCII capital made small.
pub open spec fn ascii_lower_text(text: Seq<char>) -> Seq<char> {
    text.map_values(|c: char| ascii_lower(c))
}

/// One character, with an ASCII capital made small.
pub fn lower(c: char) -> (small: char)
    ensures
        small == ascii_lower(c),
{
    if 'A' <= c && c <= 'Z' {
        let byte: u8 = c as u8;
        (byte + 32) as char
    } else {
        c
    }
}

/// The string with every ASCII capital made small.
pub fn lowered(text: &str) -> (small: String)
    ensures
        small@ == ascii_lower_text(text@),
{
    let list = characters(text);
    let mut small = String::new();
    let mut i: usize = 0;
    while i < list.len()
        invariant
            i <= list.len(),
            list@ == text@,
            small@ == ascii_lower_text(text@.take(i as int)),
        decreases list.len() - i,
    {
        small.push(lower(list[i]));
        i = i + 1;
        assert(ascii_lower_text(text@.take(i as int)) =~= ascii_lower_text(
            text@.take(i - 1),
        ).push(ascii_lower(text@[i - 1])));
    }
    assert(text@.take(text@.len() as int) =~= text@);
    small
}

/// A digit below ten, as its character.
pub open spec fn digit(n: nat) -> char {
    (('0' as u32) + n) as char
}

/// A number in decimal notation, without leading zeros.
pub open spec fn decimal(n: nat) -> Seq<char>
    decreases n,
{
    if n < 10 {
        seq![digit(n)]
    } else {
        decimal(n / 10).push(digit(n % 10))
    }
}

/// A number in decimal notation.
pub fn number(n: u64) -> (text: String)
    ensures
        text@ == decimal(n as nat),
    decreases n,
{
    let last: u8 = (n % 10) as u8;
    let mut text = if n < 10 {
        String::new()
    } else {
        number(n / 10)
    };
    text.push((48 + last) as char);
    assert(text@ =~= decimal(n as nat));
    text
}

/// Whether Unicode counts a character as white space.
pub open spec fn is_white_space(c: char) -> bool {
    let code = c as u32;
    ||| 0x9 <= code <= 0xd
    ||| code == 0x20
    ||| code == 0x85
    ||| code == 0xa0
    ||| code == 0x1680
    ||| 0x2000 <= code <= 0x200a
    ||| code == 0x2028
    ||| code == 0x2029
    ||| code == 0x202f
    ||| code == 0x205f
    ||| code == 0x3000
}

fn white_space(c: char) -> (white: bool)
    ensures
        white == is_white_space(c),
{
    let code: u32 = c as u32;
    (0x9 <= code && code <= 0xd) || code == 0x20 || code == 0x85 || code == 0xa0 || code == 0x1680
        || (0x2000 <= code && code <= 0x200a) || code == 0x2028 || code == 0x2029 || code == 0x202f
        || code == 0x205f || code == 0x3000
}

/// Where the part of a text ends that does not run into trailing characters
/// of the set.
pub open spec fn end_without(text: Seq<char>, set: spec_fn(char) -> bool) -> int
    decreases text.len(),
{
    if text.len() == 0 {
        0
    } else if set(text.last()) {
        end_without(text.drop_last(), set)
    } else {
        text.len() as int
    }
}

/// Where the run of characters outside the set begins that reaches the end of
/// the text.
pub open spec fn start_of_tail(text: Seq<char>, set: spec_fn(char) -> bool) -> int
    decreases text.len(),
{
    if text.len() == 0 {
        0
    } else if set(text.last()) {
        text.len() as int
    } else {
        start_of_tail(text.drop_last(), set)
    }
}

/// How many leading characters of a text are in the set.
pub open spec fn leading(text: Seq<char>, set: spec_fn(char) -> bool) -> int
    decreases text.len(),
{
    if text.len() == 0 || !set(text[0]) {
        0
    } else {
        1 + leading(text.drop_first(), set)
    }
}

pub proof fn lemma_end_without(text: Seq<char>, set: spec_fn(char) -> bool)
    ensures
        0 <= end_without(text, set) <= text.len(),
        end_without(text, set) > 0 ==> !set(text[end_without(text, set) - 1]),
        forall|k: int| end_without(text, set) <= k < text.len() ==> set(#[trigger] text[k]),
    decreases text.len(),
{
    if text.len() > 0 && set(text.last()) {
        lemma_end_without(text.drop_last(), set);
        assert forall|k: int| end_without(text, set) <= k < text.len() implies set(
            #[trigger] text[k],
        ) by {
            if k < text.len() - 1 {
                assert(text.drop_last()[k] == text[k]);
            }
        }
    }
}

pub proof fn lemma_start_of_tail(text: Seq<char>, set: spec_fn(char) -> bool)
    ensures
        0 <= start_of_tail(text, set) <= text.len(),
        start_of_tail(text, set) > 0 ==> set(text[start_of_tail(text, set) - 1]),
        forall|k: int| start_of_tail(text, set) <= k < text.len() ==> !set(#[trigger] text[k]),
    decreases text.len(),
{
    if text.len() > 0 && !set(text.last()) {
        lemma_start_of_tail(text.drop_last(), set);
        assert forall|k: int| start_of_tail(text, set) <= k < text.len() implies !set(
            #[trigger] text[k],
        ) by {
            if k < text.len() - 1 {
                assert(text.drop_last()[k] == text[k]);
            }
        }
    }
}

pub proof fn lemma_leading(text: Seq<char>, set: spec_fn(char) -> bool)
    ensures
        0 <= leading(text, set) <= text.len(),
        leading(text, set) < text.len() ==> !set(text[leading(text, set)]),
        forall|k: int| 0 <= k < leading(text, set) ==> set(#[trigger] text[k]),
    decreases text.len(),
{
    if text.len() > 0 && set(text[0]) {
        lemma_leading(text.drop_first(), set);
        assert forall|k: int| 0 <= k < leading(text, set) implies set(#[trigger] text[k]) by {
            if k > 0 {
                assert(text.drop_first()[k - 1] == text[k]);
            }
        }
    }
}

/// A text without the white space at its ends.
pub open spec fn trim_text(text: Seq<char>) -> Seq<char> {
    let white = |c: char| is_white_space(c);
    let kept = text.take(end_without(text, white));
    kept.skip(leading(kept, white))
}

/// The string without the white space at its ends.
pub fn trimmed(text: &str) -> (kept: String)
    ensures
        kept@ == trim_text(text@),
{
    let list = characters(text);
    let ghost white = |c: char| is_white_space(c);
    let mut end: usize = list.len();
    assert(text@.take(end as int) =~= text@);
    while end > 0 && white_space(list[end - 1])
        invariant
            end <= list.len(),
            list@ == text@,
            white == (|c: char| is_white_space(c)),
            end_without(text@, white) == end_without(text@.take(end as int), white),
        decreases end,
    {
        assert(text@.take(end as int).drop_last() =~= text@.take(end - 1));
        end = end - 1;
    }
    let ghost kept = text@.take(end as int);
    assert(end > 0 ==> kept.last() == text@[end - 1]);
    assert(end_without(kept, white) == end);
    let mut start: usize = 0;
    assert(kept.skip(0) =~= kept);
    while start < end && white_space(list[start])
        invariant
            start <= end <= list.len(),
            list@ == text@,
            kept == text@.take(end as int),
            white == (|c: char| is_white_space(c)),
            leading(kept, white) == start + leading(kept.skip(start as int), white),
        decreases end - start,
    {
        assert(kept.skip(start as int).drop_first() =~= kept.skip(start + 1));
        assert(kept.skip(start as int)[0] == text@[start as int]);
        start = start + 1;
    }
    assert(leading(kept, white) == start) by {
        if start < end {
            assert(kept.skip(start as int)[0] == text@[start as int]);
        }
    }
    assert(kept.skip(start as int) =~= text@.subrange(start as int, end as int));
    slice(text, start, end)
}

/// A trimmed text has no white space at either end, and is the whole of what
/// it was trimmed from but for white space.
pub proof fn law_a_trimmed_text_stays_trimmed(text: Seq<char>)
    ensures
        trim_text(text).len() > 0 ==> !is_white_space(trim_text(text)[0]) && !is_white_space(
            trim_text(text).last(),
        ),
        trim_text(text).len() == 0 <==> forall|k: int|
            0 <= k < text.len() ==> is_white_space(#[trigger] text[k]),
        trim_text(trim_text(text)) == trim_text(text),
{
    let white = |c: char| is_white_space(c);
    let end = end_without(text, white);
    lemma_end_without(text, white);
    let kept = text.take(end);
    lemma_leading(kept, white);
    let start = leading(kept, white);
    let trimmed = kept.skip(start);
    assert(trimmed == trim_text(text));
    if trimmed.len() > 0 {
        assert(trimmed[0] == kept[start]);
        assert(trimmed.last() == text[end - 1]);
        assert(trimmed.take(trimmed.len() as int) =~= trimmed);
        assert(trimmed.skip(0) =~= trimmed);
        assert(end_without(trimmed, white) == trimmed.len());
        assert(leading(trimmed, white) == 0);
    } else {
        assert forall|k: int| 0 <= k < text.len() implies is_white_space(#[trigger] text[k]) by {
            if k < end {
                assert(white(kept[k]));
            } else {
                assert(white(text[k]));
            }
        }
        assert(trimmed.take(0).skip(0) =~= trimmed);
    }
    if forall|k: int| 0 <= k < text.len() ==> is_white_space(#[trigger] text[k]) {
        if end > 0 {
            assert(is_white_space(text[end - 1]));
        }
        assert(trimmed.len() == 0);
    }
}

} // verus!
