//! Text as sequences of characters: comparison, order, trimming and the
//! decimal and hexadecimal notations used in messages.

use vstd::prelude::*;

verus! {

broadcast use vstd::string::group_string_axioms;

/// The characters with the Unicode property `White_Space`.
pub open spec fn is_white_space(c: char) -> bool {
    let code = c as int;
    ||| 0x09 <= code <= 0x0D
    ||| code == 0x20
    ||| code == 0x85
    ||| code == 0xA0
    ||| code == 0x1680
    ||| 0x2000 <= code <= 0x200A
    ||| code == 0x2028
    ||| code == 0x2029
    ||| code == 0x202F
    ||| code == 0x205F
    ||| code == 0x3000
}

/// `text` without its leading white space.
pub open spec fn without_leading(text: Seq<char>) -> Seq<char>
    decreases text.len(),
{
    if text.len() > 0 && is_white_space(text[0]) {
        without_leading(text.drop_first())
    } else {
        text
    }
}

/// `text` without its trailing white space.
pub open spec fn without_trailing(text: Seq<char>) -> Seq<char>
    decreases text.len(),
{
    if text.len() > 0 && is_white_space(text.last()) {
        without_trailing(text.drop_last())
    } else {
        text
    }
}

/// `text` without the white space at either end.
pub open spec fn trimmed(text: Seq<char>) -> Seq<char> {
    without_trailing(without_leading(text))
}

/// The lower-case form of an ASCII letter; every other character is kept.
pub open spec fn ascii_lower(c: char) -> char {
    if 'A' <= c <= 'Z' {
        ((c as u32 + 32) as u32) as char
    } else {
        c
    }
}

/// `text` trimmed and with its ASCII letters in lower case.
pub open spec fn keyword(text: Seq<char>) -> Seq<char> {
    trimmed(text).map_values(|c: char| ascii_lower(c))
}

/// Lexicographic order by code point, which is the order of the UTF-8 bytes.
pub open spec fn text_before(left: Seq<char>, right: Seq<char>) -> bool
    decreases left.len(),
{
    if right.len() == 0 {
        false
    } else if left.len() == 0 {
        true
    } else if left[0] == right[0] {
        text_before(left.drop_first(), right.drop_first())
    } else {
        (left[0] as int) < (right[0] as int)
    }
}

/// The views of a sequence of strings.
pub open spec fn str_views(texts: Seq<&str>) -> Seq<Seq<char>> {
    texts.map_values(|text: &str| text@)
}

/// The views of a sequence of texts.
pub open spec fn views(texts: Seq<String>) -> Seq<Seq<char>> {
    texts.map_values(|text: String| text@)
}

/// The view of an optional string.
pub open spec fn option_view(text: Option<String>) -> Option<Seq<char>> {
    match text {
        Some(text) => Some(text@),
        None => None,
    }
}

/// The view of an optional string slice.
pub open spec fn option_str_view(text: Option<&str>) -> Option<Seq<char>> {
    match text {
        Some(text) => Some(text@),
        None => None,
    }
}

/// The pieces in order, with `separator` between neighbours.
pub open spec fn joined(pieces: Seq<Seq<char>>, separator: Seq<char>) -> Seq<char>
    decreases pieces.len(),
{
    if pieces.len() == 0 {
        Seq::empty()
    } else if pieces.len() == 1 {
        pieces[0]
    } else {
        joined(pieces.drop_last(), separator) + separator + pieces.last()
    }
}

/// The character of a decimal digit.
pub open spec fn digit_char(digit: int) -> char {
    ((48 + digit) as u32) as char
}

/// Decimal notation without leading zeros.
pub open spec fn decimal_of(number: nat) -> Seq<char>
    decreases number,
{
    if number < 10 {
        seq![digit_char(number as int)]
    } else {
        decimal_of(number / 10).push(digit_char((number % 10) as int))
    }
}

/// The upper-case character of a hexadecimal digit.
pub open spec fn hex_char(digit: int) -> char {
    if digit < 10 {
        ((48 + digit) as u32) as char
    } else {
        ((55 + digit) as u32) as char
    }
}

/// Two upper-case hexadecimal digits.
pub open spec fn hex_pair(byte: u8) -> Seq<char> {
    seq![hex_char((byte / 16) as int), hex_char((byte % 16) as int)]
}

/// The value of a hexadecimal digit of either case.
pub open spec fn hex_value(c: char) -> Option<int> {
    if '0' <= c <= '9' {
        Some(c as int - 48)
    } else if 'a' <= c <= 'f' {
        Some(c as int - 87)
    } else if 'A' <= c <= 'F' {
        Some(c as int - 55)
    } else {
        None
    }
}

/// `text` in the notation that the standard library's `Debug` gives a string:
/// between double quotes, with escapes.
pub uninterp spec fn quoted(text: Seq<char>) -> Seq<char>;

/// Quotes a text with the standard library's `Debug` formatting of `str`.
///
/// Trusted: the result is a function of the text alone, [`quoted`]. Which
/// characters are escaped, and how, is left unsaid.
#[verifier::external_body]
pub(crate) fn quote(text: &str) -> (shown: String)
    ensures
        shown@ == quoted(text@),
{
    format!("{:?}", text)
}

/// The characters of `text`, in order.
pub fn chars_of(text: &str) -> (chars: Vec<char>)
    ensures
        chars@ == text@,
{
    let mut chars: Vec<char> = Vec::new();
    for c in iter: text.chars()
        invariant
            chars@ == iter.seq().take(iter.index()),
            iter.seq() == text@,
    {
        chars.push(c);
    }
    assert(text@.take(text@.len() as int) == text@);
    chars
}

/// Whether two character vectors hold the same characters.
pub fn same_chars(left: &Vec<char>, right: &Vec<char>) -> (same: bool)
    ensures
        same == (left@ == right@),
{
    if left.len() != right.len() {
        return false;
    }
    for i in 0..left.len()
        invariant
            left.len() == right.len(),
            forall|j: int| 0 <= j < i ==> left[j] == right[j],
    {
        if left[i] != right[i] {
            return false;
        }
    }
    assert(left@ =~= right@);
    true
}

/// Whether two texts are equal.
pub fn same_text(left: &str, right: &str) -> (same: bool)
    ensures
        same == (left@ == right@),
{
    same_chars(&chars_of(left), &chars_of(right))
}

/// Whether two optional texts are equal.
pub fn same_option(left: Option<&str>, right: Option<&str>) -> (same: bool)
    ensures
        same == (option_str_view(left) == option_str_view(right)),
{
    match (left, right) {
        (Some(left), Some(right)) => same_text(left, right),
        (None, None) => true,
        _ => false,
    }
}

fn white_space(c: char) -> (white: bool)
    ensures
        white == is_white_space(c),
{
    let code: u32 = c as u32;
    (0x09 <= code && code <= 0x0D) || code == 0x20 || code == 0x85 || code == 0xA0 || code == 0x1680
        || (0x2000 <= code && code <= 0x200A) || code == 0x2028 || code == 0x2029 || code == 0x202F
        || code == 0x205F || code == 0x3000
}

proof fn lemma_leading_skips(text: Seq<char>, count: int)
    requires
        0 <= count <= text.len(),
        forall|i: int| 0 <= i < count ==> is_white_space(#[trigger] text[i]),
    ensures
        without_leading(text) == without_leading(text.skip(count)),
    decreases count,
{
    if count > 0 {
        assert forall|i: int| 0 <= i < count - 1 implies is_white_space(
            #[trigger] text.drop_first()[i],
        ) by {
            assert(text.drop_first()[i] == text[i + 1]);
        }
        lemma_leading_skips(text.drop_first(), count - 1);
        assert(text.drop_first().skip(count - 1) =~= text.skip(count));
        assert(is_white_space(text[0]));
    } else {
        assert(text.skip(0) =~= text);
    }
}

proof fn lemma_trailing_skips(text: Seq<char>, kept: int)
    requires
        0 <= kept <= text.len(),
        forall|i: int| kept <= i < text.len() ==> is_white_space(#[trigger] text[i]),
    ensures
        without_trailing(text) == without_trailing(text.take(kept)),
    decreases text.len(),
{
    if kept < text.len() {
        assert(is_white_space(text[text.len() - 1]));
        lemma_trailing_skips(text.drop_last(), kept);
        assert(text.drop_last().take(kept) =~= text.take(kept));
    } else {
        assert(text.take(kept) =~= text);
    }
}

fn trim_bounds(all: &Vec<char>) -> (bounds: (usize, usize))
    ensures
        bounds.0 <= bounds.1 <= all.len(),
        trimmed(all@) == all@.subrange(bounds.0 as int, bounds.1 as int),
{
    let mut start: usize = 0;
    while start < all.len() && white_space(all[start])
        invariant
            start <= all.len(),
            forall|i: int| 0 <= i < start ==> is_white_space(#[trigger] all@[i]),
        decreases all.len() - start,
    {
        start = start + 1;
    }
    let mut end: usize = all.len();
    while start < end && white_space(all[end - 1])
        invariant
            start <= end <= all.len(),
            forall|i: int| end <= i < all.len() ==> is_white_space(#[trigger] all@[i]),
        decreases end,
    {
        end = end - 1;
    }
    proof {
        lemma_leading_skips(all@, start as int);
        let rest = all@.skip(start as int);
        let inner = all@.subrange(start as int, end as int);
        assert(without_leading(rest) == rest);
        assert forall|i: int| end - start <= i < rest.len() implies is_white_space(
            #[trigger] rest[i],
        ) by {
            assert(rest[i] == all@[i + start]);
        }
        lemma_trailing_skips(rest, end - start);
        assert(rest.take(end - start) =~= inner);
        assert(without_trailing(inner) == inner) by {
            if inner.len() > 0 {
                assert(inner.last() == all@[end - 1]);
            }
        }
    }
    (start, end)
}

/// The characters of `text` without the white space at either end.
pub fn trim_chars(text: &str) -> (chars: Vec<char>)
    ensures
        chars@ == trimmed(text@),
{
    let all = chars_of(text);
    let (start, end) = trim_bounds(&all);
    let mut chars: Vec<char> = Vec::new();
    for i in start..end
        invariant
            start <= end <= all.len(),
            chars@ == all@.subrange(start as int, i as int),
    {
        chars.push(all[i]);
    }
    chars
}

/// `text` without the white space at either end.
pub fn trim_text<'a>(text: &'a str) -> (inner: &'a str)
    ensures
        inner@ == trimmed(text@),
{
    let all = chars_of(text);
    let (start, end) = trim_bounds(&all);
    text.substring_char(start, end)
}

/// A text holds another one.
pub open spec fn holds(text: Seq<char>, part: Seq<char>) -> bool {
    exists|start: int| #[trigger] holds_at(text, part, start)
}

/// A text holds another one from a place on.
pub open spec fn holds_at(text: Seq<char>, part: Seq<char>, start: int) -> bool {
    &&& 0 <= start
    &&& start + part.len() <= text.len()
    &&& text.subrange(start, start + part.len()) == part
}

/// Whether a text holds another one.
pub fn holds_text(text: &str, part: &str) -> (found: bool)
    ensures
        found == holds(text@, part@),
{
    let chars = chars_of(text);
    let wanted = chars_of(part);
    let mut start: usize = 0;
    while start < chars.len() && wanted.len() <= chars.len() - start
        invariant
            chars@ == text@,
            wanted@ == part@,
            start <= chars.len(),
            forall|earlier: int| 0 <= earlier < start ==> !holds_at(text@, part@, earlier),
        decreases chars.len() - start,
    {
        let mut matched: usize = 0;
        while matched < wanted.len() && chars[start + matched] == wanted[matched]
            invariant
                start + wanted.len() <= chars.len(),
                matched <= wanted.len(),
                forall|i: int| 0 <= i < matched ==> chars@[start + i] == wanted@[i],
            decreases wanted.len() - matched,
        {
            matched += 1;
        }
        if matched == wanted.len() {
            assert(text@.subrange(start as int, start + part@.len()) =~= part@);
            assert(holds_at(text@, part@, start as int));
            return true;
        }
        assert(!holds_at(text@, part@, start as int)) by {
            if holds_at(text@, part@, start as int) {
                assert(text@.subrange(start as int, start + part@.len())[matched as int]
                    == part@[matched as int]);
            }
        }
        start += 1;
    }
    if wanted.len() == 0 {
        assert(text@.subrange(start as int, start as int) =~= part@);
        assert(holds_at(text@, part@, start as int));
        return true;
    }
    false
}

/// Whether `text` holds nothing but white space.
pub fn is_blank(text: &str) -> (blank: bool)
    ensures
        blank == (trimmed(text@).len() == 0),
{
    trim_chars(text).len() == 0
}

fn lower(c: char) -> (lowered: char)
    ensures
        lowered == ascii_lower(c),
{
    if 'A' <= c && c <= 'Z' {
        let code: u32 = c as u32;
        let small: u8 = (code as u8) + 32;
        small as char
    } else {
        c
    }
}

/// The trimmed, lower-case form under which names are looked up.
pub fn keyword_chars(text: &str) -> (chars: Vec<char>)
    ensures
        chars@ == keyword(text@),
{
    let inner = trim_chars(text);
    let mut chars: Vec<char> = Vec::new();
    for i in 0..inner.len()
        invariant
            chars.len() == i,
            forall|j: int| 0 <= j < i ==> chars@[j] == ascii_lower(inner@[j]),
    {
        chars.push(lower(inner[i]));
    }
    assert(chars@ =~= keyword(text@));
    chars
}

/// Whether `chars` spells `word`.
pub fn spells(chars: &Vec<char>, word: &str) -> (same: bool)
    ensures
        same == (chars@ == word@),
{
    same_chars(chars, &chars_of(word))
}

proof fn lemma_before_skips(left: Seq<char>, right: Seq<char>, count: int)
    requires
        0 <= count <= left.len(),
        count <= right.len(),
        forall|i: int| 0 <= i < count ==> #[trigger] left[i] == right[i],
    ensures
        text_before(left, right) == text_before(left.skip(count), right.skip(count)),
    decreases count,
{
    if count > 0 {
        assert forall|i: int| 0 <= i < count - 1 implies #[trigger] left.drop_first()[i]
            == right.drop_first()[i] by {
            assert(left[i + 1] == right[i + 1]);
        }
        lemma_before_skips(left.drop_first(), right.drop_first(), count - 1);
        assert(left.drop_first().skip(count - 1) =~= left.skip(count));
        assert(right.drop_first().skip(count - 1) =~= right.skip(count));
        assert(left[0] == right[0]);
    } else {
        assert(left.skip(0) =~= left);
        assert(right.skip(0) =~= right);
    }
}

/// Whether `left` comes before `right` in lexicographic order.
pub fn comes_before(left: &str, right: &str) -> (before: bool)
    ensures
        before == text_before(left@, right@),
{
    let left_chars = chars_of(left);
    let right_chars = chars_of(right);
    let mut i: usize = 0;
    while i < left_chars.len() && i < right_chars.len()
        invariant
            i <= left_chars.len(),
            i <= right_chars.len(),
            left_chars@ == left@,
            right_chars@ == right@,
            forall|j: int| 0 <= j < i ==> #[trigger] left@[j] == right@[j],
        decreases left_chars.len() - i,
    {
        if left_chars[i] != right_chars[i] {
            proof {
                lemma_before_skips(left@, right@, i as int);
            }
            let first: char = left_chars[i];
            let second: char = right_chars[i];
            return first < second;
        }
        i = i + 1;
    }
    proof {
        lemma_before_skips(left@, right@, i as int);
    }
    i < right_chars.len()
}

/// The lexicographic order is irreflexive.
pub proof fn lemma_before_irreflexive(text: Seq<char>)
    ensures
        !text_before(text, text),
    decreases text.len(),
{
    if text.len() > 0 {
        lemma_before_irreflexive(text.drop_first());
    }
}

/// The lexicographic order is transitive.
pub proof fn lemma_before_transitive(first: Seq<char>, second: Seq<char>, third: Seq<char>)
    requires
        text_before(first, second),
        text_before(second, third),
    ensures
        text_before(first, third),
    decreases first.len(),
{
    if first.len() > 0 && first[0] == second[0] && second[0] == third[0] {
        lemma_before_transitive(first.drop_first(), second.drop_first(), third.drop_first());
    }
}

/// Of two different texts one comes before the other.
pub proof fn lemma_before_total(left: Seq<char>, right: Seq<char>)
    ensures
        left == right || text_before(left, right) || text_before(right, left),
    decreases left.len(),
{
    if left.len() > 0 && right.len() > 0 && left[0] == right[0] {
        lemma_before_total(left.drop_first(), right.drop_first());
        if left.drop_first() == right.drop_first() {
            assert(left =~= seq![left[0]] + left.drop_first());
            assert(right =~= seq![right[0]] + right.drop_first());
        }
    } else if left.len() == 0 && right.len() == 0 {
        assert(left =~= right);
    } else if left.len() > 0 && right.len() > 0 {
        assert(left[0] as int != right[0] as int);
    }
}

/// Joins the pieces with `separator` between neighbours.
pub fn join(pieces: &Vec<String>, separator: &str) -> (text: String)
    ensures
        text@ == joined(views(pieces@), separator@),
{
    let mut text = String::new();
    for i in 0..pieces.len()
        invariant
            text@ == joined(views(pieces@).take(i as int), separator@),
    {
        if i > 0 {
            text.append(separator);
        }
        text.append(pieces[i].as_str());
        proof {
            let taken = views(pieces@).take(i + 1);
            assert(taken.drop_last() =~= views(pieces@).take(i as int));
            if i == 0 {
                assert(text@ =~= pieces@[0]@);
            } else {
                assert(text@ =~= joined(taken.drop_last(), separator@) + separator@ + taken.last());
            }
        }
    }
    assert(views(pieces@).take(pieces.len() as int) =~= views(pieces@));
    text
}

fn digit_text(digit: u8) -> (text: &'static str)
    requires
        digit < 16,
    ensures
        text@ == seq![hex_char(digit as int)],
{
    proof {
        reveal_strlit("0");
        reveal_strlit("1");
        reveal_strlit("2");
        reveal_strlit("3");
        reveal_strlit("4");
        reveal_strlit("5");
        reveal_strlit("6");
        reveal_strlit("7");
        reveal_strlit("8");
        reveal_strlit("9");
        reveal_strlit("A");
        reveal_strlit("B");
        reveal_strlit("C");
        reveal_strlit("D");
        reveal_strlit("E");
        reveal_strlit("F");
    }
    let text = match digit {
        0 => "0",
        1 => "1",
        2 => "2",
        3 => "3",
        4 => "4",
        5 => "5",
        6 => "6",
        7 => "7",
        8 => "8",
        9 => "9",
        10 => "A",
        11 => "B",
        12 => "C",
        13 => "D",
        14 => "E",
        _ => "F",
    };
    assert(text@ =~= seq![hex_char(digit as int)]);
    text
}

/// Decimal notation of `number`.
pub fn decimal(number: u128) -> (text: String)
    ensures
        text@ == decimal_of(number as nat),
    decreases number,
{
    if number < 10 {
        let mut text = String::new();
        text.append(digit_text(number as u8));
        assert(text@ =~= decimal_of(number as nat));
        text
    } else {
        let mut text = decimal(number / 10);
        text.append(digit_text((number % 10) as u8));
        assert(text@ =~= decimal_of(number as nat));
        text
    }
}

/// The decimal notation of an integer.
pub open spec fn signed_decimal(number: int) -> Seq<char> {
    if number < 0 {
        "-"@ + decimal_of((-number) as nat)
    } else {
        decimal_of(number as nat)
    }
}

/// The decimal notation of an integer.
pub fn signed(number: i64) -> (text: String)
    ensures
        text@ == signed_decimal(number as int),
{
    if number < 0 {
        "-".to_owned().concat(decimal((-(number as i128)) as u128).as_str())
    } else {
        decimal(number as u128)
    }
}

/// Appends two upper-case hexadecimal digits.
pub fn append_hex(text: &mut String, byte: u8)
    ensures
        final(text)@ == old(text)@ + hex_pair(byte),
{
    text.append(digit_text(byte / 16));
    text.append(digit_text(byte % 16));
    assert(text@ =~= old(text)@ + hex_pair(byte));
}

/// The value of a hexadecimal digit of either case.
pub fn hex_digit(c: char) -> (value: Option<u8>)
    ensures
        match hex_value(c) {
            Some(expected) => value is Some && value->0 == expected && value->0 < 16,
            None => value is None,
        },
{
    let code: u32 = c as u32;
    if '0' <= c && c <= '9' {
        Some((code - 48) as u8)
    } else if 'a' <= c && c <= 'f' {
        Some((code - 87) as u8)
    } else if 'A' <= c && c <= 'F' {
        Some((code - 55) as u8)
    } else {
        None
    }
}

} // verus!
