//! What holds of texts: their order, the white space around them, and the
//! numbers that they spell.

use vstd::prelude::*;

use crate::text::{
    decimal_of, is_white_space, keyword, text_before, trimmed, without_leading,
    without_trailing,
};

verus! {

/// Two texts agree up to a place, and the first ends there, or has the lesser
/// character.
pub open spec fn is_less_at(left: Seq<char>, right: Seq<char>, place: int) -> bool {
    &&& 0 <= place <= left.len()
    &&& place < right.len()
    &&& forall|i: int| 0 <= i < place ==> #[trigger] left[i] == right[i]
    &&& place == left.len() || (left[place] as int) < (right[place] as int)
}

/// A text comes before another exactly when there is a place where it is the
/// lesser.
pub proof fn law_text_order(left: Seq<char>, right: Seq<char>)
    ensures
        text_before(left, right) <==> exists|place: int| #[trigger] is_less_at(left, right, place),
    decreases left.len(),
{
    if right.len() > 0 && left.len() > 0 {
        let (l, r) = (left.drop_first(), right.drop_first());
        law_text_order(l, r);
        if left[0] == right[0] {
            if exists|place: int| #[trigger] is_less_at(l, r, place) {
                let place = choose|place: int| #[trigger] is_less_at(l, r, place);
                assert forall|i: int| 0 <= i < place + 1 implies #[trigger] left[i]
                    == right[i] by {
                    if i > 0 {
                        assert(l[i - 1] == r[i - 1]);
                    }
                }
                assert(is_less_at(left, right, place + 1));
            }
            if exists|place: int| #[trigger] is_less_at(left, right, place) {
                let place = choose|place: int| #[trigger] is_less_at(left, right, place);
                assert forall|i: int| 0 <= i < place - 1 implies #[trigger] l[i] == r[i] by {
                    assert(left[i + 1] == right[i + 1]);
                }
                assert(is_less_at(l, r, place - 1));
            }
        } else {
            if text_before(left, right) {
                assert(is_less_at(left, right, 0));
            }
            if exists|place: int| #[trigger] is_less_at(left, right, place) {
                let place = choose|place: int| #[trigger] is_less_at(left, right, place);
                if place > 0 {
                    assert(left[0] == right[0]);
                }
            }
        }
    } else if right.len() > 0 {
        assert(is_less_at(left, right, 0));
    }
}

/// Among the ASCII characters, the blank and the five controls from the
/// tabulator to the carriage return are white space; the no-break space and the
/// ideographic space are, too.
pub proof fn law_white_space(c: char)
    ensures
        (c as int) < 128 ==> (is_white_space(c) <==> 9 <= c as int <= 13 || c as int == 32),
        c as int == 0xA0 || c as int == 0x3000 ==> is_white_space(c),
{
}

/// A part of a text with white space alone around it, and none at its ends.
pub open spec fn is_inner(text: Seq<char>, start: int, end: int) -> bool {
    &&& 0 <= start <= end <= text.len()
    &&& forall|i: int| 0 <= i < start ==> is_white_space(#[trigger] text[i])
    &&& forall|i: int| end <= i < text.len() ==> is_white_space(#[trigger] text[i])
    &&& start < end ==> !is_white_space(text[start]) && !is_white_space(text[end - 1])
}

proof fn lemma_leading(text: Seq<char>) -> (start: int)
    ensures
        0 <= start <= text.len(),
        without_leading(text) == text.skip(start),
        forall|i: int| 0 <= i < start ==> is_white_space(#[trigger] text[i]),
        start < text.len() ==> !is_white_space(text[start]),
    decreases text.len(),
{
    if text.len() > 0 && is_white_space(text[0]) {
        let rest = text.drop_first();
        let start = lemma_leading(rest);
        assert(rest.skip(start) =~= text.skip(start + 1));
        assert forall|i: int| 0 <= i < start + 1 implies is_white_space(#[trigger] text[i]) by {
            if i > 0 {
                assert(rest[i - 1] == text[i]);
            }
        }
        start + 1
    } else {
        assert(text.skip(0) =~= text);
        0
    }
}

proof fn lemma_trailing(text: Seq<char>) -> (end: int)
    ensures
        0 <= end <= text.len(),
        without_trailing(text) == text.take(end),
        forall|i: int| end <= i < text.len() ==> is_white_space(#[trigger] text[i]),
        end > 0 ==> !is_white_space(text[end - 1]),
    decreases text.len(),
{
    if text.len() > 0 && is_white_space(text.last()) {
        let rest = text.drop_last();
        let end = lemma_trailing(rest);
        assert(rest.take(end) =~= text.take(end));
        assert forall|i: int| end <= i < text.len() implies is_white_space(#[trigger] text[i]) by {
            if i < rest.len() {
                assert(rest[i] == text[i]);
            }
        }
        end
    } else {
        assert(text.take(text.len() as int) =~= text);
        text.len() as int
    }
}

/// Trimming cuts the white space off both ends of a text, and nothing else.
/// What is left is empty exactly when the text is white space throughout.
pub proof fn law_trimmed(text: Seq<char>)
    ensures
        exists|start: int, end: int| #[trigger]
            is_inner(text, start, end) && trimmed(text) == text.subrange(start, end),
        trimmed(text).len() == 0 <==> forall|i: int|
            0 <= i < text.len() ==> is_white_space(#[trigger] text[i]),
{
    let start = lemma_leading(text);
    let rest = text.skip(start);
    let end = lemma_trailing(rest);
    assert forall|i: int| start + end <= i < text.len() implies is_white_space(
        #[trigger] text[i],
    ) by {
        assert(rest[i - start] == text[i]);
    }
    if end > 0 {
        assert(rest[end - 1] == text[start + end - 1]);
        assert(!is_white_space(text[start + end - 1]));
    } else if start < text.len() {
        assert(rest[0] == text[start]);
    }
    assert(rest.take(end) =~= text.subrange(start, start + end));
    assert(is_inner(text, start, start + end));
    if trimmed(text).len() == 0 {
        assert forall|i: int| 0 <= i < text.len() implies is_white_space(#[trigger] text[i]) by {
            if i >= start {
                assert(rest[i - start] == text[i]);
            }
        }
    }
}

/// A keyword is the trimmed text, one for one, with capital letters made small.
pub proof fn law_keyword(text: Seq<char>)
    ensures
        keyword(text).len() == trimmed(text).len(),
        forall|i: int|
            0 <= i < keyword(text).len() ==> {
                let c = trimmed(text)[i] as int;
                (#[trigger] keyword(text)[i]) as int == if 65 <= c <= 90 {
                    c + 32
                } else {
                    c
                }
            },
{
}

/// The number that a row of digits spells.
pub open spec fn spelled(digits: Seq<char>) -> int
    decreases digits.len(),
{
    if digits.len() == 0 {
        0
    } else {
        10 * spelled(digits.drop_last()) + (digits.last() as int - '0' as int)
    }
}

/// Decimal notation is made of digits, has no zero in front of another digit,
/// and spells the number.
pub proof fn law_decimal_reads_back(number: nat)
    ensures
        spelled(decimal_of(number)) == number,
        decimal_of(number).len() > 0,
        forall|i: int|
            0 <= i < decimal_of(number).len() ==> '0' <= #[trigger] decimal_of(number)[i] <= '9',
        decimal_of(number)[0] == '0' ==> number == 0,
    decreases number,
{
    let text = decimal_of(number);
    if number >= 10 {
        let front = decimal_of(number / 10);
        law_decimal_reads_back(number / 10);
        assert(text.drop_last() =~= front);
        assert forall|i: int| 0 <= i < text.len() implies '0' <= #[trigger] text[i] <= '9' by {
            if i < front.len() {
                assert(text[i] == front[i]);
            }
        }
        assert(text[0] == front[0]);
    } else {
        assert(text.drop_last() =~= Seq::empty());
        assert(spelled(text.drop_last()) == 0);
    }
}

} // verus!
