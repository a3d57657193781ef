//! What trimming, searching and writing numbers mean, said of the characters.

use vstd::prelude::*;
use crate::text::{all_digits, ascii_lowercase, contains_text, decimal, digits_value, find};
use crate::text::{is_digit, is_white_space, lemma_find_from, occurs_at, trim_end, trim_start};
use crate::text::{parsed_u32, trimmed, two_digits};

verus! {

/// Whether a text is made of white space.
pub open spec fn is_blank(text: Seq<char>) -> bool {
    forall|i: int| 0 <= i < text.len() ==> is_white_space(#[trigger] text[i])
}

proof fn lemma_trim_start(text: Seq<char>)
    ensures
        exists|from: int| #[trigger]
            text.skip(from) == trim_start(text) && 0 <= from <= text.len() && is_blank(
                text.take(from),
            ),
        trim_start(text).len() > 0 ==> !is_white_space(trim_start(text)[0]),
    decreases text.len(),
{
    if text.len() > 0 && is_white_space(text[0]) {
        let shorter = text.skip(1);
        lemma_trim_start(shorter);
        let from = choose|from: int| #[trigger]
            shorter.skip(from) == trim_start(shorter) && 0 <= from <= shorter.len() && is_blank(
                shorter.take(from),
            );
        assert(text.skip(from + 1) =~= shorter.skip(from));
        assert forall|i: int| 0 <= i < from + 1 implies is_white_space(
            #[trigger] text.take(from + 1)[i],
        ) by {
            if i > 0 {
                assert(shorter.take(from)[i - 1] == text[i]);
            }
        }
    } else {
        assert(text.skip(0) =~= text);
    }
}

proof fn lemma_trim_end(text: Seq<char>)
    ensures
        exists|to: int| #[trigger]
            text.take(to) == trim_end(text) && 0 <= to <= text.len() && is_blank(text.skip(to)),
        trim_end(text).len() > 0 ==> !is_white_space(trim_end(text).last()),
    decreases text.len(),
{
    if text.len() > 0 && is_white_space(text.last()) {
        let shorter = text.drop_last();
        lemma_trim_end(shorter);
        let to = choose|to: int| #[trigger]
            shorter.take(to) == trim_end(shorter) && 0 <= to <= shorter.len() && is_blank(
                shorter.skip(to),
            );
        assert(text.take(to) =~= shorter.take(to));
        assert forall|i: int| 0 <= i < text.len() - to implies is_white_space(
            #[trigger] text.skip(to)[i],
        ) by {
            if i < shorter.len() - to {
                assert(shorter.skip(to)[i] == text[i + to]);
            }
        }
    } else {
        assert(text.take(text.len() as int) =~= text);
    }
}

/// Trimming takes away white space at the two ends, all of it and nothing else.
pub proof fn law_trimming_takes_the_white_space(text: Seq<char>)
    ensures
        exists|before: Seq<char>, after: Seq<char>|
            is_blank(before) && is_blank(after) && text == #[trigger] (before + trimmed(text)
                + after),
        trimmed(text).len() > 0 ==> !is_white_space(trimmed(text)[0]) && !is_white_space(
            trimmed(text).last(),
        ),
{
    lemma_trim_start(text);
    let rest = trim_start(text);
    lemma_trim_end(rest);
    let from = choose|from: int| #[trigger]
        text.skip(from) == rest && 0 <= from <= text.len() && is_blank(text.take(from));
    let to = choose|to: int| #[trigger]
        rest.take(to) == trim_end(rest) && 0 <= to <= rest.len() && is_blank(rest.skip(to));
    assert(text =~= text.take(from) + trimmed(text) + rest.skip(to));
    if trimmed(text).len() > 0 {
        assert(trimmed(text)[0] == rest[0]);
    }
}

/// Of the ASCII characters the blank, the tabs, the line ends and the page break
/// are white space, and no letter, digit or mark.
pub proof fn law_ascii_white_space(c: char)
    requires
        (c as int) < 128,
    ensures
        is_white_space(c) <==> c == ' ' || c == '\t' || c == '\n' || c == '\r' || c as int == 11
            || c as int == 12,
{
}

/// A text without white space at its ends is left as it is by trimming.
pub proof fn law_trimmed_text_stays(text: Seq<char>)
    requires
        text.len() > 0 ==> !is_white_space(text[0]) && !is_white_space(text.last()),
    ensures
        trimmed(text) == text,
{
}

/// A text stands in another at the place behind which it follows.
pub proof fn law_text_occurs(before: Seq<char>, needle: Seq<char>, after: Seq<char>)
    ensures
        occurs_at(before + needle + after, needle, before.len() as int),
        contains_text(before + needle + after, needle),
{
    let text = before + needle + after;
    assert(text.subrange(before.len() as int, (before.len() + needle.len()) as int) =~= needle);
    assert(occurs_at(text, needle, before.len() as int));
}

/// A text is contained in another only where the other is made of something, the
/// text, and something more.
pub proof fn law_contained_text_occurs(text: Seq<char>, needle: Seq<char>)
    requires
        contains_text(text, needle),
    ensures
        exists|before: Seq<char>, after: Seq<char>|
            text == #[trigger] (before + needle + after),
{
    let at = choose|at: int| #[trigger] occurs_at(text, needle, at);
    assert(text =~= text.take(at) + needle + text.skip(at + needle.len()));
}

/// The place at which a text is found is the first of all the places at which
/// it stands.
pub proof fn law_first_place_is_found(text: Seq<char>, needle: Seq<char>, at: int)
    requires
        0 <= at,
        at + needle.len() <= text.len(),
        text.subrange(at, at + needle.len()) == needle,
        forall|other: int|
            0 <= other < at ==> #[trigger] text.subrange(other, other + needle.len()) != needle,
    ensures
        find(text, needle) == Some(at),
{
    lemma_find_from(text, needle, 0);
    assert(occurs_at(text, needle, at));
    assert forall|other: int| 0 <= other < at implies !#[trigger] occurs_at(text, needle, other) by {
        assert(text.subrange(other, other + needle.len()) != needle);
    }
}

/// Lowering the case of ASCII letters turns each capital letter into the small
/// letter that stands as far from `a` as the capital from `A`, and changes
/// nothing else.
pub proof fn law_ascii_letters_are_lowered(text: Seq<char>, i: int)
    requires
        0 <= i < text.len(),
    ensures
        ascii_lowercase(text).len() == text.len(),
        'A' <= text[i] <= 'Z' ==> ascii_lowercase(text)[i] as int - 'a' as int == text[i] as int
            - 'A' as int,
        !('A' <= text[i] <= 'Z') ==> ascii_lowercase(text)[i] == text[i],
{
}

/// Reading the digits of a number written in decimal gives the number, written
/// without a leading zero.
pub proof fn law_decimal_round_trip(number: nat)
    ensures
        all_digits(decimal(number)),
        digits_value(decimal(number)) == number,
        decimal(number).len() > 1 ==> decimal(number)[0] != '0',
        number > 0 ==> decimal(number)[0] != '0',
        decimal(number).len() > 0,
    decreases number,
{
    let text = decimal(number);
    if number >= 10 {
        law_decimal_round_trip(number / 10);
        assert(text.drop_last() =~= decimal(number / 10));
        assert(text[0] == decimal(number / 10)[0]);
        assert forall|i: int| 0 <= i < text.len() implies is_digit(#[trigger] text[i]) by {
            if i < text.len() - 1 {
                assert(decimal(number / 10)[i] == text[i]);
            }
        }
    } else {
        assert(text.drop_last() =~= Seq::empty());
        reveal_with_fuel(digits_value, 2);
    }
}

/// A number below 2^32, written in decimal, is read back, with a plus sign
/// before it too.
pub proof fn law_number_is_read_back(number: u32)
    ensures
        parsed_u32(decimal(number as nat)) == Some(number),
        parsed_u32(seq!['+'] + decimal(number as nat)) == Some(number),
{
    law_decimal_round_trip(number as nat);
    let text = decimal(number as nat);
    assert(is_digit(text[0]));
    assert((seq!['+'] + text).skip(1) =~= text);
}

/// A number written with at least two digits has two or more, reads as the
/// number, and starts with a zero only where it has exactly two.
pub proof fn law_two_digits(number: nat)
    ensures
        all_digits(two_digits(number)),
        digits_value(two_digits(number)) == number,
        two_digits(number).len() >= 2,
        two_digits(number).len() > 2 ==> two_digits(number)[0] != '0',
{
    law_decimal_round_trip(number);
    let text = two_digits(number);
    if number < 10 {
        reveal_with_fuel(digits_value, 3);
        assert(text.drop_last() =~= seq!['0']);
        assert(text.drop_last().drop_last() =~= Seq::empty());
    } else {
        assert(decimal(number / 10).len() > 0) by {
            law_decimal_round_trip(number / 10);
        }
    }
}

} // verus!
