//! Text as sequences of characters: trimming, searching, case folding and
//! decimal numbers.

use vstd::prelude::*;
use vstd::utf8::*;

verus! {

// ---------------------------------------------------------------------------
// Outside text functions
// ---------------------------------------------------------------------------

/// `String::push` appends one character to the end of the text.
pub assume_specification[ String::push ](text: &mut String, c: char)
    ensures
        final(text)@ == old(text)@.push(c),
;

/// What `str::to_lowercase` makes of a text: its Unicode lowercase equivalent.
pub uninterp spec fn lowercase(text: Seq<char>) -> Seq<char>;

/// Calls `str::to_lowercase`. The result is a function of the text alone; which
/// one is left to the Unicode tables of the standard library.
#[verifier::external_body]
pub(crate) fn to_lowercase(text: &str) -> (lower: String)
    ensures
        lower@ == lowercase(text@),
{
    text.to_lowercase()
}

/// What `str::to_uppercase` makes of a text: its Unicode uppercase equivalent.
pub uninterp spec fn uppercase(text: Seq<char>) -> Seq<char>;

/// Calls `str::to_uppercase`. The result is a function of the text alone; which
/// one is left to the Unicode tables of the standard library.
#[verifier::external_body]
pub(crate) fn to_uppercase(text: &str) -> (upper: String)
    ensures
        upper@ == uppercase(text@),
{
    text.to_uppercase()
}

/// Calls `String::from_utf8`, which succeeds exactly on valid UTF-8 and then
/// holds the characters that the bytes encode.
#[verifier::external_body]
pub(crate) fn from_utf8(bytes: Vec<u8>) -> (text: Option<String>)
    ensures
        text is Some <==> valid_utf8(bytes@),
        text matches Some(decoded) ==> decoded@ == decode_utf8(bytes@),
{
    String::from_utf8(bytes).ok()
}

/// What `String::from_utf8_lossy` makes of bytes: text in which every invalid
/// sequence is shown by U+FFFD.
pub uninterp spec fn lossy_text(bytes: Seq<u8>) -> Seq<char>;

/// Calls `String::from_utf8_lossy`. On valid UTF-8 the text is the decoded one;
/// which replacement characters stand for invalid bytes is not stated.
#[verifier::external_body]
pub(crate) fn from_utf8_lossy(bytes: &Vec<u8>) -> (text: String)
    ensures
        text@ == lossy_text(bytes@),
        valid_utf8(bytes@) ==> text@ == decode_utf8(bytes@),
{
    String::from_utf8_lossy(bytes).into_owned()
}

/// The text that `bytes` encode, if they are valid UTF-8.
pub open spec fn utf8_text(bytes: Seq<u8>) -> Option<Seq<char>> {
    if valid_utf8(bytes) {
        Some(decode_utf8(bytes))
    } else {
        None
    }
}

/// Bytes are their own deep view.
pub broadcast proof fn lemma_bytes_deep_view(bytes: Vec<u8>)
    ensures
        #[trigger] bytes.deep_view() == bytes@,
{
    assert(bytes.deep_view() =~= bytes@);
}

/// The encoding of joined texts is the joined encodings.
pub proof fn lemma_encode_concat(left: Seq<char>, right: Seq<char>)
    ensures
        encode_utf8(left + right) == encode_utf8(left) + encode_utf8(right),
    decreases left.len(),
{
    if left.len() == 0 {
        assert(left + right =~= right);
        assert(encode_utf8(left) + encode_utf8(right) =~= encode_utf8(right));
    } else {
        lemma_encode_concat(left.drop_first(), right);
        assert((left + right).drop_first() =~= left.drop_first() + right);
        assert(encode_utf8(left + right) =~= encode_utf8(left) + encode_utf8(right));
    }
}

/// The UTF-8 encoding of `text`.
pub fn bytes_of(text: &str) -> (bytes: Vec<u8>)
    ensures
        bytes@ == encode_utf8(text@),
{
    let source = text.as_bytes();
    let mut bytes: Vec<u8> = Vec::new();
    for i in 0..source.len()
        invariant
            bytes@ == source@.take(i as int),
    {
        bytes.push(source[i]);
    }
    bytes
}

// ---------------------------------------------------------------------------
// Characters of a text
// ---------------------------------------------------------------------------

/// The characters of `text`, in order.
pub fn chars_of(text: &str) -> (chars: Vec<char>)
    ensures
        chars@ == text@,
{
    let mut chars: Vec<char> = Vec::new();
    for c in it: text.chars()
        invariant
            chars@ == text@.take(it.index()),
            it.seq() == text@,
    {
        chars.push(c);
    }
    chars
}

/// The text made of `chars`.
pub fn string_of(chars: &Vec<char>) -> (text: String)
    ensures
        text@ == chars@,
{
    text_between(chars, 0, chars.len())
}

/// The text made of the characters at the positions `start..end`.
pub fn text_between(chars: &Vec<char>, start: usize, end: usize) -> (text: String)
    requires
        start <= end <= chars@.len(),
    ensures
        text@ == chars@.subrange(start as int, end as int),
{
    let mut text = String::new();
    let mut i: usize = start;
    while i < end
        invariant
            start <= i <= end <= chars@.len(),
            text@ == chars@.subrange(start as int, i as int),
        decreases end - i,
    {
        text.push(chars[i]);
        i += 1;
    }
    text
}

/// Whether two runs of characters are the same.
pub fn same_chars(left: &Vec<char>, right: &Vec<char>) -> (same: bool)
    ensures
        same == (left@ == right@),
{
    if left.len() != right.len() {
        return false;
    }
    let mut i: usize = 0;
    while i < left.len()
        invariant
            i <= left.len(),
            left@.len() == right@.len(),
            forall|j: int| 0 <= j < i ==> left@[j] == right@[j],
        decreases left.len() - i,
    {
        if left[i] != right[i] {
            return false;
        }
        i += 1;
    }
    assert(left@ =~= right@);
    true
}

/// Whether two texts hold the same characters.
pub fn same_text(left: &str, right: &str) -> (same: bool)
    ensures
        same == (left@ == right@),
{
    same_chars(&chars_of(left), &chars_of(right))
}

// ---------------------------------------------------------------------------
// White space
// ---------------------------------------------------------------------------

/// The characters with the Unicode property `White_Space`.
pub open spec fn is_white_space(c: char) -> bool {
    let code = c as int;
    ||| 0x9 <= code <= 0xd
    ||| code == 0x20
    ||| code == 0x85
    ||| code == 0xa0
    ||| code == 0x1680
    ||| 0x2000 <= code <= 0x200a
    ||| code == 0x2028
    ||| code == 0x2029
    ||| code == 0x202f
    ||| code == 0x205f
    ||| code == 0x3000
}

/// Whether `c` has the Unicode property `White_Space`.
pub fn white_space(c: char) -> (is: bool)
    ensures
        is == is_white_space(c),
{
    let code: u32 = c as u32;
    (0x9 <= code && code <= 0xd) || code == 0x20 || code == 0x85 || code == 0xa0 || code == 0x1680
        || (0x2000 <= code && code <= 0x200a) || code == 0x2028 || code == 0x2029 || code == 0x202f
        || code == 0x205f || code == 0x3000
}

/// `text` without the white space at its start.
pub open spec fn trim_start(text: Seq<char>) -> Seq<char>
    decreases text.len(),
{
    if text.len() > 0 && is_white_space(text[0]) {
        trim_start(text.skip(1))
    } else {
        text
    }
}

/// `text` without the white space at its end.
pub open spec fn trim_end(text: Seq<char>) -> Seq<char>
    decreases text.len(),
{
    if text.len() > 0 && is_white_space(text.last()) {
        trim_end(text.drop_last())
    } else {
        text
    }
}

/// `text` without the white space at its two ends.
pub open spec fn trimmed(text: Seq<char>) -> Seq<char> {
    trim_end(trim_start(text))
}

/// The characters of `chars` without the white space at the two ends.
pub fn trim_chars(chars: &Vec<char>) -> (range: (usize, usize))
    ensures
        range.0 <= range.1 <= chars@.len(),
        trimmed(chars@) == chars@.subrange(range.0 as int, range.1 as int),
{
    let mut start: usize = 0;
    assert(chars@.skip(0) =~= chars@);
    while start < chars.len() && white_space(chars[start])
        invariant
            start <= chars.len(),
            trim_start(chars@) == trim_start(chars@.skip(start as int)),
        decreases chars.len() - start,
    {
        assert(chars@.skip(start as int).skip(1) =~= chars@.skip(start + 1));
        start += 1;
    }
    assert(trim_start(chars@) == chars@.skip(start as int));
    let mut end: usize = chars.len();
    assert(chars@.skip(start as int) =~= chars@.subrange(start as int, end as int));
    while start < end && white_space(chars[end - 1])
        invariant
            start <= end <= chars.len(),
            trimmed(chars@) == trim_end(chars@.subrange(start as int, end as int)),
        decreases end - start,
    {
        assert(chars@.subrange(start as int, end as int).drop_last() =~= chars@.subrange(
            start as int,
            end - 1,
        ));
        end -= 1;
    }
    (start, end)
}

/// `text` without the white space at its two ends.
pub fn trim(text: &str) -> (result: String)
    ensures
        result@ == trimmed(text@),
{
    let chars = chars_of(text);
    let (start, end) = trim_chars(&chars);
    text_between(&chars, start, end)
}

// ---------------------------------------------------------------------------
// ASCII case
// ---------------------------------------------------------------------------

/// `c` with an ASCII capital letter replaced by its small letter.
pub open spec fn ascii_lower(c: char) -> char {
    if 'A' as int <= c as int <= 'Z' as int {
        (c as int + 32) as char
    } else {
        c
    }
}

/// `text` with its ASCII capital letters replaced by small letters.
pub open spec fn ascii_lowercase(text: Seq<char>) -> Seq<char> {
    Seq::new(text.len(), |i: int| ascii_lower(text[i]))
}

/// `c` with an ASCII capital letter replaced by its small letter.
pub fn lower_ascii_char(c: char) -> (lower: char)
    ensures
        lower == ascii_lower(c),
{
    let code: u32 = c as u32;
    if 65 <= code && code <= 90 {
        ((code as u8) + 32) as char
    } else {
        c
    }
}

/// `chars` with the ASCII capital letters replaced by small letters.
pub fn lower_ascii_chars(chars: &Vec<char>) -> (lower: Vec<char>)
    ensures
        lower@ == ascii_lowercase(chars@),
{
    let mut lower: Vec<char> = Vec::new();
    for i in 0..chars.len()
        invariant
            lower@ == ascii_lowercase(chars@).take(i as int),
    {
        lower.push(lower_ascii_char(chars[i]));
    }
    lower
}

/// Whether two texts are the same but for the case of their ASCII letters.
pub fn same_ignoring_ascii_case(left: &str, right: &str) -> (same: bool)
    ensures
        same == (ascii_lowercase(left@) == ascii_lowercase(right@)),
{
    same_chars(&lower_ascii_chars(&chars_of(left)), &lower_ascii_chars(&chars_of(right)))
}

// ---------------------------------------------------------------------------
// Searching
// ---------------------------------------------------------------------------

/// Whether `needle` stands in `text` at the position `at`.
pub open spec fn occurs_at(text: Seq<char>, needle: Seq<char>, at: int) -> bool {
    &&& 0 <= at
    &&& at + needle.len() <= text.len()
    &&& text.subrange(at, at + needle.len()) == needle
}

/// Whether `needle` stands somewhere in `text`.
pub open spec fn contains_text(text: Seq<char>, needle: Seq<char>) -> bool {
    exists|at: int| #[trigger] occurs_at(text, needle, at)
}

/// The first position of `needle` in `text` that is not before `from`.
pub open spec fn find_from(text: Seq<char>, needle: Seq<char>, from: int) -> Option<int>
    decreases text.len() + 1 - from,
{
    if from + needle.len() > text.len() {
        None
    } else if occurs_at(text, needle, from) {
        Some(from)
    } else {
        find_from(text, needle, from + 1)
    }
}

/// The first position of `needle` in `text`.
pub open spec fn find(text: Seq<char>, needle: Seq<char>) -> Option<int> {
    find_from(text, needle, 0)
}

/// A search finds a place where the needle stands and before which it does not
/// stand, and finds none only where there is none.
pub proof fn lemma_find_from(text: Seq<char>, needle: Seq<char>, from: int)
    requires
        0 <= from,
    ensures
        match find_from(text, needle, from) {
            Some(at) => {
                &&& from <= at
                &&& occurs_at(text, needle, at)
                &&& forall|other: int|
                    from <= other < at ==> !#[trigger] occurs_at(text, needle, other)
            },
            None => forall|other: int| from <= other ==> !#[trigger] occurs_at(text, needle, other),
        },
    decreases text.len() + 1 - from,
{
    if from + needle.len() <= text.len() && !occurs_at(text, needle, from) {
        lemma_find_from(text, needle, from + 1);
    }
}

/// Whether `needle` stands in `chars` at the position `at`.
fn stands_at(chars: &Vec<char>, needle: &Vec<char>, at: usize) -> (stands: bool)
    requires
        at + needle@.len() <= chars@.len(),
    ensures
        stands == occurs_at(chars@, needle@, at as int),
{
    let mut i: usize = 0;
    while i < needle.len()
        invariant
            i <= needle.len(),
            at + needle@.len() <= chars@.len(),
            forall|j: int| 0 <= j < i ==> chars@[at + j] == needle@[j],
        decreases needle.len() - i,
    {
        assert(at + i < chars.len());
        if chars[at + i] != needle[i] {
            assert(chars@.subrange(at as int, at + needle@.len())[i as int] != needle@[i as int]);
            return false;
        }
        i += 1;
    }
    assert(chars@.subrange(at as int, at + needle@.len()) =~= needle@);
    true
}

/// The first position of `needle` in `chars`.
pub fn find_chars(chars: &Vec<char>, needle: &Vec<char>) -> (position: Option<usize>)
    ensures
        match position {
            Some(at) => find(chars@, needle@) == Some(at as int),
            None => find(chars@, needle@) is None,
        },
{
    if needle.len() > chars.len() {
        return None;
    }
    let last: usize = chars.len() - needle.len();
    let mut at: usize = 0;
    loop
        invariant
            at <= last,
            last == chars@.len() - needle@.len(),
            find(chars@, needle@) == find_from(chars@, needle@, at as int),
        decreases last - at,
    {
        if stands_at(chars, needle, at) {
            return Some(at);
        }
        if at == last {
            assert(find_from(chars@, needle@, at + 1) is None);
            return None;
        }
        at += 1;
    }
}

/// Whether `needle` stands somewhere in `text`.
pub fn text_contains(text: &str, needle: &str) -> (found: bool)
    ensures
        found == contains_text(text@, needle@),
{
    let position = find_chars(&chars_of(text), &chars_of(needle));
    proof {
        lemma_find_from(text@, needle@, 0);
    }
    position.is_some()
}

// ---------------------------------------------------------------------------
// Places in a text, counted in bytes
// ---------------------------------------------------------------------------

/// How many bytes the first `count` characters of a text take.
pub open spec fn bytes_before(text: Seq<char>, count: int) -> nat {
    encode_utf8(text.take(count)).len()
}

/// Whether a place, counted in bytes, is between two characters of a text or at
/// one of its ends.
pub open spec fn on_boundary(text: Seq<char>, place: nat) -> bool {
    exists|count: int| 0 <= count <= text.len() && #[trigger] bytes_before(text, count) == place
}

/// How many characters of a text stand before a place counted in bytes.
pub open spec fn chars_before(text: Seq<char>, place: nat) -> int {
    choose|count: int| 0 <= count <= text.len() && #[trigger] bytes_before(text, count) == place
}

proof fn lemma_encoded_char(c: char)
    ensures
        encode_utf8(seq![c]) == encode_scalar(c as u32),
        encode_scalar(c as u32).len() >= 1,
{
    reveal_with_fuel(encode_utf8, 2);
    assert(encode_utf8(seq![c]) =~= encode_scalar(c as u32));
}

/// Each further character takes further bytes.
pub proof fn lemma_bytes_before(text: Seq<char>, count: int, more: int)
    requires
        0 <= count <= more <= text.len(),
    ensures
        bytes_before(text, count) + (more - count) <= bytes_before(text, more),
        more == count + 1 ==> bytes_before(text, more) == bytes_before(text, count)
            + encode_utf8(seq![text[count]]).len(),
    decreases more - count,
{
    if count < more {
        lemma_bytes_before(text, count, more - 1);
        let last = text[more - 1];
        assert(text.take(more) =~= text.take(more - 1) + seq![last]);
        lemma_encode_concat(text.take(more - 1), seq![last]);
        lemma_encoded_char(last);
    }
}

/// Only one number of characters takes so many bytes.
pub proof fn lemma_chars_before(text: Seq<char>, count: int)
    requires
        0 <= count <= text.len(),
    ensures
        on_boundary(text, bytes_before(text, count)),
        chars_before(text, bytes_before(text, count)) == count,
{
    let place = bytes_before(text, count);
    let found = chars_before(text, place);
    assert(0 <= found <= text.len() && bytes_before(text, found) == place);
    if found < count {
        lemma_bytes_before(text, found, count);
    } else {
        lemma_bytes_before(text, count, found);
    }
}

/// How many bytes a character takes.
fn encoded_len(c: char) -> (len: usize)
    ensures
        len == encode_utf8(seq![c]).len(),
        1 <= len,
{
    proof {
        lemma_encoded_char(c);
        char_is_scalar(c);
    }
    let value: u32 = c as u32;
    if value <= 0x7F {
        1
    } else if value <= 0x7FF {
        2
    } else if value <= 0xFFFF {
        3
    } else {
        4
    }
}

/// How many bytes the first `count` characters take.
pub fn byte_offset(chars: &Vec<char>, count: usize) -> (place: usize)
    requires
        count <= chars@.len(),
    ensures
        place == bytes_before(chars@, count as int),
{
    let before = text_between(chars, 0, count);
    assert(before@ =~= chars@.take(count as int));
    bytes_of(before.as_str()).len()
}

/// How many characters stand before a place that is counted in bytes.
pub fn char_offset(chars: &Vec<char>, place: usize) -> (count: usize)
    requires
        on_boundary(chars@, place as nat),
    ensures
        count == chars_before(chars@, place as nat),
        count <= chars@.len(),
        place == bytes_before(chars@, count as int),
{
    let ghost wanted = chars_before(chars@, place as nat);
    let mut offset: usize = 0;
    let mut count: usize = 0;
    proof {
        assert(chars@.take(0) =~= Seq::empty());
    }
    while offset < place
        invariant
            0 <= count <= wanted <= chars@.len(),
            offset == bytes_before(chars@, count as int),
            place == bytes_before(chars@, wanted),
            offset <= place,
        decreases place - offset,
    {
        proof {
            lemma_bytes_before(chars@, count as int, wanted);
            lemma_bytes_before(chars@, count + 1, wanted);
            lemma_bytes_before(chars@, count as int, count + 1);
            assert(count < chars.len());
        }
        offset += encoded_len(chars[count]);
        count += 1;
    }
    proof {
        lemma_bytes_before(chars@, count as int, wanted);
    }
    count
}

// ---------------------------------------------------------------------------
// Decimal numbers
// ---------------------------------------------------------------------------

/// The decimal digit for a value below ten.
pub open spec fn digit(value: int) -> char {
    ('0' as int + value) as char
}

/// A number in decimal notation, without leading zeros.
pub open spec fn decimal(number: nat) -> Seq<char>
    decreases number,
{
    if number < 10 {
        seq![digit(number as int)]
    } else {
        decimal(number / 10).push(digit((number % 10) as int))
    }
}

/// A number in decimal notation, with at least two digits.
pub open spec fn two_digits(number: nat) -> Seq<char> {
    if number < 10 {
        seq!['0', digit(number as int)]
    } else {
        decimal(number)
    }
}

fn digit_char(value: u64) -> (c: char)
    requires
        value < 10,
    ensures
        c == digit(value as int),
{
    ((value as u8) + 48) as char
}

/// `number` in decimal notation.
pub fn decimal_text(number: u64) -> (text: String)
    ensures
        text@ == decimal(number as nat),
    decreases number,
{
    if number < 10 {
        let mut text = String::new();
        text.push(digit_char(number));
        assert(text@ =~= seq![digit(number as int)]);
        text
    } else {
        let mut text = decimal_text(number / 10);
        text.push(digit_char(number % 10));
        text
    }
}

/// `number` in decimal notation, with at least two digits.
pub fn two_digit_text(number: u64) -> (text: String)
    ensures
        text@ == two_digits(number as nat),
{
    if number < 10 {
        let mut text = String::new();
        text.push('0');
        text.push(digit_char(number));
        assert(text@ =~= seq!['0', digit(number as int)]);
        text
    } else {
        decimal_text(number)
    }
}

/// Whether `c` is an ASCII digit.
pub open spec fn is_digit(c: char) -> bool {
    '0' as int <= c as int <= '9' as int
}

/// Whether all of `text` is ASCII digits.
pub open spec fn all_digits(text: Seq<char>) -> bool {
    forall|i: int| 0 <= i < text.len() ==> is_digit(#[trigger] text[i])
}

/// The number that a run of decimal digits denotes.
pub open spec fn digits_value(text: Seq<char>) -> nat
    decreases text.len(),
{
    if text.len() == 0 {
        0
    } else {
        digits_value(text.drop_last()) * 10 + (text.last() as int - '0' as int) as nat
    }
}

/// Whether `c` is an ASCII digit.
pub fn digit_is(c: char) -> (is: bool)
    ensures
        is == is_digit(c),
{
    let code: u32 = c as u32;
    48 <= code && code <= 57
}

/// Longer runs of digits that start alike denote no smaller number.
pub proof fn lemma_digits_value_grows(text: Seq<char>, count: int)
    requires
        all_digits(text),
        0 <= count <= text.len(),
    ensures
        digits_value(text.take(count)) <= digits_value(text),
    decreases text.len(),
{
    if count == text.len() {
        assert(text.take(count) =~= text);
    } else {
        assert(text.drop_last().take(count) =~= text.take(count));
        lemma_digits_value_grows(text.drop_last(), count);
    }
}

/// The number below 2^32 that the digits `start..end` denote.
pub fn digits_u32(chars: &Vec<char>, start: usize, end: usize) -> (number: Option<u32>)
    requires
        start <= end <= chars@.len(),
        all_digits(chars@.subrange(start as int, end as int)),
    ensures
        match number {
            Some(value) => value == digits_value(chars@.subrange(start as int, end as int)),
            None => digits_value(chars@.subrange(start as int, end as int)) > u32::MAX,
        },
{
    let ghost run = chars@.subrange(start as int, end as int);
    let mut value: u64 = 0;
    let mut i: usize = start;
    while i < end
        invariant
            start <= i <= end <= chars@.len(),
            run == chars@.subrange(start as int, end as int),
            all_digits(run),
            value == digits_value(run.take(i - start)),
            value <= u32::MAX,
        decreases end - i,
    {
        let c = chars[i];
        proof {
            assert(run[i - start] == c);
            assert(run.take(i + 1 - start).drop_last() =~= run.take(i - start));
        }
        value = value * 10 + (c as u32 - 48) as u64;
        if value > 0xffff_ffff {
            proof {
                lemma_digits_value_grows(run, i + 1 - start);
            }
            return None;
        }
        i += 1;
    }
    assert(run.take(end - start) =~= run);
    Some(value as u32)
}

/// The number that a text denotes in the notation of `u32::from_str`: digits,
/// with at most one `+` before them, of a value below 2^32.
pub open spec fn parsed_u32(text: Seq<char>) -> Option<u32> {
    let digits = if text.len() > 0 && text[0] == '+' {
        text.skip(1)
    } else {
        text
    };
    if digits.len() > 0 && all_digits(digits) && digits_value(digits) <= u32::MAX {
        Some(digits_value(digits) as u32)
    } else {
        None
    }
}

/// The number that `text` denotes in decimal notation, if it is below 2^32.
pub fn parse_u32(text: &str) -> (number: Option<u32>)
    ensures
        number == parsed_u32(text@),
{
    let chars = chars_of(text);
    let start: usize = if chars.len() > 0 && chars[0] == '+' {
        1
    } else {
        0
    };
    let ghost digits = if text@.len() > 0 && text@[0] == '+' {
        text@.skip(1)
    } else {
        text@
    };
    assert(chars@.subrange(start as int, chars@.len() as int) =~= digits);
    if start == chars.len() {
        return None;
    }
    let mut i: usize = start;
    while i < chars.len()
        invariant
            start <= i <= chars.len(),
            digits == chars@.subrange(start as int, chars@.len() as int),
            digits == if text@.len() > 0 && text@[0] == '+' {
                text@.skip(1)
            } else {
                text@
            },
            forall|j: int| 0 <= j < i - start ==> is_digit(#[trigger] digits[j]),
        decreases chars.len() - i,
    {
        assert(digits[i - start] == chars@[i as int]);
        if !digit_is(chars[i]) {
            assert(!all_digits(digits));
            return None;
        }
        i += 1;
    }
    digits_u32(&chars, start, chars.len())
}

} // verus!
