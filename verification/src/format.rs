//! How lengths, sizes, dates, paths and titles are shown.

use vstd::prelude::*;
use vstd::utf8::*;
use crate::library::Track;
use crate::path::{route_bytes, FilePath};
use crate::text::{bytes_of, chars_of, decimal_text, digit_is, from_utf8, text_between};
use crate::text::two_digit_text;
use crate::time::Duration;
use crate::library::TrackView;
use crate::path::{written, PathView, Route};
use crate::text::{all_digits, contains_text, decimal, occurs_at, two_digits, utf8_text};
use crate::time::{longest, second};

verus! {

broadcast use crate::text::lemma_bytes_deep_view;

// ---------------------------------------------------------------------------
// Widths
// ---------------------------------------------------------------------------

/// The columns that a text takes on the screen, as `ratatui` measures them.
pub uninterp spec fn display_width(text: Seq<char>) -> nat;

/// Calls `ratatui::text::Line::raw` and `Line::width`: the columns that the
/// text takes on the screen. They are a function of the text alone; which one
/// is left to the Unicode tables that `ratatui` uses.
#[verifier::external_body]
pub(crate) fn line_width(text: &str) -> (width: usize)
    ensures
        width == display_width(text@),
{
    ratatui::text::Line::raw(text).width()
}

/// How many characters of a text, from `from` on, are kept so that the next one
/// and a mark of one column still fit in `width` columns.
pub open spec fn kept_until(text: Seq<char>, width: int, from: int) -> int
    decreases text.len() - from,
{
    if from < 0 || from >= text.len() {
        from
    } else if display_width(text.take(from)) + display_width(seq![text[from]]) + 1 > width {
        from
    } else {
        kept_until(text, width, from + 1)
    }
}

/// A text cut to `width` columns, with `…` in place of what was cut.
pub open spec fn truncated(text: Seq<char>, width: int) -> Seq<char> {
    if display_width(text) <= width {
        text
    } else if width <= 0 {
        Seq::empty()
    } else if width == 1 {
        "…"@
    } else {
        text.take(kept_until(text, width, 0)) + "…"@
    }
}

/// Whether a text is at most as wide as its characters are one by one, also
/// where it is cut and `…` follows.
pub open spec fn widths_add(text: Seq<char>) -> bool {
    &&& display_width(Seq::empty()) == 0
    &&& display_width("…"@) <= 1
    &&& forall|i: int|
        0 <= i < text.len() ==> #[trigger] display_width(text.take(i + 1)) <= display_width(
            text.take(i),
        ) + display_width(seq![text[i]])
    &&& forall|i: int|
        0 <= i <= text.len() ==> #[trigger] display_width(text.take(i) + "…"@) <= display_width(
            text.take(i),
        ) + 1
}

proof fn lemma_kept_until(text: Seq<char>, width: int, from: int)
    requires
        0 <= from <= text.len(),
    ensures
        from <= kept_until(text, width, from) <= text.len(),
        widths_add(text) && display_width(text.take(from)) + 1 <= width ==> display_width(
            text.take(kept_until(text, width, from)),
        ) + 1 <= width,
    decreases text.len() - from,
{
    if from < text.len() && display_width(text.take(from)) + display_width(seq![text[from]]) + 1
        <= width {
        if widths_add(text) {
            assert(display_width(text.take(from + 1)) <= display_width(text.take(from))
                + display_width(seq![text[from]]));
        }
        lemma_kept_until(text, width, from + 1);
    }
}

/// A cut text fits, wherever a text is at most as wide as its characters are
/// one by one.
pub proof fn law_truncated_fits(text: Seq<char>, width: int)
    ensures
        0 <= width && widths_add(text) ==> display_width(truncated(text, width)) <= width,
{
    if 0 <= width && widths_add(text) && display_width(text) > width && width >= 2 {
        assert(text.take(0) =~= Seq::empty());
        lemma_kept_until(text, width, 0);
        let kept = kept_until(text, width, 0);
        assert(display_width(text.take(kept) + "…"@) <= display_width(text.take(kept)) + 1);
    }
}

/// A cut text is a beginning of the text and `…`; a text that fits is not cut.
pub proof fn law_truncated_is_prefix(text: Seq<char>, width: int)
    ensures
        display_width(text) <= width ==> truncated(text, width) == text,
        display_width(text) > width && width >= 1 ==> exists|count: int|
            0 <= count <= text.len() && truncated(text, width) == #[trigger] text.take(count)
                + "…"@,
{
    if display_width(text) > width && width >= 1 {
        lemma_kept_until(text, width, 0);
        let count = if width == 1 {
            0
        } else {
            kept_until(text, width, 0)
        };
        assert(truncated(text, width) =~= text.take(count) + "…"@);
    }
}

/// `text`, cut to `width` columns. Where it is cut, `…` takes the last column.
pub fn truncate_to_width(text: &str, width: usize) -> (result: String)
    ensures
        result@ == truncated(text@, width as int),
{
    if line_width(text) <= width {
        return text.to_owned();
    }
    if width == 0 {
        let result = String::new();
        assert(result@ =~= Seq::empty());
        return result;
    }
    if width == 1 {
        return "…".to_owned();
    }
    let ghost all = text@;
    let chars = chars_of(text);
    let mut shortened = String::new();
    let mut next: usize = 0;
    assert(shortened@ =~= all.take(0));
    while next < chars.len()
        invariant_except_break
            shortened@ == all.take(next as int),
            kept_until(all, width as int, next as int) == kept_until(all, width as int, 0),
        invariant
            next <= chars@.len(),
            chars@ == all,
        ensures
            shortened@ == all.take(kept_until(all, width as int, 0)),
        decreases chars.len() - next,
    {
        let mut character = String::new();
        character.push(chars[next]);
        assert(character@ =~= seq![all[next as int]]);
        let character_width = line_width(character.as_str());
        let taken = line_width(shortened.as_str());
        if taken >= width || character_width >= width - taken {
            break;
        }
        shortened.push(chars[next]);
        assert(shortened@ =~= all.take(next + 1));
        next += 1;
    }
    shortened.append("…");
    shortened
}

// ---------------------------------------------------------------------------
// Paths
// ---------------------------------------------------------------------------

/// How many parts of a path stand before the `…` of its short form: three
/// components, of which the root is one.
pub open spec fn leading_parts(path: Route) -> int {
    if path.absolute {
        2
    } else {
        3
    }
}

/// The short form of a path: of more than five components the first three and
/// the last two. A path of at most five is left as it is written.
pub open spec fn compacted(path: PathView) -> PathView {
    let route = path.route();
    let lead = leading_parts(route);
    let count = route.parts.len();
    if count <= lead + 2 {
        path
    } else {
        written(
            (Route {
                absolute: route.absolute,
                parts: route.parts.take(lead) + seq![encode_utf8("…"@)] + route.parts.skip(
                    count - 2,
                ),
            }).bytes(),
        )
    }
}

/// The short form of a path as it is shown in previews.
pub fn compact_preview_path(path: &FilePath) -> (text: String)
    ensures
        text@ == compacted(path@).shown(),
{
    let lead: usize = if path.is_absolute() {
        2
    } else {
        3
    };
    let given = path.parts();
    let count = given.len();
    let ghost parts = path@.route().parts;
    assert(parts.len() == count);
    if count <= lead + 2 {
        return path.display();
    }
    let mut short: Vec<Vec<u8>> = Vec::new();
    let mut i: usize = 0;
    while i < lead
        invariant
            i <= lead < given@.len(),
            parts == given.deep_view(),
            short.deep_view() == parts.take(i as int),
        decreases lead - i,
    {
        let ghost before = short.deep_view();
        let part = given[i].clone();
        assert(part@ == parts[i as int]);
        short.push(part);
        assert(short.deep_view() =~= before.push(parts[i as int]));
        assert(short.deep_view() =~= parts.take(i + 1));
        i += 1;
    }
    let ghost before = short.deep_view();
    short.push(bytes_of("…"));
    short.push(given[count - 2].clone());
    short.push(given[count - 1].clone());
    proof {
        assert(short.deep_view() =~= before.push(encode_utf8("…"@)).push(parts[count - 2]).push(
            parts[count - 1],
        ));
        assert(short.deep_view() =~= parts.take(lead as int) + seq![encode_utf8("…"@)]
            + parts.skip(count - 2));
    }
    let compact = FilePath { bytes: route_bytes(path.is_absolute(), &short) };
    assert(compact@ =~= compacted(path@));
    compact.display()
}

/// What a path is called in the header: its last part, or else the whole of it,
/// or `Library` where neither can be shown.
pub open spec fn header_name(path: PathView) -> Seq<char> {
    match path.file_name_text() {
        Some(name) => name,
        None => match utf8_text(path.bytes) {
            Some(text) => text,
            None => "Library"@,
        },
    }
}

/// A path as the header shows it in `width` columns.
pub open spec fn header_path(path: PathView, width: int) -> Seq<char> {
    let compact = compacted(path).shown();
    if display_width(compact) <= width {
        compact
    } else {
        truncated("…/"@ + header_name(path), width)
    }
}

/// `path` as the header shows it in `width` columns: in short form if that
/// fits, and else its name, cut.
pub fn compact_header_path(path: &FilePath, width: usize) -> (text: String)
    ensures
        text@ == header_path(path@, width as int),
{
    let compact = compact_preview_path(path);
    if line_width(compact.as_str()) <= width {
        return compact;
    }
    let name = match path.file_name_text() {
        Some(name) => name,
        None => match from_utf8(path.to_bytes()) {
            Some(text) => text,
            None => "Library".to_owned(),
        },
    };
    let mut full = "…/".to_owned();
    full.append(name.as_str());
    truncate_to_width(full.as_str(), width)
}

// ---------------------------------------------------------------------------
// The header
// ---------------------------------------------------------------------------

/// Lines under way: those that are full, and the one that is being filled.
pub struct Wrapping {
    pub lines: Seq<Seq<char>>,
    pub current: Seq<char>,
}

/// A line with one more token.
pub open spec fn extended(current: Seq<char>, token: Seq<char>) -> Seq<char> {
    if current.len() == 0 {
        token
    } else {
        current + " · "@ + token
    }
}

/// The lines after the tokens: each token is cut to the width and goes on the
/// line if it still fits there, and else on a new one.
pub open spec fn wrapping(tokens: Seq<Seq<char>>, width: int) -> Wrapping
    decreases tokens.len(),
{
    if tokens.len() == 0 {
        Wrapping { lines: Seq::empty(), current: Seq::empty() }
    } else {
        let before = wrapping(tokens.drop_last(), width);
        let token = truncated(tokens.last(), width);
        let candidate = extended(before.current, token);
        if before.current.len() > 0 && display_width(candidate) > width {
            Wrapping { lines: before.lines.push(before.current), current: token }
        } else {
            Wrapping { lines: before.lines, current: candidate }
        }
    }
}

/// Tokens laid out in lines of `width` columns.
pub open spec fn wrapped(tokens: Seq<Seq<char>>, width: int) -> Seq<Seq<char>> {
    if width <= 0 {
        seq![Seq::empty()]
    } else {
        let all = wrapping(tokens, width);
        if all.current.len() > 0 {
            all.lines.push(all.current)
        } else {
            all.lines
        }
    }
}

/// Lays tokens out in lines of at most `width` columns, with ` · ` between the
/// tokens of a line.
pub fn wrap_header_tokens(tokens: Vec<String>, width: usize) -> (lines: Vec<String>)
    ensures
        lines.deep_view() == wrapped(tokens.deep_view(), width as int),
{
    let ghost views = tokens.deep_view();
    let mut lines: Vec<String> = Vec::new();
    if width == 0 {
        lines.push(String::new());
        assert(lines@[0]@ =~= Seq::empty());
        assert(lines.deep_view() =~= seq![Seq::empty()]);
        return lines;
    }
    let mut current = String::new();
    let mut next: usize = 0;
    proof {
        assert(views.take(0) =~= Seq::empty());
        assert(lines.deep_view() =~= Seq::empty());
        assert(current@ =~= Seq::empty());
    }
    while next < tokens.len()
        invariant
            next <= tokens@.len(),
            views == tokens.deep_view(),
            lines.deep_view() == wrapping(views.take(next as int), width as int).lines,
            current@ == wrapping(views.take(next as int), width as int).current,
        decreases tokens.len() - next,
    {
        assert(views.take(next + 1).drop_last() =~= views.take(next as int));
        let token = truncate_to_width(tokens[next].as_str(), width);
        let empty = current.as_str().is_empty();
        let candidate = if empty {
            token.clone()
        } else {
            let mut longer = current.clone();
            longer.append(" · ");
            longer.append(token.as_str());
            longer
        };
        if !empty && line_width(candidate.as_str()) > width {
            let ghost before = lines.deep_view();
            let ghost line = current@;
            lines.push(current);
            assert(lines.deep_view() =~= before.push(line));
            current = token;
        } else {
            current = candidate;
        }
        next += 1;
    }
    assert(views.take(views.len() as int) =~= views);
    if !current.as_str().is_empty() {
        let ghost before = lines.deep_view();
        let ghost line = current@;
        lines.push(current);
        assert(lines.deep_view() =~= before.push(line));
    }
    lines
}

proof fn lemma_wrapping_fits(tokens: Seq<Seq<char>>, width: int)
    requires
        width > 0,
        display_width(Seq::<char>::empty()) == 0,
        forall|i: int| 0 <= i < tokens.len() ==> widths_add(#[trigger] tokens[i]),
    ensures
        ({
            let all = wrapping(tokens, width);
            &&& display_width(all.current) <= width
            &&& forall|i: int| 0 <= i < all.lines.len() ==> display_width(#[trigger] all.lines[i]) <= width
        }),
    decreases tokens.len(),
{
    if tokens.len() > 0 {
        assert forall|i: int| 0 <= i < tokens.drop_last().len() implies widths_add(
            #[trigger] tokens.drop_last()[i],
        ) by {
            assert(tokens.drop_last()[i] == tokens[i]);
        }
        lemma_wrapping_fits(tokens.drop_last(), width);
        assert(widths_add(tokens[tokens.len() - 1]));
        law_truncated_fits(tokens.last(), width);
    }
}

/// No line of the header is wider than there is room, wherever a token is at
/// most as wide as its characters are one by one.
pub proof fn law_wrapped_fits(tokens: Seq<Seq<char>>, width: int)
    ensures
        width > 0 && display_width(Seq::<char>::empty()) == 0 && (forall|i: int|
            0 <= i < tokens.len() ==> widths_add(#[trigger] tokens[i])) ==> forall|i: int|
            0 <= i < wrapped(tokens, width).len() ==> display_width(
                #[trigger] wrapped(tokens, width)[i],
            ) <= width,
{
    if width > 0 && display_width(Seq::<char>::empty()) == 0 && (forall|i: int|
        0 <= i < tokens.len() ==> widths_add(#[trigger] tokens[i])) {
        lemma_wrapping_fits(tokens, width);
    }
}

/// Whether a token stands in one of the lines, or in the one being filled.
spec fn shown_in(all: Wrapping, token: Seq<char>) -> bool {
    ||| contains_text(all.current, token)
    ||| exists|i: int| 0 <= i < all.lines.len() && contains_text(#[trigger] all.lines[i], token)
}

proof fn lemma_contains_extended(before: Seq<char>, middle: Seq<char>, after: Seq<char>, token: Seq<char>)
    ensures
        contains_text(before, token) ==> contains_text(before + middle + after, token),
        contains_text(before + middle + after, after),
        contains_text(token, token),
{
    let all = before + middle + after;
    if contains_text(before, token) {
        let at = choose|at: int| occurs_at(before, token, at);
        assert(all.subrange(at, at + token.len()) =~= before.subrange(at, at + token.len()));
        assert(occurs_at(all, token, at));
    }
    let at = (before.len() + middle.len()) as int;
    assert(all.subrange(at, at + after.len()) =~= after);
    assert(occurs_at(all, after, at));
    assert(token.subrange(0, token.len() as int) =~= token);
    assert(occurs_at(token, token, 0));
}

proof fn lemma_wrapping_shows(tokens: Seq<Seq<char>>, width: int, index: int)
    requires
        0 <= index < tokens.len(),
    ensures
        shown_in(wrapping(tokens, width), truncated(tokens[index], width)),
    decreases tokens.len(),
{
    let before = wrapping(tokens.drop_last(), width);
    let all = wrapping(tokens, width);
    let token = truncated(tokens[index], width);
    let last = truncated(tokens.last(), width);
    lemma_contains_extended(before.current, " · "@, last, token);
    if index < tokens.len() - 1 {
        assert(tokens.drop_last()[index] == tokens[index]);
        lemma_wrapping_shows(tokens.drop_last(), width, index);
        if contains_text(before.current, token) {
            if before.current.len() > 0 && display_width(extended(before.current, last)) > width {
                assert(all.lines[before.lines.len() as int] == before.current);
            } else if before.current.len() == 0 {
                let at = choose|at: int| occurs_at(before.current, token, at);
                assert(token.len() == 0);
                assert(last.subrange(0, 0) =~= token);
                assert(occurs_at(last, token, 0));
            }
        } else {
            let i = choose|i: int|
                0 <= i < before.lines.len() && contains_text(#[trigger] before.lines[i], token);
            assert(all.lines[i] == before.lines[i]);
        }
    } else {
        lemma_contains_extended(before.current, " · "@, last, last);
    }
}

/// Every token of the header that is not empty stands on one of its lines, cut
/// if it must be.
pub proof fn law_wrapping_keeps_tokens(tokens: Seq<Seq<char>>, width: int, index: int)
    requires
        width > 0,
        0 <= index < tokens.len(),
    ensures
        truncated(tokens[index], width).len() > 0 ==> exists|line: int|
            0 <= line < wrapped(tokens, width).len() && contains_text(
                #[trigger] wrapped(tokens, width)[line],
                truncated(tokens[index], width),
            ),
{
    lemma_wrapping_shows(tokens, width, index);
    let all = wrapping(tokens, width);
    let token = truncated(tokens[index], width);
    let lines = wrapped(tokens, width);
    if token.len() > 0 {
        if contains_text(all.current, token) {
            let at = choose|at: int| occurs_at(all.current, token, at);
            assert(all.current.len() > 0);
            assert(lines[all.lines.len() as int] == all.current);
        } else {
            let i = choose|i: int|
                0 <= i < all.lines.len() && contains_text(#[trigger] all.lines[i], token);
            assert(lines[i] == all.lines[i]);
        }
    }
}

// ---------------------------------------------------------------------------
// Moving text
// ---------------------------------------------------------------------------

/// What stands in a column of a title that moves through `width` columns: it
/// enters on the left and has moved on by `step` columns.
pub open spec fn moving_char(title: Seq<char>, width: int, step: int, column: int) -> char {
    let index = column + title.len() - step % (title.len() + width);
    if 0 <= index < title.len() {
        title[index]
    } else {
        ' '
    }
}

/// A title that moves through `width` columns, after `step` steps.
pub open spec fn moving(title: Seq<char>, width: nat, step: int) -> Seq<char> {
    Seq::new(width, |column: int| moving_char(title, width as int, step, column))
}

/// The title moves right by one column with each step, until it starts anew.
pub proof fn law_marquee_moves(title: Seq<char>, width: nat, step: int, column: int)
    requires
        0 <= column,
        column + 1 < width,
        0 <= step,
        (step + 1) % (title.len() + width as int) != 0,
    ensures
        moving(title, width, step + 1)[column + 1] == moving(title, width, step)[column],
{
    let period = (title.len() + width) as int;
    vstd::arithmetic::div_mod::lemma_add_mod_noop(step, 1, period);
    vstd::arithmetic::div_mod::lemma_small_mod(1, period as nat);
    let rest = step % period;
    assert((rest + 1) % period == (step + 1) % period);
    if rest + 1 == period {
        vstd::arithmetic::div_mod::lemma_mod_self_0(period);
    } else {
        vstd::arithmetic::div_mod::lemma_small_mod((rest + 1) as nat, period as nat);
    }
}

/// After as many steps as title and columns are long together, the title stands
/// where it stood.
pub proof fn law_marquee_repeats(title: Seq<char>, width: nat, step: int)
    requires
        0 < title.len() + width,
        0 <= step,
    ensures
        moving(title, width, step + title.len() + width) == moving(title, width, step),
{
    let period = (title.len() + width) as int;
    vstd::arithmetic::div_mod::lemma_mod_add_multiples_vanish(step, period);
    assert(moving(title, width, step + period) =~= moving(title, width, step));
}

/// `text` moving through `width` columns, a column every 180 milliseconds.
pub fn marquee(text: &str, width: usize, elapsed: Duration) -> (shown: String)
    requires
        0 < text@.len() + width <= usize::MAX,
    ensures
        shown@ == moving(text@, width as nat, (elapsed@ / 1_000_000 / 180) as int),
{
    let ghost title = text@;
    let chars = chars_of(text);
    let count = chars.len();
    let step: u128 = elapsed.as_millis() / 180;
    let passed: usize = (step % (count + width) as u128) as usize;
    let ghost wanted = moving(title, width as nat, step as int);
    assert(passed == step as int % (title.len() + width));
    let mut shown = String::new();
    let mut column: usize = 0;
    assert(shown@ =~= wanted.take(0));
    while column < width
        invariant
            column <= width,
            count == chars@.len(),
            chars@ == title,
            count + width <= usize::MAX,
            passed == step as int % (title.len() + width),
            passed < count + width,
            wanted == moving(title, width as nat, step as int),
            shown@ == wanted.take(column as int),
        decreases width - column,
    {
        let reached: usize = column + count;
        let character = if reached >= passed && reached - passed < count {
            chars[reached - passed]
        } else {
            ' '
        };
        assert(character == wanted[column as int]);
        shown.push(character);
        assert(shown@ =~= wanted.take(column + 1));
        column += 1;
    }
    assert(shown@ =~= wanted);
    shown
}

/// The frame of the wave beside the track that is playing.
pub open spec fn wave_frame(step: int) -> Seq<char> {
    if step % 4 == 0 {
        "▁▃▅"@
    } else if step % 4 == 1 {
        "▃▅▃"@
    } else if step % 4 == 2 {
        "▅▃▁"@
    } else {
        "▃▁▃"@
    }
}

/// The wave beside the track that is playing, a frame every 160 milliseconds.
pub fn animated_wave(elapsed: Duration) -> (frame: &'static str)
    ensures
        frame@ == wave_frame((elapsed@ / 1_000_000 / 160) as int),
{
    let step: u128 = elapsed.as_millis() / 160 % 4;
    if step == 0 {
        "▁▃▅"
    } else if step == 1 {
        "▃▅▃"
    } else if step == 2 {
        "▅▃▁"
    } else {
        "▃▁▃"
    }
}

// ---------------------------------------------------------------------------
// Lengths, dates and sizes
// ---------------------------------------------------------------------------

/// A length of time in nanoseconds as minutes and seconds.
pub open spec fn minutes(duration: nat) -> Seq<char> {
    let seconds = duration / second();
    two_digits(seconds / 60) + ":"@ + two_digits(seconds % 60)
}

/// `duration` as minutes and seconds.
pub fn format_duration(duration: Duration) -> (text: String)
    ensures
        text@ == minutes(duration@),
{
    let seconds: u64 = duration.as_secs();
    let mut text = two_digit_text(seconds / 60);
    text.append(":");
    text.append(two_digit_text(seconds % 60).as_str());
    text
}

/// The year of a date: its first four characters if they are digits, and else
/// the whole of it.
pub open spec fn release_year(date: Seq<char>) -> Seq<char> {
    if date.len() >= 4 && all_digits(date.take(4)) {
        date.take(4)
    } else {
        date
    }
}

/// The year of a release date.
pub fn format_release_year(date: &str) -> (year: String)
    ensures
        year@ == release_year(date@),
{
    let chars = chars_of(date);
    if chars.len() >= 4 && digit_is(chars[0]) && digit_is(chars[1]) && digit_is(chars[2])
        && digit_is(chars[3]) {
        assert(all_digits(date@.take(4)));
        assert(date@.take(4) =~= chars@.subrange(0, 4));
        text_between(&chars, 0, 4)
    } else {
        proof {
            if chars@.len() >= 4 && all_digits(date@.take(4)) {
                let start = date@.take(4);
                assert(start[0] == chars@[0] && start[1] == chars@[1] && start[2] == chars@[2]
                    && start[3] == chars@[3]);
            }
        }
        date.to_owned()
    }
}

/// The lengths of those tracks whose length is known, in nanoseconds and
/// together, unless that of none is.
pub open spec fn total_duration(tracks: Seq<TrackView>) -> Option<nat>
    decreases tracks.len(),
{
    if tracks.len() == 0 {
        None
    } else {
        let before = total_duration(tracks.drop_last());
        match tracks.last().duration {
            Some(duration) => match before {
                Some(total) => Some(total + duration),
                None => Some(duration),
            },
            None => before,
        }
    }
}

/// Whether the lengths of all tracks together can be told.
pub open spec fn duration_fits(tracks: Seq<TrackView>) -> bool {
    match total_duration(tracks) {
        Some(total) => total <= longest(),
        None => true,
    }
}

proof fn lemma_total_duration_grows(tracks: Seq<TrackView>, count: int)
    requires
        0 <= count <= tracks.len(),
    ensures
        total_duration(tracks.take(count)) matches Some(part) ==> (total_duration(
            tracks,
        ) matches Some(total) && part <= total),
    decreases tracks.len() - count,
{
    if count == tracks.len() {
        assert(tracks.take(count) =~= tracks);
    } else {
        lemma_total_duration_grows(tracks, count + 1);
        assert(tracks.take(count + 1).drop_last() =~= tracks.take(count));
    }
}

/// The length of an album, as far as that of its tracks is known, or an error
/// where it is longer than can be told.
pub fn checked_album_duration(tracks: &Vec<Track>) -> (total: Result<Option<Duration>, ()>)
    ensures
        match total {
            Ok(total) => total.deep_view() == total_duration(tracks.deep_view()) && duration_fits(
                tracks.deep_view(),
            ),
            Err(_) => !duration_fits(tracks.deep_view()),
        },
{
    let ghost views = tracks.deep_view();
    let mut sum = Duration::zero();
    let mut known = false;
    let mut next: usize = 0;
    assert(views.take(0) =~= Seq::empty());
    while next < tracks.len()
        invariant
            next <= tracks@.len(),
            views == tracks.deep_view(),
            total_duration(views.take(next as int)) == if known {
                Some(sum@)
            } else {
                None
            },
            !known ==> sum@ == 0,
            sum@ <= longest(),
        decreases tracks.len() - next,
    {
        assert(views.take(next + 1).drop_last() =~= views.take(next as int));
        proof {
            lemma_total_duration_grows(views, next + 1);
        }
        match tracks[next].duration {
            Some(duration) => {
                match sum.checked_add(duration) {
                    Some(longer) => {
                        sum = longer;
                        known = true;
                    },
                    None => {
                        return Err(());
                    },
                }
            },
            None => {},
        }
        next += 1;
    }
    assert(views.take(views.len() as int) =~= views);
    Ok(
        if known {
            Some(sum)
        } else {
            None
        },
    )
}

/// The length of an album, as far as that of its tracks is known.
pub fn album_duration(tracks: &Vec<Track>) -> (total: Option<Duration>)
    requires
        duration_fits(tracks.deep_view()),
    ensures
        total.deep_view() == total_duration(tracks.deep_view()),
{
    match checked_album_duration(tracks) {
        Ok(total) => total,
        Err(_) => None,
    }
}

/// `number` divided by `divisor` and rounded, a half to the even neighbour.
pub open spec fn half_even(number: nat, divisor: nat) -> nat {
    let quotient = number / divisor;
    let rest = number % divisor;
    if 2 * rest < divisor || (2 * rest == divisor && quotient % 2 == 0) {
        quotient
    } else {
        quotient + 1
    }
}

/// The distance of numbers of this size in double precision, at least one.
pub open spec fn double_unit(number: nat) -> nat
    decreases number,
{
    if number < 0x20_0000_0000_0000 {
        1
    } else {
        2 * double_unit(number / 2)
    }
}

/// The number of double precision that is nearest to a whole number.
pub open spec fn nearest_double(number: nat) -> nat {
    half_even(number, double_unit(number)) * double_unit(number)
}

/// The bytes of a MiB.
pub open spec fn mib() -> nat {
    1_048_576
}

/// A size as it is shown: in MiB with one decimal, computed in double
/// precision, or in whole KiB below one MiB.
pub open spec fn size_text(bytes: nat) -> Seq<char> {
    if bytes >= mib() {
        let tenths = half_even(10 * nearest_double(bytes), mib());
        decimal(tenths / 10) + "."@ + decimal(tenths % 10) + " MiB"@
    } else {
        decimal(bytes / 1024) + " KiB"@
    }
}

fn rounded(number: u128, divisor: u128) -> (result: u128)
    requires
        0 < divisor < 0x1_0000_0000_0000_0000,
        number < u128::MAX,
    ensures
        result == half_even(number as nat, divisor as nat),
{
    let quotient: u128 = number / divisor;
    let rest: u128 = number % divisor;
    proof {
        assert(number / divisor <= number) by (nonlinear_arith)
            requires
                divisor > 0,
        ;
    }
    if 2 * rest < divisor || (2 * rest == divisor && quotient % 2 == 0) {
        quotient
    } else {
        quotient + 1
    }
}

proof fn lemma_double_unit(number: nat)
    ensures
        1 <= double_unit(number),
        number < 0x20_0000_0000_0000 ==> double_unit(number) == 1,
        number >= 0x20_0000_0000_0000 ==> double_unit(number) <= number,
    decreases number,
{
    if number >= 0x20_0000_0000_0000 {
        lemma_double_unit(number / 2);
    }
}

fn unit_of(number: u64) -> (unit: u64)
    ensures
        unit == double_unit(number as nat),
    decreases number,
{
    if number < 0x20_0000_0000_0000 {
        1
    } else {
        proof {
            lemma_double_unit(number as nat / 2);
        }
        2 * unit_of(number / 2)
    }
}

/// `bytes` in MiB with one decimal, or in whole KiB below one MiB.
pub fn format_bytes(bytes: u64) -> (text: String)
    ensures
        text@ == size_text(bytes as nat),
{
    if bytes < 1_048_576 {
        let mut text = decimal_text(bytes / 1024);
        text.append(" KiB");
        return text;
    }
    proof {
        lemma_double_unit(bytes as nat);
    }
    let unit: u64 = unit_of(bytes);
    let steps: u128 = rounded(bytes as u128, unit as u128);
    proof {
        let b = bytes as int;
        let u = unit as int;
        assert(steps * u <= b + u) by (nonlinear_arith)
            requires
                steps <= b / u + 1,
                u > 0,
        ;
        assert(u <= b);
        assert(steps * unit <= 2 * bytes);
    }
    let double: u128 = steps * unit as u128;
    let tenths: u128 = rounded(10 * double, 1_048_576);
    assert(tenths <= 10 * double / 1_048_576 + 1);
    assert(tenths < 0x1_0000_0000_0000_0000);
    let tenths: u64 = tenths as u64;
    let mut text = decimal_text(tenths / 10);
    text.append(".");
    text.append(decimal_text(tenths % 10).as_str());
    text.append(" MiB");
    text
}

} // verus!
