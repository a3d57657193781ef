//! What is shown of texts, lengths, sizes and totals, said of the values.

use vstd::prelude::*;
use vstd::utf8::*;
use crate::albums::AlbumView;
use crate::browser::AppView;
use crate::editing_laws::albums_in_view;
use crate::format::{compacted, display_width, double_unit, half_even, header_path, header_name};
use crate::format::{kept_until, minutes, moving, nearest_double, release_year, size_text};
use crate::format::{total_duration, truncated, wrapped, wrapping};
use crate::library::{valid_release_date, TrackView};
use crate::path::{law_path_round_trip, law_route_wf, PathView, Route};
use crate::text::{all_digits, decimal, two_digits};
use crate::totals::{library_bytes, library_tracks, total_bytes};

verus! {

// ---------------------------------------------------------------------------
// Lengths and dates
// ---------------------------------------------------------------------------

/// A length is shown as minutes and seconds, each in at least two digits, of
/// which the seconds are below sixty. What is left of a second is not shown.
pub proof fn law_lengths_are_minutes_and_seconds(duration: nat)
    ensures
        exists|whole: nat, rest: nat|
            {
                &&& rest < 60
                &&& 1_000_000_000 * (60 * whole + rest) <= duration < 1_000_000_000 * (60 * whole
                    + rest + 1)
                &&& minutes(duration) == #[trigger] two_digits(whole) + ":"@
                    + #[trigger] two_digits(rest)
            },
{
    let seconds: nat = duration / 1_000_000_000;
    let whole: nat = seconds / 60;
    let rest: nat = seconds % 60;
    assert(seconds == 60 * whole + rest);
    assert(minutes(duration) == two_digits(whole) + ":"@ + two_digits(rest));
}

/// The year of a release date is its first four characters, whether it is a
/// year, a month or a day. A text that starts otherwise is shown whole.
pub proof fn law_years_are_shown(date: Seq<char>)
    ensures
        valid_release_date(date) ==> release_year(date).len() == 4 && forall|i: int|
            0 <= i < 4 ==> #[trigger] release_year(date)[i] == date[i],
        date.len() < 4 ==> release_year(date) == date,
        date.len() >= 4 && !all_digits(date.take(4)) ==> release_year(date) == date,
{
    if valid_release_date(date) {
        assert(date.take(4) =~= date.subrange(0, 4));
    }
}

/// The lengths of tracks add up: of two lists together the length is the sum of
/// the two that are known, and one track has its own.
pub proof fn law_lengths_add_up(left: Seq<TrackView>, right: Seq<TrackView>, track: TrackView)
    ensures
        total_duration(left + right) == (match (total_duration(left), total_duration(right)) {
            (Some(one), Some(other)) => Some(one + other),
            (Some(one), None) => Some(one),
            (None, Some(other)) => Some(other),
            (None, None) => None,
        }),
        total_duration(seq![track]) == track.duration,
        total_duration(Seq::empty()) is None,
    decreases right.len(),
{
    reveal_with_fuel(total_duration, 2);
    assert(seq![track].drop_last() =~= Seq::empty());
    if right.len() == 0 {
        assert(left + right =~= left);
    } else {
        law_lengths_add_up(left, right.drop_last(), track);
        assert((left + right).drop_last() =~= left + right.drop_last());
        assert((left + right).last() == right.last());
    }
}

// ---------------------------------------------------------------------------
// Sizes
// ---------------------------------------------------------------------------

/// A rounded quotient is the nearest whole number, and of two as near the even
/// one.
pub proof fn law_rounding_is_to_the_nearest(number: nat, divisor: nat)
    requires
        divisor > 0,
    ensures
        2 * (half_even(number, divisor) * divisor - number) <= divisor,
        2 * (number - half_even(number, divisor) * divisor) <= divisor,
        2 * (half_even(number, divisor) * divisor - number) == divisor || 2 * (number - half_even(
            number,
            divisor,
        ) * divisor) == divisor ==> half_even(number, divisor) % 2 == 0,
{
    let quotient = number / divisor;
    let rest = number % divisor;
    vstd::arithmetic::div_mod::lemma_fundamental_div_mod(number as int, divisor as int);
    vstd::arithmetic::div_mod::lemma_mod_bound(number as int, divisor as int);
    assert(quotient * divisor == divisor * quotient) by (nonlinear_arith);
    assert((quotient + 1) * divisor == divisor * quotient + divisor) by (nonlinear_arith);
}

/// A size below one MiB is shown in the KiB that it fills. A size from there on
/// is shown in MiB with one decimal: the nearest tenth, of two as near the even
/// one. This is said of the sizes below 2^53, which double precision holds
/// exactly.
pub proof fn law_sizes_are_shown_to_a_tenth(bytes: nat)
    requires
        bytes < 0x20_0000_0000_0000,
    ensures
        bytes < 1_048_576 ==> exists|kib: nat|
            1024 * kib <= bytes < 1024 * (kib + 1) && size_text(bytes) == #[trigger] decimal(kib)
                + " KiB"@,
        bytes >= 1_048_576 ==> exists|whole: nat, tenth: nat|
            {
                let shown = 1_048_576 * (10 * whole + tenth);
                &&& tenth < 10
                &&& -1_048_576 <= 2 * (10 * bytes - shown) <= 1_048_576
                &&& 2 * (10 * bytes - shown) == 1_048_576 || 2 * (10 * bytes - shown) == -1_048_576
                    ==> tenth % 2 == 0
                &&& size_text(bytes) == #[trigger] decimal(whole) + "."@ + #[trigger] decimal(tenth)
                    + " MiB"@
            },
{
    assert(double_unit(bytes) == 1);
    assert(half_even(bytes, 1) == bytes);
    assert(nearest_double(bytes) == bytes);
    if bytes < 1_048_576 {
        let kib: nat = bytes / 1024;
        assert(size_text(bytes) == decimal(kib) + " KiB"@);
    } else {
        let tenths = half_even(10 * bytes, 1_048_576);
        law_rounding_is_to_the_nearest(10 * bytes, 1_048_576);
        let whole: nat = tenths / 10;
        let tenth: nat = tenths % 10;
        assert(tenths == 10 * whole + tenth);
        assert(size_text(bytes) == decimal(whole) + "."@ + decimal(tenth) + " MiB"@);
    }
}

proof fn lemma_double_unit(number: nat)
    ensures
        double_unit(number) >= 1,
        number >= 0x20_0000_0000_0000 ==> 0x10_0000_0000_0000 * double_unit(number) <= number
            < 0x20_0000_0000_0000 * double_unit(number),
        number < 0x20_0000_0000_0000 ==> double_unit(number) == 1,
    decreases number,
{
    if number >= 0x20_0000_0000_0000 {
        lemma_double_unit(number / 2);
    }
}

/// A number that double precision cannot hold is taken to the nearest that it
/// can, with fifty-three binary digits.
pub proof fn law_doubles_are_near(number: nat)
    ensures
        number < 0x20_0000_0000_0000 ==> nearest_double(number) == number,
        number >= 0x20_0000_0000_0000 ==> exists|unit: nat|
            {
                &&& #[trigger] (0x10_0000_0000_0000 * unit) <= number < 0x20_0000_0000_0000 * unit
                &&& nearest_double(number) % unit == 0
                &&& -unit <= 2 * (nearest_double(number) - number) <= unit
            },
{
    let unit = double_unit(number);
    lemma_double_unit(number);
    law_rounding_is_to_the_nearest(number, unit);
    let times = half_even(number, unit);
    vstd::arithmetic::div_mod::lemma_mod_multiples_basic(times as int, unit as int);
    if number < 0x20_0000_0000_0000 {
        assert(half_even(number, 1) == number);
    } else {
        assert(0x10_0000_0000_0000 * unit <= number);
    }
}

// ---------------------------------------------------------------------------
// Totals
// ---------------------------------------------------------------------------

/// Bytes, tracks and albums add up: the totals of two lists together are the
/// sums of theirs.
pub proof fn law_totals_add_up(
    app: AppView,
    tracks: Seq<TrackView>,
    more: Seq<TrackView>,
    left: Seq<AlbumView>,
    right: Seq<AlbumView>,
)
    ensures
        total_bytes(tracks + more) == total_bytes(tracks) + total_bytes(more),
        library_tracks(left + right) == library_tracks(left) + library_tracks(right),
        library_bytes(left + right) == library_bytes(left) + library_bytes(right),
        app.shown_totals(left + right).albums == app.shown_totals(left).albums + app.shown_totals(
            right,
        ).albums,
        app.shown_totals(left + right).tracks == app.shown_totals(left).tracks + app.shown_totals(
            right,
        ).tracks,
        app.shown_totals(left + right).bytes == app.shown_totals(left).bytes + app.shown_totals(
            right,
        ).bytes,
    decreases more.len() + right.len(),
{
    if more.len() == 0 {
        assert(tracks + more =~= tracks);
    } else {
        law_totals_add_up(app, tracks, more.drop_last(), left, right);
        assert((tracks + more).drop_last() =~= tracks + more.drop_last());
        assert((tracks + more).last() == more.last());
    }
    if right.len() == 0 {
        assert(left + right =~= left);
    } else {
        law_totals_add_up(app, tracks, more, left, right.drop_last());
        assert((left + right).drop_last() =~= left + right.drop_last());
        assert((left + right).last() == right.last());
    }
}

/// A track counts with its bytes. An album counts with its tracks; of what is
/// shown, an album that is counts with those of its tracks that pass the filter,
/// and one that is not does not count. The totals of what is shown are those of
/// the view that is open.
pub proof fn law_totals_of_one(app: AppView, track: TrackView, album: AlbumView)
    ensures
        total_bytes(seq![track]) == track.bytes,
        library_tracks(seq![album]) == album.tracks.len(),
        library_bytes(seq![album]) == total_bytes(album.tracks),
        ({
            let shown = app.shown_totals(seq![album]);
            let own = album.tracks.filter(|track: TrackView| app.track_shown(track));
            if app.album_shown(album) {
                shown.albums == 1 && shown.tracks == own.len() && shown.bytes == total_bytes(own)
            } else {
                shown.albums == 0 && shown.tracks == 0 && shown.bytes == 0
            }
        }),
        app.visible_totals() == app.shown_totals(albums_in_view(app)),
{
    reveal_with_fuel(total_bytes, 2);
    reveal_with_fuel(library_tracks, 2);
    reveal_with_fuel(library_bytes, 2);
    reveal_with_fuel(AppView::shown_totals, 2);
    assert(seq![track].drop_last() =~= Seq::empty());
    assert(seq![album].drop_last() =~= Seq::empty());
    lemma_shown_tracks(app, album.tracks);
}

proof fn lemma_shown_tracks(app: AppView, tracks: Seq<TrackView>)
    ensures
        app.shown_tracks(tracks) == tracks.filter(|track: TrackView| app.track_shown(track)),
    decreases tracks.len(),
{
    reveal(Seq::filter);
    if tracks.len() > 0 {
        lemma_shown_tracks(app, tracks.drop_last());
    } else {
        assert(tracks.filter(|track: TrackView| app.track_shown(track)) =~= Seq::empty());
    }
}

// ---------------------------------------------------------------------------
// Cutting and laying out
// ---------------------------------------------------------------------------

proof fn lemma_kept(text: Seq<char>, width: int, from: int)
    requires
        0 <= from <= text.len(),
    ensures
        ({
            let count = kept_until(text, width, from);
            &&& from <= count <= text.len()
            &&& forall|i: int|
                from <= i < count ==> display_width(#[trigger] text.take(i)) + display_width(
                    seq![text[i]],
                ) + 1 <= width
            &&& count < text.len() ==> display_width(text.take(count)) + display_width(
                seq![text[count]],
            ) + 1 > width
        }),
    decreases text.len() - from,
{
    if from < text.len() && display_width(text.take(from)) + display_width(seq![text[from]]) + 1
        <= width {
        lemma_kept(text, width, from + 1);
    }
}

/// A text that is too wide is cut before the first character that would leave
/// no column for the `…` that follows; all before it is kept.
pub proof fn law_cut_texts_keep_what_fits(text: Seq<char>, width: int)
    requires
        display_width(text) > width,
        width >= 1,
    ensures
        exists|count: int|
            {
                &&& 0 <= count <= text.len()
                &&& truncated(text, width) == #[trigger] text.take(count) + "…"@
                &&& width > 1 ==> forall|i: int|
                    0 <= i < count ==> display_width(#[trigger] text.take(i)) + display_width(
                        seq![text[i]],
                    ) + 1 <= width
                &&& width > 1 && count < text.len() ==> display_width(text.take(count))
                    + display_width(seq![text[count]]) + 1 > width
                &&& width == 1 ==> count == 0
            },
{
    if width == 1 {
        assert(text.take(0) + "…"@ =~= "…"@);
    } else {
        lemma_kept(text, width, 0);
        let count = kept_until(text, width, 0);
        assert(truncated(text, width) == text.take(count) + "…"@);
    }
}

/// A token goes behind the last line, after a dot, where it fits there, and else
/// on a line of its own. The lines before stay as they are.
pub proof fn law_tokens_fill_lines(tokens: Seq<Seq<char>>, next: Seq<char>, width: int)
    requires
        width > 0,
        wrapped(tokens, width).len() > 0,
        forall|i: int| 0 <= i < tokens.len() ==> (#[trigger] truncated(tokens[i], width)).len() > 0,
        truncated(next, width).len() > 0,
    ensures
        ({
            let lines = wrapped(tokens, width);
            let token = truncated(next, width);
            let longer = lines.last() + " · "@ + token;
            wrapped(tokens.push(next), width) == if display_width(longer) <= width {
                lines.drop_last().push(longer)
            } else {
                lines.push(token)
            }
        }),
{
    let all = wrapping(tokens, width);
    assert(tokens.push(next).drop_last() =~= tokens);
    lemma_line_open(tokens, width);
    let lines = wrapped(tokens, width);
    assert(lines == all.lines.push(all.current));
    assert(lines.drop_last() =~= all.lines);
    let token = truncated(next, width);
    let longer = lines.last() + " · "@ + token;
    assert(longer.len() >= token.len());
    let after = wrapping(tokens.push(next), width);
    if display_width(longer) <= width {
        assert(after.current == longer && after.lines == all.lines);
        assert(wrapped(tokens.push(next), width) =~= lines.drop_last().push(longer));
    } else {
        assert(wrapped(tokens.push(next), width) =~= lines.push(token));
    }
}

proof fn lemma_line_open(tokens: Seq<Seq<char>>, width: int)
    requires
        forall|i: int| 0 <= i < tokens.len() ==> (#[trigger] truncated(tokens[i], width)).len() > 0,
    ensures
        tokens.len() > 0 ==> wrapping(tokens, width).current.len() > 0,
        tokens.len() == 0 ==> wrapping(tokens, width).lines.len() == 0 && wrapping(
            tokens,
            width,
        ).current.len() == 0,
{
    if tokens.len() > 0 {
        let last = tokens.len() - 1;
        assert(truncated(tokens[last], width).len() > 0);
    }
}

/// One token is one line, and no token is none.
pub proof fn law_one_token_is_one_line(token: Seq<char>, width: int)
    requires
        width > 0,
        truncated(token, width).len() > 0,
    ensures
        wrapped(seq![token], width) == seq![truncated(token, width)],
        wrapped(Seq::empty(), width).len() == 0,
{
    reveal_with_fuel(wrapping, 2);
    assert(seq![token].drop_last() =~= Seq::empty());
    assert(wrapped(seq![token], width) =~= seq![truncated(token, width)]);
}

/// A moving title enters on the left: after a number of steps its last character
/// has come that many columns far and the others stand before it, as far as they
/// are in the columns. All other columns are blank.
pub proof fn law_marquee_enters_on_the_left(title: Seq<char>, width: nat, step: int, column: int)
    requires
        0 <= step < title.len() + width,
        0 <= column < width,
    ensures
        moving(title, width, step).len() == width,
        column >= step ==> moving(title, width, step)[column] == ' ',
        step - title.len() <= column < step ==> moving(title, width, step)[column] == title[column
            - (step - title.len())],
        column < step - title.len() ==> moving(title, width, step)[column] == ' ',
{
    vstd::arithmetic::div_mod::lemma_small_mod(step as nat, (title.len() + width) as nat);
}

// ---------------------------------------------------------------------------
// Paths
// ---------------------------------------------------------------------------

/// A path of at most five components, of which the root is one, is shown as it
/// is written. Of a longer one the first three and the last two are shown, with
/// `…` between them.
pub proof fn law_long_paths_are_compacted(path: PathView)
    ensures
        ({
            let route = path.route();
            let root: int = if route.absolute {
                1
            } else {
                0
            };
            let count = route.parts.len() as int;
            &&& root + count <= 5 ==> compacted(path) == path
            &&& root + count > 5 ==> compacted(path).route() == (Route {
                absolute: route.absolute,
                parts: route.parts.take(3 - root) + seq![encode_utf8("…"@)] + route.parts.skip(
                    count - 2,
                ),
            })
        }),
{
    let route = path.route();
    let root: int = if route.absolute {
        1
    } else {
        0
    };
    let count = route.parts.len() as int;
    if root + count > 5 {
        law_route_wf(path);
        let mark = encode_utf8("…"@);
        let parts = route.parts.take(3 - root) + seq![mark] + route.parts.skip(count - 2);
        let short = Route { absolute: route.absolute, parts };
        lemma_mark();
        assert forall|i: int| 0 <= i < parts.len() implies {
            &&& #[trigger] parts[i].len() > 0
            &&& !parts[i].contains(crate::path::separator())
            &&& parts[i] == crate::path::dot() ==> i == 0 && !route.absolute
        } by {
            if i < 3 - root {
                assert(parts[i] == route.parts[i]);
            } else if i > 3 - root {
                assert(parts[i] == route.parts[count - 2 + (i - (3 - root) - 1)]);
            }
        }
        assert(short.wf());
        law_path_round_trip(short);
    }
}

proof fn lemma_mark()
    ensures
        encode_utf8("…"@).len() > 1,
        !encode_utf8("…"@).contains(crate::path::separator()),
{
    reveal_strlit("…");
    let text = "…"@;
    assert(text =~= seq!['…']);
    assert(text.len() == 1);
    crate::preview::lemma_encoding_lacks(text, crate::path::separator());
    reveal_with_fuel(encode_utf8, 2);
    assert(text.drop_first() =~= Seq::empty());
    assert(encode_scalar('…' as u32).len() == 3);
}

/// The header shows the short form of a path where it fits, and else its name
/// behind `…/`, cut to the columns there are.
pub proof fn law_header_path_falls_back_to_the_name(path: PathView, width: int)
    ensures
        display_width(compacted(path).shown()) <= width ==> header_path(path, width) == compacted(
            path,
        ).shown(),
        display_width(compacted(path).shown()) > width ==> header_path(path, width) == truncated(
            "…/"@ + header_name(path),
            width,
        ),
        path.file_name_text() is Some ==> header_name(path) == path.file_name_text()->0,
{
}

} // verus!
