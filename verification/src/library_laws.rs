//! What the rules of a library mean: artist credits, release dates, excluded
//! folders, and what a tag says of a track.

use vstd::prelude::*;
use vstd::utf8::*;
use crate::library::{before_marker, days_in_month, described_track, edited_texts};
use crate::library::{excluded_folders, exclusion_path, feature_markers, is_audio, is_below_any};
use crate::library::{lines, main_artist, readable, valid_release_date, TagField};
use crate::path::{lower_bytes, written, PathView};
use crate::text::{all_digits, ascii_lowercase, contains_text, digits_value, find, is_digit};
use crate::text::{occurs_at, trimmed};
use crate::text_laws::law_first_place_is_found;

verus! {

// ---------------------------------------------------------------------------
// Artist credits
// ---------------------------------------------------------------------------

proof fn lemma_skipped_markers(credit: Seq<char>, next: int, marker: int)
    requires
        0 <= next <= marker < feature_markers().len(),
        forall|k: int|
            0 <= k < marker ==> find(
                ascii_lowercase(credit),
                #[trigger] feature_markers()[k],
            ) is None,
    ensures
        before_marker(credit, next) == before_marker(credit, marker),
    decreases marker - next,
{
    if next < marker {
        assert(find(ascii_lowercase(credit), feature_markers()[next]) is None);
        lemma_skipped_markers(credit, next + 1, marker);
    }
}

/// The main artist of a credit is what stands before the first place of the
/// first marker that the credit holds, in any case of its letters. The markers
/// are looked for in this order: `featuring`, `feat.`, `feat`, `ft.`, `ft`, `&`
/// and `;`.
pub proof fn law_main_artist_stands_before_the_marker(credit: Seq<char>, marker: int, place: int)
    requires
        ({
            let markers = seq![
                " featuring "@,
                " feat. "@,
                " feat "@,
                " ft. "@,
                " ft "@,
                " & "@,
                "; "@,
            ];
            let text = ascii_lowercase(trimmed(credit));
            let size = markers[marker].len() as int;
            &&& 0 <= marker < 7
            &&& forall|k: int| 0 <= k < marker ==> !contains_text(text, #[trigger] markers[k])
            &&& 0 <= place <= text.len() - size
            &&& text.subrange(place, place + size) == markers[marker]
            &&& forall|other: int|
                0 <= other < place ==> #[trigger] text.subrange(other, other + size)
                    != markers[marker]
        }),
    ensures
        main_artist(Some(credit)) == trimmed(trimmed(credit).take(place)),
{
    let markers = seq![" featuring "@, " feat. "@, " feat "@, " ft. "@, " ft "@, " & "@, "; "@];
    let text = ascii_lowercase(trimmed(credit));
    assert(markers =~= feature_markers());
    assert forall|k: int| 0 <= k < marker implies find(
        text,
        #[trigger] feature_markers()[k],
    ) is None by {
        crate::text::lemma_find_from(text, markers[k], 0);
        if let Some(at) = find(text, markers[k]) {
            assert(occurs_at(text, markers[k], at));
            assert(contains_text(text, markers[k]));
        }
    }
    lemma_skipped_markers(trimmed(credit), 0, marker);
    law_first_place_is_found(text, markers[marker], place);
}

/// A credit without any of the markers is the main artist itself, and where
/// there is no credit the artist is unknown.
pub proof fn law_main_artist_without_marker(credit: Seq<char>)
    requires
        ({
            let text = ascii_lowercase(trimmed(credit));
            &&& !contains_text(text, " featuring "@)
            &&& !contains_text(text, " feat. "@)
            &&& !contains_text(text, " feat "@)
            &&& !contains_text(text, " ft. "@)
            &&& !contains_text(text, " ft "@)
            &&& !contains_text(text, " & "@)
            &&& !contains_text(text, "; "@)
        }),
    ensures
        main_artist(Some(credit)) == trimmed(credit),
        main_artist(None) == main_artist(Some("Unknown artist"@)),
{
    crate::library::law_single_artist_is_kept(credit);
}

// ---------------------------------------------------------------------------
// Release dates
// ---------------------------------------------------------------------------

/// Whether a year has a 29th of February.
pub open spec fn is_leap_year(year: int) -> bool {
    year % 400 == 0 || (year % 4 == 0 && year % 100 != 0)
}

/// The months have the days of the calendar.
pub proof fn law_months_have_their_days(year: nat)
    ensures
        days_in_month(year, 1) == 31,
        days_in_month(year, 2) == 28 + (if is_leap_year(year as int) {
            1int
        } else {
            0
        }),
        days_in_month(year, 3) == 31,
        days_in_month(year, 4) == 30,
        days_in_month(year, 5) == 31,
        days_in_month(year, 6) == 30,
        days_in_month(year, 7) == 31,
        days_in_month(year, 8) == 31,
        days_in_month(year, 9) == 30,
        days_in_month(year, 10) == 31,
        days_in_month(year, 11) == 30,
        days_in_month(year, 12) == 31,
{
}

/// The months of a year together have 365 days, and 366 in a leap year.
pub proof fn law_years_have_their_days(year: nat)
    ensures
        days_in_month(year, 1) + days_in_month(year, 2) + days_in_month(year, 3) + days_in_month(
            year,
            4,
        ) + days_in_month(year, 5) + days_in_month(year, 6) + days_in_month(year, 7)
            + days_in_month(year, 8) + days_in_month(year, 9) + days_in_month(year, 10)
            + days_in_month(year, 11) + days_in_month(year, 12) == (if is_leap_year(year as int) {
            366int
        } else {
            365
        }),
{
}

/// The number that a digit stands for.
pub open spec fn worth(c: char) -> int {
    c as int - '0' as int
}

/// Whether the characters of a text between two places are digits.
pub open spec fn digits_stand(text: Seq<char>, from: int, to: int) -> bool {
    forall|i: int| from <= i < to ==> '0' <= #[trigger] text[i] <= '9'
}

proof fn lemma_two_digit_value(run: Seq<char>)
    requires
        run.len() == 2,
        all_digits(run),
    ensures
        digits_value(run) == 10 * worth(run[0]) + worth(run[1]),
{
    assert(is_digit(run[0]) && is_digit(run[1]));
    reveal_with_fuel(digits_value, 3);
    assert(run.drop_last().drop_last() =~= Seq::empty());
}

proof fn lemma_four_digit_value(run: Seq<char>)
    requires
        run.len() == 4,
        all_digits(run),
    ensures
        digits_value(run) == 1000 * worth(run[0]) + 100 * worth(run[1]) + 10 * worth(run[2])
            + worth(run[3]),
{
    assert(is_digit(run[0]) && is_digit(run[1]) && is_digit(run[2]) && is_digit(run[3]));
    reveal_with_fuel(digits_value, 5);
    let three = run.drop_last();
    let two = three.drop_last();
    assert(two.drop_last().drop_last() =~= Seq::empty());
    assert(two.last() == run[1]);
    assert(two.drop_last().last() == run[0]);
}

proof fn lemma_digits_between(text: Seq<char>, from: int, to: int)
    requires
        0 <= from <= to <= text.len(),
    ensures
        all_digits(text.subrange(from, to)) <==> digits_stand(text, from, to),
{
    let run = text.subrange(from, to);
    if all_digits(run) {
        assert forall|i: int| from <= i < to implies '0' <= #[trigger] text[i] <= '9' by {
            assert(run[i - from] == text[i]);
            assert(is_digit(run[i - from]));
        }
    }
    if digits_stand(text, from, to) {
        assert forall|i: int| 0 <= i < run.len() implies is_digit(#[trigger] run[i]) by {
            assert(run[i] == text[i + from]);
        }
    }
}

/// A release date is a year of four digits; or such a year, a dash and a month
/// from 1 to 12 in two digits; or these, a dash and a day of that month in two
/// digits. Nothing else is one.
pub proof fn law_release_dates_are_of_the_calendar(date: Seq<char>)
    ensures
        date.len() != 4 && date.len() != 7 && date.len() != 10 ==> !valid_release_date(date),
        date.len() == 4 ==> (valid_release_date(date) <==> digits_stand(date, 0, 4)),
        date.len() == 7 ==> (valid_release_date(date) <==> digits_stand(date, 0, 4) && date[4]
            == '-' && digits_stand(date, 5, 7) && 1 <= 10 * worth(date[5]) + worth(date[6]) <= 12),
        date.len() == 10 ==> ({
            let year = 1000 * worth(date[0]) + 100 * worth(date[1]) + 10 * worth(date[2]) + worth(
                date[3],
            );
            let month = 10 * worth(date[5]) + worth(date[6]);
            let day = 10 * worth(date[8]) + worth(date[9]);
            valid_release_date(date) <==> {
                &&& digits_stand(date, 0, 4)
                &&& date[4] == '-'
                &&& digits_stand(date, 5, 7)
                &&& date[7] == '-'
                &&& digits_stand(date, 8, 10)
                &&& 1 <= day
                &&& {
                    ||| (month == 1 || month == 3 || month == 5 || month == 7 || month == 8
                        || month == 10 || month == 12) && day <= 31
                    ||| (month == 4 || month == 6 || month == 9 || month == 11) && day <= 30
                    ||| month == 2 && day <= 28
                    ||| month == 2 && day == 29 && is_leap_year(year)
                }
            }
        }),
{
    if date.len() >= 4 {
        lemma_digits_between(date, 0, 4);
        if all_digits(date.subrange(0, 4)) {
            lemma_four_digit_value(date.subrange(0, 4));
        }
    }
    if date.len() >= 7 {
        lemma_digits_between(date, 5, 7);
        if all_digits(date.subrange(5, 7)) {
            lemma_two_digit_value(date.subrange(5, 7));
        }
    }
    if date.len() == 10 {
        lemma_digits_between(date, 8, 10);
        if all_digits(date.subrange(8, 10)) {
            lemma_two_digit_value(date.subrange(8, 10));
        }
    }
}

// ---------------------------------------------------------------------------
// Scanning
// ---------------------------------------------------------------------------

/// The files of a library are those with one of these extensions, whatever the
/// case of its letters.
pub proof fn law_audio_files_by_extension(path: PathView)
    ensures
        is_audio(path) <==> path.extension() is Some && ({
            let extension = lower_bytes(path.extension()->0);
            ||| extension == encode_utf8("mp3"@)
            ||| extension == encode_utf8("m4a"@)
            ||| extension == encode_utf8("mp4"@)
            ||| extension == encode_utf8("aac"@)
            ||| extension == encode_utf8("flac"@)
            ||| extension == encode_utf8("wav"@)
            ||| extension == encode_utf8("ogg"@)
            ||| extension == encode_utf8("opus"@)
        }),
{
    let known = crate::library::audio_extensions();
    assert(known[0] == "mp3"@ && known[1] == "m4a"@ && known[2] == "mp4"@ && known[3] == "aac"@);
    assert(known[4] == "flac"@ && known[5] == "wav"@ && known[6] == "ogg"@ && known[7] == "opus"@);
}

/// What a scan keeps are the tracks that could be read, in the order in which
/// they were read.
pub proof fn law_readable_tracks_are_kept<T>(results: Seq<Option<T>>)
    ensures
        readable(results) == results.filter_map(|result: Option<T>| result),
    decreases results.len(),
{
    let same = |result: Option<T>| result;
    if results.len() > 0 {
        law_readable_tracks_are_kept(results.drop_last());
        assert(readable(results) =~= results.filter_map(same));
    }
}

/// A text without a line end is one line.
pub proof fn law_one_line(text: Seq<char>)
    requires
        !text.contains('\n'),
    ensures
        lines(text) == seq![text],
    decreases text.len(),
{
    if text.len() > 0 {
        assert(text.last() == text[text.len() - 1]);
        assert forall|i: int| 0 <= i < text.len() - 1 implies text.drop_last()[i] != '\n' by {
            assert(text.drop_last()[i] == text[i]);
        }
        law_one_line(text.drop_last());
        assert(text.drop_last().push(text.last()) =~= text);
        assert(lines(text) =~= seq![text]);
    } else {
        assert(text =~= Seq::empty());
    }
}

/// A line end parts a text into the lines before it and the lines behind it.
pub proof fn law_line_ends_part_a_text(before: Seq<char>, after: Seq<char>)
    ensures
        lines(before.push('\n') + after) == lines(before) + lines(after),
        lines(after).len() > 0,
    decreases after.len(),
{
    let whole = before.push('\n') + after;
    if after.len() == 0 {
        assert(whole =~= before.push('\n'));
        assert(whole.drop_last() =~= before);
        assert(lines(whole) =~= lines(before) + lines(after));
    } else {
        let shorter = after.drop_last();
        law_line_ends_part_a_text(before, shorter);
        assert(whole.drop_last() =~= before.push('\n') + shorter);
        assert(whole.last() == after.last());
        let left = lines(before);
        let right = lines(shorter);
        assert((left + right).last() == right.last());
        assert((left + right).drop_last() =~= left + right.drop_last());
        assert(lines(whole) =~= left + lines(after));
    }
}

/// A folder is excluded because a line names it, and every line that is neither
/// blank nor a comment names one: the folder that it gives, seen from the root
/// of the library, whatever white space stands around it.
pub proof fn law_lines_name_excluded_folders(
    root: PathView,
    list: Seq<Seq<char>>,
    folder: PathView,
)
    ensures
        excluded_folders(root, list).contains(folder) <==> exists|i: int|
            {
                let line = trimmed(#[trigger] list[i]);
                0 <= i < list.len() && line.len() > 0 && line[0] != '#' && folder == root.join(
                    written(encode_utf8(line)),
                )
            },
    decreases list.len(),
{
    if list.len() > 0 {
        let shorter = list.drop_last();
        law_lines_name_excluded_folders(root, shorter, folder);
        let before = excluded_folders(root, shorter);
        let after = excluded_folders(root, list);
        let line = trimmed(list.last());
        if before.contains(folder) {
            let i = choose|i: int|
                {
                    let line = trimmed(#[trigger] shorter[i]);
                    0 <= i < shorter.len() && line.len() > 0 && line[0] != '#' && folder
                        == root.join(written(encode_utf8(line)))
                };
            assert(list[i] == shorter[i]);
            let k = choose|k: int| 0 <= k < before.len() && before[k] == folder;
            assert(after[k] == folder);
        }
        if after.contains(folder) && !before.contains(folder) {
            let k = choose|k: int| 0 <= k < after.len() && after[k] == folder;
            if k < before.len() {
                assert(before[k] == folder);
            }
            assert(list[list.len() - 1] == list.last());
        }
        if exists|i: int|
            {
                let line = trimmed(#[trigger] list[i]);
                0 <= i < list.len() && line.len() > 0 && line[0] != '#' && folder == root.join(
                    written(encode_utf8(line)),
                )
            } {
            let i = choose|i: int|
                {
                    let line = trimmed(#[trigger] list[i]);
                    0 <= i < list.len() && line.len() > 0 && line[0] != '#' && folder == root.join(
                        written(encode_utf8(line)),
                    )
                };
            if i < shorter.len() {
                assert(shorter[i] == list[i]);
            } else {
                assert(after[after.len() - 1] == folder);
            }
        }
    }
}

/// A file is left out where one of the excluded folders, absolute or not as the
/// file is, is a folder above it or the file itself: its parts start those of the
/// file. It is left out nowhere else.
pub proof fn law_excluded_files_lie_below(path: PathView, folders: Seq<PathView>)
    ensures
        forall|i: int|
            0 <= i < folders.len() && (#[trigger] folders[i]).route().absolute
                == path.route().absolute && folders[i].route().parts.is_prefix_of(
                path.route().parts,
            ) ==> is_below_any(path, folders),
        (forall|i: int|
            0 <= i < folders.len() ==> !(#[trigger] folders[i]).route().parts.is_prefix_of(
                path.route().parts,
            )) ==> !is_below_any(path, folders),
{
    let all = path.route().parts;
    assert forall|i: int| 0 <= i < folders.len() implies (path.starts_with(#[trigger] folders[i])
        ==> folders[i].route().parts.is_prefix_of(all)) && (folders[i].route().absolute
        == path.route().absolute && folders[i].route().parts.is_prefix_of(all)
        ==> path.starts_with(folders[i])) by {
        let given = folders[i].route().parts;
        if given.len() <= all.len() {
            assert(all.take(given.len() as int) =~= all.subrange(0, given.len() as int));
        }
    }
}

// ---------------------------------------------------------------------------
// Tags
// ---------------------------------------------------------------------------

/// What a tag says of a track is what the track has: its title, artist, album,
/// and album artist unless that is blank; the recording date before the year;
/// and the number, if it is one.
pub proof fn law_a_tag_describes_its_track(
    path: PathView,
    texts: Map<TagField, Seq<char>>,
    duration: nat,
    bytes: u64,
)
    ensures
        ({
            let track = described_track(path, texts, duration, bytes);
            &&& track.path == path && track.duration == Some(duration) && track.bytes == bytes
            &&& texts.contains_key(TagField::Title) ==> track.title == texts[TagField::Title]
            &&& texts.contains_key(TagField::Artist) ==> track.artist == texts[TagField::Artist]
            &&& texts.contains_key(TagField::Album) ==> track.album == texts[TagField::Album]
            &&& texts.contains_key(TagField::AlbumArtist) && trimmed(
                texts[TagField::AlbumArtist],
            ).len() > 0 ==> track.album_artist == texts[TagField::AlbumArtist]
            &&& texts.contains_key(TagField::RecordingDate) ==> track.release_date == Some(
                texts[TagField::RecordingDate],
            )
            &&& !texts.contains_key(TagField::RecordingDate) && texts.contains_key(TagField::Year)
                ==> track.release_date == Some(texts[TagField::Year])
            &&& texts.contains_key(TagField::TrackNumber) ==> track.track_number
                == crate::text::parsed_u32(texts[TagField::TrackNumber])
        }),
{
}

/// What a tag does not say is filled in: the title by the stem of the file name,
/// the album artist by the main artist of the credit, the artist and the album
/// as unknown. A date or a number that is missing stays missing.
pub proof fn law_what_a_tag_leaves_out(
    path: PathView,
    texts: Map<TagField, Seq<char>>,
    duration: nat,
    bytes: u64,
)
    ensures
        ({
            let track = described_track(path, texts, duration, bytes);
            &&& !texts.contains_key(TagField::Title) && path.stem_text() is Some ==> track.title
                == path.stem_text()->0
            &&& !texts.contains_key(TagField::Title) && path.stem_text() is None ==> track.title
                == "Untitled"@
            &&& !texts.contains_key(TagField::Artist) ==> track.artist == "Unknown artist"@
            &&& !texts.contains_key(TagField::Album) ==> track.album == "Unknown album"@
            &&& !texts.contains_key(TagField::AlbumArtist) || trimmed(
                texts[TagField::AlbumArtist],
            ).len() == 0 ==> track.album_artist == main_artist(
                if texts.contains_key(TagField::Artist) {
                    Some(texts[TagField::Artist])
                } else {
                    None
                },
            )
            &&& !texts.contains_key(TagField::RecordingDate) && !texts.contains_key(TagField::Year)
                ==> track.release_date is None
            &&& !texts.contains_key(TagField::TrackNumber) ==> track.track_number is None
        }),
{
}

/// An edit writes the texts it is given into a tag that can hold them, and a
/// release date without the white space around it, in place of any date or year
/// there was. A blank release date leaves none. All other texts stay.
pub proof fn law_an_edit_writes_its_texts(
    texts: Map<TagField, Seq<char>>,
    keeps: Set<TagField>,
    title: Option<Seq<char>>,
    artist: Option<Seq<char>>,
    album_artist: Option<Seq<char>>,
    album: Seq<char>,
    release_date: Seq<char>,
)
    ensures
        ({
            let after = edited_texts(texts, keeps, title, artist, album_artist, album, release_date);
            let number = TagField::TrackNumber;
            &&& title is Some && keeps.contains(TagField::Title) ==> after.contains_key(
                TagField::Title,
            ) && after[TagField::Title] == title->0
            &&& artist is Some && keeps.contains(TagField::Artist) ==> after.contains_key(
                TagField::Artist,
            ) && after[TagField::Artist] == artist->0
            &&& album_artist is Some && keeps.contains(TagField::AlbumArtist)
                ==> after.contains_key(TagField::AlbumArtist) && after[TagField::AlbumArtist]
                == album_artist->0
            &&& album_artist is None ==> after.contains_key(TagField::AlbumArtist)
                == texts.contains_key(TagField::AlbumArtist) && after[TagField::AlbumArtist]
                == texts[TagField::AlbumArtist]
            &&& keeps.contains(TagField::Album) ==> after.contains_key(TagField::Album)
                && after[TagField::Album] == album
            &&& !after.contains_key(TagField::Year)
            &&& after.contains_key(TagField::RecordingDate) <==> trimmed(release_date).len() > 0
                && keeps.contains(TagField::RecordingDate)
            &&& after.contains_key(TagField::RecordingDate) ==> after[TagField::RecordingDate]
                == trimmed(release_date)
            &&& after.contains_key(number) == texts.contains_key(number)
            &&& after.contains_key(number) ==> after[number] == texts[number]
        }),
{
}

/// The list of excluded folders is a file of that name in the root itself.
pub proof fn law_exclusion_file_lies_in_the_root(root: PathView)
    ensures
        exclusion_path(root).route() == root.route().join(
            written(encode_utf8(".mausiker-exclude"@)).route(),
        ),
{
    crate::path::law_join_joins_routes(root, written(encode_utf8(".mausiker-exclude"@)));
}

} // verus!
