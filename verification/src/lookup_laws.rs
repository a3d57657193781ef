//! What a search for an album asks and which answer it takes, said of the
//! bytes of the query and of the releases.

use vstd::prelude::*;
use vstd::utf8::*;
use crate::musicbrainz::{album_of, credited_name, first_format, is_best, law_percent_round_trip};
use crate::musicbrainz::{matching, percent_decoded, percent_encoded, score_number, search_address};
use crate::musicbrainz::{ArtistCredit, Medium, Release, ScoreValue};
use crate::text::{ascii_lowercase, decimal};

verus! {

/// The number that a hexadecimal digit stands for, with capital letters.
pub open spec fn hex_worth(c: char) -> int {
    if '0' <= c <= '9' {
        c as int - '0' as int
    } else if 'A' <= c <= 'F' {
        c as int - 'A' as int + 10
    } else {
        -1
    }
}

/// In a query letters, digits and `-`, `_`, `.`, `~` stand for themselves. Any
/// other byte is written as `%` and its two hexadecimal digits.
pub proof fn law_bytes_of_a_query(byte: u8)
    ensures
        ({
            let plain = {
                ||| 'a' as int <= byte <= 'z' as int
                ||| 'A' as int <= byte <= 'Z' as int
                ||| '0' as int <= byte <= '9' as int
                ||| byte == '-' as int || byte == '_' as int || byte == '.' as int || byte
                    == '~' as int
            };
            let text = percent_encoded(seq![byte]);
            &&& plain ==> text.len() == 1 && text[0] as int == byte
            &&& !plain ==> text.len() == 3 && text[0] == '%' && 0 <= hex_worth(text[1]) && 0
                <= hex_worth(text[2]) && 16 * hex_worth(text[1]) + hex_worth(text[2]) == byte
        }),
{
    reveal_with_fuel(percent_encoded, 2);
    assert(seq![byte].skip(1) =~= Seq::empty());
    let text = percent_encoded(seq![byte]);
    assert(text =~= crate::musicbrainz::encoded_byte(byte));
}

/// The bytes of a query are written one after the other.
pub proof fn law_queries_are_written_byte_by_byte(left: Seq<u8>, right: Seq<u8>)
    ensures
        percent_encoded(left + right) == percent_encoded(left) + percent_encoded(right),
    decreases left.len(),
{
    if left.len() == 0 {
        assert(left + right =~= right);
        assert(percent_encoded(left) + percent_encoded(right) =~= percent_encoded(right));
    } else {
        law_queries_are_written_byte_by_byte(left.skip(1), right);
        assert((left + right).skip(1) =~= left.skip(1) + right);
        assert(percent_encoded(left + right) =~= percent_encoded(left) + percent_encoded(right));
    }
}

/// The address of a search asks for releases with the title and the artist, both
/// in quotes, at most five and as JSON.
pub proof fn law_searches_ask_for_title_and_artist(title: Seq<char>, artist: Seq<char>)
    ensures
        exists|query: Seq<char>|
            search_address(title, artist) == "https://musicbrainz.org/ws/2/release?query="@
                + query + "&limit=5&fmt=json"@ && #[trigger] percent_decoded(query) == encode_utf8(
                "release:\""@ + title + "\" AND artist:\""@ + artist + "\""@,
            ),
{
    let asked = encode_utf8("release:\""@ + title + "\" AND artist:\""@ + artist + "\""@);
    law_percent_round_trip(asked);
    assert(percent_decoded(percent_encoded(asked)) == asked);
}

/// The name of a release's artist is made of the names of all credited artists,
/// each followed by what joins it to the next, in their order.
pub proof fn law_all_credits_make_the_name(
    left: Seq<ArtistCredit>,
    right: Seq<ArtistCredit>,
    credit: ArtistCredit,
)
    ensures
        credited_name(left + right) == credited_name(left) + credited_name(right),
        credited_name(seq![credit]) == credit.name@ + credit.joinphrase@,
    decreases right.len(),
{
    reveal_with_fuel(credited_name, 2);
    assert(seq![credit].drop_last() =~= Seq::empty());
    assert(credited_name(seq![credit]) =~= credit.name@ + credit.joinphrase@);
    if right.len() == 0 {
        assert(left + right =~= left);
        assert(credited_name(left) + credited_name(right) =~= credited_name(left));
    } else {
        law_all_credits_make_the_name(left, right.drop_last(), credit);
        assert((left + right).drop_last() =~= left + right.drop_last());
        assert((left + right).last() == right.last());
        assert(credited_name(left + right) =~= credited_name(left) + credited_name(right));
    }
}

/// Of two releases that agree with the title alike, one by the right artist
/// matches better than one by another, as long as scores do not exceed a
/// hundred. Of two that agree in both alike the one with the higher score
/// matches better, and one without a score counts as one with none.
pub proof fn law_artist_counts_next(
    one: Release,
    other: Release,
    title: Seq<char>,
    artist: Seq<char>,
)
    requires
        (ascii_lowercase(one.title@) == ascii_lowercase(title)) == (ascii_lowercase(other.title@)
            == ascii_lowercase(title)),
    ensures
        ({
            let right = ascii_lowercase(credited_name(one.artist_credit@)) == ascii_lowercase(
                artist,
            );
            let also = ascii_lowercase(credited_name(other.artist_credit@)) == ascii_lowercase(
                artist,
            );
            let score = score_number(one.score);
            let others = score_number(other.score);
            &&& right && !also && (others is Some ==> others->0 <= 100) ==> matching(
                one,
                title,
                artist,
            ) > matching(other, title, artist)
            &&& right == also && score is Some && others is Some ==> matching(one, title, artist)
                - matching(other, title, artist) == score->0 - others->0
            &&& right == also && score is None && others is None ==> matching(one, title, artist)
                == matching(other, title, artist)
            &&& right == also && score is None && others is Some ==> matching(one, title, artist)
                <= matching(other, title, artist)
        }),
{
}

/// What a release gains: ten thousand by the title, a thousand by the artist,
/// both in any case of their letters, and its score.
pub proof fn law_match_is_a_sum(release: Release, title: Seq<char>, artist: Seq<char>)
    ensures
        ({
            let score: int = if score_number(release.score) is Some {
                score_number(release.score)->0 as int
            } else {
                0
            };
            let same_title = ascii_lowercase(release.title@) == ascii_lowercase(title);
            let same_artist = ascii_lowercase(credited_name(release.artist_credit@))
                == ascii_lowercase(artist);
            let gained = matching(release, title, artist) - score;
            &&& same_title && same_artist ==> gained == 11_000
            &&& same_title && !same_artist ==> gained == 10_000
            &&& !same_title && same_artist ==> gained == 1_000
            &&& !same_title && !same_artist ==> gained == 0
        }),
{
}

/// The best match is the last of those that match best: none matches better, and
/// none behind it as well.
pub proof fn law_best_match_is_the_last_of_the_best(
    releases: Seq<Release>,
    title: Seq<char>,
    artist: Seq<char>,
    best: int,
    i: int,
)
    requires
        is_best(releases, title, artist, best),
        0 <= i < releases.len(),
    ensures
        0 <= best < releases.len(),
        matching(releases[i], title, artist) <= matching(releases[best], title, artist),
        i > best ==> matching(releases[i], title, artist) < matching(releases[best], title, artist),
{
}

/// A score is a number below 2^32, or a text that writes one; any other value is
/// no score.
pub proof fn law_scores_are_numbers(number: u64, text: String)
    ensures
        number <= u32::MAX ==> score_number(Some(ScoreValue::Number(Some(number)))) == Some(
            number as u32,
        ),
        number > u32::MAX ==> score_number(Some(ScoreValue::Number(Some(number)))) is None,
        number <= u32::MAX && text@ == decimal(number as nat) ==> score_number(
            Some(ScoreValue::Text(text)),
        ) == Some(number as u32),
        text@.len() == 0 ==> score_number(Some(ScoreValue::Text(text))) is None,
        score_number(Some(ScoreValue::Number(None))) is None,
        score_number(Some(ScoreValue::Other)) is None,
        score_number(None) is None,
{
    if number <= u32::MAX {
        crate::text_laws::law_number_is_read_back(number as u32);
    }
}

/// What is taken of a release: its title, its artists, its own date or else the
/// first date of its group, its country, its number of tracks and its score.
pub proof fn law_releases_tell_of_albums(release: Release)
    ensures
        ({
            let album = album_of(release);
            &&& album.title == release.title@
            &&& album.artist == credited_name(release.artist_credit@)
            &&& release.date is Some ==> album.release_date == Some(release.date->0@)
            &&& release.date is None && release.release_group is Some
                && release.release_group->0.first_release_date is Some ==> album.release_date
                == Some(release.release_group->0.first_release_date->0@)
            &&& release.date is None && (release.release_group is None
                || release.release_group->0.first_release_date is None)
                ==> album.release_date is None
            &&& album.track_count == release.track_count
            &&& release.country is Some ==> album.country == Some(release.country->0@)
            &&& release.country is None ==> album.country is None
            &&& album.score == score_number(release.score)
            &&& album.format == first_format(release.media@)
        }),
{
}

/// The format of a release is that of the first of its media that has one.
pub proof fn law_first_known_format_is_taken(media: Seq<Medium>, at: int)
    requires
        0 <= at < media.len(),
        media[at].format is Some,
        forall|i: int| 0 <= i < at ==> (#[trigger] media[i]).format is None,
    ensures
        first_format(media) == Some(media[at].format->0@),
    decreases at,
{
    if at > 0 {
        assert(media[0].format is None);
        let rest = media.skip(1);
        assert forall|i: int| 0 <= i < at - 1 implies (#[trigger] rest[i]).format is None by {
            assert(rest[i] == media[i + 1]);
        }
        law_first_known_format_is_taken(rest, at - 1);
    }
}

/// A release none of whose media has a format has none.
pub proof fn law_unknown_formats_are_none(media: Seq<Medium>)
    requires
        forall|i: int| 0 <= i < media.len() ==> (#[trigger] media[i]).format is None,
    ensures
        first_format(media) is None,
    decreases media.len(),
{
    if media.len() > 0 {
        assert(media[0].format is None);
        let rest = media.skip(1);
        assert forall|i: int| 0 <= i < rest.len() implies (#[trigger] rest[i]).format is None by {
            assert(rest[i] == media[i + 1]);
        }
        law_unknown_formats_are_none(rest);
    }
}

} // verus!
