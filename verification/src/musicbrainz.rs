//! Looking an album up in MusicBrainz: the query, and which of the releases in
//! the answer is the best match.

use vstd::prelude::*;
use vstd::utf8::*;
use crate::library::copy_option;
use crate::text::{parse_u32, same_ignoring_ascii_case};
use crate::text::{ascii_lowercase, parsed_u32};

verus! {

/// What MusicBrainz knows of an album.
#[derive(Clone, Debug, PartialEq, Eq)]
pub struct AlbumMatch {
    pub title: String,
    pub artist: String,
    pub release_date: Option<String>,
    pub track_count: Option<u32>,
    pub country: Option<String>,
    pub format: Option<String>,
    pub score: Option<u32>,
}

/// What is known of an album.
#[verifier::ext_equal]
pub struct AlbumMatchView {
    pub title: Seq<char>,
    pub artist: Seq<char>,
    pub release_date: Option<Seq<char>>,
    pub track_count: Option<u32>,
    pub country: Option<Seq<char>>,
    pub format: Option<Seq<char>>,
    pub score: Option<u32>,
}

impl View for AlbumMatch {
    type V = AlbumMatchView;

    open spec fn view(&self) -> AlbumMatchView {
        AlbumMatchView {
            title: self.title@,
            artist: self.artist@,
            release_date: self.release_date.deep_view(),
            track_count: self.track_count,
            country: self.country.deep_view(),
            format: self.format.deep_view(),
            score: self.score,
        }
    }
}

impl DeepView for AlbumMatch {
    type V = AlbumMatchView;

    open spec fn deep_view(&self) -> AlbumMatchView {
        self@
    }
}

/// The score of a release as the answer gives it.
pub enum ScoreValue {
    /// A JSON number, if it is a whole number that is not negative.
    Number(Option<u64>),
    /// A JSON string.
    Text(String),
    /// Any other JSON value.
    Other,
}

/// An artist of a release, and what joins its name to the next one.
pub struct ArtistCredit {
    pub name: String,
    pub joinphrase: String,
}

/// A medium of a release.
pub struct Medium {
    pub format: Option<String>,
}

/// The group of releases to which a release belongs.
pub struct ReleaseGroup {
    pub first_release_date: Option<String>,
}

/// A release in the answer to a search.
pub struct Release {
    pub title: String,
    pub artist_credit: Vec<ArtistCredit>,
    pub date: Option<String>,
    pub track_count: Option<u32>,
    pub country: Option<String>,
    pub media: Vec<Medium>,
    pub score: Option<ScoreValue>,
    pub release_group: Option<ReleaseGroup>,
}

// ---------------------------------------------------------------------------
// The query
// ---------------------------------------------------------------------------

/// Whether a byte stands for itself in the query of a URL.
pub open spec fn is_unreserved(byte: u8) -> bool {
    ||| 65 <= byte <= 90
    ||| 97 <= byte <= 122
    ||| 48 <= byte <= 57
    ||| byte == 45
    ||| byte == 95
    ||| byte == 46
    ||| byte == 126
}

/// The hexadecimal digit of a value below sixteen.
pub open spec fn hex_digit(value: int) -> char {
    if value < 10 {
        (48 + value) as char
    } else {
        (55 + value) as char
    }
}

/// What stands for a byte in the query of a URL.
pub open spec fn encoded_byte(byte: u8) -> Seq<char> {
    if is_unreserved(byte) {
        seq![byte as char]
    } else {
        seq!['%', hex_digit(byte as int / 16), hex_digit(byte as int % 16)]
    }
}

/// What stands for bytes in the query of a URL.
pub open spec fn percent_encoded(bytes: Seq<u8>) -> Seq<char>
    decreases bytes.len(),
{
    if bytes.len() == 0 {
        Seq::empty()
    } else {
        encoded_byte(bytes[0]) + percent_encoded(bytes.skip(1))
    }
}

/// The value of a hexadecimal digit.
pub open spec fn hex_value(c: char) -> int {
    if c as int <= 57 {
        c as int - 48
    } else {
        c as int - 55
    }
}

/// The bytes that a text stands for in the query of a URL.
pub open spec fn percent_decoded(text: Seq<char>) -> Seq<u8>
    decreases text.len(),
{
    if text.len() == 0 {
        Seq::empty()
    } else if text[0] == '%' && text.len() >= 3 {
        seq![(hex_value(text[1]) * 16 + hex_value(text[2])) as u8] + percent_decoded(text.skip(3))
    } else {
        seq![text[0] as u8] + percent_decoded(text.skip(1))
    }
}

/// Nothing is lost by encoding: decoding gives the bytes back.
pub proof fn law_percent_round_trip(bytes: Seq<u8>)
    ensures
        percent_decoded(percent_encoded(bytes)) == bytes,
    decreases bytes.len(),
{
    if bytes.len() > 0 {
        let byte = bytes[0];
        let rest = percent_encoded(bytes.skip(1));
        let text = percent_encoded(bytes);
        law_percent_round_trip(bytes.skip(1));
        if is_unreserved(byte) {
            assert(text[0] == byte as char);
            assert(text.skip(1) =~= rest);
        } else {
            assert(text[0] == '%');
            assert(text[1] == hex_digit(byte as int / 16));
            assert(text[2] == hex_digit(byte as int % 16));
            assert(text.skip(3) =~= rest);
            assert(hex_value(text[1]) == byte as int / 16);
            assert(hex_value(text[2]) == byte as int % 16);
        }
        assert(seq![byte] + bytes.skip(1) =~= bytes);
    } else {
        assert(bytes =~= Seq::empty());
        assert(percent_decoded(percent_encoded(bytes)) =~= bytes);
    }
}

/// An encoded text is made of characters that need no encoding and of percent
/// signs.
pub proof fn law_percent_encoded_is_plain(bytes: Seq<u8>)
    ensures
        forall|i: int|
            0 <= i < percent_encoded(bytes).len() ==> {
                let c = #[trigger] percent_encoded(bytes)[i];
                c == '%' || (c as int <= 126 && is_unreserved(c as u8))
            },
    decreases bytes.len(),
{
    if bytes.len() > 0 {
        law_percent_encoded_is_plain(bytes.skip(1));
        let head = encoded_byte(bytes[0]);
        let rest = percent_encoded(bytes.skip(1));
        assert forall|i: int| 0 <= i < percent_encoded(bytes).len() implies {
            let c = #[trigger] percent_encoded(bytes)[i];
            c == '%' || (c as int <= 126 && is_unreserved(c as u8))
        } by {
            if i < head.len() {
                assert(percent_encoded(bytes)[i] == head[i]);
            } else {
                assert(percent_encoded(bytes)[i] == rest[i - head.len()]);
            }
        }
    }
}

fn hex_char(value: u8) -> (c: char)
    requires
        value < 16,
    ensures
        c == hex_digit(value as int),
{
    if value < 10 {
        (48 + value) as char
    } else {
        (55 + value) as char
    }
}

/// The text that stands for `value` in the query of a URL: letters, digits,
/// `-`, `_`, `.` and `~` for themselves, any other byte as `%` and two digits.
pub fn percent_encode(value: &str) -> (encoded: String)
    ensures
        encoded@ == percent_encoded(encode_utf8(value@)),
{
    let bytes = value.as_bytes();
    let mut encoded = String::new();
    let mut i: usize = 0;
    assert(bytes@.skip(0) =~= bytes@);
    while i < bytes.len()
        invariant
            i <= bytes@.len(),
            encoded@ + percent_encoded(bytes@.skip(i as int)) == percent_encoded(bytes@),
        decreases bytes.len() - i,
    {
        let byte = bytes[i];
        let ghost before = encoded@;
        if (65 <= byte && byte <= 90) || (97 <= byte && byte <= 122) || (48 <= byte && byte <= 57)
            || byte == 45 || byte == 95 || byte == 46 || byte == 126 {
            encoded.push(byte as char);
        } else {
            encoded.push('%');
            encoded.push(hex_char(byte / 16));
            encoded.push(hex_char(byte % 16));
        }
        proof {
            assert(encoded@ =~= before + encoded_byte(byte));
            assert(bytes@.skip(i as int).skip(1) =~= bytes@.skip(i + 1));
            assert(encoded@ + percent_encoded(bytes@.skip(i + 1)) =~= before + percent_encoded(
                bytes@.skip(i as int),
            ));
        }
        i += 1;
    }
    assert(encoded@ =~= percent_encoded(bytes@));
    encoded
}

/// The URL of the search for an album.
pub open spec fn search_address(title: Seq<char>, artist: Seq<char>) -> Seq<char> {
    "https://musicbrainz.org/ws/2/release?query="@ + percent_encoded(
        encode_utf8("release:\""@ + title + "\" AND artist:\""@ + artist + "\""@),
    ) + "&limit=5&fmt=json"@
}

/// The URL of the search for the album `title` of `artist`.
pub fn search_url(title: &str, artist: &str) -> (url: String)
    ensures
        url@ == search_address(title@, artist@),
{
    let mut query = "release:\"".to_owned();
    query.append(title);
    query.append("\" AND artist:\"");
    query.append(artist);
    query.append("\"");
    let mut url = "https://musicbrainz.org/ws/2/release?query=".to_owned();
    url.append(percent_encode(query.as_str()).as_str());
    url.append("&limit=5&fmt=json");
    url
}

// ---------------------------------------------------------------------------
// The best match
// ---------------------------------------------------------------------------

/// The names of the credited artists, each with what joins it to the next.
pub open spec fn credited_name(credits: Seq<ArtistCredit>) -> Seq<char>
    decreases credits.len(),
{
    if credits.len() == 0 {
        Seq::empty()
    } else {
        credited_name(credits.drop_last()) + credits.last().name@ + credits.last().joinphrase@
    }
}

/// The names of the credited artists, each with what joins it to the next.
pub fn artist_name(credits: &Vec<ArtistCredit>) -> (name: String)
    ensures
        name@ == credited_name(credits@),
{
    let mut name = String::new();
    let mut i: usize = 0;
    assert(credits@.take(0) =~= Seq::empty());
    while i < credits.len()
        invariant
            i <= credits@.len(),
            name@ == credited_name(credits@.take(i as int)),
        decreases credits.len() - i,
    {
        assert(credits@.take(i + 1).drop_last() =~= credits@.take(i as int));
        name.append(credits[i].name.as_str());
        name.append(credits[i].joinphrase.as_str());
        i += 1;
    }
    assert(credits@.take(credits@.len() as int) =~= credits@);
    name
}

/// The number that a score denotes, if it is below 2^32.
pub open spec fn score_number(score: Option<ScoreValue>) -> Option<u32> {
    match score {
        Some(ScoreValue::Number(Some(number))) => if number <= u32::MAX {
            Some(number as u32)
        } else {
            None
        },
        Some(ScoreValue::Text(text)) => parsed_u32(text@),
        _ => None,
    }
}

/// The number that `score` denotes, if it is below 2^32.
pub fn score_value(score: &Option<ScoreValue>) -> (number: Option<u32>)
    ensures
        number == score_number(*score),
{
    match score {
        Some(ScoreValue::Number(number)) => match number {
            Some(number) => if *number <= 0xffff_ffff {
                Some(*number as u32)
            } else {
                None
            },
            None => None,
        },
        Some(ScoreValue::Text(text)) => parse_u32(text.as_str()),
        Some(ScoreValue::Other) => None,
        None => None,
    }
}

/// How well a release matches: the title counts most, then the artist, then the
/// score of the release.
pub open spec fn matching(release: Release, title: Seq<char>, artist: Seq<char>) -> int {
    (if ascii_lowercase(release.title@) == ascii_lowercase(title) {
        10_000int
    } else {
        0
    }) + (if ascii_lowercase(credited_name(release.artist_credit@)) == ascii_lowercase(artist) {
        1_000int
    } else {
        0
    }) + match score_number(release.score) {
        Some(score) => score as int,
        None => 0,
    }
}

/// How well `release` matches the album `title` of `artist`.
pub fn match_score(release: &Release, title: &str, artist: &str) -> (score: u64)
    ensures
        score == matching(*release, title@, artist@),
{
    let title_match: u64 = if same_ignoring_ascii_case(release.title.as_str(), title) {
        10_000
    } else {
        0
    };
    let name = artist_name(&release.artist_credit);
    let artist_match: u64 = if same_ignoring_ascii_case(name.as_str(), artist) {
        1_000
    } else {
        0
    };
    let release_score: u64 = match score_value(&release.score) {
        Some(score) => score as u64,
        None => 0,
    };
    title_match + artist_match + release_score
}

/// The first format among the media of a release.
pub open spec fn first_format(media: Seq<Medium>) -> Option<Seq<char>>
    decreases media.len(),
{
    if media.len() == 0 {
        None
    } else {
        match media[0].format {
            Some(format) => Some(format@),
            None => first_format(media.skip(1)),
        }
    }
}

fn format_of(media: &Vec<Medium>) -> (format: Option<String>)
    ensures
        format.deep_view() == first_format(media@),
{
    let mut i: usize = 0;
    assert(media@.skip(0) =~= media@);
    while i < media.len()
        invariant
            i <= media@.len(),
            first_format(media@) == first_format(media@.skip(i as int)),
        decreases media.len() - i,
    {
        assert(media@.skip(i as int).skip(1) =~= media@.skip(i + 1));
        if media[i].format.is_some() {
            return copy_option(&media[i].format);
        }
        i += 1;
    }
    None
}

/// What a release says of an album. Its date is that of the release, or else
/// the first date of the release group.
pub open spec fn album_of(release: Release) -> AlbumMatchView {
    AlbumMatchView {
        title: release.title@,
        artist: credited_name(release.artist_credit@),
        release_date: match release.date {
            Some(date) => Some(date@),
            None => match release.release_group {
                Some(group) => group.first_release_date.deep_view(),
                None => None,
            },
        },
        track_count: release.track_count,
        country: release.country.deep_view(),
        format: first_format(release.media@),
        score: score_number(release.score),
    }
}

impl AlbumMatch {
    /// What `release` says of an album.
    pub fn from(release: Release) -> (album: AlbumMatch)
        ensures
            album@ == album_of(release),
    {
        AlbumMatch::of(&release)
    }

    /// What `release` says of an album.
    pub fn of(release: &Release) -> (album: AlbumMatch)
        ensures
            album@ == album_of(*release),
    {
        let release_date = match &release.date {
            Some(date) => Some(date.clone()),
            None => match &release.release_group {
                Some(group) => copy_option(&group.first_release_date),
                None => None,
            },
        };
        AlbumMatch {
            title: release.title.clone(),
            artist: artist_name(&release.artist_credit),
            release_date,
            track_count: release.track_count,
            country: copy_option(&release.country),
            format: format_of(&release.media),
            score: score_value(&release.score),
        }
    }
}

/// Whether the release at `best` matches at least as well as all, and better
/// than those behind it.
pub open spec fn is_best(
    releases: Seq<Release>,
    title: Seq<char>,
    artist: Seq<char>,
    best: int,
) -> bool {
    &&& 0 <= best < releases.len()
    &&& forall|i: int|
        0 <= i < releases.len() ==> matching(#[trigger] releases[i], title, artist) <= matching(
            releases[best],
            title,
            artist,
        )
    &&& forall|i: int|
        best < i < releases.len() ==> matching(#[trigger] releases[i], title, artist) < matching(
            releases[best],
            title,
            artist,
        )
}

/// What the release that matches best says of the album. Of releases that match
/// equally well the last one counts.
pub fn best_match(releases: &Vec<Release>, title: &str, artist: &str) -> (album: Option<AlbumMatch>)
    ensures
        match album {
            Some(album) => exists|best: int|
                #[trigger] is_best(releases@, title@, artist@, best) && album@ == album_of(
                    releases@[best],
                ),
            None => releases@.len() == 0,
        },
{
    if releases.len() == 0 {
        return None;
    }
    let mut best: usize = 0;
    let mut best_score: u64 = match_score(&releases[0], title, artist);
    let mut i: usize = 1;
    while i < releases.len()
        invariant
            best < i <= releases@.len(),
            best_score == matching(releases@[best as int], title@, artist@),
            forall|j: int|
                0 <= j < i ==> matching(#[trigger] releases@[j], title@, artist@) <= best_score,
            forall|j: int|
                best < j < i ==> matching(#[trigger] releases@[j], title@, artist@) < best_score,
        decreases releases.len() - i,
    {
        let score = match_score(&releases[i], title, artist);
        if score >= best_score {
            best = i;
            best_score = score;
        }
        i += 1;
    }
    let album = AlbumMatch::of(&releases[best]);
    assert(is_best(releases@, title@, artist@, best as int));
    Some(album)
}

/// There is one best match: two releases that are both best are the same.
pub proof fn law_best_match_is_unique(
    releases: Seq<Release>,
    title: Seq<char>,
    artist: Seq<char>,
    one: int,
    other: int,
)
    requires
        is_best(releases, title, artist, one),
        is_best(releases, title, artist, other),
    ensures
        one == other,
{
    if one < other {
        assert(matching(releases[other], title, artist) < matching(releases[one], title, artist));
        assert(matching(releases[one], title, artist) <= matching(releases[other], title, artist));
    } else if other < one {
        assert(matching(releases[one], title, artist) < matching(releases[other], title, artist));
        assert(matching(releases[other], title, artist) <= matching(releases[one], title, artist));
    }
}

/// A release with the right title matches better than one without, whatever the
/// artist and as long as scores do not exceed a hundred.
pub proof fn law_title_counts_most(one: Release, other: Release, title: Seq<char>, artist: Seq<char>)
    requires
        ascii_lowercase(one.title@) == ascii_lowercase(title),
        ascii_lowercase(other.title@) != ascii_lowercase(title),
        score_number(other.score) matches Some(score) ==> score <= 100,
    ensures
        matching(one, title, artist) > matching(other, title, artist),
{
}

/// What came of asking MusicBrainz.
pub enum LookupOutcome {
    /// The request failed.
    RequestFailed(String),
    /// The answer could not be read.
    Unreadable(String),
    /// The answer is not what a search answers.
    Unparsable(String),
    /// The releases of the answer.
    Releases(Vec<Release>),
}

/// The best match for an album in the answer of MusicBrainz, or why there is no
/// answer.
pub fn album_from_answer(outcome: LookupOutcome, title: &str, artist: &str) -> (found: Result<
    Option<AlbumMatch>,
    String,
>)
    ensures
        match outcome {
            LookupOutcome::RequestFailed(error) => found matches Err(message) && message@
                == "MusicBrainz request failed: "@ + error@,
            LookupOutcome::Unreadable(error) => found matches Err(message) && message@
                == "Could not read MusicBrainz response: "@ + error@,
            LookupOutcome::Unparsable(error) => found matches Err(message) && message@
                == "Could not parse MusicBrainz response: "@ + error@,
            LookupOutcome::Releases(releases) => match found {
                Ok(Some(album)) => exists|best: int|
                    #[trigger] is_best(releases@, title@, artist@, best) && album@ == album_of(
                        releases@[best],
                    ),
                Ok(None) => releases@.len() == 0,
                Err(_) => false,
            },
        },
{
    match outcome {
        LookupOutcome::RequestFailed(error) => {
            let mut message = "MusicBrainz request failed: ".to_owned();
            message.append(error.as_str());
            Err(message)
        },
        LookupOutcome::Unreadable(error) => {
            let mut message = "Could not read MusicBrainz response: ".to_owned();
            message.append(error.as_str());
            Err(message)
        },
        LookupOutcome::Unparsable(error) => {
            let mut message = "Could not parse MusicBrainz response: ".to_owned();
            message.append(error.as_str());
            Err(message)
        },
        LookupOutcome::Releases(releases) => Ok(best_match(&releases, title, artist)),
    }
}

} // verus!
