use lofty::prelude::Accessor;
use lofty::tag::{ItemKey, Tag, TagType};
use mausiker::library::{
    collect_scan, edit_tag, exclusion_file, is_excluded, is_supported_audio, is_valid_release_date,
    load_exclusions, main_artist_from_credit, track_from_tag, Track,
};
use mausiker::musicbrainz::{
    album_from_answer, artist_name, best_match, match_score, percent_encode, score_value,
    search_url, AlbumMatch, ArtistCredit, LookupOutcome, Medium, Release, ReleaseGroup, ScoreValue,
};
use mausiker::path::FilePath;
use mausiker::text::{parse_u32, white_space};
use mausiker::time::Duration;

fn path(text: &str) -> FilePath {
    FilePath::from_text(text)
}

#[test]
fn extracts_primary_artist_from_common_feature_credits() {
    for credit in [
        "50 Cent feat. Eminem",
        "50 Cent & G-Unit",
        "50 Cent; G-Unit",
    ] {
        assert_eq!(main_artist_from_credit(Some(credit)), "50 Cent");
    }
}

#[test]
fn preserves_an_artist_without_feature_credit() {
    assert_eq!(main_artist_from_credit(Some("Nina Simone")), "Nina Simone");
}

#[test]
fn markers_are_looked_for_in_their_order() {
    assert_eq!(main_artist_from_credit(Some(" A & B FEATURING C ")), "A & B");
    assert_eq!(main_artist_from_credit(Some("A ft. B")), "A");
    assert_eq!(main_artist_from_credit(Some("A Ft B")), "A");
    assert_eq!(main_artist_from_credit(Some("A feat B")), "A");
    assert_eq!(main_artist_from_credit(Some("Feature & friends feat. X")), "Feature & friends");
    assert_eq!(main_artist_from_credit(None), "Unknown artist");
}

#[test]
fn validates_supported_release_date_formats() {
    for date in ["2005", "2005-02", "2005-02-28", "2004-02-29"] {
        assert!(is_valid_release_date(date), "{date} should be valid");
    }
    for date in ["05", "2005-2", "2005-13", "2005-02-29", "2005/02/01"] {
        assert!(!is_valid_release_date(date), "{date} should be invalid");
    }
}

#[test]
fn release_dates_follow_the_calendar() {
    for date in ["0000", "2000-02-29", "2005-12-31", "2005-04-30"] {
        assert!(is_valid_release_date(date), "{date}");
    }
    for date in [
        "", "2005-00", "1900-02-29", "2005-04-31", "2005-01-00", "2005-01-32", "2005-01-01-01",
        "200a", "٢٠٠٥", "2005-", "-2005",
    ] {
        assert!(!is_valid_release_date(date), "{date}");
    }
}

#[test]
fn recognizes_relative_and_absolute_excluded_folders() {
    let root = path("/music");
    let exclusions = vec![root.join(&path("Podcasts")), path("/archive")];
    assert!(is_excluded(
        &path("/music/Podcasts/episode.mp3"),
        &exclusions
    ));
    assert!(is_excluded(&path("/archive/old.mp3"), &exclusions));
    assert!(!is_excluded(
        &path("/music/Albums/track.mp3"),
        &exclusions
    ));
}

#[test]
fn the_exclusion_file_lists_folders() {
    let root = path("/music");
    assert_eq!(exclusion_file(&root), path("/music/.mausiker-exclude"));
    assert_eq!(
        load_exclusions(&root, Some("# comment\r\n  Podcasts \n\n/archive\n #x\nlast")),
        [path("/music/Podcasts"), path("/archive"), path("/music/last")]
    );
    assert!(load_exclusions(&root, None).is_empty());
}

#[test]
fn audio_files_are_known_by_their_extension() {
    for name in ["a.mp3", "a.M4A", "a.mp4", "a.aac", "a.FlAc", "a.wav", "a.ogg", "a.opus"] {
        assert!(is_supported_audio(&path(name)), "{name}");
    }
    for name in ["a", "mp3", ".mp3", "a.mp3.txt", "a."] {
        assert!(!is_supported_audio(&path(name)), "{name}");
    }
}

fn scanned(artist: &str, album: &str, title: &str) -> Option<Track> {
    let mut tag = Tag::new(TagType::Id3v2);
    tag.set_artist(artist.to_owned());
    tag.set_album(album.to_owned());
    tag.set_title(title.to_owned());
    Some(track_from_tag(&path("x.mp3"), Some(&tag), Duration::zero(), 0))
}

#[test]
fn a_scan_is_sorted_and_counts_what_cannot_be_read() {
    let (tracks, unreadable) = collect_scan(vec![
        scanned("B", "A", "A"),
        None,
        scanned("A", "B", "C"),
        scanned("A", "B", "B"),
        None,
        scanned("A", "A", "Z"),
    ]);
    let titles: Vec<&str> = tracks.iter().map(|track| track.title.as_str()).collect();
    assert_eq!(titles, ["Z", "B", "C", "A"]);
    assert_eq!(unreadable, 2);
}

#[test]
fn a_track_is_described_by_its_tag() {
    let mut tag = Tag::new(TagType::Id3v2);
    tag.set_title("Title".to_owned());
    tag.set_artist("A feat. B".to_owned());
    tag.set_album("Album".to_owned());
    tag.insert_text(ItemKey::RecordingDate, "1999-01-02".to_owned());
    tag.insert_text(ItemKey::TrackNumber, "7".to_owned());
    let track = track_from_tag(&path("/m/file.mp3"), Some(&tag), Duration::from_secs(9), 12);
    assert_eq!(track.title, "Title");
    assert_eq!(track.artist, "A feat. B");
    assert_eq!(track.album_artist, "A");
    assert_eq!(track.album, "Album");
    assert_eq!(track.release_date.as_deref(), Some("1999-01-02"));
    assert_eq!(track.track_number, Some(7));
    assert_eq!(track.duration, Some(Duration::from_secs(9)));
    assert_eq!(track.bytes, 12);
    tag.insert_text(ItemKey::AlbumArtist, "Band".to_owned());
    tag.insert_text(ItemKey::TrackNumber, "x".to_owned());
    let track = track_from_tag(&path("/m/file.mp3"), Some(&tag), Duration::zero(), 0);
    assert_eq!(track.album_artist, "Band");
    assert_eq!(track.track_number, None);
}

#[test]
fn a_track_without_a_tag_is_named_by_its_file() {
    let track = track_from_tag(&path("/m/file.name.mp3"), None, Duration::zero(), 0);
    assert_eq!(track.title, "file.name");
    assert_eq!(track.artist, "Unknown artist");
    assert_eq!(track.album_artist, "Unknown artist");
    assert_eq!(track.album, "Unknown album");
    assert_eq!(track.release_date, None);
    assert_eq!(track.track_number, None);
    let odd = FilePath::parse(&b"/m/\xff.mp3".to_vec());
    assert_eq!(track_from_tag(&odd, None, Duration::zero(), 0).title, "Untitled");
}

#[test]
fn reading_gives_back_what_was_written() {
    let mut tag = Tag::new(TagType::VorbisComments);
    tag.insert_text(ItemKey::Year, "1990".to_owned());
    edit_tag(&mut tag, Some("T"), Some("A"), None, "L", " 2001-02 ");
    assert_eq!(tag.get_string(ItemKey::Year), None);
    let track = track_from_tag(&path("x.ogg"), Some(&tag), Duration::zero(), 0);
    assert_eq!(
        (track.title.as_str(), track.artist.as_str(), track.album.as_str()),
        ("T", "A", "L")
    );
    assert_eq!(track.release_date.as_deref(), Some("2001-02"));
    edit_tag(&mut tag, None, None, Some("AA"), "M", "  ");
    let track = track_from_tag(&path("x.ogg"), Some(&tag), Duration::zero(), 0);
    assert_eq!(
        (track.title.as_str(), track.artist.as_str(), track.album.as_str()),
        ("T", "A", "M")
    );
    assert_eq!(track.album_artist, "AA");
    assert_eq!(track.release_date, None);
}

#[test]
fn an_edit_keeps_the_rest_of_the_tag() {
    let mut tag = Tag::new(TagType::Id3v2);
    tag.set_genre("Rap".to_owned());
    tag.set_comment("a comment".to_owned());
    tag.insert_text(ItemKey::TrackNumber, "4".to_owned());
    let cover = lofty::picture::Picture::unchecked(vec![1, 2, 3]).build();
    tag.push_picture(cover.clone());
    edit_tag(&mut tag, Some("T"), Some("A"), Some("AA"), "L", "2001");
    assert_eq!(tag.genre().as_deref(), Some("Rap"));
    assert_eq!(tag.comment().as_deref(), Some("a comment"));
    assert_eq!(tag.track(), Some(4));
    assert_eq!(tag.pictures(), [cover]);
}

#[test]
fn white_space_is_that_of_unicode() {
    for c in '\0'..=char::MAX {
        assert_eq!(white_space(c), c.is_whitespace(), "{:x}", c as u32);
    }
}

#[test]
fn numbers_are_read_like_the_standard_library_reads_them() {
    for text in ["0", "007", "+5", "-1", "", "+", "4294967295", "4294967296", "1 ", "٣"] {
        assert_eq!(parse_u32(text), text.parse::<u32>().ok(), "{text}");
    }
}

#[test]
fn encodes_a_musicbrainz_search_query() {
    assert_eq!(
        percent_encode("release:\"A & B\""),
        "release%3A%22A%20%26%20B%22"
    );
}

#[test]
fn search_urls_name_title_and_artist() {
    assert_eq!(
        search_url("Ü", "a-b_c.d~e"),
        "https://musicbrainz.org/ws/2/release?query=release%3A%22%C3%9C%22%20AND%20artist%3A%22a-b_c.d~e%22&limit=5&fmt=json"
    );
}

fn release_from(json: &str) -> Release {
    let answer: serde_json::Value = serde_json::from_str(json).unwrap();
    let value = &answer["releases"][0];
    let text = |value: &serde_json::Value| value.as_str().map(|text| text.to_owned());
    Release {
        title: text(&value["title"]).unwrap(),
        artist_credit: value["artist-credit"]
            .as_array()
            .unwrap()
            .iter()
            .map(|credit| ArtistCredit {
                name: text(&credit["name"]).unwrap(),
                joinphrase: text(&credit["joinphrase"]).unwrap_or_default(),
            })
            .collect(),
        date: text(&value["date"]),
        track_count: value["track-count"].as_u64().map(|count| count as u32),
        country: text(&value["country"]),
        media: value["media"]
            .as_array()
            .unwrap()
            .iter()
            .map(|medium| Medium { format: text(&medium["format"]) })
            .collect(),
        score: text(&value["score"]).map(ScoreValue::Text),
        release_group: None,
    }
}

#[test]
fn parses_the_best_release_metadata() {
    let release = release_from(
        r#"{"releases":[{"title":"Illmatic","artist-credit":[{"name":"Nas"}],"date":"1994-04-19","track-count":10,"country":"US","media":[{"format":"CD"}],"score":"100"}]}"#,
    );
    let album = AlbumMatch::from(release);

    assert_eq!(album.title, "Illmatic");
    assert_eq!(album.artist, "Nas");
    assert_eq!(album.release_date.as_deref(), Some("1994-04-19"));
    assert_eq!(album.track_count, Some(10));
    assert_eq!(album.format.as_deref(), Some("CD"));
}

fn release(title: &str, artist: &str, score: Option<ScoreValue>) -> Release {
    Release {
        title: title.to_owned(),
        artist_credit: vec![ArtistCredit {
            name: artist.to_owned(),
            joinphrase: String::new(),
        }],
        date: None,
        track_count: None,
        country: None,
        media: vec![],
        score,
        release_group: None,
    }
}

#[test]
fn scores_are_numbers_or_texts() {
    assert_eq!(score_value(&Some(ScoreValue::Number(Some(7)))), Some(7));
    assert_eq!(score_value(&Some(ScoreValue::Number(Some(1 << 32)))), None);
    assert_eq!(score_value(&Some(ScoreValue::Number(None))), None);
    assert_eq!(score_value(&Some(ScoreValue::Text("42".to_owned()))), Some(42));
    assert_eq!(score_value(&Some(ScoreValue::Text("x".to_owned()))), None);
    assert_eq!(score_value(&Some(ScoreValue::Other)), None);
    assert_eq!(score_value(&None), None);
}

#[test]
fn the_best_match_counts_title_then_artist_then_score() {
    let number = |value: u64| Some(ScoreValue::Number(Some(value)));
    let other = release("Other", "nas", number(100));
    assert_eq!(match_score(&other, "illmatic", "Nas"), 1_100);
    let right = release("ILLMATIC", "Somebody", number(3));
    assert_eq!(match_score(&right, "illmatic", "Nas"), 10_003);
    let mut later = release("illmatic", "Someone else", number(3));
    later.release_group = Some(ReleaseGroup {
        first_release_date: Some("1994".to_owned()),
    });
    later.media = vec![
        Medium { format: None },
        Medium { format: Some("CD".to_owned()) },
        Medium { format: Some("LP".to_owned()) },
    ];
    let best = best_match(&vec![other, right, later], "illmatic", "Nas").unwrap();
    assert_eq!(best.artist, "Someone else");
    assert_eq!(best.release_date.as_deref(), Some("1994"));
    assert_eq!(best.format.as_deref(), Some("CD"));
    assert_eq!(best.score, Some(3));
    assert!(best_match(&vec![], "a", "b").is_none());
}

#[test]
fn artist_names_are_joined() {
    let credit = |name: &str, joinphrase: &str| ArtistCredit {
        name: name.to_owned(),
        joinphrase: joinphrase.to_owned(),
    };
    assert_eq!(artist_name(&vec![credit("A", " & "), credit("B", "")]), "A & B");
    assert_eq!(artist_name(&vec![]), "");
}

#[test]
fn lookups_fail_with_a_reason() {
    let ask = |outcome: LookupOutcome| album_from_answer(outcome, "t", "a");
    assert_eq!(
        ask(LookupOutcome::RequestFailed("x".to_owned())),
        Err("MusicBrainz request failed: x".to_owned())
    );
    assert_eq!(
        ask(LookupOutcome::Unreadable("x".to_owned())),
        Err("Could not read MusicBrainz response: x".to_owned())
    );
    assert_eq!(
        ask(LookupOutcome::Unparsable("x".to_owned())),
        Err("Could not parse MusicBrainz response: x".to_owned())
    );
    assert_eq!(ask(LookupOutcome::Releases(vec![])), Ok(None));
}
