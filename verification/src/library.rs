//! The tracks of a music library: what is scanned, what a tag says of a track,
//! and how tags are edited.

use vstd::prelude::*;
use vstd::utf8::*;
use crate::order::{arrange, field_of, sort_order};
use crate::path::FilePath;
use crate::text::{chars_of, find_chars, lower_ascii_chars};
use crate::text::{digit_is, digits_u32, text_between, trim, trim_chars};
use crate::time::Duration;
use crate::order::{arranged, law_stable_order, stable_order, text_field};
use crate::path::{lower_bytes, written, PathView};
use crate::text::{
    all_digits, ascii_lowercase, contains_text, digits_value, find, is_digit, occurs_at,
    parsed_u32, trimmed,
};

verus! {

broadcast use crate::text::lemma_bytes_deep_view;

/// A track of the library.
#[derive(Clone, Debug)]
pub struct Track {
    pub path: FilePath,
    pub title: String,
    pub artist: String,
    pub album_artist: String,
    pub album: String,
    pub release_date: Option<String>,
    pub track_number: Option<u32>,
    pub duration: Option<Duration>,
    pub bytes: u64,
}

/// What is known of a track. A duration is in nanoseconds.
#[verifier::ext_equal]
pub struct TrackView {
    pub path: PathView,
    pub title: Seq<char>,
    pub artist: Seq<char>,
    pub album_artist: Seq<char>,
    pub album: Seq<char>,
    pub release_date: Option<Seq<char>>,
    pub track_number: Option<u32>,
    pub duration: Option<nat>,
    pub bytes: u64,
}

impl View for Track {
    type V = TrackView;

    open spec fn view(&self) -> TrackView {
        TrackView {
            path: self.path@,
            title: self.title@,
            artist: self.artist@,
            album_artist: self.album_artist@,
            album: self.album@,
            release_date: self.release_date.deep_view(),
            track_number: self.track_number,
            duration: self.duration.deep_view(),
            bytes: self.bytes,
        }
    }
}

impl DeepView for Track {
    type V = TrackView;

    open spec fn deep_view(&self) -> TrackView {
        self@
    }
}

impl Track {
    /// A copy of the track.
    pub fn copy(&self) -> (copy: Track)
        ensures
            copy@ == self@,
    {
        Track {
            path: self.path.copy(),
            title: self.title.clone(),
            artist: self.artist.clone(),
            album_artist: self.album_artist.clone(),
            album: self.album.clone(),
            release_date: copy_option(&self.release_date),
            track_number: self.track_number,
            duration: self.duration,
            bytes: self.bytes,
        }
    }
}

/// A copy of an optional text.
pub fn copy_option(text: &Option<String>) -> (copy: Option<String>)
    ensures
        copy.deep_view() == text.deep_view(),
{
    match text {
        Some(text) => Some(text.clone()),
        None => None,
    }
}

/// Copies of all tracks, in order.
pub fn copy_tracks(tracks: &Vec<Track>) -> (copies: Vec<Track>)
    ensures
        copies.deep_view() == tracks.deep_view(),
{
    let mut copies: Vec<Track> = Vec::new();
    let mut i: usize = 0;
    while i < tracks.len()
        invariant
            i <= tracks@.len(),
            copies.deep_view() == tracks.deep_view().take(i as int),
        decreases tracks.len() - i,
    {
        let ghost before = copies.deep_view();
        copies.push(tracks[i].copy());
        assert(copies.deep_view() =~= before.push(tracks.deep_view()[i as int]));
        assert(copies.deep_view() =~= tracks.deep_view().take(i + 1));
        i += 1;
    }
    assert(copies.deep_view() =~= tracks.deep_view());
    copies
}

// ---------------------------------------------------------------------------
// Which files are scanned
// ---------------------------------------------------------------------------

/// The file that lists the folders left out of a library.
pub open spec fn exclusion_path(root: PathView) -> PathView {
    root.join(written(encode_utf8(".mausiker-exclude"@)))
}

/// The file that lists the folders left out of the library at `root`.
pub fn exclusion_file(root: &FilePath) -> (path: FilePath)
    ensures
        path@ == exclusion_path(root@),
{
    root.join(&FilePath::from_text(".mausiker-exclude"))
}

/// The lines of a text, without what ends them.
pub open spec fn lines(text: Seq<char>) -> Seq<Seq<char>>
    decreases text.len(),
{
    if text.len() == 0 {
        seq![Seq::<char>::empty()]
    } else {
        let before = lines(text.drop_last());
        if text.last() == '\n' {
            before.push(Seq::empty())
        } else {
            before.drop_last().push(before.last().push(text.last()))
        }
    }
}

/// Whether a trimmed line names a folder: it is neither empty nor a comment.
pub open spec fn names_folder(line: Seq<char>) -> bool {
    line.len() > 0 && line[0] != '#'
}

/// The folders that the lines name, seen from `root`.
pub open spec fn excluded_folders(root: PathView, list: Seq<Seq<char>>) -> Seq<PathView>
    decreases list.len(),
{
    if list.len() == 0 {
        Seq::empty()
    } else {
        let line = trimmed(list.last());
        let before = excluded_folders(root, list.drop_last());
        if names_folder(line) {
            before.push(root.join(written(encode_utf8(line))))
        } else {
            before
        }
    }
}

/// The folders left out of the library at `root`, given the contents of its
/// exclusion file, if it could be read. Each line names a folder; white space
/// around it, empty lines and lines that start with `#` do not count.
pub fn load_exclusions(root: &FilePath, contents: Option<&str>) -> (exclusions: Vec<FilePath>)
    ensures
        exclusions.deep_view() == match contents {
            Some(text) => excluded_folders(root@, lines(text@)),
            None => Seq::empty(),
        },
{
    let text = match contents {
        Some(text) => text,
        None => {
            let exclusions: Vec<FilePath> = Vec::new();
            assert(exclusions.deep_view() =~= Seq::empty());
            return exclusions;
        },
    };
    let chars = chars_of(text);
    let mut exclusions: Vec<FilePath> = Vec::new();
    let mut line: Vec<char> = Vec::new();
    let ghost complete: Seq<Seq<char>> = Seq::empty();
    let mut i: usize = 0;
    assert(chars@.take(0) =~= Seq::empty());
    assert(lines(chars@.take(0)) =~= complete.push(line@));
    assert(exclusions.deep_view() =~= excluded_folders(root@, complete));
    while i < chars.len()
        invariant
            i <= chars@.len(),
            lines(chars@.take(i as int)) == complete.push(line@),
            exclusions.deep_view() == excluded_folders(root@, complete),
        decreases chars.len() - i,
    {
        let c = chars[i];
        proof {
            assert(chars@.take(i + 1).drop_last() =~= chars@.take(i as int));
            assert(complete.push(line@).drop_last() =~= complete);
        }
        if c == '\n' {
            add_exclusion(root, &line, &mut exclusions);
            proof {
                assert(complete.push(line@).drop_last() =~= complete);
                complete = complete.push(line@);
            }
            line = Vec::new();
            assert(line@ =~= Seq::empty());
        } else {
            line.push(c);
        }
        i += 1;
    }
    assert(chars@.take(chars@.len() as int) =~= chars@);
    add_exclusion(root, &line, &mut exclusions);
    assert(complete.push(line@).drop_last() =~= complete);
    exclusions
}

fn add_exclusion(root: &FilePath, line: &Vec<char>, exclusions: &mut Vec<FilePath>)
    ensures
        final(exclusions).deep_view() == if names_folder(trimmed(line@)) {
            old(exclusions).deep_view().push(
                root@.join(written(encode_utf8(trimmed(line@)))),
            )
        } else {
            old(exclusions).deep_view()
        },
{
    let (start, end) = trim_chars(line);
    let ghost given = exclusions.deep_view();
    if start < end && line[start] != '#' {
        let folder = root.join(&FilePath::from_text(text_between(line, start, end).as_str()));
        exclusions.push(folder);
        assert(exclusions.deep_view() =~= given.push(folder@));
    }
}

/// Whether a folder of the list is or holds `path`.
pub open spec fn is_below_any(path: PathView, folders: Seq<PathView>) -> bool {
    exists|i: int| 0 <= i < folders.len() && path.starts_with(#[trigger] folders[i])
}

/// Whether a folder of `exclusions` is or holds `path`.
pub fn is_excluded(path: &FilePath, exclusions: &Vec<FilePath>) -> (excluded: bool)
    ensures
        excluded == is_below_any(path@, exclusions.deep_view()),
{
    let ghost folders = exclusions.deep_view();
    let mut i: usize = 0;
    while i < exclusions.len()
        invariant
            i <= exclusions@.len(),
            folders == exclusions.deep_view(),
            forall|j: int| 0 <= j < i ==> !path@.starts_with(#[trigger] folders[j]),
        decreases exclusions.len() - i,
    {
        assert(folders[i as int] == exclusions@[i as int]@);
        if path.starts_with(&exclusions[i]) {
            return true;
        }
        i += 1;
    }
    false
}

/// The extensions of the audio files that a library holds.
pub open spec fn audio_extensions() -> Seq<Seq<char>> {
    seq!["mp3"@, "m4a"@, "mp4"@, "aac"@, "flac"@, "wav"@, "ogg"@, "opus"@]
}

/// Whether the extension of a path, in any case, is one of an audio file.
pub open spec fn is_audio(path: PathView) -> bool {
    match path.extension() {
        Some(extension) => exists|i: int|
            0 <= i < audio_extensions().len() && lower_bytes(extension) == encode_utf8(
                #[trigger] audio_extensions()[i],
            ),
        None => false,
    }
}

/// Whether the extension of `path`, in any case, is one of an audio file.
pub fn is_supported_audio(path: &FilePath) -> (supported: bool)
    ensures
        supported == is_audio(path@),
{
    match path.lower_extension() {
        Some(lower) => {
            let known: [&str; 8] = ["mp3", "m4a", "mp4", "aac", "flac", "wav", "ogg", "opus"];
            assert forall|j: int| 0 <= j < 8 implies (#[trigger] known@[j])@
                == audio_extensions()[j] by {}
            let mut i: usize = 0;
            while i < 8
                invariant
                    i <= 8,
                    path@.extension() matches Some(extension) && lower@ == lower_bytes(extension),
                    forall|j: int|
                        0 <= j < 8 ==> (#[trigger] known@[j])@ == audio_extensions()[j],
                    forall|j: int|
                        0 <= j < i ==> lower@ != encode_utf8(#[trigger] audio_extensions()[j]),
                decreases 8 - i,
            {
                assert(known@[i as int]@ == audio_extensions()[i as int]);
                if is_encoding_of(&lower, known[i]) {
                    return true;
                }
                i += 1;
            }
            false
        },
        None => false,
    }
}

fn is_encoding_of(bytes: &Vec<u8>, text: &str) -> (is: bool)
    ensures
        is == (bytes@ == encode_utf8(text@)),
{
    let encoded = text.as_bytes();
    if bytes.len() != encoded.len() {
        return false;
    }
    let mut i: usize = 0;
    while i < bytes.len()
        invariant
            i <= bytes@.len(),
            encoded@ == encode_utf8(text@),
            bytes@.len() == encoded@.len(),
            forall|j: int| 0 <= j < i ==> bytes@[j] == encoded@[j],
        decreases bytes.len() - i,
    {
        if bytes[i] != encoded[i] {
            return false;
        }
        i += 1;
    }
    assert(bytes@ =~= encoded@);
    true
}

// ---------------------------------------------------------------------------
// The result of a scan
// ---------------------------------------------------------------------------

/// The key by which scanned tracks are sorted: artist, album, title.
pub open spec fn scan_key(track: TrackView) -> Seq<Seq<u32>> {
    seq![text_field(track.artist), text_field(track.album), text_field(track.title)]
}

/// Tracks sorted by artist, album and title.
pub open spec fn sorted_scan(tracks: Seq<TrackView>) -> Seq<TrackView> {
    arranged(tracks, stable_order(Seq::new(tracks.len(), |i: int| scan_key(tracks[i]))))
}

/// The tracks among the results of reading files.
pub open spec fn readable<T>(results: Seq<Option<T>>) -> Seq<T>
    decreases results.len(),
{
    if results.len() == 0 {
        Seq::empty()
    } else {
        match results.last() {
            Some(track) => readable(results.drop_last()).push(track),
            None => readable(results.drop_last()),
        }
    }
}

/// The tracks that could be read, sorted by artist, album and title, and the
/// number of files that could not be read.
pub fn collect_scan(results: Vec<Option<Track>>) -> (scanned: (Vec<Track>, usize))
    ensures
        scanned.0.deep_view() == sorted_scan(readable(results.deep_view())),
        scanned.1 == results@.len() - readable(results.deep_view()).len(),
{
    let ghost given = results.deep_view();
    let ghost count = results@.len();
    assert(results.len() == count);
    let mut results = results;
    let mut reversed: Vec<Track> = Vec::new();
    let mut unreadable: usize = 0;
    while results.len() > 0
        invariant
            count == given.len(),
            count <= usize::MAX,
            results@.len() <= count,
            results.deep_view() == given.take(results@.len() as int),
            readable(given) == readable(results.deep_view()) + reversed.deep_view().reverse(),
            unreadable + reversed@.len() == count - results@.len(),
        decreases results.len(),
    {
        let ghost before = results.deep_view();
        let ghost found = reversed.deep_view();
        let last = results.pop();
        proof {
            assert(results.deep_view() =~= before.drop_last());
            assert(results.deep_view() =~= given.take(results@.len() as int));
        }
        match last {
            Some(Some(track)) => {
                assert(before.last() == Some(track@));
                reversed.push(track);
                assert(reversed.deep_view() =~= found.push(track@));
                assert(reversed.deep_view().reverse() =~= seq![track@] + found.reverse());
                assert(readable(before) == readable(before.drop_last()).push(track@));
                assert(readable(given) =~= readable(results.deep_view())
                    + reversed.deep_view().reverse());
            },
            Some(None) => {
                assert(before.last() is None);
                unreadable += 1;
            },
            None => {},
        }
    }
    let mut tracks: Vec<Track> = Vec::new();
    let ghost all = reversed.deep_view();
    assert(readable(given) =~= all.reverse());
    while reversed.len() > 0
        invariant
            reversed@.len() <= all.len(),
            reversed.deep_view() == all.take(reversed@.len() as int),
            tracks@.len() + reversed@.len() == all.len(),
            tracks.deep_view() == all.reverse().take(tracks@.len() as int),
        decreases reversed.len(),
    {
        let ghost before = reversed.deep_view();
        let ghost done = tracks.deep_view();
        if let Some(track) = reversed.pop() {
            assert(before.last() == track@);
            assert(reversed.deep_view() =~= all.take(reversed@.len() as int));
            tracks.push(track);
            assert(tracks.deep_view() =~= done.push(track@));
            assert(tracks.deep_view() =~= all.reverse().take(tracks@.len() as int));
        }
    }
    assert(tracks.deep_view() =~= readable(given));
    (sort_scan(tracks), unreadable)
}

fn sort_scan(tracks: Vec<Track>) -> (sorted: Vec<Track>)
    ensures
        sorted.deep_view() == sorted_scan(tracks.deep_view()),
{
    let ghost views = tracks.deep_view();
    let ghost wanted = Seq::new(views.len(), |i: int| scan_key(views[i]));
    let mut keys: Vec<Vec<Vec<u32>>> = Vec::new();
    let mut i: usize = 0;
    while i < tracks.len()
        invariant
            i <= tracks@.len(),
            views == tracks.deep_view(),
            wanted == Seq::new(views.len(), |i: int| scan_key(views[i])),
            keys.deep_view() == wanted.take(i as int),
        decreases tracks.len() - i,
    {
        let ghost before = keys.deep_view();
        let mut key: Vec<Vec<u32>> = Vec::new();
        key.push(field_of(tracks[i].artist.as_str()));
        key.push(field_of(tracks[i].album.as_str()));
        key.push(field_of(tracks[i].title.as_str()));
        proof {
            assert forall|j: int| 0 <= j < 3 implies #[trigger] key@[j].deep_view()
                =~= key@[j]@ by {}
            assert(key.deep_view() =~= scan_key(views[i as int]));
        }
        keys.push(key);
        assert(keys.deep_view() =~= before.push(scan_key(views[i as int])));
        assert(keys.deep_view() =~= wanted.take(i + 1));
        i += 1;
    }
    assert(keys.deep_view() =~= wanted);
    let order = sort_order(&keys);
    proof {
        law_stable_order(wanted);
    }
    let sorted = arrange(tracks, &order);
    assert(sorted.deep_view() =~= sorted_scan(views));
    sorted
}

// ---------------------------------------------------------------------------
// Tags
// ---------------------------------------------------------------------------

/// The generic tag of an audio file.
#[verifier::external_type_specification]
#[verifier::external_body]
pub struct ExTag(lofty::tag::Tag);

/// The fields of a tag that the library reads or writes.
#[derive(Clone, Copy, Debug, PartialEq, Eq, Structural)]
pub enum TagField {
    Title,
    Artist,
    Album,
    AlbumArtist,
    RecordingDate,
    Year,
    TrackNumber,
}

/// The texts that a tag holds, by field.
pub uninterp spec fn tag_texts(tag: lofty::tag::Tag) -> Map<TagField, Seq<char>>;

/// The fields that a tag of this type can hold.
pub uninterp spec fn tag_keeps(tag: lofty::tag::Tag) -> Set<TagField>;

/// What a tag holds besides these fields: its items under other keys, in order,
/// and its pictures, each written out as bytes.
pub uninterp spec fn tag_rest(tag: lofty::tag::Tag) -> Seq<Seq<u8>>;

/// The text of a field in the contents of a tag.
pub open spec fn text_in(texts: Map<TagField, Seq<char>>, field: TagField) -> Option<Seq<char>> {
    if texts.contains_key(field) {
        Some(texts[field])
    } else {
        None
    }
}

/// Calls `lofty::tag::Tag::get_string`, which returns the text that the tag
/// holds under the key of the field, if it holds one.
#[verifier::external_body]
fn tag_text(tag: &lofty::tag::Tag, field: TagField) -> (text: Option<String>)
    ensures
        text.deep_view() == text_in(tag_texts(*tag), field),
{
    let key = match field {
        TagField::Title => lofty::tag::ItemKey::TrackTitle,
        TagField::Artist => lofty::tag::ItemKey::TrackArtist,
        TagField::Album => lofty::tag::ItemKey::AlbumTitle,
        TagField::AlbumArtist => lofty::tag::ItemKey::AlbumArtist,
        TagField::RecordingDate => lofty::tag::ItemKey::RecordingDate,
        TagField::Year => lofty::tag::ItemKey::Year,
        TagField::TrackNumber => lofty::tag::ItemKey::TrackNumber,
    };
    tag.get_string(key).map(|text| text.to_owned())
}

/// Calls `lofty::tag::Accessor::track`, which reads the text under the key of
/// the track number as a `u32`.
#[verifier::external_body]
fn tag_track(tag: &lofty::tag::Tag) -> (number: Option<u32>)
    ensures
        number == match text_in(tag_texts(*tag), TagField::TrackNumber) {
            Some(text) => parsed_u32(text),
            None => None,
        },
{
    lofty::tag::Accessor::track(tag)
}

/// Calls `lofty::tag::Tag::insert_text`, which replaces what the tag holds under
/// the key of the field, or does nothing where a tag of this type cannot hold
/// the key. What the tag can hold, and what it holds besides, does not change.
#[verifier::external_body]
fn tag_insert(tag: &mut lofty::tag::Tag, field: TagField, text: &str)
    ensures
        tag_keeps(*final(tag)) == tag_keeps(*old(tag)),
        tag_rest(*final(tag)) == tag_rest(*old(tag)),
        tag_texts(*final(tag)) == with_text(
            tag_texts(*old(tag)),
            tag_keeps(*old(tag)),
            field,
            text@,
        ),
{
    let key = match field {
        TagField::Title => lofty::tag::ItemKey::TrackTitle,
        TagField::Artist => lofty::tag::ItemKey::TrackArtist,
        TagField::Album => lofty::tag::ItemKey::AlbumTitle,
        TagField::AlbumArtist => lofty::tag::ItemKey::AlbumArtist,
        TagField::RecordingDate => lofty::tag::ItemKey::RecordingDate,
        TagField::Year => lofty::tag::ItemKey::Year,
        TagField::TrackNumber => lofty::tag::ItemKey::TrackNumber,
    };
    tag.insert_text(key, text.to_owned());
}

/// Calls `lofty::tag::Tag::remove_key`, which removes what the tag holds under
/// the key of the field. What the tag can hold, and what it holds besides, does
/// not change.
#[verifier::external_body]
fn tag_remove(tag: &mut lofty::tag::Tag, field: TagField)
    ensures
        tag_keeps(*final(tag)) == tag_keeps(*old(tag)),
        tag_rest(*final(tag)) == tag_rest(*old(tag)),
        tag_texts(*final(tag)) == tag_texts(*old(tag)).remove(field),
{
    let key = match field {
        TagField::Title => lofty::tag::ItemKey::TrackTitle,
        TagField::Artist => lofty::tag::ItemKey::TrackArtist,
        TagField::Album => lofty::tag::ItemKey::AlbumTitle,
        TagField::AlbumArtist => lofty::tag::ItemKey::AlbumArtist,
        TagField::RecordingDate => lofty::tag::ItemKey::RecordingDate,
        TagField::Year => lofty::tag::ItemKey::Year,
        TagField::TrackNumber => lofty::tag::ItemKey::TrackNumber,
    };
    tag.remove_key(key);
}

/// The contents of a tag after a text was put into a field.
pub open spec fn with_text(
    texts: Map<TagField, Seq<char>>,
    keeps: Set<TagField>,
    field: TagField,
    text: Seq<char>,
) -> Map<TagField, Seq<char>> {
    if keeps.contains(field) {
        texts.insert(field, text)
    } else {
        texts
    }
}

/// The contents of a tag after a text, if there is one, was put into a field.
pub open spec fn with_optional_text(
    texts: Map<TagField, Seq<char>>,
    keeps: Set<TagField>,
    field: TagField,
    text: Option<Seq<char>>,
) -> Map<TagField, Seq<char>> {
    match text {
        Some(text) => with_text(texts, keeps, field, text),
        None => texts,
    }
}

/// The contents of a tag after an edit. The title, the artist and the album
/// artist stay as they are where none is given; the release date is the
/// recording date, and there is none if it is blank.
pub open spec fn edited_texts(
    texts: Map<TagField, Seq<char>>,
    keeps: Set<TagField>,
    title: Option<Seq<char>>,
    artist: Option<Seq<char>>,
    album_artist: Option<Seq<char>>,
    album: Seq<char>,
    release_date: Seq<char>,
) -> Map<TagField, Seq<char>> {
    let texts = with_optional_text(texts, keeps, TagField::Title, title);
    let texts = with_optional_text(texts, keeps, TagField::Artist, artist);
    let texts = with_optional_text(texts, keeps, TagField::AlbumArtist, album_artist);
    let texts = with_text(texts, keeps, TagField::Album, album);
    let texts = texts.remove(TagField::Year).remove(TagField::RecordingDate);
    if trimmed(release_date).len() == 0 {
        texts
    } else {
        with_text(texts, keeps, TagField::RecordingDate, trimmed(release_date))
    }
}

/// Edits a tag: puts in the title, the artist and the album artist where they
/// are given, the album, and the release date unless it is blank. All else that
/// the tag holds stays as it was.
pub fn edit_tag(
    tag: &mut lofty::tag::Tag,
    title: Option<&str>,
    artist: Option<&str>,
    album_artist: Option<&str>,
    album: &str,
    release_date: &str,
)
    ensures
        tag_keeps(*final(tag)) == tag_keeps(*old(tag)),
        tag_rest(*final(tag)) == tag_rest(*old(tag)),
        tag_texts(*final(tag)) == edited_texts(
            tag_texts(*old(tag)),
            tag_keeps(*old(tag)),
            title.deep_view(),
            artist.deep_view(),
            album_artist.deep_view(),
            album@,
            release_date@,
        ),
{
    if let Some(title) = title {
        tag_insert(tag, TagField::Title, title);
    }
    if let Some(artist) = artist {
        tag_insert(tag, TagField::Artist, artist);
    }
    if let Some(album_artist) = album_artist {
        tag_insert(tag, TagField::AlbumArtist, album_artist);
    }
    tag_insert(tag, TagField::Album, album);
    tag_remove(tag, TagField::Year);
    tag_remove(tag, TagField::RecordingDate);
    let date = trim(release_date);
    if !date.as_str().is_empty() {
        tag_insert(tag, TagField::RecordingDate, date.as_str());
    }
}

/// The text of a field, or another where the tag has none.
pub open spec fn text_or(text: Option<Seq<char>>, otherwise: Seq<char>) -> Seq<char> {
    match text {
        Some(text) => text,
        None => otherwise,
    }
}

/// The title of a file without one: the stem of its name.
pub open spec fn fallback_title(path: PathView) -> Seq<char> {
    text_or(path.stem_text(), "Untitled"@)
}

/// The track at `path` as its tag describes it.
pub open spec fn described_track(
    path: PathView,
    texts: Map<TagField, Seq<char>>,
    duration: nat,
    bytes: u64,
) -> TrackView {
    let artist = text_in(texts, TagField::Artist);
    TrackView {
        path,
        title: text_or(text_in(texts, TagField::Title), fallback_title(path)),
        artist: text_or(artist, "Unknown artist"@),
        album_artist: match text_in(texts, TagField::AlbumArtist) {
            Some(name) => if trimmed(name).len() > 0 {
                name
            } else {
                main_artist(artist)
            },
            None => main_artist(artist),
        },
        album: text_or(text_in(texts, TagField::Album), "Unknown album"@),
        release_date: match text_in(texts, TagField::RecordingDate) {
            Some(date) => Some(date),
            None => text_in(texts, TagField::Year),
        },
        track_number: match text_in(texts, TagField::TrackNumber) {
            Some(text) => parsed_u32(text),
            None => None,
        },
        duration: Some(duration),
        bytes,
    }
}

/// The track at `path`, as the tag of the file describes it if it has one.
pub fn track_from_tag(
    path: &FilePath,
    tag: Option<&lofty::tag::Tag>,
    duration: Duration,
    bytes: u64,
) -> (track: Track)
    ensures
        track@ == described_track(
            path@,
            match tag {
                Some(tag) => tag_texts(*tag),
                None => Map::empty(),
            },
            duration@,
            bytes,
        ),
{
    let title = match field_text(tag, TagField::Title) {
        Some(title) => title,
        None => match path.stem_text() {
            Some(stem) => stem,
            None => "Untitled".to_owned(),
        },
    };
    let credit = field_text(tag, TagField::Artist);
    let main = match &credit {
        Some(credit) => main_artist_from_credit(Some(credit.as_str())),
        None => main_artist_from_credit(None),
    };
    let album_artist = match field_text(tag, TagField::AlbumArtist) {
        Some(name) => if trim(name.as_str()).as_str().is_empty() {
            main
        } else {
            name
        },
        None => main,
    };
    let artist = match credit {
        Some(artist) => artist,
        None => "Unknown artist".to_owned(),
    };
    let album = match field_text(tag, TagField::Album) {
        Some(album) => album,
        None => "Unknown album".to_owned(),
    };
    let release_date = match field_text(tag, TagField::RecordingDate) {
        Some(date) => Some(date),
        None => field_text(tag, TagField::Year),
    };
    let track_number = match tag {
        Some(tag) => tag_track(tag),
        None => None,
    };
    Track {
        path: path.copy(),
        title,
        artist,
        album_artist,
        album,
        release_date,
        track_number,
        duration: Some(duration),
        bytes,
    }
}

fn field_text(tag: Option<&lofty::tag::Tag>, field: TagField) -> (text: Option<String>)
    ensures
        text.deep_view() == text_in(
            match tag {
                Some(tag) => tag_texts(*tag),
                None => Map::empty(),
            },
            field,
        ),
{
    match tag {
        Some(tag) => tag_text(tag, field),
        None => None,
    }
}

/// Reading a tag gives back what an edit wrote: on a tag that can hold the
/// fields, the track has the new title, artist, album artist, album and release
/// date, and keeps its number.
pub proof fn law_read_gives_back_edit(
    texts: Map<TagField, Seq<char>>,
    keeps: Set<TagField>,
    title: Option<Seq<char>>,
    artist: Option<Seq<char>>,
    album_artist: Option<Seq<char>>,
    album: Seq<char>,
    release_date: Seq<char>,
    path: PathView,
    duration: nat,
    bytes: u64,
)
    ensures
        ({
            let before = described_track(path, texts, duration, bytes);
            let after = described_track(
                path,
                edited_texts(texts, keeps, title, artist, album_artist, album, release_date),
                duration,
                bytes,
            );
            &&& keeps.contains(TagField::Title) ==> after.title == text_or(title, before.title)
            &&& keeps.contains(TagField::Artist) ==> after.artist == text_or(artist, before.artist)
            &&& keeps.contains(TagField::AlbumArtist) && album_artist is Some && trimmed(
                album_artist.unwrap(),
            ).len() > 0 ==> after.album_artist == album_artist.unwrap()
            &&& keeps.contains(TagField::Album) ==> after.album == album
            &&& keeps.contains(TagField::RecordingDate) ==> after.release_date == if trimmed(
                release_date,
            ).len() > 0 {
                Some(trimmed(release_date))
            } else {
                None
            }
            &&& after.track_number == before.track_number
            &&& after.path == before.path
        }),
{
}

/// Editing the tags of an album, which gives no title and no artist, changes
/// neither the title nor the artist credit of a track.
pub proof fn law_album_edit_keeps_track_credits(
    texts: Map<TagField, Seq<char>>,
    keeps: Set<TagField>,
    album_artist: Option<Seq<char>>,
    album: Seq<char>,
    release_date: Seq<char>,
)
    ensures
        ({
            let after = edited_texts(texts, keeps, None, None, album_artist, album, release_date);
            &&& text_in(after, TagField::Title) == text_in(texts, TagField::Title)
            &&& text_in(after, TagField::Artist) == text_in(texts, TagField::Artist)
            &&& text_in(after, TagField::TrackNumber) == text_in(texts, TagField::TrackNumber)
        }),
{
}

// ---------------------------------------------------------------------------
// Artist credits
// ---------------------------------------------------------------------------

/// What separates the main artist of a credit from the others, in the order in
/// which it is looked for.
pub open spec fn feature_markers() -> Seq<Seq<char>> {
    seq![" featuring "@, " feat. "@, " feat "@, " ft. "@, " ft "@, " & "@, "; "@]
}

/// The main artist of a trimmed credit, looking for the markers at and after
/// the position `next`: what stands before the first marker that occurs.
pub open spec fn before_marker(credit: Seq<char>, next: int) -> Seq<char>
    decreases feature_markers().len() - next,
{
    if next >= feature_markers().len() {
        credit
    } else {
        match find(ascii_lowercase(credit), feature_markers()[next]) {
            Some(at) => trimmed(credit.take(at)),
            None => before_marker(credit, next + 1),
        }
    }
}

/// The main artist of a credit.
pub open spec fn main_artist(credit: Option<Seq<char>>) -> Seq<char> {
    before_marker(trimmed(text_or(credit, "Unknown artist"@)), 0)
}

/// The main artist of a credit: what stands before `featuring`, `feat.`,
/// `feat`, `ft.`, `ft`, `&` or `;`, in any case. The first of them, in this
/// order, that the credit holds decides.
pub fn main_artist_from_credit(artist: Option<&str>) -> (main: String)
    ensures
        main@ == main_artist(artist.deep_view()),
{
    let credit = match artist {
        Some(artist) => trim(artist),
        None => trim("Unknown artist"),
    };
    let chars = chars_of(credit.as_str());
    let lower = lower_ascii_chars(&chars);
    let markers: [&str; 7] = [" featuring ", " feat. ", " feat ", " ft. ", " ft ", " & ", "; "];
    assert forall|j: int| 0 <= j < 7 implies (#[trigger] markers@[j])@ == feature_markers()[j] by {}
    let mut next: usize = 0;
    while next < 7
        invariant
            next <= 7,
            chars@ == credit@,
            lower@ == ascii_lowercase(chars@),
            main_artist(artist.deep_view()) == before_marker(chars@, next as int),
            forall|j: int| 0 <= j < 7 ==> (#[trigger] markers@[j])@ == feature_markers()[j],
        decreases 7 - next,
    {
        let marker = chars_of(markers[next]);
        assert(marker@ == feature_markers()[next as int]);
        if let Some(at) = find_chars(&lower, &marker) {
            proof {
                crate::text::lemma_find_from(lower@, marker@, 0);
            }
            let head = text_between(&chars, 0, at);
            assert(head@ =~= chars@.take(at as int));
            return trim(head.as_str());
        }
        next += 1;
    }
    credit
}

proof fn lemma_no_marker(credit: Seq<char>, next: int)
    requires
        0 <= next <= feature_markers().len(),
        forall|i: int|
            0 <= i < feature_markers().len() ==> find(
                ascii_lowercase(credit),
                #[trigger] feature_markers()[i],
            ) is None,
    ensures
        before_marker(credit, next) == credit,
    decreases feature_markers().len() - next,
{
    if next < feature_markers().len() {
        assert(find(ascii_lowercase(credit), feature_markers()[next]) is None);
        lemma_no_marker(credit, next + 1);
    }
}

/// A credit that names one artist is kept, but for the white space around it.
pub proof fn law_single_artist_is_kept(credit: Seq<char>)
    requires
        forall|i: int|
            0 <= i < feature_markers().len() ==> !contains_text(
                ascii_lowercase(trimmed(credit)),
                #[trigger] feature_markers()[i],
            ),
    ensures
        main_artist(Some(credit)) == trimmed(credit),
{
    let name = ascii_lowercase(trimmed(credit));
    assert forall|i: int| 0 <= i < feature_markers().len() implies find(
        name,
        #[trigger] feature_markers()[i],
    ) is None by {
        let marker = feature_markers()[i];
        crate::text::lemma_find_from(name, marker, 0);
        if let Some(at) = find(name, marker) {
            assert(occurs_at(name, marker, at));
            assert(contains_text(name, marker));
        }
    }
    lemma_no_marker(trimmed(credit), 0);
}

// ---------------------------------------------------------------------------
// Release dates
// ---------------------------------------------------------------------------

/// The number of days of a month.
pub open spec fn days_in_month(year: nat, month: nat) -> nat {
    if month == 4 || month == 6 || month == 9 || month == 11 {
        30
    } else if month != 2 {
        31
    } else if year % 4 == 0 && (year % 100 != 0 || year % 400 == 0) {
        29
    } else {
        28
    }
}

/// Whether a text is a release date: a year, a year and a month, or a day,
/// written `YYYY`, `YYYY-MM` or `YYYY-MM-DD`.
pub open spec fn valid_release_date(date: Seq<char>) -> bool {
    let year = date.subrange(0, 4);
    let month = date.subrange(5, 7);
    let day = date.subrange(8, 10);
    &&& date.len() == 4 || date.len() == 7 || date.len() == 10
    &&& all_digits(year)
    &&& date.len() >= 7 ==> {
        &&& date[4] == '-'
        &&& all_digits(month)
        &&& 1 <= digits_value(month) <= 12
    }
    &&& date.len() == 10 ==> {
        &&& date[7] == '-'
        &&& all_digits(day)
        &&& 1 <= digits_value(day) <= days_in_month(digits_value(year), digits_value(month))
    }
}

fn digits_between(chars: &Vec<char>, start: usize, end: usize) -> (number: Option<u32>)
    requires
        start <= end <= chars@.len(),
        end - start <= 4,
    ensures
        match number {
            Some(value) => {
                &&& all_digits(chars@.subrange(start as int, end as int))
                &&& value == digits_value(chars@.subrange(start as int, end as int))
            },
            None => !all_digits(chars@.subrange(start as int, end as int)),
        },
{
    let ghost run = chars@.subrange(start as int, end as int);
    let mut i: usize = start;
    while i < end
        invariant
            start <= i <= end <= chars@.len(),
            run == chars@.subrange(start as int, end as int),
            forall|j: int| 0 <= j < i - start ==> is_digit(#[trigger] run[j]),
        decreases end - i,
    {
        assert(run[i - start] == chars@[i as int]);
        if !digit_is(chars[i]) {
            return None;
        }
        i += 1;
    }
    proof {
        lemma_short_number(run);
    }
    digits_u32(chars, start, end)
}

proof fn lemma_short_number(run: Seq<char>)
    requires
        run.len() <= 4,
        all_digits(run),
    ensures
        digits_value(run) < 10_000,
{
    reveal_with_fuel(digits_value, 5);
    assert forall|i: int| 0 <= i < run.len() implies run[i] as int - '0' as int <= 9 by {
        assert(is_digit(run[i]));
    }
}

/// Whether `date` is a year, a year and a month, or a day of the calendar,
/// written `YYYY`, `YYYY-MM` or `YYYY-MM-DD`.
pub fn is_valid_release_date(date: &str) -> (valid: bool)
    ensures
        valid == valid_release_date(date@),
{
    let chars = chars_of(date);
    if chars.len() != 4 && chars.len() != 7 && chars.len() != 10 {
        return false;
    }
    let year = match digits_between(&chars, 0, 4) {
        Some(year) => year,
        None => return false,
    };
    if chars.len() == 4 {
        return true;
    }
    if chars[4] != '-' {
        return false;
    }
    let month = match digits_between(&chars, 5, 7) {
        Some(month) => month,
        None => return false,
    };
    if month < 1 || month > 12 {
        return false;
    }
    if chars.len() == 7 {
        return true;
    }
    if chars[7] != '-' {
        return false;
    }
    let day = match digits_between(&chars, 8, 10) {
        Some(day) => day,
        None => return false,
    };
    let days: u32 = if month == 4 || month == 6 || month == 9 || month == 11 {
        30
    } else if month != 2 {
        31
    } else if year % 4 == 0 && (year % 100 != 0 || year % 400 == 0) {
        29
    } else {
        28
    };
    1 <= day && day <= days
}

} // verus!
