//! Grouping tracks: into albums by their metadata, or into albums, artists and
//! groups by the folders in which they lie.

use vstd::prelude::*;
use crate::library::Track;
use crate::order::{arrange, field_of, sort_order};
use crate::path::FilePath;
use crate::library::TrackView;
use crate::order::{arranged, law_stable_order, stable_order, text_field};
use crate::path::PathView;

verus! {

/// An album: its tracks, in order, and the group in which it lies if it was
/// found by folders.
#[derive(Debug)]
pub struct Album {
    pub group: Option<String>,
    pub artist: String,
    pub title: String,
    pub tracks: Vec<Track>,
}

/// What an album says.
#[verifier::ext_equal]
pub struct AlbumView {
    pub group: Option<Seq<char>>,
    pub artist: Seq<char>,
    pub title: Seq<char>,
    pub tracks: Seq<TrackView>,
}

impl View for Album {
    type V = AlbumView;

    open spec fn view(&self) -> AlbumView {
        AlbumView {
            group: self.group.deep_view(),
            artist: self.artist@,
            title: self.title@,
            tracks: self.tracks.deep_view(),
        }
    }
}

impl DeepView for Album {
    type V = AlbumView;

    open spec fn deep_view(&self) -> AlbumView {
        self@
    }
}

/// A group of albums: their positions in the list of albums.
pub struct FolderGroup {
    pub title: String,
    pub albums: Vec<usize>,
}

/// What a group of albums says.
#[verifier::ext_equal]
pub struct GroupView {
    pub title: Seq<char>,
    pub albums: Seq<usize>,
}

impl View for FolderGroup {
    type V = GroupView;

    open spec fn view(&self) -> GroupView {
        GroupView { title: self.title@, albums: self.albums@ }
    }
}

impl DeepView for FolderGroup {
    type V = GroupView;

    open spec fn deep_view(&self) -> GroupView {
        self@
    }
}

// ---------------------------------------------------------------------------
// Grouping
// ---------------------------------------------------------------------------

/// The different values of a list, in the order in which each comes first.
pub open spec fn distinct<K>(keys: Seq<K>) -> Seq<K>
    decreases keys.len(),
{
    if keys.len() == 0 {
        Seq::empty()
    } else {
        let before = distinct(keys.drop_last());
        if before.contains(keys.last()) {
            before
        } else {
            before.push(keys.last())
        }
    }
}

/// The items whose key is `key`, in order.
pub open spec fn members<T, K>(items: Seq<T>, keys: Seq<K>, key: K) -> Seq<T>
    decreases items.len(),
{
    if items.len() == 0 {
        Seq::empty()
    } else {
        let before = members(items.drop_last(), keys.drop_last(), key);
        if keys.last() == key {
            before.push(items.last())
        } else {
            before
        }
    }
}

/// The number of items with one of the first `count` keys of a list.
pub open spec fn grouped_count<T, K>(items: Seq<T>, keys: Seq<K>, list: Seq<K>, count: int) -> nat
    decreases count,
{
    if count <= 0 {
        0
    } else {
        grouped_count(items, keys, list, count - 1) + members(items, keys, list[count - 1]).len()
    }
}

/// No value comes twice among the different values of a list, and none is
/// missing.
pub proof fn law_distinct<K>(keys: Seq<K>)
    ensures
        distinct(keys).no_duplicates(),
        forall|key: K| #[trigger] distinct(keys).contains(key) <==> keys.contains(key),
    decreases keys.len(),
{
    if keys.len() > 0 {
        let shorter = keys.drop_last();
        law_distinct(shorter);
        let before = distinct(shorter);
        let after = distinct(keys);
        assert forall|key: K| #[trigger] after.contains(key) <==> keys.contains(key) by {
            if after.contains(key) {
                let i = choose|i: int| 0 <= i < after.len() && after[i] == key;
                if i < before.len() {
                    assert(before[i] == key);
                    assert(before.contains(key));
                    let j = choose|j: int| 0 <= j < shorter.len() && shorter[j] == key;
                    assert(keys[j] == key);
                } else {
                    assert(keys[keys.len() - 1] == key);
                }
            }
            if keys.contains(key) {
                let j = choose|j: int| 0 <= j < keys.len() && keys[j] == key;
                if j < shorter.len() {
                    assert(shorter[j] == key);
                    assert(shorter.contains(key));
                    assert(before.contains(key));
                    let i = choose|i: int| 0 <= i < before.len() && before[i] == key;
                    assert(after[i] == key);
                } else if !before.contains(key) {
                    assert(after[after.len() - 1] == key);
                }
            }
        }
    }
}

proof fn lemma_members_absent<T, K>(items: Seq<T>, keys: Seq<K>, key: K)
    requires
        items.len() == keys.len(),
        !keys.contains(key),
    ensures
        members(items, keys, key).len() == 0,
    decreases items.len(),
{
    if items.len() > 0 {
        assert(keys[keys.len() - 1] != key);
        assert(!keys.drop_last().contains(key)) by {
            if keys.drop_last().contains(key) {
                let j = choose|j: int|
                    0 <= j < keys.drop_last().len() && keys.drop_last()[j] == key;
                assert(keys[j] == key);
            }
        }
        lemma_members_absent(items.drop_last(), keys.drop_last(), key);
    }
}

/// How grouping changes with one more item.
proof fn lemma_grouping_step<T, K>(items: Seq<T>, keys: Seq<K>, next: int)
    requires
        items.len() == keys.len(),
        0 <= next < items.len(),
    ensures
        ({
            let before = distinct(keys.take(next));
            let after = distinct(keys.take(next + 1));
            let key = keys[next];
            &&& before.no_duplicates()
            &&& after == if before.contains(key) {
                before
            } else {
                before.push(key)
            }
            &&& !before.contains(key) ==> members(
                items.take(next),
                keys.take(next),
                key,
            ) == Seq::<T>::empty()
            &&& forall|other: K|
                #[trigger] members(items.take(next + 1), keys.take(next + 1), other) == if other
                    == key {
                    members(items.take(next), keys.take(next), other).push(items[next])
                } else {
                    members(items.take(next), keys.take(next), other)
                }
        }),
{
    assert(keys.take(next + 1).drop_last() =~= keys.take(next));
    assert(items.take(next + 1).drop_last() =~= items.take(next));
    law_distinct(keys.take(next));
    if !distinct(keys.take(next)).contains(keys[next]) {
        lemma_members_absent(items.take(next), keys.take(next), keys[next]);
        assert(members(items.take(next), keys.take(next), keys[next]) =~= Seq::empty());
    }
}

proof fn lemma_grouped_count_step<T, K>(
    items: Seq<T>,
    keys: Seq<K>,
    next: int,
    list: Seq<K>,
    count: int,
)
    requires
        items.len() == keys.len(),
        0 <= next < items.len(),
        0 <= count <= list.len(),
        list.no_duplicates(),
    ensures
        grouped_count(items.take(next + 1), keys.take(next + 1), list, count) == grouped_count(
            items.take(next),
            keys.take(next),
            list,
            count,
        ) + (if list.take(count).contains(keys[next]) {
            1nat
        } else {
            0nat
        }),
    decreases count,
{
    lemma_grouping_step(items, keys, next);
    if count > 0 {
        lemma_grouped_count_step(items, keys, next, list, count - 1);
        let key = keys[next];
        assert(list.take(count)[count - 1] == list[count - 1]);
        if list[count - 1] == key {
            assert(!list.take(count - 1).contains(key)) by {
                if list.take(count - 1).contains(key) {
                    let j = choose|j: int|
                        0 <= j < count - 1 && #[trigger] list.take(count - 1)[j] == key;
                    assert(list[j] == list[count - 1]);
                }
            }
            assert(list.take(count).contains(key));
        } else if list.take(count - 1).contains(key) {
            let j = choose|j: int|
                        0 <= j < count - 1 && #[trigger] list.take(count - 1)[j] == key;
            assert(list.take(count)[j] == key);
        } else if list.take(count).contains(key) {
            let j = choose|j: int| 0 <= j < count && #[trigger] list.take(count)[j] == key;
            assert(list.take(count - 1)[j] == key);
        }
    }
}

proof fn lemma_grouped_count_prefix<T, K>(
    items: Seq<T>,
    keys: Seq<K>,
    list: Seq<K>,
    longer: Seq<K>,
    count: int,
)
    requires
        0 <= count <= list.len() <= longer.len(),
        forall|i: int| 0 <= i < count ==> list[i] == longer[i],
    ensures
        grouped_count(items, keys, list, count) == grouped_count(items, keys, longer, count),
    decreases count,
{
    if count > 0 {
        lemma_grouped_count_prefix(items, keys, list, longer, count - 1);
    }
}

/// Grouping loses and repeats nothing: the groups together hold as many items
/// as there are, and every item is in the group of its key.
pub proof fn law_grouping_is_partition<T, K>(items: Seq<T>, keys: Seq<K>)
    requires
        items.len() == keys.len(),
    ensures
        grouped_count(items, keys, distinct(keys), distinct(keys).len() as int) == items.len(),
        forall|i: int|
            0 <= i < items.len() ==> distinct(keys).contains(#[trigger] keys[i]) && members(
                items,
                keys,
                keys[i],
            ).contains(items[i]),
{
    lemma_partition_count(items, keys, items.len() as int);
    assert(items.take(items.len() as int) =~= items);
    assert(keys.take(keys.len() as int) =~= keys);
    law_distinct(keys);
    assert forall|i: int| 0 <= i < items.len() implies distinct(keys).contains(#[trigger] keys[i])
        && members(items, keys, keys[i]).contains(items[i]) by {
        assert(keys.contains(keys[i]));
        lemma_member(items, keys, i);
    }
}

proof fn lemma_member<T, K>(items: Seq<T>, keys: Seq<K>, at: int)
    requires
        items.len() == keys.len(),
        0 <= at < items.len(),
    ensures
        members(items, keys, keys[at]).contains(items[at]),
    decreases items.len(),
{
    let all = members(items, keys, keys[at]);
    if at == items.len() - 1 {
        assert(all[all.len() - 1] == items[at]);
    } else {
        lemma_member(items.drop_last(), keys.drop_last(), at);
        let before = members(items.drop_last(), keys.drop_last(), keys[at]);
        let j = choose|j: int| 0 <= j < before.len() && before[j] == items[at];
        assert(all[j] == items[at]);
    }
}

proof fn lemma_partition_count<T, K>(items: Seq<T>, keys: Seq<K>, next: int)
    requires
        items.len() == keys.len(),
        0 <= next <= items.len(),
    ensures
        grouped_count(
            items.take(next),
            keys.take(next),
            distinct(keys.take(next)),
            distinct(keys.take(next)).len() as int,
        ) == next,
    decreases next,
{
    if next == 0 {
        assert(keys.take(0) =~= Seq::empty());
        assert(distinct(keys.take(0)).len() == 0);
    } else {
        let n = next - 1;
        lemma_partition_count(items, keys, n);
        lemma_grouping_step(items, keys, n);
        law_distinct(keys.take(next));
        let before = distinct(keys.take(n));
        let after = distinct(keys.take(next));
        let key = keys[n];
        lemma_grouped_count_step(items, keys, n, after, after.len() as int);
        assert(after.take(after.len() as int) =~= after);
        assert(keys.take(next).contains(key)) by {
            assert(keys.take(next)[n] == key);
        }
        assert(after.contains(key));
        if !before.contains(key) {
            lemma_grouped_count_prefix(items.take(n), keys.take(n), before, after, before.len() as int);
            assert(after[before.len() as int] == key);
        }
    }
}

// ---------------------------------------------------------------------------
// The order of tracks
// ---------------------------------------------------------------------------

/// The key by which the tracks of an album are sorted: the number, tracks
/// without one last, then the title.
pub open spec fn number_key(track: TrackView) -> Seq<Seq<u32>> {
    seq![
        seq![
            match track.track_number {
                Some(number) => number,
                None => u32::MAX,
            },
        ],
        text_field(track.title),
    ]
}

/// The tracks of an album by number and title.
pub open spec fn sorted_tracks(tracks: Seq<TrackView>) -> Seq<TrackView> {
    arranged(tracks, stable_order(Seq::new(tracks.len(), |i: int| number_key(tracks[i]))))
}

/// `album` with its tracks sorted.
pub open spec fn with_sorted_tracks(album: AlbumView) -> AlbumView {
    AlbumView { tracks: sorted_tracks(album.tracks), ..album }
}

fn sort_tracks(tracks: Vec<Track>) -> (sorted: Vec<Track>)
    ensures
        sorted.deep_view() == sorted_tracks(tracks.deep_view()),
{
    let ghost views = tracks.deep_view();
    let ghost wanted = Seq::new(views.len(), |i: int| number_key(views[i]));
    let mut keys: Vec<Vec<Vec<u32>>> = Vec::new();
    let mut i: usize = 0;
    while i < tracks.len()
        invariant
            i <= tracks@.len(),
            views == tracks.deep_view(),
            wanted == Seq::new(views.len(), |i: int| number_key(views[i])),
            keys.deep_view() == wanted.take(i as int),
        decreases tracks.len() - i,
    {
        let ghost before = keys.deep_view();
        let mut number: Vec<u32> = Vec::new();
        match tracks[i].track_number {
            Some(value) => number.push(value),
            None => number.push(u32::MAX),
        }
        let mut key: Vec<Vec<u32>> = Vec::new();
        key.push(number);
        key.push(field_of(tracks[i].title.as_str()));
        proof {
            assert forall|j: int| 0 <= j < 2 implies #[trigger] key@[j].deep_view()
                =~= key@[j]@ by {}
            assert(key@[0]@ =~= number_key(views[i as int])[0]);
            assert(key.deep_view() =~= number_key(views[i as int]));
        }
        keys.push(key);
        assert(keys.deep_view() =~= before.push(number_key(views[i as int])));
        assert(keys.deep_view() =~= wanted.take(i + 1));
        i += 1;
    }
    assert(keys.deep_view() =~= wanted);
    let order = sort_order(&keys);
    proof {
        law_stable_order(wanted);
    }
    let sorted = arrange(tracks, &order);
    assert(sorted.deep_view() =~= sorted_tracks(views));
    sorted
}

/// Sorts the tracks of each album by number, tracks without one last, and those
/// with the same number by title.
pub fn sort_album_tracks(albums: &mut Vec<Album>)
    ensures
        final(albums).deep_view() == Seq::new(
            old(albums)@.len(),
            |i: int| with_sorted_tracks(old(albums).deep_view()[i]),
        ),
{
    let ghost given = albums.deep_view();
    let mut i: usize = 0;
    while i < albums.len()
        invariant
            i <= albums@.len(),
            albums@.len() == given.len(),
            forall|j: int|
                0 <= j < i ==> (#[trigger] albums@[j])@ == with_sorted_tracks(given[j]),
            forall|j: int| i <= j < albums@.len() ==> (#[trigger] albums@[j])@ == given[j],
        decreases albums.len() - i,
    {
        assert(albums@[i as int]@ == given[i as int]);
        let mut tracks: Vec<Track> = Vec::new();
        std::mem::swap(&mut albums[i].tracks, &mut tracks);
        let sorted = sort_tracks(tracks);
        albums[i].tracks = sorted;
        assert(albums@[i as int]@ =~= with_sorted_tracks(given[i as int]));
        i += 1;
    }
    assert(albums.deep_view() =~= Seq::new(
        given.len(),
        |i: int| with_sorted_tracks(given[i]),
    ));
}

// ---------------------------------------------------------------------------
// Albums by metadata
// ---------------------------------------------------------------------------

/// The album titles of tracks.
pub open spec fn album_names(tracks: Seq<TrackView>) -> Seq<Seq<char>> {
    Seq::new(tracks.len(), |i: int| tracks[i].album)
}

/// The artist of an album with these tracks: the one they share, or
/// `Various Artists`.
pub open spec fn shared_artist(tracks: Seq<TrackView>) -> Seq<char> {
    if forall|i: int|
        0 <= i < tracks.len() ==> (#[trigger] tracks[i]).album_artist == tracks[0].album_artist {
        tracks[0].album_artist
    } else {
        "Various Artists"@
    }
}

/// The album of the tracks with this album title, in the order of `tracks`.
pub open spec fn titled_album(tracks: Seq<TrackView>, title: Seq<char>) -> AlbumView {
    let own = members(tracks, album_names(tracks), title);
    AlbumView { group: None, artist: shared_artist(own), title, tracks: own }
}

/// The albums of tracks before their tracks are sorted.
pub open spec fn unsorted_albums(tracks: Seq<TrackView>) -> Seq<AlbumView> {
    let titles = distinct(album_names(tracks));
    Seq::new(titles.len(), |i: int| titled_album(tracks, titles[i]))
}

/// The albums of tracks: one for each album title, in the order in which the
/// titles come first, with its tracks sorted.
pub open spec fn albums_of(tracks: Seq<TrackView>) -> Seq<AlbumView> {
    let titles = distinct(album_names(tracks));
    Seq::new(titles.len(), |i: int| with_sorted_tracks(titled_album(tracks, titles[i])))
}

fn find_title(albums: &Vec<Album>, title: &String) -> (position: Option<usize>)
    ensures
        match position {
            Some(at) => at < albums@.len() && albums@[at as int].title@ == title@,
            None => forall|i: int| 0 <= i < albums@.len() ==> (#[trigger] albums@[i]).title@ != title@,
        },
{
    let mut i: usize = 0;
    while i < albums.len()
        invariant
            i <= albums@.len(),
            forall|j: int| 0 <= j < i ==> (#[trigger] albums@[j]).title@ != title@,
        decreases albums.len() - i,
    {
        if albums[i].title == *title {
            return Some(i);
        }
        i += 1;
    }
    None
}

/// Groups tracks into albums by their album titles. An album whose tracks name
/// different album artists is one of `Various Artists`.
pub fn group_by_album(tracks: Vec<Track>) -> (albums: Vec<Album>)
    ensures
        albums.deep_view() == albums_of(tracks.deep_view()),
{
    let ghost views = tracks.deep_view();
    let ghost names = album_names(views);
    let mut albums: Vec<Album> = Vec::new();
    let mut next: usize = 0;
    assert(albums.deep_view() =~= unsorted_albums(views.take(0))) by {
        assert(album_names(views.take(0)) =~= Seq::empty());
    }
    while next < tracks.len()
        invariant
            next <= tracks@.len(),
            views == tracks.deep_view(),
            names == album_names(views),
            albums.deep_view() == unsorted_albums(views.take(next as int)),
        decreases tracks.len() - next,
    {
        let ghost known = views.take(next as int);
        let ghost titles = distinct(names.take(next as int));
        let ghost before = albums.deep_view();
        let ghost view = views[next as int];
        proof {
            assert(album_names(known) =~= names.take(next as int));
            assert(album_names(views.take(next + 1)) =~= names.take(next + 1));
            lemma_grouping_step(views, names, next as int);
            assert(before.len() == titles.len());
            assert forall|i: int| 0 <= i < before.len() implies (#[trigger] albums@[i]).title@
                == titles[i] by {
                assert(before[i] == albums@[i]@);
            }
        }
        let track = tracks[next].copy();
        match find_title(&albums, &track.album) {
            Some(at) => {
                proof {
                    assert(before[at as int] == albums@[at as int]@);
                    assert(titles[at as int] == view.album);
                    assert(titles.contains(view.album));
                }
                let ghost own = before[at as int].tracks;
                if albums[at].artist != track.album_artist {
                    albums[at].artist = "Various Artists".to_owned();
                }
                albums[at].tracks.push(track);
                proof {
                    let after = unsorted_albums(views.take(next + 1));
                    assert(albums@[at as int].tracks.deep_view() =~= own.push(view));
                    lemma_members_first(known, names.take(next as int), view.album);
                    lemma_shared_artist_step(own, view);
                    assert(albums@[at as int]@ =~= after[at as int]);
                    assert forall|i: int| 0 <= i < after.len() implies #[trigger] albums.deep_view()[i]
                        == after[i] by {
                        if i != at {
                            assert(titles[i] != titles[at as int]);
                            assert(albums@[i]@ == before[i]);
                        }
                    }
                    assert(albums.deep_view().len() == after.len());
                    assert(albums.deep_view() =~= after);
                }
            },
            None => {
                proof {
                    assert(!titles.contains(view.album)) by {
                        if titles.contains(view.album) {
                            let i = choose|i: int|
                                0 <= i < titles.len() && titles[i] == view.album;
                            assert(albums@[i].title@ == titles[i]);
                        }
                    }
                }
                let artist = track.album_artist.clone();
                let title = track.album.clone();
                let mut list: Vec<Track> = Vec::new();
                list.push(track);
                let ghost own = list.deep_view();
                albums.push(Album { group: None, artist, title, tracks: list });
                proof {
                    let after = unsorted_albums(views.take(next + 1));
                    assert(own =~= Seq::<TrackView>::empty().push(view));
                    assert forall|i: int| 0 <= i < after.len() implies #[trigger] albums.deep_view()[i]
                        == after[i] by {
                        if i < before.len() {
                            assert(titles.contains(titles[i]));
                            assert(albums@[i]@ == before[i]);
                        } else {
                            assert(own[0] == view);
                            assert(albums@[i]@ =~= after[i]);
                        }
                    }
                    assert(albums.deep_view().len() == after.len());
                    assert(albums.deep_view() =~= after);
                }
            },
        }
        next += 1;
    }
    assert(views.take(views.len() as int) =~= views);
    let ghost unsorted = albums.deep_view();
    sort_album_tracks(&mut albums);
    assert(albums.deep_view() =~= albums_of(views));
    albums
}

proof fn lemma_shared_artist_step(own: Seq<TrackView>, track: TrackView)
    requires
        own.len() > 0,
    ensures
        shared_artist(own.push(track)) == if shared_artist(own) != track.album_artist {
            "Various Artists"@
        } else {
            shared_artist(own)
        },
{
    let more = own.push(track);
    assert(more[own.len() as int] == track);
    if forall|i: int|
        0 <= i < own.len() ==> (#[trigger] own[i]).album_artist == own[0].album_artist {
        if own[0].album_artist == track.album_artist {
            assert forall|i: int| 0 <= i < more.len() implies (#[trigger] more[i]).album_artist
                == more[0].album_artist by {
                if i < own.len() {
                    assert(more[i] == own[i]);
                }
            }
        }
    } else {
        let i = choose|i: int|
            0 <= i < own.len() && (#[trigger] own[i]).album_artist != own[0].album_artist;
        assert(more[i].album_artist != more[0].album_artist);
    }
}

proof fn lemma_members_first<T, K>(items: Seq<T>, keys: Seq<K>, key: K)
    requires
        items.len() == keys.len(),
        distinct(keys).contains(key),
    ensures
        members(items, keys, key).len() > 0,
{
    law_distinct(keys);
    assert(keys.contains(key));
    let i = choose|i: int| 0 <= i < keys.len() && keys[i] == key;
    lemma_member(items, keys, i);
}

// ---------------------------------------------------------------------------
// Albums by folder
// ---------------------------------------------------------------------------

/// The name of a folder, or another where it has none that can be shown.
pub open spec fn shown_folder(path: PathView, fallback: Seq<char>) -> Seq<char> {
    match path.file_name_text() {
        Some(name) => if name.len() > 0 {
            name
        } else {
            fallback
        },
        None => fallback,
    }
}

/// The name of the folder at `path`, or `fallback` where it has none that can
/// be shown.
pub fn folder_name(path: &FilePath, fallback: &str) -> (name: String)
    ensures
        name@ == shown_folder(path@, fallback@),
{
    match path.file_name_text() {
        Some(name) => if name.as_str().is_empty() {
            fallback.to_owned()
        } else {
            name
        },
        None => fallback.to_owned(),
    }
}

/// Where a track lies: the folder of its album, the folder of its artist, and
/// the folders above them in the library.
#[verifier::ext_equal]
pub struct FolderPlace {
    pub group: Option<Seq<char>>,
    pub artist: Seq<char>,
    pub title: Seq<char>,
}

/// The folder above `path`, or the root of the library.
pub open spec fn folder_above(root: PathView, path: PathView) -> PathView {
    match path.parent() {
        Some(parent) => parent,
        None => root,
    }
}

/// Where a track lies: the folder in which its file is is that of the album,
/// the next one that of the artist, and any above it in the library the group.
pub open spec fn place_of(root: PathView, path: PathView) -> FolderPlace {
    let album = folder_above(root, path);
    let artist = folder_above(root, album);
    let group = folder_above(root, artist);
    FolderPlace {
        group: match group.strip_prefix(root) {
            Some(rest) => if rest.bytes.len() > 0 {
                Some(rest.shown())
            } else {
                None
            },
            None => None,
        },
        artist: shown_folder(artist, "Unknown artist folder"@),
        title: shown_folder(album, "Unknown album folder"@),
    }
}

/// Where the tracks lie.
pub open spec fn places(root: PathView, tracks: Seq<TrackView>) -> Seq<FolderPlace> {
    Seq::new(tracks.len(), |i: int| place_of(root, tracks[i].path))
}

/// The album of the tracks that lie at `place`, in the order of `tracks`.
pub open spec fn placed_album(
    root: PathView,
    tracks: Seq<TrackView>,
    place: FolderPlace,
) -> AlbumView {
    AlbumView {
        group: place.group,
        artist: place.artist,
        title: place.title,
        tracks: members(tracks, places(root, tracks), place),
    }
}

/// The albums by folder before they and their tracks are sorted.
pub open spec fn unsorted_folders(root: PathView, tracks: Seq<TrackView>) -> Seq<AlbumView> {
    let all = distinct(places(root, tracks));
    Seq::new(all.len(), |i: int| placed_album(root, tracks, all[i]))
}

/// The key by which albums are sorted in the view by folder: the group, albums
/// without one first, then the artist, then the title.
pub open spec fn folder_key(album: AlbumView) -> Seq<Seq<u32>> {
    seq![
        match album.group {
            Some(_) => seq![1u32],
            None => seq![0u32],
        },
        match album.group {
            Some(group) => text_field(group),
            None => Seq::empty(),
        },
        text_field(album.artist),
        text_field(album.title),
    ]
}

/// Albums sorted by group, artist and title.
pub open spec fn sorted_by_folder(albums: Seq<AlbumView>) -> Seq<AlbumView> {
    arranged(albums, stable_order(Seq::new(albums.len(), |i: int| folder_key(albums[i]))))
}

/// The albums by folder: one for each place, with its tracks sorted, sorted by
/// group, artist and title.
pub open spec fn folders_of(root: PathView, tracks: Seq<TrackView>) -> Seq<AlbumView> {
    let all = distinct(places(root, tracks));
    sorted_by_folder(
        Seq::new(all.len(), |i: int| with_sorted_tracks(placed_album(root, tracks, all[i]))),
    )
}

fn above(root: &FilePath, path: &FilePath) -> (folder: FilePath)
    ensures
        folder@ == folder_above(root@, path@),
{
    match path.parent() {
        Some(parent) => parent,
        None => root.copy(),
    }
}

fn same_option(left: &Option<String>, right: &Option<String>) -> (same: bool)
    ensures
        same == (left.deep_view() == right.deep_view()),
{
    match (left, right) {
        (Some(left), Some(right)) => *left == *right,
        (None, None) => true,
        _ => false,
    }
}

fn find_place(
    albums: &Vec<Album>,
    group: &Option<String>,
    artist: &String,
    title: &String,
) -> (position: Option<usize>)
    ensures
        match position {
            Some(at) => at < albums@.len() && {
                let album = albums@[at as int]@;
                &&& album.group == group.deep_view()
                &&& album.artist == artist@
                &&& album.title == title@
            },
            None => forall|i: int|
                0 <= i < albums@.len() ==> {
                    let album = (#[trigger] albums@[i])@;
                    ||| album.group != group.deep_view()
                    ||| album.artist != artist@
                    ||| album.title != title@
                },
        },
{
    let mut i: usize = 0;
    while i < albums.len()
        invariant
            i <= albums@.len(),
            forall|j: int|
                0 <= j < i ==> {
                    let album = (#[trigger] albums@[j])@;
                    ||| album.group != group.deep_view()
                    ||| album.artist != artist@
                    ||| album.title != title@
                },
        decreases albums.len() - i,
    {
        if same_option(&albums[i].group, group) && albums[i].artist == *artist && albums[i].title
            == *title {
            return Some(i);
        }
        i += 1;
    }
    None
}

/// Groups tracks into albums by the folders in which their files lie, seen from
/// the library at `root`.
pub fn group_by_folder(root: &FilePath, tracks: Vec<Track>) -> (albums: Vec<Album>)
    ensures
        albums.deep_view() == folders_of(root@, tracks.deep_view()),
{
    let ghost views = tracks.deep_view();
    let ghost all = places(root@, views);
    let mut albums: Vec<Album> = Vec::new();
    let mut next: usize = 0;
    assert(albums.deep_view() =~= unsorted_folders(root@, views.take(0))) by {
        assert(places(root@, views.take(0)) =~= Seq::empty());
    }
    while next < tracks.len()
        invariant
            next <= tracks@.len(),
            views == tracks.deep_view(),
            all == places(root@, views),
            albums.deep_view() == unsorted_folders(root@, views.take(next as int)),
        decreases tracks.len() - next,
    {
        let ghost known = views.take(next as int);
        let ghost keys = distinct(all.take(next as int));
        let ghost before = albums.deep_view();
        let ghost view = views[next as int];
        let ghost place = all[next as int];
        proof {
            assert(places(root@, known) =~= all.take(next as int));
            assert(places(root@, views.take(next + 1)) =~= all.take(next + 1));
            lemma_grouping_step(views, all, next as int);
            assert(before.len() == keys.len());
            assert forall|i: int| 0 <= i < before.len() implies {
                let album = (#[trigger] albums@[i])@;
                &&& album.group == keys[i].group
                &&& album.artist == keys[i].artist
                &&& album.title == keys[i].title
            } by {
                assert(before[i] == albums@[i]@);
            }
        }
        let track = tracks[next].copy();
        let album_path = above(root, &track.path);
        let artist_path = above(root, &album_path);
        let group_path = above(root, &artist_path);
        let title = folder_name(&album_path, "Unknown album folder");
        let artist = folder_name(&artist_path, "Unknown artist folder");
        let group = match group_path.strip_prefix(root) {
            Some(rest) => if rest.to_bytes().len() > 0 {
                Some(rest.display())
            } else {
                None
            },
            None => None,
        };
        assert(place =~= FolderPlace { group: group.deep_view(), artist: artist@, title: title@ });
        match find_place(&albums, &group, &artist, &title) {
            Some(at) => {
                proof {
                    assert(before[at as int] == albums@[at as int]@);
                    assert(keys[at as int] =~= place);
                    assert(keys.contains(place));
                }
                let ghost own = before[at as int].tracks;
                albums[at].tracks.push(track);
                proof {
                    let after = unsorted_folders(root@, views.take(next + 1));
                    assert(albums@[at as int].tracks.deep_view() =~= own.push(view));
                    assert(albums@[at as int]@ =~= after[at as int]);
                    assert forall|i: int| 0 <= i < after.len() implies #[trigger] albums.deep_view()[i]
                        == after[i] by {
                        if i != at {
                            assert(keys[i] != keys[at as int]);
                            assert(albums@[i]@ == before[i]);
                        }
                    }
                    assert(albums.deep_view().len() == after.len());
                    assert(albums.deep_view() =~= after);
                }
            },
            None => {
                proof {
                    assert(!keys.contains(place)) by {
                        if keys.contains(place) {
                            let i = choose|i: int| 0 <= i < keys.len() && keys[i] == place;
                            assert(albums@[i]@.group == keys[i].group);
                        }
                    }
                }
                let mut list: Vec<Track> = Vec::new();
                list.push(track);
                let ghost own = list.deep_view();
                albums.push(Album { group, artist, title, tracks: list });
                proof {
                    let after = unsorted_folders(root@, views.take(next + 1));
                    assert(own =~= Seq::<TrackView>::empty().push(view));
                    assert forall|i: int| 0 <= i < after.len() implies #[trigger] albums.deep_view()[i]
                        == after[i] by {
                        if i < before.len() {
                            assert(keys.contains(keys[i]));
                            assert(albums@[i]@ == before[i]);
                        } else {
                            assert(albums@[i]@ =~= after[i]);
                        }
                    }
                    assert(albums.deep_view().len() == after.len());
                    assert(albums.deep_view() =~= after);
                }
            },
        }
        next += 1;
    }
    assert(views.take(views.len() as int) =~= views);
    sort_album_tracks(&mut albums);
    proof {
        let keys = distinct(all);
        assert(albums.deep_view() =~= Seq::new(
            keys.len(),
            |i: int| with_sorted_tracks(placed_album(root@, views, keys[i])),
        ));
    }
    sort_by_folder(albums)
}

fn sort_by_folder(albums: Vec<Album>) -> (sorted: Vec<Album>)
    ensures
        sorted.deep_view() == sorted_by_folder(albums.deep_view()),
{
    let ghost views = albums.deep_view();
    let ghost wanted = Seq::new(views.len(), |i: int| folder_key(views[i]));
    let mut keys: Vec<Vec<Vec<u32>>> = Vec::new();
    let mut i: usize = 0;
    while i < albums.len()
        invariant
            i <= albums@.len(),
            views == albums.deep_view(),
            wanted == Seq::new(views.len(), |i: int| folder_key(views[i])),
            keys.deep_view() == wanted.take(i as int),
        decreases albums.len() - i,
    {
        let ghost before = keys.deep_view();
        let mut has_group: Vec<u32> = Vec::new();
        let mut group: Vec<u32> = Vec::new();
        match &albums[i].group {
            Some(name) => {
                has_group.push(1);
                group = field_of(name.as_str());
            },
            None => has_group.push(0),
        }
        let mut key: Vec<Vec<u32>> = Vec::new();
        key.push(has_group);
        key.push(group);
        key.push(field_of(albums[i].artist.as_str()));
        key.push(field_of(albums[i].title.as_str()));
        proof {
            assert forall|j: int| 0 <= j < 4 implies #[trigger] key@[j].deep_view()
                =~= key@[j]@ by {}
            assert(key@[0]@ =~= folder_key(views[i as int])[0]);
            assert(key@[1]@ =~= folder_key(views[i as int])[1]);
            assert(key.deep_view() =~= folder_key(views[i as int]));
        }
        keys.push(key);
        assert(keys.deep_view() =~= before.push(folder_key(views[i as int])));
        assert(keys.deep_view() =~= wanted.take(i + 1));
        i += 1;
    }
    assert(keys.deep_view() =~= wanted);
    let order = sort_order(&keys);
    proof {
        law_stable_order(wanted);
    }
    let sorted = arrange(albums, &order);
    assert(sorted.deep_view() =~= sorted_by_folder(views));
    sorted
}

// ---------------------------------------------------------------------------
// Groups of albums
// ---------------------------------------------------------------------------

/// The title of the group in which an album lies.
pub open spec fn group_title(album: AlbumView) -> Seq<char> {
    match album.group {
        Some(group) => group,
        None => "Library root"@,
    }
}

/// The titles of the groups in which albums lie.
pub open spec fn group_titles(albums: Seq<AlbumView>) -> Seq<Seq<char>> {
    Seq::new(albums.len(), |i: int| group_title(albums[i]))
}

/// The positions of a list.
pub open spec fn positions(count: nat) -> Seq<usize> {
    Seq::new(count, |i: int| i as usize)
}

/// The groups of albums: one for each title, in the order in which the titles
/// come first, with the positions of its albums.
pub open spec fn groups_of(albums: Seq<AlbumView>) -> Seq<GroupView> {
    let titles = distinct(group_titles(albums));
    Seq::new(
        titles.len(),
        |i: int|
            GroupView {
                title: titles[i],
                albums: members(positions(albums.len()), group_titles(albums), titles[i]),
            },
    )
}

/// Groups albums by the folders above their artists. Albums without such a
/// folder lie in the group `Library root`.
pub fn folder_groups(albums: &Vec<Album>) -> (groups: Vec<FolderGroup>)
    ensures
        groups.deep_view() == groups_of(albums.deep_view()),
{
    let ghost views = albums.deep_view();
    let ghost names = group_titles(views);
    let ghost all = positions(views.len());
    let mut groups: Vec<FolderGroup> = Vec::new();
    let mut next: usize = 0;
    proof {
        assert(views.len() == albums.len());
        assert(group_titles(views.take(0)) =~= Seq::empty());
        assert(groups.deep_view() =~= groups_of(views.take(0)));
    }
    while next < albums.len()
        invariant
            next <= albums@.len(),
            views == albums.deep_view(),
            names == group_titles(views),
            all == positions(views.len()),
            groups.deep_view() == groups_of(views.take(next as int)),
        decreases albums.len() - next,
    {
        let ghost titles = distinct(names.take(next as int));
        let ghost before = groups.deep_view();
        let ghost name = names[next as int];
        proof {
            assert(group_titles(views.take(next as int)) =~= names.take(next as int));
            assert(group_titles(views.take(next + 1)) =~= names.take(next + 1));
            assert(positions(views.take(next as int).len()) =~= all.take(next as int));
            assert(positions(views.take(next + 1).len()) =~= all.take(next + 1));
            lemma_grouping_step(all, names, next as int);
            assert(before.len() == titles.len());
            assert forall|i: int| 0 <= i < before.len() implies (#[trigger] groups@[i]).title@
                == titles[i] by {
                assert(before[i] == groups@[i]@);
            }
        }
        let title = match &albums[next].group {
            Some(group) => group.clone(),
            None => "Library root".to_owned(),
        };
        assert(title@ == name);
        match find_group(&groups, &title) {
            Some(at) => {
                proof {
                    assert(before[at as int] == groups@[at as int]@);
                    assert(titles[at as int] == name);
                    assert(titles.contains(name));
                }
                groups[at].albums.push(next);
                proof {
                    let after = groups_of(views.take(next + 1));
                    assert(groups@[at as int]@ =~= after[at as int]);
                    assert forall|i: int| 0 <= i < after.len() implies #[trigger] groups.deep_view()[i]
                        == after[i] by {
                        if i != at {
                            assert(titles[i] != titles[at as int]);
                            assert(groups@[i]@ == before[i]);
                        }
                    }
                    assert(groups.deep_view().len() == after.len());
                    assert(groups.deep_view() =~= after);
                }
            },
            None => {
                proof {
                    assert(!titles.contains(name)) by {
                        if titles.contains(name) {
                            let i = choose|i: int| 0 <= i < titles.len() && titles[i] == name;
                            assert(groups@[i].title@ == titles[i]);
                        }
                    }
                }
                let mut list: Vec<usize> = Vec::new();
                list.push(next);
                groups.push(FolderGroup { title, albums: list });
                proof {
                    let after = groups_of(views.take(next + 1));
                    assert forall|i: int| 0 <= i < after.len() implies #[trigger] groups.deep_view()[i]
                        == after[i] by {
                        if i < before.len() {
                            assert(titles.contains(titles[i]));
                            assert(groups@[i]@ == before[i]);
                        } else {
                            assert(groups@[i]@ =~= after[i]);
                        }
                    }
                    assert(groups.deep_view().len() == after.len());
                    assert(groups.deep_view() =~= after);
                }
            },
        }
        next += 1;
    }
    assert(views.take(views.len() as int) =~= views);
    groups
}

fn find_group(groups: &Vec<FolderGroup>, title: &String) -> (position: Option<usize>)
    ensures
        match position {
            Some(at) => at < groups@.len() && groups@[at as int].title@ == title@,
            None => forall|i: int| 0 <= i < groups@.len() ==> (#[trigger] groups@[i]).title@ != title@,
        },
{
    let mut i: usize = 0;
    while i < groups.len()
        invariant
            i <= groups@.len(),
            forall|j: int| 0 <= j < i ==> (#[trigger] groups@[j]).title@ != title@,
        decreases groups.len() - i,
    {
        if groups[i].title == *title {
            return Some(i);
        }
        i += 1;
    }
    None
}

} // verus!
