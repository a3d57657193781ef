//! Which rows are shown, and in what order.

use vstd::prelude::*;
use crate::album_laws::law_groups_list_their_albums;
use crate::albums::AlbumView;
use crate::browser::{AppView, Key, LibraryRow, TrackFilter, ViewMode};
use crate::library::TrackView;
use crate::text::{contains_text, lowercase, occurs_at, trimmed};

verus! {

// ---------------------------------------------------------------------------
// Searching and filtering
// ---------------------------------------------------------------------------

/// Whether a search stands somewhere in a text, whatever the case of its
/// letters.
pub open spec fn stands_in(search: Seq<char>, text: Seq<char>) -> bool {
    exists|at: int|
        0 <= at <= lowercase(text).len() - search.len() && #[trigger] lowercase(text).subrange(
            at,
            at + search.len(),
        ) == search
}

proof fn lemma_stands_in(search: Seq<char>, text: Seq<char>)
    ensures
        contains_text(lowercase(text), search) == stands_in(search, text),
{
    let lower = lowercase(text);
    if contains_text(lower, search) {
        let at = choose|at: int| #[trigger] occurs_at(lower, search, at);
        assert(lower.subrange(at, at + search.len()) == search);
    }
    if stands_in(search, text) {
        let at = choose|at: int|
            0 <= at <= lower.len() - search.len() && #[trigger] lower.subrange(
                at,
                at + search.len(),
            ) == search;
        assert(occurs_at(lower, search, at));
    }
}

/// A search finds an album by its title, by its artist, by its group, and by the
/// artist of any of its tracks. It finds no album in which it stands nowhere
/// there.
pub proof fn law_search_finds(app: AppView, album: AlbumView, search: Seq<char>)
    requires
        app.search == Some(search),
    ensures
        stands_in(search, album.title) ==> app.album_found(album),
        stands_in(search, album.artist) ==> app.album_found(album),
        album.group is Some && stands_in(search, album.group->0) ==> app.album_found(album),
        forall|i: int|
            0 <= i < album.tracks.len() && stands_in(search, (#[trigger] album.tracks[i]).artist)
                ==> app.album_found(album),
        ({
            &&& !stands_in(search, album.title)
            &&& !stands_in(search, album.artist)
            &&& album.group is Some ==> !stands_in(search, album.group->0)
            &&& forall|i: int|
                0 <= i < album.tracks.len() ==> !stands_in(
                    search,
                    (#[trigger] album.tracks[i]).artist,
                )
        }) ==> !app.album_found(album),
{
    lemma_stands_in(search, album.title);
    lemma_stands_in(search, album.artist);
    if album.group is Some {
        lemma_stands_in(search, album.group->0);
    }
    assert forall|i: int| 0 <= i < album.tracks.len() implies contains_text(
        lowercase((#[trigger] album.tracks[i]).artist),
        search,
    ) == stands_in(search, album.tracks[i].artist) by {
        lemma_stands_in(search, album.tracks[i].artist);
    }
}

/// Without a search every album is found.
pub proof fn law_no_search_finds_all(app: AppView, album: AlbumView)
    requires
        app.search is None,
    ensures
        app.album_found(album),
{
}

/// Without a filter every track is shown. The filter for missing dates shows
/// the tracks without a release date, and the one for new files those whose
/// path is among the recent ones.
pub proof fn law_filters_show(app: AppView, track: TrackView)
    ensures
        app.active_filter is None ==> app.track_shown(track),
        app.active_filter == Some(TrackFilter::NoReleaseDate) ==> (app.track_shown(track)
            <==> track.release_date is None),
        app.active_filter == Some(TrackFilter::New) ==> (app.track_shown(track) <==> exists|i: int|
            0 <= i < app.recent.len() && (#[trigger] app.recent[i]).route()
                == track.path.route()),
{
    let routes = crate::path::routes(app.recent);
    if routes.contains(track.path.route()) {
        let i = choose|i: int| 0 <= i < routes.len() && routes[i] == track.path.route();
        assert(app.recent[i].route() == track.path.route());
    }
    if exists|i: int|
        0 <= i < app.recent.len() && (#[trigger] app.recent[i]).route() == track.path.route() {
        let i = choose|i: int|
            0 <= i < app.recent.len() && (#[trigger] app.recent[i]).route()
                == track.path.route();
        assert(routes[i] == track.path.route());
    }
}

/// An album is shown exactly where the search finds it and the filter shows one
/// of its tracks.
pub proof fn law_albums_shown(app: AppView, album: AlbumView)
    ensures
        !app.album_found(album) ==> !app.album_shown(album),
        forall|i: int|
            0 <= i < album.tracks.len() && app.track_shown(#[trigger] album.tracks[i])
                && app.album_found(album) ==> app.album_shown(album),
        (forall|i: int|
            0 <= i < album.tracks.len() ==> !app.track_shown(#[trigger] album.tracks[i]))
            ==> !app.album_shown(album),
{
}

/// Typing a search and pressing Enter searches for what was typed, in small
/// letters and without the white space around it; blank input ends the search.
/// Only the input, the search and the selection change.
pub proof fn law_typed_search_is_applied(app: AppView, input: Seq<char>, character: char)
    requires
        app.search_input == Some(input),
    ensures
        app.search_key(Key::Char(character)).search_input == Some(input.push(character)),
        app.search_key(Key::Char(character)).search == app.search,
        app.search_key(Key::Char(character)).search_key(Key::Backspace) == app,
        app.search_key(Key::Esc).search_input is None,
        app.search_key(Key::Esc).search == app.search,
        app.search_key(Key::Enter).search_input is None,
        trimmed(input).len() > 0 ==> app.search_key(Key::Enter).search == Some(
            lowercase(trimmed(input)),
        ),
        trimmed(input).len() == 0 ==> app.search_key(Key::Enter).search is None,
        app.search_key(Key::Enter).albums == app.albums,
        app.search_key(Key::Enter).folder_albums == app.folder_albums,
        app.search_key(Key::Enter).active_filter == app.active_filter,
        app.search_key(Key::Enter).view_mode == app.view_mode,
{
    assert(input.push(character).drop_last() =~= input);
}

/// The three entries of the filter menu show all tracks, those without a release
/// date and the new ones. Enter applies the entry that is marked, Esc leaves the
/// filter as it is, and the keys up and down mark the neighbours, going round.
pub proof fn law_filter_menu_applies(app: AppView, index: usize)
    requires
        app.filter_menu == Some(index),
        index < 3,
    ensures
        index == 0 ==> app.filter_key(Key::Enter).active_filter is None,
        index == 1 ==> app.filter_key(Key::Enter).active_filter == Some(TrackFilter::NoReleaseDate),
        index == 2 ==> app.filter_key(Key::Enter).active_filter == Some(TrackFilter::New),
        app.filter_key(Key::Enter).filter_menu is None,
        app.filter_key(Key::Enter).search == app.search,
        app.filter_key(Key::Esc).filter_menu is None,
        app.filter_key(Key::Esc).active_filter == app.active_filter,
        app.filter_key(Key::Down).active_filter == app.active_filter,
        index < 2 ==> app.filter_key(Key::Down).filter_menu == Some((index + 1) as usize),
        index == 2 ==> app.filter_key(Key::Down).filter_menu == Some(0usize),
        app.filter_key(Key::Char('j')) == app.filter_key(Key::Down),
        app.filter_key(Key::Char('k')) == app.filter_key(Key::Up),
        app.filter_key(Key::Down).filter_key(Key::Up) == app,
        app.filter_key(Key::Up).filter_key(Key::Down) == app,
{
}

// ---------------------------------------------------------------------------
// Rows
// ---------------------------------------------------------------------------

/// The album and the track that a row stands for; the row of an album comes
/// before those of its tracks.
pub open spec fn spot(row: LibraryRow) -> (int, int) {
    match row {
        LibraryRow::Album(album) => (album as int, -1),
        LibraryRow::FolderAlbum(album) => (album as int, -1),
        LibraryRow::Track { album, track } => (album as int, track as int),
        LibraryRow::FolderGroup(_) => (-1, -1),
    }
}

/// Whether one spot comes before another.
pub open spec fn is_before(one: (int, int), other: (int, int)) -> bool {
    one.0 < other.0 || (one.0 == other.0 && one.1 < other.1)
}

/// Whether rows are in the order of their albums, each album before its tracks
/// and the tracks in their order, no row twice.
pub open spec fn ascend(rows: Seq<LibraryRow>) -> bool {
    forall|i: int, j: int|
        0 <= i < j < rows.len() ==> is_before(spot(#[trigger] rows[i]), spot(#[trigger] rows[j]))
}

/// Whether a track stands in a row of its own: its album is shown and expanded,
/// and it passes the filter.
pub open spec fn track_stands(
    app: AppView,
    albums: Seq<AlbumView>,
    album: usize,
    track: usize,
) -> bool {
    &&& album < albums.len()
    &&& app.album_shown(albums[album as int])
    &&& app.expanded_albums.contains(album)
    &&& track < albums[album as int].tracks.len()
    &&& app.track_shown(albums[album as int].tracks[track as int])
}

proof fn lemma_either<T>(left: Seq<T>, right: Seq<T>, item: T)
    ensures
        (left + right).contains(item) <==> left.contains(item) || right.contains(item),
{
    let both = left + right;
    if both.contains(item) {
        let i = choose|i: int| 0 <= i < both.len() && both[i] == item;
        if i < left.len() {
            assert(left[i] == item);
        } else {
            assert(right[i - left.len()] == item);
        }
    }
    if left.contains(item) {
        let i = choose|i: int| 0 <= i < left.len() && left[i] == item;
        assert(both[i] == item);
    }
    if right.contains(item) {
        let i = choose|i: int| 0 <= i < right.len() && right[i] == item;
        assert(both[i + left.len()] == item);
    }
}

proof fn lemma_track_rows(app: AppView, index: usize, album: AlbumView, count: int)
    requires
        0 <= count <= album.tracks.len() <= usize::MAX,
    ensures
        ({
            let rows = app.track_rows(index, album, count);
            &&& ascend(rows)
            &&& forall|i: int|
                0 <= i < rows.len() ==> (#[trigger] rows[i] matches LibraryRow::Track {
                    album: a,
                    track,
                } && a == index && track < count)
            &&& forall|track: usize| #[trigger]
                rows.contains(LibraryRow::Track { album: index, track }) <==> track < count
                    && app.track_shown(album.tracks[track as int])
        }),
    decreases count,
{
    if count > 0 {
        lemma_track_rows(app, index, album, count - 1);
        let before = app.track_rows(index, album, count - 1);
        let rows = app.track_rows(index, album, count);
        let last = (count - 1) as usize;
        let row = LibraryRow::Track { album: index, track: last };
        assert forall|track: usize| #[trigger]
            rows.contains(LibraryRow::Track { album: index, track }) <==> track < count
                && app.track_shown(album.tracks[track as int]) by {
            let wanted = LibraryRow::Track { album: index, track };
            assert(before.contains(wanted) <==> track < count - 1 && app.track_shown(
                album.tracks[track as int],
            ));
            if app.track_shown(album.tracks[count - 1]) {
                assert(rows =~= before + seq![row]);
                lemma_either(before, seq![row], wanted);
                if track == last {
                    assert(seq![row][0] == wanted);
                    assert(seq![row].contains(wanted));
                } else if seq![row].contains(wanted) {
                    let i = choose|i: int| 0 <= i < 1 && seq![row][i] == wanted;
                    assert(row == wanted);
                }
            }
        }
    }
}

proof fn lemma_album_rows(app: AppView, row: LibraryRow, index: usize, album: AlbumView)
    requires
        album.tracks.len() <= usize::MAX,
        row == LibraryRow::Album(index) || row == LibraryRow::FolderAlbum(index),
    ensures
        ({
            let rows = app.album_rows(row, index, album);
            &&& ascend(rows)
            &&& forall|i: int|
                0 <= i < rows.len() ==> {
                    ||| #[trigger] rows[i] == row
                    ||| rows[i] matches LibraryRow::Track { album: a, track } && a == index
                        && track < album.tracks.len()
                }
            &&& rows.contains(row) <==> app.album_shown(album)
            &&& forall|track: usize| #[trigger]
                rows.contains(LibraryRow::Track { album: index, track }) <==> app.album_shown(album)
                    && app.expanded_albums.contains(index) && track < album.tracks.len()
                    && app.track_shown(album.tracks[track as int])
        }),
{
    let rows = app.album_rows(row, index, album);
    let tracks = app.track_rows(index, album, album.tracks.len() as int);
    lemma_track_rows(app, index, album, album.tracks.len() as int);
    if app.album_shown(album) {
        assert(rows[0] == row);
        assert forall|track: usize| #[trigger]
            rows.contains(LibraryRow::Track { album: index, track }) <==> app.album_shown(album)
                && app.expanded_albums.contains(index) && track < album.tracks.len()
                && app.track_shown(album.tracks[track as int]) by {
            let wanted = LibraryRow::Track { album: index, track };
            assert(tracks.contains(wanted) <==> track < album.tracks.len() && app.track_shown(
                album.tracks[track as int],
            ));
            lemma_either(seq![row], tracks, wanted);
            if seq![row].contains(wanted) {
                let i = choose|i: int| 0 <= i < 1 && seq![row][i] == wanted;
                assert(row == wanted);
            }
        }
    }
}

proof fn lemma_metadata_rows(app: AppView, count: int)
    requires
        0 <= count <= app.albums.len() <= usize::MAX,
        forall|i: int|
            0 <= i < app.albums.len() ==> (#[trigger] app.albums[i]).tracks.len() <= usize::MAX,
    ensures
        ({
            let rows = app.metadata_rows(count);
            &&& ascend(rows)
            &&& forall|i: int|
                0 <= i < rows.len() ==> 0 <= spot(#[trigger] rows[i]).0 < count && !(
                rows[i] is FolderAlbum) && !(rows[i] is FolderGroup)
            &&& forall|a: usize| #[trigger]
                rows.contains(LibraryRow::Album(a)) <==> a < count && app.album_shown(
                    app.albums[a as int],
                )
            &&& forall|a: usize, track: usize| #[trigger]
                rows.contains(LibraryRow::Track { album: a, track }) <==> a < count
                    && track_stands(app, app.albums, a, track)
        }),
    decreases count,
{
    if count > 0 {
        lemma_metadata_rows(app, count - 1);
        let index = (count - 1) as usize;
        let before = app.metadata_rows(count - 1);
        let own = app.album_rows(LibraryRow::Album(index), index, app.albums[count - 1]);
        lemma_album_rows(app, LibraryRow::Album(index), index, app.albums[count - 1]);
        let rows = app.metadata_rows(count);
        assert(rows == before + own);
        assert forall|i: int, j: int| 0 <= i < j < rows.len() implies is_before(
            spot(#[trigger] rows[i]),
            spot(#[trigger] rows[j]),
        ) by {
            if j < before.len() {
                assert(is_before(spot(before[i]), spot(before[j])));
            } else if i >= before.len() {
                assert(is_before(spot(own[i - before.len()]), spot(own[j - before.len()])));
            } else {
                assert(rows[i] == before[i]);
                assert(rows[j] == own[j - before.len()]);
            }
        }
        assert forall|i: int| 0 <= i < rows.len() implies 0 <= spot(#[trigger] rows[i]).0 < count
            && !(rows[i] is FolderAlbum) && !(rows[i] is FolderGroup) by {
            if i < before.len() {
                assert(rows[i] == before[i]);
            } else {
                assert(rows[i] == own[i - before.len()]);
            }
        }
        assert forall|a: usize| #[trigger] rows.contains(LibraryRow::Album(a)) <==> a < count
            && app.album_shown(app.albums[a as int]) by {
            lemma_either(before, own, LibraryRow::Album(a));
            assert(before.contains(LibraryRow::Album(a)) <==> a < count - 1 && app.album_shown(
                app.albums[a as int],
            ));
            if own.contains(LibraryRow::Album(a)) {
                let i = choose|i: int| 0 <= i < own.len() && own[i] == LibraryRow::Album(a);
                assert(own[i] == LibraryRow::Album(index));
            }
        }
        assert forall|a: usize, track: usize| #[trigger]
            rows.contains(LibraryRow::Track { album: a, track }) <==> a < count && track_stands(
                app,
                app.albums,
                a,
                track,
            ) by {
            let wanted = LibraryRow::Track { album: a, track };
            lemma_either(before, own, wanted);
            assert(before.contains(wanted) <==> a < count - 1 && track_stands(
                app,
                app.albums,
                a,
                track,
            ));
            if own.contains(wanted) {
                let i = choose|i: int| 0 <= i < own.len() && own[i] == wanted;
                assert(own[i] == wanted);
                assert(a == index);
            }
            if a == index {
                assert(own.contains(LibraryRow::Track { album: index, track }) == own.contains(
                    wanted,
                ));
            }
        }
    }
}

/// In the view by metadata the rows are those of the albums that are shown, and
/// below each expanded one those of its tracks that pass the filter. They come
/// in the order of the albums and of the tracks in them.
pub proof fn law_rows_by_metadata(app: AppView)
    requires
        app.view_mode == ViewMode::AlbumMetadata,
        app.albums.len() <= usize::MAX,
        app.tracks_countable(),
    ensures
        ascend(app.visible_rows()),
        forall|a: usize| #[trigger]
            app.visible_rows().contains(LibraryRow::Album(a)) <==> a < app.albums.len()
                && app.album_shown(app.albums[a as int]),
        forall|a: usize, track: usize| #[trigger]
            app.visible_rows().contains(LibraryRow::Track { album: a, track }) <==> track_stands(
                app,
                app.albums,
                a,
                track,
            ),
        forall|i: int|
            0 <= i < app.visible_rows().len() ==> #[trigger] app.visible_rows()[i] is Album
                || app.visible_rows()[i] is Track,
{
    assert forall|i: int| 0 <= i < app.albums.len() implies (
    #[trigger] app.albums[i]).tracks.len() <= usize::MAX by {
        assert(app.active_albums()[i].tracks.len() <= usize::MAX);
    }
    lemma_metadata_rows(app, app.albums.len() as int);
    let rows = app.visible_rows();
    assert forall|a: usize, track: usize| #[trigger]
        rows.contains(LibraryRow::Track { album: a, track }) <==> track_stands(
            app,
            app.albums,
            a,
            track,
        ) by {
        assert(rows.contains(LibraryRow::Track { album: a, track }) <==> a < app.albums.len()
            && track_stands(app, app.albums, a, track));
    }
}

// ---------------------------------------------------------------------------
// Rows by folder
// ---------------------------------------------------------------------------

proof fn lemma_grouped_rows(app: AppView, list: Seq<usize>, count: int)
    requires
        0 <= count <= list.len(),
        forall|k: int| 0 <= k < list.len() ==> (#[trigger] list[k]) < app.folder_albums.len(),
        forall|k: int, l: int| 0 <= k < l < list.len() ==> (#[trigger] list[k]) < (#[trigger] list[l]),
        forall|i: int|
            0 <= i < app.folder_albums.len() ==> (#[trigger] app.folder_albums[i]).tracks.len()
                <= usize::MAX,
    ensures
        ({
            let rows = app.grouped_rows(list, count);
            &&& ascend(rows)
            &&& forall|i: int|
                0 <= i < rows.len() ==> (#[trigger] rows[i] is FolderAlbum || rows[i] is Track)
                    && list.take(count).contains(spot(rows[i]).0 as usize) && 0 <= spot(rows[i]).0
                    <= usize::MAX
            &&& forall|a: usize| #[trigger]
                rows.contains(LibraryRow::FolderAlbum(a)) <==> list.take(count).contains(a)
                    && app.album_shown(app.folder_albums[a as int])
            &&& forall|a: usize, track: usize| #[trigger]
                rows.contains(LibraryRow::Track { album: a, track }) <==> list.take(count).contains(
                    a,
                ) && track_stands(app, app.folder_albums, a, track)
        }),
    decreases count,
{
    let rows = app.grouped_rows(list, count);
    if count == 0 {
        assert(list.take(0) =~= Seq::empty());
    } else {
        lemma_grouped_rows(app, list, count - 1);
        let index = list[count - 1];
        let before = app.grouped_rows(list, count - 1);
        let row = LibraryRow::FolderAlbum(index);
        let album = app.folder_albums[index as int];
        let own = app.album_rows(row, index, album);
        lemma_album_rows(app, row, index, album);
        assert(rows == before + own);
        let listed = list.take(count);
        let earlier = list.take(count - 1);
        assert(listed =~= earlier + seq![index]);
        assert forall|a: usize| #[trigger] listed.contains(a) <==> earlier.contains(a) || a
            == index by {
            lemma_either(earlier, seq![index], a);
            if seq![index].contains(a) {
                let i = choose|i: int| 0 <= i < 1 && seq![index][i] == a;
                assert(a == index);
            }
            assert(seq![index][0] == index);
        }
        assert forall|a: usize| #[trigger] earlier.contains(a) implies a < index by {
            let k = choose|k: int| 0 <= k < earlier.len() && earlier[k] == a;
            assert(list[k] < list[count - 1]);
        }
        assert forall|i: int| 0 <= i < rows.len() implies (#[trigger] rows[i] is FolderAlbum
            || rows[i] is Track) && listed.contains(spot(rows[i]).0 as usize) && 0 <= spot(
            rows[i],
        ).0 <= usize::MAX by {
            if i < before.len() {
                assert(rows[i] == before[i]);
                assert(earlier.contains(spot(before[i]).0 as usize));
            } else {
                assert(rows[i] == own[i - before.len()]);
                assert(spot(rows[i]).0 == index as int);
                assert(listed.contains(index));
            }
        }
        assert forall|i: int, j: int| 0 <= i < j < rows.len() implies is_before(
            spot(#[trigger] rows[i]),
            spot(#[trigger] rows[j]),
        ) by {
            if j < before.len() {
                assert(is_before(spot(before[i]), spot(before[j])));
            } else if i >= before.len() {
                assert(is_before(spot(own[i - before.len()]), spot(own[j - before.len()])));
            } else {
                assert(rows[i] == before[i]);
                assert(rows[j] == own[j - before.len()]);
                assert(earlier.contains(spot(before[i]).0 as usize));
            }
        }
        assert forall|a: usize| #[trigger] rows.contains(LibraryRow::FolderAlbum(a))
            <==> listed.contains(a) && app.album_shown(app.folder_albums[a as int]) by {
            lemma_either(before, own, LibraryRow::FolderAlbum(a));
            assert(before.contains(LibraryRow::FolderAlbum(a)) <==> earlier.contains(a)
                && app.album_shown(app.folder_albums[a as int]));
            if own.contains(LibraryRow::FolderAlbum(a)) {
                let i = choose|i: int| 0 <= i < own.len() && own[i] == LibraryRow::FolderAlbum(a);
                assert(own[i] == row);
            }
        }
        assert forall|a: usize, track: usize| #[trigger]
            rows.contains(LibraryRow::Track { album: a, track }) <==> listed.contains(a)
                && track_stands(app, app.folder_albums, a, track) by {
            let wanted = LibraryRow::Track { album: a, track };
            lemma_either(before, own, wanted);
            assert(before.contains(wanted) <==> earlier.contains(a) && track_stands(
                app,
                app.folder_albums,
                a,
                track,
            ));
            if own.contains(wanted) {
                let i = choose|i: int| 0 <= i < own.len() && own[i] == wanted;
                assert(own[i] == wanted);
                assert(a == index);
            }
            if a == index {
                assert(own.contains(LibraryRow::Track { album: index, track }) == own.contains(
                    wanted,
                ));
            }
        }
    }
}

/// Whether a row stands in a group: as its own row, as one of its albums, or as
/// a track of one of them.
pub open spec fn stands_in_group(app: AppView, row: LibraryRow, group: int) -> bool {
    match row {
        LibraryRow::FolderGroup(index) => index == group,
        LibraryRow::FolderAlbum(album) => app.folder_groups[group].albums.contains(album),
        LibraryRow::Track { album, .. } => app.folder_groups[group].albums.contains(album),
        LibraryRow::Album(_) => false,
    }
}

/// Whether a row stands in one of the first `count` groups.
pub open spec fn stands_in_some_group(app: AppView, row: LibraryRow, count: int) -> bool {
    exists|g: int| 0 <= g < count && #[trigger] stands_in_group(app, row, g)
}

/// Whether an album is listed in an expanded group.
pub open spec fn in_open_group(app: AppView, album: usize, count: int) -> bool {
    exists|g: int|
        0 <= g < count && app.expanded_folder_groups.contains(g as usize) && (
        #[trigger] app.folder_groups[g]).albums.contains(album)
}

spec fn groups_apart(app: AppView) -> bool {
    &&& app.folder_groups.len() <= usize::MAX
    &&& forall|i: int|
        0 <= i < app.folder_albums.len() ==> (#[trigger] app.folder_albums[i]).tracks.len()
            <= usize::MAX
    &&& forall|g: int, k: int|
        0 <= g < app.folder_groups.len() && 0 <= k < app.folder_groups[g].albums.len() ==> (
        #[trigger] app.folder_groups[g].albums[k]) < app.folder_albums.len()
    &&& forall|g: int, k: int, l: int|
        0 <= g < app.folder_groups.len() && 0 <= k < l < app.folder_groups[g].albums.len() ==> (
        #[trigger] app.folder_groups[g].albums[k]) < (#[trigger] app.folder_groups[g].albums[l])
    &&& forall|g: int, h: int, a: usize|
        0 <= g < app.folder_groups.len() && 0 <= h < app.folder_groups.len() && (
        #[trigger] app.folder_groups[g].albums.contains(a)) && (
        #[trigger] app.folder_groups[h].albums.contains(a)) ==> g == h
}

proof fn lemma_groups_apart(app: AppView)
    requires
        app.groups_fit(),
        app.view_mode == ViewMode::Folders,
        app.folder_groups.len() <= usize::MAX,
        app.tracks_countable(),
    ensures
        groups_apart(app),
{
    let groups = app.folder_groups;
    assert forall|g: int| 0 <= g < groups.len() implies ({
        let group = #[trigger] groups[g];
        &&& forall|k: int, l: int|
            0 <= k < l < group.albums.len() ==> (#[trigger] group.albums[k]) < (
            #[trigger] group.albums[l])
        &&& forall|a: usize| #[trigger]
            group.albums.contains(a) <==> a < app.folder_albums.len() && ({
                ||| app.folder_albums[a as int].group == Some(group.title)
                ||| app.folder_albums[a as int].group is None && group.title == "Library root"@
            })
        &&& forall|h: int|
            0 <= h < groups.len() && h != g ==> (#[trigger] groups[h]).title != group.title
    }) by {
        law_groups_list_their_albums(app.folder_albums, g);
    }
    assert forall|i: int| 0 <= i < app.folder_albums.len() implies (
    #[trigger] app.folder_albums[i]).tracks.len() <= usize::MAX by {
        assert(app.active_albums()[i].tracks.len() <= usize::MAX);
    }
    assert forall|g: int, k: int| 0 <= g < groups.len() && 0 <= k < groups[g].albums.len() implies (
    #[trigger] groups[g].albums[k]) < app.folder_albums.len() by {
        let group = groups[g];
        assert(group.albums.contains(group.albums[k]));
    }
    assert forall|g: int, k: int, l: int|
        0 <= g < groups.len() && 0 <= k < l < groups[g].albums.len() implies (
    #[trigger] groups[g].albums[k]) < (#[trigger] groups[g].albums[l]) by {
        let group = groups[g];
        assert(group.albums[k] < group.albums[l]);
    }
    assert forall|g: int, h: int, a: usize|
        0 <= g < groups.len() && 0 <= h < groups.len() && (#[trigger] groups[g].albums.contains(a))
            && (#[trigger] groups[h].albums.contains(a)) implies g == h by {
        let one = groups[g];
        let other = groups[h];
        assert(one.albums.contains(a) && other.albums.contains(a));
        if g != h {
            assert(one.title != other.title);
        }
    }
}

/// Whether rows by folder are in the order of their groups, the row of a group
/// before those of its albums, and these in the order of the albums and tracks.
pub open spec fn ascend_in_groups(app: AppView, rows: Seq<LibraryRow>) -> bool {
    forall|i: int, j: int, g: int, h: int|
        0 <= i < j < rows.len() && 0 <= g < app.folder_groups.len() && 0 <= h
            < app.folder_groups.len() && #[trigger] stands_in_group(app, rows[i], g)
            && #[trigger] stands_in_group(app, rows[j], h) ==> g < h || (g == h && is_before(
            spot(rows[i]),
            spot(rows[j]),
        ))
}

proof fn lemma_group_rows(app: AppView, index: usize)
    requires
        groups_apart(app),
        index < app.folder_groups.len(),
    ensures
        ({
            let group = app.folder_groups[index as int];
            let rows = app.group_rows(index, group);
            let is_open = app.expanded_folder_groups.contains(index);
            &&& ascend(rows)
            &&& forall|i: int|
                0 <= i < rows.len() ==> #[trigger] stands_in_group(app, rows[i], index as int)
            &&& forall|g: usize| #[trigger]
                rows.contains(LibraryRow::FolderGroup(g)) <==> g == index && app.group_shown(group)
            &&& forall|a: usize| #[trigger]
                rows.contains(LibraryRow::FolderAlbum(a)) <==> is_open && group.albums.contains(a)
                    && app.album_shown(app.folder_albums[a as int])
            &&& forall|a: usize, track: usize| #[trigger]
                rows.contains(LibraryRow::Track { album: a, track }) <==> is_open
                    && group.albums.contains(a) && track_stands(app, app.folder_albums, a, track)
        }),
{
    let group = app.folder_groups[index as int];
    let rows = app.group_rows(index, group);
    let row = LibraryRow::FolderGroup(index);
    let list = group.albums;
    let is_open = app.expanded_folder_groups.contains(index);
    assert forall|k: int| 0 <= k < list.len() implies (#[trigger] list[k])
        < app.folder_albums.len() by {
        assert(app.folder_groups[index as int].albums[k] < app.folder_albums.len());
    }
    assert forall|k: int, l: int| 0 <= k < l < list.len() implies (#[trigger] list[k]) < (
    #[trigger] list[l]) by {
        assert(app.folder_groups[index as int].albums[k] < app.folder_groups[index as int].albums[l]);
    }
    lemma_grouped_rows(app, list, list.len() as int);
    let inner = app.grouped_rows(list, list.len() as int);
    assert(list.take(list.len() as int) =~= list);
    let head = seq![row];
    assert(head[0] == row);
    if app.group_shown(group) {
        assert(rows[0] == row);
        if is_open {
            assert(rows == head + inner);
        } else {
            assert(rows == head);
        }
    }
    assert forall|i: int| 0 <= i < rows.len() implies #[trigger] stands_in_group(
        app,
        rows[i],
        index as int,
    ) by {
        if i > 0 {
            assert(rows[i] == inner[i - 1]);
            assert(list.contains(spot(inner[i - 1]).0 as usize));
        }
    }
    assert forall|i: int, j: int| 0 <= i < j < rows.len() implies is_before(
        spot(#[trigger] rows[i]),
        spot(#[trigger] rows[j]),
    ) by {
        assert(rows[j] == inner[j - 1]);
        if i > 0 {
            assert(rows[i] == inner[i - 1]);
        }
    }
    assert forall|wanted: LibraryRow| #[trigger] rows.contains(wanted) <==> app.group_shown(group)
        && (wanted == row || (is_open && inner.contains(wanted))) by {
        lemma_either(head, inner, wanted);
        if head.contains(wanted) {
            let i = choose|i: int| 0 <= i < 1 && head[i] == wanted;
            assert(wanted == row);
        }
        if wanted == row {
            assert(head.contains(wanted));
        }
    }
    assert forall|g: usize| #[trigger] rows.contains(LibraryRow::FolderGroup(g)) <==> g == index
        && app.group_shown(group) by {
        let wanted = LibraryRow::FolderGroup(g);
        if inner.contains(wanted) {
            let i = choose|i: int| 0 <= i < inner.len() && inner[i] == wanted;
            assert(inner[i] == wanted);
        }
    }
    assert forall|a: usize| list.contains(a) && app.album_shown(
        #[trigger] app.folder_albums[a as int],
    ) implies app.group_shown(group) by {
        let k = choose|k: int| 0 <= k < list.len() && list[k] == a;
        assert(app.album_shown(app.folder_albums[group.albums[k] as int]));
    }
    assert forall|a: usize| #[trigger] rows.contains(LibraryRow::FolderAlbum(a)) <==> is_open
        && list.contains(a) && app.album_shown(app.folder_albums[a as int]) by {
        assert(inner.contains(LibraryRow::FolderAlbum(a)) <==> list.contains(a) && app.album_shown(
            app.folder_albums[a as int],
        ));
    }
    assert forall|a: usize, track: usize| #[trigger]
        rows.contains(LibraryRow::Track { album: a, track }) <==> is_open && list.contains(a)
            && track_stands(app, app.folder_albums, a, track) by {
        assert(inner.contains(LibraryRow::Track { album: a, track }) <==> list.contains(a)
            && track_stands(app, app.folder_albums, a, track));
    }
}

proof fn lemma_folder_rows(app: AppView, count: int)
    requires
        groups_apart(app),
        0 <= count <= app.folder_groups.len(),
    ensures
        ({
            let rows = app.folder_rows(count);
            &&& ascend_in_groups(app, rows)
            &&& forall|i: int|
                0 <= i < rows.len() ==> stands_in_some_group(app, #[trigger] rows[i], count)
            &&& forall|g: usize| #[trigger]
                rows.contains(LibraryRow::FolderGroup(g)) <==> g < count && app.group_shown(
                    app.folder_groups[g as int],
                )
            &&& forall|a: usize| #[trigger]
                rows.contains(LibraryRow::FolderAlbum(a)) <==> in_open_group(app, a, count)
                    && app.album_shown(app.folder_albums[a as int])
            &&& forall|a: usize, track: usize| #[trigger]
                rows.contains(LibraryRow::Track { album: a, track }) <==> in_open_group(
                    app,
                    a,
                    count,
                ) && track_stands(app, app.folder_albums, a, track)
        }),
    decreases count,
{
    if count > 0 {
        lemma_folder_rows(app, count - 1);
        let index = (count - 1) as usize;
        lemma_group_rows(app, index);
        let before = app.folder_rows(count - 1);
        let group = app.folder_groups[count - 1];
        let own = app.group_rows(index, group);
        let rows = app.folder_rows(count);
        let is_open = app.expanded_folder_groups.contains(index);
        assert(rows == before + own);
        assert forall|i: int| 0 <= i < rows.len() implies stands_in_some_group(
            app,
            #[trigger] rows[i],
            count,
        ) by {
            if i < before.len() {
                assert(rows[i] == before[i]);
                assert(stands_in_some_group(app, before[i], count - 1));
                let g = choose|g: int|
                    0 <= g < count - 1 && #[trigger] stands_in_group(app, before[i], g);
                assert(stands_in_group(app, rows[i], g));
            } else {
                assert(rows[i] == own[i - before.len()]);
                assert(stands_in_group(app, own[i - before.len()], index as int));
            }
        }
        assert forall|i: int, j: int, g: int, h: int|
            0 <= i < j < rows.len() && 0 <= g < app.folder_groups.len() && 0 <= h
                < app.folder_groups.len() && #[trigger] stands_in_group(app, rows[i], g)
                && #[trigger] stands_in_group(app, rows[j], h) implies g < h || (g == h
            && is_before(spot(rows[i]), spot(rows[j]))) by {
            if j < before.len() {
                assert(stands_in_group(app, before[i], g) && stands_in_group(app, before[j], h));
            } else {
                assert(rows[j] == own[j - before.len()]);
                assert(stands_in_group(app, own[j - before.len()], index as int));
                assert(h == index);
                if i >= before.len() {
                    assert(rows[i] == own[i - before.len()]);
                    assert(stands_in_group(app, own[i - before.len()], index as int));
                    assert(g == index);
                    assert(is_before(spot(own[i - before.len()]), spot(own[j - before.len()])));
                } else {
                    assert(rows[i] == before[i]);
                    assert(stands_in_some_group(app, before[i], count - 1));
                    let f = choose|f: int|
                        0 <= f < count - 1 && #[trigger] stands_in_group(app, before[i], f);
                    assert(f == g);
                }
            }
        }
        assert forall|a: usize| #[trigger] in_open_group(app, a, count) <==> in_open_group(
            app,
            a,
            count - 1,
        ) || (is_open && group.albums.contains(a)) by {
            if in_open_group(app, a, count) {
                let g = choose|g: int|
                    0 <= g < count && app.expanded_folder_groups.contains(g as usize) && (
                    #[trigger] app.folder_groups[g]).albums.contains(a);
                if g < count - 1 {
                    assert(app.folder_groups[g].albums.contains(a));
                }
            }
        }
        assert forall|g: usize| #[trigger] rows.contains(LibraryRow::FolderGroup(g)) <==> g < count
            && app.group_shown(app.folder_groups[g as int]) by {
            lemma_either(before, own, LibraryRow::FolderGroup(g));
            assert(before.contains(LibraryRow::FolderGroup(g)) <==> g < count - 1
                && app.group_shown(app.folder_groups[g as int]));
        }
        assert forall|a: usize| #[trigger] rows.contains(LibraryRow::FolderAlbum(a))
            <==> in_open_group(app, a, count) && app.album_shown(
            app.folder_albums[a as int],
        ) by {
            lemma_either(before, own, LibraryRow::FolderAlbum(a));
            assert(before.contains(LibraryRow::FolderAlbum(a)) <==> in_open_group(app, a, count - 1)
                && app.album_shown(app.folder_albums[a as int]));
        }
        assert forall|a: usize, track: usize| #[trigger]
            rows.contains(LibraryRow::Track { album: a, track }) <==> in_open_group(app, a, count)
                && track_stands(app, app.folder_albums, a, track) by {
            lemma_either(before, own, LibraryRow::Track { album: a, track });
            assert(before.contains(LibraryRow::Track { album: a, track }) <==> in_open_group(
                app,
                a,
                count - 1,
            ) && track_stands(app, app.folder_albums, a, track));
        }
    }
}

/// In the view by folder the rows are those of the groups with an album that is
/// shown, below each expanded group those of its albums that are shown, and
/// below each expanded album those of its tracks that pass the filter. They come
/// in the order of the groups, of the albums in them and of the tracks in these.
pub proof fn law_rows_by_folder(app: AppView)
    requires
        app.view_mode == ViewMode::Folders,
        app.groups_fit(),
        app.folder_groups.len() <= usize::MAX,
        app.tracks_countable(),
    ensures
        ascend_in_groups(app, app.visible_rows()),
        forall|i: int|
            0 <= i < app.visible_rows().len() ==> stands_in_some_group(
                app,
                #[trigger] app.visible_rows()[i],
                app.folder_groups.len() as int,
            ),
        forall|g: usize| #[trigger]
            app.visible_rows().contains(LibraryRow::FolderGroup(g)) <==> g
                < app.folder_groups.len() && exists|a: usize| #[trigger]
                app.folder_groups[g as int].albums.contains(a) && app.album_shown(
                    app.folder_albums[a as int],
                ),
        forall|a: usize| #[trigger]
            app.visible_rows().contains(LibraryRow::FolderAlbum(a)) <==> in_open_group(
                app,
                a,
                app.folder_groups.len() as int,
            ) && app.album_shown(app.folder_albums[a as int]),
        forall|a: usize, track: usize| #[trigger]
            app.visible_rows().contains(LibraryRow::Track { album: a, track }) <==> in_open_group(
                app,
                a,
                app.folder_groups.len() as int,
            ) && track_stands(app, app.folder_albums, a, track),
{
    lemma_groups_apart(app);
    lemma_folder_rows(app, app.folder_groups.len() as int);
    let rows = app.visible_rows();
    assert forall|g: usize| #[trigger] rows.contains(LibraryRow::FolderGroup(g)) <==> g
        < app.folder_groups.len() && exists|a: usize| #[trigger]
        app.folder_groups[g as int].albums.contains(a) && app.album_shown(
            app.folder_albums[a as int],
        ) by {
        let group = app.folder_groups[g as int];
        if app.group_shown(group) {
            let k = choose|k: int|
                0 <= k < group.albums.len() && app.album_shown(
                    app.folder_albums[#[trigger] group.albums[k] as int],
                );
            assert(group.albums.contains(group.albums[k]));
        }
        if exists|a: usize| #[trigger]
            group.albums.contains(a) && app.album_shown(app.folder_albums[a as int]) {
            let a = choose|a: usize| #[trigger]
                group.albums.contains(a) && app.album_shown(app.folder_albums[a as int]);
            let k = choose|k: int| 0 <= k < group.albums.len() && group.albums[k] == a;
            assert(app.album_shown(app.folder_albums[group.albums[k] as int]));
        }
    }
}

} // verus!
