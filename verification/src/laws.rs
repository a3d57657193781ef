//! What holds of the browser as a whole.

use vstd::prelude::*;
use crate::browser::{Key, LibraryRow, ViewMode};
use crate::albums::AlbumView;
use crate::browser::{album_row_from, filter_option, is_album_row, AppView};
use crate::albums::{albums_of, distinct, folders_of, group_titles, groups_of, law_distinct};
use crate::albums::{members, positions};
use crate::rescan::{first_path, is_expanded_at, is_expanded_group, RowIdentity, ScanView};
use crate::text::{lowercase, trimmed};

verus! {

// ---------------------------------------------------------------------------
// What the rows depend on
// ---------------------------------------------------------------------------

/// Whether two browsers show the same library in the same way.
pub open spec fn show_alike(left: AppView, right: AppView) -> bool {
    &&& left.albums == right.albums
    &&& left.folder_albums == right.folder_albums
    &&& left.folder_groups == right.folder_groups
    &&& left.view_mode == right.view_mode
    &&& left.expanded_albums == right.expanded_albums
    &&& left.expanded_folder_groups == right.expanded_folder_groups
    &&& left.search == right.search
    &&& left.active_filter == right.active_filter
    &&& left.recent == right.recent
}

proof fn lemma_shown_alike(left: AppView, right: AppView, album: AlbumView)
    requires
        left.search == right.search,
        left.active_filter == right.active_filter,
        left.recent == right.recent,
    ensures
        left.album_shown(album) == right.album_shown(album),
{
    if left.album_shown(album) {
        let i = choose|i: int|
            0 <= i < album.tracks.len() && left.track_shown(#[trigger] album.tracks[i]);
        assert(right.track_shown(album.tracks[i]));
    }
    if right.album_shown(album) {
        let i = choose|i: int|
            0 <= i < album.tracks.len() && right.track_shown(#[trigger] album.tracks[i]);
        assert(left.track_shown(album.tracks[i]));
    }
}

proof fn lemma_track_rows_alike(left: AppView, right: AppView, index: usize, album: AlbumView, count: int)
    requires
        left.active_filter == right.active_filter,
        left.recent == right.recent,
    ensures
        left.track_rows(index, album, count) == right.track_rows(index, album, count),
    decreases count,
{
    if count > 0 {
        lemma_track_rows_alike(left, right, index, album, count - 1);
    }
}

proof fn lemma_album_rows_alike(left: AppView, right: AppView, row: LibraryRow, index: usize, album: AlbumView)
    requires
        left.search == right.search,
        left.active_filter == right.active_filter,
        left.recent == right.recent,
        left.expanded_albums.contains(index) == right.expanded_albums.contains(index),
    ensures
        left.album_rows(row, index, album) == right.album_rows(row, index, album),
{
    lemma_shown_alike(left, right, album);
    lemma_track_rows_alike(left, right, index, album, album.tracks.len() as int);
}

proof fn lemma_metadata_rows_alike(left: AppView, right: AppView, count: int)
    requires
        show_alike(left, right),
    ensures
        left.metadata_rows(count) == right.metadata_rows(count),
    decreases count,
{
    if count > 0 {
        lemma_metadata_rows_alike(left, right, count - 1);
        let index = (count - 1) as usize;
        lemma_album_rows_alike(
            left,
            right,
            LibraryRow::Album(index),
            index,
            left.albums[count - 1],
        );
    }
}

proof fn lemma_grouped_rows_alike(left: AppView, right: AppView, list: Seq<usize>, count: int)
    requires
        left.folder_albums == right.folder_albums,
        left.expanded_albums == right.expanded_albums,
        left.search == right.search,
        left.active_filter == right.active_filter,
        left.recent == right.recent,
    ensures
        left.grouped_rows(list, count) == right.grouped_rows(list, count),
    decreases count,
{
    if count > 0 {
        lemma_grouped_rows_alike(left, right, list, count - 1);
        let index = list[count - 1];
        lemma_album_rows_alike(
            left,
            right,
            LibraryRow::FolderAlbum(index),
            index,
            left.folder_albums[index as int],
        );
    }
}

proof fn lemma_group_shown_alike(left: AppView, right: AppView, group: crate::albums::GroupView)
    requires
        left.folder_albums == right.folder_albums,
        left.search == right.search,
        left.active_filter == right.active_filter,
        left.recent == right.recent,
    ensures
        left.group_shown(group) == right.group_shown(group),
{
    if left.group_shown(group) {
        let k = choose|k: int|
            0 <= k < group.albums.len() && left.album_shown(
                left.folder_albums[#[trigger] group.albums[k] as int],
            );
        lemma_shown_alike(left, right, left.folder_albums[group.albums[k] as int]);
        assert(right.group_shown(group));
    }
    if right.group_shown(group) {
        let k = choose|k: int|
            0 <= k < group.albums.len() && right.album_shown(
                right.folder_albums[#[trigger] group.albums[k] as int],
            );
        lemma_shown_alike(left, right, left.folder_albums[group.albums[k] as int]);
        assert(left.group_shown(group));
    }
}

proof fn lemma_folder_rows_alike(left: AppView, right: AppView, count: int)
    requires
        show_alike(left, right),
    ensures
        left.folder_rows(count) == right.folder_rows(count),
    decreases count,
{
    if count > 0 {
        lemma_folder_rows_alike(left, right, count - 1);
        let group = left.folder_groups[count - 1];
        lemma_group_shown_alike(left, right, group);
        lemma_grouped_rows_alike(left, right, group.albums, group.albums.len() as int);
    }
}

/// The rows depend on the library, the view, what is expanded, the search and
/// the filter, and on nothing else.
pub proof fn law_rows_depend_on(left: AppView, right: AppView)
    requires
        show_alike(left, right),
    ensures
        left.visible_rows() == right.visible_rows(),
{
    lemma_metadata_rows_alike(left, right, left.albums.len() as int);
    lemma_folder_rows_alike(left, right, left.folder_groups.len() as int);
}

// ---------------------------------------------------------------------------
// Moving through the rows
// ---------------------------------------------------------------------------

/// Moving the selection leaves the rows as they are and selects one of them.
pub proof fn law_moving_selects_a_row(app: AppView)
    requires
        app.visible_rows().len() <= usize::MAX,
    ensures
        app.moved_next().visible_rows() == app.visible_rows(),
        app.moved_previous().visible_rows() == app.visible_rows(),
        app.visible_rows().len() > 0 ==> app.moved_next().selected_row() is Some,
        app.visible_rows().len() > 0 && (app.selected is None || app.selected_row() is Some)
            ==> app.moved_previous().selected_row() is Some,
{
    law_rows_depend_on(app.moved_next(), app);
    law_rows_depend_on(app.moved_previous(), app);
    let count = app.visible_rows().len() as int;
    if count > 0 && app.selected is Some {
        let next = app.selected.unwrap() + 1;
        vstd::arithmetic::div_mod::lemma_mod_bound(next, count);
    }
}

/// Moving the selection on and back leaves the browser as it was.
pub proof fn law_moving_back(app: AppView)
    requires
        app.selected_row() is Some,
        app.visible_rows().len() <= usize::MAX,
    ensures
        app.moved_next().moved_previous() == app,
        app.moved_previous().moved_next() == app,
{
    law_rows_depend_on(app.moved_next(), app);
    law_rows_depend_on(app.moved_previous(), app);
    let count = app.visible_rows().len() as int;
    let index = app.selected.unwrap() as int;
    if index + 1 == count {
        vstd::arithmetic::div_mod::lemma_mod_self_0(count);
    } else {
        vstd::arithmetic::div_mod::lemma_small_mod((index + 1) as nat, count as nat);
    }
    if index == 0 {
        vstd::arithmetic::div_mod::lemma_mod_self_0(count);
    } else {
        vstd::arithmetic::div_mod::lemma_small_mod(index as nat, count as nat);
    }
    assert(app.moved_next().moved_previous() =~= app);
    assert(app.moved_previous().moved_next() =~= app);
}

/// Changing the view twice leads back to it, with everything collapsed.
pub proof fn law_view_toggles_back(app: AppView)
    ensures
        app.view_toggled().view_mode != app.view_mode,
        app.view_toggled().view_toggled().view_mode == app.view_mode,
        app.view_toggled().view_toggled().active_albums() == app.active_albums(),
        app.view_toggled().expanded_albums.is_empty(),
        app.view_toggled().expanded_folder_groups.is_empty(),
{
}

// ---------------------------------------------------------------------------
// Search and filter
// ---------------------------------------------------------------------------

/// A search is undone by clearing it: the rows are those from before.
pub proof fn law_search_is_undone(app: AppView, input: Seq<char>)
    requires
        app.search is None,
    ensures
        ({
            let typed = AppView { search_input: Some(input), ..app };
            typed.search_key(Key::Enter).search_cleared().visible_rows() == app.visible_rows()
        }),
{
    let typed = AppView { search_input: Some(input), ..app };
    law_rows_depend_on(typed.search_key(Key::Enter).search_cleared(), app);
}

/// Searching and filtering expand and collapse nothing.
pub proof fn law_filtering_keeps_expanded(app: AppView, key: Key)
    ensures
        app.filter_key(key).expanded_albums == app.expanded_albums,
        app.filter_key(key).expanded_folder_groups == app.expanded_folder_groups,
        app.search_key(key).expanded_albums == app.expanded_albums,
        app.search_key(key).expanded_folder_groups == app.expanded_folder_groups,
        app.search_cleared().expanded_albums == app.expanded_albums,
        app.search_cleared().expanded_folder_groups == app.expanded_folder_groups,
{
}

/// After a search or a filter is applied the first row is selected, if there is
/// one.
pub proof fn law_filtering_selects_the_first_row(app: AppView)
    ensures
        ({
            let searched = app.search_key(Key::Enter);
            searched.selected == searched.first_row()
        }),
        ({
            let filtered = app.filter_key(Key::Enter);
            filtered.selected == filtered.first_row()
        }),
{
    let searched = app.search_key(Key::Enter);
    let input = app.search_input.unwrap();
    law_rows_depend_on(
        searched,
        AppView {
            search: if trimmed(input).len() > 0 {
                Some(lowercase(trimmed(input)))
            } else {
                None
            },
            search_input: None,
            ..app
        },
    );
    let filtered = app.filter_key(Key::Enter);
    let index = app.filter_menu.unwrap();
    law_rows_depend_on(
        filtered,
        AppView { active_filter: filter_option(index as int), filter_menu: None, ..app },
    );
}

/// Under a filter only tracks that pass it are shown.
pub proof fn law_shown_tracks_pass_the_filter(app: AppView, index: usize, album: AlbumView, count: int)
    requires
        count <= album.tracks.len() <= usize::MAX,
    ensures
        forall|i: int|
            0 <= i < app.track_rows(index, album, count).len() ==> (#[trigger] app.track_rows(
                index,
                album,
                count,
            )[i] matches LibraryRow::Track { album: a, track: t } && a == index && t < count
                && app.track_shown(album.tracks[t as int])),
    decreases count,
{
    if count > 0 {
        law_shown_tracks_pass_the_filter(app, index, album, count - 1);
        let before = app.track_rows(index, album, count - 1);
        let rows = app.track_rows(index, album, count);
        assert forall|i: int| 0 <= i < rows.len() implies (#[trigger] rows[i]
            matches LibraryRow::Track { album: a, track: t } && a == index && t < count
            && app.track_shown(album.tracks[t as int])) by {
            if i < before.len() {
                assert(rows[i] == before[i]);
            }
        }
    }
}

// ---------------------------------------------------------------------------
// Collapsing
// ---------------------------------------------------------------------------

/// Rows without those of the tracks of an album.
spec fn without_tracks(rows: Seq<LibraryRow>, album: usize) -> Seq<LibraryRow>
    decreases rows.len(),
{
    if rows.len() == 0 {
        Seq::empty()
    } else {
        let before = without_tracks(rows.drop_last(), album);
        if is_track_of(rows.last(), album) {
            before
        } else {
            before.push(rows.last())
        }
    }
}

spec fn is_track_of(row: LibraryRow, album: usize) -> bool {
    row matches LibraryRow::Track { album: index, track: _ } && index == album
}

proof fn lemma_without_concat(left: Seq<LibraryRow>, right: Seq<LibraryRow>, album: usize)
    ensures
        without_tracks(left + right, album) == without_tracks(left, album) + without_tracks(
            right,
            album,
        ),
    decreases right.len(),
{
    if right.len() == 0 {
        assert(left + right =~= left);
        assert(without_tracks(left, album) + without_tracks(right, album) =~= without_tracks(
            left,
            album,
        ));
    } else {
        lemma_without_concat(left, right.drop_last(), album);
        assert((left + right).drop_last() =~= left + right.drop_last());
        assert(without_tracks(left + right, album) =~= without_tracks(left, album)
            + without_tracks(right, album));
    }
}

proof fn lemma_without_keeps(rows: Seq<LibraryRow>, album: usize)
    requires
        forall|i: int| 0 <= i < rows.len() ==> !is_track_of(#[trigger] rows[i], album),
    ensures
        without_tracks(rows, album) == rows,
    decreases rows.len(),
{
    if rows.len() > 0 {
        let before = rows.drop_last();
        assert forall|i: int| 0 <= i < before.len() implies !is_track_of(
            #[trigger] before[i],
            album,
        ) by {
            assert(before[i] == rows[i]);
        }
        lemma_without_keeps(before, album);
        assert(!is_track_of(rows[rows.len() - 1], album));
        assert(before.push(rows.last()) =~= rows);
    } else {
        assert(without_tracks(rows, album) =~= rows);
    }
}

proof fn lemma_without_drops(rows: Seq<LibraryRow>, album: usize)
    requires
        forall|i: int| 0 <= i < rows.len() ==> is_track_of(#[trigger] rows[i], album),
    ensures
        without_tracks(rows, album) == Seq::<LibraryRow>::empty(),
    decreases rows.len(),
{
    if rows.len() > 0 {
        let before = rows.drop_last();
        assert forall|i: int| 0 <= i < before.len() implies is_track_of(
            #[trigger] before[i],
            album,
        ) by {
            assert(before[i] == rows[i]);
        }
        lemma_without_drops(before, album);
        assert(is_track_of(rows[rows.len() - 1], album));
    }
}

/// Whether each track of an album stands behind the row of the album.
spec fn is_headed(rows: Seq<LibraryRow>, album: usize) -> bool {
    forall|t: int|
        0 <= t < rows.len() && is_track_of(#[trigger] rows[t], album) ==> exists|p: int|
            0 <= p < t && is_album_row(#[trigger] rows[p], album)
}

proof fn lemma_headed_concat(left: Seq<LibraryRow>, right: Seq<LibraryRow>, album: usize)
    requires
        is_headed(left, album),
        is_headed(right, album),
    ensures
        is_headed(left + right, album),
{
    let all = left + right;
    assert forall|t: int|
        0 <= t < all.len() && is_track_of(#[trigger] all[t], album) implies exists|p: int|
        0 <= p < t && is_album_row(#[trigger] all[p], album) by {
        if t < left.len() {
            assert(is_track_of(left[t], album));
            let p = choose|p: int| 0 <= p < t && is_album_row(#[trigger] left[p], album);
            assert(all[p] == left[p]);
        } else {
            let u = t - left.len();
            assert(is_track_of(right[u], album));
            let p = choose|p: int| 0 <= p < u && is_album_row(#[trigger] right[p], album);
            assert(all[left.len() + p] == right[p]);
        }
    }
}

proof fn lemma_track_rows_of(app: AppView, index: usize, of: AlbumView, count: int)
    ensures
        forall|i: int|
            0 <= i < app.track_rows(index, of, count).len() ==> is_track_of(
                #[trigger] app.track_rows(index, of, count)[i],
                index,
            ),
    decreases count,
{
    if count > 0 {
        lemma_track_rows_of(app, index, of, count - 1);
        let before = app.track_rows(index, of, count - 1);
        let rows = app.track_rows(index, of, count);
        assert forall|i: int| 0 <= i < rows.len() implies is_track_of(#[trigger] rows[i], index) by {
            if i < before.len() {
                assert(rows[i] == before[i]);
            }
        }
    }
}

spec fn collapsed(app: AppView, album: usize) -> AppView {
    AppView { expanded_albums: app.expanded_albums.remove(album), ..app }
}

proof fn lemma_album_rows_collapse(app: AppView, row: LibraryRow, index: usize, of: AlbumView, album: usize)
    requires
        is_album_row(row, index),
    ensures
        collapsed(app, album).album_rows(row, index, of) == without_tracks(
            app.album_rows(row, index, of),
            album,
        ),
        is_headed(app.album_rows(row, index, of), album),
{
    let after = collapsed(app, album);
    let rows = app.album_rows(row, index, of);
    let tracks = app.track_rows(index, of, of.tracks.len() as int);
    lemma_shown_alike(app, after, of);
    lemma_track_rows_of(app, index, of, of.tracks.len() as int);
    if app.album_shown(of) {
        let own = seq![row];
        assert forall|i: int| 0 <= i < own.len() implies !is_track_of(#[trigger] own[i], album) by {}
        lemma_without_keeps(own, album);
        lemma_without_concat(own, tracks, album);
        if index == album {
            lemma_without_drops(tracks, album);
            assert(own + Seq::<LibraryRow>::empty() =~= own);
        } else {
            assert forall|i: int| 0 <= i < tracks.len() implies !is_track_of(
                #[trigger] tracks[i],
                album,
            ) by {
                assert(is_track_of(tracks[i], index));
            }
            lemma_without_keeps(tracks, album);
            lemma_track_rows_alike(app, after, index, of, of.tracks.len() as int);
        }
        assert forall|t: int|
            0 <= t < rows.len() && is_track_of(#[trigger] rows[t], album) implies exists|p: int|
            0 <= p < t && is_album_row(#[trigger] rows[p], album) by {
            assert(rows[0] == row);
            if t > 0 {
                assert(rows[t] == tracks[t - 1]);
                assert(is_track_of(tracks[t - 1], index));
                assert(is_album_row(rows[0], album));
            }
        }
    } else {
        assert(without_tracks(rows, album) =~= Seq::empty());
    }
}

proof fn lemma_metadata_rows_collapse(app: AppView, count: int, album: usize)
    requires
        count <= app.albums.len(),
    ensures
        collapsed(app, album).metadata_rows(count) == without_tracks(
            app.metadata_rows(count),
            album,
        ),
        is_headed(app.metadata_rows(count), album),
    decreases count,
{
    if count > 0 {
        lemma_metadata_rows_collapse(app, count - 1, album);
        let index = (count - 1) as usize;
        let row = LibraryRow::Album(index);
        let own = app.album_rows(row, index, app.albums[count - 1]);
        lemma_album_rows_collapse(app, row, index, app.albums[count - 1], album);
        lemma_without_concat(app.metadata_rows(count - 1), own, album);
        lemma_headed_concat(app.metadata_rows(count - 1), own, album);
    }
}

proof fn lemma_grouped_rows_collapse(app: AppView, list: Seq<usize>, count: int, album: usize)
    ensures
        collapsed(app, album).grouped_rows(list, count) == without_tracks(
            app.grouped_rows(list, count),
            album,
        ),
        is_headed(app.grouped_rows(list, count), album),
    decreases count,
{
    if count > 0 {
        lemma_grouped_rows_collapse(app, list, count - 1, album);
        let index = list[count - 1];
        let row = LibraryRow::FolderAlbum(index);
        let of = app.folder_albums[index as int];
        let own = app.album_rows(row, index, of);
        lemma_album_rows_collapse(app, row, index, of, album);
        lemma_without_concat(app.grouped_rows(list, count - 1), own, album);
        lemma_headed_concat(app.grouped_rows(list, count - 1), own, album);
    }
}

proof fn lemma_folder_rows_collapse(app: AppView, count: int, album: usize)
    ensures
        collapsed(app, album).folder_rows(count) == without_tracks(app.folder_rows(count), album),
        is_headed(app.folder_rows(count), album),
    decreases count,
{
    if count > 0 {
        lemma_folder_rows_collapse(app, count - 1, album);
        let after = collapsed(app, album);
        let group = app.folder_groups[count - 1];
        let index = (count - 1) as usize;
        let own = app.group_rows(index, group);
        lemma_group_shown_alike(app, after, group);
        let head = seq![LibraryRow::FolderGroup(index)];
        let rest = app.grouped_rows(group.albums, group.albums.len() as int);
        lemma_grouped_rows_collapse(app, group.albums, group.albums.len() as int, album);
        assert forall|i: int| 0 <= i < head.len() implies !is_track_of(
            #[trigger] head[i],
            album,
        ) by {}
        lemma_without_keeps(head, album);
        lemma_without_concat(head, rest, album);
        assert(is_headed(head, album));
        lemma_headed_concat(head, rest, album);
        if !app.group_shown(group) {
            assert(without_tracks(own, album) =~= Seq::empty());
            assert(is_headed(own, album));
        }
        assert(after.group_rows(index, group) == without_tracks(own, album));
        lemma_without_concat(app.folder_rows(count - 1), own, album);
        lemma_headed_concat(app.folder_rows(count - 1), own, album);
    }
}

proof fn lemma_album_row_from(rows: Seq<LibraryRow>, album: usize, from: int)
    requires
        0 <= from <= rows.len() <= usize::MAX,
    ensures
        match album_row_from(rows, album, from) {
            Some(at) => from <= at < rows.len() && is_album_row(rows[at as int], album) && forall|
                i: int,
            |
                from <= i < at ==> !is_album_row(#[trigger] rows[i], album),
            None => forall|i: int| from <= i < rows.len() ==> !is_album_row(#[trigger] rows[i], album),
        },
    decreases rows.len() - from,
{
    if from < rows.len() && !is_album_row(rows[from], album) {
        lemma_album_row_from(rows, album, from + 1);
    }
}

/// Collapsing from a track selects the row of its album, which is collapsed.
pub proof fn law_collapsing_selects_the_album(app: AppView, album: usize, track: usize)
    requires
        app.selected_row() == Some(LibraryRow::Track { album, track }),
        app.visible_rows().len() <= usize::MAX,
    ensures
        app.with_selected_collapsed().selected_row() matches Some(row) && is_album_row(row, album),
        !app.with_selected_collapsed().expanded_albums.contains(album),
{
    let rows = app.visible_rows();
    let after = app.with_selected_collapsed();
    match app.view_mode {
        ViewMode::AlbumMetadata => lemma_metadata_rows_collapse(
            app,
            app.albums.len() as int,
            album,
        ),
        ViewMode::Folders => lemma_folder_rows_collapse(app, app.folder_groups.len() as int, album),
    }
    assert(is_headed(rows, album));
    let at = app.selected.unwrap() as int;
    assert(is_track_of(rows[at], album));
    lemma_album_row_from(rows, album, 0);
    let place = album_row_from(rows, album, 0).unwrap() as int;
    let start = rows.take(place + 1);
    let rest = rows.skip(place + 1);
    assert forall|i: int| 0 <= i < start.len() implies !is_track_of(#[trigger] start[i], album) by {
        assert(start[i] == rows[i]);
        if is_track_of(rows[i], album) {
            let p = choose|p: int| 0 <= p < i && is_album_row(#[trigger] rows[p], album);
            assert(p < place);
        }
    }
    lemma_without_keeps(start, album);
    lemma_without_concat(start, rest, album);
    assert(start + rest =~= rows);
    law_rows_depend_on(after, collapsed(app, album));
    assert(after.visible_rows() == without_tracks(rows, album));
    assert(after.visible_rows()[place] == start[place]);
}

// ---------------------------------------------------------------------------
// Expanding and collapsing again
// ---------------------------------------------------------------------------

/// The album whose row this is.
spec fn album_of_row(row: LibraryRow) -> Option<usize> {
    match row {
        LibraryRow::Album(album) => Some(album),
        LibraryRow::FolderAlbum(album) => Some(album),
        _ => None,
    }
}

/// Whether no album has two rows.
spec fn albums_once(rows: Seq<LibraryRow>) -> bool {
    forall|i: int, j: int|
        0 <= i < rows.len() && 0 <= j < rows.len() && album_of_row(#[trigger] rows[i]) is Some
            && album_of_row(rows[i]) == album_of_row(#[trigger] rows[j]) ==> i == j
}

/// Whether every album with a row is in a set.
spec fn albums_within(rows: Seq<LibraryRow>, set: Set<usize>) -> bool {
    forall|i: int|
        0 <= i < rows.len() ==> (album_of_row(#[trigger] rows[i]) matches Some(album)
            ==> set.contains(album))
}

proof fn lemma_once_concat(left: Seq<LibraryRow>, right: Seq<LibraryRow>, one: Set<usize>, other: Set<usize>)
    requires
        albums_once(left),
        albums_once(right),
        albums_within(left, one),
        albums_within(right, other),
        one.disjoint(other),
    ensures
        albums_once(left + right),
        albums_within(left + right, one.union(other)),
{
    let all = left + right;
    assert forall|i: int| 0 <= i < all.len() implies (album_of_row(#[trigger] all[i]) matches Some(
        album,
    ) ==> one.union(other).contains(album)) by {
        if i < left.len() {
            assert(all[i] == left[i]);
        } else {
            assert(all[i] == right[i - left.len()]);
        }
    }
    assert forall|i: int, j: int|
        0 <= i < all.len() && 0 <= j < all.len() && album_of_row(#[trigger] all[i]) is Some
            && album_of_row(all[i]) == album_of_row(#[trigger] all[j]) implies i == j by {
        let album = album_of_row(all[i]).unwrap();
        if i < left.len() && j < left.len() {
            assert(all[i] == left[i] && all[j] == left[j]);
        } else if i >= left.len() && j >= left.len() {
            assert(all[i] == right[i - left.len()] && all[j] == right[j - left.len()]);
        } else if i < left.len() {
            assert(all[i] == left[i] && all[j] == right[j - left.len()]);
            assert(one.contains(album) && other.contains(album));
        } else {
            assert(all[i] == right[i - left.len()] && all[j] == left[j]);
            assert(one.contains(album) && other.contains(album));
        }
    }
}

proof fn lemma_album_rows_once(app: AppView, row: LibraryRow, index: usize, of: AlbumView)
    requires
        is_album_row(row, index),
    ensures
        albums_once(app.album_rows(row, index, of)),
        albums_within(app.album_rows(row, index, of), set![index]),
{
    let rows = app.album_rows(row, index, of);
    let tracks = app.track_rows(index, of, of.tracks.len() as int);
    lemma_track_rows_of(app, index, of, of.tracks.len() as int);
    assert forall|i: int| 0 < i < rows.len() implies album_of_row(#[trigger] rows[i]) is None by {
        assert(rows[i] == tracks[i - 1]);
        assert(is_track_of(tracks[i - 1], index));
    }
}

proof fn lemma_metadata_rows_once(app: AppView, count: int)
    requires
        count <= usize::MAX,
    ensures
        albums_once(app.metadata_rows(count)),
        albums_within(app.metadata_rows(count), Set::new(|album: usize| album < count)),
    decreases count,
{
    if count > 0 {
        lemma_metadata_rows_once(app, count - 1);
        let index = (count - 1) as usize;
        lemma_album_rows_once(app, LibraryRow::Album(index), index, app.albums[count - 1]);
        let before = Set::new(|album: usize| album < count - 1);
        lemma_once_concat(
            app.metadata_rows(count - 1),
            app.album_rows(LibraryRow::Album(index), index, app.albums[count - 1]),
            before,
            set![index],
        );
        assert(before.union(set![index]) =~= Set::new(|album: usize| album < count));
    }
}

proof fn lemma_grouped_rows_once(app: AppView, list: Seq<usize>, count: int)
    requires
        count <= list.len(),
        list.no_duplicates(),
    ensures
        albums_once(app.grouped_rows(list, count)),
        albums_within(
            app.grouped_rows(list, count),
            Set::new(|album: usize| exists|k: int| 0 <= k < count && #[trigger] list[k] == album),
        ),
    decreases count,
{
    if count > 0 {
        lemma_grouped_rows_once(app, list, count - 1);
        let index = list[count - 1];
        let of = app.folder_albums[index as int];
        lemma_album_rows_once(app, LibraryRow::FolderAlbum(index), index, of);
        let before = Set::new(
            |album: usize| exists|k: int| 0 <= k < count - 1 && #[trigger] list[k] == album,
        );
        assert(before.disjoint(set![index]));
        lemma_once_concat(
            app.grouped_rows(list, count - 1),
            app.album_rows(LibraryRow::FolderAlbum(index), index, of),
            before,
            set![index],
        );
        assert(before.union(set![index]) =~= Set::new(
            |album: usize| exists|k: int| 0 <= k < count && #[trigger] list[k] == album,
        ));
    }
}

proof fn lemma_members_of_positions(count: nat, keys: Seq<Seq<char>>, key: Seq<char>)
    requires
        count == keys.len(),
        count <= usize::MAX,
    ensures
        forall|i: int|
            0 <= i < members(positions(count), keys, key).len() ==> #[trigger] members(
                positions(count),
                keys,
                key,
            )[i] < count && keys[members(positions(count), keys, key)[i] as int] == key,
        members(positions(count), keys, key).no_duplicates(),
    decreases count,
{
    if count > 0 {
        let fewer = (count - 1) as nat;
        assert(positions(count).drop_last() =~= positions(fewer));
        lemma_members_of_positions(fewer, keys.drop_last(), key);
        let before = members(positions(fewer), keys.drop_last(), key);
        let all = members(positions(count), keys, key);
        assert forall|i: int| 0 <= i < all.len() implies #[trigger] all[i] < count
            && keys[all[i] as int] == key by {
            if i < before.len() {
                assert(all[i] == before[i]);
            } else {
                assert(all[i] == positions(count)[count - 1]);
            }
        }
        assert forall|i: int, j: int| 0 <= i < all.len() && 0 <= j < all.len() && i != j implies all[i]
            != all[j] by {
            if i < before.len() && j < before.len() {
                assert(all[i] == before[i] && all[j] == before[j]);
            } else if i < before.len() {
                assert(all[i] == before[i] && all[j] == fewer);
            } else if j < before.len() {
                assert(all[j] == before[j] && all[i] == fewer);
            }
        }
    }
}

/// The albums of the first groups.
spec fn albums_of_groups(app: AppView, count: int) -> Set<usize> {
    Set::new(
        |album: usize|
            exists|g: int| 0 <= g < count && #[trigger] app.folder_groups[g].albums.contains(album),
    )
}

proof fn lemma_folder_rows_once(app: AppView, count: int)
    requires
        app.groups_fit(),
        count <= app.folder_groups.len(),
    ensures
        albums_once(app.folder_rows(count)),
        albums_within(app.folder_rows(count), albums_of_groups(app, count)),
    decreases count,
{
    if count > 0 {
        lemma_folder_rows_once(app, count - 1);
        let names = group_titles(app.folder_albums);
        let titles = distinct(names);
        law_distinct(names);
        let group = app.folder_groups[count - 1];
        let list = group.albums;
        lemma_members_of_positions(app.folder_albums.len(), names, titles[count - 1]);
        let own = Set::new(
            |album: usize|
                exists|k: int| 0 <= k < list.len() && #[trigger] list[k] == album,
        );
        let before = albums_of_groups(app, count - 1);
        assert forall|album: usize| !(before.contains(album) && own.contains(album)) by {
            if before.contains(album) && own.contains(album) {
                let g = choose|g: int|
                    0 <= g < count - 1 && #[trigger] app.folder_groups[g].albums.contains(album);
                lemma_members_of_positions(app.folder_albums.len(), names, titles[g]);
                let k = choose|k: int|
                    0 <= k < app.folder_groups[g].albums.len()
                        && app.folder_groups[g].albums[k] == album;
                let l = choose|l: int| 0 <= l < list.len() && #[trigger] list[l] == album;
                assert(names[album as int] == titles[g]);
                assert(names[album as int] == titles[count - 1]);
            }
        }
        lemma_grouped_rows_once(app, list, list.len() as int);
        let index = (count - 1) as usize;
        let head = seq![LibraryRow::FolderGroup(index)];
        let rows = app.grouped_rows(list, list.len() as int);
        lemma_once_concat(head, rows, Set::empty(), own);
        assert(Set::<usize>::empty().union(own) =~= own);
        assert(albums_once(app.group_rows(index, group)));
        assert(albums_within(app.group_rows(index, group), own));
        lemma_once_concat(
            app.folder_rows(count - 1),
            app.group_rows(index, group),
            before,
            own,
        );
        assert forall|album: usize| before.union(own).contains(album) implies albums_of_groups(
            app,
            count,
        ).contains(album) by {
            if own.contains(album) {
                let l = choose|l: int| 0 <= l < list.len() && #[trigger] list[l] == album;
                assert(app.folder_groups[count - 1].albums.contains(album));
            } else {
                let g = choose|g: int|
                    0 <= g < count - 1 && #[trigger] app.folder_groups[g].albums.contains(album);
                assert(app.folder_groups[g].albums.contains(album));
            }
        }
    }
}

/// No album is shown twice.
pub proof fn law_albums_are_shown_once(app: AppView, i: int, j: int, album: usize)
    requires
        app.groups_fit(),
        app.albums.len() <= usize::MAX,
        0 <= i < app.visible_rows().len(),
        0 <= j < app.visible_rows().len(),
        is_album_row(app.visible_rows()[i], album),
        is_album_row(app.visible_rows()[j], album),
    ensures
        i == j,
{
    lemma_rows_once(app);
    let rows = app.visible_rows();
    assert(album_of_row(rows[i]) == Some(album) && album_of_row(rows[j]) == Some(album));
}

proof fn lemma_rows_once(app: AppView)
    requires
        app.groups_fit(),
        app.albums.len() <= usize::MAX,
    ensures
        albums_once(app.visible_rows()),
{
    match app.view_mode {
        ViewMode::AlbumMetadata => lemma_metadata_rows_once(app, app.albums.len() as int),
        ViewMode::Folders => lemma_folder_rows_once(app, app.folder_groups.len() as int),
    }
}

proof fn lemma_without_holds(rows: Seq<LibraryRow>, album: usize, at: int)
    requires
        0 <= at < without_tracks(rows, album).len(),
    ensures
        rows.contains(without_tracks(rows, album)[at]),
    decreases rows.len(),
{
    let before = without_tracks(rows.drop_last(), album);
    if at < before.len() {
        lemma_without_holds(rows.drop_last(), album, at);
        let k = choose|k: int| 0 <= k < rows.drop_last().len() && rows.drop_last()[k] == before[at];
        assert(rows[k] == before[at]);
    } else {
        assert(rows[rows.len() - 1] == rows.last());
    }
}

/// The row of an album stands at the same place whether the album is expanded
/// or collapsed.
proof fn lemma_album_row_stays(open: AppView, album: usize, at: int, in_open: bool)
    requires
        open.groups_fit(),
        open.albums.len() <= usize::MAX,
        open.visible_rows().len() <= usize::MAX,
        ({
            let rows = if in_open {
                open.visible_rows()
            } else {
                collapsed(open, album).visible_rows()
            };
            0 <= at < rows.len() && is_album_row(rows[at], album)
        }),
    ensures
        at < open.visible_rows().len(),
        at < collapsed(open, album).visible_rows().len(),
        open.visible_rows()[at] == collapsed(open, album).visible_rows()[at],
{
    let shut = collapsed(open, album);
    let rows = open.visible_rows();
    match open.view_mode {
        ViewMode::AlbumMetadata => lemma_metadata_rows_collapse(
            open,
            open.albums.len() as int,
            album,
        ),
        ViewMode::Folders => lemma_folder_rows_collapse(
            open,
            open.folder_groups.len() as int,
            album,
        ),
    }
    assert(shut.visible_rows() == without_tracks(rows, album));
    assert(is_headed(rows, album));
    if !in_open {
        lemma_without_holds(rows, album, at);
    }
    lemma_album_row_from(rows, album, 0);
    let place = album_row_from(rows, album, 0).unwrap() as int;
    let start = rows.take(place + 1);
    let rest = rows.skip(place + 1);
    assert forall|i: int| 0 <= i < start.len() implies !is_track_of(#[trigger] start[i], album) by {
        assert(start[i] == rows[i]);
        if is_track_of(rows[i], album) {
            let p = choose|p: int| 0 <= p < i && is_album_row(#[trigger] rows[p], album);
            assert(p < place);
        }
    }
    lemma_without_keeps(start, album);
    lemma_without_concat(start, rest, album);
    assert(start + rest =~= rows);
    assert(shut.visible_rows()[place] == start[place]);
    if in_open {
        law_albums_are_shown_once(open, at, place, album);
    } else {
        law_albums_are_shown_once(shut, at, place, album);
    }
}

/// Enter on an album expands it or collapses it and keeps it selected; Enter
/// again leads back.
pub proof fn law_toggling_an_album_undoes_itself(app: AppView, album: usize)
    requires
        app.groups_fit(),
        app.albums.len() <= usize::MAX,
        app.visible_rows().len() <= usize::MAX,
        app.with_album_toggled(album).visible_rows().len() <= usize::MAX,
        app.selected_row() matches Some(row) && is_album_row(row, album),
    ensures
        app.with_selected_toggled().expanded_albums.contains(album)
            == !app.expanded_albums.contains(album),
        app.with_selected_toggled().selected_row() == app.selected_row(),
        app.with_selected_toggled().with_selected_toggled() == app,
{
    let toggled = app.with_selected_toggled();
    let at = app.selected.unwrap() as int;
    if app.expanded_albums.contains(album) {
        lemma_album_row_stays(app, album, at, true);
        assert(toggled =~= collapsed(app, album));
        assert(toggled.expanded_albums.insert(album) =~= app.expanded_albums);
    } else {
        assert(toggled.expanded_albums.remove(album) =~= app.expanded_albums);
        assert(collapsed(toggled, album) =~= app);
        lemma_album_row_stays(toggled, album, at, false);
    }
    assert(toggled.selected_row() == app.selected_row());
    assert(toggled.with_selected_toggled() =~= app);
}

spec fn is_group_row(row: LibraryRow) -> bool {
    row is FolderGroup
}

proof fn lemma_album_rows_no_group(app: AppView, row: LibraryRow, index: usize, of: AlbumView)
    requires
        is_album_row(row, index),
    ensures
        forall|i: int|
            0 <= i < app.album_rows(row, index, of).len() ==> !is_group_row(
                #[trigger] app.album_rows(row, index, of)[i],
            ),
{
    let rows = app.album_rows(row, index, of);
    let tracks = app.track_rows(index, of, of.tracks.len() as int);
    lemma_track_rows_of(app, index, of, of.tracks.len() as int);
    assert forall|i: int| 0 <= i < rows.len() implies !is_group_row(#[trigger] rows[i]) by {
        if i > 0 {
            assert(rows[i] == tracks[i - 1]);
            assert(is_track_of(tracks[i - 1], index));
        }
    }
}

proof fn lemma_metadata_rows_no_group(app: AppView, count: int)
    ensures
        forall|i: int|
            0 <= i < app.metadata_rows(count).len() ==> !is_group_row(
                #[trigger] app.metadata_rows(count)[i],
            ),
    decreases count,
{
    if count > 0 {
        lemma_metadata_rows_no_group(app, count - 1);
        let index = (count - 1) as usize;
        lemma_album_rows_no_group(app, LibraryRow::Album(index), index, app.albums[count - 1]);
        let before = app.metadata_rows(count - 1);
        let own = app.album_rows(LibraryRow::Album(index), index, app.albums[count - 1]);
        let rows = app.metadata_rows(count);
        assert forall|i: int| 0 <= i < rows.len() implies !is_group_row(#[trigger] rows[i]) by {
            if i < before.len() {
                assert(rows[i] == before[i]);
            } else {
                assert(rows[i] == own[i - before.len()]);
            }
        }
    }
}

proof fn lemma_grouped_rows_no_group(app: AppView, list: Seq<usize>, count: int)
    ensures
        forall|i: int|
            0 <= i < app.grouped_rows(list, count).len() ==> !is_group_row(
                #[trigger] app.grouped_rows(list, count)[i],
            ),
    decreases count,
{
    if count > 0 {
        lemma_grouped_rows_no_group(app, list, count - 1);
        let index = list[count - 1];
        let of = app.folder_albums[index as int];
        lemma_album_rows_no_group(app, LibraryRow::FolderAlbum(index), index, of);
        let before = app.grouped_rows(list, count - 1);
        let own = app.album_rows(LibraryRow::FolderAlbum(index), index, of);
        let rows = app.grouped_rows(list, count);
        assert forall|i: int| 0 <= i < rows.len() implies !is_group_row(#[trigger] rows[i]) by {
            if i < before.len() {
                assert(rows[i] == before[i]);
            } else {
                assert(rows[i] == own[i - before.len()]);
            }
        }
    }
}

/// The row of a group stands behind the rows of the groups before it.
proof fn lemma_group_row_place(app: AppView, count: int, at: int, group: usize)
    requires
        count <= usize::MAX,
        0 <= at < app.folder_rows(count).len(),
        app.folder_rows(count)[at] == LibraryRow::FolderGroup(group),
    ensures
        group < count,
        at == app.folder_rows(group as int).len(),
        app.group_shown(app.folder_groups[group as int]),
    decreases count,
{
    let before = app.folder_rows(count - 1);
    let index = (count - 1) as usize;
    let of = app.folder_groups[count - 1];
    let own = app.group_rows(index, of);
    if at < before.len() {
        lemma_group_row_place(app, count - 1, at, group);
    } else {
        let place = at - before.len();
        assert(own[place] == LibraryRow::FolderGroup(group));
        lemma_grouped_rows_no_group(app, of.albums, of.albums.len() as int);
        if place > 0 {
            assert(own[place] == app.grouped_rows(of.albums, of.albums.len() as int)[place - 1]);
            assert(is_group_row(own[place]));
        }
    }
}

proof fn lemma_folder_rows_hold(app: AppView, count: int, group: usize)
    requires
        group < count <= usize::MAX,
        app.group_shown(app.folder_groups[group as int]),
    ensures
        app.folder_rows(group as int).len() < app.folder_rows(count).len(),
        app.folder_rows(count)[app.folder_rows(group as int).len() as int]
            == LibraryRow::FolderGroup(group),
    decreases count,
{
    if count > group + 1 {
        lemma_folder_rows_hold(app, count - 1, group);
    } else {
        let own = app.group_rows(group, app.folder_groups[group as int]);
        assert(own[0] == LibraryRow::FolderGroup(group));
    }
}

proof fn lemma_folder_rows_before(left: AppView, right: AppView, count: int, group: usize)
    requires
        count <= group,
        left.folder_albums == right.folder_albums,
        left.folder_groups == right.folder_groups,
        left.expanded_albums == right.expanded_albums,
        left.search == right.search,
        left.active_filter == right.active_filter,
        left.recent == right.recent,
        forall|other: usize|
            other != group ==> (#[trigger] left.expanded_folder_groups.contains(other)
                <==> right.expanded_folder_groups.contains(other)),
    ensures
        left.folder_rows(count) == right.folder_rows(count),
    decreases count,
{
    if count > 0 {
        lemma_folder_rows_before(left, right, count - 1, group);
        let of = left.folder_groups[count - 1];
        let index = (count - 1) as usize;
        assert(left.expanded_folder_groups.contains(index)
            <==> right.expanded_folder_groups.contains(index));
        lemma_group_shown_alike(left, right, of);
        lemma_grouped_rows_alike(left, right, of.albums, of.albums.len() as int);
    }
}

/// Enter on a group expands it or collapses it and keeps it selected; Enter
/// again leads back.
pub proof fn law_toggling_a_group_undoes_itself(app: AppView, group: usize)
    requires
        app.folder_groups.len() <= usize::MAX,
        app.selected_row() == Some(LibraryRow::FolderGroup(group)),
    ensures
        app.with_selected_toggled().expanded_folder_groups.contains(group)
            == !app.expanded_folder_groups.contains(group),
        app.with_selected_toggled().selected_row() == app.selected_row(),
        app.with_selected_toggled().with_selected_toggled() == app,
{
    let changed = app.with_selected_toggled();
    let at = app.selected.unwrap() as int;
    let count = app.folder_groups.len() as int;
    if app.view_mode == ViewMode::AlbumMetadata {
        lemma_metadata_rows_no_group(app, app.albums.len() as int);
        assert(is_group_row(app.visible_rows()[at]));
    }
    lemma_group_row_place(app, count, at, group);
    lemma_folder_rows_before(app, changed, group as int, group);
    lemma_group_shown_alike(app, changed, app.folder_groups[group as int]);
    lemma_folder_rows_hold(changed, count, group);
    assert(changed.selected_row() == app.selected_row());
    if app.expanded_folder_groups.contains(group) {
        assert(changed.expanded_folder_groups.insert(group) =~= app.expanded_folder_groups);
    } else {
        assert(changed.expanded_folder_groups.remove(group) =~= app.expanded_folder_groups);
    }
    assert(changed.with_selected_toggled() =~= app);
}

/// Whatever row is selected, Enter and Enter again leave the browser as it was.
pub proof fn law_toggling_undoes_itself(app: AppView)
    requires
        app.groups_fit(),
        app.albums.len() <= usize::MAX,
        app.folder_groups.len() <= usize::MAX,
        app.visible_rows().len() <= usize::MAX,
        app.with_selected_toggled().visible_rows().len() <= usize::MAX,
    ensures
        app.with_selected_toggled().with_selected_toggled() == app,
        app.with_selected_toggled().selected_row() == app.selected_row(),
{
    match app.selected_row() {
        Some(LibraryRow::Album(album)) => law_toggling_an_album_undoes_itself(app, album),
        Some(LibraryRow::FolderAlbum(album)) => law_toggling_an_album_undoes_itself(app, album),
        Some(LibraryRow::FolderGroup(group)) => law_toggling_a_group_undoes_itself(app, group),
        _ => {},
    }
}

// ---------------------------------------------------------------------------
// Scanning again
// ---------------------------------------------------------------------------

/// Whether albums are known apart by their first tracks.
pub open spec fn known_apart(albums: Seq<AlbumView>) -> bool {
    &&& forall|i: int| 0 <= i < albums.len() ==> first_path(#[trigger] albums[i]) is Some
    &&& forall|i: int, j: int|
        0 <= i < j < albums.len() ==> first_path(#[trigger] albums[i]) != first_path(
            #[trigger] albums[j],
        )
}

proof fn lemma_expanded_same(albums: Seq<AlbumView>, expanded: Set<usize>, index: usize)
    requires
        known_apart(albums),
        index < albums.len(),
    ensures
        is_expanded_at(albums, expanded, first_path(albums[index as int]).unwrap())
            == expanded.contains(index),
{
    let path = first_path(albums[index as int]).unwrap();
    if is_expanded_at(albums, expanded, path) {
        let i = choose|i: int|
            0 <= i < albums.len() && expanded.contains(i as usize) && first_path(
                #[trigger] albums[i],
            ) == Some(path);
        if i != index {
            if i < index {
                assert(first_path(albums[i]) != first_path(albums[index as int]));
            } else {
                assert(first_path(albums[index as int]) != first_path(albums[i]));
            }
        }
        assert(i as usize == index);
    }
    if expanded.contains(index) {
        assert(first_path(albums[index as int]) == Some(path));
    }
}

proof fn lemma_expanded_groups_same(albums: Seq<AlbumView>, expanded: Set<usize>, index: usize)
    requires
        index < groups_of(albums).len(),
    ensures
        is_expanded_group(groups_of(albums), expanded, groups_of(albums)[index as int].title)
            == expanded.contains(index),
{
    let groups = groups_of(albums);
    let titles = distinct(group_titles(albums));
    law_distinct(group_titles(albums));
    let title = groups[index as int].title;
    if is_expanded_group(groups, expanded, title) {
        let i = choose|i: int|
            0 <= i < groups.len() && expanded.contains(i as usize) && (#[trigger] groups[i]).title
                == title;
        assert(titles[i] == titles[index as int]);
        assert(i == index);
    }
    if expanded.contains(index) {
        assert(groups[index as int].title == title);
    }
}

proof fn lemma_row_known(app: AppView, identity: RowIdentity, from: int, at: int)
    requires
        0 <= from <= at < app.visible_rows().len() <= usize::MAX,
        app.identity(app.visible_rows()[at]) == Some(identity),
    ensures
        app.row_known_from(identity, from) matches Some(row) && row < app.visible_rows().len()
            && app.identity(app.visible_rows()[row as int]) == Some(identity),
    decreases at - from,
{
    if app.identity(app.visible_rows()[from]) != Some(identity) {
        lemma_row_known(app, identity, from + 1, at);
    }
}

/// Scanning a library again in which nothing has changed keeps what is expanded
/// and shown, and a row selected that is known by the same album, group or
/// track.
pub proof fn law_rescan_keeps_the_browser(app: AppView, scan: ScanView)
    requires
        app.albums == albums_of(scan.tracks),
        app.folder_albums == folders_of(app.root, scan.tracks),
        app.folder_groups == groups_of(app.folder_albums),
        app.recent == scan.recent,
        known_apart(app.active_albums()),
        app.visible_rows().len() <= usize::MAX,
        forall|i: usize| #[trigger]
            app.expanded_albums.contains(i) ==> i < app.active_albums().len(),
        forall|i: usize| #[trigger]
            app.expanded_folder_groups.contains(i) ==> app.view_mode == ViewMode::Folders && i
                < app.folder_groups.len(),
    ensures
        app.refreshed(scan).expanded_albums == app.expanded_albums,
        app.refreshed(scan).expanded_folder_groups == app.expanded_folder_groups,
        app.refreshed(scan).visible_rows() == app.visible_rows(),
        app.selected_identity() is Some ==> app.refreshed(scan).selected_identity()
            == app.selected_identity(),
{
    let fresh = app.with_scan(scan);
    let reopened = app.reopened(scan);
    let after = app.refreshed(scan);
    assert forall|i: usize| #[trigger] app.still_expanded(fresh).contains(i)
        <==> app.expanded_albums.contains(i) by {
        if i < app.active_albums().len() {
            assert(first_path(app.active_albums()[i as int]) is Some);
            lemma_expanded_same(app.active_albums(), app.expanded_albums, i);
        }
    }
    assert(app.still_expanded(fresh) =~= app.expanded_albums);
    assert forall|i: usize| #[trigger] app.still_expanded_groups(fresh).contains(i)
        <==> app.expanded_folder_groups.contains(i) by {
        if i < app.folder_groups.len() {
            lemma_expanded_groups_same(app.folder_albums, app.expanded_folder_groups, i);
        }
    }
    assert(app.still_expanded_groups(fresh) =~= app.expanded_folder_groups);
    law_rows_depend_on(reopened, app);
    law_rows_depend_on(after, app);
    if app.selected_identity() is Some {
        let identity = app.selected_identity().unwrap();
        let at = app.selected.unwrap() as int;
        let row = app.visible_rows()[at];
        assert(reopened.identity(row) == app.identity(row));
        lemma_row_known(reopened, identity, 0, at);
        let found = reopened.row_known_from(identity, 0).unwrap();
        let known = app.visible_rows()[found as int];
        assert(after.selected == Some(found));
        assert(after.identity(known) == reopened.identity(known));
    }
}

} // verus!
