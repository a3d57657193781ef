//! What keys do to the selection and to what is expanded, and what a scan keeps
//! of them.

use vstd::prelude::*;
use crate::actions::{order_of, PlaybackStepView};
use crate::albums::{albums_of, folders_of, groups_of};
use crate::browser::{filter_index, AppView, Key, LibraryRow, ViewMode};
use crate::editing_laws::albums_in_view;
use crate::keys::ActionView;
use crate::library::TrackView;
use crate::path::PathView;
use crate::rescan::{first_path, new_browser, RowIdentity, ScanView};

verus! {

// ---------------------------------------------------------------------------
// Selecting and expanding
// ---------------------------------------------------------------------------

/// The selection goes one row on, from the last to the first, or one row back,
/// from the first to the last. Nothing else changes.
pub proof fn law_selection_moves_by_one_row(app: AppView, index: usize)
    requires
        app.selected == Some(index),
        index < app.visible_rows().len() <= usize::MAX,
    ensures
        ({
            let last = app.visible_rows().len() - 1;
            let next = app.moved_next();
            let previous = app.moved_previous();
            &&& index < last ==> next.selected == Some((index + 1) as usize)
            &&& index == last ==> next.selected == Some(0usize)
            &&& index > 0 ==> previous.selected == Some((index - 1) as usize)
            &&& index == 0 ==> previous.selected == Some(last as usize)
            &&& next == (AppView { selected: next.selected, ..app })
            &&& previous == (AppView { selected: previous.selected, ..app })
        }),
{
    let count = app.visible_rows().len() as int;
    if index + 1 < count {
        vstd::arithmetic::div_mod::lemma_small_mod((index + 1) as nat, count as nat);
    } else {
        vstd::arithmetic::div_mod::lemma_mod_self_0(count);
    }
}

/// The selected row is the row with the selected number, if there is one.
pub proof fn law_selected_row_has_the_selected_number(app: AppView)
    ensures
        app.selected is None ==> app.selected_row() is None,
        app.selected is Some && app.selected->0 < app.visible_rows().len() ==> app.selected_row()
            == Some(app.visible_rows()[app.selected->0 as int]),
        app.selected is Some && app.selected->0 >= app.visible_rows().len()
            ==> app.selected_row() is None,
{
}

/// A search or a filter that is applied, and a search that is cleared, select
/// the first row there is.
pub proof fn law_first_row_is_selected(app: AppView)
    ensures
        ({
            let after = app.search_key(Key::Enter);
            &&& after.visible_rows().len() > 0 ==> after.selected == Some(0usize)
            &&& after.visible_rows().len() == 0 ==> after.selected is None
        }),
        ({
            let after = app.filter_key(Key::Enter);
            &&& after.visible_rows().len() > 0 ==> after.selected == Some(0usize)
            &&& after.visible_rows().len() == 0 ==> after.selected is None
        }),
        ({
            let after = app.search_cleared();
            &&& after.search is None
            &&& app.search is Some && after.visible_rows().len() > 0 ==> after.selected == Some(
                0usize,
            )
            &&& app.search is Some && after.visible_rows().len() == 0 ==> after.selected is None
            &&& app.search is None ==> after == app
        }),
{
    crate::laws::law_filtering_selects_the_first_row(app);
    crate::laws::law_rows_depend_on(AppView { search: None, ..app }, app.search_cleared());
}

/// The album of the selected row, if it is one of an album.
pub open spec fn selected_album(app: AppView) -> Option<usize> {
    match app.selected_row() {
        Some(LibraryRow::Album(album)) => Some(album),
        Some(LibraryRow::FolderAlbum(album)) => Some(album),
        _ => None,
    }
}

/// On the row of an album, expanding expands it, collapsing collapses it, and
/// toggling does the one that changes it. No other album changes, and no group.
pub proof fn law_expanding_an_album(app: AppView, album: usize, other: usize)
    requires
        selected_album(app) == Some(album),
        other != album,
    ensures
        app.with_selected_expanded().expanded_albums.contains(album),
        !app.with_selected_collapsed().expanded_albums.contains(album),
        app.with_selected_toggled().expanded_albums.contains(album)
            != app.expanded_albums.contains(album),
        app.with_selected_expanded().expanded_albums.contains(other)
            == app.expanded_albums.contains(other),
        app.with_selected_collapsed().expanded_albums.contains(other)
            == app.expanded_albums.contains(other),
        app.with_selected_toggled().expanded_albums.contains(other) == app.expanded_albums.contains(
            other,
        ),
        app.with_selected_expanded().expanded_folder_groups == app.expanded_folder_groups,
        app.with_selected_collapsed().expanded_folder_groups == app.expanded_folder_groups,
        app.with_selected_toggled().expanded_folder_groups == app.expanded_folder_groups,
        app.with_selected_expanded().selected == app.selected,
        app.with_selected_toggled().selected == app.selected,
{
    lemma_album_row_found(app.visible_rows(), album, 0, app.selected->0 as int);
}

/// On the row of a group, expanding expands it, collapsing collapses it, and
/// toggling does the one that changes it. No other group changes, and no album.
pub proof fn law_expanding_a_group(app: AppView, group: usize, other: usize)
    requires
        app.selected_row() == Some(LibraryRow::FolderGroup(group)),
        other != group,
    ensures
        app.with_selected_expanded().expanded_folder_groups.contains(group),
        !app.with_selected_collapsed().expanded_folder_groups.contains(group),
        app.with_selected_toggled().expanded_folder_groups.contains(group)
            != app.expanded_folder_groups.contains(group),
        app.with_selected_expanded().expanded_folder_groups.contains(other)
            == app.expanded_folder_groups.contains(other),
        app.with_selected_collapsed().expanded_folder_groups.contains(other)
            == app.expanded_folder_groups.contains(other),
        app.with_selected_toggled().expanded_folder_groups.contains(other)
            == app.expanded_folder_groups.contains(other),
        app.with_selected_expanded().expanded_albums == app.expanded_albums,
        app.with_selected_collapsed().expanded_albums == app.expanded_albums,
        app.with_selected_toggled().expanded_albums == app.expanded_albums,
        app.with_selected_expanded().selected == app.selected,
        app.with_selected_collapsed().selected == app.selected,
        app.with_selected_toggled().selected == app.selected,
{
}

/// On the row of a track, expanding and toggling change nothing.
pub proof fn law_tracks_do_not_expand(app: AppView)
    requires
        app.selected_row() is Some,
        app.selected_row()->0 is Track,
    ensures
        app.with_selected_expanded() == app,
        app.with_selected_toggled() == app,
{
}

proof fn lemma_album_row_found(rows: Seq<LibraryRow>, album: usize, from: int, at: int)
    requires
        0 <= from <= at < rows.len(),
        at <= usize::MAX,
        rows[at] == LibraryRow::Album(album) || rows[at] == LibraryRow::FolderAlbum(album),
    ensures
        crate::browser::album_row_from(rows, album, from) is Some,
    decreases at - from,
{
    if from < at {
        lemma_album_row_found(rows, album, from + 1, at);
    }
}

// ---------------------------------------------------------------------------
// Keys
// ---------------------------------------------------------------------------

/// Whether the keys go to the library: no dialog is open and nothing is being
/// converted.
pub open spec fn keys_go_to_the_library(app: AppView) -> bool {
    &&& app.delete_confirmation is None
    &&& app.rename_preview is None
    &&& app.conversion_preview is None
    &&& app.conversion_result is None
    &&& app.filter_menu is None
    &&& app.search_input is None
    &&& app.editor is None
    &&& app.path_inspector is None
    &&& app.conversion_progress is None
}

/// In the library the arrows and `j`, `k`, `l`, `h` move, expand and collapse,
/// Enter toggles, `v` changes the view, Control and `k` start a search, `f` opens
/// the filters, `i` shows paths, `e` edits, `c` queues, `d` asks for deletion,
/// the space bar plays, and Esc ends a search.
pub proof fn law_keys_of_the_library(app: AppView)
    requires
        keys_go_to_the_library(app),
    ensures
        app.after_key(Key::Down, false) == app.moved_next(),
        app.after_key(Key::Char('j'), false) == app.moved_next(),
        app.after_key(Key::Up, false) == app.moved_previous(),
        app.after_key(Key::Char('k'), false) == app.moved_previous(),
        app.after_key(Key::Right, false) == app.with_selected_expanded(),
        app.after_key(Key::Char('l'), false) == app.with_selected_expanded(),
        app.after_key(Key::Left, false) == app.with_selected_collapsed(),
        app.after_key(Key::Char('h'), false) == app.with_selected_collapsed(),
        app.after_key(Key::Enter, false) == app.with_selected_toggled(),
        app.after_key(Key::Char('v'), false) == app.view_toggled(),
        app.after_key(Key::Char('k'), true) == (AppView {
            search_input: Some(Seq::empty()),
            ..app
        }),
        app.after_key(Key::Char('f'), false) == (AppView {
            filter_menu: Some(filter_index(app.active_filter)),
            ..app
        }),
        app.after_key(Key::Char('i'), false) == app.paths_inspected(),
        app.after_key(Key::Char('e'), false) == app.editor_opened(),
        app.after_key(Key::Char('c'), false) == app.with_selected_queued(),
        app.after_key(Key::Char('d'), false) == app.delete_requested(),
        app.after_key(Key::Char(' '), false) == app.playback_toggled(),
        app.search is Some ==> app.after_key(Key::Esc, false) == app.search_cleared(),
{
}

/// The filter menu opens on the filter that is on: Enter right away keeps it.
pub proof fn law_filter_menu_opens_on_the_filter(app: AppView)
    requires
        keys_go_to_the_library(app),
    ensures
        ({
            let opened = app.after_key(Key::Char('f'), false);
            &&& opened.filter_menu is Some && opened.filter_menu->0 < 3
            &&& opened.after_key(Key::Enter, false).active_filter == app.active_filter
            &&& opened.after_key(Key::Enter, false).filter_menu is None
            &&& opened.after_key(Key::Esc, false) == app
        }),
{
}

/// In the library `q` ends the program, and so does Esc without a search. `r`
/// scans again, `R` previews a renaming, `C` previews the conversion, and the
/// space bar plays the selected track or stops it.
pub proof fn law_actions_of_the_library(app: AppView, control: bool)
    requires
        keys_go_to_the_library(app),
    ensures
        app.key_action(Key::Char('q'), control) is Quit,
        app.search is None ==> app.key_action(Key::Esc, control) is Quit,
        app.search is Some ==> app.key_action(Key::Esc, control) is Nothing,
        app.key_action(Key::Char('r'), control) is Rescan,
        app.key_action(Key::Char('R'), control) is PreviewRename,
        app.key_action(Key::Char('C'), control) is PreviewConversion,
        app.playback_step() is Stop ==> app.key_action(Key::Char(' '), control) is StopPlayback,
        app.playback_step() is Nothing ==> app.key_action(Key::Char(' '), control) is Nothing,
        app.playback_step() matches PlaybackStepView::Play(playback) ==> app.key_action(
            Key::Char(' '),
            control,
        ) == ActionView::Play(playback),
        app.key_action(Key::Char('e'), control) is Nothing,
        app.key_action(Key::Char('c'), control) is Nothing,
        app.key_action(Key::Char('d'), control) is Nothing,
        app.key_action(Key::Enter, control) is Nothing,
{
}

/// A dialog that is open over all others gets the keys, and what is confirmed
/// there is what is done: the deletion, the renaming of the preview, the
/// conversion of what is ready, and what the editor writes.
pub proof fn law_confirmed_dialogs_act(app: AppView, control: bool)
    ensures
        app.delete_confirmation is Some ==> app.key_action(Key::Char('y'), control)
            is DeleteOriginals,
        app.delete_confirmation is None && app.rename_preview is Some ==> app.key_action(
            Key::Char('y'),
            control,
        ) == ActionView::Rename(order_of(app.rename_preview->0)),
        app.delete_confirmation is None && app.rename_preview is None
            && app.conversion_preview is Some && app.ready_sources().len() > 0 ==> app.key_action(
            Key::Char('y'),
            control,
        ) == ActionView::Convert(app.ready_sources()),
        ({
            let quiet = AppView { editor: None, ..app };
            keys_go_to_the_library(quiet) && app.editor is Some && app.saving() is Some
                ==> app.key_action(Key::Enter, control) == ActionView::Save(app.saving()->0)
                && app.after_key(Key::Enter, control).editor is None
        }),
        ({
            let quiet = AppView { editor: None, ..app };
            keys_go_to_the_library(quiet) && app.editor is Some && app.saving() is None
                ==> app.key_action(Key::Enter, control) is Nothing
        }),
{
}

/// Control matters to `k` alone.
pub proof fn law_control_matters_to_one_key(app: AppView, key: Key)
    requires
        key != Key::Char('k'),
    ensures
        app.after_key(key, true) == app.after_key(key, false),
        app.key_action(key, true) == app.key_action(key, false),
{
}

/// Of the dialogs that are open the first of these gets the keys: the
/// confirmation of a deletion, the rename preview, the conversion preview, the
/// result, the filter menu, the search, the editor and the paths.
pub proof fn law_dialogs_get_the_keys(app: AppView, key: Key, control: bool)
    ensures
        ({
            let after = app.after_key(key, control);
            let one = app.delete_confirmation is None;
            let two = one && app.rename_preview is None;
            let three = two && app.conversion_preview is None;
            let four = three && app.conversion_result is None;
            let five = four && app.filter_menu is None;
            let six = five && app.search_input is None;
            let seven = six && app.editor is None;
            &&& !one ==> after == app.delete_key(key)
            &&& one && app.rename_preview is Some ==> after == app.rename_key(key)
            &&& two && app.conversion_preview is Some ==> after == app.conversion_preview_key(key)
            &&& three && app.conversion_result is Some ==> after == app.conversion_result_key(key)
            &&& four && app.filter_menu is Some ==> after == app.filter_key(key)
            &&& five && app.search_input is Some ==> after == app.search_key(key)
            &&& six && app.editor is Some ==> after == app.editor_key(key)
            &&& seven && app.path_inspector is Some ==> after == app.path_inspector_key(key)
        }),
{
}

/// While files are converted no key does anything.
pub proof fn law_converting_takes_no_keys(app: AppView, key: Key, control: bool)
    requires
        app.conversion_progress is Some,
        keys_go_to_the_library(AppView { conversion_progress: None, ..app }),
    ensures
        app.after_key(key, control) == app,
        app.key_action(key, control) is Nothing,
{
}

/// Changing the view shows the other one with nothing expanded, from its first
/// album on. Search, filter, queue and all that was scanned stay.
pub proof fn law_changing_the_view(app: AppView)
    ensures
        ({
            let after = app.view_toggled();
            &&& after.view_mode != app.view_mode
            &&& albums_in_view(after) == (match app.view_mode {
                ViewMode::AlbumMetadata => app.folder_albums,
                ViewMode::Folders => app.albums,
            })
            &&& albums_in_view(after).len() > 0 ==> after.selected == Some(0usize)
            &&& albums_in_view(after).len() == 0 ==> after.selected is None
            &&& after.search == app.search
            &&& after.active_filter == app.active_filter
            &&& after.conversion_queue == app.conversion_queue
            &&& after.albums == app.albums
            &&& after.folder_albums == app.folder_albums
        }),
{
}

// ---------------------------------------------------------------------------
// Scanning
// ---------------------------------------------------------------------------

/// A browser shows the albums of the tracks that were scanned, by metadata and
/// by folder, and the groups of the latter. At first nothing is expanded,
/// searched, filtered or queued, and the first album is selected.
pub proof fn law_a_browser_shows_what_was_scanned(
    root: PathView,
    tracks: Seq<TrackView>,
    unreadable: usize,
)
    ensures
        ({
            let app = new_browser(root, tracks, unreadable);
            &&& app.root == root
            &&& app.albums == albums_of(tracks)
            &&& app.folder_albums == folders_of(root, tracks)
            &&& app.folder_groups == groups_of(folders_of(root, tracks))
            &&& app.unreadable == unreadable
            &&& app.view_mode == ViewMode::AlbumMetadata
            &&& app.albums.len() > 0 ==> app.selected == Some(0usize)
            &&& app.albums.len() == 0 ==> app.selected is None
            &&& app.expanded_albums.is_empty() && app.expanded_folder_groups.is_empty()
            &&& app.search is None && app.active_filter is None
            &&& app.conversion_queue.len() == 0 && app.completed_conversions.len() == 0
            &&& keys_go_to_the_library(app)
        }),
{
}

/// A scan that is taken in with what was expanded and selected shows the scanned
/// tracks and which of them are new. View, search, filter, queue, what was
/// converted and what plays stay as they were.
pub proof fn law_a_rescan_shows_what_was_scanned(app: AppView, scan: ScanView)
    ensures
        ({
            let after = app.refreshed(scan);
            &&& after.albums == albums_of(scan.tracks)
            &&& after.folder_albums == folders_of(app.root, scan.tracks)
            &&& after.folder_groups == groups_of(folders_of(app.root, scan.tracks))
            &&& after.unreadable == scan.unreadable
            &&& after.recent == scan.recent
            &&& after.root == app.root
            &&& after.view_mode == app.view_mode
            &&& after.search == app.search
            &&& after.active_filter == app.active_filter
            &&& after.conversion_queue == app.conversion_queue
            &&& after.completed_conversions == app.completed_conversions
            &&& after.playback == app.playback
        }),
        ({
            let after = app.rescanned(scan);
            &&& after.albums == albums_of(scan.tracks)
            &&& after.folder_albums == folders_of(app.root, scan.tracks)
            &&& after.folder_groups == groups_of(folders_of(app.root, scan.tracks))
            &&& after.recent == scan.recent
            &&& after.unreadable == scan.unreadable
            &&& after.expanded_albums.is_empty() && after.expanded_folder_groups.is_empty()
            &&& after.search == app.search
            &&& after.active_filter == app.active_filter
        }),
{
}

/// After a scan an album is expanded exactly where one that was expanded before
/// started with the same file, and a group exactly where one of its title was.
pub proof fn law_a_rescan_keeps_what_is_expanded(app: AppView, scan: ScanView, i: usize)
    requires
        albums_in_view(app).len() <= usize::MAX,
        app.folder_groups.len() <= usize::MAX,
    ensures
        ({
            let after = app.refreshed(scan);
            let albums = albums_in_view(after);
            let before = albums_in_view(app);
            &&& after.expanded_albums.contains(i) <==> i < albums.len()
                && albums[i as int].tracks.len() > 0 && exists|j: usize|
                {
                    &&& #[trigger] app.expanded_albums.contains(j)
                    &&& j < before.len()
                    &&& before[j as int].tracks.len() > 0
                    &&& before[j as int].tracks[0].path.route()
                        == albums[i as int].tracks[0].path.route()
                }
            &&& app.view_mode == ViewMode::Folders ==> (after.expanded_folder_groups.contains(i)
                <==> i < after.folder_groups.len() && exists|j: usize|
                {
                    &&& #[trigger] app.expanded_folder_groups.contains(j)
                    &&& j < app.folder_groups.len()
                    &&& app.folder_groups[j as int].title == after.folder_groups[i as int].title
                })
        }),
{
    let after = app.refreshed(scan);
    let albums = albums_in_view(after);
    let before = albums_in_view(app);
    if after.expanded_albums.contains(i) {
        let path = albums[i as int].tracks[0].path.route();
        let j = choose|j: int|
            0 <= j < before.len() && app.expanded_albums.contains(j as usize) && first_path(
                #[trigger] before[j],
            ) == Some(path);
        assert(app.expanded_albums.contains(j as usize));
    }
    if i < albums.len() && albums[i as int].tracks.len() > 0 && exists|j: usize|
        {
            &&& #[trigger] app.expanded_albums.contains(j)
            &&& j < before.len()
            &&& before[j as int].tracks.len() > 0
            &&& before[j as int].tracks[0].path.route()
                == albums[i as int].tracks[0].path.route()
        } {
        let j = choose|j: usize|
            {
                &&& #[trigger] app.expanded_albums.contains(j)
                &&& j < before.len()
                &&& before[j as int].tracks.len() > 0
                &&& before[j as int].tracks[0].path.route()
                    == albums[i as int].tracks[0].path.route()
            };
        let path = albums[i as int].tracks[0].path.route();
        assert(first_path(before[j as int]) == Some(path));
    }
    if app.view_mode == ViewMode::Folders {
        let groups = after.folder_groups;
        if after.expanded_folder_groups.contains(i) {
            let j = choose|j: int|
                0 <= j < app.folder_groups.len() && app.expanded_folder_groups.contains(j as usize)
                    && (#[trigger] app.folder_groups[j]).title == groups[i as int].title;
            assert(app.expanded_folder_groups.contains(j as usize));
        }
        if i < groups.len() && exists|j: usize|
            {
                &&& #[trigger] app.expanded_folder_groups.contains(j)
                &&& j < app.folder_groups.len()
                &&& app.folder_groups[j as int].title == groups[i as int].title
            } {
            let j = choose|j: usize|
                {
                    &&& #[trigger] app.expanded_folder_groups.contains(j)
                    &&& j < app.folder_groups.len()
                    &&& app.folder_groups[j as int].title == groups[i as int].title
                };
            assert(app.folder_groups[j as int].title == groups[i as int].title);
        }
    }
}

/// Whether two rows, each of its browser, stand for the same: an album that
/// starts with the same file, a group of the same title, or the same file.
pub open spec fn stand_for_the_same(
    app: AppView,
    row: LibraryRow,
    other: AppView,
    other_row: LibraryRow,
) -> bool {
    match (row, other_row) {
        (LibraryRow::FolderGroup(one), LibraryRow::FolderGroup(two)) => {
            app.folder_groups[one as int].title == other.folder_groups[two as int].title
        },
        (
            LibraryRow::Track { album: a, track: t },
            LibraryRow::Track { album: b, track: u },
        ) => {
            albums_in_view(app)[a as int].tracks[t as int].path.route() == albums_in_view(
                other,
            )[b as int].tracks[u as int].path.route()
        },
        (LibraryRow::Album(a), LibraryRow::Album(b)) => same_start(app, a, other, b),
        (LibraryRow::FolderAlbum(a), LibraryRow::FolderAlbum(b)) => same_start(app, a, other, b),
        (LibraryRow::Album(a), LibraryRow::FolderAlbum(b)) => same_start(app, a, other, b),
        (LibraryRow::FolderAlbum(a), LibraryRow::Album(b)) => same_start(app, a, other, b),
        _ => false,
    }
}

/// Whether two albums start with the same file.
pub open spec fn same_start(
    app: AppView,
    album: usize,
    other: AppView,
    other_album: usize,
) -> bool {
    let one = albums_in_view(app)[album as int].tracks;
    let two = albums_in_view(other)[other_album as int].tracks;
    one.len() > 0 && two.len() > 0 && one[0].path.route() == two[0].path.route()
}

proof fn lemma_identity(app: AppView, row: LibraryRow, other: AppView, other_row: LibraryRow)
    ensures
        stand_for_the_same(app, row, other, other_row) <==> app.identity(row) is Some
            && other.identity(other_row) == app.identity(row),
{
}

proof fn lemma_first_known(app: AppView, identity: RowIdentity, from: int)
    requires
        0 <= from <= app.visible_rows().len() <= usize::MAX,
    ensures
        match app.row_known_from(identity, from) {
            Some(at) => from <= at < app.visible_rows().len() && app.identity(
                app.visible_rows()[at as int],
            ) == Some(identity) && forall|i: int|
                from <= i < at ==> app.identity(#[trigger] app.visible_rows()[i]) != Some(identity),
            None => forall|i: int|
                from <= i < app.visible_rows().len() ==> app.identity(
                    #[trigger] app.visible_rows()[i],
                ) != Some(identity),
        },
    decreases app.visible_rows().len() - from,
{
    if from < app.visible_rows().len() && app.identity(app.visible_rows()[from]) != Some(
        identity,
    ) {
        lemma_first_known(app, identity, from + 1);
    }
}

/// After a scan the first row is selected that stands for what was selected
/// before. Where there is none, the first of all rows is.
pub proof fn law_a_rescan_keeps_the_selection(app: AppView, scan: ScanView, row: LibraryRow)
    requires
        app.selected_row() == Some(row),
        app.refreshed(scan).visible_rows().len() <= usize::MAX,
    ensures
        ({
            let after = app.refreshed(scan);
            let rows = after.visible_rows();
            &&& forall|at: int|
                {
                    &&& 0 <= at < rows.len()
                    &&& stand_for_the_same(app, row, after, #[trigger] rows[at])
                    &&& forall|i: int|
                        0 <= i < at ==> !stand_for_the_same(app, row, after, #[trigger] rows[i])
                } ==> after.selected == Some(at as usize)
            &&& (forall|i: int|
                0 <= i < rows.len() ==> !stand_for_the_same(app, row, after, #[trigger] rows[i]))
                ==> after.selected == (if rows.len() > 0 {
                Some(0usize)
            } else {
                None
            })
        }),
{
    let reopened = app.reopened(scan);
    let after = app.refreshed(scan);
    let rows = after.visible_rows();
    crate::laws::law_rows_depend_on(reopened, after);
    assert forall|i: int| 0 <= i < rows.len() implies stand_for_the_same(
        app,
        row,
        after,
        #[trigger] rows[i],
    ) == (app.identity(row) is Some && reopened.identity(rows[i]) == app.identity(row)) by {
        lemma_identity(app, row, after, rows[i]);
        assert(reopened.identity(rows[i]) == after.identity(rows[i]));
    }
    if let Some(identity) = app.identity(row) {
        lemma_first_known(reopened, identity, 0);
        let known = reopened.row_known_from(identity, 0);
        assert forall|at: int|
            {
                &&& 0 <= at < rows.len()
                &&& stand_for_the_same(app, row, after, #[trigger] rows[at])
                &&& forall|i: int|
                    0 <= i < at ==> !stand_for_the_same(app, row, after, #[trigger] rows[i])
            } implies after.selected == Some(at as usize) by {
            assert(reopened.identity(rows[at]) == Some(identity));
            assert(known is Some);
            let found = known->0 as int;
            assert(stand_for_the_same(app, row, after, rows[found]));
            if found < at {
                assert(!stand_for_the_same(app, row, after, rows[found]));
            }
        }
    }
}

} // verus!
