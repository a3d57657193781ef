//! What the screen tells, said of what is in the browser.

use vstd::prelude::*;
use crate::browser::{two_weeks, AppView, LibraryRow, TrackFilter, ViewMode};
use crate::conversion::CompletedView;
use crate::editing_laws::albums_in_view;
use crate::editor::{field_labels, EditorView};
use crate::format::{compacted, display_width, minutes, moving, release_year, size_text};
use crate::format::{header_path, total_duration, truncated, wave_frame, wrapped};
use crate::screen::ClocksView;
use crate::library::valid_release_date;
use crate::path::PathView;
use crate::popups::{centered, conversion_dialog, conversion_lines, delete_dialog, delete_lines};
use crate::popups::{editor_area, editor_cursor, editor_dialog, filter_dialog, paths_dialog};
use crate::popups::{progress_dialog, rename_dialog, rename_lines, result_dialog, result_lines};
use crate::popups::{stacked, window_len, window_start, Area, LineView};
use crate::preview::{ConversionPlanStatus, ConversionPlanView, ConversionPreviewView};
use crate::preview::{ProgressView, RenamePlanView, RenamePreviewView, RenameStatus, ResultView};
use crate::queue_laws::{leads_there, lemma_leads_there};
use crate::text::{decimal, two_digits, uppercase};
use crate::totals::{library_bytes, library_tracks, total_bytes};

verus! {

/// A file counts as new for fourteen days.
pub proof fn law_files_are_new_for_two_weeks()
    ensures
        two_weeks() == 14 * 86_400 * 1_000_000_000,
{
}

// ---------------------------------------------------------------------------
// The table
// ---------------------------------------------------------------------------

/// The table has one row for each row of the library that is shown. That of an
/// album tells its title behind a mark of whether it is expanded, its artist, how
/// many tracks it has, the year of its first track, its length and its size.
pub proof fn law_table_tells_of_albums(app: AppView, played: nat, i: int, album: usize)
    requires
        0 <= i < app.visible_rows().len(),
        app.visible_rows()[i] == LibraryRow::Album(album) || app.visible_rows()[i]
            == LibraryRow::FolderAlbum(album),
        albums_in_view(app)[album as int].tracks.len() > 0,
    ensures
        app.table(played).len() == app.visible_rows().len(),
        ({
            let cells = app.table(played)[i].cells;
            let shown = albums_in_view(app)[album as int];
            let date = shown.tracks[0].release_date;
            let length = total_duration(shown.tracks);
            &&& cells.len() == 7
            &&& app.expanded_albums.contains(album) ==> cells[0] == "▼ "@ + shown.title
            &&& !app.expanded_albums.contains(album) ==> cells[0] == "▶ "@ + shown.title
            &&& cells[1] == shown.artist
            &&& cells[2] == decimal(shown.tracks.len()) + " tracks"@
            &&& date is Some ==> cells[3] == release_year(date->0)
            &&& date is None ==> cells[3] == "—"@
            &&& length is Some ==> cells[4] == minutes(length->0)
            &&& length is None ==> cells[4] == "—"@
            &&& cells[5] == "ALBUM"@
            &&& cells[6] == size_text(total_bytes(shown.tracks))
        }),
{
}

/// The row of a group tells its title behind a mark of whether it is expanded,
/// and how many albums it has.
pub proof fn law_table_tells_of_groups(app: AppView, played: nat, i: int, group: usize)
    requires
        0 <= i < app.visible_rows().len(),
        app.visible_rows()[i] == LibraryRow::FolderGroup(group),
    ensures
        ({
            let cells = app.table(played)[i].cells;
            let shown = app.folder_groups[group as int];
            &&& cells.len() == 7
            &&& app.expanded_folder_groups.contains(group) ==> cells[0] == "▼ "@ + shown.title
            &&& !app.expanded_folder_groups.contains(group) ==> cells[0] == "▶ "@ + shown.title
            &&& cells[2] == decimal(shown.albums.len()) + " albums"@
            &&& cells[5] == "FOLDER"@
        }),
{
}

/// The row of a track tells its number in at least two digits or a dash, its
/// title, its artist, its year, its length, its format and its size. It is marked
/// where it is queued and where it plays.
pub proof fn law_table_tells_of_tracks(
    app: AppView,
    played: nat,
    i: int,
    album: usize,
    track: usize,
)
    requires
        0 <= i < app.visible_rows().len(),
        app.visible_rows()[i] == (LibraryRow::Track { album, track }),
    ensures
        ({
            let cells = app.table(played)[i].cells;
            let shown = albums_in_view(app)[album as int].tracks[track as int];
            let plays = app.playback is Some && app.playback->0.path.route() == shown.path.route();
            let number = shown.track_number;
            let date = shown.release_date;
            let format = shown.path.extension_text();
            &&& cells.len() == 7
            &&& cells[0] == (if plays {
                wave_frame((played / 160_000_000) as int)
            } else {
                "  "@
            }) + "└─ "@ + (if leads_there(app.conversion_queue, shown.path) {
                "[Q] "@
            } else {
                "    "@
            }) + (if number is Some {
                two_digits(number->0 as nat)
            } else {
                "--"@
            }) + "  "@ + shown.title
            &&& cells[1] == shown.artist
            &&& date is Some ==> cells[3] == release_year(date->0)
            &&& date is None ==> cells[3] == "—"@
            &&& shown.duration is Some ==> cells[4] == minutes(shown.duration->0)
            &&& shown.duration is None ==> cells[4] == "—"@
            &&& format is Some ==> cells[5] == uppercase(format->0)
            &&& cells[6] == size_text(shown.bytes as nat)
        }),
{
    let shown = albums_in_view(app)[album as int].tracks[track as int];
    lemma_leads_there(app.conversion_queue, shown.path);
    vstd::arithmetic::div_mod::lemma_div_denominator(played as int, 1_000_000, 160);
    assert(played / 1_000_000 / 160 == played / 160_000_000);
}

// ---------------------------------------------------------------------------
// Header and footer
// ---------------------------------------------------------------------------

/// Without a search and a filter the summary tells how many albums, tracks and
/// bytes there are; with one, of each how much is shown and how much there is.
/// It ends with the number of files that could not be read.
pub proof fn law_summary_tells_the_totals(app: AppView)
    ensures
        ({
            let albums = albums_in_view(app);
            let name = if app.view_mode == ViewMode::AlbumMetadata {
                " albums · "@
            } else {
                " folder albums · "@
            };
            let end = " · "@ + decimal(app.unreadable as nat) + " unreadable"@;
            let shown = app.shown_totals(albums);
            &&& app.search is None && app.active_filter is None ==> app.summary() == decimal(
                albums.len(),
            ) + name + decimal(library_tracks(albums)) + " tracks · "@ + size_text(
                library_bytes(albums),
            ) + end
            &&& app.search is Some || app.active_filter is Some ==> app.summary() == decimal(
                shown.albums,
            ) + "/"@ + decimal(albums.len()) + name + decimal(shown.tracks) + "/"@ + decimal(
                library_tracks(albums),
            ) + " tracks · "@ + size_text(shown.bytes) + "/"@ + size_text(library_bytes(albums))
                + end
        }),
{
    reveal_strlit(" albums · ");
    reveal_strlit(" folder albums · ");
    reveal_strlit("albums");
    reveal_strlit("folder albums");
    reveal_strlit(" · ");
    reveal_strlit(" ");
    let albums = albums_in_view(app);
    let name = if app.view_mode == ViewMode::AlbumMetadata {
        " albums · "@
    } else {
        " folder albums · "@
    };
    assert(" "@ + crate::screen::view_label(app.view_mode) + " · "@ =~= name);
    let end = " · "@ + decimal(app.unreadable as nat) + " unreadable"@;
    let shown = app.shown_totals(albums);
    if app.search is None && app.active_filter is None {
        assert(app.summary() =~= decimal(albums.len()) + name + decimal(library_tracks(albums))
            + " tracks · "@ + size_text(library_bytes(albums)) + end);
    } else {
        assert(app.summary() =~= decimal(shown.albums) + "/"@ + decimal(albums.len()) + name
            + decimal(shown.tracks) + "/"@ + decimal(library_tracks(albums)) + " tracks · "@
            + size_text(shown.bytes) + "/"@ + size_text(library_bytes(albums)) + end);
    }
}

/// The header tells the view, and besides it what plays, how much is queued,
/// what is searched and which filter is on, each where there is one and in this
/// order. Titles and searches take at most thirty-six columns, and fewer where
/// the line is short.
pub proof fn law_header_tells_the_state(app: AppView, width: int, played: nat)
    ensures
        ({
            let title_room: nat = if width >= 46 {
                36
            } else if width >= 10 {
                (width - 10) as nat
            } else {
                0
            };
            let search_room: int = if width >= 44 {
                36
            } else if width >= 8 {
                width - 8
            } else {
                0
            };
            let tokens = app.state_tokens(width, played);
            let view = if app.view_mode == ViewMode::AlbumMetadata {
                "VIEW: Albums"@
            } else {
                "VIEW: Folders"@
            };
            let plays: int = if app.playback is Some {
                1
            } else {
                0
            };
            let queued: int = if app.conversion_queue.len() > 0 {
                1
            } else {
                0
            };
            let searched: int = if app.search is Some {
                1
            } else {
                0
            };
            let filtered: int = if app.active_filter is Some {
                1
            } else {
                0
            };
            &&& tokens.len() == 1 + plays + queued + searched + filtered
            &&& tokens[0] == view
            &&& app.playback is Some ==> tokens[1] == "PLAYING: "@ + moving(
                app.playback->0.title,
                title_room,
                (played / 180_000_000) as int,
            )
            &&& app.conversion_queue.len() > 0 ==> tokens[1 + plays] == "QUEUE: "@ + decimal(
                app.conversion_queue.len(),
            )
            &&& app.search is Some ==> tokens[1 + plays + queued] == "SEARCH: "@ + truncated(
                app.search->0,
                search_room,
            )
            &&& app.active_filter == Some(TrackFilter::NoReleaseDate) ==> tokens.last()
                == "FILTER: "@ + "No release date"@
            &&& app.active_filter == Some(TrackFilter::New) ==> tokens.last() == "FILTER: "@
                + "New (last 2 weeks)"@
        }),
{
    vstd::arithmetic::div_mod::lemma_div_denominator(played as int, 1_000_000, 180);
    assert(played / 1_000_000 / 180 == played / 180_000_000);
}

/// The header starts with the path of the library and the summary, each as far
/// as it fits, and goes on with the state, laid out in lines.
pub proof fn law_header_lines(app: AppView, width: int, elapsed: nat, played: nat)
    ensures
        ({
            let room = if width >= 9 {
                width - 9
            } else {
                0
            };
            let lines = app.header(width, elapsed, played);
            let state = wrapped(app.state_tokens(width, played), width);
            &&& lines.len() == 2 + state.len()
            &&& lines[0].text == "LIBRARY: "@ + header_path(app.root, room)
            &&& lines[1].text == truncated(app.summary(), width)
            &&& forall|i: int| 0 <= i < state.len() ==> (#[trigger] lines[2 + i]).text == state[i]
        }),
{
    let lines = app.header(width, elapsed, played);
    let state = wrapped(app.state_tokens(width, played), width);
    assert forall|i: int| 0 <= i < state.len() implies (#[trigger] lines[2 + i]).text
        == state[i] by {}
}

/// The columns are named after what their cells tell in each view.
pub proof fn law_columns_are_named()
    ensures
        crate::screen::column_names(ViewMode::AlbumMetadata) == seq![
            "Title"@,
            "Artist"@,
            "Album"@,
            "Year"@,
            "Length"@,
            "Format"@,
            "Size"@,
        ],
        crate::screen::column_names(ViewMode::Folders) == seq![
            "Album folder"@,
            "Artist folder"@,
            "Tracks"@,
            "Year"@,
            "Length"@,
            "Format"@,
            "Size"@,
        ],
{
}

/// The screen shows the header, the table and the footer of the browser, and the
/// cursor of an open editor.
pub proof fn law_screen_shows_the_browser(app: AppView, area: Area, clocks: ClocksView)
    ensures
        ({
            let screen = app.screen(area, clocks);
            let width: int = if area.width >= 2 {
                area.width - 2
            } else {
                0
            };
            &&& screen.header == app.header(width, clocks.program, clocks.playback)
            &&& screen.rows == app.table(clocks.playback)
            &&& screen.columns == crate::screen::column_names(app.view_mode)
            &&& screen.footer == app.footer()
            &&& screen.dialogs == app.dialogs(area, clocks.conversion)
            &&& app.editor is Some ==> screen.cursor == editor_cursor(area, app.editor->0)
            &&& app.editor is None ==> screen.cursor is None
        }),
{
}

/// Every dialog that is open is shown, and no other. Where several are, the
/// filter menu stands on top, below it the confirmation of a deletion, the rename
/// preview, the result, the conversion preview, the progress, the paths and the
/// editor.
pub proof fn law_open_dialogs_are_shown(app: AppView, area: Area, converting: nat)
    ensures
        ({
            let shown = app.dialogs(area, converting);
            let quiet = AppView { filter_menu: None, ..app };
            let two = AppView { delete_confirmation: None, ..quiet };
            let three = AppView { rename_preview: None, ..two };
            let four = AppView { conversion_result: None, ..three };
            let five = AppView { conversion_preview: None, ..four };
            let six = AppView { conversion_progress: None, ..five };
            let seven = AppView { path_inspector: None, ..six };
            let none = AppView { editor: None, ..seven };
            &&& app.filter_menu is Some ==> shown == quiet.dialogs(area, converting).push(
                filter_dialog(area, app.filter_menu->0),
            )
            &&& app.delete_confirmation is Some ==> quiet.dialogs(area, converting) == two.dialogs(
                area,
                converting,
            ).push(
                delete_dialog(area, app.completed_conversions, app.delete_confirmation->0),
            )
            &&& app.rename_preview is Some ==> two.dialogs(area, converting) == three.dialogs(
                area,
                converting,
            ).push(rename_dialog(area, app.rename_preview->0))
            &&& app.conversion_result is Some ==> three.dialogs(area, converting) == four.dialogs(
                area,
                converting,
            ).push(result_dialog(area, app.conversion_result->0))
            &&& app.conversion_preview is Some ==> four.dialogs(area, converting) == five.dialogs(
                area,
                converting,
            ).push(conversion_dialog(area, app.conversion_preview->0))
            &&& app.conversion_progress is Some ==> five.dialogs(area, converting) == six.dialogs(
                area,
                converting,
            ).push(progress_dialog(area, app.conversion_progress->0, converting))
            &&& app.path_inspector is Some ==> six.dialogs(area, converting) == seven.dialogs(
                area,
                converting,
            ).push(paths_dialog(area, app.path_inspector->0))
            &&& app.editor is Some ==> seven.dialogs(area, converting) == seq![
                editor_dialog(area, app.editor->0),
            ]
            &&& none.dialogs(area, converting).len() == 0
        }),
{
    let quiet = AppView { filter_menu: None, ..app };
    let two = AppView { delete_confirmation: None, ..quiet };
    let three = AppView { rename_preview: None, ..two };
    let four = AppView { conversion_result: None, ..three };
    let five = AppView { conversion_preview: None, ..four };
    let six = AppView { conversion_progress: None, ..five };
    let seven = AppView { path_inspector: None, ..six };
    if app.filter_menu is Some {
        assert(app.dialogs(area, converting) =~= quiet.dialogs(area, converting).push(
            filter_dialog(area, app.filter_menu->0),
        ));
    }
    if app.delete_confirmation is Some {
        assert(quiet.dialogs(area, converting) =~= two.dialogs(area, converting).push(
            delete_dialog(area, app.completed_conversions, app.delete_confirmation->0),
        ));
    }
    if app.rename_preview is Some {
        assert(two.dialogs(area, converting) =~= three.dialogs(area, converting).push(
            rename_dialog(area, app.rename_preview->0),
        ));
    }
    if app.conversion_result is Some {
        assert(three.dialogs(area, converting) =~= four.dialogs(area, converting).push(
            result_dialog(area, app.conversion_result->0),
        ));
    }
    if app.conversion_preview is Some {
        assert(four.dialogs(area, converting) =~= five.dialogs(area, converting).push(
            conversion_dialog(area, app.conversion_preview->0),
        ));
    }
    if app.conversion_progress is Some {
        assert(five.dialogs(area, converting) =~= six.dialogs(area, converting).push(
            progress_dialog(area, app.conversion_progress->0, converting),
        ));
    }
    if app.path_inspector is Some {
        assert(six.dialogs(area, converting) =~= seven.dialogs(area, converting).push(
            paths_dialog(area, app.path_inspector->0),
        ));
    }
    if app.editor is Some {
        assert(seven.dialogs(area, converting) =~= seq![editor_dialog(area, app.editor->0)]);
    }
}

/// The footer shows what is typed while a search is typed, and else what was
/// done last, unless the filter menu is open or a search is on.
pub proof fn law_footer_tells_what_was_done(app: AppView)
    ensures
        app.search_input is Some ==> exists|rest: Seq<char>|
            app.footer() == #[trigger] ("Search albums/artists: "@ + app.search_input->0 + rest),
        app.search_input is None && app.filter_menu is None && app.search is None
            && app.status is Some ==> exists|rest: Seq<char>|
            app.footer() == #[trigger] (app.status->0 + rest),
{
    if app.search_input is Some {
        let rest = "  · Enter apply · Esc cancel · empty Enter clears"@;
        assert(app.footer() == "Search albums/artists: "@ + app.search_input->0 + rest);
    } else if app.filter_menu is None && app.search is None && app.status is Some {
        let rest = " · c queue · C convert · d delete originals · q quit"@;
        assert(app.footer() == app.status->0 + rest);
    }
}

// ---------------------------------------------------------------------------
// Dialogs
// ---------------------------------------------------------------------------

/// A dialog stands in the middle: the columns left and right of it, and the rows
/// above and below it, differ by at most one.
pub proof fn law_dialogs_stand_in_the_middle(area: Area, width: int, height: int)
    requires
        0 <= width <= area.width,
        0 <= height <= area.height,
        area.x + area.width <= u16::MAX,
        area.y + area.height <= u16::MAX,
    ensures
        ({
            let popup = centered(area, width, height);
            let left = popup.x - area.x;
            let right = (area.x + area.width) - (popup.x + popup.width);
            let above = popup.y - area.y;
            let below = (area.y + area.height) - (popup.y + popup.height);
            &&& popup.width == width
            &&& popup.height == height
            &&& 0 <= left <= right <= left + 1
            &&& 0 <= above <= below <= above + 1
        }),
{
}

proof fn lemma_stacked(entry: spec_fn(int) -> Seq<LineView>, start: int, count: int, k: int)
    requires
        0 <= k < count,
        forall|i: int| start <= i < start + count ==> (#[trigger] entry(i)).len() == 2,
    ensures
        stacked(entry, start, count).len() == 2 * count,
        stacked(entry, start, count)[2 * k] == entry(start + k)[0],
        stacked(entry, start, count)[2 * k + 1] == entry(start + k)[1],
    decreases count,
{
    assert(entry(start + count - 1).len() == 2);
    if count == 1 {
        assert(stacked(entry, start, 0).len() == 0);
    } else if k == count - 1 {
        lemma_stacked(entry, start, count - 1, 0);
    } else {
        lemma_stacked(entry, start, count - 1, k);
    }
}

/// A list that is scrolled shows the entries from where it is scrolled to, or
/// from further up where the last would not fill the room, and as many as there
/// is room for.
pub proof fn law_scrolled_lists_show_their_window(scroll: int, count: int, room: int)
    requires
        0 <= scroll,
        0 <= count,
        1 <= room,
    ensures
        count <= room ==> window_start(scroll, count, room) == 0 && window_len(scroll, count, room)
            == count,
        count > room ==> window_len(scroll, count, room) == room,
        scroll + room <= count ==> window_start(scroll, count, room) == scroll,
        count > room && scroll + room > count ==> window_start(scroll, count, room) == count - room,
{
}

/// The rename preview shows for each entry in its window, below the first line,
/// the two lines of its plan, in the order of the plans.
pub proof fn law_rename_preview_shows_its_plans(area: Area, preview: RenamePreviewView, k: int)
    requires
        ({
            let room = crate::popups::capacity(area, 6);
            0 <= k < window_len(preview.scroll as int, preview.plans.len() as int, room)
        }),
    ensures
        ({
            let room = crate::popups::capacity(area, 6);
            let start = window_start(preview.scroll as int, preview.plans.len() as int, room);
            let lines = rename_dialog(area, preview).lines;
            &&& lines[1 + 2 * k] == rename_lines(preview.plans[start + k])[0]
            &&& lines[2 + 2 * k] == rename_lines(preview.plans[start + k])[1]
        }),
{
    let count = preview.plans.len() as int;
    let room = crate::popups::capacity(area, 6);
    let start = window_start(preview.scroll as int, count, room);
    let shown = window_len(preview.scroll as int, count, room);
    lemma_stacked(|i: int| rename_lines(preview.plans[i]), start, shown, k);
}

/// A plan to rename is shown with its source and, where it has one that matters,
/// its target; what is not renamed is shown with the reason.
pub proof fn law_rename_plans_are_shown(plan: RenamePlanView)
    requires
        plan.status == RenameStatus::Ready || plan.status == RenameStatus::Conflict
            ==> plan.target is Some,
    ensures
        ({
            let lines = rename_lines(plan);
            let source = compacted(plan.source).shown();
            let target = compacted(plan.target->0).shown();
            &&& lines.len() == 2
            &&& plan.status == RenameStatus::Ready ==> lines[0].text == "RENAME  "@ + source
                && lines[1].text == "    →   "@ + target
            &&& plan.status == RenameStatus::Unchanged ==> lines[0].text == "KEEP    "@ + source
                + " (already matches)"@
            &&& plan.status == RenameStatus::MissingTrackNumber ==> lines[0].text == "SKIP    "@
                + source + " (missing track number)"@
            &&& plan.status == RenameStatus::Conflict ==> lines[0].text == "SKIP    "@ + source
                && lines[1].text == "    →   "@ + target
                + " (target already exists or is duplicated)"@
        }),
{
}

/// The conversion preview shows for each entry in its window, below the first
/// line, the two lines of its plan, in the order of the queue.
pub proof fn law_conversion_preview_shows_its_plans(
    area: Area,
    preview: ConversionPreviewView,
    k: int,
)
    requires
        ({
            let room = crate::popups::capacity(area, 6);
            0 <= k < window_len(preview.scroll as int, preview.plans.len() as int, room)
        }),
    ensures
        ({
            let room = crate::popups::capacity(area, 6);
            let start = window_start(preview.scroll as int, preview.plans.len() as int, room);
            let lines = conversion_dialog(area, preview).lines;
            &&& lines[1 + 2 * k] == conversion_lines(preview.plans[start + k])[0]
            &&& lines[2 + 2 * k] == conversion_lines(preview.plans[start + k])[1]
        }),
{
    let count = preview.plans.len() as int;
    let room = crate::popups::capacity(area, 6);
    let start = window_start(preview.scroll as int, count, room);
    let shown = window_len(preview.scroll as int, count, room);
    lemma_stacked(|i: int| conversion_lines(preview.plans[i]), start, shown, k);
}

/// A plan to convert is shown with its source and, where it has one that
/// matters, its output; what is not converted is shown with the reason.
pub proof fn law_conversion_plans_are_shown(plan: ConversionPlanView)
    requires
        plan.status == ConversionPlanStatus::Ready || plan.status
            == ConversionPlanStatus::OutputExists ==> plan.output is Some,
    ensures
        ({
            let lines = conversion_lines(plan);
            let source = compacted(plan.source).shown();
            let output = compacted(plan.output->0).shown();
            &&& lines.len() == 2
            &&& plan.status == ConversionPlanStatus::Ready ==> lines[0].text == "CONVERT  "@
                + source && lines[1].text == "    →    "@ + output
            &&& plan.status == ConversionPlanStatus::AlreadyM4a ==> lines[0].text == "SKIP     "@
                + source + " (already M4A)"@
            &&& plan.status == ConversionPlanStatus::OutputExists ==> lines[0].text
                == "SKIP     "@ + source && lines[1].text == "    →    "@ + output
                + " (output already exists)"@
            &&& plan.status == ConversionPlanStatus::OutsideLibrary ==> lines[0].text
                == "SKIP     "@ + source + " (outside the selected library)"@
        }),
{
}

/// The confirmation of a deletion shows for each entry in its window, below the
/// first line, the original that is deleted and the output that is kept.
pub proof fn law_deletion_shows_what_goes_and_stays(
    area: Area,
    completed: Seq<CompletedView>,
    scroll: usize,
    k: int,
)
    requires
        ({
            let room = crate::popups::capacity(area, 7);
            0 <= k < window_len(scroll as int, completed.len() as int, room)
        }),
    ensures
        ({
            let room = crate::popups::capacity(area, 7);
            let start = window_start(scroll as int, completed.len() as int, room);
            let lines = delete_dialog(area, completed, scroll).lines;
            &&& lines[1 + 2 * k].text == "DELETE  "@ + completed[start + k].original.shown()
            &&& lines[2 + 2 * k].text == "KEEP    "@ + completed[start + k].output.shown()
        }),
{
    let count = completed.len() as int;
    let room = crate::popups::capacity(area, 7);
    let start = window_start(scroll as int, count, room);
    let shown = window_len(scroll as int, count, room);
    lemma_stacked(|i: int| delete_lines(completed[i]), start, shown, k);
}

/// The result of a conversion shows for each entry in its window, below the
/// first line, what was converted and to what, and behind all of these what
/// failed and why.
pub proof fn law_result_shows_successes_and_failures(area: Area, result: ResultView, k: int)
    requires
        ({
            let room = crate::popups::capacity(area, 6);
            0 <= k < window_len(
                result.scroll as int,
                (result.successful.len() + result.failures.len()) as int,
                room,
            )
        }),
    ensures
        ({
            let room = crate::popups::capacity(area, 6);
            let done = result.successful.len() as int;
            let count = done + result.failures.len();
            let entry = window_start(result.scroll as int, count, room) + k;
            let lines = result_dialog(area, result).lines;
            &&& entry < done ==> lines[1 + 2 * k].text == "VERIFIED  "@ + compacted(
                result.successful[entry].original,
            ).shown() && lines[2 + 2 * k].text == "    →     "@ + compacted(
                result.successful[entry].output,
            ).shown()
            &&& entry >= done ==> lines[1 + 2 * k].text == "FAILED    "@ + compacted(
                result.failures[entry - done].source,
            ).shown() && lines[2 + 2 * k].text == "    "@ + result.failures[entry - done].error
        }),
{
    let count = result.total() as int;
    let room = crate::popups::capacity(area, 6);
    let start = window_start(result.scroll as int, count, room);
    let shown = window_len(result.scroll as int, count, room);
    lemma_stacked(|i: int| result_lines(result, i), start, shown, k);
}

/// The editor shows each field with its name and value below two lines of its
/// own, the active one marked, and says so where the release date is not valid.
pub proof fn law_editor_shows_its_fields(area: Area, editor: EditorView, field: int)
    requires
        0 <= field < editor.values.len() == field_labels(editor.target).len(),
    ensures
        ({
            let lines = editor_dialog(area, editor).lines;
            let label = field_labels(editor.target)[field];
            &&& lines[2 + field].text == (if field == editor.active_field {
                "> "@
            } else {
                "  "@
            }) + label + ": "@ + editor.values[field]
            &&& valid_release_date(editor.values.last()) <==> lines.len() == 2
                + editor.values.len()
        }),
{
}

/// Where it is inside the dialog the cursor of the editor is shown in the line of
/// the active field, behind what stands before it there.
pub proof fn law_cursor_is_shown_in_its_field(
    area: Area,
    editor: EditorView,
    before: Seq<char>,
    after: Seq<char>,
)
    requires
        crate::editing_laws::stands_between(editor, before, after),
        editor.values.len() == field_labels(editor.target).len(),
        editor_cursor(area, editor) is Some,
        area.x + area.width <= u16::MAX,
        area.y + area.height <= u16::MAX,
    ensures
        ({
            let popup = editor_area(area);
            let label = field_labels(editor.target)[editor.active_field];
            let wide = display_width("> "@ + label + ": "@ + before);
            let (column, line) = editor_cursor(area, editor).unwrap();
            &&& line == popup.y + 3 + editor.active_field
            &&& wide < 0x1_0000 ==> column == popup.x + 1 + wide
        }),
{
    let value = before + after;
    assert(value.take(before.len() as int) =~= before);
    crate::text::lemma_chars_before(value, before.len() as int);
    let popup = editor_area(area);
    law_dialogs_stand_in_the_middle(area, popup.width as int, popup.height as int);
}

/// The dialog of paths shows the first of them in their order, all where they
/// fit, and else how many more there are.
pub proof fn law_paths_are_shown_in_order(area: Area, paths: Seq<PathView>, i: int)
    requires
        ({
            let shown = crate::popups::paths_shown(area, paths.len() as int);
            0 <= i < shown
        }),
    ensures
        ({
            let shown = crate::popups::paths_shown(area, paths.len() as int);
            let lines = paths_dialog(area, paths).lines;
            &&& shown <= paths.len()
            &&& lines[i].text == paths[i].shown()
            &&& shown == paths.len() ==> lines.len() == shown + 2
            &&& shown < paths.len() ==> lines.len() == shown + 3 && lines[shown].text == "… and "@
                + decimal((paths.len() - shown) as nat) + " more"@
        }),
{
}

/// The progress dialog tells how many files are processed, of how many, and how
/// many of them succeeded and failed; what remains and what was processed add up
/// to all.
pub proof fn law_progress_tells_the_counts(area: Area, progress: ProgressView, elapsed: nat)
    requires
        progress.processed <= progress.total,
    ensures
        ({
            let lines = progress_dialog(area, progress, elapsed).lines;
            &&& lines.len() == 6
            &&& lines[2].text == "Processed: "@ + decimal(progress.processed as nat) + "/"@
                + decimal(progress.total as nat)
            &&& lines[3].text == "Successful: "@ + decimal(progress.successful as nat)
            &&& lines[4].text == "Unsuccessful: "@ + decimal(progress.unsuccessful as nat)
            &&& lines[5].text == "Remaining: "@ + decimal(
                (progress.total - progress.processed) as nat,
            )
            &&& progress.current_path is Some && progress.current_path->0.file_name_text() is Some
                ==> exists|mark: Seq<char>|
                lines[0].text == #[trigger] (mark + " Converting: "@
                    + progress.current_path->0.file_name_text()->0)
        }),
{
    let mark = crate::popups::spinner_frame((elapsed / 1_000_000 / 80) as int);
    let name = crate::popups::current_name(progress);
    assert(progress_dialog(area, progress, elapsed).lines[0].text == mark + " Converting: "@
        + name);
}

/// The filter menu shows its three entries below two lines, and marks the one
/// that is selected.
pub proof fn law_filter_menu_shows_its_entries(area: Area, selected: usize, i: int)
    requires
        0 <= i < 3,
    ensures
        ({
            let lines = filter_dialog(area, selected).lines;
            let name = if i == 0 {
                "All tracks"@
            } else if i == 1 {
                "No release date"@
            } else {
                "New (last 2 weeks)"@
            };
            &&& i == selected ==> lines[2 + i].text == " > "@ + name
            &&& i != selected ==> lines[2 + i].text == "   "@ + name
        }),
{
}

} // verus!
