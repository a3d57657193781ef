//! What is said after an action, and the counts that dialogs tell.

use vstd::prelude::*;
use crate::actions::{done_moves, Deletion, RenameOrderView};
use crate::browser::{AppView, Key, ViewMode};
use crate::conversion::CompletedView;
use crate::editing::SaveOrderView;
use crate::format::wave_frame;
use crate::path::PathView;
use crate::popups::{capacity, conversion_dialog, delete_dialog, editor_area, filter_dialog};
use crate::popups::{paths_dialog, progress_dialog, rename_dialog, result_dialog, spinner_frame};
use crate::popups::{window_len, window_start, Area};
use crate::preview::{sources_where, ConversionPreviewView, ProgressView, RenamePlanView};
use crate::preview::{RenamePreviewView, RenameStatus, ResultView};
use crate::queue::{all_queued, eligible};
use crate::queue_laws::leads_there;
use crate::rescan::ScanView;
use crate::text::decimal;

verus! {

/// After saving it is said how many tracks of an album were written to, or that
/// a track was; and where writing failed, how often and why at first.
pub proof fn law_saving_is_reported(
    app: AppView,
    order: SaveOrderView,
    failures: Seq<Seq<char>>,
    scan: ScanView,
)
    ensures
        ({
            let said = app.save_finished(order, failures, scan).status;
            &&& order.whole_album && failures.len() == 0 ==> said == Some(
                "Saved album metadata for "@ + decimal(order.paths.len()) + " tracks"@,
            )
            &&& order.whole_album && failures.len() > 0 ==> said == Some(
                "Saved with "@ + decimal(failures.len()) + " write error(s): "@ + failures[0],
            )
            &&& !order.whole_album && failures.len() == 0 ==> said == Some(
                "Saved track metadata"@,
            )
            &&& !order.whole_album && failures.len() > 0 ==> said == Some(
                "Could not save: "@ + failures[0],
            )
        }),
        app.save_finished(order, failures, scan).albums == app.refreshed(scan).albums,
        app.save_finished(order, failures, scan).selected == app.refreshed(scan).selected,
{
}

/// Queueing a track says whether it was put into the queue or taken out, and
/// that M4A files are not queued.
pub proof fn law_queueing_a_track_is_reported(app: AppView, path: PathView)
    ensures
        ({
            let said = app.with_track_toggled(path).status;
            &&& path.is_m4a() ==> said == Some("M4A files are already in the target format"@)
            &&& !path.is_m4a() && leads_there(app.conversion_queue, path) ==> said == Some(
                "Removed track from the conversion queue"@,
            )
            &&& !path.is_m4a() && !leads_there(app.conversion_queue, path) ==> said == Some(
                "Queued track for M4A conversion"@,
            )
        }),
{
    crate::queue_laws::lemma_leads_there(app.conversion_queue, path);
}

/// Queueing several tracks says how many were put into the queue, which are as
/// many as it grew by, and how many were in it already; or how many were taken
/// out.
pub proof fn law_queueing_several_tracks_is_reported(app: AppView, paths: Seq<PathView>)
    ensures
        ({
            let after = app.with_tracks_toggled(paths);
            let wanted = eligible(paths);
            let there = all_queued(app.conversion_queue, wanted);
            let grown = after.conversion_queue.len() - app.conversion_queue.len();
            &&& wanted.len() == 0 ==> after.status == Some(
                "M4A files are already in the target format"@,
            ) && after.conversion_queue == app.conversion_queue
            &&& wanted.len() > 0 && there ==> after.status == Some(
                "Removed "@ + decimal(wanted.len()) + " track(s) from the conversion queue"@,
            )
            &&& wanted.len() > 0 && !there && grown == wanted.len() ==> after.status == Some(
                "Queued "@ + decimal(grown as nat) + " track(s) for M4A conversion"@,
            )
            &&& wanted.len() > 0 && !there && grown < wanted.len() ==> after.status == Some(
                "Queued "@ + decimal(grown as nat) + " track(s); "@ + decimal(
                    (wanted.len() - grown) as nat,
                ) + " already queued"@,
            )
        }),
{
    let wanted = eligible(paths);
    let queue = app.conversion_queue;
    crate::queue_laws::law_toggling_several_tracks(queue, wanted);
    if !all_queued(queue, wanted) {
        let i = choose|i: int|
            0 <= i < wanted.len() && !crate::path::holds(queue, #[trigger] wanted[i]);
        crate::queue_laws::lemma_leads_there(queue, wanted[i]);
    }
}

/// After a renaming it is said how many tracks were renamed and, where there are
/// any, how many were not.
pub proof fn law_renaming_is_reported(app: AppView, order: RenameOrderView, outcomes: Seq<bool>)
    requires
        order.moves.len() == outcomes.len(),
    ensures
        ({
            let said = app.rename_finished(order, outcomes, None).status;
            let done = done_moves(order.moves, outcomes).len();
            let left = (order.skipped + order.moves.len() - done) as nat;
            &&& done == 0 && left == 0 ==> said == Some(
                "File names already match the track numbers and titles"@,
            )
            &&& done == 0 && left > 0 ==> said == Some(
                "No tracks renamed; skipped "@ + decimal(left),
            )
            &&& done > 0 && left == 0 ==> said == Some("Renamed "@ + decimal(done) + " track(s)"@)
            &&& done > 0 && left > 0 ==> said == Some(
                "Renamed "@ + decimal(done) + " track(s); skipped "@ + decimal(left),
            )
        }),
{
}

/// After a deletion it is said how many originals are gone, and after a
/// conversion how many files were converted and how many remain queued.
pub proof fn law_files_are_reported(
    app: AppView,
    deletions: Seq<Deletion>,
    scan: ScanView,
)
    ensures
        ({
            let after = app.deletion_finished(deletions, scan);
            let gone = app.completed_conversions.len() - after.completed_conversions.len();
            after.status == Some(
                "Deleted "@ + decimal(gone as nat) + " original track(s) after verification"@,
            )
        }),
        app.conversion_progress is Some ==> app.conversion_ended(scan).status == Some(
            "Converted and verified "@ + decimal(app.conversion_progress->0.successful as nat)
                + " track(s); "@ + decimal(app.conversion_queue.len()) + " remain queued"@,
        ),
{
}

/// What is refused or empty is said.
pub proof fn law_refusals_are_reported(app: AppView, existing: Seq<PathView>)
    ensures
        app.completed_conversions.len() == 0 ==> app.delete_requested().status == Some(
            "No verified conversions are available to delete"@,
        ),
        app.delete_key(Key::Esc).status == Some("Original files kept"@),
        app.conversion_queue.len() == 0 ==> app.conversion_previewed(existing).status == Some(
            "Conversion queue is empty"@,
        ),
        app.conversion_preview_key(Key::Esc).status == Some("Conversion cancelled"@),
        app.rename_key(Key::Esc).status == Some("Rename cancelled"@),
        app.ready_sources().len() == 0 ==> app.conversions_started().status == Some(
            "No queued tracks can be converted; conflicts remain queued"@,
        ),
        app.selected_row() is None ==> app.rename_previewed(existing).status == Some(
            "Select an album or track to rename its file(s)"@,
        ),
        app.selected_row() is None ==> app.paths_inspected().status == Some(
            "Select an album or track to inspect its file path"@,
        ),
        app.selected_row() is None ==> app.playback_toggled().status == Some(
            "Select a track to play it"@,
        ),
        app.view_toggled().status == Some(
            if app.view_mode == ViewMode::Folders {
                "Album metadata view"@
            } else {
                "Folder view"@
            },
        ),
{
}

// ---------------------------------------------------------------------------
// Counts in dialogs
// ---------------------------------------------------------------------------

/// The first line of each dialog with a list tells its counts, and which of its
/// entries are shown.
pub proof fn law_lists_tell_their_counts(
    area: Area,
    rename: RenamePreviewView,
    conversion: ConversionPreviewView,
    completed: Seq<CompletedView>,
    scroll: usize,
    result: ResultView,
)
    ensures
        ({
            let count = rename.plans.len();
            let ready = rename.plans.filter(
                |plan: RenamePlanView| plan.status == RenameStatus::Ready,
            ).len();
            rename_dialog(area, rename).lines[0].text == decimal(ready) + " track(s) ready · "@
                + decimal((count - ready) as nat) + " skipped · showing "@ + shown_entries(
                rename.scroll as int,
                count as int,
                capacity(area, 6),
            )
        }),
        conversion_dialog(area, conversion).lines[0].text
            == "M4A files are written beside their sources · "@ + decimal(
            sources_where(conversion.plans, true).len(),
        ) + " ready · "@ + decimal(sources_where(conversion.plans, false).len())
            + " skipped · showing "@ + shown_entries(
            conversion.scroll as int,
            conversion.plans.len() as int,
            capacity(area, 6),
        ),
        delete_dialog(area, completed, scroll).lines[0].text == "Delete "@ + decimal(
            completed.len(),
        ) + " verified original track(s)? This cannot be undone. Showing "@ + shown_entries(
            scroll as int,
            completed.len() as int,
            capacity(area, 7),
        ) + "."@,
        result_dialog(area, result).lines[0].text == decimal(result.successful.len())
            + " verified · "@ + decimal(result.failures.len()) + " failed · "@ + decimal(
            result.remaining_queued as nat,
        ) + " remain queued · showing "@ + shown_entries(
            result.scroll as int,
            (result.successful.len() + result.failures.len()) as int,
            capacity(area, 6),
        ),
{
    crate::file_laws::law_ready_plans_are_counted(rename.plans);
}

/// Which entries of a list are shown, counted from one, and of how many.
pub open spec fn shown_entries(scroll: int, count: int, room: int) -> Seq<char> {
    let start = window_start(scroll, count, room);
    decimal((start + 1) as nat) + "–"@ + decimal(
        (start + window_len(scroll, count, room)) as nat,
    ) + " of "@ + decimal(count as nat)
}

// ---------------------------------------------------------------------------
// Sizes and frames
// ---------------------------------------------------------------------------

/// There is room for one entry, and for one more with each two rows of the
/// screen beyond the frame, the margins and the other lines.
pub proof fn law_entries_take_two_rows(area: Area, fixed: int)
    requires
        0 <= fixed,
    ensures
        capacity(area, fixed) >= 1,
        area.height >= 4 + fixed + 2 ==> 4 + fixed + 2 * capacity(area, fixed) <= area.height < 4
            + fixed + 2 * (capacity(area, fixed) + 1),
        area.height < 4 + fixed + 2 ==> capacity(area, fixed) == 1,
{
}

/// On a screen with room for them dialogs have their widths and, as far as they
/// are not lists, their heights; on a smaller one they keep a margin of two
/// columns.
pub proof fn law_dialogs_have_their_sizes(
    area: Area,
    rename: RenamePreviewView,
    conversion: ConversionPreviewView,
    completed: Seq<CompletedView>,
    result: ResultView,
    progress: ProgressView,
    paths: Seq<PathView>,
    scroll: usize,
    elapsed: nat,
)
    requires
        area.width >= 4,
        area.height >= 13,
    ensures
        ({
            let room = (area.width - 4) as int;
            let list = if room < 110 {
                room
            } else {
                110
            };
            &&& rename_dialog(area, rename).area.width == list
            &&& conversion_dialog(area, conversion).area.width == list
            &&& delete_dialog(area, completed, scroll).area.width == list
            &&& result_dialog(area, result).area.width == list
            &&& paths_dialog(area, paths).area.width == (if room < 100 {
                room
            } else {
                100
            })
            &&& editor_area(area).width == (if room < 70 {
                room
            } else {
                70
            })
            &&& progress_dialog(area, progress, elapsed).area.width == (if room < 48 {
                room
            } else {
                48
            })
            &&& filter_dialog(area, scroll).area.width == (if room < 42 {
                room
            } else {
                42
            })
            &&& editor_area(area).height == 9
            &&& progress_dialog(area, progress, elapsed).area.height == 9
            &&& filter_dialog(area, scroll).area.height == 9
        }),
{
}

/// The mark that turns and the wave go through their frames in order and start
/// again.
pub proof fn law_frames_go_round(step: int)
    requires
        0 <= step,
    ensures
        spinner_frame(step + 10) == spinner_frame(step),
        step % 10 == 0 ==> spinner_frame(step) == "⠋"@ && spinner_frame(step + 1) == "⠙"@
            && spinner_frame(step + 2) == "⠹"@ && spinner_frame(step + 3) == "⠸"@
            && spinner_frame(step + 4) == "⠼"@ && spinner_frame(step + 5) == "⠴"@
            && spinner_frame(step + 6) == "⠦"@ && spinner_frame(step + 7) == "⠧"@
            && spinner_frame(step + 8) == "⠇"@ && spinner_frame(step + 9) == "⠏"@,
        wave_frame(step + 4) == wave_frame(step),
        step % 4 == 0 ==> wave_frame(step) == "▁▃▅"@ && wave_frame(step + 1) == "▃▅▃"@
            && wave_frame(step + 2) == "▅▃▁"@ && wave_frame(step + 3) == "▃▁▃"@,
{
}

} // verus!
