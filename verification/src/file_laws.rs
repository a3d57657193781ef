//! What renaming, deleting and playing files means, said of titles, numbers and
//! paths.

use vstd::prelude::*;
use vstd::utf8::*;
use crate::actions::{done_moves, moved_path, moves_of, order_of, retained, Deletion, MoveView};
use crate::actions::{PlaybackStepView, RenameOrderView};
use crate::browser::{AppView, Key, LibraryRow, PlaybackView};
use crate::conversion::CompletedView;
use crate::editing_laws::albums_in_view;
use crate::library::TrackView;
use crate::path::PathView;
use crate::preview::{is_contested, is_proposed, is_separator, one_down, one_up, ready_renames};
use crate::preview::{rename_plans, renamed, sanitized, trim_leading_dots, trim_trailing_dots};
use crate::preview::{underscored, RenamePlanView, RenameStatus};
use crate::queue_laws::{leads_there, lemma_leads_there};
use crate::rescan::ScanView;
use crate::text::{is_white_space, trimmed};

verus! {

// ---------------------------------------------------------------------------
// File names
// ---------------------------------------------------------------------------

/// White space and the characters that file systems refuse cannot stand in a
/// file name; all others can.
pub proof fn law_characters_refused_in_names(c: char)
    ensures
        is_separator(c) <==> is_white_space(c) || c == '/' || c == '\\' || c == ':' || c == '*'
            || c == '?' || c == '"' || c == '<' || c == '>' || c == '|' || c as int == 0,
{
}

proof fn lemma_plain_end(text: Seq<char>, plain: Seq<char>)
    requires
        forall|i: int| 0 <= i < plain.len() ==> !is_separator(#[trigger] plain[i]),
    ensures
        underscored(text + plain) == underscored(text) + plain,
    decreases plain.len(),
{
    if plain.len() == 0 {
        assert(text + plain =~= text);
        assert(underscored(text) + plain =~= underscored(text));
    } else {
        let shorter = plain.drop_last();
        lemma_plain_end(text, shorter);
        assert((text + plain).drop_last() =~= text + shorter);
        assert(!is_separator(plain[plain.len() - 1]));
        assert((underscored(text) + shorter).push(plain.last()) =~= underscored(text) + plain);
    }
}

/// A text with `_` at its end.
pub open spec fn ending_in_underscore(text: Seq<char>) -> Seq<char> {
    if text.len() > 0 && text.last() == '_' {
        text
    } else {
        text.push('_')
    }
}

proof fn lemma_separated_end(text: Seq<char>, run: Seq<char>)
    requires
        run.len() > 0,
        forall|i: int| 0 <= i < run.len() ==> is_separator(#[trigger] run[i]),
    ensures
        underscored(text + run) == ending_in_underscore(underscored(text)),
    decreases run.len(),
{
    let shorter = run.drop_last();
    assert(is_separator(run[run.len() - 1]));
    assert((text + run).drop_last() =~= text + shorter);
    assert((text + run).last() == run.last());
    if shorter.len() == 0 {
        assert(text + shorter =~= text);
    } else {
        assert forall|i: int| 0 <= i < shorter.len() implies is_separator(#[trigger] shorter[i]) by {
            assert(shorter[i] == run[i]);
        }
        lemma_separated_end(text, shorter);
    }
}

/// A run of characters that cannot stand in a file name, wherever in a text it
/// is, becomes one `_`, or none behind a `_`. What can stand there stays.
pub proof fn law_refused_runs_become_one_underscore(
    text: Seq<char>,
    run: Seq<char>,
    plain: Seq<char>,
)
    requires
        run.len() > 0,
        forall|i: int| 0 <= i < run.len() ==> is_separator(#[trigger] run[i]),
        forall|i: int| 0 <= i < plain.len() ==> !is_separator(#[trigger] plain[i]),
    ensures
        underscored(text + run + plain) == ending_in_underscore(underscored(text)) + plain,
        underscored(plain) == plain,
{
    lemma_separated_end(text, run);
    lemma_plain_end(text + run, plain);
    let none = Seq::<char>::empty();
    lemma_plain_end(none, plain);
    assert(none + plain =~= plain);
    assert(underscored(none) =~= none);
    assert(underscored(none) + plain =~= plain);
}

/// Whether a text is made of dots.
pub open spec fn is_dots(text: Seq<char>) -> bool {
    forall|i: int| 0 <= i < text.len() ==> #[trigger] text[i] == '.'
}

proof fn lemma_leading_dots(lead: Seq<char>, rest: Seq<char>)
    requires
        is_dots(lead),
        rest.len() > 0 ==> rest[0] != '.',
    ensures
        trim_leading_dots(lead + rest) == rest,
    decreases lead.len(),
{
    if lead.len() == 0 {
        assert(lead + rest =~= rest);
    } else {
        assert(lead[0] == '.');
        let shorter = lead.skip(1);
        assert forall|i: int| 0 <= i < shorter.len() implies #[trigger] shorter[i] == '.' by {
            assert(shorter[i] == lead[i + 1]);
        }
        lemma_leading_dots(shorter, rest);
        assert((lead + rest).skip(1) =~= shorter + rest);
        assert((lead + rest)[0] == '.');
    }
}

proof fn lemma_trailing_dots(rest: Seq<char>, tail: Seq<char>)
    requires
        is_dots(tail),
        rest.len() > 0 ==> rest.last() != '.',
    ensures
        trim_trailing_dots(rest + tail) == rest,
    decreases tail.len(),
{
    if tail.len() == 0 {
        assert(rest + tail =~= rest);
    } else {
        assert(tail[tail.len() - 1] == '.');
        lemma_trailing_dots(rest, tail.drop_last());
        assert((rest + tail).drop_last() =~= rest + tail.drop_last());
        assert((rest + tail).last() == '.');
    }
}

/// The stem of a file name is the title without the white space around it and
/// the dots around what is left, with `_` for what cannot stand there. A title
/// of which nothing is left is `Untitled`.
pub proof fn law_titles_name_files(
    title: Seq<char>,
    lead: Seq<char>,
    core: Seq<char>,
    tail: Seq<char>,
)
    requires
        trimmed(title) == lead + core + tail,
        is_dots(lead),
        is_dots(tail),
        core.len() > 0 ==> core[0] != '.' && core.last() != '.',
    ensures
        core.len() > 0 ==> sanitized(title) == underscored(core),
        core.len() == 0 ==> sanitized(title) == "Untitled"@,
{
    if core.len() > 0 {
        assert(lead + core + tail =~= lead + (core + tail));
        lemma_leading_dots(lead, core + tail);
        lemma_trailing_dots(core, tail);
        lemma_not_empty(core);
    } else {
        let dots = lead + tail;
        assert(lead + core + tail =~= dots);
        let none = Seq::<char>::empty();
        assert(dots + none =~= dots);
        lemma_leading_dots(dots, none);
    }
}

proof fn lemma_not_empty(text: Seq<char>)
    requires
        text.len() > 0,
    ensures
        underscored(text).len() > 0,
{
}

// ---------------------------------------------------------------------------
// Renaming
// ---------------------------------------------------------------------------

/// Every track has its plan, in the order of the tracks. A track without a
/// number gets no new name; one that has its name already stays; one whose new
/// name is taken by a file or wanted by another track is in conflict; and any
/// other is ready.
pub proof fn law_every_track_has_its_plan(
    tracks: Seq<TrackView>,
    existing: Seq<PathView>,
    i: int,
)
    requires
        0 <= i < tracks.len(),
    ensures
        rename_plans(tracks, existing).len() == tracks.len(),
        ({
            let plan = rename_plans(tracks, existing)[i];
            let target = renamed(tracks[i]);
            let taken = leads_there(existing, target->0);
            let wanted = exists|j: int|
                0 <= j < tracks.len() && j != i && renamed(#[trigger] tracks[j]) is Some
                    && renamed(tracks[j])->0.route() == target->0.route()
                    && target->0.route() != tracks[j].path.route();
            let stays = target is Some && target->0.route() == tracks[i].path.route();
            &&& plan.source == tracks[i].path
            &&& plan.target == target
            &&& plan.status == RenameStatus::MissingTrackNumber <==> tracks[i].track_number is None
            &&& plan.status == RenameStatus::Unchanged <==> stays
            &&& plan.status == RenameStatus::Conflict <==> target is Some && !stays && (taken
                || wanted)
            &&& plan.status == RenameStatus::Ready <==> target is Some && !stays && !taken
                && !wanted
        }),
{
    if let Some(target) = renamed(tracks[i]) {
        lemma_leads_there(existing, target);
        let wanted = exists|j: int|
            0 <= j < tracks.len() && j != i && renamed(#[trigger] tracks[j]) is Some && renamed(
                tracks[j],
            )->0.route() == target.route() && target.route() != tracks[j].path.route();
        if wanted {
            let j = choose|j: int|
                0 <= j < tracks.len() && j != i && renamed(#[trigger] tracks[j]) is Some
                    && renamed(tracks[j])->0.route() == target.route() && target.route()
                    != tracks[j].path.route();
            assert(is_proposed(tracks[j], target));
        }
        if is_contested(tracks, i, target) {
            let other = choose|other: int|
                0 <= other < tracks.len() && other != i && is_proposed(
                    #[trigger] tracks[other],
                    target,
                );
            assert(renamed(tracks[other]) is Some);
        }
    }
}

/// The move of a plan that is ready.
pub open spec fn ready_move(plan: RenamePlanView) -> Option<MoveView> {
    if plan.status == RenameStatus::Ready && plan.target is Some {
        Some(MoveView { source: plan.source, target: plan.target->0 })
    } else {
        None
    }
}

/// A confirmed preview renames what is ready, in its order, and nothing else.
pub proof fn law_ready_plans_are_moved(plans: Seq<RenamePlanView>)
    ensures
        moves_of(plans) == plans.filter_map(|plan: RenamePlanView| ready_move(plan)),
    decreases plans.len(),
{
    let own = |plan: RenamePlanView| ready_move(plan);
    if plans.len() > 0 {
        law_ready_plans_are_moved(plans.drop_last());
        assert(moves_of(plans) =~= plans.filter_map(own));
    }
}

/// As many plans are ready as pass that test.
pub proof fn law_ready_plans_are_counted(plans: Seq<RenamePlanView>)
    ensures
        ready_renames(plans) == plans.filter(
            |plan: RenamePlanView| plan.status == RenameStatus::Ready,
        ).len(),
    decreases plans.len(),
{
    reveal(Seq::filter);
    if plans.len() > 0 {
        law_ready_plans_are_counted(plans.drop_last());
    }
}

/// The files that were renamed are those whose renaming succeeded, in order.
pub proof fn law_successful_moves_are_done(moves: Seq<MoveView>, outcomes: Seq<bool>)
    requires
        moves.len() == outcomes.len(),
    ensures
        done_moves(moves, outcomes) == Seq::new(
            moves.len(),
            |i: int| (moves[i], outcomes[i]),
        ).filter_map(
            |pair: (MoveView, bool)|
                if pair.1 {
                    Some(pair.0)
                } else {
                    None
                },
        ),
    decreases moves.len(),
{
    let own = |pair: (MoveView, bool)|
        if pair.1 {
            Some(pair.0)
        } else {
            None
        };
    let pairs = Seq::new(moves.len(), |i: int| (moves[i], outcomes[i]));
    if moves.len() > 0 {
        let fewer = moves.drop_last();
        let known = outcomes.drop_last();
        law_successful_moves_are_done(fewer, known);
        assert(pairs.drop_last() =~= Seq::new(fewer.len(), |i: int| (fewer[i], known[i])));
        assert(done_moves(moves, outcomes) =~= pairs.filter_map(own));
    }
}

/// After a renaming every list that held a path holds where its file is now:
/// the albums of both views, the queue, the new files, what was converted and
/// what is playing. Nothing else of a track changes.
pub proof fn law_moves_reach_every_list(app: AppView, moves: Seq<MoveView>)
    ensures
        ({
            let after = app.with_moves(moves);
            &&& after.albums.len() == app.albums.len()
            &&& after.folder_albums.len() == app.folder_albums.len()
            &&& forall|a: int, t: int|
                #![trigger after.albums[a].tracks[t]]
                0 <= a < app.albums.len() && 0 <= t < app.albums[a].tracks.len()
                    ==> after.albums[a].tracks[t] == (TrackView {
                    path: moved_path(app.albums[a].tracks[t].path, moves),
                    ..app.albums[a].tracks[t]
                })
            &&& forall|a: int, t: int|
                #![trigger after.folder_albums[a].tracks[t]]
                0 <= a < app.folder_albums.len() && 0 <= t < app.folder_albums[a].tracks.len()
                    ==> after.folder_albums[a].tracks[t] == (TrackView {
                    path: moved_path(app.folder_albums[a].tracks[t].path, moves),
                    ..app.folder_albums[a].tracks[t]
                })
            &&& after.conversion_queue.len() == app.conversion_queue.len()
            &&& forall|i: int|
                0 <= i < app.conversion_queue.len() ==> #[trigger] after.conversion_queue[i]
                    == moved_path(app.conversion_queue[i], moves)
            &&& after.recent.len() == app.recent.len()
            &&& forall|i: int|
                0 <= i < app.recent.len() ==> #[trigger] after.recent[i] == moved_path(
                    app.recent[i],
                    moves,
                )
            &&& after.completed_conversions.len() == app.completed_conversions.len()
            &&& forall|i: int|
                0 <= i < app.completed_conversions.len() ==> (
                #[trigger] after.completed_conversions[i]).original == moved_path(
                    app.completed_conversions[i].original,
                    moves,
                ) && after.completed_conversions[i].output == app.completed_conversions[i].output
            &&& app.playback is Some ==> after.playback is Some && after.playback->0.path
                == moved_path(app.playback->0.path, moves) && after.playback->0.title
                == app.playback->0.title
            &&& app.playback is None ==> after.playback is None
        }),
{
}

/// A rename preview is one of the tracks of the selected album, or of the
/// selected track, from its first entry on. Where neither is selected, none is
/// opened.
pub proof fn law_rename_preview_is_of_the_selection(
    app: AppView,
    existing: Seq<PathView>,
    album: usize,
    track: usize,
)
    ensures
        ({
            let after = app.rename_previewed(existing);
            let row = app.selected_row();
            let tracks = albums_in_view(app)[album as int].tracks;
            let own = app.folder_albums[album as int].tracks;
            &&& row == Some(LibraryRow::Album(album)) ==> after.rename_preview is Some
                && after.rename_preview->0.plans == rename_plans(tracks, existing)
                && after.rename_preview->0.scroll == 0
            &&& row == Some(LibraryRow::FolderAlbum(album)) ==> after.rename_preview is Some
                && after.rename_preview->0.plans == rename_plans(own, existing)
                && after.rename_preview->0.scroll == 0
            &&& row == Some(LibraryRow::Track { album, track }) ==> after.rename_preview is Some
                && after.rename_preview->0.plans == rename_plans(
                seq![tracks[track as int]],
                existing,
            ) && after.rename_preview->0.scroll == 0
            &&& row is None || row->0 is FolderGroup ==> after.rename_preview
                == app.rename_preview
            &&& after.albums == app.albums && after.folder_albums == app.folder_albums
        }),
{
}

/// After a renaming the browser knows the files under the names they have now,
/// those that were renamed and no others; and where a scan followed because
/// there were any, it shows what was scanned.
pub proof fn law_renaming_is_taken_in(
    app: AppView,
    order: RenameOrderView,
    outcomes: Seq<bool>,
    scan: ScanView,
)
    ensures
        ({
            let done = done_moves(order.moves, outcomes);
            let after = app.rename_finished(order, outcomes, None);
            let shown = app.rename_finished(order, outcomes, Some(scan));
            &&& after.albums == app.with_moves(done).albums
            &&& after.folder_albums == app.with_moves(done).folder_albums
            &&& after.conversion_queue == app.with_moves(done).conversion_queue
            &&& after.recent == app.with_moves(done).recent
            &&& after.completed_conversions == app.with_moves(done).completed_conversions
            &&& after.playback == app.with_moves(done).playback
            &&& done.len() > 0 ==> shown == (AppView {
                status: shown.status,
                ..app.with_moves(done).refreshed(scan)
            })
            &&& done.len() == 0 ==> shown == after
        }),
{
}

/// Confirming a rename preview, with either `y`, closes it; so does refusing.
/// Neither changes a path.
pub proof fn law_rename_keys(app: AppView)
    requires
        app.rename_preview is Some,
    ensures
        app.rename_key(Key::Char('y')) == (AppView { rename_preview: None, ..app }),
        app.rename_key(Key::Char('Y')) == (AppView { rename_preview: None, ..app }),
        app.rename_key(Key::Esc) == app.rename_key(Key::Char('n')),
        app.rename_key(Key::Esc) == app.rename_key(Key::Char('N')),
        app.rename_key(Key::Esc).rename_preview is None,
        app.rename_key(Key::Esc).albums == app.albums,
        order_of(app.rename_preview->0).moves == moves_of(app.rename_preview->0.plans),
        app.rename_preview->0.plans.len() <= usize::MAX ==> order_of(
            app.rename_preview->0,
        ).skipped + ready_renames(app.rename_preview->0.plans) == app.rename_preview->0.plans.len(),
{
    law_ready_plans_are_counted(app.rename_preview->0.plans);
    let plans = app.rename_preview->0.plans;
    let ready = |plan: RenamePlanView| plan.status == RenameStatus::Ready;
    plans.lemma_filter_len(ready);
}

// ---------------------------------------------------------------------------
// Deleting
// ---------------------------------------------------------------------------

/// What stays with what may be deleted are the conversions whose original was
/// not verified again or not removed, in their order. The others are gone.
pub proof fn law_deleted_originals_are_gone(
    completed: Seq<CompletedView>,
    deletions: Seq<Deletion>,
)
    requires
        completed.len() == deletions.len(),
    ensures
        retained(completed, deletions) == Seq::new(
            completed.len(),
            |i: int| (completed[i], deletions[i]),
        ).filter_map(
            |pair: (CompletedView, Deletion)|
                if pair.1.verified && pair.1.removed {
                    None
                } else {
                    Some(pair.0)
                },
        ),
    decreases completed.len(),
{
    let own = |pair: (CompletedView, Deletion)|
        if pair.1.verified && pair.1.removed {
            None
        } else {
            Some(pair.0)
        };
    let pairs = Seq::new(completed.len(), |i: int| (completed[i], deletions[i]));
    if completed.len() > 0 {
        let fewer = completed.drop_last();
        let known = deletions.drop_last();
        law_deleted_originals_are_gone(fewer, known);
        assert(pairs.drop_last() =~= Seq::new(fewer.len(), |i: int| (fewer[i], known[i])));
        assert(retained(completed, deletions) =~= pairs.filter_map(own));
    }
}

/// Deleting is offered only where something was converted, and is over once it
/// was carried out or refused. A refusal keeps every conversion.
pub proof fn law_deleting_is_confirmed(
    app: AppView,
    deletions: Seq<Deletion>,
    scan: ScanView,
)
    ensures
        app.completed_conversions.len() == 0 ==> app.delete_requested().delete_confirmation
            == app.delete_confirmation,
        app.completed_conversions.len() > 0 ==> app.delete_requested().delete_confirmation == Some(
            0usize,
        ),
        app.delete_key(Key::Esc).delete_confirmation is None,
        app.delete_key(Key::Esc).completed_conversions == app.completed_conversions,
        app.delete_key(Key::Esc) == app.delete_key(Key::Char('n')),
        app.delete_key(Key::Esc) == app.delete_key(Key::Char('N')),
        app.deletion_finished(deletions, scan).completed_conversions == retained(
            app.completed_conversions,
            deletions,
        ),
        app.deletion_finished(deletions, scan).delete_confirmation is None,
        app.deletion_finished(deletions, scan).conversion_queue == app.conversion_queue,
{
}

// ---------------------------------------------------------------------------
// Playing, paths and scrolling
// ---------------------------------------------------------------------------

/// The play key stops the selected track if it is the one that plays, and else
/// plays it in place of any other; it does nothing where no track is selected.
pub proof fn law_playback_follows_the_selection(app: AppView, album: usize, track: usize)
    ensures
        ({
            let selected = albums_in_view(app)[album as int].tracks[track as int];
            let plays = app.playback is Some && app.playback->0.path.route()
                == selected.path.route();
            let at_track = app.selected_row() == Some(LibraryRow::Track { album, track });
            &&& at_track && plays ==> app.playback_step() is Stop
            &&& at_track && !plays ==> app.playback_step() == PlaybackStepView::Play(
                PlaybackView { path: selected.path, title: selected.title },
            )
            &&& at_track ==> app.playback_toggled().playback is None
            &&& !(app.selected_row() matches Some(LibraryRow::Track { .. }))
                ==> app.playback_step() is Nothing && app.playback_toggled().playback
                == app.playback
        }),
{
}

/// A player that was started plays what it was started with; one that could not
/// be started plays nothing new; and one that has ended plays nothing.
pub proof fn law_playback_is_what_plays(app: AppView, playback: PlaybackView, error: Seq<char>)
    ensures
        app.playback_started(playback, None).playback == Some(playback),
        app.playback_started(playback, Some(error)).playback == app.playback,
        app.playback_refreshed(true).playback is None,
        app.playback_refreshed(false) == app,
        app.playback is None ==> app.playback_refreshed(true) == app,
{
}

/// The paths that are shown are those of the tracks of the selected album, or
/// that of the selected track.
pub proof fn law_inspected_paths_are_those_selected(app: AppView, album: usize, track: usize)
    ensures
        ({
            let tracks = albums_in_view(app)[album as int].tracks;
            let shown = app.paths_inspected().path_inspector;
            &&& app.selected_row() == Some(LibraryRow::Album(album)) ==> shown is Some
                && shown->0.len() == tracks.len() && forall|i: int|
                0 <= i < tracks.len() ==> #[trigger] shown->0[i] == tracks[i].path
            &&& app.selected_row() == Some(LibraryRow::Track { album, track }) ==> shown == Some(
                seq![tracks[track as int].path],
            )
        }),
        ({
            let tracks = app.folder_albums[album as int].tracks;
            let shown = app.paths_inspected().path_inspector;
            app.selected_row() == Some(LibraryRow::FolderAlbum(album)) ==> shown is Some
                && shown->0.len() == tracks.len() && forall|i: int|
                0 <= i < tracks.len() ==> #[trigger] shown->0[i] == tracks[i].path
        }),
        app.selected_row() is None || app.selected_row()->0 is FolderGroup
            ==> app.paths_inspected().path_inspector == app.path_inspector,
        app.path_inspector_key(Key::Esc) == (AppView { path_inspector: None, ..app }),
        app.path_inspector_key(Key::Enter) == (AppView { path_inspector: None, ..app }),
        app.path_inspector_key(Key::Char('i')) == (AppView { path_inspector: None, ..app }),
{
    let tracks = albums_in_view(app)[album as int].tracks;
    if app.selected_row() == Some(LibraryRow::Track { album, track }) {
        assert(app.paths_inspected().path_inspector->0 =~= seq![tracks[track as int].path]);
    }
}

/// In the previews, in the confirmation of a deletion and in the result, the keys
/// down and `j` scroll one entry down, and up and `k` one up.
pub proof fn law_dialogs_are_scrolled(app: AppView)
    ensures
        app.rename_preview is Some && app.rename_preview->0.plans.len() <= usize::MAX ==> ({
            let preview = app.rename_preview->0;
            let down = app.rename_key(Key::Down);
            let up = app.rename_key(Key::Up);
            &&& down == app.rename_key(Key::Char('j')) && up == app.rename_key(Key::Char('k'))
            &&& down.rename_preview is Some && up.rename_preview is Some
            &&& down.rename_preview->0.plans == preview.plans
            &&& down.rename_preview->0.scroll == one_down(
                preview.scroll as int,
                preview.plans.len() as int,
            )
            &&& up.rename_preview->0.plans == preview.plans
            &&& up.rename_preview->0.scroll == one_up(preview.scroll as int)
        }),
        app.conversion_preview is Some && app.conversion_preview->0.plans.len() <= usize::MAX ==> ({
            let preview = app.conversion_preview->0;
            let down = app.conversion_preview_key(Key::Down);
            let up = app.conversion_preview_key(Key::Up);
            &&& down == app.conversion_preview_key(Key::Char('j'))
            &&& up == app.conversion_preview_key(Key::Char('k'))
            &&& down.conversion_preview is Some && up.conversion_preview is Some
            &&& down.conversion_preview->0.plans == preview.plans
            &&& down.conversion_preview->0.scroll == one_down(
                preview.scroll as int,
                preview.plans.len() as int,
            )
            &&& up.conversion_preview->0.plans == preview.plans
            &&& up.conversion_preview->0.scroll == one_up(preview.scroll as int)
        }),
        app.delete_confirmation is Some && app.completed_conversions.len() <= usize::MAX ==> ({
            let scroll = app.delete_confirmation->0 as int;
            let down = app.delete_key(Key::Down);
            let up = app.delete_key(Key::Up);
            &&& down == app.delete_key(Key::Char('j')) && up == app.delete_key(Key::Char('k'))
            &&& down.delete_confirmation is Some && down.delete_confirmation->0 == one_down(
                scroll,
                app.completed_conversions.len() as int,
            )
            &&& up.delete_confirmation is Some && up.delete_confirmation->0 == one_up(scroll)
        }),
        app.conversion_result is Some && app.conversion_result->0.successful.len()
            + app.conversion_result->0.failures.len() <= usize::MAX ==> ({
            let result = app.conversion_result->0;
            let down = app.conversion_result_key(Key::Down);
            let up = app.conversion_result_key(Key::Up);
            &&& down == app.conversion_result_key(Key::Char('j'))
            &&& up == app.conversion_result_key(Key::Char('k'))
            &&& down.conversion_result is Some && down.conversion_result->0.scroll == one_down(
                result.scroll as int,
                (result.successful.len() + result.failures.len()) as int,
            )
            &&& up.conversion_result is Some && up.conversion_result->0.scroll == one_up(
                result.scroll as int,
            )
            &&& app.conversion_result_key(Key::Esc).conversion_result is None
            &&& app.conversion_result_key(Key::Enter).conversion_result is None
            &&& app.conversion_result_key(Key::Char('C')).conversion_result is None
        }),
{
}

/// Scrolling goes one entry down and one up, and stops at the last and at the
/// first.
pub proof fn law_scrolling_stops_at_the_ends(scroll: int, count: int)
    requires
        0 <= scroll < count,
    ensures
        scroll < count - 1 ==> one_down(scroll, count) == scroll + 1,
        scroll == count - 1 ==> one_down(scroll, count) == scroll,
        scroll > 0 ==> one_up(scroll) == scroll - 1,
        one_up(0) == 0,
        one_down(0, 0) == 0,
{
}

} // verus!
