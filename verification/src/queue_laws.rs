//! What the conversion queue holds after each action, said of the paths in it.

use vstd::prelude::*;
use vstd::utf8::*;
use crate::albums::AlbumView;
use crate::browser::{AppView, Key, LibraryRow};
use crate::conversion::CompletedView;
use crate::editing_laws::albums_in_view;
use crate::path::{holds, lower_bytes, routes, PathView};
use crate::preview::{conversion_plan, sources_where, ConversionPlanStatus, ConversionPlanView};
use crate::preview::{FailureView, UpdateView};
use crate::queue::{album_paths, all_queued, eligible, group_paths, place_in, with_all};
use crate::queue::{with_all_toggled, with_toggled, without};
use crate::rescan::ScanView;

verus! {

/// Whether one of `paths` leads to where `path` leads.
pub open spec fn leads_there(paths: Seq<PathView>, path: PathView) -> bool {
    exists|i: int| 0 <= i < paths.len() && (#[trigger] paths[i]).route() == path.route()
}

pub(crate) proof fn lemma_leads_there(paths: Seq<PathView>, path: PathView)
    ensures
        holds(paths, path) == leads_there(paths, path),
{
    let all = routes(paths);
    if all.contains(path.route()) {
        let i = choose|i: int| 0 <= i < all.len() && all[i] == path.route();
        assert(paths[i].route() == path.route());
    }
    if leads_there(paths, path) {
        let i = choose|i: int|
            0 <= i < paths.len() && (#[trigger] paths[i]).route() == path.route();
        assert(all[i] == path.route());
    }
}

/// What can be queued of a list are the files that are not M4A, whatever the
/// case of their extension, all of them and in their order.
pub proof fn law_eligible_files_are_not_m4a(paths: Seq<PathView>)
    ensures
        eligible(paths) == paths.filter(
            |path: PathView|
                !(path.extension() is Some && lower_bytes(path.extension()->0) == encode_utf8(
                    "m4a"@,
                )),
        ),
    decreases paths.len(),
{
    reveal(Seq::filter);
    let wanted = |path: PathView|
        !(path.extension() is Some && lower_bytes(path.extension()->0) == encode_utf8("m4a"@));
    if paths.len() > 0 {
        law_eligible_files_are_not_m4a(paths.drop_last());
    } else {
        assert(paths.filter(wanted) =~= Seq::empty());
    }
}

/// A track that is not in the queue is put at its end. One that is leaves it,
/// and the others stay in their order.
pub proof fn law_toggling_a_track(queue: Seq<PathView>, path: PathView)
    ensures
        !leads_there(queue, path) ==> with_toggled(queue, path) == queue.push(path),
        leads_there(queue, path) ==> exists|at: int|
            {
                &&& 0 <= at < queue.len()
                &&& (#[trigger] queue[at]).route() == path.route()
                &&& forall|i: int| 0 <= i < at ==> (#[trigger] queue[i]).route() != path.route()
                &&& with_toggled(queue, path) == queue.take(at) + queue.skip(at + 1)
            },
{
    crate::queue::lemma_place_in(queue, path, 0);
    match place_in(queue, path, 0) {
        Some(at) => {
            assert(queue[at].route() == path.route());
            assert(queue.remove(at) =~= queue.take(at) + queue.skip(at + 1));
        },
        None => {},
    }
}

proof fn lemma_without_is_filter(queue: Seq<PathView>, paths: Seq<PathView>)
    ensures
        without(queue, paths) == queue.filter(|path: PathView| !leads_there(paths, path)),
    decreases queue.len(),
{
    reveal(Seq::filter);
    if queue.len() > 0 {
        lemma_without_is_filter(queue.drop_last(), paths);
        lemma_leads_there(paths, queue.last());
    } else {
        assert(queue.filter(|path: PathView| !leads_there(paths, path)) =~= Seq::empty());
    }
}

proof fn lemma_with_all_adds(queue: Seq<PathView>, paths: Seq<PathView>)
    ensures
        ({
            let after = with_all(queue, paths);
            &&& queue.len() <= after.len()
            &&& after.take(queue.len() as int) == queue
            &&& forall|i: int|
                0 <= i < paths.len() ==> leads_there(after, #[trigger] paths[i])
            &&& forall|i: int|
                queue.len() <= i < after.len() ==> paths.contains(#[trigger] after[i])
            &&& forall|i: int|
                queue.len() <= i < after.len() ==> !leads_there(
                    after.take(i),
                    #[trigger] after[i],
                )
        }),
    decreases paths.len(),
{
    let after = with_all(queue, paths);
    if paths.len() == 0 {
        assert(queue.take(queue.len() as int) =~= queue);
    } else {
        let fewer = paths.drop_last();
        lemma_with_all_adds(queue, fewer);
        let before = with_all(queue, fewer);
        lemma_leads_there(before, paths.last());
        assert forall|i: int| 0 <= i < paths.len() implies leads_there(
            after,
            #[trigger] paths[i],
        ) by {
            if i < fewer.len() {
                assert(leads_there(before, fewer[i]));
                let k = choose|k: int|
                    0 <= k < before.len() && (#[trigger] before[k]).route() == paths[i].route();
                assert(after[k].route() == paths[i].route());
            } else if !holds(before, paths.last()) {
                assert(after[after.len() - 1].route() == paths[i].route());
            }
        }
        assert forall|i: int| queue.len() <= i < after.len() implies paths.contains(
            #[trigger] after[i],
        ) by {
            if i < before.len() {
                assert(fewer.contains(before[i]));
                let k = choose|k: int| 0 <= k < fewer.len() && fewer[k] == before[i];
                assert(paths[k] == after[i]);
            } else {
                assert(paths[paths.len() - 1] == after[i]);
            }
        }
        assert forall|i: int| queue.len() <= i < after.len() implies !leads_there(
            after.take(i),
            #[trigger] after[i],
        ) by {
            assert(after.take(i) =~= before.take(i));
            if i < before.len() {
                assert(!leads_there(before.take(i), before[i]));
            } else {
                assert(before.take(i) =~= before);
            }
        }
        assert(after.take(queue.len() as int) =~= before.take(queue.len() as int));
    }
}

/// Where all of several tracks are in the queue they leave it, and the others
/// stay in their order. Else the queue stays as it is and those of them that are
/// not in it yet are put at its end, none twice.
pub proof fn law_toggling_several_tracks(queue: Seq<PathView>, paths: Seq<PathView>)
    ensures
        ({
            let after = with_all_toggled(queue, paths);
            let all_there = forall|i: int|
                0 <= i < paths.len() ==> leads_there(queue, #[trigger] paths[i]);
            &&& all_there ==> after == queue.filter(|path: PathView| !leads_there(paths, path))
            &&& !all_there ==> {
                &&& queue.len() < after.len()
                &&& after.take(queue.len() as int) == queue
                &&& forall|i: int|
                    0 <= i < paths.len() ==> leads_there(after, #[trigger] paths[i])
                &&& forall|i: int|
                    queue.len() <= i < after.len() ==> paths.contains(#[trigger] after[i])
                &&& forall|i: int|
                    queue.len() <= i < after.len() ==> !leads_there(
                        after.take(i),
                        #[trigger] after[i],
                    )
            }
        }),
{
    assert forall|i: int| 0 <= i < paths.len() implies leads_there(queue, #[trigger] paths[i])
        == holds(queue, paths[i]) by {
        lemma_leads_there(queue, paths[i]);
    }
    lemma_without_is_filter(queue, paths);
    lemma_with_all_adds(queue, paths);
    let all_there = forall|i: int|
        0 <= i < paths.len() ==> leads_there(queue, #[trigger] paths[i]);
    assert(all_there == all_queued(queue, paths));
    if !all_there {
        let i = choose|i: int| 0 <= i < paths.len() && !leads_there(queue, #[trigger] paths[i]);
        let after = with_all(queue, paths);
        if after.len() == queue.len() {
            assert(after =~= after.take(queue.len() as int));
            assert(leads_there(after, paths[i]));
        }
    }
}

/// The paths of an album are those of its tracks, one each and in their order;
/// those of a group are those of its first albums followed by those of the
/// next.
pub proof fn law_paths_of_albums_and_groups(
    albums: Seq<AlbumView>,
    list: Seq<usize>,
    count: int,
    album: AlbumView,
)
    requires
        0 <= count < list.len(),
    ensures
        album_paths(album).len() == album.tracks.len(),
        forall|i: int|
            0 <= i < album.tracks.len() ==> #[trigger] album_paths(album)[i]
                == album.tracks[i].path,
        group_paths(albums, list, 0).len() == 0,
        group_paths(albums, list, count + 1) == group_paths(albums, list, count) + album_paths(
            albums[list[count] as int],
        ),
{
}

proof fn lemma_group_paths(albums: Seq<AlbumView>, list: Seq<usize>, count: int, k: int, i: int)
    requires
        0 <= k < count <= list.len(),
        0 <= i < albums[list[k] as int].tracks.len(),
    ensures
        group_paths(albums, list, count).contains(albums[list[k] as int].tracks[i].path),
    decreases count,
{
    let before = group_paths(albums, list, count - 1);
    let own = album_paths(albums[list[count - 1] as int]);
    let all = group_paths(albums, list, count);
    let path = albums[list[k] as int].tracks[i].path;
    if k == count - 1 {
        assert(own[i] == path);
        assert(all[before.len() + i] == path);
    } else {
        lemma_group_paths(albums, list, count - 1, k, i);
        let at = choose|at: int| 0 <= at < before.len() && before[at] == path;
        assert(all[at] == path);
    }
}

/// Queueing a group reaches every track of every album in it.
pub proof fn law_a_group_has_the_paths_of_its_albums(app: AppView, group: usize, k: int, i: int)
    requires
        group < app.folder_groups.len(),
        0 <= k < app.folder_groups[group as int].albums.len(),
        0 <= i < app.folder_albums[app.folder_groups[group as int].albums[k] as int].tracks.len(),
    ensures
        app.row_paths(LibraryRow::FolderGroup(group)).contains(
            app.folder_albums[app.folder_groups[group as int].albums[k] as int].tracks[i].path,
        ),
{
    let list = app.folder_groups[group as int].albums;
    lemma_group_paths(app.folder_albums, list, list.len() as int, k, i);
}

/// On a track the queue key toggles the track, unless it is M4A, and goes to the
/// next row. On an album it toggles the tracks of the album that are not M4A.
/// No album and no other list changes.
pub proof fn law_queue_key_toggles_the_selection(app: AppView, album: usize, track: usize)
    ensures
        ({
            let after = app.with_selected_queued();
            let path = albums_in_view(app)[album as int].tracks[track as int].path;
            let row = app.selected_row();
            &&& row == Some(LibraryRow::Track { album, track }) && path.is_m4a()
                ==> after.conversion_queue == app.conversion_queue
            &&& row == Some(LibraryRow::Track { album, track }) && !path.is_m4a()
                ==> after.conversion_queue == with_toggled(app.conversion_queue, path)
            &&& row == Some(LibraryRow::Track { album, track }) ==> after.selected
                == app.moved_next().selected
            &&& row == Some(LibraryRow::Album(album)) && eligible(
                album_paths(albums_in_view(app)[album as int]),
            ).len() > 0 ==> after.conversion_queue == with_all_toggled(
                app.conversion_queue,
                eligible(album_paths(albums_in_view(app)[album as int])),
            )
            &&& row == Some(LibraryRow::FolderAlbum(album)) && eligible(
                album_paths(app.folder_albums[album as int]),
            ).len() > 0 ==> after.conversion_queue == with_all_toggled(
                app.conversion_queue,
                eligible(album_paths(app.folder_albums[album as int])),
            )
            &&& row is None ==> after == app
            &&& after.albums == app.albums
            &&& after.folder_albums == app.folder_albums
            &&& after.completed_conversions == app.completed_conversions
        }),
{
    let path = albums_in_view(app)[album as int].tracks[track as int].path;
    if app.selected_row() == Some(LibraryRow::Track { album, track }) {
        crate::laws::law_rows_depend_on(app, app.with_track_toggled(path));
    }
}

// ---------------------------------------------------------------------------
// Converting
// ---------------------------------------------------------------------------

/// Every file of the queue is planned: an M4A file stays as it is, one outside
/// the library cannot be converted, one whose output would take the place of a
/// file must wait, and any other is ready.
pub proof fn law_every_file_has_its_plan(
    root: PathView,
    source: PathView,
    existing: Seq<PathView>,
)
    ensures
        ({
            let plan = conversion_plan(root, source, existing);
            let beside = source.with_extension(encode_utf8("m4a"@));
            &&& plan.source == source
            &&& plan.status == ConversionPlanStatus::AlreadyM4a <==> source.is_m4a()
            &&& plan.status == ConversionPlanStatus::OutsideLibrary <==> !source.is_m4a()
                && !source.starts_with(root)
            &&& plan.status == ConversionPlanStatus::OutputExists <==> !source.is_m4a()
                && source.starts_with(root) && (leads_there(existing, beside) || leads_there(
                existing,
                crate::conversion::converted_path(root, source)->0,
            ))
            &&& plan.status == ConversionPlanStatus::Ready ==> plan.output == Some(beside)
            &&& plan.status == ConversionPlanStatus::OutputExists ==> plan.output is Some
                && leads_there(existing, plan.output->0)
            &&& plan.status == ConversionPlanStatus::OutsideLibrary ==> plan.output is None
        }),
{
    let beside = source.with_extension(encode_utf8("m4a"@));
    lemma_leads_there(existing, beside);
    if let Some(output) = crate::conversion::converted_path(root, source) {
        lemma_leads_there(existing, output);
    }
}

/// A conversion preview plans every file of the queue, in its order and from the
/// first entry on. For an empty queue none is opened.
pub proof fn law_conversion_preview_is_of_the_queue(app: AppView, existing: Seq<PathView>, i: int)
    requires
        0 <= i < app.conversion_queue.len(),
    ensures
        ({
            let after = app.conversion_previewed(existing);
            &&& after.conversion_preview is Some
            &&& after.conversion_preview->0.plans.len() == app.conversion_queue.len()
            &&& after.conversion_preview->0.plans[i] == conversion_plan(
                app.root,
                app.conversion_queue[i],
                existing,
            )
            &&& after.conversion_preview->0.scroll == 0
            &&& after.conversion_queue == app.conversion_queue
        }),
        ({
            let idle = AppView { conversion_queue: Seq::empty(), ..app };
            idle.conversion_previewed(existing).conversion_preview == app.conversion_preview
        }),
{
}

/// What is converted are the sources that are ready, and what stays queued are
/// the others, each in the order of the preview.
pub proof fn law_ready_sources_in_order(plans: Seq<ConversionPlanView>, ready: bool)
    ensures
        sources_where(plans, ready) == plans.filter_map(
            |plan: ConversionPlanView|
                if (plan.status == ConversionPlanStatus::Ready) == ready {
                    Some(plan.source)
                } else {
                    None
                },
        ),
    decreases plans.len(),
{
    let own = |plan: ConversionPlanView|
        if (plan.status == ConversionPlanStatus::Ready) == ready {
            Some(plan.source)
        } else {
            None
        };
    if plans.len() > 0 {
        law_ready_sources_in_order(plans.drop_last(), ready);
        assert(sources_where(plans, ready) =~= plans.filter_map(own));
    }
}

/// Confirming the preview, with either `y`, converts the sources that are ready
/// and leaves the others queued; the counts start at nothing. Any refusal leaves
/// the queue as it is.
pub proof fn law_confirmed_previews_start(app: AppView)
    requires
        app.conversion_preview is Some,
    ensures
        ({
            let plans = app.conversion_preview->0.plans;
            let after = app.conversion_preview_key(Key::Char('y'));
            &&& after == app.conversion_preview_key(Key::Char('Y'))
            &&& app.ready_sources() == sources_where(plans, true)
            &&& after.conversion_queue == sources_where(plans, false)
            &&& after.conversion_preview is None
            &&& 0 < app.ready_sources().len() <= usize::MAX ==> after.conversion_progress is Some
                && after.conversion_progress->0.total == app.ready_sources().len()
                && after.conversion_progress->0.processed == 0
                && after.conversion_progress->0.successful == 0
                && after.conversion_progress->0.unsuccessful == 0
        }),
        ({
            let after = app.conversion_preview_key(Key::Esc);
            &&& after == app.conversion_preview_key(Key::Char('n'))
            &&& after == app.conversion_preview_key(Key::Char('N'))
            &&& after.conversion_preview is None
            &&& after.conversion_queue == app.conversion_queue
            &&& after.conversion_progress == app.conversion_progress
        }),
{
}

/// What a report says was converted.
pub open spec fn success_of(update: UpdateView) -> Option<CompletedView> {
    match update {
        UpdateView::Finished { result: Ok(completed), .. } => Some(completed),
        _ => None,
    }
}

/// What a report says could not be converted.
pub open spec fn failure_of(update: UpdateView) -> Option<FailureView> {
    match update {
        UpdateView::Finished { source, result: Err(error) } => Some(FailureView { source, error }),
        _ => None,
    }
}

/// The source of what a report says could not be converted.
pub open spec fn failed_source(update: UpdateView) -> Option<PathView> {
    match update {
        UpdateView::Finished { source, result: Err(_) } => Some(source),
        _ => None,
    }
}

/// After reports the successes and the failures that they tell stand behind
/// those of before, in the order of the reports. The successes are also kept
/// with what may be deleted, the sources of the failures go to the end of the
/// queue, and the counts grow by as many.
pub proof fn law_reports_are_kept(app: AppView, updates: Seq<UpdateView>)
    requires
        app.can_count(updates.len()),
    ensures
        ({
            let after = app.updated_by(updates);
            let done = updates.filter_map(|update: UpdateView| success_of(update));
            let failed = updates.filter_map(|update: UpdateView| failure_of(update));
            let sources = updates.filter_map(|update: UpdateView| failed_source(update));
            let before = app.conversion_progress->0;
            &&& after.conversion_successes == app.conversion_successes + done
            &&& after.completed_conversions == app.completed_conversions + done
            &&& after.conversion_failures == app.conversion_failures + failed
            &&& after.conversion_queue == app.conversion_queue + sources
            &&& after.conversion_progress is Some
            &&& after.conversion_progress->0.successful == before.successful + done.len()
            &&& after.conversion_progress->0.unsuccessful == before.unsuccessful + failed.len()
            &&& after.conversion_progress->0.processed == before.processed + done.len()
                + failed.len()
            &&& after.conversion_progress->0.total == before.total
            &&& done.len() + failed.len() <= updates.len()
        }),
    decreases updates.len(),
{
    let one = |update: UpdateView| success_of(update);
    let two = |update: UpdateView| failure_of(update);
    let three = |update: UpdateView| failed_source(update);
    let after = app.updated_by(updates);
    if updates.len() == 0 {
        assert(updates.filter_map(one) =~= Seq::empty());
        assert(updates.filter_map(two) =~= Seq::empty());
        assert(updates.filter_map(three) =~= Seq::empty());
    } else {
        law_reports_are_kept(app, updates.drop_last());
    }
    assert(after.conversion_successes =~= app.conversion_successes + updates.filter_map(one));
    assert(after.completed_conversions =~= app.completed_conversions + updates.filter_map(one));
    assert(after.conversion_failures =~= app.conversion_failures + updates.filter_map(two));
    assert(after.conversion_queue =~= app.conversion_queue + updates.filter_map(three));
}

/// The result of a conversion lists what succeeded and what failed, and how many
/// files are still queued. The queue and what may be deleted stay as they are.
pub proof fn law_results_list_the_run(app: AppView, scan: ScanView)
    requires
        app.conversion_progress is Some,
        app.conversion_queue.len() <= usize::MAX,
    ensures
        ({
            let after = app.conversion_ended(scan);
            &&& after.conversion_result is Some
            &&& after.conversion_result->0.successful == app.conversion_successes
            &&& after.conversion_result->0.failures == app.conversion_failures
            &&& after.conversion_result->0.remaining_queued == app.conversion_queue.len()
            &&& after.conversion_progress is None
            &&& after.conversion_successes.len() == 0
            &&& after.conversion_failures.len() == 0
            &&& after.conversion_queue == app.conversion_queue
            &&& after.completed_conversions == app.completed_conversions
        }),
{
}

} // verus!
