//! The conversion queue: what is put into it, how it is converted, and how the
//! originals of what was converted are deleted.

use vstd::prelude::*;
use crate::albums::Album;
use crate::browser::{App, Key, LibraryRow};
use crate::conversion::CompletedConversion;
use crate::library::{copy_tracks, Track};
use crate::path::FilePath;
use crate::preview::{build_conversion_preview, contains_path, scroll_down, scroll_up};
use crate::preview::{ConversionFailure, ConversionPreview, ConversionProgress, ConversionResult};
use crate::preview::ConversionUpdate;
use crate::rescan::Scan;
use crate::text::decimal_text;
use crate::albums::AlbumView;
use crate::browser::AppView;
use crate::library::TrackView;
use crate::path::{holds, routes, PathView};
use crate::preview::{conversion_plans, one_down, one_up, sources_where, ConversionPreviewView};
use crate::preview::{FailureView, ProgressView, ResultView, UpdateView};
use crate::rescan::ScanView;
use crate::text::decimal;

verus! {

// ---------------------------------------------------------------------------
// Putting tracks into the queue
// ---------------------------------------------------------------------------

/// The paths of the tracks of an album.
pub open spec fn album_paths(album: AlbumView) -> Seq<PathView> {
    Seq::new(album.tracks.len(), |i: int| album.tracks[i].path)
}

/// The paths of the tracks of the first `count` albums of a list.
pub open spec fn group_paths(albums: Seq<AlbumView>, list: Seq<usize>, count: int) -> Seq<PathView>
    decreases count,
{
    if count <= 0 {
        Seq::empty()
    } else {
        group_paths(albums, list, count - 1) + album_paths(albums[list[count - 1] as int])
    }
}

/// The paths that are not M4A yet.
pub open spec fn eligible(paths: Seq<PathView>) -> Seq<PathView>
    decreases paths.len(),
{
    if paths.len() == 0 {
        Seq::empty()
    } else {
        let before = eligible(paths.drop_last());
        if paths.last().is_m4a() {
            before
        } else {
            before.push(paths.last())
        }
    }
}

/// Whether all paths are in the queue.
pub open spec fn all_queued(queue: Seq<PathView>, paths: Seq<PathView>) -> bool {
    forall|i: int| 0 <= i < paths.len() ==> holds(queue, #[trigger] paths[i])
}

/// The queue without the paths.
pub open spec fn without(queue: Seq<PathView>, paths: Seq<PathView>) -> Seq<PathView>
    decreases queue.len(),
{
    if queue.len() == 0 {
        Seq::empty()
    } else {
        let before = without(queue.drop_last(), paths);
        if holds(paths, queue.last()) {
            before
        } else {
            before.push(queue.last())
        }
    }
}

/// The queue with those of the paths added that are not in it yet.
pub open spec fn with_all(queue: Seq<PathView>, paths: Seq<PathView>) -> Seq<PathView>
    decreases paths.len(),
{
    if paths.len() == 0 {
        queue
    } else {
        let before = with_all(queue, paths.drop_last());
        if holds(before, paths.last()) {
            before
        } else {
            before.push(paths.last())
        }
    }
}

/// The first place of a path in the queue, from `from` on.
pub open spec fn place_in(queue: Seq<PathView>, path: PathView, from: int) -> Option<int>
    decreases queue.len() - from,
{
    if from < 0 || from >= queue.len() {
        None
    } else if queue[from].route() == path.route() {
        Some(from)
    } else {
        place_in(queue, path, from + 1)
    }
}

/// The queue with a path taken out at its first place or, where it is not in
/// the queue, put at the end.
pub open spec fn with_toggled(queue: Seq<PathView>, path: PathView) -> Seq<PathView> {
    match place_in(queue, path, 0) {
        Some(at) => queue.remove(at),
        None => queue.push(path),
    }
}

/// The queue after the tracks of an album or a group were put into it or, where
/// all are in it, taken out.
pub open spec fn with_all_toggled(queue: Seq<PathView>, paths: Seq<PathView>) -> Seq<PathView> {
    if all_queued(queue, paths) {
        without(queue, paths)
    } else {
        with_all(queue, paths)
    }
}

/// What is said after tracks were put into the queue.
pub open spec fn queued_text(queue: Seq<PathView>, paths: Seq<PathView>) -> Seq<char> {
    let added = (with_all(queue, paths).len() - queue.len()) as nat;
    let known = (paths.len() - added) as nat;
    if known == 0 {
        "Queued "@ + decimal(added) + " track(s) for M4A conversion"@
    } else {
        "Queued "@ + decimal(added) + " track(s); "@ + decimal(known) + " already queued"@
    }
}

impl AppView {
    /// The paths of the tracks of an album row or a group row.
    pub open spec fn row_paths(self, row: LibraryRow) -> Seq<PathView> {
        match row {
            LibraryRow::Album(album) => album_paths(self.active_albums()[album as int]),
            LibraryRow::FolderAlbum(album) => album_paths(self.folder_albums[album as int]),
            LibraryRow::FolderGroup(group) => group_paths(
                self.folder_albums,
                self.folder_groups[group as int].albums,
                self.folder_groups[group as int].albums.len() as int,
            ),
            LibraryRow::Track { album, track } => seq![
                self.active_albums()[album as int].tracks[track as int].path,
            ],
        }
    }

    /// The browser after the track at `path` was put into the queue or taken
    /// out of it.
    pub open spec fn with_track_toggled(self, path: PathView) -> AppView {
        if path.is_m4a() {
            AppView { status: Some("M4A files are already in the target format"@), ..self }
        } else {
            AppView {
                conversion_queue: with_toggled(self.conversion_queue, path),
                status: Some(
                    if holds(self.conversion_queue, path) {
                        "Removed track from the conversion queue"@
                    } else {
                        "Queued track for M4A conversion"@
                    },
                ),
                ..self
            }
        }
    }

    /// The browser after the tracks at `paths` were put into the queue or taken
    /// out of it.
    pub open spec fn with_tracks_toggled(self, paths: Seq<PathView>) -> AppView {
        let wanted = eligible(paths);
        if wanted.len() == 0 {
            AppView { status: Some("M4A files are already in the target format"@), ..self }
        } else {
            AppView {
                conversion_queue: with_all_toggled(self.conversion_queue, wanted),
                status: Some(
                    if all_queued(self.conversion_queue, wanted) {
                        "Removed "@ + decimal(wanted.len())
                            + " track(s) from the conversion queue"@
                    } else {
                        queued_text(self.conversion_queue, wanted)
                    },
                ),
                ..self
            }
        }
    }

    /// The browser after what is selected was put into the queue or taken out
    /// of it. From a track the selection moves on.
    pub open spec fn with_selected_queued(self) -> AppView {
        match self.selected_row() {
            None => self,
            Some(LibraryRow::Track { album, track }) => self.with_track_toggled(
                self.active_albums()[album as int].tracks[track as int].path,
            ).moved_next(),
            Some(row) => self.with_tracks_toggled(self.row_paths(row)),
        }
    }

    /// The tracks of the album that is selected, or the track that is.
    pub open spec fn selected_tracks(self) -> Option<Seq<TrackView>> {
        match self.selected_row() {
            Some(LibraryRow::Album(album)) => Some(self.active_albums()[album as int].tracks),
            Some(LibraryRow::FolderAlbum(album)) => Some(self.folder_albums[album as int].tracks),
            Some(LibraryRow::Track { album, track }) => Some(
                seq![self.active_albums()[album as int].tracks[track as int]],
            ),
            Some(LibraryRow::FolderGroup(_)) => None,
            None => None,
        }
    }
}

// ---------------------------------------------------------------------------
// Laws of the queue
// ---------------------------------------------------------------------------

pub(crate) proof fn lemma_place_in(queue: Seq<PathView>, path: PathView, from: int)
    requires
        0 <= from <= queue.len(),
    ensures
        match place_in(queue, path, from) {
            Some(at) => from <= at < queue.len() && queue[at].route() == path.route() && forall|
                i: int,
            |
                from <= i < at ==> (#[trigger] queue[i]).route() != path.route(),
            None => forall|i: int|
                from <= i < queue.len() ==> (#[trigger] queue[i]).route() != path.route(),
        },
    decreases queue.len() - from,
{
    if from < queue.len() && queue[from].route() != path.route() {
        lemma_place_in(queue, path, from + 1);
    }
}

/// Toggling a track that is not queued puts it into the queue, and toggling it
/// again leaves the queue as it was.
pub proof fn law_queue_toggle_undoes_itself(queue: Seq<PathView>, path: PathView)
    requires
        !holds(queue, path),
    ensures
        holds(with_toggled(queue, path), path),
        with_toggled(with_toggled(queue, path), path) == queue,
{
    lemma_place_in(queue, path, 0);
    if place_in(queue, path, 0) is Some {
        assert(routes(queue)[place_in(queue, path, 0).unwrap()] == path.route());
    }
    let longer = queue.push(path);
    assert(routes(longer)[queue.len() as int] == path.route());
    assert(longer[queue.len() as int] == path);
    lemma_place_in(longer, path, 0);
    let at = place_in(longer, path, 0).unwrap();
    if at < queue.len() {
        assert(routes(queue)[at] == path.route());
    }
    assert(longer.remove(at) =~= queue);
}

/// Toggling a track that is queued takes it out of the queue, and no other.
pub proof fn law_queue_toggle_removes(queue: Seq<PathView>, path: PathView)
    requires
        holds(queue, path),
    ensures
        with_toggled(queue, path).len() == queue.len() - 1,
        forall|other: PathView|
            other.route() != path.route() ==> (#[trigger] holds(with_toggled(queue, path), other)
                <==> holds(queue, other)),
{
    lemma_place_in(queue, path, 0);
    let k = choose|k: int| 0 <= k < queue.len() && routes(queue)[k] == path.route();
    assert(queue[k].route() == path.route());
    let at = place_in(queue, path, 0).unwrap();
    let shorter = queue.remove(at);
    assert forall|other: PathView| other.route() != path.route() implies (#[trigger] holds(
        shorter,
        other,
    ) <==> holds(queue, other)) by {
        if holds(shorter, other) {
            let i = choose|i: int| 0 <= i < shorter.len() && routes(shorter)[i] == other.route();
            if i < at {
                assert(routes(queue)[i] == other.route());
            } else {
                assert(routes(queue)[i + 1] == other.route());
            }
        }
        if holds(queue, other) {
            let i = choose|i: int| 0 <= i < queue.len() && routes(queue)[i] == other.route();
            if i < at {
                assert(routes(shorter)[i] == other.route());
            } else {
                assert(routes(shorter)[i - 1] == other.route());
            }
        }
    }
}

proof fn lemma_with_all(queue: Seq<PathView>, paths: Seq<PathView>)
    ensures
        queue.len() <= with_all(queue, paths).len() <= queue.len() + paths.len(),
        with_all(queue, paths).take(queue.len() as int) == queue,
        all_queued(with_all(queue, paths), paths),
        forall|i: int|
            queue.len() <= i < with_all(queue, paths).len() ==> holds(
                paths,
                #[trigger] with_all(queue, paths)[i],
            ),
    decreases paths.len(),
{
    let after = with_all(queue, paths);
    if paths.len() == 0 {
        assert(queue.take(queue.len() as int) =~= queue);
    } else {
        let fewer = paths.drop_last();
        lemma_with_all(queue, fewer);
        let before = with_all(queue, fewer);
        assert(after.take(queue.len() as int) =~= before.take(queue.len() as int));
        assert forall|i: int| 0 <= i < paths.len() implies holds(after, #[trigger] paths[i]) by {
            if i < fewer.len() {
                assert(fewer[i] == paths[i]);
                assert(holds(before, fewer[i]));
                let k = choose|k: int|
                    0 <= k < before.len() && routes(before)[k] == paths[i].route();
                assert(routes(after)[k] == paths[i].route());
            } else if !holds(before, paths.last()) {
                assert(routes(after)[after.len() - 1] == paths[i].route());
            }
        }
        assert forall|i: int| queue.len() <= i < after.len() implies holds(
            paths,
            #[trigger] after[i],
        ) by {
            if i < before.len() {
                assert(before[i] == after[i]);
                assert(holds(fewer, before[i]));
                let k = choose|k: int|
                    0 <= k < fewer.len() && routes(fewer)[k] == after[i].route();
                assert(routes(paths)[k] == after[i].route());
            } else {
                assert(routes(paths)[paths.len() - 1] == after[i].route());
            }
        }
    }
}

proof fn lemma_without(queue: Seq<PathView>, paths: Seq<PathView>, kept: int)
    requires
        0 <= kept <= queue.len(),
        forall|i: int| 0 <= i < kept ==> !holds(paths, #[trigger] queue[i]),
        forall|i: int| kept <= i < queue.len() ==> holds(paths, #[trigger] queue[i]),
    ensures
        without(queue, paths) == queue.take(kept),
    decreases queue.len(),
{
    if queue.len() == 0 {
        assert(queue.take(kept) =~= Seq::empty());
    } else if kept == queue.len() {
        lemma_without(queue.drop_last(), paths, kept - 1);
        assert(!holds(paths, queue[kept - 1]));
        assert(queue.drop_last().take(kept - 1).push(queue.last()) =~= queue.take(kept));
    } else {
        lemma_without(queue.drop_last(), paths, kept);
        assert(holds(paths, queue[queue.len() - 1]));
        assert(queue.drop_last().take(kept) =~= queue.take(kept));
    }
}

/// Queueing an album of which no track is queued puts all of its tracks into
/// the queue, and doing so again leaves the queue as it was.
pub proof fn law_album_toggle_undoes_itself(queue: Seq<PathView>, paths: Seq<PathView>)
    requires
        paths.len() > 0,
        forall|i: int| 0 <= i < paths.len() ==> !holds(queue, #[trigger] paths[i]),
    ensures
        all_queued(with_all_toggled(queue, paths), paths),
        with_all_toggled(with_all_toggled(queue, paths), paths) == queue,
{
    assert(!holds(queue, paths[0]));
    lemma_with_all(queue, paths);
    let longer = with_all(queue, paths);
    assert(with_all_toggled(queue, paths) == longer);
    let kept = queue.len() as int;
    assert forall|i: int| 0 <= i < kept implies !holds(paths, #[trigger] longer[i]) by {
        assert(longer.take(kept)[i] == queue[i]);
        if holds(paths, longer[i]) {
            let k = choose|k: int| 0 <= k < paths.len() && routes(paths)[k] == longer[i].route();
            assert(routes(queue)[i] == paths[k].route());
            assert(holds(queue, paths[k]));
        }
    }
    lemma_without(longer, paths, kept);
}

/// Nothing that is M4A already is put into the queue.
pub proof fn law_queue_takes_no_m4a(paths: Seq<PathView>)
    ensures
        forall|i: int| 0 <= i < eligible(paths).len() ==> !(#[trigger] eligible(paths)[i]).is_m4a(),
    decreases paths.len(),
{
    if paths.len() > 0 {
        law_queue_takes_no_m4a(paths.drop_last());
        let before = eligible(paths.drop_last());
        assert forall|i: int| 0 <= i < eligible(paths).len() implies !(#[trigger] eligible(
            paths,
        )[i]).is_m4a() by {
            if i < before.len() {
                assert(eligible(paths)[i] == before[i]);
            }
        }
    }
}

// ---------------------------------------------------------------------------
// Queueing
// ---------------------------------------------------------------------------

pub(crate) fn push_album_paths(album: &Album, paths: &mut Vec<FilePath>)
    ensures
        final(paths).deep_view() == old(paths).deep_view() + album_paths(album@),
{
    let ghost start = paths.deep_view();
    let ghost all = album_paths(album@);
    let mut i: usize = 0;
    assert(paths.deep_view() =~= start + all.take(0));
    while i < album.tracks.len()
        invariant
            i <= album.tracks@.len(),
            all == album_paths(album@),
            paths.deep_view() == start + all.take(i as int),
        decreases album.tracks.len() - i,
    {
        let ghost before = paths.deep_view();
        assert(album@.tracks[i as int] == album.tracks@[i as int]@);
        paths.push(album.tracks[i].path.copy());
        assert(paths.deep_view() =~= before.push(all[i as int]));
        assert(paths.deep_view() =~= start + all.take(i + 1));
        i += 1;
    }
    assert(all.take(all.len() as int) =~= all);
}

fn eligible_paths(paths: &Vec<FilePath>) -> (wanted: Vec<FilePath>)
    ensures
        wanted.deep_view() == eligible(paths.deep_view()),
{
    let ghost views = paths.deep_view();
    let mut wanted: Vec<FilePath> = Vec::new();
    let mut i: usize = 0;
    proof {
        assert(views.take(0) =~= Seq::empty());
        assert(wanted.deep_view() =~= Seq::empty());
    }
    while i < paths.len()
        invariant
            i <= paths@.len(),
            views == paths.deep_view(),
            wanted.deep_view() == eligible(views.take(i as int)),
        decreases paths.len() - i,
    {
        assert(views.take(i + 1).drop_last() =~= views.take(i as int));
        if !paths[i].is_m4a() {
            let ghost before = wanted.deep_view();
            wanted.push(paths[i].copy());
            assert(wanted.deep_view() =~= before.push(views[i as int]));
        }
        i += 1;
    }
    assert(views.take(views.len() as int) =~= views);
    wanted
}

fn holds_all(queue: &Vec<FilePath>, paths: &Vec<FilePath>) -> (all: bool)
    ensures
        all == all_queued(queue.deep_view(), paths.deep_view()),
{
    let ghost views = paths.deep_view();
    let mut i: usize = 0;
    while i < paths.len()
        invariant
            i <= paths@.len(),
            views == paths.deep_view(),
            forall|j: int| 0 <= j < i ==> holds(queue.deep_view(), #[trigger] views[j]),
        decreases paths.len() - i,
    {
        if !contains_path(queue, &paths[i]) {
            assert(!holds(queue.deep_view(), views[i as int]));
            return false;
        }
        i += 1;
    }
    true
}

fn remaining(queue: &Vec<FilePath>, paths: &Vec<FilePath>) -> (rest: Vec<FilePath>)
    ensures
        rest.deep_view() == without(queue.deep_view(), paths.deep_view()),
{
    let ghost views = queue.deep_view();
    let mut rest: Vec<FilePath> = Vec::new();
    let mut i: usize = 0;
    proof {
        assert(views.take(0) =~= Seq::empty());
        assert(rest.deep_view() =~= Seq::empty());
    }
    while i < queue.len()
        invariant
            i <= queue@.len(),
            views == queue.deep_view(),
            rest.deep_view() == without(views.take(i as int), paths.deep_view()),
        decreases queue.len() - i,
    {
        assert(views.take(i + 1).drop_last() =~= views.take(i as int));
        if !contains_path(paths, &queue[i]) {
            let ghost before = rest.deep_view();
            rest.push(queue[i].copy());
            assert(rest.deep_view() =~= before.push(views[i as int]));
        }
        i += 1;
    }
    assert(views.take(views.len() as int) =~= views);
    rest
}

/// Puts those of `paths` at the end of `queue` that are not in it, and says how
/// many these are.
fn add_all(queue: &mut Vec<FilePath>, paths: &Vec<FilePath>) -> (added: usize)
    ensures
        final(queue).deep_view() == with_all(old(queue).deep_view(), paths.deep_view()),
        added == with_all(old(queue).deep_view(), paths.deep_view()).len() - old(
            queue,
        ).deep_view().len(),
        added <= paths@.len(),
{
    let ghost start = queue.deep_view();
    let ghost views = paths.deep_view();
    let mut added: usize = 0;
    let mut i: usize = 0;
    assert(views.take(0) =~= Seq::empty());
    while i < paths.len()
        invariant
            added <= i <= paths@.len(),
            views == paths.deep_view(),
            queue.deep_view() == with_all(start, views.take(i as int)),
            queue.deep_view().len() == start.len() + added,
        decreases paths.len() - i,
    {
        assert(views.take(i + 1).drop_last() =~= views.take(i as int));
        if !contains_path(queue, &paths[i]) {
            let ghost before = queue.deep_view();
            queue.push(paths[i].copy());
            assert(queue.deep_view() =~= before.push(views[i as int]));
            added += 1;
        }
        i += 1;
    }
    assert(views.take(views.len() as int) =~= views);
    added
}

fn find_path(queue: &Vec<FilePath>, path: &FilePath) -> (place: Option<usize>)
    ensures
        match place {
            Some(at) => place_in(queue.deep_view(), path@, 0) == Some(at as int) && at
                < queue@.len(),
            None => place_in(queue.deep_view(), path@, 0) is None,
        },
{
    let ghost views = queue.deep_view();
    let mut i: usize = 0;
    while i < queue.len()
        invariant
            i <= queue@.len(),
            views == queue.deep_view(),
            place_in(views, path@, i as int) == place_in(views, path@, 0),
        decreases queue.len() - i,
    {
        assert(views[i as int] == queue@[i as int]@);
        if queue[i].same(path) {
            return Some(i);
        }
        i += 1;
    }
    None
}

impl App {
    fn toggle_track(&mut self, path: FilePath)
        ensures
            final(self)@ == old(self)@.with_track_toggled(path@),
    {
        let ghost queue = self.conversion_queue.deep_view();
        if path.is_m4a() {
            self.status = Some("M4A files are already in the target format".to_owned());
        } else {
            let place = find_path(&self.conversion_queue, &path);
            proof {
                lemma_place_in(queue, path@, 0);
                if holds(queue, path@) {
                    let k = choose|k: int|
                        0 <= k < queue.len() && routes(queue)[k] == path@.route();
                    assert(queue[k].route() == path@.route());
                    assert(place is Some);
                }
            }
            match place {
                Some(at) => {
                    assert(routes(queue)[at as int] == path@.route());
                    let _removed = self.conversion_queue.remove(at);
                    assert(self.conversion_queue.deep_view() =~= queue.remove(at as int));
                    self.status = Some("Removed track from the conversion queue".to_owned());
                },
                None => {
                    let ghost view = path@;
                    self.conversion_queue.push(path);
                    assert(self.conversion_queue.deep_view() =~= queue.push(view));
                    self.status = Some("Queued track for M4A conversion".to_owned());
                },
            }
        }
        assert(self@ =~= old(self)@.with_track_toggled(path@));
    }

    fn toggle_tracks(&mut self, paths: Vec<FilePath>)
        ensures
            final(self)@ == old(self)@.with_tracks_toggled(paths.deep_view()),
    {
        let ghost queue = self.conversion_queue.deep_view();
        let wanted = eligible_paths(&paths);
        let ghost views = wanted.deep_view();
        if wanted.len() == 0 {
            self.status = Some("M4A files are already in the target format".to_owned());
        } else if holds_all(&self.conversion_queue, &wanted) {
            self.conversion_queue = remaining(&self.conversion_queue, &wanted);
            let mut text = "Removed ".to_owned();
            text.append(decimal_text(wanted.len() as u64).as_str());
            text.append(" track(s) from the conversion queue");
            self.status = Some(text);
        } else {
            proof {
                lemma_with_all(queue, views);
            }
            let added = add_all(&mut self.conversion_queue, &wanted);
            let known: usize = wanted.len() - added;
            let mut text = "Queued ".to_owned();
            text.append(decimal_text(added as u64).as_str());
            if known == 0 {
                text.append(" track(s) for M4A conversion");
            } else {
                text.append(" track(s); ");
                text.append(decimal_text(known as u64).as_str());
                text.append(" already queued");
            }
            self.status = Some(text);
        }
        assert(self@ =~= old(self)@.with_tracks_toggled(paths.deep_view()));
    }

    /// Puts what is selected into the conversion queue or, if all of it is
    /// there, takes it out. What is M4A already is left out. From a track the
    /// selection moves on to the next row.
    pub fn enqueue_selected(&mut self)
        requires
            old(self)@.groups_fit(),
        ensures
            final(self)@ == old(self)@.with_selected_queued(),
            old(self)@.wf() ==> final(self)@.wf(),
    {
        let ghost before = self@;
        let row = match self.selected_row() {
            Some(row) => row,
            None => {
                return;
            },
        };
        let mut paths: Vec<FilePath> = Vec::new();
        assert(paths.deep_view() =~= Seq::empty());
        match row {
            LibraryRow::Track { album, track } => {
                let albums = self.active_albums();
                assert(albums.deep_view()[album as int] == albums@[album as int]@);
                assert(albums@[album as int]@.tracks[track as int]
                    == albums@[album as int].tracks@[track as int]@);
                let path = albums[album].tracks[track].path.copy();
                self.toggle_track(path);
                self.next();
            },
            LibraryRow::Album(album) => {
                let albums = self.active_albums();
                assert(albums.deep_view()[album as int] == albums@[album as int]@);
                push_album_paths(&albums[album], &mut paths);
                assert(paths.deep_view() =~= before.row_paths(row));
                self.toggle_tracks(paths);
            },
            LibraryRow::FolderAlbum(album) => {
                assert(before.folder_albums[album as int] == self.folder_albums@[album as int]@);
                push_album_paths(&self.folder_albums[album], &mut paths);
                assert(paths.deep_view() =~= before.row_paths(row));
                self.toggle_tracks(paths);
            },
            LibraryRow::FolderGroup(group) => {
                let ghost list = before.folder_groups[group as int].albums;
                assert(before.folder_groups[group as int] == self.folder_groups@[group as int]@);
                proof {
                    crate::browser::lemma_groups_in_range(before.folder_albums);
                }
                let mut k: usize = 0;
                while k < self.folder_groups[group].albums.len()
                    invariant
                        group < self.folder_groups@.len(),
                        k <= self.folder_groups@[group as int].albums@.len(),
                        self@ == before,
                        before.groups_fit(),
                        list == before.folder_groups[group as int].albums,
                        list == self.folder_groups@[group as int].albums@,
                        forall|g: int, k: int|
                            0 <= g < crate::albums::groups_of(before.folder_albums).len() && 0 <= k
                                < crate::albums::groups_of(before.folder_albums)[g].albums.len()
                                ==> #[trigger] crate::albums::groups_of(
                                before.folder_albums,
                            )[g].albums[k] < before.folder_albums.len(),
                        paths.deep_view() == group_paths(before.folder_albums, list, k as int),
                    decreases self.folder_groups@[group as int].albums@.len() - k,
                {
                    let album = self.folder_groups[group].albums[k];
                    assert(crate::albums::groups_of(
                        before.folder_albums,
                    )[group as int].albums[k as int] == album);
                    assert(before.folder_albums[album as int] == self.folder_albums@[album as int]@);
                    push_album_paths(&self.folder_albums[album], &mut paths);
                    k += 1;
                }
                assert(paths.deep_view() =~= before.row_paths(row));
                self.toggle_tracks(paths);
            },
        }
        assert(self@ =~= before.with_selected_queued());
    }

    /// The tracks of the album that is selected, or the track that is.
    pub fn selected_tracks(&self) -> (tracks: Option<Vec<Track>>)
        requires
            self@.groups_fit(),
        ensures
            tracks.deep_view() == self@.selected_tracks(),
    {
        match self.selected_row() {
            Some(LibraryRow::Album(album)) => {
                let albums = self.active_albums();
                assert(albums.deep_view()[album as int] == albums@[album as int]@);
                Some(copy_tracks(&albums[album].tracks))
            },
            Some(LibraryRow::FolderAlbum(album)) => {
                assert(self@.folder_albums[album as int] == self.folder_albums@[album as int]@);
                Some(copy_tracks(&self.folder_albums[album].tracks))
            },
            Some(LibraryRow::Track { album, track }) => {
                let albums = self.active_albums();
                assert(albums.deep_view()[album as int] == albums@[album as int]@);
                assert(albums@[album as int]@.tracks[track as int]
                    == albums@[album as int].tracks@[track as int]@);
                let mut tracks: Vec<Track> = Vec::new();
                tracks.push(albums[album].tracks[track].copy());
                assert(tracks.deep_view() =~= self@.selected_tracks().unwrap());
                Some(tracks)
            },
            Some(LibraryRow::FolderGroup(_)) => None,
            None => None,
        }
    }
}

// ---------------------------------------------------------------------------
// Converting the queue
// ---------------------------------------------------------------------------

impl AppView {
    /// The browser after a preview of the conversion was asked for, where the
    /// files at `existing` exist.
    pub open spec fn conversion_previewed(self, existing: Seq<PathView>) -> AppView {
        if self.conversion_queue.len() == 0 {
            AppView { status: Some("Conversion queue is empty"@), ..self }
        } else {
            AppView {
                status: None,
                conversion_preview: Some(
                    ConversionPreviewView {
                        plans: conversion_plans(self.root, self.conversion_queue, existing),
                        scroll: 0,
                    },
                ),
                ..self
            }
        }
    }

    /// The browser while `total` files are converted, before any is.
    pub open spec fn converting(self, total: usize) -> AppView {
        AppView {
            conversion_progress: Some(
                ProgressView {
                    total,
                    processed: 0,
                    successful: 0,
                    unsuccessful: 0,
                    current_path: None,
                },
            ),
            conversion_successes: Seq::empty(),
            conversion_failures: Seq::empty(),
            conversion_result: None,
            status: None,
            ..self
        }
    }

    /// The sources that the preview would convert.
    pub open spec fn ready_sources(self) -> Seq<PathView> {
        match self.conversion_preview {
            Some(preview) => sources_where(preview.plans, true),
            None => Seq::empty(),
        }
    }

    /// The browser after the preview was confirmed: what is ready is converted,
    /// the rest stays in the queue.
    pub open spec fn conversions_started(self) -> AppView {
        let ready = self.ready_sources();
        let rest = AppView {
            conversion_preview: None,
            conversion_queue: sources_where(self.conversion_preview.unwrap().plans, false),
            ..self
        };
        if ready.len() == 0 {
            AppView {
                status: Some("No queued tracks can be converted; conflicts remain queued"@),
                ..rest
            }
        } else {
            rest.converting(ready.len() as usize)
        }
    }

    /// The browser after the preview was scrolled.
    pub open spec fn conversion_preview_scrolled(self, scroll: int) -> AppView {
        AppView {
            conversion_preview: Some(
                ConversionPreviewView {
                    scroll: scroll as usize,
                    ..self.conversion_preview.unwrap()
                },
            ),
            ..self
        }
    }

    /// The browser after a key was pressed in the conversion preview.
    pub open spec fn conversion_preview_key(self, key: Key) -> AppView {
        let preview = self.conversion_preview.unwrap();
        match key {
            Key::Char('y') | Key::Char('Y') => self.conversions_started(),
            Key::Esc | Key::Char('n') | Key::Char('N') => AppView {
                conversion_preview: None,
                status: Some("Conversion cancelled"@),
                ..self
            },
            Key::Down | Key::Char('j') => self.conversion_preview_scrolled(
                one_down(preview.scroll as int, preview.plans.len() as int),
            ),
            Key::Up | Key::Char('k') => self.conversion_preview_scrolled(
                one_up(preview.scroll as int),
            ),
            _ => self,
        }
    }

    /// The browser after a report of the conversion under way.
    pub open spec fn updated(self, update: UpdateView) -> AppView {
        let progress = self.conversion_progress.unwrap();
        match update {
            UpdateView::Started(path) => AppView {
                conversion_progress: Some(
                    ProgressView { current_path: Some(path), ..progress },
                ),
                ..self
            },
            UpdateView::Finished { source, result } => {
                let done = ProgressView {
                    processed: (progress.processed + 1) as usize,
                    current_path: None,
                    ..progress
                };
                match result {
                    Ok(completed) => AppView {
                        completed_conversions: self.completed_conversions.push(completed),
                        conversion_successes: self.conversion_successes.push(completed),
                        conversion_progress: Some(
                            ProgressView { successful: (progress.successful + 1) as usize, ..done },
                        ),
                        ..self
                    },
                    Err(error) => AppView {
                        conversion_queue: self.conversion_queue.push(source),
                        conversion_failures: self.conversion_failures.push(
                            FailureView { source, error },
                        ),
                        conversion_progress: Some(
                            ProgressView {
                                unsuccessful: (progress.unsuccessful + 1) as usize,
                                ..done
                            },
                        ),
                        ..self
                    },
                }
            },
        }
    }

    /// Whether a conversion is under way whose counts can grow by `more`.
    pub open spec fn can_count(self, more: nat) -> bool {
        self.conversion_progress matches Some(progress) && progress.processed + more <= usize::MAX
            && progress.successful + more <= usize::MAX && progress.unsuccessful + more
            <= usize::MAX
    }

    /// The browser after reports of the conversion under way.
    pub open spec fn updated_by(self, updates: Seq<UpdateView>) -> AppView
        decreases updates.len(),
    {
        if updates.len() == 0 {
            self
        } else {
            self.updated_by(updates.drop_last()).updated(updates.last())
        }
    }

    /// The browser after the conversion under way ended and the library was
    /// scanned.
    pub open spec fn conversion_ended(self, scan: ScanView) -> AppView {
        let progress = self.conversion_progress.unwrap();
        AppView {
            conversion_result: Some(
                ResultView {
                    successful: self.conversion_successes,
                    failures: self.conversion_failures,
                    remaining_queued: self.conversion_queue.len() as usize,
                    scroll: 0,
                },
            ),
            conversion_successes: Seq::empty(),
            conversion_failures: Seq::empty(),
            status: Some(
                "Converted and verified "@ + decimal(progress.successful as nat) + " track(s); "@
                    + decimal(self.conversion_queue.len()) + " remain queued"@,
            ),
            ..(AppView { conversion_progress: None, ..self }).rescanned(scan)
        }
    }

    /// The browser after reports of the conversion under way and, if it ended,
    /// the scan that followed.
    pub open spec fn conversion_refreshed(
        self,
        updates: Seq<UpdateView>,
        ended: Option<ScanView>,
    ) -> AppView {
        let updated = self.updated_by(updates);
        match ended {
            Some(scan) => updated.conversion_ended(scan),
            None => updated,
        }
    }

    /// The browser after the result of a conversion was scrolled.
    pub open spec fn conversion_result_scrolled(self, scroll: int) -> AppView {
        AppView {
            conversion_result: Some(
                ResultView { scroll: scroll as usize, ..self.conversion_result.unwrap() },
            ),
            ..self
        }
    }

    /// The browser after a key was pressed in the result of a conversion.
    pub open spec fn conversion_result_key(self, key: Key) -> AppView {
        let result = self.conversion_result.unwrap();
        match key {
            Key::Esc | Key::Enter | Key::Char('C') => AppView { conversion_result: None, ..self },
            Key::Down | Key::Char('j') => self.conversion_result_scrolled(
                one_down(result.scroll as int, result.total() as int),
            ),
            Key::Up | Key::Char('k') => self.conversion_result_scrolled(
                one_up(result.scroll as int),
            ),
            _ => self,
        }
    }
}

proof fn lemma_updated(app: AppView, updates: Seq<UpdateView>)
    requires
        app.can_count(updates.len()),
    ensures
        app.updated_by(updates).can_count(0),
        forall|more: nat| #[trigger]
            app.can_count(updates.len() + more) ==> app.updated_by(updates).can_count(more),
        app.wf() ==> app.updated_by(updates).wf(),
        app.updated_by(updates).editor == app.editor,
    decreases updates.len(),
{
    if updates.len() > 0 {
        let before = updates.drop_last();
        lemma_updated(app, before);
        assert(app.can_count(before.len() + 1));
        assert(app.updated_by(before).can_count(1));
        assert forall|more: nat| #[trigger] app.can_count(updates.len() + more) implies app.updated_by(
            updates,
        ).can_count(more) by {
            assert(app.can_count(before.len() + (more + 1)));
        }
    }
}

/// The counts of a conversion are those of what it has done: whatever is
/// reported, as many files were processed as succeeded and failed, every success
/// is kept with what may be deleted, and every failure goes back to the queue.
pub proof fn law_conversion_accounts(app: AppView, update: UpdateView)
    requires
        app.wf(),
        app.conversion_progress matches Some(progress) && progress.processed < usize::MAX,
    ensures
        app.updated(update).wf(),
        app.updated(update).conversion_progress matches Some(progress) && progress.processed
            == progress.successful + progress.unsuccessful,
        app.updated(update).conversion_queue.len() + app.updated(
            update,
        ).completed_conversions.len() == app.conversion_queue.len()
            + app.completed_conversions.len() + (if update is Finished {
            1int
        } else {
            0int
        }),
        update matches UpdateView::Finished { source, result: Err(_) } ==> app.updated(
            update,
        ).conversion_queue.contains(source),
        update matches UpdateView::Finished { source, result: Ok(completed) } ==> app.updated(
            update,
        ).completed_conversions.contains(completed),
{
    let after = app.updated(update);
    match update {
        UpdateView::Started(_) => {},
        UpdateView::Finished { source, result } => match result {
            Ok(completed) => {
                assert(after.completed_conversions[app.completed_conversions.len() as int]
                    == completed);
            },
            Err(_) => {
                assert(after.conversion_queue[app.conversion_queue.len() as int] == source);
            },
        },
    }
}

/// Starting a conversion loses nothing: what is not converted stays queued.
pub proof fn law_started_conversions_lose_nothing(app: AppView)
    requires
        app.conversion_preview is Some,
    ensures
        app.ready_sources().len() + app.conversions_started().conversion_queue.len()
            == app.conversion_preview.unwrap().plans.len(),
        app.ready_sources().len() == 0 ==> app.conversions_started().conversion_progress
            == app.conversion_progress,
{
    crate::preview::law_preview_parts_the_queue(app.conversion_preview.unwrap().plans);
}

impl App {
    /// Opens a preview of what converting the queue would do, where the files at
    /// `existing` exist.
    pub fn open_conversion_preview(&mut self, existing: &Vec<FilePath>)
        ensures
            final(self)@ == old(self)@.conversion_previewed(existing.deep_view()),
            old(self)@.wf() ==> final(self)@.wf(),
    {
        if self.conversion_queue.len() == 0 {
            self.status = Some("Conversion queue is empty".to_owned());
        } else {
            self.status = None;
            self.conversion_preview = Some(
                build_conversion_preview(&self.root, &self.conversion_queue, existing),
            );
        }
        assert(self@ =~= old(self)@.conversion_previewed(existing.deep_view()));
    }

    /// Confirms the preview: what is ready leaves the queue and is to be
    /// converted, the rest stays. Returns what is to be converted, in order.
    pub fn start_previewed_conversions(&mut self) -> (queued: Vec<FilePath>)
        requires
            old(self)@.conversion_preview is Some,
        ensures
            final(self)@ == old(self)@.conversions_started(),
            queued.deep_view() == old(self)@.ready_sources(),
            old(self)@.wf() ==> final(self)@.wf(),
    {
        let mut taken: Option<ConversionPreview> = None;
        std::mem::swap(&mut self.conversion_preview, &mut taken);
        match taken {
            Some(preview) => {
                let queued = preview.sources(true);
                self.conversion_queue = preview.sources(false);
                if queued.len() == 0 {
                    self.status = Some(
                        "No queued tracks can be converted; conflicts remain queued".to_owned(),
                    );
                } else {
                    self.start_conversion_queue(queued.len());
                }
                assert(self@ =~= old(self)@.conversions_started());
                queued
            },
            None => Vec::new(),
        }
    }

    fn start_conversion_queue(&mut self, total: usize)
        ensures
            final(self)@ == old(self)@.converting(total),
    {
        self.conversion_progress = Some(
            ConversionProgress {
                total,
                processed: 0,
                successful: 0,
                unsuccessful: 0,
                current_path: None,
            },
        );
        self.conversion_successes = Vec::new();
        self.conversion_failures = Vec::new();
        self.conversion_result = None;
        self.status = None;
        assert(self@ =~= old(self)@.converting(total));
    }

    /// Handles a key in the conversion preview: `y` confirms it, Esc closes it,
    /// the arrows scroll it. Returns what is to be converted.
    pub fn handle_conversion_preview(&mut self, key: Key) -> (queued: Vec<FilePath>)
        requires
            old(self)@.conversion_preview is Some,
        ensures
            final(self)@ == old(self)@.conversion_preview_key(key),
            queued.deep_view() == if key == Key::Char('y') || key == Key::Char('Y') {
                old(self)@.ready_sources()
            } else {
                Seq::empty()
            },
            old(self)@.wf() ==> final(self)@.wf(),
    {
        match key {
            Key::Char('y') | Key::Char('Y') => {
                return self.start_previewed_conversions();
            },
            Key::Esc | Key::Char('n') | Key::Char('N') => {
                self.conversion_preview = None;
                self.status = Some("Conversion cancelled".to_owned());
            },
            Key::Down | Key::Char('j') => {
                match &mut self.conversion_preview {
                    Some(preview) => {
                        preview.scroll = scroll_down(preview.scroll, preview.plans.len());
                    },
                    None => {},
                }
            },
            Key::Up | Key::Char('k') => {
                match &mut self.conversion_preview {
                    Some(preview) => {
                        preview.scroll = scroll_up(preview.scroll);
                    },
                    None => {},
                }
            },
            _ => {},
        }
        assert(self@ =~= old(self)@.conversion_preview_key(key));
        let none: Vec<FilePath> = Vec::new();
        assert(none.deep_view() =~= Seq::empty());
        none
    }

    fn apply_update(&mut self, update: ConversionUpdate)
        requires
            old(self)@.can_count(1),
        ensures
            final(self)@ == old(self)@.updated(update@),
    {
        let ghost before = self@;
        let mut progress = match &self.conversion_progress {
            Some(progress) => ConversionProgress {
                total: progress.total,
                processed: progress.processed,
                successful: progress.successful,
                unsuccessful: progress.unsuccessful,
                current_path: None,
            },
            None => {
                return;
            },
        };
        match update {
            ConversionUpdate::Started(path) => {
                progress.current_path = Some(path);
            },
            ConversionUpdate::Finished { source, result } => {
                progress.processed = progress.processed + 1;
                match result {
                    Ok(completed) => {
                        let ghost done = completed@;
                        self.completed_conversions.push(completed.copy());
                        self.conversion_successes.push(completed);
                        progress.successful = progress.successful + 1;
                        proof {
                            assert(self.completed_conversions.deep_view()
                                =~= before.completed_conversions.push(done));
                            assert(self.conversion_successes.deep_view()
                                =~= before.conversion_successes.push(done));
                        }
                    },
                    Err(error) => {
                        let ghost path = source@;
                        let ghost failure = FailureView { source: source@, error: error@ };
                        self.conversion_queue.push(source.copy());
                        self.conversion_failures.push(ConversionFailure { source, error });
                        progress.unsuccessful = progress.unsuccessful + 1;
                        proof {
                            assert(self.conversion_queue.deep_view()
                                =~= before.conversion_queue.push(path));
                            assert(self.conversion_failures.deep_view()
                                =~= before.conversion_failures.push(failure));
                        }
                    },
                }
            },
        }
        self.conversion_progress = Some(progress);
        assert(self@ =~= before.updated(update@));
    }

    /// Takes in what the conversion under way has reported and, if it has ended,
    /// the scan that followed.
    pub fn refresh_conversion(&mut self, updates: Vec<ConversionUpdate>, ended: Option<Scan>)
        requires
            old(self)@.can_count(updates@.len()),
        ensures
            final(self)@ == old(self)@.conversion_refreshed(updates.deep_view(), ended.deep_view()),
            old(self)@.wf() && (old(self)@.editor is None || ended is None) ==> final(self)@.wf(),
    {
        let ghost before = self@;
        let ghost views = updates.deep_view();
        let ghost list = updates@;
        assert(views.take(0) =~= Seq::empty());
        for update in it: updates
            invariant
                it.seq() == list,
                views.len() == list.len(),
                forall|i: int| 0 <= i < list.len() ==> views[i] == (#[trigger] list[i])@,
                before.can_count(views.len()),
                self@ == before.updated_by(views.take(it.index())),
        {
            proof {
                assert(before.can_count((it.index() + 1) as nat));
                lemma_updated(before, views.take(it.index()));
                assert(before.can_count(views.take(it.index()).len() + 1));
                assert(views.take(it.index() + 1).drop_last() =~= views.take(it.index()));
                assert(update@ == views[it.index()]);
            }
            self.apply_update(update);
        }
        proof {
            assert(views.take(views.len() as int) =~= views);
            lemma_updated(before, views);
        }
        let ghost updated = before.updated_by(views);
        match ended {
            Some(scan) => {
                let successful: usize = match &self.conversion_progress {
                    Some(progress) => progress.successful,
                    None => 0,
                };
                self.conversion_progress = None;
                self.rescan(scan);
                let mut successes: Vec<CompletedConversion> = Vec::new();
                std::mem::swap(&mut self.conversion_successes, &mut successes);
                let mut failures: Vec<ConversionFailure> = Vec::new();
                std::mem::swap(&mut self.conversion_failures, &mut failures);
                let left = self.conversion_queue.len();
                self.conversion_result = Some(
                    ConversionResult {
                        successful: successes,
                        failures,
                        remaining_queued: left,
                        scroll: 0,
                    },
                );
                let mut text = "Converted and verified ".to_owned();
                text.append(decimal_text(successful as u64).as_str());
                text.append(" track(s); ");
                text.append(decimal_text(left as u64).as_str());
                text.append(" remain queued");
                self.status = Some(text);
                assert(self@ =~= updated.conversion_ended(scan@));
            },
            None => {},
        }
    }

    /// Handles a key in the result of a conversion: Esc closes it, the arrows
    /// scroll it.
    pub fn handle_conversion_result(&mut self, key: Key)
        requires
            old(self)@.conversion_result matches Some(result) && result.total() <= usize::MAX,
        ensures
            final(self)@ == old(self)@.conversion_result_key(key),
            old(self)@.wf() ==> final(self)@.wf(),
    {
        match key {
            Key::Esc | Key::Enter | Key::Char('C') => {
                self.conversion_result = None;
            },
            Key::Down | Key::Char('j') => {
                match &mut self.conversion_result {
                    Some(result) => {
                        result.scroll = scroll_down(result.scroll, result.total());
                    },
                    None => {},
                }
            },
            Key::Up | Key::Char('k') => {
                match &mut self.conversion_result {
                    Some(result) => {
                        result.scroll = scroll_up(result.scroll);
                    },
                    None => {},
                }
            },
            _ => {},
        }
        assert(self@ =~= old(self)@.conversion_result_key(key));
    }
}

} // verus!
