//! What the user does with files: inspecting paths, renaming, deleting originals
//! and playing tracks.

use vstd::prelude::*;
use vstd::utf8::*;
use crate::albums::Album;
use crate::browser::{App, Key, LibraryRow, Playback};
use crate::conversion::CompletedConversion;
use crate::library::Track;
use crate::path::FilePath;
use crate::preview::{build_rename_preview, scroll_down, scroll_up, RenamePreview, RenameStatus};
use crate::rescan::Scan;
use crate::text::{bytes_of, decimal_text};
use crate::albums::{group_titles, groups_of, AlbumView};
use crate::browser::{AppView, PlaybackView};
use crate::conversion::CompletedView;
use crate::library::TrackView;
use crate::path::{holds, routes, PathView};
use crate::preview::{lemma_ready_renames, one_down, one_up, ready_renames, rename_plans};
use crate::preview::{RenamePlanView, RenamePreviewView};
use crate::rescan::ScanView;
use crate::text::decimal;

verus! {

broadcast use crate::text::lemma_bytes_deep_view;

// ---------------------------------------------------------------------------
// Paths
// ---------------------------------------------------------------------------

/// The paths of tracks.
pub open spec fn paths_of(tracks: Seq<TrackView>) -> Seq<PathView> {
    Seq::new(tracks.len(), |i: int| tracks[i].path)
}

impl AppView {
    /// The browser after the paths of what is selected were asked for.
    pub open spec fn paths_inspected(self) -> AppView {
        match self.selected_tracks() {
            Some(tracks) => AppView { path_inspector: Some(paths_of(tracks)), ..self },
            None => AppView {
                status: Some("Select an album or track to inspect its file path"@),
                ..self
            },
        }
    }

    /// The browser after a key was pressed while paths are shown.
    pub open spec fn path_inspector_key(self, key: Key) -> AppView {
        match key {
            Key::Esc | Key::Enter | Key::Char('i') => AppView { path_inspector: None, ..self },
            _ => self,
        }
    }
}

impl App {
    /// Shows the paths of the files of what is selected.
    pub fn open_path_inspector(&mut self)
        requires
            old(self)@.groups_fit(),
        ensures
            final(self)@ == old(self)@.paths_inspected(),
            old(self)@.wf() ==> final(self)@.wf(),
    {
        match self.selected_tracks() {
            Some(tracks) => {
                let ghost views = tracks.deep_view();
                let ghost wanted = paths_of(views);
                let mut paths: Vec<FilePath> = Vec::new();
                let mut i: usize = 0;
                while i < tracks.len()
                    invariant
                        i <= tracks@.len(),
                        views == tracks.deep_view(),
                        wanted == paths_of(views),
                        paths.deep_view() == wanted.take(i as int),
                    decreases tracks.len() - i,
                {
                    let ghost before = paths.deep_view();
                    assert(views[i as int] == tracks@[i as int]@);
                    paths.push(tracks[i].path.copy());
                    assert(paths.deep_view() =~= before.push(wanted[i as int]));
                    assert(paths.deep_view() =~= wanted.take(i + 1));
                    i += 1;
                }
                assert(paths.deep_view() =~= wanted);
                self.path_inspector = Some(paths);
            },
            None => {
                self.status = Some("Select an album or track to inspect its file path".to_owned());
            },
        }
        assert(self@ =~= old(self)@.paths_inspected());
    }

    /// Handles a key while paths are shown: Esc, Enter and `i` close them.
    pub fn handle_path_inspector(&mut self, key: Key)
        ensures
            final(self)@ == old(self)@.path_inspector_key(key),
            old(self)@.wf() ==> final(self)@.wf(),
    {
        match key {
            Key::Esc | Key::Enter | Key::Char('i') => {
                self.path_inspector = None;
            },
            _ => {},
        }
    }
}

// ---------------------------------------------------------------------------
// Renaming
// ---------------------------------------------------------------------------

/// A file that is to be renamed, or was.
pub struct Move {
    pub source: FilePath,
    pub target: FilePath,
}

/// What a renaming says.
#[verifier::ext_equal]
pub struct MoveView {
    pub source: PathView,
    pub target: PathView,
}

impl View for Move {
    type V = MoveView;

    open spec fn view(&self) -> MoveView {
        MoveView { source: self.source@, target: self.target@ }
    }
}

impl DeepView for Move {
    type V = MoveView;

    open spec fn deep_view(&self) -> MoveView {
        self@
    }
}

/// A preview that was confirmed: the files to rename, and how many are not.
pub struct RenameOrder {
    pub moves: Vec<Move>,
    pub skipped: usize,
}

/// What a confirmed preview says.
#[verifier::ext_equal]
pub struct RenameOrderView {
    pub moves: Seq<MoveView>,
    pub skipped: usize,
}

impl View for RenameOrder {
    type V = RenameOrderView;

    open spec fn view(&self) -> RenameOrderView {
        RenameOrderView { moves: self.moves.deep_view(), skipped: self.skipped }
    }
}

impl DeepView for RenameOrder {
    type V = RenameOrderView;

    open spec fn deep_view(&self) -> RenameOrderView {
        self@
    }
}

/// The files to rename of a preview: those that are ready.
pub open spec fn moves_of(plans: Seq<RenamePlanView>) -> Seq<MoveView>
    decreases plans.len(),
{
    if plans.len() == 0 {
        Seq::empty()
    } else {
        let before = moves_of(plans.drop_last());
        let last = plans.last();
        match last.target {
            Some(target) => if last.status == RenameStatus::Ready {
                before.push(MoveView { source: last.source, target })
            } else {
                before
            },
            None => before,
        }
    }
}

/// The order to rename that a preview gives.
pub open spec fn order_of(preview: RenamePreviewView) -> RenameOrderView {
    RenameOrderView {
        moves: moves_of(preview.plans),
        skipped: (preview.plans.len() - ready_renames(preview.plans)) as usize,
    }
}

/// The files that were renamed.
pub open spec fn done_moves(moves: Seq<MoveView>, outcomes: Seq<bool>) -> Seq<MoveView>
    decreases moves.len(),
{
    if moves.len() == 0 {
        Seq::empty()
    } else {
        let before = done_moves(moves.drop_last(), outcomes.drop_last());
        if outcomes.last() {
            before.push(moves.last())
        } else {
            before
        }
    }
}

/// Where a file is after the renamings.
pub open spec fn moved_path(path: PathView, moves: Seq<MoveView>) -> PathView
    decreases moves.len(),
{
    if moves.len() == 0 {
        path
    } else {
        let before = moved_path(path, moves.drop_last());
        if before.route() == moves.last().source.route() {
            moves.last().target
        } else {
            before
        }
    }
}

/// Where files are after the renamings.
pub open spec fn moved_paths(paths: Seq<PathView>, moves: Seq<MoveView>) -> Seq<PathView> {
    Seq::new(paths.len(), |i: int| moved_path(paths[i], moves))
}

/// A track after the renamings.
pub open spec fn moved_track(track: TrackView, moves: Seq<MoveView>) -> TrackView {
    TrackView { path: moved_path(track.path, moves), ..track }
}

/// Tracks after the renamings.
pub open spec fn moved_tracks(tracks: Seq<TrackView>, moves: Seq<MoveView>) -> Seq<TrackView> {
    Seq::new(tracks.len(), |i: int| moved_track(tracks[i], moves))
}

/// Albums after the renamings.
pub open spec fn moved_albums(albums: Seq<AlbumView>, moves: Seq<MoveView>) -> Seq<AlbumView> {
    Seq::new(
        albums.len(),
        |i: int| AlbumView { tracks: moved_tracks(albums[i].tracks, moves), ..albums[i] },
    )
}

/// Completed conversions after the renamings: their originals may have moved.
pub open spec fn moved_conversions(
    completed: Seq<CompletedView>,
    moves: Seq<MoveView>,
) -> Seq<CompletedView> {
    Seq::new(
        completed.len(),
        |i: int|
            CompletedView { original: moved_path(completed[i].original, moves), ..completed[i] },
    )
}

/// What is said after files were renamed.
pub open spec fn renamed_text(renamed: nat, skipped: nat) -> Seq<char> {
    if renamed == 0 && skipped == 0 {
        "File names already match the track numbers and titles"@
    } else if renamed == 0 {
        "No tracks renamed; skipped "@ + decimal(skipped)
    } else if skipped == 0 {
        "Renamed "@ + decimal(renamed) + " track(s)"@
    } else {
        "Renamed "@ + decimal(renamed) + " track(s); skipped "@ + decimal(skipped)
    }
}

impl AppView {
    /// The browser after a preview of the renaming of what is selected was
    /// asked for, where the files at `existing` exist.
    pub open spec fn rename_previewed(self, existing: Seq<PathView>) -> AppView {
        match self.selected_tracks() {
            Some(tracks) => AppView {
                status: None,
                rename_preview: Some(
                    RenamePreviewView { plans: rename_plans(tracks, existing), scroll: 0 },
                ),
                ..self
            },
            None => AppView {
                status: Some("Select an album or track to rename its file(s)"@),
                ..self
            },
        }
    }

    /// The browser after the rename preview was scrolled.
    pub open spec fn rename_preview_scrolled(self, scroll: int) -> AppView {
        AppView {
            rename_preview: Some(
                RenamePreviewView { scroll: scroll as usize, ..self.rename_preview.unwrap() },
            ),
            ..self
        }
    }

    /// The browser after a key was pressed in the rename preview.
    pub open spec fn rename_key(self, key: Key) -> AppView {
        let preview = self.rename_preview.unwrap();
        match key {
            Key::Char('y') | Key::Char('Y') => AppView { rename_preview: None, ..self },
            Key::Esc | Key::Char('n') | Key::Char('N') => AppView {
                rename_preview: None,
                status: Some("Rename cancelled"@),
                ..self
            },
            Key::Down | Key::Char('j') => self.rename_preview_scrolled(
                one_down(preview.scroll as int, preview.plans.len() as int),
            ),
            Key::Up | Key::Char('k') => self.rename_preview_scrolled(
                one_up(preview.scroll as int),
            ),
            _ => self,
        }
    }

    /// The browser after files were renamed: wherever it held their old paths
    /// it holds the new ones.
    pub open spec fn with_moves(self, moves: Seq<MoveView>) -> AppView {
        AppView {
            albums: moved_albums(self.albums, moves),
            folder_albums: moved_albums(self.folder_albums, moves),
            conversion_queue: moved_paths(self.conversion_queue, moves),
            recent: moved_paths(self.recent, moves),
            completed_conversions: moved_conversions(self.completed_conversions, moves),
            playback: match self.playback {
                Some(playback) => Some(
                    PlaybackView { path: moved_path(playback.path, moves), ..playback },
                ),
                None => None,
            },
            ..self
        }
    }

    /// The browser after a confirmed renaming was carried out with these
    /// outcomes; where a file was renamed the library was scanned again.
    pub open spec fn rename_finished(
        self,
        order: RenameOrderView,
        outcomes: Seq<bool>,
        scan: Option<ScanView>,
    ) -> AppView {
        let done = done_moves(order.moves, outcomes);
        let moved = self.with_moves(done);
        let after = match scan {
            Some(scan) => if done.len() > 0 {
                moved.refreshed(scan)
            } else {
                moved
            },
            None => moved,
        };
        AppView {
            status: Some(
                renamed_text(
                    done.len(),
                    (order.skipped + order.moves.len() - done.len()) as nat,
                ),
            ),
            ..after
        }
    }
}

proof fn lemma_moves_count(plans: Seq<RenamePlanView>)
    ensures
        moves_of(plans).len() <= ready_renames(plans),
    decreases plans.len(),
{
    if plans.len() > 0 {
        lemma_moves_count(plans.drop_last());
    }
}

proof fn lemma_done_moves(moves: Seq<MoveView>, outcomes: Seq<bool>)
    requires
        moves.len() == outcomes.len(),
    ensures
        done_moves(moves, outcomes).len() <= moves.len(),
    decreases moves.len(),
{
    if moves.len() > 0 {
        lemma_done_moves(moves.drop_last(), outcomes.drop_last());
    }
}

/// A file that no renaming starts from stays where it is.
pub proof fn law_other_files_stay(path: PathView, moves: Seq<MoveView>)
    requires
        forall|i: int|
            0 <= i < moves.len() ==> (#[trigger] moves[i]).source.route() != path.route(),
    ensures
        moved_path(path, moves) == path,
    decreases moves.len(),
{
    if moves.len() > 0 {
        let before = moves.drop_last();
        assert forall|i: int| 0 <= i < before.len() implies (#[trigger] before[i]).source.route()
            != path.route() by {
            assert(before[i] == moves[i]);
        }
        law_other_files_stay(path, before);
        assert(moves[moves.len() - 1].source.route() != path.route());
    }
}

/// A file that is renamed once, to a place that no renaming starts from, is at
/// that place afterwards.
pub proof fn law_renamed_file_is_at_target(moves: Seq<MoveView>, at: int)
    requires
        0 <= at < moves.len(),
        forall|i: int|
            0 <= i < moves.len() && i != at ==> (#[trigger] moves[i]).source.route()
                != moves[at].source.route(),
        forall|i: int|
            at < i < moves.len() ==> (#[trigger] moves[i]).source.route()
                != moves[at].target.route(),
    ensures
        moved_path(moves[at].source, moves) == moves[at].target,
    decreases moves.len(),
{
    let before = moves.drop_last();
    if at == moves.len() - 1 {
        assert forall|i: int| 0 <= i < before.len() implies (#[trigger] before[i]).source.route()
            != moves[at].source.route() by {
            assert(before[i] == moves[i]);
        }
        law_other_files_stay(moves[at].source, before);
    } else {
        assert(before[at] == moves[at]);
        assert forall|i: int|
            0 <= i < before.len() && i != at implies (#[trigger] before[i]).source.route()
            != before[at].source.route() by {
            assert(before[i] == moves[i]);
        }
        assert forall|i: int| at < i < before.len() implies (#[trigger] before[i]).source.route()
            != before[at].target.route() by {
            assert(before[i] == moves[i]);
        }
        law_renamed_file_is_at_target(before, at);
        assert(moves[moves.len() - 1].source.route() != moves[at].target.route());
    }
}

proof fn lemma_moved_alike(one: PathView, other: PathView, moves: Seq<MoveView>)
    requires
        one.route() == other.route(),
    ensures
        moved_path(one, moves).route() == moved_path(other, moves).route(),
    decreases moves.len(),
{
    if moves.len() > 0 {
        lemma_moved_alike(one, other, moves.drop_last());
    }
}

/// A track that passes the filter passes it after files were renamed.
pub proof fn law_renamed_tracks_stay_shown(app: AppView, track: TrackView, moves: Seq<MoveView>)
    requires
        app.track_shown(track),
    ensures
        app.with_moves(moves).track_shown(moved_track(track, moves)),
{
    if holds(app.recent, track.path) {
        let i = choose|i: int|
            0 <= i < app.recent.len() && routes(app.recent)[i] == track.path.route();
        lemma_moved_alike(app.recent[i], track.path, moves);
        let after = app.with_moves(moves).recent;
        assert(routes(after)[i] == moved_path(track.path, moves).route());
    }
}

/// Renaming files leaves the groups of the albums as they are.
proof fn lemma_moves_keep_groups(albums: Seq<AlbumView>, moves: Seq<MoveView>)
    ensures
        groups_of(moved_albums(albums, moves)) == groups_of(albums),
{
    let after = moved_albums(albums, moves);
    assert(group_titles(after) =~= group_titles(albums));
    assert(groups_of(after) =~= groups_of(albums));
}

fn path_after(path: &FilePath, moves: &Vec<Move>) -> (result: FilePath)
    ensures
        result@ == moved_path(path@, moves.deep_view()),
{
    let ghost views = moves.deep_view();
    let mut result = path.copy();
    let mut i: usize = 0;
    assert(views.take(0) =~= Seq::empty());
    while i < moves.len()
        invariant
            i <= moves@.len(),
            views == moves.deep_view(),
            result@ == moved_path(path@, views.take(i as int)),
        decreases moves.len() - i,
    {
        assert(views.take(i + 1).drop_last() =~= views.take(i as int));
        assert(views[i as int] == moves@[i as int]@);
        if result.same(&moves[i].source) {
            result = moves[i].target.copy();
        }
        i += 1;
    }
    assert(views.take(views.len() as int) =~= views);
    result
}

fn paths_after(paths: &Vec<FilePath>, moves: &Vec<Move>) -> (moved: Vec<FilePath>)
    ensures
        moved.deep_view() == moved_paths(paths.deep_view(), moves.deep_view()),
{
    let ghost views = paths.deep_view();
    let ghost wanted = moved_paths(views, moves.deep_view());
    let mut moved: Vec<FilePath> = Vec::new();
    let mut i: usize = 0;
    while i < paths.len()
        invariant
            i <= paths@.len(),
            views == paths.deep_view(),
            wanted == moved_paths(views, moves.deep_view()),
            moved.deep_view() == wanted.take(i as int),
        decreases paths.len() - i,
    {
        let ghost before = moved.deep_view();
        assert(views[i as int] == paths@[i as int]@);
        moved.push(path_after(&paths[i], moves));
        assert(moved.deep_view() =~= before.push(wanted[i as int]));
        assert(moved.deep_view() =~= wanted.take(i + 1));
        i += 1;
    }
    assert(moved.deep_view() =~= wanted);
    moved
}

fn move_tracks(tracks: &mut Vec<Track>, moves: &Vec<Move>)
    ensures
        final(tracks).deep_view() == moved_tracks(old(tracks).deep_view(), moves.deep_view()),
{
    let ghost before = tracks.deep_view();
    let ghost after = moved_tracks(before, moves.deep_view());
    let mut i: usize = 0;
    while i < tracks.len()
        invariant
            i <= tracks@.len(),
            tracks@.len() == before.len(),
            after == moved_tracks(before, moves.deep_view()),
            forall|j: int| 0 <= j < i ==> (#[trigger] tracks@[j])@ == after[j],
            forall|j: int| i <= j < tracks@.len() ==> (#[trigger] tracks@[j])@ == before[j],
        decreases tracks.len() - i,
    {
        assert(tracks@[i as int]@ == before[i as int]);
        tracks[i].path = path_after(&tracks[i].path, moves);
        assert(tracks@[i as int]@ =~= after[i as int]);
        i += 1;
    }
    assert(tracks.deep_view() =~= after);
}

fn move_albums(albums: &mut Vec<Album>, moves: &Vec<Move>)
    ensures
        final(albums).deep_view() == moved_albums(old(albums).deep_view(), moves.deep_view()),
{
    let ghost before = albums.deep_view();
    let ghost after = moved_albums(before, moves.deep_view());
    let mut i: usize = 0;
    while i < albums.len()
        invariant
            i <= albums@.len(),
            albums@.len() == before.len(),
            after == moved_albums(before, moves.deep_view()),
            forall|j: int| 0 <= j < i ==> (#[trigger] albums@[j])@ == after[j],
            forall|j: int| i <= j < albums@.len() ==> (#[trigger] albums@[j])@ == before[j],
        decreases albums.len() - i,
    {
        assert(albums@[i as int]@ == before[i as int]);
        move_tracks(&mut albums[i].tracks, moves);
        assert(albums@[i as int]@ =~= after[i as int]);
        i += 1;
    }
    assert(albums.deep_view() =~= after);
}

impl App {
    /// Opens a preview of the renaming of what is selected, where the files at
    /// `existing` exist.
    pub fn rename_selected(&mut self, existing: &Vec<FilePath>)
        requires
            old(self)@.groups_fit(),
        ensures
            final(self)@ == old(self)@.rename_previewed(existing.deep_view()),
            old(self)@.wf() ==> final(self)@.wf(),
    {
        match self.selected_tracks() {
            Some(tracks) => {
                self.status = None;
                self.rename_preview = Some(build_rename_preview(&tracks, existing));
            },
            None => {
                self.status = Some("Select an album or track to rename its file(s)".to_owned());
            },
        }
        assert(self@ =~= old(self)@.rename_previewed(existing.deep_view()));
    }

    /// Handles a key in the rename preview: `y` confirms it, Esc closes it, the
    /// arrows scroll it. Returns what is to be renamed once it is confirmed.
    pub fn handle_rename_confirmation(&mut self, key: Key) -> (order: Option<RenameOrder>)
        requires
            old(self)@.rename_preview is Some,
        ensures
            final(self)@ == old(self)@.rename_key(key),
            order.deep_view() == if key == Key::Char('y') || key == Key::Char('Y') {
                Some(order_of(old(self)@.rename_preview.unwrap()))
            } else {
                None
            },
            order matches Some(order) ==> order@.skipped + order@.moves.len() <= usize::MAX,
            old(self)@.wf() ==> final(self)@.wf(),
    {
        match key {
            Key::Char('y') | Key::Char('Y') => {
                return Some(self.apply_rename_preview());
            },
            Key::Esc | Key::Char('n') | Key::Char('N') => {
                self.rename_preview = None;
                self.status = Some("Rename cancelled".to_owned());
            },
            Key::Down | Key::Char('j') => {
                match &mut self.rename_preview {
                    Some(preview) => {
                        preview.scroll = scroll_down(preview.scroll, preview.plans.len());
                    },
                    None => {},
                }
            },
            Key::Up | Key::Char('k') => {
                match &mut self.rename_preview {
                    Some(preview) => {
                        preview.scroll = scroll_up(preview.scroll);
                    },
                    None => {},
                }
            },
            _ => {},
        }
        assert(self@ =~= old(self)@.rename_key(key));
        None
    }

    /// Closes the rename preview and returns what is to be renamed.
    pub fn apply_rename_preview(&mut self) -> (order: RenameOrder)
        requires
            old(self)@.rename_preview is Some,
        ensures
            final(self)@ == (AppView { rename_preview: None, ..old(self)@ }),
            order@ == order_of(old(self)@.rename_preview.unwrap()),
            order@.skipped + order@.moves.len() <= usize::MAX,
            old(self)@.wf() ==> final(self)@.wf(),
    {
        let mut taken: Option<RenamePreview> = None;
        std::mem::swap(&mut self.rename_preview, &mut taken);
        assert(self@ =~= (AppView { rename_preview: None, ..old(self)@ }));
        let mut moves: Vec<Move> = Vec::new();
        match taken {
            Some(preview) => {
                let ghost plans = preview@.plans;
                let skipped = preview.skipped_count();
                let mut i: usize = 0;
                proof {
                    assert(plans.take(0) =~= Seq::empty());
                    assert(moves.deep_view() =~= Seq::empty());
                }
                while i < preview.plans.len()
                    invariant
                        i <= preview.plans@.len(),
                        plans == preview.plans.deep_view(),
                        moves.deep_view() == moves_of(plans.take(i as int)),
                    decreases preview.plans.len() - i,
                {
                    assert(plans.take(i + 1).drop_last() =~= plans.take(i as int));
                    assert(plans[i as int] == preview.plans@[i as int]@);
                    if preview.plans[i].status == RenameStatus::Ready {
                        match &preview.plans[i].target {
                            Some(target) => {
                                let ghost before = moves.deep_view();
                                let next = Move {
                                    source: preview.plans[i].source.copy(),
                                    target: target.copy(),
                                };
                                let ghost view = next@;
                                moves.push(next);
                                assert(moves.deep_view() =~= before.push(view));
                            },
                            None => {},
                        }
                    }
                    i += 1;
                }
                proof {
                    assert(plans.take(plans.len() as int) =~= plans);
                    lemma_moves_count(plans);
                    lemma_ready_renames(plans);
                    assert(preview.plans.len() == plans.len());
                }
                let order = RenameOrder { moves, skipped };
                assert(order@ =~= order_of(old(self)@.rename_preview.unwrap()));
                order
            },
            None => RenameOrder { moves, skipped: 0 },
        }
    }

    /// Puts the new paths of files that were renamed wherever the browser held
    /// the old ones.
    pub fn update_renamed_paths(&mut self, moves: &Vec<Move>)
        ensures
            final(self)@ == old(self)@.with_moves(moves.deep_view()),
            old(self)@.groups_fit() ==> final(self)@.groups_fit(),
            old(self)@.wf() ==> final(self)@.wf(),
    {
        let ghost before = self@;
        let ghost views = moves.deep_view();
        move_albums(&mut self.albums, moves);
        move_albums(&mut self.folder_albums, moves);
        let queued = paths_after(&self.conversion_queue, moves);
        let recent = paths_after(&self.recent, moves);
        let ghost conversions = moved_conversions(before.completed_conversions, views);
        let mut completed: Vec<CompletedConversion> = Vec::new();
        let mut i: usize = 0;
        assert(completed.deep_view() =~= conversions.take(0));
        while i < self.completed_conversions.len()
            invariant
                i <= self.completed_conversions@.len(),
                views == moves.deep_view(),
                self.completed_conversions.deep_view() == before.completed_conversions,
                conversions == moved_conversions(before.completed_conversions, views),
                completed.deep_view() == conversions.take(i as int),
            decreases self.completed_conversions.len() - i,
        {
            let ghost so_far = completed.deep_view();
            assert(before.completed_conversions[i as int]
                == self.completed_conversions@[i as int]@);
            completed.push(
                CompletedConversion {
                    original: path_after(&self.completed_conversions[i].original, moves),
                    output: self.completed_conversions[i].output.copy(),
                },
            );
            assert(completed.deep_view() =~= so_far.push(conversions[i as int]));
            assert(completed.deep_view() =~= conversions.take(i + 1));
            i += 1;
        }
        assert(completed.deep_view() =~= conversions);
        self.conversion_queue = queued;
        self.recent = recent;
        self.completed_conversions = completed;
        match &mut self.playback {
            Some(playback) => {
                playback.path = path_after(&playback.path, moves);
            },
            None => {},
        }
        proof {
            lemma_moves_keep_groups(before.folder_albums, views);
            assert(self@ =~= before.with_moves(views));
        }
    }

    /// Takes in that a confirmed renaming was carried out: each file with the
    /// outcome at its place. Where one was renamed the scan that followed is
    /// taken in too.
    pub fn finish_rename(&mut self, order: RenameOrder, outcomes: &Vec<bool>, scan: Option<Scan>)
        requires
            old(self)@.groups_fit(),
            outcomes@.len() == order@.moves.len(),
            order@.skipped + order@.moves.len() <= usize::MAX,
            done_moves(order@.moves, outcomes@).len() > 0 ==> scan is Some,
        ensures
            final(self)@ == old(self)@.rename_finished(order@, outcomes@, scan.deep_view()),
            old(self)@.wf() && old(self)@.editor is None ==> final(self)@.wf(),
    {
        let ghost before = self@;
        let ghost moves = order@.moves;
        let mut done: Vec<Move> = Vec::new();
        let mut i: usize = 0;
        proof {
            assert(moves.take(0) =~= Seq::empty());
            assert(done.deep_view() =~= Seq::empty());
        }
        while i < order.moves.len()
            invariant
                i <= order.moves@.len(),
                moves == order.moves.deep_view(),
                outcomes@.len() == moves.len(),
                done.deep_view() == done_moves(moves.take(i as int), outcomes@.take(i as int)),
            decreases order.moves.len() - i,
        {
            assert(moves.take(i + 1).drop_last() =~= moves.take(i as int));
            assert(outcomes@.take(i + 1).drop_last() =~= outcomes@.take(i as int));
            assert(moves[i as int] == order.moves@[i as int]@);
            if outcomes[i] {
                let ghost so_far = done.deep_view();
                done.push(
                    Move {
                        source: order.moves[i].source.copy(),
                        target: order.moves[i].target.copy(),
                    },
                );
                assert(done.deep_view() =~= so_far.push(moves[i as int]));
            }
            i += 1;
        }
        proof {
            assert(moves.take(moves.len() as int) =~= moves);
            assert(outcomes@.take(outcomes@.len() as int) =~= outcomes@);
            lemma_done_moves(moves, outcomes@);
        }
        let renamed = done.len();
        let skipped: usize = order.skipped + (order.moves.len() - renamed);
        self.update_renamed_paths(&done);
        if renamed > 0 {
            match scan {
                Some(scan) => self.rescan_preserving_browser_state(scan),
                None => {},
            }
        }
        let mut text = String::new();
        if renamed == 0 && skipped == 0 {
            text = "File names already match the track numbers and titles".to_owned();
        } else if renamed == 0 {
            text = "No tracks renamed; skipped ".to_owned();
            text.append(decimal_text(skipped as u64).as_str());
        } else {
            text = "Renamed ".to_owned();
            text.append(decimal_text(renamed as u64).as_str());
            if skipped == 0 {
                text.append(" track(s)");
            } else {
                text.append(" track(s); skipped ");
                text.append(decimal_text(skipped as u64).as_str());
            }
        }
        self.status = Some(text);
        assert(self@ =~= before.rename_finished(order@, outcomes@, scan.deep_view()));
    }
}

// ---------------------------------------------------------------------------
// Deleting originals
// ---------------------------------------------------------------------------

/// What came of deleting the original of a completed conversion: whether its
/// output was verified again and, if it was, whether the original was removed.
#[derive(Clone, Copy, Debug, PartialEq, Eq, Structural)]
pub struct Deletion {
    pub verified: bool,
    pub removed: bool,
}

/// Whether an original is gone: its output was verified, and it was removed.
pub open spec fn is_deleted(deletion: Deletion) -> bool {
    deletion.verified && deletion.removed
}

/// The conversions whose originals are still there.
pub open spec fn retained(completed: Seq<CompletedView>, deletions: Seq<Deletion>) -> Seq<
    CompletedView,
>
    decreases completed.len(),
{
    if completed.len() == 0 {
        Seq::empty()
    } else {
        let before = retained(completed.drop_last(), deletions.drop_last());
        if is_deleted(deletions.last()) {
            before
        } else {
            before.push(completed.last())
        }
    }
}

impl AppView {
    /// The browser after the deletion of originals was asked for.
    pub open spec fn delete_requested(self) -> AppView {
        if self.completed_conversions.len() == 0 {
            AppView {
                status: Some("No verified conversions are available to delete"@),
                ..self
            }
        } else {
            AppView { delete_confirmation: Some(0), ..self }
        }
    }

    /// The browser after a key was pressed while the deletion is to be
    /// confirmed. A confirmation changes it once the files were deleted.
    pub open spec fn delete_key(self, key: Key) -> AppView {
        let scroll = self.delete_confirmation.unwrap() as int;
        match key {
            Key::Esc | Key::Char('n') | Key::Char('N') => AppView {
                delete_confirmation: None,
                status: Some("Original files kept"@),
                ..self
            },
            Key::Down | Key::Char('j') => AppView {
                delete_confirmation: Some(
                    one_down(scroll, self.completed_conversions.len() as int) as usize,
                ),
                ..self
            },
            Key::Up | Key::Char('k') => AppView {
                delete_confirmation: Some(one_up(scroll) as usize),
                ..self
            },
            _ => self,
        }
    }

    /// The browser after the originals were deleted with these outcomes and the
    /// library was scanned.
    pub open spec fn deletion_finished(self, deletions: Seq<Deletion>, scan: ScanView) -> AppView {
        let kept = retained(self.completed_conversions, deletions);
        AppView {
            status: Some(
                "Deleted "@ + decimal((self.completed_conversions.len() - kept.len()) as nat)
                    + " original track(s) after verification"@,
            ),
            ..(AppView {
                completed_conversions: kept,
                delete_confirmation: None,
                ..self
            }).rescanned(scan)
        }
    }
}

/// No conversion is lost whose original is still there: every one that was not
/// verified again, or whose original could not be removed, is kept.
pub proof fn law_unverified_originals_are_kept(
    completed: Seq<CompletedView>,
    deletions: Seq<Deletion>,
)
    requires
        completed.len() == deletions.len(),
    ensures
        retained(completed, deletions).len() <= completed.len(),
        forall|i: int|
            0 <= i < completed.len() && !(deletions[i].verified && deletions[i].removed)
                ==> retained(completed, deletions).contains(#[trigger] completed[i]),
    decreases completed.len(),
{
    if completed.len() > 0 {
        let fewer = completed.drop_last();
        let outcomes = deletions.drop_last();
        law_unverified_originals_are_kept(fewer, outcomes);
        let before = retained(fewer, outcomes);
        let after = retained(completed, deletions);
        assert forall|i: int|
            0 <= i < completed.len() && !(deletions[i].verified && deletions[i].removed) implies
            after.contains(#[trigger] completed[i]) by {
            if i < fewer.len() {
                assert(fewer[i] == completed[i] && outcomes[i] == deletions[i]);
                let k = choose|k: int| 0 <= k < before.len() && before[k] == completed[i];
                assert(after[k] == completed[i]);
            } else {
                assert(after[after.len() - 1] == completed[i]);
            }
        }
    }
}

/// Whether the original of a conversion may be deleted: only if its output was
/// verified again.
pub fn may_delete_original(verified: &Result<(), String>) -> (may: bool)
    ensures
        may == (verified is Ok),
{
    verified.is_ok()
}

impl App {
    /// Asks for a confirmation that the originals of what was converted are
    /// deleted.
    pub fn request_delete_originals(&mut self)
        ensures
            final(self)@ == old(self)@.delete_requested(),
            old(self)@.wf() ==> final(self)@.wf(),
    {
        if self.completed_conversions.len() == 0 {
            self.status = Some("No verified conversions are available to delete".to_owned());
        } else {
            self.delete_confirmation = Some(0);
        }
        assert(self@ =~= old(self)@.delete_requested());
    }

    /// Handles a key while the deletion is to be confirmed: `y` confirms it, Esc
    /// keeps the files, the arrows scroll. Returns whether it was confirmed.
    pub fn handle_delete_confirmation(&mut self, key: Key) -> (confirmed: bool)
        requires
            old(self)@.delete_confirmation is Some,
        ensures
            final(self)@ == old(self)@.delete_key(key),
            confirmed == (key == Key::Char('y') || key == Key::Char('Y')),
            old(self)@.wf() ==> final(self)@.wf(),
    {
        let scroll = match self.delete_confirmation {
            Some(scroll) => scroll,
            None => 0,
        };
        match key {
            Key::Char('y') | Key::Char('Y') => {
                return true;
            },
            Key::Esc | Key::Char('n') | Key::Char('N') => {
                self.delete_confirmation = None;
                self.status = Some("Original files kept".to_owned());
            },
            Key::Down | Key::Char('j') => {
                self.delete_confirmation = Some(
                    scroll_down(scroll, self.completed_conversions.len()),
                );
            },
            Key::Up | Key::Char('k') => {
                self.delete_confirmation = Some(scroll_up(scroll));
            },
            _ => {},
        }
        assert(self@ =~= old(self)@.delete_key(key));
        false
    }

    /// Takes in what came of deleting the originals, each at its place, and the
    /// scan that followed.
    pub fn finish_deletion(&mut self, deletions: &Vec<Deletion>, scan: Scan)
        requires
            deletions@.len() == old(self)@.completed_conversions.len(),
        ensures
            final(self)@ == old(self)@.deletion_finished(deletions@, scan@),
            old(self)@.wf() && old(self)@.editor is None ==> final(self)@.wf(),
    {
        let ghost before = self@;
        let ghost completed = before.completed_conversions;
        let mut kept: Vec<CompletedConversion> = Vec::new();
        let mut i: usize = 0;
        proof {
            assert(completed.take(0) =~= Seq::empty());
            assert(kept.deep_view() =~= Seq::empty());
        }
        while i < self.completed_conversions.len()
            invariant
                i <= self.completed_conversions@.len(),
                completed == self.completed_conversions.deep_view(),
                deletions@.len() == completed.len(),
                kept@.len() <= i,
                kept.deep_view() == retained(completed.take(i as int), deletions@.take(i as int)),
            decreases self.completed_conversions.len() - i,
        {
            assert(completed.take(i + 1).drop_last() =~= completed.take(i as int));
            assert(deletions@.take(i + 1).drop_last() =~= deletions@.take(i as int));
            assert(completed[i as int] == self.completed_conversions@[i as int]@);
            if !(deletions[i].verified && deletions[i].removed) {
                let ghost so_far = kept.deep_view();
                kept.push(self.completed_conversions[i].copy());
                assert(kept.deep_view() =~= so_far.push(completed[i as int]));
            }
            i += 1;
        }
        proof {
            assert(completed.take(completed.len() as int) =~= completed);
            assert(deletions@.take(deletions@.len() as int) =~= deletions@);
        }
        let deleted: usize = self.completed_conversions.len() - kept.len();
        self.completed_conversions = kept;
        self.delete_confirmation = None;
        self.rescan(scan);
        let mut text = "Deleted ".to_owned();
        text.append(decimal_text(deleted as u64).as_str());
        text.append(" original track(s) after verification");
        self.status = Some(text);
        assert(self@ =~= before.deletion_finished(deletions@, scan@));
    }
}

// ---------------------------------------------------------------------------
// Playing
// ---------------------------------------------------------------------------

/// What is to be done with the player.
pub enum PlaybackStep {
    Nothing,
    Stop,
    Play(Playback),
}

/// What a step of the player says.
#[verifier::ext_equal]
pub enum PlaybackStepView {
    Nothing,
    Stop,
    Play(PlaybackView),
}

impl View for PlaybackStep {
    type V = PlaybackStepView;

    open spec fn view(&self) -> PlaybackStepView {
        match self {
            PlaybackStep::Nothing => PlaybackStepView::Nothing,
            PlaybackStep::Stop => PlaybackStepView::Stop,
            PlaybackStep::Play(playback) => PlaybackStepView::Play(playback@),
        }
    }
}

impl AppView {
    /// The track that is selected.
    pub open spec fn selected_track(self) -> Option<TrackView> {
        match self.selected_row() {
            Some(LibraryRow::Track { album, track }) => Some(
                self.active_albums()[album as int].tracks[track as int],
            ),
            _ => None,
        }
    }

    /// Whether the track at `path` is playing.
    pub open spec fn is_playing(self, path: PathView) -> bool {
        self.playback matches Some(playback) && playback.path.route() == path.route()
    }

    /// What is to be done with the player when the selected track is to be
    /// played, or stopped if it is playing.
    pub open spec fn playback_step(self) -> PlaybackStepView {
        match self.selected_track() {
            Some(track) => if self.is_playing(track.path) {
                PlaybackStepView::Stop
            } else {
                PlaybackStepView::Play(PlaybackView { path: track.path, title: track.title })
            },
            None => PlaybackStepView::Nothing,
        }
    }

    /// The browser after that, before the player was started.
    pub open spec fn playback_toggled(self) -> AppView {
        match self.selected_track() {
            Some(track) => if self.is_playing(track.path) {
                AppView { playback: None, status: Some("Playback stopped"@), ..self }
            } else {
                AppView { playback: None, ..self }
            },
            None => AppView { status: Some("Select a track to play it"@), ..self },
        }
    }

    /// The browser after the player was started, or was not because of an error.
    pub open spec fn playback_started(
        self,
        playback: PlaybackView,
        error: Option<Seq<char>>,
    ) -> AppView {
        match error {
            None => AppView { playback: Some(playback), status: None, ..self },
            Some(error) => AppView {
                status: Some("Could not start playback: "@ + error),
                ..self
            },
        }
    }

    /// The browser after it was seen whether the player has ended.
    pub open spec fn playback_refreshed(self, ended: bool) -> AppView {
        if ended && self.playback is Some {
            AppView { playback: None, status: Some("Playback finished"@), ..self }
        } else {
            self
        }
    }
}

impl App {
    /// Plays the track that is selected, or stops it if it is playing. What was
    /// playing before is stopped. Returns what is to be done with the player.
    pub fn toggle_playback_selected(&mut self) -> (step: PlaybackStep)
        requires
            old(self)@.groups_fit(),
        ensures
            final(self)@ == old(self)@.playback_toggled(),
            step@ == old(self)@.playback_step(),
            old(self)@.wf() ==> final(self)@.wf(),
    {
        let ghost before = self@;
        match self.selected_row() {
            Some(LibraryRow::Track { album, track }) => {
                let albums = self.active_albums();
                assert(albums.deep_view()[album as int] == albums@[album as int]@);
                assert(albums@[album as int]@.tracks[track as int]
                    == albums@[album as int].tracks@[track as int]@);
                let path = albums[album].tracks[track].path.copy();
                let title = albums[album].tracks[track].title.clone();
                let playing = match &self.playback {
                    Some(playback) => playback.path.same(&path),
                    None => false,
                };
                self.stop_playback();
                if playing {
                    self.status = Some("Playback stopped".to_owned());
                    assert(self@ =~= before.playback_toggled());
                    PlaybackStep::Stop
                } else {
                    assert(self@ =~= before.playback_toggled());
                    let step = PlaybackStep::Play(Playback { path, title });
                    assert(step@ =~= before.playback_step());
                    step
                }
            },
            _ => {
                self.status = Some("Select a track to play it".to_owned());
                assert(self@ =~= before.playback_toggled());
                PlaybackStep::Nothing
            },
        }
    }

    /// Takes in that the player was started, or that it could not be.
    pub fn start_playback(&mut self, playback: Playback, error: Option<String>)
        ensures
            final(self)@ == old(self)@.playback_started(playback@, error.deep_view()),
            old(self)@.wf() ==> final(self)@.wf(),
    {
        match error {
            None => {
                self.playback = Some(playback);
                self.status = None;
            },
            Some(error) => {
                let mut text = "Could not start playback: ".to_owned();
                text.append(error.as_str());
                self.status = Some(text);
            },
        }
        assert(self@ =~= old(self)@.playback_started(playback@, error.deep_view()));
    }

    /// Forgets what is playing.
    pub fn stop_playback(&mut self)
        ensures
            final(self)@ == (AppView { playback: None, ..old(self)@ }),
            old(self)@.wf() ==> final(self)@.wf(),
    {
        self.playback = None;
    }

    /// Takes in whether the player has ended.
    pub fn refresh_playback(&mut self, ended: bool)
        ensures
            final(self)@ == old(self)@.playback_refreshed(ended),
            old(self)@.wf() ==> final(self)@.wf(),
    {
        if ended && self.playback.is_some() {
            self.playback = None;
            self.status = Some("Playback finished".to_owned());
        }
        assert(self@ =~= old(self)@.playback_refreshed(ended));
    }
}

/// The command that plays the file at a path.
pub open spec fn player_command(path: PathView) -> Seq<Seq<u8>> {
    seq![
        encode_utf8("-nodisp"@),
        encode_utf8("-autoexit"@),
        encode_utf8("-loglevel"@),
        encode_utf8("error"@),
        path.bytes,
    ]
}

/// The arguments of the command `ffplay` that plays the file at `path` without
/// a window.
pub fn player_arguments(path: &FilePath) -> (arguments: Vec<Vec<u8>>)
    ensures
        arguments.deep_view() == player_command(path@),
{
    let mut arguments: Vec<Vec<u8>> = Vec::new();
    arguments.push(bytes_of("-nodisp"));
    arguments.push(bytes_of("-autoexit"));
    arguments.push(bytes_of("-loglevel"));
    arguments.push(bytes_of("error"));
    arguments.push(path.to_bytes());
    assert(arguments.deep_view() =~= player_command(path@));
    arguments
}

} // verus!
