//! The library browser: what it holds, which rows it shows, and how the
//! selection moves through them.

use vstd::prelude::*;
use std::collections::BTreeSet;
use crate::albums::{Album, FolderGroup};
use crate::conversion::CompletedConversion;
use crate::editor::{EditorTarget, MetadataEditor};
use crate::library::Track;
use crate::path::FilePath;
use crate::preview::{contains_path, ConversionFailure, ConversionPreview, ConversionProgress};
use crate::preview::{ConversionResult, RenamePreview};
use crate::text::{chars_of, text_between, text_contains, to_lowercase, trim};
use crate::time::Duration;
use crate::albums::{distinct, group_titles, groups_of, members, positions, AlbumView, GroupView};
use crate::conversion::CompletedView;
use crate::editor::{field_labels, EditorView};
use crate::library::TrackView;
use crate::path::{holds, PathView};
use crate::preview::{conversions_complete, renames_complete};
use crate::preview::{ConversionPreviewView, FailureView, ProgressView};
use crate::preview::{RenamePreviewView, ResultView};
use crate::text::{contains_text, lowercase, trimmed};
use crate::time::second;

verus! {

// ---------------------------------------------------------------------------
// What the browser holds
// ---------------------------------------------------------------------------

/// By what the browser groups tracks.
#[derive(Clone, Copy, Debug, PartialEq, Eq, Structural)]
pub enum ViewMode {
    AlbumMetadata,
    Folders,
}

/// Which tracks the browser is limited to.
#[derive(Clone, Copy, Debug, PartialEq, Eq, Structural)]
pub enum TrackFilter {
    NoReleaseDate,
    New,
}

/// A row of the browser.
#[derive(Clone, Copy, Debug, PartialEq, Eq, Structural)]
pub enum LibraryRow {
    Album(usize),
    FolderGroup(usize),
    FolderAlbum(usize),
    Track { album: usize, track: usize },
}

/// The track that is playing.
pub struct Playback {
    pub path: FilePath,
    pub title: String,
}

/// What is known of the track that is playing.
#[verifier::ext_equal]
pub struct PlaybackView {
    pub path: PathView,
    pub title: Seq<char>,
}

impl View for Playback {
    type V = PlaybackView;

    open spec fn view(&self) -> PlaybackView {
        PlaybackView { path: self.path@, title: self.title@ }
    }
}

impl DeepView for Playback {
    type V = PlaybackView;

    open spec fn deep_view(&self) -> PlaybackView {
        self@
    }
}

/// The browser: the library, what is shown of it, and what the user is about.
/// The files that were changed lately are in `recent`.
pub struct App {
    pub root: FilePath,
    pub albums: Vec<Album>,
    pub folder_albums: Vec<Album>,
    pub folder_groups: Vec<FolderGroup>,
    pub view_mode: ViewMode,
    pub expanded_albums: BTreeSet<usize>,
    pub expanded_folder_groups: BTreeSet<usize>,
    pub unreadable: usize,
    pub selected: Option<usize>,
    pub search: Option<String>,
    pub search_input: Option<String>,
    pub editor: Option<MetadataEditor>,
    pub path_inspector: Option<Vec<FilePath>>,
    pub status: Option<String>,
    pub playback: Option<Playback>,
    pub conversion_queue: Vec<FilePath>,
    pub conversion_preview: Option<ConversionPreview>,
    pub conversion_progress: Option<ConversionProgress>,
    pub conversion_successes: Vec<CompletedConversion>,
    pub conversion_failures: Vec<ConversionFailure>,
    pub conversion_result: Option<ConversionResult>,
    pub completed_conversions: Vec<CompletedConversion>,
    pub rename_preview: Option<RenamePreview>,
    pub delete_confirmation: Option<usize>,
    pub active_filter: Option<TrackFilter>,
    pub filter_menu: Option<usize>,
    pub recent: Vec<FilePath>,
}

/// What the browser holds.
#[verifier::ext_equal]
pub struct AppView {
    pub root: PathView,
    pub albums: Seq<AlbumView>,
    pub folder_albums: Seq<AlbumView>,
    pub folder_groups: Seq<GroupView>,
    pub view_mode: ViewMode,
    pub expanded_albums: Set<usize>,
    pub expanded_folder_groups: Set<usize>,
    pub unreadable: usize,
    pub selected: Option<usize>,
    pub search: Option<Seq<char>>,
    pub search_input: Option<Seq<char>>,
    pub editor: Option<EditorView>,
    pub path_inspector: Option<Seq<PathView>>,
    pub status: Option<Seq<char>>,
    pub playback: Option<PlaybackView>,
    pub conversion_queue: Seq<PathView>,
    pub conversion_preview: Option<ConversionPreviewView>,
    pub conversion_progress: Option<ProgressView>,
    pub conversion_successes: Seq<CompletedView>,
    pub conversion_failures: Seq<FailureView>,
    pub conversion_result: Option<ResultView>,
    pub completed_conversions: Seq<CompletedView>,
    pub rename_preview: Option<RenamePreviewView>,
    pub delete_confirmation: Option<usize>,
    pub active_filter: Option<TrackFilter>,
    pub filter_menu: Option<usize>,
    pub recent: Seq<PathView>,
}

impl View for App {
    type V = AppView;

    open spec fn view(&self) -> AppView {
        AppView {
            root: self.root@,
            albums: self.albums.deep_view(),
            folder_albums: self.folder_albums.deep_view(),
            folder_groups: self.folder_groups.deep_view(),
            view_mode: self.view_mode,
            expanded_albums: self.expanded_albums@,
            expanded_folder_groups: self.expanded_folder_groups@,
            unreadable: self.unreadable,
            selected: self.selected,
            search: self.search.deep_view(),
            search_input: self.search_input.deep_view(),
            editor: self.editor.deep_view(),
            path_inspector: self.path_inspector.deep_view(),
            status: self.status.deep_view(),
            playback: self.playback.deep_view(),
            conversion_queue: self.conversion_queue.deep_view(),
            conversion_preview: self.conversion_preview.deep_view(),
            conversion_progress: self.conversion_progress.deep_view(),
            conversion_successes: self.conversion_successes.deep_view(),
            conversion_failures: self.conversion_failures.deep_view(),
            conversion_result: self.conversion_result.deep_view(),
            completed_conversions: self.completed_conversions.deep_view(),
            rename_preview: self.rename_preview.deep_view(),
            delete_confirmation: self.delete_confirmation,
            active_filter: self.active_filter,
            filter_menu: self.filter_menu,
            recent: self.recent.deep_view(),
        }
    }
}

// ---------------------------------------------------------------------------
// What is shown
// ---------------------------------------------------------------------------

/// The filter at a place of the filter menu: none, then one for each filter.
pub open spec fn filter_option(index: int) -> Option<TrackFilter> {
    if index == 0 {
        None
    } else if index == 1 {
        Some(TrackFilter::NoReleaseDate)
    } else {
        Some(TrackFilter::New)
    }
}

/// The place of a filter in the filter menu.
pub open spec fn filter_index(filter: Option<TrackFilter>) -> usize {
    match filter {
        None => 0,
        Some(TrackFilter::NoReleaseDate) => 1,
        Some(TrackFilter::New) => 2,
    }
}

/// The name of a filter.
pub open spec fn filter_label(filter: TrackFilter) -> Seq<char> {
    match filter {
        TrackFilter::NoReleaseDate => "No release date"@,
        TrackFilter::New => "New (last 2 weeks)"@,
    }
}

impl TrackFilter {
    /// The name of the filter.
    pub fn label(self) -> (label: &'static str)
        ensures
            label@ == filter_label(self),
    {
        match self {
            TrackFilter::NoReleaseDate => "No release date",
            TrackFilter::New => "New (last 2 weeks)",
        }
    }

    /// The filter at a place of the filter menu.
    pub fn option(index: usize) -> (filter: Option<TrackFilter>)
        requires
            index < 3,
        ensures
            filter == filter_option(index as int),
    {
        if index == 0 {
            None
        } else if index == 1 {
            Some(TrackFilter::NoReleaseDate)
        } else {
            Some(TrackFilter::New)
        }
    }

    /// The place of a filter in the filter menu.
    pub fn index(filter: Option<TrackFilter>) -> (index: usize)
        ensures
            index == filter_index(filter),
            index < 3,
            filter_option(index as int) == filter,
    {
        match filter {
            None => 0,
            Some(TrackFilter::NoReleaseDate) => 1,
            Some(TrackFilter::New) => 2,
        }
    }
}

/// The time for which a file counts as new, in nanoseconds: two weeks.
pub open spec fn two_weeks() -> nat {
    14 * 24 * 60 * 60 * second()
}

/// Whether a track is new: its file was changed at most two weeks ago. Where it
/// cannot be told when that was, it is not.
pub fn track_is_new(age: Option<Duration>) -> (new: bool)
    ensures
        new == (age.deep_view() matches Some(age) && age <= two_weeks()),
{
    match age {
        Some(age) => age.at_most(&Duration::from_secs(1_209_600)),
        None => false,
    }
}

impl AppView {
    /// The albums of the current view.
    pub open spec fn active_albums(self) -> Seq<AlbumView> {
        match self.view_mode {
            ViewMode::AlbumMetadata => self.albums,
            ViewMode::Folders => self.folder_albums,
        }
    }

    /// Whether the target of an editor is an album or track of the current
    /// view, and the editor has its fields.
    pub open spec fn editor_fits(self, editor: EditorView) -> bool {
        &&& editor.wf()
        &&& editor.values.len() == field_labels(editor.target).len()
        &&& match editor.target {
            EditorTarget::Album(album) => album < self.active_albums().len(),
            EditorTarget::Track { album, track } => album < self.active_albums().len() && track
                < self.active_albums()[album as int].tracks.len(),
        }
    }

    /// Whether the groups are those of the albums by folder.
    pub open spec fn groups_fit(self) -> bool {
        &&& self.folder_groups == groups_of(self.folder_albums)
        &&& self.folder_albums.len() <= usize::MAX
    }

    /// Whether the parts of the browser fit together: the groups are those of
    /// the albums by folder, the editor edits something that is there, the menu
    /// stands on one of its entries, the counts of a conversion are those of what
    /// it has done, and the previews are complete.
    pub open spec fn wf(self) -> bool {
        &&& self.groups_fit()
        &&& self.editor matches Some(editor) ==> self.editor_fits(editor)
        &&& self.filter_menu matches Some(index) ==> index < 3
        &&& self.conversion_progress matches Some(progress) ==> {
            &&& progress.successful == self.conversion_successes.len()
            &&& progress.unsuccessful == self.conversion_failures.len()
            &&& progress.processed == progress.successful + progress.unsuccessful
        }
        &&& self.conversion_result matches Some(result) ==> result.total() <= usize::MAX
        &&& self.rename_preview matches Some(preview) ==> renames_complete(preview.plans)
        &&& self.conversion_preview matches Some(preview) ==> conversions_complete(preview.plans)
    }

    /// Whether a track passes the filter.
    pub open spec fn track_shown(self, track: TrackView) -> bool {
        match self.active_filter {
            None => true,
            Some(TrackFilter::NoReleaseDate) => track.release_date is None,
            Some(TrackFilter::New) => holds(self.recent, track.path),
        }
    }

    /// Whether an album is found by the search: by its title, its artist, its
    /// group, or the artist of one of its tracks.
    pub open spec fn album_found(self, album: AlbumView) -> bool {
        match self.search {
            None => true,
            Some(search) => {
                ||| contains_text(lowercase(album.title), search)
                ||| contains_text(lowercase(album.artist), search)
                ||| album.group matches Some(group) && contains_text(lowercase(group), search)
                ||| exists|i: int|
                    0 <= i < album.tracks.len() && contains_text(
                        lowercase((#[trigger] album.tracks[i]).artist),
                        search,
                    )
            },
        }
    }

    /// Whether an album is shown: it is found, and one of its tracks passes the
    /// filter.
    pub open spec fn album_shown(self, album: AlbumView) -> bool {
        &&& self.album_found(album)
        &&& exists|i: int| 0 <= i < album.tracks.len() && self.track_shown(#[trigger] album.tracks[i])
    }

    /// The rows of the first `count` tracks of an album: of those that pass the
    /// filter.
    pub open spec fn track_rows(self, index: usize, album: AlbumView, count: int) -> Seq<LibraryRow>
        decreases count,
    {
        if count <= 0 {
            Seq::empty()
        } else {
            let before = self.track_rows(index, album, count - 1);
            if self.track_shown(album.tracks[count - 1]) {
                before.push(LibraryRow::Track { album: index, track: (count - 1) as usize })
            } else {
                before
            }
        }
    }

    /// The rows of an album: its own, and those of its tracks if it is expanded.
    pub open spec fn album_rows(self, row: LibraryRow, index: usize, album: AlbumView) -> Seq<
        LibraryRow,
    > {
        if !self.album_shown(album) {
            Seq::empty()
        } else if self.expanded_albums.contains(index) {
            seq![row] + self.track_rows(index, album, album.tracks.len() as int)
        } else {
            seq![row]
        }
    }

    /// The rows of the first `count` albums by metadata.
    pub open spec fn metadata_rows(self, count: int) -> Seq<LibraryRow>
        decreases count,
    {
        if count <= 0 {
            Seq::empty()
        } else {
            let index = (count - 1) as usize;
            self.metadata_rows(count - 1) + self.album_rows(
                LibraryRow::Album(index),
                index,
                self.albums[count - 1],
            )
        }
    }

    /// The rows of the first `count` albums of a group.
    pub open spec fn grouped_rows(self, list: Seq<usize>, count: int) -> Seq<LibraryRow>
        decreases count,
    {
        if count <= 0 {
            Seq::empty()
        } else {
            let index = list[count - 1];
            self.grouped_rows(list, count - 1) + self.album_rows(
                LibraryRow::FolderAlbum(index),
                index,
                self.folder_albums[index as int],
            )
        }
    }

    /// Whether a group is shown: one of its albums is.
    pub open spec fn group_shown(self, group: GroupView) -> bool {
        exists|k: int|
            0 <= k < group.albums.len() && self.album_shown(
                self.folder_albums[#[trigger] group.albums[k] as int],
            )
    }

    /// The rows of a group: its own, and those of its albums if it is expanded.
    pub open spec fn group_rows(self, index: usize, group: GroupView) -> Seq<LibraryRow> {
        if !self.group_shown(group) {
            Seq::empty()
        } else if self.expanded_folder_groups.contains(index) {
            seq![LibraryRow::FolderGroup(index)] + self.grouped_rows(
                group.albums,
                group.albums.len() as int,
            )
        } else {
            seq![LibraryRow::FolderGroup(index)]
        }
    }

    /// The rows of the first `count` groups.
    pub open spec fn folder_rows(self, count: int) -> Seq<LibraryRow>
        decreases count,
    {
        if count <= 0 {
            Seq::empty()
        } else {
            self.folder_rows(count - 1) + self.group_rows(
                (count - 1) as usize,
                self.folder_groups[count - 1],
            )
        }
    }

    /// The rows that are shown.
    pub open spec fn visible_rows(self) -> Seq<LibraryRow> {
        match self.view_mode {
            ViewMode::AlbumMetadata => self.metadata_rows(self.albums.len() as int),
            ViewMode::Folders => self.folder_rows(self.folder_groups.len() as int),
        }
    }

    /// The row that is selected, if it is shown.
    pub open spec fn selected_row(self) -> Option<LibraryRow> {
        match self.selected {
            Some(index) => if index < self.visible_rows().len() {
                Some(self.visible_rows()[index as int])
            } else {
                None
            },
            None => None,
        }
    }

    /// The selection of the first row, if there is one.
    pub open spec fn first_row(self) -> Option<usize> {
        if self.visible_rows().len() > 0 {
            Some(0)
        } else {
            None
        }
    }

    /// The selection of the first album, if there is one.
    pub open spec fn first_album(self) -> Option<usize> {
        if self.active_albums().len() > 0 {
            Some(0)
        } else {
            None
        }
    }

    /// Whether what a row stands for is there.
    pub open spec fn row_fits(self, row: LibraryRow) -> bool {
        match row {
            LibraryRow::Album(album) => self.view_mode == ViewMode::AlbumMetadata && album
                < self.albums.len(),
            LibraryRow::FolderGroup(group) => self.view_mode == ViewMode::Folders && group
                < self.folder_groups.len(),
            LibraryRow::FolderAlbum(album) => self.view_mode == ViewMode::Folders && album
                < self.folder_albums.len(),
            LibraryRow::Track { album, track } => album < self.active_albums().len() && track
                < self.active_albums()[album as int].tracks.len(),
        }
    }

    /// Whether what every row of a list stands for is there.
    pub open spec fn rows_fit(self, rows: Seq<LibraryRow>) -> bool {
        forall|i: int| 0 <= i < rows.len() ==> self.row_fits(#[trigger] rows[i])
    }
}

// ---------------------------------------------------------------------------
// Laws of rows
// ---------------------------------------------------------------------------

proof fn lemma_member_in_range(count: nat, keys: Seq<Seq<char>>, key: Seq<char>, limit: nat)
    requires
        count == keys.len(),
        count <= limit <= usize::MAX,
    ensures
        forall|k: int|
            0 <= k < members(positions(count), keys, key).len() ==> #[trigger] members(
                positions(count),
                keys,
                key,
            )[k] < limit,
    decreases count,
{
    if count > 0 {
        let shorter = (count - 1) as nat;
        assert(positions(count).drop_last() =~= positions(shorter));
        lemma_member_in_range(shorter, keys.drop_last(), key, limit);
        let before = members(positions(shorter), keys.drop_last(), key);
        let all = members(positions(count), keys, key);
        assert forall|k: int| 0 <= k < all.len() implies #[trigger] all[k] < limit by {
            if k < before.len() {
                assert(all[k] == before[k]);
            } else {
                assert(all[k] == positions(count)[count - 1]);
            }
        }
    }
}

/// The albums of a group are albums by folder.
pub proof fn lemma_groups_in_range(albums: Seq<AlbumView>)
    requires
        albums.len() <= usize::MAX,
    ensures
        forall|g: int, k: int|
            0 <= g < groups_of(albums).len() && 0 <= k < groups_of(albums)[g].albums.len()
                ==> #[trigger] groups_of(albums)[g].albums[k] < albums.len(),
{
    let titles = distinct(group_titles(albums));
    assert forall|g: int, k: int|
        0 <= g < groups_of(albums).len() && 0 <= k < groups_of(albums)[g].albums.len() implies
        #[trigger] groups_of(albums)[g].albums[k] < albums.len() by {
        lemma_member_in_range(albums.len(), group_titles(albums), titles[g], albums.len());
        let list = members(positions(albums.len()), group_titles(albums), titles[g]);
        assert(groups_of(albums)[g].albums == list);
        assert(list[k] < albums.len());
    }
}

proof fn lemma_track_rows_fit(app: AppView, index: usize, album: AlbumView, count: int)
    requires
        index < app.active_albums().len(),
        album == app.active_albums()[index as int],
        count <= album.tracks.len() <= usize::MAX,
    ensures
        app.rows_fit(app.track_rows(index, album, count)),
    decreases count,
{
    if count > 0 {
        lemma_track_rows_fit(app, index, album, count - 1);
    }
}

proof fn lemma_album_rows_fit(app: AppView, row: LibraryRow, index: usize, album: AlbumView)
    requires
        index < app.active_albums().len(),
        album == app.active_albums()[index as int],
        app.row_fits(row),
        album.tracks.len() <= usize::MAX,
    ensures
        app.rows_fit(app.album_rows(row, index, album)),
{
    lemma_track_rows_fit(app, index, album, album.tracks.len() as int);
}

proof fn lemma_metadata_rows_fit(app: AppView, count: int)
    requires
        app.view_mode == ViewMode::AlbumMetadata,
        count <= app.albums.len() <= usize::MAX,
        app.tracks_countable(),
    ensures
        app.rows_fit(app.metadata_rows(count)),
    decreases count,
{
    if count > 0 {
        lemma_metadata_rows_fit(app, count - 1);
        let index = (count - 1) as usize;
        assert(app.active_albums()[count - 1].tracks.len() <= usize::MAX);
        lemma_album_rows_fit(app, LibraryRow::Album(index), index, app.albums[count - 1]);
    }
}

proof fn lemma_grouped_rows_fit(app: AppView, list: Seq<usize>, count: int)
    requires
        app.view_mode == ViewMode::Folders,
        count <= list.len(),
        forall|k: int| 0 <= k < list.len() ==> #[trigger] list[k] < app.folder_albums.len(),
        app.tracks_countable(),
    ensures
        app.rows_fit(app.grouped_rows(list, count)),
    decreases count,
{
    if count > 0 {
        lemma_grouped_rows_fit(app, list, count - 1);
        let index = list[count - 1];
        assert(app.active_albums()[index as int].tracks.len() <= usize::MAX);
        lemma_album_rows_fit(
            app,
            LibraryRow::FolderAlbum(index),
            index,
            app.folder_albums[index as int],
        );
    }
}

proof fn lemma_folder_rows_fit(app: AppView, count: int)
    requires
        app.view_mode == ViewMode::Folders,
        app.groups_fit(),
        app.tracks_countable(),
        count <= app.folder_groups.len() <= usize::MAX,
    ensures
        app.rows_fit(app.folder_rows(count)),
    decreases count,
{
    if count > 0 {
        lemma_folder_rows_fit(app, count - 1);
        lemma_groups_in_range(app.folder_albums);
        let list = app.folder_groups[count - 1].albums;
        assert forall|k: int| 0 <= k < list.len() implies #[trigger] list[k]
            < app.folder_albums.len() by {
            assert(groups_of(app.folder_albums)[count - 1].albums[k] < app.folder_albums.len());
        }
        lemma_grouped_rows_fit(app, list, list.len() as int);
    }
}

impl AppView {
    /// Whether the tracks of each album can be counted by the machine.
    pub open spec fn tracks_countable(self) -> bool {
        forall|i: int|
            0 <= i < self.active_albums().len() ==> (#[trigger] self.active_albums()[i]).tracks.len()
                <= usize::MAX
    }
}

/// Every row that is shown stands for something that is there.
pub proof fn law_visible_rows_fit(app: AppView)
    requires
        app.groups_fit(),
        app.albums.len() <= usize::MAX,
        app.folder_groups.len() <= usize::MAX,
        app.tracks_countable(),
    ensures
        app.rows_fit(app.visible_rows()),
{
    match app.view_mode {
        ViewMode::AlbumMetadata => lemma_metadata_rows_fit(app, app.albums.len() as int),
        ViewMode::Folders => lemma_folder_rows_fit(app, app.folder_groups.len() as int),
    }
}

// ---------------------------------------------------------------------------
// Showing rows
// ---------------------------------------------------------------------------

/// What the machine can count of a browser.
pub(crate) proof fn lemma_countable(app: App)
    ensures
        app@.albums.len() <= usize::MAX,
        app@.folder_albums.len() <= usize::MAX,
        app@.folder_groups.len() <= usize::MAX,
        app@.tracks_countable(),
{
    assert(app.albums.len() == app@.albums.len());
    assert(app.folder_albums.len() == app@.folder_albums.len());
    assert(app.folder_groups.len() == app@.folder_groups.len());
    let active = app@.active_albums();
    assert forall|i: int| 0 <= i < active.len() implies (#[trigger] active[i]).tracks.len()
        <= usize::MAX by {
        match app.view_mode {
            ViewMode::AlbumMetadata => {
                assert(active[i] == app.albums@[i]@);
                assert(app.albums@[i].tracks.len() == active[i].tracks.len());
            },
            ViewMode::Folders => {
                assert(active[i] == app.folder_albums@[i]@);
                assert(app.folder_albums@[i].tracks.len() == active[i].tracks.len());
            },
        }
    }
}

impl App {
    /// The albums of the current view.
    pub fn active_albums(&self) -> (albums: &Vec<Album>)
        ensures
            albums.deep_view() == self@.active_albums(),
    {
        match self.view_mode {
            ViewMode::AlbumMetadata => &self.albums,
            ViewMode::Folders => &self.folder_albums,
        }
    }

    /// Whether `track` passes the filter.
    pub fn track_matches_filter(&self, track: &Track) -> (matches: bool)
        ensures
            matches == self@.track_shown(track@),
    {
        match self.active_filter {
            None => true,
            Some(TrackFilter::NoReleaseDate) => track.release_date.is_none(),
            Some(TrackFilter::New) => contains_path(&self.recent, &track.path),
        }
    }

    /// Whether `album` is found by the search.
    pub fn album_matches_search(&self, album: &Album) -> (matches: bool)
        ensures
            matches == self@.album_found(album@),
    {
        let search = match &self.search {
            Some(search) => search.as_str(),
            None => {
                return true;
            },
        };
        if text_contains(to_lowercase(album.title.as_str()).as_str(), search) {
            return true;
        }
        if text_contains(to_lowercase(album.artist.as_str()).as_str(), search) {
            return true;
        }
        match &album.group {
            Some(group) => {
                if text_contains(to_lowercase(group.as_str()).as_str(), search) {
                    return true;
                }
            },
            None => {},
        }
        let ghost tracks = album@.tracks;
        let mut i: usize = 0;
        while i < album.tracks.len()
            invariant
                i <= album.tracks@.len(),
                tracks == album.tracks.deep_view(),
                self@.search == Some(search@),
                forall|j: int|
                    0 <= j < i ==> !contains_text(
                        lowercase((#[trigger] tracks[j]).artist),
                        search@,
                    ),
            decreases album.tracks.len() - i,
        {
            assert(tracks[i as int] == album.tracks@[i as int]@);
            if text_contains(to_lowercase(album.tracks[i].artist.as_str()).as_str(), search) {
                return true;
            }
            i += 1;
        }
        false
    }

    /// Whether `album` is found by the search and has a track that passes the
    /// filter.
    pub fn album_matches(&self, album: &Album) -> (matches: bool)
        ensures
            matches == self@.album_shown(album@),
    {
        if !self.album_matches_search(album) {
            return false;
        }
        let ghost tracks = album@.tracks;
        let mut i: usize = 0;
        while i < album.tracks.len()
            invariant
                i <= album.tracks@.len(),
                tracks == album.tracks.deep_view(),
                self@.album_found(album@),
                forall|j: int| 0 <= j < i ==> !self@.track_shown(#[trigger] tracks[j]),
            decreases album.tracks.len() - i,
        {
            assert(tracks[i as int] == album.tracks@[i as int]@);
            if self.track_matches_filter(&album.tracks[i]) {
                return true;
            }
            i += 1;
        }
        false
    }

    fn push_album_rows(
        &self,
        row: LibraryRow,
        index: usize,
        album: &Album,
        rows: &mut Vec<LibraryRow>,
    )
        ensures
            final(rows)@ == old(rows)@ + self@.album_rows(row, index, album@),
    {
        if !self.album_matches(album) {
            assert(rows@ =~= old(rows)@ + self@.album_rows(row, index, album@));
            return;
        }
        rows.push(row);
        if self.expanded_albums.contains(&index) {
            let ghost start = old(rows)@ + seq![row];
            let mut track: usize = 0;
            assert(rows@ =~= start + self@.track_rows(index, album@, 0));
            while track < album.tracks.len()
                invariant
                    track <= album.tracks@.len(),
                    rows@ == start + self@.track_rows(index, album@, track as int),
                decreases album.tracks.len() - track,
            {
                let ghost before = rows@;
                assert(album@.tracks[track as int] == album.tracks@[track as int]@);
                if self.track_matches_filter(&album.tracks[track]) {
                    rows.push(LibraryRow::Track { album: index, track });
                }
                assert(rows@ =~= start + self@.track_rows(index, album@, track + 1));
                track += 1;
            }
        }
        assert(rows@ =~= old(rows)@ + self@.album_rows(row, index, album@));
    }

    fn shows_group(&self, group: &FolderGroup) -> (shown: bool)
        requires
            forall|k: int|
                0 <= k < group.albums@.len() ==> #[trigger] group.albums@[k]
                    < self.folder_albums@.len(),
        ensures
            shown == self@.group_shown(group@),
    {
        let mut k: usize = 0;
        while k < group.albums.len()
            invariant
                k <= group.albums@.len(),
                forall|k: int|
                    0 <= k < group.albums@.len() ==> #[trigger] group.albums@[k]
                        < self.folder_albums@.len(),
                forall|j: int|
                    0 <= j < k ==> !self@.album_shown(
                        self@.folder_albums[#[trigger] group@.albums[j] as int],
                    ),
            decreases group.albums.len() - k,
        {
            let index = group.albums[k];
            assert(self@.folder_albums[index as int] == self.folder_albums@[index as int]@);
            if self.album_matches(&self.folder_albums[index]) {
                assert(group@.albums[k as int] == index);
                return true;
            }
            k += 1;
        }
        false
    }

    fn push_group_rows(&self, index: usize, group: &FolderGroup, rows: &mut Vec<LibraryRow>)
        requires
            forall|k: int|
                0 <= k < group.albums@.len() ==> #[trigger] group.albums@[k]
                    < self.folder_albums@.len(),
        ensures
            final(rows)@ == old(rows)@ + self@.group_rows(index, group@),
    {
        if !self.shows_group(group) {
            assert(rows@ =~= old(rows)@ + self@.group_rows(index, group@));
            return;
        }
        rows.push(LibraryRow::FolderGroup(index));
        if self.expanded_folder_groups.contains(&index) {
            let ghost start = old(rows)@ + seq![LibraryRow::FolderGroup(index)];
            let mut k: usize = 0;
            assert(rows@ =~= start + self@.grouped_rows(group@.albums, 0));
            while k < group.albums.len()
                invariant
                    k <= group.albums@.len(),
                    forall|k: int|
                        0 <= k < group.albums@.len() ==> #[trigger] group.albums@[k]
                            < self.folder_albums@.len(),
                    rows@ == start + self@.grouped_rows(group@.albums, k as int),
                decreases group.albums.len() - k,
            {
                let album = group.albums[k];
                assert(self@.folder_albums[album as int] == self.folder_albums@[album as int]@);
                self.push_album_rows(
                    LibraryRow::FolderAlbum(album),
                    album,
                    &self.folder_albums[album],
                    rows,
                );
                assert(rows@ =~= start + self@.grouped_rows(group@.albums, k + 1));
                k += 1;
            }
        }
        assert(rows@ =~= old(rows)@ + self@.group_rows(index, group@));
    }

    /// The rows that are shown: the albums that match, with the tracks of those
    /// that are expanded, and in the view by folder the groups above them.
    pub fn visible_rows(&self) -> (rows: Vec<LibraryRow>)
        requires
            self@.groups_fit(),
        ensures
            rows@ == self@.visible_rows(),
    {
        let mut rows: Vec<LibraryRow> = Vec::new();
        match self.view_mode {
            ViewMode::AlbumMetadata => {
                let mut index: usize = 0;
                while index < self.albums.len()
                    invariant
                        index <= self.albums@.len(),
                        rows@ == self@.metadata_rows(index as int),
                    decreases self.albums.len() - index,
                {
                    assert(self@.albums[index as int] == self.albums@[index as int]@);
                    self.push_album_rows(
                        LibraryRow::Album(index),
                        index,
                        &self.albums[index],
                        &mut rows,
                    );
                    index += 1;
                }
            },
            ViewMode::Folders => {
                let mut index: usize = 0;
                while index < self.folder_groups.len()
                    invariant
                        index <= self.folder_groups@.len(),
                        self@.groups_fit(),
                        rows@ == self@.folder_rows(index as int),
                    decreases self.folder_groups.len() - index,
                {
                    let ghost group = self.folder_groups@[index as int];
                    proof {
                        assert(self@.folder_groups[index as int] == group@);
                        lemma_groups_in_range(self@.folder_albums);
                        assert forall|k: int| 0 <= k < group.albums@.len() implies
                            #[trigger] group.albums@[k] < self.folder_albums@.len() by {
                            assert(groups_of(self@.folder_albums)[index as int].albums[k]
                                < self@.folder_albums.len());
                        }
                    }
                    self.push_group_rows(index, &self.folder_groups[index], &mut rows);
                    index += 1;
                }
            },
        }
        rows
    }

    /// The row that is selected, if it is shown.
    pub fn selected_row(&self) -> (row: Option<LibraryRow>)
        requires
            self@.groups_fit(),
        ensures
            row == self@.selected_row(),
            row matches Some(row) ==> self@.row_fits(row),
    {
        proof {
            lemma_countable(*self);
            law_visible_rows_fit(self@);
        }
        let rows = self.visible_rows();
        match self.selected {
            Some(index) => if index < rows.len() {
                Some(rows[index])
            } else {
                None
            },
            None => None,
        }
    }

    pub(crate) fn first_row(&self) -> (first: Option<usize>)
        requires
            self@.groups_fit(),
        ensures
            first == self@.first_row(),
    {
        if self.visible_rows().len() > 0 {
            Some(0)
        } else {
            None
        }
    }

    pub(crate) fn first_album(&self) -> (first: Option<usize>)
        ensures
            first == self@.first_album(),
    {
        if self.active_albums().len() > 0 {
            Some(0)
        } else {
            None
        }
    }
}

// ---------------------------------------------------------------------------
// Keys that move through the rows
// ---------------------------------------------------------------------------

/// A key that is pressed.
#[derive(Clone, Copy, Debug, PartialEq, Eq, Structural)]
pub enum Key {
    Char(char),
    Enter,
    Esc,
    Backspace,
    Delete,
    Left,
    Right,
    Up,
    Down,
    Tab,
    BackTab,
    Other,
}

/// Whether a row is that of an album with this index.
pub open spec fn is_album_row(row: LibraryRow, album: usize) -> bool {
    match row {
        LibraryRow::Album(index) => index == album,
        LibraryRow::FolderAlbum(index) => index == album,
        _ => false,
    }
}

/// The first row from `from` on that is that of an album.
pub open spec fn album_row_from(rows: Seq<LibraryRow>, album: usize, from: int) -> Option<usize>
    decreases rows.len() - from,
{
    if from < 0 || from >= rows.len() {
        None
    } else if is_album_row(rows[from], album) {
        Some(from as usize)
    } else {
        album_row_from(rows, album, from + 1)
    }
}

impl AppView {
    /// The browser after the selection moved to the next row, from the last to
    /// the first.
    pub open spec fn moved_next(self) -> AppView {
        let count = self.visible_rows().len();
        if count > 0 {
            AppView {
                selected: Some(
                    match self.selected {
                        Some(index) => ((index + 1) % (count as int)) as usize,
                        None => 0,
                    },
                ),
                ..self
            }
        } else {
            self
        }
    }

    /// The browser after the selection moved to the previous row, from the
    /// first to the last.
    pub open spec fn moved_previous(self) -> AppView {
        let count = self.visible_rows().len();
        if count > 0 {
            AppView {
                selected: Some(
                    match self.selected {
                        Some(index) => if index == 0 {
                            (count - 1) as usize
                        } else {
                            (index - 1) as usize
                        },
                        None => 0,
                    },
                ),
                ..self
            }
        } else {
            self
        }
    }

    /// The browser after what is selected was expanded.
    pub open spec fn with_selected_expanded(self) -> AppView {
        match self.selected_row() {
            Some(LibraryRow::Album(album)) => AppView {
                expanded_albums: self.expanded_albums.insert(album),
                ..self
            },
            Some(LibraryRow::FolderAlbum(album)) => AppView {
                expanded_albums: self.expanded_albums.insert(album),
                ..self
            },
            Some(LibraryRow::FolderGroup(group)) => AppView {
                expanded_folder_groups: self.expanded_folder_groups.insert(group),
                ..self
            },
            _ => self,
        }
    }

    /// The browser after what is selected was expanded or, if it was, collapsed.
    pub open spec fn with_selected_toggled(self) -> AppView {
        match self.selected_row() {
            Some(LibraryRow::Album(album)) => self.with_album_toggled(album),
            Some(LibraryRow::FolderAlbum(album)) => self.with_album_toggled(album),
            Some(LibraryRow::FolderGroup(group)) => AppView {
                expanded_folder_groups: toggled(self.expanded_folder_groups, group),
                ..self
            },
            _ => self,
        }
    }

    /// The browser after an album was expanded or, if it was, collapsed.
    pub open spec fn with_album_toggled(self, album: usize) -> AppView {
        AppView { expanded_albums: toggled(self.expanded_albums, album), ..self }
    }

    /// The browser after what is selected was collapsed: a group, or the album
    /// that is selected or holds the selected track, which is then selected.
    pub open spec fn with_selected_collapsed(self) -> AppView {
        match self.selected_row() {
            Some(LibraryRow::Album(album)) => self.with_album_collapsed(album),
            Some(LibraryRow::FolderAlbum(album)) => self.with_album_collapsed(album),
            Some(LibraryRow::Track { album, .. }) => self.with_album_collapsed(album),
            Some(LibraryRow::FolderGroup(group)) => AppView {
                expanded_folder_groups: self.expanded_folder_groups.remove(group),
                ..self
            },
            None => self,
        }
    }

    /// The browser after an album was collapsed and selected.
    pub open spec fn with_album_collapsed(self, album: usize) -> AppView {
        match album_row_from(self.visible_rows(), album, 0) {
            Some(row) => AppView {
                expanded_albums: self.expanded_albums.remove(album),
                selected: Some(row),
                ..self
            },
            None => self,
        }
    }

    /// The browser with its first row selected.
    pub open spec fn at_first_row(self) -> AppView {
        AppView { selected: self.first_row(), ..self }
    }

    /// The browser after it changed between the two views.
    pub open spec fn view_toggled(self) -> AppView {
        let changed = AppView {
            view_mode: match self.view_mode {
                ViewMode::AlbumMetadata => ViewMode::Folders,
                ViewMode::Folders => ViewMode::AlbumMetadata,
            },
            expanded_albums: Set::empty(),
            expanded_folder_groups: Set::empty(),
            ..self
        };
        AppView {
            selected: changed.first_album(),
            status: Some(
                match changed.view_mode {
                    ViewMode::AlbumMetadata => "Album metadata view"@,
                    ViewMode::Folders => "Folder view"@,
                },
            ),
            ..changed
        }
    }

    /// The browser after a search was cleared.
    pub open spec fn search_cleared(self) -> AppView {
        if self.search is Some {
            (AppView { search: None, ..self }).at_first_row()
        } else {
            self
        }
    }

    /// The browser after a key was pressed while a search is typed.
    pub open spec fn search_key(self, key: Key) -> AppView {
        let input = self.search_input.unwrap();
        match key {
            Key::Char(character) => AppView { search_input: Some(input.push(character)), ..self },
            Key::Backspace => AppView {
                search_input: Some(
                    if input.len() > 0 {
                        input.drop_last()
                    } else {
                        input
                    },
                ),
                ..self
            },
            Key::Esc => AppView { search_input: None, ..self },
            Key::Enter => (AppView {
                search: if trimmed(input).len() > 0 {
                    Some(lowercase(trimmed(input)))
                } else {
                    None
                },
                search_input: None,
                ..self
            }).at_first_row(),
            _ => self,
        }
    }

    /// The browser after a key was pressed in the filter menu.
    pub open spec fn filter_key(self, key: Key) -> AppView {
        let index = self.filter_menu.unwrap();
        match key {
            Key::Down | Key::Char('j') => AppView {
                filter_menu: Some(((index + 1) % 3) as usize),
                ..self
            },
            Key::Up | Key::Char('k') => AppView {
                filter_menu: Some(
                    if index == 0 {
                        2
                    } else {
                        (index - 1) as usize
                    },
                ),
                ..self
            },
            Key::Enter => AppView {
                status: Some(
                    match filter_option(index as int) {
                        Some(filter) => "Filter applied: "@ + filter_label(filter),
                        None => "Filter cleared"@,
                    },
                ),
                ..(AppView {
                    active_filter: filter_option(index as int),
                    filter_menu: None,
                    ..self
                }).at_first_row()
            },
            Key::Esc => AppView { filter_menu: None, ..self },
            _ => self,
        }
    }
}

/// A set with a value taken out or, if it was not in it, put in.
pub open spec fn toggled(set: Set<usize>, value: usize) -> Set<usize> {
    if set.contains(value) {
        set.remove(value)
    } else {
        set.insert(value)
    }
}

/// `text` without its last character.
fn popped(text: &String) -> (shorter: String)
    ensures
        shorter@ == if text@.len() > 0 {
            text@.drop_last()
        } else {
            text@
        },
{
    let chars = chars_of(text.as_str());
    let count = chars.len();
    let end: usize = if count > 0 {
        count - 1
    } else {
        0
    };
    let shorter = text_between(&chars, 0, end);
    proof {
        if text@.len() > 0 {
            assert(shorter@ =~= text@.drop_last());
        } else {
            assert(shorter@ =~= text@);
        }
    }
    shorter
}

impl App {
    /// Selects the next row, after the last one the first.
    pub fn next(&mut self)
        requires
            old(self)@.groups_fit(),
        ensures
            final(self)@ == old(self)@.moved_next(),
            old(self)@.wf() ==> final(self)@.wf(),
    {
        let count = self.visible_rows().len();
        if count > 0 {
            let target: usize = match self.selected {
                Some(index) => {
                    let within: usize = index % count;
                    proof {
                        vstd::arithmetic::div_mod::lemma_add_mod_noop(
                            index as int,
                            1,
                            count as int,
                        );
                        if count > 1 {
                            vstd::arithmetic::div_mod::lemma_small_mod(1, count as nat);
                        } else {
                            vstd::arithmetic::div_mod::lemma_mod_self_0(1);
                        }
                        if within + 1 == count {
                            vstd::arithmetic::div_mod::lemma_mod_self_0(count as int);
                        } else {
                            vstd::arithmetic::div_mod::lemma_small_mod(
                                (within + 1) as nat,
                                count as nat,
                            );
                        }
                    }
                    if within == count - 1 {
                        0
                    } else {
                        within + 1
                    }
                },
                None => 0,
            };
            self.selected = Some(target);
        }
        assert(self@ =~= old(self)@.moved_next());
    }

    /// Selects the previous row, before the first one the last.
    pub fn previous(&mut self)
        requires
            old(self)@.groups_fit(),
        ensures
            final(self)@ == old(self)@.moved_previous(),
            old(self)@.wf() ==> final(self)@.wf(),
    {
        let count = self.visible_rows().len();
        if count > 0 {
            let target: usize = match self.selected {
                Some(index) => if index == 0 {
                    count - 1
                } else {
                    index - 1
                },
                None => 0,
            };
            self.selected = Some(target);
        }
        assert(self@ =~= old(self)@.moved_previous());
    }

    /// Expands the album or group that is selected.
    pub fn expand_selected_album(&mut self)
        requires
            old(self)@.groups_fit(),
        ensures
            final(self)@ == old(self)@.with_selected_expanded(),
            old(self)@.wf() ==> final(self)@.wf(),
    {
        match self.selected_row() {
            Some(LibraryRow::Album(album)) => {
                self.expanded_albums.insert(album);
            },
            Some(LibraryRow::FolderAlbum(album)) => {
                self.expanded_albums.insert(album);
            },
            Some(LibraryRow::FolderGroup(group)) => {
                self.expanded_folder_groups.insert(group);
            },
            _ => {},
        }
        assert(self@ =~= old(self)@.with_selected_expanded());
    }

    /// Expands the album or group that is selected, or collapses it if it is
    /// expanded.
    pub fn toggle_selected_album(&mut self)
        requires
            old(self)@.groups_fit(),
        ensures
            final(self)@ == old(self)@.with_selected_toggled(),
            old(self)@.wf() ==> final(self)@.wf(),
    {
        match self.selected_row() {
            Some(LibraryRow::Album(album)) => {
                if !self.expanded_albums.remove(&album) {
                    self.expanded_albums.insert(album);
                }
            },
            Some(LibraryRow::FolderAlbum(album)) => {
                if !self.expanded_albums.remove(&album) {
                    self.expanded_albums.insert(album);
                }
            },
            Some(LibraryRow::FolderGroup(group)) => {
                if !self.expanded_folder_groups.remove(&group) {
                    self.expanded_folder_groups.insert(group);
                }
            },
            _ => {},
        }
        assert(self@ =~= old(self)@.with_selected_toggled());
    }

    /// Collapses the group that is selected, or the album that is selected or
    /// holds the selected track. That album is then selected.
    pub fn collapse_selected_album(&mut self)
        requires
            old(self)@.groups_fit(),
        ensures
            final(self)@ == old(self)@.with_selected_collapsed(),
            old(self)@.wf() ==> final(self)@.wf(),
    {
        match self.selected_row() {
            Some(LibraryRow::Album(album)) => self.collapse_album(album),
            Some(LibraryRow::FolderAlbum(album)) => self.collapse_album(album),
            Some(LibraryRow::Track { album, .. }) => self.collapse_album(album),
            Some(LibraryRow::FolderGroup(group)) => {
                self.expanded_folder_groups.remove(&group);
                assert(self@ =~= old(self)@.with_selected_collapsed());
            },
            None => {},
        }
    }

    fn collapse_album(&mut self, album: usize)
        requires
            old(self)@.groups_fit(),
        ensures
            final(self)@ == old(self)@.with_album_collapsed(album),
            old(self)@.wf() ==> final(self)@.wf(),
    {
        let rows = self.visible_rows();
        let mut i: usize = 0;
        while i < rows.len()
            invariant
                i <= rows@.len(),
                rows@ == old(self)@.visible_rows(),
                self@ == old(self)@,
                old(self)@.groups_fit(),
                album_row_from(rows@, album, i as int) == album_row_from(rows@, album, 0),
            decreases rows.len() - i,
        {
            let found = match rows[i] {
                LibraryRow::Album(index) => index == album,
                LibraryRow::FolderAlbum(index) => index == album,
                _ => false,
            };
            if found {
                self.expanded_albums.remove(&album);
                self.selected = Some(i);
                assert(self@ =~= old(self)@.with_album_collapsed(album));
                return;
            }
            i += 1;
        }
    }

    /// Changes between the view by metadata and the one by folder.
    pub fn toggle_view(&mut self)
        ensures
            final(self)@ == old(self)@.view_toggled(),
            old(self)@.wf() && old(self)@.editor is None ==> final(self)@.wf(),
    {
        self.view_mode = match self.view_mode {
            ViewMode::AlbumMetadata => ViewMode::Folders,
            ViewMode::Folders => ViewMode::AlbumMetadata,
        };
        self.expanded_albums = BTreeSet::new();
        self.expanded_folder_groups = BTreeSet::new();
        self.selected = self.first_album();
        self.status = Some(
            match self.view_mode {
                ViewMode::AlbumMetadata => "Album metadata view".to_owned(),
                ViewMode::Folders => "Folder view".to_owned(),
            },
        );
        assert(self@ =~= old(self)@.view_toggled());
    }

    /// Opens the filter menu on the filter that is active.
    pub fn open_filter_menu(&mut self)
        ensures
            final(self)@ == (AppView {
                filter_menu: Some(filter_index(old(self)@.active_filter)),
                ..old(self)@
            }),
            old(self)@.wf() ==> final(self)@.wf(),
    {
        self.filter_menu = Some(TrackFilter::index(self.active_filter));
    }

    /// Handles a key in the filter menu: the arrows move through the filters,
    /// Enter applies one.
    pub fn handle_filter_menu_key(&mut self, key: Key)
        requires
            old(self)@.groups_fit(),
            old(self)@.filter_menu matches Some(index) && index < 3,
        ensures
            final(self)@ == old(self)@.filter_key(key),
            old(self)@.wf() ==> final(self)@.wf(),
    {
        let index = match self.filter_menu {
            Some(index) => index,
            None => 0,
        };
        match key {
            Key::Down | Key::Char('j') => {
                self.filter_menu = Some((index + 1) % 3);
            },
            Key::Up | Key::Char('k') => {
                self.filter_menu = Some(
                    if index == 0 {
                        2
                    } else {
                        index - 1
                    },
                );
            },
            Key::Enter => {
                self.active_filter = TrackFilter::option(index);
                self.filter_menu = None;
                self.selected = self.first_row();
                self.status = Some(
                    match self.active_filter {
                        Some(filter) => {
                            let mut text = "Filter applied: ".to_owned();
                            text.append(filter.label());
                            text
                        },
                        None => "Filter cleared".to_owned(),
                    },
                );
            },
            Key::Esc => {
                self.filter_menu = None;
            },
            _ => {},
        }
        assert(self@ =~= old(self)@.filter_key(key));
    }

    /// Starts the typing of a search.
    pub fn open_search(&mut self)
        ensures
            final(self)@ == (AppView { search_input: Some(Seq::empty()), ..old(self)@ }),
            old(self)@.wf() ==> final(self)@.wf(),
    {
        self.search_input = Some(String::new());
        assert(self@.search_input.unwrap() =~= Seq::empty());
    }

    /// Ends the search, if there is one, and says whether there was.
    pub fn clear_search(&mut self) -> (cleared: bool)
        requires
            old(self)@.groups_fit(),
        ensures
            cleared == (old(self)@.search is Some),
            final(self)@ == old(self)@.search_cleared(),
            old(self)@.wf() ==> final(self)@.wf(),
    {
        if self.search.is_none() {
            return false;
        }
        self.search = None;
        assert(self@ =~= (AppView { search: None, ..old(self)@ }));
        self.selected = self.first_row();
        assert(self@ =~= old(self)@.search_cleared());
        true
    }

    /// Handles a key while a search is typed: Enter searches for what was
    /// typed, or ends the search where that is empty.
    pub fn handle_search_key(&mut self, key: Key)
        requires
            old(self)@.groups_fit(),
            old(self)@.search_input is Some,
        ensures
            final(self)@ == old(self)@.search_key(key),
            old(self)@.wf() ==> final(self)@.wf(),
    {
        let mut input = match &self.search_input {
            Some(input) => input.clone(),
            None => String::new(),
        };
        match key {
            Key::Char(character) => {
                input.push(character);
                self.search_input = Some(input);
            },
            Key::Backspace => {
                self.search_input = Some(popped(&input));
            },
            Key::Esc => {
                self.search_input = None;
            },
            Key::Enter => {
                let wanted = trim(input.as_str());
                self.search = if wanted.as_str().is_empty() {
                    None
                } else {
                    Some(to_lowercase(wanted.as_str()))
                };
                self.search_input = None;
                self.selected = self.first_row();
            },
            _ => {},
        }
        assert(self@ =~= old(self)@.search_key(key));
    }
}

} // verus!
