//! Taking a scan of the library into the browser, anew or with what was
//! expanded and selected kept.

use vstd::prelude::*;
use std::collections::BTreeSet;
use crate::albums::{folder_groups, group_by_album, group_by_folder, Album, FolderGroup};
use crate::browser::{App, LibraryRow, ViewMode};
use crate::library::{copy_tracks, Track};
use crate::path::FilePath;
use crate::preview::contains_path;
use crate::albums::{albums_of, folders_of, groups_of, AlbumView, GroupView};
use crate::browser::AppView;
use crate::library::TrackView;
use crate::path::{routes, PathView, Route};

verus! {

// ---------------------------------------------------------------------------
// Scans
// ---------------------------------------------------------------------------

/// What a scan of the library found: its tracks, how many files could not be
/// read, and which files were changed lately.
pub struct Scan {
    pub tracks: Vec<Track>,
    pub unreadable: usize,
    pub recent: Vec<FilePath>,
}

/// What a scan found.
#[verifier::ext_equal]
pub struct ScanView {
    pub tracks: Seq<TrackView>,
    pub unreadable: usize,
    pub recent: Seq<PathView>,
}

impl View for Scan {
    type V = ScanView;

    open spec fn view(&self) -> ScanView {
        ScanView {
            tracks: self.tracks.deep_view(),
            unreadable: self.unreadable,
            recent: self.recent.deep_view(),
        }
    }
}

impl DeepView for Scan {
    type V = ScanView;

    open spec fn deep_view(&self) -> ScanView {
        self@
    }
}

/// A browser of tracks in which nothing has been done yet.
pub open spec fn new_browser(
    root: PathView,
    tracks: Seq<TrackView>,
    unreadable: usize,
) -> AppView {
    let albums = albums_of(tracks);
    let folder_albums = folders_of(root, tracks);
    AppView {
        root,
        albums,
        folder_albums,
        folder_groups: groups_of(folder_albums),
        view_mode: ViewMode::AlbumMetadata,
        expanded_albums: Set::empty(),
        expanded_folder_groups: Set::empty(),
        unreadable,
        selected: if albums.len() > 0 {
            Some(0)
        } else {
            None
        },
        search: None,
        search_input: None,
        editor: None,
        path_inspector: None,
        status: None,
        playback: None,
        conversion_queue: Seq::empty(),
        conversion_preview: None,
        conversion_progress: None,
        conversion_successes: Seq::empty(),
        conversion_failures: Seq::empty(),
        conversion_result: None,
        completed_conversions: Seq::empty(),
        rename_preview: None,
        delete_confirmation: None,
        active_filter: None,
        filter_menu: None,
        recent: Seq::empty(),
    }
}

/// What a row is known by from one scan to the next: an album by its first
/// track, a group by its title, a track by its path.
pub enum RowIdentity {
    Album(Route),
    Group(Seq<char>),
    Track(Route),
}

/// The path of the first track of an album.
pub open spec fn first_path(album: AlbumView) -> Option<Route> {
    if album.tracks.len() > 0 {
        Some(album.tracks[0].path.route())
    } else {
        None
    }
}

/// Whether an expanded album starts with the track at `path`.
pub open spec fn is_expanded_at(albums: Seq<AlbumView>, expanded: Set<usize>, path: Route) -> bool {
    exists|i: int|
        0 <= i < albums.len() && expanded.contains(i as usize) && first_path(
            #[trigger] albums[i],
        ) == Some(path)
}

/// Whether an expanded group has this title.
pub open spec fn is_expanded_group(
    groups: Seq<GroupView>,
    expanded: Set<usize>,
    title: Seq<char>,
) -> bool {
    exists|i: int|
        0 <= i < groups.len() && expanded.contains(i as usize) && (#[trigger] groups[i]).title
            == title
}

impl AppView {
    /// What a row is known by.
    pub open spec fn identity(self, row: LibraryRow) -> Option<RowIdentity> {
        match row {
            LibraryRow::Album(album) => self.album_identity(album),
            LibraryRow::FolderAlbum(album) => self.album_identity(album),
            LibraryRow::FolderGroup(group) => Some(
                RowIdentity::Group(self.folder_groups[group as int].title),
            ),
            LibraryRow::Track { album, track } => Some(
                RowIdentity::Track(
                    self.active_albums()[album as int].tracks[track as int].path.route(),
                ),
            ),
        }
    }

    /// What the row of an album is known by.
    pub open spec fn album_identity(self, album: usize) -> Option<RowIdentity> {
        match first_path(self.active_albums()[album as int]) {
            Some(path) => Some(RowIdentity::Album(path)),
            None => None,
        }
    }

    /// The first row from `from` on that is known by `identity`.
    pub open spec fn row_known_from(self, identity: RowIdentity, from: int) -> Option<usize>
        decreases self.visible_rows().len() - from,
    {
        let rows = self.visible_rows();
        if from < 0 || from >= rows.len() {
            None
        } else if self.identity(rows[from]) == Some(identity) {
            Some(from as usize)
        } else {
            self.row_known_from(identity, from + 1)
        }
    }

    /// The browser with the tracks of a scan, all else as it was.
    pub open spec fn with_scan(self, scan: ScanView) -> AppView {
        let folder_albums = folders_of(self.root, scan.tracks);
        AppView {
            albums: albums_of(scan.tracks),
            folder_albums,
            folder_groups: groups_of(folder_albums),
            unreadable: scan.unreadable,
            recent: scan.recent,
            ..self
        }
    }

    /// The browser with the tracks of a scan, nothing expanded and the first
    /// album selected.
    pub open spec fn rescanned(self, scan: ScanView) -> AppView {
        let fresh = AppView {
            expanded_albums: Set::empty(),
            expanded_folder_groups: Set::empty(),
            ..self.with_scan(scan)
        };
        AppView { selected: fresh.first_album(), ..fresh }
    }

    /// The albums of `fresh` that are expanded because those of this browser
    /// that start with the same track are.
    pub open spec fn still_expanded(self, fresh: AppView) -> Set<usize> {
        Set::new(
            |i: usize|
                i < fresh.active_albums().len() && (first_path(
                    fresh.active_albums()[i as int],
                ) matches Some(path) && is_expanded_at(
                    self.active_albums(),
                    self.expanded_albums,
                    path,
                )),
        )
    }

    /// The groups of `fresh` that are expanded because those of this browser
    /// with the same title are.
    pub open spec fn still_expanded_groups(self, fresh: AppView) -> Set<usize> {
        match self.view_mode {
            ViewMode::AlbumMetadata => Set::empty(),
            ViewMode::Folders => Set::new(
                |i: usize|
                    i < fresh.folder_groups.len() && is_expanded_group(
                        self.folder_groups,
                        self.expanded_folder_groups,
                        fresh.folder_groups[i as int].title,
                    ),
            ),
        }
    }

    /// The browser with the tracks of a scan, with what was expanded.
    pub open spec fn reopened(self, scan: ScanView) -> AppView {
        let fresh = self.with_scan(scan);
        AppView {
            expanded_albums: self.still_expanded(fresh),
            expanded_folder_groups: self.still_expanded_groups(fresh),
            ..fresh
        }
    }

    /// What the selected row is known by.
    pub open spec fn selected_identity(self) -> Option<RowIdentity> {
        match self.selected_row() {
            Some(row) => self.identity(row),
            None => None,
        }
    }

    /// The browser with the tracks of a scan, with what was expanded and, if it
    /// is still shown, the row that was selected.
    pub open spec fn refreshed(self, scan: ScanView) -> AppView {
        let reopened = self.reopened(scan);
        let known = match self.selected_identity() {
            Some(identity) => reopened.row_known_from(identity, 0),
            None => None,
        };
        AppView {
            selected: match known {
                Some(row) => Some(row),
                None => reopened.first_row(),
            },
            ..reopened
        }
    }
}

/// What a row is known by.
enum KnownRow {
    Album(FilePath),
    Group(String),
    Track(FilePath),
}

spec fn known(row: KnownRow) -> RowIdentity {
    match row {
        KnownRow::Album(path) => RowIdentity::Album(path@.route()),
        KnownRow::Group(title) => RowIdentity::Group(title@),
        KnownRow::Track(path) => RowIdentity::Track(path@.route()),
    }
}

fn same_known(left: &KnownRow, right: &KnownRow) -> (same: bool)
    ensures
        same == (known(*left) == known(*right)),
{
    match (left, right) {
        (KnownRow::Album(left), KnownRow::Album(right)) => left.same(right),
        (KnownRow::Group(left), KnownRow::Group(right)) => *left == *right,
        (KnownRow::Track(left), KnownRow::Track(right)) => left.same(right),
        _ => false,
    }
}

fn expanded_paths(albums: &Vec<Album>, expanded: &BTreeSet<usize>) -> (paths: Vec<FilePath>)
    ensures
        forall|path: Route|
            #[trigger] routes(paths.deep_view()).contains(path) <==> is_expanded_at(
                albums.deep_view(),
                expanded@,
                path,
            ),
{
    let ghost views = albums.deep_view();
    let mut paths: Vec<FilePath> = Vec::new();
    let mut i: usize = 0;
    assert(views.take(0) =~= Seq::empty());
    while i < albums.len()
        invariant
            i <= albums@.len(),
            views == albums.deep_view(),
            forall|path: Route|
                #[trigger] routes(paths.deep_view()).contains(path) <==> is_expanded_at(
                    views.take(i as int),
                    expanded@,
                    path,
                ),
        decreases albums.len() - i,
    {
        let ghost before = routes(paths.deep_view());
        let ghost album = views[i as int];
        assert(album == albums@[i as int]@);
        let ghost added = expanded@.contains(i) && album.tracks.len() > 0;
        if expanded.contains(&i) && albums[i].tracks.len() > 0 {
            assert(album.tracks[0] == albums@[i as int].tracks@[0]@);
            paths.push(albums[i].tracks[0].path.copy());
            assert(routes(paths.deep_view()) =~= before.push(album.tracks[0].path.route()));
        }
        proof {
            let now = routes(paths.deep_view());
            assert forall|path: Route| #[trigger] now.contains(path) <==> is_expanded_at(
                views.take(i + 1),
                expanded@,
                path,
            ) by {
                let shorter = views.take(i as int);
                let longer = views.take(i + 1);
                if now.contains(path) {
                    let k = choose|k: int| 0 <= k < now.len() && now[k] == path;
                    if k < before.len() {
                        assert(before[k] == path);
                        assert(before.contains(path));
                        let j = choose|j: int|
                            0 <= j < shorter.len() && expanded@.contains(j as usize) && first_path(
                                #[trigger] shorter[j],
                            ) == Some(path);
                        assert(longer[j] == shorter[j]);
                    } else {
                        assert(longer[i as int] == album);
                    }
                }
                if is_expanded_at(longer, expanded@, path) {
                    let j = choose|j: int|
                        0 <= j < longer.len() && expanded@.contains(j as usize) && first_path(
                            #[trigger] longer[j],
                        ) == Some(path);
                    if j < i {
                        assert(shorter[j] == longer[j]);
                        assert(is_expanded_at(shorter, expanded@, path));
                        assert(before.contains(path));
                        let k = choose|k: int| 0 <= k < before.len() && before[k] == path;
                        assert(now[k] == path);
                    } else {
                        assert(now[now.len() - 1] == path);
                    }
                }
            }
        }
        i += 1;
    }
    assert(views.take(views.len() as int) =~= views);
    paths
}

fn group_is_expanded(
    groups: &Vec<FolderGroup>,
    expanded: &BTreeSet<usize>,
    title: &String,
) -> (is: bool)
    ensures
        is == is_expanded_group(groups.deep_view(), expanded@, title@),
{
    let ghost views = groups.deep_view();
    let mut i: usize = 0;
    while i < groups.len()
        invariant
            i <= groups@.len(),
            views == groups.deep_view(),
            forall|j: int|
                0 <= j < i ==> !(expanded@.contains(j as usize) && (#[trigger] views[j]).title
                    == title@),
        decreases groups.len() - i,
    {
        assert(views[i as int] == groups@[i as int]@);
        if expanded.contains(&i) && groups[i].title == *title {
            return true;
        }
        i += 1;
    }
    false
}

impl App {
    /// A browser of `tracks`, the tracks of the library at `root`.
    pub fn from_tracks(root: FilePath, tracks: Vec<Track>, unreadable: usize) -> (app: App)
        ensures
            app@ == new_browser(root@, tracks.deep_view(), unreadable),
            app@.wf(),
    {
        let albums = group_by_album(copy_tracks(&tracks));
        let folder_albums = group_by_folder(&root, tracks);
        let groups = folder_groups(&folder_albums);
        let selected: Option<usize> = if albums.len() > 0 {
            Some(0)
        } else {
            None
        };
        let app = App {
            root,
            albums,
            folder_albums,
            folder_groups: groups,
            view_mode: ViewMode::AlbumMetadata,
            expanded_albums: BTreeSet::new(),
            expanded_folder_groups: BTreeSet::new(),
            unreadable,
            selected,
            search: None,
            search_input: None,
            editor: None,
            path_inspector: None,
            status: None,
            playback: None,
            conversion_queue: Vec::new(),
            conversion_preview: None,
            conversion_progress: None,
            conversion_successes: Vec::new(),
            conversion_failures: Vec::new(),
            conversion_result: None,
            completed_conversions: Vec::new(),
            rename_preview: None,
            delete_confirmation: None,
            active_filter: None,
            filter_menu: None,
            recent: Vec::new(),
        };
        proof {
            assert(app.folder_albums.len() == app@.folder_albums.len());
            assert(app@ =~= new_browser(root@, tracks.deep_view(), unreadable));
        }
        app
    }

    fn take_scan(&mut self, scan: Scan)
        ensures
            final(self)@ == old(self)@.with_scan(scan@),
            final(self)@.folder_albums.len() <= usize::MAX,
    {
        self.albums = group_by_album(copy_tracks(&scan.tracks));
        self.folder_albums = group_by_folder(&self.root, scan.tracks);
        self.folder_groups = folder_groups(&self.folder_albums);
        self.unreadable = scan.unreadable;
        self.recent = scan.recent;
        assert(self.folder_albums.len() == self@.folder_albums.len());
        assert(self@ =~= old(self)@.with_scan(scan@));
    }

    /// Takes a scan, collapses everything and selects the first album.
    pub fn rescan(&mut self, scan: Scan)
        ensures
            final(self)@ == old(self)@.rescanned(scan@),
            final(self)@.groups_fit(),
            old(self)@.wf() && old(self)@.editor is None ==> final(self)@.wf(),
    {
        self.take_scan(scan);
        self.expanded_albums = BTreeSet::new();
        self.expanded_folder_groups = BTreeSet::new();
        self.selected = self.first_album();
        assert(self@ =~= old(self)@.rescanned(scan@));
    }

    fn known_row(&self, row: LibraryRow) -> (result: Option<KnownRow>)
        requires
            self@.row_fits(row),
        ensures
            match result {
                Some(row_known) => self@.identity(row) == Some(known(row_known)),
                None => self@.identity(row) is None,
            },
    {
        let albums = self.active_albums();
        match row {
            LibraryRow::Album(album) => {
                assert(albums.deep_view()[album as int] == albums@[album as int]@);
                Self::known_album(&albums[album])
            },
            LibraryRow::FolderAlbum(album) => {
                assert(albums.deep_view()[album as int] == albums@[album as int]@);
                Self::known_album(&albums[album])
            },
            LibraryRow::FolderGroup(group) => {
                assert(self@.folder_groups[group as int] == self.folder_groups@[group as int]@);
                Some(KnownRow::Group(self.folder_groups[group].title.clone()))
            },
            LibraryRow::Track { album, track } => {
                assert(albums.deep_view()[album as int] == albums@[album as int]@);
                assert(albums@[album as int]@.tracks[track as int]
                    == albums@[album as int].tracks@[track as int]@);
                Some(KnownRow::Track(albums[album].tracks[track].path.copy()))
            },
        }
    }

    fn known_album(album: &Album) -> (result: Option<KnownRow>)
        ensures
            match result {
                Some(row_known) => first_path(album@) matches Some(path) && known(row_known)
                    == RowIdentity::Album(path),
                None => first_path(album@) is None,
            },
    {
        if album.tracks.len() > 0 {
            assert(album@.tracks[0] == album.tracks@[0]@);
            Some(KnownRow::Album(album.tracks[0].path.copy()))
        } else {
            None
        }
    }

    fn find_known(&self, wanted: &KnownRow) -> (row: Option<usize>)
        requires
            self@.groups_fit(),
        ensures
            row == self@.row_known_from(known(*wanted), 0),
    {
        proof {
            crate::browser::lemma_countable(*self);
            crate::browser::law_visible_rows_fit(self@);
        }
        let rows = self.visible_rows();
        let mut i: usize = 0;
        while i < rows.len()
            invariant
                i <= rows@.len(),
                rows@ == self@.visible_rows(),
                self@.rows_fit(rows@),
                self@.row_known_from(known(*wanted), i as int) == self@.row_known_from(
                    known(*wanted),
                    0,
                ),
            decreases rows.len() - i,
        {
            assert(self@.row_fits(rows@[i as int]));
            match self.known_row(rows[i]) {
                Some(row) => {
                    if same_known(&row, wanted) {
                        return Some(i);
                    }
                },
                None => {},
            }
            i += 1;
        }
        None
    }

    /// Takes a scan and keeps what was expanded and, if it is still shown, the
    /// selected row. Albums are known again by their first track, groups by
    /// their title and tracks by their path.
    pub fn rescan_preserving_browser_state(&mut self, scan: Scan)
        requires
            old(self)@.groups_fit(),
        ensures
            final(self)@ == old(self)@.refreshed(scan@),
            final(self)@.groups_fit(),
            old(self)@.wf() && old(self)@.editor is None ==> final(self)@.wf(),
    {
        let ghost before = self@;
        let paths = expanded_paths(self.active_albums(), &self.expanded_albums);
        let selected = match self.selected_row() {
            Some(row) => self.known_row(row),
            None => None,
        };
        let ghost identity = before.selected_identity();
        let mut titles: Vec<FolderGroup> = Vec::new();
        std::mem::swap(&mut self.folder_groups, &mut titles);
        let ghost old_groups = titles.deep_view();
        assert(old_groups == before.folder_groups);
        self.take_scan(scan);
        let ghost fresh = before.with_scan(scan@);
        assert(self@ =~= fresh);
        let mut expanded: BTreeSet<usize> = BTreeSet::new();
        let albums = self.active_albums();
        let ghost views = albums.deep_view();
        let mut i: usize = 0;
        while i < albums.len()
            invariant
                i <= albums@.len(),
                views == albums.deep_view(),
                views == fresh.active_albums(),
                forall|path: Route|
                    #[trigger] routes(paths.deep_view()).contains(path) <==> is_expanded_at(
                        before.active_albums(),
                        before.expanded_albums,
                        path,
                    ),
                forall|j: usize|
                    #[trigger] expanded@.contains(j) <==> j < i && before.still_expanded(
                        fresh,
                    ).contains(j),
            decreases albums.len() - i,
        {
            assert(views[i as int] == albums@[i as int]@);
            if albums[i].tracks.len() > 0 {
                assert(views[i as int].tracks[0] == albums@[i as int].tracks@[0]@);
                if contains_path(&paths, &albums[i].tracks[0].path) {
                    expanded.insert(i);
                }
            }
            i += 1;
        }
        assert(expanded@ =~= before.still_expanded(fresh));
        let mut groups: BTreeSet<usize> = BTreeSet::new();
        match self.view_mode {
            ViewMode::AlbumMetadata => {},
            ViewMode::Folders => {
                let ghost group_views = self.folder_groups.deep_view();
                let mut i: usize = 0;
                while i < self.folder_groups.len()
                    invariant
                        i <= self.folder_groups@.len(),
                        self@ == fresh,
                        group_views == self.folder_groups.deep_view(),
                        group_views == fresh.folder_groups,
                        before.view_mode == ViewMode::Folders,
                        titles.deep_view() == before.folder_groups,
                        self.expanded_folder_groups@ == before.expanded_folder_groups,
                        forall|j: usize|
                            #[trigger] groups@.contains(j) <==> j < i
                                && before.still_expanded_groups(fresh).contains(j),
                    decreases self.folder_groups.len() - i,
                {
                    assert(group_views[i as int] == self.folder_groups@[i as int]@);
                    if group_is_expanded(
                        &titles,
                        &self.expanded_folder_groups,
                        &self.folder_groups[i].title,
                    ) {
                        groups.insert(i);
                    }
                    i += 1;
                }
            },
        }
        proof {
            assert(self.folder_groups.len() == fresh.folder_groups.len());
            assert(groups@ =~= before.still_expanded_groups(fresh));
        }
        self.expanded_albums = expanded;
        self.expanded_folder_groups = groups;
        assert(self@ =~= before.reopened(scan@));
        let row = match &selected {
            Some(wanted) => self.find_known(wanted),
            None => None,
        };
        self.selected = match row {
            Some(row) => Some(row),
            None => self.first_row(),
        };
        assert(self@ =~= before.refreshed(scan@));
    }
}

} // verus!
