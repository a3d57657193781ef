//! Editing metadata from the browser: opening the editor on what is selected,
//! its keys, and what is written when it is saved.

use vstd::prelude::*;
use vstd::utf8::*;
use crate::albums::Album;
use crate::browser::{App, Key, LibraryRow};
use crate::editor::{EditorTarget, MetadataEditor};
use crate::library::{is_valid_release_date, Track};
use crate::path::FilePath;
use crate::rescan::Scan;
use crate::text::{bytes_of, decimal_text};
use crate::albums::AlbumView;
use crate::browser::AppView;
use crate::editor::{field_labels, EditorView};
use crate::library::{valid_release_date, TrackView};
use crate::path::PathView;
use crate::queue::album_paths;
use crate::rescan::ScanView;
use crate::text::{decimal, lemma_chars_before, on_boundary};

verus! {

// ---------------------------------------------------------------------------
// Opening the editor
// ---------------------------------------------------------------------------

/// An editor with these values: its first field is active, and each cursor
/// stands at the end of its value.
pub open spec fn fresh_editor(target: EditorTarget, values: Seq<Seq<char>>) -> EditorView {
    EditorView {
        target,
        values,
        active_field: 0,
        cursor_positions: Seq::new(values.len(), |i: int| encode_utf8(values[i]).len() as usize),
    }
}

/// The release date of a track, or nothing.
pub open spec fn date_or_empty(date: Option<Seq<char>>) -> Seq<char> {
    match date {
        Some(date) => date,
        None => Seq::empty(),
    }
}

/// What is edited of an album: its artist, its title, and the release date of
/// its first track.
pub open spec fn album_values(album: AlbumView) -> Seq<Seq<char>> {
    seq![
        album.artist,
        album.title,
        if album.tracks.len() > 0 {
            date_or_empty(album.tracks[0].release_date)
        } else {
            Seq::empty()
        },
    ]
}

/// What is edited of a track: its title, its artist, its album and its release
/// date.
pub open spec fn track_values(track: TrackView) -> Seq<Seq<char>> {
    seq![track.title, track.artist, track.album, date_or_empty(track.release_date)]
}

impl AppView {
    /// The editor of what a row stands for.
    pub open spec fn row_editor(self, row: LibraryRow) -> Option<EditorView> {
        match row {
            LibraryRow::Album(album) => Some(
                fresh_editor(
                    EditorTarget::Album(album),
                    album_values(self.active_albums()[album as int]),
                ),
            ),
            LibraryRow::FolderAlbum(album) => Some(
                fresh_editor(
                    EditorTarget::Album(album),
                    album_values(self.folder_albums[album as int]),
                ),
            ),
            LibraryRow::Track { album, track } => Some(
                fresh_editor(
                    EditorTarget::Track { album, track },
                    track_values(self.active_albums()[album as int].tracks[track as int]),
                ),
            ),
            LibraryRow::FolderGroup(_) => None,
        }
    }

    /// The browser after the editor was asked for.
    pub open spec fn editor_opened(self) -> AppView {
        match self.selected_row() {
            Some(row) => match self.row_editor(row) {
                Some(editor) => AppView { status: None, editor: Some(editor), ..self },
                None => AppView {
                    status: Some(
                        "Expand a grouping folder and select an album or track to edit"@,
                    ),
                    ..self
                },
            },
            None => self,
        }
    }
}

fn new_editor(target: EditorTarget, values: Vec<String>) -> (editor: MetadataEditor)
    requires
        values@.len() > 0,
    ensures
        editor@ == fresh_editor(target, values.deep_view()),
        editor@.wf(),
{
    let ghost views = values.deep_view();
    let ghost wanted = fresh_editor(target, views);
    let mut cursors: Vec<usize> = Vec::new();
    let mut i: usize = 0;
    while i < values.len()
        invariant
            i <= values@.len(),
            views == values.deep_view(),
            wanted == fresh_editor(target, views),
            cursors@ == wanted.cursor_positions.take(i as int),
            forall|j: int|
                0 <= j < i ==> on_boundary(#[trigger] views[j], cursors@[j] as nat),
        decreases values.len() - i,
    {
        let ghost value = views[i as int];
        assert(value == values@[i as int]@);
        let end = bytes_of(values[i].as_str()).len();
        proof {
            lemma_chars_before(value, value.len() as int);
            assert(value.take(value.len() as int) =~= value);
        }
        cursors.push(end);
        assert(cursors@ =~= wanted.cursor_positions.take(i + 1));
        i += 1;
    }
    let editor = MetadataEditor { target, values, active_field: 0, cursor_positions: cursors };
    assert(editor@ =~= wanted);
    editor
}

fn date_of(track: &Track) -> (date: String)
    ensures
        date@ == date_or_empty(track@.release_date),
{
    match &track.release_date {
        Some(date) => date.clone(),
        None => {
            let date = String::new();
            assert(date@ =~= Seq::empty());
            date
        },
    }
}

fn album_fields(album: &Album) -> (values: Vec<String>)
    ensures
        values.deep_view() == album_values(album@),
{
    let mut values: Vec<String> = Vec::new();
    values.push(album.artist.clone());
    values.push(album.title.clone());
    if album.tracks.len() > 0 {
        assert(album@.tracks[0] == album.tracks@[0]@);
        values.push(date_of(&album.tracks[0]));
    } else {
        let date = String::new();
        assert(date@ =~= Seq::empty());
        values.push(date);
    }
    assert(values.deep_view() =~= album_values(album@));
    values
}

fn track_fields(track: &Track) -> (values: Vec<String>)
    ensures
        values.deep_view() == track_values(track@),
{
    let mut values: Vec<String> = Vec::new();
    values.push(track.title.clone());
    values.push(track.artist.clone());
    values.push(track.album.clone());
    values.push(date_of(track));
    assert(values.deep_view() =~= track_values(track@));
    values
}

impl App {
    /// Opens the editor on the album or track that is selected.
    pub fn open_editor(&mut self)
        requires
            old(self)@.groups_fit(),
        ensures
            final(self)@ == old(self)@.editor_opened(),
            old(self)@.wf() ==> final(self)@.wf(),
    {
        let ghost before = self@;
        let row = match self.selected_row() {
            Some(row) => row,
            None => {
                return;
            },
        };
        let editor = match row {
            LibraryRow::Album(album) => {
                let albums = self.active_albums();
                assert(albums.deep_view()[album as int] == albums@[album as int]@);
                new_editor(EditorTarget::Album(album), album_fields(&albums[album]))
            },
            LibraryRow::FolderAlbum(album) => {
                assert(before.folder_albums[album as int] == self.folder_albums@[album as int]@);
                new_editor(EditorTarget::Album(album), album_fields(&self.folder_albums[album]))
            },
            LibraryRow::FolderGroup(_) => {
                self.status = Some(
                    "Expand a grouping folder and select an album or track to edit".to_owned(),
                );
                assert(self@ =~= before.editor_opened());
                return;
            },
            LibraryRow::Track { album, track } => {
                let albums = self.active_albums();
                assert(albums.deep_view()[album as int] == albums@[album as int]@);
                assert(albums@[album as int]@.tracks[track as int]
                    == albums@[album as int].tracks@[track as int]@);
                new_editor(
                    EditorTarget::Track { album, track },
                    track_fields(&albums[album].tracks[track]),
                )
            },
        };
        assert(before.editor_fits(editor@));
        self.status = None;
        self.editor = Some(editor);
        assert(self@ =~= before.editor_opened());
    }
}

// ---------------------------------------------------------------------------
// Saving
// ---------------------------------------------------------------------------

/// What is to be written when an editor is saved, and into which files. What is
/// missing is left as it is.
pub struct SaveOrder {
    pub whole_album: bool,
    pub paths: Vec<FilePath>,
    pub title: Option<String>,
    pub artist: Option<String>,
    pub album_artist: Option<String>,
    pub album: String,
    pub release_date: String,
}

/// What an order to save says.
#[verifier::ext_equal]
pub struct SaveOrderView {
    pub whole_album: bool,
    pub paths: Seq<PathView>,
    pub title: Option<Seq<char>>,
    pub artist: Option<Seq<char>>,
    pub album_artist: Option<Seq<char>>,
    pub album: Seq<char>,
    pub release_date: Seq<char>,
}

impl View for SaveOrder {
    type V = SaveOrderView;

    open spec fn view(&self) -> SaveOrderView {
        SaveOrderView {
            whole_album: self.whole_album,
            paths: self.paths.deep_view(),
            title: self.title.deep_view(),
            artist: self.artist.deep_view(),
            album_artist: self.album_artist.deep_view(),
            album: self.album@,
            release_date: self.release_date@,
        }
    }
}

impl DeepView for SaveOrder {
    type V = SaveOrderView;

    open spec fn deep_view(&self) -> SaveOrderView {
        self@
    }
}

impl AppView {
    /// What is to be written when an editor is saved.
    pub open spec fn save_order(self, editor: EditorView) -> SaveOrderView {
        match editor.target {
            EditorTarget::Album(album) => SaveOrderView {
                whole_album: true,
                paths: album_paths(self.active_albums()[album as int]),
                title: None,
                artist: None,
                album_artist: Some(editor.values[0]),
                album: editor.values[1],
                release_date: editor.values[2],
            },
            EditorTarget::Track { album, track } => SaveOrderView {
                whole_album: false,
                paths: seq![self.active_albums()[album as int].tracks[track as int].path],
                title: Some(editor.values[0]),
                artist: Some(editor.values[1]),
                album_artist: None,
                album: editor.values[2],
                release_date: editor.values[3],
            },
        }
    }

    /// What is to be written when the editor is saved now: nothing while its
    /// release date is not valid.
    pub open spec fn saving(self) -> Option<SaveOrderView> {
        match self.editor {
            Some(editor) => if valid_release_date(editor.release_date()) {
                Some(self.save_order(editor))
            } else {
                None
            },
            None => None,
        }
    }

    /// The browser after the editor was saved: it is closed, unless its release
    /// date is not valid.
    pub open spec fn editor_saved(self) -> AppView {
        if self.saving() is Some {
            AppView { editor: None, ..self }
        } else {
            self
        }
    }

    /// The browser with another state of its editor.
    pub open spec fn with_editor(self, editor: EditorView) -> AppView {
        AppView { editor: Some(editor), ..self }
    }

    /// The browser after a key was pressed in the editor.
    pub open spec fn editor_key(self, key: Key) -> AppView {
        let editor = self.editor.unwrap();
        match key {
            Key::Enter => self.editor_saved(),
            Key::Char(character) => self.with_editor(editor.typed(character)),
            Key::Backspace => self.with_editor(editor.erased()),
            Key::Delete => self.with_editor(editor.deleted()),
            Key::Left => self.with_editor(editor.moved_left()),
            Key::Right => self.with_editor(editor.moved_right()),
            Key::Tab | Key::Down => self.with_editor(editor.focused(1)),
            Key::BackTab | Key::Up => self.with_editor(editor.focused(-1)),
            Key::Esc => AppView { editor: None, ..self },
            Key::Other => self,
        }
    }

    /// The browser after an order to save was carried out with these failures
    /// and the library was scanned.
    pub open spec fn save_finished(
        self,
        order: SaveOrderView,
        failures: Seq<Seq<char>>,
        scan: ScanView,
    ) -> AppView {
        AppView { status: Some(saved_text(order, failures)), ..self.refreshed(scan) }
    }
}

/// What is said after metadata was written.
pub open spec fn saved_text(order: SaveOrderView, failures: Seq<Seq<char>>) -> Seq<char> {
    if order.whole_album {
        if failures.len() == 0 {
            "Saved album metadata for "@ + decimal(order.paths.len()) + " tracks"@
        } else {
            "Saved with "@ + decimal(failures.len()) + " write error(s): "@ + failures[0]
        }
    } else {
        if failures.len() == 0 {
            "Saved track metadata"@
        } else {
            "Could not save: "@ + failures[0]
        }
    }
}

/// An editor whose release date is not valid cannot be saved: Enter leaves it as
/// it is, and nothing is written.
pub proof fn law_invalid_date_is_not_saved(app: AppView, editor: EditorView)
    requires
        app.editor == Some(editor),
        !valid_release_date(editor.release_date()),
    ensures
        app.saving() is None,
        app.editor_key(Key::Enter) == app,
{
}

/// Saving an album writes the album artist of its tracks, and neither their
/// titles nor their artists; saving a track writes these, and not the album
/// artist.
pub proof fn law_saving_separates_artists(app: AppView, editor: EditorView)
    ensures
        editor.target is Album ==> {
            let order = app.save_order(editor);
            order.title is None && order.artist is None && order.album_artist is Some
        },
        editor.target is Track ==> {
            let order = app.save_order(editor);
            order.title is Some && order.artist is Some && order.album_artist is None
        },
{
}

impl App {
    /// Saves the editor: closes it and returns what is to be written. While its
    /// release date is not valid it stays open and nothing is to be written.
    pub fn save_editor(&mut self) -> (order: Option<SaveOrder>)
        requires
            old(self)@.editor matches Some(editor) && old(self)@.editor_fits(editor),
        ensures
            final(self)@ == old(self)@.editor_saved(),
            order.deep_view() == old(self)@.saving(),
            old(self)@.wf() ==> final(self)@.wf(),
    {
        let ghost before = self@;
        let mut taken: Option<MetadataEditor> = None;
        std::mem::swap(&mut self.editor, &mut taken);
        match taken {
            Some(editor) => {
                let ghost view = editor@;
                assert(before.editor == Some(view));
                assert(before.editor_fits(view));
                assert(view.values.len() == field_labels(view.target).len());
                if !is_valid_release_date(editor.release_date()) {
                    self.editor = Some(editor);
                    assert(self@ =~= before);
                    return None;
                }
                assert(self@ =~= before.editor_saved());
                let order = match editor.target {
                    EditorTarget::Album(album) => {
                        let albums = self.active_albums();
                        assert(albums.deep_view()[album as int] == albums@[album as int]@);
                        let mut paths: Vec<FilePath> = Vec::new();
                        assert(paths.deep_view() =~= Seq::empty());
                        crate::queue::push_album_paths(&albums[album], &mut paths);
                        assert(paths.deep_view() =~= album_paths(
                            before.active_albums()[album as int],
                        ));
                        SaveOrder {
                            whole_album: true,
                            paths,
                            title: None,
                            artist: None,
                            album_artist: Some(editor.values[0].clone()),
                            album: editor.values[1].clone(),
                            release_date: editor.values[2].clone(),
                        }
                    },
                    EditorTarget::Track { album, track } => {
                        let albums = self.active_albums();
                        assert(albums.deep_view()[album as int] == albums@[album as int]@);
                        assert(albums@[album as int]@.tracks[track as int]
                            == albums@[album as int].tracks@[track as int]@);
                        let mut paths: Vec<FilePath> = Vec::new();
                        paths.push(albums[album].tracks[track].path.copy());
                        assert(paths.deep_view() =~= seq![
                            before.active_albums()[album as int].tracks[track as int].path,
                        ]);
                        SaveOrder {
                            whole_album: false,
                            paths,
                            title: Some(editor.values[0].clone()),
                            artist: Some(editor.values[1].clone()),
                            album_artist: None,
                            album: editor.values[2].clone(),
                            release_date: editor.values[3].clone(),
                        }
                    },
                };
                assert(order@ =~= before.save_order(view));
                Some(order)
            },
            None => None,
        }
    }

    /// Handles a key in the editor: Enter saves, Esc closes it, and the others
    /// edit the field or move through the fields. Returns what is to be written.
    pub fn handle_editor_key(&mut self, key: Key) -> (order: Option<SaveOrder>)
        requires
            old(self)@.editor matches Some(editor) && old(self)@.editor_fits(editor),
        ensures
            final(self)@ == old(self)@.editor_key(key),
            order.deep_view() == if key == Key::Enter {
                old(self)@.saving()
            } else {
                None
            },
            old(self)@.wf() ==> final(self)@.wf(),
    {
        let ghost before = self@;
        match key {
            Key::Enter => {
                return self.save_editor();
            },
            Key::Esc => {
                self.editor = None;
            },
            _ => {
                let mut taken: Option<MetadataEditor> = None;
                std::mem::swap(&mut self.editor, &mut taken);
                match taken {
                    Some(mut editor) => {
                        assert(before.editor_fits(editor@));
                        match key {
                            Key::Char(character) => editor.insert(character),
                            Key::Backspace => editor.backspace(),
                            Key::Delete => editor.delete(),
                            Key::Left => editor.move_cursor_left(),
                            Key::Right => editor.move_cursor_right(),
                            Key::Tab | Key::Down => editor.move_focus(1),
                            Key::BackTab | Key::Up => editor.move_focus(-1),
                            _ => {},
                        }
                        assert(before.editor_fits(editor@));
                        self.editor = Some(editor);
                    },
                    None => {},
                }
            },
        }
        assert(self@ =~= before.editor_key(key));
        None
    }

    /// Takes in that an order to save was carried out, with what failed of it,
    /// and the scan that followed.
    pub fn finish_save(&mut self, order: &SaveOrder, failures: &Vec<String>, scan: Scan)
        requires
            old(self)@.groups_fit(),
        ensures
            final(self)@ == old(self)@.save_finished(order@, failures.deep_view(), scan@),
            old(self)@.wf() && old(self)@.editor is None ==> final(self)@.wf(),
    {
        let ghost before = self@;
        self.rescan_preserving_browser_state(scan);
        let mut text = String::new();
        if order.whole_album {
            if failures.len() == 0 {
                text = "Saved album metadata for ".to_owned();
                text.append(decimal_text(order.paths.len() as u64).as_str());
                text.append(" tracks");
            } else {
                text = "Saved with ".to_owned();
                text.append(decimal_text(failures.len() as u64).as_str());
                text.append(" write error(s): ");
                text.append(failures[0].as_str());
            }
        } else {
            if failures.len() == 0 {
                text = "Saved track metadata".to_owned();
            } else {
                text = "Could not save: ".to_owned();
                text.append(failures[0].as_str());
            }
        }
        self.status = Some(text);
        assert(self@ =~= before.save_finished(order@, failures.deep_view(), scan@));
    }
}

} // verus!
