//! What opening, editing and saving metadata means, said of the rows, the
//! fields and the tracks.

use vstd::prelude::*;
use vstd::utf8::*;
use crate::albums::AlbumView;
use crate::browser::{AppView, Key, LibraryRow, ViewMode};
use crate::editor::{field_labels, EditorTarget, EditorView};
use crate::library::valid_release_date;
use crate::text::{lemma_bytes_before, lemma_chars_before};

verus! {

/// The albums that are looked at: by metadata or by folder.
pub open spec fn albums_in_view(app: AppView) -> Seq<AlbumView> {
    match app.view_mode {
        ViewMode::AlbumMetadata => app.albums,
        ViewMode::Folders => app.folder_albums,
    }
}

// ---------------------------------------------------------------------------
// Saving
// ---------------------------------------------------------------------------

/// Saving an editor on an album writes to the file of each of its tracks, in
/// their order: the album artist, the album title and the release date that
/// stand in the fields, and neither titles nor artists of tracks. The editor is
/// closed.
pub proof fn law_saving_an_album_reaches_every_track(
    app: AppView,
    editor: EditorView,
    album: usize,
)
    requires
        app.editor == Some(editor),
        editor.target == EditorTarget::Album(album),
        editor.values.len() == 3,
        valid_release_date(editor.values[2]),
    ensures
        app.saving() is Some,
        ({
            let order = app.saving()->0;
            let tracks = albums_in_view(app)[album as int].tracks;
            &&& order.paths.len() == tracks.len()
            &&& forall|i: int| 0 <= i < tracks.len() ==> #[trigger] order.paths[i] == tracks[i].path
            &&& order.album_artist == Some(editor.values[0])
            &&& order.album == editor.values[1]
            &&& order.release_date == editor.values[2]
            &&& order.title is None
            &&& order.artist is None
        }),
        app.editor_key(Key::Enter) == (AppView { editor: None, ..app }),
{
}

/// Saving an editor on a track writes to the file of that track alone: the
/// title, the artist, the album and the release date that stand in the fields,
/// and no album artist. The editor is closed.
pub proof fn law_saving_a_track_reaches_it(
    app: AppView,
    editor: EditorView,
    album: usize,
    track: usize,
)
    requires
        app.editor == Some(editor),
        editor.target == (EditorTarget::Track { album, track }),
        editor.values.len() == 4,
        valid_release_date(editor.values[3]),
    ensures
        app.saving() is Some,
        ({
            let order = app.saving()->0;
            &&& order.paths.len() == 1
            &&& order.paths[0] == albums_in_view(app)[album as int].tracks[track as int].path
            &&& order.title == Some(editor.values[0])
            &&& order.artist == Some(editor.values[1])
            &&& order.album_artist is None
            &&& order.album == editor.values[2]
            &&& order.release_date == editor.values[3]
        }),
        app.editor_key(Key::Enter) == (AppView { editor: None, ..app }),
{
}

/// An editor that is closed with Esc writes nothing, and leaves all else as it
/// is.
pub proof fn law_cancelled_edits_write_nothing(app: AppView)
    ensures
        app.editor_key(Key::Esc).saving() is None,
        app.editor_key(Key::Esc) == (AppView { editor: None, ..app }),
{
}

// ---------------------------------------------------------------------------
// Opening
// ---------------------------------------------------------------------------

proof fn lemma_fresh_editor(editor: EditorView)
    requires
        0 < editor.values.len() == editor.cursor_positions.len(),
        editor.active_field == 0,
        editor.cursor_positions[0] == encode_utf8(editor.values[0]).len(),
    ensures
        editor.position() == editor.values[0].len(),
{
    let value = editor.values[0];
    assert(value.take(value.len() as int) =~= value);
    lemma_chars_before(value, value.len() as int);
}

/// The editor of an album shows its artist, its title, and the release date of
/// its first track or nothing. Saving it unchanged writes these back.
pub proof fn law_editor_shows_the_album(app: AppView, album: usize)
    requires
        album < albums_in_view(app).len(),
        app.selected_row() == Some(
            match app.view_mode {
                ViewMode::AlbumMetadata => LibraryRow::Album(album),
                ViewMode::Folders => LibraryRow::FolderAlbum(album),
            },
        ),
        albums_in_view(app)[album as int].tracks.len() > 0,
        encode_utf8(albums_in_view(app)[album as int].artist).len() <= usize::MAX,
    ensures
        app.editor_opened().editor is Some,
        ({
            let editor = app.editor_opened().editor->0;
            let shown = albums_in_view(app)[album as int];
            let date = shown.tracks[0].release_date;
            &&& editor.target == EditorTarget::Album(album)
            &&& editor.values.len() == 3 == field_labels(editor.target).len()
            &&& editor.values[0] == shown.artist
            &&& editor.values[1] == shown.title
            &&& date is Some ==> editor.values[2] == date->0
            &&& date is None ==> editor.values[2].len() == 0
            &&& editor.active_field == 0
            &&& editor.position() == shown.artist.len()
            &&& date is Some && valid_release_date(date->0) ==> ({
                let order = app.editor_opened().saving();
                &&& order is Some
                &&& order->0.album_artist == Some(shown.artist)
                &&& order->0.album == shown.title
                &&& order->0.release_date == date->0
                &&& order->0.paths.len() == shown.tracks.len()
            })
        }),
        app.editor_opened().albums == app.albums,
        app.editor_opened().folder_albums == app.folder_albums,
{
    let editor = app.editor_opened().editor->0;
    lemma_fresh_editor(editor);
}

/// The editor of a track shows its title, its artist, its album, and its release
/// date or nothing. Saving it unchanged writes these back.
pub proof fn law_editor_shows_the_track(app: AppView, album: usize, track: usize)
    requires
        app.selected_row() == Some(LibraryRow::Track { album, track }),
        encode_utf8(albums_in_view(app)[album as int].tracks[track as int].title).len()
            <= usize::MAX,
    ensures
        app.editor_opened().editor is Some,
        ({
            let editor = app.editor_opened().editor->0;
            let shown = albums_in_view(app)[album as int].tracks[track as int];
            let date = shown.release_date;
            &&& editor.target == (EditorTarget::Track { album, track })
            &&& editor.values.len() == 4 == field_labels(editor.target).len()
            &&& editor.values[0] == shown.title
            &&& editor.values[1] == shown.artist
            &&& editor.values[2] == shown.album
            &&& date is Some ==> editor.values[3] == date->0
            &&& date is None ==> editor.values[3].len() == 0
            &&& editor.active_field == 0
            &&& editor.position() == shown.title.len()
            &&& date is Some && valid_release_date(date->0) ==> ({
                let order = app.editor_opened().saving();
                &&& order is Some
                &&& order->0.title == Some(shown.title)
                &&& order->0.artist == Some(shown.artist)
                &&& order->0.album == shown.album
                &&& order->0.release_date == date->0
                &&& order->0.paths == seq![shown.path]
            })
        }),
        app.editor_opened().albums == app.albums,
        app.editor_opened().folder_albums == app.folder_albums,
{
    let editor = app.editor_opened().editor->0;
    lemma_fresh_editor(editor);
}

/// No editor is opened on a group.
pub proof fn law_groups_are_not_edited(app: AppView)
    requires
        app.selected_row() is None || app.selected_row()->0 is FolderGroup,
    ensures
        app.editor_opened().editor == app.editor,
{
}

/// The fields of an editor are named after what saving writes from them.
pub proof fn law_fields_are_named(album: usize, track: usize)
    ensures
        field_labels(EditorTarget::Album(album)) == seq![
            "Album artist"@,
            "Album"@,
            "Release date"@,
        ],
        field_labels(EditorTarget::Track { album, track }) == seq![
            "Title"@,
            "Artist"@,
            "Album"@,
            "Release date"@,
        ],
{
}

// ---------------------------------------------------------------------------
// Editing
// ---------------------------------------------------------------------------

/// Characters, backspace, delete and the arrows edit the active field.
pub proof fn law_keys_of_the_editor(app: AppView, editor: EditorView, character: char)
    requires
        app.editor == Some(editor),
    ensures
        app.editor_key(Key::Char(character)) == (AppView {
            editor: Some(editor.typed(character)),
            ..app
        }),
        app.editor_key(Key::Backspace) == (AppView { editor: Some(editor.erased()), ..app }),
        app.editor_key(Key::Delete) == (AppView { editor: Some(editor.deleted()), ..app }),
        app.editor_key(Key::Left) == (AppView { editor: Some(editor.moved_left()), ..app }),
        app.editor_key(Key::Right) == (AppView { editor: Some(editor.moved_right()), ..app }),
{
}

/// Whether `before` and `after` are what stands before and behind the cursor of
/// the active field.
pub open spec fn stands_between(editor: EditorView, before: Seq<char>, after: Seq<char>) -> bool {
    &&& 0 <= editor.active_field < editor.values.len() == editor.cursor_positions.len()
    &&& editor.values[editor.active_field] == before + after
    &&& editor.cursor_positions[editor.active_field] == encode_utf8(before).len()
}

/// Whether two editors differ at most in the active field and its cursor.
pub open spec fn same_elsewhere(one: EditorView, other: EditorView) -> bool {
    &&& one.target == other.target
    &&& one.active_field == other.active_field
    &&& one.values.len() == other.values.len()
    &&& one.cursor_positions.len() == other.cursor_positions.len()
    &&& forall|i: int|
        0 <= i < one.values.len() && i != one.active_field ==> #[trigger] one.values[i]
            == other.values[i]
    &&& forall|i: int|
        0 <= i < one.values.len() && i != one.active_field ==> #[trigger] one.cursor_positions[i]
            == other.cursor_positions[i]
}

proof fn lemma_between(editor: EditorView, before: Seq<char>, after: Seq<char>)
    requires
        stands_between(editor, before, after),
    ensures
        editor.position() == before.len(),
        editor.value().take(before.len() as int) == before,
        editor.value().skip(before.len() as int) == after,
{
    let value = before + after;
    assert(value.take(before.len() as int) =~= before);
    assert(value.skip(before.len() as int) =~= after);
    lemma_chars_before(value, before.len() as int);
}

/// A typed character stands between what was before the cursor and what was
/// behind it, and the cursor stands behind the character. Only the active field
/// changes.
pub proof fn law_typing_inserts_at_the_cursor(
    editor: EditorView,
    before: Seq<char>,
    after: Seq<char>,
    character: char,
)
    requires
        stands_between(editor, before, after),
        encode_utf8(before.push(character)).len() <= usize::MAX,
    ensures
        stands_between(editor.typed(character), before.push(character), after),
        same_elsewhere(editor.typed(character), editor),
{
    lemma_between(editor, before, after);
    let longer = before.push(character);
    assert((longer + after).take((before.len() + 1) as int) =~= longer);
}

/// Backspace takes away the character before the cursor, and nothing at the
/// start of the field.
pub proof fn law_backspace_takes_the_character_before(
    editor: EditorView,
    before: Seq<char>,
    after: Seq<char>,
)
    requires
        stands_between(editor, before, after),
    ensures
        before.len() > 0 ==> stands_between(editor.erased(), before.drop_last(), after),
        before.len() == 0 ==> editor.erased() == editor,
        same_elsewhere(editor.erased(), editor),
{
    lemma_between(editor, before, after);
    if before.len() > 0 {
        let shorter = before.drop_last();
        assert(editor.value().take(before.len() - 1) =~= shorter);
        assert((shorter + after).take(before.len() - 1) =~= shorter);
        lemma_bytes_before(editor.value(), before.len() - 1, before.len() as int);
    }
}

/// Delete takes away the character behind the cursor, and nothing at the end of
/// the field.
pub proof fn law_delete_takes_the_character_behind(
    editor: EditorView,
    before: Seq<char>,
    after: Seq<char>,
)
    requires
        stands_between(editor, before, after),
    ensures
        after.len() > 0 ==> stands_between(editor.deleted(), before, after.skip(1)),
        after.len() == 0 ==> editor.deleted() == editor,
        same_elsewhere(editor.deleted(), editor),
{
    lemma_between(editor, before, after);
    if after.len() > 0 {
        let rest = after.skip(1);
        assert(editor.value().skip((before.len() + 1) as int) =~= rest);
        assert((before + rest).take(before.len() as int) =~= before);
    }
}

/// The cursor moves over one character to the left or to the right, and stays at
/// the ends of the field. No value changes.
pub proof fn law_cursor_moves_over_one_character(
    editor: EditorView,
    before: Seq<char>,
    after: Seq<char>,
)
    requires
        stands_between(editor, before, after),
        encode_utf8(before + after).len() <= usize::MAX,
    ensures
        before.len() > 0 ==> stands_between(
            editor.moved_left(),
            before.drop_last(),
            seq![before.last()] + after,
        ),
        before.len() == 0 ==> stands_between(editor.moved_left(), before, after),
        after.len() > 0 ==> stands_between(
            editor.moved_right(),
            before.push(after[0]),
            after.skip(1),
        ),
        after.len() == 0 ==> stands_between(editor.moved_right(), before, after),
        same_elsewhere(editor.moved_left(), editor),
        same_elsewhere(editor.moved_right(), editor),
        editor.moved_left().values == editor.values,
        editor.moved_right().values == editor.values,
{
    lemma_between(editor, before, after);
    let value = before + after;
    assert(editor.values.update(editor.active_field, value) =~= editor.values);
    assert(value.take(before.len() as int) =~= before);
    assert(value.take(value.len() as int) =~= value);
    if before.len() > 0 {
        assert(value.take(before.len() - 1) =~= before.drop_last());
        assert(before.drop_last() + (seq![before.last()] + after) =~= value);
        lemma_bytes_before(value, before.len() - 1, before.len() as int);
    }
    if after.len() > 0 {
        assert(value.take((before.len() + 1) as int) =~= before.push(after[0]));
        assert(before.push(after[0]) + after.skip(1) =~= value);
        lemma_bytes_before(value, (before.len() + 1) as int, value.len() as int);
    }
}

/// Tab and down go to the next field and from the last to the first; back tab
/// and up go the other way. The fields stay as they are.
pub proof fn law_focus_goes_round(app: AppView, editor: EditorView)
    requires
        app.editor == Some(editor),
        0 <= editor.active_field < editor.values.len(),
    ensures
        ({
            let next = app.editor_key(Key::Tab).editor;
            let previous = app.editor_key(Key::BackTab).editor;
            let last = editor.values.len() - 1;
            &&& app.editor_key(Key::Down).editor == next
            &&& app.editor_key(Key::Up).editor == previous
            &&& next is Some && next->0.values == editor.values
            &&& previous is Some && previous->0.values == editor.values
            &&& next->0.active_field == (if editor.active_field == last {
                0
            } else {
                editor.active_field + 1
            })
            &&& previous->0.active_field == (if editor.active_field == 0 {
                last
            } else {
                editor.active_field - 1
            })
        }),
{
    let count = editor.values.len() as int;
    let active = editor.active_field;
    if active + 1 < count {
        vstd::arithmetic::div_mod::lemma_small_mod((active + 1) as nat, count as nat);
    } else {
        vstd::arithmetic::div_mod::lemma_mod_self_0(count);
    }
    if active > 0 {
        vstd::arithmetic::div_mod::lemma_small_mod((active - 1) as nat, count as nat);
    } else {
        vstd::arithmetic::div_mod::lemma_mod_add_multiples_vanish(-1, count);
        vstd::arithmetic::div_mod::lemma_small_mod((count - 1) as nat, count as nat);
    }
}

} // verus!
