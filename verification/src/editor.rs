//! The editor for the metadata of an album or a track.

use vstd::prelude::*;
use crate::text::{byte_offset, char_offset, chars_of, string_of};
use crate::text::{bytes_before, chars_before, lemma_chars_before, on_boundary};

verus! {

/// What an editor edits.
#[derive(Clone, Copy, Debug, PartialEq, Eq, Structural)]
pub enum EditorTarget {
    Album(usize),
    Track { album: usize, track: usize },
}

/// An editor: the values of its fields, the field that is edited, and the place
/// of the cursor in each field, in bytes.
pub struct MetadataEditor {
    pub target: EditorTarget,
    pub values: Vec<String>,
    pub active_field: usize,
    pub cursor_positions: Vec<usize>,
}

/// What an editor holds.
#[verifier::ext_equal]
pub struct EditorView {
    pub target: EditorTarget,
    pub values: Seq<Seq<char>>,
    pub active_field: int,
    pub cursor_positions: Seq<usize>,
}

impl View for MetadataEditor {
    type V = EditorView;

    open spec fn view(&self) -> EditorView {
        EditorView {
            target: self.target,
            values: self.values.deep_view(),
            active_field: self.active_field as int,
            cursor_positions: self.cursor_positions@,
        }
    }
}

impl DeepView for MetadataEditor {
    type V = EditorView;

    open spec fn deep_view(&self) -> EditorView {
        self@
    }
}

/// The names of the fields of an editor.
pub open spec fn field_labels(target: EditorTarget) -> Seq<Seq<char>> {
    match target {
        EditorTarget::Album(_) => seq!["Album artist"@, "Album"@, "Release date"@],
        EditorTarget::Track { .. } => seq!["Title"@, "Artist"@, "Album"@, "Release date"@],
    }
}

impl EditorView {
    /// Whether each field has a cursor that stands between two characters or at
    /// an end of its value, and one of the fields is the active one.
    pub open spec fn wf(self) -> bool {
        &&& 0 <= self.active_field < self.values.len()
        &&& self.cursor_positions.len() == self.values.len()
        &&& forall|field: int|
            0 <= field < self.values.len() ==> on_boundary(
                #[trigger] self.values[field],
                self.cursor_positions[field] as nat,
            )
    }

    /// The value of the active field.
    pub open spec fn value(self) -> Seq<char> {
        self.values[self.active_field]
    }

    /// How many characters of the active field stand before its cursor.
    pub open spec fn position(self) -> int {
        chars_before(self.value(), self.cursor_positions[self.active_field] as nat)
    }

    /// The editor with another value in the active field and `count` characters
    /// of it before the cursor.
    pub open spec fn edited(self, value: Seq<char>, count: int) -> EditorView {
        EditorView {
            values: self.values.update(self.active_field, value),
            cursor_positions: self.cursor_positions.update(
                self.active_field,
                bytes_before(value, count) as usize,
            ),
            ..self
        }
    }

    /// The editor after `character` was typed.
    pub open spec fn typed(self, character: char) -> EditorView {
        let at = self.position();
        self.edited(self.value().take(at).push(character) + self.value().skip(at), at + 1)
    }

    /// The editor after the cursor moved left.
    pub open spec fn moved_left(self) -> EditorView {
        let at = self.position();
        self.edited(
            self.value(),
            if at > 0 {
                at - 1
            } else {
                0
            },
        )
    }

    /// The editor after the cursor moved right.
    pub open spec fn moved_right(self) -> EditorView {
        let at = self.position();
        self.edited(
            self.value(),
            if at < self.value().len() {
                at + 1
            } else {
                at
            },
        )
    }

    /// The editor after the character before the cursor was removed.
    pub open spec fn erased(self) -> EditorView {
        let at = self.position();
        if at == 0 {
            self
        } else {
            self.edited(self.value().take(at - 1) + self.value().skip(at), at - 1)
        }
    }

    /// The editor after the character behind the cursor was removed.
    pub open spec fn deleted(self) -> EditorView {
        let at = self.position();
        if at == self.value().len() {
            self
        } else {
            self.edited(self.value().take(at) + self.value().skip(at + 1), at)
        }
    }

    /// The editor with the field `direction` further as the active one, the
    /// first behind the last.
    pub open spec fn focused(self, direction: int) -> EditorView {
        EditorView {
            active_field: (self.active_field + direction) % (self.values.len() as int),
            ..self
        }
    }

    /// The value of the last field, which is the release date.
    pub open spec fn release_date(self) -> Seq<char> {
        self.values.last()
    }
}

/// The cursor of a well-formed editor stands in its active field.
proof fn lemma_position(editor: EditorView)
    requires
        editor.wf(),
    ensures
        0 <= editor.position() <= editor.value().len(),
        editor.cursor_positions[editor.active_field] == bytes_before(
            editor.value(),
            editor.position(),
        ),
{
    let value = editor.values[editor.active_field];
    assert(on_boundary(value, editor.cursor_positions[editor.active_field] as nat));
}

/// What an edit leaves: a well-formed editor whose cursor stands where it was
/// put.
proof fn lemma_edited(editor: EditorView, value: Seq<char>, count: int)
    requires
        editor.wf(),
        0 <= count <= value.len(),
        bytes_before(value, count) <= usize::MAX,
    ensures
        editor.edited(value, count).wf(),
        editor.edited(value, count).value() == value,
        editor.edited(value, count).position() == count,
        editor.edited(value, count).active_field == editor.active_field,
{
    lemma_chars_before(value, count);
    let after = editor.edited(value, count);
    assert forall|field: int| 0 <= field < after.values.len() implies on_boundary(
        #[trigger] after.values[field],
        after.cursor_positions[field] as nat,
    ) by {
        if field != editor.active_field {
            assert(after.values[field] == editor.values[field]);
        }
    }
}

/// Backspace takes back what was typed.
pub proof fn law_backspace_undoes_typing(editor: EditorView, character: char)
    requires
        editor.wf(),
        bytes_before(editor.typed(character).value(), editor.position() + 1) <= usize::MAX,
    ensures
        editor.typed(character).wf(),
        editor.typed(character).erased() == editor,
{
    lemma_position(editor);
    let at = editor.position();
    let value = editor.value();
    let longer = value.take(at).push(character) + value.skip(at);
    lemma_edited(editor, longer, at + 1);
    let typed = editor.typed(character);
    assert(longer.take(at) + longer.skip(at + 1) =~= value);
    assert(typed.erased() =~= editor) by {
        assert(typed.erased().values =~= editor.values);
        assert(typed.erased().cursor_positions =~= editor.cursor_positions);
    }
}

/// Delete takes back what was typed, once the cursor is back before it.
pub proof fn law_delete_undoes_typing(editor: EditorView, character: char)
    requires
        editor.wf(),
        bytes_before(editor.typed(character).value(), editor.position() + 1) <= usize::MAX,
    ensures
        editor.typed(character).moved_left().deleted() == editor,
{
    lemma_position(editor);
    let at = editor.position();
    let value = editor.value();
    let longer = value.take(at).push(character) + value.skip(at);
    lemma_edited(editor, longer, at + 1);
    let typed = editor.typed(character);
    crate::text::lemma_bytes_before(longer, at, at + 1);
    lemma_edited(typed, longer, at);
    let left = typed.moved_left();
    assert(longer.take(at) + longer.skip(at + 1) =~= value);
    assert(longer.take(at) =~= value.take(at));
    assert(left.deleted() =~= editor) by {
        assert(left.deleted().values =~= editor.values);
        assert(left.deleted().cursor_positions =~= editor.cursor_positions);
    }
}

/// Moving the cursor right and left again, where it can move, leaves the editor
/// as it was, and so does moving it left and right again.
pub proof fn law_cursor_moves_back(editor: EditorView)
    requires
        editor.wf(),
        bytes_before(editor.value(), editor.value().len() as int) <= usize::MAX,
    ensures
        editor.position() < editor.value().len() ==> editor.moved_right().moved_left() == editor,
        0 < editor.position() ==> editor.moved_left().moved_right() == editor,
{
    lemma_position(editor);
    let at = editor.position();
    let value = editor.value();
    if at < value.len() {
        crate::text::lemma_bytes_before(value, at + 1, value.len() as int);
        lemma_edited(editor, value, at + 1);
        assert(editor.moved_right().moved_left().values =~= editor.values);
        assert(editor.moved_right().moved_left().cursor_positions =~= editor.cursor_positions);
    }
    if 0 < at {
        crate::text::lemma_bytes_before(value, at - 1, at);
        lemma_edited(editor, value, at - 1);
        assert(editor.moved_left().moved_right().values =~= editor.values);
        assert(editor.moved_left().moved_right().cursor_positions =~= editor.cursor_positions);
    }
}

/// Moving the focus on and back leaves the editor as it was.
pub proof fn law_focus_moves_back(editor: EditorView, direction: int)
    requires
        editor.wf(),
    ensures
        editor.focused(direction).focused(-direction) == editor,
{
    let count = editor.values.len() as int;
    let start = editor.active_field;
    let moved = (start + direction) % count;
    vstd::arithmetic::div_mod::lemma_fundamental_div_mod(start + direction, count);
    let turns = (start + direction) / count;
    vstd::arithmetic::div_mod::lemma_mod_multiples_vanish(-turns, start, count);
    assert(moved - direction == count * (-turns) + start) by (nonlinear_arith)
        requires
            start + direction == count * turns + moved,
    ;
    vstd::arithmetic::div_mod::lemma_small_mod(start as nat, count as nat);
}

impl MetadataEditor {
    /// The names of the fields.
    pub fn labels(&self) -> (labels: Vec<&'static str>)
        ensures
            labels.deep_view() == field_labels(self@.target),
    {
        let labels = match self.target {
            EditorTarget::Album(_) => vec!["Album artist", "Album", "Release date"],
            EditorTarget::Track { .. } => vec!["Title", "Artist", "Album", "Release date"],
        };
        assert(labels.deep_view() =~= field_labels(self@.target));
        labels
    }

    /// Makes the field `direction` further the active one, the first behind the
    /// last.
    pub fn move_focus(&mut self, direction: isize)
        requires
            old(self)@.wf(),
        ensures
            final(self)@ == old(self)@.focused(direction as int),
            final(self)@.wf(),
    {
        let count: i128 = self.values.len() as i128;
        let ghost n = count as int;
        let reached: i128 = self.active_field as i128 + direction as i128;
        let next: i128 = if reached >= 0 {
            reached % count
        } else {
            let back: i128 = (-reached) % count;
            proof {
                let turns = (-reached) / n;
                vstd::arithmetic::div_mod::lemma_fundamental_div_mod(-reached, n);
                vstd::arithmetic::div_mod::lemma_mod_multiples_vanish(-turns, -back as int, n);
                assert(reached == n * (-turns) + (-back)) by (nonlinear_arith)
                    requires
                        -reached == n * turns + back,
                ;
                vstd::arithmetic::div_mod::lemma_mod_add_multiples_vanish(-back as int, n);
                if back > 0 {
                    vstd::arithmetic::div_mod::lemma_small_mod((n - back) as nat, n as nat);
                } else {
                    vstd::arithmetic::div_mod::lemma_small_mod(0, n as nat);
                }
            }
            if back == 0 {
                0
            } else {
                count - back
            }
        };
        self.active_field = next as usize;
        assert(self@ =~= old(self)@.focused(direction as int));
    }

    /// Types a character at the cursor of the active field.
    pub fn insert(&mut self, character: char)
        requires
            old(self)@.wf(),
        ensures
            final(self)@ == old(self)@.typed(character),
            final(self)@.wf(),
    {
        let (chars, at) = self.active_chars();
        let mut longer: Vec<char> = Vec::new();
        copy_chars(&chars, 0, at, &mut longer);
        longer.push(character);
        copy_chars(&chars, at, chars.len(), &mut longer);
        proof {
            let value = old(self)@.value();
            assert(longer@ =~= value.take(at as int).push(character) + value.skip(at as int));
            assert(at < longer.len());
        }
        self.replace(longer, at + 1);
    }

    /// Moves the cursor before the character that it stands behind.
    pub fn move_cursor_left(&mut self)
        requires
            old(self)@.wf(),
        ensures
            final(self)@ == old(self)@.moved_left(),
            final(self)@.wf(),
    {
        let (chars, at) = self.active_chars();
        let target: usize = if at > 0 {
            at - 1
        } else {
            0
        };
        self.replace(chars, target);
    }

    /// Moves the cursor behind the character that it stands before.
    pub fn move_cursor_right(&mut self)
        requires
            old(self)@.wf(),
        ensures
            final(self)@ == old(self)@.moved_right(),
            final(self)@.wf(),
    {
        let (chars, at) = self.active_chars();
        let target: usize = if at < chars.len() {
            at + 1
        } else {
            at
        };
        self.replace(chars, target);
    }

    /// Removes the character before the cursor.
    pub fn backspace(&mut self)
        requires
            old(self)@.wf(),
        ensures
            final(self)@ == old(self)@.erased(),
            final(self)@.wf(),
    {
        let (chars, at) = self.active_chars();
        if at == 0 {
            return;
        }
        let mut shorter: Vec<char> = Vec::new();
        copy_chars(&chars, 0, at - 1, &mut shorter);
        copy_chars(&chars, at, chars.len(), &mut shorter);
        proof {
            let value = old(self)@.value();
            assert(shorter@ =~= value.take(at - 1) + value.skip(at as int));
        }
        self.replace(shorter, at - 1);
    }

    /// Removes the character behind the cursor.
    pub fn delete(&mut self)
        requires
            old(self)@.wf(),
        ensures
            final(self)@ == old(self)@.deleted(),
            final(self)@.wf(),
    {
        let (chars, at) = self.active_chars();
        if at == chars.len() {
            return;
        }
        let mut shorter: Vec<char> = Vec::new();
        copy_chars(&chars, 0, at, &mut shorter);
        copy_chars(&chars, at + 1, chars.len(), &mut shorter);
        proof {
            let value = old(self)@.value();
            assert(shorter@ =~= value.take(at as int) + value.skip(at + 1));
        }
        self.replace(shorter, at);
    }

    /// The place of the cursor in the active field, in bytes.
    pub fn cursor(&self) -> (cursor: usize)
        requires
            self@.wf(),
        ensures
            cursor == self@.cursor_positions[self@.active_field],
            cursor == bytes_before(self@.value(), self@.position()),
    {
        proof {
            lemma_position(self@);
        }
        self.cursor_positions[self.active_field]
    }

    /// The release date: the value of the last field.
    pub fn release_date(&self) -> (date: &str)
        requires
            self@.values.len() > 0,
        ensures
            date@ == self@.release_date(),
    {
        self.values[self.values.len() - 1].as_str()
    }

    /// The characters of the active field, and how many of them stand before
    /// the cursor.
    pub(crate) fn active_chars(&self) -> (result: (Vec<char>, usize))
        requires
            self@.wf(),
        ensures
            result.0@ == self@.value(),
            result.1 == self@.position(),
            result.1 <= result.0@.len(),
    {
        proof {
            lemma_position(self@);
            assert(on_boundary(
                self@.values[self@.active_field],
                self.cursor_positions@[self.active_field as int] as nat,
            ));
        }
        let chars = chars_of(self.values[self.active_field].as_str());
        let at = char_offset(&chars, self.cursor_positions[self.active_field]);
        (chars, at)
    }

    fn replace(&mut self, chars: Vec<char>, count: usize)
        requires
            old(self)@.wf(),
            count <= chars@.len(),
        ensures
            final(self)@ == old(self)@.edited(chars@, count as int),
            final(self)@.wf(),
    {
        let field = self.active_field;
        let place = byte_offset(&chars, count);
        self.values[field] = string_of(&chars);
        self.cursor_positions[field] = place;
        proof {
            lemma_edited(old(self)@, chars@, count as int);
            assert(self@.values =~= old(self)@.values.update(field as int, chars@));
            assert(self@ =~= old(self)@.edited(chars@, count as int));
        }
    }
}

fn copy_chars(source: &Vec<char>, start: usize, end: usize, target: &mut Vec<char>)
    requires
        start <= end <= source@.len(),
    ensures
        final(target)@ == old(target)@ + source@.subrange(start as int, end as int),
{
    let mut i: usize = start;
    while i < end
        invariant
            start <= i <= end <= source@.len(),
            target@ == old(target)@ + source@.subrange(start as int, i as int),
        decreases end - i,
    {
        target.push(source[i]);
        assert(target@ =~= old(target)@ + source@.subrange(start as int, i + 1));
        i += 1;
    }
}

} // verus!
