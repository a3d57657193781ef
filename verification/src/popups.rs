//! The dialogs over the library: where each stands, and what its lines say.

use vstd::prelude::*;
use crate::browser::TrackFilter;
use crate::conversion::CompletedConversion;
use crate::editor::MetadataEditor;
use crate::format::{compact_preview_path, line_width};
use crate::library::is_valid_release_date;
use crate::path::FilePath;
use crate::preview::{ConversionPlan, ConversionPlanStatus, ConversionPreview};
use crate::preview::{ConversionProgress, ConversionResult};
use crate::preview::{RenamePlan, RenamePreview, RenameStatus};
use crate::text::{decimal_text, same_text, text_between};
use crate::time::Duration;
use crate::browser::{filter_label, filter_option};
use crate::conversion::CompletedView;
use crate::editor::{field_labels, EditorView};
use crate::format::{compacted, display_width};
use crate::library::valid_release_date;
use crate::path::PathView;
use crate::preview::{conversions_complete, ready_renames, renames_complete, sources_where};
use crate::preview::{ConversionPlanView, ConversionPreviewView, ProgressView};
use crate::preview::{RenamePlanView, RenamePreviewView, ResultView};
use crate::text::decimal;

verus! {

// ---------------------------------------------------------------------------
// Areas and lines
// ---------------------------------------------------------------------------

/// A part of the screen.
#[derive(Clone, Copy, Debug, PartialEq, Eq, Structural)]
pub struct Area {
    pub x: u16,
    pub y: u16,
    pub width: u16,
    pub height: u16,
}

/// How a text is shown.
#[derive(Clone, Copy, Debug, PartialEq, Eq, Structural)]
pub enum Tone {
    Plain,
    Green,
    Red,
    RedBold,
    CyanBold,
    MagentaBold,
    YellowBold,
    BlackOnCyanBold,
    BlackOnYellowBold,
    BlackOnLightYellowBold,
}

/// A line of text and how it is shown.
#[derive(Debug)]
pub struct TextLine {
    pub text: String,
    pub tone: Tone,
}

/// What a line says.
#[verifier::ext_equal]
pub struct LineView {
    pub text: Seq<char>,
    pub tone: Tone,
}

impl View for TextLine {
    type V = LineView;

    open spec fn view(&self) -> LineView {
        LineView { text: self.text@, tone: self.tone }
    }
}

impl DeepView for TextLine {
    type V = LineView;

    open spec fn deep_view(&self) -> LineView {
        self@
    }
}

/// A dialog: where it stands, its title and its lines.
pub struct Popup {
    pub area: Area,
    pub title: &'static str,
    pub lines: Vec<TextLine>,
}

/// What a dialog says.
#[verifier::ext_equal]
pub struct PopupView {
    pub area: Area,
    pub title: Seq<char>,
    pub lines: Seq<LineView>,
}

impl View for Popup {
    type V = PopupView;

    open spec fn view(&self) -> PopupView {
        PopupView { area: self.area, title: self.title@, lines: self.lines.deep_view() }
    }
}

impl DeepView for Popup {
    type V = PopupView;

    open spec fn deep_view(&self) -> PopupView {
        self@
    }
}

/// Whether an area ends where it can be counted.
pub open spec fn area_fits(area: Area) -> bool {
    area.x + area.width <= u16::MAX && area.y + area.height <= u16::MAX
}

/// What is left of `value` after `taken`, or nothing.
pub open spec fn less(value: int, taken: int) -> int {
    if value > taken {
        value - taken
    } else {
        0
    }
}

/// The smaller of two numbers.
pub open spec fn lesser(left: int, right: int) -> int {
    if left <= right {
        left
    } else {
        right
    }
}

/// The larger of two numbers.
pub open spec fn larger(left: int, right: int) -> int {
    if left >= right {
        left
    } else {
        right
    }
}

/// The part of `area`, of this size, in its middle.
pub open spec fn centered(area: Area, width: int, height: int) -> Area {
    Area {
        x: (area.x + less(area.width as int, width) / 2) as u16,
        y: (area.y + less(area.height as int, height) / 2) as u16,
        width: width as u16,
        height: height as u16,
    }
}

/// A dialog stands inside the screen wherever it is not larger.
pub proof fn law_centered_is_inside(area: Area, width: u16, height: u16)
    requires
        area_fits(area),
        width <= area.width,
        height <= area.height,
    ensures
        area.x <= centered(area, width as int, height as int).x,
        area.y <= centered(area, width as int, height as int).y,
        centered(area, width as int, height as int).x + width <= area.x + area.width,
        centered(area, width as int, height as int).y + height <= area.y + area.height,
{
}

fn minus(value: u16, taken: u16) -> (left: u16)
    ensures
        left == less(value as int, taken as int),
{
    if value > taken {
        value - taken
    } else {
        0
    }
}

fn min16(left: u16, right: u16) -> (least: u16)
    ensures
        least == lesser(left as int, right as int),
{
    if left <= right {
        left
    } else {
        right
    }
}

fn max16(left: u16, right: u16) -> (most: u16)
    ensures
        most == larger(left as int, right as int),
{
    if left >= right {
        left
    } else {
        right
    }
}

fn center(area: Area, width: u16, height: u16) -> (popup: Area)
    requires
        area_fits(area),
    ensures
        popup == centered(area, width as int, height as int),
{
    Area {
        x: area.x + minus(area.width, width) / 2,
        y: area.y + minus(area.height, height) / 2,
        width,
        height,
    }
}

/// A plain line.
pub open spec fn plain(text: Seq<char>) -> LineView {
    LineView { text, tone: Tone::Plain }
}

pub(crate) fn push_line(lines: &mut Vec<TextLine>, text: String, tone: Tone)
    ensures
        final(lines).deep_view() == old(lines).deep_view().push(LineView { text: text@, tone }),
{
    let ghost before = lines.deep_view();
    let ghost view = LineView { text: text@, tone };
    lines.push(TextLine { text, tone });
    assert(lines.deep_view() =~= before.push(view));
}

fn push_number(text: &mut String, number: usize)
    ensures
        final(text)@ == old(text)@ + decimal(number as nat),
{
    text.append(decimal_text(number as u64).as_str());
}

/// `label` and then `text`.
pub(crate) fn labelled(label: &str, text: &str) -> (line: String)
    ensures
        line@ == label@ + text@,
{
    let mut line = label.to_owned();
    line.append(text);
    line
}

// ---------------------------------------------------------------------------
// Lists in dialogs
// ---------------------------------------------------------------------------

/// How many entries of two lines fit between the frame and the other lines of a
/// dialog, of which there are `fixed` with the frame: at least one.
pub open spec fn capacity(area: Area, fixed: int) -> int {
    larger(less(less(area.height as int, 4), fixed) / 2, 1)
}

/// The first entry that is shown of a list that is scrolled.
pub open spec fn window_start(scroll: int, count: int, capacity: int) -> int {
    lesser(scroll, less(count, capacity))
}

/// How many entries are shown.
pub open spec fn window_len(scroll: int, count: int, capacity: int) -> int {
    lesser(less(count, window_start(scroll, count, capacity)), capacity)
}

/// The height of a dialog of this many entries.
pub open spec fn list_height(area: Area, entries: int, fixed: int) -> int {
    larger(lesser(entries * 2 + fixed, less(area.height as int, 4)), 5)
}

/// The area of a dialog with a list.
pub open spec fn list_area(area: Area, entries: int, fixed: int) -> Area {
    centered(
        area,
        lesser(110, less(area.width as int, 4)),
        list_height(area, entries, fixed),
    )
}

/// The lines of `count` entries, from `start` on.
pub open spec fn stacked(entry: spec_fn(int) -> Seq<LineView>, start: int, count: int) -> Seq<
    LineView,
>
    decreases count,
{
    if count <= 0 {
        Seq::empty()
    } else {
        stacked(entry, start, count - 1) + entry(start + count - 1)
    }
}

/// However a list is scrolled, as many entries are shown as fit, or all, and
/// none that is not there.
pub proof fn law_window_is_full(scroll: int, count: int, capacity: int)
    requires
        0 <= scroll,
        0 <= count,
        0 < capacity,
    ensures
        0 <= window_start(scroll, count, capacity),
        window_start(scroll, count, capacity) + window_len(scroll, count, capacity) <= count,
        window_len(scroll, count, capacity) == lesser(count, capacity),
{
}

fn window(area: Area, fixed: u16, scroll: usize, count: usize) -> (window: (usize, usize))
    requires
        6 <= fixed <= 7,
    ensures
        window.0 == window_start(scroll as int, count as int, capacity(area, fixed as int)),
        window.1 == window_len(scroll as int, count as int, capacity(area, fixed as int)),
        window.0 + window.1 <= count,
        window.0 < usize::MAX,
        window.1 * 2 + fixed <= u16::MAX,
{
    let fitting: u16 = minus(minus(area.height, 4), fixed) / 2;
    let capacity: usize = max16(fitting, 1) as usize;
    let last: usize = if count > capacity {
        count - capacity
    } else {
        0
    };
    let start: usize = if scroll <= last {
        scroll
    } else {
        last
    };
    let left: usize = count - start;
    let shown: usize = if left <= capacity {
        left
    } else {
        capacity
    };
    (start, shown)
}

fn list_popup_area(area: Area, entries: usize, fixed: u16) -> (popup: Area)
    requires
        area_fits(area),
        entries * 2 + fixed <= u16::MAX,
    ensures
        popup == list_area(area, entries as int, fixed as int),
{
    let width: u16 = min16(110, minus(area.width, 4));
    let wanted: u16 = entries as u16 * 2 + fixed;
    let height: u16 = max16(min16(wanted, minus(area.height, 4)), 5);
    center(area, width, height)
}

/// The end of a line that says which entries are shown.
pub open spec fn showing(start: int, shown: int, count: int) -> Seq<char> {
    decimal((start + 1) as nat) + "–"@ + decimal((start + shown) as nat) + " of "@ + decimal(
        count as nat,
    )
}

fn push_showing(text: &mut String, start: usize, shown: usize, count: usize)
    requires
        start < usize::MAX,
        start + shown <= count,
    ensures
        final(text)@ == old(text)@ + showing(start as int, shown as int, count as int),
{
    let ghost before = text@;
    push_number(text, start + 1);
    text.append("–");
    push_number(text, start + shown);
    text.append(" of ");
    push_number(text, count);
    assert(text@ =~= before + showing(start as int, shown as int, count as int));
}

// ---------------------------------------------------------------------------
// The filter menu
// ---------------------------------------------------------------------------

/// The name of an entry of the filter menu.
pub open spec fn option_label(index: int) -> Seq<char> {
    match filter_option(index) {
        Some(filter) => filter_label(filter),
        None => "All tracks"@,
    }
}

/// The line of an entry of the filter menu.
pub open spec fn option_line(index: int, selected: usize) -> LineView {
    if index == selected {
        LineView { text: " > "@ + option_label(index), tone: Tone::BlackOnCyanBold }
    } else {
        plain("   "@ + option_label(index))
    }
}

/// The filter menu.
pub open spec fn filter_dialog(area: Area, selected: usize) -> PopupView {
    PopupView {
        area: centered(
            area,
            lesser(42, less(area.width as int, 4)),
            lesser(9, less(area.height as int, 4)),
        ),
        title: " Filter "@,
        lines: seq![
            plain("Choose a track filter:"@),
            plain(""@),
            option_line(0, selected),
            option_line(1, selected),
            option_line(2, selected),
            plain(""@),
            plain("New uses the file modification time from the last 14 days."@),
        ],
    }
}

/// The filter menu over `area`.
pub fn filter_popup(area: Area, selected: usize) -> (popup: Popup)
    requires
        area_fits(area),
    ensures
        popup@ == filter_dialog(area, selected),
{
    let place = center(
        area,
        min16(42, minus(area.width, 4)),
        min16(9, minus(area.height, 4)),
    );
    let mut lines: Vec<TextLine> = Vec::new();
    push_line(&mut lines, "Choose a track filter:".to_owned(), Tone::Plain);
    push_line(&mut lines, "".to_owned(), Tone::Plain);
    push_option(&mut lines, 0, selected);
    push_option(&mut lines, 1, selected);
    push_option(&mut lines, 2, selected);
    push_line(&mut lines, "".to_owned(), Tone::Plain);
    push_line(
        &mut lines,
        "New uses the file modification time from the last 14 days.".to_owned(),
        Tone::Plain,
    );
    let popup = Popup { area: place, title: " Filter ", lines };
    assert(popup@.lines =~= filter_dialog(area, selected).lines);
    popup
}

fn push_option(lines: &mut Vec<TextLine>, index: usize, selected: usize)
    requires
        index < 3,
    ensures
        final(lines).deep_view() == old(lines).deep_view().push(
            option_line(index as int, selected),
        ),
{
    let label = match TrackFilter::option(index) {
        Some(filter) => filter.label(),
        None => "All tracks",
    };
    if index == selected {
        push_line(lines, labelled(" > ", label), Tone::BlackOnCyanBold);
    } else {
        push_line(lines, labelled("   ", label), Tone::Plain);
    }
}

// ---------------------------------------------------------------------------
// Renaming
// ---------------------------------------------------------------------------

/// The lines of one file in the rename preview.
pub open spec fn rename_lines(plan: RenamePlanView) -> Seq<LineView> {
    let source = compacted(plan.source).shown();
    match plan.status {
        RenameStatus::Ready => seq![
            plain("RENAME  "@ + source),
            plain("    →   "@ + compacted(plan.target.unwrap()).shown()),
        ],
        RenameStatus::Unchanged => seq![
            plain("KEEP    "@ + source + " (already matches)"@),
            plain(""@),
        ],
        RenameStatus::MissingTrackNumber => seq![
            plain("SKIP    "@ + source + " (missing track number)"@),
            plain(""@),
        ],
        RenameStatus::Conflict => seq![
            plain("SKIP    "@ + source),
            plain(
                "    →   "@ + compacted(plan.target.unwrap()).shown()
                    + " (target already exists or is duplicated)"@,
            ),
        ],
    }
}

/// The rename preview as a dialog.
pub open spec fn rename_dialog(area: Area, preview: RenamePreviewView) -> PopupView {
    let count = preview.plans.len() as int;
    let room = capacity(area, 6);
    let start = window_start(preview.scroll as int, count, room);
    let shown = window_len(preview.scroll as int, count, room);
    PopupView {
        area: list_area(area, shown, 6),
        title: " Review rename "@,
        lines: seq![
            plain(
                decimal(ready_renames(preview.plans)) + " track(s) ready · "@ + decimal(
                    (count - ready_renames(preview.plans)) as nat,
                ) + " skipped · showing "@ + showing(start, shown, count),
            ),
        ] + stacked(|i: int| rename_lines(preview.plans[i]), start, shown) + seq![
            plain(""@),
            plain("↑/k ↓/j review · y confirm rename · Esc keep current names"@),
        ],
    }
}

fn push_rename_lines(lines: &mut Vec<TextLine>, plan: &RenamePlan)
    requires
        plan@.status == RenameStatus::Ready || plan@.status == RenameStatus::Conflict
            ==> plan@.target is Some,
    ensures
        final(lines).deep_view() == old(lines).deep_view() + rename_lines(plan@),
{
    let ghost before = lines.deep_view();
    let source = compact_preview_path(&plan.source);
    match plan.status {
        RenameStatus::Ready => {
            push_line(lines, labelled("RENAME  ", source.as_str()), Tone::Plain);
            match &plan.target {
                Some(target) => push_line(
                    lines,
                    labelled("    →   ", compact_preview_path(target).as_str()),
                    Tone::Plain,
                ),
                None => {},
            }
        },
        RenameStatus::Unchanged => {
            let mut text = labelled("KEEP    ", source.as_str());
            text.append(" (already matches)");
            push_line(lines, text, Tone::Plain);
            push_line(lines, "".to_owned(), Tone::Plain);
        },
        RenameStatus::MissingTrackNumber => {
            let mut text = labelled("SKIP    ", source.as_str());
            text.append(" (missing track number)");
            push_line(lines, text, Tone::Plain);
            push_line(lines, "".to_owned(), Tone::Plain);
        },
        RenameStatus::Conflict => {
            push_line(lines, labelled("SKIP    ", source.as_str()), Tone::Plain);
            match &plan.target {
                Some(target) => {
                    let mut text = labelled("    →   ", compact_preview_path(target).as_str());
                    text.append(" (target already exists or is duplicated)");
                    push_line(lines, text, Tone::Plain);
                },
                None => {},
            }
        },
    }
    assert(lines.deep_view() =~= before + rename_lines(plan@));
}

/// The rename preview as a dialog over `area`.
pub fn rename_popup(area: Area, preview: &RenamePreview) -> (popup: Popup)
    requires
        area_fits(area),
        renames_complete(preview@.plans),
    ensures
        popup@ == rename_dialog(area, preview@),
{
    let ghost plans = preview@.plans;
    let count = preview.plans.len();
    let (start, shown) = window(area, 6, preview.scroll, count);
    let ready = preview.ready_count();
    let mut lines: Vec<TextLine> = Vec::new();
    let mut text = decimal_text(ready as u64);
    text.append(" track(s) ready · ");
    push_number(&mut text, preview.skipped_count());
    text.append(" skipped · showing ");
    push_showing(&mut text, start, shown, count);
    push_line(&mut lines, text, Tone::Plain);
    let ghost head = lines.deep_view();
    let ghost entry = |i: int| rename_lines(plans[i]);
    let mut k: usize = 0;
    assert(lines.deep_view() =~= head + stacked(entry, start as int, 0));
    while k < shown
        invariant
            k <= shown,
            start + shown <= count,
            count == preview.plans@.len(),
            plans == preview.plans.deep_view(),
            renames_complete(plans),
            entry == |i: int| rename_lines(plans[i]),
            lines.deep_view() == head + stacked(entry, start as int, k as int),
        decreases shown - k,
    {
        assert(plans[start + k] == preview.plans@[start + k]@);
        push_rename_lines(&mut lines, &preview.plans[start + k]);
        assert(lines.deep_view() =~= head + stacked(entry, start as int, k + 1));
        k += 1;
    }
    push_line(&mut lines, "".to_owned(), Tone::Plain);
    push_line(
        &mut lines,
        "↑/k ↓/j review · y confirm rename · Esc keep current names".to_owned(),
        Tone::Plain,
    );
    let popup = Popup { area: list_popup_area(area, shown, 6), title: " Review rename ", lines };
    proof {
        let dialog = rename_dialog(area, preview@);
        assert(head =~= dialog.lines.take(1));
        assert(popup@.lines =~= dialog.lines);
    }
    popup
}

// ---------------------------------------------------------------------------
// Deleting originals
// ---------------------------------------------------------------------------

/// The lines of one conversion whose original is to be deleted.
pub open spec fn delete_lines(completed: CompletedView) -> Seq<LineView> {
    seq![
        plain("DELETE  "@ + completed.original.shown()),
        plain("KEEP    "@ + completed.output.shown()),
    ]
}

/// The confirmation of the deletion of originals.
pub open spec fn delete_dialog(area: Area, completed: Seq<CompletedView>, scroll: usize) -> PopupView {
    let count = completed.len() as int;
    let room = capacity(area, 7);
    let start = window_start(scroll as int, count, room);
    let shown = window_len(scroll as int, count, room);
    PopupView {
        area: list_area(area, shown, 7),
        title: " Review original-file deletion "@,
        lines: seq![
            plain(
                "Delete "@ + decimal(count as nat)
                    + " verified original track(s)? This cannot be undone. Showing "@ + showing(
                    start,
                    shown,
                    count,
                ) + "."@,
            ),
        ] + stacked(|i: int| delete_lines(completed[i]), start, shown) + seq![
            plain(""@),
            plain(
                "↑/k ↓/j review · M4As are re-verified.  y confirm deletion · Esc keep originals"@,
            ),
        ],
    }
}

/// The confirmation of the deletion of originals over `area`.
pub fn delete_popup(area: Area, completed: &Vec<CompletedConversion>, scroll: usize) -> (popup:
    Popup)
    requires
        area_fits(area),
    ensures
        popup@ == delete_dialog(area, completed.deep_view(), scroll),
{
    let ghost views = completed.deep_view();
    let count = completed.len();
    let (start, shown) = window(area, 7, scroll, count);
    let mut lines: Vec<TextLine> = Vec::new();
    let mut text = "Delete ".to_owned();
    push_number(&mut text, count);
    text.append(" verified original track(s)? This cannot be undone. Showing ");
    push_showing(&mut text, start, shown, count);
    text.append(".");
    push_line(&mut lines, text, Tone::Plain);
    let ghost head = lines.deep_view();
    let ghost entry = |i: int| delete_lines(views[i]);
    let mut k: usize = 0;
    assert(lines.deep_view() =~= head + stacked(entry, start as int, 0));
    while k < shown
        invariant
            k <= shown,
            start + shown <= count,
            count == completed@.len(),
            views == completed.deep_view(),
            entry == |i: int| delete_lines(views[i]),
            lines.deep_view() == head + stacked(entry, start as int, k as int),
        decreases shown - k,
    {
        assert(views[start + k] == completed@[start + k]@);
        push_line(
            &mut lines,
            labelled("DELETE  ", completed[start + k].original.display().as_str()),
            Tone::Plain,
        );
        push_line(
            &mut lines,
            labelled("KEEP    ", completed[start + k].output.display().as_str()),
            Tone::Plain,
        );
        assert(lines.deep_view() =~= head + stacked(entry, start as int, k + 1));
        k += 1;
    }
    push_line(&mut lines, "".to_owned(), Tone::Plain);
    push_line(
        &mut lines,
        "↑/k ↓/j review · M4As are re-verified.  y confirm deletion · Esc keep originals".to_owned(),
        Tone::Plain,
    );
    let popup = Popup {
        area: list_popup_area(area, shown, 7),
        title: " Review original-file deletion ",
        lines,
    };
    proof {
        let dialog = delete_dialog(area, views, scroll);
        assert(head =~= dialog.lines.take(1));
        assert(popup@.lines =~= dialog.lines);
    }
    popup
}

// ---------------------------------------------------------------------------
// The editor
// ---------------------------------------------------------------------------

/// The line of one field of the editor.
pub open spec fn field_line(editor: EditorView, field: int) -> LineView {
    let label = field_labels(editor.target)[field];
    let marker = if field == editor.active_field {
        "> "@
    } else {
        "  "@
    };
    LineView {
        text: marker + label + ": "@ + editor.values[field],
        tone: if label == "Release date"@ && !valid_release_date(editor.release_date()) {
            Tone::RedBold
        } else {
            Tone::Plain
        },
    }
}

/// The lines of the first `count` fields of the editor.
pub open spec fn field_lines(editor: EditorView, count: int) -> Seq<LineView> {
    Seq::new(count as nat, |i: int| field_line(editor, i))
}

/// How many fields the editor shows: those that have a name and a value.
pub open spec fn field_count(editor: EditorView) -> int {
    lesser(field_labels(editor.target).len() as int, editor.values.len() as int)
}

/// The area of the editor.
pub open spec fn editor_area(area: Area) -> Area {
    centered(area, lesser(70, less(area.width as int, 4)), lesser(9, less(area.height as int, 4)))
}

/// The editor as a dialog.
pub open spec fn editor_dialog(area: Area, editor: EditorView) -> PopupView {
    PopupView {
        area: editor_area(area),
        title: " Edit metadata "@,
        lines: seq![
            plain("←/→ move cursor · Tab/↑/↓ switch field · Enter save · Esc cancel"@),
            plain(""@),
        ] + field_lines(editor, field_count(editor)) + (if valid_release_date(
            editor.release_date(),
        ) {
            Seq::empty()
        } else {
            seq![
                plain(""@),
                LineView {
                    text: "Invalid date — use YYYY, YYYY-MM, or YYYY-MM-DD. Enter is disabled."@,
                    tone: Tone::Red,
                },
            ]
        }),
    }
}

/// What stands before the cursor in the line of the active field.
pub open spec fn cursor_prefix(editor: EditorView) -> Seq<char> {
    "> "@ + field_labels(editor.target)[editor.active_field] + ": "@ + editor.value().take(
        editor.position(),
    )
}

/// Where the cursor of the editor is shown: nowhere if that is not inside the
/// dialog.
pub open spec fn editor_cursor(area: Area, editor: EditorView) -> Option<(u16, u16)> {
    let popup = editor_area(area);
    let x = popup.x + 1 + display_width(cursor_prefix(editor)) % 0x1_0000;
    let y = popup.y + 3 + editor.active_field % 0x1_0000;
    if x < popup.x + popup.width - 1 && y < popup.y + popup.height - 1 {
        Some((x as u16, y as u16))
    } else {
        None
    }
}

/// The editor as a dialog over `area`, and where its cursor is shown.
pub fn editor_popup(area: Area, editor: &MetadataEditor) -> (result: (Popup, Option<(u16, u16)>))
    requires
        area_fits(area),
        editor@.wf(),
        editor@.active_field < field_labels(editor@.target).len(),
    ensures
        result.0@ == editor_dialog(area, editor@),
        result.1 == editor_cursor(area, editor@),
{
    let ghost view = editor@;
    let place = center(
        area,
        min16(70, minus(area.width, 4)),
        min16(9, minus(area.height, 4)),
    );
    let valid = is_valid_release_date(editor.release_date());
    let labels = editor.labels();
    let ghost names = field_labels(view.target);
    let mut lines: Vec<TextLine> = Vec::new();
    push_line(
        &mut lines,
        "←/→ move cursor · Tab/↑/↓ switch field · Enter save · Esc cancel".to_owned(),
        Tone::Plain,
    );
    push_line(&mut lines, "".to_owned(), Tone::Plain);
    let ghost head = lines.deep_view();
    let count: usize = if labels.len() <= editor.values.len() {
        labels.len()
    } else {
        editor.values.len()
    };
    assert(labels.deep_view().len() == labels@.len());
    assert(count == field_count(view));
    let mut field: usize = 0;
    assert(lines.deep_view() =~= head + field_lines(view, 0));
    while field < count
        invariant
            field <= count,
            count <= labels@.len(),
            count <= editor.values@.len(),
            view == editor@,
            names == field_labels(view.target),
            labels.deep_view() == names,
            valid == valid_release_date(view.release_date()),
            lines.deep_view() == head + field_lines(view, field as int),
        decreases count - field,
    {
        assert(names[field as int] == labels@[field as int]@);
        assert(view.values[field as int] == editor.values@[field as int]@);
        let marker = if field == editor.active_field {
            "> "
        } else {
            "  "
        };
        let tone = if same_text(labels[field], "Release date") && !valid {
            Tone::RedBold
        } else {
            Tone::Plain
        };
        let mut text = labelled(marker, labels[field]);
        text.append(": ");
        text.append(editor.values[field].as_str());
        push_line(&mut lines, text, tone);
        assert(lines.deep_view() =~= head + field_lines(view, field + 1));
        field += 1;
    }
    if !valid {
        push_line(&mut lines, "".to_owned(), Tone::Plain);
        push_line(
            &mut lines,
            "Invalid date — use YYYY, YYYY-MM, or YYYY-MM-DD. Enter is disabled.".to_owned(),
            Tone::Red,
        );
    }
    assert(lines.deep_view() =~= editor_dialog(area, view).lines);
    let (chars, at) = editor.active_chars();
    assert(names[view.active_field] == labels@[view.active_field]@);
    let mut prefix = labelled("> ", labels[editor.active_field]);
    prefix.append(": ");
    let before = text_between(&chars, 0, at);
    assert(before@ =~= view.value().take(view.position()));
    prefix.append(before.as_str());
    let column: usize = line_width(prefix.as_str()) % 0x1_0000;
    let row: usize = editor.active_field % 0x1_0000;
    let x: u32 = place.x as u32 + 1 + column as u32;
    let y: u32 = place.y as u32 + 3 + row as u32;
    let cursor = if x + 1 < place.x as u32 + place.width as u32 && y + 1 < place.y as u32
        + place.height as u32 {
        Some((x as u16, y as u16))
    } else {
        None
    };
    (Popup { area: place, title: " Edit metadata ", lines }, cursor)
}

// ---------------------------------------------------------------------------
// Paths
// ---------------------------------------------------------------------------

/// The height that the paths ask for, which is counted in sixteen bits.
pub open spec fn paths_wanted(count: int) -> int {
    count % 0x1_0000 + 4
}

/// The height of the dialog that shows paths.
pub open spec fn paths_height(area: Area, count: int) -> int {
    larger(lesser(paths_wanted(count), less(area.height as int, 4)), 5)
}

/// How many paths are shown.
pub open spec fn paths_shown(area: Area, count: int) -> int {
    if paths_wanted(count) > paths_height(area, count) {
        lesser(count, less(paths_height(area, count), 5))
    } else {
        count
    }
}

/// The lines of the first `count` paths.
pub open spec fn path_lines(paths: Seq<PathView>, count: int) -> Seq<LineView> {
    Seq::new(count as nat, |i: int| plain(paths[i].shown()))
}

/// The dialog that shows paths.
pub open spec fn paths_dialog(area: Area, paths: Seq<PathView>) -> PopupView {
    let count = paths.len() as int;
    let shown = paths_shown(area, count);
    PopupView {
        area: centered(
            area,
            lesser(100, less(area.width as int, 4)),
            paths_height(area, count),
        ),
        title: " File paths "@,
        lines: path_lines(paths, shown) + (if shown < count {
            seq![plain("… and "@ + decimal((count - shown) as nat) + " more"@)]
        } else {
            Seq::empty()
        }) + seq![plain(""@), plain("Esc, Enter, or i to close"@)],
    }
}

/// The dialog that shows `paths` over `area`.
pub fn paths_popup(area: Area, paths: &Vec<FilePath>) -> (popup: Popup)
    requires
        area_fits(area),
        paths_wanted(paths@.len() as int) <= u16::MAX,
    ensures
        popup@ == paths_dialog(area, paths.deep_view()),
{
    let ghost views = paths.deep_view();
    let count = paths.len();
    let width: u16 = min16(100, minus(area.width, 4));
    let wanted: u16 = (count % 0x1_0000) as u16 + 4;
    let height: u16 = max16(min16(wanted, minus(area.height, 4)), 5);
    let room: usize = minus(height, 5) as usize;
    let shown: usize = if wanted > height {
        if count <= room {
            count
        } else {
            room
        }
    } else {
        count
    };
    let mut lines: Vec<TextLine> = Vec::new();
    let mut i: usize = 0;
    assert(lines.deep_view() =~= path_lines(views, 0));
    while i < shown
        invariant
            i <= shown <= paths@.len(),
            views == paths.deep_view(),
            lines.deep_view() == path_lines(views, i as int),
        decreases shown - i,
    {
        assert(views[i as int] == paths@[i as int]@);
        push_line(&mut lines, paths[i].display(), Tone::Plain);
        assert(lines.deep_view() =~= path_lines(views, i + 1));
        i += 1;
    }
    if shown < count {
        let mut text = "… and ".to_owned();
        push_number(&mut text, count - shown);
        text.append(" more");
        push_line(&mut lines, text, Tone::Plain);
    }
    push_line(&mut lines, "".to_owned(), Tone::Plain);
    push_line(&mut lines, "Esc, Enter, or i to close".to_owned(), Tone::Plain);
    assert(lines.deep_view() =~= paths_dialog(area, views).lines);
    Popup { area: center(area, width, height), title: " File paths ", lines }
}

// ---------------------------------------------------------------------------
// Converting
// ---------------------------------------------------------------------------

/// The frame of the mark that turns while files are converted.
pub open spec fn spinner_frame(step: int) -> Seq<char> {
    let frame = step % 10;
    if frame == 0 {
        "⠋"@
    } else if frame == 1 {
        "⠙"@
    } else if frame == 2 {
        "⠹"@
    } else if frame == 3 {
        "⠸"@
    } else if frame == 4 {
        "⠼"@
    } else if frame == 5 {
        "⠴"@
    } else if frame == 6 {
        "⠦"@
    } else if frame == 7 {
        "⠧"@
    } else if frame == 8 {
        "⠇"@
    } else {
        "⠏"@
    }
}

fn spinner(elapsed: Duration) -> (frame: &'static str)
    ensures
        frame@ == spinner_frame((elapsed@ / 1_000_000 / 80) as int),
{
    let frame: u128 = elapsed.as_millis() / 80 % 10;
    if frame == 0 {
        "⠋"
    } else if frame == 1 {
        "⠙"
    } else if frame == 2 {
        "⠹"
    } else if frame == 3 {
        "⠸"
    } else if frame == 4 {
        "⠼"
    } else if frame == 5 {
        "⠴"
    } else if frame == 6 {
        "⠦"
    } else if frame == 7 {
        "⠧"
    } else if frame == 8 {
        "⠇"
    } else {
        "⠏"
    }
}

/// The name of the file that is being converted.
pub open spec fn current_name(progress: ProgressView) -> Seq<char> {
    match progress.current_path {
        Some(path) => match path.file_name_text() {
            Some(name) => name,
            None => "Preparing next track…"@,
        },
        None => "Preparing next track…"@,
    }
}

/// The progress of a conversion, under way for `elapsed` nanoseconds, as a
/// dialog.
pub open spec fn progress_dialog(area: Area, progress: ProgressView, elapsed: nat) -> PopupView {
    PopupView {
        area: centered(
            area,
            lesser(48, less(area.width as int, 4)),
            lesser(9, less(area.height as int, 4)),
        ),
        title: " Conversion progress "@,
        lines: seq![
            LineView {
                text: spinner_frame((elapsed / 1_000_000 / 80) as int) + " Converting: "@
                    + current_name(progress),
                tone: Tone::CyanBold,
            },
            plain(""@),
            plain(
                "Processed: "@ + decimal(progress.processed as nat) + "/"@ + decimal(
                    progress.total as nat,
                ),
            ),
            LineView {
                text: "Successful: "@ + decimal(progress.successful as nat),
                tone: Tone::Green,
            },
            LineView {
                text: "Unsuccessful: "@ + decimal(progress.unsuccessful as nat),
                tone: Tone::Red,
            },
            plain(
                "Remaining: "@ + decimal(
                    less(progress.total as int, progress.processed as int) as nat,
                ),
            ),
        ],
    }
}

/// The progress of a conversion as a dialog over `area`.
pub fn progress_popup(area: Area, progress: &ConversionProgress, elapsed: Duration) -> (popup: Popup)
    requires
        area_fits(area),
    ensures
        popup@ == progress_dialog(area, progress@, elapsed@),
{
    let place = center(
        area,
        min16(48, minus(area.width, 4)),
        min16(9, minus(area.height, 4)),
    );
    let current = match &progress.current_path {
        Some(path) => match path.file_name_text() {
            Some(name) => name,
            None => "Preparing next track…".to_owned(),
        },
        None => "Preparing next track…".to_owned(),
    };
    let mut lines: Vec<TextLine> = Vec::new();
    let mut text = labelled(spinner(elapsed), " Converting: ");
    text.append(current.as_str());
    push_line(&mut lines, text, Tone::CyanBold);
    push_line(&mut lines, "".to_owned(), Tone::Plain);
    let mut text = "Processed: ".to_owned();
    push_number(&mut text, progress.processed);
    text.append("/");
    push_number(&mut text, progress.total);
    push_line(&mut lines, text, Tone::Plain);
    let mut text = "Successful: ".to_owned();
    push_number(&mut text, progress.successful);
    push_line(&mut lines, text, Tone::Green);
    let mut text = "Unsuccessful: ".to_owned();
    push_number(&mut text, progress.unsuccessful);
    push_line(&mut lines, text, Tone::Red);
    let left: usize = if progress.total > progress.processed {
        progress.total - progress.processed
    } else {
        0
    };
    let mut text = "Remaining: ".to_owned();
    push_number(&mut text, left);
    push_line(&mut lines, text, Tone::Plain);
    let popup = Popup { area: place, title: " Conversion progress ", lines };
    assert(popup@.lines =~= progress_dialog(area, progress@, elapsed@).lines);
    popup
}

/// The lines of one file in the conversion preview.
pub open spec fn conversion_lines(plan: ConversionPlanView) -> Seq<LineView> {
    let source = compacted(plan.source).shown();
    match plan.status {
        ConversionPlanStatus::Ready => seq![
            plain("CONVERT  "@ + source),
            plain("    →    "@ + compacted(plan.output.unwrap()).shown()),
        ],
        ConversionPlanStatus::AlreadyM4a => seq![
            plain("SKIP     "@ + source + " (already M4A)"@),
            plain(""@),
        ],
        ConversionPlanStatus::OutputExists => seq![
            plain("SKIP     "@ + source),
            plain(
                "    →    "@ + compacted(plan.output.unwrap()).shown()
                    + " (output already exists)"@,
            ),
        ],
        ConversionPlanStatus::OutsideLibrary => seq![
            plain("SKIP     "@ + source + " (outside the selected library)"@),
            plain(""@),
        ],
    }
}

/// The conversion preview as a dialog.
pub open spec fn conversion_dialog(area: Area, preview: ConversionPreviewView) -> PopupView {
    let count = preview.plans.len() as int;
    let room = capacity(area, 6);
    let start = window_start(preview.scroll as int, count, room);
    let shown = window_len(preview.scroll as int, count, room);
    PopupView {
        area: list_area(area, shown, 6),
        title: " Review M4A conversion "@,
        lines: seq![
            plain(
                "M4A files are written beside their sources · "@ + decimal(
                    sources_where(preview.plans, true).len(),
                ) + " ready · "@ + decimal(sources_where(preview.plans, false).len())
                    + " skipped · showing "@ + showing(start, shown, count),
            ),
        ] + stacked(|i: int| conversion_lines(preview.plans[i]), start, shown) + seq![
            plain(""@),
            plain("↑/k ↓/j review · y start ready conversions · Esc keep queue"@),
        ],
    }
}

fn push_conversion_lines(lines: &mut Vec<TextLine>, plan: &ConversionPlan)
    requires
        plan@.status == ConversionPlanStatus::Ready || plan@.status
            == ConversionPlanStatus::OutputExists ==> plan@.output is Some,
    ensures
        final(lines).deep_view() == old(lines).deep_view() + conversion_lines(plan@),
{
    let ghost before = lines.deep_view();
    let source = compact_preview_path(&plan.source);
    match plan.status {
        ConversionPlanStatus::Ready => {
            push_line(lines, labelled("CONVERT  ", source.as_str()), Tone::Plain);
            match &plan.output {
                Some(output) => push_line(
                    lines,
                    labelled("    →    ", compact_preview_path(output).as_str()),
                    Tone::Plain,
                ),
                None => {},
            }
        },
        ConversionPlanStatus::AlreadyM4a => {
            let mut text = labelled("SKIP     ", source.as_str());
            text.append(" (already M4A)");
            push_line(lines, text, Tone::Plain);
            push_line(lines, "".to_owned(), Tone::Plain);
        },
        ConversionPlanStatus::OutputExists => {
            push_line(lines, labelled("SKIP     ", source.as_str()), Tone::Plain);
            match &plan.output {
                Some(output) => {
                    let mut text = labelled("    →    ", compact_preview_path(output).as_str());
                    text.append(" (output already exists)");
                    push_line(lines, text, Tone::Plain);
                },
                None => {},
            }
        },
        ConversionPlanStatus::OutsideLibrary => {
            let mut text = labelled("SKIP     ", source.as_str());
            text.append(" (outside the selected library)");
            push_line(lines, text, Tone::Plain);
            push_line(lines, "".to_owned(), Tone::Plain);
        },
    }
    assert(lines.deep_view() =~= before + conversion_lines(plan@));
}

/// The conversion preview as a dialog over `area`.
pub fn conversion_popup(area: Area, preview: &ConversionPreview) -> (popup: Popup)
    requires
        area_fits(area),
        conversions_complete(preview@.plans),
    ensures
        popup@ == conversion_dialog(area, preview@),
{
    let ghost plans = preview@.plans;
    let count = preview.plans.len();
    let (start, shown) = window(area, 6, preview.scroll, count);
    let mut lines: Vec<TextLine> = Vec::new();
    let mut text = "M4A files are written beside their sources · ".to_owned();
    push_number(&mut text, preview.ready_count());
    text.append(" ready · ");
    push_number(&mut text, preview.skipped_count());
    text.append(" skipped · showing ");
    push_showing(&mut text, start, shown, count);
    push_line(&mut lines, text, Tone::Plain);
    let ghost head = lines.deep_view();
    let ghost entry = |i: int| conversion_lines(plans[i]);
    let mut k: usize = 0;
    assert(lines.deep_view() =~= head + stacked(entry, start as int, 0));
    while k < shown
        invariant
            k <= shown,
            start + shown <= count,
            count == preview.plans@.len(),
            plans == preview.plans.deep_view(),
            conversions_complete(plans),
            entry == |i: int| conversion_lines(plans[i]),
            lines.deep_view() == head + stacked(entry, start as int, k as int),
        decreases shown - k,
    {
        assert(plans[start + k] == preview.plans@[start + k]@);
        push_conversion_lines(&mut lines, &preview.plans[start + k]);
        assert(lines.deep_view() =~= head + stacked(entry, start as int, k + 1));
        k += 1;
    }
    push_line(&mut lines, "".to_owned(), Tone::Plain);
    push_line(
        &mut lines,
        "↑/k ↓/j review · y start ready conversions · Esc keep queue".to_owned(),
        Tone::Plain,
    );
    let popup = Popup {
        area: list_popup_area(area, shown, 6),
        title: " Review M4A conversion ",
        lines,
    };
    proof {
        let dialog = conversion_dialog(area, preview@);
        assert(head =~= dialog.lines.take(1));
        assert(popup@.lines =~= dialog.lines);
    }
    popup
}

/// The lines of one file in the result of a conversion: first those that
/// succeeded, then those that failed.
pub open spec fn result_lines(result: ResultView, entry: int) -> Seq<LineView> {
    if entry < result.successful.len() {
        let completed = result.successful[entry];
        seq![
            plain("VERIFIED  "@ + compacted(completed.original).shown()),
            plain("    →     "@ + compacted(completed.output).shown()),
        ]
    } else {
        let failure = result.failures[entry - result.successful.len()];
        seq![
            plain("FAILED    "@ + compacted(failure.source).shown()),
            plain("    "@ + failure.error),
        ]
    }
}

/// The result of a conversion as a dialog.
pub open spec fn result_dialog(area: Area, result: ResultView) -> PopupView {
    let count = result.total() as int;
    let room = capacity(area, 6);
    let start = window_start(result.scroll as int, count, room);
    let shown = window_len(result.scroll as int, count, room);
    PopupView {
        area: list_area(area, shown, 6),
        title: " Conversion results "@,
        lines: seq![
            plain(
                decimal(result.successful.len()) + " verified · "@ + decimal(result.failures.len())
                    + " failed · "@ + decimal(result.remaining_queued as nat)
                    + " remain queued · showing "@ + showing(start, shown, count),
            ),
        ] + stacked(|i: int| result_lines(result, i), start, shown) + seq![
            plain(""@),
            plain("↑/k ↓/j review · Esc close"@),
        ],
    }
}

/// The result of a conversion as a dialog over `area`.
pub fn result_popup(area: Area, result: &ConversionResult) -> (popup: Popup)
    requires
        area_fits(area),
        result@.total() <= usize::MAX,
    ensures
        popup@ == result_dialog(area, result@),
{
    let ghost view = result@;
    let count = result.total();
    let (start, shown) = window(area, 6, result.scroll, count);
    let mut lines: Vec<TextLine> = Vec::new();
    let mut text = decimal_text(result.successful.len() as u64);
    text.append(" verified · ");
    push_number(&mut text, result.failures.len());
    text.append(" failed · ");
    push_number(&mut text, result.remaining_queued);
    text.append(" remain queued · showing ");
    push_showing(&mut text, start, shown, count);
    push_line(&mut lines, text, Tone::Plain);
    let ghost head = lines.deep_view();
    let ghost entry = |i: int| result_lines(view, i);
    let mut k: usize = 0;
    assert(lines.deep_view() =~= head + stacked(entry, start as int, 0));
    while k < shown
        invariant
            k <= shown,
            start + shown <= count,
            count == result.successful@.len() + result.failures@.len(),
            view == result@,
            entry == |i: int| result_lines(view, i),
            lines.deep_view() == head + stacked(entry, start as int, k as int),
        decreases shown - k,
    {
        let at: usize = start + k;
        if at < result.successful.len() {
            assert(view.successful[at as int] == result.successful@[at as int]@);
            let completed = &result.successful[at];
            push_line(
                &mut lines,
                labelled("VERIFIED  ", compact_preview_path(&completed.original).as_str()),
                Tone::Plain,
            );
            push_line(
                &mut lines,
                labelled("    →     ", compact_preview_path(&completed.output).as_str()),
                Tone::Plain,
            );
        } else {
            let failed: usize = at - result.successful.len();
            assert(view.failures[failed as int] == result.failures@[failed as int]@);
            let failure = &result.failures[failed];
            push_line(
                &mut lines,
                labelled("FAILED    ", compact_preview_path(&failure.source).as_str()),
                Tone::Plain,
            );
            push_line(&mut lines, labelled("    ", failure.error.as_str()), Tone::Plain);
        }
        assert(lines.deep_view() =~= head + stacked(entry, start as int, k + 1));
        k += 1;
    }
    push_line(&mut lines, "".to_owned(), Tone::Plain);
    push_line(&mut lines, "↑/k ↓/j review · Esc close".to_owned(), Tone::Plain);
    let popup = Popup {
        area: list_popup_area(area, shown, 6),
        title: " Conversion results ",
        lines,
    };
    proof {
        let dialog = result_dialog(area, view);
        assert(head =~= dialog.lines.take(1));
        assert(popup@.lines =~= dialog.lines);
    }
    popup
}

} // verus!
