//! The screen: the header, the table of the library and the footer.

use vstd::prelude::*;
use ratatui::layout::{Constraint, Layout, Rect};
use crate::albums::{Album, FolderGroup};
use crate::browser::{App, LibraryRow, ViewMode};
use crate::format::{album_duration, animated_wave, compact_header_path, format_bytes};
use crate::format::{format_duration, format_release_year, marquee, truncate_to_width};
use crate::format::wrap_header_tokens;
use crate::library::Track;
use crate::popups::{conversion_popup, delete_popup, editor_popup, filter_popup, paths_popup};
use crate::popups::{labelled, push_line, Area, Popup, TextLine, Tone};
use crate::popups::{progress_popup, rename_popup, result_popup};
use crate::preview::contains_path;
use crate::text::{chars_of, decimal_text, to_uppercase, two_digit_text};
use crate::time::Duration;
use crate::totals::{checked_bytes, checked_totals};
use crate::albums::{AlbumView, GroupView};
use crate::browser::{filter_label, AppView};
use crate::format::{header_path, minutes, moving, release_year, size_text, total_duration};
use crate::format::{truncated, wave_frame, wrapped, wrapping};
use crate::library::TrackView;
use crate::path::holds;
use crate::popups::{area_fits, less, lesser, paths_wanted, LineView, PopupView};
use crate::popups::{conversion_dialog, delete_dialog, editor_cursor, editor_dialog, filter_dialog};
use crate::popups::{paths_dialog, progress_dialog, rename_dialog, result_dialog};
use crate::text::{decimal, two_digits, uppercase};
use crate::totals::{lemma_album_bytes, library_bytes, library_tracks, total_bytes};

verus! {

// ---------------------------------------------------------------------------
// The header
// ---------------------------------------------------------------------------

/// What albums are called in the summary.
pub open spec fn view_label(mode: ViewMode) -> Seq<char> {
    match mode {
        ViewMode::AlbumMetadata => "albums"@,
        ViewMode::Folders => "folder albums"@,
    }
}

impl AppView {
    /// The summary of the library: how much it has and, while a search or a
    /// filter is on, how much of that is shown.
    pub open spec fn summary(self) -> Seq<char> {
        let albums = self.active_albums();
        let label = view_label(self.view_mode);
        let bytes = size_text(library_bytes(albums));
        if self.search is Some || self.active_filter is Some {
            let shown = self.visible_totals();
            decimal(shown.albums) + "/"@ + decimal(albums.len()) + " "@ + label + " · "@ + decimal(
                shown.tracks,
            ) + "/"@ + decimal(library_tracks(albums)) + " tracks · "@ + size_text(shown.bytes)
                + "/"@ + bytes + " · "@ + decimal(self.unreadable as nat) + " unreadable"@
        } else {
            decimal(albums.len()) + " "@ + label + " · "@ + decimal(library_tracks(albums))
                + " tracks · "@ + bytes + " · "@ + decimal(self.unreadable as nat)
                + " unreadable"@
        }
    }

    /// How wide the title of the track that is playing is shown.
    pub open spec fn title_width(self, width: int) -> int {
        lesser(less(width, 10), 36)
    }

    /// Whether the title of the track that is playing can move through the
    /// header.
    pub open spec fn title_fits(self, width: int) -> bool {
        self.playback matches Some(playback) ==> 0 < playback.title.len() + self.title_width(width)
            <= usize::MAX
    }

    /// What the header says of the state of the browser, in `width` columns and
    /// after a track has played for `played` nanoseconds.
    pub open spec fn state_tokens(self, width: int, played: nat) -> Seq<Seq<char>> {
        let view = seq![
            match self.view_mode {
                ViewMode::AlbumMetadata => "VIEW: Albums"@,
                ViewMode::Folders => "VIEW: Folders"@,
            },
        ];
        let playing = match self.playback {
            Some(playback) => seq![
                "PLAYING: "@ + moving(
                    playback.title,
                    self.title_width(width) as nat,
                    (played / 1_000_000 / 180) as int,
                ),
            ],
            None => Seq::empty(),
        };
        let queue = if self.conversion_queue.len() > 0 {
            seq!["QUEUE: "@ + decimal(self.conversion_queue.len())]
        } else {
            Seq::empty()
        };
        let search = match self.search {
            Some(search) => seq!["SEARCH: "@ + truncated(search, lesser(less(width, 8), 36))],
            None => Seq::empty(),
        };
        let filter = match self.active_filter {
            Some(filter) => seq!["FILTER: "@ + filter_label(filter)],
            None => Seq::empty(),
        };
        view + playing + queue + search + filter
    }

    /// How the state is shown: while a search is on it pulses.
    pub open spec fn state_tone(self, elapsed: nat) -> Tone {
        if self.search is Some {
            if (elapsed / 1_000_000 / 650) % 2 == 0 {
                Tone::BlackOnYellowBold
            } else {
                Tone::BlackOnLightYellowBold
            }
        } else {
            Tone::CyanBold
        }
    }

    /// The lines of the header in `width` columns, after the program has run for
    /// `elapsed` nanoseconds and a track has played for `played`.
    pub open spec fn header(self, width: int, elapsed: nat, played: nat) -> Seq<LineView> {
        let tone = self.state_tone(elapsed);
        let state = wrapped(self.state_tokens(width, played), width);
        seq![
            LineView {
                text: "LIBRARY: "@ + header_path(self.root, less(width, 9)),
                tone: Tone::Plain,
            },
            LineView { text: truncated(self.summary(), width), tone: Tone::Plain },
        ] + Seq::new(state.len(), |i: int| LineView { text: state[i], tone })
    }

    /// The footer: what the keys do now, and what was done last.
    pub open spec fn footer(self) -> Seq<char> {
        match self.search_input {
            Some(input) => "Search albums/artists: "@ + input
                + "  · Enter apply · Esc cancel · empty Enter clears"@,
            None => if self.filter_menu is Some {
                "Filter menu: ↑/↓ select · Enter apply · Esc cancel"@
            } else if self.search is Some {
                "↑/k ↓/j select · Enter toggle · → expand · ← collapse · Ctrl-K search · Esc clear filter · q quit"@
            } else {
                match self.status {
                    Some(status) => status
                        + " · c queue · C convert · d delete originals · q quit"@,
                    None => {
                        "↑/k ↓/j select · Enter toggle · Space play/stop · e edit · i path · r rescan · R rename · f filter · c queue · C convert · d delete · v view · Ctrl-K search · q quit"@
                    },
                }
            },
        }
    }
}

proof fn lemma_wrapping_count(tokens: Seq<Seq<char>>, width: int)
    ensures
        wrapping(tokens, width).lines.len() + (if wrapping(tokens, width).current.len() > 0 {
            1int
        } else {
            0int
        }) <= tokens.len(),
    decreases tokens.len(),
{
    if tokens.len() > 0 {
        lemma_wrapping_count(tokens.drop_last(), width);
    }
}

/// The header has at most a line for each token, or one line.
pub proof fn law_wrapped_count(tokens: Seq<Seq<char>>, width: int)
    ensures
        wrapped(tokens, width).len() <= tokens.len() || wrapped(tokens, width).len() == 1,
{
    lemma_wrapping_count(tokens, width);
}

fn push_text(list: &mut Vec<String>, text: String)
    ensures
        final(list).deep_view() == old(list).deep_view().push(text@),
{
    let ghost before = list.deep_view();
    let ghost view = text@;
    list.push(text);
    assert(list.deep_view() =~= before.push(view));
}

fn at_most(value: usize, limit: usize) -> (least: usize)
    ensures
        least == lesser(value as int, limit as int),
{
    if value <= limit {
        value
    } else {
        limit
    }
}

fn left_of(value: usize, taken: usize) -> (left: usize)
    ensures
        left == less(value as int, taken as int),
{
    if value > taken {
        value - taken
    } else {
        0
    }
}

impl App {
    fn summary(&self) -> (text: String)
        requires
            self@.totals_fit(),
        ensures
            text@ == self@.summary(),
    {
        let active = self.active_albums();
        let count = active.len();
        assert(count == self@.active_albums().len());
        let (tracks, bytes) = match checked_totals(active) {
            Some(totals) => totals,
            None => (0, 0),
        };
        let label = match self.view_mode {
            ViewMode::AlbumMetadata => "albums",
            ViewMode::Folders => "folder albums",
        };
        let all = format_bytes(bytes);
        let mut text: String;
        if self.search.is_some() || self.active_filter.is_some() {
            proof {
                crate::totals::law_shown_at_most_all(self@, self@.active_albums());
            }
            let (shown_albums, shown_tracks, shown_bytes) = self.visible_library_totals();
            text = decimal_text(shown_albums as u64);
            text.append("/");
            text.append(decimal_text(count as u64).as_str());
            text.append(" ");
            text.append(label);
            text.append(" · ");
            text.append(decimal_text(shown_tracks as u64).as_str());
            text.append("/");
            text.append(decimal_text(tracks as u64).as_str());
            text.append(" tracks · ");
            text.append(format_bytes(shown_bytes).as_str());
            text.append("/");
            text.append(all.as_str());
        } else {
            text = decimal_text(count as u64);
            text.append(" ");
            text.append(label);
            text.append(" · ");
            text.append(decimal_text(tracks as u64).as_str());
            text.append(" tracks · ");
            text.append(all.as_str());
        }
        text.append(" · ");
        text.append(decimal_text(self.unreadable as u64).as_str());
        text.append(" unreadable");
        text
    }

    fn state_tokens(&self, width: usize, played: Duration) -> (tokens: Vec<String>)
        requires
            self@.title_fits(width as int),
        ensures
            tokens.deep_view() == self@.state_tokens(width as int, played@),
            tokens@.len() <= 5,
    {
        let mut tokens: Vec<String> = Vec::new();
        assert(tokens.deep_view() =~= Seq::empty());
        push_text(
            &mut tokens,
            match self.view_mode {
                ViewMode::AlbumMetadata => "VIEW: Albums".to_owned(),
                ViewMode::Folders => "VIEW: Folders".to_owned(),
            },
        );
        match &self.playback {
            Some(playback) => {
                let title_width = at_most(left_of(width, 10), 36);
                let title = marquee(playback.title.as_str(), title_width, played);
                push_text(&mut tokens, labelled("PLAYING: ", title.as_str()));
            },
            None => {},
        }
        if self.conversion_queue.len() > 0 {
            let count = decimal_text(self.conversion_queue.len() as u64);
            push_text(&mut tokens, labelled("QUEUE: ", count.as_str()));
        }
        match &self.search {
            Some(search) => {
                let shown = truncate_to_width(search.as_str(), at_most(left_of(width, 8), 36));
                push_text(&mut tokens, labelled("SEARCH: ", shown.as_str()));
            },
            None => {},
        }
        match self.active_filter {
            Some(filter) => push_text(&mut tokens, labelled("FILTER: ", filter.label())),
            None => {},
        }
        assert(tokens.deep_view() =~= self@.state_tokens(width as int, played@));
        assert(tokens.deep_view().len() == tokens@.len());
        tokens
    }

    /// The lines of the header in `width` columns, after the program has run for
    /// `elapsed` and the track that is playing, if one is, has for `played`.
    pub fn header(&self, width: usize, elapsed: Duration, played: Duration) -> (lines: Vec<TextLine>)
        requires
            self@.totals_fit(),
            self@.title_fits(width as int),
        ensures
            lines.deep_view() == self@.header(width as int, elapsed@, played@),
            lines@.len() <= 7,
    {
        let ghost wanted = self@.header(width as int, elapsed@, played@);
        let tone = if self.search.is_some() {
            if elapsed.as_millis() / 650 % 2 == 0 {
                Tone::BlackOnYellowBold
            } else {
                Tone::BlackOnLightYellowBold
            }
        } else {
            Tone::CyanBold
        };
        assert(tone == self@.state_tone(elapsed@));
        let mut lines: Vec<TextLine> = Vec::new();
        let path = compact_header_path(&self.root, left_of(width, 9));
        push_line(&mut lines, labelled("LIBRARY: ", path.as_str()), Tone::Plain);
        push_line(
            &mut lines,
            truncate_to_width(self.summary().as_str(), width),
            Tone::Plain,
        );
        let tokens = self.state_tokens(width, played);
        proof {
            law_wrapped_count(tokens.deep_view(), width as int);
        }
        let state = wrap_header_tokens(tokens, width);
        let ghost views = state.deep_view();
        let mut i: usize = 0;
        assert(lines.deep_view() =~= wanted.take(2));
        while i < state.len()
            invariant
                i <= state@.len(),
                views == state.deep_view(),
                wanted.len() == 2 + views.len(),
                forall|j: int|
                    0 <= j < views.len() ==> #[trigger] wanted[2 + j] == (LineView {
                        text: views[j],
                        tone,
                    }),
                lines.deep_view() == wanted.take(2 + i),
            decreases state.len() - i,
        {
            assert(views[i as int] == state@[i as int]@);
            assert(wanted[2 + i] == LineView { text: views[i as int], tone });
            push_line(&mut lines, state[i].clone(), tone);
            assert(lines.deep_view() =~= wanted.take(2 + (i + 1)));
            i += 1;
        }
        proof {
            assert(wanted.take(wanted.len() as int) =~= wanted);
            assert(lines.deep_view().len() == lines@.len());
        }
        lines
    }

    /// What the footer says.
    pub fn footer(&self) -> (text: String)
        ensures
            text@ == self@.footer(),
    {
        match &self.search_input {
            Some(input) => {
                let mut text = labelled("Search albums/artists: ", input.as_str());
                text.append("  · Enter apply · Esc cancel · empty Enter clears");
                text
            },
            None => if self.filter_menu.is_some() {
                "Filter menu: ↑/↓ select · Enter apply · Esc cancel".to_owned()
            } else if self.search.is_some() {
                "↑/k ↓/j select · Enter toggle · → expand · ← collapse · Ctrl-K search · Esc clear filter · q quit".to_owned()
            } else {
                match &self.status {
                    Some(status) => labelled(
                        status.as_str(),
                        " · c queue · C convert · d delete originals · q quit",
                    ),
                    None => "↑/k ↓/j select · Enter toggle · Space play/stop · e edit · i path · r rescan · R rename · f filter · c queue · C convert · d delete · v view · Ctrl-K search · q quit".to_owned(),
                }
            },
        }
    }
}

/// The three parts of an area, one below the other, as `ratatui` lays them out:
/// the first and the last of a given height, the middle one at least of another.
pub uninterp spec fn split_areas(area: Area, first: u16, middle: u16, last: u16) -> (
    Area,
    Area,
    Area,
);

/// Calls `ratatui::layout::Layout::vertical` and `Layout::areas`: splits an area
/// into three parts, one below the other. They are a function of the area and
/// the heights alone; how room that is scarce is shared is left to `ratatui`.
#[verifier::external_body]
fn split_vertically(area: Area, first: u16, middle: u16, last: u16) -> (parts: (Area, Area, Area))
    requires
        area_fits(area),
    ensures
        parts == split_areas(area, first, middle, last),
{
    let whole = Rect { x: area.x, y: area.y, width: area.width, height: area.height };
    let heights = [Constraint::Length(first), Constraint::Min(middle), Constraint::Length(last)];
    let [top, body, foot] = Layout::vertical(heights).areas(whole);
    (
        Area { x: top.x, y: top.y, width: top.width, height: top.height },
        Area { x: body.x, y: body.y, width: body.width, height: body.height },
        Area { x: foot.x, y: foot.y, width: foot.width, height: foot.height },
    )
}

/// The areas of the header, the table and the footer: the header takes its lines
/// and its frame, the footer a line and its frame.
pub fn screen_areas(area: Area, header_lines: usize) -> (parts: (Area, Area, Area))
    requires
        area_fits(area),
        header_lines <= 0xfffd,
    ensures
        parts == split_areas(area, lesser(header_lines + 2, area.height as int) as u16, 4, 3),
{
    let wanted: u16 = header_lines as u16 + 2;
    let height: u16 = if wanted <= area.height {
        wanted
    } else {
        area.height
    };
    split_vertically(area, height, 4, 3)
}

// ---------------------------------------------------------------------------
// The table
// ---------------------------------------------------------------------------

/// A row of the table: its cells, how it is shown, and how its first cell is.
pub struct TableRow {
    pub cells: Vec<String>,
    pub tone: Tone,
    pub title_tone: Tone,
}

/// What a row of the table says.
#[verifier::ext_equal]
pub struct TableRowView {
    pub cells: Seq<Seq<char>>,
    pub tone: Tone,
    pub title_tone: Tone,
}

impl View for TableRow {
    type V = TableRowView;

    open spec fn view(&self) -> TableRowView {
        TableRowView { cells: self.cells.deep_view(), tone: self.tone, title_tone: self.title_tone }
    }
}

impl DeepView for TableRow {
    type V = TableRowView;

    open spec fn deep_view(&self) -> TableRowView {
        self@
    }
}

/// The names of the columns.
pub open spec fn column_names(mode: ViewMode) -> Seq<Seq<char>> {
    match mode {
        ViewMode::AlbumMetadata => {
            seq!["Title"@, "Artist"@, "Album"@, "Year"@, "Length"@, "Format"@, "Size"@]
        },
        ViewMode::Folders => {
            seq![
                "Album folder"@,
                "Artist folder"@,
                "Tracks"@,
                "Year"@,
                "Length"@,
                "Format"@,
                "Size"@,
            ]
        },
    }
}

/// The mark of what is expanded or not.
pub open spec fn expansion_mark(expanded: bool) -> Seq<char> {
    if expanded {
        "▼ "@
    } else {
        "▶ "@
    }
}

/// The year of a release date, or a dash.
pub open spec fn year_cell(date: Option<Seq<char>>) -> Seq<char> {
    match date {
        Some(date) => release_year(date),
        None => "—"@,
    }
}

/// A length of time, or a dash.
pub open spec fn length_cell(duration: Option<nat>) -> Seq<char> {
    match duration {
        Some(duration) => minutes(duration),
        None => "—"@,
    }
}

/// The release date of the first track of an album.
pub open spec fn album_date(album: AlbumView) -> Option<Seq<char>> {
    if album.tracks.len() > 0 {
        album.tracks[0].release_date
    } else {
        None
    }
}

/// The row of a group.
pub open spec fn group_cells(group: GroupView, expanded: bool) -> TableRowView {
    TableRowView {
        cells: seq![
            expansion_mark(expanded) + group.title,
            ""@,
            decimal(group.albums.len()) + " albums"@,
            ""@,
            ""@,
            "FOLDER"@,
            ""@,
        ],
        tone: Tone::MagentaBold,
        title_tone: Tone::Plain,
    }
}

/// The row of an album.
pub open spec fn album_cells(album: AlbumView, expanded: bool) -> TableRowView {
    TableRowView {
        cells: seq![
            expansion_mark(expanded) + album.title,
            album.artist,
            decimal(album.tracks.len()) + " tracks"@,
            year_cell(album_date(album)),
            length_cell(total_duration(album.tracks)),
            "ALBUM"@,
            size_text(total_bytes(album.tracks)),
        ],
        tone: Tone::YellowBold,
        title_tone: Tone::Plain,
    }
}

impl AppView {
    /// The row of a track, after the one that is playing has for `played`
    /// nanoseconds.
    pub open spec fn track_cells(self, track: TrackView, played: nat) -> TableRowView {
        let queued = holds(self.conversion_queue, track.path);
        let playing = if self.is_playing(track.path) {
            wave_frame((played / 1_000_000 / 160) as int)
        } else {
            "  "@
        };
        let mark = if queued {
            "[Q] "@
        } else {
            "    "@
        };
        let number = match track.track_number {
            Some(number) => two_digits(number as nat),
            None => "--"@,
        };
        let extension = match track.path.extension_text() {
            Some(extension) => extension,
            None => "?"@,
        };
        TableRowView {
            cells: seq![
                playing + "└─ "@ + mark + number + "  "@ + track.title,
                track.artist,
                ""@,
                year_cell(track.release_date),
                length_cell(track.duration),
                uppercase(extension),
                size_text(track.bytes as nat),
            ],
            tone: Tone::Plain,
            title_tone: if queued {
                Tone::CyanBold
            } else {
                Tone::Plain
            },
        }
    }

    /// The row of the table that shows a row of the library.
    pub open spec fn table_row(self, row: LibraryRow, played: nat) -> TableRowView {
        match row {
            LibraryRow::FolderGroup(group) => group_cells(
                self.folder_groups[group as int],
                self.expanded_folder_groups.contains(group),
            ),
            LibraryRow::Album(album) => album_cells(
                self.active_albums()[album as int],
                self.expanded_albums.contains(album),
            ),
            LibraryRow::FolderAlbum(album) => album_cells(
                self.active_albums()[album as int],
                self.expanded_albums.contains(album),
            ),
            LibraryRow::Track { album, track } => self.track_cells(
                self.active_albums()[album as int].tracks[track as int],
                played,
            ),
        }
    }

    /// The rows of the table: one for each row that is shown.
    pub open spec fn table(self, played: nat) -> Seq<TableRowView> {
        let rows = self.visible_rows();
        Seq::new(rows.len(), |i: int| self.table_row(rows[i], played))
    }
}

fn mark_of(expanded: bool) -> (mark: &'static str)
    ensures
        mark@ == expansion_mark(expanded),
{
    if expanded {
        "▼ "
    } else {
        "▶ "
    }
}

fn year_of(date: &Option<String>) -> (year: String)
    ensures
        year@ == year_cell(date.deep_view()),
{
    match date {
        Some(date) => format_release_year(date.as_str()),
        None => "—".to_owned(),
    }
}

fn length_of(duration: Option<Duration>) -> (length: String)
    ensures
        length@ == length_cell(duration.deep_view()),
{
    match duration {
        Some(duration) => format_duration(duration),
        None => "—".to_owned(),
    }
}

fn group_row(group: &FolderGroup, expanded: bool) -> (row: TableRow)
    ensures
        row@ == group_cells(group@, expanded),
{
    let mut cells: Vec<String> = Vec::new();
    cells.push(labelled(mark_of(expanded), group.title.as_str()));
    cells.push("".to_owned());
    cells.push(labelled(decimal_text(group.albums.len() as u64).as_str(), " albums"));
    cells.push("".to_owned());
    cells.push("".to_owned());
    cells.push("FOLDER".to_owned());
    cells.push("".to_owned());
    let row = TableRow { cells, tone: Tone::MagentaBold, title_tone: Tone::Plain };
    assert(row@.cells =~= group_cells(group@, expanded).cells);
    row
}

fn album_row(album: &Album, expanded: bool) -> (row: TableRow)
    requires
        crate::format::duration_fits(album@.tracks),
        total_bytes(album@.tracks) <= u64::MAX,
    ensures
        row@ == album_cells(album@, expanded),
{
    let year = if album.tracks.len() > 0 {
        assert(album@.tracks[0] == album.tracks@[0]@);
        year_of(&album.tracks[0].release_date)
    } else {
        "—".to_owned()
    };
    let bytes: u64 = match checked_bytes(&album.tracks) {
        Some(bytes) => bytes,
        None => 0,
    };
    assert(album@.tracks.len() == album.tracks.len());
    let mut cells: Vec<String> = Vec::new();
    cells.push(labelled(mark_of(expanded), album.title.as_str()));
    cells.push(album.artist.clone());
    cells.push(labelled(decimal_text(album.tracks.len() as u64).as_str(), " tracks"));
    cells.push(year);
    cells.push(length_of(album_duration(&album.tracks)));
    cells.push("ALBUM".to_owned());
    cells.push(format_bytes(bytes));
    let row = TableRow { cells, tone: Tone::YellowBold, title_tone: Tone::Plain };
    assert(row@.cells =~= album_cells(album@, expanded).cells);
    row
}

impl App {
    /// The names of the columns.
    pub fn columns(&self) -> (names: Vec<&'static str>)
        ensures
            names.deep_view() == column_names(self@.view_mode),
    {
        let names = match self.view_mode {
            ViewMode::AlbumMetadata => vec![
                "Title",
                "Artist",
                "Album",
                "Year",
                "Length",
                "Format",
                "Size",
            ],
            ViewMode::Folders => vec![
                "Album folder",
                "Artist folder",
                "Tracks",
                "Year",
                "Length",
                "Format",
                "Size",
            ],
        };
        assert(names.deep_view() =~= column_names(self@.view_mode));
        names
    }

    fn track_row(&self, track: &Track, played: Duration) -> (row: TableRow)
        ensures
            row@ == self@.track_cells(track@, played@),
    {
        let queued = contains_path(&self.conversion_queue, &track.path);
        let playing = match &self.playback {
            Some(playback) => playback.path.same(&track.path),
            None => false,
        };
        let wave = if playing {
            animated_wave(played)
        } else {
            "  "
        };
        let mut title = labelled(wave, "└─ ");
        title.append(
            if queued {
                "[Q] "
            } else {
                "    "
            },
        );
        match track.track_number {
            Some(number) => title.append(two_digit_text(number as u64).as_str()),
            None => title.append("--"),
        }
        title.append("  ");
        title.append(track.title.as_str());
        let extension = match track.path.extension_text() {
            Some(extension) => extension,
            None => "?".to_owned(),
        };
        let mut cells: Vec<String> = Vec::new();
        cells.push(title);
        cells.push(track.artist.clone());
        cells.push("".to_owned());
        cells.push(year_of(&track.release_date));
        cells.push(length_of(track.duration));
        cells.push(to_uppercase(extension.as_str()));
        cells.push(format_bytes(track.bytes));
        let row = TableRow {
            cells,
            tone: Tone::Plain,
            title_tone: if queued {
                Tone::CyanBold
            } else {
                Tone::Plain
            },
        };
        assert(row@.cells =~= self@.track_cells(track@, played@).cells);
        row
    }

    fn table_row(&self, row: LibraryRow, played: Duration) -> (result: TableRow)
        requires
            self@.totals_fit(),
            self@.row_fits(row),
        ensures
            result@ == self@.table_row(row, played@),
    {
        let albums = self.active_albums();
        match row {
            LibraryRow::FolderGroup(group) => {
                assert(self@.folder_groups[group as int] == self.folder_groups@[group as int]@);
                group_row(
                    &self.folder_groups[group],
                    self.expanded_folder_groups.contains(&group),
                )
            },
            LibraryRow::Album(album) => {
                proof {
                    assert(albums.deep_view()[album as int] == albums@[album as int]@);
                    lemma_album_bytes(albums.deep_view(), album as int);
                }
                album_row(&albums[album], self.expanded_albums.contains(&album))
            },
            LibraryRow::FolderAlbum(album) => {
                proof {
                    assert(albums.deep_view()[album as int] == albums@[album as int]@);
                    lemma_album_bytes(albums.deep_view(), album as int);
                }
                album_row(&albums[album], self.expanded_albums.contains(&album))
            },
            LibraryRow::Track { album, track } => {
                assert(albums.deep_view()[album as int] == albums@[album as int]@);
                assert(albums@[album as int]@.tracks[track as int]
                    == albums@[album as int].tracks@[track as int]@);
                self.track_row(&albums[album].tracks[track], played)
            },
        }
    }

    /// The rows of the table, after the track that is playing, if one is, has
    /// for `played`.
    pub fn table(&self, played: Duration) -> (table: Vec<TableRow>)
        requires
            self@.groups_fit(),
            self@.totals_fit(),
        ensures
            table.deep_view() == self@.table(played@),
    {
        proof {
            crate::browser::lemma_countable(*self);
            crate::browser::law_visible_rows_fit(self@);
        }
        let ghost wanted = self@.table(played@);
        let rows = self.visible_rows();
        let mut table: Vec<TableRow> = Vec::new();
        let mut i: usize = 0;
        while i < rows.len()
            invariant
                i <= rows@.len(),
                rows@ == self@.visible_rows(),
                self@.rows_fit(rows@),
                self@.totals_fit(),
                wanted == self@.table(played@),
                table.deep_view() == wanted.take(i as int),
            decreases rows.len() - i,
        {
            let ghost before = table.deep_view();
            assert(self@.row_fits(rows@[i as int]));
            table.push(self.table_row(rows[i], played));
            assert(table.deep_view() =~= before.push(wanted[i as int]));
            assert(table.deep_view() =~= wanted.take(i + 1));
            i += 1;
        }
        assert(table.deep_view() =~= wanted);
        table
    }
}

// ---------------------------------------------------------------------------
// The whole screen
// ---------------------------------------------------------------------------

/// What is on the screen: the header, the table, the footer, each with its area,
/// and the dialogs over them, the last one on top.
pub struct Screen {
    pub header: Vec<TextLine>,
    pub header_area: Area,
    pub columns: Vec<&'static str>,
    pub rows: Vec<TableRow>,
    pub table_area: Area,
    pub footer: String,
    pub footer_area: Area,
    pub dialogs: Vec<Popup>,
    pub cursor: Option<(u16, u16)>,
}

/// What is on the screen.
#[verifier::ext_equal]
pub struct ScreenView {
    pub header: Seq<LineView>,
    pub header_area: Area,
    pub columns: Seq<Seq<char>>,
    pub rows: Seq<TableRowView>,
    pub table_area: Area,
    pub footer: Seq<char>,
    pub footer_area: Area,
    pub dialogs: Seq<PopupView>,
    pub cursor: Option<(u16, u16)>,
}

impl View for Screen {
    type V = ScreenView;

    open spec fn view(&self) -> ScreenView {
        ScreenView {
            header: self.header.deep_view(),
            header_area: self.header_area,
            columns: self.columns.deep_view(),
            rows: self.rows.deep_view(),
            table_area: self.table_area,
            footer: self.footer@,
            footer_area: self.footer_area,
            dialogs: self.dialogs.deep_view(),
            cursor: self.cursor,
        }
    }
}

/// For how long, in nanoseconds, the program has run, a track has played and a
/// conversion has been under way.
pub struct ClocksView {
    pub program: nat,
    pub playback: nat,
    pub conversion: nat,
}

/// For how long the program has run, the track that is playing has played, and
/// the conversion under way has been so.
#[derive(Clone, Copy)]
pub struct Clocks {
    pub program: Duration,
    pub playback: Duration,
    pub conversion: Duration,
}

impl View for Clocks {
    type V = ClocksView;

    open spec fn view(&self) -> ClocksView {
        ClocksView {
            program: self.program@,
            playback: self.playback@,
            conversion: self.conversion@,
        }
    }
}

/// One dialog if there is one to show.
pub open spec fn one_of(dialog: Option<PopupView>) -> Seq<PopupView> {
    match dialog {
        Some(dialog) => seq![dialog],
        None => Seq::empty(),
    }
}

impl AppView {
    /// The dialogs that are open, the last one on top.
    pub open spec fn dialogs(self, area: Area, converting: nat) -> Seq<PopupView> {
        one_of(
            match self.editor {
                Some(editor) => Some(editor_dialog(area, editor)),
                None => None,
            },
        ) + one_of(
            match self.path_inspector {
                Some(paths) => Some(paths_dialog(area, paths)),
                None => None,
            },
        ) + one_of(
            match self.conversion_progress {
                Some(progress) => Some(progress_dialog(area, progress, converting)),
                None => None,
            },
        ) + one_of(
            match self.conversion_preview {
                Some(preview) => Some(conversion_dialog(area, preview)),
                None => None,
            },
        ) + one_of(
            match self.conversion_result {
                Some(result) => Some(result_dialog(area, result)),
                None => None,
            },
        ) + one_of(
            match self.rename_preview {
                Some(preview) => Some(rename_dialog(area, preview)),
                None => None,
            },
        ) + one_of(
            match self.delete_confirmation {
                Some(scroll) => Some(delete_dialog(area, self.completed_conversions, scroll)),
                None => None,
            },
        ) + one_of(
            match self.filter_menu {
                Some(selected) => Some(filter_dialog(area, selected)),
                None => None,
            },
        )
    }

    /// Whether the browser can be shown in an area: its totals can be told, its
    /// title can move, and its paths can be counted.
    pub open spec fn can_show(self, area: Area) -> bool {
        &&& area_fits(area)
        &&& self.totals_fit()
        &&& self.title_fits(less(area.width as int, 2))
        &&& self.path_inspector matches Some(paths) ==> paths_wanted(paths.len() as int) <= u16::MAX
    }

    /// What is on the screen.
    pub open spec fn screen(self, area: Area, clocks: ClocksView) -> ScreenView {
        let header = self.header(less(area.width as int, 2), clocks.program, clocks.playback);
        let areas = split_areas(
            area,
            lesser(header.len() as int + 2, area.height as int) as u16,
            4,
            3,
        );
        ScreenView {
            header,
            header_area: areas.0,
            columns: column_names(self.view_mode),
            rows: self.table(clocks.playback),
            table_area: areas.1,
            footer: self.footer(),
            footer_area: areas.2,
            dialogs: self.dialogs(area, clocks.conversion),
            cursor: match self.editor {
                Some(editor) => editor_cursor(area, editor),
                None => None,
            },
        }
    }
}

fn push_popup(dialogs: &mut Vec<Popup>, popup: Popup)
    ensures
        final(dialogs).deep_view() == old(dialogs).deep_view() + seq![popup@],
{
    let ghost before = dialogs.deep_view();
    let ghost view = popup@;
    dialogs.push(popup);
    assert(dialogs.deep_view() =~= before + seq![view]);
}

impl App {
    /// Whether the browser can be shown in an area.
    pub fn can_show(&self, area: Area) -> (can: bool)
        ensures
            can == self@.can_show(area),
    {
        if area.x > u16::MAX - area.width || area.y > u16::MAX - area.height {
            return false;
        }
        let width: usize = left_of(area.width as usize, 2);
        match &self.playback {
            Some(playback) => {
                let title_width = at_most(left_of(width, 10), 36);
                let count = chars_of(playback.title.as_str()).len();
                if count > usize::MAX - title_width || (count == 0 && title_width == 0) {
                    return false;
                }
            },
            None => {},
        }
        match &self.path_inspector {
            Some(paths) => {
                assert(paths.deep_view().len() == paths.len());
                if paths.len() % 0x1_0000 > 0xfffb {
                    return false;
                }
            },
            None => {},
        }
        self.totals_fit()
    }

    fn dialogs(&self, area: Area, converting: Duration) -> (dialogs: Vec<Popup>)
        requires
            self@.wf(),
            self@.can_show(area),
        ensures
            dialogs.deep_view() == self@.dialogs(area, converting@),
    {
        let mut dialogs: Vec<Popup> = Vec::new();
        match &self.editor {
            Some(editor) => {
                let (popup, _) = editor_popup(area, editor);
                push_popup(&mut dialogs, popup);
            },
            None => {},
        }
        match &self.path_inspector {
            Some(paths) => {
                assert(paths.deep_view().len() == paths@.len());
                push_popup(&mut dialogs, paths_popup(area, paths));
            },
            None => {},
        }
        match &self.conversion_progress {
            Some(progress) => push_popup(
                &mut dialogs,
                progress_popup(area, progress, converting),
            ),
            None => {},
        }
        match &self.conversion_preview {
            Some(preview) => push_popup(&mut dialogs, conversion_popup(area, preview)),
            None => {},
        }
        match &self.conversion_result {
            Some(result) => push_popup(&mut dialogs, result_popup(area, result)),
            None => {},
        }
        match &self.rename_preview {
            Some(preview) => push_popup(&mut dialogs, rename_popup(area, preview)),
            None => {},
        }
        match self.delete_confirmation {
            Some(scroll) => push_popup(
                &mut dialogs,
                delete_popup(area, &self.completed_conversions, scroll),
            ),
            None => {},
        }
        match self.filter_menu {
            Some(selected) => push_popup(&mut dialogs, filter_popup(area, selected)),
            None => {},
        }
        assert(dialogs.deep_view() =~= self@.dialogs(area, converting@));
        dialogs
    }

    /// What is on the screen.
    pub fn screen(&self, area: Area, clocks: Clocks) -> (screen: Screen)
        requires
            self@.wf(),
            self@.can_show(area),
        ensures
            screen@ == self@.screen(area, clocks@),
    {
        let width: usize = left_of(area.width as usize, 2);
        let header = self.header(width, clocks.program, clocks.playback);
        assert(header.deep_view().len() == header@.len());
        let (header_area, table_area, footer_area) = screen_areas(area, header.len());
        let cursor = match &self.editor {
            Some(editor) => {
                let (_, cursor) = editor_popup(area, editor);
                cursor
            },
            None => None,
        };
        let screen = Screen {
            header,
            header_area,
            columns: self.columns(),
            rows: self.table(clocks.playback),
            table_area,
            footer: self.footer(),
            footer_area,
            dialogs: self.dialogs(area, clocks.conversion),
            cursor,
        };
        assert(screen@ =~= self@.screen(area, clocks@));
        screen
    }
}

} // verus!
