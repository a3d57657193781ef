use mausiker::browser::{App, Playback, TrackFilter};
use mausiker::conversion::CompletedConversion;
use mausiker::editor::{EditorTarget, MetadataEditor};
use mausiker::format::{
    album_duration, animated_wave, checked_album_duration, compact_header_path,
    compact_preview_path, format_bytes, format_duration, format_release_year, marquee,
    truncate_to_width, wrap_header_tokens,
};
use mausiker::library::Track;
use mausiker::path::FilePath;
use mausiker::popups::{
    conversion_popup, delete_popup, editor_popup, filter_popup, paths_popup, progress_popup,
    rename_popup, result_popup, Area, Popup, Tone,
};
use mausiker::preview::{
    build_conversion_preview, build_rename_preview, ConversionFailure, ConversionProgress,
    ConversionResult,
};
use mausiker::screen::{screen_areas, Clocks};
use mausiker::time::Duration;

fn path(text: &str) -> FilePath {
    FilePath::from_text(text)
}

fn track(place: &str, title: &str, number: u32) -> Track {
    Track {
        path: path(place),
        title: title.to_owned(),
        artist: "Artist".to_owned(),
        album_artist: "Artist".to_owned(),
        album: "Album".to_owned(),
        release_date: Some("2005-02-01".to_owned()),
        track_number: Some(number),
        duration: Some(Duration::from_secs(185)),
        bytes: 3 * 1024 * 1024 / 2,
    }
}

fn width(text: &str) -> usize {
    ratatui::text::Line::raw(text).width()
}

fn lines(popup: &Popup) -> Vec<&str> {
    popup.lines.iter().map(|line| line.text.as_str()).collect()
}

const SCREEN: Area = Area { x: 0, y: 0, width: 120, height: 40 };

#[test]
fn marquee_has_a_fixed_width_and_moves_the_title() {
    assert_eq!(
        marquee("A long title", 8, Duration::zero()).chars().count(),
        8
    );
    assert_ne!(
        marquee("A long title", 8, Duration::zero()),
        marquee("A long title", 8, Duration::from_millis(2_000))
    );
}

#[test]
fn marquee_enters_on_the_left() {
    assert_eq!(marquee("abc", 4, Duration::zero()), "    ");
    assert_eq!(marquee("abc", 4, Duration::from_millis(180)), "c   ");
    assert_eq!(marquee("abc", 4, Duration::from_millis(3 * 180)), "abc ");
    assert_eq!(marquee("abc", 4, Duration::from_millis(6 * 180 + 179)), "   a");
    assert_eq!(marquee("abc", 4, Duration::from_millis(7 * 180)), "    ");
    assert_eq!(marquee("abc", 0, Duration::from_millis(7)), "");
}

#[test]
fn compact_preview_path_keeps_the_filename_and_meaningful_context() {
    let long_path = path("/home/glenn/Downloads/Illmatic/1_Nas_Illmatic_TheGenesis.m4a");
    let mut expected = std::path::PathBuf::new();
    for component in
        std::path::Path::new("/home/glenn/Downloads/Illmatic/1_Nas_Illmatic_TheGenesis.m4a")
            .components()
            .take(3)
    {
        expected.push(component.as_os_str());
    }
    expected.push("…");
    expected.push("Illmatic");
    expected.push("1_Nas_Illmatic_TheGenesis.m4a");
    assert_eq!(
        compact_preview_path(&long_path),
        expected.display().to_string()
    );
    let short_path = path("/music/Illmatic/01_The_Genesis.m4a");
    assert_eq!(
        compact_preview_path(&short_path),
        "/music/Illmatic/01_The_Genesis.m4a"
    );
}

#[test]
fn compact_preview_path_counts_the_root() {
    assert_eq!(compact_preview_path(&path("a/b/c/d/e")), "a/b/c/d/e");
    assert_eq!(compact_preview_path(&path("a/b/c/d/e/f")), "a/b/c/…/e/f");
    assert_eq!(compact_preview_path(&path("/a/b/c/d")), "/a/b/c/d");
    assert_eq!(compact_preview_path(&path("/a/b/c/d/e")), "/a/b/…/d/e");
}

#[test]
fn short_paths_are_shown_as_they_are_written() {
    assert_eq!(compact_preview_path(&path("/music/")), "/music/");
    assert_eq!(compact_preview_path(&path("/m//a/./b.mp3")), "/m//a/./b.mp3");
    assert_eq!(compact_preview_path(&path("/a//b/./c/d/e")), "/a/b/…/d/e");
    assert_eq!(compact_preview_path(&path("./a/b/c/d/e")), "./a/b/…/d/e");
    assert_eq!(compact_header_path(&path("/music/"), 20), "/music/");
    let app = App::from_tracks(path("/music/"), vec![], 0);
    let zero = Duration::zero();
    assert_eq!(app.header(60, zero, zero)[0].text, "LIBRARY: /music/");
}

#[test]
fn responsive_header_helpers_keep_state_readable_within_the_available_width() {
    let path = compact_header_path(
        &path("/home/glenn/Downloads/Illmatic/1_Nas_Illmatic_TheGenesis.m4a"),
        24,
    );
    assert!(path.starts_with("…/1_Nas_Illmatic"));
    assert_eq!(width(&path), 24);

    let lines = wrap_header_tokens(
        vec![
            "VIEW: Albums".to_owned(),
            "PLAYING: The Genesis".to_owned(),
            "QUEUE: 12".to_owned(),
            "FILTER: No release date".to_owned(),
        ],
        24,
    );
    assert!(lines.iter().all(|line| width(line) <= 24));
    assert!(lines.iter().any(|line| line.contains("PLAYING")));
    assert!(lines.iter().any(|line| line.contains("QUEUE")));
}

#[test]
fn header_tokens_share_lines_where_they_fit() {
    let tokens = |texts: &[&str]| texts.iter().map(|text| (*text).to_owned()).collect::<Vec<_>>();
    assert_eq!(wrap_header_tokens(tokens(&["ab", "cd", "ef"]), 7), ["ab · cd", "ef"]);
    assert_eq!(wrap_header_tokens(tokens(&["ab", "cd"]), 0), [""]);
    assert_eq!(wrap_header_tokens(tokens(&["", "abcdef"]), 4), ["abc…"]);
    assert!(wrap_header_tokens(vec![], 4).is_empty());
}

#[test]
fn texts_are_cut_by_columns() {
    assert_eq!(truncate_to_width("abc", 3), "abc");
    assert_eq!(truncate_to_width("abcd", 3), "ab…");
    assert_eq!(truncate_to_width("abcd", 1), "…");
    assert_eq!(truncate_to_width("abcd", 0), "");
    assert_eq!(truncate_to_width("日本語", 5), "日本…");
    assert_eq!(truncate_to_width("日本語", 4), "日…");
    for columns in 0..20 {
        assert!(width(&truncate_to_width("Sigur Rós – Ágætis byrjun", columns)) <= columns);
    }
}

#[test]
fn header_paths_fall_back_to_the_name() {
    assert_eq!(compact_header_path(&path("/music"), 20), "/music");
    assert_eq!(compact_header_path(&path("/music/library"), 10), "…/library");
    assert_eq!(compact_header_path(&path("/music/.."), 5), "…//m…");
    let odd = FilePath::parse(&b"/long/name/\xff\xff\xff".to_vec());
    assert_eq!(compact_header_path(&odd, 9), "…/Library");
}

#[test]
fn sizes_are_shown_like_floating_point_shows_them() {
    let expected = |bytes: u64| {
        const MIB: u64 = 1024 * 1024;
        if bytes >= MIB {
            format!("{:.1} MiB", bytes as f64 / MIB as f64)
        } else {
            format!("{} KiB", bytes / 1024)
        }
    };
    let mut samples: Vec<u64> = vec![
        0, 1, 1023, 1024, 1_048_575, 1_048_576, 1_101_004, 1_101_005, 1_310_720, 1_835_008,
        (1 << 53) - 1, 1 << 53, (1 << 53) + 1, (1 << 53) + 2, (1 << 53) + 3, u64::MAX,
        u64::MAX - 1023, u64::MAX - 1024, u64::MAX - 1025, u64::MAX / 3,
    ];
    let mut value: u64 = 88_172_645_463_325_252;
    for _ in 0..20_000 {
        value ^= value << 13;
        value ^= value >> 7;
        value ^= value << 17;
        samples.push(value);
        samples.push(value >> 12);
        samples.push(value >> 24);
        samples.push(value >> 40);
        samples.push((value >> 36) << 16);
    }
    for bytes in samples {
        assert_eq!(format_bytes(bytes), expected(bytes), "{bytes}");
    }
    assert_eq!(format_bytes(1_572_864), "1.5 MiB");
}

#[test]
fn lengths_and_years_are_shown() {
    assert_eq!(format_duration(Duration::new(185, 999_999_999)), "03:05");
    assert_eq!(format_duration(Duration::from_secs(6000)), "100:00");
    assert_eq!(format_release_year("2005-02-01"), "2005");
    assert_eq!(format_release_year("200"), "200");
    assert_eq!(format_release_year("c. 2005"), "c. 2005");
    assert_eq!(format_release_year("20٠٥x"), "20٠٥x");
    assert_eq!(animated_wave(Duration::from_millis(0)), "▁▃▅");
    assert_eq!(animated_wave(Duration::from_millis(160)), "▃▅▃");
    assert_eq!(animated_wave(Duration::from_millis(320)), "▅▃▁");
    assert_eq!(animated_wave(Duration::from_millis(639)), "▃▁▃");
    assert_eq!(animated_wave(Duration::from_millis(640)), "▁▃▅");
}

#[test]
fn album_lengths_are_sums() {
    let mut unknown = track("a.mp3", "A", 1);
    unknown.duration = None;
    assert_eq!(album_duration(&vec![unknown.copy()]), None);
    assert_eq!(
        album_duration(&vec![track("b.mp3", "B", 2), unknown, track("c.mp3", "C", 3)]),
        Some(Duration::from_secs(370))
    );
    let mut long = track("d.mp3", "D", 4);
    long.duration = Some(Duration::new(u64::MAX, 999_999_999));
    assert!(checked_album_duration(&vec![long.copy()]).is_ok());
    let mut short = track("e.mp3", "E", 5);
    short.duration = Some(Duration::new(0, 1));
    assert!(checked_album_duration(&vec![long, short]).is_err());
}

#[test]
fn the_header_tells_the_state() {
    let mut app = App::from_tracks(
        path("/music"),
        vec![track("/music/a.mp3", "One", 1), track("/music/b.mp3", "Two", 2)],
        3,
    );
    let zero = Duration::zero();
    let header = app.header(60, zero, zero);
    let texts: Vec<&str> = header.iter().map(|line| line.text.as_str()).collect();
    assert_eq!(
        texts,
        [
            "LIBRARY: /music",
            "1 albums · 2 tracks · 3.0 MiB · 3 unreadable",
            "VIEW: Albums",
        ]
    );
    assert_eq!(header[2].tone, Tone::CyanBold);
    app.toggle_view();
    app.conversion_queue = vec![path("/music/a.mp3")];
    app.search = Some("two".to_owned());
    app.active_filter = Some(TrackFilter::NoReleaseDate);
    app.playback = Some(Playback {
        path: path("/music/a.mp3"),
        title: "One".to_owned(),
    });
    let header = app.header(58, Duration::from_millis(650), Duration::from_millis(540));
    let texts: Vec<&str> = header.iter().map(|line| line.text.as_str()).collect();
    assert_eq!(
        texts,
        [
            "LIBRARY: /music",
            "0/1 folder albums · 0/2 tracks · 0 KiB/3.0 MiB · 3 unread…",
            "VIEW: Folders",
            "PLAYING: One                                  · QUEUE: 1",
            "SEARCH: two · FILTER: No release date",
        ]
    );
    assert_eq!(header[3].tone, Tone::BlackOnLightYellowBold);
    assert_eq!(app.header(58, zero, zero)[3].tone, Tone::BlackOnYellowBold);
}

#[test]
fn the_footer_tells_the_keys() {
    let mut app = App::from_tracks(path("/music"), vec![], 0);
    assert!(app.footer().contains("Space play/stop"));
    assert!(app.footer().contains("r rescan · R rename"));
    app.status = Some("Done".to_owned());
    assert_eq!(
        app.footer(),
        "Done · c queue · C convert · d delete originals · q quit"
    );
    app.search = Some("x".to_owned());
    assert!(app.footer().contains("Esc clear filter"));
    app.filter_menu = Some(0);
    assert!(app.footer().starts_with("Filter menu"));
    app.search_input = Some("na".to_owned());
    assert_eq!(
        app.footer(),
        "Search albums/artists: na  · Enter apply · Esc cancel · empty Enter clears"
    );
}

#[test]
fn the_table_shows_albums_and_tracks() {
    let mut other = track("/music/Rap/A/One/b.flac", "Two", 12);
    other.release_date = None;
    other.duration = None;
    other.track_number = None;
    let mut app = App::from_tracks(
        path("/music"),
        vec![track("/music/Rap/A/One/a.mp3", "One", 1), other],
        0,
    );
    app.expanded_albums.insert(0);
    app.conversion_queue = vec![path("/music/Rap/A/One/b.flac")];
    app.playback = Some(Playback {
        path: path("/music/Rap/A/One/a.mp3"),
        title: "One".to_owned(),
    });
    let table = app.table(Duration::from_millis(160));
    assert_eq!(table.len(), 3);
    assert_eq!(
        table[0].cells,
        ["▼ Album", "Artist", "2 tracks", "2005", "03:05", "ALBUM", "3.0 MiB"]
    );
    assert_eq!(table[0].tone, Tone::YellowBold);
    assert_eq!(
        table[1].cells,
        ["▃▅▃└─     01  One", "Artist", "", "2005", "03:05", "MP3", "1.5 MiB"]
    );
    assert_eq!(
        table[2].cells,
        ["  └─ [Q] --  Two", "Artist", "", "—", "—", "FLAC", "1.5 MiB"]
    );
    assert_eq!(table[2].title_tone, Tone::CyanBold);
    app.toggle_view();
    let table = app.table(Duration::zero());
    assert_eq!(
        table[0].cells,
        ["▶ Rap", "", "1 albums", "", "", "FOLDER", ""]
    );
    assert_eq!(table[0].tone, Tone::MagentaBold);
    assert_eq!(app.columns()[0], "Album folder");
    app.toggle_view();
    assert_eq!(app.columns()[2], "Album");
}

#[test]
fn the_screen_is_parted() {
    let (header, table, footer) = screen_areas(SCREEN, 3);
    assert_eq!(header, Area { x: 0, y: 0, width: 120, height: 5 });
    assert_eq!(table, Area { x: 0, y: 5, width: 120, height: 32 });
    assert_eq!(footer, Area { x: 0, y: 37, width: 120, height: 3 });
}

#[test]
fn open_dialogs_are_stacked() {
    let mut app = App::from_tracks(path("/music"), vec![track("/music/a.mp3", "One", 1)], 0);
    let zero = Duration::zero();
    let clocks = Clocks { program: zero, playback: zero, conversion: zero };
    assert!(app.can_show(SCREEN));
    let screen = app.screen(SCREEN, clocks);
    assert!(screen.dialogs.is_empty());
    assert_eq!(screen.cursor, None);
    assert_eq!(screen.header_area.height, 5);
    assert_eq!(screen.rows.len(), 1);
    app.open_filter_menu();
    app.open_editor();
    let screen = app.screen(SCREEN, clocks);
    let titles: Vec<&str> = screen.dialogs.iter().map(|popup| popup.title).collect();
    assert_eq!(titles, [" Edit metadata ", " Filter "]);
    assert_eq!(screen.cursor, Some((48, 18)));
    app.playback = Some(Playback { path: path("x"), title: String::new() });
    assert!(!app.can_show(Area { x: 0, y: 0, width: 12, height: 10 }));
    assert!(app.can_show(Area { x: 0, y: 0, width: 13, height: 10 }));
    assert!(!app.can_show(Area { x: 65_535, y: 0, width: 13, height: 10 }));
}

#[test]
fn the_filter_menu_is_shown() {
    let popup = filter_popup(SCREEN, 1);
    assert_eq!(popup.title, " Filter ");
    assert_eq!(popup.area, Area { x: 39, y: 15, width: 42, height: 9 });
    assert_eq!(
        lines(&popup),
        [
            "Choose a track filter:",
            "",
            "   All tracks",
            " > No release date",
            "   New (last 2 weeks)",
            "",
            "New uses the file modification time from the last 14 days.",
        ]
    );
    assert_eq!(popup.lines[3].tone, Tone::BlackOnCyanBold);
    let tiny = filter_popup(Area { x: 2, y: 1, width: 3, height: 6 }, 0);
    assert_eq!(tiny.area, Area { x: 3, y: 3, width: 0, height: 2 });
}

#[test]
fn the_rename_preview_is_shown() {
    let mut missing = track("/m/old.mp3", "B", 2);
    missing.track_number = None;
    let tracks = vec![
        track("/m/01_A.mp3", "A", 1),
        missing,
        track("/m/x.mp3", "C", 3),
        track("/m/y.mp3", "D", 4),
    ];
    let mut preview = build_rename_preview(&tracks, &vec![path("/m/03_C.mp3")]);
    let popup = rename_popup(SCREEN, &preview);
    assert_eq!(popup.area, Area { x: 5, y: 13, width: 110, height: 14 });
    assert_eq!(
        lines(&popup),
        [
            "1 track(s) ready · 3 skipped · showing 1–4 of 4",
            "KEEP    /m/01_A.mp3 (already matches)",
            "",
            "SKIP    /m/old.mp3 (missing track number)",
            "",
            "SKIP    /m/x.mp3",
            "    →   /m/03_C.mp3 (target already exists or is duplicated)",
            "RENAME  /m/y.mp3",
            "    →   /m/04_D.mp3",
            "",
            "↑/k ↓/j review · y confirm rename · Esc keep current names",
        ]
    );
    preview.scroll = 3;
    let popup = rename_popup(Area { x: 0, y: 0, width: 50, height: 14 }, &preview);
    assert_eq!(popup.area.height, 10);
    assert_eq!(lines(&popup)[0], "1 track(s) ready · 3 skipped · showing 3–4 of 4");
    assert_eq!(lines(&popup)[3], "RENAME  /m/y.mp3");
}

#[test]
fn the_deletion_is_shown() {
    let completed = vec![CompletedConversion {
        original: path("/m/a.mp3"),
        output: path("/m-m4a/a.m4a"),
    }];
    let popup = delete_popup(SCREEN, &completed, 7);
    assert_eq!(popup.title, " Review original-file deletion ");
    assert_eq!(popup.area.height, 9);
    assert_eq!(
        lines(&popup),
        [
            "Delete 1 verified original track(s)? This cannot be undone. Showing 1–1 of 1.",
            "DELETE  /m/a.mp3",
            "KEEP    /m-m4a/a.m4a",
            "",
            "↑/k ↓/j review · M4As are re-verified.  y confirm deletion · Esc keep originals",
        ]
    );
}

#[test]
fn the_editor_is_shown_with_its_cursor() {
    let mut editor = MetadataEditor {
        target: EditorTarget::Album(0),
        values: vec!["Ébc".to_owned(), "Album".to_owned(), "2005".to_owned()],
        active_field: 0,
        cursor_positions: vec![2, 0, 0],
    };
    let (popup, cursor) = editor_popup(SCREEN, &editor);
    assert_eq!(popup.area, Area { x: 25, y: 15, width: 70, height: 9 });
    assert_eq!(
        lines(&popup),
        [
            "←/→ move cursor · Tab/↑/↓ switch field · Enter save · Esc cancel",
            "",
            "> Album artist: Ébc",
            "  Album: Album",
            "  Release date: 2005",
        ]
    );
    assert_eq!(cursor, Some((25 + 1 + 17, 18)));
    editor.values[2] = "05".to_owned();
    editor.active_field = 2;
    let (popup, cursor) = editor_popup(SCREEN, &editor);
    assert_eq!(popup.lines[4].tone, Tone::RedBold);
    assert_eq!(
        lines(&popup)[6],
        "Invalid date — use YYYY, YYYY-MM, or YYYY-MM-DD. Enter is disabled."
    );
    assert_eq!(popup.lines[6].tone, Tone::Red);
    assert_eq!(cursor, Some((25 + 1 + 16, 20)));
    let (_, cursor) = editor_popup(Area { x: 0, y: 0, width: 10, height: 40 }, &editor);
    assert_eq!(cursor, None);
}

#[test]
fn paths_are_shown_as_far_as_they_fit() {
    let paths: Vec<FilePath> = (0..4).map(|i| path(&format!("/m/{i}"))).collect();
    let popup = paths_popup(SCREEN, &paths);
    assert_eq!(popup.area.height, 8);
    assert_eq!(
        lines(&popup),
        ["/m/0", "/m/1", "/m/2", "/m/3", "", "Esc, Enter, or i to close"]
    );
    let popup = paths_popup(Area { x: 0, y: 0, width: 50, height: 11 }, &paths);
    assert_eq!(popup.area.height, 7);
    assert_eq!(
        lines(&popup),
        ["/m/0", "/m/1", "… and 2 more", "", "Esc, Enter, or i to close"]
    );
}

#[test]
fn the_progress_is_shown() {
    let mut progress = ConversionProgress {
        total: 5,
        processed: 3,
        successful: 2,
        unsuccessful: 1,
        current_path: Some(path("/m/a.mp3")),
    };
    let popup = progress_popup(SCREEN, &progress, Duration::from_millis(90));
    assert_eq!(
        lines(&popup),
        [
            "⠙ Converting: a.mp3",
            "",
            "Processed: 3/5",
            "Successful: 2",
            "Unsuccessful: 1",
            "Remaining: 2",
        ]
    );
    assert_eq!(popup.lines[3].tone, Tone::Green);
    progress.current_path = None;
    let popup = progress_popup(SCREEN, &progress, Duration::from_millis(799));
    assert_eq!(lines(&popup)[0], "⠏ Converting: Preparing next track…");
}

#[test]
fn the_conversion_preview_is_shown() {
    let preview = build_conversion_preview(
        &path("/m"),
        &vec![path("/m/a.mp3"), path("/m/b.m4a"), path("/m/c.ogg"), path("/x/d.mp3")],
        &vec![path("/m/c.m4a")],
    );
    let popup = conversion_popup(SCREEN, &preview);
    assert_eq!(
        lines(&popup),
        [
            "M4A files are written beside their sources · 1 ready · 3 skipped · showing 1–4 of 4",
            "CONVERT  /m/a.mp3",
            "    →    /m/a.m4a",
            "SKIP     /m/b.m4a (already M4A)",
            "",
            "SKIP     /m/c.ogg",
            "    →    /m/c.m4a (output already exists)",
            "SKIP     /x/d.mp3 (outside the selected library)",
            "",
            "",
            "↑/k ↓/j review · y start ready conversions · Esc keep queue",
        ]
    );
}

#[test]
fn the_result_is_shown() {
    let result = ConversionResult {
        successful: vec![CompletedConversion {
            original: path("/m/a.mp3"),
            output: path("/m-m4a/a.m4a"),
        }],
        failures: vec![ConversionFailure {
            source: path("/m/b.mp3"),
            error: "no".to_owned(),
        }],
        remaining_queued: 4,
        scroll: 0,
    };
    let popup = result_popup(SCREEN, &result);
    assert_eq!(popup.title, " Conversion results ");
    assert_eq!(
        lines(&popup),
        [
            "1 verified · 1 failed · 4 remain queued · showing 1–2 of 2",
            "VERIFIED  /m/a.mp3",
            "    →     /m-m4a/a.m4a",
            "FAILED    /m/b.mp3",
            "    no",
            "",
            "↑/k ↓/j review · Esc close",
        ]
    );
}
