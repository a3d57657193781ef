use mausiker::actions::{may_delete_original, Deletion};
use mausiker::albums::{folder_groups, group_by_album, group_by_folder};
use mausiker::browser::{track_is_new, App, Key, LibraryRow, Playback, TrackFilter, ViewMode};
use mausiker::editor::{EditorTarget, MetadataEditor};
use mausiker::keys::Action;
use mausiker::library::Track;
use mausiker::path::FilePath;
use mausiker::preview::{ConversionProgress, ConversionUpdate};
use mausiker::rescan::Scan;
use mausiker::time::Duration;

fn path(text: &str) -> FilePath {
    FilePath::from_text(text)
}

fn track(title: &str, artist: &str, album_artist: &str, album: &str, track_number: u32) -> Track {
    Track {
        path: path(&format!("{track_number}.mp3")),
        title: title.to_owned(),
        artist: artist.to_owned(),
        album_artist: album_artist.to_owned(),
        album: album.to_owned(),
        release_date: Some("2005".to_owned()),
        track_number: Some(track_number),
        duration: Some(Duration::from_secs(180)),
        bytes: 1,
    }
}

fn at(place: &str, title: &str, number: u32) -> Track {
    let mut track = track(title, "Artist", "Artist", "Album", number);
    track.path = path(place);
    track
}

fn app_of(tracks: Vec<Track>) -> App {
    App::from_tracks(FilePath::empty(), tracks, 0)
}

fn titles(tracks: &[Track]) -> Vec<&str> {
    tracks.iter().map(|track| track.title.as_str()).collect()
}

fn status(app: &App) -> &str {
    app.status.as_deref().unwrap_or("")
}

#[test]
fn groups_an_album_and_sorts_its_tracks_by_number() {
    let albums = group_by_album(vec![
        track("Second", "Artist", "Artist", "Album", 2),
        track("First", "Artist", "Artist", "Album", 1),
    ]);
    assert_eq!(albums.len(), 1);
    assert_eq!(
        albums[0]
            .tracks
            .iter()
            .map(|track| track.title.as_str())
            .collect::<Vec<_>>(),
        ["First", "Second"]
    );
}

#[test]
fn groups_compilation_tracks_with_different_album_artists() {
    let albums = group_by_album(vec![
        track("First", "Artist One", "Artist One", "Smash Hits Vol. 20", 1),
        track("Second", "Artist Two", "Artist Two", "Smash Hits Vol. 20", 2),
    ]);

    assert_eq!(albums.len(), 1);
    assert_eq!(albums[0].artist, "Various Artists");
    assert_eq!(albums[0].tracks.len(), 2);
}

#[test]
fn tracks_without_a_number_come_last_and_equal_numbers_go_by_title() {
    let mut unnumbered = track("A", "Artist", "Artist", "Album", 9);
    unnumbered.track_number = None;
    let albums = group_by_album(vec![
        unnumbered,
        track("C", "Artist", "Artist", "Album", 1),
        track("B", "Artist", "Artist", "Album", 1),
    ]);
    assert_eq!(titles(&albums[0].tracks), ["B", "C", "A"]);
}

#[test]
fn albums_come_in_the_order_of_their_first_tracks() {
    let albums = group_by_album(vec![
        track("1", "A", "A", "Second album", 1),
        track("2", "A", "A", "First album", 1),
        track("3", "A", "A", "Second album", 2),
    ]);
    let names: Vec<&str> = albums.iter().map(|album| album.title.as_str()).collect();
    assert_eq!(names, ["Second album", "First album"]);
    assert_eq!(albums[0].tracks.len() + albums[1].tracks.len(), 3);
}

#[test]
fn search_matches_featured_track_artists() {
    let mut app = app_of(vec![track(
        "Patiently Waiting",
        "50 Cent feat. Eminem",
        "50 Cent",
        "The Massacre",
        1,
    )]);
    app.search = Some("eminem".to_owned());
    assert_eq!(app.visible_rows(), vec![LibraryRow::Album(0)]);
}

#[test]
fn collapsing_from_a_track_selects_its_album_row() {
    let mut app = app_of(vec![track("First", "Artist", "Artist", "Album", 1)]);
    app.expanded_albums.insert(0);
    app.selected = Some(1);
    app.collapse_selected_album();
    assert!(app.expanded_albums.is_empty());
    assert_eq!(app.selected, Some(0));
}

#[test]
fn folder_view_derives_group_artist_and_album_from_paths() {
    let mut first = track(
        "First",
        "Metadata artist",
        "Metadata artist",
        "Metadata album",
        1,
    );
    first.path = path("/music/Rap/50 Cent/The Massacre/01.mp3");
    let folders = group_by_folder(&path("/music"), vec![first]);
    assert_eq!(folders.len(), 1);
    assert_eq!(folders[0].group.as_deref(), Some("Rap"));
    assert_eq!(folders[0].artist, "50 Cent");
    assert_eq!(folders[0].title, "The Massacre");
}

#[test]
fn folder_view_creates_separate_top_level_groups() {
    let mut mine = track("First", "Artist", "Artist", "Album", 1);
    mine.path = path("/music/me/Artist/Album/01.mp3");
    let mut lucas = track("Second", "Artist", "Artist", "Album", 1);
    lucas.path = path("/music/lucas/Artist/Album/01.mp3");
    let albums = group_by_folder(&path("/music"), vec![mine, lucas]);
    let groups = folder_groups(&albums);
    assert_eq!(groups.len(), 2);
    assert_eq!(groups[0].title, "lucas");
    assert_eq!(groups[1].title, "me");
}

#[test]
fn albums_below_the_root_lie_in_the_group_of_the_root() {
    let albums = group_by_folder(
        &path("/music"),
        vec![
            at("/music/Artist/Album/01.mp3", "One", 1),
            at("/music/Rap/Old/Artist/Album/01.mp3", "Two", 1),
            at("/01.mp3", "Three", 1),
        ],
    );
    let groups = folder_groups(&albums);
    let names: Vec<&str> = groups.iter().map(|group| group.title.as_str()).collect();
    assert_eq!(names, ["Library root", "Rap/Old"]);
    assert_eq!(groups[0].albums, [0, 1]);
    assert_eq!(albums[1].title, "Unknown album folder");
    assert_eq!(albums[1].artist, "music");
}

#[test]
fn no_release_date_filter_keeps_only_matching_tracks() {
    let mut missing_date = track("Missing date", "Artist", "Artist", "Album", 1);
    missing_date.release_date = None;
    let mut app = app_of(vec![
        missing_date,
        track("Has date", "Artist", "Artist", "Album", 2),
    ]);
    app.active_filter = Some(TrackFilter::NoReleaseDate);
    app.expanded_albums.insert(0);
    assert_eq!(
        app.visible_rows(),
        vec![
            LibraryRow::Album(0),
            LibraryRow::Track { album: 0, track: 0 }
        ]
    );
}

#[test]
fn new_filter_keeps_only_recent_files() {
    let mut app = app_of(vec![
        track("Old", "Artist", "Artist", "Album", 1),
        track("Recent", "Artist", "Artist", "Album", 2),
        track("Other", "Artist", "Artist", "Other album", 3),
    ]);
    app.recent = vec![path("2.mp3")];
    app.active_filter = Some(TrackFilter::New);
    app.expanded_albums.insert(0);
    assert_eq!(
        app.visible_rows(),
        vec![
            LibraryRow::Album(0),
            LibraryRow::Track { album: 0, track: 1 }
        ]
    );
}

#[test]
fn a_file_is_new_for_two_weeks() {
    assert!(track_is_new(Some(Duration::from_secs(14 * 24 * 60 * 60))));
    assert!(!track_is_new(Some(Duration::new(14 * 24 * 60 * 60, 1))));
    assert!(!track_is_new(None));
}

#[test]
fn visible_library_totals_reflect_active_search_and_track_filter() {
    let mut first = track("First", "Artist One", "Artist One", "Record One", 1);
    first.release_date = None;
    let mut app = app_of(vec![
        first,
        track("Second", "Artist One", "Artist One", "Record One", 2),
        track("Third", "Artist Two", "Artist Two", "Record Two", 1),
    ]);
    app.search = Some("record one".to_owned());

    assert_eq!(app.visible_library_totals(), (1, 2, 2));

    app.active_filter = Some(TrackFilter::NoReleaseDate);
    assert_eq!(app.visible_library_totals(), (1, 1, 1));
}

#[test]
fn totals_that_do_not_fit_are_told() {
    let mut large = track("Large", "Artist", "Artist", "Album", 1);
    large.bytes = u64::MAX;
    let app = app_of(vec![large.copy()]);
    assert!(app.totals_fit());
    let app = app_of(vec![large, track("Small", "Artist", "Artist", "Album", 2)]);
    assert!(!app.totals_fit());
    let mut long = track("Long", "Artist", "Artist", "Album", 1);
    long.duration = Some(Duration::from_secs(u64::MAX));
    let app = app_of(vec![long, track("Short", "Artist", "Artist", "Album", 2)]);
    assert!(!app.totals_fit());
}

#[test]
fn conversion_progress_counts_successes_and_failures() {
    let mut app = App::from_tracks(FilePath::empty(), Vec::new(), 0);
    app.conversion_progress = Some(ConversionProgress {
        total: 2,
        processed: 0,
        successful: 0,
        unsuccessful: 0,
        current_path: None,
    });
    app.refresh_conversion(vec![ConversionUpdate::Started(path("current.mp3"))], None);
    assert_eq!(
        app.conversion_progress.as_ref().unwrap().current_path,
        Some(path("current.mp3"))
    );
    app.refresh_conversion(
        vec![ConversionUpdate::Finished {
            source: path("failed.mp3"),
            result: Err("conversion failed".to_owned()),
        }],
        None,
    );

    let progress = app.conversion_progress.as_ref().unwrap();
    assert_eq!(progress.processed, 1);
    assert_eq!(progress.successful, 0);
    assert_eq!(progress.unsuccessful, 1);
    assert_eq!(app.conversion_queue, [path("failed.mp3")]);
}

#[test]
fn queue_key_toggles_a_track_and_advances_to_the_next_row() {
    let mut app = app_of(vec![
        track("First", "Artist", "Artist", "Album", 1),
        track("Second", "Artist", "Artist", "Album", 2),
    ]);
    app.expanded_albums.insert(0);
    app.selected = Some(1);

    app.enqueue_selected();

    assert_eq!(app.conversion_queue, [path("1.mp3")]);
    assert_eq!(
        app.selected_row(),
        Some(LibraryRow::Track { album: 0, track: 1 })
    );

    app.selected = Some(1);
    app.enqueue_selected();

    assert!(app.conversion_queue.is_empty());
    assert_eq!(
        app.selected_row(),
        Some(LibraryRow::Track { album: 0, track: 1 })
    );
}

#[test]
fn queue_key_on_an_album_toggles_all_eligible_tracks() {
    let mut app = app_of(vec![
        track("First", "Artist", "Artist", "Album", 1),
        track("Second", "Artist", "Artist", "Album", 2),
    ]);

    app.enqueue_selected();

    assert_eq!(app.conversion_queue, [path("1.mp3"), path("2.mp3")]);

    app.enqueue_selected();

    assert!(app.conversion_queue.is_empty());
}

#[test]
fn queueing_says_what_it_did() {
    let mut app = app_of(vec![
        at("a.mp3", "First", 1),
        at("b.M4A", "Second", 2),
        at("c.mp3", "Third", 3),
    ]);
    app.conversion_queue = vec![path("c.mp3")];
    app.enqueue_selected();
    assert_eq!(status(&app), "Queued 1 track(s); 1 already queued");
    assert_eq!(app.conversion_queue, [path("c.mp3"), path("a.mp3")]);
    app.enqueue_selected();
    assert_eq!(status(&app), "Removed 2 track(s) from the conversion queue");
    app.enqueue_selected();
    assert_eq!(status(&app), "Queued 2 track(s) for M4A conversion");
    app.expanded_albums.insert(0);
    app.selected = Some(2);
    app.enqueue_selected();
    assert_eq!(status(&app), "M4A files are already in the target format");
    assert_eq!(app.selected, Some(3));
    app.enqueue_selected();
    assert_eq!(status(&app), "Removed track from the conversion queue");
    assert_eq!(app.selected, Some(0));
    app.selected = None;
    app.status = None;
    app.enqueue_selected();
    assert_eq!(app.status, None);
}

#[test]
fn queue_key_on_a_group_takes_all_of_its_albums() {
    let mut app = App::from_tracks(
        path("/music"),
        vec![
            at("/music/Rap/A/One/1.mp3", "One", 1),
            at("/music/Rap/B/Two/2.m4a", "Two", 1),
            at("/music/Rap/C/Three/3.mp3", "Three", 1),
        ],
        0,
    );
    app.toggle_view();
    assert_eq!(app.visible_rows(), vec![LibraryRow::FolderGroup(0)]);
    app.enqueue_selected();
    assert_eq!(
        app.conversion_queue,
        [path("/music/Rap/A/One/1.mp3"), path("/music/Rap/C/Three/3.mp3")]
    );
}

#[test]
fn applying_a_filter_keeps_expanded_items_open() {
    let mut app = app_of(vec![track("Title", "Artist", "Artist", "Album", 1)]);
    app.expanded_albums.insert(0);
    app.expanded_folder_groups.insert(0);
    app.filter_menu = Some(1);

    app.handle_filter_menu_key(Key::Enter);

    assert!(app.expanded_albums.contains(&0));
    assert!(app.expanded_folder_groups.contains(&0));
}

#[test]
fn the_filter_menu_goes_round() {
    let mut app = app_of(vec![track("Title", "Artist", "Artist", "Album", 1)]);
    app.open_filter_menu();
    assert_eq!(app.filter_menu, Some(0));
    app.handle_filter_menu_key(Key::Up);
    assert_eq!(app.filter_menu, Some(2));
    app.handle_filter_menu_key(Key::Char('j'));
    assert_eq!(app.filter_menu, Some(0));
    app.handle_filter_menu_key(Key::Down);
    app.handle_filter_menu_key(Key::Enter);
    assert_eq!(app.active_filter, Some(TrackFilter::NoReleaseDate));
    assert_eq!(status(&app), "Filter applied: No release date");
    assert_eq!(app.selected, None);
    app.open_filter_menu();
    assert_eq!(app.filter_menu, Some(1));
    app.handle_filter_menu_key(Key::Char('k'));
    app.handle_filter_menu_key(Key::Enter);
    assert_eq!(status(&app), "Filter cleared");
    assert_eq!(app.selected, Some(0));
    app.open_filter_menu();
    app.handle_filter_menu_key(Key::Esc);
    assert_eq!(app.filter_menu, None);
}

#[test]
fn a_search_is_typed_applied_and_cleared() {
    let mut app = app_of(vec![
        track("One", "Nas", "Nas", "Illmatic", 1),
        track("Two", "Björk", "Björk", "Debut", 1),
    ]);
    let before = app.visible_rows();
    app.open_search();
    for character in "  BJÖRKX".chars() {
        app.handle_search_key(Key::Char(character));
    }
    app.handle_search_key(Key::Backspace);
    app.handle_search_key(Key::Enter);
    assert_eq!(app.search.as_deref(), Some("björk"));
    assert_eq!(app.visible_rows(), vec![LibraryRow::Album(1)]);
    assert_eq!(app.selected, Some(0));
    assert!(app.clear_search());
    assert_eq!(app.visible_rows(), before);
    assert!(!app.clear_search());
    app.open_search();
    app.handle_search_key(Key::Char(' '));
    app.handle_search_key(Key::Enter);
    assert_eq!(app.search, None);
    app.open_search();
    app.handle_search_key(Key::Esc);
    assert_eq!(app.search_input, None);
}

#[test]
fn search_looks_into_titles_artists_and_groups() {
    let mut app = App::from_tracks(
        path("/music"),
        vec![at("/music/Rap/Nas/Illmatic/1.mp3", "One", 1)],
        0,
    );
    app.view_mode = ViewMode::Folders;
    for found in ["illm", "nas", "rap", "artist"] {
        app.search = Some(found.to_owned());
        assert_eq!(app.visible_rows(), vec![LibraryRow::FolderGroup(0)], "{found}");
    }
    app.search = Some("one".to_owned());
    assert!(app.visible_rows().is_empty());
}

#[test]
fn the_selection_goes_round() {
    let mut app = app_of(vec![
        track("One", "A", "A", "First", 1),
        track("Two", "A", "A", "Second", 1),
    ]);
    app.next();
    assert_eq!(app.selected, Some(1));
    app.next();
    assert_eq!(app.selected, Some(0));
    app.previous();
    assert_eq!(app.selected, Some(1));
    app.selected = None;
    app.next();
    assert_eq!(app.selected, Some(0));
    app.selected = None;
    app.previous();
    assert_eq!(app.selected, Some(0));
    let mut empty = app_of(Vec::new());
    empty.next();
    empty.previous();
    assert_eq!(empty.selected, None);
}

#[test]
fn rows_expand_and_collapse_in_both_views() {
    let mut app = App::from_tracks(
        path("/music"),
        vec![
            at("/music/Rap/A/One/1.mp3", "One", 1),
            at("/music/Rap/A/One/2.mp3", "Two", 2),
        ],
        0,
    );
    app.toggle_selected_album();
    assert_eq!(app.visible_rows().len(), 3);
    app.toggle_selected_album();
    assert_eq!(app.visible_rows().len(), 1);
    app.toggle_view();
    assert_eq!(status(&app), "Folder view");
    app.toggle_selected_album();
    assert_eq!(app.visible_rows().len(), 2);
    app.toggle_selected_album();
    assert_eq!(app.visible_rows(), vec![LibraryRow::FolderGroup(0)]);
    assert_eq!(app.selected, Some(0));
    app.expand_selected_album();
    app.next();
    app.expand_selected_album();
    assert_eq!(
        app.visible_rows(),
        vec![
            LibraryRow::FolderGroup(0),
            LibraryRow::FolderAlbum(0),
            LibraryRow::Track { album: 0, track: 0 },
            LibraryRow::Track { album: 0, track: 1 },
        ]
    );
    app.selected = Some(3);
    app.collapse_selected_album();
    assert_eq!(app.selected, Some(1));
    app.selected = Some(0);
    app.collapse_selected_album();
    assert_eq!(app.visible_rows(), vec![LibraryRow::FolderGroup(0)]);
    app.toggle_view();
    assert_eq!(status(&app), "Album metadata view");
    assert_eq!(app.selected, Some(0));
}

#[test]
fn a_rescan_keeps_what_is_expanded_and_selected() {
    let tracks = || {
        vec![
            at("/music/a/1.mp3", "One", 1),
            at("/music/a/2.mp3", "Two", 2),
        ]
    };
    let mut app = App::from_tracks(path("/music"), tracks(), 0);
    app.expanded_albums.insert(0);
    app.selected = Some(2);
    let mut more = tracks();
    let mut other = track("Other", "A", "A", "Another album", 1);
    other.path = path("/music/b/1.mp3");
    more.insert(0, other);
    app.rescan_preserving_browser_state(Scan { tracks: more, unreadable: 3, recent: vec![] });
    assert_eq!(app.unreadable, 3);
    assert_eq!(
        app.visible_rows(),
        vec![
            LibraryRow::Album(0),
            LibraryRow::Album(1),
            LibraryRow::Track { album: 1, track: 0 },
            LibraryRow::Track { album: 1, track: 1 },
        ]
    );
    assert_eq!(app.selected, Some(3));
    app.rescan_preserving_browser_state(Scan { tracks: Vec::new(), unreadable: 0, recent: vec![] });
    assert_eq!(app.selected, None);
}

#[test]
fn a_rescan_keeps_groups_in_the_folder_view() {
    let tracks = || vec![at("/music/Rap/A/One/1.mp3", "One", 1)];
    let mut app = App::from_tracks(path("/music"), tracks(), 0);
    app.toggle_view();
    app.expand_selected_album();
    app.rescan_preserving_browser_state(Scan { tracks: tracks(), unreadable: 0, recent: vec![] });
    assert_eq!(
        app.visible_rows(),
        vec![LibraryRow::FolderGroup(0), LibraryRow::FolderAlbum(0)]
    );
    assert_eq!(app.selected, Some(0));
    app.rescan(Scan { tracks: tracks(), unreadable: 1, recent: vec![] });
    assert_eq!(app.visible_rows(), vec![LibraryRow::FolderGroup(0)]);
}

#[test]
fn a_rescan_tells_which_files_are_new() {
    let mut app = app_of(vec![track("One", "A", "A", "First", 1)]);
    app.active_filter = Some(TrackFilter::New);
    assert!(app.visible_rows().is_empty());
    app.rescan_preserving_browser_state(Scan {
        tracks: vec![track("One", "A", "A", "First", 1)],
        unreadable: 0,
        recent: vec![path("1.mp3")],
    });
    assert_eq!(app.visible_rows(), vec![LibraryRow::Album(0)]);
    assert_eq!(app.selected, Some(0));
}

#[test]
fn a_conversion_ends_with_a_result() {
    let mut app = App::from_tracks(
        path("/music"),
        vec![
            at("/music/a/1.mp3", "One", 1),
            at("/music/a/2.mp3", "Two", 2),
        ],
        0,
    );
    app.enqueue_selected();
    app.open_conversion_preview(&vec![]);
    let queued = app.handle_conversion_preview(Key::Char('y'));
    assert_eq!(queued, [path("/music/a/1.mp3"), path("/music/a/2.mp3")]);
    assert!(app.conversion_queue.is_empty());
    assert_eq!(app.conversion_progress.as_ref().unwrap().total, 2);
    let completed = mausiker::conversion::CompletedConversion {
        original: path("/music/a/1.mp3"),
        output: path("/music-m4a/a/1.m4a"),
    };
    app.refresh_conversion(
        vec![
            ConversionUpdate::Started(path("/music/a/1.mp3")),
            ConversionUpdate::Finished {
                source: path("/music/a/1.mp3"),
                result: Ok(completed),
            },
            ConversionUpdate::Finished {
                source: path("/music/a/2.mp3"),
                result: Err("no".to_owned()),
            },
        ],
        Some(Scan { tracks: Vec::new(), unreadable: 0, recent: vec![] }),
    );
    assert_eq!(status(&app), "Converted and verified 1 track(s); 1 remain queued");
    assert!(app.conversion_progress.is_none());
    let result = app.conversion_result.as_ref().unwrap();
    assert_eq!(result.total(), 2);
    assert_eq!(result.remaining_queued, 1);
    assert_eq!(result.failures[0].error, "no");
    assert_eq!(app.completed_conversions.len(), 1);
    app.handle_conversion_result(Key::Down);
    app.handle_conversion_result(Key::Down);
    assert_eq!(app.conversion_result.as_ref().unwrap().scroll, 1);
    app.handle_conversion_result(Key::Up);
    assert_eq!(app.conversion_result.as_ref().unwrap().scroll, 0);
    app.handle_conversion_result(Key::Char('C'));
    assert!(app.conversion_result.is_none());
}

#[test]
fn conflicts_stay_in_the_queue() {
    let mut app = App::from_tracks(path("/music"), Vec::new(), 0);
    app.open_conversion_preview(&vec![]);
    assert_eq!(status(&app), "Conversion queue is empty");
    app.conversion_queue = vec![path("/music/1.mp3"), path("/elsewhere/2.mp3")];
    app.open_conversion_preview(&vec![path("/music/1.m4a")]);
    let queued = app.handle_conversion_preview(Key::Char('Y'));
    assert!(queued.is_empty());
    assert_eq!(
        status(&app),
        "No queued tracks can be converted; conflicts remain queued"
    );
    assert_eq!(app.conversion_queue, [path("/music/1.mp3"), path("/elsewhere/2.mp3")]);
    app.open_conversion_preview(&vec![]);
    app.handle_conversion_preview(Key::Down);
    assert_eq!(app.conversion_preview.as_ref().unwrap().scroll, 1);
    app.handle_conversion_preview(Key::Up);
    app.handle_conversion_preview(Key::Esc);
    assert!(app.conversion_preview.is_none());
    assert_eq!(status(&app), "Conversion cancelled");
}

#[test]
fn originals_are_kept_unless_verified_and_removed() {
    let completed = |name: &str| mausiker::conversion::CompletedConversion {
        original: path(&format!("{name}.mp3")),
        output: path(&format!("{name}.m4a")),
    };
    let mut app = app_of(Vec::new());
    app.request_delete_originals();
    assert_eq!(status(&app), "No verified conversions are available to delete");
    app.completed_conversions = vec![completed("a"), completed("b"), completed("c")];
    app.request_delete_originals();
    assert!(!app.handle_delete_confirmation(Key::Down));
    assert_eq!(app.delete_confirmation, Some(1));
    assert!(!app.handle_delete_confirmation(Key::Up));
    assert!(app.handle_delete_confirmation(Key::Char('y')));
    assert!(may_delete_original(&Ok(())));
    assert!(!may_delete_original(&Err("empty".to_owned())));
    app.finish_deletion(
        &vec![
            Deletion { verified: true, removed: true },
            Deletion { verified: false, removed: false },
            Deletion { verified: true, removed: false },
        ],
        Scan { tracks: Vec::new(), unreadable: 0, recent: vec![] },
    );
    assert_eq!(status(&app), "Deleted 1 original track(s) after verification");
    assert_eq!(app.delete_confirmation, None);
    let kept: Vec<String> = app
        .completed_conversions
        .iter()
        .map(|completed| completed.original.display())
        .collect();
    assert_eq!(kept, ["b.mp3", "c.mp3"]);
    app.request_delete_originals();
    app.handle_delete_confirmation(Key::Char('n'));
    assert_eq!(status(&app), "Original files kept");
}

#[test]
fn renaming_updates_every_path() {
    let mut app = App::from_tracks(
        path("/music"),
        vec![
            at("/music/a/x.mp3", "One", 1),
            at("/music/a/y.mp3", "Two", 2),
            at("/music/a/03_Three.mp3", "Three", 3),
        ],
        0,
    );
    app.conversion_queue = vec![path("/music/a/x.mp3")];
    app.playback = Some(Playback {
        path: path("/music/a/x.mp3"),
        title: "One".to_owned(),
    });
    app.completed_conversions = vec![mausiker::conversion::CompletedConversion {
        original: path("/music/a/x.mp3"),
        output: path("/music-m4a/a/x.m4a"),
    }];
    app.rename_selected(&vec![]);
    let order = app.handle_rename_confirmation(Key::Char('y')).unwrap();
    assert_eq!(order.moves.len(), 2);
    assert_eq!(order.moves[0].source, path("/music/a/x.mp3"));
    assert_eq!(order.moves[0].target, path("/music/a/01_One.mp3"));
    assert_eq!(order.skipped, 1);
    let scan = Scan {
        tracks: vec![
            at("/music/a/01_One.mp3", "One", 1),
            at("/music/a/y.mp3", "Two", 2),
            at("/music/a/03_Three.mp3", "Three", 3),
        ],
        unreadable: 0,
        recent: vec![],
    };
    app.finish_rename(order, &vec![true, false], Some(scan));
    assert_eq!(status(&app), "Renamed 1 track(s); skipped 2");
    assert_eq!(app.conversion_queue, [path("/music/a/01_One.mp3")]);
    assert_eq!(app.playback.as_ref().unwrap().path, path("/music/a/01_One.mp3"));
    assert_eq!(app.completed_conversions[0].original, path("/music/a/01_One.mp3"));
    assert_eq!(app.albums[0].tracks[0].path, path("/music/a/01_One.mp3"));
}

#[test]
fn a_renamed_track_stays_selected_under_the_new_filter() {
    let mut app = App::from_tracks(
        path("/music"),
        vec![
            at("/music/a/x.mp3", "One", 1),
            at("/music/a/02_Two.mp3", "Two", 2),
        ],
        0,
    );
    app.recent = vec![path("/music/a/x.mp3"), path("/music/a/02_Two.mp3")];
    app.active_filter = Some(TrackFilter::New);
    app.expanded_albums.insert(0);
    app.selected = Some(1);
    app.rename_selected(&vec![]);
    let order = app.handle_rename_confirmation(Key::Char('y')).unwrap();
    let scan = Scan {
        tracks: vec![
            at("/music/a/01_One.mp3", "One", 1),
            at("/music/a/02_Two.mp3", "Two", 2),
        ],
        unreadable: 0,
        recent: vec![path("/music/a/01_One.mp3"), path("/music/a/02_Two.mp3")],
    };
    app.finish_rename(order, &vec![true], Some(scan));
    assert_eq!(
        app.selected_row(),
        Some(LibraryRow::Track { album: 0, track: 0 })
    );
    assert_eq!(app.visible_rows().len(), 3);
}

#[test]
fn paths_are_the_same_however_they_are_written() {
    let mut app = app_of(vec![at("/music//a/x.mp3", "One", 1)]);
    app.conversion_queue = vec![path("/music/a/./x.mp3")];
    app.enqueue_selected();
    assert!(app.conversion_queue.is_empty());
    app.enqueue_selected();
    assert_eq!(app.conversion_queue[0].display(), "/music//a/x.mp3");
    let albums = group_by_folder(&path("/music/"), vec![at("/music//Rap//Old/A/B/1.mp3", "One", 1)]);
    assert_eq!(albums[0].group.as_deref(), Some("Rap//Old"));
}

#[test]
fn renaming_says_what_it_did() {
    let mut app = app_of(vec![at("01_One.mp3", "One", 1)]);
    app.rename_selected(&vec![]);
    let order = app.handle_rename_confirmation(Key::Char('Y')).unwrap();
    app.finish_rename(order, &vec![], None);
    assert_eq!(status(&app), "No tracks renamed; skipped 1");
    let mut app = app_of(vec![at("one.mp3", "One", 1)]);
    app.rename_selected(&vec![]);
    assert!(app.handle_rename_confirmation(Key::Down).is_none());
    let order = app.handle_rename_confirmation(Key::Char('y')).unwrap();
    let scan = Scan { tracks: vec![at("01_One.mp3", "One", 1)], unreadable: 0, recent: vec![] };
    app.finish_rename(order, &vec![true], Some(scan));
    assert_eq!(status(&app), "Renamed 1 track(s)");
    app.rename_selected(&vec![]);
    app.handle_rename_confirmation(Key::Char('n'));
    assert_eq!(status(&app), "Rename cancelled");
    let mut empty = app_of(Vec::new());
    empty.rename_selected(&vec![]);
    assert_eq!(status(&empty), "Select an album or track to rename its file(s)");
    let order = mausiker::actions::RenameOrder { moves: vec![], skipped: 0 };
    empty.finish_rename(order, &vec![], None);
    assert_eq!(
        status(&empty),
        "File names already match the track numbers and titles"
    );
}

#[test]
fn paths_are_inspected() {
    let mut app = app_of(vec![at("a.mp3", "One", 1), at("b.mp3", "Two", 2)]);
    app.open_path_inspector();
    assert_eq!(app.path_inspector, Some(vec![path("a.mp3"), path("b.mp3")]));
    app.handle_path_inspector(Key::Char('x'));
    assert!(app.path_inspector.is_some());
    app.handle_path_inspector(Key::Char('i'));
    assert!(app.path_inspector.is_none());
    app.toggle_view();
    app.open_path_inspector();
    assert_eq!(
        status(&app),
        "Select an album or track to inspect its file path"
    );
}

#[test]
fn the_editor_opens_on_what_is_selected() {
    let mut app = app_of(vec![track("Title", "Artist", "Album artist", "Album", 1)]);
    app.open_editor();
    let editor = app.editor.as_ref().unwrap();
    assert_eq!(editor.target, EditorTarget::Album(0));
    assert_eq!(editor.values, ["Album artist", "Album", "2005"]);
    assert_eq!(editor.cursor_positions, [12, 5, 4]);
    app.editor = None;
    app.expanded_albums.insert(0);
    app.selected = Some(1);
    app.open_editor();
    let editor = app.editor.as_ref().unwrap();
    assert_eq!(editor.target, EditorTarget::Track { album: 0, track: 0 });
    assert_eq!(editor.values, ["Title", "Artist", "Album", "2005"]);
    app.editor = None;
    app.toggle_view();
    app.open_editor();
    assert!(app.editor.is_none());
    assert_eq!(
        status(&app),
        "Expand a grouping folder and select an album or track to edit"
    );
}

#[test]
fn an_invalid_date_blocks_saving() {
    let mut app = app_of(vec![track("Title", "Artist", "Artist", "Album", 1)]);
    app.open_editor();
    app.handle_editor_key(Key::BackTab);
    app.handle_editor_key(Key::Char('x'));
    assert!(app.handle_editor_key(Key::Enter).is_none());
    assert_eq!(app.editor.as_ref().unwrap().values[2], "2005x");
    app.handle_editor_key(Key::Backspace);
    app.handle_editor_key(Key::Tab);
    app.handle_editor_key(Key::Char('!'));
    let order = app.handle_editor_key(Key::Enter).unwrap();
    assert!(app.editor.is_none());
    assert!(order.whole_album);
    assert_eq!(order.paths, [path("1.mp3")]);
    assert_eq!(order.album_artist.as_deref(), Some("Artist!"));
    assert_eq!((order.title.as_deref(), order.artist.as_deref()), (None, None));
    assert_eq!((order.album.as_str(), order.release_date.as_str()), ("Album", "2005"));
    let scan = || Scan { tracks: Vec::new(), unreadable: 0, recent: vec![] };
    app.finish_save(&order, &vec![], scan());
    assert_eq!(status(&app), "Saved album metadata for 1 tracks");
    app.finish_save(&order, &vec!["disk full".to_owned()], scan());
    assert_eq!(status(&app), "Saved with 1 write error(s): disk full");
}

#[test]
fn saving_a_track_writes_its_title_and_artist() {
    let mut app = app_of(vec![track("Title", "Artist", "Other", "Album", 1)]);
    app.expanded_albums.insert(0);
    app.selected = Some(1);
    app.open_editor();
    app.handle_editor_key(Key::Left);
    app.handle_editor_key(Key::Delete);
    let order = app.handle_editor_key(Key::Enter).unwrap();
    assert!(!order.whole_album);
    assert_eq!(order.title.as_deref(), Some("Titl"));
    assert_eq!(order.artist.as_deref(), Some("Artist"));
    assert_eq!(order.album_artist, None);
    let scan = || Scan { tracks: Vec::new(), unreadable: 0, recent: vec![] };
    app.finish_save(&order, &vec![], scan());
    assert_eq!(status(&app), "Saved track metadata");
    app.finish_save(&order, &vec!["read-only".to_owned()], scan());
    assert_eq!(status(&app), "Could not save: read-only");
}

#[test]
fn playback_toggles() {
    let mut app = app_of(vec![track("Title", "Artist", "Artist", "Album", 1)]);
    assert!(matches!(app.handle_key(Key::Char(' '), false), Action::Nothing));
    assert_eq!(status(&app), "Select a track to play it");
    app.expanded_albums.insert(0);
    app.selected = Some(1);
    let playback = match app.handle_key(Key::Char(' '), false) {
        Action::Play(playback) => playback,
        _ => panic!("the selected track is played"),
    };
    assert_eq!(playback.title, "Title");
    app.start_playback(playback, None);
    assert_eq!(app.status, None);
    assert_eq!(app.playback.as_ref().unwrap().path, path("1.mp3"));
    assert!(matches!(app.handle_key(Key::Char(' '), false), Action::StopPlayback));
    assert_eq!(status(&app), "Playback stopped");
    let again = Playback { path: path("1.mp3"), title: "Title".to_owned() };
    app.start_playback(again, Some("no ffplay".to_owned()));
    assert_eq!(status(&app), "Could not start playback: no ffplay");
    app.refresh_playback(true);
    assert_eq!(status(&app), "Could not start playback: no ffplay");
    app.playback = Some(Playback { path: path("1.mp3"), title: "Title".to_owned() });
    app.refresh_playback(false);
    assert!(app.playback.is_some());
    app.refresh_playback(true);
    assert!(app.playback.is_none());
    assert_eq!(status(&app), "Playback finished");
}

#[test]
fn the_player_gets_the_path_last() {
    let arguments = mausiker::actions::player_arguments(&path("/music/a b.mp3"));
    let texts: Vec<String> = arguments
        .into_iter()
        .map(|argument| String::from_utf8(argument).unwrap())
        .collect();
    assert_eq!(texts, ["-nodisp", "-autoexit", "-loglevel", "error", "/music/a b.mp3"]);
}

#[test]
fn keys_go_to_the_open_dialog() {
    let mut app = app_of(vec![track("Title", "Artist", "Artist", "Album", 1)]);
    assert!(matches!(app.handle_key(Key::Char('f'), false), Action::Nothing));
    assert!(matches!(app.handle_key(Key::Char('q'), false), Action::Nothing));
    assert!(app.filter_menu.is_some());
    app.handle_key(Key::Esc, false);
    assert!(matches!(app.handle_key(Key::Char('k'), true), Action::Nothing));
    app.handle_key(Key::Char('q'), false);
    assert_eq!(app.search_input.as_deref(), Some("q"));
    app.handle_key(Key::Enter, false);
    assert_eq!(app.search.as_deref(), Some("q"));
    assert!(matches!(app.handle_key(Key::Esc, false), Action::Nothing));
    assert!(matches!(app.handle_key(Key::Char('r'), false), Action::Rescan));
    assert!(matches!(app.handle_key(Key::Char('R'), false), Action::PreviewRename));
    assert!(matches!(app.handle_key(Key::Char('C'), false), Action::PreviewConversion));
    app.handle_key(Key::Char('e'), false);
    assert!(app.editor.is_some());
    assert!(matches!(app.handle_key(Key::Enter, false), Action::Save(_)));
    app.handle_key(Key::Char('c'), false);
    app.open_conversion_preview(&vec![]);
    app.handle_key(Key::Char('q'), false);
    app.handle_key(Key::Esc, false);
    app.rename_selected(&vec![]);
    assert!(matches!(app.handle_key(Key::Char('y'), false), Action::Rename(_)));
    app.handle_key(Key::Char('i'), false);
    app.handle_key(Key::Char('q'), false);
    app.handle_key(Key::Enter, false);
    app.conversion_progress = Some(ConversionProgress {
        total: 1,
        processed: 0,
        successful: 0,
        unsuccessful: 0,
        current_path: None,
    });
    assert!(matches!(app.handle_key(Key::Char('q'), false), Action::Nothing));
    app.conversion_progress = None;
    app.completed_conversions = vec![mausiker::conversion::CompletedConversion {
        original: path("a.mp3"),
        output: path("a.m4a"),
    }];
    app.handle_key(Key::Char('d'), false);
    assert!(matches!(app.handle_key(Key::Char('Y'), false), Action::DeleteOriginals));
    app.handle_key(Key::Char('n'), false);
    app.handle_key(Key::Char('v'), false);
    assert_eq!(app.view_mode, ViewMode::Folders);
    app.handle_key(Key::Right, false);
    app.handle_key(Key::Down, false);
    app.handle_key(Key::Up, false);
    app.handle_key(Key::Left, false);
    assert_eq!(app.visible_rows().len(), 1);
    assert!(matches!(app.handle_key(Key::Esc, false), Action::Quit));
}

#[test]
fn the_rescan_key_asks_for_a_scan_and_changes_nothing_else() {
    let mut app = app_of(vec![track("Title", "Artist", "Artist", "Album", 1)]);
    app.expanded_albums.insert(0);
    app.selected = Some(1);
    assert!(matches!(app.handle_key(Key::Char('r'), false), Action::Rescan));
    assert_eq!(app.visible_rows().len(), 2);
    assert_eq!(app.selected, Some(1));
    app.rescan(Scan {
        tracks: vec![
            track("Title", "Artist", "Artist", "Album", 1),
            track("Other", "Artist", "Artist", "Other album", 1),
        ],
        unreadable: 2,
        recent: vec![],
    });
    assert_eq!(app.visible_rows(), vec![LibraryRow::Album(0), LibraryRow::Album(1)]);
    assert_eq!(app.selected, Some(0));
    assert_eq!(app.unreadable, 2);
}

#[test]
fn metadata_editor_separates_album_artist_from_track_artist() {
    let album_editor = MetadataEditor {
        target: EditorTarget::Album(0),
        values: Vec::new(),
        active_field: 0,
        cursor_positions: Vec::new(),
    };
    let track_editor = MetadataEditor {
        target: EditorTarget::Track { album: 0, track: 0 },
        values: Vec::new(),
        active_field: 0,
        cursor_positions: Vec::new(),
    };
    assert_eq!(
        album_editor.labels(),
        ["Album artist", "Album", "Release date"]
    );
    assert_eq!(
        track_editor.labels(),
        ["Title", "Artist", "Album", "Release date"]
    );
}

#[test]
fn metadata_editor_edits_at_a_unicode_aware_cursor() {
    let mut editor = MetadataEditor {
        target: EditorTarget::Album(0),
        values: vec!["Beyoncé".to_owned()],
        active_field: 0,
        cursor_positions: vec!["Beyoncé".len()],
    };

    editor.move_cursor_left();
    editor.move_cursor_left();
    editor.insert('!');
    editor.backspace();
    editor.delete();

    assert_eq!(editor.values[0], "Beyoné");
    assert_eq!(editor.cursor(), "Beyon".len());
}

#[test]
fn the_cursor_stops_at_the_ends() {
    let mut editor = MetadataEditor {
        target: EditorTarget::Album(0),
        values: vec!["é".to_owned(), "b".to_owned(), "2005".to_owned()],
        active_field: 0,
        cursor_positions: vec![0, 1, 0],
    };
    editor.move_cursor_left();
    editor.backspace();
    assert_eq!((editor.values[0].as_str(), editor.cursor()), ("é", 0));
    editor.move_cursor_right();
    assert_eq!(editor.cursor(), 2);
    editor.move_cursor_right();
    editor.delete();
    assert_eq!((editor.values[0].as_str(), editor.cursor()), ("é", 2));
    editor.insert('😀');
    assert_eq!((editor.values[0].as_str(), editor.cursor()), ("é😀", 6));
    editor.move_focus(-1);
    assert_eq!(editor.active_field, 2);
    editor.move_focus(1);
    assert_eq!(editor.active_field, 0);
    editor.move_focus(7);
    assert_eq!(editor.active_field, 1);
    editor.move_focus(-9);
    assert_eq!(editor.active_field, 1);
    assert_eq!(editor.release_date(), "2005");
}
