use mausiker::conversion::{
    ffmpeg_arguments, next_step, output_path, output_root, plan_conversion, verify_output,
    ConversionEvent, ConversionStep, FfmpegOutcome,
};
use mausiker::library::Track;
use mausiker::path::FilePath;
use mausiker::preview::{
    build_conversion_preview, build_rename_preview, proposed_outputs, proposed_targets,
    renamed_track_path, sanitized_file_stem, ConversionPlanStatus, RenameStatus,
};
use mausiker::time::Duration;

fn path(text: &str) -> FilePath {
    FilePath::from_text(text)
}

fn track(title: &str, artist: &str, album_artist: &str, album: &str, track_number: u32) -> Track {
    Track {
        path: path(&format!("{track_number}.mp3")),
        title: title.to_owned(),
        artist: artist.to_owned(),
        album_artist: album_artist.to_owned(),
        album: album.to_owned(),
        release_date: Some("2005".to_owned()),
        track_number: Some(track_number),
        duration: Some(Duration::from_secs(180)),
        bytes: 1,
    }
}

#[test]
fn renamed_track_path_uses_number_title_and_original_extension() {
    let mut track = track("A / B? C", "Artist", "Artist", "Album", 3);
    track.path = path("/music/old-name.FLAC");

    assert_eq!(
        renamed_track_path(&track).unwrap(),
        path("/music/03_A_B_C.FLAC")
    );
}

#[test]
fn renamed_track_path_requires_a_track_number() {
    let mut track = track("Title", "Artist", "Artist", "Album", 1);
    track.track_number = None;

    assert!(renamed_track_path(&track).is_err());
}

#[test]
fn renamed_track_path_without_a_usable_extension_has_none() {
    let mut track = track("St. Anger", "Artist", "Artist", "Album", 123);
    track.path = path("/music/name");
    assert_eq!(renamed_track_path(&track).unwrap(), path("/music/123_St._Anger"));
    track.path = FilePath::parse(&b"/music/name.\xff".to_vec());
    assert_eq!(renamed_track_path(&track).unwrap(), path("/music/123_St._Anger"));
    track.path = path("/music/name.");
    assert_eq!(renamed_track_path(&track).unwrap(), path("/music/123_St._Anger"));
}

#[test]
fn file_stems_hold_no_separators() {
    assert_eq!(sanitized_file_stem("  ..a:b*c\t d.. "), "a_b_c_d");
    assert_eq!(sanitized_file_stem("..."), "Untitled");
    assert_eq!(sanitized_file_stem(""), "Untitled");
    assert_eq!(sanitized_file_stem("/"), "_");
    assert_eq!(sanitized_file_stem("a_ b__c"), "a_b__c");
    assert_eq!(sanitized_file_stem("\u{3000}Ü<>|\\\"\0x"), "Ü_x");
}

#[test]
fn rename_preview_identifies_unchanged_missing_and_conflicting_tracks() {
    let mut unchanged = track("First", "Artist", "Artist", "Album", 1);
    unchanged.path = path("/not-a-real-library/01_First.mp3");
    let mut missing_number = track("Second", "Artist", "Artist", "Album", 2);
    missing_number.path = path("/not-a-real-library/old.mp3");
    missing_number.track_number = None;
    let mut duplicate_first = track("Duplicate", "Artist", "Artist", "Album", 3);
    duplicate_first.path = path("/not-a-real-library/a.mp3");
    let mut duplicate_second = track("Duplicate", "Artist", "Artist", "Album", 3);
    duplicate_second.path = path("/not-a-real-library/b.mp3");
    let mut ready = track("Ready", "Artist", "Artist", "Album", 4);
    ready.path = path("/not-a-real-library/old-ready.mp3");

    let preview = build_rename_preview(
        &vec![
            unchanged,
            missing_number,
            duplicate_first,
            duplicate_second,
            ready,
        ],
        &vec![],
    );

    assert_eq!(preview.ready_count(), 1);
    assert_eq!(preview.skipped_count(), 4);
    assert_eq!(preview.plans[0].status, RenameStatus::Unchanged);
    assert_eq!(preview.plans[1].status, RenameStatus::MissingTrackNumber);
    assert_eq!(preview.plans[2].status, RenameStatus::Conflict);
    assert_eq!(preview.plans[3].status, RenameStatus::Conflict);
    assert_eq!(preview.plans[4].status, RenameStatus::Ready);
}

#[test]
fn rename_preview_takes_no_name_that_exists() {
    let tracks = vec![track("One", "Artist", "Artist", "Album", 1)];
    assert_eq!(proposed_targets(&tracks), [path("01_One.mp3")]);
    let preview = build_rename_preview(&tracks, &vec![path("01_One.mp3")]);
    assert_eq!(preview.plans[0].status, RenameStatus::Conflict);
    assert_eq!(preview.plans[0].target, Some(path("01_One.mp3")));
}

#[test]
fn conversion_preview_shows_outputs_and_skips_unconvertible_sources() {
    let preview = build_conversion_preview(
        &path("/not-a-real-library"),
        &vec![
            path("/not-a-real-library/song.flac"),
            path("/not-a-real-library/already.m4a"),
            path("/outside-library/song.mp3"),
        ],
        &vec![],
    );

    assert_eq!(preview.ready_count(), 1);
    assert_eq!(preview.skipped_count(), 2);
    assert_eq!(preview.plans[0].status, ConversionPlanStatus::Ready);
    assert_eq!(
        preview.plans[0].output,
        Some(path("/not-a-real-library/song.m4a"))
    );
    assert_eq!(preview.plans[1].status, ConversionPlanStatus::AlreadyM4a);
    assert_eq!(
        preview.plans[2].status,
        ConversionPlanStatus::OutsideLibrary
    );
}

#[test]
fn conversion_preview_skips_outputs_that_exist() {
    let queued = vec![path("/music/song.flac")];
    assert_eq!(
        proposed_outputs(&path("/music"), &queued),
        [path("/music/song.m4a"), path("/music-m4a/song.m4a")]
    );
    let preview = build_conversion_preview(&path("/music"), &queued, &vec![path("/music/song.m4a")]);
    assert_eq!(preview.plans[0].status, ConversionPlanStatus::OutputExists);
    assert_eq!(preview.plans[0].output, Some(path("/music/song.m4a")));
    assert_eq!(preview.sources(false), queued);
    assert!(preview.sources(true).is_empty());
}

#[test]
fn conversion_preview_skips_outputs_that_were_written() {
    let queued = vec![path("/music/a/song.flac"), path("/elsewhere/x.mp3")];
    assert_eq!(
        proposed_outputs(&path("/music"), &queued),
        [
            path("/music/a/song.m4a"),
            path("/music-m4a/a/song.m4a"),
            path("/elsewhere/x.m4a"),
        ]
    );
    let preview = build_conversion_preview(
        &path("/music"),
        &queued,
        &vec![path("/music-m4a/a/song.m4a")],
    );
    assert_eq!(preview.plans[0].status, ConversionPlanStatus::OutputExists);
    assert_eq!(preview.plans[0].output, Some(path("/music-m4a/a/song.m4a")));
}

#[test]
fn creates_an_m4a_sibling_library_and_preserves_subfolders() {
    let root = path("/music/library");
    assert_eq!(output_root(&root), path("/music/library-m4a"));
    assert_eq!(
        output_path(&root, &path("/music/library/Rap/Artist/Album/01.flac")).unwrap(),
        path("/music/library-m4a/Rap/Artist/Album/01.m4a")
    );
}

#[test]
fn a_library_without_a_name_is_converted_to_music() {
    assert_eq!(output_root(&path("/")), path("./music-m4a"));
    assert_eq!(
        output_path(&path("/music"), &path("/other/1.mp3")).unwrap_err(),
        "source is outside the selected music library"
    );
}

fn failure(step: ConversionStep) -> String {
    match step {
        ConversionStep::Failed(message) => message,
        _ => panic!("the conversion fails"),
    }
}

#[test]
fn a_conversion_goes_step_by_step() {
    let job = plan_conversion(&path("/music"), &path("/music/a/b.mp3")).unwrap();
    assert_eq!(job.output, path("/music-m4a/a/b.m4a"));
    assert_eq!(job.temporary, path("/music-m4a/a/.b.partial.m4a"));
    assert!(matches!(
        next_step(&job, &ConversionEvent::OutputChecked { exists: false }),
        ConversionStep::CreateFolder
    ));
    assert!(matches!(
        next_step(&job, &ConversionEvent::FolderCreated(Ok(()))),
        ConversionStep::CheckTemporary
    ));
    assert!(matches!(
        next_step(&job, &ConversionEvent::TemporaryChecked { exists: false }),
        ConversionStep::RunFfmpeg
    ));
    assert!(matches!(
        next_step(&job, &ConversionEvent::FfmpegRan(FfmpegOutcome::Succeeded)),
        ConversionStep::VerifyTemporary
    ));
    assert!(matches!(
        next_step(&job, &ConversionEvent::TemporaryVerified(Ok(()))),
        ConversionStep::MoveIntoPlace
    ));
    match next_step(&job, &ConversionEvent::Moved(Ok(()))) {
        ConversionStep::Finished(completed) => {
            assert_eq!(completed.original, path("/music/a/b.mp3"));
            assert_eq!(completed.output, path("/music-m4a/a/b.m4a"));
        }
        _ => panic!("the conversion is finished"),
    }
    let arguments: Vec<String> = ffmpeg_arguments(&job)
        .into_iter()
        .map(|argument| String::from_utf8(argument).unwrap())
        .collect();
    assert_eq!(
        arguments,
        [
            "-n", "-i", "/music/a/b.mp3", "-map", "0:a?", "-map", "0:v?", "-map_metadata", "0",
            "-c:a", "aac", "-b:a", "192k", "-c:v", "copy", "/music-m4a/a/.b.partial.m4a",
        ]
    );
}

#[test]
fn a_conversion_fails_with_a_reason() {
    let root = path("/music");
    assert_eq!(
        plan_conversion(&root, &path("/music/b.M4a")).err().unwrap(),
        "the source is already an M4A file"
    );
    assert_eq!(
        plan_conversion(&root, &path("/b.mp3")).err().unwrap(),
        "source is outside the selected music library"
    );
    let job = plan_conversion(&root, &path("/music/b.mp3")).unwrap();
    assert_eq!(
        failure(next_step(&job, &ConversionEvent::OutputChecked { exists: true })),
        "output already exists: /music-m4a/b.m4a"
    );
    assert_eq!(
        failure(next_step(&job, &ConversionEvent::FolderCreated(Err("denied".to_owned())))),
        "denied"
    );
    assert_eq!(
        failure(next_step(&job, &ConversionEvent::TemporaryChecked { exists: true })),
        "temporary output already exists: /music-m4a/.b.partial.m4a"
    );
    let ran = |outcome: FfmpegOutcome| failure(next_step(&job, &ConversionEvent::FfmpegRan(outcome)));
    assert_eq!(
        ran(FfmpegOutcome::NotStarted("not found".to_owned())),
        "could not run ffmpeg: not found"
    );
    assert_eq!(
        ran(FfmpegOutcome::Failed(b"bad \xff input\r\nmore".to_vec())),
        "ffmpeg failed: bad \u{fffd} input"
    );
    assert_eq!(ran(FfmpegOutcome::Failed(vec![])), "ffmpeg failed: unknown error");
    assert_eq!(
        failure(next_step(&job, &ConversionEvent::TemporaryVerified(Err("empty".to_owned())))),
        "empty"
    );
    assert_eq!(
        failure(next_step(&job, &ConversionEvent::Moved(Err("busy".to_owned())))),
        "busy"
    );
}

#[test]
fn outputs_are_verified_by_size_and_metadata() {
    assert_eq!(verify_output(Ok(1), Ok(())), Ok(()));
    assert_eq!(
        verify_output(Ok(0), Ok(())),
        Err("FFmpeg produced an empty file".to_owned())
    );
    assert_eq!(
        verify_output(Err("missing".to_owned()), Ok(())),
        Err("missing".to_owned())
    );
    assert_eq!(
        verify_output(Ok(1), Err("broken".to_owned())),
        Err("output metadata verification failed: broken".to_owned())
    );
}

#[test]
fn paths_behave_like_those_of_the_standard_library() {
    let samples = [
        "", "/", "//", ".", "./", ".//", "..", "a", "a/", "a/.", "a/./", "a/b", "/a/b.c", "/a/b.c/",
        "./a", ".//a", "a/./b", "a//b/", "/..", "../x.tar.gz", ".hidden", "a/.hidden.txt", "name.",
        "/a/../b", "x/y/z.M4a", "é/ü.flac", "a/..", "//a", "/.", "/./a", "/a//b///c.d/.", "a/b/./.",
        "/a/b/./c//d.mp3", "a/b//c", "...", "a/...", "/a/.b/c", "./.", "././a",
    ];
    let bytes = |path: &std::path::Path| path.to_str().unwrap().as_bytes().to_vec();
    for text in samples {
        let own = path(text);
        let std = std::path::Path::new(text);
        assert_eq!(own.display(), std.display().to_string(), "{text}");
        assert_eq!(own.to_bytes(), bytes(std), "{text}");
        assert_eq!(own.is_absolute(), std.is_absolute(), "{text}");
        assert_eq!(
            own.parts().len() + usize::from(own.is_absolute()),
            std.components().count(),
            "{text}"
        );
        assert_eq!(
            own.parent().map(|parent| parent.to_bytes()),
            std.parent().map(bytes),
            "{text}"
        );
        assert_eq!(
            own.file_name_text().as_deref(),
            std.file_name().and_then(|name| name.to_str()),
            "{text}"
        );
        assert_eq!(
            own.stem_text().as_deref(),
            std.file_stem().and_then(|name| name.to_str()),
            "{text}"
        );
        assert_eq!(
            own.extension_text().as_deref(),
            std.extension().and_then(|name| name.to_str()),
            "{text}"
        );
        assert_eq!(
            own.with_extension("m4a").to_bytes(),
            bytes(&std.with_extension("m4a")),
            "{text}"
        );
        assert_eq!(
            own.with_file_name("new.mp3").to_bytes(),
            bytes(&std.with_file_name("new.mp3")),
            "{text}"
        );
        for other in samples {
            let second = path(other);
            let second_std = std::path::Path::new(other);
            assert_eq!(
                own.join(&second).to_bytes(),
                bytes(&std.join(second_std)),
                "{text} {other}"
            );
            assert_eq!(own.starts_with(&second), std.starts_with(second_std), "{text} {other}");
            assert_eq!(own.same(&second), std == second_std, "{text} {other}");
            assert_eq!(own == second, std == second_std, "{text} {other}");
            assert_eq!(
                own.strip_prefix(&second).map(|rest| rest.to_bytes()),
                std.strip_prefix(second_std).ok().map(bytes),
                "{text} {other}"
            );
        }
    }
}

#[test]
fn paths_that_are_not_text_are_shown_with_marks() {
    let odd = FilePath::parse(&b"/a/\xffb.mp3".to_vec());
    assert_eq!(odd.display(), "/a/\u{fffd}b.mp3");
    assert_eq!(odd.file_name_text(), None);
    assert_eq!(odd.extension_text().as_deref(), Some("mp3"));
    assert_eq!(FilePath::parse(&odd.to_bytes()), odd);
    assert!(odd.parent().unwrap().same(&path("/a")));
    assert!(!odd.is_m4a());
    assert!(FilePath::empty().is_empty());
}
