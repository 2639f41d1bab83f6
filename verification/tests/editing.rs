use music_files_organizer::discogs::matcher::DiscogsReleaseMatchResult;
use music_files_organizer::music_file::{MusicFile, NameError};
use music_files_organizer::discogs::model::refined::{DiscogsImage, DiscogsRelease};
use music_files_organizer::organizer::changes::{
    calculate_changes, ChangeError, ChangeList, Cleanup, CoverChange, FolderListing, MusicFileChange,
};
use std::collections::HashMap;
use music_files_organizer::organizer::details::{changes_details, ChangeDetail, FrameDifference};
use music_files_organizer::organizer::edit::{
    edit_changes, edit_music_files, edit_prompt, lines, parse_line, set_frame_from_text, EditError,
    TRACK_DELIMITER,
};
use music_files_organizer::organizer::AllowedChangeType;
use music_files_organizer::tag::frame::FrameId;
use music_files_organizer::tag::Tag;
use music_files_organizer::util::path::FilePath;

fn path(text: &str) -> FilePath {
    FilePath {
        components: text.split('/').filter(|part| !part.is_empty()).map(str::to_string).collect(),
    }
}

fn tagged(at: &str, title: &str, track: u32) -> MusicFile {
    let mut tag = Tag::new();
    tag.set_title(Some(title.to_string()));
    tag.set_album(Some("Album".to_string()));
    tag.set_artist(Some("Artist".to_string()));
    tag.set_year(Some(2000));
    tag.set_track_number(Some(track));
    tag.set_custom_text("DISCOGS_RELEASE".to_string(), Some("https://d/1".to_string()));
    tag.set_custom_text("NOISE".to_string(), Some("x".to_string()));
    MusicFile { file_path: path(at), tag, duration: None }
}

fn all_kinds() -> Vec<AllowedChangeType> {
    vec![
        AllowedChangeType::MusicFiles,
        AllowedChangeType::Covers,
        AllowedChangeType::SourceCleanup,
        AllowedChangeType::TargetCleanup,
    ]
}

fn plan<'a>(results: &'a Vec<DiscogsReleaseMatchResult<'a>>, listings: &Vec<FolderListing>) -> ChangeList<'a> {
    calculate_changes(results, &vec![10, 20], listings, &None, &all_kinds(), false).unwrap()
}

const PROMPT: &str = "Title: One\nAlbum: Album\nArtist: Artist\nYear: 2000\nTrack: 1\nDISCOGS_RELEASE: https://d/1\n--------------------------\nTitle: Two\nAlbum: Album\nArtist: Artist\nYear: 2000\nTrack: 2\nDISCOGS_RELEASE: https://d/1\n--------------------------\n";

#[test]
fn prompt_shows_every_field_of_every_track() {
    let one = tagged("in/a.mp3", "One", 1);
    let two = tagged("in/b.mp3", "Two", 2);
    let results = vec![DiscogsReleaseMatchResult::Unmatched(vec![&two, &one])];
    let changes = plan(&results, &vec![]);
    assert_eq!(edit_prompt(&changes), PROMPT);
    assert_eq!(TRACK_DELIMITER.len(), 26);
    let empty = ChangeList { music_files: vec![], covers: vec![], cleanups: vec![] };
    assert_eq!(edit_prompt(&empty), "");
}

#[test]
fn unedited_prompt_gives_the_same_plan() {
    let one = tagged("in/a.mp3", "One", 1);
    let two = tagged("in/b.mp3", "Two", 2);
    let results = vec![DiscogsReleaseMatchResult::Unmatched(vec![&one, &two])];
    let listings = vec![FolderListing { folder: path("in"), entries: vec![path("in/a.mp3"), path("in/01. One.mp3")] }];
    let changes = plan(&results, &listings);
    let edited = edit_changes(&changes, Some(PROMPT), &listings, &None, &all_kinds(), false);
    assert_eq!(edited.as_ref(), Ok(&changes));
    assert_eq!(edit_changes(&changes, None, &vec![], &None, &vec![], false), Ok(changes));
}

#[test]
fn edited_fields_give_new_tags_and_paths() {
    let one = tagged("in/a.mp3", "One", 1);
    let two = tagged("in/b.mp3", "Two", 2);
    let results = vec![DiscogsReleaseMatchResult::Unmatched(vec![&one, &two])];
    let listings = vec![FolderListing { folder: path("in"), entries: vec![path("in/a.mp3"), path("in/01. One.mp3")] }];
    let changes = plan(&results, &listings);
    let edited = "Title: Uno: the first\r\nTrack: 7\r\nDisc: 2\nMOOD: calm\n--------------------------\nTrack: 8\nTitle: \n--------------------------\nthis is passed over";
    let new = edit_changes(&changes, Some(edited), &listings, &Some(path("elsewhere")), &all_kinds(), false);
    // the paths below the output folder need album, artist and year
    assert_eq!(new, Err(EditError::Name(NameError::NoAlbumArtist)));
    let new = edit_changes(&changes, Some(edited), &listings, &None, &all_kinds(), false).unwrap();
    let mut first = Tag::new();
    first.set_title(Some("Uno: the first".to_string()));
    first.set_track_number(Some(7));
    first.set_disc(Some(2));
    first.set_custom_text("MOOD".to_string(), Some("calm".to_string()));
    let mut second = Tag::new();
    second.set_track_number(Some(8));
    second.set_title(Some(String::new()));
    assert_eq!(new.music_files.len(), 2);
    assert_eq!(new.music_files[0].target.tag, first);
    assert_eq!(new.music_files[0].target.file_path, path("in/02.07. Uno- the first.mp3"));
    assert_eq!(new.music_files[0].source, &one);
    assert_eq!(new.music_files[0].source_file_length, 10);
    assert_eq!(new.music_files[1].target.tag, second);
    assert_eq!(new.music_files[1].target.file_path, path("in/08. .mp3"));
    assert_eq!(new.covers, vec![]);
    assert_eq!(
        new.cleanups,
        vec![Cleanup { path: path("in/a.mp3") }, Cleanup { path: path("in/01. One.mp3") }]
    );
    // the plan that was edited stays as it was
    assert_eq!(changes.music_files[0].target.file_path, path("in/01. One.mp3"));
}

#[test]
fn malformed_lines_are_reported_with_their_text() {
    let one = tagged("in/a.mp3", "One", 1);
    let results = vec![DiscogsReleaseMatchResult::Unmatched(vec![&one])];
    let files = calculate_changes(&results, &vec![10], &vec![], &None, &all_kinds(), false).unwrap().music_files;
    let edit = |text: &str| edit_music_files(&files, text, &None, false);
    assert_eq!(edit("Title: One\nTrack 1\n--------------------------\n"), Err(EditError::InvalidLine("Track 1".to_string())));
    assert_eq!(edit(": One\n--------------------------\n"), Err(EditError::InvalidLine(": One".to_string())));
    assert_eq!(edit("Title:One\n--------------------------\n"), Err(EditError::InvalidLine("Title:One".to_string())));
    assert_eq!(edit("\n--------------------------\n"), Err(EditError::InvalidLine(String::new())));
    assert_eq!(edit("-------------------------\n"), Err(EditError::InvalidLine("-------------------------".to_string())));
    assert_eq!(edit("Track: one\n--------------------------\n"), Err(EditError::InvalidNumber("Track: one".to_string())));
    assert_eq!(edit("Track: -1\n--------------------------\n"), Err(EditError::InvalidNumber("Track: -1".to_string())));
    assert_eq!(edit("Year: \n--------------------------\n"), Err(EditError::InvalidNumber("Year: ".to_string())));
    assert_eq!(edit("Total Discs: 1.5\n--------------------------\n"), Err(EditError::InvalidNumber("Total Discs: 1.5".to_string())));
    assert_eq!(edit("Title: One\nTrack: 1\n"), Err(EditError::MissingTrack));
    assert_eq!(edit(""), Err(EditError::MissingTrack));
    assert_eq!(edit("Title: One\n--------------------------\n"), Err(EditError::Name(NameError::NoTrack)));
    assert_eq!(edit("Track: 1\n--------------------------\n"), Err(EditError::Name(NameError::NoTitle)));
    assert!(edit("Year: -44\nTrack: +1\nTitle: x\n--------------------------").is_ok());
}

#[test]
fn covers_are_planned_anew_after_an_edit() {
    let empty = ChangeList { music_files: vec![], covers: vec![], cleanups: vec![Cleanup { path: path("x") }] };
    assert_eq!(
        edit_changes(&empty, Some("anything"), &vec![], &None, &all_kinds(), false),
        Ok(ChangeList { music_files: vec![], covers: vec![], cleanups: vec![] })
    );
}

#[test]
fn text_is_cut_into_lines() {
    assert_eq!(lines("a\nb\r\nc"), vec!["a", "b", "c"]);
    assert_eq!(lines("a\n\nb\n"), vec!["a", "", "b"]);
    assert_eq!(lines("a\r"), vec!["a\r"]);
    assert_eq!(lines("a\r\r\n"), vec!["a\r"]);
    assert_eq!(lines("\n"), vec![""]);
    assert_eq!(lines(""), Vec::<String>::new());
}

#[test]
fn line_is_cut_at_the_first_colon_and_space() {
    assert_eq!(parse_line("Title: a: b"), Some(("Title".to_string(), "a: b".to_string())));
    assert_eq!(parse_line("Title: "), Some(("Title".to_string(), String::new())));
    assert_eq!(parse_line(": : x"), Some((": ".to_string(), "x".to_string())));
    assert_eq!(parse_line("a:b: c"), Some(("a:b".to_string(), "c".to_string())));
    assert_eq!(parse_line("Title:"), None);
    assert_eq!(parse_line(": x"), None);
    assert_eq!(parse_line(""), None);
}

#[test]
fn field_is_set_from_text_of_its_kind() {
    let mut tag = Tag::new();
    assert!(set_frame_from_text(&mut tag, &FrameId::Year, "1997"));
    assert!(set_frame_from_text(&mut tag, &FrameId::TotalTracks, "12"));
    assert!(set_frame_from_text(&mut tag, &FrameId::Genre, "12"));
    assert_eq!((tag.year(), tag.total_tracks(), tag.genre()), (Some(1997), Some(12), Some("12")));
    let before = tag.clone();
    assert!(!set_frame_from_text(&mut tag, &FrameId::Year, "MCMXCVII"));
    assert!(!set_frame_from_text(&mut tag, &FrameId::Disc, "4294967296"));
    assert_eq!(tag, before);
}

#[test]
fn changes_are_shown_with_what_differs() {
    let stay = tagged("in/01. One.mp3", "One", 1);
    let moved = tagged("in/album/b.flac", "Two", 2);
    let results = vec![DiscogsReleaseMatchResult::Unmatched(vec![&stay, &moved])];
    let mut changes = calculate_changes(
        &results,
        &vec![10, 20],
        &vec![FolderListing { folder: path("in/album"), entries: vec![path("in/album/b.flac")] }],
        &None,
        &all_kinds(),
        false,
    )
    .unwrap();
    changes.covers.push(CoverChange {
        path: path("in/cover.jpeg"),
        uri: "https://i/cover.jpeg".to_string(),
    });
    assert_eq!(
        changes_details(&changes),
        vec![
            ChangeDetail::Update { transcode: false, file_name: "01. One.mp3".to_string(), frames: vec![] },
            ChangeDetail::Copy {
                transcode: true,
                source: path("b.flac"),
                target: path("02. Two.m4a"),
                frames: vec![],
            },
            ChangeDetail::Download { path: path("in/cover.jpeg") },
            ChangeDetail::Remove { path: path("in/album/b.flac") },
        ]
    );
}

#[test]
fn fields_that_change_are_shown_with_both_contents() {
    let mut source = tagged("in/a.mp3", "One", 1);
    source.tag.set_genre(Some("Rock".to_string()));
    let results = vec![DiscogsReleaseMatchResult::Unmatched(vec![&source])];
    let mut changes = calculate_changes(&results, &vec![10], &vec![], &None, &all_kinds(), false).unwrap();
    changes.music_files[0].target.tag.set_title(Some("Uno".to_string()));
    changes.music_files[0].target.tag.set_genre(None);
    changes.music_files[0].target.tag.set_disc(Some(2));
    changes.music_files[0].target.file_path = path("out/a.mp3");
    assert_eq!(
        changes_details(&changes),
        vec![ChangeDetail::Copy {
            transcode: false,
            source: path("in/a.mp3"),
            target: path("out/a.mp3"),
            frames: vec![
                FrameDifference { frame: "Title".to_string(), before: Some("One".to_string()), after: Some("Uno".to_string()) },
                FrameDifference { frame: "Disc".to_string(), before: None, after: Some("2".to_string()) },
            ],
        }]
    );
}

#[test]
fn edit_fails_when_a_cover_cannot_be_planned() {
    let source = tagged("in/a.mp3", "One", 1);
    let release = DiscogsRelease {
        uri: "https://d/1".to_string(),
        title: "Album".to_string(),
        year: 2000,
        styles: None,
        image: Some(DiscogsImage { url: "no address".to_string() }),
        tracks: vec![],
        disc_to_total_tracks: HashMap::new(),
        artists: vec![],
    };
    let changes = ChangeList {
        music_files: vec![MusicFileChange {
            source: &source,
            target: tagged("in/01. One.mp3", "One", 1),
            is_transcode: false,
            source_file_length: 1,
            discogs_release: Some(&release),
        }],
        covers: vec![],
        cleanups: vec![],
    };
    assert_eq!(
        edit_changes(&changes, Some("Title: One\nTrack: 1\n--------------------------\n"), &vec![], &None, &all_kinds(), false),
        Err(EditError::Change(ChangeError::InvalidCoverUrl))
    );
}
