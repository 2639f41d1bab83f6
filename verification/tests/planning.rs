use music_files_organizer::discogs::create_tag::{
    create_tag_from_discogs_data, strip_redundant_fields, DISCOGS_RELEASE_TAG,
};
use music_files_organizer::discogs::matcher::{DiscogsReleaseMatchResult, DiscogsTrackMatch};
use music_files_organizer::discogs::model::refined::{
    DiscogsArtist, DiscogsImage, DiscogsRelease, DiscogsTrack,
};
use music_files_organizer::music_file::{MusicFile, NameError};
use music_files_organizer::organizer::changes::{
    calculate_changes, folders_to_list, get_cleanup_changes, get_cover_changes, get_file_changes,
    source_files, target_path_for, text_before, url_path_extension, ChangeError, Cleanup,
    CoverChange, FolderListing, MusicFileChange,
};
use music_files_organizer::organizer::AllowedChangeType;
use music_files_organizer::tag::Tag;
use music_files_organizer::util::duration::Duration;
use music_files_organizer::util::path::FilePath;
use std::collections::HashMap;

fn path(text: &str) -> FilePath {
    FilePath {
        components: text.split('/').filter(|part| !part.is_empty()).map(str::to_string).collect(),
    }
}

fn artist(name: &str, join: Option<&str>) -> DiscogsArtist {
    DiscogsArtist { name: name.to_string(), join: join.map(str::to_string) }
}

fn track(title: &str, position: u32, disc: u32) -> DiscogsTrack {
    DiscogsTrack { title: title.to_string(), position, disc, duration: None, artists: None }
}

fn release(title: &str, year: i32, tracks: Vec<DiscogsTrack>) -> DiscogsRelease {
    let mut disc_to_total_tracks = HashMap::new();
    for track in &tracks {
        *disc_to_total_tracks.entry(track.disc).or_insert(0) += 1;
    }
    DiscogsRelease {
        uri: format!("https://www.discogs.com/release/{}", year),
        title: title.to_string(),
        year,
        styles: Some(vec!["Alternative Rock".to_string(), "Art Rock".to_string()]),
        image: Some(DiscogsImage { url: "https://i.discogs.com/abc/cover.jpeg?x=1".to_string() }),
        tracks,
        disc_to_total_tracks,
        artists: vec![artist("Radiohead", None)],
    }
}

fn file(at: &str) -> MusicFile {
    let mut tag = Tag::new();
    tag.set_title(Some("old title".to_string()));
    tag.set_custom_text("LYRICS".to_string(), Some("la la".to_string()));
    MusicFile { file_path: path(at), tag, duration: Some(Duration::from_secs(100)) }
}

fn tagged(at: &str, album: &str, year: i32, track: u32) -> MusicFile {
    let mut tag = Tag::new();
    tag.set_title(Some(format!("Song {}", track)));
    tag.set_album(Some(album.to_string()));
    tag.set_artist(Some("Artist".to_string()));
    tag.set_year(Some(year));
    tag.set_track_number(Some(track));
    tag.set_custom_text("LYRICS".to_string(), Some("la la".to_string()));
    MusicFile { file_path: path(at), tag, duration: None }
}

fn matched<'a>(release: DiscogsRelease, files: &[&'a MusicFile]) -> DiscogsReleaseMatchResult<'a> {
    DiscogsReleaseMatchResult::Matched {
        tracks_matching: files
            .iter()
            .enumerate()
            .map(|(index, music_file)| DiscogsTrackMatch { music_file, track: release.tracks[index].clone() })
            .collect(),
        release,
    }
}

fn all_kinds() -> Vec<AllowedChangeType> {
    vec![
        AllowedChangeType::MusicFiles,
        AllowedChangeType::Covers,
        AllowedChangeType::SourceCleanup,
        AllowedChangeType::TargetCleanup,
    ]
}

#[test]
fn tag_is_made_from_the_catalog() {
    let release = release("OK Computer", 1997, vec![track("Airbag", 1, 1), track("Lucky", 2, 1)]);
    let tag = create_tag_from_discogs_data(&file("a.mp3").tag, &release.tracks[1], &release);
    let mut expected = Tag::new();
    expected.set_title(Some("Lucky".to_string()));
    expected.set_album(Some("OK Computer".to_string()));
    expected.set_album_artist(Some("Radiohead &".to_string()));
    expected.set_artist(Some("Radiohead &".to_string()));
    expected.set_year(Some(1997));
    expected.set_track_number(Some(2));
    expected.set_total_tracks(Some(2));
    expected.set_genre(Some("Alternative Rock; Art Rock".to_string()));
    expected.set_custom_text("DISCOGS_RELEASE".to_string(), Some("https://www.discogs.com/release/1997".to_string()));
    assert_eq!(tag, expected);
    assert_eq!(DISCOGS_RELEASE_TAG, "DISCOGS_RELEASE");
}

#[test]
fn artists_are_joined_with_their_own_words() {
    let mut release = release("Split", 2001, vec![track("One", 1, 1)]);
    release.artists = vec![artist("A", Some("&")), artist("B", Some("feat.")), artist("C", Some(""))];
    let tag = create_tag_from_discogs_data(&Tag::new(), &release.tracks[0], &release);
    assert_eq!(tag.album_artist(), Some("A & B feat. C"));
    assert_eq!(tag.artist(), Some("A & B feat. C"));
    release.artists = vec![];
    release.styles = None;
    let tag = create_tag_from_discogs_data(&Tag::new(), &release.tracks[0], &release);
    assert_eq!(tag.album_artist(), Some(""));
    assert_eq!(tag.genre(), Some(""));
}

#[test]
fn compilation_is_by_various_artists() {
    let mut release = release("Hits", 2001, vec![track("One", 1, 1), track("Two", 2, 1)]);
    release.tracks[1].artists = Some(vec![artist("Guest", Some(",")), artist("Other", None)]);
    let first = create_tag_from_discogs_data(&Tag::new(), &release.tracks[0], &release);
    let second = create_tag_from_discogs_data(&Tag::new(), &release.tracks[1], &release);
    assert_eq!(first.album_artist(), Some("Various Artists"));
    assert_eq!(second.album_artist(), Some("Various Artists"));
    assert_eq!(first.artist(), Some("Radiohead &"));
    assert_eq!(second.artist(), Some("Guest , Other &"));
}

#[test]
fn discs_are_named_when_there_are_several() {
    let release = release("Double", 2001, vec![track("One", 1, 1), track("Two", 1, 2), track("Three", 2, 2)]);
    let tag = create_tag_from_discogs_data(&Tag::new(), &release.tracks[2], &release);
    assert_eq!(tag.disc(), Some(2));
    assert_eq!(tag.total_discs(), Some(2));
    assert_eq!(tag.track_number(), Some(2));
    assert_eq!(tag.total_tracks(), Some(2));
    let single = self::release("Single", 2001, vec![track("One", 1, 1)]);
    let tag = create_tag_from_discogs_data(&Tag::new(), &single.tracks[0], &single);
    assert_eq!(tag.disc(), None);
    assert_eq!(tag.total_discs(), None);
    assert_eq!(tag.total_tracks(), Some(1));
    let stray = track("Stray", 1, 9);
    assert_eq!(create_tag_from_discogs_data(&Tag::new(), &stray, &single).total_tracks(), None);
}

#[test]
fn stripping_keeps_the_fixed_fields_and_the_release() {
    let mut tag = tagged("a.mp3", "Album", 2000, 3).tag;
    tag.set_custom_text("DISCOGS_RELEASE".to_string(), Some("uri".to_string()));
    tag.set_custom_text("APP".to_string(), Some("x".to_string()));
    tag.set_total_discs(Some(2));
    let stripped = strip_redundant_fields(&tag);
    let mut expected = tagged("a.mp3", "Album", 2000, 3).tag;
    expected.custom_texts.clear();
    expected.set_total_discs(Some(2));
    expected.set_custom_text("DISCOGS_RELEASE".to_string(), Some("uri".to_string()));
    assert_eq!(stripped, expected);
    assert_eq!(strip_redundant_fields(&stripped), stripped);
    assert_eq!(strip_redundant_fields(&tagged("a.mp3", "Album", 2000, 3).tag).custom_texts, vec![]);
}

#[test]
fn changes_are_listed_by_album_year_and_track() {
    let b = tagged("in/1.mp3", "B", 2000, 1);
    let a2 = tagged("in/2.mp3", "A", 1999, 2);
    let a1 = tagged("in/3.mp3", "A", 1999, 1);
    let results = vec![DiscogsReleaseMatchResult::Unmatched(vec![&b, &a2, &a1])];
    let changes = get_file_changes(&results, &vec![10, 20, 30], &None, false).unwrap();
    let listed: Vec<(Option<&str>, Option<i32>, Option<u32>)> = changes
        .iter()
        .map(|change| (change.target.tag.album(), change.target.tag.year(), change.target.tag.track_number()))
        .collect();
    assert_eq!(
        listed,
        vec![(Some("A"), Some(1999), Some(1)), (Some("A"), Some(1999), Some(2)), (Some("B"), Some(2000), Some(1))]
    );
    assert_eq!(changes[0].source, &a1);
    assert_eq!(changes[0].source_file_length, 30);
    assert_eq!(changes[2].source_file_length, 10);
}

#[test]
fn album_comes_before_year_and_equal_keys_keep_their_order() {
    let x = tagged("in/x.mp3", "B", 1990, 1);
    let y = tagged("in/y.mp3", "A", 2005, 1);
    let z = tagged("in/z.mp3", "A", 2001, 7);
    let w = tagged("in/w.mp3", "A", 2001, 7);
    let mut untracked = tagged("in/u.mp3", "A", 2001, 1);
    untracked.tag.set_track_number(None);
    untracked.tag.set_title(None);
    let results = vec![DiscogsReleaseMatchResult::Unmatched(vec![&x, &y, &z, &w])];
    let changes = get_file_changes(&results, &vec![0, 0, 0, 0], &None, false).unwrap();
    let sources: Vec<&str> =
        changes.iter().map(|change| change.source.file_path.components[1].as_str()).collect();
    assert_eq!(sources, vec!["z.mp3", "w.mp3", "y.mp3", "x.mp3"]);
}

#[test]
fn texts_are_ordered_as_in_a_dictionary() {
    assert!(text_before("A", "B"));
    assert!(text_before("A", "AA"));
    assert!(text_before("", "A"));
    assert!(text_before("B", "a"));
    assert!(text_before("Z", "É"));
    assert!(!text_before("A", "A"));
    assert!(!text_before("B", "A"));
    assert!(!text_before("", ""));
}

#[test]
fn matched_files_go_below_the_output_folder() {
    let first = file("in/album/a.flac");
    let second = file("in/album/b.mp3");
    let release = release("OK Computer", 1997, vec![track("Airbag", 1, 1), track("Lucky", 2, 1)]);
    let results = vec![matched(release.clone(), &[&first, &second])];
    assert_eq!(source_files(&results), vec![&first, &second]);
    let changes = get_file_changes(&results, &vec![1000, 2000], &Some(path("out")), false).unwrap();
    assert_eq!(changes.len(), 2);
    assert_eq!(changes[0].source, &first);
    assert_eq!(changes[0].target.file_path, path("out/Radiohead &/(1997) OK Computer/01. Airbag.m4a"));
    assert!(changes[0].is_transcode);
    assert_eq!(changes[0].source_file_length, 1000);
    assert_eq!(changes[0].target.duration, Some(Duration::from_secs(100)));
    assert_eq!(changes[0].target.tag, create_tag_from_discogs_data(&first.tag, &release.tracks[0], &release));
    assert_eq!(changes[0].discogs_release.map(|r| r.uri.as_str()), Some("https://www.discogs.com/release/1997"));
    assert_eq!(changes[1].target.file_path, path("out/Radiohead &/(1997) OK Computer/02. Lucky.mp3"));
    assert!(!changes[1].is_transcode);
}

#[test]
fn files_stay_in_their_folder_without_an_output_folder() {
    let first = file("in/album/a.flac");
    let release = release("OK Computer", 1997, vec![track("Airbag", 1, 1)]);
    let results = vec![matched(release, &[&first])];
    let changes = get_file_changes(&results, &vec![1], &None, false).unwrap();
    assert_eq!(changes[0].target.file_path, path("in/album/01. Airbag.m4a"));
    let unmatched = tagged("in/other/x.mp3", "Album", 2000, 3);
    let results = vec![DiscogsReleaseMatchResult::Unmatched(vec![&unmatched])];
    let changes = get_file_changes(&results, &vec![1], &None, false).unwrap();
    assert_eq!(changes[0].target.file_path, path("in/other/03. Song 3.mp3"));
    assert_eq!(changes[0].target.tag, strip_redundant_fields(&unmatched.tag));
    assert_eq!(changes[0].discogs_release, None);
    let changes = get_file_changes(&results, &vec![1], &Some(path("out")), false).unwrap();
    assert_eq!(changes[0].target.file_path, path("out/Artist/(2000) Album/03. Song 3.mp3"));
}

#[test]
fn planning_fails_without_the_fields_for_a_path() {
    let untagged = file("in/a.mp3");
    let results = vec![DiscogsReleaseMatchResult::Unmatched(vec![&untagged])];
    assert_eq!(
        get_file_changes(&results, &vec![1], &None, false),
        Err(ChangeError::Name(NameError::NoTrack))
    );
    assert_eq!(
        get_file_changes(&results, &vec![1], &Some(path("out")), false),
        Err(ChangeError::Name(NameError::NoAlbumArtist))
    );
    assert_eq!(
        target_path_for(&Tag::new(), "mp3", &path("a/b.mp3"), &None, false),
        Err(NameError::NoTrack)
    );
}

#[test]
fn planning_needs_a_length_for_each_file() {
    let a = tagged("in/1.mp3", "A", 1999, 1);
    let results = vec![DiscogsReleaseMatchResult::Unmatched(vec![&a])];
    assert_eq!(get_file_changes(&results, &vec![], &None, false), Err(ChangeError::LengthsDoNotFit));
    assert_eq!(get_file_changes(&results, &vec![1, 2], &None, false), Err(ChangeError::LengthsDoNotFit));
    let untagged = file("in/a.mp3");
    let results = vec![DiscogsReleaseMatchResult::Unmatched(vec![&untagged])];
    assert_eq!(get_file_changes(&results, &vec![], &None, false), Err(ChangeError::LengthsDoNotFit));
    assert_eq!(get_file_changes(&Vec::new(), &vec![], &None, false), Ok(vec![]));
}

#[test]
fn tracks_of_one_release_in_one_folder_share_one_cover() {
    let first = file("in/album/a.mp3");
    let second = file("in/album/b.mp3");
    let release = release("OK Computer", 1997, vec![track("Airbag", 1, 1), track("Lucky", 2, 1)]);
    let results = vec![matched(release, &[&first, &second])];
    let changes = get_file_changes(&results, &vec![1, 2], &Some(path("out")), false).unwrap();
    assert_eq!(
        get_cover_changes(&changes),
        Ok(vec![CoverChange {
            path: path("out/Radiohead &/(1997) OK Computer/cover.jpeg"),
            uri: "https://i.discogs.com/abc/cover.jpeg?x=1".to_string(),
        }])
    );
}

#[test]
fn each_folder_gets_its_cover() {
    let first = file("in/one/a.mp3");
    let second = file("in/two/b.mp3");
    let third = tagged("in/two/c.mp3", "A", 1999, 1);
    let mut no_image = release("No Image", 1998, vec![track("Quiet", 1, 1)]);
    no_image.image = None;
    let fourth = file("in/three/d.mp3");
    let release = release("OK Computer", 1997, vec![track("Airbag", 1, 1), track("Lucky", 2, 1)]);
    let results = vec![
        matched(release, &[&first, &second]),
        DiscogsReleaseMatchResult::Unmatched(vec![&third]),
        matched(no_image, &[&fourth]),
    ];
    let changes = get_file_changes(&results, &vec![1, 2, 3, 4], &None, false).unwrap();
    let uri = "https://i.discogs.com/abc/cover.jpeg?x=1".to_string();
    assert_eq!(
        get_cover_changes(&changes),
        Ok(vec![
            CoverChange { path: path("in/one/cover.jpeg"), uri: uri.clone() },
            CoverChange { path: path("in/two/cover.jpeg"), uri: uri.clone() },
        ])
    );
}

#[test]
fn cover_takes_its_extension_from_the_address() {
    assert_eq!(url_path_extension("/a/b/cover.jpeg"), "jpeg");
    assert_eq!(url_path_extension("/a/b.c/cover"), "");
    assert_eq!(url_path_extension("/a/b/cover.png/"), "png");
    assert_eq!(url_path_extension("/"), "");
    assert_eq!(url_path_extension("/a/.hidden"), "");
    let first = file("in/album/a.mp3");
    let mut plain = release("OK Computer", 1997, vec![track("Airbag", 1, 1)]);
    plain.image = Some(DiscogsImage { url: "https://i.discogs.com/image".to_string() });
    let results = vec![matched(plain, &[&first])];
    let changes = get_file_changes(&results, &vec![1], &None, false).unwrap();
    assert_eq!(
        get_cover_changes(&changes),
        Ok(vec![CoverChange { path: path("in/album/cover"), uri: "https://i.discogs.com/image".to_string() }])
    );
}

#[test]
fn cover_needs_a_url() {
    let first = file("in/album/a.mp3");
    let mut broken = release("OK Computer", 1997, vec![track("Airbag", 1, 1)]);
    broken.image = Some(DiscogsImage { url: "not a url".to_string() });
    let results = vec![matched(broken, &[&first])];
    let changes = get_file_changes(&results, &vec![1], &None, false).unwrap();
    assert_eq!(get_cover_changes(&changes), Err(ChangeError::InvalidCoverUrl));
    assert_eq!(
        calculate_changes(&results, &vec![1], &vec![], &None, &all_kinds(), false),
        Err(ChangeError::InvalidCoverUrl)
    );
}

fn one_album<'a>(first: &'a MusicFile, second: &'a MusicFile) -> Vec<DiscogsReleaseMatchResult<'a>> {
    let release = release("OK Computer", 1997, vec![track("Airbag", 1, 1), track("Lucky", 2, 1)]);
    vec![matched(release, &[first, second])]
}

fn listing(folder: &str, names: &[&str]) -> FolderListing {
    FolderListing {
        folder: path(folder),
        entries: names.iter().map(|name| path(folder).join_name(name)).collect(),
    }
}

#[test]
fn folders_to_clean_are_those_written_to_and_read_from() {
    let first = file("in/album/a.mp3");
    let second = file("in/other/b.mp3");
    let results = one_album(&first, &second);
    let changes: Vec<MusicFileChange> = get_file_changes(&results, &vec![1, 2], &Some(path("out")), false).unwrap();
    let covers = get_cover_changes(&changes).unwrap();
    let target = path("out/Radiohead &/(1997) OK Computer");
    assert_eq!(folders_to_list(&changes, &covers, true, true), vec![target.clone(), path("in/album"), path("in/other")]);
    assert_eq!(folders_to_list(&changes, &covers, false, true), vec![target]);
    assert_eq!(folders_to_list(&changes, &covers, true, false), vec![path("in/album"), path("in/other")]);
    assert_eq!(folders_to_list(&changes, &covers, false, false), vec![]);
}

#[test]
fn cleanup_spares_what_the_plan_writes() {
    let first = file("in/album/a.mp3");
    let second = file("in/album/b.mp3");
    let results = one_album(&first, &second);
    let changes = get_file_changes(&results, &vec![1, 2], &Some(path("out")), false).unwrap();
    let covers = get_cover_changes(&changes).unwrap();
    let target = "out/Radiohead &/(1997) OK Computer";
    let listings = vec![
        listing(target, &["01. Airbag.mp3", "cover.jpeg", "old.mp3", "02. Lucky.mp3", "notes.txt"]),
        listing("in/album", &["a.mp3", "b.mp3"]),
        listing("elsewhere", &["x.mp3"]),
    ];
    let cleanups = get_cleanup_changes(&changes, &covers, &listings, true, true);
    assert_eq!(
        cleanups,
        vec![
            Cleanup { path: path(target).join_name("old.mp3") },
            Cleanup { path: path(target).join_name("notes.txt") },
            Cleanup { path: path("in/album/a.mp3") },
            Cleanup { path: path("in/album/b.mp3") },
        ]
    );
    let only_target = get_cleanup_changes(&changes, &covers, &listings, false, true);
    assert_eq!(only_target.len(), 2);
    let only_source = get_cleanup_changes(&changes, &covers, &listings, true, false);
    assert_eq!(only_source, vec![Cleanup { path: path("in/album/a.mp3") }, Cleanup { path: path("in/album/b.mp3") }]);
}

#[test]
fn cleanup_lists_each_leftover_once() {
    let first = file("album/a.mp3");
    let second = file("album/b.mp3");
    let results = one_album(&first, &second);
    let changes = get_file_changes(&results, &vec![1, 2], &None, false).unwrap();
    let covers = get_cover_changes(&changes).unwrap();
    let listings = vec![
        listing("album", &["a.mp3", "01. Airbag.mp3", "stale.txt", "stale.txt", "cover.jpeg"]),
        listing("album", &["ignored.txt"]),
    ];
    assert_eq!(
        get_cleanup_changes(&changes, &covers, &listings, true, true),
        vec![Cleanup { path: path("album/a.mp3") }, Cleanup { path: path("album/stale.txt") }]
    );
    assert_eq!(get_cleanup_changes(&changes, &covers, &vec![], true, true), vec![]);
}

#[test]
fn kinds_that_are_not_allowed_are_left_out_at_the_end() {
    let first = file("in/album/a.mp3");
    let second = file("in/album/b.mp3");
    let results = one_album(&first, &second);
    let listings = vec![listing("in/album", &["a.mp3", "b.mp3", "cover.jpeg", "01. Airbag.mp3", "x"])];
    let all = calculate_changes(&results, &vec![1, 2], &listings, &None, &all_kinds(), false).unwrap();
    assert_eq!(all.music_files.len(), 2);
    assert_eq!(all.covers.len(), 1);
    assert_eq!(
        all.cleanups,
        vec![Cleanup { path: path("in/album/a.mp3") }, Cleanup { path: path("in/album/b.mp3") }, Cleanup { path: path("in/album/x") }]
    );
    let covers_only =
        calculate_changes(&results, &vec![1, 2], &listings, &None, &vec![AllowedChangeType::Covers], false).unwrap();
    assert_eq!(covers_only.music_files, vec![]);
    assert_eq!(covers_only.covers, all.covers);
    assert_eq!(covers_only.cleanups, vec![]);
    let cleanup_only = calculate_changes(
        &results,
        &vec![1, 2],
        &listings,
        &None,
        &vec![AllowedChangeType::TargetCleanup],
        false,
    )
    .unwrap();
    assert_eq!(cleanup_only.music_files, vec![]);
    assert_eq!(cleanup_only.covers, vec![]);
    assert_eq!(cleanup_only.cleanups, all.cleanups);
    let nothing = calculate_changes(&results, &vec![1, 2], &listings, &None, &vec![], false).unwrap();
    assert_eq!((nothing.music_files.len(), nothing.covers.len(), nothing.cleanups.len()), (0, 0, 0));
}

#[test]
fn planning_again_for_written_files_changes_nothing() {
    let first = file("in/album/a.flac");
    let second = file("in/album/b.mp3");
    let results = one_album(&first, &second);
    for output in [None, Some(path("out"))] {
        let changes = get_file_changes(&results, &vec![1, 2], &output, false).unwrap();
        let written: Vec<MusicFile> = changes.iter().map(|change| change.target.clone()).collect();
        let again_results = one_album(&written[0], &written[1]);
        let again = get_file_changes(&again_results, &vec![3, 4], &output, false).unwrap();
        for (index, change) in again.iter().enumerate() {
            assert_eq!(change.source, &written[index]);
            assert_eq!(change.target, written[index]);
            assert!(!change.is_transcode);
        }
    }
}
