use music_files_organizer::discogs::matcher::{
    common_search_params_from_music_files, duration_matched, extract_discogs_id, group_by_folder,
    match_release_with_music_files, position_matched, track_title_of, DiscogsTrackMatch, MatcherError,
};
use music_files_organizer::discogs::model::refined::{DiscogsRelease, DiscogsTrack};
use music_files_organizer::music_file::MusicFile;
use music_files_organizer::tag::Tag;
use music_files_organizer::util::duration::Duration;
use music_files_organizer::util::path::FilePath;
use std::collections::HashMap;

fn path(text: &str) -> FilePath {
    FilePath {
        components: text.split('/').filter(|part| !part.is_empty()).map(str::to_string).collect(),
    }
}

fn file(at: &str, title: Option<&str>, track: Option<u32>, seconds: Option<u64>) -> MusicFile {
    let mut tag = Tag::new();
    tag.set_title(title.map(str::to_string));
    tag.set_track_number(track);
    tag.set_artist(Some("Radiohead".to_string()));
    tag.set_album(Some("OK Computer".to_string()));
    MusicFile { file_path: path(at), tag, duration: seconds.map(Duration::from_secs) }
}

fn track(title: &str, position: u32, seconds: Option<u64>) -> DiscogsTrack {
    DiscogsTrack {
        title: title.to_string(),
        position,
        disc: 1,
        duration: seconds.map(Duration::from_secs),
        artists: None,
    }
}

fn release(tracks: Vec<DiscogsTrack>) -> DiscogsRelease {
    let count = tracks.len() as u32;
    DiscogsRelease {
        uri: "https://www.discogs.com/release/1".to_string(),
        title: "OK Computer".to_string(),
        year: 1997,
        styles: None,
        image: None,
        tracks,
        disc_to_total_tracks: HashMap::from([(1, count)]),
        artists: vec![],
    }
}

const OK_COMPUTER: [(&str, u64); 12] = [
    ("Airbag", 284),
    ("Paranoid Android", 383),
    ("Subterranean Homesick Alien", 267),
    ("Exit Music (For A Film)", 264),
    ("Let Down", 299),
    ("Karma Police", 261),
    ("Fitter Happier", 117),
    ("Electioneering", 230),
    ("Climbing Up The Walls", 285),
    ("No Surprises", 228),
    ("Lucky", 259),
    ("The Tourist", 324),
];

fn ok_computer() -> DiscogsRelease {
    release(
        OK_COMPUTER
            .iter()
            .enumerate()
            .map(|(index, (title, seconds))| track(title, index as u32 + 1, Some(*seconds)))
            .collect(),
    )
}

fn positions(matching: &Option<Vec<DiscogsTrackMatch>>) -> Option<Vec<(String, u32)>> {
    matching.as_ref().map(|pairs| {
        pairs
            .iter()
            .map(|pair| (pair.music_file.file_path.components.last().unwrap().clone(), pair.track.position))
            .collect()
    })
}

#[test]
fn files_are_matched_by_title_not_by_order() {
    let second = file("album/b.mp3", Some("Paranoid Android"), None, Some(380));
    let first = file("album/a.mp3", Some("Airbag"), None, Some(290));
    let files = vec![&second, &first];
    let release = release(vec![track("Airbag", 1, Some(284)), track("Paranoid Android", 2, Some(383))]);
    let matching = match_release_with_music_files(&release, &files, false);
    assert_eq!(
        positions(&matching),
        Some(vec![("b.mp3".to_string(), 2), ("a.mp3".to_string(), 1)])
    );
}

#[test]
fn whole_album_is_matched_by_title_in_any_order() {
    let files: Vec<MusicFile> = OK_COMPUTER
        .iter()
        .rev()
        .map(|(title, seconds)| file(&format!("album/{}.mp3", title), Some(title), None, Some(*seconds + 5)))
        .collect();
    let group: Vec<&MusicFile> = files.iter().collect();
    let matching = match_release_with_music_files(&ok_computer(), &group, false).unwrap();
    assert_eq!(matching.len(), 12);
    for (index, pair) in matching.iter().enumerate() {
        assert_eq!(pair.music_file, &files[index]);
        assert_eq!(Some(pair.track.title.as_str()), pair.music_file.tag.title());
        assert_eq!(pair.track.position as usize, 12 - index);
    }
}

#[test]
fn release_with_another_track_count_is_rejected() {
    let first = file("album/a.mp3", Some("Airbag"), None, Some(284));
    let second = file("album/b.mp3", Some("Paranoid Android"), None, Some(383));
    let files = vec![&first, &second];
    assert_eq!(match_release_with_music_files(&ok_computer(), &files, false), None);
    assert_eq!(match_release_with_music_files(&ok_computer(), &files, true), None);
    let ten: Vec<MusicFile> =
        OK_COMPUTER.iter().take(10).map(|(title, _)| file("album/x.mp3", Some(title), None, None)).collect();
    let group: Vec<&MusicFile> = ten.iter().collect();
    assert_eq!(match_release_with_music_files(&ok_computer(), &group, false), None);
}

#[test]
fn release_without_tracks_is_rejected() {
    let files: Vec<&MusicFile> = vec![];
    assert_eq!(match_release_with_music_files(&release(vec![]), &files, false), None);
    assert_eq!(match_release_with_music_files(&release(vec![]), &files, true), None);
}

#[test]
fn title_falls_back_to_the_name_of_the_file() {
    let first = file("album/Paranoid Android.mp3", None, None, None);
    let second = file("album/Airbag.mp3", None, None, None);
    assert_eq!(track_title_of(&first), "Paranoid Android");
    let files = vec![&first, &second];
    let release = release(vec![track("Airbag", 1, None), track("Paranoid Android", 2, None)]);
    assert_eq!(
        positions(&match_release_with_music_files(&release, &files, false)),
        Some(vec![("Paranoid Android.mp3".to_string(), 2), ("Airbag.mp3".to_string(), 1)])
    );
}

#[test]
fn duration_alone_can_match() {
    let first = file("album/a.mp3", Some("zzzz"), None, Some(100));
    let second = file("album/b.mp3", Some("qqqq"), None, Some(400));
    let files = vec![&second, &first];
    let release = release(vec![track("Airbag", 1, Some(110)), track("Lucky", 2, Some(489))]);
    assert_eq!(
        positions(&match_release_with_music_files(&release, &files, false)),
        Some(vec![("b.mp3".to_string(), 2), ("a.mp3".to_string(), 1)])
    );
}

#[test]
fn durations_fit_under_ninety_seconds_apart() {
    let music_file = file("a.mp3", None, None, Some(200));
    assert!(duration_matched(&music_file, &track("a", 1, Some(289))));
    assert!(duration_matched(&music_file, &track("a", 1, Some(111))));
    assert!(!duration_matched(&music_file, &track("a", 1, Some(290))));
    assert!(!duration_matched(&music_file, &track("a", 1, Some(110))));
    assert!(!duration_matched(&music_file, &track("a", 1, None)));
    assert!(!duration_matched(&file("a.mp3", None, None, None), &track("a", 1, Some(200))));
    let nearly = MusicFile { duration: Some(Duration { nanos: 379_999_999_999 }), ..file("a.mp3", None, None, None) };
    assert!(duration_matched(&nearly, &track("a", 1, Some(290))));
}

#[test]
fn track_number_must_agree_with_the_position() {
    let music_file = file("a.mp3", Some("Airbag"), Some(2), None);
    assert!(position_matched(&music_file, &track("x", 2, None)));
    assert!(!position_matched(&music_file, &track("x", 1, None)));
    assert!(position_matched(&file("a.mp3", None, None, None), &track("x", 9, None)));
    let first = file("album/a.mp3", Some("Airbag"), Some(2), None);
    let second = file("album/b.mp3", Some("Paranoid Android"), Some(1), None);
    let files = vec![&first, &second];
    let release = release(vec![track("Airbag", 1, None), track("Paranoid Android", 2, None)]);
    assert_eq!(match_release_with_music_files(&release, &files, false), None);
}

#[test]
fn no_track_is_given_to_two_files() {
    let first = file("album/a.mp3", Some("Airbag"), None, None);
    let second = file("album/b.mp3", Some("Airbag"), None, None);
    let files = vec![&first, &second];
    let release = release(vec![track("Airbag", 1, None), track("Lucky", 2, None)]);
    assert_eq!(match_release_with_music_files(&release, &files, false), None);
    let twice = release_with_two_airbags();
    assert_eq!(
        positions(&match_release_with_music_files(&twice, &files, false)),
        Some(vec![("a.mp3".to_string(), 1), ("b.mp3".to_string(), 2)])
    );
}

fn release_with_two_airbags() -> DiscogsRelease {
    release(vec![track("Airbag", 1, None), track("Airbag", 2, None)])
}

#[test]
fn best_title_wins_among_tracks_that_fit() {
    let only = file("album/a.mp3", Some("Lucky"), None, Some(100));
    let other = file("album/b.mp3", Some("zzzz"), None, Some(100));
    let files = vec![&only, &other];
    let release = release(vec![track("Unlucky Star", 1, Some(100)), track("Lucky", 2, Some(100))]);
    assert_eq!(
        positions(&match_release_with_music_files(&release, &files, false)),
        Some(vec![("a.mp3".to_string(), 2), ("b.mp3".to_string(), 1)])
    );
}

#[test]
fn named_release_is_matched_by_position_only() {
    let first = file("album/a.mp3", Some("zzz"), Some(2), None);
    let second = file("album/b.mp3", Some("qqq"), Some(1), None);
    let files = vec![&first, &second];
    let release = release(vec![track("Airbag", 1, None), track("Paranoid Android", 2, None)]);
    assert_eq!(match_release_with_music_files(&release, &files, false), None);
    assert_eq!(
        positions(&match_release_with_music_files(&release, &files, true)),
        Some(vec![("a.mp3".to_string(), 2), ("b.mp3".to_string(), 1)])
    );
}

#[test]
fn named_release_pairs_unnumbered_files_in_list_order() {
    let first = file("album/a.mp3", Some("Paranoid Android"), None, None);
    let second = file("album/b.mp3", Some("Airbag"), None, None);
    let third = file("album/c.mp3", None, Some(2), None);
    let files = vec![&first, &second, &third];
    let release = release(vec![track("Airbag", 1, None), track("Paranoid Android", 2, None), track("Lucky", 3, None)]);
    assert_eq!(
        positions(&match_release_with_music_files(&release, &files, true)),
        None
    );
    let files = vec![&third, &first, &second];
    assert_eq!(
        positions(&match_release_with_music_files(&release, &files, true)),
        Some(vec![("c.mp3".to_string(), 2), ("a.mp3".to_string(), 1), ("b.mp3".to_string(), 3)])
    );
}

#[test]
fn release_id_is_a_number_or_a_number_in_brackets() {
    assert_eq!(extract_discogs_id("[r123456]"), Ok("123456".to_string()));
    assert_eq!(extract_discogs_id("123456"), Ok("123456".to_string()));
    assert_eq!(extract_discogs_id("0"), Ok("0".to_string()));
    assert_eq!(extract_discogs_id("[r7]"), Ok("7".to_string()));
}

#[test]
fn other_texts_are_no_release_id() {
    for text in ["", "[r]", "r123", "[r123", "r123]", "[m123]", "12a", " 123", "123\n", "[r12 3]", "[[r1]]", "-1"] {
        assert_eq!(extract_discogs_id(text), Err(MatcherError::InvalidReleaseId), "{:?}", text);
    }
}

#[test]
fn search_parameters_go_from_telling_to_broad() {
    let mut first = file("album/a.mp3", Some("Airbag"), None, None);
    first.tag.set_year(Some(1997));
    first.tag.set_artist(Some("Radiohead".to_string()));
    let mut second = file("album/b.mp3", Some("Lucky"), None, None);
    second.tag.set_year(Some(1997));
    second.tag.set_artist(Some("Björk!".to_string()));
    let mut third = file("album/c.mp3", Some("Lucky"), None, None);
    third.tag.set_year(Some(2009));
    third.tag.set_album(None);
    third.tag.set_artist(None);
    let files = vec![&first, &second, &third];
    let artist = ("artist", "radiohead bjork".to_string());
    let album = ("release_title", "ok computer".to_string());
    let year = ("year", "1997 2009".to_string());
    assert_eq!(
        common_search_params_from_music_files(&files),
        vec![
            vec![album.clone(), year.clone()],
            vec![album.clone()],
            vec![artist.clone(), album.clone(), year.clone()],
            vec![artist.clone(), album.clone()],
            vec![artist.clone()],
        ]
    );
}

#[test]
fn search_parameters_of_untagged_files_are_empty() {
    let music_file = MusicFile { file_path: path("a/b.mp3"), tag: Tag::new(), duration: None };
    let files = vec![&music_file];
    let sets = common_search_params_from_music_files(&files);
    assert_eq!(sets.len(), 5);
    assert_eq!(sets[0], vec![("release_title", String::new()), ("year", String::new())]);
    assert_eq!(sets[4], vec![("artist", String::new())]);
}

#[test]
fn files_are_grouped_by_their_folders() {
    let a1 = file("music/a/1.mp3", None, None, None);
    let b1 = file("music/b/1.mp3", None, None, None);
    let a2 = file("music/a/2.mp3", None, None, None);
    let top = file("1.mp3", None, None, None);
    let b2 = file("music/b/2.mp3", None, None, None);
    let files = vec![&a1, &b1, &a2, &top, &b2];
    assert_eq!(group_by_folder(&files), vec![vec![&a1, &a2], vec![&b1, &b2], vec![&top]]);
    assert_eq!(group_by_folder(&Vec::new()), Vec::<Vec<&MusicFile>>::new());
}
