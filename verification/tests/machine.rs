use music_files_organizer::discogs::matcher::{DiscogsReleaseMatchResult, MatcherError};
use music_files_organizer::discogs::matching::{AskReason, DiscogsMatcher, MatcherAction, MatcherEvent};
use music_files_organizer::discogs::model::serialized::{DiscogsArtist, DiscogsRelease, DiscogsTrack};
use music_files_organizer::discogs::model::ModelError;
use music_files_organizer::music_file::MusicFile;
use music_files_organizer::tag::Tag;
use music_files_organizer::util::path::FilePath;

fn path(text: &str) -> FilePath {
    FilePath {
        components: text.split('/').filter(|part| !part.is_empty()).map(str::to_string).collect(),
    }
}

fn file(at: &str, title: &str, track: Option<u32>) -> MusicFile {
    let mut tag = Tag::new();
    tag.set_title(Some(title.to_string()));
    tag.set_artist(Some("Radiohead".to_string()));
    tag.set_album(Some("OK Computer".to_string()));
    tag.set_year(Some(1997));
    tag.set_track_number(track);
    MusicFile { file_path: path(at), tag, duration: None }
}

fn release(uri: &str, titles: &[&str]) -> DiscogsRelease {
    DiscogsRelease {
        title: "OK Computer".to_string(),
        uri: uri.to_string(),
        images: None,
        tracklist: titles
            .iter()
            .map(|title| DiscogsTrack {
                title: title.to_string(),
                type_: "track".to_string(),
                artists: None,
                position: None,
                sub_tracks: None,
                duration: None,
            })
            .collect(),
        artists: vec![DiscogsArtist { name: "Radiohead".to_string(), join: Some(String::new()) }],
        year: 1997,
        styles: None,
        format_quantity: None,
    }
}

fn search(type_: &str, params: &[(&'static str, &str)]) -> MatcherAction<'static> {
    let mut all = vec![("type", type_.to_string())];
    all.extend(params.iter().map(|(key, value)| (*key, value.to_string())));
    MatcherAction::Search { params: all }
}

fn urls(list: &[&str]) -> MatcherEvent {
    MatcherEvent::SearchResults { urls: list.iter().map(|url| url.to_string()).collect() }
}

fn master(url: &str) -> MatcherEvent {
    MatcherEvent::MasterFetched { main_release_url: url.to_string() }
}

fn fetched(uri: &str, titles: &[&str]) -> MatcherEvent {
    MatcherEvent::ReleaseFetched { release: release(uri, titles) }
}

fn fetch_release(url: &str) -> MatcherAction<'static> {
    MatcherAction::FetchRelease { url: url.to_string() }
}

fn fetch_master(url: &str) -> MatcherAction<'static> {
    MatcherAction::FetchMaster { url: url.to_string() }
}

const ALBUM: (&str, &str) = ("release_title", "ok computer");
const YEAR: (&str, &str) = ("year", "1997");
const ARTIST: (&str, &str) = ("artist", "radiohead");

#[test]
fn nothing_to_match_finishes_at_once() {
    let (_, action) = DiscogsMatcher::match_music_files(&vec![], &None);
    assert_eq!(action, MatcherAction::Finish { results: vec![] });
}

#[test]
fn first_release_that_fits_wins() {
    let airbag = file("album/a.mp3", "Airbag", None);
    let lucky = file("album/b.mp3", "Lucky", None);
    let files = vec![&lucky, &airbag];
    let (matcher, action) = DiscogsMatcher::match_music_files(&files, &None);
    assert_eq!(action, search("master", &[ALBUM, YEAR]));
    let (matcher, action) = matcher.resume(urls(&["m1", "m2"]));
    assert_eq!(action, fetch_master("m1"));
    let (matcher, action) = matcher.resume(master("r1"));
    assert_eq!(action, fetch_release("r1"));
    // twelve tracks do not fit two files
    let (matcher, action) = matcher.resume(fetched("u1", &["Airbag", "Lucky", "3", "4", "5", "6", "7", "8", "9", "10", "11", "12"]));
    assert_eq!(action, fetch_master("m2"));
    let (matcher, action) = matcher.resume(master("r2"));
    assert_eq!(action, fetch_release("r2"));
    let (_, action) = matcher.resume(fetched("u2", &["Airbag", "Lucky"]));
    match action {
        MatcherAction::Finish { results } => {
            assert_eq!(results.len(), 1);
            match &results[0] {
                DiscogsReleaseMatchResult::Matched { tracks_matching, release } => {
                    assert_eq!(release.uri, "u2");
                    assert_eq!(tracks_matching.len(), 2);
                    assert_eq!(tracks_matching[0].music_file, &lucky);
                    assert_eq!(tracks_matching[0].track.position, 2);
                    assert_eq!(tracks_matching[1].music_file, &airbag);
                    assert_eq!(tracks_matching[1].track.position, 1);
                },
                other => panic!("{:?}", other),
            }
        },
        other => panic!("{:?}", other),
    }
}

#[test]
fn each_set_of_parameters_looks_at_five_releases_at_most() {
    let airbag = file("album/a.mp3", "Airbag", None);
    let files = vec![&airbag];
    let (matcher, _) = DiscogsMatcher::match_music_files(&files, &None);
    let (mut matcher, mut action) = matcher.resume(urls(&["m1", "m2", "m3"]));
    for (index, release_url) in ["r1", "r2", "r3"].iter().enumerate() {
        assert_eq!(action, fetch_master(&format!("m{}", index + 1)));
        (matcher, action) = matcher.resume(master(release_url));
        assert_eq!(action, fetch_release(release_url));
        (matcher, action) = matcher.resume(fetched("u", &["Lucky"]));
    }
    assert_eq!(action, search("release", &[ALBUM, YEAR]));
    (matcher, action) = matcher.resume(urls(&["r4", "r5", "r6", "r7"]));
    assert_eq!(action, fetch_release("r4"));
    (matcher, action) = matcher.resume(fetched("u", &["Lucky"]));
    assert_eq!(action, fetch_release("r5"));
    (matcher, action) = matcher.resume(fetched("u", &["Lucky"]));
    // five releases were looked at: the next set has its turn
    assert_eq!(action, search("master", &[ALBUM]));
    (matcher, action) = matcher.resume(urls(&[]));
    assert_eq!(action, search("release", &[ALBUM]));
    (matcher, action) = matcher.resume(urls(&[]));
    assert_eq!(action, search("master", &[ARTIST, ALBUM, YEAR]));
    (matcher, action) = matcher.resume(urls(&[]));
    assert_eq!(action, search("release", &[ARTIST, ALBUM, YEAR]));
    (matcher, action) = matcher.resume(urls(&[]));
    assert_eq!(action, search("master", &[ARTIST, ALBUM]));
    (matcher, action) = matcher.resume(urls(&[]));
    assert_eq!(action, search("release", &[ARTIST, ALBUM]));
    (matcher, action) = matcher.resume(urls(&[]));
    assert_eq!(action, search("master", &[ARTIST]));
    (matcher, action) = matcher.resume(urls(&[]));
    assert_eq!(action, search("release", &[ARTIST]));
    (matcher, action) = matcher.resume(urls(&[]));
    assert_eq!(action, MatcherAction::AskForReleaseId { reason: AskReason::NotFound });
    let (_, action) = matcher.resume(MatcherEvent::ReleaseIdEntered { text: None });
    assert_eq!(action, MatcherAction::Finish { results: vec![DiscogsReleaseMatchResult::Unmatched(vec![&airbag])] });
}

#[test]
fn five_masters_leave_no_room_for_releases() {
    let airbag = file("album/a.mp3", "Airbag", None);
    let files = vec![&airbag];
    let (matcher, _) = DiscogsMatcher::match_music_files(&files, &None);
    let (mut matcher, mut action) = matcher.resume(urls(&["m1", "m2", "m3", "m4", "m5", "m6"]));
    for index in 1..=5 {
        assert_eq!(action, fetch_master(&format!("m{}", index)));
        (matcher, action) = matcher.resume(master(&format!("r{}", index)));
        assert_eq!(action, fetch_release(&format!("r{}", index)));
        (matcher, action) = matcher.resume(fetched("u", &["Lucky"]));
    }
    assert_eq!(action, search("master", &[ALBUM]));
    let _ = matcher;
}

#[test]
fn no_release_is_fetched_twice_for_a_group() {
    let airbag = file("album/a.mp3", "Airbag", None);
    let files = vec![&airbag];
    let (matcher, _) = DiscogsMatcher::match_music_files(&files, &None);
    let (matcher, action) = matcher.resume(urls(&["m1", "m2", "m3"]));
    assert_eq!(action, fetch_master("m1"));
    let (matcher, action) = matcher.resume(master("r1"));
    assert_eq!(action, fetch_release("r1"));
    let (matcher, action) = matcher.resume(fetched("u", &["Lucky"]));
    assert_eq!(action, fetch_master("m2"));
    // the second master points to the release that was looked at
    let (matcher, action) = matcher.resume(master("r1"));
    assert_eq!(action, fetch_master("m3"));
    let (matcher, action) = matcher.resume(master("r1"));
    assert_eq!(action, search("release", &[ALBUM, YEAR]));
    // known releases count for the share of five, so only r2 and r3 are fetched
    let (matcher, action) = matcher.resume(urls(&["r1", "r2", "r3", "r4"]));
    assert_eq!(action, fetch_release("r2"));
    let (matcher, action) = matcher.resume(fetched("u", &["Lucky"]));
    assert_eq!(action, search("master", &[ALBUM]));
    let (matcher, action) = matcher.resume(urls(&[]));
    assert_eq!(action, search("release", &[ALBUM]));
    let (_, action) = matcher.resume(urls(&["r2", "r1", "r3"]));
    assert_eq!(action, fetch_release("r3"));
}

#[test]
fn named_release_is_asked_for_until_it_fits() {
    let first = file("album/a.mp3", "zzz", Some(2));
    let second = file("album/b.mp3", "qqq", Some(1));
    let files = vec![&first, &second];
    let (matcher, action) = DiscogsMatcher::match_music_files(&files, &Some("[r123456]".to_string()));
    assert_eq!(action, MatcherAction::FetchReleaseById { release_id: "123456".to_string() });
    let (matcher, action) = matcher.resume(fetched("u1", &["only one"]));
    assert_eq!(
        action,
        MatcherAction::AskForReleaseId { reason: AskReason::FailedToMatch { release_id: "123456".to_string() } }
    );
    let (matcher, action) = matcher.resume(MatcherEvent::ReleaseIdEntered { text: Some("42".to_string()) });
    assert_eq!(action, MatcherAction::FetchReleaseById { release_id: "42".to_string() });
    let (_, action) = matcher.resume(fetched("u2", &["Airbag", "Lucky"]));
    match action {
        MatcherAction::Finish { results } => match &results[0] {
            DiscogsReleaseMatchResult::Matched { tracks_matching, release } => {
                assert_eq!(release.uri, "u2");
                assert_eq!(tracks_matching[0].track.title, "Lucky");
                assert_eq!(tracks_matching[1].track.title, "Airbag");
            },
            other => panic!("{:?}", other),
        },
        other => panic!("{:?}", other),
    }
}

#[test]
fn groups_are_matched_one_after_the_other() {
    let one = file("one/a.mp3", "Airbag", None);
    let two = file("two/a.mp3", "Lucky", None);
    let three = file("one/b.mp3", "Let Down", None);
    let files = vec![&one, &two, &three];
    let (matcher, action) = DiscogsMatcher::match_music_files(&files, &Some("7".to_string()));
    assert_eq!(action, MatcherAction::FetchReleaseById { release_id: "7".to_string() });
    let (matcher, action) = matcher.resume(fetched("u", &["Airbag", "Let Down"]));
    assert_eq!(action, MatcherAction::FetchReleaseById { release_id: "7".to_string() });
    let (matcher, action) = matcher.resume(fetched("u", &["Airbag", "Let Down"]));
    assert_eq!(
        action,
        MatcherAction::AskForReleaseId { reason: AskReason::FailedToMatch { release_id: "7".to_string() } }
    );
    let (_, action) = matcher.resume(MatcherEvent::ReleaseIdEntered { text: None });
    match action {
        MatcherAction::Finish { results } => {
            assert_eq!(results.len(), 2);
            assert!(matches!(&results[0], DiscogsReleaseMatchResult::Matched { tracks_matching, .. }
                if tracks_matching.len() == 2 && tracks_matching[0].music_file == &one && tracks_matching[1].music_file == &three));
            assert_eq!(results[1], DiscogsReleaseMatchResult::Unmatched(vec![&two]));
        },
        other => panic!("{:?}", other),
    }
}

#[test]
fn matching_fails_on_what_cannot_be_read() {
    let airbag = file("album/a.mp3", "Airbag", None);
    let files = vec![&airbag];
    let (_, action) = DiscogsMatcher::match_music_files(&files, &Some("release 7".to_string()));
    assert_eq!(action, MatcherAction::Fail { error: MatcherError::InvalidReleaseId });
    let (matcher, _) = DiscogsMatcher::match_music_files(&files, &Some("7".to_string()));
    let mut broken = release("u", &["Airbag"]);
    broken.tracklist[0].duration = Some("soon".to_string());
    let (matcher, action) = matcher.resume(MatcherEvent::ReleaseFetched { release: broken });
    assert_eq!(action, MatcherAction::Fail { error: MatcherError::Model(ModelError::InvalidDuration) });
    let (_, action) = matcher.resume(urls(&[]));
    assert_eq!(action, MatcherAction::Fail { error: MatcherError::UnexpectedEvent });
    let (matcher, _) = DiscogsMatcher::match_music_files(&files, &None);
    let (matcher, _) = matcher.resume(urls(&[]));
    let (matcher, _) = matcher.resume(urls(&[]));
    let (_, action) = matcher.resume(master("r1"));
    assert_eq!(action, MatcherAction::Fail { error: MatcherError::UnexpectedEvent });
    let (matcher, _) = DiscogsMatcher::match_music_files(&files, &Some("7".to_string()));
    let (matcher, _) = matcher.resume(fetched("u", &["a", "b"]));
    let (_, action) = matcher.resume(MatcherEvent::ReleaseIdEntered { text: Some("[r]".to_string()) });
    assert_eq!(action, MatcherAction::Fail { error: MatcherError::InvalidReleaseId });
}
