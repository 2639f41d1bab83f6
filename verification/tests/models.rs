use music_files_organizer::discogs::model::refined;
use music_files_organizer::discogs::model::serialized;
use music_files_organizer::discogs::model::ModelError;
use music_files_organizer::util::duration::Duration;
use std::collections::HashMap;

fn track(title: &str, position: Option<&str>, duration: Option<&str>) -> serialized::DiscogsTrack {
    serialized::DiscogsTrack {
        title: title.to_string(),
        type_: "track".to_string(),
        artists: None,
        position: position.map(str::to_string),
        sub_tracks: None,
        duration: duration.map(str::to_string),
    }
}

fn release(tracklist: Vec<serialized::DiscogsTrack>) -> serialized::DiscogsRelease {
    serialized::DiscogsRelease {
        title: " OK Computer ".to_string(),
        uri: "https://www.discogs.com/release/1".to_string(),
        images: None,
        tracklist,
        artists: vec![serialized::DiscogsArtist { name: "Radiohead (2)".to_string(), join: None }],
        year: 1997,
        styles: Some(vec!["Alternative Rock".to_string()]),
        format_quantity: None,
    }
}

fn image(url: &str, type_: &str) -> serialized::DiscogsImage {
    serialized::DiscogsImage { resource_url: url.to_string(), type_: type_.to_string() }
}

#[test]
fn duration_counts_each_part_sixty_times_the_next() {
    assert_eq!(track("a", None, Some("4:44")).parsed_duration(), Ok(Some(Duration::from_secs(284))));
    assert_eq!(track("a", None, Some("1:02:03")).parsed_duration(), Ok(Some(Duration::from_secs(3723))));
    assert_eq!(track("a", None, Some("59")).parsed_duration(), Ok(Some(Duration::from_secs(59))));
    assert_eq!(track("a", None, Some("0:90")).parsed_duration(), Ok(Some(Duration::from_secs(90))));
    assert_eq!(track("a", None, None).parsed_duration(), Ok(None));
}

#[test]
fn duration_that_is_no_clock_reading_is_refused() {
    assert_eq!(track("a", None, Some("")).parsed_duration(), Err(ModelError::InvalidDuration));
    assert_eq!(track("a", None, Some("4:")).parsed_duration(), Err(ModelError::InvalidDuration));
    assert_eq!(track("a", None, Some("4m")).parsed_duration(), Err(ModelError::InvalidDuration));
    assert_eq!(track("a", None, Some("-1:00")).parsed_duration(), Err(ModelError::InvalidDuration));
    assert_eq!(
        track("a", None, Some("18446744073709551615:00")).parsed_duration(),
        Err(ModelError::InvalidDuration)
    );
}

#[test]
fn refined_duration_takes_an_empty_text_for_none() {
    assert_eq!(refined::DiscogsTrack::duration(&track("a", None, Some(""))), Ok(None));
    assert_eq!(
        refined::DiscogsTrack::duration(&track("a", None, Some("3:05"))),
        Ok(Some(Duration { nanos: 185_000_000_000 }))
    );
    assert_eq!(
        refined::DiscogsTrack::duration(&track("a", None, Some("x"))),
        Err(ModelError::InvalidDuration)
    );
}

#[test]
fn titles_are_trimmed() {
    assert_eq!(track("  Airbag \n", None, None).proper_title(), "Airbag");
    assert_eq!(release(vec![]).proper_title(), "OK Computer");
    assert_eq!(refined::DiscogsTrack::title(&track("\tLucky ", None, None)), "Lucky");
}

#[test]
fn artist_name_loses_its_numbering() {
    assert_eq!(refined::proper_name_of("Radiohead (2)"), "Radiohead");
    assert_eq!(refined::proper_name_of("Nirvana (12) "), "Nirvana");
    assert_eq!(refined::proper_name_of("Radiohead"), "Radiohead");
    assert_eq!(refined::proper_name_of("Sunn O))) (3)"), "Sunn O)))");
    assert_eq!(refined::proper_name_of("A (1) And B (2)"), "A (1) And B");
    assert_eq!(refined::proper_name_of("Blink (182"), "Blink (182");
    assert_eq!(refined::proper_name_of("Blink ()"), "Blink ()");
    assert_eq!(refined::proper_name_of("Blink(2)"), "Blink(2)");
    assert_eq!(refined::proper_name_of(" (2)"), "");
}

#[test]
fn artist_as_the_catalog_sends_it_has_a_proper_name() {
    let artist = serialized::DiscogsArtist { name: " Air (3) ".to_string(), join: None };
    assert_eq!(artist.proper_name(), "Air");
}

#[test]
fn artist_is_refined_with_its_join_word() {
    let artist = serialized::DiscogsArtist { name: "Air (3)".to_string(), join: Some("feat.".to_string()) };
    assert_eq!(
        refined::DiscogsArtist::from(&artist),
        refined::DiscogsArtist { name: "Air".to_string(), join: Some("feat.".to_string()) }
    );
}

#[test]
fn position_names_a_place_or_a_disc_and_a_place() {
    assert_eq!(refined::DiscogsTrack::disc_position(&track("a", Some("7"), None)), Ok(Some((None, 7))));
    assert_eq!(refined::DiscogsTrack::disc_position(&track("a", Some("2-11"), None)), Ok(Some((Some(2), 11))));
    assert_eq!(refined::DiscogsTrack::disc_position(&track("a", Some("1-2-3"), None)), Ok(Some((Some(1), 2))));
    assert_eq!(refined::DiscogsTrack::disc_position(&track("a", None, None)), Ok(None));
    assert_eq!(
        refined::DiscogsTrack::disc_position(&track("a", Some("A1"), None)),
        Err(ModelError::InvalidPosition)
    );
    assert_eq!(
        refined::DiscogsTrack::disc_position(&track("a", Some("1-"), None)),
        Err(ModelError::InvalidPosition)
    );
    assert_eq!(
        refined::DiscogsTrack::disc_position(&track("a", Some(""), None)),
        Err(ModelError::InvalidPosition)
    );
}

#[test]
fn track_list_is_flattened_with_what_tracks_hold() {
    let mut heading = track("Side A", None, None);
    heading.type_ = "heading".to_string();
    let mut suite = track("Suite", Some("2"), None);
    suite.type_ = "index".to_string();
    let mut nested = track("Part II", Some("2b"), None);
    nested.sub_tracks = Some(vec![track("Coda", None, None)]);
    suite.sub_tracks = Some(vec![track("Part I", Some("2a"), None), nested]);
    let release = release(vec![heading, track("Intro", Some("1"), None), suite, track("Outro", Some("3"), None)]);
    let titles: Vec<&str> = release.valid_track_list().iter().map(|t| t.title.as_str()).collect();
    assert_eq!(titles, vec!["Intro", "Part I", "Part II", "Coda", "Outro"]);
}

#[test]
fn best_image_is_primary_before_secondary() {
    let mut release = release(vec![]);
    assert_eq!(release.best_image(), None);
    release.images = Some(vec![image("s1", "secondary"), image("p1", "primary"), image("p2", "primary")]);
    assert_eq!(release.best_image(), Some(&image("p1", "primary")));
    release.images = Some(vec![image("x", "other"), image("s1", "secondary"), image("s2", "secondary")]);
    assert_eq!(release.best_image(), Some(&image("s1", "secondary")));
    release.images = Some(vec![image("x", "other")]);
    assert_eq!(release.best_image(), None);
}

#[test]
fn release_is_refined() {
    let mut raw = release(vec![
        track(" Airbag ", Some("1"), Some("4:44")),
        track("Paranoid Android", Some("2"), Some("")),
    ]);
    raw.images = Some(vec![image("https://i.discogs.com/cover.jpeg", "primary")]);
    raw.tracklist[1].artists =
        Some(vec![serialized::DiscogsArtist { name: "Guest (4)".to_string(), join: Some(",".to_string()) }]);
    let refined = refined::DiscogsRelease::from(&raw).unwrap();
    assert_eq!(refined.uri, "https://www.discogs.com/release/1");
    assert_eq!(refined.title, "OK Computer");
    assert_eq!(refined.year, 1997);
    assert_eq!(refined.styles, Some(vec!["Alternative Rock".to_string()]));
    assert_eq!(refined.image, Some(refined::DiscogsImage { url: "https://i.discogs.com/cover.jpeg".to_string() }));
    assert_eq!(refined.artists, vec![refined::DiscogsArtist { name: "Radiohead".to_string(), join: None }]);
    assert_eq!(
        refined.tracks,
        vec![
            refined::DiscogsTrack {
                title: "Airbag".to_string(),
                position: 1,
                disc: 1,
                duration: Some(Duration::from_secs(284)),
                artists: None,
            },
            refined::DiscogsTrack {
                title: "Paranoid Android".to_string(),
                position: 2,
                disc: 1,
                duration: None,
                artists: Some(vec![refined::DiscogsArtist { name: "Guest".to_string(), join: Some(",".to_string()) }]),
            },
        ]
    );
    assert_eq!(refined.disc_to_total_tracks, HashMap::from([(1, 2)]));
    assert_eq!(refined.clone(), refined);
}

#[test]
fn tracks_without_a_position_are_counted() {
    let raw = release(vec![track("a", None, None), track("b", Some("A2"), None), track("c", None, None)]);
    let refined = refined::DiscogsRelease::from(&raw).unwrap();
    let places: Vec<(u32, u32)> = refined.tracks.iter().map(|t| (t.disc, t.position)).collect();
    assert_eq!(places, vec![(1, 1), (1, 2), (1, 3)]);
    assert!(!refined::DiscogsRelease::mixes_positions(&raw));
}

#[test]
fn tracks_are_placed_on_their_discs() {
    let raw = release(vec![
        track("a", Some("1-1"), None),
        track("b", Some("1-2"), None),
        track("c", Some("2-1"), None),
        track("d", Some("3-1"), None),
        track("e", Some("2-2"), None),
    ]);
    let refined = refined::DiscogsRelease::from(&raw).unwrap();
    let places: Vec<(u32, u32)> = refined.tracks.iter().map(|t| (t.disc, t.position)).collect();
    assert_eq!(places, vec![(1, 1), (1, 2), (2, 1), (3, 1), (2, 2)]);
    assert_eq!(refined.disc_to_total_tracks, HashMap::from([(1, 2), (2, 2), (3, 1)]));
}

#[test]
fn mixed_positions_are_noticed() {
    let raw = release(vec![track("a", Some("5"), None), track("b", None, None), track("c", Some("x"), None)]);
    let refined = refined::DiscogsRelease::from(&raw).unwrap();
    let places: Vec<(u32, u32)> = refined.tracks.iter().map(|t| (t.disc, t.position)).collect();
    assert_eq!(places, vec![(1, 5), (1, 1), (1, 2)]);
    assert!(refined::DiscogsRelease::mixes_positions(&raw));
    assert!(!refined::DiscogsRelease::mixes_positions(&release(vec![track("a", Some("5"), None)])));
    assert!(!refined::DiscogsRelease::mixes_positions(&release(vec![])));
}

#[test]
fn release_with_an_unreadable_duration_is_refused() {
    let raw = release(vec![track("a", Some("1"), Some("4:44")), track("b", Some("2"), Some("4-44"))]);
    assert_eq!(refined::DiscogsRelease::from(&raw), Err(ModelError::InvalidDuration));
}
