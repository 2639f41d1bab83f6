use music_files_organizer::music_file::{
    music_file_name_for, music_folder_path_for, relative_path_for, NameError,
};
use music_files_organizer::tag::frame::{FrameContent, FrameContentError, FrameId};
use music_files_organizer::tag::{format_of_extension, Tag, TagFormat};
use music_files_organizer::util::path::FilePath;

fn components(parts: &[&str]) -> FilePath {
    FilePath { components: parts.iter().map(|part| part.to_string()).collect() }
}

fn full_tag() -> Tag {
    let mut tag = Tag::new();
    tag.set_title(Some("Airbag".to_string()));
    tag.set_album(Some("OK Computer".to_string()));
    tag.set_album_artist(Some("Radiohead".to_string()));
    tag.set_artist(Some("Radiohead & Friends".to_string()));
    tag.set_year(Some(1997));
    tag.set_track_number(Some(1));
    tag.set_total_tracks(Some(12));
    tag.set_genre(Some("Alternative Rock".to_string()));
    tag
}

#[test]
fn frame_names_are_fixed() {
    assert_eq!(FrameId::Title.description(), "Title");
    assert_eq!(FrameId::AlbumArtist.description(), "Album Artist");
    assert_eq!(FrameId::TotalTracks.description(), "Total Tracks");
    assert_eq!(FrameId::TotalDiscs.description(), "Total Discs");
    assert_eq!(FrameId::CustomText { key: "DISCOGS_RELEASE".to_string() }.description(), "DISCOGS_RELEASE");
}

#[test]
fn frame_ids_are_read_from_their_names() {
    assert_eq!(FrameId::from_str("Title"), FrameId::Title);
    assert_eq!(FrameId::from_str("Album Artist"), FrameId::AlbumArtist);
    assert_eq!(FrameId::from_str("Total Discs"), FrameId::TotalDiscs);
    assert_eq!(FrameId::from_str("Genre"), FrameId::Genre);
    assert_eq!(FrameId::from_str("title"), FrameId::CustomText { key: "title".to_string() });
    for id in [
        FrameId::Title,
        FrameId::Album,
        FrameId::AlbumArtist,
        FrameId::Artist,
        FrameId::Year,
        FrameId::Track,
        FrameId::TotalTracks,
        FrameId::Disc,
        FrameId::TotalDiscs,
        FrameId::Genre,
    ] {
        assert_eq!(FrameId::from_str(id.description()), id);
    }
}

#[test]
fn frame_content_is_read_as_its_kind_only() {
    let text = FrameContent::Str("a".to_string());
    let year = FrameContent::I32(-5);
    let track = FrameContent::U32(7);
    assert_eq!(text.as_str(), Ok("a"));
    assert_eq!(year.as_str(), Err(FrameContentError::NotAString));
    assert_eq!(year.as_i32(), Ok(-5));
    assert_eq!(track.as_i32(), Err(FrameContentError::NotASignedInteger));
    assert_eq!(track.as_u32(), Ok(7));
    assert_eq!(text.as_u32(), Err(FrameContentError::NotAnUnsignedInteger));
}

#[test]
fn frame_content_is_written_out() {
    assert_eq!(FrameContent::Str("a b".to_string()).stringify_content(), "a b");
    assert_eq!(FrameContent::I32(-1997).stringify_content(), "-1997");
    assert_eq!(FrameContent::U32(12).stringify_content(), "12");
}

#[test]
fn tag_lists_the_fields_that_are_present() {
    let mut tag = Tag::new();
    assert_eq!(tag.frame_ids(), vec![]);
    tag.set_year(Some(1997));
    tag.set_title(Some("Airbag".to_string()));
    tag.set_custom_text("B".to_string(), Some("2".to_string()));
    tag.set_custom_text("A".to_string(), Some("1".to_string()));
    assert_eq!(
        tag.frame_ids(),
        vec![
            FrameId::Title,
            FrameId::Year,
            FrameId::CustomText { key: "B".to_string() },
            FrameId::CustomText { key: "A".to_string() },
        ]
    );
}

#[test]
fn custom_text_is_kept_once_under_its_key() {
    let mut tag = Tag::new();
    tag.set_custom_text("K".to_string(), Some("1".to_string()));
    tag.set_custom_text("L".to_string(), Some("x".to_string()));
    tag.set_custom_text("K".to_string(), Some("2".to_string()));
    assert_eq!(tag.custom_text("K"), Some("2"));
    assert_eq!(tag.custom_text("L"), Some("x"));
    assert_eq!(tag.custom_texts.len(), 2);
    tag.set_custom_text("K".to_string(), None);
    assert_eq!(tag.custom_text("K"), None);
    assert_eq!(tag.custom_texts, vec![("L".to_string(), "x".to_string())]);
}

#[test]
fn set_frame_refuses_content_of_the_wrong_kind() {
    let mut tag = full_tag();
    let before = tag.clone();
    assert_eq!(
        tag.set_frame(&FrameId::Year, Some(FrameContent::Str("1997".to_string()))),
        Err(FrameContentError::NotASignedInteger)
    );
    assert_eq!(
        tag.set_frame(&FrameId::Track, Some(FrameContent::I32(1))),
        Err(FrameContentError::NotAnUnsignedInteger)
    );
    assert_eq!(
        tag.set_frame(&FrameId::Title, Some(FrameContent::U32(1))),
        Err(FrameContentError::NotAString)
    );
    assert_eq!(
        tag.set_frame(&FrameId::CustomText { key: "K".to_string() }, Some(FrameContent::U32(1))),
        Err(FrameContentError::NotAString)
    );
    assert_eq!(tag, before);
}

#[test]
fn set_frame_sets_and_removes() {
    let mut tag = Tag::new();
    assert_eq!(tag.set_frame(&FrameId::Disc, Some(FrameContent::U32(2))), Ok(()));
    assert_eq!(tag.set_frame(&FrameId::Year, Some(FrameContent::I32(1997))), Ok(()));
    assert_eq!(
        tag.set_frame(&FrameId::CustomText { key: "K".to_string() }, Some(FrameContent::Str("v".to_string()))),
        Ok(())
    );
    assert_eq!(tag.disc(), Some(2));
    assert_eq!(tag.frame_content(&FrameId::Year), Some(FrameContent::I32(1997)));
    assert_eq!(
        tag.frame_content(&FrameId::CustomText { key: "K".to_string() }),
        Some(FrameContent::Str("v".to_string()))
    );
    assert_eq!(tag.set_frame(&FrameId::Disc, None), Ok(()));
    assert_eq!(tag.disc(), None);
    assert_eq!(tag.frame_content(&FrameId::Disc), None);
}

#[test]
fn set_from_and_clear() {
    let mut tag = Tag::new();
    tag.set_title(Some("other".to_string()));
    tag.set_custom_text("K".to_string(), Some("v".to_string()));
    let source = full_tag();
    tag.set_from(&source);
    assert_eq!(tag, source);
    assert!(tag.same_as(&source));
    tag.clear();
    assert_eq!(tag, Tag::new());
    assert!(!tag.same_as(&source));
}

#[test]
fn folder_is_artist_then_year_and_album() {
    assert_eq!(
        music_folder_path_for(&full_tag(), false),
        Ok(components(&["Radiohead", "(1997) OK Computer"]))
    );
    let mut tag = full_tag();
    tag.set_album_artist(None);
    assert_eq!(
        music_folder_path_for(&tag, false),
        Ok(components(&["Radiohead & Friends", "(1997) OK Computer"]))
    );
}

#[test]
fn folder_needs_artist_year_and_album() {
    let mut tag = full_tag();
    tag.set_album_artist(None);
    tag.set_artist(None);
    assert_eq!(music_folder_path_for(&tag, false), Err(NameError::NoAlbumArtist));
    let mut tag = full_tag();
    tag.set_year(None);
    assert_eq!(music_folder_path_for(&tag, false), Err(NameError::NoYear));
    let mut tag = full_tag();
    tag.set_album(None);
    assert_eq!(music_folder_path_for(&tag, false), Err(NameError::NoAlbum));
}

#[test]
fn file_name_is_track_title_and_extension() {
    assert_eq!(music_file_name_for(&full_tag(), "mp3", false), Ok("01. Airbag.mp3".to_string()));
    let mut tag = full_tag();
    tag.set_disc(Some(2));
    tag.set_track_number(Some(11));
    assert_eq!(music_file_name_for(&tag, "m4a", false), Ok("02.11. Airbag.m4a".to_string()));
    tag.set_track_number(Some(123));
    assert_eq!(music_file_name_for(&tag, "m4a", false), Ok("02.123. Airbag.m4a".to_string()));
}

#[test]
fn file_name_needs_track_and_title() {
    let mut tag = full_tag();
    tag.set_track_number(None);
    assert_eq!(music_file_name_for(&tag, "mp3", false), Err(NameError::NoTrack));
    let mut tag = full_tag();
    tag.set_title(None);
    assert_eq!(music_file_name_for(&tag, "mp3", false), Err(NameError::NoTitle));
}

#[test]
fn names_are_made_fit_for_a_file_system() {
    let mut tag = full_tag();
    tag.set_title(Some("Fitter / Happier: \"Why?\"".to_string()));
    tag.set_album_artist(Some("AC/DC".to_string()));
    tag.set_album(Some("Who Made Who?".to_string()));
    assert_eq!(
        music_file_name_for(&tag, "mp3", false),
        Ok("01. Fitter - Happier- -Why--.mp3".to_string())
    );
    assert_eq!(
        relative_path_for(&tag, "mp3", false),
        Ok(components(&["AC-DC", "(1997) Who Made Who-", "01. Fitter - Happier- -Why--.mp3"]))
    );
}

#[test]
fn windows_rules_are_applied_when_asked_for() {
    let mut tag = full_tag();
    tag.set_album_artist(Some("Yes.".to_string()));
    assert_eq!(
        music_folder_path_for(&tag, false),
        Ok(components(&["Yes.", "(1997) OK Computer"]))
    );
    assert_eq!(
        music_folder_path_for(&tag, true),
        Ok(components(&["Yes-", "(1997) OK Computer"]))
    );
}

#[test]
fn relative_path_reports_the_folder_first() {
    let mut tag = Tag::new();
    assert_eq!(relative_path_for(&tag, "mp3", false), Err(NameError::NoAlbumArtist));
    tag.set_artist(Some("a".to_string()));
    tag.set_year(Some(1));
    tag.set_album(Some("b".to_string()));
    assert_eq!(relative_path_for(&tag, "mp3", false), Err(NameError::NoTrack));
    tag.set_track_number(Some(1));
    assert_eq!(relative_path_for(&tag, "mp3", false), Err(NameError::NoTitle));
}

#[test]
fn tag_format_goes_by_the_extension() {
    assert_eq!(format_of_extension("mp3"), Some(TagFormat::Id3));
    assert_eq!(format_of_extension("M4A"), Some(TagFormat::Mp4));
    assert_eq!(format_of_extension("Flac"), Some(TagFormat::Flac));
    assert_eq!(format_of_extension("ogg"), None);
    assert_eq!(format_of_extension(""), None);
    assert_eq!(format_of_extension("mp3 "), None);
}
