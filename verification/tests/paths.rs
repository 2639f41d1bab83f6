use music_files_organizer::util::path::{extension_of_name, stem_of_name, FilePath, PathExtensions};

fn path(text: &str) -> FilePath {
    FilePath {
        components: text.split('/').filter(|part| !part.is_empty()).map(str::to_string).collect(),
    }
}

#[test]
fn parent_is_the_path_without_its_last_component() {
    assert_eq!(path("music/album/01.mp3").parent_or_empty(), path("music/album"));
    assert_eq!(path("01.mp3").parent_or_empty(), path(""));
    assert_eq!(path("").parent_or_empty(), path(""));
}

#[test]
fn file_name_is_the_last_component() {
    assert_eq!(path("music/album/01.mp3").file_name_or_empty(), "01.mp3");
    assert_eq!(path("").file_name_or_empty(), "");
}

#[test]
fn extension_follows_the_last_dot() {
    assert_eq!(path("a/b/01. Song.Title.flac").extension_or_empty(), "flac");
    assert_eq!(path("a/b/song").extension_or_empty(), "");
    assert_eq!(path("a/b/.hidden").extension_or_empty(), "");
    assert_eq!(path("a/b/song.").extension_or_empty(), "");
    assert_eq!(extension_of_name(".hidden.mp3"), "mp3");
    assert_eq!(extension_of_name(".."), "");
}

#[test]
fn stem_precedes_the_last_dot() {
    assert_eq!(path("a/b/01. Song.Title.flac").file_stem_or_empty(), "01. Song.Title");
    assert_eq!(path("a/b/song").file_stem_or_empty(), "song");
    assert_eq!(stem_of_name(".hidden"), ".hidden");
    assert_eq!(path("").file_stem_or_empty(), "");
}

#[test]
fn join_appends_components() {
    assert_eq!(path("out").join(&path("Artist/Album")), path("out/Artist/Album"));
    assert_eq!(path("out").join_name("01.mp3"), path("out/01.mp3"));
    assert_eq!(path("out").join_name(""), path("out"));
}

#[test]
fn paths_are_the_same_when_their_components_are() {
    assert!(path("a/b").same_as(&path("a//b/")));
    assert!(!path("a/b").same_as(&path("a/b/c")));
    assert!(!path("a/b").same_as(&path("a/c")));
}

#[test]
fn common_path_is_the_shared_beginning() {
    assert_eq!(
        path("foo/bar/baz/one.txt").common_path(&path("foo/bar/quux/quuux/two.txt")),
        Some(path("foo/bar"))
    );
    assert_eq!(path("a/b").common_path(&path("c/d")), None);
    assert_eq!(path("a/b").common_path(&path("a/b")), Some(path("a/b")));
}

#[test]
fn strip_prefix_gives_the_rest_or_nothing() {
    assert_eq!(path("a/b/c").strip_prefix_or_same(&path("a")), path("b/c"));
    assert_eq!(path("a/b/c").strip_prefix_or_same(&path("")), path("a/b/c"));
    assert_eq!(path("a/b/c").strip_prefix_or_same(&path("x")), path(""));
    assert_eq!(path("a").strip_prefix_or_same(&path("a/b")), path(""));
}
