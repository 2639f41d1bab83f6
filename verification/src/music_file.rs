use vstd::prelude::*;
use vstd::string::*;
use crate::tag::{Tag, TagView};
use crate::util::duration::Duration;
use crate::util::numbers::{push_decimal, push_two_digits, signed_decimal, two_digits};
use crate::util::path::{with_name, FilePath};
use crate::util::text::push_char;
use crate::util::views::result_view;

verus! {

/// An audio file as the inventory found it: where it lies, what its tag
/// holds, and how long it plays where that could be read.
#[derive(Debug, PartialEq, Eq)]
pub struct MusicFile {
    pub file_path: FilePath,
    pub tag: Tag,
    pub duration: Option<Duration>,
}

/// The model of a [`MusicFile`].
pub struct MusicFileView {
    pub file_path: Seq<Seq<char>>,
    pub tag: TagView,
    pub duration: Option<Duration>,
}

impl View for MusicFile {
    type V = MusicFileView;

    open spec fn view(&self) -> MusicFileView {
        MusicFileView { file_path: self.file_path@, tag: self.tag@, duration: self.duration }
    }
}

impl DeepView for MusicFile {
    type V = MusicFileView;

    open spec fn deep_view(&self) -> MusicFileView {
        self.view()
    }
}

impl Clone for MusicFile {
    fn clone(&self) -> (r: Self)
        ensures
            r@ == self@,
    {
        MusicFile {
            file_path: self.file_path.clone(),
            tag: self.tag.clone(),
            duration: self.duration,
        }
    }
}

/// The field without which a folder's or a file's name cannot be formed.
#[derive(Clone, Copy, Debug, PartialEq, Eq, Structural)]
pub enum NameError {
    NoAlbumArtist,
    NoYear,
    NoAlbum,
    NoTrack,
    NoTitle,
}

/// What the file-name sanitizer makes of `name` when it puts `replacement`
/// in place of what a file's name may not hold, with or without the rules
/// for Windows.
pub uninterp spec fn sanitized_name(name: Seq<char>, replacement: Seq<char>, windows: bool) -> Seq<
    char,
>;

/// Makes a text fit to be one component of a path.
///
/// Wraps `sanitize_filename::sanitize_with_options`, called with the given
/// replacement and Windows switch and with truncation as the crate has it by
/// default. The result is known only by the name [`sanitized_name`].
#[verifier::external_body]
pub(crate) fn sanitize_with(name: &str, replacement: &str, windows: bool) -> (r: String)
    ensures
        r@ == sanitized_name(name@, replacement@, windows),
{
    sanitize_filename::sanitize_with_options(
        name,
        sanitize_filename::Options { windows, replacement, ..Default::default() },
    )
}

/// A text made fit to be one component of a path: a hyphen stands in for
/// whatever a file's name may not hold.
pub open spec fn sanitized(name: Seq<char>, windows: bool) -> Seq<char> {
    sanitized_name(name, "-"@, windows)
}

fn sanitize_path(name: &str, windows: bool) -> (r: String)
    ensures
        r@ == sanitized(name@, windows),
{
    sanitize_with(name, "-", windows)
}

/// The artist that a tag files its music under: the album's artist, or the
/// track's where the album names none.
pub open spec fn filing_artist(tag: TagView) -> Option<Seq<char>> {
    if tag.album_artist is Some {
        tag.album_artist
    } else {
        tag.artist
    }
}

/// The name of an album's folder before it is sanitized: the year in
/// parentheses, a space, the album's title.
pub open spec fn album_folder_text(year: i32, album: Seq<char>) -> Seq<char> {
    seq!['('] + signed_decimal(year as int) + seq![')', ' '] + album
}

/// The name of a music file before it is sanitized: the disc in two digits
/// and a dot where the tag names a disc, the track in two digits, a dot and a
/// space, the title, a dot, the extension.
pub open spec fn file_name_text(
    disc: Option<u32>,
    track: u32,
    title: Seq<char>,
    extension: Seq<char>,
) -> Seq<char> {
    let disc_part = match disc {
        Some(d) => two_digits(d as nat) + seq!['.'],
        None => Seq::empty(),
    };
    disc_part + two_digits(track as nat) + seq!['.', ' '] + title + seq!['.'] + extension
}

/// The folder, below the library's root, that a tag's music belongs in: the
/// artist's folder, and in it the album's.
pub open spec fn music_folder_of(tag: TagView, windows: bool) -> Result<
    Seq<Seq<char>>,
    NameError,
> {
    if filing_artist(tag) is None {
        Err(NameError::NoAlbumArtist)
    } else if tag.year is None {
        Err(NameError::NoYear)
    } else if tag.album is None {
        Err(NameError::NoAlbum)
    } else {
        Ok(
            with_name(
                with_name(Seq::empty(), sanitized(filing_artist(tag)->Some_0, windows)),
                sanitized(album_folder_text(tag.year->Some_0, tag.album->Some_0), windows),
            ),
        )
    }
}

/// The name that a tag gives its music file.
pub open spec fn music_file_name_of(tag: TagView, extension: Seq<char>, windows: bool) -> Result<
    Seq<char>,
    NameError,
> {
    if tag.track_number is None {
        Err(NameError::NoTrack)
    } else if tag.title is None {
        Err(NameError::NoTitle)
    } else {
        Ok(
            sanitized(
                file_name_text(tag.disc, tag.track_number->Some_0, tag.title->Some_0, extension),
                windows,
            ),
        )
    }
}

/// The path, below the library's root, that a tag gives its music file.
pub open spec fn relative_path_of(tag: TagView, extension: Seq<char>, windows: bool) -> Result<
    Seq<Seq<char>>,
    NameError,
> {
    match music_folder_of(tag, windows) {
        Err(e) => Err(e),
        Ok(folder) => match music_file_name_of(tag, extension, windows) {
            Err(e) => Err(e),
            Ok(name) => Ok(with_name(folder, name)),
        },
    }
}

/// The path, below the library's root, of the file that holds the music of
/// `tag`, with the given extension.
pub fn relative_path_for(tag: &Tag, with_extension: &str, windows: bool) -> (r: Result<
    FilePath,
    NameError,
>)
    ensures
        result_view(r) == relative_path_of(tag@, with_extension@, windows),
{
    let folder = match music_folder_path_for(tag, windows) {
        Ok(folder) => folder,
        Err(e) => {
            return Err(e);
        },
    };
    match music_file_name_for(tag, with_extension, windows) {
        Ok(name) => Ok(folder.join_name(name.as_str())),
        Err(e) => Err(e),
    }
}

/// The folder, below the library's root, for the music of `tag`.
pub fn music_folder_path_for(tag: &Tag, windows: bool) -> (r: Result<FilePath, NameError>)
    ensures
        result_view(r) == music_folder_of(tag@, windows),
{
    let album_artist = match tag.album_artist() {
        Some(v) => v,
        None => match tag.artist() {
            Some(v) => v,
            None => {
                return Err(NameError::NoAlbumArtist);
            },
        },
    };
    let year = match tag.year() {
        Some(v) => v,
        None => {
            return Err(NameError::NoYear);
        },
    };
    let album = match tag.album() {
        Some(v) => v,
        None => {
            return Err(NameError::NoAlbum);
        },
    };
    let mut album_folder = String::new();
    push_char(&mut album_folder, '(');
    push_signed(&mut album_folder, year);
    push_char(&mut album_folder, ')');
    push_char(&mut album_folder, ' ');
    album_folder.append(album);
    assert(album_folder@ =~= album_folder_text(year, album@));
    let path = FilePath::new();
    let path = path.join_name(sanitize_path(album_artist, windows).as_str());
    let path = path.join_name(sanitize_path(album_folder.as_str(), windows).as_str());
    Ok(path)
}

/// The name of the file that holds the music of `tag`, with the given
/// extension.
pub fn music_file_name_for(tag: &Tag, with_extension: &str, windows: bool) -> (r: Result<
    String,
    NameError,
>)
    ensures
        result_view(r) == music_file_name_of(tag@, with_extension@, windows),
{
    let track = match tag.track_number() {
        Some(v) => v,
        None => {
            return Err(NameError::NoTrack);
        },
    };
    let title = match tag.title() {
        Some(v) => v,
        None => {
            return Err(NameError::NoTitle);
        },
    };
    let mut name = String::new();
    match tag.disc() {
        Some(disc) => {
            push_two_digits(&mut name, disc);
            push_char(&mut name, '.');
        },
        None => {},
    }
    push_two_digits(&mut name, track);
    push_char(&mut name, '.');
    push_char(&mut name, ' ');
    name.append(title);
    push_char(&mut name, '.');
    name.append(with_extension);
    assert(name@ =~= file_name_text(tag@.disc, track, title@, with_extension@));
    Ok(sanitize_path(name.as_str(), windows))
}

/// Appends a signed number in base ten.
fn push_signed(s: &mut String, n: i32)
    ensures
        final(s)@ == old(s)@ + signed_decimal(n as int),
{
    if n < 0 {
        push_char(s, '-');
        push_decimal(s, (-(n as i64)) as u64);
    } else {
        push_decimal(s, n as u64);
    }
    assert(final(s)@ =~= old(s)@ + signed_decimal(n as int));
}

} // verus!
