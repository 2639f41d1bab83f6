use vstd::prelude::*;
use crate::tag::frame::{FrameContent, FrameContentError, FrameContentView, FrameId, FrameIdView};
use crate::util::views::{lemma_deep_view_empty, lemma_deep_view_index, lemma_deep_view_push};

pub mod frame;

verus! {

/// The metadata of one audio file: ten fixed fields, each present or absent,
/// and custom texts under keys of their own.
#[derive(Debug, PartialEq, Eq)]
pub struct Tag {
    pub title: Option<String>,
    pub album: Option<String>,
    pub album_artist: Option<String>,
    pub artist: Option<String>,
    pub year: Option<i32>,
    pub track_number: Option<u32>,
    pub total_tracks: Option<u32>,
    pub disc: Option<u32>,
    pub total_discs: Option<u32>,
    pub genre: Option<String>,
    pub custom_texts: Vec<(String, String)>,
}

/// The model of a [`Tag`].
pub struct TagView {
    pub title: Option<Seq<char>>,
    pub album: Option<Seq<char>>,
    pub album_artist: Option<Seq<char>>,
    pub artist: Option<Seq<char>>,
    pub year: Option<i32>,
    pub track_number: Option<u32>,
    pub total_tracks: Option<u32>,
    pub disc: Option<u32>,
    pub total_discs: Option<u32>,
    pub genre: Option<Seq<char>>,
    pub custom_texts: Seq<(Seq<char>, Seq<char>)>,
}

impl View for Tag {
    type V = TagView;

    open spec fn view(&self) -> TagView {
        TagView {
            title: self.title.deep_view(),
            album: self.album.deep_view(),
            album_artist: self.album_artist.deep_view(),
            artist: self.artist.deep_view(),
            year: self.year,
            track_number: self.track_number,
            total_tracks: self.total_tracks,
            disc: self.disc,
            total_discs: self.total_discs,
            genre: self.genre.deep_view(),
            custom_texts: self.custom_texts.deep_view(),
        }
    }
}

impl DeepView for Tag {
    type V = TagView;

    open spec fn deep_view(&self) -> TagView {
        self.view()
    }
}

/// The tag that holds nothing.
pub open spec fn empty_tag() -> TagView {
    TagView {
        title: None,
        album: None,
        album_artist: None,
        artist: None,
        year: None,
        track_number: None,
        total_tracks: None,
        disc: None,
        total_discs: None,
        genre: None,
        custom_texts: Seq::empty(),
    }
}

/// The text kept under `key`: that of the first entry with this key.
pub open spec fn custom_text_of(texts: Seq<(Seq<char>, Seq<char>)>, key: Seq<char>) -> Option<
    Seq<char>,
>
    decreases texts.len(),
{
    if texts.len() == 0 {
        None
    } else if texts[0].0 == key {
        Some(texts[0].1)
    } else {
        custom_text_of(texts.drop_first(), key)
    }
}

/// The custom texts without the entries under `key`.
pub open spec fn without_key(texts: Seq<(Seq<char>, Seq<char>)>, key: Seq<char>) -> Seq<
    (Seq<char>, Seq<char>),
>
    decreases texts.len(),
{
    if texts.len() == 0 {
        texts
    } else if texts.last().0 == key {
        without_key(texts.drop_last(), key)
    } else {
        without_key(texts.drop_last(), key).push(texts.last())
    }
}

/// The custom texts after `key` was given a new text, or lost its text.
pub open spec fn with_custom_text(
    texts: Seq<(Seq<char>, Seq<char>)>,
    key: Seq<char>,
    value: Option<Seq<char>>,
) -> Seq<(Seq<char>, Seq<char>)> {
    match value {
        Some(v) => without_key(texts, key).push((key, v)),
        None => without_key(texts, key),
    }
}

/// What a tag holds in the field `id`.
pub open spec fn frame_content_of(tag: TagView, id: FrameIdView) -> Option<FrameContentView> {
    match id {
        FrameIdView::Title => text_content(tag.title),
        FrameIdView::Album => text_content(tag.album),
        FrameIdView::AlbumArtist => text_content(tag.album_artist),
        FrameIdView::Artist => text_content(tag.artist),
        FrameIdView::Year => match tag.year {
            Some(v) => Some(FrameContentView::I32(v)),
            None => None,
        },
        FrameIdView::Track => number_content(tag.track_number),
        FrameIdView::TotalTracks => number_content(tag.total_tracks),
        FrameIdView::Disc => number_content(tag.disc),
        FrameIdView::TotalDiscs => number_content(tag.total_discs),
        FrameIdView::Genre => text_content(tag.genre),
        FrameIdView::CustomText { key } => text_content(custom_text_of(tag.custom_texts, key)),
    }
}

/// A text as the content of a field.
pub open spec fn text_content(text: Option<Seq<char>>) -> Option<FrameContentView> {
    match text {
        Some(v) => Some(FrameContentView::Str(v)),
        None => None,
    }
}

/// An unsigned number as the content of a field.
pub open spec fn number_content(number: Option<u32>) -> Option<FrameContentView> {
    match number {
        Some(v) => Some(FrameContentView::U32(v)),
        None => None,
    }
}

/// Whether `content` is of the kind that the field `id` holds: a signed
/// number for the year, an unsigned number for the four counters, text for
/// the others.
pub open spec fn content_fits(id: FrameIdView, content: FrameContentView) -> bool {
    match id {
        FrameIdView::Year => content is I32,
        FrameIdView::Track | FrameIdView::TotalTracks | FrameIdView::Disc
        | FrameIdView::TotalDiscs => content is U32,
        _ => content is Str,
    }
}

/// The error that a content of the wrong kind for the field `id` is met with.
pub open spec fn misfit_error(id: FrameIdView) -> FrameContentError {
    match id {
        FrameIdView::Year => FrameContentError::NotASignedInteger,
        FrameIdView::Track | FrameIdView::TotalTracks | FrameIdView::Disc
        | FrameIdView::TotalDiscs => FrameContentError::NotAnUnsignedInteger,
        _ => FrameContentError::NotAString,
    }
}

/// The text that a content holds, if it holds text.
pub open spec fn content_as_text(content: Option<FrameContentView>) -> Option<Seq<char>> {
    match content {
        Some(FrameContentView::Str(v)) => Some(v),
        _ => None,
    }
}

/// The unsigned number that a content holds, if it holds one.
pub open spec fn content_as_number(content: Option<FrameContentView>) -> Option<u32> {
    match content {
        Some(FrameContentView::U32(v)) => Some(v),
        _ => None,
    }
}

/// The signed number that a content holds, if it holds one.
pub open spec fn content_as_year(content: Option<FrameContentView>) -> Option<i32> {
    match content {
        Some(FrameContentView::I32(v)) => Some(v),
        _ => None,
    }
}

/// The tag after the field `id` was given `content`, or emptied where
/// `content` is `None`. The content is taken to fit the field.
pub open spec fn with_frame(tag: TagView, id: FrameIdView, content: Option<FrameContentView>) -> TagView {
    match id {
        FrameIdView::Title => TagView { title: content_as_text(content), ..tag },
        FrameIdView::Album => TagView { album: content_as_text(content), ..tag },
        FrameIdView::AlbumArtist => TagView { album_artist: content_as_text(content), ..tag },
        FrameIdView::Artist => TagView { artist: content_as_text(content), ..tag },
        FrameIdView::Year => TagView { year: content_as_year(content), ..tag },
        FrameIdView::Track => TagView { track_number: content_as_number(content), ..tag },
        FrameIdView::TotalTracks => TagView { total_tracks: content_as_number(content), ..tag },
        FrameIdView::Disc => TagView { disc: content_as_number(content), ..tag },
        FrameIdView::TotalDiscs => TagView { total_discs: content_as_number(content), ..tag },
        FrameIdView::Genre => TagView { genre: content_as_text(content), ..tag },
        FrameIdView::CustomText { key } => TagView {
            custom_texts: with_custom_text(tag.custom_texts, key, content_as_text(content)),
            ..tag
        },
    }
}

/// One field's name where the field is present, nothing where it is absent.
pub open spec fn present(id: FrameIdView, is_present: bool) -> Seq<FrameIdView> {
    if is_present {
        seq![id]
    } else {
        Seq::empty()
    }
}

/// The fields that a tag holds: the fixed ones that are present, in their
/// fixed order, then the custom texts in the order in which the tag keeps them.
pub open spec fn frame_ids_of(tag: TagView) -> Seq<FrameIdView> {
    present(FrameIdView::Title, tag.title is Some) + present(
        FrameIdView::Album,
        tag.album is Some,
    ) + present(FrameIdView::AlbumArtist, tag.album_artist is Some) + present(
        FrameIdView::Artist,
        tag.artist is Some,
    ) + present(FrameIdView::Year, tag.year is Some) + present(
        FrameIdView::Track,
        tag.track_number is Some,
    ) + present(FrameIdView::TotalTracks, tag.total_tracks is Some) + present(
        FrameIdView::Disc,
        tag.disc is Some,
    ) + present(FrameIdView::TotalDiscs, tag.total_discs is Some) + present(
        FrameIdView::Genre,
        tag.genre is Some,
    ) + tag.custom_texts.map_values(
        |entry: (Seq<char>, Seq<char>)| FrameIdView::CustomText { key: entry.0 },
    )
}

/// A copy of an optional text.
pub fn clone_text(text: &Option<String>) -> (r: Option<String>)
    ensures
        r.deep_view() == text.deep_view(),
{
    match text {
        Some(v) => Some(v.clone()),
        None => None,
    }
}

/// An optional text, borrowed.
pub fn borrow_text(text: &Option<String>) -> (r: Option<&str>)
    ensures
        r.deep_view() == text.deep_view(),
{
    match text {
        Some(v) => Some(v.as_str()),
        None => None,
    }
}

/// Whether two optional texts are alike.
pub fn same_text(a: &Option<String>, b: &Option<String>) -> (r: bool)
    ensures
        r == (a.deep_view() == b.deep_view()),
{
    match (a, b) {
        (Some(x), Some(y)) => crate::util::text::text_eq(x.as_str(), y.as_str()),
        (None, None) => true,
        _ => false,
    }
}

impl Clone for Tag {
    fn clone(&self) -> (r: Self)
        ensures
            r@ == self@,
    {
        let mut custom_texts: Vec<(String, String)> = Vec::new();
        let mut i: usize = 0;
        proof {
            lemma_deep_view_empty(custom_texts);
        }
        while i < self.custom_texts.len()
            invariant
                i <= self.custom_texts.len(),
                custom_texts.deep_view() == self.custom_texts.deep_view().take(i as int),
            decreases self.custom_texts.len() - i,
        {
            let ghost before = custom_texts;
            let entry = (self.custom_texts[i].0.clone(), self.custom_texts[i].1.clone());
            custom_texts.push(entry);
            proof {
                lemma_deep_view_push(before, custom_texts, entry);
                lemma_deep_view_index(self.custom_texts);
            }
            assert(custom_texts.deep_view() =~= self.custom_texts.deep_view().take(i + 1));
            i += 1;
        }
        assert(self.custom_texts.deep_view().take(i as int) =~= self.custom_texts.deep_view());
        Tag {
            title: clone_text(&self.title),
            album: clone_text(&self.album),
            album_artist: clone_text(&self.album_artist),
            artist: clone_text(&self.artist),
            year: self.year,
            track_number: self.track_number,
            total_tracks: self.total_tracks,
            disc: self.disc,
            total_discs: self.total_discs,
            genre: clone_text(&self.genre),
            custom_texts,
        }
    }
}

impl Tag {
    /// The tag that holds nothing.
    pub fn new() -> (r: Self)
        ensures
            r@ == empty_tag(),
    {
        let custom_texts: Vec<(String, String)> = Vec::new();
        proof {
            lemma_deep_view_empty(custom_texts);
        }
        Tag {
            title: None,
            album: None,
            album_artist: None,
            artist: None,
            year: None,
            track_number: None,
            total_tracks: None,
            disc: None,
            total_discs: None,
            genre: None,
            custom_texts,
        }
    }

    /// The title of the track.
    pub fn title(&self) -> (r: Option<&str>)
        ensures
            r.deep_view() == self@.title,
    {
        borrow_text(&self.title)
    }

    /// Gives the track a title, or none.
    pub fn set_title(&mut self, title: Option<String>)
        ensures
            final(self)@ == (TagView { title: title.deep_view(), ..old(self)@ }),
    {
        self.title = title;
    }

    /// The title of the album.
    pub fn album(&self) -> (r: Option<&str>)
        ensures
            r.deep_view() == self@.album,
    {
        borrow_text(&self.album)
    }

    /// Gives the album a title, or none.
    pub fn set_album(&mut self, album: Option<String>)
        ensures
            final(self)@ == (TagView { album: album.deep_view(), ..old(self)@ }),
    {
        self.album = album;
    }

    /// The artist of the album.
    pub fn album_artist(&self) -> (r: Option<&str>)
        ensures
            r.deep_view() == self@.album_artist,
    {
        borrow_text(&self.album_artist)
    }

    /// Gives the album an artist, or none.
    pub fn set_album_artist(&mut self, album_artist: Option<String>)
        ensures
            final(self)@ == (TagView { album_artist: album_artist.deep_view(), ..old(self)@ }),
    {
        self.album_artist = album_artist;
    }

    /// The artist of the track.
    pub fn artist(&self) -> (r: Option<&str>)
        ensures
            r.deep_view() == self@.artist,
    {
        borrow_text(&self.artist)
    }

    /// Gives the track an artist, or none.
    pub fn set_artist(&mut self, artist: Option<String>)
        ensures
            final(self)@ == (TagView { artist: artist.deep_view(), ..old(self)@ }),
    {
        self.artist = artist;
    }

    /// The year of the release.
    pub fn year(&self) -> (r: Option<i32>)
        ensures
            r == self@.year,
    {
        self.year
    }

    /// Gives the release a year, or none.
    pub fn set_year(&mut self, year: Option<i32>)
        ensures
            final(self)@ == (TagView { year, ..old(self)@ }),
    {
        self.year = year;
    }

    /// The track's place on its disc.
    pub fn track_number(&self) -> (r: Option<u32>)
        ensures
            r == self@.track_number,
    {
        self.track_number
    }

    /// Gives the track a place on its disc, or none.
    pub fn set_track_number(&mut self, track: Option<u32>)
        ensures
            final(self)@ == (TagView { track_number: track, ..old(self)@ }),
    {
        self.track_number = track;
    }

    /// How many tracks the disc holds.
    pub fn total_tracks(&self) -> (r: Option<u32>)
        ensures
            r == self@.total_tracks,
    {
        self.total_tracks
    }

    /// Says how many tracks the disc holds, or nothing.
    pub fn set_total_tracks(&mut self, total_tracks: Option<u32>)
        ensures
            final(self)@ == (TagView { total_tracks, ..old(self)@ }),
    {
        self.total_tracks = total_tracks;
    }

    /// The disc that holds the track.
    pub fn disc(&self) -> (r: Option<u32>)
        ensures
            r == self@.disc,
    {
        self.disc
    }

    /// Names the disc that holds the track, or none.
    pub fn set_disc(&mut self, disc: Option<u32>)
        ensures
            final(self)@ == (TagView { disc, ..old(self)@ }),
    {
        self.disc = disc;
    }

    /// How many discs the release spans.
    pub fn total_discs(&self) -> (r: Option<u32>)
        ensures
            r == self@.total_discs,
    {
        self.total_discs
    }

    /// Says how many discs the release spans, or nothing.
    pub fn set_total_discs(&mut self, total_discs: Option<u32>)
        ensures
            final(self)@ == (TagView { total_discs, ..old(self)@ }),
    {
        self.total_discs = total_discs;
    }

    /// The genre of the track.
    pub fn genre(&self) -> (r: Option<&str>)
        ensures
            r.deep_view() == self@.genre,
    {
        borrow_text(&self.genre)
    }

    /// Gives the track a genre, or none.
    pub fn set_genre(&mut self, genre: Option<String>)
        ensures
            final(self)@ == (TagView { genre: genre.deep_view(), ..old(self)@ }),
    {
        self.genre = genre;
    }

    /// The text kept under `key`.
    pub fn custom_text(&self, key: &str) -> (r: Option<&str>)
        ensures
            r.deep_view() == custom_text_of(self@.custom_texts, key@),
    {
        let ghost texts = self@.custom_texts;
        let mut i: usize = 0;
        assert(texts.skip(0) =~= texts);
        while i < self.custom_texts.len()
            invariant
                i <= self.custom_texts.len(),
                texts == self.custom_texts.deep_view(),
                custom_text_of(texts, key@) == custom_text_of(texts.skip(i as int), key@),
            decreases self.custom_texts.len() - i,
        {
            proof {
                lemma_deep_view_index(self.custom_texts);
            }
            assert(texts.skip(i as int)[0] == texts[i as int]);
            if crate::util::text::text_eq(self.custom_texts[i].0.as_str(), key) {
                return Some(self.custom_texts[i].1.as_str());
            }
            assert(texts.skip(i as int).drop_first() =~= texts.skip(i + 1));
            i += 1;
        }
        proof {
            lemma_deep_view_index(self.custom_texts);
        }
        None
    }

    /// Puts `value` under `key`, in place of what was there; `None` leaves
    /// nothing under `key`.
    pub fn set_custom_text(&mut self, key: String, value: Option<String>)
        ensures
            final(self)@ == (TagView {
                custom_texts: with_custom_text(
                    old(self)@.custom_texts,
                    key@,
                    value.deep_view(),
                ),
                ..old(self)@
            }),
    {
        let ghost texts = self@.custom_texts;
        let mut kept: Vec<(String, String)> = Vec::new();
        let mut i: usize = 0;
        proof {
            lemma_deep_view_empty(kept);
            assert(texts.take(0) =~= Seq::<(Seq<char>, Seq<char>)>::empty());
        }
        while i < self.custom_texts.len()
            invariant
                i <= self.custom_texts.len(),
                texts == self.custom_texts.deep_view(),
                *self == *old(self),
                kept.deep_view() == without_key(texts.take(i as int), key@),
            decreases self.custom_texts.len() - i,
        {
            proof {
                lemma_deep_view_index(self.custom_texts);
            }
            assert(texts.take(i + 1).drop_last() =~= texts.take(i as int));
            assert(texts.take(i + 1).last() == texts[i as int]);
            if self.custom_texts[i].0 != key {
                let ghost before = kept;
                let entry = (self.custom_texts[i].0.clone(), self.custom_texts[i].1.clone());
                kept.push(entry);
                proof {
                    lemma_deep_view_push(before, kept, entry);
                }
            }
            i += 1;
        }
        assert(texts.take(i as int) =~= texts);
        match value {
            Some(v) => {
                let ghost before = kept;
                let entry = (key, v);
                kept.push(entry);
                proof {
                    lemma_deep_view_push(before, kept, entry);
                }
            },
            None => {},
        }
        self.custom_texts = kept;
    }

    /// Empties every field.
    pub fn clear(&mut self)
        ensures
            final(self)@ == empty_tag(),
    {
        *self = Tag::new();
    }

    /// The fields that the tag holds.
    pub fn frame_ids(&self) -> (r: Vec<FrameId>)
        ensures
            r.deep_view() == frame_ids_of(self@),
    {
        let mut r: Vec<FrameId> = Vec::new();
        proof {
            lemma_deep_view_empty(r);
        }
        push_if_present(&mut r, FrameId::Title, self.title.is_some());
        assert(r.deep_view() =~= present(FrameIdView::Title, self@.title is Some));
        push_if_present(&mut r, FrameId::Album, self.album.is_some());
        push_if_present(&mut r, FrameId::AlbumArtist, self.album_artist.is_some());
        push_if_present(&mut r, FrameId::Artist, self.artist.is_some());
        push_if_present(&mut r, FrameId::Year, self.year.is_some());
        push_if_present(&mut r, FrameId::Track, self.track_number.is_some());
        push_if_present(&mut r, FrameId::TotalTracks, self.total_tracks.is_some());
        push_if_present(&mut r, FrameId::Disc, self.disc.is_some());
        push_if_present(&mut r, FrameId::TotalDiscs, self.total_discs.is_some());
        push_if_present(&mut r, FrameId::Genre, self.genre.is_some());
        let ghost fixed = r.deep_view();
        let ghost texts = self@.custom_texts;
        let ghost keys = texts.map_values(
            |entry: (Seq<char>, Seq<char>)| FrameIdView::CustomText { key: entry.0 },
        );
        let mut i: usize = 0;
        assert(r.deep_view() =~= fixed + keys.take(0));
        while i < self.custom_texts.len()
            invariant
                i <= self.custom_texts.len(),
                texts == self.custom_texts.deep_view(),
                keys == texts.map_values(
                    |entry: (Seq<char>, Seq<char>)| FrameIdView::CustomText { key: entry.0 },
                ),
                r.deep_view() == fixed + keys.take(i as int),
            decreases self.custom_texts.len() - i,
        {
            proof {
                lemma_deep_view_index(self.custom_texts);
            }
            let ghost before = r;
            let id = FrameId::CustomText { key: self.custom_texts[i].0.clone() };
            r.push(id);
            proof {
                lemma_deep_view_push(before, r, id);
            }
            assert(r.deep_view() =~= fixed + keys.take(i + 1));
            i += 1;
        }
        proof {
            lemma_deep_view_index(self.custom_texts);
        }
        assert(keys.take(i as int) =~= keys);
        r
    }

    /// What the tag holds in the field `id`.
    pub fn frame_content(&self, id: &FrameId) -> (r: Option<FrameContent>)
        ensures
            r.deep_view() == frame_content_of(self@, id@),
    {
        match id {
            FrameId::Title => text_frame(self.title()),
            FrameId::Album => text_frame(self.album()),
            FrameId::AlbumArtist => text_frame(self.album_artist()),
            FrameId::Artist => text_frame(self.artist()),
            FrameId::Year => match self.year {
                Some(v) => Some(FrameContent::I32(v)),
                None => None,
            },
            FrameId::Track => number_frame(self.track_number),
            FrameId::TotalTracks => number_frame(self.total_tracks),
            FrameId::Disc => number_frame(self.disc),
            FrameId::TotalDiscs => number_frame(self.total_discs),
            FrameId::Genre => text_frame(self.genre()),
            FrameId::CustomText { key } => text_frame(self.custom_text(key.as_str())),
        }
    }

    /// Gives the field `id` the content `content`, or empties it where
    /// `content` is `None`. A content of the wrong kind for the field is
    /// refused, and the tag stays as it was.
    pub fn set_frame(&mut self, id: &FrameId, content: Option<FrameContent>) -> (r: Result<
        (),
        FrameContentError,
    >)
        ensures
            match content.deep_view() {
                Some(c) if !content_fits(id@, c) => r == Err::<(), FrameContentError>(
                    misfit_error(id@),
                ) && final(self)@ == old(self)@,
                _ => r is Ok && final(self)@ == with_frame(old(self)@, id@, content.deep_view()),
            },
    {
        match content {
            Some(content) => self.set_some_frame(id, content),
            None => {
                self.remove_frame(id);
                Ok(())
            },
        }
    }

    fn set_some_frame(&mut self, id: &FrameId, content: FrameContent) -> (r: Result<
        (),
        FrameContentError,
    >)
        ensures
            if content_fits(id@, content@) {
                r is Ok && final(self)@ == with_frame(old(self)@, id@, Some(content@))
            } else {
                r == Err::<(), FrameContentError>(misfit_error(id@)) && final(self)@ == old(
                    self,
                )@
            },
    {
        match id {
            FrameId::Title => match content {
                FrameContent::Str(v) => self.set_title(Some(v)),
                _ => return Err(FrameContentError::NotAString),
            },
            FrameId::Album => match content {
                FrameContent::Str(v) => self.set_album(Some(v)),
                _ => return Err(FrameContentError::NotAString),
            },
            FrameId::AlbumArtist => match content {
                FrameContent::Str(v) => self.set_album_artist(Some(v)),
                _ => return Err(FrameContentError::NotAString),
            },
            FrameId::Artist => match content {
                FrameContent::Str(v) => self.set_artist(Some(v)),
                _ => return Err(FrameContentError::NotAString),
            },
            FrameId::Year => match content {
                FrameContent::I32(v) => self.set_year(Some(v)),
                _ => return Err(FrameContentError::NotASignedInteger),
            },
            FrameId::Track => match content {
                FrameContent::U32(v) => self.set_track_number(Some(v)),
                _ => return Err(FrameContentError::NotAnUnsignedInteger),
            },
            FrameId::TotalTracks => match content {
                FrameContent::U32(v) => self.set_total_tracks(Some(v)),
                _ => return Err(FrameContentError::NotAnUnsignedInteger),
            },
            FrameId::Disc => match content {
                FrameContent::U32(v) => self.set_disc(Some(v)),
                _ => return Err(FrameContentError::NotAnUnsignedInteger),
            },
            FrameId::TotalDiscs => match content {
                FrameContent::U32(v) => self.set_total_discs(Some(v)),
                _ => return Err(FrameContentError::NotAnUnsignedInteger),
            },
            FrameId::Genre => match content {
                FrameContent::Str(v) => self.set_genre(Some(v)),
                _ => return Err(FrameContentError::NotAString),
            },
            FrameId::CustomText { key } => match content {
                FrameContent::Str(v) => self.set_custom_text(key.clone(), Some(v)),
                _ => return Err(FrameContentError::NotAString),
            },
        };
        Ok(())
    }

    fn remove_frame(&mut self, id: &FrameId)
        ensures
            final(self)@ == with_frame(old(self)@, id@, None),
    {
        match id {
            FrameId::Title => self.set_title(None),
            FrameId::Album => self.set_album(None),
            FrameId::AlbumArtist => self.set_album_artist(None),
            FrameId::Artist => self.set_artist(None),
            FrameId::Year => self.set_year(None),
            FrameId::Track => self.set_track_number(None),
            FrameId::TotalTracks => self.set_total_tracks(None),
            FrameId::Disc => self.set_disc(None),
            FrameId::TotalDiscs => self.set_total_discs(None),
            FrameId::Genre => self.set_genre(None),
            FrameId::CustomText { key } => self.set_custom_text(key.clone(), None),
        };
    }

    /// Makes this tag hold what `other` holds, and nothing else.
    pub fn set_from(&mut self, other: &Tag)
        ensures
            final(self)@ == other@,
    {
        *self = other.clone();
    }

    /// Whether two tags hold the same.
    pub fn same_as(&self, other: &Tag) -> (r: bool)
        ensures
            r == (self@ == other@),
    {
        let fixed = same_text(&self.title, &other.title) && same_text(&self.album, &other.album)
            && same_text(&self.album_artist, &other.album_artist) && same_text(
            &self.artist,
            &other.artist,
        ) && self.year == other.year && self.track_number == other.track_number
            && self.total_tracks == other.total_tracks && self.disc == other.disc
            && self.total_discs == other.total_discs && same_text(&self.genre, &other.genre);
        if !fixed {
            return false;
        }
        proof {
            lemma_deep_view_index(self.custom_texts);
            lemma_deep_view_index(other.custom_texts);
        }
        if self.custom_texts.len() != other.custom_texts.len() {
            return false;
        }
        let mut i: usize = 0;
        while i < self.custom_texts.len()
            invariant
                i <= self.custom_texts.len(),
                self.custom_texts.len() == other.custom_texts.len(),
                forall|k: int|
                    0 <= k < i ==> self@.custom_texts[k] == other@.custom_texts[k],
            decreases self.custom_texts.len() - i,
        {
            if self.custom_texts[i].0 != other.custom_texts[i].0 || self.custom_texts[i].1
                != other.custom_texts[i].1 {
                assert(self@.custom_texts[i as int] != other@.custom_texts[i as int]);
                return false;
            }
            i += 1;
        }
        assert(self@.custom_texts =~= other@.custom_texts);
        true
    }
}

/// A borrowed text as the content of a field.
fn text_frame(text: Option<&str>) -> (r: Option<FrameContent>)
    ensures
        r.deep_view() == text_content(text.deep_view()),
{
    match text {
        Some(v) => Some(FrameContent::Str(v.to_owned())),
        None => None,
    }
}

/// An unsigned number as the content of a field.
fn number_frame(number: Option<u32>) -> (r: Option<FrameContent>)
    ensures
        r.deep_view() == number_content(number),
{
    match number {
        Some(v) => Some(FrameContent::U32(v)),
        None => None,
    }
}

/// Appends one field's name where the field is present.
fn push_if_present(ids: &mut Vec<FrameId>, id: FrameId, is_present: bool)
    ensures
        final(ids).deep_view() == old(ids).deep_view() + present(id@, is_present),
{
    if is_present {
        let ghost before = *ids;
        ids.push(id);
        proof {
            lemma_deep_view_push(before, *ids, id);
        }
        assert(ids.deep_view() =~= old(ids).deep_view() + present(id@, is_present));
    } else {
        assert(ids.deep_view() =~= old(ids).deep_view() + present(id@, is_present));
    }
}

/// A kind of file that holds a tag the library can read.
#[derive(Clone, Copy, Debug, PartialEq, Eq, Structural)]
pub enum TagFormat {
    /// An MP3 file, with an ID3 tag.
    Id3,
    /// An M4A file, with its metadata in atoms.
    Mp4,
    /// A FLAC file, with Vorbis comments.
    Flac,
}

/// `s` with its capital ASCII letters made small.
pub open spec fn lowercase(s: Seq<char>) -> Seq<char> {
    crate::util::string_extensions::lowered(s)
}

/// The kind of file that an extension stands for, whether it is written
/// in capital or in small letters.
pub open spec fn format_of(extension: Seq<char>) -> Option<TagFormat> {
    if lowercase(extension) == "mp3"@ {
        Some(TagFormat::Id3)
    } else if lowercase(extension) == "m4a"@ {
        Some(TagFormat::Mp4)
    } else if lowercase(extension) == "flac"@ {
        Some(TagFormat::Flac)
    } else {
        None
    }
}

/// The kind of tag to look for in a file with the given extension: none
/// where the extension is not one that the library knows, and such a file is
/// passed over.
pub fn format_of_extension(extension: &str) -> (r: Option<TagFormat>)
    ensures
        r == format_of(extension@),
{
    let chars = crate::util::text::chars_of(extension);
    let mut lower: Vec<char> = Vec::new();
    let mut i: usize = 0;
    while i < chars.len()
        invariant
            i <= chars.len(),
            lower@ == lowercase(chars@).take(i as int),
        decreases chars.len() - i,
    {
        let c = chars[i];
        let c = if c >= 'A' && c <= 'Z' {
            ((c as u8) + 32) as char
        } else {
            c
        };
        lower.push(c);
        assert(lower@ =~= lowercase(chars@).take(i + 1));
        i += 1;
    }
    assert(lowercase(chars@).take(i as int) =~= lowercase(chars@));
    let lower = crate::util::text::string_of(&lower);
    if crate::util::text::text_eq(lower.as_str(), "mp3") {
        Some(TagFormat::Id3)
    } else if crate::util::text::text_eq(lower.as_str(), "m4a") {
        Some(TagFormat::Mp4)
    } else if crate::util::text::text_eq(lower.as_str(), "flac") {
        Some(TagFormat::Flac)
    } else {
        None
    }
}

} // verus!
