use vstd::prelude::*;
use crate::util::numbers::{decimal_digits, format_i32, format_u32, signed_decimal};
use crate::util::text::text_eq;

verus! {

/// Names one field of a tag.
#[derive(Debug, PartialEq, Eq)]
pub enum FrameId {
    Title,
    Album,
    AlbumArtist,
    Artist,
    Year,
    Track,
    TotalTracks,
    Disc,
    TotalDiscs,
    Genre,
    CustomText { key: String },
}

/// The model of a [`FrameId`].
pub enum FrameIdView {
    Title,
    Album,
    AlbumArtist,
    Artist,
    Year,
    Track,
    TotalTracks,
    Disc,
    TotalDiscs,
    Genre,
    CustomText { key: Seq<char> },
}

impl View for FrameId {
    type V = FrameIdView;

    open spec fn view(&self) -> FrameIdView {
        match self {
            FrameId::Title => FrameIdView::Title,
            FrameId::Album => FrameIdView::Album,
            FrameId::AlbumArtist => FrameIdView::AlbumArtist,
            FrameId::Artist => FrameIdView::Artist,
            FrameId::Year => FrameIdView::Year,
            FrameId::Track => FrameIdView::Track,
            FrameId::TotalTracks => FrameIdView::TotalTracks,
            FrameId::Disc => FrameIdView::Disc,
            FrameId::TotalDiscs => FrameIdView::TotalDiscs,
            FrameId::Genre => FrameIdView::Genre,
            FrameId::CustomText { key } => FrameIdView::CustomText { key: key@ },
        }
    }
}

impl DeepView for FrameId {
    type V = FrameIdView;

    open spec fn deep_view(&self) -> FrameIdView {
        self.view()
    }
}

/// What a field of a tag holds.
#[derive(Debug, PartialEq, Eq)]
pub enum FrameContent {
    Str(String),
    I32(i32),
    U32(u32),
}

/// The model of a [`FrameContent`].
pub enum FrameContentView {
    Str(Seq<char>),
    I32(i32),
    U32(u32),
}

impl View for FrameContent {
    type V = FrameContentView;

    open spec fn view(&self) -> FrameContentView {
        match self {
            FrameContent::Str(v) => FrameContentView::Str(v@),
            FrameContent::I32(v) => FrameContentView::I32(*v),
            FrameContent::U32(v) => FrameContentView::U32(*v),
        }
    }
}

impl DeepView for FrameContent {
    type V = FrameContentView;

    open spec fn deep_view(&self) -> FrameContentView {
        self.view()
    }
}

/// Why a field's content could not be read as the kind that was asked for.
#[derive(Debug, PartialEq, Eq, Structural, Clone, Copy)]
pub enum FrameContentError {
    NotAString,
    NotASignedInteger,
    NotAnUnsignedInteger,
}

/// The name under which a field is shown and edited.
pub open spec fn frame_name(id: FrameIdView) -> Seq<char> {
    match id {
        FrameIdView::Title => "Title"@,
        FrameIdView::Album => "Album"@,
        FrameIdView::AlbumArtist => "Album Artist"@,
        FrameIdView::Artist => "Artist"@,
        FrameIdView::Year => "Year"@,
        FrameIdView::Track => "Track"@,
        FrameIdView::TotalTracks => "Total Tracks"@,
        FrameIdView::Disc => "Disc"@,
        FrameIdView::TotalDiscs => "Total Discs"@,
        FrameIdView::Genre => "Genre"@,
        FrameIdView::CustomText { key } => key,
    }
}

/// The field that a name stands for: one of the ten fixed fields where the
/// name is theirs, else the custom text of that name.
pub open spec fn frame_named(name: Seq<char>) -> FrameIdView {
    if name == "Title"@ {
        FrameIdView::Title
    } else if name == "Album"@ {
        FrameIdView::Album
    } else if name == "Album Artist"@ {
        FrameIdView::AlbumArtist
    } else if name == "Artist"@ {
        FrameIdView::Artist
    } else if name == "Year"@ {
        FrameIdView::Year
    } else if name == "Track"@ {
        FrameIdView::Track
    } else if name == "Total Tracks"@ {
        FrameIdView::TotalTracks
    } else if name == "Disc"@ {
        FrameIdView::Disc
    } else if name == "Total Discs"@ {
        FrameIdView::TotalDiscs
    } else if name == "Genre"@ {
        FrameIdView::Genre
    } else {
        FrameIdView::CustomText { key: name }
    }
}

/// How a field's content is written out.
pub open spec fn content_text(content: FrameContentView) -> Seq<char> {
    match content {
        FrameContentView::Str(v) => v,
        FrameContentView::I32(v) => signed_decimal(v as int),
        FrameContentView::U32(v) => decimal_digits(v as nat),
    }
}

impl FrameId {
    /// The name under which the field is shown and edited.
    pub fn description(&self) -> (r: &str)
        ensures
            r@ == frame_name(self@),
    {
        match self {
            FrameId::Title => "Title",
            FrameId::Album => "Album",
            FrameId::AlbumArtist => "Album Artist",
            FrameId::Artist => "Artist",
            FrameId::Year => "Year",
            FrameId::Track => "Track",
            FrameId::TotalTracks => "Total Tracks",
            FrameId::Disc => "Disc",
            FrameId::TotalDiscs => "Total Discs",
            FrameId::Genre => "Genre",
            FrameId::CustomText { key } => key.as_str(),
        }
    }

    /// The field that a name stands for.
    pub fn from_str(s: &str) -> (r: FrameId)
        ensures
            r@ == frame_named(s@),
    {
        if text_eq(s, "Title") {
            FrameId::Title
        } else if text_eq(s, "Album") {
            FrameId::Album
        } else if text_eq(s, "Album Artist") {
            FrameId::AlbumArtist
        } else if text_eq(s, "Artist") {
            FrameId::Artist
        } else if text_eq(s, "Year") {
            FrameId::Year
        } else if text_eq(s, "Track") {
            FrameId::Track
        } else if text_eq(s, "Total Tracks") {
            FrameId::TotalTracks
        } else if text_eq(s, "Disc") {
            FrameId::Disc
        } else if text_eq(s, "Total Discs") {
            FrameId::TotalDiscs
        } else if text_eq(s, "Genre") {
            FrameId::Genre
        } else {
            FrameId::CustomText { key: s.to_owned() }
        }
    }
}

impl Clone for FrameId {
    fn clone(&self) -> (r: Self)
        ensures
            r@ == self@,
    {
        match self {
            FrameId::Title => FrameId::Title,
            FrameId::Album => FrameId::Album,
            FrameId::AlbumArtist => FrameId::AlbumArtist,
            FrameId::Artist => FrameId::Artist,
            FrameId::Year => FrameId::Year,
            FrameId::Track => FrameId::Track,
            FrameId::TotalTracks => FrameId::TotalTracks,
            FrameId::Disc => FrameId::Disc,
            FrameId::TotalDiscs => FrameId::TotalDiscs,
            FrameId::Genre => FrameId::Genre,
            FrameId::CustomText { key } => FrameId::CustomText { key: key.clone() },
        }
    }
}

impl FrameContent {
    /// The text, where the content is text.
    pub fn as_str(&self) -> (r: Result<&str, FrameContentError>)
        ensures
            match self@ {
                FrameContentView::Str(v) => r is Ok && r->Ok_0@ == v,
                _ => r == Err::<&str, FrameContentError>(FrameContentError::NotAString),
            },
    {
        match self {
            FrameContent::Str(v) => Ok(v.as_str()),
            _ => Err(FrameContentError::NotAString),
        }
    }

    /// The number, where the content is a signed number.
    pub fn as_i32(&self) -> (r: Result<i32, FrameContentError>)
        ensures
            r == match self@ {
                FrameContentView::I32(v) => Ok::<i32, FrameContentError>(v),
                _ => Err(FrameContentError::NotASignedInteger),
            },
    {
        match self {
            FrameContent::I32(v) => Ok(*v),
            _ => Err(FrameContentError::NotASignedInteger),
        }
    }

    /// The number, where the content is an unsigned number.
    pub fn as_u32(&self) -> (r: Result<u32, FrameContentError>)
        ensures
            r == match self@ {
                FrameContentView::U32(v) => Ok::<u32, FrameContentError>(v),
                _ => Err(FrameContentError::NotAnUnsignedInteger),
            },
    {
        match self {
            FrameContent::U32(v) => Ok(*v),
            _ => Err(FrameContentError::NotAnUnsignedInteger),
        }
    }

    /// The content written out: text as it is, a number in base ten.
    pub fn stringify_content(&self) -> (r: String)
        ensures
            r@ == content_text(self@),
    {
        match self {
            FrameContent::Str(v) => v.clone(),
            FrameContent::I32(v) => format_i32(*v),
            FrameContent::U32(v) => format_u32(*v),
        }
    }
}

/// Whether a text is the name of one of the ten fixed fields.
pub open spec fn is_fixed_name(name: Seq<char>) -> bool {
    name == "Title"@ || name == "Album"@ || name == "Album Artist"@ || name == "Artist"@ || name
        == "Year"@ || name == "Track"@ || name == "Total Tracks"@ || name == "Disc"@ || name
        == "Total Discs"@ || name == "Genre"@
}

/// The name of a field is read back as that field. This holds of every
/// fixed field, and of every custom text whose key is not the name of a
/// fixed field.
pub proof fn frame_name_is_read_back(id: FrameIdView)
    requires
        id matches FrameIdView::CustomText { key } ==> !is_fixed_name(key),
    ensures
        frame_named(frame_name(id)) == id,
{
    reveal_strlit("Title");
    reveal_strlit("Album");
    reveal_strlit("Album Artist");
    reveal_strlit("Artist");
    reveal_strlit("Year");
    reveal_strlit("Track");
    reveal_strlit("Total Tracks");
    reveal_strlit("Disc");
    reveal_strlit("Total Discs");
    reveal_strlit("Genre");
    assert("Title"@.len() == 5 && "Album"@.len() == 5 && "Track"@.len() == 5 && "Genre"@.len() == 5);
    assert("Album Artist"@.len() == 12 && "Total Tracks"@.len() == 12);
    assert("Year"@.len() == 4 && "Disc"@.len() == 4);
    assert("Artist"@.len() == 6 && "Total Discs"@.len() == 11);
    assert("Title"@[0] != "Album"@[0]);
    assert("Title"@[1] != "Track"@[1]);
    assert("Title"@[0] != "Genre"@[0]);
    assert("Album"@[0] != "Track"@[0]);
    assert("Album"@[0] != "Genre"@[0]);
    assert("Track"@[0] != "Genre"@[0]);
    assert("Album Artist"@[0] != "Total Tracks"@[0]);
    assert("Year"@[0] != "Disc"@[0]);
}

} // verus!
