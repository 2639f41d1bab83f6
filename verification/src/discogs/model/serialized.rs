use vstd::prelude::*;
use crate::discogs::model::ModelError;
use crate::util::duration::{Duration, NANOS_PER_SECOND};
use crate::util::numbers::{parse_u64, parsed_unsigned};
use crate::util::text::{split, split_on, text_eq, trim, trimmed};
use crate::util::views::{lemma_deep_view_empty, lemma_deep_view_index, lemma_deep_view_push};

verus! {

/// A master as the catalog sends it: it only points to its main release.
#[derive(Debug, PartialEq, Eq)]
pub struct DiscogsMaster {
    pub main_release_url: String,
}

/// A release as the catalog sends it.
#[derive(Debug, PartialEq, Eq)]
pub struct DiscogsRelease {
    pub title: String,
    pub uri: String,
    pub images: Option<Vec<DiscogsImage>>,
    pub tracklist: Vec<DiscogsTrack>,
    pub artists: Vec<DiscogsArtist>,
    pub year: i32,
    pub styles: Option<Vec<String>>,
    pub format_quantity: Option<u32>,
}

/// An entry of a release's track list as the catalog sends it. An entry may
/// hold entries of its own.
#[derive(Debug, PartialEq, Eq)]
pub struct DiscogsTrack {
    pub title: String,
    pub type_: String,
    pub artists: Option<Vec<DiscogsArtist>>,
    pub position: Option<String>,
    pub sub_tracks: Option<Vec<DiscogsTrack>>,
    pub duration: Option<String>,
}

/// An artist as the catalog sends it, with the word that joins the name to
/// the next artist's.
#[derive(Debug, PartialEq, Eq)]
pub struct DiscogsArtist {
    pub name: String,
    pub join: Option<String>,
}

/// An image as the catalog sends it.
#[derive(Debug, PartialEq, Eq)]
pub struct DiscogsImage {
    pub resource_url: String,
    pub type_: String,
}

/// One page of what a search found.
#[derive(Debug, PartialEq, Eq)]
pub struct DiscogsSearchResultPage {
    pub results: Vec<DiscogsSearchResult>,
}

/// One thing that a search found.
#[derive(Debug, PartialEq, Eq)]
pub struct DiscogsSearchResult {
    pub resource_url: String,
}

/// The model of a [`DiscogsArtist`].
pub struct ArtistView {
    pub name: Seq<char>,
    pub join: Option<Seq<char>>,
}

/// The model of a [`DiscogsImage`].
pub struct ImageView {
    pub resource_url: Seq<char>,
    pub type_: Seq<char>,
}

/// The model of a [`DiscogsTrack`].
pub struct TrackView {
    pub title: Seq<char>,
    pub type_: Seq<char>,
    pub artists: Option<Seq<ArtistView>>,
    pub position: Option<Seq<char>>,
    pub sub_tracks: Option<Seq<TrackView>>,
    pub duration: Option<Seq<char>>,
}

/// The model of a [`DiscogsRelease`].
pub struct ReleaseView {
    pub title: Seq<char>,
    pub uri: Seq<char>,
    pub images: Option<Seq<ImageView>>,
    pub tracklist: Seq<TrackView>,
    pub artists: Seq<ArtistView>,
    pub year: i32,
    pub styles: Option<Seq<Seq<char>>>,
    pub format_quantity: Option<u32>,
}

impl View for DiscogsArtist {
    type V = ArtistView;

    open spec fn view(&self) -> ArtistView {
        ArtistView { name: self.name@, join: self.join.deep_view() }
    }
}

impl DeepView for DiscogsArtist {
    type V = ArtistView;

    open spec fn deep_view(&self) -> ArtistView {
        self.view()
    }
}

impl View for DiscogsImage {
    type V = ImageView;

    open spec fn view(&self) -> ImageView {
        ImageView { resource_url: self.resource_url@, type_: self.type_@ }
    }
}

impl DeepView for DiscogsImage {
    type V = ImageView;

    open spec fn deep_view(&self) -> ImageView {
        self.view()
    }
}

/// The models of the entries of a track list.
pub open spec fn track_views(tracks: Seq<DiscogsTrack>) -> Seq<TrackView>
    decreases tracks, 0nat,
{
    Seq::new(
        tracks.len(),
        |i: int|
            if 0 <= i < tracks.len() {
                track_view(tracks[i])
            } else {
                arbitrary()
            },
    )
}

/// The model of one entry of a track list.
pub open spec fn track_view(track: DiscogsTrack) -> TrackView
    decreases track, 1nat,
{
    TrackView {
        title: track.title@,
        type_: track.type_@,
        artists: track.artists.deep_view(),
        position: track.position.deep_view(),
        sub_tracks: match track.sub_tracks {
            Some(entries) => Some(track_views(entries@)),
            None => None,
        },
        duration: track.duration.deep_view(),
    }
}

impl View for DiscogsTrack {
    type V = TrackView;

    open spec fn view(&self) -> TrackView {
        track_view(*self)
    }
}

impl DeepView for DiscogsTrack {
    type V = TrackView;

    open spec fn deep_view(&self) -> TrackView {
        self.view()
    }
}

impl View for DiscogsRelease {
    type V = ReleaseView;

    open spec fn view(&self) -> ReleaseView {
        ReleaseView {
            title: self.title@,
            uri: self.uri@,
            images: self.images.deep_view(),
            tracklist: self.tracklist.deep_view(),
            artists: self.artists.deep_view(),
            year: self.year,
            styles: self.styles.deep_view(),
            format_quantity: self.format_quantity,
        }
    }
}

impl DeepView for DiscogsRelease {
    type V = ReleaseView;

    open spec fn deep_view(&self) -> ReleaseView {
        self.view()
    }
}

/// The seconds that the parts of a clock reading stand for, each part
/// counting sixty of the next: `None` where a part is no number.
pub open spec fn clock_seconds(parts: Seq<Seq<char>>) -> Option<nat>
    decreases parts.len(),
{
    if parts.len() == 0 {
        Some(0)
    } else {
        match (
            clock_seconds(parts.drop_last()),
            parsed_unsigned(parts.last(), u64::MAX as nat),
        ) {
            (Some(before), Some(last)) => Some(before * 60 + last),
            _ => None,
        }
    }
}

/// The duration that a text such as `1:02:03` stands for: numbers with
/// colons between them, the last one counting seconds. `None` where a part is
/// no number or the seconds do not fit in 64 bits.
pub open spec fn clock_duration(text: Seq<char>) -> Option<Duration> {
    match clock_seconds(split_on(text, ':')) {
        Some(seconds) if seconds <= u64::MAX => Some(
            Duration { nanos: (seconds * NANOS_PER_SECOND) as u128 },
        ),
        _ => None,
    }
}

/// What a track's duration stands for, where the track has one.
pub open spec fn parsed_duration_of(duration: Option<Seq<char>>) -> Result<
    Option<Duration>,
    ModelError,
> {
    match duration {
        None => Ok(None),
        Some(text) => match clock_duration(text) {
            Some(d) => Ok(Some(d)),
            None => Err(ModelError::InvalidDuration),
        },
    }
}

/// The entries of a track list that are tracks, with those that they hold,
/// each entry before the entries that it holds.
pub open spec fn flattened_list(tracks: Seq<TrackView>) -> Seq<TrackView>
    decreases tracks, 0nat,
{
    if tracks.len() == 0 {
        Seq::empty()
    } else {
        flattened_list(tracks.drop_last()) + flattened_entry(tracks.last())
    }
}

/// An entry where it is a track, then the tracks among what it holds.
pub open spec fn flattened_entry(track: TrackView) -> Seq<TrackView>
    decreases track, 1nat,
{
    let own = if track.type_ == "track"@ {
        seq![track]
    } else {
        Seq::empty()
    };
    match track.sub_tracks {
        Some(entries) => own + flattened_list(entries),
        None => own,
    }
}

/// The first image of the given type.
pub open spec fn first_image_of_type(images: Seq<ImageView>, type_: Seq<char>) -> Option<
    ImageView,
>
    decreases images.len(),
{
    if images.len() == 0 {
        None
    } else if images[0].type_ == type_ {
        Some(images[0])
    } else {
        first_image_of_type(images.drop_first(), type_)
    }
}

/// The image that stands for a release: its first primary image, or its
/// first secondary one where it has no primary.
pub open spec fn best_image_of(images: Option<Seq<ImageView>>) -> Option<ImageView> {
    match images {
        None => None,
        Some(list) => match first_image_of_type(list, "primary"@) {
            Some(image) => Some(image),
            None => first_image_of_type(list, "secondary"@),
        },
    }
}

/// A longer clock reading stands for no fewer seconds than its beginning,
/// and is a reading only if its beginning is.
pub proof fn lemma_clock_seconds_grow(parts: Seq<Seq<char>>, n: int)
    requires
        0 <= n <= parts.len(),
    ensures
        clock_seconds(parts) matches Some(all) ==> (clock_seconds(parts.take(n)) matches Some(
            some,
        ) && some <= all),
    decreases parts.len(),
{
    if n == parts.len() {
        assert(parts.take(n) =~= parts);
    } else {
        assert(parts.drop_last().take(n) =~= parts.take(n));
        lemma_clock_seconds_grow(parts.drop_last(), n);
    }
}

/// Reads a duration written as `hours:minutes:seconds`, with as many parts
/// as there are.
pub fn parse_clock(text: &str) -> (r: Option<Duration>)
    ensures
        r == clock_duration(text@),
{
    let parts = split(text, ':');
    let ghost texts = parts.deep_view();
    let mut seconds: u64 = 0;
    let mut i: usize = 0;
    proof {
        lemma_deep_view_index(parts);
        assert(texts.take(0) =~= Seq::<Seq<char>>::empty());
    }
    while i < parts.len()
        invariant
            i <= parts.len(),
            texts == parts.deep_view(),
            texts == split_on(text@, ':'),
            forall|k: int| 0 <= k < parts.len() ==> texts[k] == parts[k]@,
            clock_seconds(texts.take(i as int)) == Some(seconds as nat),
        decreases parts.len() - i,
    {
        proof {
            assert(texts.take(i + 1).drop_last() =~= texts.take(i as int));
            assert(texts.take(i + 1).last() == texts[i as int]);
            lemma_clock_seconds_grow(texts, i + 1);
        }
        let part = match parse_u64(parts[i].as_str()) {
            Some(v) => v,
            None => {
                return None;
            },
        };
        if seconds > (u64::MAX - part) / 60 {
            return None;
        }
        seconds = seconds * 60 + part;
        i += 1;
    }
    assert(texts.take(i as int) =~= texts);
    Some(Duration::from_secs(seconds))
}

/// The model of a list of entries is the list of the entries' models.
pub proof fn lemma_track_views(tracks: Vec<DiscogsTrack>)
    ensures
        track_views(tracks@) == tracks.deep_view(),
{
    assert(track_views(tracks@) =~= tracks.deep_view());
}

/// Appends the tracks among `tracks` and what they hold.
fn collect_tracks<'a>(tracks: &'a Vec<DiscogsTrack>, found: &mut Vec<&'a DiscogsTrack>)
    ensures
        final(found).deep_view() == old(found).deep_view() + flattened_list(tracks.deep_view()),
    decreases tracks, 0nat,
{
    let ghost all = tracks.deep_view();
    let mut i: usize = 0;
    proof {
        lemma_deep_view_index(*tracks);
        assert(all.take(0) =~= Seq::<TrackView>::empty());
        assert(found.deep_view() + flattened_list(all.take(0)) =~= found.deep_view());
    }
    while i < tracks.len()
        invariant
            i <= tracks.len(),
            all == tracks.deep_view(),
            all.len() == tracks.len(),
            forall|k: int| 0 <= k < tracks.len() ==> all[k] == tracks[k]@,
            found.deep_view() == old(found).deep_view() + flattened_list(all.take(i as int)),
        decreases tracks.len() - i,
    {
        let ghost start = found.deep_view();
        let track = &tracks[i];
        assert(all.take(i + 1).drop_last() =~= all.take(i as int));
        assert(all.take(i + 1).last() == track@);
        if text_eq(track.type_.as_str(), "track") {
            let ghost before = *found;
            found.push(track);
            proof {
                lemma_deep_view_push(before, *found, track);
            }
        }
        let ghost own = if track@.type_ == "track"@ {
            seq![track@]
        } else {
            Seq::empty()
        };
        assert(found.deep_view() =~= start + own);
        match &track.sub_tracks {
            Some(entries) => {
                proof {
                    lemma_track_views(*entries);
                }
                collect_tracks(entries, found);
                assert(found.deep_view() =~= start + (own + flattened_list(entries.deep_view())));
            },
            None => {},
        }
        assert(found.deep_view() =~= old(found).deep_view() + (flattened_list(all.take(i as int))
            + flattened_entry(track@)));
        i += 1;
    }
    assert(all.take(i as int) =~= all);
}

impl DiscogsTrack {
    /// The title without whitespace around it.
    pub fn proper_title(&self) -> (r: String)
        ensures
            r@ == trimmed(self@.title),
    {
        trim(self.title.as_str())
    }

    /// How long the track plays, where the catalog says so.
    pub fn parsed_duration(&self) -> (r: Result<Option<Duration>, ModelError>)
        ensures
            r == parsed_duration_of(self@.duration),
    {
        match &self.duration {
            None => Ok(None),
            Some(text) => match parse_clock(text.as_str()) {
                Some(d) => Ok(Some(d)),
                None => Err(ModelError::InvalidDuration),
            },
        }
    }
}

impl DiscogsArtist {
    /// The name to show for the artist: the catalog's name up to its last
    /// numbering suffix, without whitespace around it.
    pub fn proper_name(&self) -> (r: String)
        ensures
            r@ == crate::discogs::model::refined::proper_artist_name(self@.name),
    {
        crate::discogs::model::refined::proper_name_of(self.name.as_str())
    }
}

impl DiscogsRelease {
    /// The title without whitespace around it.
    pub fn proper_title(&self) -> (r: String)
        ensures
            r@ == trimmed(self@.title),
    {
        trim(self.title.as_str())
    }

    /// The tracks of the release: the entries of its track list that are
    /// tracks, with those that they hold, in the order of the list.
    pub fn valid_track_list(&self) -> (r: Vec<&DiscogsTrack>)
        ensures
            r.deep_view() == flattened_list(self@.tracklist),
    {
        let mut r: Vec<&DiscogsTrack> = Vec::new();
        proof {
            lemma_deep_view_empty(r);
        }
        collect_tracks(&self.tracklist, &mut r);
        assert(r.deep_view() =~= flattened_list(self@.tracklist));
        r
    }

    /// The image that stands for the release.
    pub fn best_image(&self) -> (r: Option<&DiscogsImage>)
        ensures
            r.deep_view() == best_image_of(self@.images),
    {
        match &self.images {
            None => None,
            Some(images) => match find_image(images, "primary") {
                Some(image) => Some(image),
                None => find_image(images, "secondary"),
            },
        }
    }
}

/// The first image of the given type.
fn find_image<'a>(images: &'a Vec<DiscogsImage>, type_: &str) -> (r: Option<&'a DiscogsImage>)
    ensures
        r.deep_view() == first_image_of_type(images.deep_view(), type_@),
{
    let ghost all = images.deep_view();
    let mut i: usize = 0;
    proof {
        lemma_deep_view_index(*images);
        assert(all.skip(0) =~= all);
    }
    while i < images.len()
        invariant
            i <= images.len(),
            all == images.deep_view(),
            all.len() == images.len(),
            forall|k: int| 0 <= k < images.len() ==> all[k] == images[k]@,
            first_image_of_type(all, type_@) == first_image_of_type(all.skip(i as int), type_@),
        decreases images.len() - i,
    {
        assert(all.skip(i as int)[0] == all[i as int]);
        if text_eq(images[i].type_.as_str(), type_) {
            return Some(&images[i]);
        }
        assert(all.skip(i as int).drop_first() =~= all.skip(i + 1));
        i += 1;
    }
    None
}

} // verus!
