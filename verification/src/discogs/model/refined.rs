use std::collections::HashMap;
use vstd::prelude::*;
use crate::discogs::model::serialized;
use crate::discogs::model::ModelError;
use crate::util::duration::Duration;
use crate::util::numbers::{is_digit, parse_u32, parsed_unsigned};
use crate::util::text::{chars_of, split, split_on, string_of_range, trim, trimmed};
use crate::util::views::result_view;
use crate::util::views::{lemma_deep_view_empty, lemma_deep_view_index, lemma_deep_view_push};

verus! {

/// A release of the catalog, put in the form that matching and planning work
/// on.
#[derive(Debug, PartialEq, Eq)]
pub struct DiscogsRelease {
    pub uri: String,
    pub title: String,
    pub year: i32,
    pub styles: Option<Vec<String>>,
    pub image: Option<DiscogsImage>,
    pub tracks: Vec<DiscogsTrack>,
    pub disc_to_total_tracks: HashMap<u32, u32>,
    pub artists: Vec<DiscogsArtist>,
}

/// The image that stands for a release.
#[derive(Debug, PartialEq, Eq)]
pub struct DiscogsImage {
    pub url: String,
}

/// One track of a release, with its place on its disc.
#[derive(Debug, PartialEq, Eq)]
pub struct DiscogsTrack {
    pub title: String,
    pub position: u32,
    pub disc: u32,
    pub duration: Option<Duration>,
    pub artists: Option<Vec<DiscogsArtist>>,
}

/// An artist, by the name to show, with the word that joins the name to the
/// next artist's.
#[derive(Debug, PartialEq, Eq)]
pub struct DiscogsArtist {
    pub name: String,
    pub join: Option<String>,
}

/// The model of a [`DiscogsArtist`].
pub struct ArtistView {
    pub name: Seq<char>,
    pub join: Option<Seq<char>>,
}

/// The model of a [`DiscogsTrack`].
pub struct TrackView {
    pub title: Seq<char>,
    pub position: u32,
    pub disc: u32,
    pub duration: Option<Duration>,
    pub artists: Option<Seq<ArtistView>>,
}

/// The model of a [`DiscogsRelease`].
pub struct ReleaseView {
    pub uri: Seq<char>,
    pub title: Seq<char>,
    pub year: i32,
    pub styles: Option<Seq<Seq<char>>>,
    pub image: Option<Seq<char>>,
    pub tracks: Seq<TrackView>,
    pub disc_to_total_tracks: Map<u32, u32>,
    pub artists: Seq<ArtistView>,
}

impl View for DiscogsArtist {
    type V = ArtistView;

    open spec fn view(&self) -> ArtistView {
        ArtistView { name: self.name@, join: self.join.deep_view() }
    }
}

impl DeepView for DiscogsArtist {
    type V = ArtistView;

    open spec fn deep_view(&self) -> ArtistView {
        self.view()
    }
}

impl View for DiscogsImage {
    type V = Seq<char>;

    open spec fn view(&self) -> Seq<char> {
        self.url@
    }
}

impl DeepView for DiscogsImage {
    type V = Seq<char>;

    open spec fn deep_view(&self) -> Seq<char> {
        self.view()
    }
}

impl View for DiscogsTrack {
    type V = TrackView;

    open spec fn view(&self) -> TrackView {
        TrackView {
            title: self.title@,
            position: self.position,
            disc: self.disc,
            duration: self.duration,
            artists: self.artists.deep_view(),
        }
    }
}

impl DeepView for DiscogsTrack {
    type V = TrackView;

    open spec fn deep_view(&self) -> TrackView {
        self.view()
    }
}

impl View for DiscogsRelease {
    type V = ReleaseView;

    open spec fn view(&self) -> ReleaseView {
        ReleaseView {
            uri: self.uri@,
            title: self.title@,
            year: self.year,
            styles: self.styles.deep_view(),
            image: self.image.deep_view(),
            tracks: self.tracks.deep_view(),
            disc_to_total_tracks: self.disc_to_total_tracks@,
            artists: self.artists.deep_view(),
        }
    }
}

impl DeepView for DiscogsRelease {
    type V = ReleaseView;

    open spec fn deep_view(&self) -> ReleaseView {
        self.view()
    }
}

/// Where the run of digits that starts at `from` ends.
pub open spec fn digits_end(s: Seq<char>, from: int) -> int
    decreases s.len() - from,
{
    if 0 <= from < s.len() && is_digit(s[from]) {
        digits_end(s, from + 1)
    } else {
        from
    }
}

/// Whether a numbering suffix starts at `at`: a space, an opening bracket,
/// one digit or more, a closing bracket.
pub open spec fn number_suffix_at(s: Seq<char>, at: int) -> bool {
    &&& 0 <= at
    &&& at + 1 < s.len()
    &&& s[at] == ' '
    &&& s[at + 1] == '('
    &&& digits_end(s, at + 2) > at + 2
    &&& digits_end(s, at + 2) < s.len()
    &&& s[digits_end(s, at + 2)] == ')'
}

/// Where the last numbering suffix that starts before `before` starts, and
/// -1 where there is none.
pub open spec fn last_number_suffix(s: Seq<char>, before: int) -> int
    decreases before,
{
    if before <= 0 {
        -1
    } else if number_suffix_at(s, before - 1) {
        before - 1
    } else {
        last_number_suffix(s, before - 1)
    }
}

/// The name to show for an artist: the catalog's name up to its last
/// numbering suffix, such as ` (2)`, without whitespace around it.
pub open spec fn proper_artist_name(name: Seq<char>) -> Seq<char> {
    let cut = last_number_suffix(name, name.len() as int);
    if cut >= 0 {
        trimmed(name.take(cut))
    } else {
        trimmed(name)
    }
}

/// The artist in the form that planning works on.
pub open spec fn refined_artist(artist: serialized::ArtistView) -> ArtistView {
    ArtistView { name: proper_artist_name(artist.name), join: artist.join }
}

/// Whether a numbering suffix starts at `at`.
fn is_number_suffix_at(chars: &Vec<char>, at: usize) -> (r: bool)
    requires
        at < chars.len(),
    ensures
        r == number_suffix_at(chars@, at as int),
{
    if at + 1 >= chars.len() || chars[at] != ' ' || chars[at + 1] != '(' {
        return false;
    }
    let mut end: usize = at + 2;
    while end < chars.len() && chars[end] >= '0' && chars[end] <= '9'
        invariant
            at + 2 <= end <= chars.len(),
            digits_end(chars@, at + 2) == digits_end(chars@, end as int),
        decreases chars.len() - end,
    {
        end += 1;
    }
    end > at + 2 && end < chars.len() && chars[end] == ')'
}

/// The name to show for an artist whom the catalog calls `name`.
pub fn proper_name_of(name: &str) -> (r: String)
    ensures
        r@ == proper_artist_name(name@),
{
    let chars = chars_of(name);
    let mut before: usize = chars.len();
    while before > 0
        invariant
            before <= chars.len(),
            chars@ == name@,
            last_number_suffix(chars@, chars@.len() as int) == last_number_suffix(
                chars@,
                before as int,
            ),
        decreases before,
    {
        if is_number_suffix_at(&chars, before - 1) {
            let head = string_of_range(&chars, 0, before - 1);
            assert(chars@.subrange(0, before - 1) =~= chars@.take(before - 1));
            return trim(head.as_str());
        }
        before -= 1;
    }
    trim(name)
}

impl Clone for DiscogsArtist {
    fn clone(&self) -> (r: Self)
        ensures
            r@ == self@,
    {
        DiscogsArtist { name: self.name.clone(), join: crate::tag::clone_text(&self.join) }
    }
}

impl DiscogsArtist {
    /// The artist in the form that planning works on.
    pub fn from(serialized: &serialized::DiscogsArtist) -> (r: DiscogsArtist)
        ensures
            r@ == refined_artist(serialized@),
    {
        DiscogsArtist {
            name: Self::name(serialized),
            join: crate::tag::clone_text(&serialized.join),
        }
    }

    fn name(serialized: &serialized::DiscogsArtist) -> (r: String)
        ensures
            r@ == proper_artist_name(serialized.name@),
    {
        proper_name_of(serialized.name.as_str())
    }
}

/// Copies of the given artists.
pub fn clone_artists(artists: &Vec<DiscogsArtist>) -> (r: Vec<DiscogsArtist>)
    ensures
        r.deep_view() == artists.deep_view(),
{
    let mut r: Vec<DiscogsArtist> = Vec::new();
    let mut i: usize = 0;
    proof {
        lemma_deep_view_empty(r);
        lemma_deep_view_index(*artists);
    }
    while i < artists.len()
        invariant
            i <= artists.len(),
            r.deep_view() == artists.deep_view().take(i as int),
        decreases artists.len() - i,
    {
        let ghost before = r;
        let artist = artists[i].clone();
        r.push(artist);
        proof {
            lemma_deep_view_push(before, r, artist);
            lemma_deep_view_index(*artists);
        }
        assert(r.deep_view() =~= artists.deep_view().take(i + 1));
        i += 1;
    }
    assert(artists.deep_view().take(i as int) =~= artists.deep_view());
    r
}

/// The artists in the form that planning works on.
pub fn refine_artists(artists: &Vec<serialized::DiscogsArtist>) -> (r: Vec<DiscogsArtist>)
    ensures
        r.deep_view() == artists.deep_view().map_values(
            |a: serialized::ArtistView| refined_artist(a),
        ),
{
    let mut r: Vec<DiscogsArtist> = Vec::new();
    let mut i: usize = 0;
    let ghost all = artists.deep_view().map_values(|a: serialized::ArtistView| refined_artist(a));
    proof {
        lemma_deep_view_empty(r);
        lemma_deep_view_index(*artists);
    }
    while i < artists.len()
        invariant
            i <= artists.len(),
            all == artists.deep_view().map_values(|a: serialized::ArtistView| refined_artist(a)),
            r.deep_view() == all.take(i as int),
        decreases artists.len() - i,
    {
        let ghost before = r;
        let artist = DiscogsArtist::from(&artists[i]);
        r.push(artist);
        proof {
            lemma_deep_view_push(before, r, artist);
            lemma_deep_view_index(*artists);
        }
        assert(r.deep_view() =~= all.take(i + 1));
        i += 1;
    }
    assert(all.take(i as int) =~= all);
    r
}

/// The disc and the place on it that a position names, as the catalog
/// writes them: a number alone, or a disc and a number with a hyphen between
/// them, of which only the first two parts count.
pub open spec fn disc_position_of(position: Option<Seq<char>>) -> Result<
    Option<(Option<u32>, u32)>,
    ModelError,
> {
    match position {
        None => Ok(None),
        Some(text) => {
            let parts = split_on(text, '-');
            if parts.len() >= 2 {
                match (
                    parsed_unsigned(parts[0], u32::MAX as nat),
                    parsed_unsigned(parts[1], u32::MAX as nat),
                ) {
                    (Some(disc), Some(place)) => Ok(Some((Some(disc as u32), place as u32))),
                    _ => Err(ModelError::InvalidPosition),
                }
            } else {
                match parsed_unsigned(text, u32::MAX as nat) {
                    Some(place) => Ok(Some((None, place as u32))),
                    None => Err(ModelError::InvalidPosition),
                }
            }
        },
    }
}

/// The disc and the place that a track's own position gives it: the first
/// disc where the position names none, and nothing where the position is
/// missing or cannot be read.
pub open spec fn named_place(position: Option<Seq<char>>) -> Option<(u32, u32)> {
    match disc_position_of(position) {
        Ok(Some((Some(disc), place))) => Some((disc, place)),
        Ok(Some((None, place))) => Some((1u32, place)),
        _ => None,
    }
}

/// How many of the tracks have no place of their own.
pub open spec fn unplaced_count(tracks: Seq<serialized::TrackView>) -> nat
    decreases tracks.len(),
{
    if tracks.len() == 0 {
        0
    } else {
        unplaced_count(tracks.drop_last()) + if named_place(tracks.last().position) is None {
            1nat
        } else {
            0nat
        }
    }
}

/// The disc and the place of the track at `at`: those that its position
/// names, else the first disc and the track's rank among the tracks without
/// a place of their own.
pub open spec fn place_of(tracks: Seq<serialized::TrackView>, at: int) -> (u32, u32) {
    match named_place(tracks[at].position) {
        Some(place) => place,
        None => (1u32, unplaced_count(tracks.take(at + 1)) as u32),
    }
}

/// Whether some tracks have a place of their own and others have none.
pub open spec fn places_are_mixed(tracks: Seq<serialized::TrackView>) -> bool {
    0 < unplaced_count(tracks) < tracks.len()
}

/// How long a track plays: nothing where the catalog says nothing or gives
/// an empty text.
pub open spec fn refined_duration(duration: Option<Seq<char>>) -> Result<
    Option<Duration>,
    ModelError,
> {
    match duration {
        Some(text) if text.len() > 0 => serialized::parsed_duration_of(Some(text)),
        _ => Ok(None),
    }
}

/// The artists in the form that planning works on.
pub open spec fn refined_artists(artists: Seq<serialized::ArtistView>) -> Seq<ArtistView> {
    artists.map_values(|a: serialized::ArtistView| refined_artist(a))
}

/// The track in the form that matching and planning work on, at the given
/// disc and place.
pub open spec fn refined_track(track: serialized::TrackView, disc: u32, position: u32) -> Result<
    TrackView,
    ModelError,
> {
    match refined_duration(track.duration) {
        Err(e) => Err(e),
        Ok(duration) => Ok(
            TrackView {
                title: trimmed(track.title),
                position,
                disc,
                duration,
                artists: match track.artists {
                    Some(artists) => Some(refined_artists(artists)),
                    None => None,
                },
            },
        ),
    }
}

/// The tracks of a release in the form that matching and planning work on.
pub open spec fn refined_tracks(tracks: Seq<serialized::TrackView>) -> Result<
    Seq<TrackView>,
    ModelError,
> {
    if tracks.len() > u32::MAX {
        Err(ModelError::TooManyTracks)
    } else if exists|i: int| 0 <= i < tracks.len() && refined_duration(tracks[i].duration) is Err {
        Err(ModelError::InvalidDuration)
    } else {
        Ok(
            Seq::new(
                tracks.len(),
                |i: int|
                    refined_track(
                        tracks[i],
                        place_of(tracks, i).0,
                        place_of(tracks, i).1,
                    )->Ok_0,
            ),
        )
    }
}

/// How many of the tracks are on the given disc.
pub open spec fn tracks_on_disc(tracks: Seq<TrackView>, disc: u32) -> nat
    decreases tracks.len(),
{
    if tracks.len() == 0 {
        0
    } else {
        tracks_on_disc(tracks.drop_last(), disc) + if tracks.last().disc == disc {
            1nat
        } else {
            0nat
        }
    }
}

/// For each disc that holds a track, how many tracks it holds.
pub open spec fn disc_totals(tracks: Seq<TrackView>) -> Map<u32, u32> {
    Map::new(
        |disc: u32| tracks_on_disc(tracks, disc) > 0,
        |disc: u32| tracks_on_disc(tracks, disc) as u32,
    )
}

/// The release in the form that matching and planning work on.
pub open spec fn refined_release(release: serialized::ReleaseView) -> Result<
    ReleaseView,
    ModelError,
> {
    match refined_tracks(serialized::flattened_list(release.tracklist)) {
        Err(e) => Err(e),
        Ok(tracks) => Ok(
            ReleaseView {
                uri: release.uri,
                title: trimmed(release.title),
                year: release.year,
                styles: release.styles,
                image: match serialized::best_image_of(release.images) {
                    Some(image) => Some(image.resource_url),
                    None => None,
                },
                tracks,
                disc_to_total_tracks: disc_totals(tracks),
                artists: refined_artists(release.artists),
            },
        ),
    }
}

/// No disc holds more tracks than there are.
pub proof fn lemma_tracks_on_disc(tracks: Seq<TrackView>, disc: u32)
    ensures
        tracks_on_disc(tracks, disc) <= tracks.len(),
    decreases tracks.len(),
{
    if tracks.len() > 0 {
        lemma_tracks_on_disc(tracks.drop_last(), disc);
    }
}

impl Clone for DiscogsTrack {
    fn clone(&self) -> (r: Self)
        ensures
            r@ == self@,
    {
        DiscogsTrack {
            title: self.title.clone(),
            position: self.position,
            disc: self.disc,
            duration: self.duration,
            artists: match &self.artists {
                Some(artists) => Some(clone_artists(artists)),
                None => None,
            },
        }
    }
}

impl DiscogsImage {
    /// The image in the form that planning works on.
    pub fn from(serialized: &serialized::DiscogsImage) -> (r: DiscogsImage)
        ensures
            r@ == serialized@.resource_url,
    {
        DiscogsImage { url: serialized.resource_url.clone() }
    }
}

impl DiscogsTrack {
    /// The track in the form that matching and planning work on, at the
    /// given place on the given disc.
    pub fn from(serialized: &serialized::DiscogsTrack, position: u32, disc: u32) -> (r: Result<
        DiscogsTrack,
        ModelError,
    >)
        ensures
            result_view(r) == refined_track(serialized@, disc, position),
    {
        let duration = match Self::duration(serialized) {
            Ok(d) => d,
            Err(e) => {
                return Err(e);
            },
        };
        Ok(
            DiscogsTrack {
                title: Self::title(serialized),
                position,
                disc,
                duration,
                artists: match &serialized.artists {
                    Some(artists) => Some(refine_artists(artists)),
                    None => None,
                },
            },
        )
    }

    /// The title without whitespace around it.
    pub fn title(serialized: &serialized::DiscogsTrack) -> (r: String)
        ensures
            r@ == trimmed(serialized@.title),
    {
        trim(serialized.title.as_str())
    }

    /// How long the track plays, where the catalog says so.
    pub fn duration(serialized: &serialized::DiscogsTrack) -> (r: Result<
        Option<Duration>,
        ModelError,
    >)
        ensures
            r == refined_duration(serialized@.duration),
    {
        match &serialized.duration {
            Some(text) => {
                if text.as_str().unicode_len() == 0 {
                    Ok(None)
                } else {
                    match serialized::parse_clock(text.as_str()) {
                        Some(d) => Ok(Some(d)),
                        None => Err(ModelError::InvalidDuration),
                    }
                }
            },
            None => Ok(None),
        }
    }

    /// The disc and the place on it that the track's position names.
    pub fn disc_position(serialized: &serialized::DiscogsTrack) -> (r: Result<
        Option<(Option<u32>, u32)>,
        ModelError,
    >)
        ensures
            r == disc_position_of(serialized@.position),
    {
        let text = match &serialized.position {
            Some(text) => text,
            None => {
                return Ok(None);
            },
        };
        let parts = split(text.as_str(), '-');
        proof {
            lemma_deep_view_index(parts);
        }
        if parts.len() >= 2 {
            let disc = parse_u32(parts[0].as_str());
            let place = parse_u32(parts[1].as_str());
            match (disc, place) {
                (Some(disc), Some(place)) => Ok(Some((Some(disc), place))),
                _ => Err(ModelError::InvalidPosition),
            }
        } else {
            match parse_u32(text.as_str()) {
                Some(place) => Ok(Some((None, place))),
                None => Err(ModelError::InvalidPosition),
            }
        }
    }
}

impl Clone for DiscogsRelease {
    fn clone(&self) -> (r: Self)
        ensures
            r@ == self@,
    {
        let mut tracks: Vec<DiscogsTrack> = Vec::new();
        let mut i: usize = 0;
        proof {
            lemma_deep_view_empty(tracks);
        }
        while i < self.tracks.len()
            invariant
                i <= self.tracks.len(),
                tracks.deep_view() == self.tracks.deep_view().take(i as int),
            decreases self.tracks.len() - i,
        {
            let ghost before = tracks;
            let track = self.tracks[i].clone();
            tracks.push(track);
            proof {
                lemma_deep_view_push(before, tracks, track);
                lemma_deep_view_index(self.tracks);
            }
            assert(tracks.deep_view() =~= self.tracks.deep_view().take(i + 1));
            i += 1;
        }
        assert(self.tracks.deep_view().take(i as int) =~= self.tracks.deep_view());
        let styles = match &self.styles {
            Some(styles) => {
                let copy = styles.clone();
                assert(copy@ =~= styles@);
                Some(copy)
            },
            None => None,
        };
        DiscogsRelease {
            uri: self.uri.clone(),
            title: self.title.clone(),
            year: self.year,
            styles,
            image: match &self.image {
                Some(image) => Some(DiscogsImage { url: image.url.clone() }),
                None => None,
            },
            tracks,
            disc_to_total_tracks: self.disc_to_total_tracks.clone(),
            artists: clone_artists(&self.artists),
        }
    }
}

impl DiscogsRelease {
    /// Whether the release keeps count of its discs' tracks as its track
    /// list has them.
    pub open spec fn well_formed(&self) -> bool {
        self@.disc_to_total_tracks == disc_totals(self@.tracks)
    }

    /// The release in the form that matching and planning work on.
    pub fn from(serialized: &serialized::DiscogsRelease) -> (r: Result<DiscogsRelease, ModelError>)
        ensures
            result_view(r) == refined_release(serialized@),
            r matches Ok(release) ==> release.well_formed(),
    {
        let tracks = match Self::tracks(serialized) {
            Ok(tracks) => tracks,
            Err(e) => {
                return Err(e);
            },
        };
        let disc_to_total_tracks = Self::disc_to_total_tracks(&tracks);
        let styles = match &serialized.styles {
            Some(styles) => {
                let copy = styles.clone();
                assert(copy@ =~= styles@);
                Some(copy)
            },
            None => None,
        };
        Ok(
            DiscogsRelease {
                uri: serialized.uri.clone(),
                title: Self::title(serialized),
                year: serialized.year,
                styles,
                image: Self::image(serialized),
                tracks,
                disc_to_total_tracks,
                artists: refine_artists(&serialized.artists),
            },
        )
    }

    fn title(serialized: &serialized::DiscogsRelease) -> (r: String)
        ensures
            r@ == trimmed(serialized@.title),
    {
        trim(serialized.title.as_str())
    }

    fn image(serialized: &serialized::DiscogsRelease) -> (r: Option<DiscogsImage>)
        ensures
            r.deep_view() == match serialized::best_image_of(serialized@.images) {
                Some(image) => Some(image.resource_url),
                None => None,
            },
    {
        match serialized.best_image() {
            Some(image) => Some(DiscogsImage::from(image)),
            None => None,
        }
    }

    /// Whether some tracks of the release have a place of their own while
    /// others are placed by counting: such a track list numbers its tracks in
    /// two ways at once.
    pub fn mixes_positions(serialized: &serialized::DiscogsRelease) -> (r: bool)
        ensures
            r == places_are_mixed(serialized::flattened_list(serialized@.tracklist)),
    {
        let flat = Self::extract_track_list(serialized);
        let ghost all = flat.deep_view();
        let mut unplaced: usize = 0;
        let mut i: usize = 0;
        proof {
            lemma_deep_view_index(flat);
            assert(all.take(0) =~= Seq::<serialized::TrackView>::empty());
        }
        while i < flat.len()
            invariant
                i <= flat.len(),
                all == flat.deep_view(),
                all.len() == flat.len(),
                forall|k: int| 0 <= k < flat.len() ==> all[k] == flat[k]@,
                unplaced == unplaced_count(all.take(i as int)),
                unplaced <= i,
            decreases flat.len() - i,
        {
            assert(all.take(i + 1).drop_last() =~= all.take(i as int));
            assert(all.take(i + 1).last() == flat[i as int]@);
            match DiscogsTrack::disc_position(flat[i]) {
                Ok(Some(_)) => {},
                _ => {
                    unplaced += 1;
                },
            }
            i += 1;
        }
        assert(all.take(i as int) =~= all);
        0 < unplaced && unplaced < flat.len()
    }

    fn tracks(serialized: &serialized::DiscogsRelease) -> (r: Result<Vec<DiscogsTrack>, ModelError>)
        ensures
            result_view(r) == refined_tracks(serialized::flattened_list(serialized@.tracklist)),
            r matches Ok(tracks) ==> tracks.len() <= u32::MAX,
    {
        let serialized_tracks = Self::extract_track_list(serialized);
        let ghost all = serialized_tracks.deep_view();
        if serialized_tracks.len() > 0xffff_ffff {
            return Err(ModelError::TooManyTracks);
        }
        let mut refined_tracks: Vec<DiscogsTrack> = Vec::new();
        let mut track_index_position: u32 = 0;
        let mut i: usize = 0;
        proof {
            lemma_deep_view_index(serialized_tracks);
            lemma_deep_view_empty(refined_tracks);
            assert(all.take(0) =~= Seq::<serialized::TrackView>::empty());
        }
        while i < serialized_tracks.len()
            invariant
                i <= serialized_tracks.len() <= u32::MAX,
                all == serialized_tracks.deep_view(),
                all == serialized::flattened_list(serialized@.tracklist),
                all.len() == serialized_tracks.len(),
                forall|k: int|
                    0 <= k < serialized_tracks.len() ==> all[k] == serialized_tracks[k]@,
                track_index_position == unplaced_count(all.take(i as int)),
                track_index_position <= i,
                refined_tracks.len() == i,
                forall|k: int| 0 <= k < i ==> refined_duration(all[k].duration) is Ok,
                forall|k: int|
                    0 <= k < i ==> Ok::<TrackView, ModelError>(
                        #[trigger] refined_tracks.deep_view()[k],
                    ) == refined_track(all[k], place_of(all, k).0, place_of(all, k).1),
            decreases serialized_tracks.len() - i,
        {
            let serialized_track = serialized_tracks[i];
            assert(all.take(i + 1).drop_last() =~= all.take(i as int));
            assert(all.take(i + 1).last() == serialized_track@);
            let (disc, position) = match DiscogsTrack::disc_position(serialized_track) {
                Ok(Some((Some(disc), position))) => (disc, position),
                Ok(Some((None, position))) => (1, position),
                _ => {
                    track_index_position += 1;
                    (1, track_index_position)
                },
            };
            assert((disc, position) == place_of(all, i as int));
            let track = match DiscogsTrack::from(serialized_track, position, disc) {
                Ok(track) => track,
                Err(e) => {
                    assert(refined_duration(all[i as int].duration) is Err);
                    assert(e == ModelError::InvalidDuration);
                    return Err(e);
                },
            };
            let ghost before = refined_tracks;
            refined_tracks.push(track);
            proof {
                lemma_deep_view_push(before, refined_tracks, track);
            }
            i += 1;
        }
        proof {
            lemma_deep_view_index(refined_tracks);
            assert(refined_tracks.deep_view() =~= Seq::new(
                all.len(),
                |i: int| refined_track(all[i], place_of(all, i).0, place_of(all, i).1)->Ok_0,
            ));
        }
        Ok(refined_tracks)
    }

    fn extract_track_list(serialized: &serialized::DiscogsRelease) -> (r: Vec<
        &serialized::DiscogsTrack,
    >)
        ensures
            r.deep_view() == serialized::flattened_list(serialized@.tracklist),
    {
        serialized.valid_track_list()
    }

    fn disc_to_total_tracks(tracks: &Vec<DiscogsTrack>) -> (r: HashMap<u32, u32>)
        requires
            tracks.len() <= u32::MAX,
        ensures
            r@ == disc_totals(tracks.deep_view()),
    {
        let ghost all = tracks.deep_view();
        let mut result: HashMap<u32, u32> = HashMap::new();
        let mut i: usize = 0;
        proof {
            lemma_deep_view_index(*tracks);
            assert(all.take(0) =~= Seq::<TrackView>::empty());
            assert(result@ =~= disc_totals(all.take(0)));
        }
        while i < tracks.len()
            invariant
                i <= tracks.len() <= u32::MAX,
                all == tracks.deep_view(),
                all.len() == tracks.len(),
                forall|k: int| 0 <= k < tracks.len() ==> all[k] == tracks[k]@,
                result@ == disc_totals(all.take(i as int)),
            decreases tracks.len() - i,
        {
            let disc = tracks[i].disc;
            let ghost before = all.take(i as int);
            let ghost after = all.take(i + 1);
            proof {
                assert(after.drop_last() =~= before);
                assert(after.last() == tracks[i as int]@);
                lemma_tracks_on_disc(before, disc);
            }
            let count: u32 = match result.get(&disc) {
                Some(count) => *count,
                None => 0,
            };
            assert(count == tracks_on_disc(before, disc));
            result.insert(disc, count + 1);
            assert(result@ =~= disc_totals(after)) by {
                assert forall|d: u32| #[trigger]
                    result@.contains_key(d) == disc_totals(after).contains_key(d) by {
                    lemma_tracks_on_disc(before, d);
                }
                assert forall|d: u32| #[trigger] result@.contains_key(d) implies result@[d]
                    == disc_totals(after)[d] by {
                    lemma_tracks_on_disc(before, d);
                }
            }
            i += 1;
        }
        assert(all.take(i as int) =~= all);
        result
    }
}

} // verus!
