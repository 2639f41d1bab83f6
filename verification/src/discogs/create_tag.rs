use vstd::prelude::*;
use crate::discogs::model::refined::{ArtistView, DiscogsArtist, DiscogsRelease, DiscogsTrack, ReleaseView, TrackView};
use crate::tag::{custom_text_of, clone_text, Tag, TagView};
use crate::util::text::{join, joined, trim, trimmed};
use crate::util::views::{lemma_deep_view_empty, lemma_deep_view_index, lemma_deep_view_push};

verus! {

/// The key of the custom text that names the release a tag was made from.
pub const DISCOGS_RELEASE_TAG: &'static str = "DISCOGS_RELEASE";

/// The word that joins an artist's name to the next: the artist's own, or
/// an ampersand.
pub open spec fn join_word(artist: ArtistView) -> Seq<char> {
    match artist.join {
        Some(word) => word,
        None => seq!['&'],
    }
}

/// The artists' names, each followed by its joining word.
pub open spec fn artist_words(artists: Seq<ArtistView>) -> Seq<Seq<char>>
    decreases artists.len(),
{
    if artists.len() == 0 {
        Seq::empty()
    } else {
        artist_words(artists.drop_last()).push(artists.last().name).push(
            join_word(artists.last()),
        )
    }
}

/// The artists in one line: names and joining words with spaces between
/// them, without whitespace around the whole.
pub open spec fn artists_text(artists: Seq<ArtistView>) -> Seq<char> {
    trimmed(joined(artist_words(artists), seq![' ']))
}

/// The styles in one line, with a semicolon and a space between each two.
pub open spec fn genre_text(styles: Option<Seq<Seq<char>>>) -> Seq<char> {
    match styles {
        Some(list) => joined(list, seq![';', ' ']),
        None => Seq::empty(),
    }
}

/// Whether a release is a compilation: some track of it names artists of
/// its own.
pub open spec fn is_compilation(release: ReleaseView) -> bool {
    exists|i: int| 0 <= i < release.tracks.len() && (#[trigger] release.tracks[i]).artists is Some
}

/// How many discs a release spans, as far as 32 bits count.
pub open spec fn total_discs_of(release: ReleaseView) -> u32 {
    if release.disc_to_total_tracks.dom().len() > u32::MAX {
        u32::MAX
    } else {
        release.disc_to_total_tracks.dom().len() as u32
    }
}

/// The tag that the catalog's data give to a track of a release.
pub open spec fn created_tag(track: TrackView, release: ReleaseView) -> TagView {
    TagView {
        title: Some(track.title),
        album: Some(release.title),
        album_artist: Some(
            if is_compilation(release) {
                "Various Artists"@
            } else {
                artists_text(release.artists)
            },
        ),
        artist: Some(
            match track.artists {
                Some(artists) => artists_text(artists),
                None => artists_text(release.artists),
            },
        ),
        year: Some(release.year),
        track_number: Some(track.position),
        total_tracks: if release.disc_to_total_tracks.contains_key(track.disc) {
            Some(release.disc_to_total_tracks[track.disc])
        } else {
            None
        },
        disc: if total_discs_of(release) > 1 {
            Some(track.disc)
        } else {
            None
        },
        total_discs: if total_discs_of(release) > 1 {
            Some(total_discs_of(release))
        } else {
            None
        },
        genre: Some(genre_text(release.styles)),
        custom_texts: seq![(DISCOGS_RELEASE_TAG@, release.uri)],
    }
}

/// A tag without anything but the ten fixed fields and the release's name.
pub open spec fn stripped_tag(tag: TagView) -> TagView {
    TagView {
        custom_texts: match custom_text_of(tag.custom_texts, DISCOGS_RELEASE_TAG@) {
            Some(uri) => seq![(DISCOGS_RELEASE_TAG@, uri)],
            None => Seq::empty(),
        },
        ..tag
    }
}

/// The artists in one line.
fn artists_line(artists: &Vec<DiscogsArtist>) -> (r: String)
    ensures
        r@ == artists_text(artists.deep_view()),
{
    let ghost all = artists.deep_view();
    let mut words: Vec<String> = Vec::new();
    let mut i: usize = 0;
    proof {
        lemma_deep_view_index(*artists);
        lemma_deep_view_empty(words);
        assert(all.take(0) =~= Seq::<ArtistView>::empty());
    }
    while i < artists.len()
        invariant
            i <= artists.len(),
            all == artists.deep_view(),
            all.len() == artists.len(),
            forall|k: int| 0 <= k < artists.len() ==> all[k] == artists[k]@,
            words.deep_view() == artist_words(all.take(i as int)),
        decreases artists.len() - i,
    {
        let artist = &artists[i];
        assert(all.take(i + 1).drop_last() =~= all.take(i as int));
        assert(all.take(i + 1).last() == artist@);
        let ghost before = words;
        let name = artist.name.clone();
        words.push(name);
        let ghost between = words;
        let word = match &artist.join {
            Some(word) => word.clone(),
            None => {
                proof {
                    reveal_strlit("&");
                    assert("&"@ =~= seq!['&']);
                }
                "&".to_owned()
            },
        };
        words.push(word);
        proof {
            lemma_deep_view_push(before, between, name);
            lemma_deep_view_push(between, words, word);
        }
        i += 1;
    }
    assert(all.take(i as int) =~= all);
    proof {
        reveal_strlit(" ");
        assert(" "@ =~= seq![' ']);
    }
    let line = join(&words, " ");
    trim(line.as_str())
}

/// Whether some track of the release names artists of its own.
fn has_track_artists(release: &DiscogsRelease) -> (r: bool)
    ensures
        r == is_compilation(release@),
{
    let ghost tracks = release@.tracks;
    let mut i: usize = 0;
    proof {
        lemma_deep_view_index(release.tracks);
    }
    while i < release.tracks.len()
        invariant
            i <= release.tracks.len(),
            tracks == release.tracks.deep_view(),
            tracks.len() == release.tracks.len(),
            forall|k: int| 0 <= k < release.tracks.len() ==> tracks[k] == release.tracks[k]@,
            forall|k: int| 0 <= k < i ==> (#[trigger] tracks[k]).artists is None,
        decreases release.tracks.len() - i,
    {
        if release.tracks[i].artists.is_some() {
            assert(tracks[i as int].artists is Some);
            return true;
        }
        i += 1;
    }
    false
}

/// The tag for a file that was matched with a track of a release: every
/// field is taken from the catalog, and nothing from the tag that the file
/// had.
pub fn create_tag_from_discogs_data(
    source_tag: &Tag,
    discogs_track: &DiscogsTrack,
    discogs_release: &DiscogsRelease,
) -> (r: Tag)
    ensures
        r@ == created_tag(discogs_track@, discogs_release@),
{
    let mut new_tag = source_tag.clone();
    new_tag.clear();
    new_tag.set_title(Some(discogs_track.title.clone()));
    new_tag.set_album(Some(discogs_release.title.clone()));
    let album_artists = artists_line(&discogs_release.artists);
    let track_artists = match &discogs_track.artists {
        Some(artists) => Some(artists_line(artists)),
        None => None,
    };
    new_tag.set_album_artist(
        Some(
            if has_track_artists(discogs_release) {
                "Various Artists".to_owned()
            } else {
                album_artists.clone()
            },
        ),
    );
    new_tag.set_artist(
        Some(
            match track_artists {
                Some(line) => line,
                None => album_artists,
            },
        ),
    );
    new_tag.set_year(Some(discogs_release.year));
    new_tag.set_track_number(Some(discogs_track.position));
    new_tag.set_total_tracks(
        match discogs_release.disc_to_total_tracks.get(&discogs_track.disc) {
            Some(total) => Some(*total),
            None => None,
        },
    );
    let discs = discogs_release.disc_to_total_tracks.len();
    let total_discs: u32 = if discs > 0xffff_ffff {
        0xffff_ffff
    } else {
        discs as u32
    };
    if total_discs > 1 {
        new_tag.set_disc(Some(discogs_track.disc));
        new_tag.set_total_discs(Some(total_discs));
    }
    let genre = match &discogs_release.styles {
        Some(styles) => {
            proof {
                reveal_strlit("; ");
                assert("; "@ =~= seq![';', ' ']);
            }
            join(styles, "; ")
        },
        None => String::new(),
    };
    new_tag.set_genre(Some(genre));
    new_tag.set_custom_text(DISCOGS_RELEASE_TAG.to_owned(), Some(discogs_release.uri.clone()));
    assert(new_tag@.custom_texts =~= seq![(DISCOGS_RELEASE_TAG@, discogs_release@.uri)]);
    new_tag
}

/// The tag for a file that no release was found for: what its tag holds in
/// the ten fixed fields and under the release's key, and nothing else.
pub fn strip_redundant_fields(tag: &Tag) -> (r: Tag)
    ensures
        r@ == stripped_tag(tag@),
{
    let mut new_tag = tag.clone();
    new_tag.clear();
    new_tag.set_title(clone_text(&tag.title));
    new_tag.set_album(clone_text(&tag.album));
    new_tag.set_album_artist(clone_text(&tag.album_artist));
    new_tag.set_artist(clone_text(&tag.artist));
    new_tag.set_year(tag.year);
    new_tag.set_track_number(tag.track_number);
    new_tag.set_total_tracks(tag.total_tracks);
    new_tag.set_disc(tag.disc);
    new_tag.set_total_discs(tag.total_discs);
    new_tag.set_genre(clone_text(&tag.genre));
    match tag.custom_text(DISCOGS_RELEASE_TAG) {
        Some(uri) => {
            new_tag.set_custom_text(DISCOGS_RELEASE_TAG.to_owned(), Some(uri.to_owned()));
            assert(new_tag@.custom_texts =~= seq![(DISCOGS_RELEASE_TAG@, uri@)]);
        },
        None => {},
    }
    new_tag
}

} // verus!
