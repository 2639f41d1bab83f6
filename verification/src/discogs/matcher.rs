use vstd::prelude::*;
use vstd::string::*;
use crate::discogs::model::refined;
use crate::discogs::model::ModelError;
use crate::music_file::{MusicFile, MusicFileView};
use crate::tag::TagView;
use crate::util::numbers::{all_digits, format_i32, signed_decimal};
use crate::util::path::{parent_of, FilePath};
use crate::util::seqs::{contains_text, distinct, lemma_distinct, lemma_distinct_push};
use crate::util::text::{chars_of, join, joined, string_of_range};
use crate::util::duration::{Duration, NANOS_PER_SECOND};
use crate::util::path::{file_name_of, stem_of, PathExtensions};
use crate::util::string_extensions::{
    score_between,
    similar,
    simplified,
    SimilarityScore,
    StringExtensions,
};
use crate::util::views::{lemma_deep_view_empty, lemma_deep_view_index, lemma_deep_view_push};

verus! {

/// One file of a group with the track of the release that it was paired with.
#[derive(Debug, PartialEq, Eq)]
pub struct DiscogsTrackMatch<'a> {
    pub music_file: &'a MusicFile,
    pub track: refined::DiscogsTrack,
}

/// What matching found for one group of files: the release and a track for
/// each file, or nothing.
#[derive(Debug, PartialEq, Eq)]
pub enum DiscogsReleaseMatchResult<'a> {
    Matched { tracks_matching: Vec<DiscogsTrackMatch<'a>>, release: refined::DiscogsRelease },
    Unmatched(Vec<&'a MusicFile>),
}

/// The model of a [`DiscogsTrackMatch`].
pub struct TrackMatchView {
    pub music_file: MusicFileView,
    pub track: refined::TrackView,
}

/// The model of a [`DiscogsReleaseMatchResult`].
pub enum MatchResultView {
    Matched { tracks_matching: Seq<TrackMatchView>, release: refined::ReleaseView },
    Unmatched(Seq<MusicFileView>),
}

impl<'a> View for DiscogsTrackMatch<'a> {
    type V = TrackMatchView;

    open spec fn view(&self) -> TrackMatchView {
        TrackMatchView { music_file: self.music_file@, track: self.track@ }
    }
}

impl<'a> DeepView for DiscogsTrackMatch<'a> {
    type V = TrackMatchView;

    open spec fn deep_view(&self) -> TrackMatchView {
        self.view()
    }
}

impl<'a> View for DiscogsReleaseMatchResult<'a> {
    type V = MatchResultView;

    open spec fn view(&self) -> MatchResultView {
        match self {
            DiscogsReleaseMatchResult::Matched { tracks_matching, release } => {
                MatchResultView::Matched {
                    tracks_matching: tracks_matching.deep_view(),
                    release: release@,
                }
            },
            DiscogsReleaseMatchResult::Unmatched(files) => MatchResultView::Unmatched(
                files.deep_view(),
            ),
        }
    }
}

impl<'a> DeepView for DiscogsReleaseMatchResult<'a> {
    type V = MatchResultView;

    open spec fn deep_view(&self) -> MatchResultView {
        self.view()
    }
}

/// How far a file's duration may be from a track's for the two to count as
/// the same, in seconds. The catalog's durations are often inexact.
pub const DURATION_DIFF_THRESHOLD_SECONDS: u64 = 90;

/// The title to look a file up by: the title in its tag, or the stem of its
/// name where the tag has none.
pub open spec fn title_of_file(file: MusicFileView) -> Seq<char> {
    match file.tag.title {
        Some(title) => title,
        None => stem_of(file_name_of(file.file_path)),
    }
}

/// Whether a file's track number allows it to be the given track: a file
/// that carries a number can only be the track at that position.
pub open spec fn position_fits(file: MusicFileView, track: refined::TrackView) -> bool {
    match file.tag.track_number {
        Some(number) => number == track.position,
        None => true,
    }
}

/// Whether a file and a track play about as long: both say how long, and the
/// two are less than the threshold apart.
pub open spec fn durations_fit(file: MusicFileView, track: refined::TrackView) -> bool {
    match (file.duration, track.duration) {
        (Some(a), Some(b)) => {
            let apart = if a.nanos <= b.nanos {
                b.nanos - a.nanos
            } else {
                a.nanos - b.nanos
            };
            apart < DURATION_DIFF_THRESHOLD_SECONDS * NANOS_PER_SECOND
        },
        _ => false,
    }
}

/// Whether a track can be the match of a file. For a release that the search
/// found, the title or the duration has to fit and the position may not
/// contradict; for a release that the user named, only the position counts.
pub open spec fn accepts(
    file: MusicFileView,
    track: refined::TrackView,
    simplified_match: bool,
) -> bool {
    if simplified_match {
        position_fits(file, track)
    } else {
        (similar(title_of_file(file), track.title) || durations_fit(file, track))
            && position_fits(file, track)
    }
}

/// How alike a file's title and a track's are.
pub open spec fn title_score(file: MusicFileView, track: refined::TrackView) -> SimilarityScore {
    score_between(simplified(title_of_file(file)), simplified(track.title))
}

/// Whether the track at `at` can still be given to the file: it is not
/// taken, and it can be the file's match.
pub open spec fn eligible(
    file: MusicFileView,
    tracks: Seq<refined::TrackView>,
    taken: Seq<int>,
    at: int,
    simplified_match: bool,
) -> bool {
    0 <= at < tracks.len() && !taken.contains(at) && accepts(file, tracks[at], simplified_match)
}

/// Whether a later track is to be chosen over an earlier one: its title is
/// more like the file's. With a release that the user named, the earlier
/// track always stays.
pub open spec fn preferred(
    file: MusicFileView,
    tracks: Seq<refined::TrackView>,
    later: int,
    earlier: int,
    simplified_match: bool,
) -> bool {
    !simplified_match && title_score(file, tracks[later]).above(title_score(file, tracks[earlier]))
}

/// The track to give to the file among the first `n`: of those that can
/// still be given, the one whose title is most like the file's, and the
/// first of them where several are.
pub open spec fn best_before(
    file: MusicFileView,
    tracks: Seq<refined::TrackView>,
    taken: Seq<int>,
    simplified_match: bool,
    n: int,
) -> Option<int>
    decreases n,
{
    if n <= 0 {
        None
    } else {
        let earlier = best_before(file, tracks, taken, simplified_match, n - 1);
        if eligible(file, tracks, taken, n - 1, simplified_match) && (earlier is None || preferred(
            file,
            tracks,
            n - 1,
            earlier->Some_0,
            simplified_match,
        )) {
            Some(n - 1)
        } else {
            earlier
        }
    }
}

/// For each of the first `n` files the track given to it, the files taken in
/// their order and each given the best track that is left. `None` as soon
/// as nothing is left for a file.
pub open spec fn chosen_tracks(
    files: Seq<MusicFileView>,
    tracks: Seq<refined::TrackView>,
    simplified_match: bool,
    n: int,
) -> Option<Seq<int>>
    decreases n,
{
    if n <= 0 {
        Some(Seq::empty())
    } else {
        match chosen_tracks(files, tracks, simplified_match, n - 1) {
            None => None,
            Some(taken) => match best_before(
                files[n - 1],
                tracks,
                taken,
                simplified_match,
                tracks.len() as int,
            ) {
                None => None,
                Some(at) => Some(taken.push(at)),
            },
        }
    }
}

/// The track for each file of a group, where the release fits the group: it
/// has tracks, as many as the group has files, and each file finds a track
/// that no file before it took.
pub open spec fn matched_tracks(
    tracks: Seq<refined::TrackView>,
    files: Seq<MusicFileView>,
    simplified_match: bool,
) -> Option<Seq<int>> {
    if tracks.len() == 0 || tracks.len() != files.len() {
        None
    } else {
        chosen_tracks(files, tracks, simplified_match, files.len() as int)
    }
}

/// The files of a group, each with the track chosen for it.
pub open spec fn pairing(
    files: Seq<MusicFileView>,
    tracks: Seq<refined::TrackView>,
    chosen: Seq<int>,
) -> Seq<TrackMatchView> {
    Seq::new(
        chosen.len(),
        |i: int| TrackMatchView { music_file: files[i], track: tracks[chosen[i]] },
    )
}

/// What matching a release with a group of files gives.
pub open spec fn release_match(
    tracks: Seq<refined::TrackView>,
    files: Seq<MusicFileView>,
    simplified_match: bool,
) -> Option<Seq<TrackMatchView>> {
    match matched_tracks(tracks, files, simplified_match) {
        Some(chosen) => Some(pairing(files, tracks, chosen)),
        None => None,
    }
}

/// The title to look a file up by.
pub fn track_title_of(music_file: &MusicFile) -> (r: String)
    ensures
        r@ == title_of_file(music_file@),
{
    match music_file.tag.title() {
        Some(title) => title.to_owned(),
        None => music_file.file_path.file_stem_or_empty(),
    }
}

/// Whether a file and a track play about as long.
pub fn duration_matched(music_file: &MusicFile, track: &refined::DiscogsTrack) -> (r: bool)
    ensures
        r == durations_fit(music_file@, track@),
{
    match (music_file.duration, track.duration) {
        (Some(a), Some(b)) => {
            let threshold = Duration::from_secs(DURATION_DIFF_THRESHOLD_SECONDS);
            a.abs_diff(&b).nanos < threshold.nanos
        },
        _ => false,
    }
}

/// Whether a file's track number allows it to be the given track.
pub fn position_matched(music_file: &MusicFile, track: &refined::DiscogsTrack) -> (r: bool)
    ensures
        r == position_fits(music_file@, track@),
{
    match music_file.tag.track_number() {
        Some(number) => number == track.position,
        None => true,
    }
}

/// Whether a track can be the match of a file whose title is `track_title`.
fn track_accepted(
    music_file: &MusicFile,
    track_title: &str,
    track: &refined::DiscogsTrack,
    simplified_match: bool,
) -> (r: bool)
    requires
        track_title@ == title_of_file(music_file@),
    ensures
        r == accepts(music_file@, track@, simplified_match),
{
    if simplified_match {
        position_matched(music_file, track)
    } else {
        (track_title.is_similar(track.title.as_str()) || duration_matched(music_file, track))
            && position_matched(music_file, track)
    }
}

/// The track to give to a file: the best of those that are not taken.
fn find_track(
    music_file: &MusicFile,
    track_list: &Vec<refined::DiscogsTrack>,
    used: &Vec<bool>,
    simplified_match: bool,
    Ghost(taken): Ghost<Seq<int>>,
) -> (r: Option<usize>)
    requires
        used.len() == track_list.len(),
        forall|k: int| 0 <= k < used.len() ==> used[k] == taken.contains(k),
    ensures
        match r {
            Some(at) => at < track_list.len() && best_before(
                music_file@,
                track_list.deep_view(),
                taken,
                simplified_match,
                track_list.len() as int,
            ) == Some(at as int),
            None => best_before(
                music_file@,
                track_list.deep_view(),
                taken,
                simplified_match,
                track_list.len() as int,
            ) is None,
        },
{
    let ghost tracks = track_list.deep_view();
    let track_title = track_title_of(music_file);
    let mut best: Option<(usize, SimilarityScore)> = None;
    let mut k: usize = 0;
    proof {
        lemma_deep_view_index(*track_list);
    }
    while k < track_list.len()
        invariant
            k <= track_list.len(),
            used.len() == track_list.len(),
            forall|j: int| 0 <= j < used.len() ==> used[j] == taken.contains(j),
            tracks == track_list.deep_view(),
            tracks.len() == track_list.len(),
            forall|j: int| 0 <= j < track_list.len() ==> tracks[j] == track_list[j]@,
            track_title@ == title_of_file(music_file@),
            match best {
                Some((at, score)) => at < k && best_before(
                    music_file@,
                    tracks,
                    taken,
                    simplified_match,
                    k as int,
                ) == Some(at as int) && (!simplified_match ==> score == title_score(
                    music_file@,
                    tracks[at as int],
                )),
                None => best_before(music_file@, tracks, taken, simplified_match, k as int)
                    is None,
            },
        decreases track_list.len() - k,
    {
        let track = &track_list[k];
        if !used[k] && track_accepted(music_file, track_title.as_str(), track, simplified_match) {
            assert(eligible(music_file@, tracks, taken, k as int, simplified_match));
            if simplified_match {
                if best.is_none() {
                    best = Some((k, SimilarityScore { distance: 0, length: 0 }));
                }
            } else {
                let score = track_title.as_str().similarity_score(track.title.as_str());
                match best {
                    None => {
                        best = Some((k, score));
                    },
                    Some((_, best_score)) => {
                        if score.is_above(&best_score) {
                            best = Some((k, score));
                        }
                    },
                }
            }
        }
        k += 1;
    }
    match best {
        Some((at, _)) => Some(at),
        None => None,
    }
}

/// Pairs each file of a group with a track of the release. `None` where the
/// release has no tracks, or not as many as the group has files, or where a
/// file finds no track that is left.
pub fn match_release_with_music_files<'a>(
    release: &refined::DiscogsRelease,
    music_files: &Vec<&'a MusicFile>,
    simplified_match: bool,
) -> (r: Option<Vec<DiscogsTrackMatch<'a>>>)
    ensures
        r.deep_view() == release_match(release@.tracks, music_files.deep_view(), simplified_match),
{
    let track_list = &release.tracks;
    let ghost tracks = track_list.deep_view();
    let ghost files = music_files.deep_view();
    if track_list.len() == 0 || track_list.len() != music_files.len() {
        return None;
    }
    let mut used: Vec<bool> = Vec::new();
    let mut n: usize = 0;
    while n < track_list.len()
        invariant
            n <= track_list.len(),
            used.len() == n,
            forall|k: int| 0 <= k < n ==> used[k] == false,
        decreases track_list.len() - n,
    {
        used.push(false);
        n += 1;
    }
    let mut tracks_matching: Vec<DiscogsTrackMatch<'a>> = Vec::new();
    let ghost mut taken: Seq<int> = Seq::empty();
    let mut i: usize = 0;
    proof {
        lemma_deep_view_index(*track_list);
        lemma_deep_view_index(*music_files);
        lemma_deep_view_empty(tracks_matching);
        assert(tracks_matching.deep_view() =~= pairing(files, tracks, taken));
    }
    while i < music_files.len()
        invariant
            i <= music_files.len(),
            track_list.len() == music_files.len(),
            track_list.len() > 0,
            tracks == track_list.deep_view(),
            tracks == release@.tracks,
            files == music_files.deep_view(),
            tracks.len() == track_list.len(),
            files.len() == music_files.len(),
            forall|k: int| 0 <= k < track_list.len() ==> tracks[k] == track_list[k]@,
            forall|k: int| 0 <= k < music_files.len() ==> files[k] == music_files[k]@,
            used.len() == track_list.len(),
            forall|k: int| 0 <= k < used.len() ==> used[k] == taken.contains(k),
            chosen_tracks(files, tracks, simplified_match, i as int) == Some(taken),
            taken.len() == i,
            tracks_matching.deep_view() == pairing(files, tracks, taken),
        decreases music_files.len() - i,
    {
        let music_file = music_files[i];
        let at = match find_track(music_file, track_list, &used, simplified_match, Ghost(taken)) {
            Some(at) => at,
            None => {
                proof {
                    assert(files[i as int] == music_file@);
                    assert(chosen_tracks(files, tracks, simplified_match, i + 1) is None);
                    lemma_no_track_left(files, tracks, simplified_match, i + 1, files.len() as int);
                }
                return None;
            },
        };
        let ghost before = tracks_matching;
        let ghost taken_before = taken;
        let found = DiscogsTrackMatch { music_file, track: track_list[at].clone() };
        tracks_matching.push(found);
        used.set(at, true);
        proof {
            taken = taken.push(at as int);
            lemma_deep_view_push(before, tracks_matching, found);
            assert(tracks_matching.deep_view() =~= pairing(files, tracks, taken));
            assert forall|k: int| 0 <= k < used.len() implies used[k] == taken.contains(k) by {
                if k == at {
                    assert(taken[taken.len() - 1] == k);
                } else if taken_before.contains(k) {
                    let j = choose|j: int| 0 <= j < taken_before.len() && taken_before[j] == k;
                    assert(taken[j] == k);
                } else if taken.contains(k) {
                    let j = choose|j: int| 0 <= j < taken.len() && taken[j] == k;
                    assert(taken_before[j] == k);
                }
            }
        }
        i += 1;
    }
    Some(tracks_matching)
}

/// Once a file finds no track, no longer beginning of the group is matched.
pub proof fn lemma_no_track_left(
    files: Seq<MusicFileView>,
    tracks: Seq<refined::TrackView>,
    simplified_match: bool,
    n: int,
    m: int,
)
    requires
        0 <= n <= m,
        chosen_tracks(files, tracks, simplified_match, n) is None,
    ensures
        chosen_tracks(files, tracks, simplified_match, m) is None,
    decreases m - n,
{
    if n < m {
        lemma_no_track_left(files, tracks, simplified_match, n + 1, m);
    }
}

/// Why matching a group could not go on.
#[derive(Clone, Copy, Debug, PartialEq, Eq, Structural)]
pub enum MatcherError {
    /// What was given as a release's id is neither a number nor a number in
    /// the form `[r...]`.
    InvalidReleaseId,
    /// The catalog sent a release that cannot be read.
    Model(ModelError),
    /// An answer came that the matcher had not asked for.
    UnexpectedEvent,
}

/// The id in a text that names a release: the text itself where it is a
/// number, and the number inside where the text has the form `[r...]`.
pub open spec fn release_id_in(text: Seq<char>) -> Option<Seq<char>> {
    if text.len() >= 4 && text[0] == '[' && text[1] == 'r' && text.last() == ']' && all_digits(
        text.subrange(2, text.len() - 1),
    ) {
        Some(text.subrange(2, text.len() - 1))
    } else if text.len() >= 1 && all_digits(text) {
        Some(text)
    } else {
        None
    }
}

/// Whether the characters of `chars[from..to]` are all digits.
fn digits_only(chars: &Vec<char>, from: usize, to: usize) -> (r: bool)
    requires
        from <= to <= chars.len(),
    ensures
        r == all_digits(chars@.subrange(from as int, to as int)),
{
    let ghost part = chars@.subrange(from as int, to as int);
    let mut i: usize = from;
    while i < to
        invariant
            from <= i <= to <= chars.len(),
            part == chars@.subrange(from as int, to as int),
            forall|k: int| 0 <= k < i - from ==> crate::util::numbers::is_digit(#[trigger] part[k]),
        decreases to - i,
    {
        if !(chars[i] >= '0' && chars[i] <= '9') {
            assert(!crate::util::numbers::is_digit(part[i - from]));
            return false;
        }
        i += 1;
    }
    true
}

/// The id in a text that names a release.
pub fn extract_discogs_id(string: &str) -> (r: Result<String, MatcherError>)
    ensures
        match release_id_in(string@) {
            Some(id) => r is Ok && r->Ok_0@ == id,
            None => r == Err::<String, MatcherError>(MatcherError::InvalidReleaseId),
        },
{
    let chars = chars_of(string);
    let n = chars.len();
    if n >= 4 && chars[0] == '[' && chars[1] == 'r' && chars[n - 1] == ']' && digits_only(
        &chars,
        2,
        n - 1,
    ) {
        Ok(string_of_range(&chars, 2, n - 1))
    } else if n >= 1 && digits_only(&chars, 0, n) {
        assert(chars@.subrange(0, n as int) =~= chars@);
        Ok(string.to_owned())
    } else {
        assert(chars@.subrange(0, n as int) =~= chars@);
        Err(MatcherError::InvalidReleaseId)
    }
}

/// A field of the tags that a search can ask for.
#[derive(Clone, Copy, Debug, PartialEq, Eq, Structural)]
pub enum SearchField {
    Artist,
    Album,
    Year,
}

/// The name that the catalog's search gives to a field.
pub open spec fn search_key(field: SearchField) -> Seq<char> {
    match field {
        SearchField::Artist => "artist"@,
        SearchField::Album => "release_title"@,
        SearchField::Year => "year"@,
    }
}

/// What a tag has to say for a search: its artist or its album made simple,
/// or its year in digits.
pub open spec fn search_value(tag: TagView, field: SearchField) -> Option<Seq<char>> {
    match field {
        SearchField::Artist => match tag.artist {
            Some(v) => Some(simplified(v)),
            None => None,
        },
        SearchField::Album => match tag.album {
            Some(v) => Some(simplified(v)),
            None => None,
        },
        SearchField::Year => match tag.year {
            Some(v) => Some(signed_decimal(v as int)),
            None => None,
        },
    }
}

/// What the files' tags have to say for a search, file by file.
pub open spec fn search_values(files: Seq<MusicFileView>, field: SearchField) -> Seq<Seq<char>>
    decreases files.len(),
{
    if files.len() == 0 {
        Seq::empty()
    } else {
        match search_value(files.last().tag, field) {
            Some(v) => search_values(files.drop_last(), field).push(v),
            None => search_values(files.drop_last(), field),
        }
    }
}

/// One parameter of a search: the field's name, and the values that the
/// files have for it, each once, with spaces between them.
pub open spec fn search_parameter(files: Seq<MusicFileView>, field: SearchField) -> (
    Seq<char>,
    Seq<char>,
) {
    (search_key(field), joined(distinct(search_values(files, field)), seq![' ']))
}

/// The sets of parameters to search the catalog with for a group of files,
/// the most telling first: the album with the year, the album, then both
/// with the artist, and the artist alone at last.
pub open spec fn search_parameter_sets(files: Seq<MusicFileView>) -> Seq<
    Seq<(Seq<char>, Seq<char>)>,
> {
    let artist = search_parameter(files, SearchField::Artist);
    let album = search_parameter(files, SearchField::Album);
    let year = search_parameter(files, SearchField::Year);
    seq![
        seq![album, year],
        seq![album],
        seq![artist, album, year],
        seq![artist, album],
        seq![artist],
    ]
}

/// The parameter of a search for one field of the files' tags.
fn search_param(music_files: &Vec<&MusicFile>, field: SearchField) -> (r: (&'static str, String))
    ensures
        r.deep_view() == search_parameter(music_files.deep_view(), field),
{
    let ghost files = music_files.deep_view();
    let mut values: Vec<String> = Vec::new();
    let mut i: usize = 0;
    proof {
        lemma_deep_view_index(*music_files);
        lemma_deep_view_empty(values);
        assert(files.take(0) =~= Seq::<MusicFileView>::empty());
    }
    while i < music_files.len()
        invariant
            i <= music_files.len(),
            files == music_files.deep_view(),
            files.len() == music_files.len(),
            forall|k: int| 0 <= k < music_files.len() ==> files[k] == music_files[k]@,
            values.deep_view() == distinct(search_values(files.take(i as int), field)),
        decreases music_files.len() - i,
    {
        let tag = &music_files[i].tag;
        let value: Option<String> = match field {
            SearchField::Artist => match tag.artist() {
                Some(v) => Some(v.simplify()),
                None => None,
            },
            SearchField::Album => match tag.album() {
                Some(v) => Some(v.simplify()),
                None => None,
            },
            SearchField::Year => match tag.year() {
                Some(v) => Some(format_i32(v)),
                None => None,
            },
        };
        proof {
            assert(files.take(i + 1).drop_last() =~= files.take(i as int));
            assert(files.take(i + 1).last() == music_files[i as int]@);
        }
        match value {
            Some(value) => {
                proof {
                    lemma_distinct_push(search_values(files.take(i as int), field), value@);
                }
                if !contains_text(&values, value.as_str()) {
                    let ghost before = values;
                    values.push(value);
                    proof {
                        lemma_deep_view_push(before, values, value);
                    }
                }
            },
            None => {},
        }
        i += 1;
    }
    assert(files.take(i as int) =~= files);
    let key: &'static str = match field {
        SearchField::Artist => "artist",
        SearchField::Album => "release_title",
        SearchField::Year => "year",
    };
    proof {
        reveal_strlit(" ");
        assert(" "@ =~= seq![' ']);
    }
    (key, join(&values, " "))
}

/// A copy of a search's parameter.
fn clone_param(param: &(&'static str, String)) -> (r: (&'static str, String))
    ensures
        r.deep_view() == param.deep_view(),
{
    (param.0, param.1.clone())
}

/// The sets of parameters to search the catalog with for a group of files.
pub fn common_search_params_from_music_files(music_files: &Vec<&MusicFile>) -> (r: Vec<
    Vec<(&'static str, String)>,
>)
    ensures
        r.deep_view() == search_parameter_sets(music_files.deep_view()),
{
    let artist = search_param(music_files, SearchField::Artist);
    let album = search_param(music_files, SearchField::Album);
    let year = search_param(music_files, SearchField::Year);
    let first = vec![clone_param(&album), clone_param(&year)];
    let second = vec![clone_param(&album)];
    let third = vec![clone_param(&artist), clone_param(&album), clone_param(&year)];
    let fourth = vec![clone_param(&artist), clone_param(&album)];
    let fifth = vec![artist];
    proof {
        lemma_deep_view_index(first);
        lemma_deep_view_index(second);
        lemma_deep_view_index(third);
        lemma_deep_view_index(fourth);
        lemma_deep_view_index(fifth);
        assert(first.deep_view() =~= seq![album.deep_view(), year.deep_view()]);
        assert(second.deep_view() =~= seq![album.deep_view()]);
        assert(third.deep_view() =~= seq![
            artist.deep_view(),
            album.deep_view(),
            year.deep_view(),
        ]);
        assert(fourth.deep_view() =~= seq![artist.deep_view(), album.deep_view()]);
        assert(fifth.deep_view() =~= seq![artist.deep_view()]);
    }
    let r = vec![first, second, third, fourth, fifth];
    proof {
        lemma_deep_view_index(r);
        assert(r.deep_view() =~= search_parameter_sets(music_files.deep_view()));
    }
    r
}

/// The folder that holds a file.
pub open spec fn folder_of(file: MusicFileView) -> Seq<Seq<char>> {
    parent_of(file.file_path)
}

/// The folders that hold the files, in the order in which the files come to
/// them first.
pub open spec fn folders_of(files: Seq<MusicFileView>) -> Seq<Seq<Seq<char>>> {
    distinct(files.map_values(|file: MusicFileView| folder_of(file)))
}

/// The files that lie in the given folder, in their order.
pub open spec fn files_in(files: Seq<MusicFileView>, folder: Seq<Seq<char>>) -> Seq<
    MusicFileView,
> {
    files.filter(|file: MusicFileView| folder_of(file) == folder)
}

/// The files in groups: one group for each folder, the folders in the order
/// in which the files come to them first, each group holding the files of
/// its folder in their order.
pub open spec fn grouped_by_folder(files: Seq<MusicFileView>) -> Seq<Seq<MusicFileView>> {
    folders_of(files).map_values(|folder: Seq<Seq<char>>| files_in(files, folder))
}

/// No file lies in a folder that holds none of the files.
pub proof fn lemma_files_in_unknown_folder(files: Seq<MusicFileView>, folder: Seq<Seq<char>>)
    requires
        !folders_of(files).contains(folder),
    ensures
        files_in(files, folder) == Seq::<MusicFileView>::empty(),
{
    let pred = |file: MusicFileView| folder_of(file) == folder;
    let found = files.filter(pred);
    if found.len() > 0 {
        files.lemma_filter_pred(pred, 0);
        let file = found[0];
        assert(found.contains(file));
        files.lemma_filter_contains_rev(pred, file);
        assert(files.contains(file));
        let i = choose|i: int| 0 <= i < files.len() && files[i] == file;
        let all = files.map_values(|file: MusicFileView| folder_of(file));
        assert(all[i] == folder);
        assert(all.contains(folder));
        lemma_distinct(all);
    }
    assert(found =~= Seq::<MusicFileView>::empty());
}

/// Where `folder` stands among `folders`, if it does.
fn find_folder(folders: &Vec<FilePath>, folder: &FilePath) -> (r: Option<usize>)
    ensures
        match r {
            Some(at) => at < folders.len() && folders.deep_view()[at as int] == folder@,
            None => !folders.deep_view().contains(folder@),
        },
{
    let mut i: usize = 0;
    proof {
        lemma_deep_view_index(*folders);
    }
    while i < folders.len()
        invariant
            i <= folders.len(),
            folders.deep_view().len() == folders.len(),
            forall|k: int| 0 <= k < folders.len() ==> folders.deep_view()[k] == folders[k]@,
            forall|k: int| 0 <= k < i ==> folders.deep_view()[k] != folder@,
        decreases folders.len() - i,
    {
        if folders[i].same_as(folder) {
            return Some(i);
        }
        i += 1;
    }
    None
}

/// Puts the files in groups, one for each folder that holds some of them.
pub fn group_by_folder<'a>(music_files: &Vec<&'a MusicFile>) -> (r: Vec<Vec<&'a MusicFile>>)
    ensures
        r.deep_view() == grouped_by_folder(music_files.deep_view()),
{
    let ghost files = music_files.deep_view();
    let mut folders: Vec<FilePath> = Vec::new();
    let mut groups: Vec<Vec<&'a MusicFile>> = Vec::new();
    let mut i: usize = 0;
    proof {
        lemma_deep_view_index(*music_files);
        lemma_deep_view_empty(folders);
        lemma_deep_view_empty(groups);
        assert(files.take(0) =~= Seq::<MusicFileView>::empty());
        assert(files.take(0).map_values(|file: MusicFileView| folder_of(file)) =~= Seq::<
            Seq<Seq<char>>,
        >::empty());
        assert(groups.deep_view() =~= grouped_by_folder(files.take(0)));
    }
    while i < music_files.len()
        invariant
            i <= music_files.len(),
            files == music_files.deep_view(),
            files.len() == music_files.len(),
            forall|k: int| 0 <= k < music_files.len() ==> files[k] == music_files[k]@,
            folders.deep_view() == folders_of(files.take(i as int)),
            groups.deep_view() == grouped_by_folder(files.take(i as int)),
        decreases music_files.len() - i,
    {
        let music_file = music_files[i];
        let folder = music_file.file_path.parent_or_empty();
        let ghost before = files.take(i as int);
        let ghost after = files.take(i + 1);
        let ghost pick = |file: MusicFileView| folder_of(file);
        let ghost old_groups = groups.deep_view();
        proof {
            assert(after =~= before.push(music_file@));
            assert(after.map_values(pick) =~= before.map_values(pick).push(folder@));
            lemma_distinct_push(before.map_values(pick), folder@);
            lemma_deep_view_index(groups);
            lemma_deep_view_index(folders);
            assert forall|p: Seq<Seq<char>>| #[trigger]
                files_in(after, p) == if p == folder@ {
                    files_in(before, p).push(music_file@)
                } else {
                    files_in(before, p)
                } by {
                before.lemma_filter_push(music_file@, |file: MusicFileView| folder_of(file) == p);
            }
        }
        match find_folder(&folders, &folder) {
            Some(at) => {
                let mut group = groups.remove(at);
                let ghost group_before = group;
                group.push(music_file);
                proof {
                    lemma_deep_view_push(group_before, group, music_file);
                }
                groups.insert(at, group);
                proof {
                    lemma_deep_view_index(groups);
                    lemma_distinct(before.map_values(pick));
                    assert(groups.deep_view() =~= grouped_by_folder(after)) by {
                        assert forall|g: int| 0 <= g < groups.len() implies groups.deep_view()[g]
                            == grouped_by_folder(after)[g] by {
                            if g == at {
                                assert(old_groups[g] == files_in(before, folders_of(before)[g]));
                            } else {
                                assert(old_groups[g] == files_in(before, folders_of(before)[g]));
                                assert(folders_of(before)[g] != folder@);
                            }
                        }
                    }
                }
            },
            None => {
                let ghost folders_before = folders;
                let ghost groups_before = groups;
                let group = vec![music_file];
                folders.push(folder);
                groups.push(group);
                proof {
                    lemma_deep_view_push(folders_before, folders, folder);
                    lemma_deep_view_push(groups_before, groups, group);
                    lemma_deep_view_index(group);
                    lemma_files_in_unknown_folder(before, folder@);
                    assert(group.deep_view() =~= files_in(after, folder@));
                    assert(groups.deep_view() =~= grouped_by_folder(after)) by {
                        assert forall|g: int| 0 <= g < groups.len() implies groups.deep_view()[g]
                            == grouped_by_folder(after)[g] by {
                            if g < old_groups.len() {
                                assert(old_groups[g] == files_in(before, folders_of(before)[g]));
                                assert(folders_of(before).contains(folders_of(before)[g]));
                            }
                        }
                    }
                }
            },
        }
        i += 1;
    }
    assert(files.take(i as int) =~= files);
    groups
}

/// The track that is best for a file is one that can be given to it.
pub proof fn lemma_best_is_eligible(
    file: MusicFileView,
    tracks: Seq<refined::TrackView>,
    taken: Seq<int>,
    simplified_match: bool,
    n: int,
)
    requires
        n <= tracks.len(),
    ensures
        best_before(file, tracks, taken, simplified_match, n) matches Some(at) ==> at < n
            && eligible(file, tracks, taken, at, simplified_match),
    decreases n,
{
    if n > 0 {
        lemma_best_is_eligible(file, tracks, taken, simplified_match, n - 1);
    }
}

/// The tracks chosen for the first `n` files are tracks of the release, one
/// for each file, each fit for its file, and none chosen twice.
pub proof fn lemma_chosen_tracks(
    files: Seq<MusicFileView>,
    tracks: Seq<refined::TrackView>,
    simplified_match: bool,
    n: int,
)
    requires
        0 <= n <= files.len(),
        chosen_tracks(files, tracks, simplified_match, n) is Some,
    ensures
        ({
            let chosen = chosen_tracks(files, tracks, simplified_match, n)->Some_0;
            &&& chosen.len() == n
            &&& forall|i: int|
                0 <= i < n ==> 0 <= #[trigger] chosen[i] < tracks.len() && accepts(
                    files[i],
                    tracks[chosen[i]],
                    simplified_match,
                )
            &&& forall|i: int, j: int| 0 <= i < j < n ==> chosen[i] != chosen[j]
        }),
    decreases n,
{
    if n > 0 {
        lemma_chosen_tracks(files, tracks, simplified_match, n - 1);
        let taken = chosen_tracks(files, tracks, simplified_match, n - 1)->Some_0;
        lemma_best_is_eligible(files[n - 1], tracks, taken, simplified_match, tracks.len() as int);
        let chosen = chosen_tracks(files, tracks, simplified_match, n)->Some_0;
        let at = chosen[n - 1];
        assert forall|i: int, j: int| 0 <= i < j < n implies chosen[i] != chosen[j] by {
            if j == n - 1 {
                assert(taken[i] == chosen[i]);
                assert(!taken.contains(at));
            } else {
                assert(taken[i] == chosen[i] && taken[j] == chosen[j]);
            }
        }
        assert forall|i: int| 0 <= i < n implies 0 <= #[trigger] chosen[i] < tracks.len()
            && accepts(files[i], tracks[chosen[i]], simplified_match) by {
            if i < n - 1 {
                assert(taken[i] == chosen[i]);
            }
        }
    }
}

/// Where a release is matched with a group, every file of the group is
/// paired exactly once: there are as many pairs as files, the pairs hold the
/// files in their order, each with a track of the release that is fit for
/// it, and no track is paired twice.
pub proof fn matched_group_is_paired_once(
    tracks: Seq<refined::TrackView>,
    files: Seq<MusicFileView>,
    simplified_match: bool,
)
    requires
        release_match(tracks, files, simplified_match) is Some,
    ensures
        ({
            let chosen = matched_tracks(tracks, files, simplified_match)->Some_0;
            let pairs = release_match(tracks, files, simplified_match)->Some_0;
            &&& pairs.len() == files.len()
            &&& tracks.len() == files.len()
            &&& chosen.len() == files.len()
            &&& forall|i: int| 0 <= i < files.len() ==> (#[trigger] pairs[i]).music_file == files[i]
            &&& forall|i: int|
                0 <= i < files.len() ==> 0 <= #[trigger] chosen[i] < tracks.len() && pairs[i].track
                    == tracks[chosen[i]] && accepts(
                    files[i],
                    tracks[chosen[i]],
                    simplified_match,
                )
            &&& forall|i: int, j: int| 0 <= i < j < files.len() ==> chosen[i] != chosen[j]
        }),
{
    lemma_chosen_tracks(files, tracks, simplified_match, files.len() as int);
}

/// A release with another number of tracks than the group has files is
/// never matched with the group, whatever its tracks are.
pub proof fn other_track_count_is_no_match(
    tracks: Seq<refined::TrackView>,
    files: Seq<MusicFileView>,
    simplified_match: bool,
)
    requires
        tracks.len() != files.len(),
    ensures
        release_match(tracks, files, simplified_match) is None,
{
}

/// A score that is above a score that another is not above, is above that
/// other score.
pub proof fn lemma_above_goes_on(k: SimilarityScore, e: SimilarityScore, j: SimilarityScore)
    requires
        k.above(e),
        !j.above(e),
    ensures
        k.above(j),
{
    let (k0, k1) = (k.lost().0 as int, k.lost().1 as int);
    let (e0, e1) = (e.lost().0 as int, e.lost().1 as int);
    let (j0, j1) = (j.lost().0 as int, j.lost().1 as int);
    assert(k0 * j1 < j0 * k1) by (nonlinear_arith)
        requires
            k0 * e1 < e0 * k1,
            j0 * e1 >= e0 * j1,
            k0 >= 0,
            e0 >= 0,
            j0 >= 0,
            k1 > 0,
            e1 > 0,
            j1 > 0,
    {
        assert(k0 * e1 * j1 < e0 * k1 * j1);
        assert(e0 * j1 * k1 <= j0 * e1 * k1);
        assert((k0 * j1) * e1 < (j0 * k1) * e1);
    }
}

/// Where no track is found for a file, none could be given to it.
pub proof fn lemma_none_is_eligible(
    file: MusicFileView,
    tracks: Seq<refined::TrackView>,
    taken: Seq<int>,
    simplified_match: bool,
    n: int,
    j: int,
)
    requires
        best_before(file, tracks, taken, simplified_match, n) is None,
        0 <= j < n,
    ensures
        !eligible(file, tracks, taken, j, simplified_match),
    decreases n,
{
    if j < n - 1 {
        lemma_none_is_eligible(file, tracks, taken, simplified_match, n - 1, j);
    }
}

/// The track that is given to a file is the best that could be given: no
/// track that is left and fit for the file has a title more like the file's,
/// and those before it in the list have titles less like it. With a release
/// that the user named, it is the first track that is left and fit.
pub proof fn given_track_is_the_best(
    file: MusicFileView,
    tracks: Seq<refined::TrackView>,
    taken: Seq<int>,
    simplified_match: bool,
    n: int,
    j: int,
)
    requires
        best_before(file, tracks, taken, simplified_match, n) is Some,
        0 <= j < n,
        eligible(file, tracks, taken, j, simplified_match),
    ensures
        ({
            let given = best_before(file, tracks, taken, simplified_match, n)->Some_0;
            if simplified_match {
                given <= j
            } else {
                &&& !title_score(file, tracks[j]).above(title_score(file, tracks[given]))
                &&& j < given ==> title_score(file, tracks[given]).above(
                    title_score(file, tracks[j]),
                )
            }
        }),
    decreases n,
{
    let given = best_before(file, tracks, taken, simplified_match, n)->Some_0;
    let earlier = best_before(file, tracks, taken, simplified_match, n - 1);
    lemma_best_is_eligible_within(file, tracks, taken, simplified_match, n - 1);
    if j < n - 1 {
        match earlier {
            None => {
                lemma_none_is_eligible(file, tracks, taken, simplified_match, n - 1, j);
            },
            Some(e) => {
                given_track_is_the_best(file, tracks, taken, simplified_match, n - 1, j);
                if given == n - 1 && !simplified_match {
                    lemma_above_goes_on(
                        title_score(file, tracks[given]),
                        title_score(file, tracks[e]),
                        title_score(file, tracks[j]),
                    );
                    lemma_above_is_strict(
                        title_score(file, tracks[given]),
                        title_score(file, tracks[j]),
                    );
                }
            },
        }
    } else {
        lemma_above_is_strict_against_itself(title_score(file, tracks[j]));
    }
}

/// The track that is best among the first `n` is one of them.
pub proof fn lemma_best_is_eligible_within(
    file: MusicFileView,
    tracks: Seq<refined::TrackView>,
    taken: Seq<int>,
    simplified_match: bool,
    n: int,
)
    ensures
        best_before(file, tracks, taken, simplified_match, n) matches Some(at) ==> 0 <= at < n,
    decreases n,
{
    if n > 0 {
        lemma_best_is_eligible_within(file, tracks, taken, simplified_match, n - 1);
    }
}

/// Of two scores, one at most is above the other.
pub proof fn lemma_above_is_strict(a: SimilarityScore, b: SimilarityScore)
    requires
        a.above(b),
    ensures
        !b.above(a),
{
}

/// No score is above itself.
pub proof fn lemma_above_is_strict_against_itself(a: SimilarityScore)
    ensures
        !a.above(a),
{
}

} // verus!
