use vstd::prelude::*;
use vstd::string::*;
use crate::discogs::create_tag::{
    create_tag_from_discogs_data,
    created_tag,
    strip_redundant_fields,
    stripped_tag,
};
use crate::discogs::matcher::{DiscogsReleaseMatchResult, MatchResultView};
use crate::discogs::model::refined::{DiscogsRelease, DiscogsTrack, ReleaseView, TrackView};
use crate::music_file::{
    music_file_name_for,
    music_file_name_of,
    relative_path_for,
    relative_path_of,
    MusicFile,
    MusicFileView,
    NameError,
};
use crate::tag::{Tag, TagView};
use crate::util::path::{
    extension_of,
    extension_of_name,
    file_name_of,
    parent_of,
    with_name,
    FilePath,
    PathExtensions,
};
use crate::organizer::{allows, AllowedChangeType};
use crate::util::seqs::{distinct, lemma_distinct, lemma_distinct_push};
use crate::util::text::{chars_of, split, split_on, text_eq};
use crate::util::views::{
    lemma_deep_view_empty,
    lemma_deep_view_index,
    lemma_deep_view_insert,
    lemma_deep_view_push,
    result_view,
};

verus! {

/// Everything that is planned for a set of files, to be looked over and
/// then carried out: the music files to write, the covers to download, and
/// what to remove.
#[derive(Debug, PartialEq, Eq)]
pub struct ChangeList<'a> {
    pub music_files: Vec<MusicFileChange<'a>>,
    pub covers: Vec<CoverChange>,
    pub cleanups: Vec<Cleanup>,
}

/// One music file to write: from which file, to which path and with which
/// tag.
#[derive(Debug, PartialEq, Eq)]
pub struct MusicFileChange<'a> {
    pub source: &'a MusicFile,
    pub target: MusicFile,
    pub is_transcode: bool,
    pub source_file_length: u64,
    pub discogs_release: Option<&'a DiscogsRelease>,
}

/// One cover to download: from where, and to which path.
#[derive(Debug, PartialEq, Eq)]
pub struct CoverChange {
    pub path: FilePath,
    pub uri: String,
}

/// One file or folder to remove.
#[derive(Debug, PartialEq, Eq)]
pub struct Cleanup {
    pub path: FilePath,
}

/// The model of a [`MusicFileChange`].
pub struct MusicFileChangeView {
    pub source: MusicFileView,
    pub target: MusicFileView,
    pub is_transcode: bool,
    pub source_file_length: u64,
    pub discogs_release: Option<ReleaseView>,
}

/// The model of a [`CoverChange`].
pub struct CoverChangeView {
    pub path: Seq<Seq<char>>,
    pub uri: Seq<char>,
}

/// The model of a [`ChangeList`].
pub struct ChangeListView {
    pub music_files: Seq<MusicFileChangeView>,
    pub covers: Seq<CoverChangeView>,
    pub cleanups: Seq<Seq<Seq<char>>>,
}

impl<'a> View for MusicFileChange<'a> {
    type V = MusicFileChangeView;

    open spec fn view(&self) -> MusicFileChangeView {
        MusicFileChangeView {
            source: self.source@,
            target: self.target@,
            is_transcode: self.is_transcode,
            source_file_length: self.source_file_length,
            discogs_release: self.discogs_release.deep_view(),
        }
    }
}

impl<'a> DeepView for MusicFileChange<'a> {
    type V = MusicFileChangeView;

    open spec fn deep_view(&self) -> MusicFileChangeView {
        self.view()
    }
}

impl View for CoverChange {
    type V = CoverChangeView;

    open spec fn view(&self) -> CoverChangeView {
        CoverChangeView { path: self.path@, uri: self.uri@ }
    }
}

impl DeepView for CoverChange {
    type V = CoverChangeView;

    open spec fn deep_view(&self) -> CoverChangeView {
        self.view()
    }
}

impl View for Cleanup {
    type V = Seq<Seq<char>>;

    open spec fn view(&self) -> Seq<Seq<char>> {
        self.path@
    }
}

impl DeepView for Cleanup {
    type V = Seq<Seq<char>>;

    open spec fn deep_view(&self) -> Seq<Seq<char>> {
        self.view()
    }
}

impl<'a> View for ChangeList<'a> {
    type V = ChangeListView;

    open spec fn view(&self) -> ChangeListView {
        ChangeListView {
            music_files: self.music_files.deep_view(),
            covers: self.covers.deep_view(),
            cleanups: self.cleanups.deep_view(),
        }
    }
}

impl<'a> DeepView for ChangeList<'a> {
    type V = ChangeListView;

    open spec fn deep_view(&self) -> ChangeListView {
        self.view()
    }
}

impl Clone for CoverChange {
    fn clone(&self) -> (r: Self)
        ensures
            r@ == self@,
    {
        CoverChange { path: self.path.clone(), uri: self.uri.clone() }
    }
}

impl Clone for Cleanup {
    fn clone(&self) -> (r: Self)
        ensures
            r@ == self@,
    {
        Cleanup { path: self.path.clone() }
    }
}

impl<'a> Clone for MusicFileChange<'a> {
    fn clone(&self) -> (r: Self)
        ensures
            r@ == self@,
    {
        MusicFileChange {
            source: self.source,
            target: self.target.clone(),
            is_transcode: self.is_transcode,
            source_file_length: self.source_file_length,
            discogs_release: self.discogs_release,
        }
    }
}

impl CoverChange {
    /// Whether two covers are the same download to the same path.
    pub fn same_as(&self, other: &CoverChange) -> (r: bool)
        ensures
            r == (self@ == other@),
    {
        self.path.same_as(&other.path) && text_eq(self.uri.as_str(), other.uri.as_str())
    }
}

impl Cleanup {
    /// Whether two cleanups remove the same path.
    pub fn same_as(&self, other: &Cleanup) -> (r: bool)
        ensures
            r == (self@ == other@),
    {
        self.path.same_as(&other.path)
    }
}

/// Why a plan could not be made.
#[derive(Clone, Copy, Debug, PartialEq, Eq, Structural)]
pub enum ChangeError {
    /// A tag lacks a field that the file's path is formed from.
    Name(NameError),
    /// There are not as many lengths as there are source files.
    LengthsDoNotFit,
    /// The address of a cover is no URL.
    InvalidCoverUrl,
}

/// One file that a plan is made for, with the track and the release that it
/// was matched with, if it was.
pub struct MatchItemView {
    pub music_file: MusicFileView,
    pub discogs_info: Option<(TrackView, ReleaseView)>,
}

/// The files of one result, each with what it was matched with.
pub open spec fn items_of(result: MatchResultView) -> Seq<MatchItemView> {
    match result {
        MatchResultView::Matched { tracks_matching, release } => tracks_matching.map_values(
            |m: crate::discogs::matcher::TrackMatchView|
                MatchItemView { music_file: m.music_file, discogs_info: Some((m.track, release)) },
        ),
        MatchResultView::Unmatched(files) => files.map_values(
            |file: MusicFileView| MatchItemView { music_file: file, discogs_info: None },
        ),
    }
}

/// The files of all results in one row.
pub open spec fn match_items(results: Seq<MatchResultView>) -> Seq<MatchItemView>
    decreases results.len(),
{
    if results.len() == 0 {
        Seq::empty()
    } else {
        match_items(results.drop_last()) + items_of(results.last())
    }
}

/// The extension that a file is written with: `m4a` for a `flac` file,
/// which is transcoded, and the file's own otherwise.
pub open spec fn target_extension_of(source_extension: Seq<char>) -> Seq<char> {
    if source_extension == "flac"@ {
        "m4a"@
    } else {
        source_extension
    }
}

/// The tag that a file is written with: made from the catalog's data where
/// the file was matched, and its own tag stripped otherwise.
pub open spec fn target_tag_of(item: MatchItemView) -> TagView {
    match item.discogs_info {
        Some((track, release)) => created_tag(track, release),
        None => stripped_tag(item.music_file.tag),
    }
}

/// The path that a file with the given tag is written to: below the output
/// folder where there is one, else in the folder of `source_path`.
pub open spec fn target_path_of(
    tag: TagView,
    extension: Seq<char>,
    source_path: Seq<Seq<char>>,
    output_path: Option<Seq<Seq<char>>>,
    windows: bool,
) -> Result<Seq<Seq<char>>, NameError> {
    match output_path {
        Some(output) => match relative_path_of(tag, extension, windows) {
            Ok(relative) => Ok(output + relative),
            Err(e) => Err(e),
        },
        None => match music_file_name_of(tag, extension, windows) {
            Ok(name) => Ok(with_name(parent_of(source_path), name)),
            Err(e) => Err(e),
        },
    }
}

/// What is planned for one file.
pub open spec fn planned_change(
    item: MatchItemView,
    source_file_length: u64,
    output_path: Option<Seq<Seq<char>>>,
    windows: bool,
) -> Result<MusicFileChangeView, ChangeError> {
    let source_extension = extension_of(file_name_of(item.music_file.file_path));
    let target_extension = target_extension_of(source_extension);
    let target_tag = target_tag_of(item);
    match target_path_of(
        target_tag,
        target_extension,
        item.music_file.file_path,
        output_path,
        windows,
    ) {
        Err(e) => Err(ChangeError::Name(e)),
        Ok(file_path) => Ok(
            MusicFileChangeView {
                source: item.music_file,
                target: MusicFileView {
                    file_path,
                    tag: target_tag,
                    duration: item.music_file.duration,
                },
                is_transcode: source_extension != target_extension,
                source_file_length,
                discogs_release: match item.discogs_info {
                    Some((_, release)) => Some(release),
                    None => None,
                },
            },
        ),
    }
}

/// Whether one text comes before another in the order of a dictionary that
/// goes by the characters' numbers.
pub open spec fn text_precedes(a: Seq<char>, b: Seq<char>) -> bool
    decreases a.len(),
{
    if b.len() == 0 {
        false
    } else if a.len() == 0 {
        true
    } else if a[0] != b[0] {
        (a[0] as u32) < (b[0] as u32)
    } else {
        text_precedes(a.drop_first(), b.drop_first())
    }
}

/// The album that a change is listed under: that of its target's tag, and
/// the empty one where the tag names none.
pub open spec fn album_key(change: MusicFileChangeView) -> Seq<char> {
    match change.target.tag.album {
        Some(album) => album,
        None => Seq::empty(),
    }
}

/// The year that a change is listed under: that of its target's tag, and
/// the least of all years where the tag names none.
pub open spec fn year_key(change: MusicFileChangeView) -> int {
    match change.target.tag.year {
        Some(year) => year as int,
        None => i32::MIN as int,
    }
}

/// The track that a change is listed under: that of its target's tag, and
/// one before all tracks where the tag names none.
pub open spec fn track_key(change: MusicFileChangeView) -> int {
    match change.target.tag.track_number {
        Some(track) => track as int,
        None => -1,
    }
}

/// Whether a change is listed before another: by album, then by year, then
/// by track.
pub open spec fn change_precedes(a: MusicFileChangeView, b: MusicFileChangeView) -> bool {
    if album_key(a) != album_key(b) {
        text_precedes(album_key(a), album_key(b))
    } else if year_key(a) != year_key(b) {
        year_key(a) < year_key(b)
    } else {
        track_key(a) < track_key(b)
    }
}

/// Where a change goes into a list that is in order: behind every change
/// that it does not precede.
pub open spec fn insertion_point(sorted: Seq<MusicFileChangeView>, change: MusicFileChangeView) -> int
    decreases sorted.len(),
{
    if sorted.len() == 0 {
        0
    } else if change_precedes(change, sorted[0]) {
        0
    } else {
        1 + insertion_point(sorted.drop_first(), change)
    }
}

/// The changes in order: each one put, in its turn, behind every change
/// already there that it does not precede. Changes that are listed under
/// the same album, year and track keep the order they came in.
pub open spec fn in_listing_order(changes: Seq<MusicFileChangeView>) -> Seq<MusicFileChangeView>
    decreases changes.len(),
{
    if changes.len() == 0 {
        changes
    } else {
        let sorted = in_listing_order(changes.drop_last());
        sorted.insert(insertion_point(sorted, changes.last()), changes.last())
    }
}

/// What is planned for each file, the files in the order of `items`: the
/// first error where a plan cannot be made for a file.
pub open spec fn planned_changes(
    items: Seq<MatchItemView>,
    lengths: Seq<u64>,
    output_path: Option<Seq<Seq<char>>>,
    windows: bool,
) -> Result<Seq<MusicFileChangeView>, ChangeError>
    decreases items.len(),
{
    if items.len() == 0 {
        Ok(Seq::empty())
    } else {
        match planned_changes(items.drop_last(), lengths, output_path, windows) {
            Err(e) => Err(e),
            Ok(before) => match planned_change(
                items.last(),
                lengths[items.len() - 1],
                output_path,
                windows,
            ) {
                Err(e) => Err(e),
                Ok(change) => Ok(before.push(change)),
            },
        }
    }
}

/// The music files to write for the given results, in listing order.
pub open spec fn file_changes(
    results: Seq<MatchResultView>,
    lengths: Seq<u64>,
    output_path: Option<Seq<Seq<char>>>,
    windows: bool,
) -> Result<Seq<MusicFileChangeView>, ChangeError> {
    let items = match_items(results);
    if lengths.len() != items.len() {
        Err(ChangeError::LengthsDoNotFit)
    } else {
        match planned_changes(items, lengths, output_path, windows) {
            Err(e) => Err(e),
            Ok(changes) => Ok(in_listing_order(changes)),
        }
    }
}

/// Where a change goes, every change before it is one that it does not
/// precede, and the change at that place is one that it precedes.
pub proof fn lemma_insertion_point(sorted: Seq<MusicFileChangeView>, change: MusicFileChangeView)
    ensures
        0 <= insertion_point(sorted, change) <= sorted.len(),
        insertion_point(sorted, change) < sorted.len() ==> change_precedes(
            change,
            sorted[insertion_point(sorted, change)],
        ),
        forall|k: int|
            0 <= k < insertion_point(sorted, change) ==> !change_precedes(change, sorted[k]),
    decreases sorted.len(),
{
    if sorted.len() > 0 && !change_precedes(change, sorted[0]) {
        lemma_insertion_point(sorted.drop_first(), change);
        assert forall|k: int| 0 <= k < insertion_point(sorted, change) implies !change_precedes(
            change,
            sorted[k],
        ) by {
            if k > 0 {
                assert(sorted.drop_first()[k - 1] == sorted[k]);
            }
        }
    }
}

/// The files of the first results are the first of the files of all.
pub proof fn lemma_match_items_prefix(results: Seq<MatchResultView>, n: int)
    requires
        0 <= n <= results.len(),
    ensures
        match_items(results.take(n)).is_prefix_of(match_items(results)),
        n < results.len() ==> match_items(results.take(n + 1)) == match_items(results.take(n))
            + items_of(results[n]),
    decreases results.len(),
{
    if n < results.len() {
        assert(results.take(n + 1).drop_last() =~= results.take(n));
        assert(results.take(n + 1).last() == results[n]);
        assert(results.drop_last().take(n) =~= results.take(n));
        lemma_match_items_prefix(results.drop_last(), n);
    } else {
        assert(results.take(n) =~= results);
    }
}

/// A plan for some files is the beginning of the plan for more files, and
/// an error with it is the error with more.
pub proof fn lemma_planned_changes_prefix(
    items: Seq<MatchItemView>,
    lengths: Seq<u64>,
    output_path: Option<Seq<Seq<char>>>,
    windows: bool,
    n: int,
)
    requires
        0 <= n <= items.len(),
    ensures
        planned_changes(items.take(n), lengths, output_path, windows) matches Err(e)
            ==> planned_changes(items, lengths, output_path, windows) == Err::<
            Seq<MusicFileChangeView>,
            ChangeError,
        >(e),
    decreases items.len(),
{
    if n < items.len() {
        assert(items.drop_last().take(n) =~= items.take(n));
        lemma_planned_changes_prefix(items.drop_last(), lengths, output_path, windows, n);
    } else {
        assert(items.take(n) =~= items);
    }
}

/// Whether one text comes before another in the order of a dictionary.
pub fn text_before(a: &str, b: &str) -> (r: bool)
    ensures
        r == text_precedes(a@, b@),
{
    let x = chars_of(a);
    let y = chars_of(b);
    let mut i: usize = 0;
    assert(x@.skip(0) =~= x@ && y@.skip(0) =~= y@);
    while i < x.len() && i < y.len()
        invariant
            i <= x.len(),
            i <= y.len(),
            x@ == a@,
            y@ == b@,
            text_precedes(a@, b@) == text_precedes(x@.skip(i as int), y@.skip(i as int)),
        decreases x.len() - i,
    {
        assert(x@.skip(i as int)[0] == x@[i as int]);
        assert(y@.skip(i as int)[0] == y@[i as int]);
        if x[i] != y[i] {
            return (x[i] as u32) < (y[i] as u32);
        }
        assert(x@.skip(i as int).drop_first() =~= x@.skip(i + 1));
        assert(y@.skip(i as int).drop_first() =~= y@.skip(i + 1));
        i += 1;
    }
    i < y.len()
}

impl<'a> MusicFileChange<'a> {
    /// Whether this change is listed before the other.
    pub fn precedes(&self, other: &MusicFileChange) -> (r: bool)
        ensures
            r == change_precedes(self@, other@),
    {
        let lhs = &self.target.tag;
        let rhs = &other.target.tag;
        let lhs_album = match lhs.album() {
            Some(album) => album,
            None => "",
        };
        let rhs_album = match rhs.album() {
            Some(album) => album,
            None => "",
        };
        proof {
            reveal_strlit("");
            assert(""@ =~= Seq::<char>::empty());
        }
        let lhs_year: i32 = match lhs.year() {
            Some(year) => year,
            None => i32::MIN,
        };
        let rhs_year: i32 = match rhs.year() {
            Some(year) => year,
            None => i32::MIN,
        };
        if !text_eq(lhs_album, rhs_album) {
            text_before(lhs_album, rhs_album)
        } else if lhs_year != rhs_year {
            lhs_year < rhs_year
        } else {
            match (lhs.track_number(), rhs.track_number()) {
                (Some(l), Some(r)) => l < r,
                (None, Some(_)) => true,
                _ => false,
            }
        }
    }
}

/// Puts a change into a list that is in order.
fn insert_in_order<'a>(changes: &mut Vec<MusicFileChange<'a>>, change: MusicFileChange<'a>)
    ensures
        final(changes).deep_view() == old(changes).deep_view().insert(
            insertion_point(old(changes).deep_view(), change@),
            change@,
        ),
{
    let ghost sorted = changes.deep_view();
    let mut at: usize = 0;
    proof {
        lemma_deep_view_index(*changes);
        assert(sorted.skip(0) =~= sorted);
    }
    while at < changes.len() && !change.precedes(&changes[at])
        invariant
            at <= changes.len(),
            *changes == *old(changes),
            sorted == changes.deep_view(),
            sorted.len() == changes.len(),
            forall|k: int| 0 <= k < changes.len() ==> sorted[k] == changes[k]@,
            insertion_point(sorted, change@) == at + insertion_point(
                sorted.skip(at as int),
                change@,
            ),
        decreases changes.len() - at,
    {
        assert(sorted.skip(at as int)[0] == sorted[at as int]);
        assert(sorted.skip(at as int).drop_first() =~= sorted.skip(at + 1));
        at += 1;
    }
    proof {
        if at < changes.len() {
            assert(sorted.skip(at as int)[0] == sorted[at as int]);
        }
    }
    let ghost before = *changes;
    changes.insert(at, change);
    proof {
        lemma_deep_view_insert(before, *changes, at as int, change);
    }
}

/// How many files the results hold: `None` where the count does not fit.
fn count_files(results: &Vec<DiscogsReleaseMatchResult>) -> (r: Option<usize>)
    ensures
        match r {
            Some(n) => n == match_items(results.deep_view()).len(),
            None => match_items(results.deep_view()).len() > usize::MAX,
        },
{
    let ghost all = results.deep_view();
    let mut n: usize = 0;
    let mut i: usize = 0;
    proof {
        lemma_deep_view_index(*results);
        assert(all.take(0) =~= Seq::<MatchResultView>::empty());
    }
    while i < results.len()
        invariant
            i <= results.len(),
            all == results.deep_view(),
            all.len() == results.len(),
            forall|k: int| 0 <= k < results.len() ==> all[k] == results[k]@,
            n == match_items(all.take(i as int)).len(),
        decreases results.len() - i,
    {
        proof {
            lemma_match_items_prefix(all, i as int);
        }
        let size = match &results[i] {
            DiscogsReleaseMatchResult::Matched { tracks_matching, release } => {
                proof {
                    lemma_deep_view_index(*tracks_matching);
                }
                tracks_matching.len()
            },
            DiscogsReleaseMatchResult::Unmatched(files) => {
                proof {
                    lemma_deep_view_index(*files);
                }
                files.len()
            },
        };
        assert(size == items_of(all[i as int]).len());
        n = match n.checked_add(size) {
            Some(sum) => sum,
            None => {
                proof {
                    lemma_match_items_prefix(all, i + 1);
                }
                return None;
            },
        };
        i += 1;
    }
    assert(all.take(i as int) =~= all);
    Some(n)
}

/// What is planned for one file.
fn plan_file<'a>(
    music_file: &'a MusicFile,
    discogs_info: Option<(&DiscogsTrack, &'a DiscogsRelease)>,
    source_file_length: u64,
    output_path: &Option<FilePath>,
    windows: bool,
) -> (r: Result<MusicFileChange<'a>, ChangeError>)
    ensures
        result_view(r) == planned_change(
            MatchItemView {
                music_file: music_file@,
                discogs_info: match discogs_info {
                    Some((track, release)) => Some((track@, release@)),
                    None => None,
                },
            },
            source_file_length,
            output_path.deep_view(),
            windows,
        ),
{
    let source_tag = &music_file.tag;
    let target_tag = match discogs_info {
        Some((discogs_track, discogs_release)) => create_tag_from_discogs_data(
            source_tag,
            discogs_track,
            discogs_release,
        ),
        None => strip_redundant_fields(source_tag),
    };
    let source_path = &music_file.file_path;
    let source_extension = source_path.extension_or_empty();
    let target_extension = if text_eq(source_extension.as_str(), "flac") {
        "m4a".to_owned()
    } else {
        source_extension.clone()
    };
    let file_path = match target_path_for(
        &target_tag,
        target_extension.as_str(),
        source_path,
        output_path,
        windows,
    ) {
        Ok(path) => path,
        Err(e) => {
            return Err(ChangeError::Name(e));
        },
    };
    let is_transcode = !text_eq(source_extension.as_str(), target_extension.as_str());
    Ok(
        MusicFileChange {
            source: music_file,
            target: MusicFile { file_path, tag: target_tag, duration: music_file.duration },
            is_transcode,
            source_file_length,
            discogs_release: match discogs_info {
                Some((_, release)) => Some(release),
                None => None,
            },
        },
    )
}

/// The path that a file with the given tag is written to.
pub fn target_path_for(
    tag: &Tag,
    extension: &str,
    source_path: &FilePath,
    output_path: &Option<FilePath>,
    windows: bool,
) -> (r: Result<FilePath, NameError>)
    ensures
        result_view(r) == target_path_of(
            tag@,
            extension@,
            source_path@,
            output_path.deep_view(),
            windows,
        ),
{
    match output_path {
        Some(output) => match relative_path_for(tag, extension, windows) {
            Ok(relative) => Ok(output.join(&relative)),
            Err(e) => Err(e),
        },
        None => match music_file_name_for(tag, extension, windows) {
            Ok(name) => Ok(source_path.parent_or_empty().join_name(name.as_str())),
            Err(e) => Err(e),
        },
    }
}

/// Plans the file that stands at `n` among `items`, and puts the change in
/// its place among those planned before.
fn plan_next<'a>(
    changes: &mut Vec<MusicFileChange<'a>>,
    music_file: &'a MusicFile,
    discogs_info: Option<(&DiscogsTrack, &'a DiscogsRelease)>,
    source_file_length: u64,
    output_path: &Option<FilePath>,
    windows: bool,
    Ghost(items): Ghost<Seq<MatchItemView>>,
    Ghost(lengths): Ghost<Seq<u64>>,
    Ghost(n): Ghost<int>,
) -> (r: Result<(), ChangeError>)
    requires
        0 <= n < items.len(),
        items[n] == (MatchItemView {
            music_file: music_file@,
            discogs_info: match discogs_info {
                Some((track, release)) => Some((track@, release@)),
                None => None,
            },
        }),
        lengths[n] == source_file_length,
        planned_changes(items.take(n), lengths, output_path.deep_view(), windows) is Ok,
        old(changes).deep_view() == in_listing_order(
            planned_changes(items.take(n), lengths, output_path.deep_view(), windows)->Ok_0,
        ),
    ensures
        match r {
            Ok(_) => planned_changes(items.take(n + 1), lengths, output_path.deep_view(), windows)
                is Ok && final(changes).deep_view() == in_listing_order(
                planned_changes(
                    items.take(n + 1),
                    lengths,
                    output_path.deep_view(),
                    windows,
                )->Ok_0,
            ),
            Err(e) => planned_changes(items, lengths, output_path.deep_view(), windows) == Err::<
                Seq<MusicFileChangeView>,
                ChangeError,
            >(e),
        },
{
    proof {
        assert(items.take(n + 1).drop_last() =~= items.take(n));
        assert(items.take(n + 1).last() == items[n]);
        lemma_planned_changes_prefix(items, lengths, output_path.deep_view(), windows, n + 1);
    }
    let change = match plan_file(music_file, discogs_info, source_file_length, output_path, windows) {
        Ok(change) => change,
        Err(e) => {
            return Err(e);
        },
    };
    let ghost planned = planned_changes(
        items.take(n),
        lengths,
        output_path.deep_view(),
        windows,
    )->Ok_0;
    assert(planned.push(change@).drop_last() =~= planned);
    insert_in_order(changes, change);
    Ok(())
}

/// The files that the items are about.
pub open spec fn files_of_items(items: Seq<MatchItemView>) -> Seq<MusicFileView> {
    Seq::new(items.len(), |k: int| items[k].music_file)
}

/// The source files of the results, in the order in which a plan takes
/// them.
pub fn source_files<'a>(discogs_match_results: &Vec<DiscogsReleaseMatchResult<'a>>) -> (r: Vec<
    &'a MusicFile,
>)
    ensures
        r.deep_view() == files_of_items(match_items(discogs_match_results.deep_view())),
{
    let ghost all = discogs_match_results.deep_view();
    let mut r: Vec<&'a MusicFile> = Vec::new();
    let mut i: usize = 0;
    proof {
        lemma_deep_view_index(*discogs_match_results);
        lemma_deep_view_empty(r);
        assert(all.take(0) =~= Seq::<MatchResultView>::empty());
        assert(r.deep_view() =~= files_of_items(match_items(all.take(0))));
    }
    while i < discogs_match_results.len()
        invariant
            i <= discogs_match_results.len(),
            all == discogs_match_results.deep_view(),
            all.len() == discogs_match_results.len(),
            forall|k: int|
                0 <= k < discogs_match_results.len() ==> all[k] == discogs_match_results[k]@,
            r.deep_view() == files_of_items(match_items(all.take(i as int))),
        decreases discogs_match_results.len() - i,
    {
        let ghost start = r.deep_view();
        let ghost own = items_of(all[i as int]);
        proof {
            lemma_match_items_prefix(all, i as int);
        }
        match &discogs_match_results[i] {
            DiscogsReleaseMatchResult::Matched { tracks_matching, release } => {
                let mut j: usize = 0;
                proof {
                    lemma_deep_view_index(*tracks_matching);
                    assert(r.deep_view() =~= start + files_of_items(own.take(0)));
                }
                while j < tracks_matching.len()
                    invariant
                        j <= tracks_matching.len(),
                        own.len() == tracks_matching.len(),
                        forall|k: int|
                            0 <= k < tracks_matching.len() ==> own[k].music_file
                                == tracks_matching[k].music_file@,
                        r.deep_view() == start + files_of_items(own.take(j as int)),
                    decreases tracks_matching.len() - j,
                {
                    let ghost before = r;
                    let file = tracks_matching[j].music_file;
                    r.push(file);
                    proof {
                        lemma_deep_view_push(before, r, file);
                        assert(own[j as int].music_file == file@);
                        assert(files_of_items(own.take(j + 1)) =~= files_of_items(
                            own.take(j as int),
                        ).push(file@));
                        assert(r.deep_view() =~= start + files_of_items(own.take(j + 1)));
                    }
                    j += 1;
                }
                assert(own.take(j as int) =~= own);
            },
            DiscogsReleaseMatchResult::Unmatched(files) => {
                let mut j: usize = 0;
                proof {
                    lemma_deep_view_index(*files);
                    assert(r.deep_view() =~= start + files_of_items(own.take(0)));
                }
                while j < files.len()
                    invariant
                        j <= files.len(),
                        own.len() == files.len(),
                        forall|k: int| 0 <= k < files.len() ==> own[k].music_file == files[k]@,
                        r.deep_view() == start + files_of_items(own.take(j as int)),
                    decreases files.len() - j,
                {
                    let ghost before = r;
                    let file = files[j];
                    r.push(file);
                    proof {
                        lemma_deep_view_push(before, r, file);
                        assert(own[j as int].music_file == file@);
                        assert(files_of_items(own.take(j + 1)) =~= files_of_items(
                            own.take(j as int),
                        ).push(file@));
                        assert(r.deep_view() =~= start + files_of_items(own.take(j + 1)));
                    }
                    j += 1;
                }
                assert(own.take(j as int) =~= own);
            },
        }
        assert(r.deep_view() =~= files_of_items(match_items(all.take(i + 1))));
        i += 1;
    }
    assert(all.take(i as int) =~= all);
    r
}

/// The music files to write for the given results, in listing order.
/// `source_file_lengths` holds the length of each source file, in the order
/// of [`source_files`].
pub fn get_file_changes<'a>(
    discogs_match_results: &'a Vec<DiscogsReleaseMatchResult<'a>>,
    source_file_lengths: &Vec<u64>,
    output_path: &Option<FilePath>,
    windows: bool,
) -> (r: Result<Vec<MusicFileChange<'a>>, ChangeError>)
    ensures
        result_view(r) == file_changes(
            discogs_match_results.deep_view(),
            source_file_lengths@,
            output_path.deep_view(),
            windows,
        ),
{
    let ghost all = discogs_match_results.deep_view();
    let ghost items = match_items(all);
    let ghost lengths = source_file_lengths@;
    let ghost output = output_path.deep_view();
    match count_files(discogs_match_results) {
        Some(count) => {
            if count != source_file_lengths.len() {
                assert(lengths.len() != items.len());
                return Err(ChangeError::LengthsDoNotFit);
            }
        },
        None => {
            assert(source_file_lengths.len() <= usize::MAX);
            assert(lengths.len() != items.len());
            return Err(ChangeError::LengthsDoNotFit);
        },
    }
    let mut result: Vec<MusicFileChange<'a>> = Vec::new();
    let mut n: usize = 0;
    let mut i: usize = 0;
    proof {
        lemma_deep_view_index(*discogs_match_results);
        lemma_deep_view_empty(result);
        assert(all.take(0) =~= Seq::<MatchResultView>::empty());
        assert(items.take(0) =~= Seq::<MatchItemView>::empty());
    }
    while i < discogs_match_results.len()
        invariant
            i <= discogs_match_results.len(),
            all == discogs_match_results.deep_view(),
            all.len() == discogs_match_results.len(),
            forall|k: int|
                0 <= k < discogs_match_results.len() ==> all[k] == discogs_match_results[k]@,
            items == match_items(all),
            lengths == source_file_lengths@,
            output == output_path.deep_view(),
            items.len() == source_file_lengths.len(),
            n == match_items(all.take(i as int)).len(),
            planned_changes(items.take(n as int), lengths, output, windows) is Ok,
            result.deep_view() == in_listing_order(
                planned_changes(items.take(n as int), lengths, output, windows)->Ok_0,
            ),
        decreases discogs_match_results.len() - i,
    {
        let ghost base = n as int;
        let ghost own = items_of(all[i as int]);
        proof {
            lemma_match_items_prefix(all, i as int);
            lemma_match_items_prefix(all, i + 1);
            assert(forall|k: int| 0 <= k < own.len() ==> items[base + k] == own[k]) by {
                assert forall|k: int| 0 <= k < own.len() implies items[base + k] == own[k] by {
                    assert(match_items(all.take(i + 1))[base + k] == own[k]);
                }
            }
        }
        match &discogs_match_results[i] {
            DiscogsReleaseMatchResult::Matched { tracks_matching, release } => {
                let mut j: usize = 0;
                proof {
                    lemma_deep_view_index(*tracks_matching);
                }
                while j < tracks_matching.len()
                    invariant
                        j <= tracks_matching.len(),
                        all == discogs_match_results.deep_view(),
                        items == match_items(all),
                        lengths == source_file_lengths@,
                        output == output_path.deep_view(),
                        items.len() == source_file_lengths.len(),
                        base + own.len() <= items.len(),
                        n == base + j,
                        own.len() == tracks_matching.len(),
                        forall|k: int| 0 <= k < own.len() ==> items[base + k] == own[k],
                        forall|k: int|
                            0 <= k < tracks_matching.len() ==> own[k] == (MatchItemView {
                                music_file: tracks_matching[k].music_file@,
                                discogs_info: Some((tracks_matching[k].track@, release@)),
                            }),
                        planned_changes(items.take(n as int), lengths, output, windows) is Ok,
                        result.deep_view() == in_listing_order(
                            planned_changes(items.take(n as int), lengths, output, windows)->Ok_0,
                        ),
                    decreases tracks_matching.len() - j,
                {
                    let found = &tracks_matching[j];
                    assert(items[base + j] == own[j as int]);
                    match plan_next(
                        &mut result,
                        found.music_file,
                        Some((&found.track, release)),
                        source_file_lengths[n],
                        output_path,
                        windows,
                        Ghost(items),
                        Ghost(lengths),
                        Ghost(n as int),
                    ) {
                        Ok(_) => {},
                        Err(e) => {
                            return Err(e);
                        },
                    }
                    n += 1;
                    j += 1;
                }
            },
            DiscogsReleaseMatchResult::Unmatched(files) => {
                let mut j: usize = 0;
                proof {
                    lemma_deep_view_index(*files);
                }
                while j < files.len()
                    invariant
                        j <= files.len(),
                        all == discogs_match_results.deep_view(),
                        items == match_items(all),
                        lengths == source_file_lengths@,
                        output == output_path.deep_view(),
                        items.len() == source_file_lengths.len(),
                        base + own.len() <= items.len(),
                        n == base + j,
                        own.len() == files.len(),
                        forall|k: int| 0 <= k < own.len() ==> items[base + k] == own[k],
                        forall|k: int|
                            0 <= k < files.len() ==> own[k] == (MatchItemView {
                                music_file: files[k]@,
                                discogs_info: None,
                            }),
                        planned_changes(items.take(n as int), lengths, output, windows) is Ok,
                        result.deep_view() == in_listing_order(
                            planned_changes(items.take(n as int), lengths, output, windows)->Ok_0,
                        ),
                    decreases files.len() - j,
                {
                    assert(items[base + j] == own[j as int]);
                    match plan_next(
                        &mut result,
                        files[j],
                        None,
                        source_file_lengths[n],
                        output_path,
                        windows,
                        Ghost(items),
                        Ghost(lengths),
                        Ghost(n as int),
                    ) {
                        Ok(_) => {},
                        Err(e) => {
                            return Err(e);
                        },
                    }
                    n += 1;
                    j += 1;
                }
            },
        }
        i += 1;
    }
    proof {
        assert(all.take(i as int) =~= all);
        assert(items.take(n as int) =~= items);
    }
    Ok(result)
}

/// The path of a URL, if the text is a URL.
pub uninterp spec fn url_path_of(uri: Seq<char>) -> Option<Seq<char>>;

/// The path of a URL.
///
/// Wraps `reqwest::Url::parse` and, where that succeeds, `path` of what it
/// gives. The result is known only by the name [`url_path_of`]: `None` where
/// the text is not taken for a URL.
#[verifier::external_body]
pub(crate) fn url_path(uri: &str) -> (r: Option<String>)
    ensures
        r.deep_view() == url_path_of(uri@),
{
    match reqwest::Url::parse(uri) {
        Ok(url) => Some(url.path().to_owned()),
        Err(_) => None,
    }
}

/// The name of the cover's file without its extension.
pub const COVER_FILE_NAME_WITHOUT_EXTENSION: &'static str = "cover";

/// The last of the pieces that names something: it is neither empty nor a
/// single dot.
pub open spec fn last_segment(pieces: Seq<Seq<char>>) -> Seq<char>
    decreases pieces.len(),
{
    if pieces.len() == 0 {
        Seq::empty()
    } else if pieces.last().len() > 0 && pieces.last() != seq!['.'] {
        pieces.last()
    } else {
        last_segment(pieces.drop_last())
    }
}

/// The extension of the file that the path of a URL ends in.
pub open spec fn extension_in_url_path(path: Seq<char>) -> Seq<char> {
    extension_of(last_segment(split_on(path, '/')))
}

/// The name of a cover's file with the given extension.
pub open spec fn cover_file_name(extension: Seq<char>) -> Seq<char> {
    if extension.len() == 0 {
        COVER_FILE_NAME_WITHOUT_EXTENSION@
    } else {
        COVER_FILE_NAME_WITHOUT_EXTENSION@ + seq!['.'] + extension
    }
}

/// The cover that a change asks for: none where the file was not matched
/// or its release has no image, and an error where the image's address is no
/// URL. The cover lies beside the file, under the name `cover` with the
/// extension that the address ends in.
pub open spec fn cover_for(change: MusicFileChangeView) -> Option<
    Result<CoverChangeView, ChangeError>,
> {
    match change.discogs_release {
        None => None,
        Some(release) => match release.image {
            None => None,
            Some(uri) => match url_path_of(uri) {
                None => Some(Err(ChangeError::InvalidCoverUrl)),
                Some(path) => Some(
                    Ok(
                        CoverChangeView {
                            path: with_name(
                                parent_of(change.target.file_path),
                                cover_file_name(extension_in_url_path(path)),
                            ),
                            uri,
                        },
                    ),
                ),
            },
        },
    }
}

/// The covers that the changes ask for, change by change.
pub open spec fn cover_candidates(changes: Seq<MusicFileChangeView>) -> Result<
    Seq<CoverChangeView>,
    ChangeError,
>
    decreases changes.len(),
{
    if changes.len() == 0 {
        Ok(Seq::empty())
    } else {
        match cover_candidates(changes.drop_last()) {
            Err(e) => Err(e),
            Ok(before) => match cover_for(changes.last()) {
                None => Ok(before),
                Some(Err(e)) => Err(e),
                Some(Ok(cover)) => Ok(before.push(cover)),
            },
        }
    }
}

/// The covers to download: those that the changes ask for, each once.
pub open spec fn cover_changes(changes: Seq<MusicFileChangeView>) -> Result<
    Seq<CoverChangeView>,
    ChangeError,
> {
    match cover_candidates(changes) {
        Err(e) => Err(e),
        Ok(candidates) => Ok(distinct(candidates)),
    }
}

/// An error among the covers of some changes is the error with more changes.
pub proof fn lemma_cover_candidates_prefix(changes: Seq<MusicFileChangeView>, n: int)
    requires
        0 <= n <= changes.len(),
    ensures
        cover_candidates(changes.take(n)) matches Err(e) ==> cover_candidates(changes) == Err::<
            Seq<CoverChangeView>,
            ChangeError,
        >(e),
    decreases changes.len(),
{
    if n < changes.len() {
        assert(changes.drop_last().take(n) =~= changes.take(n));
        lemma_cover_candidates_prefix(changes.drop_last(), n);
    } else {
        assert(changes.take(n) =~= changes);
    }
}

/// The extension of the file that the path of a URL ends in.
pub fn url_path_extension(path: &str) -> (r: String)
    ensures
        r@ == extension_in_url_path(path@),
{
    let pieces = split(path, '/');
    let ghost all = pieces.deep_view();
    let mut i: usize = pieces.len();
    proof {
        lemma_deep_view_index(pieces);
        assert(all.take(i as int) =~= all);
        reveal_strlit(".");
        assert("."@ =~= seq!['.']);
    }
    while i > 0
        invariant
            i <= pieces.len(),
            all == pieces.deep_view(),
            all.len() == pieces.len(),
            forall|k: int| 0 <= k < pieces.len() ==> all[k] == pieces[k]@,
            "."@ == seq!['.'],
            all == split_on(path@, '/'),
            last_segment(all) == last_segment(all.take(i as int)),
        decreases i,
    {
        let piece = pieces[i - 1].as_str();
        assert(all.take(i as int).last() == piece@);
        if piece.unicode_len() > 0 && !text_eq(piece, ".") {
            return extension_of_name(piece);
        }
        assert(all.take(i as int).drop_last() =~= all.take(i - 1));
        i -= 1;
    }
    proof {
        reveal_strlit("");
        assert(""@ =~= Seq::<char>::empty());
    }
    extension_of_name("")
}

/// Whether `covers` holds the given cover.
fn contains_cover(covers: &Vec<CoverChange>, cover: &CoverChange) -> (r: bool)
    ensures
        r == covers.deep_view().contains(cover@),
{
    let mut i: usize = 0;
    proof {
        lemma_deep_view_index(*covers);
    }
    while i < covers.len()
        invariant
            i <= covers.len(),
            covers.deep_view().len() == covers.len(),
            forall|k: int| 0 <= k < covers.len() ==> covers.deep_view()[k] == covers[k]@,
            forall|k: int| 0 <= k < i ==> covers.deep_view()[k] != cover@,
        decreases covers.len() - i,
    {
        if covers[i].same_as(cover) {
            assert(covers.deep_view()[i as int] == cover@);
            return true;
        }
        i += 1;
    }
    false
}

/// The cover that a change asks for.
fn cover_of(music_file: &MusicFileChange) -> (r: Option<Result<CoverChange, ChangeError>>)
    ensures
        match r {
            None => cover_for(music_file@) is None,
            Some(Err(e)) => cover_for(music_file@) == Some(
                Err::<CoverChangeView, ChangeError>(e),
            ),
            Some(Ok(cover)) => cover_for(music_file@) == Some(
                Ok::<CoverChangeView, ChangeError>(cover@),
            ),
        },
{
    let discogs_release = match music_file.discogs_release {
        Some(release) => release,
        None => {
            return None;
        },
    };
    let best_image = match &discogs_release.image {
        Some(image) => image,
        None => {
            return None;
        },
    };
    let uri = best_image.url.clone();
    let uri_path = match url_path(uri.as_str()) {
        Some(path) => path,
        None => {
            return Some(Err(ChangeError::InvalidCoverUrl));
        },
    };
    let extension = url_path_extension(uri_path.as_str());
    let mut name = COVER_FILE_NAME_WITHOUT_EXTENSION.to_owned();
    if extension.as_str().unicode_len() > 0 {
        crate::util::text::push_char(&mut name, '.');
        name.append(extension.as_str());
    }
    assert(name@ =~= cover_file_name(extension@));
    let path = music_file.target.file_path.parent_or_empty().join_name(name.as_str());
    Some(Ok(CoverChange { path, uri }))
}

/// The covers to download for the given music files: one for each folder
/// and address, however many files ask for it.
pub fn get_cover_changes(music_files: &Vec<MusicFileChange>) -> (r: Result<
    Vec<CoverChange>,
    ChangeError,
>)
    ensures
        result_view(r) == cover_changes(music_files.deep_view()),
{
    let ghost changes = music_files.deep_view();
    let mut cover_changes: Vec<CoverChange> = Vec::new();
    let mut i: usize = 0;
    proof {
        lemma_deep_view_index(*music_files);
        lemma_deep_view_empty(cover_changes);
        assert(changes.take(0) =~= Seq::<MusicFileChangeView>::empty());
    }
    while i < music_files.len()
        invariant
            i <= music_files.len(),
            changes == music_files.deep_view(),
            changes.len() == music_files.len(),
            forall|k: int| 0 <= k < music_files.len() ==> changes[k] == music_files[k]@,
            cover_candidates(changes.take(i as int)) is Ok,
            cover_changes.deep_view() == distinct(cover_candidates(changes.take(i as int))->Ok_0),
        decreases music_files.len() - i,
    {
        proof {
            assert(changes.take(i + 1).drop_last() =~= changes.take(i as int));
            assert(changes.take(i + 1).last() == music_files[i as int]@);
            lemma_cover_candidates_prefix(changes, i + 1);
        }
        match cover_of(&music_files[i]) {
            None => {},
            Some(Err(e)) => {
                return Err(e);
            },
            Some(Ok(cover)) => {
                proof {
                    lemma_distinct_push(cover_candidates(changes.take(i as int))->Ok_0, cover@);
                }
                if !contains_cover(&cover_changes, &cover) {
                    let ghost before = cover_changes;
                    cover_changes.push(cover);
                    proof {
                        lemma_deep_view_push(before, cover_changes, cover);
                    }
                }
            },
        }
        i += 1;
    }
    assert(changes.take(i as int) =~= changes);
    Ok(cover_changes)
}

/// What a folder was found to hold when it was listed: the paths of the
/// files and folders directly in it.
#[derive(Debug, PartialEq, Eq)]
pub struct FolderListing {
    pub folder: FilePath,
    pub entries: Vec<FilePath>,
}

/// The model of a [`FolderListing`].
pub struct FolderListingView {
    pub folder: Seq<Seq<char>>,
    pub entries: Seq<Seq<Seq<char>>>,
}

impl View for FolderListing {
    type V = FolderListingView;

    open spec fn view(&self) -> FolderListingView {
        FolderListingView { folder: self.folder@, entries: self.entries.deep_view() }
    }
}

impl DeepView for FolderListing {
    type V = FolderListingView;

    open spec fn deep_view(&self) -> FolderListingView {
        self.view()
    }
}

/// The folders that the music files are written to.
pub open spec fn target_folders(changes: Seq<MusicFileChangeView>) -> Seq<Seq<Seq<char>>> {
    Seq::new(changes.len(), |k: int| parent_of(changes[k].target.file_path))
}

/// The folders that the music files are taken from.
pub open spec fn source_folders(changes: Seq<MusicFileChangeView>) -> Seq<Seq<Seq<char>>> {
    Seq::new(changes.len(), |k: int| parent_of(changes[k].source.file_path))
}

/// The folders that the covers are downloaded to.
pub open spec fn cover_folders(covers: Seq<CoverChangeView>) -> Seq<Seq<Seq<char>>> {
    Seq::new(covers.len(), |k: int| parent_of(covers[k].path))
}

/// The paths that the plan writes to: those of the music files and of the
/// covers.
pub open spec fn planned_paths(
    changes: Seq<MusicFileChangeView>,
    covers: Seq<CoverChangeView>,
) -> Seq<Seq<Seq<char>>> {
    Seq::new(changes.len(), |k: int| changes[k].target.file_path) + Seq::new(
        covers.len(),
        |k: int| covers[k].path,
    )
}

/// The folders to look through for leftovers, each once: the folders that
/// the plan writes to where those are to be cleaned, then the folders that
/// it reads from where those are.
pub open spec fn folders_to_clean(
    changes: Seq<MusicFileChangeView>,
    covers: Seq<CoverChangeView>,
    clean_source_folders: bool,
    clean_target_folders: bool,
) -> Seq<Seq<Seq<char>>> {
    let targets = if clean_target_folders {
        target_folders(changes) + cover_folders(covers)
    } else {
        Seq::empty()
    };
    let sources = if clean_source_folders {
        source_folders(changes)
    } else {
        Seq::empty()
    };
    distinct(targets + sources)
}

/// What the listings say the folder holds: the entries of the first
/// listing of that folder, and nothing where it was not listed.
pub open spec fn listed_entries(listings: Seq<FolderListingView>, folder: Seq<Seq<char>>) -> Seq<
    Seq<Seq<char>>,
>
    decreases listings.len(),
{
    if listings.len() == 0 {
        Seq::empty()
    } else if listings[0].folder == folder {
        listings[0].entries
    } else {
        listed_entries(listings.drop_first(), folder)
    }
}

/// The entries that the plan does not write to, in their order.
pub open spec fn stale_in(entries: Seq<Seq<Seq<char>>>, planned: Seq<Seq<Seq<char>>>) -> Seq<
    Seq<Seq<char>>,
>
    decreases entries.len(),
{
    if entries.len() == 0 {
        entries
    } else if planned.contains(entries.last()) {
        stale_in(entries.drop_last(), planned)
    } else {
        stale_in(entries.drop_last(), planned).push(entries.last())
    }
}

/// The leftovers of the folders, folder by folder.
pub open spec fn stale_entries(
    listings: Seq<FolderListingView>,
    folders: Seq<Seq<Seq<char>>>,
    planned: Seq<Seq<Seq<char>>>,
) -> Seq<Seq<Seq<char>>>
    decreases folders.len(),
{
    if folders.len() == 0 {
        Seq::empty()
    } else {
        stale_entries(listings, folders.drop_last(), planned) + stale_in(
            listed_entries(listings, folders.last()),
            planned,
        )
    }
}

/// The paths to remove: what the folders to clean hold beside what the plan
/// writes, each path once.
pub open spec fn cleanup_changes(
    changes: Seq<MusicFileChangeView>,
    covers: Seq<CoverChangeView>,
    listings: Seq<FolderListingView>,
    clean_source_folders: bool,
    clean_target_folders: bool,
) -> Seq<Seq<Seq<char>>> {
    distinct(
        stale_entries(
            listings,
            folders_to_clean(changes, covers, clean_source_folders, clean_target_folders),
            planned_paths(changes, covers),
        ),
    )
}

/// Whether `paths` holds the given path.
pub fn contains_path(paths: &Vec<FilePath>, path: &FilePath) -> (r: bool)
    ensures
        r == paths.deep_view().contains(path@),
{
    let mut i: usize = 0;
    proof {
        lemma_deep_view_index(*paths);
    }
    while i < paths.len()
        invariant
            i <= paths.len(),
            paths.deep_view().len() == paths.len(),
            forall|k: int| 0 <= k < paths.len() ==> paths.deep_view()[k] == paths[k]@,
            forall|k: int| 0 <= k < i ==> paths.deep_view()[k] != path@,
        decreases paths.len() - i,
    {
        if paths[i].same_as(path) {
            assert(paths.deep_view()[i as int] == path@);
            return true;
        }
        i += 1;
    }
    false
}

/// Adds a folder to those seen, unless it is among them.
fn add_folder(folders: &mut Vec<FilePath>, folder: FilePath, Ghost(seen): Ghost<Seq<Seq<Seq<char>>>>)
    requires
        old(folders).deep_view() == distinct(seen),
    ensures
        final(folders).deep_view() == distinct(seen.push(folder@)),
{
    proof {
        lemma_distinct_push(seen, folder@);
    }
    if !contains_path(folders, &folder) {
        let ghost before = *folders;
        folders.push(folder);
        proof {
            lemma_deep_view_push(before, *folders, folder);
        }
    }
}

/// The folders to list before the cleanups can be planned.
pub fn folders_to_list(
    music_files: &Vec<MusicFileChange>,
    covers: &Vec<CoverChange>,
    clean_source_folders: bool,
    clean_target_folders: bool,
) -> (r: Vec<FilePath>)
    ensures
        r.deep_view() == folders_to_clean(
            music_files.deep_view(),
            covers.deep_view(),
            clean_source_folders,
            clean_target_folders,
        ),
{
    let ghost changes = music_files.deep_view();
    let ghost cover_views = covers.deep_view();
    let mut folders: Vec<FilePath> = Vec::new();
    let ghost mut seen: Seq<Seq<Seq<char>>> = Seq::empty();
    proof {
        lemma_deep_view_index(*music_files);
        lemma_deep_view_index(*covers);
        lemma_deep_view_empty(folders);
    }
    if clean_target_folders {
        let mut i: usize = 0;
        while i < music_files.len()
            invariant
                i <= music_files.len(),
                changes == music_files.deep_view(),
                changes.len() == music_files.len(),
                forall|k: int| 0 <= k < music_files.len() ==> changes[k] == music_files[k]@,
                folders.deep_view() == distinct(seen),
                seen == target_folders(changes).take(i as int),
            decreases music_files.len() - i,
        {
            add_folder(
                &mut folders,
                music_files[i].target.file_path.parent_or_empty(),
                Ghost(seen),
            );
            proof {
                seen = seen.push(parent_of(changes[i as int].target.file_path));
                assert(seen =~= target_folders(changes).take(i + 1));
            }
            i += 1;
        }
        assert(seen =~= target_folders(changes));
        let mut j: usize = 0;
        while j < covers.len()
            invariant
                j <= covers.len(),
                cover_views == covers.deep_view(),
                cover_views.len() == covers.len(),
                forall|k: int| 0 <= k < covers.len() ==> cover_views[k] == covers[k]@,
                folders.deep_view() == distinct(seen),
                seen == target_folders(changes) + cover_folders(cover_views).take(j as int),
            decreases covers.len() - j,
        {
            add_folder(&mut folders, covers[j].path.parent_or_empty(), Ghost(seen));
            proof {
                seen = seen.push(parent_of(cover_views[j as int].path));
                assert(seen =~= target_folders(changes) + cover_folders(cover_views).take(j + 1));
            }
            j += 1;
        }
        assert(seen =~= target_folders(changes) + cover_folders(cover_views));
    }
    let ghost targets = seen;
    if clean_source_folders {
        let mut i: usize = 0;
        assert(seen =~= targets + source_folders(changes).take(0));
        while i < music_files.len()
            invariant
                i <= music_files.len(),
                changes == music_files.deep_view(),
                changes.len() == music_files.len(),
                forall|k: int| 0 <= k < music_files.len() ==> changes[k] == music_files[k]@,
                folders.deep_view() == distinct(seen),
                seen == targets + source_folders(changes).take(i as int),
            decreases music_files.len() - i,
        {
            add_folder(&mut folders, music_files[i].source.file_path.parent_or_empty(), Ghost(seen));
            proof {
                seen = seen.push(parent_of(changes[i as int].source.file_path));
                assert(seen =~= targets + source_folders(changes).take(i + 1));
            }
            i += 1;
        }
        assert(seen =~= targets + source_folders(changes));
    } else {
        assert(seen =~= targets + Seq::<Seq<Seq<char>>>::empty());
    }
    folders
}

/// The paths that the plan writes to.
fn target_paths(music_files: &Vec<MusicFileChange>, covers: &Vec<CoverChange>) -> (r: Vec<
    FilePath,
>)
    ensures
        r.deep_view() == planned_paths(music_files.deep_view(), covers.deep_view()),
{
    let ghost changes = music_files.deep_view();
    let ghost cover_views = covers.deep_view();
    let ghost files = Seq::new(changes.len(), |k: int| changes[k].target.file_path);
    let ghost images = Seq::new(cover_views.len(), |k: int| cover_views[k].path);
    let mut r: Vec<FilePath> = Vec::new();
    proof {
        lemma_deep_view_index(*music_files);
        lemma_deep_view_index(*covers);
        lemma_deep_view_empty(r);
        assert(r.deep_view() =~= files.take(0));
    }
    let mut i: usize = 0;
    while i < music_files.len()
        invariant
            i <= music_files.len(),
            changes == music_files.deep_view(),
            changes.len() == music_files.len(),
            forall|k: int| 0 <= k < music_files.len() ==> changes[k] == music_files[k]@,
            files == Seq::new(changes.len(), |k: int| changes[k].target.file_path),
            r.deep_view() == files.take(i as int),
        decreases music_files.len() - i,
    {
        let ghost before = r;
        let path = music_files[i].target.file_path.clone();
        r.push(path);
        proof {
            lemma_deep_view_push(before, r, path);
            assert(r.deep_view() =~= files.take(i + 1));
        }
        i += 1;
    }
    assert(files.take(i as int) =~= files);
    let mut j: usize = 0;
    assert(r.deep_view() =~= files + images.take(0));
    while j < covers.len()
        invariant
            j <= covers.len(),
            cover_views == covers.deep_view(),
            cover_views.len() == covers.len(),
            forall|k: int| 0 <= k < covers.len() ==> cover_views[k] == covers[k]@,
            images == Seq::new(cover_views.len(), |k: int| cover_views[k].path),
            r.deep_view() == files + images.take(j as int),
        decreases covers.len() - j,
    {
        let ghost before = r;
        let path = covers[j].path.clone();
        r.push(path);
        proof {
            lemma_deep_view_push(before, r, path);
            assert(r.deep_view() =~= files + images.take(j + 1));
        }
        j += 1;
    }
    assert(images.take(j as int) =~= images);
    r
}

/// Where the first listing of `folder` stands among `listings`, if the
/// folder was listed.
fn find_listing(listings: &Vec<FolderListing>, folder: &FilePath) -> (r: Option<usize>)
    ensures
        match r {
            Some(at) => at < listings.len() && listed_entries(listings.deep_view(), folder@)
                == listings[at as int]@.entries,
            None => listed_entries(listings.deep_view(), folder@) == Seq::<
                Seq<Seq<char>>,
            >::empty(),
        },
{
    let ghost all = listings.deep_view();
    let mut i: usize = 0;
    proof {
        lemma_deep_view_index(*listings);
        assert(all.skip(0) =~= all);
    }
    while i < listings.len()
        invariant
            i <= listings.len(),
            all == listings.deep_view(),
            all.len() == listings.len(),
            forall|k: int| 0 <= k < listings.len() ==> all[k] == listings[k]@,
            listed_entries(all, folder@) == listed_entries(all.skip(i as int), folder@),
        decreases listings.len() - i,
    {
        assert(all.skip(i as int)[0] == all[i as int]);
        if listings[i].folder.same_as(folder) {
            return Some(i);
        }
        assert(all.skip(i as int).drop_first() =~= all.skip(i + 1));
        i += 1;
    }
    None
}

/// Whether `cleanups` holds the removal of `path`.
fn contains_cleanup(cleanups: &Vec<Cleanup>, path: &FilePath) -> (r: bool)
    ensures
        r == cleanups.deep_view().contains(path@),
{
    let mut i: usize = 0;
    proof {
        lemma_deep_view_index(*cleanups);
    }
    while i < cleanups.len()
        invariant
            i <= cleanups.len(),
            cleanups.deep_view().len() == cleanups.len(),
            forall|k: int| 0 <= k < cleanups.len() ==> cleanups.deep_view()[k] == cleanups[k]@,
            forall|k: int| 0 <= k < i ==> cleanups.deep_view()[k] != path@,
        decreases cleanups.len() - i,
    {
        if cleanups[i].path.same_as(path) {
            assert(cleanups.deep_view()[i as int] == path@);
            return true;
        }
        i += 1;
    }
    false
}

/// The leftovers to remove, given what the folders to clean were found to
/// hold. A folder that was not listed counts as empty.
pub fn get_cleanup_changes(
    music_files: &Vec<MusicFileChange>,
    covers: &Vec<CoverChange>,
    listings: &Vec<FolderListing>,
    clean_source_folders: bool,
    clean_target_folders: bool,
) -> (r: Vec<Cleanup>)
    ensures
        r.deep_view() == cleanup_changes(
            music_files.deep_view(),
            covers.deep_view(),
            listings.deep_view(),
            clean_source_folders,
            clean_target_folders,
        ),
{
    let folders = folders_to_list(music_files, covers, clean_source_folders, clean_target_folders);
    let planned = target_paths(music_files, covers);
    let ghost all_folders = folders.deep_view();
    let ghost planned_views = planned.deep_view();
    let ghost listing_views = listings.deep_view();
    let mut result: Vec<Cleanup> = Vec::new();
    let mut f: usize = 0;
    proof {
        lemma_deep_view_index(folders);
        lemma_deep_view_index(*listings);
        lemma_deep_view_empty(result);
        assert(all_folders.take(0) =~= Seq::<Seq<Seq<char>>>::empty());
    }
    while f < folders.len()
        invariant
            f <= folders.len(),
            all_folders == folders.deep_view(),
            all_folders.len() == folders.len(),
            forall|k: int| 0 <= k < folders.len() ==> all_folders[k] == folders[k]@,
            planned_views == planned.deep_view(),
            listing_views == listings.deep_view(),
            listing_views.len() == listings.len(),
            forall|k: int| 0 <= k < listings.len() ==> listing_views[k] == listings[k]@,
            result.deep_view() == distinct(
                stale_entries(listing_views, all_folders.take(f as int), planned_views),
            ),
        decreases folders.len() - f,
    {
        let ghost before_folder = stale_entries(
            listing_views,
            all_folders.take(f as int),
            planned_views,
        );
        proof {
            assert(all_folders.take(f + 1).drop_last() =~= all_folders.take(f as int));
            assert(all_folders.take(f + 1).last() == folders[f as int]@);
        }
        match find_listing(listings, &folders[f]) {
            Some(at) => {
                let entries = &listings[at].entries;
                let ghost entry_views = entries.deep_view();
                let mut k: usize = 0;
                proof {
                    lemma_deep_view_index(*entries);
                    assert(entry_views.take(0) =~= Seq::<Seq<Seq<char>>>::empty());
                    assert(before_folder + stale_in(entry_views.take(0), planned_views)
                        =~= before_folder);
                }
                while k < entries.len()
                    invariant
                        k <= entries.len(),
                        entry_views == entries.deep_view(),
                        entry_views.len() == entries.len(),
                        forall|j: int| 0 <= j < entries.len() ==> entry_views[j] == entries[j]@,
                        planned_views == planned.deep_view(),
                        result.deep_view() == distinct(
                            before_folder + stale_in(entry_views.take(k as int), planned_views),
                        ),
                    decreases entries.len() - k,
                {
                    let entry = &entries[k];
                    let ghost so_far = stale_in(entry_views.take(k as int), planned_views);
                    proof {
                        assert(entry_views.take(k + 1).drop_last() =~= entry_views.take(k as int));
                        assert(entry_views.take(k + 1).last() == entry@);
                    }
                    if !contains_path(&planned, entry) {
                        proof {
                            lemma_distinct_push(before_folder + so_far, entry@);
                            assert(before_folder + so_far.push(entry@) =~= (before_folder
                                + so_far).push(entry@));
                        }
                        if !contains_cleanup(&result, entry) {
                            let ghost before = result;
                            let cleanup = Cleanup { path: entry.clone() };
                            result.push(cleanup);
                            proof {
                                lemma_deep_view_push(before, result, cleanup);
                            }
                        }
                    }
                    k += 1;
                }
                assert(entry_views.take(k as int) =~= entry_views);
            },
            None => {
                assert(before_folder + Seq::<Seq<Seq<char>>>::empty() =~= before_folder);
                assert(stale_in(Seq::<Seq<Seq<char>>>::empty(), planned_views) =~= Seq::<
                    Seq<Seq<char>>,
                >::empty());
            },
        }
        f += 1;
    }
    assert(all_folders.take(f as int) =~= all_folders);
    result
}

/// The plan for the given results: every kind of change is worked out, and
/// the kinds that are not allowed are left out of the list at the end.
pub open spec fn change_list(
    results: Seq<MatchResultView>,
    lengths: Seq<u64>,
    listings: Seq<FolderListingView>,
    output_path: Option<Seq<Seq<char>>>,
    allowed: Seq<AllowedChangeType>,
    windows: bool,
) -> Result<ChangeListView, ChangeError> {
    match file_changes(results, lengths, output_path, windows) {
        Err(e) => Err(e),
        Ok(files) => match cover_changes(files) {
            Err(e) => Err(e),
            Ok(covers) => Ok(
                ChangeListView {
                    music_files: if allowed.contains(AllowedChangeType::MusicFiles) {
                        files
                    } else {
                        Seq::empty()
                    },
                    covers: if allowed.contains(AllowedChangeType::Covers) {
                        covers
                    } else {
                        Seq::empty()
                    },
                    cleanups: if allowed.contains(AllowedChangeType::SourceCleanup)
                        || allowed.contains(AllowedChangeType::TargetCleanup) {
                        cleanup_changes(
                            files,
                            covers,
                            listings,
                            allowed.contains(AllowedChangeType::SourceCleanup),
                            allowed.contains(AllowedChangeType::TargetCleanup),
                        )
                    } else {
                        Seq::empty()
                    },
                },
            ),
        },
    }
}

/// Plans what to do for the given results. `source_file_lengths` holds the
/// length of each source file, in the order of [`source_files`], and
/// `listings` what the folders of [`folders_to_list`] hold.
pub fn calculate_changes<'a>(
    discogs_match_results: &'a Vec<DiscogsReleaseMatchResult<'a>>,
    source_file_lengths: &Vec<u64>,
    listings: &Vec<FolderListing>,
    output_path: &Option<FilePath>,
    allowed_change_types: &Vec<AllowedChangeType>,
    windows: bool,
) -> (r: Result<ChangeList<'a>, ChangeError>)
    ensures
        result_view(r) == change_list(
            discogs_match_results.deep_view(),
            source_file_lengths@,
            listings.deep_view(),
            output_path.deep_view(),
            allowed_change_types@,
            windows,
        ),
{
    let file_changes = match get_file_changes(
        discogs_match_results,
        source_file_lengths,
        output_path,
        windows,
    ) {
        Ok(changes) => changes,
        Err(e) => {
            return Err(e);
        },
    };
    let cover_changes = match get_cover_changes(&file_changes) {
        Ok(changes) => changes,
        Err(e) => {
            return Err(e);
        },
    };
    let clean_source = allows(allowed_change_types, AllowedChangeType::SourceCleanup);
    let clean_target = allows(allowed_change_types, AllowedChangeType::TargetCleanup);
    let cleanup_changes = if clean_source || clean_target {
        get_cleanup_changes(&file_changes, &cover_changes, listings, clean_source, clean_target)
    } else {
        let none: Vec<Cleanup> = Vec::new();
        proof {
            lemma_deep_view_empty(none);
        }
        none
    };
    let music_files = if allows(allowed_change_types, AllowedChangeType::MusicFiles) {
        file_changes
    } else {
        let none: Vec<MusicFileChange<'a>> = Vec::new();
        proof {
            lemma_deep_view_empty(none);
        }
        none
    };
    let covers = if allows(allowed_change_types, AllowedChangeType::Covers) {
        cover_changes
    } else {
        let none: Vec<CoverChange> = Vec::new();
        proof {
            lemma_deep_view_empty(none);
        }
        none
    };
    Ok(ChangeList { music_files, covers, cleanups: cleanup_changes })
}

/// The order of texts goes on: what comes before a text comes before
/// whatever that text comes before.
pub proof fn lemma_text_precedes_transitive(a: Seq<char>, b: Seq<char>, c: Seq<char>)
    requires
        text_precedes(a, b),
        text_precedes(b, c),
    ensures
        text_precedes(a, c),
    decreases a.len(),
{
    if a.len() > 0 && a[0] == b[0] && b[0] == c[0] {
        lemma_text_precedes_transitive(a.drop_first(), b.drop_first(), c.drop_first());
    }
}

/// No text comes before itself.
pub proof fn lemma_text_precedes_irreflexive(a: Seq<char>)
    ensures
        !text_precedes(a, a),
    decreases a.len(),
{
    if a.len() > 0 {
        lemma_text_precedes_irreflexive(a.drop_first());
    }
}

/// Of two different texts, one comes before the other.
pub proof fn lemma_text_precedes_total(a: Seq<char>, b: Seq<char>)
    ensures
        a == b || text_precedes(a, b) || text_precedes(b, a),
    decreases a.len(),
{
    if a.len() > 0 && b.len() > 0 && a[0] == b[0] {
        lemma_text_precedes_total(a.drop_first(), b.drop_first());
        if a.drop_first() == b.drop_first() {
            assert(a =~= seq![a[0]] + a.drop_first());
            assert(b =~= seq![b[0]] + b.drop_first());
        }
    } else if a.len() == 0 && b.len() == 0 {
        assert(a =~= b);
    } else if a.len() > 0 && b.len() > 0 {
        vstd::utf8::char_u32_cast(a[0], a[0] as u32);
        vstd::utf8::char_u32_cast(b[0], b[0] as u32);
    }
}

/// What no change comes before, in a row: if `b` does not come before `a`,
/// and `c` not before `b`, then `c` does not come before `a`.
pub proof fn lemma_listing_order_goes_on(
    a: MusicFileChangeView,
    b: MusicFileChangeView,
    c: MusicFileChangeView,
)
    requires
        !change_precedes(b, a),
        !change_precedes(c, b),
    ensures
        !change_precedes(c, a),
{
    lemma_text_precedes_total(album_key(a), album_key(b));
    lemma_text_precedes_total(album_key(b), album_key(c));
    lemma_text_precedes_total(album_key(a), album_key(c));
    lemma_text_precedes_irreflexive(album_key(a));
    if text_precedes(album_key(a), album_key(b)) && text_precedes(album_key(b), album_key(c)) {
        lemma_text_precedes_transitive(album_key(a), album_key(b), album_key(c));
    }
    if text_precedes(album_key(c), album_key(a)) && album_key(a) != album_key(b) {
        lemma_text_precedes_transitive(album_key(c), album_key(a), album_key(b));
    }
    if text_precedes(album_key(c), album_key(a)) && album_key(b) != album_key(c) {
        lemma_text_precedes_transitive(album_key(b), album_key(c), album_key(a));
    }
}

/// Whether no change of the list comes before a change that stands before
/// it.
pub open spec fn is_in_listing_order(changes: Seq<MusicFileChangeView>) -> bool {
    forall|i: int, j: int| 0 <= i < j < changes.len() ==> !change_precedes(changes[j], changes[i])
}

/// The listing holds the changes that were planned, each as often as it was
/// planned, and lists them by album, then by year, then by track.
pub proof fn listing_is_in_order(changes: Seq<MusicFileChangeView>)
    ensures
        in_listing_order(changes).to_multiset() == changes.to_multiset(),
        in_listing_order(changes).len() == changes.len(),
        is_in_listing_order(in_listing_order(changes)),
    decreases changes.len(),
{
    broadcast use vstd::seq_lib::group_to_multiset_ensures;

    if changes.len() == 0 {
    } else {
        let front = changes.drop_last();
        let last = changes.last();
        listing_is_in_order(front);
        let sorted = in_listing_order(front);
        let at = insertion_point(sorted, last);
        lemma_insertion_point(sorted, last);
        let result = sorted.insert(at, last);
        assert(changes =~= front.push(last));
        assert(result.to_multiset() =~= changes.to_multiset()) by {
            sorted.to_multiset_ensures();
            front.to_multiset_ensures();
            assert(result =~= sorted.take(at) + seq![last] + sorted.skip(at));
            assert(sorted =~= sorted.take(at) + sorted.skip(at));
            vstd::seq_lib::lemma_multiset_commutative(sorted.take(at), sorted.skip(at));
            vstd::seq_lib::lemma_multiset_commutative(sorted.take(at) + seq![last], sorted.skip(at));
            vstd::seq_lib::lemma_multiset_commutative(sorted.take(at), seq![last]);
            vstd::seq_lib::lemma_multiset_commutative(front, seq![last]);
            assert(front.push(last) =~= front + seq![last]);
        }
        assert forall|i: int, j: int| 0 <= i < j < result.len() implies !change_precedes(
            result[j],
            result[i],
        ) by {
            if j < at {
                assert(result[i] == sorted[i] && result[j] == sorted[j]);
            } else if j == at {
                assert(result[i] == sorted[i]);
            } else if i == at {
                assert(result[j] == sorted[j - 1]);
                if j - 1 > at {
                    lemma_listing_order_goes_on_from(last, sorted[at], sorted[j - 1]);
                } else {
                    lemma_strictly_before(last, sorted[at]);
                }
            } else if i < at {
                assert(result[i] == sorted[i] && result[j] == sorted[j - 1]);
            } else {
                assert(result[i] == sorted[i - 1] && result[j] == sorted[j - 1]);
            }
        }
    }
}

/// A change that comes before another is not come before by it.
pub proof fn lemma_strictly_before(a: MusicFileChangeView, b: MusicFileChangeView)
    requires
        change_precedes(a, b),
    ensures
        !change_precedes(b, a),
{
    lemma_text_precedes_irreflexive(album_key(a));
    if text_precedes(album_key(a), album_key(b)) && text_precedes(album_key(b), album_key(a)) {
        lemma_text_precedes_transitive(album_key(a), album_key(b), album_key(a));
    }
}

/// What comes before a change comes before whatever does not come before
/// that change.
pub proof fn lemma_listing_order_goes_on_from(
    a: MusicFileChangeView,
    b: MusicFileChangeView,
    c: MusicFileChangeView,
)
    requires
        change_precedes(a, b),
        !change_precedes(c, b),
    ensures
        !change_precedes(c, a),
{
    lemma_strictly_before(a, b);
    lemma_listing_order_goes_on(a, b, c);
}

/// The candidates for covers are the covers that the changes ask for.
pub proof fn lemma_cover_candidates(changes: Seq<MusicFileChangeView>)
    requires
        cover_candidates(changes) is Ok,
    ensures
        forall|k: int|
            0 <= k < changes.len() ==> !(cover_for(#[trigger] changes[k]) matches Some(Err(_))),
        forall|k: int|
            0 <= k < changes.len() ==> (cover_for(#[trigger] changes[k]) matches Some(Ok(cover))
                ==> cover_candidates(changes)->Ok_0.contains(cover)),
        forall|cover: CoverChangeView| #[trigger]
            cover_candidates(changes)->Ok_0.contains(cover) ==> exists|k: int|
                0 <= k < changes.len() && cover_for(#[trigger] changes[k]) == Some(
                    Ok::<CoverChangeView, ChangeError>(cover),
                ),
    decreases changes.len(),
{
    if changes.len() > 0 {
        let front = changes.drop_last();
        lemma_cover_candidates(front);
        let before = cover_candidates(front)->Ok_0;
        let all = cover_candidates(changes)->Ok_0;
        assert forall|k: int| 0 <= k < changes.len() implies (cover_for(
            #[trigger] changes[k],
        ) matches Some(Ok(cover)) ==> all.contains(cover)) by {
            if cover_for(changes[k]) matches Some(Ok(_)) {
                let cover = cover_for(changes[k])->Some_0->Ok_0;
                if k < changes.len() - 1 {
                    assert(front[k] == changes[k]);
                    assert(before.contains(cover));
                    let i = choose|i: int| 0 <= i < before.len() && before[i] == cover;
                    assert(all[i] == cover);
                } else {
                    assert(all[all.len() - 1] == cover);
                }
            }
        }
        assert forall|k: int| 0 <= k < changes.len() implies !(cover_for(
            #[trigger] changes[k],
        ) matches Some(Err(_))) by {
            if k < changes.len() - 1 {
                assert(front[k] == changes[k]);
            }
        }
        assert forall|cover: CoverChangeView| #[trigger] all.contains(cover) implies exists|k: int|
            0 <= k < changes.len() && cover_for(#[trigger] changes[k]) == Some(
                Ok::<CoverChangeView, ChangeError>(cover),
            ) by {
            let i = choose|i: int| 0 <= i < all.len() && all[i] == cover;
            if i < before.len() {
                assert(before[i] == cover);
                assert(before.contains(cover));
                let k = choose|k: int|
                    0 <= k < front.len() && cover_for(#[trigger] front[k]) == Some(
                        Ok::<CoverChangeView, ChangeError>(cover),
                    );
                assert(changes[k] == front[k]);
            } else {
                assert(cover_for(changes[changes.len() - 1]) == Some(
                    Ok::<CoverChangeView, ChangeError>(cover),
                ));
            }
        }
    }
}

/// No cover is planned twice: the covers to download are those that the
/// changes ask for, and each of them is there once, however many changes ask
/// for it.
pub proof fn covers_are_planned_once(changes: Seq<MusicFileChangeView>)
    requires
        cover_changes(changes) is Ok,
    ensures
        cover_changes(changes)->Ok_0.no_duplicates(),
        forall|k: int|
            0 <= k < changes.len() ==> (cover_for(#[trigger] changes[k]) matches Some(Ok(cover))
                ==> cover_changes(changes)->Ok_0.contains(cover)),
        forall|cover: CoverChangeView| #[trigger]
            cover_changes(changes)->Ok_0.contains(cover) ==> exists|k: int|
                0 <= k < changes.len() && cover_for(#[trigger] changes[k]) == Some(
                    Ok::<CoverChangeView, ChangeError>(cover),
                ),
{
    lemma_cover_candidates(changes);
    let candidates = cover_candidates(changes)->Ok_0;
    lemma_distinct(candidates);
    assert forall|cover: CoverChangeView| #[trigger]
        cover_changes(changes)->Ok_0.contains(cover) implies exists|k: int|
        0 <= k < changes.len() && cover_for(#[trigger] changes[k]) == Some(
            Ok::<CoverChangeView, ChangeError>(cover),
        ) by {
        assert(distinct(candidates).contains(cover));
        assert(candidates.contains(cover));
    }
    assert forall|k: int| 0 <= k < changes.len() implies (cover_for(
        #[trigger] changes[k],
    ) matches Some(Ok(cover)) ==> cover_changes(changes)->Ok_0.contains(cover)) by {
        if cover_for(changes[k]) matches Some(Ok(_)) {
            let cover = cover_for(changes[k])->Some_0->Ok_0;
            assert(candidates.contains(cover));
            assert(distinct(candidates).contains(cover));
        }
    }
}

/// Files of one release that go to one folder share one cover: where every
/// change is for the same release, with an image at an address that is a
/// URL, and writes to the same folder, exactly one cover is planned.
pub proof fn one_release_in_one_folder_has_one_cover(changes: Seq<MusicFileChangeView>)
    requires
        changes.len() > 0,
        changes[0].discogs_release is Some,
        changes[0].discogs_release->Some_0.image is Some,
        url_path_of(changes[0].discogs_release->Some_0.image->Some_0) is Some,
        forall|k: int|
            0 <= k < changes.len() ==> (#[trigger] changes[k]).discogs_release
                == changes[0].discogs_release && parent_of(changes[k].target.file_path)
                == parent_of(changes[0].target.file_path),
    ensures
        cover_changes(changes) is Ok,
        cover_changes(changes)->Ok_0 == seq![cover_for(changes[0])->Some_0->Ok_0],
{
    let cover = cover_for(changes[0])->Some_0->Ok_0;
    assert forall|k: int| 0 <= k < changes.len() implies cover_for(#[trigger] changes[k]) == Some(
        Ok::<CoverChangeView, ChangeError>(cover),
    ) by {}
    lemma_same_cover(changes, cover, changes.len() as int);
    assert(changes.take(changes.len() as int) =~= changes);
}

/// Changes that all ask for the same cover have that cover planned once.
pub proof fn lemma_same_cover(changes: Seq<MusicFileChangeView>, cover: CoverChangeView, n: int)
    requires
        1 <= n <= changes.len(),
        forall|k: int|
            0 <= k < changes.len() ==> cover_for(#[trigger] changes[k]) == Some(
                Ok::<CoverChangeView, ChangeError>(cover),
            ),
    ensures
        cover_candidates(changes.take(n)) is Ok,
        cover_candidates(changes.take(n))->Ok_0.len() == n,
        forall|k: int| 0 <= k < n ==> cover_candidates(changes.take(n))->Ok_0[k] == cover,
        distinct(cover_candidates(changes.take(n))->Ok_0) == seq![cover],
    decreases n,
{
    let taken = changes.take(n);
    assert(taken.drop_last() =~= changes.take(n - 1));
    assert(taken.last() == changes[n - 1]);
    if n == 1 {
        assert(cover_candidates(changes.take(0)) == Ok::<Seq<CoverChangeView>, ChangeError>(
            Seq::empty(),
        ));
        assert(cover_candidates(taken)->Ok_0 =~= seq![cover]);
        lemma_distinct_push(Seq::<CoverChangeView>::empty(), cover);
        assert(Seq::<CoverChangeView>::empty().push(cover) =~= seq![cover]);
    } else {
        lemma_same_cover(changes, cover, n - 1);
        let before = cover_candidates(changes.take(n - 1))->Ok_0;
        lemma_distinct_push(before, cover);
        assert(seq![cover][0] == cover);
    }
}

/// What is left in a listing holds the entries that the plan does not
/// write to, and no other.
pub proof fn lemma_stale_in(
    entries: Seq<Seq<Seq<char>>>,
    planned: Seq<Seq<Seq<char>>>,
    entry: Seq<Seq<char>>,
)
    ensures
        stale_in(entries, planned).contains(entry) <==> entries.contains(entry)
            && !planned.contains(entry),
    decreases entries.len(),
{
    if entries.len() > 0 {
        let front = entries.drop_last();
        let last = entries.last();
        lemma_stale_in(front, planned, entry);
        let before = stale_in(front, planned);
        let all = stale_in(entries, planned);
        if all.contains(entry) {
            let i = choose|i: int| 0 <= i < all.len() && all[i] == entry;
            if i < before.len() {
                assert(before[i] == entry);
                assert(before.contains(entry));
                let k = choose|k: int| 0 <= k < front.len() && front[k] == entry;
                assert(entries[k] == entry);
            } else {
                assert(entries[entries.len() - 1] == entry);
            }
        }
        if entries.contains(entry) && !planned.contains(entry) {
            let k = choose|k: int| 0 <= k < entries.len() && entries[k] == entry;
            if k < front.len() {
                assert(front[k] == entry);
                assert(front.contains(entry));
                let i = choose|i: int| 0 <= i < before.len() && before[i] == entry;
                assert(all[i] == entry);
            } else {
                assert(all[all.len() - 1] == entry);
            }
        }
    }
}

/// The leftovers of the folders are the entries of their listings that the
/// plan does not write to.
pub proof fn lemma_stale_entries(
    listings: Seq<FolderListingView>,
    folders: Seq<Seq<Seq<char>>>,
    planned: Seq<Seq<Seq<char>>>,
    entry: Seq<Seq<char>>,
)
    ensures
        stale_entries(listings, folders, planned).contains(entry) <==> !planned.contains(entry)
            && exists|f: int|
            0 <= f < folders.len() && listed_entries(listings, #[trigger] folders[f]).contains(
                entry,
            ),
    decreases folders.len(),
{
    if folders.len() > 0 {
        let front = folders.drop_last();
        let last = folders.last();
        lemma_stale_entries(listings, front, planned, entry);
        lemma_stale_in(listed_entries(listings, last), planned, entry);
        let before = stale_entries(listings, front, planned);
        let own = stale_in(listed_entries(listings, last), planned);
        let all = before + own;
        if all.contains(entry) {
            let i = choose|i: int| 0 <= i < all.len() && all[i] == entry;
            if i < before.len() {
                assert(before[i] == entry);
                assert(before.contains(entry));
                let f = choose|f: int|
                    0 <= f < front.len() && listed_entries(listings, #[trigger] front[f]).contains(
                        entry,
                    );
                assert(folders[f] == front[f]);
            } else {
                assert(own[i - before.len()] == entry);
                assert(own.contains(entry));
                assert(folders[folders.len() - 1] == last);
            }
        }
        if !planned.contains(entry) && exists|f: int|
            0 <= f < folders.len() && listed_entries(listings, #[trigger] folders[f]).contains(
                entry,
            ) {
            let f = choose|f: int|
                0 <= f < folders.len() && listed_entries(listings, #[trigger] folders[f]).contains(
                    entry,
                );
            if f < front.len() {
                assert(front[f] == folders[f]);
                assert(before.contains(entry));
                let i = choose|i: int| 0 <= i < before.len() && before[i] == entry;
                assert(all[i] == entry);
            } else {
                assert(own.contains(entry));
                let i = choose|i: int| 0 <= i < own.len() && own[i] == entry;
                assert(all[before.len() + i] == entry);
            }
        }
    }
}

/// Cleaning spares what the plan writes: a path that the plan writes to is
/// never removed, and what lies in a folder to clean without being written
/// to is removed, and listed for removal once.
pub proof fn cleanup_spares_what_is_planned(
    changes: Seq<MusicFileChangeView>,
    covers: Seq<CoverChangeView>,
    listings: Seq<FolderListingView>,
    clean_source_folders: bool,
    clean_target_folders: bool,
    entry: Seq<Seq<char>>,
)
    ensures
        ({
            let cleanups = cleanup_changes(
                changes,
                covers,
                listings,
                clean_source_folders,
                clean_target_folders,
            );
            let folders = folders_to_clean(
                changes,
                covers,
                clean_source_folders,
                clean_target_folders,
            );
            &&& cleanups.no_duplicates()
            &&& planned_paths(changes, covers).contains(entry) ==> !cleanups.contains(entry)
            &&& cleanups.contains(entry) <==> !planned_paths(changes, covers).contains(entry)
                && exists|f: int|
                0 <= f < folders.len() && listed_entries(
                    listings,
                    #[trigger] folders[f],
                ).contains(entry)
        }),
{
    let folders = folders_to_clean(changes, covers, clean_source_folders, clean_target_folders);
    let planned = planned_paths(changes, covers);
    lemma_stale_entries(listings, folders, planned, entry);
    lemma_distinct(stale_entries(listings, folders, planned));
}

/// A tag that was stripped stays as it is when it is stripped again.
pub proof fn lemma_stripping_twice(tag: TagView)
    ensures
        stripped_tag(stripped_tag(tag)) == stripped_tag(tag),
{
    let key = crate::discogs::create_tag::DISCOGS_RELEASE_TAG@;
    match crate::tag::custom_text_of(tag.custom_texts, key) {
        Some(uri) => {
            let texts = seq![(key, uri)];
            assert(texts[0].0 == key);
        },
        None => {},
    }
}

/// Planning again changes nothing: when a file was written as planned, and
/// is planned for again with the same track and release or again without
/// any, the plan is to leave the file where it is and as it is. This holds
/// of a file whose planned name kept its extension when it was made fit for
/// a file's name.
pub proof fn replanning_changes_nothing(
    item: MatchItemView,
    source_file_length: u64,
    length_when_written: u64,
    output_path: Option<Seq<Seq<char>>>,
    windows: bool,
)
    requires
        planned_change(item, source_file_length, output_path, windows) is Ok,
        ({
            let extension = target_extension_of(
                extension_of(file_name_of(item.music_file.file_path)),
            );
            let name = music_file_name_of(target_tag_of(item), extension, windows)->Ok_0;
            name.len() > 0 && extension_of(name) == extension
        }),
    ensures
        ({
            let written = planned_change(item, source_file_length, output_path, windows)->Ok_0;
            planned_change(
                MatchItemView { music_file: written.target, discogs_info: item.discogs_info },
                length_when_written,
                output_path,
                windows,
            ) == Ok::<MusicFileChangeView, ChangeError>(
                MusicFileChangeView {
                    source: written.target,
                    target: written.target,
                    is_transcode: false,
                    source_file_length: length_when_written,
                    discogs_release: written.discogs_release,
                },
            )
        }),
{
    let source_extension = extension_of(file_name_of(item.music_file.file_path));
    let extension = target_extension_of(source_extension);
    let tag = target_tag_of(item);
    let written = planned_change(item, source_file_length, output_path, windows)->Ok_0;
    let name = music_file_name_of(tag, extension, windows)->Ok_0;
    let again = MatchItemView { music_file: written.target, discogs_info: item.discogs_info };
    lemma_stripping_twice(item.music_file.tag);
    assert(target_tag_of(again) == tag);
    assert(file_name_of(written.target.file_path) == name) by {
        match output_path {
            Some(output) => {
                let folder = crate::music_file::music_folder_of(tag, windows)->Ok_0;
                assert(written.target.file_path == output + with_name(folder, name));
            },
            None => {},
        }
    }
    assert(target_extension_of(extension) == extension) by {
        reveal_strlit("flac");
        reveal_strlit("m4a");
        if source_extension == "flac"@ {
            assert("m4a"@.len() != "flac"@.len());
        }
    }
    match output_path {
        Some(_) => {},
        None => {
            assert(parent_of(with_name(parent_of(item.music_file.file_path), name)) =~= parent_of(
                item.music_file.file_path,
            ));
        },
    }
}

/// What a change is listed under: its album, its year and its track.
pub open spec fn listing_key(change: MusicFileChangeView) -> (Seq<char>, int, int) {
    (album_key(change), year_key(change), track_key(change))
}

/// The changes that are listed under the given album, year and track, in
/// their order.
pub open spec fn listed_under(
    changes: Seq<MusicFileChangeView>,
    key: (Seq<char>, int, int),
) -> Seq<MusicFileChangeView> {
    changes.filter(|change: MusicFileChangeView| listing_key(change) == key)
}

/// Changes that are listed under the same album, year and track keep the
/// order in which they were planned.
pub proof fn listing_keeps_the_order_of_equals(
    changes: Seq<MusicFileChangeView>,
    key: (Seq<char>, int, int),
)
    ensures
        listed_under(in_listing_order(changes), key) == listed_under(changes, key),
    decreases changes.len(),
{
    let under = |change: MusicFileChangeView| listing_key(change) == key;
    if changes.len() > 0 {
        let front = changes.drop_last();
        let last = changes.last();
        listing_keeps_the_order_of_equals(front, key);
        listing_is_in_order(front);
        let sorted = in_listing_order(front);
        let at = insertion_point(sorted, last);
        lemma_insertion_point(sorted, last);
        let head = sorted.take(at);
        let tail = sorted.skip(at);
        assert(sorted =~= head + tail);
        assert(sorted.insert(at, last) =~= head.push(last) + tail);
        assert(changes =~= front.push(last));
        Seq::filter_distributes_over_add(head, tail, under);
        Seq::filter_distributes_over_add(head.push(last), tail, under);
        head.lemma_filter_push(last, under);
        front.lemma_filter_push(last, under);
        if listing_key(last) == key {
            assert(tail.filter(under) =~= Seq::<MusicFileChangeView>::empty()) by {
                if tail.filter(under).len() > 0 {
                    tail.lemma_filter_pred(under, 0);
                    let other = tail.filter(under)[0];
                    assert(tail.filter(under).contains(other));
                    tail.lemma_filter_contains_rev(under, other);
                    let j = choose|j: int| 0 <= j < tail.len() && tail[j] == other;
                    assert(sorted[at + j] == other);
                    assert(change_precedes(last, sorted[at]));
                    assert(change_precedes(other, sorted[at]) == change_precedes(last, sorted[at]));
                    lemma_text_precedes_irreflexive(album_key(last));
                }
            }
            assert(head.filter(under) + Seq::<MusicFileChangeView>::empty() =~= head.filter(under));
            assert(head.filter(under).push(last) + Seq::<MusicFileChangeView>::empty()
                =~= head.filter(under).push(last));
        }
    } else {
        assert(changes.filter(under) =~= Seq::<MusicFileChangeView>::empty()) by {
            changes.lemma_filter_len(under);
        }
    }
}

} // verus!
