use vstd::prelude::*;
use vstd::string::*;
use crate::discogs::matcher::{
    common_search_params_from_music_files,
    extract_discogs_id,
    group_by_folder,
    grouped_by_folder,
    match_release_with_music_files,
    matched_group_is_paired_once,
    release_id_in,
    release_match,
    search_parameter_sets,
    DiscogsReleaseMatchResult,
    MatchResultView,
    MatcherError,
};
use crate::discogs::model::refined;
use crate::discogs::model::serialized;
use crate::discogs::model::ModelError;
use crate::music_file::{MusicFile, MusicFileView};
use crate::util::seqs::contains_text;
use crate::util::views::{
    lemma_deep_view_empty,
    lemma_deep_view_index,
    lemma_deep_view_push,
    lemma_deep_view_remove,
    lemma_deep_view_same,
};

verus! {

/// How many releases at most are looked at for one set of search
/// parameters, so that a set that finds much does not keep the later sets
/// from their turn.
pub const RELEASES_PER_SEARCH: usize = 5;

/// What the matcher is waiting for.
#[derive(Debug, PartialEq, Eq)]
pub enum Stage {
    /// The masters that the search with the parameters of `set` finds.
    MasterSearch { set: usize },
    /// The main release of the master at `at`.
    MasterFetch { set: usize, masters: Vec<String>, at: usize, taken: usize },
    /// The release that the master at `at` pointed to.
    MasterRelease { set: usize, masters: Vec<String>, at: usize, taken: usize },
    /// The releases that the search with the parameters of `set` finds.
    ReleaseSearch { set: usize, taken: usize },
    /// The release at `at`.
    ReleaseFetch { set: usize, releases: Vec<String>, at: usize, taken: usize },
    /// The user's word on which release to take.
    Asking,
    /// The release that the user named.
    ManualFetch { release_id: String },
    /// Nothing: all groups are done, or matching failed.
    Finished,
}

/// The model of a [`Stage`].
pub enum StageView {
    MasterSearch { set: int },
    MasterFetch { set: int, masters: Seq<Seq<char>>, at: int, taken: int },
    MasterRelease { set: int, masters: Seq<Seq<char>>, at: int, taken: int },
    ReleaseSearch { set: int, taken: int },
    ReleaseFetch { set: int, releases: Seq<Seq<char>>, at: int, taken: int },
    Asking,
    ManualFetch { release_id: Seq<char> },
    Finished,
}

impl View for Stage {
    type V = StageView;

    open spec fn view(&self) -> StageView {
        match self {
            Stage::MasterSearch { set } => StageView::MasterSearch { set: *set as int },
            Stage::MasterFetch { set, masters, at, taken } => StageView::MasterFetch {
                set: *set as int,
                masters: masters.deep_view(),
                at: *at as int,
                taken: *taken as int,
            },
            Stage::MasterRelease { set, masters, at, taken } => StageView::MasterRelease {
                set: *set as int,
                masters: masters.deep_view(),
                at: *at as int,
                taken: *taken as int,
            },
            Stage::ReleaseSearch { set, taken } => StageView::ReleaseSearch {
                set: *set as int,
                taken: *taken as int,
            },
            Stage::ReleaseFetch { set, releases, at, taken } => StageView::ReleaseFetch {
                set: *set as int,
                releases: releases.deep_view(),
                at: *at as int,
                taken: *taken as int,
            },
            Stage::Asking => StageView::Asking,
            Stage::ManualFetch { release_id } => StageView::ManualFetch {
                release_id: release_id@,
            },
            Stage::Finished => StageView::Finished,
        }
    }
}

/// Matches groups of files with releases of the catalog, one group after
/// the other. The matcher itself does nothing outside: it says what it
/// needs next, and goes on when it is handed the answer.
#[derive(Debug, PartialEq, Eq)]
pub struct DiscogsMatcher<'a> {
    /// The release that the user named for every group, if any.
    force_discogs_release_id: Option<String>,
    /// The groups that are yet to be matched.
    remaining: Vec<Vec<&'a MusicFile>>,
    /// What was found for the groups that are done.
    results: Vec<DiscogsReleaseMatchResult<'a>>,
    /// The files of the group that is being matched.
    music_files: Vec<&'a MusicFile>,
    /// The sets of parameters to search with for this group.
    search_params: Vec<Vec<(&'static str, String)>>,
    /// The releases that were already looked at for this group.
    checked_release_urls: Vec<String>,
    stage: Stage,
}

/// The model of a [`DiscogsMatcher`].
pub struct MatcherView {
    pub force_discogs_release_id: Option<Seq<char>>,
    pub remaining: Seq<Seq<MusicFileView>>,
    pub results: Seq<MatchResultView>,
    pub music_files: Seq<MusicFileView>,
    pub search_params: Seq<Seq<(Seq<char>, Seq<char>)>>,
    pub checked_release_urls: Seq<Seq<char>>,
    pub stage: StageView,
}

impl<'a> View for DiscogsMatcher<'a> {
    type V = MatcherView;

    closed spec fn view(&self) -> MatcherView {
        MatcherView {
            force_discogs_release_id: self.force_discogs_release_id.deep_view(),
            remaining: self.remaining.deep_view(),
            results: self.results.deep_view(),
            music_files: self.music_files.deep_view(),
            search_params: self.search_params.deep_view(),
            checked_release_urls: self.checked_release_urls.deep_view(),
            stage: self.stage@,
        }
    }
}

/// Why the user is asked for a release.
#[derive(Debug, PartialEq, Eq)]
pub enum AskReason {
    /// No release that the searches found fits the group.
    NotFound,
    /// The release that the user named does not fit the group.
    FailedToMatch { release_id: String },
}

/// The model of an [`AskReason`].
pub enum AskReasonView {
    NotFound,
    FailedToMatch { release_id: Seq<char> },
}

impl View for AskReason {
    type V = AskReasonView;

    open spec fn view(&self) -> AskReasonView {
        match self {
            AskReason::NotFound => AskReasonView::NotFound,
            AskReason::FailedToMatch { release_id } => AskReasonView::FailedToMatch {
                release_id: release_id@,
            },
        }
    }
}

/// What the matcher needs next.
#[derive(Debug, PartialEq, Eq)]
pub enum MatcherAction<'a> {
    /// The addresses that the catalog's search finds with these parameters.
    Search { params: Vec<(&'static str, String)> },
    /// The address of the main release of the master at this address.
    FetchMaster { url: String },
    /// The release at this address.
    FetchRelease { url: String },
    /// The release with this id.
    FetchReleaseById { release_id: String },
    /// The user's word: the id of a release, or none to take the files of
    /// the group as they are.
    AskForReleaseId { reason: AskReason },
    /// Nothing more: this is what was found, group by group.
    Finish { results: Vec<DiscogsReleaseMatchResult<'a>> },
    /// Nothing more: matching cannot go on.
    Fail { error: MatcherError },
}

/// The model of a [`MatcherAction`].
pub enum ActionView {
    Search { params: Seq<(Seq<char>, Seq<char>)> },
    FetchMaster { url: Seq<char> },
    FetchRelease { url: Seq<char> },
    FetchReleaseById { release_id: Seq<char> },
    AskForReleaseId { reason: AskReasonView },
    Finish { results: Seq<MatchResultView> },
    Fail { error: MatcherError },
}

impl<'a> View for MatcherAction<'a> {
    type V = ActionView;

    open spec fn view(&self) -> ActionView {
        match self {
            MatcherAction::Search { params } => ActionView::Search { params: params.deep_view() },
            MatcherAction::FetchMaster { url } => ActionView::FetchMaster { url: url@ },
            MatcherAction::FetchRelease { url } => ActionView::FetchRelease { url: url@ },
            MatcherAction::FetchReleaseById { release_id } => ActionView::FetchReleaseById {
                release_id: release_id@,
            },
            MatcherAction::AskForReleaseId { reason } => ActionView::AskForReleaseId {
                reason: reason@,
            },
            MatcherAction::Finish { results } => ActionView::Finish {
                results: results.deep_view(),
            },
            MatcherAction::Fail { error } => ActionView::Fail { error: *error },
        }
    }
}

/// What the matcher is handed when what it needed is there.
#[derive(Debug, PartialEq, Eq)]
pub enum MatcherEvent {
    /// The addresses that a search found, in the order in which it found
    /// them.
    SearchResults { urls: Vec<String> },
    /// The address of a master's main release.
    MasterFetched { main_release_url: String },
    /// A release.
    ReleaseFetched { release: serialized::DiscogsRelease },
    /// What the user entered for a release, or none to take the files as
    /// they are.
    ReleaseIdEntered { text: Option<String> },
}

/// The model of a [`MatcherEvent`].
pub enum EventView {
    SearchResults { urls: Seq<Seq<char>> },
    MasterFetched { main_release_url: Seq<char> },
    ReleaseFetched { release: serialized::ReleaseView },
    ReleaseIdEntered { text: Option<Seq<char>> },
}

impl View for MatcherEvent {
    type V = EventView;

    open spec fn view(&self) -> EventView {
        match self {
            MatcherEvent::SearchResults { urls } => EventView::SearchResults {
                urls: urls.deep_view(),
            },
            MatcherEvent::MasterFetched { main_release_url } => EventView::MasterFetched {
                main_release_url: main_release_url@,
            },
            MatcherEvent::ReleaseFetched { release } => EventView::ReleaseFetched {
                release: release@,
            },
            MatcherEvent::ReleaseIdEntered { text } => EventView::ReleaseIdEntered {
                text: text.deep_view(),
            },
        }
    }
}

/// The matcher with nothing left to do.
pub open spec fn finished(m: MatcherView) -> MatcherView {
    MatcherView {
        remaining: Seq::empty(),
        results: Seq::empty(),
        music_files: Seq::empty(),
        search_params: Seq::empty(),
        checked_release_urls: Seq::empty(),
        stage: StageView::Finished,
        ..m
    }
}

/// Matching fails.
pub open spec fn failed(m: MatcherView, error: MatcherError) -> (MatcherView, ActionView) {
    (finished(m), ActionView::Fail { error })
}

/// The parameters of a search for masters or for releases: the type first,
/// then the parameters of the set.
pub open spec fn search_with(type_: Seq<char>, params: Seq<(Seq<char>, Seq<char>)>) -> ActionView {
    ActionView::Search { params: seq![("type"@, type_)] + params }
}

/// Goes on with the given set of search parameters: searches for masters
/// with them, or asks the user where all sets have had their turn.
pub open spec fn next_set(m: MatcherView, set: int) -> (MatcherView, ActionView) {
    if 0 <= set < m.search_params.len() {
        (
            MatcherView { stage: StageView::MasterSearch { set }, ..m },
            search_with("master"@, m.search_params[set]),
        )
    } else {
        (
            MatcherView { stage: StageView::Asking, ..m },
            ActionView::AskForReleaseId { reason: AskReasonView::NotFound },
        )
    }
}

/// Goes on with the masters of a search from `at` on: fetches the next
/// master, or searches for releases where no master is left, or goes to the
/// next set where this one had its share of releases.
pub open spec fn continue_masters(
    m: MatcherView,
    set: int,
    masters: Seq<Seq<char>>,
    at: int,
    taken: int,
) -> (MatcherView, ActionView) {
    if taken >= RELEASES_PER_SEARCH {
        next_set(m, set + 1)
    } else if 0 <= at < masters.len() {
        (
            MatcherView { stage: StageView::MasterFetch { set, masters, at, taken }, ..m },
            ActionView::FetchMaster { url: masters[at] },
        )
    } else if 0 <= set < m.search_params.len() {
        (
            MatcherView { stage: StageView::ReleaseSearch { set, taken }, ..m },
            search_with("release"@, m.search_params[set]),
        )
    } else {
        failed(m, MatcherError::UnexpectedEvent)
    }
}

/// Goes on with the releases of a search from `at` on: fetches the next of
/// them that was not looked at before, or goes to the next set where none is
/// left or this set had its share. A release that was looked at before
/// counts for the share all the same.
pub open spec fn continue_releases(
    m: MatcherView,
    set: int,
    releases: Seq<Seq<char>>,
    at: int,
    taken: int,
) -> (MatcherView, ActionView)
    decreases releases.len() - at,
{
    if taken >= RELEASES_PER_SEARCH || at < 0 || at >= releases.len() {
        next_set(m, set + 1)
    } else if m.checked_release_urls.contains(releases[at]) {
        continue_releases(m, set, releases, at + 1, taken + 1)
    } else {
        (
            MatcherView {
                checked_release_urls: m.checked_release_urls.push(releases[at]),
                stage: StageView::ReleaseFetch { set, releases, at, taken: taken + 1 },
                ..m
            },
            ActionView::FetchRelease { url: releases[at] },
        )
    }
}

/// Starts on the group whose files the matcher holds: with the release that
/// the user named for all groups where there is one, else with the first set
/// of search parameters.
pub open spec fn start_group(m: MatcherView) -> (MatcherView, ActionView) {
    match m.force_discogs_release_id {
        Some(text) => match release_id_in(text) {
            Some(release_id) => (
                MatcherView { stage: StageView::ManualFetch { release_id }, ..m },
                ActionView::FetchReleaseById { release_id },
            ),
            None => failed(m, MatcherError::InvalidReleaseId),
        },
        None => next_set(m, 0),
    }
}

/// Starts on the next group, or finishes where no group is left.
pub open spec fn next_group(m: MatcherView) -> (MatcherView, ActionView) {
    if m.remaining.len() > 0 {
        start_group(
            MatcherView {
                remaining: m.remaining.drop_first(),
                music_files: m.remaining[0],
                search_params: search_parameter_sets(m.remaining[0]),
                checked_release_urls: Seq::empty(),
                ..m
            },
        )
    } else {
        (finished(m), ActionView::Finish { results: m.results })
    }
}

/// Notes what was found for the group, and goes to the next.
pub open spec fn finish_group(m: MatcherView, result: MatchResultView) -> (
    MatcherView,
    ActionView,
) {
    next_group(MatcherView { results: m.results.push(result), ..m })
}

/// What the group is matched with when the release fits it.
pub open spec fn matched_with(
    m: MatcherView,
    release: refined::ReleaseView,
    simplified_match: bool,
) -> Option<MatchResultView> {
    match release_match(release.tracks, m.music_files, simplified_match) {
        Some(tracks_matching) => Some(MatchResultView::Matched { tracks_matching, release }),
        None => None,
    }
}

/// What the matcher does when it is handed an event: the matcher after it,
/// and what it needs next.
pub open spec fn step(m: MatcherView, event: EventView) -> (MatcherView, ActionView) {
    match (m.stage, event) {
        (StageView::MasterSearch { set }, EventView::SearchResults { urls }) => continue_masters(
            m,
            set,
            urls,
            0,
            0,
        ),
        (
            StageView::MasterFetch { set, masters, at, taken },
            EventView::MasterFetched { main_release_url },
        ) => {
            if m.checked_release_urls.contains(main_release_url) {
                continue_masters(m, set, masters, at + 1, taken + 1)
            } else {
                (
                    MatcherView {
                        checked_release_urls: m.checked_release_urls.push(main_release_url),
                        stage: StageView::MasterRelease { set, masters, at, taken: taken + 1 },
                        ..m
                    },
                    ActionView::FetchRelease { url: main_release_url },
                )
            }
        },
        (
            StageView::MasterRelease { set, masters, at, taken },
            EventView::ReleaseFetched { release },
        ) => match refined::refined_release(release) {
            Err(e) => failed(m, MatcherError::Model(e)),
            Ok(refined) => match matched_with(m, refined, false) {
                Some(result) => finish_group(m, result),
                None => continue_masters(m, set, masters, at + 1, taken),
            },
        },
        (StageView::ReleaseSearch { set, taken }, EventView::SearchResults { urls }) => {
            continue_releases(m, set, urls, 0, taken)
        },
        (
            StageView::ReleaseFetch { set, releases, at, taken },
            EventView::ReleaseFetched { release },
        ) => match refined::refined_release(release) {
            Err(e) => failed(m, MatcherError::Model(e)),
            Ok(refined) => match matched_with(m, refined, false) {
                Some(result) => finish_group(m, result),
                None => continue_releases(m, set, releases, at + 1, taken),
            },
        },
        (StageView::Asking, EventView::ReleaseIdEntered { text }) => match text {
            None => finish_group(m, MatchResultView::Unmatched(m.music_files)),
            Some(text) => match release_id_in(text) {
                Some(release_id) => (
                    MatcherView { stage: StageView::ManualFetch { release_id }, ..m },
                    ActionView::FetchReleaseById { release_id },
                ),
                None => failed(m, MatcherError::InvalidReleaseId),
            },
        },
        (StageView::ManualFetch { release_id }, EventView::ReleaseFetched { release }) => {
            match refined::refined_release(release) {
                Err(e) => failed(m, MatcherError::Model(e)),
                Ok(refined) => match matched_with(m, refined, true) {
                    Some(result) => finish_group(m, result),
                    None => (
                        MatcherView { stage: StageView::Asking, ..m },
                        ActionView::AskForReleaseId {
                            reason: AskReasonView::FailedToMatch { release_id },
                        },
                    ),
                },
            }
        },
        _ => failed(m, MatcherError::UnexpectedEvent),
    }
}

/// The matcher before its first group, for the given files.
pub open spec fn initial(
    files: Seq<MusicFileView>,
    force_discogs_release_id: Option<Seq<char>>,
) -> MatcherView {
    MatcherView {
        force_discogs_release_id,
        remaining: grouped_by_folder(files),
        results: Seq::empty(),
        music_files: Seq::empty(),
        search_params: Seq::empty(),
        checked_release_urls: Seq::empty(),
        stage: StageView::Finished,
    }
}

/// Whether what the matcher waits for can come: the set of parameters, the
/// master and the release that the stage names are there, and the set has
/// not had more than its share.
pub open spec fn stage_fits(m: MatcherView) -> bool {
    match m.stage {
        StageView::MasterSearch { set } => 0 <= set < m.search_params.len(),
        StageView::MasterFetch { set, masters, at, taken } => 0 <= set < m.search_params.len()
            && 0 <= at < masters.len() && 0 <= taken < RELEASES_PER_SEARCH,
        StageView::MasterRelease { set, masters, at, taken } => 0 <= set < m.search_params.len()
            && 0 <= at < masters.len() && 0 <= taken <= RELEASES_PER_SEARCH,
        StageView::ReleaseSearch { set, taken } => 0 <= set < m.search_params.len() && 0 <= taken
            < RELEASES_PER_SEARCH,
        StageView::ReleaseFetch { set, releases, at, taken } => 0 <= set < m.search_params.len()
            && 0 <= at < releases.len() && 0 <= taken <= RELEASES_PER_SEARCH,
        _ => true,
    }
}

/// Where the matcher goes on after some releases of a search does not
/// depend on what it was waiting for before.
pub proof fn lemma_continue_releases_any_stage(
    m: MatcherView,
    stage: StageView,
    set: int,
    releases: Seq<Seq<char>>,
    at: int,
    taken: int,
)
    ensures
        continue_releases(MatcherView { stage, ..m }, set, releases, at, taken)
            == continue_releases(m, set, releases, at, taken),
    decreases releases.len() - at,
{
    if !(taken >= RELEASES_PER_SEARCH || at < 0 || at >= releases.len())
        && m.checked_release_urls.contains(releases[at]) {
        lemma_continue_releases_any_stage(m, stage, set, releases, at + 1, taken + 1);
    }
}

impl<'a> DiscogsMatcher<'a> {
    #[verifier::type_invariant]
    spec fn well_formed(self) -> bool {
        stage_fits(self@)
    }

    /// Starts matching the given files, which it first puts in groups by
    /// their folders. With `force_discogs_release_id`, nothing is searched:
    /// every group is matched with the release of that id.
    pub fn match_music_files(
        music_files: &Vec<&'a MusicFile>,
        force_discogs_release_id: &Option<String>,
    ) -> (r: (DiscogsMatcher<'a>, MatcherAction<'a>))
        ensures
            (r.0@, r.1@) == next_group(
                initial(music_files.deep_view(), force_discogs_release_id.deep_view()),
            ),
    {
        let results: Vec<DiscogsReleaseMatchResult<'a>> = Vec::new();
        let no_files: Vec<&'a MusicFile> = Vec::new();
        let no_params: Vec<Vec<(&'static str, String)>> = Vec::new();
        let no_urls: Vec<String> = Vec::new();
        proof {
            lemma_deep_view_empty(results);
            lemma_deep_view_empty(no_files);
            lemma_deep_view_empty(no_params);
            lemma_deep_view_empty(no_urls);
        }
        let matcher = DiscogsMatcher {
            force_discogs_release_id: crate::tag::clone_text(force_discogs_release_id),
            remaining: group_by_folder(music_files),
            results,
            music_files: no_files,
            search_params: no_params,
            checked_release_urls: no_urls,
            stage: Stage::Finished,
        };
        matcher.next_group()
    }

    /// Hands the matcher what it needed, and learns what it needs next. An
    /// event that the matcher did not wait for makes matching fail.
    pub fn resume(self, event: MatcherEvent) -> (r: (DiscogsMatcher<'a>, MatcherAction<'a>))
        ensures
            (r.0@, r.1@) == step(self@, event@),
    {
        let ghost before = self@;
        let (stage, matcher) = self.take_stage();
        match (stage, event) {
            (Stage::MasterSearch { set }, MatcherEvent::SearchResults { urls }) => {
                matcher.continue_masters(set, urls, 0, 0)
            },
            (
                Stage::MasterFetch { set, masters, at, taken },
                MatcherEvent::MasterFetched { main_release_url },
            ) => {
                proof {
                    lemma_deep_view_index(masters);
                    assert(masters@.len() == masters.len());
                }
                if contains_text(&matcher.checked_release_urls, main_release_url.as_str()) {
                    matcher.continue_masters(set, masters, at + 1, taken + 1)
                } else {
                    let matcher = matcher.note_release(main_release_url.as_str());
                    (
                        matcher.waiting_for(
                            Stage::MasterRelease { set, masters, at, taken: taken + 1 },
                        ),
                        MatcherAction::FetchRelease { url: main_release_url },
                    )
                }
            },
            (
                Stage::MasterRelease { set, masters, at, taken },
                MatcherEvent::ReleaseFetched { release },
            ) => {
                proof {
                    lemma_deep_view_index(masters);
                    assert(masters@.len() == masters.len());
                }
                match matcher.consider(&release, false) {
                    Err(e) => matcher.fail(MatcherError::Model(e)),
                    Ok(Some(result)) => matcher.finish_group(result),
                    Ok(None) => matcher.continue_masters(set, masters, at + 1, taken),
                }
            },
            (Stage::ReleaseSearch { set, taken }, MatcherEvent::SearchResults { urls }) => {
                proof {
                    lemma_continue_releases_any_stage(
                        before,
                        StageView::Finished,
                        set as int,
                        urls.deep_view(),
                        0,
                        taken as int,
                    );
                }
                matcher.continue_releases(set, urls, 0, taken)
            },
            (
                Stage::ReleaseFetch { set, releases, at, taken },
                MatcherEvent::ReleaseFetched { release },
            ) => {
                proof {
                    lemma_deep_view_index(releases);
                    assert(releases@.len() == releases.len());
                    lemma_continue_releases_any_stage(
                        before,
                        StageView::Finished,
                        set as int,
                        releases.deep_view(),
                        at + 1,
                        taken as int,
                    );
                }
                match matcher.consider(&release, false) {
                    Err(e) => matcher.fail(MatcherError::Model(e)),
                    Ok(Some(result)) => matcher.finish_group(result),
                    Ok(None) => matcher.continue_releases(set, releases, at + 1, taken),
                }
            },
            (Stage::Asking, MatcherEvent::ReleaseIdEntered { text }) => match text {
                None => {
                    let files = matcher.music_files.clone();
                    proof {
                        lemma_deep_view_same(files, matcher.music_files);
                    }
                    matcher.finish_group(DiscogsReleaseMatchResult::Unmatched(files))
                },
                Some(text) => matcher.fetch_by_id(text.as_str()),
            },
            (Stage::ManualFetch { release_id }, MatcherEvent::ReleaseFetched { release }) => {
                match matcher.consider(&release, true) {
                    Err(e) => matcher.fail(MatcherError::Model(e)),
                    Ok(Some(result)) => matcher.finish_group(result),
                    Ok(None) => (
                        matcher.waiting_for(Stage::Asking),
                        MatcherAction::AskForReleaseId {
                            reason: AskReason::FailedToMatch { release_id },
                        },
                    ),
                }
            },
            _ => matcher.fail(MatcherError::UnexpectedEvent),
        }
    }

    /// What the matcher waits for, and the matcher waiting for nothing.
    fn take_stage(self) -> (r: (Stage, DiscogsMatcher<'a>))
        ensures
            stage_fits(self@),
            r.0@ == self@.stage,
            r.1@ == (MatcherView { stage: StageView::Finished, ..self@ }),
            self@.search_params.len() == r.1.search_params.len(),
    {
        proof {
            use_type_invariant(&self);
            lemma_deep_view_index(self.search_params);
        }
        let DiscogsMatcher {
            force_discogs_release_id,
            remaining,
            results,
            music_files,
            search_params,
            checked_release_urls,
            stage,
        } = self;
        (
            stage,
            DiscogsMatcher {
                force_discogs_release_id,
                remaining,
                results,
                music_files,
                search_params,
                checked_release_urls,
                stage: Stage::Finished,
            },
        )
    }

    /// The matcher waiting for something else.
    fn waiting_for(self, stage: Stage) -> (r: DiscogsMatcher<'a>)
        requires
            stage_fits(MatcherView { stage: stage@, ..self@ }),
        ensures
            r@ == (MatcherView { stage: stage@, ..self@ }),
    {
        DiscogsMatcher {
            force_discogs_release_id: self.force_discogs_release_id,
            remaining: self.remaining,
            results: self.results,
            music_files: self.music_files,
            search_params: self.search_params,
            checked_release_urls: self.checked_release_urls,
            stage,
        }
    }

    /// The matcher with one more release noted as looked at.
    fn note_release(self, url: &str) -> (r: DiscogsMatcher<'a>)
        ensures
            r@ == (MatcherView {
                checked_release_urls: self@.checked_release_urls.push(url@),
                ..self@
            }),
    {
        proof {
            use_type_invariant(&self);
        }
        let ghost before = self.checked_release_urls;
        let mut checked_release_urls = self.checked_release_urls;
        let noted = url.to_owned();
        checked_release_urls.push(noted);
        proof {
            lemma_deep_view_push(before, checked_release_urls, noted);
        }
        DiscogsMatcher {
            force_discogs_release_id: self.force_discogs_release_id,
            remaining: self.remaining,
            results: self.results,
            music_files: self.music_files,
            search_params: self.search_params,
            checked_release_urls,
            stage: self.stage,
        }
    }

    /// What the group is matched with when the release fits it.
    fn consider(&self, release: &serialized::DiscogsRelease, simplified_match: bool) -> (r: Result<
        Option<DiscogsReleaseMatchResult<'a>>,
        ModelError,
    >)
        ensures
            match refined::refined_release(release@) {
                Err(e) => r == Err::<Option<DiscogsReleaseMatchResult<'a>>, ModelError>(e),
                Ok(refined) => r is Ok && r->Ok_0.deep_view() == matched_with(
                    self@,
                    refined,
                    simplified_match,
                ),
            },
    {
        let refined_release = match refined::DiscogsRelease::from(release) {
            Ok(refined) => refined,
            Err(e) => {
                return Err(e);
            },
        };
        match match_release_with_music_files(&refined_release, &self.music_files, simplified_match) {
            Some(tracks_matching) => Ok(
                Some(DiscogsReleaseMatchResult::Matched { tracks_matching, release: refined_release }),
            ),
            None => Ok(None),
        }
    }

    /// Gives matching up.
    fn fail(self, error: MatcherError) -> (r: (DiscogsMatcher<'a>, MatcherAction<'a>))
        ensures
            (r.0@, r.1@) == failed(self@, error),
    {
        (self.finish(), MatcherAction::Fail { error })
    }

    /// The matcher with nothing left to do.
    fn finish(self) -> (r: DiscogsMatcher<'a>)
        ensures
            r@ == finished(self@),
    {
        let remaining: Vec<Vec<&'a MusicFile>> = Vec::new();
        let results: Vec<DiscogsReleaseMatchResult<'a>> = Vec::new();
        let music_files: Vec<&'a MusicFile> = Vec::new();
        let search_params: Vec<Vec<(&'static str, String)>> = Vec::new();
        let checked_release_urls: Vec<String> = Vec::new();
        proof {
            lemma_deep_view_empty(remaining);
            lemma_deep_view_empty(results);
            lemma_deep_view_empty(music_files);
            lemma_deep_view_empty(search_params);
            lemma_deep_view_empty(checked_release_urls);
        }
        DiscogsMatcher {
            force_discogs_release_id: self.force_discogs_release_id,
            remaining,
            results,
            music_files,
            search_params,
            checked_release_urls,
            stage: Stage::Finished,
        }
    }

    /// The search for masters or for releases with the parameters of `set`.
    fn search(&self, type_: &str, set: usize) -> (r: MatcherAction<'a>)
        requires
            set < self@.search_params.len(),
        ensures
            r@ == search_with(type_@, self@.search_params[set as int]),
    {
        proof {
            lemma_deep_view_index(self.search_params);
        }
        let set_params = &self.search_params[set];
        let ghost all = set_params.deep_view();
        let mut params: Vec<(&'static str, String)> = Vec::new();
        let first: (&'static str, String) = ("type", type_.to_owned());
        params.push(first);
        let mut i: usize = 0;
        proof {
            lemma_deep_view_index(*set_params);
            lemma_deep_view_index(params);
            assert(params.deep_view() =~= seq![("type"@, type_@)] + all.take(0));
        }
        while i < set_params.len()
            invariant
                i <= set_params.len(),
                all == set_params.deep_view(),
                all.len() == set_params.len(),
                forall|k: int| 0 <= k < set_params.len() ==> all[k] == set_params[k].deep_view(),
                params.deep_view() == seq![("type"@, type_@)] + all.take(i as int),
            decreases set_params.len() - i,
        {
            let ghost before = params;
            let param: (&'static str, String) = (set_params[i].0, set_params[i].1.clone());
            params.push(param);
            proof {
                lemma_deep_view_push(before, params, param);
                assert(params.deep_view() =~= seq![("type"@, type_@)] + all.take(i + 1));
            }
            i += 1;
        }
        assert(all.take(i as int) =~= all);
        MatcherAction::Search { params }
    }

    /// Goes on with the given set of search parameters.
    fn next_set(self, set: usize) -> (r: (DiscogsMatcher<'a>, MatcherAction<'a>))
        ensures
            (r.0@, r.1@) == next_set(self@, set as int),
    {
        proof {
            lemma_deep_view_index(self.search_params);
        }
        if set < self.search_params.len() {
            let action = self.search("master", set);
            (self.waiting_for(Stage::MasterSearch { set }), action)
        } else {
            (
                self.waiting_for(Stage::Asking),
                MatcherAction::AskForReleaseId { reason: AskReason::NotFound },
            )
        }
    }

    /// Goes on with the masters of a search from `at` on.
    fn continue_masters(self, set: usize, masters: Vec<String>, at: usize, taken: usize) -> (r: (
        DiscogsMatcher<'a>,
        MatcherAction<'a>,
    ))
        requires
            set < self@.search_params.len(),
        ensures
            (r.0@, r.1@) == continue_masters(
                self@,
                set as int,
                masters.deep_view(),
                at as int,
                taken as int,
            ),
    {
        proof {
            lemma_deep_view_index(self.search_params);
            lemma_deep_view_index(masters);
            assert(self.search_params@.len() == self.search_params.len());
        }
        if taken >= RELEASES_PER_SEARCH {
            self.next_set(set + 1)
        } else if at < masters.len() {
            let url = masters[at].clone();
            (
                self.waiting_for(Stage::MasterFetch { set, masters, at, taken }),
                MatcherAction::FetchMaster { url },
            )
        } else {
            let action = self.search("release", set);
            (self.waiting_for(Stage::ReleaseSearch { set, taken }), action)
        }
    }

    /// Goes on with the releases of a search from `at` on.
    fn continue_releases(self, set: usize, releases: Vec<String>, at: usize, taken: usize) -> (r: (
        DiscogsMatcher<'a>,
        MatcherAction<'a>,
    ))
        requires
            set < self@.search_params.len(),
            taken <= RELEASES_PER_SEARCH,
        ensures
            (r.0@, r.1@) == continue_releases(
                self@,
                set as int,
                releases.deep_view(),
                at as int,
                taken as int,
            ),
    {
        let ghost all = releases.deep_view();
        let ghost first_at = at as int;
        let ghost first_taken = taken as int;
        let mut at = at;
        let mut taken = taken;
        proof {
            lemma_deep_view_index(releases);
            lemma_deep_view_index(self.search_params);
        }
        while taken < RELEASES_PER_SEARCH && at < releases.len() && contains_text(
            &self.checked_release_urls,
            releases[at].as_str(),
        )
            invariant
                taken <= RELEASES_PER_SEARCH,
                set < self.search_params.len(),
                all == releases.deep_view(),
                all.len() == releases.len(),
                forall|k: int| 0 <= k < releases.len() ==> all[k] == releases[k]@,
                continue_releases(self@, set as int, all, at as int, taken as int)
                    == continue_releases(self@, set as int, all, first_at, first_taken),
            decreases releases.len() - at,
        {
            at += 1;
            taken += 1;
        }
        if taken >= RELEASES_PER_SEARCH || at >= releases.len() {
            self.next_set(set + 1)
        } else {
            let url = releases[at].clone();
            let matcher = self.note_release(url.as_str());
            (
                matcher.waiting_for(Stage::ReleaseFetch { set, releases, at, taken: taken + 1 }),
                MatcherAction::FetchRelease { url },
            )
        }
    }

    /// Asks for the release that a text names.
    fn fetch_by_id(self, text: &str) -> (r: (DiscogsMatcher<'a>, MatcherAction<'a>))
        ensures
            (r.0@, r.1@) == match release_id_in(text@) {
                Some(release_id) => (
                    MatcherView { stage: StageView::ManualFetch { release_id }, ..self@ },
                    ActionView::FetchReleaseById { release_id },
                ),
                None => failed(self@, MatcherError::InvalidReleaseId),
            },
    {
        match extract_discogs_id(text) {
            Ok(release_id) => (
                self.waiting_for(Stage::ManualFetch { release_id: release_id.clone() }),
                MatcherAction::FetchReleaseById { release_id },
            ),
            Err(e) => self.fail(e),
        }
    }

    /// Starts on the group whose files the matcher holds.
    fn start_group(self) -> (r: (DiscogsMatcher<'a>, MatcherAction<'a>))
        ensures
            (r.0@, r.1@) == start_group(self@),
    {
        match crate::tag::clone_text(&self.force_discogs_release_id) {
            Some(text) => self.fetch_by_id(text.as_str()),
            None => self.next_set(0),
        }
    }

    /// Starts on the next group, or finishes where no group is left.
    fn next_group(self) -> (r: (DiscogsMatcher<'a>, MatcherAction<'a>))
        ensures
            (r.0@, r.1@) == next_group(self@),
    {
        proof {
            lemma_deep_view_index(self.remaining);
        }
        let DiscogsMatcher {
            force_discogs_release_id,
            remaining,
            results,
            music_files,
            search_params,
            checked_release_urls,
            stage,
        } = self;
        if remaining.len() > 0 {
            let ghost before = remaining;
            let mut remaining = remaining;
            let music_files = remaining.remove(0);
            let search_params = common_search_params_from_music_files(&music_files);
            let checked_release_urls: Vec<String> = Vec::new();
            proof {
                lemma_deep_view_remove(before, remaining, 0);
                lemma_deep_view_empty(checked_release_urls);
                assert(before.deep_view().remove(0) =~= before.deep_view().drop_first());
            }
            let matcher = DiscogsMatcher {
                force_discogs_release_id,
                remaining,
                results,
                music_files,
                search_params,
                checked_release_urls,
                stage: Stage::Finished,
            };
            matcher.start_group()
        } else {
            let none: Vec<DiscogsReleaseMatchResult<'a>> = Vec::new();
            let emptied = DiscogsMatcher {
                force_discogs_release_id,
                remaining,
                results: none,
                music_files,
                search_params,
                checked_release_urls,
                stage: Stage::Finished,
            };
            (emptied.finish(), MatcherAction::Finish { results })
        }
    }

    /// Notes what was found for the group, and goes to the next.
    fn finish_group(self, result: DiscogsReleaseMatchResult<'a>) -> (r: (
        DiscogsMatcher<'a>,
        MatcherAction<'a>,
    ))
        ensures
            (r.0@, r.1@) == finish_group(self@, result@),
    {
        let DiscogsMatcher {
            force_discogs_release_id,
            remaining,
            results,
            music_files,
            search_params,
            checked_release_urls,
            stage,
        } = self;
        let ghost before = results;
        let mut results = results;
        results.push(result);
        proof {
            lemma_deep_view_push(before, results, result);
        }
        let matcher = DiscogsMatcher {
            force_discogs_release_id,
            remaining,
            results,
            music_files,
            search_params,
            checked_release_urls,
            stage: Stage::Finished,
        };
        matcher.next_group()
    }
}

/// Whether the matcher is in good order: what it waits for can come, and
/// it has noted no release twice.
pub open spec fn in_order(m: MatcherView) -> bool {
    stage_fits(m) && m.checked_release_urls.no_duplicates()
}

/// Whether an action fetches a release that the matcher before it had not
/// looked at, and the matcher after it has noted.
pub open spec fn fetches_only_new(m: MatcherView, next: MatcherView, action: ActionView) -> bool {
    action matches ActionView::FetchRelease { url } ==> !m.checked_release_urls.contains(url)
        && next.checked_release_urls == m.checked_release_urls.push(url)
}

/// Noting a release that was not noted before notes no release twice.
pub proof fn lemma_push_new(urls: Seq<Seq<char>>, url: Seq<char>)
    requires
        urls.no_duplicates(),
        !urls.contains(url),
    ensures
        urls.push(url).no_duplicates(),
{
    assert forall|i: int, j: int|
        0 <= i < urls.push(url).len() && 0 <= j < urls.push(url).len() && i != j implies urls.push(
        url,
    )[i] != urls.push(url)[j] by {
        if i < urls.len() && j < urls.len() {
        } else if i < urls.len() {
            assert(urls[i] != url);
        } else {
            assert(urls[j] != url);
        }
    }
}

/// Going to a set of search parameters keeps the matcher in good order.
pub proof fn lemma_next_set_in_order(m: MatcherView, set: int)
    requires
        m.checked_release_urls.no_duplicates(),
        set >= 0,
    ensures
        in_order(next_set(m, set).0),
        fetches_only_new(m, next_set(m, set).0, next_set(m, set).1),
{
}

/// Going on with the releases of a search keeps the matcher in good order,
/// and fetches only a release that was not looked at.
pub proof fn lemma_continue_releases_in_order(
    m: MatcherView,
    set: int,
    releases: Seq<Seq<char>>,
    at: int,
    taken: int,
)
    requires
        m.checked_release_urls.no_duplicates(),
        0 <= set < m.search_params.len(),
        0 <= taken <= RELEASES_PER_SEARCH,
    ensures
        in_order(continue_releases(m, set, releases, at, taken).0),
        fetches_only_new(
            m,
            continue_releases(m, set, releases, at, taken).0,
            continue_releases(m, set, releases, at, taken).1,
        ),
    decreases releases.len() - at,
{
    if taken >= RELEASES_PER_SEARCH || at < 0 || at >= releases.len() {
        lemma_next_set_in_order(m, set + 1);
    } else if m.checked_release_urls.contains(releases[at]) {
        lemma_continue_releases_in_order(m, set, releases, at + 1, taken + 1);
    } else {
        lemma_push_new(m.checked_release_urls, releases[at]);
    }
}

/// Starting on the next group keeps the matcher in good order.
pub proof fn lemma_next_group_in_order(m: MatcherView)
    ensures
        in_order(next_group(m).0),
        !(next_group(m).1 is FetchRelease),
{
    if m.remaining.len() > 0 {
        let started = MatcherView {
            remaining: m.remaining.drop_first(),
            music_files: m.remaining[0],
            search_params: search_parameter_sets(m.remaining[0]),
            checked_release_urls: Seq::empty(),
            ..m
        };
        lemma_next_set_in_order(started, 0);
    }
}

/// Every step keeps the matcher in good order: it never waits for more than
/// its share of releases for one set of search parameters, and it fetches no
/// release that it has looked at for the group before.
pub proof fn step_keeps_order(m: MatcherView, event: EventView)
    requires
        in_order(m),
    ensures
        in_order(step(m, event).0),
        fetches_only_new(m, step(m, event).0, step(m, event).1),
{
    match (m.stage, event) {
        (StageView::MasterSearch { set }, EventView::SearchResults { urls }) => {
            lemma_next_set_in_order(m, set + 1);
        },
        (
            StageView::MasterFetch { set, masters, at, taken },
            EventView::MasterFetched { main_release_url },
        ) => {
            if m.checked_release_urls.contains(main_release_url) {
                lemma_next_set_in_order(m, set + 1);
            } else {
                lemma_push_new(m.checked_release_urls, main_release_url);
            }
        },
        (
            StageView::MasterRelease { set, masters, at, taken },
            EventView::ReleaseFetched { release },
        ) => {
            match refined::refined_release(release) {
                Err(e) => {},
                Ok(refined) => match matched_with(m, refined, false) {
                    Some(result) => {
                        lemma_next_group_in_order(
                            MatcherView { results: m.results.push(result), ..m },
                        );
                    },
                    None => {
                        lemma_next_set_in_order(m, set + 1);
                    },
                },
            }
        },
        (StageView::ReleaseSearch { set, taken }, EventView::SearchResults { urls }) => {
            lemma_continue_releases_in_order(m, set, urls, 0, taken);
        },
        (
            StageView::ReleaseFetch { set, releases, at, taken },
            EventView::ReleaseFetched { release },
        ) => {
            match refined::refined_release(release) {
                Err(e) => {},
                Ok(refined) => match matched_with(m, refined, false) {
                    Some(result) => {
                        lemma_next_group_in_order(
                            MatcherView { results: m.results.push(result), ..m },
                        );
                    },
                    None => {
                        lemma_continue_releases_in_order(m, set, releases, at + 1, taken);
                    },
                },
            }
        },
        (StageView::Asking, EventView::ReleaseIdEntered { text }) => {
            match text {
                None => {
                    lemma_next_group_in_order(
                        MatcherView {
                            results: m.results.push(MatchResultView::Unmatched(m.music_files)),
                            ..m
                        },
                    );
                },
                Some(text) => {},
            }
        },
        (StageView::ManualFetch { release_id }, EventView::ReleaseFetched { release }) => {
            match refined::refined_release(release) {
                Err(e) => {},
                Ok(refined) => match matched_with(m, refined, true) {
                    Some(result) => {
                        lemma_next_group_in_order(
                            MatcherView { results: m.results.push(result), ..m },
                        );
                    },
                    None => {},
                },
            }
        },
        _ => {},
    }
}

/// A matcher starts in good order.
pub proof fn start_is_in_order(
    files: Seq<MusicFileView>,
    force_discogs_release_id: Option<Seq<char>>,
)
    ensures
        in_order(next_group(initial(files, force_discogs_release_id)).0),
{
    lemma_next_group_in_order(initial(files, force_discogs_release_id));
}

/// Whether a result is what matching can find for a group of these files:
/// the files themselves where nothing was matched, and else a pair for
/// each file, in the files' order, as matching the release with the files
/// gives them.
pub open spec fn result_is_for(result: MatchResultView, files: Seq<MusicFileView>) -> bool {
    match result {
        MatchResultView::Matched { tracks_matching, release } => {
            &&& tracks_matching.len() == files.len()
            &&& forall|i: int|
                0 <= i < files.len() ==> (#[trigger] tracks_matching[i]).music_file == files[i]
            &&& exists|simplified_match: bool|
                release_match(release.tracks, files, simplified_match) == Some(tracks_matching)
        },
        MatchResultView::Unmatched(unmatched) => unmatched == files,
    }
}

/// The results that are there after a step: those that the matcher hands
/// out when it finishes, and else those that it keeps.
pub open spec fn results_after(next: MatcherView, action: ActionView) -> Seq<MatchResultView> {
    match action {
        ActionView::Finish { results } => results,
        _ => next.results,
    }
}

/// Starting on the next group leaves the results as they are, unless
/// matching fails.
pub proof fn lemma_next_group_keeps_results(m: MatcherView)
    ensures
        next_group(m).1 is Fail || results_after(next_group(m).0, next_group(m).1) == m.results,
{
}

/// A step adds at most one result, and the result that it adds is for the
/// files of the group that the matcher was working on: every file of the
/// group is in it exactly once.
pub proof fn step_adds_a_result_for_the_group(m: MatcherView, event: EventView)
    ensures
        ({
            let (next, action) = step(m, event);
            let after = results_after(next, action);
            ||| action is Fail
            ||| after == m.results
            ||| (after.len() == m.results.len() + 1 && after.drop_last() == m.results
                && result_is_for(after.last(), m.music_files))
        }),
{
    let (next, action) = step(m, event);
    let after = results_after(next, action);
    let found: Option<MatchResultView> = match (m.stage, event) {
        (StageView::MasterRelease { .. }, EventView::ReleaseFetched { release })
        | (StageView::ReleaseFetch { .. }, EventView::ReleaseFetched { release }) => {
            match refined::refined_release(release) {
                Ok(refined) => matched_with(m, refined, false),
                Err(_) => None,
            }
        },
        (StageView::ManualFetch { .. }, EventView::ReleaseFetched { release }) => {
            match refined::refined_release(release) {
                Ok(refined) => matched_with(m, refined, true),
                Err(_) => None,
            }
        },
        (StageView::Asking, EventView::ReleaseIdEntered { text: None }) => Some(
            MatchResultView::Unmatched(m.music_files),
        ),
        _ => None,
    };
    match found {
        Some(result) => {
            let noted = MatcherView { results: m.results.push(result), ..m };
            assert(step(m, event) == next_group(noted));
            lemma_next_group_keeps_results(noted);
            if !(action is Fail) {
                assert(after == m.results.push(result));
                assert(after.drop_last() =~= m.results);
                match result {
                    MatchResultView::Matched { tracks_matching, release } => {
                        let simplified_match = m.stage is ManualFetch;
                        assert(release_match(release.tracks, m.music_files, simplified_match)
                            == Some(tracks_matching));
                        matched_group_is_paired_once(
                            release.tracks,
                            m.music_files,
                            simplified_match,
                        );
                    },
                    MatchResultView::Unmatched(_) => {},
                }
            }
        },
        None => {
            lemma_step_without_result(m, event);
        },
    }
}

/// A step that finishes no group leaves the results as they are.
pub proof fn lemma_step_without_result(m: MatcherView, event: EventView)
    requires
        (match (m.stage, event) {
            (StageView::MasterRelease { .. }, EventView::ReleaseFetched { release })
            | (StageView::ReleaseFetch { .. }, EventView::ReleaseFetched { release }) => {
                match refined::refined_release(release) {
                    Ok(refined) => matched_with(m, refined, false),
                    Err(_) => None,
                }
            },
            (StageView::ManualFetch { .. }, EventView::ReleaseFetched { release }) => {
                match refined::refined_release(release) {
                    Ok(refined) => matched_with(m, refined, true),
                    Err(_) => None,
                }
            },
            (StageView::Asking, EventView::ReleaseIdEntered { text: None }) => Some(
                MatchResultView::Unmatched(m.music_files),
            ),
            _ => None::<MatchResultView>,
        }) is None,
    ensures
        step(m, event).1 is Fail || results_after(step(m, event).0, step(m, event).1) == m.results,
{
    match (m.stage, event) {
        (StageView::ReleaseSearch { set, taken }, EventView::SearchResults { urls }) => {
            lemma_continue_releases_keeps_results(m, set, urls, 0, taken);
        },
        (
            StageView::ReleaseFetch { set, releases, at, taken },
            EventView::ReleaseFetched { release },
        ) => {
            lemma_continue_releases_keeps_results(m, set, releases, at + 1, taken);
        },
        _ => {},
    }
}

/// Going on with the releases of a search leaves the results as they are.
pub proof fn lemma_continue_releases_keeps_results(
    m: MatcherView,
    set: int,
    releases: Seq<Seq<char>>,
    at: int,
    taken: int,
)
    ensures
        !(continue_releases(m, set, releases, at, taken).1 is Fail),
        !(continue_releases(m, set, releases, at, taken).1 is Finish),
        continue_releases(m, set, releases, at, taken).0.results == m.results,
    decreases releases.len() - at,
{
    if !(taken >= RELEASES_PER_SEARCH || at < 0 || at >= releases.len())
        && m.checked_release_urls.contains(releases[at]) {
        lemma_continue_releases_keeps_results(m, set, releases, at + 1, taken + 1);
    }
}

} // verus!
