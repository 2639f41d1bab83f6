use vstd::prelude::*;
use crate::organizer::changes::{
    cover_folders,
    folders_to_list,
    target_folders,
    ChangeList,
    ChangeListView,
    MusicFileChange,
    MusicFileChangeView,
};
use crate::util::path::FilePath;
use crate::util::seqs::distinct;
use crate::util::views::{lemma_deep_view_empty, lemma_deep_view_index, lemma_deep_view_push};

pub mod changes;
pub mod details;
pub mod edit;
pub mod unedited;

verus! {

/// A kind of change that a run may make.
#[derive(Clone, Copy, Debug, PartialEq, Eq, Structural)]
pub enum AllowedChangeType {
    MusicFiles,
    Covers,
    SourceCleanup,
    TargetCleanup,
}

/// Whether `allowed` holds the given kind of change.
pub fn allows(allowed: &Vec<AllowedChangeType>, kind: AllowedChangeType) -> (r: bool)
    ensures
        r == allowed@.contains(kind),
{
    let mut i: usize = 0;
    while i < allowed.len()
        invariant
            i <= allowed.len(),
            forall|k: int| 0 <= k < i ==> allowed@[k] != kind,
        decreases allowed.len() - i,
    {
        if allowed[i] == kind {
            return true;
        }
        i += 1;
    }
    false
}

/// What a run is to do.
#[derive(Debug, PartialEq, Eq)]
pub struct Args {
    pub input_paths: Vec<FilePath>,
    pub output_path: Option<FilePath>,
    pub allowed_change_types: Vec<AllowedChangeType>,
    pub allow_questions: bool,
    pub chunk_size: Option<usize>,
    pub discogs_token: Option<String>,
    pub discogs_release_id: Option<String>,
    pub force_fsync: bool,
}

/// The model of [`Args`].
pub struct ArgsView {
    pub input_paths: Seq<Seq<Seq<char>>>,
    pub output_path: Option<Seq<Seq<char>>>,
    pub allowed_change_types: Seq<AllowedChangeType>,
    pub allow_questions: bool,
    pub chunk_size: Option<usize>,
    pub discogs_token: Option<Seq<char>>,
    pub discogs_release_id: Option<Seq<char>>,
    pub force_fsync: bool,
}

impl View for Args {
    type V = ArgsView;

    open spec fn view(&self) -> ArgsView {
        ArgsView {
            input_paths: self.input_paths.deep_view(),
            output_path: self.output_path.deep_view(),
            allowed_change_types: self.allowed_change_types@,
            allow_questions: self.allow_questions,
            chunk_size: self.chunk_size,
            discogs_token: self.discogs_token.deep_view(),
            discogs_release_id: self.discogs_release_id.deep_view(),
            force_fsync: self.force_fsync,
        }
    }
}

/// What the user is asked before a plan is carried out.
#[derive(Clone, Copy, Debug, PartialEq, Eq, Structural)]
pub enum Question {
    /// "Do you want to review changes?", to which the ready answer is no.
    Review,
    /// "Do you want to edit changes?", to which the ready answer is no.
    Edit,
    /// "Do you want to make changes?", to which the ready answer is yes.
    MakeChanges,
}

/// What a run does next with a plan.
#[derive(Clone, Copy, Debug, PartialEq, Eq, Structural)]
pub enum WorkStep {
    /// Ask the user.
    Ask(Question),
    /// Show the plan, then ask the user.
    ShowThenAsk(Question),
    /// Let the user edit the plan, then ask the user.
    EditThenAsk(Question),
    /// Carry the plan out.
    Apply,
    /// Leave the plan.
    Skip,
}

/// What a run does first with a plan: it asks whether to review the plan,
/// or carries it out at once where nothing is to be asked.
pub open spec fn first_step(allow_questions: bool) -> WorkStep {
    if allow_questions {
        WorkStep::Ask(Question::Review)
    } else {
        WorkStep::Apply
    }
}

/// What a run does after the user answered `question`. A plan is shown
/// when the user wants to review it, and can then be edited and reviewed
/// again, as often as the user wants; in the end the user says whether to
/// carry it out.
pub open spec fn step_after(question: Question, yes: bool) -> WorkStep {
    match question {
        Question::Review => if yes {
            WorkStep::ShowThenAsk(Question::Edit)
        } else {
            WorkStep::Ask(Question::MakeChanges)
        },
        Question::Edit => if yes {
            WorkStep::EditThenAsk(Question::Review)
        } else {
            WorkStep::Ask(Question::MakeChanges)
        },
        Question::MakeChanges => if yes {
            WorkStep::Apply
        } else {
            WorkStep::Skip
        },
    }
}

/// What a run does first with a plan.
pub fn first_work_step(allow_questions: bool) -> (r: WorkStep)
    ensures
        r == first_step(allow_questions),
{
    if allow_questions {
        WorkStep::Ask(Question::Review)
    } else {
        WorkStep::Apply
    }
}

/// What a run does after the user answered a question.
pub fn next_work_step(question: Question, yes: bool) -> (r: WorkStep)
    ensures
        r == step_after(question, yes),
{
    match question {
        Question::Review => if yes {
            WorkStep::ShowThenAsk(Question::Edit)
        } else {
            WorkStep::Ask(Question::MakeChanges)
        },
        Question::Edit => if yes {
            WorkStep::EditThenAsk(Question::Review)
        } else {
            WorkStep::Ask(Question::MakeChanges)
        },
        Question::MakeChanges => if yes {
            WorkStep::Apply
        } else {
            WorkStep::Skip
        },
    }
}

/// Whether a plan holds nothing to do: no music file to write, no cover to
/// download and nothing to remove. Only such a plan is passed over; a plan
/// that holds anything at all is shown, asked about and carried out.
pub fn nothing_to_do(changes: &ChangeList) -> (r: bool)
    ensures
        r == (changes@.music_files.len() == 0 && changes@.covers.len() == 0
            && changes@.cleanups.len() == 0),
{
    proof {
        lemma_deep_view_index(changes.music_files);
        lemma_deep_view_index(changes.covers);
        lemma_deep_view_index(changes.cleanups);
    }
    changes.music_files.len() == 0 && changes.covers.len() == 0 && changes.cleanups.len() == 0
}

/// A plan with nothing to do has no part to carry out, unless the folders
/// are to be made sure of; and a plan with anything to do has a part for it.
pub proof fn plan_with_work_is_carried_out(changes: ChangeListView, force_fsync: bool)
    ensures
        (changes.music_files.len() == 0 && changes.covers.len() == 0 && changes.cleanups.len()
            == 0 && !force_fsync) <==> apply_order(changes, force_fsync).len() == 0,
        changes.cleanups.len() > 0 ==> apply_order(changes, force_fsync).contains(
            ApplyStepView::Cleanup,
        ),
{
    let writing = step_if(
        changes.music_files.len() > 0,
        ApplyStepView::WriteMusicFiles { total_bytes: total_bytes_of(changes.music_files) },
    );
    let covers = step_if(
        changes.covers.len() > 0,
        ApplyStepView::DownloadCovers { count: changes.covers.len() as usize },
    );
    let cleaning = step_if(changes.cleanups.len() > 0, ApplyStepView::Cleanup);
    let all = apply_order(changes, force_fsync);
    if changes.cleanups.len() > 0 {
        assert(cleaning[0] == ApplyStepView::Cleanup);
        assert(all[(writing.len() + covers.len()) as int] == ApplyStepView::Cleanup);
    }
}

/// One part of carrying a plan out.
#[derive(Debug, PartialEq, Eq)]
pub enum ApplyStep {
    /// Write the music files; so many bytes are to be moved in all.
    WriteMusicFiles { total_bytes: u64 },
    /// Download the covers; there are so many.
    DownloadCovers { count: usize },
    /// Remove the leftovers.
    Cleanup,
    /// Make sure that these folders are on disk.
    Fsync { folders: Vec<FilePath> },
}

/// The model of an [`ApplyStep`].
pub enum ApplyStepView {
    WriteMusicFiles { total_bytes: u64 },
    DownloadCovers { count: usize },
    Cleanup,
    Fsync { folders: Seq<Seq<Seq<char>>> },
}

impl View for ApplyStep {
    type V = ApplyStepView;

    open spec fn view(&self) -> ApplyStepView {
        match self {
            ApplyStep::WriteMusicFiles { total_bytes } => ApplyStepView::WriteMusicFiles {
                total_bytes: *total_bytes,
            },
            ApplyStep::DownloadCovers { count } => ApplyStepView::DownloadCovers { count: *count },
            ApplyStep::Cleanup => ApplyStepView::Cleanup,
            ApplyStep::Fsync { folders } => ApplyStepView::Fsync { folders: folders.deep_view() },
        }
    }
}

impl DeepView for ApplyStep {
    type V = ApplyStepView;

    open spec fn deep_view(&self) -> ApplyStepView {
        self.view()
    }
}

/// The lengths of the source files of the changes, added up.
pub open spec fn bytes_of(changes: Seq<MusicFileChangeView>) -> nat
    decreases changes.len(),
{
    if changes.len() == 0 {
        0
    } else {
        bytes_of(changes.drop_last()) + changes.last().source_file_length as nat
    }
}

/// How many bytes are to be moved to write the music files, as far as 64
/// bits count them.
pub open spec fn total_bytes_of(changes: Seq<MusicFileChangeView>) -> u64 {
    if bytes_of(changes) > u64::MAX {
        u64::MAX
    } else {
        bytes_of(changes) as u64
    }
}

/// The folders that a plan writes to, each once.
pub open spec fn folders_written(changes: ChangeListView) -> Seq<Seq<Seq<char>>> {
    distinct(target_folders(changes.music_files) + cover_folders(changes.covers))
}

/// One step where `present` says so, and none otherwise.
pub open spec fn step_if(present: bool, step: ApplyStepView) -> Seq<ApplyStepView> {
    if present {
        seq![step]
    } else {
        Seq::empty()
    }
}

/// The parts of carrying a plan out, in their order: the music files are
/// written, then the covers are downloaded, then the leftovers are removed,
/// and at last, where it is asked for, the folders that were written to are
/// made sure to be on disk. A part with nothing to do is left out.
pub open spec fn apply_order(changes: ChangeListView, force_fsync: bool) -> Seq<ApplyStepView> {
    step_if(
        changes.music_files.len() > 0,
        ApplyStepView::WriteMusicFiles { total_bytes: total_bytes_of(changes.music_files) },
    ) + step_if(
        changes.covers.len() > 0,
        ApplyStepView::DownloadCovers { count: changes.covers.len() as usize },
    ) + step_if(changes.cleanups.len() > 0, ApplyStepView::Cleanup) + step_if(
        force_fsync,
        ApplyStepView::Fsync { folders: folders_written(changes) },
    )
}

/// How many bytes are to be moved to write the music files.
pub fn total_bytes_to_transfer(changes: &Vec<MusicFileChange>) -> (r: u64)
    ensures
        r == total_bytes_of(changes.deep_view()),
{
    let ghost all = changes.deep_view();
    let mut total: u64 = 0;
    let mut i: usize = 0;
    proof {
        lemma_deep_view_index(*changes);
        assert(all.take(0) =~= Seq::<MusicFileChangeView>::empty());
    }
    while i < changes.len()
        invariant
            i <= changes.len(),
            all == changes.deep_view(),
            all.len() == changes.len(),
            forall|k: int| 0 <= k < changes.len() ==> all[k] == changes[k]@,
            total == total_bytes_of(all.take(i as int)),
        decreases changes.len() - i,
    {
        proof {
            assert(all.take(i + 1).drop_last() =~= all.take(i as int));
            assert(all.take(i + 1).last() == changes[i as int]@);
        }
        total = total.saturating_add(changes[i].source_file_length);
        i += 1;
    }
    assert(all.take(i as int) =~= all);
    total
}

/// The folders that a plan writes to, each once.
pub fn folders_to_sync(changes: &ChangeList) -> (r: Vec<FilePath>)
    ensures
        r.deep_view() == folders_written(changes@),
{
    let r = folders_to_list(&changes.music_files, &changes.covers, false, true);
    proof {
        let targets = target_folders(changes@.music_files) + cover_folders(changes@.covers);
        assert(targets + Seq::<Seq<Seq<char>>>::empty() =~= targets);
    }
    r
}

/// Appends a step where `present` says so.
fn push_step_if(steps: &mut Vec<ApplyStep>, present: bool, step: ApplyStep)
    ensures
        final(steps).deep_view() == old(steps).deep_view() + step_if(present, step@),
{
    if present {
        let ghost before = *steps;
        steps.push(step);
        proof {
            lemma_deep_view_push(before, *steps, step);
        }
        assert(steps.deep_view() =~= old(steps).deep_view() + step_if(present, step@));
    } else {
        assert(steps.deep_view() =~= old(steps).deep_view() + step_if(present, step@));
    }
}

/// The parts of carrying a plan out, in their order.
pub fn apply_steps(changes: &ChangeList, force_fsync: bool) -> (r: Vec<ApplyStep>)
    ensures
        r.deep_view() == apply_order(changes@, force_fsync),
{
    proof {
        lemma_deep_view_index(changes.music_files);
        lemma_deep_view_index(changes.covers);
        lemma_deep_view_index(changes.cleanups);
    }
    let mut steps: Vec<ApplyStep> = Vec::new();
    proof {
        lemma_deep_view_empty(steps);
    }
    let write = ApplyStep::WriteMusicFiles {
        total_bytes: total_bytes_to_transfer(&changes.music_files),
    };
    push_step_if(&mut steps, changes.music_files.len() > 0, write);
    assert(steps.deep_view() =~= step_if(changes@.music_files.len() > 0, write@));
    push_step_if(
        &mut steps,
        changes.covers.len() > 0,
        ApplyStep::DownloadCovers { count: changes.covers.len() },
    );
    push_step_if(&mut steps, changes.cleanups.len() > 0, ApplyStep::Cleanup);
    let folders = if force_fsync {
        folders_to_sync(changes)
    } else {
        Vec::new()
    };
    push_step_if(&mut steps, force_fsync, ApplyStep::Fsync { folders });
    steps
}

/// How far the progress moves when `bytes` of a source file were read: by
/// half of them, the other half being left for writing.
pub open spec fn progress_of_reading(bytes: u64) -> u64 {
    bytes / 2
}

/// How far the progress moves when `bytes` of a target file were written,
/// the target being `target_length` long and its source `source_length`:
/// by half the share of the source that these bytes are of the target.
pub open spec fn progress_of_writing(bytes: u64, source_length: u64, target_length: u64) -> nat {
    if target_length == 0 {
        0
    } else {
        (bytes as nat * source_length as nat / target_length as nat / 2) as nat
    }
}

/// How far the progress moves when `bytes` of a source file were read.
pub fn read_progress(bytes: u64) -> (r: u64)
    ensures
        r == progress_of_reading(bytes),
{
    bytes / 2
}

/// How far the progress moves when `bytes` of a target file were written.
pub fn write_progress(bytes: u64, source_length: u64, target_length: u64) -> (r: u128)
    ensures
        r == progress_of_writing(bytes, source_length, target_length),
{
    if target_length == 0 {
        0
    } else {
        assert(bytes * source_length <= u128::MAX) by (nonlinear_arith)
            requires
                bytes <= u64::MAX,
                source_length <= u64::MAX,
        ;
        (bytes as u128) * (source_length as u128) / (target_length as u128) / 2
    }
}

/// The items in chunks of `size`, the last chunk holding what is left.
pub open spec fn chunks_of(items: Seq<Seq<Seq<char>>>, size: int) -> Seq<Seq<Seq<Seq<char>>>>
    recommends
        size > 0,
    decreases items.len(),
{
    if items.len() == 0 || size <= 0 {
        Seq::empty()
    } else if items.len() <= size {
        seq![items]
    } else {
        seq![items.take(size)] + chunks_of(items.skip(size), size)
    }
}

/// The folders in chunks: of `chunk_size` folders each where a size is
/// given, and all in one chunk otherwise.
pub open spec fn folder_chunks(folders: Seq<Seq<Seq<char>>>, chunk_size: Option<usize>) -> Seq<
    Seq<Seq<Seq<char>>>,
> {
    match chunk_size {
        Some(size) => chunks_of(folders, size as int),
        None => chunks_of(folders, folders.len() as int),
    }
}

/// Puts the folders in chunks, so that a run works on a few folders at a
/// time.
pub fn chunk_folders(folders: &Vec<FilePath>, chunk_size: Option<usize>) -> (r: Vec<Vec<FilePath>>)
    requires
        chunk_size != Some(0usize),
    ensures
        r.deep_view() == folder_chunks(folders.deep_view(), chunk_size),
{
    let ghost all = folders.deep_view();
    let size = match chunk_size {
        Some(size) => size,
        None => folders.len(),
    };
    proof {
        lemma_deep_view_index(*folders);
    }
    let mut chunks: Vec<Vec<FilePath>> = Vec::new();
    let mut from: usize = 0;
    proof {
        lemma_deep_view_empty(chunks);
        assert(all.skip(0) =~= all);
        assert(chunks.deep_view() + chunks_of(all.skip(0), size as int) =~= chunks_of(
            all,
            size as int,
        ));
    }
    while from < folders.len()
        invariant
            from <= folders.len(),
            size > 0 || folders.len() == 0,
            all == folders.deep_view(),
            all.len() == folders.len(),
            forall|k: int| 0 <= k < folders.len() ==> all[k] == folders[k]@,
            chunks_of(all, size as int) == chunks.deep_view() + chunks_of(
                all.skip(from as int),
                size as int,
            ),
        decreases folders.len() - from,
    {
        let ghost rest = all.skip(from as int);
        let to = if folders.len() - from <= size {
            folders.len()
        } else {
            from + size
        };
        let mut chunk: Vec<FilePath> = Vec::new();
        let mut k: usize = from;
        proof {
            lemma_deep_view_empty(chunk);
            assert(chunk.deep_view() =~= all.subrange(from as int, k as int));
        }
        while k < to
            invariant
                from <= k <= to <= folders.len(),
                all == folders.deep_view(),
                all.len() == folders.len(),
                forall|j: int| 0 <= j < folders.len() ==> all[j] == folders[j]@,
                chunk.deep_view() == all.subrange(from as int, k as int),
            decreases to - k,
        {
            let ghost before = chunk;
            let folder = folders[k].clone();
            chunk.push(folder);
            proof {
                lemma_deep_view_push(before, chunk, folder);
                assert(chunk.deep_view() =~= all.subrange(from as int, k + 1));
            }
            k += 1;
        }
        let ghost chunks_before = chunks;
        chunks.push(chunk);
        proof {
            lemma_deep_view_push(chunks_before, chunks, chunk);
            assert(all.subrange(from as int, to as int) =~= rest.take(to - from));
            if rest.len() <= size {
                assert(rest.take(to - from) =~= rest);
                assert(all.skip(to as int) =~= Seq::<Seq<Seq<char>>>::empty());
                assert(chunks.deep_view() + chunks_of(all.skip(to as int), size as int)
                    =~= chunks_before.deep_view() + seq![rest]);
            } else {
                assert(rest.skip(size as int) =~= all.skip(to as int));
                assert(chunks.deep_view() + chunks_of(all.skip(to as int), size as int)
                    =~= chunks_before.deep_view() + (seq![rest.take(size as int)] + chunks_of(
                    rest.skip(size as int),
                    size as int,
                )));
            }
        }
        from = to;
    }
    proof {
        assert(all.skip(from as int) =~= Seq::<Seq<Seq<char>>>::empty());
        assert(chunks.deep_view() + Seq::<Seq<Seq<Seq<char>>>>::empty() =~= chunks.deep_view());
    }
    chunks
}

/// The folders around a path, the nearest first, up to the outermost one
/// that has a name.
pub open spec fn folders_around(path: Seq<Seq<char>>) -> Seq<Seq<Seq<char>>>
    decreases path.len(),
{
    if path.len() <= 1 {
        Seq::empty()
    } else {
        seq![path.drop_last()] + folders_around(path.drop_last())
    }
}

/// The folders around a path, the nearest first. When a path was removed,
/// these are the folders that may have been left empty, one after the other.
pub fn ancestors(path: &FilePath) -> (r: Vec<FilePath>)
    ensures
        r.deep_view() == folders_around(path@),
{
    let mut r: Vec<FilePath> = Vec::new();
    let mut current = path.clone();
    proof {
        lemma_deep_view_empty(r);
        assert(r.deep_view() + folders_around(current@) =~= folders_around(path@));
    }
    while current.components.len() > 1
        invariant
            folders_around(path@) == r.deep_view() + folders_around(current@),
        decreases current.components.len(),
    {
        let ghost before = r;
        let ghost inner = current@;
        proof {
            lemma_deep_view_index(current.components);
        }
        let parent = crate::util::path::PathExtensions::parent_or_empty(&current);
        let copy = parent.clone();
        r.push(copy);
        proof {
            lemma_deep_view_push(before, r, copy);
            lemma_deep_view_index(parent.components);
            assert(r.deep_view() + folders_around(parent@) =~= before.deep_view() + (seq![
                inner.drop_last(),
            ] + folders_around(inner.drop_last())));
        }
        current = parent;
    }
    proof {
        lemma_deep_view_index(current.components);
        assert(r.deep_view() + Seq::<Seq<Seq<char>>>::empty() =~= r.deep_view());
    }
    r
}

} // verus!
