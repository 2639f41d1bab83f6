use vstd::prelude::*;
use crate::organizer::changes::{ChangeList, ChangeListView, MusicFileChange, MusicFileChangeView};
use crate::tag::frame::{content_text, frame_name, FrameId, FrameIdView};
use crate::tag::{frame_content_of, frame_ids_of, Tag, TagView};
use crate::util::path::{common_length, file_name_of, FilePath, PathExtensions};
use crate::util::views::{lemma_deep_view_empty, lemma_deep_view_index, lemma_deep_view_push};

verus! {

/// One field that a change gives another content.
#[derive(Debug, PartialEq, Eq)]
pub struct FrameDifference {
    pub frame: String,
    pub before: Option<String>,
    pub after: Option<String>,
}

/// One step of a plan, as it is shown to the user.
#[derive(Debug, PartialEq, Eq)]
pub enum ChangeDetail {
    /// A music file is written where it lies.
    Update { transcode: bool, file_name: String, frames: Vec<FrameDifference> },
    /// A music file is written to another path. The two paths are shown
    /// from where they part.
    Copy { transcode: bool, source: FilePath, target: FilePath, frames: Vec<FrameDifference> },
    /// A cover is downloaded to the path.
    Download { path: FilePath },
    /// The path is removed.
    Remove { path: FilePath },
}

/// The model of a [`FrameDifference`].
pub struct FrameDifferenceView {
    pub frame: Seq<char>,
    pub before: Option<Seq<char>>,
    pub after: Option<Seq<char>>,
}

/// The model of a [`ChangeDetail`].
pub enum ChangeDetailView {
    Update { transcode: bool, file_name: Seq<char>, frames: Seq<FrameDifferenceView> },
    Copy {
        transcode: bool,
        source: Seq<Seq<char>>,
        target: Seq<Seq<char>>,
        frames: Seq<FrameDifferenceView>,
    },
    Download { path: Seq<Seq<char>> },
    Remove { path: Seq<Seq<char>> },
}

impl View for FrameDifference {
    type V = FrameDifferenceView;

    open spec fn view(&self) -> FrameDifferenceView {
        FrameDifferenceView {
            frame: self.frame@,
            before: self.before.deep_view(),
            after: self.after.deep_view(),
        }
    }
}

impl DeepView for FrameDifference {
    type V = FrameDifferenceView;

    open spec fn deep_view(&self) -> FrameDifferenceView {
        self.view()
    }
}

impl View for ChangeDetail {
    type V = ChangeDetailView;

    open spec fn view(&self) -> ChangeDetailView {
        match self {
            ChangeDetail::Update { transcode, file_name, frames } => ChangeDetailView::Update {
                transcode: *transcode,
                file_name: file_name@,
                frames: frames.deep_view(),
            },
            ChangeDetail::Copy { transcode, source, target, frames } => ChangeDetailView::Copy {
                transcode: *transcode,
                source: source@,
                target: target@,
                frames: frames.deep_view(),
            },
            ChangeDetail::Download { path } => ChangeDetailView::Download { path: path@ },
            ChangeDetail::Remove { path } => ChangeDetailView::Remove { path: path@ },
        }
    }
}

impl DeepView for ChangeDetail {
    type V = ChangeDetailView;

    open spec fn deep_view(&self) -> ChangeDetailView {
        self.view()
    }
}

/// What a tag holds in a field, written out.
pub open spec fn frame_text(tag: TagView, id: FrameIdView) -> Option<Seq<char>> {
    match frame_content_of(tag, id) {
        Some(content) => Some(content_text(content)),
        None => None,
    }
}

/// The fields among `ids` that the two tags hold differently.
pub open spec fn frame_differences(
    source: TagView,
    target: TagView,
    ids: Seq<FrameIdView>,
) -> Seq<FrameDifferenceView>
    decreases ids.len(),
{
    if ids.len() == 0 {
        Seq::empty()
    } else {
        let before = frame_differences(source, target, ids.drop_last());
        let id = ids.last();
        if frame_text(source, id) != frame_text(target, id) {
            before.push(
                FrameDifferenceView {
                    frame: frame_name(id),
                    before: frame_text(source, id),
                    after: frame_text(target, id),
                },
            )
        } else {
            before
        }
    }
}

/// How a music file's change is shown: as an update where the file stays
/// where it is, else as a copy with the two paths from where they part; in
/// both cases with the fields of the new tag that differ from the old one's.
pub open spec fn detail_of_file(change: MusicFileChangeView) -> ChangeDetailView {
    let frames = frame_differences(
        change.source.tag,
        change.target.tag,
        frame_ids_of(change.target.tag),
    );
    if change.source.file_path == change.target.file_path {
        ChangeDetailView::Update {
            transcode: change.is_transcode,
            file_name: file_name_of(change.source.file_path),
            frames,
        }
    } else {
        let common = common_length(change.source.file_path, change.target.file_path) as int;
        ChangeDetailView::Copy {
            transcode: change.is_transcode,
            source: change.source.file_path.skip(common),
            target: change.target.file_path.skip(common),
            frames,
        }
    }
}

/// The steps of a plan as they are shown: the music files, then the covers,
/// then what is removed.
pub open spec fn details_of(changes: ChangeListView) -> Seq<ChangeDetailView> {
    Seq::new(changes.music_files.len(), |k: int| detail_of_file(changes.music_files[k]))
        + Seq::new(
        changes.covers.len(),
        |k: int| ChangeDetailView::Download { path: changes.covers[k].path },
    ) + Seq::new(
        changes.cleanups.len(),
        |k: int| ChangeDetailView::Remove { path: changes.cleanups[k] },
    )
}

/// The leading components that two paths share are leading components of
/// both.
pub proof fn lemma_common_length(one: Seq<Seq<char>>, two: Seq<Seq<char>>)
    ensures
        common_length(one, two) <= one.len(),
        common_length(one, two) <= two.len(),
        one.take(common_length(one, two) as int) == two.take(common_length(one, two) as int),
    decreases one.len(),
{
    if one.len() > 0 && two.len() > 0 && one[0] == two[0] {
        lemma_common_length(one.drop_first(), two.drop_first());
        let n = common_length(one.drop_first(), two.drop_first()) as int;
        assert(one.take(n + 1) =~= seq![one[0]] + one.drop_first().take(n));
        assert(two.take(n + 1) =~= seq![two[0]] + two.drop_first().take(n));
    } else {
        assert(one.take(0) =~= two.take(0));
    }
}

/// What a tag holds in a field, written out.
fn frame_value(tag: &Tag, frame_id: &FrameId) -> (r: Option<String>)
    ensures
        r.deep_view() == frame_text(tag@, frame_id@),
{
    match tag.frame_content(frame_id) {
        Some(content) => Some(content.stringify_content()),
        None => None,
    }
}

/// The fields of the target's tag that differ from the source's.
fn differing_frames(source_tag: &Tag, target_tag: &Tag) -> (r: Vec<FrameDifference>)
    ensures
        r.deep_view() == frame_differences(source_tag@, target_tag@, frame_ids_of(target_tag@)),
{
    let ids = target_tag.frame_ids();
    let ghost all = ids.deep_view();
    let mut r: Vec<FrameDifference> = Vec::new();
    let mut i: usize = 0;
    proof {
        lemma_deep_view_index(ids);
        lemma_deep_view_empty(r);
        assert(all.take(0) =~= Seq::<FrameIdView>::empty());
    }
    while i < ids.len()
        invariant
            i <= ids.len(),
            all == ids.deep_view(),
            all.len() == ids.len(),
            forall|k: int| 0 <= k < ids.len() ==> all[k] == ids[k]@,
            r.deep_view() == frame_differences(source_tag@, target_tag@, all.take(i as int)),
        decreases ids.len() - i,
    {
        let frame_id = &ids[i];
        proof {
            assert(all.take(i + 1).drop_last() =~= all.take(i as int));
            assert(all.take(i + 1).last() == frame_id@);
        }
        let source_frame_value = frame_value(source_tag, frame_id);
        let target_frame_value = frame_value(target_tag, frame_id);
        if !crate::tag::same_text(&target_frame_value, &source_frame_value) {
            let ghost before = r;
            let difference = FrameDifference {
                frame: frame_id.description().to_owned(),
                before: source_frame_value,
                after: target_frame_value,
            };
            r.push(difference);
            proof {
                lemma_deep_view_push(before, r, difference);
            }
        }
        i += 1;
    }
    assert(all.take(i as int) =~= all);
    r
}

/// How a music file's change is shown.
pub fn file_detail(change: &MusicFileChange) -> (r: ChangeDetail)
    ensures
        r@ == detail_of_file(change@),
{
    let source_file_path = &change.source.file_path;
    let target_file_path = &change.target.file_path;
    let frames = differing_frames(&change.source.tag, &change.target.tag);
    if source_file_path.same_as(target_file_path) {
        ChangeDetail::Update {
            transcode: change.is_transcode,
            file_name: source_file_path.file_name_or_empty(),
            frames,
        }
    } else {
        let common_file_prefix = match source_file_path.common_path(target_file_path) {
            Some(prefix) => prefix,
            None => FilePath::new(),
        };
        proof {
            lemma_common_length(source_file_path@, target_file_path@);
            let n = common_length(source_file_path@, target_file_path@) as int;
            assert(common_file_prefix@ =~= source_file_path@.take(n));
            assert(source_file_path@.take(n).is_prefix_of(source_file_path@));
            assert(target_file_path@.take(n).is_prefix_of(target_file_path@));
        }
        ChangeDetail::Copy {
            transcode: change.is_transcode,
            source: source_file_path.strip_prefix_or_same(&common_file_prefix),
            target: target_file_path.strip_prefix_or_same(&common_file_prefix),
            frames,
        }
    }
}

/// The steps of a plan as they are shown to the user, in the order in which
/// they are numbered.
pub fn changes_details(changes: &ChangeList) -> (r: Vec<ChangeDetail>)
    ensures
        r.deep_view() == details_of(changes@),
{
    let ghost files = Seq::new(
        changes@.music_files.len(),
        |k: int| detail_of_file(changes@.music_files[k]),
    );
    let ghost covers = Seq::new(
        changes@.covers.len(),
        |k: int| ChangeDetailView::Download { path: changes@.covers[k].path },
    );
    let ghost cleanups = Seq::new(
        changes@.cleanups.len(),
        |k: int| ChangeDetailView::Remove { path: changes@.cleanups[k] },
    );
    let mut r: Vec<ChangeDetail> = Vec::new();
    proof {
        lemma_deep_view_empty(r);
        lemma_deep_view_index(changes.music_files);
        lemma_deep_view_index(changes.covers);
        lemma_deep_view_index(changes.cleanups);
        assert(r.deep_view() =~= files.take(0));
    }
    let mut i: usize = 0;
    while i < changes.music_files.len()
        invariant
            i <= changes.music_files.len(),
            files.len() == changes.music_files.len(),
            forall|k: int|
                0 <= k < changes.music_files.len() ==> files[k] == detail_of_file(
                    changes.music_files[k]@,
                ),
            r.deep_view() == files.take(i as int),
        decreases changes.music_files.len() - i,
    {
        let ghost before = r;
        let detail = file_detail(&changes.music_files[i]);
        r.push(detail);
        proof {
            lemma_deep_view_push(before, r, detail);
            assert(r.deep_view() =~= files.take(i + 1));
        }
        i += 1;
    }
    assert(files.take(i as int) =~= files);
    let mut j: usize = 0;
    assert(r.deep_view() =~= files + covers.take(0));
    while j < changes.covers.len()
        invariant
            j <= changes.covers.len(),
            covers.len() == changes.covers.len(),
            forall|k: int|
                0 <= k < changes.covers.len() ==> covers[k] == (ChangeDetailView::Download {
                    path: changes.covers[k].path@,
                }),
            r.deep_view() == files + covers.take(j as int),
        decreases changes.covers.len() - j,
    {
        let ghost before = r;
        let detail = ChangeDetail::Download { path: changes.covers[j].path.clone() };
        r.push(detail);
        proof {
            lemma_deep_view_push(before, r, detail);
            assert(r.deep_view() =~= files + covers.take(j + 1));
        }
        j += 1;
    }
    assert(covers.take(j as int) =~= covers);
    let mut k: usize = 0;
    assert(r.deep_view() =~= files + covers + cleanups.take(0));
    while k < changes.cleanups.len()
        invariant
            k <= changes.cleanups.len(),
            cleanups.len() == changes.cleanups.len(),
            forall|n: int|
                0 <= n < changes.cleanups.len() ==> cleanups[n] == (ChangeDetailView::Remove {
                    path: changes.cleanups[n].path@,
                }),
            r.deep_view() == files + covers + cleanups.take(k as int),
        decreases changes.cleanups.len() - k,
    {
        let ghost before = r;
        let detail = ChangeDetail::Remove { path: changes.cleanups[k].path.clone() };
        r.push(detail);
        proof {
            lemma_deep_view_push(before, r, detail);
            assert(r.deep_view() =~= files + covers + cleanups.take(k + 1));
        }
        k += 1;
    }
    assert(cleanups.take(k as int) =~= cleanups);
    r
}

} // verus!
