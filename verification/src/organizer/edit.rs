use vstd::prelude::*;
use vstd::string::*;
use crate::music_file::{MusicFile, MusicFileView, NameError};
use crate::organizer::changes::{
    cleanup_changes,
    cover_changes,
    get_cleanup_changes,
    get_cover_changes,
    target_path_for,
    target_path_of,
    ChangeError,
    ChangeList,
    ChangeListView,
    Cleanup,
    CoverChange,
    FolderListing,
    FolderListingView,
    MusicFileChange,
    MusicFileChangeView,
};
use crate::organizer::{allows, AllowedChangeType};
use crate::tag::frame::{
    content_text,
    frame_name,
    frame_named,
    FrameContentView,
    FrameId,
    FrameIdView,
};
use crate::tag::{empty_tag, frame_content_of, frame_ids_of, with_frame, Tag, TagView};
use crate::util::numbers::{parse_i32, parse_u32, parsed_signed, parsed_unsigned};
use crate::util::path::{extension_of, file_name_of, FilePath, PathExtensions};
use crate::util::text::{chars_of, push_char, split, split_on, string_of_range, text_eq};
use crate::util::views::{lemma_deep_view_empty, lemma_deep_view_index, lemma_deep_view_push};

verus! {

/// The line that ends the fields of one track in the text that is edited.
pub const TRACK_DELIMITER: &'static str = "--------------------------";

/// Why an edited text could not be taken over.
#[derive(Debug, PartialEq, Eq)]
pub enum EditError {
    /// The text ends before every track has its delimiter.
    MissingTrack,
    /// The line is not of the form `name: value`.
    InvalidLine(String),
    /// The line gives a number field something that is no such number.
    InvalidNumber(String),
    /// An edited tag lacks a field that the file's path is formed from.
    Name(NameError),
    /// The covers could not be planned anew.
    Change(ChangeError),
}

/// The model of an [`EditError`].
pub enum EditErrorView {
    MissingTrack,
    InvalidLine(Seq<char>),
    InvalidNumber(Seq<char>),
    Name(NameError),
    Change(ChangeError),
}

impl View for EditError {
    type V = EditErrorView;

    open spec fn view(&self) -> EditErrorView {
        match self {
            EditError::MissingTrack => EditErrorView::MissingTrack,
            EditError::InvalidLine(line) => EditErrorView::InvalidLine(line@),
            EditError::InvalidNumber(line) => EditErrorView::InvalidNumber(line@),
            EditError::Name(e) => EditErrorView::Name(*e),
            EditError::Change(e) => EditErrorView::Change(*e),
        }
    }
}

/// The model of the result of an edit.
pub open spec fn edit_view<T: DeepView>(r: Result<T, EditError>) -> Result<T::V, EditErrorView> {
    match r {
        Ok(v) => Ok(v.deep_view()),
        Err(e) => Err(e@),
    }
}

/// The line that shows one field of a tag: the field's name, a colon and a
/// space, what the field holds, and a line feed.
pub open spec fn frame_line(tag: TagView, id: FrameIdView) -> Seq<char> {
    let content = match frame_content_of(tag, id) {
        Some(content) => content_text(content),
        None => Seq::empty(),
    };
    frame_name(id) + seq![':', ' '] + content + seq!['\n']
}

/// The lines that show the given fields of a tag.
pub open spec fn frame_lines(tag: TagView, ids: Seq<FrameIdView>) -> Seq<char>
    decreases ids.len(),
{
    if ids.len() == 0 {
        Seq::empty()
    } else {
        frame_lines(tag, ids.drop_last()) + frame_line(tag, ids.last())
    }
}

/// The lines that show a tag: one for each of its fields, and the delimiter.
pub open spec fn track_block(tag: TagView) -> Seq<char> {
    frame_lines(tag, frame_ids_of(tag)) + TRACK_DELIMITER@ + seq!['\n']
}

/// The text that shows the tags of all music files for editing.
pub open spec fn editor_prompt(changes: Seq<MusicFileChangeView>) -> Seq<char>
    decreases changes.len(),
{
    if changes.len() == 0 {
        Seq::empty()
    } else {
        editor_prompt(changes.drop_last()) + track_block(changes.last().target.tag)
    }
}

/// A piece of text without the carriage return at its end, if it has one.
pub open spec fn without_carriage_return(piece: Seq<char>) -> Seq<char> {
    if piece.len() > 0 && piece.last() == '\r' {
        piece.drop_last()
    } else {
        piece
    }
}

/// The lines of a text. A line ends with a line feed, or with a carriage
/// return and a line feed; the last line may end with the text.
pub open spec fn text_lines(text: Seq<char>) -> Seq<Seq<char>> {
    let pieces = split_on(text, '\n');
    let count = if pieces.last().len() == 0 {
        pieces.len() - 1
    } else {
        pieces.len() as int
    };
    Seq::new(
        count as nat,
        |k: int|
            if k < pieces.len() - 1 {
                without_carriage_return(pieces[k])
            } else {
                pieces[k]
            },
    )
}

/// Where the first colon with a space behind it stands at or after `from`,
/// and -1 where there is none.
pub open spec fn first_separator(line: Seq<char>, from: int) -> int
    decreases line.len() - from,
{
    if from < 0 || from + 1 >= line.len() {
        -1
    } else if line[from] == ':' && line[from + 1] == ' ' {
        from
    } else {
        first_separator(line, from + 1)
    }
}

/// The name and the value that a line gives: what stands before and behind
/// the first colon with a space behind it, the name not being empty.
pub open spec fn parsed_line(line: Seq<char>) -> Option<(Seq<char>, Seq<char>)> {
    let at = first_separator(line, 1);
    if at < 0 {
        None
    } else {
        Some((line.take(at), line.skip(at + 2)))
    }
}

/// What a text is as the content of a field: a signed number for the year,
/// an unsigned number for the four counters, the text itself for the others.
pub open spec fn parsed_content(id: FrameIdView, text: Seq<char>) -> Option<FrameContentView> {
    match id {
        FrameIdView::Year => match parsed_signed(text, i32::MIN as int, i32::MAX as int) {
            Some(v) => Some(FrameContentView::I32(v as i32)),
            None => None,
        },
        FrameIdView::Track | FrameIdView::TotalTracks | FrameIdView::Disc
        | FrameIdView::TotalDiscs => match parsed_unsigned(text, u32::MAX as nat) {
            Some(v) => Some(FrameContentView::U32(v as u32)),
            None => None,
        },
        _ => Some(FrameContentView::Str(text)),
    }
}

/// The tag that the lines from `from` on give, up to the next delimiter,
/// with the place of the line behind that delimiter.
pub open spec fn edited_tag(lines: Seq<Seq<char>>, from: int, tag: TagView) -> Result<
    (TagView, int),
    EditErrorView,
>
    decreases lines.len() - from,
{
    if from < 0 || from >= lines.len() {
        Err(EditErrorView::MissingTrack)
    } else if lines[from] == TRACK_DELIMITER@ {
        Ok((tag, from + 1))
    } else {
        match parsed_line(lines[from]) {
            None => Err(EditErrorView::InvalidLine(lines[from])),
            Some((name, value)) => match parsed_content(frame_named(name), value) {
                None => Err(EditErrorView::InvalidNumber(lines[from])),
                Some(content) => edited_tag(
                    lines,
                    from + 1,
                    with_frame(tag, frame_named(name), Some(content)),
                ),
            },
        }
    }
}

/// A change with the given tag for its target, and the target's path formed
/// anew from that tag.
pub open spec fn retagged(
    change: MusicFileChangeView,
    tag: TagView,
    output_path: Option<Seq<Seq<char>>>,
    windows: bool,
) -> Result<MusicFileChangeView, EditErrorView> {
    match target_path_of(
        tag,
        extension_of(file_name_of(change.target.file_path)),
        change.source.file_path,
        output_path,
        windows,
    ) {
        Err(e) => Err(EditErrorView::Name(e)),
        Ok(file_path) => Ok(
            MusicFileChangeView {
                target: MusicFileView { file_path, tag, duration: change.target.duration },
                ..change
            },
        ),
    }
}

/// The changes from `at` on, each with the tag that the lines from `from`
/// on give it, behind the changes that are `done`.
pub open spec fn edited_rest(
    changes: Seq<MusicFileChangeView>,
    at: int,
    lines: Seq<Seq<char>>,
    from: int,
    done: Seq<MusicFileChangeView>,
    output_path: Option<Seq<Seq<char>>>,
    windows: bool,
) -> Result<Seq<MusicFileChangeView>, EditErrorView>
    decreases changes.len() - at,
{
    if at < 0 || at >= changes.len() {
        Ok(done)
    } else {
        match edited_tag(lines, from, empty_tag()) {
            Err(e) => Err(e),
            Ok((tag, next)) => match retagged(changes[at], tag, output_path, windows) {
                Err(e) => Err(e),
                Ok(change) => edited_rest(
                    changes,
                    at + 1,
                    lines,
                    next,
                    done.push(change),
                    output_path,
                    windows,
                ),
            },
        }
    }
}

/// The music files with the tags that the edited text gives them.
pub open spec fn edited_music_files(
    changes: Seq<MusicFileChangeView>,
    edited: Seq<char>,
    output_path: Option<Seq<Seq<char>>>,
    windows: bool,
) -> Result<Seq<MusicFileChangeView>, EditErrorView> {
    edited_rest(changes, 0, text_lines(edited), 0, Seq::empty(), output_path, windows)
}

/// The plan after an edit: the music files as edited, and covers and
/// cleanups planned anew for them. Without an edited text the plan stays.
pub open spec fn edited_change_list(
    changes: ChangeListView,
    edited: Option<Seq<char>>,
    listings: Seq<FolderListingView>,
    output_path: Option<Seq<Seq<char>>>,
    allowed: Seq<AllowedChangeType>,
    windows: bool,
) -> Result<ChangeListView, EditErrorView> {
    match edited {
        None => Ok(changes),
        Some(text) => match edited_music_files(changes.music_files, text, output_path, windows) {
            Err(e) => Err(e),
            Ok(files) => match cover_changes(files) {
                Err(e) => Err(EditErrorView::Change(e)),
                Ok(covers) => Ok(
                    ChangeListView {
                        music_files: files,
                        covers: if allowed.contains(AllowedChangeType::Covers) {
                            covers
                        } else {
                            Seq::empty()
                        },
                        cleanups: if allowed.contains(AllowedChangeType::SourceCleanup)
                            || allowed.contains(AllowedChangeType::TargetCleanup) {
                            cleanup_changes(
                                files,
                                covers,
                                listings,
                                allowed.contains(AllowedChangeType::SourceCleanup),
                                allowed.contains(AllowedChangeType::TargetCleanup),
                            )
                        } else {
                            Seq::empty()
                        },
                    },
                ),
            },
        },
    }
}

/// Appends the lines that show a tag.
fn push_track_block(prompt: &mut String, tag: &Tag)
    ensures
        final(prompt)@ == old(prompt)@ + track_block(tag@),
{
    let ids = tag.frame_ids();
    let ghost all = ids.deep_view();
    let mut i: usize = 0;
    proof {
        lemma_deep_view_index(ids);
        assert(all.take(0) =~= Seq::<FrameIdView>::empty());
        assert(prompt@ + frame_lines(tag@, all.take(0)) =~= prompt@);
    }
    while i < ids.len()
        invariant
            i <= ids.len(),
            all == ids.deep_view(),
            all.len() == ids.len(),
            forall|k: int| 0 <= k < ids.len() ==> all[k] == ids[k]@,
            prompt@ == old(prompt)@ + frame_lines(tag@, all.take(i as int)),
        decreases ids.len() - i,
    {
        let frame_id = &ids[i];
        let ghost before = prompt@;
        proof {
            assert(all.take(i + 1).drop_last() =~= all.take(i as int));
            assert(all.take(i + 1).last() == frame_id@);
        }
        prompt.append(frame_id.description());
        push_char(prompt, ':');
        push_char(prompt, ' ');
        match tag.frame_content(frame_id) {
            Some(content) => {
                let text = content.stringify_content();
                prompt.append(text.as_str());
            },
            None => {},
        }
        push_char(prompt, '\n');
        assert(prompt@ =~= before + frame_line(tag@, frame_id@));
        assert(prompt@ =~= old(prompt)@ + frame_lines(tag@, all.take(i + 1)));
        i += 1;
    }
    assert(all.take(i as int) =~= all);
    prompt.append(TRACK_DELIMITER);
    push_char(prompt, '\n');
    assert(prompt@ =~= old(prompt)@ + track_block(tag@));
}

/// The text that shows the tags of all music files of a plan, to be handed
/// to an editor.
pub fn edit_prompt(changes: &ChangeList) -> (r: String)
    ensures
        r@ == editor_prompt(changes@.music_files),
{
    let ghost all = changes@.music_files;
    let mut editor_prompt = String::new();
    let mut i: usize = 0;
    proof {
        lemma_deep_view_index(changes.music_files);
        assert(all.take(0) =~= Seq::<MusicFileChangeView>::empty());
    }
    while i < changes.music_files.len()
        invariant
            i <= changes.music_files.len(),
            all == changes.music_files.deep_view(),
            all.len() == changes.music_files.len(),
            forall|k: int| 0 <= k < changes.music_files.len() ==> all[k] == changes.music_files[k]@,
            editor_prompt@ == self::editor_prompt(all.take(i as int)),
        decreases changes.music_files.len() - i,
    {
        proof {
            assert(all.take(i + 1).drop_last() =~= all.take(i as int));
            assert(all.take(i + 1).last() == changes.music_files[i as int]@);
        }
        push_track_block(&mut editor_prompt, &changes.music_files[i].target.tag);
        i += 1;
    }
    assert(all.take(i as int) =~= all);
    editor_prompt
}

/// The lines of a text.
pub fn lines(text: &str) -> (r: Vec<String>)
    ensures
        r.deep_view() == text_lines(text@),
{
    let pieces = split(text, '\n');
    let ghost all = pieces.deep_view();
    proof {
        lemma_deep_view_index(pieces);
        crate::util::text::lemma_split_on_not_empty(text@, '\n');
    }
    let count = if pieces[pieces.len() - 1].as_str().unicode_len() == 0 {
        pieces.len() - 1
    } else {
        pieces.len()
    };
    let mut r: Vec<String> = Vec::new();
    let mut k: usize = 0;
    proof {
        lemma_deep_view_empty(r);
        assert(r.deep_view() =~= text_lines(text@).take(0));
    }
    while k < count
        invariant
            k <= count <= pieces.len(),
            count == text_lines(text@).len(),
            all == pieces.deep_view(),
            all == split_on(text@, '\n'),
            all.len() == pieces.len(),
            forall|j: int| 0 <= j < pieces.len() ==> all[j] == pieces[j]@,
            r.deep_view() == text_lines(text@).take(k as int),
        decreases count - k,
    {
        let chars = chars_of(pieces[k].as_str());
        let n = chars.len();
        let line = if k + 1 < pieces.len() && n > 0 && chars[n - 1] == '\r' {
            let line = string_of_range(&chars, 0, n - 1);
            assert(chars@.subrange(0, n - 1) =~= chars@.drop_last());
            line
        } else {
            pieces[k].clone()
        };
        assert(line@ == text_lines(text@)[k as int]);
        let ghost before = r;
        r.push(line);
        proof {
            lemma_deep_view_push(before, r, line);
            assert(r.deep_view() =~= text_lines(text@).take(k + 1));
        }
        k += 1;
    }
    assert(text_lines(text@).take(k as int) =~= text_lines(text@));
    r
}

/// The name and the value that a line gives.
pub fn parse_line(line: &str) -> (r: Option<(String, String)>)
    ensures
        r.deep_view() == parsed_line(line@),
{
    let chars = chars_of(line);
    let mut at: usize = 1;
    while at < chars.len() && at + 1 < chars.len()
        invariant
            1 <= at,
            chars@ == line@,
            first_separator(chars@, 1) == first_separator(chars@, at as int),
        decreases chars.len() - at,
    {
        if chars[at] == ':' && chars[at + 1] == ' ' {
            let name = string_of_range(&chars, 0, at);
            let value = string_of_range(&chars, at + 2, chars.len());
            assert(chars@.subrange(0, at as int) =~= chars@.take(at as int));
            assert(chars@.subrange(at + 2, chars@.len() as int) =~= chars@.skip(at + 2));
            return Some((name, value));
        }
        at += 1;
    }
    None
}

/// Gives a field of a tag what a text says. Where the text is no number
/// though the field holds numbers, the tag stays as it was, and the answer
/// is `false`.
pub fn set_frame_from_text(tag: &mut Tag, frame_id: &FrameId, text: &str) -> (r: bool)
    ensures
        match parsed_content(frame_id@, text@) {
            Some(content) => r && final(tag)@ == with_frame(old(tag)@, frame_id@, Some(content)),
            None => !r && final(tag)@ == old(tag)@,
        },
{
    match frame_id {
        FrameId::Title => tag.set_title(Some(text.to_owned())),
        FrameId::Album => tag.set_album(Some(text.to_owned())),
        FrameId::AlbumArtist => tag.set_album_artist(Some(text.to_owned())),
        FrameId::Artist => tag.set_artist(Some(text.to_owned())),
        FrameId::Genre => tag.set_genre(Some(text.to_owned())),
        FrameId::CustomText { key } => tag.set_custom_text(key.clone(), Some(text.to_owned())),
        FrameId::Year => match parse_i32(text) {
            Some(v) => tag.set_year(Some(v)),
            None => {
                return false;
            },
        },
        FrameId::Track => match parse_u32(text) {
            Some(v) => tag.set_track_number(Some(v)),
            None => {
                return false;
            },
        },
        FrameId::TotalTracks => match parse_u32(text) {
            Some(v) => tag.set_total_tracks(Some(v)),
            None => {
                return false;
            },
        },
        FrameId::Disc => match parse_u32(text) {
            Some(v) => tag.set_disc(Some(v)),
            None => {
                return false;
            },
        },
        FrameId::TotalDiscs => match parse_u32(text) {
            Some(v) => tag.set_total_discs(Some(v)),
            None => {
                return false;
            },
        },
    }
    true
}

/// Reads the fields of one track from the lines, from `from` up to the next
/// delimiter.
fn read_tag(lines: &Vec<String>, from: usize) -> (r: Result<(Tag, usize), EditError>)
    requires
        from <= lines.len(),
    ensures
        match r {
            Ok((tag, next)) => next <= lines.len() && edited_tag(
                lines.deep_view(),
                from as int,
                empty_tag(),
            ) == Ok::<(TagView, int), EditErrorView>((tag@, next as int)),
            Err(e) => edited_tag(lines.deep_view(), from as int, empty_tag()) == Err::<
                (TagView, int),
                EditErrorView,
            >(e@),
        },
{
    let ghost all = lines.deep_view();
    let mut new_tag = Tag::new();
    let mut at: usize = from;
    proof {
        lemma_deep_view_index(*lines);
    }
    loop
        invariant
            from <= at <= lines.len(),
            all == lines.deep_view(),
            all.len() == lines.len(),
            forall|k: int| 0 <= k < lines.len() ==> all[k] == lines[k]@,
            edited_tag(all, from as int, empty_tag()) == edited_tag(all, at as int, new_tag@),
        decreases lines.len() - at,
    {
        if at >= lines.len() {
            return Err(EditError::MissingTrack);
        }
        let line = lines[at].as_str();
        if text_eq(line, TRACK_DELIMITER) {
            return Ok((new_tag, at + 1));
        }
        let (name, value) = match parse_line(line) {
            Some(parts) => parts,
            None => {
                return Err(EditError::InvalidLine(line.to_owned()));
            },
        };
        let frame_id = FrameId::from_str(name.as_str());
        if !set_frame_from_text(&mut new_tag, &frame_id, value.as_str()) {
            return Err(EditError::InvalidNumber(line.to_owned()));
        }
        at += 1;
    }
}

/// A change with the given tag for its target, and the target's path formed
/// anew from that tag.
fn retag<'a>(
    music_file: &MusicFileChange<'a>,
    new_tag: Tag,
    output_path: &Option<FilePath>,
    windows: bool,
) -> (r: Result<MusicFileChange<'a>, EditError>)
    ensures
        edit_view(r) == retagged(music_file@, new_tag@, output_path.deep_view(), windows),
{
    let extension = music_file.target.file_path.extension_or_empty();
    let file_path = match target_path_for(
        &new_tag,
        extension.as_str(),
        &music_file.source.file_path,
        output_path,
        windows,
    ) {
        Ok(path) => path,
        Err(e) => {
            return Err(EditError::Name(e));
        },
    };
    Ok(
        MusicFileChange {
            source: music_file.source,
            target: MusicFile { file_path, tag: new_tag, duration: music_file.target.duration },
            is_transcode: music_file.is_transcode,
            source_file_length: music_file.source_file_length,
            discogs_release: music_file.discogs_release,
        },
    )
}

/// The music files with the tags that the edited text gives them. The
/// text holds, for each music file in turn, a line for each field and then
/// the delimiter; what follows the last delimiter is passed over.
pub fn edit_music_files<'a>(
    music_files: &Vec<MusicFileChange<'a>>,
    edited: &str,
    output_path: &Option<FilePath>,
    windows: bool,
) -> (r: Result<Vec<MusicFileChange<'a>>, EditError>)
    ensures
        edit_view(r) == edited_music_files(
            music_files.deep_view(),
            edited@,
            output_path.deep_view(),
            windows,
        ),
{
    let edited_lines = lines(edited);
    let ghost all = music_files.deep_view();
    let ghost line_views = edited_lines.deep_view();
    let ghost output = output_path.deep_view();
    let mut new_music_file_changes: Vec<MusicFileChange<'a>> = Vec::new();
    let mut from: usize = 0;
    let mut i: usize = 0;
    proof {
        lemma_deep_view_index(*music_files);
        lemma_deep_view_empty(new_music_file_changes);
    }
    while i < music_files.len()
        invariant
            i <= music_files.len(),
            from <= edited_lines.len(),
            all == music_files.deep_view(),
            all.len() == music_files.len(),
            forall|k: int| 0 <= k < music_files.len() ==> all[k] == music_files[k]@,
            line_views == edited_lines.deep_view(),
            line_views == text_lines(edited@),
            output == output_path.deep_view(),
            edited_music_files(all, edited@, output, windows) == edited_rest(
                all,
                i as int,
                line_views,
                from as int,
                new_music_file_changes.deep_view(),
                output,
                windows,
            ),
        decreases music_files.len() - i,
    {
        let (new_tag, next) = match read_tag(&edited_lines, from) {
            Ok(found) => found,
            Err(e) => {
                return Err(e);
            },
        };
        let change = match retag(&music_files[i], new_tag, output_path, windows) {
            Ok(change) => change,
            Err(e) => {
                return Err(e);
            },
        };
        let ghost before = new_music_file_changes;
        new_music_file_changes.push(change);
        proof {
            lemma_deep_view_push(before, new_music_file_changes, change);
        }
        from = next;
        i += 1;
    }
    Ok(new_music_file_changes)
}

/// The plan after the user edited the text of [`edit_prompt`]. `edited` is
/// `None` where the editor was left without saving: the plan then stays as
/// it is. `listings` holds what the folders to clean hold, for the music
/// files as edited.
pub fn edit_changes<'a>(
    changes: &ChangeList<'a>,
    edited: Option<&str>,
    listings: &Vec<FolderListing>,
    output_path: &Option<FilePath>,
    allowed_change_types: &Vec<AllowedChangeType>,
    windows: bool,
) -> (r: Result<ChangeList<'a>, EditError>)
    ensures
        edit_view(r) == edited_change_list(
            changes@,
            edited.deep_view(),
            listings.deep_view(),
            output_path.deep_view(),
            allowed_change_types@,
            windows,
        ),
{
    let edited = match edited {
        Some(text) => text,
        None => {
            return Ok(clone_changes(changes));
        },
    };
    let music_files = match edit_music_files(&changes.music_files, edited, output_path, windows) {
        Ok(files) => files,
        Err(e) => {
            return Err(e);
        },
    };
    let cover_changes = match get_cover_changes(&music_files) {
        Ok(covers) => covers,
        Err(e) => {
            return Err(EditError::Change(e));
        },
    };
    let clean_source = allows(allowed_change_types, AllowedChangeType::SourceCleanup);
    let clean_target = allows(allowed_change_types, AllowedChangeType::TargetCleanup);
    let cleanups = if clean_source || clean_target {
        get_cleanup_changes(&music_files, &cover_changes, listings, clean_source, clean_target)
    } else {
        let none: Vec<Cleanup> = Vec::new();
        proof {
            lemma_deep_view_empty(none);
        }
        none
    };
    let covers = if allows(allowed_change_types, AllowedChangeType::Covers) {
        cover_changes
    } else {
        let none: Vec<CoverChange> = Vec::new();
        proof {
            lemma_deep_view_empty(none);
        }
        none
    };
    Ok(ChangeList { music_files, covers, cleanups })
}

/// A copy of a plan.
pub fn clone_changes<'a>(changes: &ChangeList<'a>) -> (r: ChangeList<'a>)
    ensures
        r@ == changes@,
{
    let mut music_files: Vec<MusicFileChange<'a>> = Vec::new();
    let mut covers: Vec<CoverChange> = Vec::new();
    let mut cleanups: Vec<Cleanup> = Vec::new();
    proof {
        lemma_deep_view_empty(music_files);
        lemma_deep_view_empty(covers);
        lemma_deep_view_empty(cleanups);
        lemma_deep_view_index(changes.music_files);
        lemma_deep_view_index(changes.covers);
        lemma_deep_view_index(changes.cleanups);
    }
    let mut i: usize = 0;
    while i < changes.music_files.len()
        invariant
            i <= changes.music_files.len(),
            music_files.deep_view() == changes.music_files.deep_view().take(i as int),
        decreases changes.music_files.len() - i,
    {
        let ghost before = music_files;
        let item = changes.music_files[i].clone();
        music_files.push(item);
        proof {
            lemma_deep_view_push(before, music_files, item);
            lemma_deep_view_index(changes.music_files);
            assert(music_files.deep_view() =~= changes.music_files.deep_view().take(i + 1));
        }
        i += 1;
    }
    assert(changes.music_files.deep_view().take(i as int) =~= changes.music_files.deep_view());
    let mut j: usize = 0;
    while j < changes.covers.len()
        invariant
            j <= changes.covers.len(),
            covers.deep_view() == changes.covers.deep_view().take(j as int),
        decreases changes.covers.len() - j,
    {
        let ghost before = covers;
        let item = changes.covers[j].clone();
        covers.push(item);
        proof {
            lemma_deep_view_push(before, covers, item);
            lemma_deep_view_index(changes.covers);
            assert(covers.deep_view() =~= changes.covers.deep_view().take(j + 1));
        }
        j += 1;
    }
    assert(changes.covers.deep_view().take(j as int) =~= changes.covers.deep_view());
    let mut k: usize = 0;
    while k < changes.cleanups.len()
        invariant
            k <= changes.cleanups.len(),
            cleanups.deep_view() == changes.cleanups.deep_view().take(k as int),
        decreases changes.cleanups.len() - k,
    {
        let ghost before = cleanups;
        let item = changes.cleanups[k].clone();
        cleanups.push(item);
        proof {
            lemma_deep_view_push(before, cleanups, item);
            lemma_deep_view_index(changes.cleanups);
            assert(cleanups.deep_view() =~= changes.cleanups.deep_view().take(k + 1));
        }
        k += 1;
    }
    assert(changes.cleanups.deep_view().take(k as int) =~= changes.cleanups.deep_view());
    ChangeList { music_files, covers, cleanups }
}

} // verus!
