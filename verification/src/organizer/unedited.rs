use vstd::prelude::*;
use crate::organizer::changes::MusicFileChangeView;
use crate::organizer::edit::{
    editor_prompt,
    frame_line,
    frame_lines,
    text_lines,
    track_block,
    without_carriage_return,
    TRACK_DELIMITER,
};
use crate::organizer::edit::{
    edited_music_files,
    edited_rest,
    edited_tag,
    first_separator,
    parsed_content,
    parsed_line,
    retagged,
    EditErrorView,
};
use crate::tag::frame::{
    content_text,
    frame_name,
    frame_name_is_read_back,
    frame_named,
    is_fixed_name,
    FrameContentView,
    FrameIdView,
};
use crate::tag::{
    custom_text_of,
    empty_tag,
    frame_content_of,
    frame_ids_of,
    present,
    with_frame,
    without_key,
    TagView,
};
use crate::util::numbers::{
    all_digits,
    decimal_digits,
    is_digit,
    lemma_decimal_digits,
    signed_decimal,
    written_number_is_read_back,
    written_signed_number_is_read_back,
};
use crate::util::text::{first_index_of, lemma_first_index_of, split_on};

verus! {

/// Whether a text holds neither a line feed nor a carriage return, so that
/// it can stand in a line of its own.
pub open spec fn fits_in_a_line(text: Seq<char>) -> bool {
    forall|i: int| 0 <= i < text.len() ==> #[trigger] text[i] != '\n' && text[i] != '\r'
}

/// The lines in one text, each ended by a line feed.
pub open spec fn joined_lines(lines: Seq<Seq<char>>) -> Seq<char>
    decreases lines.len(),
{
    if lines.len() == 0 {
        Seq::empty()
    } else {
        lines[0] + seq!['\n'] + joined_lines(lines.drop_first())
    }
}

/// A text that begins with a line and a line feed splits into that line
/// and the pieces of the rest.
pub proof fn lemma_split_after_line(line: Seq<char>, rest: Seq<char>)
    requires
        fits_in_a_line(line),
    ensures
        split_on(line + seq!['\n'] + rest, '\n') == seq![line] + split_on(rest, '\n'),
{
    let text = line + seq!['\n'] + rest;
    lemma_first_index_of(text, '\n');
    let at = first_index_of(text, '\n');
    assert(text[line.len() as int] == '\n');
    assert(at == line.len()) by {
        if at < line.len() {
            assert(text[at] == line[at]);
        }
    }
    assert(text.take(at) =~= line);
    assert(text.skip(at + 1) =~= rest);
}

/// Lines that were put in one text are the pieces of that text, with an
/// empty piece behind the last line feed.
pub proof fn lemma_split_joined_lines(lines: Seq<Seq<char>>)
    requires
        forall|k: int| 0 <= k < lines.len() ==> fits_in_a_line(#[trigger] lines[k]),
    ensures
        split_on(joined_lines(lines), '\n') == lines.push(Seq::empty()),
    decreases lines.len(),
{
    if lines.len() == 0 {
        let text = joined_lines(lines);
        assert(split_on(text, '\n') =~= seq![text]);
        assert(lines.push(Seq::empty()) =~= seq![text]);
    } else {
        let rest = lines.drop_first();
        assert forall|k: int| 0 <= k < rest.len() implies fits_in_a_line(#[trigger] rest[k]) by {
            assert(rest[k] == lines[k + 1]);
        }
        lemma_split_joined_lines(rest);
        lemma_split_after_line(lines[0], joined_lines(rest));
        assert(seq![lines[0]] + rest.push(Seq::empty()) =~= lines.push(Seq::empty()));
    }
}

/// Lines that were put in one text are read back as they were.
pub proof fn lemma_lines_are_read_back(lines: Seq<Seq<char>>)
    requires
        forall|k: int| 0 <= k < lines.len() ==> fits_in_a_line(#[trigger] lines[k]),
    ensures
        text_lines(joined_lines(lines)) == lines,
{
    lemma_split_joined_lines(lines);
    let pieces = split_on(joined_lines(lines), '\n');
    assert(pieces.last().len() == 0);
    assert forall|k: int| 0 <= k < lines.len() implies without_carriage_return(
        #[trigger] pieces[k],
    ) == lines[k] by {
        assert(pieces[k] == lines[k]);
        if lines[k].len() > 0 {
            assert(lines[k][lines[k].len() - 1] != '\r');
        }
    }
    assert(text_lines(joined_lines(lines)) =~= lines);
}

/// Putting two lists of lines in one text puts their texts in a row.
pub proof fn lemma_joined_lines_add(a: Seq<Seq<char>>, b: Seq<Seq<char>>)
    ensures
        joined_lines(a + b) == joined_lines(a) + joined_lines(b),
    decreases a.len(),
{
    if a.len() == 0 {
        assert(a + b =~= b);
        assert(joined_lines(a) + joined_lines(b) =~= joined_lines(b));
    } else {
        assert((a + b).drop_first() =~= a.drop_first() + b);
        lemma_joined_lines_add(a.drop_first(), b);
        assert((a + b)[0] == a[0]);
        assert(joined_lines(a + b) =~= joined_lines(a) + joined_lines(b));
    }
}

/// The line that shows one field of a tag, without the line feed that ends
/// it.
pub open spec fn line_text(tag: TagView, id: FrameIdView) -> Seq<char> {
    let content = match frame_content_of(tag, id) {
        Some(content) => content_text(content),
        None => Seq::empty(),
    };
    frame_name(id) + seq![':', ' '] + content
}

/// The lines that show the given fields of a tag.
pub open spec fn id_lines(tag: TagView, ids: Seq<FrameIdView>) -> Seq<Seq<char>>
    decreases ids.len(),
{
    if ids.len() == 0 {
        Seq::empty()
    } else {
        id_lines(tag, ids.drop_last()).push(line_text(tag, ids.last()))
    }
}

/// The lines that show a tag: one for each of its fields, and the delimiter.
pub open spec fn block_lines(tag: TagView) -> Seq<Seq<char>> {
    id_lines(tag, frame_ids_of(tag)).push(TRACK_DELIMITER@)
}

/// The lines that show the tags of all music files.
pub open spec fn prompt_lines(changes: Seq<MusicFileChangeView>) -> Seq<Seq<char>>
    decreases changes.len(),
{
    if changes.len() == 0 {
        Seq::empty()
    } else {
        prompt_lines(changes.drop_last()) + block_lines(changes.last().target.tag)
    }
}

/// One more line adds the line and a line feed to the text.
pub proof fn lemma_joined_lines_push(lines: Seq<Seq<char>>, line: Seq<char>)
    ensures
        joined_lines(lines.push(line)) == joined_lines(lines) + line + seq!['\n'],
{
    lemma_joined_lines_add(lines, seq![line]);
    assert(lines.push(line) =~= lines + seq![line]);
    assert(seq![line].drop_first() =~= Seq::<Seq<char>>::empty());
    assert(joined_lines(seq![line].drop_first()) =~= Seq::<char>::empty());
    assert(seq![line][0] == line);
    assert(joined_lines(seq![line]) =~= line + seq!['\n']);
    assert(joined_lines(lines) + (line + seq!['\n']) =~= joined_lines(lines) + line + seq!['\n']);
}

/// The text that shows some fields of a tag is made of their lines.
pub proof fn lemma_frame_lines(tag: TagView, ids: Seq<FrameIdView>)
    ensures
        frame_lines(tag, ids) == joined_lines(id_lines(tag, ids)),
    decreases ids.len(),
{
    if ids.len() > 0 {
        lemma_frame_lines(tag, ids.drop_last());
        lemma_joined_lines_push(id_lines(tag, ids.drop_last()), line_text(tag, ids.last()));
        assert(frame_line(tag, ids.last()) =~= line_text(tag, ids.last()) + seq!['\n']);
        assert(frame_lines(tag, ids) =~= joined_lines(id_lines(tag, ids)));
    }
}

/// The text that shows a tag is made of the tag's lines.
pub proof fn lemma_track_block(tag: TagView)
    ensures
        track_block(tag) == joined_lines(block_lines(tag)),
{
    lemma_frame_lines(tag, frame_ids_of(tag));
    lemma_joined_lines_push(id_lines(tag, frame_ids_of(tag)), TRACK_DELIMITER@);
}

/// The text that is handed to the editor is made of the lines of all tags.
pub proof fn lemma_editor_prompt(changes: Seq<MusicFileChangeView>)
    ensures
        editor_prompt(changes) == joined_lines(prompt_lines(changes)),
    decreases changes.len(),
{
    if changes.len() > 0 {
        lemma_editor_prompt(changes.drop_last());
        lemma_track_block(changes.last().target.tag);
        lemma_joined_lines_add(
            prompt_lines(changes.drop_last()),
            block_lines(changes.last().target.tag),
        );
    }
}

/// Whether a text can be the name of a field in a line: it is not empty, it
/// fits in a line, and it holds no colon.
pub open spec fn is_clean_name(name: Seq<char>) -> bool {
    &&& name.len() > 0
    &&& fits_in_a_line(name)
    &&& forall|i: int| 0 <= i < name.len() ==> #[trigger] name[i] != ':'
}

/// Whether an optional text fits in a line where it is there.
pub open spec fn fits_if_present(text: Option<Seq<char>>) -> bool {
    match text {
        Some(text) => fits_in_a_line(text),
        None => true,
    }
}

/// Whether a tag can be shown in lines and read back from them: its texts
/// fit in a line each, and the keys of its custom texts are clean names,
/// none of them the name of a fixed field, and no two of them the same.
pub open spec fn is_editable(tag: TagView) -> bool {
    &&& fits_if_present(tag.title)
    &&& fits_if_present(tag.album)
    &&& fits_if_present(tag.album_artist)
    &&& fits_if_present(tag.artist)
    &&& fits_if_present(tag.genre)
    &&& forall|k: int|
        0 <= k < tag.custom_texts.len() ==> is_clean_name((#[trigger] tag.custom_texts[k]).0)
            && !is_fixed_name(tag.custom_texts[k].0) && fits_in_a_line(tag.custom_texts[k].1)
    &&& forall|i: int, j: int|
        0 <= i < j < tag.custom_texts.len() ==> tag.custom_texts[i].0 != tag.custom_texts[j].0
}

/// Whether the line that shows a field of a tag is read back as that field
/// with that content.
#[verifier::opaque]
pub open spec fn reads_back(tag: TagView, id: FrameIdView) -> bool {
    &&& frame_content_of(tag, id) is Some
    &&& parsed_content(id, content_text(frame_content_of(tag, id)->Some_0)) == frame_content_of(
        tag,
        id,
    )
    &&& fits_in_a_line(content_text(frame_content_of(tag, id)->Some_0))
    &&& frame_named(frame_name(id)) == id
    &&& is_clean_name(frame_name(id))
}

/// Whether the lines of all the fields are read back.
#[verifier::opaque]
pub open spec fn all_read_back(tag: TagView, ids: Seq<FrameIdView>) -> bool {
    forall|k: int| 0 <= k < ids.len() ==> reads_back(tag, #[trigger] ids[k])
}

/// The names of the ten fixed fields are clean names.
pub proof fn lemma_fixed_names_are_clean()
    ensures
        is_clean_name("Title"@),
        is_clean_name("Album"@),
        is_clean_name("Album Artist"@),
        is_clean_name("Artist"@),
        is_clean_name("Year"@),
        is_clean_name("Track"@),
        is_clean_name("Total Tracks"@),
        is_clean_name("Disc"@),
        is_clean_name("Total Discs"@),
        is_clean_name("Genre"@),
{
    reveal_strlit("Title");
    reveal_strlit("Album");
    reveal_strlit("Album Artist");
    reveal_strlit("Artist");
    reveal_strlit("Year");
    reveal_strlit("Track");
    reveal_strlit("Total Tracks");
    reveal_strlit("Disc");
    reveal_strlit("Total Discs");
    reveal_strlit("Genre");
}

/// A number written out fits in a line.
pub proof fn lemma_number_fits_in_a_line(n: int)
    ensures
        fits_in_a_line(signed_decimal(n)),
        n >= 0 ==> fits_in_a_line(decimal_digits(n as nat)),
{
    if n < 0 {
        lemma_decimal_digits((-n) as nat);
        let digits = decimal_digits((-n) as nat);
        let text = signed_decimal(n);
        assert forall|i: int| 0 <= i < text.len() implies #[trigger] text[i] != '\n' && text[i]
            != '\r' by {
            if i > 0 {
                assert(text[i] == digits[i - 1]);
                assert(is_digit(digits[i - 1]));
            }
        }
    } else {
        lemma_decimal_digits(n as nat);
        let digits = decimal_digits(n as nat);
        assert forall|i: int| 0 <= i < digits.len() implies #[trigger] digits[i] != '\n'
            && digits[i] != '\r' by {
            assert(is_digit(digits[i]));
        }
    }
}

/// The line of a fixed field that is present in a tag is read back.
pub proof fn lemma_fixed_field_reads_back(tag: TagView, id: FrameIdView)
    requires
        is_editable(tag),
        !(id is CustomText),
        frame_content_of(tag, id) is Some,
    ensures
        reads_back(tag, id),
{
    reveal(reads_back);
    lemma_fixed_names_are_clean();
    frame_name_is_read_back(id);
    match frame_content_of(tag, id)->Some_0 {
        FrameContentView::Str(_) => {},
        FrameContentView::I32(v) => {
            lemma_number_fits_in_a_line(v as int);
            written_signed_number_is_read_back(v as int, i32::MIN as int, i32::MAX as int);
        },
        FrameContentView::U32(v) => {
            lemma_number_fits_in_a_line(v as int);
            written_number_is_read_back(v as nat, u32::MAX as nat);
        },
    }
}

/// A key that the custom texts hold has a text among them.
pub proof fn lemma_custom_text_is_found(texts: Seq<(Seq<char>, Seq<char>)>, k: int)
    requires
        0 <= k < texts.len(),
        forall|i: int, j: int| 0 <= i < j < texts.len() ==> texts[i].0 != texts[j].0,
    ensures
        custom_text_of(texts, texts[k].0) == Some(texts[k].1),
    decreases texts.len(),
{
    if k > 0 {
        let rest = texts.drop_first();
        assert(texts[0].0 != texts[k].0);
        assert forall|i: int, j: int| 0 <= i < j < rest.len() implies rest[i].0 != rest[j].0 by {
            assert(rest[i] == texts[i + 1] && rest[j] == texts[j + 1]);
        }
        assert(rest[k - 1] == texts[k]);
        lemma_custom_text_is_found(rest, k - 1);
    }
}

/// The line of a custom text of a tag is read back.
pub proof fn lemma_custom_text_reads_back(tag: TagView, k: int)
    requires
        is_editable(tag),
        0 <= k < tag.custom_texts.len(),
    ensures
        reads_back(tag, FrameIdView::CustomText { key: tag.custom_texts[k].0 }),
{
    reveal(reads_back);
    let id = FrameIdView::CustomText { key: tag.custom_texts[k].0 };
    lemma_custom_text_is_found(tag.custom_texts, k);
    frame_name_is_read_back(id);
}

/// Lines that are read back, in a row, are read back.
pub proof fn lemma_all_read_back_add(tag: TagView, a: Seq<FrameIdView>, b: Seq<FrameIdView>)
    requires
        all_read_back(tag, a),
        all_read_back(tag, b),
    ensures
        all_read_back(tag, a + b),
{
    reveal(all_read_back);
    assert forall|k: int| 0 <= k < (a + b).len() implies reads_back(tag, #[trigger] (a + b)[k]) by {
        if k < a.len() {
            assert((a + b)[k] == a[k]);
        } else {
            assert((a + b)[k] == b[k - a.len()]);
        }
    }
}

/// The line of a fixed field is read back where the field is listed.
pub proof fn lemma_present_reads_back(tag: TagView, id: FrameIdView)
    requires
        is_editable(tag),
        !(id is CustomText),
    ensures
        all_read_back(tag, present(id, frame_content_of(tag, id) is Some)),
{
    reveal(all_read_back);
    if frame_content_of(tag, id) is Some {
        lemma_fixed_field_reads_back(tag, id);
    }
}

/// The line of every field that a tag lists is read back.
pub proof fn lemma_tag_reads_back(tag: TagView)
    requires
        is_editable(tag),
    ensures
        all_read_back(tag, frame_ids_of(tag)),
{
    let keys = tag.custom_texts.map_values(
        |entry: (Seq<char>, Seq<char>)| FrameIdView::CustomText { key: entry.0 },
    );
    assert(all_read_back(tag, keys)) by {
        reveal(all_read_back);
        assert forall|k: int| 0 <= k < keys.len() implies reads_back(tag, #[trigger] keys[k]) by {
            lemma_custom_text_reads_back(tag, k);
        }
    }
    let p1 = present(FrameIdView::Title, tag.title is Some);
    let p2 = present(FrameIdView::Album, tag.album is Some);
    let p3 = present(FrameIdView::AlbumArtist, tag.album_artist is Some);
    let p4 = present(FrameIdView::Artist, tag.artist is Some);
    let p5 = present(FrameIdView::Year, tag.year is Some);
    let p6 = present(FrameIdView::Track, tag.track_number is Some);
    let p7 = present(FrameIdView::TotalTracks, tag.total_tracks is Some);
    let p8 = present(FrameIdView::Disc, tag.disc is Some);
    let p9 = present(FrameIdView::TotalDiscs, tag.total_discs is Some);
    let p10 = present(FrameIdView::Genre, tag.genre is Some);
    lemma_present_reads_back(tag, FrameIdView::Title);
    lemma_present_reads_back(tag, FrameIdView::Album);
    lemma_present_reads_back(tag, FrameIdView::AlbumArtist);
    lemma_present_reads_back(tag, FrameIdView::Artist);
    lemma_present_reads_back(tag, FrameIdView::Year);
    lemma_present_reads_back(tag, FrameIdView::Track);
    lemma_present_reads_back(tag, FrameIdView::TotalTracks);
    lemma_present_reads_back(tag, FrameIdView::Disc);
    lemma_present_reads_back(tag, FrameIdView::TotalDiscs);
    lemma_present_reads_back(tag, FrameIdView::Genre);
    lemma_all_read_back_add(tag, p1, p2);
    lemma_all_read_back_add(tag, p1 + p2, p3);
    lemma_all_read_back_add(tag, p1 + p2 + p3, p4);
    lemma_all_read_back_add(tag, p1 + p2 + p3 + p4, p5);
    lemma_all_read_back_add(tag, p1 + p2 + p3 + p4 + p5, p6);
    lemma_all_read_back_add(tag, p1 + p2 + p3 + p4 + p5 + p6, p7);
    lemma_all_read_back_add(tag, p1 + p2 + p3 + p4 + p5 + p6 + p7, p8);
    lemma_all_read_back_add(tag, p1 + p2 + p3 + p4 + p5 + p6 + p7 + p8, p9);
    lemma_all_read_back_add(tag, p1 + p2 + p3 + p4 + p5 + p6 + p7 + p8 + p9, p10);
    lemma_all_read_back_add(tag, p1 + p2 + p3 + p4 + p5 + p6 + p7 + p8 + p9 + p10, keys);
}

/// The first colon with a space behind it stands behind the name, where
/// the name holds no colon.
pub proof fn lemma_first_separator(line: Seq<char>, name_length: int, from: int)
    requires
        1 <= from <= name_length,
        name_length + 1 < line.len(),
        line[name_length] == ':',
        line[name_length + 1] == ' ',
        forall|i: int| 1 <= i < name_length ==> line[i] != ':',
    ensures
        first_separator(line, from) == name_length,
    decreases name_length - from,
{
    if from < name_length {
        lemma_first_separator(line, name_length, from + 1);
    }
}

/// The line of a field that is read back fits in a line, is not the
/// delimiter, and gives the field's name and what the field holds.
pub proof fn lemma_line_is_read(tag: TagView, id: FrameIdView)
    requires
        reads_back(tag, id),
    ensures
        frame_content_of(tag, id) is Some,
        fits_in_a_line(line_text(tag, id)),
        line_text(tag, id) != TRACK_DELIMITER@,
        parsed_line(line_text(tag, id)) == Some(
            (frame_name(id), content_text(frame_content_of(tag, id)->Some_0)),
        ),
        parsed_content(frame_named(frame_name(id)), content_text(frame_content_of(tag, id)->Some_0))
            == frame_content_of(tag, id),
        frame_named(frame_name(id)) == id,
{
    reveal(reads_back);
    let name = frame_name(id);
    let content = content_text(frame_content_of(tag, id)->Some_0);
    let line = line_text(tag, id);
    assert(line =~= name + seq![':', ' '] + content);
    assert(line[name.len() as int] == ':');
    assert(line[(name.len() + 1) as int] == ' ');
    assert forall|i: int| 1 <= i < name.len() implies line[i] != ':' by {
        assert(line[i] == name[i]);
    }
    lemma_first_separator(line, name.len() as int, 1);
    assert(line.take(name.len() as int) =~= name);
    assert(line.skip((name.len() + 2) as int) =~= content);
    assert forall|i: int| 0 <= i < line.len() implies #[trigger] line[i] != '\n' && line[i]
        != '\r' by {
        if i < name.len() {
            assert(line[i] == name[i]);
        } else if i >= name.len() + 2 {
            assert(line[i] == content[i - name.len() - 2]);
        }
    }
    reveal_strlit("--------------------------");
    if line == TRACK_DELIMITER@ {
        assert(TRACK_DELIMITER@[name.len() as int] == '-');
    }
}

/// The delimiter fits in a line.
pub proof fn lemma_delimiter_fits()
    ensures
        fits_in_a_line(TRACK_DELIMITER@),
{
    reveal_strlit("--------------------------");
}

/// The lines of the fields are as many as the fields, each the line of its
/// field.
pub proof fn lemma_id_lines(tag: TagView, ids: Seq<FrameIdView>)
    ensures
        id_lines(tag, ids).len() == ids.len(),
        forall|j: int| 0 <= j < ids.len() ==> #[trigger] id_lines(tag, ids)[j] == line_text(
            tag,
            ids[j],
        ),
    decreases ids.len(),
{
    if ids.len() > 0 {
        lemma_id_lines(tag, ids.drop_last());
        assert forall|j: int| 0 <= j < ids.len() implies #[trigger] id_lines(tag, ids)[j]
            == line_text(tag, ids[j]) by {
            if j < ids.len() - 1 {
                assert(ids.drop_last()[j] == ids[j]);
                assert(id_lines(tag, ids)[j] == id_lines(tag, ids.drop_last())[j]);
            }
        }
    }
}

/// The tag that is there when the given fields, one after the other, were
/// given what `tag` holds in them.
pub open spec fn refilled(filled: TagView, tag: TagView, ids: Seq<FrameIdView>) -> TagView
    decreases ids.len(),
{
    if ids.len() == 0 {
        filled
    } else {
        refilled(
            with_frame(filled, ids[0], frame_content_of(tag, ids[0])),
            tag,
            ids.drop_first(),
        )
    }
}

/// Reading the lines of some fields of a tag, up to the delimiter behind
/// them, gives these fields what the tag holds in them.
pub proof fn lemma_block_is_read(
    lines: Seq<Seq<char>>,
    from: int,
    filled: TagView,
    tag: TagView,
    ids: Seq<FrameIdView>,
)
    requires
        0 <= from,
        from + ids.len() < lines.len(),
        all_read_back(tag, ids),
        forall|j: int| 0 <= j < ids.len() ==> lines[from + j] == line_text(tag, #[trigger] ids[j]),
        lines[from + ids.len()] == TRACK_DELIMITER@,
    ensures
        edited_tag(lines, from, filled) == Ok::<(TagView, int), EditErrorView>(
            (refilled(filled, tag, ids), from + ids.len() + 1),
        ),
    decreases ids.len(),
{
    if ids.len() == 0 {
        assert(lines[from] == TRACK_DELIMITER@);
        assert(refilled(filled, tag, ids) == filled);
    } else {
        reveal(all_read_back);
        let id = ids[0];
        let rest = ids.drop_first();
        assert(reads_back(tag, id));
        lemma_line_is_read(tag, id);
        assert(lines[from] == line_text(tag, id)) by {
            assert(lines[from + 0] == line_text(tag, ids[0]));
        }
        assert(all_read_back(tag, rest)) by {
            assert forall|k: int| 0 <= k < rest.len() implies reads_back(tag, #[trigger] rest[k]) by {
                assert(rest[k] == ids[k + 1]);
            }
        }
        assert forall|j: int| 0 <= j < rest.len() implies lines[from + 1 + j] == line_text(
            tag,
            #[trigger] rest[j],
        ) by {
            assert(rest[j] == ids[j + 1]);
            assert(lines[from + (j + 1)] == line_text(tag, ids[j + 1]));
        }
        assert(lines[from + 1 + rest.len()] == TRACK_DELIMITER@);
        let next = with_frame(filled, id, frame_content_of(tag, id));
        lemma_block_is_read(lines, from + 1, next, tag, rest);
        assert(refilled(filled, tag, ids) == refilled(next, tag, rest));
        assert(edited_tag(lines, from, filled) == edited_tag(lines, from + 1, next));
    }
}

/// Filling fields in two runs is filling them in one.
pub proof fn lemma_refilled_add(
    filled: TagView,
    tag: TagView,
    a: Seq<FrameIdView>,
    b: Seq<FrameIdView>,
)
    ensures
        refilled(filled, tag, a + b) == refilled(refilled(filled, tag, a), tag, b),
    decreases a.len(),
{
    if a.len() == 0 {
        assert(a + b =~= b);
    } else {
        assert((a + b)[0] == a[0]);
        assert((a + b).drop_first() =~= a.drop_first() + b);
        lemma_refilled_add(with_frame(filled, a[0], frame_content_of(tag, a[0])), tag, a.drop_first(), b);
    }
}

/// Filling a field that may be listed fills it where it is.
pub proof fn lemma_refilled_present(filled: TagView, tag: TagView, id: FrameIdView, listed: bool)
    ensures
        refilled(filled, tag, present(id, listed)) == if listed {
            with_frame(filled, id, frame_content_of(tag, id))
        } else {
            filled
        },
{
    let ids = present(id, listed);
    if listed {
        let next = with_frame(filled, id, frame_content_of(tag, id));
        assert(ids.drop_first() =~= Seq::<FrameIdView>::empty());
        assert(ids[0] == id);
        assert(refilled(next, tag, ids.drop_first()) == next);
    } else {
        assert(ids.len() == 0);
    }
}

/// The custom texts stay as they are when a key that none of them has is
/// taken out.
pub proof fn lemma_without_absent_key(texts: Seq<(Seq<char>, Seq<char>)>, key: Seq<char>)
    requires
        forall|i: int| 0 <= i < texts.len() ==> (#[trigger] texts[i]).0 != key,
    ensures
        without_key(texts, key) == texts,
    decreases texts.len(),
{
    if texts.len() > 0 {
        assert forall|i: int| 0 <= i < texts.drop_last().len() implies (#[trigger] texts.drop_last()[i]).0
            != key by {
            assert(texts.drop_last()[i] == texts[i]);
        }
        lemma_without_absent_key(texts.drop_last(), key);
        assert(texts.drop_last().push(texts.last()) =~= texts);
    }
}

/// The keys of the custom texts as fields.
pub open spec fn custom_ids(texts: Seq<(Seq<char>, Seq<char>)>) -> Seq<FrameIdView> {
    texts.map_values(|entry: (Seq<char>, Seq<char>)| FrameIdView::CustomText { key: entry.0 })
}

/// Filling the custom texts from the one at `k` on, behind those before
/// it, gives the custom texts of the tag.
pub proof fn lemma_refilled_customs(filled: TagView, tag: TagView, k: int)
    requires
        0 <= k <= tag.custom_texts.len(),
        filled.custom_texts == tag.custom_texts.take(k),
        forall|i: int, j: int|
            0 <= i < j < tag.custom_texts.len() ==> tag.custom_texts[i].0 != tag.custom_texts[j].0,
    ensures
        refilled(filled, tag, custom_ids(tag.custom_texts).skip(k)) == (TagView {
            custom_texts: tag.custom_texts,
            ..filled
        }),
    decreases tag.custom_texts.len() - k,
{
    let texts = tag.custom_texts;
    let ids = custom_ids(texts).skip(k);
    if k == texts.len() {
        assert(texts.take(k) =~= texts);
    } else {
        let key = texts[k].0;
        assert(ids[0] == FrameIdView::CustomText { key });
        assert(ids.drop_first() =~= custom_ids(texts).skip(k + 1));
        lemma_custom_text_is_found(texts, k);
        assert forall|i: int| 0 <= i < texts.take(k).len() implies (#[trigger] texts.take(k)[i]).0
            != key by {
            assert(texts.take(k)[i] == texts[i]);
        }
        lemma_without_absent_key(texts.take(k), key);
        let next = with_frame(filled, ids[0], frame_content_of(tag, ids[0]));
        assert(next.custom_texts =~= texts.take(k + 1));
        lemma_refilled_customs(next, tag, k + 1);
    }
}

/// The fixed fields that a tag lists.
pub open spec fn fixed_ids(tag: TagView) -> Seq<FrameIdView> {
    present(FrameIdView::Title, tag.title is Some) + present(
        FrameIdView::Album,
        tag.album is Some,
    ) + present(FrameIdView::AlbumArtist, tag.album_artist is Some) + present(
        FrameIdView::Artist,
        tag.artist is Some,
    ) + present(FrameIdView::Year, tag.year is Some) + present(
        FrameIdView::Track,
        tag.track_number is Some,
    ) + present(FrameIdView::TotalTracks, tag.total_tracks is Some) + present(
        FrameIdView::Disc,
        tag.disc is Some,
    ) + present(FrameIdView::TotalDiscs, tag.total_discs is Some) + present(
        FrameIdView::Genre,
        tag.genre is Some,
    )
}

/// Filling one more field that may be listed, behind the fields before it.
pub proof fn lemma_refilled_next(
    tag: TagView,
    before: Seq<FrameIdView>,
    id: FrameIdView,
    listed: bool,
)
    ensures
        refilled(empty_tag(), tag, before + present(id, listed)) == if listed {
            with_frame(refilled(empty_tag(), tag, before), id, frame_content_of(tag, id))
        } else {
            refilled(empty_tag(), tag, before)
        },
{
    lemma_refilled_add(empty_tag(), tag, before, present(id, listed));
    lemma_refilled_present(refilled(empty_tag(), tag, before), tag, id, listed);
}

/// Filling an empty tag with the fixed fields that a tag lists gives the
/// tag without its custom texts.
pub proof fn lemma_refilled_fixed(tag: TagView)
    ensures
        refilled(empty_tag(), tag, fixed_ids(tag)) == (TagView {
            custom_texts: Seq::empty(),
            ..tag
        }),
{
    let p1 = present(FrameIdView::Title, tag.title is Some);
    let p2 = present(FrameIdView::Album, tag.album is Some);
    let p3 = present(FrameIdView::AlbumArtist, tag.album_artist is Some);
    let p4 = present(FrameIdView::Artist, tag.artist is Some);
    let p5 = present(FrameIdView::Year, tag.year is Some);
    let p6 = present(FrameIdView::Track, tag.track_number is Some);
    let p7 = present(FrameIdView::TotalTracks, tag.total_tracks is Some);
    let p8 = present(FrameIdView::Disc, tag.disc is Some);
    let p9 = present(FrameIdView::TotalDiscs, tag.total_discs is Some);
    let empty = empty_tag();
    let e1 = TagView { title: tag.title, ..empty };
    let e2 = TagView { album: tag.album, ..e1 };
    let e3 = TagView { album_artist: tag.album_artist, ..e2 };
    let e4 = TagView { artist: tag.artist, ..e3 };
    let e5 = TagView { year: tag.year, ..e4 };
    let e6 = TagView { track_number: tag.track_number, ..e5 };
    let e7 = TagView { total_tracks: tag.total_tracks, ..e6 };
    let e8 = TagView { disc: tag.disc, ..e7 };
    let e9 = TagView { total_discs: tag.total_discs, ..e8 };
    let e10 = TagView { genre: tag.genre, ..e9 };
    assert(refilled(empty, tag, p1) == e1) by {
        lemma_refilled_present(empty, tag, FrameIdView::Title, tag.title is Some);
    }
    assert(refilled(empty, tag, p1 + p2) == e2) by {
        lemma_refilled_next(tag, p1, FrameIdView::Album, tag.album is Some);
    }
    assert(refilled(empty, tag, p1 + p2 + p3) == e3) by {
        lemma_refilled_next(tag, p1 + p2, FrameIdView::AlbumArtist, tag.album_artist is Some);
    }
    assert(refilled(empty, tag, p1 + p2 + p3 + p4) == e4) by {
        lemma_refilled_next(tag, p1 + p2 + p3, FrameIdView::Artist, tag.artist is Some);
    }
    assert(refilled(empty, tag, p1 + p2 + p3 + p4 + p5) == e5) by {
        lemma_refilled_next(tag, p1 + p2 + p3 + p4, FrameIdView::Year, tag.year is Some);
    }
    assert(refilled(empty, tag, p1 + p2 + p3 + p4 + p5 + p6) == e6) by {
        lemma_refilled_next(
            tag,
            p1 + p2 + p3 + p4 + p5,
            FrameIdView::Track,
            tag.track_number is Some,
        );
    }
    assert(refilled(empty, tag, p1 + p2 + p3 + p4 + p5 + p6 + p7) == e7) by {
        lemma_refilled_next(
            tag,
            p1 + p2 + p3 + p4 + p5 + p6,
            FrameIdView::TotalTracks,
            tag.total_tracks is Some,
        );
    }
    assert(refilled(empty, tag, p1 + p2 + p3 + p4 + p5 + p6 + p7 + p8) == e8) by {
        lemma_refilled_next(
            tag,
            p1 + p2 + p3 + p4 + p5 + p6 + p7,
            FrameIdView::Disc,
            tag.disc is Some,
        );
    }
    assert(refilled(empty, tag, p1 + p2 + p3 + p4 + p5 + p6 + p7 + p8 + p9) == e9) by {
        lemma_refilled_next(
            tag,
            p1 + p2 + p3 + p4 + p5 + p6 + p7 + p8,
            FrameIdView::TotalDiscs,
            tag.total_discs is Some,
        );
    }
    assert(refilled(empty, tag, fixed_ids(tag)) == e10) by {
        lemma_refilled_next(
            tag,
            p1 + p2 + p3 + p4 + p5 + p6 + p7 + p8 + p9,
            FrameIdView::Genre,
            tag.genre is Some,
        );
    }
}

/// Filling an empty tag with every field that a tag lists gives that tag,
/// where the tag has no two custom texts under one key.
pub proof fn lemma_refilled_tag(tag: TagView)
    requires
        forall|i: int, j: int|
            0 <= i < j < tag.custom_texts.len() ==> tag.custom_texts[i].0 != tag.custom_texts[j].0,
    ensures
        refilled(empty_tag(), tag, frame_ids_of(tag)) == tag,
{
    let keys = custom_ids(tag.custom_texts);
    let fixed = TagView { custom_texts: Seq::empty(), ..tag };
    lemma_refilled_fixed(tag);
    lemma_refilled_add(empty_tag(), tag, fixed_ids(tag), keys);
    assert(frame_ids_of(tag) == fixed_ids(tag) + keys);
    assert(fixed.custom_texts =~= tag.custom_texts.take(0));
    assert(keys.skip(0) =~= keys);
    lemma_refilled_customs(fixed, tag, 0);
}

/// The changes from `at` on, each with its own tag and with the path that
/// this tag gives it, behind the changes that are `done`.
pub open spec fn kept_rest(
    changes: Seq<MusicFileChangeView>,
    at: int,
    done: Seq<MusicFileChangeView>,
    output_path: Option<Seq<Seq<char>>>,
    windows: bool,
) -> Result<Seq<MusicFileChangeView>, EditErrorView>
    decreases changes.len() - at,
{
    if at < 0 || at >= changes.len() {
        Ok(done)
    } else {
        match retagged(changes[at], changes[at].target.tag, output_path, windows) {
            Err(e) => Err(e),
            Ok(change) => kept_rest(changes, at + 1, done.push(change), output_path, windows),
        }
    }
}

/// The lines of the first tags are the first of the lines of all.
pub proof fn lemma_prompt_lines_prefix(changes: Seq<MusicFileChangeView>, n: int)
    requires
        0 <= n <= changes.len(),
    ensures
        prompt_lines(changes.take(n)).is_prefix_of(prompt_lines(changes)),
        n < changes.len() ==> prompt_lines(changes.take(n + 1)) == prompt_lines(changes.take(n))
            + block_lines(changes[n].target.tag),
    decreases changes.len(),
{
    if n < changes.len() {
        assert(changes.take(n + 1).drop_last() =~= changes.take(n));
        assert(changes.take(n + 1).last() == changes[n]);
        assert(changes.drop_last().take(n) =~= changes.take(n));
        lemma_prompt_lines_prefix(changes.drop_last(), n);
    } else {
        assert(changes.take(n) =~= changes);
    }
}

/// Every line of tags that can be edited fits in a line.
pub proof fn lemma_prompt_lines_fit(changes: Seq<MusicFileChangeView>)
    requires
        forall|i: int| 0 <= i < changes.len() ==> is_editable((#[trigger] changes[i]).target.tag),
    ensures
        forall|k: int|
            0 <= k < prompt_lines(changes).len() ==> fits_in_a_line(
                #[trigger] prompt_lines(changes)[k],
            ),
    decreases changes.len(),
{
    if changes.len() > 0 {
        let front = changes.drop_last();
        let tag = changes.last().target.tag;
        assert forall|i: int| 0 <= i < front.len() implies is_editable(
            (#[trigger] front[i]).target.tag,
        ) by {
            assert(front[i] == changes[i]);
        }
        lemma_prompt_lines_fit(front);
        lemma_tag_reads_back(tag);
        lemma_id_lines(tag, frame_ids_of(tag));
        lemma_delimiter_fits();
        let before = prompt_lines(front);
        let block = block_lines(tag);
        assert forall|k: int| 0 <= k < prompt_lines(changes).len() implies fits_in_a_line(
            #[trigger] prompt_lines(changes)[k],
        ) by {
            if k < before.len() {
                assert(prompt_lines(changes)[k] == before[k]);
            } else {
                let j = k - before.len();
                assert(prompt_lines(changes)[k] == block[j]);
                if j < frame_ids_of(tag).len() {
                    reveal(all_read_back);
                    assert(reads_back(tag, frame_ids_of(tag)[j]));
                    lemma_line_is_read(tag, frame_ids_of(tag)[j]);
                    assert(block[j] == id_lines(tag, frame_ids_of(tag))[j]);
                }
            }
        }
    }
}

/// Reading the lines of the tags from the one at `at` on gives each change
/// its own tag.
pub proof fn lemma_rest_is_read(
    changes: Seq<MusicFileChangeView>,
    at: int,
    done: Seq<MusicFileChangeView>,
    output_path: Option<Seq<Seq<char>>>,
    windows: bool,
)
    requires
        0 <= at <= changes.len(),
        forall|i: int| 0 <= i < changes.len() ==> is_editable((#[trigger] changes[i]).target.tag),
    ensures
        edited_rest(
            changes,
            at,
            prompt_lines(changes),
            prompt_lines(changes.take(at)).len() as int,
            done,
            output_path,
            windows,
        ) == kept_rest(changes, at, done, output_path, windows),
    decreases changes.len() - at,
{
    if at < changes.len() {
        let lines = prompt_lines(changes);
        let tag = changes[at].target.tag;
        let ids = frame_ids_of(tag);
        let from = prompt_lines(changes.take(at)).len() as int;
        let block = block_lines(tag);
        lemma_prompt_lines_prefix(changes, at);
        lemma_prompt_lines_prefix(changes, at + 1);
        lemma_id_lines(tag, ids);
        lemma_tag_reads_back(tag);
        assert(is_editable(changes[at].target.tag));
        assert forall|j: int| 0 <= j < block.len() implies lines[from + j] == block[j] by {
            assert(prompt_lines(changes.take(at + 1))[from + j] == block[j]);
        }
        assert forall|j: int| 0 <= j < ids.len() implies lines[from + j] == line_text(
            tag,
            #[trigger] ids[j],
        ) by {
            assert(block[j] == id_lines(tag, ids)[j]);
        }
        assert(lines[from + ids.len()] == TRACK_DELIMITER@) by {
            assert(block[ids.len() as int] == TRACK_DELIMITER@);
        }
        lemma_block_is_read(lines, from, empty_tag(), tag, ids);
        lemma_refilled_tag(tag);
        assert(prompt_lines(changes.take(at + 1)).len() == from + ids.len() + 1);
        match retagged(changes[at], tag, output_path, windows) {
            Err(_) => {},
            Ok(change) => {
                lemma_rest_is_read(changes, at + 1, done.push(change), output_path, windows);
            },
        }
    }
}

/// When the user changes nothing in the editor, every music file keeps its
/// tag: the text that is shown for editing is read back as the tags it was
/// made from. This holds of tags that can be shown in lines, as
/// [`is_editable`] has it.
pub proof fn unedited_prompt_keeps_the_tags(
    changes: Seq<MusicFileChangeView>,
    output_path: Option<Seq<Seq<char>>>,
    windows: bool,
)
    requires
        forall|i: int| 0 <= i < changes.len() ==> is_editable((#[trigger] changes[i]).target.tag),
    ensures
        edited_music_files(changes, editor_prompt(changes), output_path, windows) == kept_rest(
            changes,
            0,
            Seq::empty(),
            output_path,
            windows,
        ),
{
    lemma_editor_prompt(changes);
    lemma_prompt_lines_fit(changes);
    lemma_lines_are_read_back(prompt_lines(changes));
    assert(changes.take(0) =~= Seq::<MusicFileChangeView>::empty());
    lemma_rest_is_read(changes, 0, Seq::empty(), output_path, windows);
}

/// Changes whose paths are those that their tags give them are kept as
/// they are.
pub proof fn lemma_kept_rest(
    changes: Seq<MusicFileChangeView>,
    at: int,
    output_path: Option<Seq<Seq<char>>>,
    windows: bool,
)
    requires
        0 <= at <= changes.len(),
        forall|i: int|
            0 <= i < changes.len() ==> retagged(
                #[trigger] changes[i],
                changes[i].target.tag,
                output_path,
                windows,
            ) == Ok::<MusicFileChangeView, EditErrorView>(changes[i]),
    ensures
        kept_rest(changes, at, changes.take(at), output_path, windows) == Ok::<
            Seq<MusicFileChangeView>,
            EditErrorView,
        >(changes),
    decreases changes.len() - at,
{
    if at < changes.len() {
        assert(changes.take(at).push(changes[at]) =~= changes.take(at + 1));
        lemma_kept_rest(changes, at + 1, output_path, windows);
    } else {
        assert(changes.take(at) =~= changes);
    }
}

/// When the user changes nothing in the editor, the music files stay as
/// they were planned: this holds of music files whose tags can be shown in
/// lines and whose paths are those that their tags give them.
pub proof fn unedited_prompt_keeps_the_music_files(
    changes: Seq<MusicFileChangeView>,
    output_path: Option<Seq<Seq<char>>>,
    windows: bool,
)
    requires
        forall|i: int| 0 <= i < changes.len() ==> is_editable((#[trigger] changes[i]).target.tag),
        forall|i: int|
            0 <= i < changes.len() ==> retagged(
                #[trigger] changes[i],
                changes[i].target.tag,
                output_path,
                windows,
            ) == Ok::<MusicFileChangeView, EditErrorView>(changes[i]),
    ensures
        edited_music_files(changes, editor_prompt(changes), output_path, windows) == Ok::<
            Seq<MusicFileChangeView>,
            EditErrorView,
        >(changes),
{
    unedited_prompt_keeps_the_tags(changes, output_path, windows);
    assert(changes.take(0) =~= Seq::<MusicFileChangeView>::empty());
    lemma_kept_rest(changes, 0, output_path, windows);
}

} // verus!
