use vstd::prelude::*;
use vstd::string::*;
use crate::util::views::{lemma_deep_view_empty, lemma_deep_view_index, lemma_deep_view_push};

verus! {

/// Whether a character has the Unicode `White_Space` property: the
/// controls from tab to carriage return, the space, the next-line control,
/// the no-break space, the Ogham space mark, the spaces from en quad to hair
/// space, the line and the paragraph separator, the narrow no-break space,
/// the medium mathematical space and the ideographic space.
pub open spec fn unicode_whitespace(c: char) -> bool {
    let code = c as u32;
    ||| 0x0009 <= code <= 0x000D
    ||| code == 0x0020
    ||| code == 0x0085
    ||| code == 0x00A0
    ||| code == 0x1680
    ||| 0x2000 <= code <= 0x200A
    ||| code == 0x2028
    ||| code == 0x2029
    ||| code == 0x202F
    ||| code == 0x205F
    ||| code == 0x3000
}

/// `char::is_whitespace` decides the Unicode `White_Space` property, as
/// [`unicode_whitespace`] spells it out.
pub assume_specification[ char::is_whitespace ](c: char) -> (r: bool)
    ensures
        r == unicode_whitespace(c),
;

/// Appends one character to a string.
///
/// Wraps `String::push`: the string afterwards is the string before followed by `c`.
#[verifier::external_body]
pub(crate) fn push_char(s: &mut String, c: char)
    ensures
        final(s)@ == old(s)@.push(c),
{
    s.push(c);
}

/// Whether two string slices hold the same characters.
pub(crate) fn text_eq(a: &str, b: &str) -> (r: bool)
    ensures
        r == (a@ == b@),
{
    let x = a.to_owned();
    let y = b.to_owned();
    x == y
}

/// The characters of a string, in order.
pub fn chars_of(s: &str) -> (r: Vec<char>)
    ensures
        r@ == s@,
{
    let mut r: Vec<char> = Vec::new();
    for c in it: s.chars()
        invariant
            r@ == s@.take(it.index() as int),
            it.seq() == s@,
    {
        r.push(c);
    }
    assert(s@.take(s@.len() as int) =~= s@);
    r
}

/// The string made of `chars[from..to]`.
pub fn string_of_range(chars: &Vec<char>, from: usize, to: usize) -> (r: String)
    requires
        from <= to <= chars.len(),
    ensures
        r@ == chars@.subrange(from as int, to as int),
{
    let mut r = String::new();
    let mut i: usize = from;
    while i < to
        invariant
            from <= i <= to <= chars.len(),
            r@ == chars@.subrange(from as int, i as int),
        decreases to - i,
    {
        push_char(&mut r, chars[i]);
        assert(chars@.subrange(from as int, i as int).push(chars@[i as int]) =~= chars@.subrange(
            from as int,
            i + 1,
        ));
        i += 1;
    }
    r
}

/// The string made of the given characters.
pub fn string_of(chars: &Vec<char>) -> (r: String)
    ensures
        r@ == chars@,
{
    let r = string_of_range(chars, 0, chars.len());
    assert(chars@.subrange(0, chars@.len() as int) =~= chars@);
    r
}

/// `s` without its leading whitespace.
pub open spec fn trimmed_start(s: Seq<char>) -> Seq<char>
    decreases s.len(),
{
    if s.len() > 0 && unicode_whitespace(s[0]) {
        trimmed_start(s.drop_first())
    } else {
        s
    }
}

/// `s` without its trailing whitespace.
pub open spec fn trimmed_end(s: Seq<char>) -> Seq<char>
    decreases s.len(),
{
    if s.len() > 0 && unicode_whitespace(s.last()) {
        trimmed_end(s.drop_last())
    } else {
        s
    }
}

/// `s` without leading and trailing whitespace.
pub open spec fn trimmed(s: Seq<char>) -> Seq<char> {
    trimmed_end(trimmed_start(s))
}

/// Removes leading and trailing whitespace.
pub fn trim(s: &str) -> (r: String)
    ensures
        r@ == trimmed(s@),
{
    let chars = chars_of(s);
    let mut from: usize = 0;
    assert(chars@.skip(0) =~= chars@);
    while from < chars.len() && chars[from].is_whitespace()
        invariant
            from <= chars.len(),
            trimmed_start(chars@) == trimmed_start(chars@.skip(from as int)),
        decreases chars.len() - from,
    {
        assert(chars@.skip(from as int).drop_first() =~= chars@.skip(from + 1));
        from += 1;
    }
    assert(chars@.skip(from as int) =~= chars@.subrange(from as int, chars@.len() as int));
    let mut to: usize = chars.len();
    while to > from && chars[to - 1].is_whitespace()
        invariant
            from <= to <= chars.len(),
            trimmed(chars@) == trimmed_end(chars@.subrange(from as int, to as int)),
        decreases to,
    {
        assert(chars@.subrange(from as int, to as int).drop_last() =~= chars@.subrange(
            from as int,
            to - 1,
        ));
        to -= 1;
    }
    string_of_range(&chars, from, to)
}

/// Where `c` stands first in `s`, and the length of `s` where it does not
/// occur.
pub open spec fn first_index_of(s: Seq<char>, c: char) -> int
    decreases s.len(),
{
    if s.len() == 0 {
        0
    } else if s[0] == c {
        0
    } else {
        1 + first_index_of(s.drop_first(), c)
    }
}

/// The pieces of `s` between the occurrences of `separator`. There is one
/// piece more than there are separators, so a text without any is one piece.
pub open spec fn split_on(s: Seq<char>, separator: char) -> Seq<Seq<char>>
    decreases s.len(),
{
    let at = first_index_of(s, separator);
    if 0 <= at < s.len() {
        seq![s.take(at)] + split_on(s.skip(at + 1), separator)
    } else {
        seq![s]
    }
}

/// The texts of `parts` in a row, with `separator` between each two.
pub open spec fn joined(parts: Seq<Seq<char>>, separator: Seq<char>) -> Seq<char>
    decreases parts.len(),
{
    if parts.len() == 0 {
        Seq::empty()
    } else if parts.len() == 1 {
        parts[0]
    } else {
        joined(parts.drop_last(), separator) + separator + parts.last()
    }
}

/// Where a character stands first, it stands, and nowhere before.
pub proof fn lemma_first_index_of(s: Seq<char>, c: char)
    ensures
        0 <= first_index_of(s, c) <= s.len(),
        first_index_of(s, c) < s.len() ==> s[first_index_of(s, c)] == c,
        forall|i: int| 0 <= i < first_index_of(s, c) ==> s[i] != c,
    decreases s.len(),
{
    if s.len() > 0 && s[0] != c {
        lemma_first_index_of(s.drop_first(), c);
        assert forall|i: int| 0 <= i < first_index_of(s, c) implies s[i] != c by {
            if i > 0 {
                assert(s.drop_first()[i - 1] == s[i]);
            }
        }
    }
}

/// The first place at or after `from` where `c` stands: `chars.len()` where
/// there is none.
pub fn find_char(chars: &Vec<char>, from: usize, c: char) -> (r: usize)
    requires
        from <= chars.len(),
    ensures
        r == from + first_index_of(chars@.skip(from as int), c),
        from <= r <= chars.len(),
{
    let mut i: usize = from;
    proof {
        lemma_first_index_of(chars@.skip(from as int), c);
    }
    while i < chars.len() && chars[i] != c
        invariant
            from <= i <= chars.len(),
            from + first_index_of(chars@.skip(from as int), c) == i + first_index_of(
                chars@.skip(i as int),
                c,
            ),
        decreases chars.len() - i,
    {
        assert(chars@.skip(i as int).drop_first() =~= chars@.skip(i + 1));
        i += 1;
    }
    proof {
        lemma_first_index_of(chars@.skip(i as int), c);
    }
    i
}

/// Cuts a text at every `separator`.
pub fn split(s: &str, separator: char) -> (r: Vec<String>)
    ensures
        r.deep_view() == split_on(s@, separator),
{
    let chars = chars_of(s);
    let mut r: Vec<String> = Vec::new();
    let mut from: usize = 0;
    proof {
        lemma_deep_view_empty(r);
        assert(chars@.skip(0) =~= chars@);
    }
    loop
        invariant
            from <= chars.len(),
            chars@ == s@,
            split_on(s@, separator) == r.deep_view() + split_on(
                chars@.skip(from as int),
                separator,
            ),
        decreases chars.len() - from,
    {
        let ghost rest = chars@.skip(from as int);
        let at = find_char(&chars, from, separator);
        let piece = string_of_range(&chars, from, at);
        assert(chars@.subrange(from as int, at as int) =~= rest.take(at - from));
        let ghost before = r;
        r.push(piece);
        proof {
            lemma_deep_view_push(before, r, piece);
        }
        if at == chars.len() {
            assert(rest.take(rest.len() as int) =~= rest);
            assert(r.deep_view() =~= before.deep_view() + seq![rest]);
            return r;
        }
        assert(rest.skip(at - from + 1) =~= chars@.skip(at + 1));
        assert(r.deep_view() + split_on(chars@.skip(at + 1), separator) =~= before.deep_view() + (
        seq![rest.take(at - from)] + split_on(rest.skip(at - from + 1), separator)));
        from = at + 1;
    }
}

/// Puts texts in a row, with `separator` between each two.
pub fn join(parts: &Vec<String>, separator: &str) -> (r: String)
    ensures
        r@ == joined(parts.deep_view(), separator@),
{
    let mut r = String::new();
    let mut i: usize = 0;
    let ghost texts = parts.deep_view();
    proof {
        lemma_deep_view_index(*parts);
        assert(texts.take(0) =~= Seq::<Seq<char>>::empty());
    }
    while i < parts.len()
        invariant
            i <= parts.len(),
            texts == parts.deep_view(),
            texts.len() == parts.len(),
            forall|k: int| 0 <= k < parts.len() ==> texts[k] == parts[k]@,
            r@ == joined(texts.take(i as int), separator@),
        decreases parts.len() - i,
    {
        assert(texts.take(i + 1).drop_last() =~= texts.take(i as int));
        assert(texts.take(i + 1).last() == texts[i as int]);
        if i > 0 {
            r.append(separator);
        }
        r.append(parts[i].as_str());
        assert(r@ =~= joined(texts.take(i + 1), separator@));
        i += 1;
    }
    assert(texts.take(i as int) =~= texts);
    r
}

/// A text always splits into at least one piece.
pub proof fn lemma_split_on_not_empty(s: Seq<char>, separator: char)
    ensures
        split_on(s, separator).len() >= 1,
    decreases s.len(),
{
    lemma_first_index_of(s, separator);
    let at = first_index_of(s, separator);
    if 0 <= at < s.len() {
        lemma_split_on_not_empty(s.skip(at + 1), separator);
    }
}

} // verus!
