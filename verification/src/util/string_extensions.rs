use fuzzy_matcher::FuzzyMatcher;
use vstd::prelude::*;
use vstd::string::*;
use crate::util::text::{chars_of, string_of};

verus! {

/// The ASCII text that transliteration makes of `s`.
pub uninterp spec fn unidecoded(s: Seq<char>) -> Seq<char>;

/// How many insertions, deletions, substitutions and swaps of neighbours
/// the Damerau-Levenshtein measure counts between `a` and `b`.
pub uninterp spec fn damerau_levenshtein_distance(a: Seq<char>, b: Seq<char>) -> nat;

/// Writes a text in ASCII.
///
/// Wraps `unidecode::unidecode`, which looks each character up in a fixed
/// table. The result is known only by the name [`unidecoded`].
#[verifier::external_body]
pub(crate) fn transliterate(s: &str) -> (r: String)
    ensures
        r@ == unidecoded(s@),
{
    unidecode::unidecode(s)
}

/// The edit distance between two texts.
///
/// Wraps `strsim::damerau_levenshtein`. The result is known only by the
/// name [`damerau_levenshtein_distance`].
#[verifier::external_body]
pub(crate) fn edit_distance(a: &str, b: &str) -> (r: usize)
    ensures
        r == damerau_levenshtein_distance(a@, b@),
{
    strsim::damerau_levenshtein(a, b)
}

/// The score that the fuzzy matcher gives to finding `pattern` in `choice`.
///
/// Wraps `fuzzy_match` of `fuzzy_matcher::skim::SkimMatcherV2` as it is by
/// default. It gives a score exactly when the characters of the pattern can
/// be found in the choice in their order, where a pattern without a capital
/// letter does not tell capital from small letters. Nothing is said of the
/// score itself.
#[verifier::external_body]
pub(crate) fn fuzzy_match(choice: &str, pattern: &str) -> (r: Option<i64>)
    ensures
        r is Some <==> fuzzy_matches(choice@, pattern@),
{
    fuzzy_matcher::skim::SkimMatcherV2::default().fuzzy_match(choice, pattern)
}

/// The small letter for a capital ASCII letter, and any other character
/// as it is.
pub open spec fn ascii_lower(c: char) -> char {
    if 'A' <= c <= 'Z' {
        ((c as u32) + 32) as char
    } else {
        c
    }
}

/// Whether `s` holds a capital ASCII letter.
pub open spec fn has_capital(s: Seq<char>) -> bool {
    exists|i: int| 0 <= i < s.len() && 'A' <= #[trigger] s[i] <= 'Z'
}

/// Whether the fuzzy matcher takes two characters for the same.
pub open spec fn fuzzy_same(c: char, p: char, case_sensitive: bool) -> bool {
    if case_sensitive {
        c == p
    } else {
        ascii_lower(c) == ascii_lower(p)
    }
}

/// Whether the characters of `pattern` occur in `choice`, in their order.
pub open spec fn is_fuzzy_subsequence(
    pattern: Seq<char>,
    choice: Seq<char>,
    case_sensitive: bool,
) -> bool
    decreases choice.len(),
{
    if pattern.len() == 0 {
        true
    } else if choice.len() == 0 {
        false
    } else if fuzzy_same(choice[0], pattern[0], case_sensitive) {
        is_fuzzy_subsequence(pattern.drop_first(), choice.drop_first(), case_sensitive)
    } else {
        is_fuzzy_subsequence(pattern, choice.drop_first(), case_sensitive)
    }
}

/// Whether the fuzzy matcher finds `pattern` in `choice`.
pub open spec fn fuzzy_matches(choice: Seq<char>, pattern: Seq<char>) -> bool {
    is_fuzzy_subsequence(pattern, choice, has_capital(pattern))
}

/// Whether `c` is an ASCII letter, an ASCII digit or ASCII whitespace.
pub open spec fn is_plain(c: char) -> bool {
    ('a' <= c <= 'z') || ('A' <= c <= 'Z') || ('0' <= c <= '9') || c == ' ' || c == '\t' || c
        == '\n' || c == '\x0C' || c == '\r'
}

/// `s` with its capital ASCII letters made small.
pub open spec fn lowered(s: Seq<char>) -> Seq<char> {
    s.map_values(|c: char| ascii_lower(c))
}

/// The plain characters of `s`, in their order.
pub open spec fn only_plain(s: Seq<char>) -> Seq<char>
    decreases s.len(),
{
    if s.len() == 0 {
        s
    } else if is_plain(s.last()) {
        only_plain(s.drop_last()).push(s.last())
    } else {
        only_plain(s.drop_last())
    }
}

/// `s` read from the left, with one space in place of each pair of spaces.
pub open spec fn single_spaced(s: Seq<char>) -> Seq<char>
    decreases s.len(),
{
    if s.len() >= 2 && s[0] == ' ' && s[1] == ' ' {
        seq![' '] + single_spaced(s.skip(2))
    } else if s.len() > 0 {
        seq![s[0]] + single_spaced(s.drop_first())
    } else {
        s
    }
}

/// A text made simple for comparing: written in ASCII, in small letters,
/// without anything but letters, digits and whitespace, and with pairs of
/// spaces made single.
pub open spec fn simplified(s: Seq<char>) -> Seq<char> {
    single_spaced(only_plain(lowered(unidecoded(s))))
}

/// How alike two texts are, as the share of the longer text's characters
/// that the edit distance leaves untouched: one minus `distance / length`,
/// and one where both texts are empty.
#[derive(Clone, Copy, Debug, PartialEq, Eq, Structural)]
pub struct SimilarityScore {
    pub distance: usize,
    pub length: usize,
}

/// The least score, in hundredths, at which two titles count as similar.
pub const SIMILAR_SCORE_PERCENT: u128 = 85;

impl SimilarityScore {
    /// The share that the edit distance takes away, as a numerator and a
    /// denominator above zero.
    pub open spec fn lost(self) -> (nat, nat) {
        if self.length == 0 {
            (0nat, 1nat)
        } else {
            (self.distance as nat, self.length as nat)
        }
    }

    /// Whether the score is at least `percent` hundredths.
    pub open spec fn at_least(self, percent: nat) -> bool {
        100 * self.lost().0 <= (100 - percent) * self.lost().1
    }

    /// Whether this score is above the other.
    pub open spec fn above(self, other: SimilarityScore) -> bool {
        self.lost().0 * other.lost().1 < other.lost().0 * self.lost().1
    }

    /// Whether the score is at least `percent` hundredths.
    pub fn is_at_least(&self, percent: u128) -> (r: bool)
        requires
            percent <= 100,
        ensures
            r == self.at_least(percent as nat),
    {
        if self.length == 0 {
            true
        } else {
            assert(100 * self.distance <= u128::MAX && (100 - percent) * self.length <= u128::MAX)
                by (nonlinear_arith)
                requires
                    self.distance <= usize::MAX <= u64::MAX,
                    self.length <= usize::MAX <= u64::MAX,
                    percent <= 100,
            ;
            100 * (self.distance as u128) <= (100 - percent) * (self.length as u128)
        }
    }

    /// Whether this score is above the other.
    pub fn is_above(&self, other: &SimilarityScore) -> (r: bool)
        ensures
            r == self.above(*other),
    {
        let (a, b): (u128, u128) = if self.length == 0 {
            (0, 1)
        } else {
            (self.distance as u128, self.length as u128)
        };
        let (c, d): (u128, u128) = if other.length == 0 {
            (0, 1)
        } else {
            (other.distance as u128, other.length as u128)
        };
        assert(a * d <= u128::MAX && c * b <= u128::MAX) by (nonlinear_arith)
            requires
                a <= u64::MAX,
                b <= u64::MAX,
                c <= u64::MAX,
                d <= u64::MAX,
        ;
        a * d < c * b
    }
}

/// The greater of two lengths.
pub open spec fn longer(a: Seq<char>, b: Seq<char>) -> nat {
    if a.len() >= b.len() {
        a.len()
    } else {
        b.len()
    }
}

/// The score of the edit distance from `a` to `b`.
pub open spec fn score_between(a: Seq<char>, b: Seq<char>) -> SimilarityScore {
    SimilarityScore {
        distance: damerau_levenshtein_distance(a, b) as usize,
        length: longer(a, b) as usize,
    }
}

/// Whether two simple texts are close: the edit distance between them, read
/// either way, leaves the score at the least one for similar titles.
pub open spec fn close(a: Seq<char>, b: Seq<char>) -> bool {
    score_between(a, b).at_least(SIMILAR_SCORE_PERCENT as nat) || score_between(b, a).at_least(
        SIMILAR_SCORE_PERCENT as nat,
    )
}

/// Whether two titles count as the same title: made simple, they are close,
/// or the fuzzy matcher finds one of them in the other.
pub open spec fn similar(a: Seq<char>, b: Seq<char>) -> bool {
    let x = simplified(a);
    let y = simplified(b);
    close(x, y) || fuzzy_matches(x, y) || fuzzy_matches(y, x)
}

/// What the library asks of texts when it compares titles.
pub trait StringExtensions {
    /// The text made simple for comparing.
    fn simplify(&self) -> String;

    /// Whether this text and the other count as the same title.
    fn is_similar(&self, other: &str) -> bool;

    /// How alike this text and the other are, once both are made simple.
    fn similarity_score(&self, other: &str) -> SimilarityScore;

    /// The text without anything but ASCII letters, digits and whitespace.
    fn remove_special_chars(&self) -> String;

    /// The text with one space in place of each pair of spaces.
    fn remove_excessive_whitespaces(&self) -> String;
}

/// The plain characters of `chars`, capital letters made small first where
/// `lower` says so.
fn plain_chars(chars: &Vec<char>, lower: bool) -> (r: Vec<char>)
    ensures
        r@ == only_plain(
            if lower {
                lowered(chars@)
            } else {
                chars@
            },
        ),
{
    let ghost source = if lower {
        lowered(chars@)
    } else {
        chars@
    };
    let mut r: Vec<char> = Vec::new();
    let mut i: usize = 0;
    assert(source.take(0) =~= Seq::<char>::empty());
    while i < chars.len()
        invariant
            i <= chars.len(),
            source.len() == chars.len(),
            source == if lower {
                lowered(chars@)
            } else {
                chars@
            },
            r@ == only_plain(source.take(i as int)),
        decreases chars.len() - i,
    {
        let c = chars[i];
        let c = if lower && c >= 'A' && c <= 'Z' {
            ((c as u8) + 32) as char
        } else {
            c
        };
        assert(c == source[i as int]);
        assert(source.take(i + 1).drop_last() =~= source.take(i as int));
        assert(source.take(i + 1).last() == c);
        if (c >= 'a' && c <= 'z') || (c >= 'A' && c <= 'Z') || (c >= '0' && c <= '9') || c == ' '
            || c == '\t' || c == '\n' || c == '\x0C' || c == '\r' {
            r.push(c);
        }
        i += 1;
    }
    assert(source.take(i as int) =~= source);
    r
}

/// `chars` with one space in place of each pair of spaces.
fn single_space(chars: &Vec<char>) -> (r: Vec<char>)
    ensures
        r@ == single_spaced(chars@),
{
    let mut r: Vec<char> = Vec::new();
    let mut i: usize = 0;
    assert(chars@.skip(0) =~= chars@);
    assert(r@ + single_spaced(chars@.skip(0)) =~= single_spaced(chars@));
    while i < chars.len()
        invariant
            i <= chars.len(),
            single_spaced(chars@) == r@ + single_spaced(chars@.skip(i as int)),
        decreases chars.len() - i,
    {
        let ghost rest = chars@.skip(i as int);
        let ghost before = r@;
        assert(rest[0] == chars@[i as int]);
        if i + 1 < chars.len() && chars[i] == ' ' && chars[i + 1] == ' ' {
            assert(rest[1] == chars@[i + 1]);
            r.push(' ');
            assert(rest.skip(2) =~= chars@.skip(i + 2));
            assert(r@ + single_spaced(chars@.skip(i + 2)) =~= before + (seq![' ']
                + single_spaced(rest.skip(2))));
            i += 2;
        } else {
            r.push(chars[i]);
            assert(rest.drop_first() =~= chars@.skip(i + 1));
            assert(r@ + single_spaced(chars@.skip(i + 1)) =~= before + (seq![rest[0]]
                + single_spaced(rest.drop_first())));
            i += 1;
        }
    }
    assert(single_spaced(chars@.skip(i as int)) =~= Seq::<char>::empty());
    assert(r@ + Seq::<char>::empty() =~= r@);
    r
}

impl StringExtensions for str {
    fn simplify(&self) -> (r: String)
        ensures
            r@ == simplified(self@),
    {
        let ascii = transliterate(self);
        let chars = chars_of(ascii.as_str());
        let plain = plain_chars(&chars, true);
        let spaced = single_space(&plain);
        string_of(&spaced)
    }

    fn is_similar(&self, other: &str) -> (r: bool)
        ensures
            r == similar(self@, other@),
    {
        let self_simplified = self.simplify();
        let other_simplified = other.simplify();
        let a = self_simplified.as_str();
        let b = other_simplified.as_str();
        let length = if a.unicode_len() >= b.unicode_len() {
            a.unicode_len()
        } else {
            b.unicode_len()
        };
        let forth = SimilarityScore { distance: edit_distance(a, b), length };
        let back = SimilarityScore { distance: edit_distance(b, a), length };
        assert(forth == score_between(a@, b@));
        assert(back == score_between(b@, a@));
        forth.is_at_least(SIMILAR_SCORE_PERCENT) || back.is_at_least(SIMILAR_SCORE_PERCENT)
            || fuzzy_match(a, b).is_some() || fuzzy_match(b, a).is_some()
    }

    fn similarity_score(&self, other: &str) -> (r: SimilarityScore)
        ensures
            r == score_between(simplified(self@), simplified(other@)),
    {
        let self_simplified = self.simplify();
        let other_simplified = other.simplify();
        let a = self_simplified.as_str();
        let b = other_simplified.as_str();
        let length = if a.unicode_len() >= b.unicode_len() {
            a.unicode_len()
        } else {
            b.unicode_len()
        };
        SimilarityScore { distance: edit_distance(a, b), length }
    }

    fn remove_special_chars(&self) -> (r: String)
        ensures
            r@ == only_plain(self@),
    {
        let chars = chars_of(self);
        let plain = plain_chars(&chars, false);
        string_of(&plain)
    }

    fn remove_excessive_whitespaces(&self) -> (r: String)
        ensures
            r@ == single_spaced(self@),
    {
        let chars = chars_of(self);
        let spaced = single_space(&chars);
        string_of(&spaced)
    }
}

/// Whether two titles count as the same does not depend on which of them
/// comes first.
pub proof fn similar_is_symmetric(a: Seq<char>, b: Seq<char>)
    ensures
        similar(a, b) == similar(b, a),
{
}

/// Whether `c` is a small ASCII letter, an ASCII digit or ASCII whitespace.
pub open spec fn is_simple(c: char) -> bool {
    is_plain(c) && !('A' <= c <= 'Z')
}

/// Whether the characters of `pattern` occur in `choice`, in their order.
pub open spec fn is_subsequence(pattern: Seq<char>, choice: Seq<char>) -> bool
    decreases choice.len(),
{
    if pattern.len() == 0 {
        true
    } else if choice.len() == 0 {
        false
    } else if choice[0] == pattern[0] {
        is_subsequence(pattern.drop_first(), choice.drop_first())
    } else {
        is_subsequence(pattern, choice.drop_first())
    }
}

/// The plain characters of a text without capitals are simple.
pub proof fn lemma_only_plain_is_simple(s: Seq<char>)
    requires
        forall|i: int| 0 <= i < s.len() ==> !('A' <= #[trigger] s[i] <= 'Z'),
    ensures
        forall|i: int| 0 <= i < only_plain(s).len() ==> is_simple(#[trigger] only_plain(s)[i]),
    decreases s.len(),
{
    if s.len() > 0 {
        assert forall|i: int| 0 <= i < s.drop_last().len() implies !('A'
            <= #[trigger] s.drop_last()[i] <= 'Z') by {
            assert(s.drop_last()[i] == s[i]);
        }
        lemma_only_plain_is_simple(s.drop_last());
        assert forall|i: int| 0 <= i < only_plain(s).len() implies is_simple(
            #[trigger] only_plain(s)[i],
        ) by {
            if i < only_plain(s.drop_last()).len() {
                assert(only_plain(s)[i] == only_plain(s.drop_last())[i]);
            }
        }
    }
}

/// Making pairs of spaces single keeps simple characters simple.
pub proof fn lemma_single_spaced_is_simple(s: Seq<char>)
    requires
        forall|i: int| 0 <= i < s.len() ==> is_simple(#[trigger] s[i]),
    ensures
        forall|i: int| 0 <= i < single_spaced(s).len() ==> is_simple(#[trigger] single_spaced(s)[i]),
    decreases s.len(),
{
    if s.len() > 0 {
        let rest = if s.len() >= 2 && s[0] == ' ' && s[1] == ' ' {
            s.skip(2)
        } else {
            s.drop_first()
        };
        assert forall|i: int| 0 <= i < rest.len() implies is_simple(#[trigger] rest[i]) by {
            assert(rest[i] == s[i + (s.len() - rest.len())]);
        }
        lemma_single_spaced_is_simple(rest);
        assert forall|i: int| 0 <= i < single_spaced(s).len() implies is_simple(
            #[trigger] single_spaced(s)[i],
        ) by {
            if i > 0 {
                assert(single_spaced(s)[i] == single_spaced(rest)[i - 1]);
            } else {
                assert(is_simple(s[0]));
            }
        }
    }
}

/// A text that was made simple holds nothing but small letters, digits
/// and whitespace.
pub proof fn simplified_text_is_simple(s: Seq<char>)
    ensures
        forall|i: int| 0 <= i < simplified(s).len() ==> is_simple(#[trigger] simplified(s)[i]),
{
    let lower = lowered(unidecoded(s));
    assert forall|i: int| 0 <= i < lower.len() implies !('A' <= #[trigger] lower[i] <= 'Z') by {
        let c = unidecoded(s)[i];
        assert(lower[i] == ascii_lower(c));
    }
    lemma_only_plain_is_simple(lower);
    lemma_single_spaced_is_simple(only_plain(lower));
}

/// Among texts without capitals, the fuzzy matcher finds a pattern exactly
/// where its characters occur in their order.
pub proof fn fuzzy_match_of_simple_texts(choice: Seq<char>, pattern: Seq<char>)
    requires
        forall|i: int| 0 <= i < choice.len() ==> is_simple(#[trigger] choice[i]),
        forall|i: int| 0 <= i < pattern.len() ==> is_simple(#[trigger] pattern[i]),
    ensures
        fuzzy_matches(choice, pattern) == is_subsequence(pattern, choice),
{
    assert(!has_capital(pattern));
    lemma_fuzzy_subsequence_of_simple_texts(choice, pattern);
}

/// Among texts without capitals, characters are the same to the fuzzy
/// matcher only where they are the same.
pub proof fn lemma_fuzzy_subsequence_of_simple_texts(choice: Seq<char>, pattern: Seq<char>)
    requires
        forall|i: int| 0 <= i < choice.len() ==> is_simple(#[trigger] choice[i]),
        forall|i: int| 0 <= i < pattern.len() ==> is_simple(#[trigger] pattern[i]),
    ensures
        is_fuzzy_subsequence(pattern, choice, false) == is_subsequence(pattern, choice),
    decreases choice.len(),
{
    if pattern.len() > 0 && choice.len() > 0 {
        assert(is_simple(choice[0]) && is_simple(pattern[0]));
        assert forall|i: int| 0 <= i < choice.drop_first().len() implies is_simple(
            #[trigger] choice.drop_first()[i],
        ) by {
            assert(choice.drop_first()[i] == choice[i + 1]);
        }
        assert forall|i: int| 0 <= i < pattern.drop_first().len() implies is_simple(
            #[trigger] pattern.drop_first()[i],
        ) by {
            assert(pattern.drop_first()[i] == pattern[i + 1]);
        }
        lemma_fuzzy_subsequence_of_simple_texts(choice.drop_first(), pattern);
        lemma_fuzzy_subsequence_of_simple_texts(choice.drop_first(), pattern.drop_first());
    }
}

} // verus!
