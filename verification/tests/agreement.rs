use std::path::Path;

use fuzzy_matcher::skim::SkimMatcherV2;
use music_files_organizer::discogs::matcher::extract_discogs_id;
use music_files_organizer::discogs::model::refined::proper_name_of;
use music_files_organizer::organizer::edit::parse_line;
use regex::Regex;
use fuzzy_matcher::FuzzyMatcher;
use music_files_organizer::organizer::changes::text_before;
use music_files_organizer::organizer::edit::lines;
use music_files_organizer::util::numbers::{format_i32, format_u32, parse_i32, parse_u32, parse_u64};
use music_files_organizer::util::path::{extension_of_name, stem_of_name};
use music_files_organizer::util::string_extensions::StringExtensions;
use music_files_organizer::util::text::{join, split, trim};

struct Texts {
    state: u64,
}

impl Texts {
    fn next(&mut self) -> u64 {
        self.state = self.state.wrapping_mul(6364136223846793005).wrapping_add(1442695040888963407);
        self.state >> 33
    }

    fn text(&mut self, alphabet: &[char], longest: u64) -> String {
        let length = self.next() % (longest + 1);
        (0..length).map(|_| alphabet[(self.next() % alphabet.len() as u64) as usize]).collect()
    }
}

const LETTERS: [char; 12] = ['a', 'b', 'A', 'é', 'Ø', ' ', ' ', '-', '1', '北', '.', '\''];
const DIGITS: [char; 8] = ['0', '1', '9', '+', '-', ' ', '4', '7'];
const BREAKS: [char; 6] = ['a', '\n', '\r', ' ', '\n', 'b'];
const SPACES: [char; 8] = [' ', '\t', '\n', '\u{a0}', '\u{2003}', 'a', 'b', '\u{200b}'];
const DOTS: [char; 4] = ['.', 'a', 'b', '.'];
const NAMES: [char; 8] = ['A', ' ', '(', ')', '1', '2', ' ', '('];
const IDS: [char; 6] = ['[', 'r', ']', '1', '0', '7'];
const FIELDS: [char; 5] = [':', ' ', 'a', ':', 'b'];

#[test]
fn numbers_are_read_as_std_reads_them() {
    let mut texts = Texts { state: 1 };
    for _ in 0..20000 {
        let text = texts.text(&DIGITS, 12);
        assert_eq!(parse_u32(&text), text.parse::<u32>().ok(), "{:?}", text);
        assert_eq!(parse_i32(&text), text.parse::<i32>().ok(), "{:?}", text);
        assert_eq!(parse_u64(&text), text.parse::<u64>().ok(), "{:?}", text);
    }
    for text in ["18446744073709551615", "18446744073709551616", "+0", "-0", "00000000000000000000001", "٣"] {
        assert_eq!(parse_u32(text), text.parse::<u32>().ok(), "{:?}", text);
        assert_eq!(parse_i32(text), text.parse::<i32>().ok(), "{:?}", text);
        assert_eq!(parse_u64(text), text.parse::<u64>().ok(), "{:?}", text);
    }
}

#[test]
fn numbers_are_written_as_std_writes_them() {
    let mut texts = Texts { state: 2 };
    for _ in 0..20000 {
        let number = (texts.next() << 31 ^ texts.next()) as u32;
        assert_eq!(format_u32(number), number.to_string());
        assert_eq!(format_i32(number as i32), (number as i32).to_string());
        assert_eq!(parse_u32(&format_u32(number)), Some(number));
        assert_eq!(parse_i32(&format_i32(number as i32)), Some(number as i32));
    }
    for number in [0, 9, 10, u32::MAX] {
        assert_eq!(format_u32(number), number.to_string());
    }
    for number in [i32::MIN, -1, 0, i32::MAX] {
        assert_eq!(format_i32(number), number.to_string());
    }
}

#[test]
fn texts_are_trimmed_split_and_joined_as_std_does() {
    let mut texts = Texts { state: 3 };
    for _ in 0..20000 {
        let text = texts.text(&SPACES, 8);
        assert_eq!(trim(&text), text.trim(), "{:?}", text);
        let pieces: Vec<String> = text.split(' ').map(str::to_string).collect();
        assert_eq!(split(&text, ' '), pieces, "{:?}", text);
        assert_eq!(join(&pieces, "; "), pieces.join("; "));
    }
}

#[test]
fn lines_are_those_of_std() {
    let mut texts = Texts { state: 4 };
    for _ in 0..20000 {
        let text = texts.text(&BREAKS, 10);
        let expected: Vec<String> = text.lines().map(str::to_string).collect();
        assert_eq!(lines(&text), expected, "{:?}", text);
    }
}

#[test]
fn extensions_and_stems_are_those_of_std() {
    let mut texts = Texts { state: 5 };
    for _ in 0..20000 {
        let name = texts.text(&DOTS, 7);
        if name.is_empty() || name == "." || name == ".." {
            continue;
        }
        let path = Path::new(&name);
        assert_eq!(extension_of_name(&name), path.extension().and_then(|e| e.to_str()).unwrap_or(""), "{:?}", name);
        assert_eq!(stem_of_name(&name), path.file_stem().and_then(|e| e.to_str()).unwrap_or(""), "{:?}", name);
    }
}

#[test]
fn texts_are_ordered_as_std_orders_them() {
    let mut texts = Texts { state: 6 };
    for _ in 0..20000 {
        let a = texts.text(&LETTERS, 5);
        let b = texts.text(&LETTERS, 5);
        assert_eq!(text_before(&a, &b), a < b, "{:?} {:?}", a, b);
    }
}

fn simplified(text: &str) -> String {
    unidecode::unidecode(text)
        .to_lowercase()
        .chars()
        .filter(|c| c.is_ascii_alphanumeric() || c.is_ascii_whitespace())
        .collect::<String>()
        .replace("  ", " ")
}

#[test]
fn titles_are_made_simple_by_transliterating_lowering_and_filtering() {
    let mut texts = Texts { state: 7 };
    for _ in 0..5000 {
        let text = texts.text(&LETTERS, 12);
        assert_eq!(text.simplify(), simplified(&text), "{:?}", text);
    }
    for text in ["İstanbul", "ǅ", "ẞ", "Ⅻ", "Ａ", "K", "Åland  Islands", "Motörhead — Ace Of Spades"] {
        assert_eq!(text.simplify(), simplified(text), "{:?}", text);
    }
}

#[test]
fn titles_are_similar_at_eighty_five_hundredths_or_when_one_is_found_in_the_other() {
    let mut texts = Texts { state: 8 };
    let matcher = SkimMatcherV2::default();
    let mut similar = 0;
    for _ in 0..5000 {
        let a = texts.text(&LETTERS, 24);
        let b = if texts.next() % 2 == 0 {
            texts.text(&LETTERS, 24)
        } else {
            let mut changed: Vec<char> = a.chars().collect();
            for _ in 0..texts.next() % 5 {
                if !changed.is_empty() {
                    let at = (texts.next() % changed.len() as u64) as usize;
                    changed[at] = LETTERS[(texts.next() % LETTERS.len() as u64) as usize];
                }
            }
            changed.into_iter().collect()
        };
        let x = simplified(&a);
        let y = simplified(&b);
        let expected = strsim::normalized_damerau_levenshtein(&x, &y) >= 0.85
            || matcher.fuzzy_match(&x, &y).is_some()
            || matcher.fuzzy_match(&y, &x).is_some();
        assert_eq!(a.is_similar(&b), expected, "{:?} {:?}", a, b);
        assert_eq!(b.is_similar(&a), expected, "{:?} {:?}", a, b);
        if expected {
            similar += 1;
        }
    }
    assert!(similar > 100 && similar < 4900);
}

#[test]
fn scores_are_ordered_as_the_normalized_distances_are() {
    let mut texts = Texts { state: 9 };
    for _ in 0..3000 {
        let title = texts.text(&LETTERS, 10);
        let a = texts.text(&LETTERS, 10);
        let b = texts.text(&LETTERS, 10);
        let score_a = strsim::normalized_damerau_levenshtein(&simplified(&title), &simplified(&a));
        let score_b = strsim::normalized_damerau_levenshtein(&simplified(&title), &simplified(&b));
        assert_eq!(
            title.similarity_score(&a).is_above(&title.similarity_score(&b)),
            score_a > score_b,
            "{:?} {:?} {:?}",
            title,
            a,
            b
        );
    }
}

#[test]
fn artist_names_lose_what_the_pattern_finds() {
    let pattern = Regex::new(r".*( \(\d+\))").unwrap();
    let mut texts = Texts { state: 10 };
    let mut cut = 0;
    for _ in 0..20000 {
        let name = texts.text(&NAMES, 12);
        let expected = match pattern.captures(&name) {
            Some(captures) => {
                cut += 1;
                &name[..captures.get(1).unwrap().start()]
            }
            None => name.as_str(),
        }
        .trim();
        assert_eq!(proper_name_of(&name), expected, "{:?}", name);
    }
    assert!(cut > 100);
}

#[test]
fn release_ids_are_what_the_patterns_find() {
    let bracketed = Regex::new(r"^\[r([0-9]+)\]$").unwrap();
    let plain = Regex::new(r"^([0-9]+)$").unwrap();
    let mut texts = Texts { state: 11 };
    let mut found = 0;
    for _ in 0..20000 {
        let text = texts.text(&IDS, 6);
        let expected = bracketed
            .captures(&text)
            .or_else(|| plain.captures(&text))
            .map(|captures| captures.get(1).unwrap().as_str().to_string());
        if expected.is_some() {
            found += 1;
        }
        assert_eq!(extract_discogs_id(&text).ok(), expected, "{:?}", text);
    }
    assert!(found > 100);
}

#[test]
fn lines_are_cut_where_the_pattern_cuts_them() {
    let pattern = Regex::new(r"^(.+?): (.*)$").unwrap();
    let mut texts = Texts { state: 12 };
    let mut found = 0;
    for _ in 0..20000 {
        let line = texts.text(&FIELDS, 8);
        let expected = pattern.captures(&line).map(|captures| {
            (captures.get(1).unwrap().as_str().to_string(), captures.get(2).unwrap().as_str().to_string())
        });
        if expected.is_some() {
            found += 1;
        }
        assert_eq!(parse_line(&line), expected, "{:?}", line);
    }
    assert!(found > 100);
}

const WHITE_SPACE: [(u32, u32); 11] = [
    (0x0009, 0x000D),
    (0x0020, 0x0020),
    (0x0085, 0x0085),
    (0x00A0, 0x00A0),
    (0x1680, 0x1680),
    (0x2000, 0x200A),
    (0x2028, 0x2028),
    (0x2029, 0x2029),
    (0x202F, 0x202F),
    (0x205F, 0x205F),
    (0x3000, 0x3000),
];

#[test]
fn whitespace_is_the_same_set_of_characters_as_for_std() {
    let mut count = 0;
    for code in 0..=0x10FFFF {
        let Some(c) = char::from_u32(code) else {
            continue;
        };
        let listed = WHITE_SPACE.iter().any(|(first, last)| *first <= code && code <= *last);
        assert_eq!(c.is_whitespace(), listed, "{:x}", code);
        if listed {
            count += 1;
        }
        if listed || code < 0x3100 || code % 257 == 0 {
            let text = format!("{}a{}b{}", c, c, c);
            let expected = if listed { format!("a{}b", c) } else { text.clone() };
            assert_eq!(trim(&text), expected, "{:x}", code);
        }
    }
    assert_eq!(count, 25);
}
