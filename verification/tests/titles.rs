use music_files_organizer::util::string_extensions::{SimilarityScore, StringExtensions};

#[test]
fn simplify_transliterates_and_lowers() {
    assert_eq!("Æneid".simplify(), "aeneid");
    assert_eq!("Étude N°1".simplify(), "etude ndeg1");
    assert_eq!("Björk".simplify(), "bjork");
}

#[test]
fn simplify_drops_special_characters() {
    assert_eq!("OK Computer!".simplify(), "ok computer");
    assert_eq!("(What's The Story) Morning-Glory?".simplify(), "whats the story morningglory");
}

#[test]
fn simplify_halves_pairs_of_spaces() {
    assert_eq!("a  b".simplify(), "a b");
    assert_eq!("a    b".simplify(), "a  b");
    assert_eq!("a - b".simplify(), "a b");
}

#[test]
fn remove_special_chars_keeps_letters_digits_and_whitespace() {
    assert_eq!("a-b_c d\t1!".remove_special_chars(), "abc d\t1");
    assert_eq!("héllo".remove_special_chars(), "hllo");
}

#[test]
fn remove_excessive_whitespaces_reads_from_the_left() {
    assert_eq!("a   b".remove_excessive_whitespaces(), "a  b");
    assert_eq!("  ".remove_excessive_whitespaces(), " ");
    assert_eq!("a b".remove_excessive_whitespaces(), "a b");
}

#[test]
fn similar_when_the_edit_distance_is_small() {
    // one substitution in twenty characters scores 95 hundredths
    assert!("abcdefghijklmnopqrst".is_similar("abcdefghijklmnopqrsX"));
    // three in twenty score exactly 85 hundredths
    assert!("abcdefghijklmnopqrst".is_similar("abcdefghijklmnopqXYZ"));
    // four in twenty score 80 hundredths, and neither text is found in the other
    assert!(!"abcdefghijklmnopqrst".is_similar("abcdefghijklmnopWXYZ"));
}

#[test]
fn similar_when_one_title_is_found_in_the_other() {
    assert!("Paranoid Android".is_similar("Paranoid Android (Remastered 2009)"));
    assert!("Airbag".is_similar("01 Airbag"));
    assert!(!"Airbag".is_similar("Lucky"));
}

#[test]
fn similar_does_not_depend_on_the_order() {
    let titles = [
        "Airbag",
        "Paranoid Android",
        "Subterranean Homesick Alien",
        "Exit Music (For A Film)",
        "Let Down",
        "Karma Police",
        "",
        "android",
        "Paranoid  Android!",
    ];
    for a in titles {
        for b in titles {
            assert_eq!(a.is_similar(b), b.is_similar(a), "{:?} and {:?}", a, b);
        }
    }
}

#[test]
fn empty_titles_are_similar() {
    assert!("".is_similar(""));
    assert!("!!!".is_similar("???"));
}

#[test]
fn similarity_score_counts_the_edit_distance() {
    assert_eq!("Karma Police".similarity_score("karma police"), SimilarityScore { distance: 0, length: 12 });
    assert_eq!("abcd".similarity_score("abdc"), SimilarityScore { distance: 1, length: 4 });
    assert_eq!("abc".similarity_score("xyzabc"), SimilarityScore { distance: 3, length: 6 });
    assert_eq!("".similarity_score(""), SimilarityScore { distance: 0, length: 0 });
}

#[test]
fn scores_compare_by_the_share_left_untouched() {
    let exact = SimilarityScore { distance: 0, length: 5 };
    let near = SimilarityScore { distance: 1, length: 5 };
    let far = SimilarityScore { distance: 3, length: 6 };
    let empty = SimilarityScore { distance: 0, length: 0 };
    assert!(exact.is_above(&near));
    assert!(near.is_above(&far));
    assert!(!far.is_above(&near));
    assert!(!exact.is_above(&empty));
    assert!(!empty.is_above(&exact));
    assert!(near.is_at_least(80));
    assert!(!near.is_at_least(85));
    assert!(empty.is_at_least(100));
}
