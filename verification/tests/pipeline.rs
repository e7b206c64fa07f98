use phonewords::combos::{get_combos, PhoneError};
use phonewords::matcher::Matcher;
use phonewords::normalize::normalize;
use phonewords::text::str_contains_word;

#[test]
fn normalize_short_input_left_pads() {
    assert_eq!(normalize("123"), "0000123");
}

#[test]
fn normalize_empty_input_is_all_zeros() {
    assert_eq!(normalize(""), "0000000");
}

#[test]
fn normalize_long_input_keeps_first_seven() {
    assert_eq!(normalize("123456789"), "1234567");
}

#[test]
fn normalize_exact_length_passes_through() {
    assert_eq!(normalize("2759372"), "2759372");
}

#[test]
fn normalize_accepts_non_digits() {
    assert_eq!(normalize("ab!"), "0000ab!");
}

#[test]
fn combos_all_twos_odometer_order() {
    let combos = get_combos("2222222").unwrap();
    assert_eq!(combos.len(), 2187);
    assert_eq!(combos[0], "aaaaaaa");
    assert_eq!(combos[1], "aaaaaab");
    assert_eq!(combos[2186], "ccccccc");
}

#[test]
fn combos_count_is_product_of_position_sizes() {
    // digits 2,7,5,9,3,7,2 offer 3,4,3,4,3,4,3 letters each
    let combos = get_combos("2759372").unwrap();
    assert_eq!(combos.len(), 3 * 4 * 3 * 4 * 3 * 4 * 3);
}

#[test]
fn combos_zero_and_one_map_to_themselves() {
    let combos = get_combos("0101010").unwrap();
    assert_eq!(combos, vec!["0101010".to_string()]);
}

#[test]
fn combos_single_varying_position() {
    let combos = get_combos("0000002").unwrap();
    assert_eq!(
        combos,
        vec![
            "000000a".to_string(),
            "000000b".to_string(),
            "000000c".to_string(),
        ]
    );
}

#[test]
fn combos_have_no_duplicate_strings() {
    let combos = get_combos("2759372").unwrap();
    let unique: std::collections::HashSet<&String> = combos.iter().collect();
    assert_eq!(unique.len(), combos.len());
}

#[test]
fn combos_invalid_character_is_reported() {
    assert_eq!(get_combos("22a2222"), Err(PhoneError::NotANumber('a')));
}

#[test]
fn combos_fail_fast_reports_first_invalid() {
    assert_eq!(get_combos("2x2y222"), Err(PhoneError::NotANumber('x')));
}

#[test]
fn contains_is_substring_containment() {
    assert!(str_contains_word("xxcatxx", "cat"));
    assert!(!str_contains_word("ctxxxxx", "cat"));
}

#[test]
fn contains_is_case_sensitive() {
    assert!(!str_contains_word("xxCATxx", "cat"));
}

#[test]
fn contains_empty_word_everywhere() {
    assert!(str_contains_word("abc", ""));
}

#[test]
fn matcher_reports_first_match_only() {
    let combos = get_combos("2222222").unwrap();
    let mut m = Matcher::new(combos);
    // "aaa" sits in many combinations; only the first is reported.
    let hit = m.feed("aaa");
    assert_eq!(hit, Some("aaaaaaa".to_string()));
    assert_eq!(m.wordcnt, 1);
    assert_eq!(m.trycnt, 1);
    assert_eq!(m.matchcnt, 1);
}

#[test]
fn matcher_skips_overlong_words() {
    let combos = get_combos("2222222").unwrap();
    let mut m = Matcher::new(combos);
    let hit = m.feed("aaaaaaaa");
    assert_eq!(hit, None);
    assert_eq!(m.wordcnt, 0);
    assert_eq!(m.trycnt, 0);
    assert_eq!(m.matchcnt, 0);
}

#[test]
fn matcher_scans_everything_without_a_match() {
    let combos = get_combos("2222222").unwrap();
    let mut m = Matcher::new(combos);
    let hit = m.feed("zzz");
    assert_eq!(hit, None);
    assert_eq!(m.wordcnt, 1);
    assert_eq!(m.trycnt, 2187);
    assert_eq!(m.matchcnt, 0);
}

#[test]
fn matcher_empty_word_hits_first_combination() {
    let combos = get_combos("2222222").unwrap();
    let mut m = Matcher::new(combos);
    assert_eq!(m.feed(""), Some("aaaaaaa".to_string()));
}

#[test]
fn end_to_end_bird_has_no_match() {
    // "2759372" is already seven digits, so normalization keeps it; no
    // combination contains "bird" (no digit offers the letter 'i'), so
    // zero matches are found and the caller would exit with code 2.
    let number = normalize("2759372");
    assert_eq!(number, "2759372");
    let combos = get_combos(&number).unwrap();
    let total = combos.len();
    let mut m = Matcher::new(combos);
    assert_eq!(m.feed("bird"), None);
    assert_eq!(m.wordcnt, 1);
    assert_eq!(m.trycnt, total);
    assert_eq!(m.matchcnt, 0);
}

#[test]
fn pipeline_twice_gives_identical_results() {
    let words = ["cab", "bad", "overlong!", "", "abcabca", "zzz"];
    let mut runs = Vec::new();
    for _ in 0..2 {
        let number = normalize("02222222222");
        let combos = get_combos(&number).unwrap();
        let mut m = Matcher::new(combos.clone());
        let mut reported = Vec::new();
        for w in words.iter() {
            if let Some(c) = m.feed(w) {
                reported.push((c, w.to_string()));
            }
        }
        runs.push((combos, reported, m.wordcnt, m.trycnt, m.matchcnt));
    }
    assert_eq!(runs[0], runs[1]);
}
