use jwt_crackng::enumerator::{
    combination_count, combination_from_chars, combination_index, count_total,
    generate_combination, power,
};
use jwt_crackng::text::{chars_of, decimal, has_prefix, same_text, split, string_of};

#[test]
fn first_candidates_of_length_two() {
    let got: Vec<String> = (0..9).map(|i| generate_combination(i, "abc", 2)).collect();
    assert_eq!(got, vec!["aa", "ba", "ca", "ab", "bb", "cb", "ac", "bc", "cc"]);
}

#[test]
fn least_significant_character_comes_first() {
    assert_eq!(generate_combination(0, "abc", 3), "aaa");
    assert_eq!(generate_combination(1, "abc", 3), "baa");
    assert_eq!(generate_combination(3, "abc", 3), "aba");
    assert_eq!(generate_combination(9, "abc", 3), "aab");
    assert_eq!(generate_combination(21, "abc", 3), "abc");
    assert_eq!(generate_combination(26, "abc", 3), "ccc");
}

#[test]
fn index_beyond_the_count_wraps_into_the_length() {
    assert_eq!(generate_combination(27, "abc", 3), "aaa");
    assert_eq!(generate_combination(5, "ab", 1), "b");
}

#[test]
fn length_zero_gives_the_empty_candidate() {
    assert_eq!(generate_combination(0, "abc", 0), "");
    assert_eq!(generate_combination(7, "", 0), "");
}

#[test]
fn base_is_the_number_of_characters() {
    assert_eq!(generate_combination(1, "äö", 2), "öä");
    assert_eq!(generate_combination(3, "äö", 2), "öö");
    assert_eq!(combination_from_chars(2, &vec!['x', 'y'], 2), "xy");
}

#[test]
fn every_candidate_has_the_length_and_the_alphabet() {
    for length in 0..4usize {
        for index in 0..3usize.pow(length as u32) {
            let text = generate_combination(index, "xyz", length);
            assert_eq!(text.chars().count(), length);
            assert!(text.chars().all(|c| "xyz".contains(c)));
        }
    }
}

#[test]
fn candidates_of_a_length_are_distinct() {
    let mut seen = std::collections::HashSet::new();
    for index in 0..64 {
        assert!(seen.insert(generate_combination(index, "abcd", 3)));
    }
    assert_eq!(seen.len(), 64);
}

#[test]
fn index_round_trips() {
    for index in 0..125 {
        let text = generate_combination(index, "01234", 3);
        assert_eq!(combination_index(&text, "01234"), Some(index));
    }
}

#[test]
fn text_round_trips() {
    for text in ["", "a", "cab", "bbbb", "abcabc"] {
        let index = combination_index(text, "abc").unwrap();
        assert_eq!(generate_combination(index, "abc", text.chars().count()), text);
    }
    assert_eq!(combination_index("cab", "abc"), Some(2 + 0 * 3 + 1 * 9));
}

#[test]
fn index_of_foreign_text_is_none() {
    assert_eq!(combination_index("abd", "abc"), None);
    assert_eq!(combination_index("a", ""), None);
    assert_eq!(combination_index("", ""), Some(0));
}

#[test]
fn index_too_large_is_none() {
    let text = "b".repeat(70);
    assert_eq!(combination_index(&text, "ab"), None);
    let zeros = "a".repeat(70);
    assert_eq!(combination_index(&zeros, "ab"), Some(0));
}

#[test]
fn powers() {
    assert_eq!(power(3, 0), Some(1));
    assert_eq!(power(0, 0), Some(1));
    assert_eq!(power(0, 5), Some(0));
    assert_eq!(power(1, usize::MAX), Some(1));
    assert_eq!(power(62, 3), Some(238328));
    assert_eq!(power(2, 63), Some(1u64 << 63));
    assert_eq!(power(2, 64), None);
    assert_eq!(power(62, 12), None);
    assert_eq!(power(62, 10), Some(839299365868340224));
}

#[test]
fn counts_of_one_length() {
    assert_eq!(combination_count(3, 3), Some(27));
    assert_eq!(combination_count(62, 1), Some(62));
    assert_eq!(combination_count(0, 4), Some(0));
    assert_eq!(combination_count(2, 200), None);
}

#[test]
fn totals_over_a_range() {
    assert_eq!(count_total(3, 1, 2), Some(12));
    assert_eq!(count_total(3, 3, 3), Some(27));
    assert_eq!(count_total(3, 1, 3), Some(39));
    assert_eq!(count_total(62, 1, 4), Some(62 + 3844 + 238328 + 14776336));
    assert_eq!(count_total(3, 2, 1), Some(0));
    assert_eq!(count_total(0, 0, 9), Some(1));
    assert_eq!(count_total(0, 1, 9), Some(0));
    assert_eq!(count_total(1, 5, 9), Some(5));
    assert_eq!(count_total(62, 1, 12), None);
    assert_eq!(count_total(2, 0, 63), Some(u64::MAX));
    assert_eq!(count_total(2, 0, 64), None);
}

#[test]
fn text_helpers() {
    assert_eq!(chars_of("añb"), vec!['a', 'ñ', 'b']);
    assert_eq!(string_of(&vec!['a', 'b', 'c', 'd'], 1, 3), "bc");
    assert!(same_text("HS256", "HS256"));
    assert!(!same_text("HS256", "HS25"));
    assert!(!same_text("HS256", "HS257"));
    assert!(has_prefix("--cpu=5", "--cpu"));
    assert!(!has_prefix("--cp", "--cpu"));
    assert!(has_prefix("x", ""));
    assert_eq!(decimal(0), "0");
    assert_eq!(decimal(7), "7");
    assert_eq!(decimal(100), "100");
    assert_eq!(decimal(4294967295), "4294967295");
}

#[test]
fn split_keeps_empty_pieces() {
    assert_eq!(split("a.b.c", '.'), vec!["a", "b", "c"]);
    assert_eq!(split("", '.'), vec![""]);
    assert_eq!(split(".", '.'), vec!["", ""]);
    assert_eq!(split("a..b", '.'), vec!["a", "", "b"]);
    assert_eq!(split("abc", '.'), vec!["abc"]);
    assert_eq!(split("a.b.", '.'), vec!["a", "b", ""]);
}
