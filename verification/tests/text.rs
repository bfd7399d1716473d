use spindle::forms::{has_tag_key_chars, is_mbid, is_valid_date, is_valid_tag_key, year_of};
use spindle::hex::{digit_of, from_hex, to_hex, value_of};
use spindle::lists::{count_id, has_id, insert_id, sorted_ids};
use spindle::order::{count_text, insert_text, mode_of, sorted_texts};
use spindle::relpath::{extension, file_name, join_path, parent};
use spindle::split::{
    find_last, has_char, has_member, has_prefix, has_suffix, has_text, join, less, rsplit_once, split, split_words,
};
use spindle::text::{
    blank, chars_of, concat2, concat3, concat4, concat5, control, digit, digits_of_len, int_to_text, leading_int,
    lower_text, parse_decimal, same_text, slice_text, to_lower, to_upper, trim, trim_tail, unsigned_to_text, upper_text,
    white,
};
use spindle::unicode::{canonical_key, collapse_white, title_key};

fn strings(v: &[&str]) -> Vec<String> {
    v.iter().map(|s| s.to_string()).collect()
}

#[test]
fn folds_case_width_and_whitespace_but_keeps_annotations() {
    assert_eq!(title_key("New"), title_key("ｎｅｗ"));
    assert_eq!(title_key(" New\u{3000}Song "), title_key("new song"));
    assert_eq!(title_key("ハロー"), title_key("\u{feff}ﾊﾛｰ".trim_start_matches('\u{feff}')));
    assert_ne!(title_key("New"), title_key("New (Cover)"));
    assert_ne!(title_key("New"), title_key("New 【Live ver.】"));
    assert_ne!(title_key("New"), title_key("News"));
}

#[test]
fn canonical_keys_decompose_and_fold() {
    assert_eq!(canonical_key("Álbum"), "a\u{301}lbum");
    assert_eq!(canonical_key("STRASSE"), canonical_key("straße"));
    assert_eq!(canonical_key("が"), "か\u{3099}");
    assert_ne!(canonical_key("ＭＡＤ"), canonical_key("MAD"));
}

#[test]
fn title_keys_decompose_compatibly() {
    assert_eq!(title_key("ＭＡＤ"), "mad");
    assert_eq!(title_key("①"), "1");
}

#[test]
fn white_is_collapsed() {
    assert_eq!(collapse_white("  a \t b\u{3000}c\n"), "a b c");
    assert_eq!(collapse_white("   "), "");
}

#[test]
fn characters_are_told_apart() {
    assert!(white(' ') && white('\u{3000}') && white('\u{a0}') && !white('a') && !white('\u{200b}'));
    assert!(control('\0') && control('\u{7f}') && control('\u{9f}') && !control(' '));
    assert!(digit('7') && !digit('７'));
    assert_eq!(to_lower('Q'), 'q');
    assert_eq!(to_lower('É'), 'É');
    assert_eq!(to_upper('q'), 'Q');
}

#[test]
fn texts_are_compared_and_joined() {
    assert!(same_text("ab", "ab") && !same_text("ab", "aB") && !same_text("a", "ab"));
    assert_eq!(concat2("a", "b"), "ab");
    assert_eq!(concat3("a", "b", "c"), "abc");
    assert_eq!(concat4("a", "b", "c", "d"), "abcd");
    assert_eq!(concat5("a", "b", "c", "d", "e"), "abcde");
    assert_eq!(chars_of("aé"), vec!['a', 'é']);
    assert_eq!(slice_text(&vec!['a', 'b', 'c', 'd'], 1, 3), "bc");
    assert_eq!(lower_text("AbÉ"), "abÉ");
    assert_eq!(upper_text("abé"), "ABé");
}

#[test]
fn texts_are_trimmed() {
    assert_eq!(trim("\u{3000} a b \n"), "a b");
    assert_eq!(trim_tail(" a \n"), " a");
    assert!(blank(" \t") && blank("") && !blank(" a"));
}

#[test]
fn numbers_are_written_and_read() {
    assert_eq!(unsigned_to_text(u64::MAX), "18446744073709551615");
    assert_eq!(int_to_text(i64::MIN), "-9223372036854775808");
    assert_eq!(int_to_text(0), "0");
    assert_eq!(parse_decimal(&vec!['4', '2'], 100), Some(42));
    assert_eq!(parse_decimal(&vec!['4', '2'], 41), None);
    assert_eq!(leading_int("3/12"), Some(3));
    assert_eq!(leading_int("x"), None);
    assert!(digits_of_len("2024", 4) && !digits_of_len("202a", 4) && !digits_of_len("202", 4));
}

#[test]
fn texts_are_split() {
    assert_eq!(split("a/b//c", '/'), strings(&["a", "b", "", "c"]));
    assert_eq!(split("", '/'), strings(&[""]));
    assert_eq!(join(&strings(&["a", "b", "c"]), ", "), "a, b, c");
    assert_eq!(split_words(" a  b\u{3000}c "), strings(&["a", "b", "c"]));
    assert_eq!(find_last(&vec!['a', '.', 'b', '.'], '.'), Some(3));
    assert_eq!(rsplit_once("a.b.c", '.'), Some(("a.b".to_string(), "c".to_string())));
    assert_eq!(rsplit_once("abc", '.'), None);
}

#[test]
fn texts_are_searched() {
    assert!(has_prefix("spindle-x", "spindle-") && !has_prefix("sp", "spindle-"));
    assert!(has_suffix("a.webm", ".webm") && !has_suffix("webm", ".webm"));
    assert!(has_text("an Unsupported URL: x", "Unsupported URL") && !has_text("ok", "Unsupported URL"));
    assert!(has_char("a/b", '/') && !has_char("ab", '/'));
    assert!(has_member(&strings(&["a", "b"]), "b") && !has_member(&strings(&["a", "b"]), "c"));
    assert!(less("a", "b") && less("", "a") && less("Z", "a") && !less("a", "a") && less("\u{ffff}", "\u{10000}"));
}

#[test]
fn ids_are_kept_in_order() {
    let mut v = vec![1, 5];
    insert_id(&mut v, 3);
    insert_id(&mut v, 3);
    assert_eq!(v, vec![1, 3, 5]);
    assert_eq!(sorted_ids(&vec![5, 1, 5, -2]), vec![-2, 1, 5]);
    assert!(has_id(&v, 5) && !has_id(&v, 4));
    assert_eq!(count_id(&vec![1, 2, 1], 1), 2);
}

#[test]
fn texts_are_kept_in_order() {
    let mut v = strings(&["a", "c"]);
    insert_text(&mut v, "b".to_string());
    insert_text(&mut v, "b".to_string());
    assert_eq!(v, strings(&["a", "b", "c"]));
    assert_eq!(sorted_texts(&strings(&["b", "a", "b"])), strings(&["a", "b"]));
    assert_eq!(count_text(&strings(&["b", "a", "b"]), "b"), 2);
}

#[test]
fn the_most_frequent_text_wins_and_then_the_first() {
    assert_eq!(mode_of(&strings(&["b", "a", "b"])), Some("b".to_string()));
    assert_eq!(mode_of(&strings(&["b", "a"])), Some("a".to_string()));
    assert_eq!(mode_of(&vec![]), None);
}

#[test]
fn paths_have_parts() {
    assert_eq!(file_name("a/b/c.flac"), "c.flac");
    assert_eq!(parent("a/b/c.flac"), Some("a/b".to_string()));
    assert_eq!(parent("c.flac"), None);
    assert_eq!(join_path(Some("a/b"), "c"), "a/b/c");
    assert_eq!(join_path(None, "c"), "c");
    assert_eq!(extension("c.tar.gz"), Some("gz".to_string()));
    assert_eq!(extension("c"), None);
}

#[test]
fn bytes_are_written_in_hexadecimal() {
    assert_eq!(digit_of(11), 'b');
    assert_eq!(value_of('B'), Some(11));
    assert_eq!(value_of('g'), None);
    assert_eq!(to_hex(&[0, 255, 16]), "00ff10");
    assert_eq!(from_hex("00Ff10", 3), Some(vec![0, 255, 16]));
    assert_eq!(from_hex("00ff1", 3), None);
    assert_eq!(from_hex("00ff1g", 3), None);
    for b in 0..=255u8 {
        assert_eq!(from_hex(&to_hex(&[b]), 1), Some(vec![b]));
    }
}

#[test]
fn forms_of_values_are_checked() {
    assert!(is_valid_date("2024") && is_valid_date("2024-05") && is_valid_date("2024-05-31"));
    assert!(!is_valid_date("24") && !is_valid_date("2024-13") && !is_valid_date("2024/05"));
    assert!(is_mbid("01234567-89ab-cdef-0123-456789abcdef"));
    assert!(!is_mbid("01234567-89ab-cdef-0123-456789abcdeg") && !is_mbid(""));
    assert!(has_tag_key_chars("TITLE") && !has_tag_key_chars("A=B"));
    assert!(is_valid_tag_key("TITLE") && !is_valid_tag_key("") && !is_valid_tag_key("title"));
    assert_eq!(year_of("2024-05"), Some("2024".to_string()));
    assert_eq!(year_of("May 2024"), None);
}
