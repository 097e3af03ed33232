use sigpatch::command::extract_path;
use sigpatch::text::{
    chars_of, contains_chars, find_char, marker_chars, mentions_target, next_word, quoted_span,
    space_mask, stands_at,
};

fn chars(text: &str) -> Vec<char> {
    text.chars().collect()
}

#[test]
fn quoted_path_is_extracted() {
    let cmd = "\"C:\\Program Files\\Blackmagic Design\\DaVinci Resolve\\Resolve.exe\" \"%1\"";
    assert_eq!(
        extract_path(cmd),
        Some("C:\\Program Files\\Blackmagic Design\\DaVinci Resolve\\Resolve.exe".to_string())
    );
}

#[test]
fn quoted_path_is_matched_in_any_case() {
    assert_eq!(
        extract_path("\"C:\\RESOLVE\\RESOLVE.EXE\" %1"),
        Some("C:\\RESOLVE\\RESOLVE.EXE".to_string())
    );
}

#[test]
fn word_is_taken_where_the_quoted_text_names_another_program() {
    let cmd = "\"C:\\tools\\launcher.exe\" D:\\Apps\\Resolve\\Resolve.exe %1";
    assert_eq!(extract_path(cmd), Some("D:\\Apps\\Resolve\\Resolve.exe".to_string()));
}

#[test]
fn first_fitting_word_wins() {
    let cmd = "resolve C:\\a\\Resolve.exe D:\\b\\Resolve.exe";
    assert_eq!(extract_path(cmd), Some("C:\\a\\Resolve.exe".to_string()));
}

#[test]
fn words_are_split_at_any_white_space() {
    let cmd = "run\tC:\\Resolve\\Resolve.exe\n%1";
    assert_eq!(extract_path(cmd), Some("C:\\Resolve\\Resolve.exe".to_string()));
    let wide = "run\u{3000}C:\\Resolve\\Resolve.exe\u{00A0}%1";
    assert_eq!(extract_path(wide), Some("C:\\Resolve\\Resolve.exe".to_string()));
}

#[test]
fn word_without_colon_is_no_path() {
    assert_eq!(extract_path("resolve.exe %1"), None);
}

#[test]
fn word_without_marker_is_no_path() {
    assert_eq!(extract_path("C:\\Other\\other.exe %1"), None);
}

#[test]
fn single_quote_mark_leaves_the_word() {
    assert_eq!(
        extract_path("\"C:\\Resolve\\Resolve.exe %1"),
        Some("\"C:\\Resolve\\Resolve.exe".to_string())
    );
}

#[test]
fn empty_quotes_fall_back_to_words() {
    assert_eq!(extract_path("\"\" C:\\Resolve.exe"), Some("C:\\Resolve.exe".to_string()));
}

#[test]
fn empty_command_gives_no_path() {
    assert_eq!(extract_path(""), None);
    assert_eq!(extract_path("   "), None);
}

#[test]
fn path_with_wide_characters_is_cut_by_characters() {
    let cmd = "\u{00E9}\u{00E9} \"C:\\R\u{00E9}solve\\Resolve.exe\" x";
    assert_eq!(extract_path(cmd), Some("C:\\R\u{00E9}solve\\Resolve.exe".to_string()));
}

#[test]
fn marker_is_found_in_any_case() {
    assert!(mentions_target("DaVinci Resolve Studio"));
    assert!(mentions_target("RESOLVE"));
    assert!(mentions_target("xxresolvexx"));
    assert!(!mentions_target("resolv"));
    assert!(!mentions_target("re solve"));
    assert!(!mentions_target(""));
}

#[test]
fn marker_is_the_lowercase_name() {
    assert_eq!(marker_chars(), chars("resolve"));
}

#[test]
fn characters_are_listed_in_order() {
    assert_eq!(chars_of("a\u{00E9}b"), vec!['a', '\u{00E9}', 'b']);
    assert_eq!(chars_of(""), Vec::<char>::new());
}

#[test]
fn run_is_found_where_it_stands() {
    let text = chars("abcabc");
    assert!(stands_at(&text, &chars("bc"), 1));
    assert!(stands_at(&text, &chars("bc"), 4));
    assert!(!stands_at(&text, &chars("bc"), 0));
    assert!(!stands_at(&text, &chars("bc"), 5));
    assert!(stands_at(&text, &[], 6));
    assert!(!stands_at(&text, &[], 7));
    assert!(contains_chars(&text, &chars("ca")));
    assert!(contains_chars(&text, &chars("abcabc")));
    assert!(contains_chars(&text, &[]));
    assert!(contains_chars(&[], &[]));
    assert!(!contains_chars(&text, &chars("cb")));
    assert!(!contains_chars(&text, &chars("abcabca")));
}

#[test]
fn first_character_from_a_position_is_found() {
    let text = chars("a:b:c");
    assert_eq!(find_char(&text, ':', 0), Some(1));
    assert_eq!(find_char(&text, ':', 1), Some(1));
    assert_eq!(find_char(&text, ':', 2), Some(3));
    assert_eq!(find_char(&text, ':', 4), None);
    assert_eq!(find_char(&text, ':', 9), None);
}

#[test]
fn quoted_span_lies_between_the_first_two_quotes() {
    assert_eq!(quoted_span(&chars("x \"ab\" \"cd\"")), Some((3, 5)));
    assert_eq!(quoted_span(&chars("\"\"")), Some((1, 1)));
    assert_eq!(quoted_span(&chars("\"ab")), None);
    assert_eq!(quoted_span(&chars("ab")), None);
}

#[test]
fn white_space_is_marked() {
    assert_eq!(space_mask(&chars("a b\tc")), vec![false, true, false, true, false]);
}

#[test]
fn white_space_is_the_unicode_property() {
    let spaces = [
        '\u{0009}', '\u{000A}', '\u{000B}', '\u{000C}', '\u{000D}', '\u{0020}', '\u{0085}',
        '\u{00A0}', '\u{1680}', '\u{2000}', '\u{2001}', '\u{2002}', '\u{2003}', '\u{2004}',
        '\u{2005}', '\u{2006}', '\u{2007}', '\u{2008}', '\u{2009}', '\u{200A}', '\u{2028}',
        '\u{2029}', '\u{202F}', '\u{205F}', '\u{3000}',
    ];
    assert_eq!(space_mask(&spaces), vec![true; 25]);
    let others = [
        '\u{0008}', '\u{000E}', '\u{001F}', '\u{0021}', '\u{0084}', '\u{0086}', '\u{009F}',
        '\u{00A1}', '\u{167F}', '\u{1681}', '\u{180E}', '\u{1FFF}', '\u{200B}', '\u{2027}',
        '\u{202A}', '\u{202E}', '\u{2030}', '\u{205E}', '\u{2060}', '\u{2FFF}', '\u{3001}',
        '\u{FEFF}', 'a', '0', '"', ':',
    ];
    assert_eq!(space_mask(&others), vec![false; 26]);
}

#[test]
fn words_are_found_one_after_another() {
    let mask = [true, false, false, true, true, false];
    assert_eq!(next_word(&mask, 0), Some((1, 3)));
    assert_eq!(next_word(&mask, 1), Some((1, 3)));
    assert_eq!(next_word(&mask, 2), Some((5, 6)));
    assert_eq!(next_word(&mask, 3), Some((5, 6)));
    assert_eq!(next_word(&mask, 6), None);
    assert_eq!(next_word(&mask, 7), None);
    assert_eq!(next_word(&[true, true], 0), None);
    assert_eq!(next_word(&[false, false], 1), None);
}
