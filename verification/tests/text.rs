use localdeck::path::{extension, file_name, lies_under, lies_under_any};
use localdeck::text::{
    chars_before_first, chars_between, chars_of, contains_chars, decimal_string,
    eq_ignore_ascii_case, find_from, has_prefix, last_position, matches_at, normalize, parse_u64,
    replace_text, same_text, signed_decimal_string, spells, string_of, strip_separators,
    to_ascii_lowercase, trim_end,
};

fn cs(s: &str) -> Vec<char> {
    s.chars().collect()
}

fn st(v: Vec<char>) -> String {
    v.into_iter().collect()
}

#[test]
fn texts_and_characters_convert_both_ways() {
    assert_eq!(chars_of("héllo"), vec!['h', 'é', 'l', 'l', 'o']);
    assert_eq!(string_of(&cs("héllo")), "héllo");
    assert_eq!(string_of(&vec![]), "");
    assert!(chars_of("").is_empty());
    assert!(same_text("abc", "abc"));
    assert!(!same_text("abc", "abd"));
    assert!(!same_text("abc", "ab"));
    assert!(spells(&cs("mp3"), "mp3"));
    assert!(!spells(&cs("mp3"), "mp4"));
    assert_eq!(chars_between(&cs("abcdef"), 2, 4), cs("cd"));
    assert_eq!(chars_between(&cs("abcdef"), 3, 3), cs(""));
}

#[test]
fn searching_in_texts() {
    assert!(matches_at(&cs("hello world"), &cs("world"), 6));
    assert!(!matches_at(&cs("hello world"), &cs("world"), 5));
    assert!(!matches_at(&cs("hello"), &cs("lo"), 4));
    assert!(matches_at(&cs("hello"), &cs(""), 5));
    assert!(!matches_at(&cs("hello"), &cs(""), 6));
    assert!(has_prefix(&cs("bytes=1-2"), &cs("bytes=")));
    assert!(!has_prefix(&cs("byte"), &cs("bytes=")));
    assert!(has_prefix(&cs("x"), &cs("")));
    assert_eq!(find_from(&cs("abcabc"), &cs("bc"), 0), Some(1));
    assert_eq!(find_from(&cs("abcabc"), &cs("bc"), 2), Some(4));
    assert_eq!(find_from(&cs("abcabc"), &cs("bc"), 5), None);
    assert_eq!(find_from(&cs("abc"), &cs(""), 3), Some(3));
    assert_eq!(find_from(&cs("abc"), &cs(""), 4), None);
    assert!(contains_chars(&cs("anotherartisttrackname"), &cs("trackname")));
    assert!(!contains_chars(&cs("track"), &cs("trackname")));
    assert!(contains_chars(&cs(""), &cs("")));
    assert_eq!(last_position(&cs("a.b.c"), '.'), Some(3));
    assert_eq!(last_position(&cs("abc"), '.'), None);
    assert_eq!(st(chars_before_first(&cs("/play?h=1?x"), '?')), "/play");
    assert_eq!(st(chars_before_first(&cs("/play"), '?')), "/play");
    assert_eq!(st(chars_before_first(&cs("?"), '?')), "");
}

#[test]
fn lower_case_and_normal_form() {
    assert_eq!(st(to_ascii_lowercase(&cs("MiXed-09 É"))), "mixed-09 É");
    assert!(eq_ignore_ascii_case("Range", "rANGE"));
    assert!(!eq_ignore_ascii_case("Range", "Ranges"));
    assert!(!eq_ignore_ascii_case("é", "É"));
    assert_eq!(st(strip_separators("a b-c_d.e")), "abcde");
    assert_eq!(st(strip_separators(" -_.")), "");
    assert_eq!(st(normalize("Some Artist - Track_Name.MP3")), "someartisttracknamemp3");
    assert_eq!(st(normalize("ÀÉÎ Õ-Ü")), "àéîõü");
}

#[test]
fn numbers_are_written_and_read_in_decimal() {
    assert_eq!(decimal_string(0), "0");
    assert_eq!(decimal_string(7), "7");
    assert_eq!(decimal_string(10), "10");
    assert_eq!(decimal_string(2026), "2026");
    assert_eq!(decimal_string(u64::MAX), "18446744073709551615");
    assert_eq!(signed_decimal_string(0), "0");
    assert_eq!(signed_decimal_string(-1), "-1");
    assert_eq!(signed_decimal_string(i64::MAX), "9223372036854775807");
    assert_eq!(signed_decimal_string(i64::MIN), "-9223372036854775808");

    assert_eq!(parse_u64(&cs("0")), Some(0));
    assert_eq!(parse_u64(&cs("42")), Some(42));
    assert_eq!(parse_u64(&cs("+42")), Some(42));
    assert_eq!(parse_u64(&cs("0042")), Some(42));
    assert_eq!(parse_u64(&cs("18446744073709551615")), Some(u64::MAX));
    assert_eq!(parse_u64(&cs("18446744073709551616")), None);
    assert_eq!(parse_u64(&cs("99999999999999999999999")), None);
    assert_eq!(parse_u64(&cs("184467440737095516150")), None);
    for bad in ["", "+", "-1", "++1", "1+", "1 ", " 1", "1_000", "0x10", "１２", "1.0", "a"] {
        assert_eq!(parse_u64(&cs(bad)), None, "{:?}", bad);
        assert_eq!(parse_u64(&cs(bad)), bad.parse::<u64>().ok(), "{:?}", bad);
    }
    for good in ["0", "+0", "000", "12345678901234567890", "+18446744073709551615"] {
        assert_eq!(parse_u64(&cs(good)), good.parse::<u64>().ok(), "{:?}", good);
    }
}

#[test]
fn occurrences_are_replaced_from_the_left() {
    assert_eq!(replace_text("a{{X}}b{{X}}", "{{X}}", "1"), "a1b1");
    assert_eq!(replace_text("aaa", "aa", "b"), "ba");
    assert_eq!(replace_text("abc", "x", "y"), "abc");
    assert_eq!(replace_text("abc", "abc", ""), "");
    assert_eq!(replace_text("", "a", "b"), "");
    assert_eq!(replace_text("abab", "ab", "abab"), "abababab");
    assert_eq!(replace_text("abc", "", "-"), "abc");
    assert_eq!(st(trim_end(&cs("http://deck:8080///"), '/')), "http://deck:8080");
    assert_eq!(st(trim_end(&cs("///"), '/')), "");
    assert_eq!(st(trim_end(&cs("a/b"), '/')), "a/b");
}

#[test]
fn paths_are_read_as_text() {
    assert_eq!(st(file_name(&cs("/a/b/c.mp3"))), "c.mp3");
    assert_eq!(st(file_name(&cs("c.mp3"))), "c.mp3");
    assert_eq!(st(file_name(&cs("/a/b/"))), "");
    assert_eq!(extension(&cs("/a/b/c.mp3")).map(st), Some("mp3".to_string()));
    assert_eq!(extension(&cs("/a/b/c.tar.gz")).map(st), Some("gz".to_string()));
    assert_eq!(extension(&cs("/a/b/c.")).map(st), Some(String::new()));
    assert_eq!(extension(&cs("/a/b/.hidden")), None);
    assert_eq!(extension(&cs("/a/b/.hidden.ogg")).map(st), Some("ogg".to_string()));
    assert_eq!(extension(&cs("/a.b/c")), None);
    assert_eq!(extension(&cs("")), None);
    assert_eq!(extension(&cs("/a/b.mp3/")), None);

    assert!(lies_under(&cs("/music"), &cs("/music")));
    assert!(lies_under(&cs("/music/a.mp3"), &cs("/music")));
    assert!(lies_under(&cs("/music/sub/a.mp3"), &cs("/music")));
    assert!(!lies_under(&cs("/musical/a.mp3"), &cs("/music")));
    assert!(!lies_under(&cs("/music"), &cs("/music/")));
    assert!(lies_under(&cs("/music//a"), &cs("/music/")));
    assert!(!lies_under(&cs("/other/music/a"), &cs("/music")));
    assert!(!lies_under(&cs("/Music/a"), &cs("/music")));
    assert!(lies_under(&cs("/a"), &cs("")));

    let ignored = vec!["/lib/ignored".to_string(), "/tmp".to_string()];
    assert!(lies_under_any("/lib/ignored/x.mp3", &ignored));
    assert!(lies_under_any("/tmp", &ignored));
    assert!(!lies_under_any("/lib/x.mp3", &ignored));
    assert!(!lies_under_any("/lib/x.mp3", &vec![]));
}
