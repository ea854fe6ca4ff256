use cognistruct::numeral::{decimal_chars, hex_fixed_chars, hex_minimal_chars};
use cognistruct::paths::{extension_of, file_stem_of};
use cognistruct::text::{
    char_is_whitespace, chars_eq_ignore_ascii_case, find_chars, index_of_char, join_chars,
    split_lines, starts_with_chars, str_eq, to_chars, trim_chars, trim_end_chars,
    trim_start_chars, trim_start_matches_chars,
};

fn chars(s: &str) -> Vec<char> {
    s.chars().collect()
}

fn from_chars(v: &Vec<char>) -> String {
    v.iter().collect()
}

fn lines_of(s: &str) -> Vec<String> {
    split_lines(&chars(s)).iter().map(|l| from_chars(l)).collect()
}

#[test]
fn whitespace_is_what_std_calls_whitespace() {
    let mut c = 0u32;
    while c <= 0x3100 {
        if let Some(ch) = char::from_u32(c) {
            assert_eq!(char_is_whitespace(ch), ch.is_whitespace(), "U+{:04X}", c);
        }
        c += 1;
    }
    assert!(!char_is_whitespace('\u{FEFF}'));
    assert!(!char_is_whitespace('\u{10FFFF}'));
}

#[test]
fn trimming_agrees_with_std() {
    for s in ["", " ", "a", "  a b \t\n", "\u{3000}x\u{a0}", "\r\n", "x  ", "  x", " \u{85} "] {
        assert_eq!(from_chars(&trim_chars(&chars(s))), s.trim(), "{:?}", s);
        assert_eq!(from_chars(&trim_start_chars(&chars(s))), s.trim_start(), "{:?}", s);
        assert_eq!(from_chars(&trim_end_chars(&chars(s))), s.trim_end(), "{:?}", s);
    }
    for s in ["", "#", "## a", "a#", "###", " #a"] {
        assert_eq!(
            from_chars(&trim_start_matches_chars(&chars(s), '#')),
            s.trim_start_matches('#'),
            "{:?}",
            s
        );
    }
}

#[test]
fn lines_agree_with_std() {
    for s in [
        "", "\n", "a", "a\n", "a\nb", "a\n\nb\n", "a\r\nb\r\n", "a\rb", "a\r", "\r\n", "\n\n",
        "a\r\r\nb", "é\n\u{1F600}",
    ] {
        let expected: Vec<String> = s.lines().map(|l| l.to_string()).collect();
        assert_eq!(lines_of(s), expected, "{:?}", s);
    }
    assert_eq!(lines_of("one\r\ntwo\n\nfour"), vec!["one", "two", "", "four"]);
}

#[test]
fn searching_and_joining() {
    let hay = chars("ab--\n---x\n---");
    assert_eq!(find_chars(&hay, &chars("\n---"), 0), Some(4));
    assert_eq!(find_chars(&hay, &chars("\n---"), 5), Some(9));
    assert_eq!(find_chars(&hay, &chars("\n---"), 10), None);
    assert_eq!(find_chars(&hay, &chars(""), 13), Some(13));
    assert_eq!(find_chars(&hay, &chars(""), 14), None);
    assert_eq!(find_chars(&chars(""), &chars("a"), 0), None);
    assert_eq!(index_of_char(&hay, '-', 0), 2);
    assert_eq!(index_of_char(&hay, 'x', 9), 13);
    assert_eq!(index_of_char(&hay, 'b', 2), 13);
    assert!(starts_with_chars(&hay, &chars("ab-")));
    assert!(starts_with_chars(&hay, &chars("")));
    assert!(!starts_with_chars(&chars("ab"), &chars("abc")));
    assert_eq!(from_chars(&join_chars(&vec![], &chars(", "))), "");
    assert_eq!(from_chars(&join_chars(&vec![chars("a")], &chars(", "))), "a");
    assert_eq!(
        from_chars(&join_chars(&vec![chars("a"), chars(""), chars("c")], &chars(", "))),
        "a, , c"
    );
    assert_eq!(to_chars("héllo"), vec!['h', 'é', 'l', 'l', 'o']);
}

#[test]
fn comparing_texts() {
    assert!(str_eq("", ""));
    assert!(str_eq("tag", "tag"));
    assert!(!str_eq("tag", "tags"));
    assert!(!str_eq("tag", "Tag"));
    for (a, b) in [("md", "MD"), ("Md", "mD"), ("", ""), ("a1_", "A1_")] {
        assert!(chars_eq_ignore_ascii_case(&chars(a), &chars(b)));
        assert!(a.eq_ignore_ascii_case(b));
    }
    for (a, b) in [("md", "mdx"), ("é", "É"), ("k", "\u{212A}"), ("@", "`"), ("[", "{")] {
        assert!(!chars_eq_ignore_ascii_case(&chars(a), &chars(b)));
        assert!(!a.eq_ignore_ascii_case(b));
    }
}

#[test]
fn numbers_are_rendered_as_std_renders_them() {
    for v in [0u64, 1, 9, 10, 15, 16, 255, 256, 4095, 65536, 0xdead_beef, u64::MAX] {
        assert_eq!(from_chars(&hex_minimal_chars(v)), format!("{:x}", v));
        assert_eq!(from_chars(&hex_fixed_chars(v, 16)), format!("{:016x}", v));
    }
    assert_eq!(from_chars(&hex_fixed_chars(0xabcd, 2)), "cd");
    assert_eq!(from_chars(&hex_fixed_chars(0xabcd, 0)), "");
    assert_eq!(from_chars(&hex_fixed_chars(7, 3)), "007");
    for i in [0i64, 1, -1, 9, 10, -10, 12345, -98765, i64::MAX, i64::MIN, i64::MIN + 1] {
        assert_eq!(from_chars(&decimal_chars(i)), format!("{}", i));
    }
}

#[test]
fn stems_and_extensions_of_paths() {
    let cases = [
        ("note.md", "note", Some("md")),
        ("dir/note.md", "note", Some("md")),
        ("dir.d/note", "note", None),
        ("a/b/archive.tar.gz", "archive.tar", Some("gz")),
        (".hidden", ".hidden", None),
        ("dir/.hidden.md", ".hidden", Some("md")),
        ("note.", "note", Some("")),
        ("", "", None),
        ("dir/", "dir", None),
        ("dir/note.md/", "note", Some("md")),
        ("dir/note.md//", "note", Some("md")),
        ("dir/note.md/.", "note", Some("md")),
        ("dir/./note.md/./", "note", Some("md")),
        ("a//b.txt", "b", Some("txt")),
        ("/", "", None),
        (".", "", None),
        ("./", "", None),
        ("/.", "", None),
        ("..", "", None),
        ("a/..", "", None),
        ("a/../", "", None),
        ("..md", ".", Some("md")),
        ("a/...", "..", Some("")),
    ];
    for (path, stem, ext) in cases {
        assert_eq!(file_stem_of(path), stem, "{:?}", path);
        assert_eq!(extension_of(path), ext.map(|e| e.to_string()), "{:?}", path);
        let std_path = std::path::Path::new(path);
        assert_eq!(
            file_stem_of(path).as_str(),
            std_path.file_stem().and_then(|s| s.to_str()).unwrap_or(""),
            "{:?}",
            path
        );
        assert_eq!(
            extension_of(path).as_deref(),
            std_path.extension().and_then(|s| s.to_str()),
            "{:?}",
            path
        );
    }
}
