use sync::utils::text::{
    contains_char, decimal_string, ends_with_ignore_case, find, is_whitespace, lines_of, nth_piece,
    parse_u32, replace_char, to_chars, trim, trim_end, trim_end_matches,
};

const SAMPLES: &[&str] = &[
    "",
    " ",
    "abc",
    "  abc  ",
    "\t\n x y \r\n",
    "\u{a0}mid\u{2003}",
    "\u{3000}\u{85}z\u{200b}",
    "a\r",
    "a\nb",
    "a\r\nb\r\n",
    "\n\n",
    "x\r\r\ny",
    "é ñ ",
];

#[test]
fn whitespace_matches_std() {
    for u in 0u32..0x3100 {
        if let Some(c) = char::from_u32(u) {
            assert_eq!(is_whitespace(c), c.is_whitespace(), "char {:x}", u);
        }
    }
}

#[test]
fn trims_match_std() {
    for s in SAMPLES {
        assert_eq!(trim(s), s.trim());
        assert_eq!(trim_end(s), s.trim_end());
    }
}

#[test]
fn lines_match_std() {
    for s in SAMPLES {
        let v = to_chars(s);
        let ours: Vec<String> = lines_of(&v).into_iter().map(|l| l.into_iter().collect()).collect();
        let std: Vec<String> = s.lines().map(|l| l.to_string()).collect();
        assert_eq!(ours, std, "text {:?}", s);
    }
}

#[test]
fn find_matches_std() {
    let hay = "ab#cd##e";
    let h = to_chars(hay);
    assert_eq!(find(&h, &to_chars("#")), Some(2));
    assert_eq!(find(&h, &to_chars("##")), Some(5));
    assert_eq!(find(&h, &to_chars("x")), None);
    assert_eq!(find(&h, &to_chars("")), Some(0));
    assert_eq!(find(&to_chars(""), &to_chars("a")), None);
}

#[test]
fn pieces_match_std() {
    for s in ["a@b@c", "@x", "a", "", "a@", "@@"] {
        let v = to_chars(s);
        for n in 0..4 {
            assert_eq!(nth_piece(&v, '@', n), s.split('@').nth(n).map(|p| p.to_string()));
        }
    }
}

#[test]
fn replace_and_contains() {
    assert_eq!(replace_char("a!b!!", '!', ':'), "a:b::");
    assert!(contains_char("host:1", ':'));
    assert!(!contains_char("host", ':'));
}

#[test]
fn suffixes() {
    assert_eq!(trim_end_matches("a.exe.exe", ".exe"), "a");
    assert_eq!(trim_end_matches("a.EXE", ".exe"), "a.EXE");
    assert_eq!(trim_end_matches("", ".exe"), "");
    assert!(ends_with_ignore_case("SYNC.EXE", ".exe"));
    assert!(ends_with_ignore_case("sync.Exe", ".exe"));
    assert!(!ends_with_ignore_case("sync", ".exe"));
    assert!(!ends_with_ignore_case("exe", ".exe"));
}

#[test]
fn decimal_roundtrip() {
    for n in [0u32, 7, 10, 100, 12345, u32::MAX] {
        let s = decimal_string(n);
        assert_eq!(s, n.to_string());
        assert_eq!(parse_u32(&s), Some(n));
    }
}

#[test]
fn parse_matches_std() {
    for s in ["", "+", "-1", "+5", "007", "4294967295", "4294967296", "12a", " 1", "1\n", "٣"] {
        assert_eq!(parse_u32(s), s.parse::<u32>().ok(), "text {:?}", s);
    }
}
