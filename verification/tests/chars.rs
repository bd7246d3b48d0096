use assembler::chars::contains_whitespace;
use assembler::chars::equal;
use assembler::chars::find;
use assembler::chars::is_whitespace;
use assembler::chars::matches_at;
use assembler::chars::push_chars;
use assembler::chars::push_str;
use assembler::chars::spells;
use assembler::chars::split;
use assembler::chars::split_once;
use assembler::chars::split_whitespace;
use assembler::chars::to_chars;
use assembler::chars::to_string;
use assembler::chars::trim;
use assembler::chars::trim_end;
use assembler::chars::trim_start;

fn cs(s: &str) -> Vec<char> {
    s.chars().collect()
}

fn text(v: &[char]) -> String {
    v.iter().collect()
}

const SAMPLES: [&str; 14] = [
    "",
    " ",
    "a",
    "  a  ",
    "\t\r\n x y \u{3000}",
    "\u{a0}LDA\u{2003}x\u{85}",
    "a  b\tc",
    "   ",
    "one",
    " lead",
    "trail ",
    "a\u{200b}b",
    "\u{feff}a",
    "x\u{1680}y\u{2028}z\u{2029}w\u{202f}v\u{205f}u",
];

#[test]
fn whitespace_is_the_unicode_property_for_every_char() {
    for n in 0..=0x10ffffu32 {
        if let Some(c) = char::from_u32(n) {
            assert_eq!(is_whitespace(c), c.is_whitespace(), "U+{:04X}", n);
        }
    }
}

#[test]
fn contains_whitespace_finds_any_whitespace() {
    assert!(!contains_whitespace(&cs("")));
    assert!(!contains_whitespace(&cs("label")));
    assert!(contains_whitespace(&cs("la bel")));
    assert!(contains_whitespace(&cs("label\u{3000}")));
    assert!(contains_whitespace(&cs("\tlabel")));
}

#[test]
fn trimming_agrees_with_std() {
    for s in SAMPLES {
        let v = cs(s);
        assert_eq!(text(trim_start(&v)), s.trim_start(), "{:?}", s);
        assert_eq!(text(trim_end(&v)), s.trim_end(), "{:?}", s);
        assert_eq!(text(trim(&v)), s.trim(), "{:?}", s);
    }
}

#[test]
fn equal_compares_contents() {
    assert!(equal(&cs(""), &cs("")));
    assert!(equal(&cs("abc"), &cs("abc")));
    assert!(!equal(&cs("abc"), &cs("abd")));
    assert!(!equal(&cs("abc"), &cs("ab")));
    assert!(!equal(&cs("ab"), &cs("abc")));
}

#[test]
fn spells_compares_with_a_string() {
    assert!(spells(&cs("END"), "END"));
    assert!(!spells(&cs("END"), "ENDS"));
    assert!(!spells(&cs("ENDS"), "END"));
    assert!(!spells(&cs("end"), "END"));
    assert!(spells(&cs(""), ""));
    assert!(spells(&cs("é\u{3000}"), "é\u{3000}"));
}

#[test]
fn matches_at_checks_one_position() {
    let s = cs("a.text.text");
    let pat = cs(".text");
    assert!(!matches_at(&s, &pat, 0));
    assert!(matches_at(&s, &pat, 1));
    assert!(matches_at(&s, &pat, 6));
    assert!(!matches_at(&s, &pat, 7));
    assert!(!matches_at(&s, &pat, 11));
    assert!(!matches_at(&s, &pat, 400));
    assert!(matches_at(&s, &cs(""), 11));
    assert!(!matches_at(&s, &cs(""), 12));
}

#[test]
fn find_returns_the_leftmost_match() {
    assert_eq!(find(&cs("a // b // c"), &cs("//")), Some(2));
    assert_eq!(find(&cs("//"), &cs("//")), Some(0));
    assert_eq!(find(&cs("a / / b"), &cs("//")), None);
    assert_eq!(find(&cs("/"), &cs("//")), None);
    assert_eq!(find(&cs(""), &cs("//")), None);
    assert_eq!(find(&cs("abc"), &cs("")), Some(0));
    assert_eq!(find(&cs(""), &cs("")), Some(0));
    assert_eq!(find(&cs("aaab"), &cs("aab")), Some(1));
    assert_eq!(find(&cs("xyz:"), &cs(":")), Some(3));
}

#[test]
fn split_once_agrees_with_std() {
    let cases = [
        ("lbl: .text \"hi\"", ".text"),
        ("a//b//c", "//"),
        ("no mark", "//"),
        ("x:", ":"),
        (":x", ":"),
        ("", ":"),
        (".word.word", ".word"),
    ];
    for (s, pat) in cases {
        let v = cs(s);
        let p = cs(pat);
        let got = split_once(&v, &p).map(|(a, b)| (text(a), text(b)));
        let want = s.split_once(pat).map(|(a, b)| (a.to_string(), b.to_string()));
        assert_eq!(got, want, "{:?} / {:?}", s, pat);
    }
}

#[test]
fn split_whitespace_agrees_with_std() {
    for s in SAMPLES {
        let got: Vec<String> = split_whitespace(&cs(s)).iter().map(|t| text(t)).collect();
        let want: Vec<String> = s.split_whitespace().map(|t| t.to_string()).collect();
        assert_eq!(got, want, "{:?}", s);
    }
}

#[test]
fn split_agrees_with_std() {
    let cases = ["", ",", "1,2,3", " 1 , 2 ", "1,,2", ",1", "1,", "abc", ",,"];
    for s in cases {
        let got: Vec<String> = split(&cs(s), ',').iter().map(|t| text(t)).collect();
        let want: Vec<String> = s.split(',').map(|t| t.to_string()).collect();
        assert_eq!(got, want, "{:?}", s);
    }
}

#[test]
fn split_on_line_feed_keeps_empty_lines() {
    let got: Vec<String> = split(&cs("a\n\nb\n"), '\n').iter().map(|t| text(t)).collect();
    assert_eq!(got, vec!["a", "", "b", ""]);
}

#[test]
fn pushing_appends() {
    let mut out = cs("ab");
    push_chars(&mut out, &cs("cd"));
    push_str(&mut out, "ef");
    push_chars(&mut out, &cs(""));
    push_str(&mut out, "");
    assert_eq!(text(&out), "abcdef");
}

#[test]
fn strings_and_characters_convert_both_ways() {
    for s in SAMPLES {
        assert_eq!(to_chars(s), cs(s));
        assert_eq!(to_string(&cs(s)), s);
    }
    assert_eq!(to_string(&['h', 'é', '\u{1f600}']), "hé\u{1f600}");
}

#[test]
fn joining_the_parts_gives_the_text_back() {
    for s in ["", ",", "1,2,3", " 1 , 2 ", "1,,2", ",1", "1,", "abc", ",,"] {
        let parts = split(&cs(s), ',');
        let mut out = Vec::new();
        assembler::chars::push_joined(&mut out, &parts, ',');
        assert_eq!(text(&out), s);
    }
}
