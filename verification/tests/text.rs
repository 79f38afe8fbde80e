use audio_streamer::text::{contains_str, lex_le_str, split_str, str_eq, starts_with, trim_str};

#[test]
fn trim_removes_ascii_whitespace_from_both_ends() {
    assert_eq!(trim_str("  hello \t\r\n"), "hello");
    assert_eq!(trim_str("no-trim"), "no-trim");
    assert_eq!(trim_str("   "), "");
    assert_eq!(trim_str(""), "");
    assert_eq!(trim_str("a b"), "a b");
}

#[test]
fn contains_finds_inner_occurrences_only() {
    assert!(contains_str("alsa_output.hdmi.monitor", ".monitor"));
    assert!(contains_str("x.monitor.y", ".monitor"));
    assert!(!contains_str("alsa_input.mic", ".monitor"));
    assert!(!contains_str("", ".monitor"));
    assert!(!contains_str(".monito", ".monitor"));
}

#[test]
fn string_equality_is_exact() {
    assert!(str_eq("RUNNING", "RUNNING"));
    assert!(!str_eq("RUNNING", "RUNNING "));
    assert!(!str_eq("RUNNING", "running"));
    assert!(!str_eq("", "x"));
    assert!(str_eq("", ""));
}

#[test]
fn prefix_test_matches_rust_starts_with() {
    assert!(starts_with("Name: foo", "Name:"));
    assert!(!starts_with("Nam", "Name:"));
    assert!(!starts_with("xName: foo", "Name:"));
    assert!(starts_with("anything", ""));
}

#[test]
fn split_matches_rust_split_for_nonempty_patterns() {
    let cases: &[(&str, &str)] = &[
        ("Source #0\nx\nSource #1\ny", "Source #"),
        ("a\nb\nc", "\n"),
        ("\n\n", "\n"),
        ("no delimiter", "\n"),
        ("", "\n"),
        ("ababab", "ab"),
        ("aaa", "aa"),
    ];
    for (s, m) in cases {
        let got = split_str(s, m);
        let want: Vec<&str> = s.split(m).collect();
        assert_eq!(got, want, "splitting {:?} on {:?}", s, m);
    }
}

#[test]
fn lexical_order_matches_rust_string_order() {
    let cases: &[(&str, &str)] = &[
        ("Alpha", "Zeta"),
        ("Zeta", "Alpha"),
        ("same", "same"),
        ("", "a"),
        ("a", ""),
        ("abc", "abd"),
        ("ab", "abc"),
    ];
    for (a, b) in cases {
        assert_eq!(lex_le_str(a, b), a <= b, "comparing {:?} and {:?}", a, b);
    }
}
