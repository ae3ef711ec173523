use elasticlab::text::{contains, decimal_string, replace, string_of, chars_of};

#[test]
fn decimal_string_writes_numbers() {
    assert_eq!(decimal_string(0), "0");
    assert_eq!(decimal_string(9), "9");
    assert_eq!(decimal_string(10), "10");
    assert_eq!(decimal_string(255), "255");
    assert_eq!(decimal_string(65536), "65536");
    assert_eq!(decimal_string(u64::MAX), "18446744073709551615");
}

#[test]
fn decimal_string_matches_to_string() {
    for n in [1u64, 7, 42, 100, 999, 1000, 123456789] {
        assert_eq!(decimal_string(n), n.to_string());
    }
}

#[test]
fn replace_replaces_every_occurrence() {
    assert_eq!(
        replace("resource \"NAME\" { bucket = \"NAME\" }", "NAME", "elasticlab-s3-1"),
        "resource \"elasticlab-s3-1\" { bucket = \"elasticlab-s3-1\" }"
    );
}

#[test]
fn replace_agrees_with_str_replace() {
    let cases = [
        ("aaa", "aa", "b"),
        ("abcabc", "bc", ""),
        ("no pattern here", "NAME", "x"),
        ("NAMENAME", "NAME", "NAME"),
        ("", "AK", "key"),
        ("été AK été", "AK", "clé"),
    ];
    for (s, p, r) in cases {
        assert_eq!(replace(s, p, r), s.replace(p, r));
    }
}

#[test]
fn contains_finds_substrings() {
    assert!(contains("Plan: No changes. Done", "No changes."));
    assert!(!contains("No change", "No changes."));
    assert!(contains("abc", ""));
    assert!(contains("", ""));
    assert!(!contains("", "a"));
}

#[test]
fn chars_round_trip() {
    let s = "héllo, wörld";
    let v = chars_of(s);
    assert_eq!(v.len(), 12);
    assert_eq!(string_of(&v), s);
}
