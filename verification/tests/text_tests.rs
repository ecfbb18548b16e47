use alexo_io::text::{
    display_domain, occurs_at_pos, same_text, starts_with, trim_end_matches_char,
    trim_start_matches,
};

#[test]
fn domain_drops_scheme_www_and_slash() {
    assert_eq!(display_domain("https://www.clavir.io"), "clavir.io");
    assert_eq!(display_domain("https://www.clavir.io/"), "clavir.io");
    assert_eq!(display_domain("https://alexo.io/"), "alexo.io");
}

#[test]
fn domain_strips_repeats() {
    assert_eq!(display_domain("https://https://www.www.a.io//"), "a.io");
}

#[test]
fn domain_keeps_other_schemes() {
    assert_eq!(display_domain("http://www.a.io/"), "http://www.a.io");
}

#[test]
fn domain_edge_cases() {
    assert_eq!(display_domain(""), "");
    assert_eq!(display_domain("/"), "");
    assert_eq!(display_domain("www./"), "");
    assert_eq!(display_domain("https://"), "");
    assert_eq!(display_domain("www.https://x"), "https://x");
}

#[test]
fn domain_agrees_with_std_trimming() {
    for url in [
        "https://www.clavir.io/",
        "www.x.y",
        "https://x.y/path/",
        "ftp://a",
        "https://www.ünïcödé.de//",
        "",
    ] {
        let expected = url
            .trim_start_matches("https://")
            .trim_start_matches("www.")
            .trim_end_matches('/');
        assert_eq!(display_domain(url), expected);
    }
}

#[test]
fn trimming_helpers() {
    assert_eq!(trim_start_matches("abab-x", "ab"), "-x");
    assert_eq!(trim_start_matches("abc", ""), "abc");
    assert_eq!(trim_start_matches("", "ab"), "");
    assert_eq!(trim_end_matches_char("a///", '/'), "a");
    assert_eq!(trim_end_matches_char("é//", '/'), "é");
}

#[test]
fn matching_helpers() {
    assert!(starts_with("mailto:me", "mailto:"));
    assert!(!starts_with("mail", "mailto:"));
    assert!(starts_with("x", ""));
    assert!(same_text("dark", "dark"));
    assert!(!same_text("dark", "dar"));
    assert!(occurs_at_pos("a](b", "](", 1));
    assert!(!occurs_at_pos("a](b", "](", 2));
    assert!(!occurs_at_pos("ab", "b", 5));
}
