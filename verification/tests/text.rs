use rs_ec::text::{has_char, is_blank, trim};

#[test]
fn blank_follows_str_trim() {
    assert!(is_blank(""));
    assert!(is_blank(" \t\n\r"));
    assert!(is_blank("\u{3000}\u{a0}"));
    assert!(!is_blank(" a "));
    for s in ["", "  x", "\u{2003}y\u{205f}", "plain", "\u{85}\u{1680}"] {
        assert_eq!(is_blank(s), s.trim().is_empty());
    }
}

#[test]
fn trim_matches_str_trim() {
    for s in ["", "   ", "  member@example.com ", "a b", "\u{3000}全角\u{3000}", "\tx\n"] {
        assert_eq!(trim(s), s.trim());
    }
}

#[test]
fn has_char_finds_at_sign() {
    assert!(has_char("member@example.com", '@'));
    assert!(!has_char("invalid", '@'));
}
