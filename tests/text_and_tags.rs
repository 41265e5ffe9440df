use page_reducer::tags::{classify, classify_lower, is_target_tag, same_text, skip_tag, TagClass};
use page_reducer::text::{clean_text, normalize};

#[test]
fn normalize_collapses_and_trims() {
    assert_eq!(normalize("  Line1\nLine2  \t x ").as_deref(), Some("Line1 Line2 x"));
}

#[test]
fn normalize_drops_blank_text() {
    assert_eq!(normalize(""), None);
    assert_eq!(normalize("   \n\t  "), None);
    assert_eq!(normalize("\u{a0}\u{3000}"), None);
}

#[test]
fn normalize_is_idempotent_on_samples() {
    for s in ["a  b", " \n x\r\ny \t", "\u{2003}z\u{2003}\u{2003}w", "plain"] {
        let once = normalize(s).unwrap();
        assert_eq!(normalize(&once), Some(once.clone()));
    }
}

#[test]
fn clean_text_keeps_empty_result() {
    assert_eq!(clean_text("  \n "), "");
    assert_eq!(clean_text("\u{a0}x\t\ty"), "x y");
}

#[test]
fn classify_ignores_case() {
    assert_eq!(classify("DIV"), TagClass::Transparent);
    assert_eq!(classify("H1"), TagClass::Retain);
    assert_eq!(classify("Script"), TagClass::Skip);
    assert_eq!(classify("TABLE"), TagClass::Table);
    assert_eq!(classify("a"), TagClass::Retain);
    assert_eq!(classify("nav"), TagClass::Skip);
}

#[test]
fn classify_lower_expects_lower_case() {
    assert_eq!(classify_lower("p"), TagClass::Retain);
    assert_eq!(classify_lower("P"), TagClass::Transparent);
    assert_eq!(classify_lower("span"), TagClass::Transparent);
}

#[test]
fn skip_and_target_sets() {
    for t in ["script", "style", "meta", "link", "noscript", "svg", "iframe", "nav", "footer", "header"] {
        assert!(skip_tag(t));
        assert!(!is_target_tag(t));
    }
    for t in ["h1", "h2", "h3", "h4", "h5", "h6", "p", "ul", "ol", "li", "a"] {
        assert!(is_target_tag(t));
        assert!(!skip_tag(t));
    }
    assert!(!skip_tag("div"));
    assert!(!is_target_tag("table"));
    assert!(!is_target_tag("h7"));
}

#[test]
fn same_text_compares_characters() {
    assert!(same_text("héllo", "héllo"));
    assert!(!same_text("héllo", "hello"));
    assert!(!same_text("ab", "abc"));
    assert!(same_text("", ""));
}

