use page_reducer::batch::{batch_results, error_node, split_url_lines, ErrorKind, ItemOutcome};
use page_reducer::expand::{collect_links, expand_one_hop};
use page_reducer::config::{allows_scheme, list_has, ReduceConfig};
use page_reducer::links::{fetch_targets, follow_decision, resolve_link, url_scheme};
use page_reducer::reduced::{Content, DomNode};

fn leaf(t: &str) -> Content {
    Content::Node(DomNode { tag: None, href: None, text: Some(t.to_string()), children: vec![], link_subpage: None })
}

fn tagged(tag: &str, href: Option<&str>, children: Vec<Content>) -> Content {
    Content::Node(DomNode {
        tag: Some(tag.to_string()),
        href: href.map(|h| h.to_string()),
        text: None,
        children,
        link_subpage: None,
    })
}

fn node(c: &Content) -> &DomNode {
    match c {
        Content::Node(n) => n,
        Content::Table(_) => panic!("expected a node"),
    }
}

fn sample() -> Content {
    tagged(
        "html",
        None,
        vec![
            tagged("a", Some("/one"), vec![leaf("one")]),
            tagged("ul", None, vec![tagged("li", None, vec![tagged("a", Some("/two"), vec![])])]),
            tagged("p", Some("/not-a-link"), vec![]),
            tagged("a", None, vec![leaf("no target")]),
            tagged("a", Some("mailto:x@ex.com"), vec![tagged("a", Some("/inner"), vec![])]),
        ],
    )
}

#[test]
fn links_are_listed_in_document_order() {
    let links = collect_links(&sample());
    assert_eq!(links, vec!["/one", "/two", "mailto:x@ex.com", "/inner"]);
}

#[test]
fn pages_attach_to_anchors_only() {
    let mut root = sample();
    let pages = vec![Some(leaf("page one")), Some(leaf("page two")), None, Some(leaf("page inner"))];
    expand_one_hop(&mut root, pages);
    let top = node(&root);
    assert!(top.link_subpage.is_none());
    let a1 = node(&top.children[0]);
    assert_eq!(node(a1.link_subpage.as_deref().unwrap()).text.as_deref(), Some("page one"));
    let li = node(&node(&top.children[1]).children[0]);
    assert!(li.link_subpage.is_none());
    let a2 = node(&li.children[0]);
    assert_eq!(node(a2.link_subpage.as_deref().unwrap()).text.as_deref(), Some("page two"));
    assert!(node(&top.children[2]).link_subpage.is_none());
    assert!(node(&top.children[3]).link_subpage.is_none());
    let mail = node(&top.children[4]);
    assert!(mail.link_subpage.is_none());
    let inner = node(&mail.children[0]);
    assert_eq!(node(inner.link_subpage.as_deref().unwrap()).text.as_deref(), Some("page inner"));
}

#[test]
fn expansion_without_links_changes_nothing() {
    let mut root = tagged("html", None, vec![leaf("x")]);
    expand_one_hop(&mut root, vec![]);
    let top = node(&root);
    assert_eq!(top.children.len(), 1);
    assert!(top.link_subpage.is_none());
    assert_eq!(node(&top.children[0]).text.as_deref(), Some("x"));
}

#[test]
fn relative_link_resolves_against_base() {
    let base = "https://ex.com/a/";
    assert_eq!(resolve_link(&ReduceConfig::standard(), base, "/p").as_deref(), Some("https://ex.com/p"));
    assert_eq!(resolve_link(&ReduceConfig::standard(), base, "q").as_deref(), Some("https://ex.com/a/q"));
    assert_eq!(resolve_link(&ReduceConfig::standard(), base, "http://other.org/").as_deref(), Some("http://other.org/"));
}

#[test]
fn disallowed_scheme_is_not_followed() {
    let base = "https://ex.com/a/";
    assert_eq!(resolve_link(&ReduceConfig::standard(), base, "mailto:someone@ex.com"), None);
    assert_eq!(resolve_link(&ReduceConfig::standard(), base, "ftp://ex.com/f"), None);
    assert_eq!(resolve_link(&ReduceConfig::standard(), base, "http://[::1"), None);
}

#[test]
fn scheme_decision() {
    assert!(allows_scheme(&ReduceConfig::standard(), "http"));
    assert!(allows_scheme(&ReduceConfig::standard(), "https"));
    assert!(!allows_scheme(&ReduceConfig::standard(), "mailto"));
    assert!(!allows_scheme(&ReduceConfig::standard(), "HTTP"));
    assert_eq!(follow_decision(&ReduceConfig::standard(), "https", "https://ex.com/".to_string()).as_deref(), Some("https://ex.com/"));
    assert_eq!(follow_decision(&ReduceConfig::standard(), "javascript", "javascript:void(0)".to_string()), None);
}

#[test]
fn url_lines_are_trimmed_and_blank_ones_dropped() {
    let lines = split_url_lines("https://a.com\r\n\n   https://b.org/x  \r\n \t \nc");
    assert_eq!(lines, vec!["https://a.com", "https://b.org/x", "c"]);
    assert!(split_url_lines("").is_empty());
    assert!(split_url_lines("\r\n \n").is_empty());
}

#[test]
fn failed_item_does_not_affect_others() {
    let outcomes = vec![
        ItemOutcome::Page(tagged("html", None, vec![leaf("first")])),
        ItemOutcome::Failed(ErrorKind::Request, "connection refused".to_string()),
        ItemOutcome::Page(tagged("html", None, vec![leaf("third")])),
    ];
    let r = batch_results(outcomes);
    assert_eq!(r.len(), 3);
    assert_eq!(node(&node(&r[0]).children[0]).text.as_deref(), Some("first"));
    let e = node(&r[1]);
    assert_eq!(e.tag.as_deref(), Some("ErrorFetch"));
    assert_eq!(e.text.as_deref(), Some("Request error: connection refused"));
    assert_eq!(node(&node(&r[2]).children[0]).text.as_deref(), Some("third"));
}

#[test]
fn error_nodes_by_kind() {
    let e = error_node(ErrorKind::UrlParse, "nope");
    assert_eq!(node(&e).tag.as_deref(), Some("ErrorURL"));
    assert_eq!(node(&e).text.as_deref(), Some("URL parse error: nope"));
    let e = error_node(ErrorKind::ReadBody, "eof");
    assert_eq!(node(&e).tag.as_deref(), Some("ErrorFetch"));
    assert_eq!(node(&e).text.as_deref(), Some("Error reading response: eof"));
    let e = error_node(ErrorKind::Worker, "panic");
    assert_eq!(node(&e).tag.as_deref(), Some("ErrorSpawnBlock"));
    assert_eq!(node(&e).text.as_deref(), Some("spawn_blocking error: panic"));
    assert!(node(&e).children.is_empty());
}

#[test]
fn configured_schemes_are_followed() {
    let mut cfg = ReduceConfig::standard();
    assert!(!cfg.expand_subpages);
    cfg.allowed_link_schemes = vec!["ftp".to_string()];
    let base = "https://ex.com/a/";
    assert_eq!(resolve_link(&cfg, base, "ftp://ex.com/f").as_deref(), Some("ftp://ex.com/f"));
    assert_eq!(resolve_link(&cfg, base, "/p"), None);
}

#[test]
fn list_membership() {
    let list = vec!["a".to_string(), "bé".to_string()];
    assert!(list_has(&list, "bé"));
    assert!(!list_has(&list, "b"));
    assert!(!list_has(&vec![], "a"));
}

#[test]
fn unparsable_base_resolves_nothing() {
    assert_eq!(resolve_link(&ReduceConfig::standard(), "not a url", "/p"), None);
    assert_eq!(resolve_link(&ReduceConfig::standard(), "not a url", "https://ex.com/"), None);
}

#[test]
fn scheme_is_text_before_first_colon() {
    assert_eq!(url_scheme("https://ex.com/p"), "https");
    assert_eq!(url_scheme("mailto:a@b:c"), "mailto");
    assert_eq!(url_scheme("nocolon"), "nocolon");
    assert_eq!(url_scheme(""), "");
}

#[test]
fn targets_follow_the_expand_option() {
    let links = vec![
        "/p".to_string(),
        "mailto:x@ex.com".to_string(),
        "/p".to_string(),
        "http://[::1".to_string(),
    ];
    let off = fetch_targets(&ReduceConfig::standard(), "https://ex.com/a/", &links);
    assert_eq!(off, vec![None, None, None, None]);
    let mut cfg = ReduceConfig::standard();
    cfg.expand_subpages = true;
    let on = fetch_targets(&cfg, "https://ex.com/a/", &links);
    assert_eq!(
        on,
        vec![Some("https://ex.com/p".to_string()), None, Some("https://ex.com/p".to_string()), None]
    );
}
