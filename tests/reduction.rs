use page_reducer::config::ReduceConfig;
use page_reducer::html::{HtmlElement, HtmlNode};
use page_reducer::reduce::{parse_children, reduce_document};
use page_reducer::reduced::{Content, DomNode, TableData};
use page_reducer::table::parse_table;

fn el(name: &str, children: Vec<HtmlNode>) -> HtmlNode {
    HtmlNode::Element(HtmlElement { name: name.to_string(), attrs: vec![], children })
}

fn el_attrs(name: &str, attrs: &[(&str, &str)], children: Vec<HtmlNode>) -> HtmlNode {
    HtmlNode::Element(HtmlElement {
        name: name.to_string(),
        attrs: attrs.iter().map(|(k, v)| (k.to_string(), v.to_string())).collect(),
        children,
    })
}

fn txt(s: &str) -> HtmlNode {
    HtmlNode::Text(s.to_string())
}

fn root(children: Vec<HtmlNode>) -> HtmlElement {
    HtmlElement { name: "html".to_string(), attrs: vec![], children }
}

fn node(c: &Content) -> &DomNode {
    match c {
        Content::Node(n) => n,
        Content::Table(_) => panic!("expected a node"),
    }
}

fn table(c: &Content) -> &TableData {
    match c {
        Content::Table(t) => t,
        Content::Node(_) => panic!("expected a table"),
    }
}

fn text_leaf(c: &Content) -> &str {
    let n = node(c);
    assert!(n.tag.is_none());
    assert!(n.children.is_empty());
    n.text.as_deref().unwrap()
}

fn row(cells: &[&str], cell_tag: &str) -> HtmlNode {
    el("tr", cells.iter().map(|c| el(cell_tag, vec![txt(c)])).collect())
}

fn pairs(r: &[(String, String)]) -> Vec<(&str, &str)> {
    r.iter().map(|(k, v)| (k.as_str(), v.as_str())).collect()
}

#[test]
fn heading_and_paragraph_document() {
    let doc = root(vec![el("h1", vec![txt("Title")]), el("p", vec![txt("Line1\nLine2")])]);
    let r = reduce_document(&ReduceConfig::standard(), Some(&doc));
    let top = node(&r);
    assert_eq!(top.tag.as_deref(), Some("html"));
    assert!(top.text.is_none());
    assert_eq!(top.children.len(), 2);
    let h = node(&top.children[0]);
    assert_eq!(h.tag.as_deref(), Some("h1"));
    assert_eq!(h.children.len(), 1);
    assert_eq!(text_leaf(&h.children[0]), "Title");
    let p = node(&top.children[1]);
    assert_eq!(p.tag.as_deref(), Some("p"));
    assert_eq!(p.children.len(), 1);
    assert_eq!(text_leaf(&p.children[0]), "Line1 Line2");
}

#[test]
fn missing_root_gives_placeholder() {
    let r = reduce_document(&ReduceConfig::standard(), None);
    let top = node(&r);
    assert_eq!(top.tag.as_deref(), Some("html"));
    assert_eq!(top.text.as_deref(), Some("(No <html> found)"));
    assert!(top.children.is_empty());
    assert!(top.href.is_none());
    assert!(top.link_subpage.is_none());
}

#[test]
fn transparent_elements_are_flattened() {
    let doc = root(vec![el("div", vec![el("p", vec![txt("A")]), el("p", vec![txt("B")])])]);
    let out = parse_children(&ReduceConfig::standard(), &doc);
    assert_eq!(out.len(), 2);
    assert_eq!(node(&out[0]).tag.as_deref(), Some("p"));
    assert_eq!(text_leaf(&node(&out[0]).children[0]), "A");
    assert_eq!(node(&out[1]).tag.as_deref(), Some("p"));
    assert_eq!(text_leaf(&node(&out[1]).children[0]), "B");
}

#[test]
fn skipped_elements_vanish() {
    let doc = root(vec![el("nav", vec![el("p", vec![txt("X")])])]);
    assert!(parse_children(&ReduceConfig::standard(), &doc).is_empty());
    let doc = root(vec![
        el("script", vec![txt("var x = 1;")]),
        el("p", vec![txt("kept")]),
        el("FOOTER", vec![el("a", vec![txt("f")])]),
    ]);
    let out = parse_children(&ReduceConfig::standard(), &doc);
    assert_eq!(out.len(), 1);
    assert_eq!(node(&out[0]).tag.as_deref(), Some("p"));
}

#[test]
fn blank_text_and_other_nodes_are_dropped() {
    let doc = root(vec![txt("  \n "), HtmlNode::Other, el("span", vec![txt(" hi  there ")])]);
    let out = parse_children(&ReduceConfig::standard(), &doc);
    assert_eq!(out.len(), 1);
    assert_eq!(text_leaf(&out[0]), "hi there");
}

#[test]
fn anchor_takes_first_href_in_any_case() {
    let doc = root(vec![el_attrs(
        "A",
        &[("class", "x"), ("HREF", "/first"), ("href", "/second")],
        vec![txt("go")],
    )]);
    let out = parse_children(&ReduceConfig::standard(), &doc);
    let a = node(&out[0]);
    assert_eq!(a.tag.as_deref(), Some("a"));
    assert_eq!(a.href.as_deref(), Some("/first"));
    assert!(a.link_subpage.is_none());
}

#[test]
fn non_anchor_keeps_no_href() {
    let doc = root(vec![el_attrs("p", &[("href", "/x")], vec![txt("t")])]);
    let out = parse_children(&ReduceConfig::standard(), &doc);
    assert!(node(&out[0]).href.is_none());
    let doc = root(vec![el_attrs("a", &[("name", "x")], vec![])]);
    let out = parse_children(&ReduceConfig::standard(), &doc);
    assert!(node(&out[0]).href.is_none());
    assert!(node(&out[0]).children.is_empty());
}

#[test]
fn table_with_header_and_one_row() {
    let t = HtmlElement {
        name: "table".to_string(),
        attrs: vec![],
        children: vec![row(&["Name", "Age"], "th"), row(&["Ann", "30"], "td")],
    };
    let d = parse_table(&t);
    assert_eq!(d.table_headers, vec!["Name".to_string(), "Age".to_string()]);
    assert_eq!(d.rows.len(), 1);
    assert_eq!(pairs(&d.rows[0]), vec![("Name", "Ann"), ("Age", "30")]);
}

#[test]
fn table_row_longer_than_header() {
    let t = HtmlElement {
        name: "table".to_string(),
        attrs: vec![],
        children: vec![row(&["A"], "th"), row(&["x", "y"], "td")],
    };
    let d = parse_table(&t);
    assert_eq!(d.table_headers, vec!["A".to_string()]);
    assert_eq!(pairs(&d.rows[0]), vec![("A", "x"), ("col1", "y")]);
}

#[test]
fn table_synthetic_keys_use_decimal_index() {
    let cells: Vec<String> = (0..12).map(|i| format!("v{i}")).collect();
    let refs: Vec<&str> = cells.iter().map(|s| s.as_str()).collect();
    let t = HtmlElement {
        name: "table".to_string(),
        attrs: vec![],
        children: vec![row(&["h"], "th"), row(&refs, "td")],
    };
    let d = parse_table(&t);
    let r = pairs(&d.rows[0]);
    assert_eq!(r[0], ("h", "v0"));
    assert_eq!(r[10], ("col10", "v10"));
    assert_eq!(r[11], ("col11", "v11"));
}

#[test]
fn table_skips_rows_without_cells_and_finds_nested_rows() {
    let t = HtmlElement {
        name: "table".to_string(),
        attrs: vec![],
        children: vec![
            el("tr", vec![]),
            el("thead", vec![row(&[" K \n1 "], "th")]),
            el("tbody", vec![row(&["", "b"], "td"), el("tr", vec![txt("no cells")])]),
        ],
    };
    let d = parse_table(&t);
    assert_eq!(d.table_headers, vec!["K 1".to_string()]);
    assert_eq!(d.rows.len(), 1);
    assert_eq!(pairs(&d.rows[0]), vec![("K 1", ""), ("col1", "b")]);
}

#[test]
fn table_cell_text_joins_descendants() {
    let t = HtmlElement {
        name: "table".to_string(),
        attrs: vec![],
        children: vec![el("tr", vec![el("td", vec![txt("a"), el("b", vec![txt("b ")]), txt(" c")])])],
    };
    let d = parse_table(&t);
    assert_eq!(d.table_headers, vec!["ab c".to_string()]);
    assert!(d.rows.is_empty());
}

#[test]
fn empty_table_has_no_headers() {
    let t = HtmlElement { name: "table".to_string(), attrs: vec![], children: vec![] };
    let d = parse_table(&t);
    assert!(d.table_headers.is_empty());
    assert!(d.rows.is_empty());
}

#[test]
fn table_is_reduced_in_place() {
    let doc = root(vec![
        el("p", vec![txt("before")]),
        el("table", vec![row(&["H"], "th"), row(&["v"], "td")]),
    ]);
    let out = parse_children(&ReduceConfig::standard(), &doc);
    assert_eq!(out.len(), 2);
    let d = table(&out[1]);
    assert_eq!(d.table_headers, vec!["H".to_string()]);
    assert_eq!(pairs(&d.rows[0]), vec![("H", "v")]);
}

#[test]
fn configured_tags_change_the_classes() {
    let mut cfg = ReduceConfig::standard();
    cfg.retain_tags.push("div".to_string());
    cfg.skip_tags.push("p".to_string());
    cfg.table_tag = "grid".to_string();
    let doc = root(vec![
        el("div", vec![el("p", vec![txt("gone")]), txt("kept")]),
        el("grid", vec![row(&["c"], "td")]),
        el("table", vec![el("h2", vec![txt("inside")])]),
    ]);
    let out = parse_children(&cfg, &doc);
    assert_eq!(out.len(), 3);
    let d = node(&out[0]);
    assert_eq!(d.tag.as_deref(), Some("div"));
    assert_eq!(d.children.len(), 1);
    assert_eq!(text_leaf(&d.children[0]), "kept");
    assert_eq!(table(&out[1]).table_headers, vec!["c".to_string()]);
    assert_eq!(node(&out[2]).tag.as_deref(), Some("h2"));
}

#[test]
fn blank_text_is_dropped_at_every_depth() {
    let doc = root(vec![el(
        "ul",
        vec![el("li", vec![txt("  \n\t ")]), el("li", vec![el("span", vec![txt(" x \n y ")]), txt("\u{a0}")])],
    )]);
    let out = parse_children(&ReduceConfig::standard(), &doc);
    let ul = node(&out[0]);
    assert_eq!(ul.children.len(), 2);
    assert!(node(&ul.children[0]).children.is_empty());
    let li = node(&ul.children[1]);
    assert_eq!(li.children.len(), 1);
    assert_eq!(text_leaf(&li.children[0]), "x y");
}
