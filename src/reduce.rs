//! The tree reducer: keeps the structural elements, drops the skipped ones,
//! splices the children of all others in their place, and turns tables into
//! record sets.
use vstd::prelude::*;
use vstd::string::StringExecFns;
use crate::html::{HtmlElement, HtmlNode};
use crate::reduced::{Content, ContentView, DomNode, NodeView, content_view, contents_view};
use crate::table::{parse_table, table_spec};
use crate::config::{ReduceConfig, class_with, classify_with};
use crate::tags::{TagClass, lower_of, same_text, to_lower};
use crate::text::{is_ws, lemma_normalize_has_content, normalize, normalize_spec};

verus! {

broadcast use vstd::std_specs::vec::group_vec_axioms, vstd::seq::group_seq_axioms;

/// Whether `c` is the lower-case ASCII letter `l` in either case.
pub open spec fn same_letter_ci(c: char, l: char) -> bool {
    c == l || c as u32 + 32 == l as u32
}

/// Whether `s` is "href" in any ASCII letter case.
pub open spec fn is_href_name(s: Seq<char>) -> bool {
    s.len() == 4 && same_letter_ci(s[0], 'h') && same_letter_ci(s[1], 'r') && same_letter_ci(
        s[2],
        'e',
    ) && same_letter_ci(s[3], 'f')
}

/// The value of the first attribute named "href" in any case.
pub open spec fn first_href(attrs: Seq<(String, String)>) -> Option<Seq<char>>
    decreases attrs.len(),
{
    if attrs.len() == 0 {
        None
    } else if is_href_name(attrs[0].0@) {
        Some(attrs[0].1@)
    } else {
        first_href(attrs.drop_first())
    }
}

/// A text leaf holding `t`.
pub open spec fn text_leaf(t: Seq<char>) -> ContentView {
    ContentView::Node(
        NodeView { tag: None, href: None, text: Some(t), children: Seq::empty(), subpage: None },
    )
}

/// The reduction of the nodes `s`, in document order.
pub open spec fn reduce_in(cfg: ReduceConfig, s: Seq<HtmlNode>) -> Seq<ContentView>
    decreases s,
{
    if s.len() == 0 {
        Seq::empty()
    } else {
        reduce_in(cfg, s.drop_last()) + reduce_below(cfg, s.last())
    }
}

/// The entries that the node `n` contributes to its parent.
pub open spec fn reduce_below(cfg: ReduceConfig, n: HtmlNode) -> Seq<ContentView>
    decreases n,
{
    match n {
        HtmlNode::Text(t) => match normalize_spec(t@) {
            Some(c) => seq![text_leaf(c)],
            None => Seq::empty(),
        },
        HtmlNode::Element(e) => {
            let tag = lower_of(e.name@);
            match class_with(cfg, tag) {
                TagClass::Skip => Seq::empty(),
                TagClass::Table => seq![ContentView::Table(table_spec(e))],
                TagClass::Retain => seq![
                    ContentView::Node(
                        NodeView {
                            tag: Some(tag),
                            href: if tag == "a"@ {
                                first_href(e.attrs@)
                            } else {
                                None
                            },
                            text: None,
                            children: reduce_in(cfg, e.children@),
                            subpage: None,
                        },
                    ),
                ],
                TagClass::Transparent => reduce_in(cfg, e.children@),
            }
        },
        HtmlNode::Other => Seq::empty(),
    }
}

/// The text of the placeholder for a document without a root element.
pub open spec fn missing_root_text() -> Seq<char> {
    "(No <html> found)"@
}

/// The reduced tree of a document whose root element is `root`, if any.
pub open spec fn document_spec(cfg: ReduceConfig, root: Option<HtmlElement>) -> ContentView {
    match root {
        Some(e) => ContentView::Node(
            NodeView {
                tag: Some("html"@),
                href: None,
                text: None,
                children: reduce_in(cfg, e.children@),
                subpage: None,
            },
        ),
        None => ContentView::Node(
            NodeView {
                tag: Some("html"@),
                href: None,
                text: Some(missing_root_text()),
                children: Seq::empty(),
                subpage: None,
            },
        ),
    }
}

/// Appending to a sequence of entries appends to its view.
pub proof fn lemma_contents_view_concat(a: Seq<Content>, b: Seq<Content>)
    ensures
        contents_view(a + b) == contents_view(a) + contents_view(b),
    decreases b.len(),
{
    if b.len() == 0 {
        assert(a + b =~= a);
        assert(contents_view(a) + contents_view(b) =~= contents_view(a));
    } else {
        lemma_contents_view_concat(a, b.drop_last());
        assert((a + b).drop_last() =~= a + b.drop_last());
        assert((a + b).last() == b.last());
        assert(contents_view(a + b) =~= contents_view(a) + contents_view(b));
    }
}

/// Pushing onto a sequence of entries pushes onto its view.
pub proof fn lemma_contents_view_push(a: Seq<Content>, x: Content)
    ensures
        contents_view(a.push(x)) == contents_view(a).push(content_view(x)),
{
    assert(a.push(x).drop_last() =~= a);
}

/// Whether the attribute name `name` is "href" in any ASCII letter case.
fn is_href(name: &str) -> (r: bool)
    ensures
        r == is_href_name(name@),
{
    if name.unicode_len() != 4 {
        return false;
    }
    let c0 = name.get_char(0) as u32;
    let c1 = name.get_char(1) as u32;
    let c2 = name.get_char(2) as u32;
    let c3 = name.get_char(3) as u32;
    (c0 == 'h' as u32 || c0 + 32 == 'h' as u32) && (c1 == 'r' as u32 || c1 + 32 == 'r' as u32)
        && (c2 == 'e' as u32 || c2 + 32 == 'e' as u32) && (c3 == 'f' as u32 || c3 + 32
        == 'f' as u32)
}

/// The value of the first attribute named "href" in any case.
fn first_href_of(attrs: &Vec<(String, String)>) -> (r: Option<String>)
    ensures
        match r {
            Some(v) => first_href(attrs@) == Some(v@),
            None => first_href(attrs@) is None,
        },
{
    let mut i: usize = 0;
    assert(attrs@.subrange(0, attrs@.len() as int) =~= attrs@);
    while i < attrs.len()
        invariant
            i <= attrs@.len(),
            first_href(attrs@) == first_href(attrs@.subrange(i as int, attrs@.len() as int)),
        decreases attrs@.len() - i,
    {
        assert(attrs@.subrange(i as int, attrs@.len() as int)[0] == attrs@[i as int]);
        assert(attrs@.subrange(i as int, attrs@.len() as int).drop_first() =~= attrs@.subrange(
            i + 1,
            attrs@.len() as int,
        ));
        if is_href(attrs[i].0.as_str()) {
            return Some(attrs[i].1.clone());
        }
        i = i + 1;
    }
    assert(attrs@.subrange(i as int, attrs@.len() as int).len() == 0);
    None
}

/// The reduction of `nodes`.
fn reduce_nodes(cfg: &ReduceConfig, nodes: &Vec<HtmlNode>) -> (r: Vec<Content>)
    ensures
        contents_view(r@) == reduce_in(*cfg, nodes@),
    decreases nodes,
{
    let mut result: Vec<Content> = Vec::new();
    let mut i: usize = 0;
    while i < nodes.len()
        invariant
            i <= nodes@.len(),
            contents_view(result@) == reduce_in(*cfg, nodes@.subrange(0, i as int)),
        decreases nodes@.len() - i,
    {
        let ghost before = result@;
        match &nodes[i] {
            HtmlNode::Element(e) => {
                let tag_name = to_lower(e.name.as_str());
                match classify_with(cfg, tag_name.as_str()) {
                    TagClass::Skip => {},
                    TagClass::Table => {
                        let table_data = parse_table(e);
                        let item = Content::Table(table_data);
                        proof {
                            lemma_contents_view_push(result@, item);
                        }
                        result.push(item);
                        assert(contents_view(result@) =~= contents_view(before) + reduce_below(*cfg, nodes@[i as int]));
                    },
                    TagClass::Retain => {
                        let link = if same_text(tag_name.as_str(), "a") {
                            first_href_of(&e.attrs)
                        } else {
                            None
                        };
                        let children = reduce_nodes(cfg, &e.children);
                        let item = Content::Node(
                            DomNode {
                                tag: Some(tag_name),
                                href: link,
                                text: None,
                                children,
                                link_subpage: None,
                            },
                        );
                        proof {
                            lemma_contents_view_push(result@, item);
                        }
                        result.push(item);
                        assert(contents_view(result@) =~= contents_view(before) + reduce_below(*cfg, nodes@[i as int]));
                    },
                    TagClass::Transparent => {
                        let mut sub = reduce_nodes(cfg, &e.children);
                        proof {
                            lemma_contents_view_concat(result@, sub@);
                        }
                        result.append(&mut sub);
                    },
                }
            },
            HtmlNode::Text(t) => {
                if let Some(c) = normalize(t.as_str()) {
                    let item = Content::Node(
                        DomNode {
                            tag: None,
                            href: None,
                            text: Some(c),
                            children: Vec::new(),
                            link_subpage: None,
                        },
                    );
                    proof {
                        lemma_contents_view_push(result@, item);
                        assert(contents_view(Seq::<Content>::empty()) =~= Seq::empty());
                    }
                    result.push(item);
                }
            },
            HtmlNode::Other => {},
        }
        assert(contents_view(result@) == contents_view(before) + reduce_below(*cfg, nodes@[i as int]));
        let ghost pre = nodes@.subrange(0, i as int);
        let ghost cur = nodes@.subrange(0, i + 1);
        assert(cur.drop_last() =~= pre);
        assert(cur.last() == nodes@[i as int]);
        assert(contents_view(result@) =~= reduce_in(*cfg, cur));
        i = i + 1;
    }
    assert(nodes@.subrange(0, nodes@.len() as int) =~= nodes@);
    result
}

/// The reduction of the children of `el`, in document order.
pub fn parse_children(cfg: &ReduceConfig, el: &HtmlElement) -> (r: Vec<Content>)
    ensures
        contents_view(r@) == reduce_in(*cfg, el.children@),
{
    reduce_nodes(cfg, &el.children)
}

/// The reduced tree of a document: a node tagged "html" holding the
/// reduction of the root element's children, or, where the document has no
/// root element, one holding a placeholder text.
pub fn reduce_document(cfg: &ReduceConfig, root: Option<&HtmlElement>) -> (r: Content)
    ensures
        content_view(r) == document_spec(*cfg, 
            match root {
                Some(e) => Some(*e),
                None => None,
            },
        ),
{
    match root {
        Some(e) => {
            let children = parse_children(cfg, e);
            Content::Node(
                DomNode {
                    tag: Some(<String as StringExecFns>::from_str("html")),
                    href: None,
                    text: None,
                    children,
                    link_subpage: None,
                },
            )
        },
        None => {
            let r = Content::Node(
                DomNode {
                    tag: Some(<String as StringExecFns>::from_str("html")),
                    href: None,
                    text: Some(<String as StringExecFns>::from_str("(No <html> found)")),
                    children: Vec::new(),
                    link_subpage: None,
                },
            );
            assert(contents_view(Seq::<Content>::empty()) =~= Seq::empty());
            r
        },
    }
}


/// The reduction of two node sequences one after the other is the
/// reduction of the first followed by that of the second.
pub proof fn lemma_reduce_in_concat(cfg: ReduceConfig, a: Seq<HtmlNode>, b: Seq<HtmlNode>)
    ensures
        reduce_in(cfg, a + b) == reduce_in(cfg, a) + reduce_in(cfg, b),
    decreases b.len(),
{
    if b.len() == 0 {
        assert(a + b =~= a);
        assert(reduce_in(cfg, a) + reduce_in(cfg, b) =~= reduce_in(cfg, a));
    } else {
        lemma_reduce_in_concat(cfg, a, b.drop_last());
        assert((a + b).drop_last() =~= a + b.drop_last());
        assert((a + b).last() == b.last());
        assert(reduce_in(cfg, a + b) =~= reduce_in(cfg, a) + reduce_in(cfg, b));
    }
}

proof fn lemma_reduce_in_single(cfg: ReduceConfig, n: HtmlNode)
    ensures
        reduce_in(cfg, seq![n]) == reduce_below(cfg, n),
{
    assert(seq![n].drop_last() =~= Seq::<HtmlNode>::empty());
    assert(reduce_in(cfg, Seq::<HtmlNode>::empty()) + reduce_below(cfg, n) =~= reduce_below(cfg, n));
}

/// A skipped element contributes nothing, whatever lies below it: the
/// reduction of its siblings is as if it were not there.
pub proof fn lemma_skipped_element_vanishes(cfg: ReduceConfig, a: Seq<HtmlNode>, e: HtmlElement, b: Seq<HtmlNode>)
    requires
        class_with(cfg, lower_of(e.name@)) == TagClass::Skip,
    ensures
        reduce_below(cfg, HtmlNode::Element(e)) == Seq::<ContentView>::empty(),
        reduce_in(cfg, a + seq![HtmlNode::Element(e)] + b) == reduce_in(cfg, a) + reduce_in(cfg, b),
{
    lemma_reduce_in_concat(cfg, a + seq![HtmlNode::Element(e)], b);
    lemma_reduce_in_concat(cfg, a, seq![HtmlNode::Element(e)]);
    lemma_reduce_in_single(cfg, HtmlNode::Element(e));
    assert(reduce_in(cfg, a) + Seq::<ContentView>::empty() =~= reduce_in(cfg, a));
}

/// A transparent element is flattened: the reduction of its children
/// stands in its place among its siblings, with no node of its own.
pub proof fn lemma_transparent_element_spliced(cfg: ReduceConfig, 
    a: Seq<HtmlNode>,
    e: HtmlElement,
    b: Seq<HtmlNode>,
)
    requires
        class_with(cfg, lower_of(e.name@)) == TagClass::Transparent,
    ensures
        reduce_below(cfg, HtmlNode::Element(e)) == reduce_in(cfg, e.children@),
        reduce_in(cfg, a + seq![HtmlNode::Element(e)] + b) == reduce_in(cfg, a) + reduce_in(cfg, e.children@)
            + reduce_in(cfg, b),
{
    lemma_reduce_in_concat(cfg, a + seq![HtmlNode::Element(e)], b);
    lemma_reduce_in_concat(cfg, a, seq![HtmlNode::Element(e)]);
    lemma_reduce_in_single(cfg, HtmlNode::Element(e));
}

/// Whether `c` and everything below it is well formed: a text leaf holds
/// text that is neither empty nor starts or ends with whitespace, and has no
/// children, link target or subpage; a structural node holds no subpage,
/// and no link target unless it is an anchor.
pub open spec fn well_formed(c: ContentView) -> bool
    decreases c,
{
    match c {
        ContentView::Node(n) => match n.tag {
            None => n.text matches Some(t) && t.len() > 0 && !is_ws(t[0]) && !is_ws(t.last())
                && n.children.len() == 0 && n.href is None && n.subpage is None,
            Some(g) => (g != "a"@ ==> n.href is None) && n.subpage is None && well_formed_in(
                n.children,
            ),
        },
        ContentView::Table(_) => true,
    }
}

/// Whether every entry of `s` is well formed.
pub open spec fn well_formed_in(s: Seq<ContentView>) -> bool
    decreases s,
{
    s.len() == 0 || (well_formed_in(s.drop_last()) && well_formed(s.last()))
}

proof fn lemma_well_formed_concat(a: Seq<ContentView>, b: Seq<ContentView>)
    requires
        well_formed_in(a),
        well_formed_in(b),
    ensures
        well_formed_in(a + b),
    decreases b.len(),
{
    if b.len() == 0 {
        assert(a + b =~= a);
    } else {
        lemma_well_formed_concat(a, b.drop_last());
        assert((a + b).drop_last() =~= a + b.drop_last());
        assert((a + b).last() == b.last());
    }
}

proof fn lemma_well_formed_single(v: ContentView)
    requires
        well_formed(v),
    ensures
        well_formed_in(seq![v]),
{
    assert(seq![v].drop_last() =~= Seq::<ContentView>::empty());
    assert(seq![v].last() == v);
    assert(well_formed_in(Seq::<ContentView>::empty()));
    assert(well_formed_in(seq![v]) == (well_formed_in(seq![v].drop_last()) && well_formed(
        seq![v].last(),
    )));
}

/// Every entry of a reduction is well formed at every depth; in particular
/// no text leaf anywhere holds empty or whitespace-only text.
pub proof fn lemma_reduction_well_formed(cfg: ReduceConfig, s: Seq<HtmlNode>)
    ensures
        well_formed_in(reduce_in(cfg, s)),
    decreases s,
{
    if s.len() > 0 {
        lemma_reduction_well_formed(cfg, s.drop_last());
        match s.last() {
            HtmlNode::Element(e) => {
                lemma_reduction_well_formed(cfg, e.children@);
                let tag = lower_of(e.name@);
                match class_with(cfg, tag) {
                    TagClass::Skip => {},
                    TagClass::Table => {
                        lemma_well_formed_single(ContentView::Table(table_spec(e)));
                    },
                    TagClass::Retain => {
                        lemma_well_formed_single(reduce_below(cfg, s.last())[0]);
                        assert(reduce_below(cfg, s.last()) =~= seq![reduce_below(cfg, s.last())[0]]);
                    },
                    TagClass::Transparent => {},
                }
            },
            HtmlNode::Text(t) => {
                if let Some(c) = normalize_spec(t@) {
                    lemma_normalize_has_content(t@);
                    assert(well_formed_in(Seq::<ContentView>::empty()));
                    lemma_well_formed_single(text_leaf(c));
                }
            },
            HtmlNode::Other => {},
        }
        lemma_well_formed_concat(reduce_in(cfg, s.drop_last()), reduce_below(cfg, s.last()));
    }
}

/// The reduced tree of any document is well formed at every depth.
pub proof fn lemma_document_well_formed(cfg: ReduceConfig, root: Option<HtmlElement>)
    ensures
        well_formed(document_spec(cfg, root)),
{
    match root {
        Some(e) => lemma_reduction_well_formed(cfg, e.children@),
        None => {
            assert(well_formed_in(Seq::<ContentView>::empty()));
        },
    }
}

} // verus!
