//! The reduced tree: structural nodes, text leaves and record sets, and
//! their mathematical views.
use vstd::prelude::*;

verus! {

broadcast use vstd::std_specs::vec::group_vec_axioms, vstd::seq::group_seq_axioms;

/// A node of the reduced tree: a structural node or a text leaf.
#[derive(Debug)]
pub struct DomNode {
    /// The lower-cased tag name; absent for a text leaf.
    pub tag: Option<String>,
    /// The raw link target of an anchor.
    pub href: Option<String>,
    /// The normalized text of a text leaf.
    pub text: Option<String>,
    /// The reduced content below the node, in document order.
    pub children: Vec<Content>,
    /// The reduced page that an anchor links to, once expanded.
    pub link_subpage: Option<Box<Content>>,
}

/// A table as headers and one record per data row; a record holds
/// (field, value) pairs in cell order.
#[derive(Debug)]
pub struct TableData {
    pub table_headers: Vec<String>,
    pub rows: Vec<Vec<(String, String)>>,
}

/// An entry of the reduced tree.
#[derive(Debug)]
pub enum Content {
    Node(DomNode),
    Table(TableData),
}

/// The view of a `DomNode`.
pub struct NodeView {
    pub tag: Option<Seq<char>>,
    pub href: Option<Seq<char>>,
    pub text: Option<Seq<char>>,
    pub children: Seq<ContentView>,
    pub subpage: Option<Box<ContentView>>,
}

/// The view of a `TableData`.
pub struct TableView {
    pub headers: Seq<Seq<char>>,
    pub rows: Seq<Seq<(Seq<char>, Seq<char>)>>,
}

/// The view of a `Content`.
pub enum ContentView {
    Node(NodeView),
    Table(TableView),
}

pub open spec fn opt_view(o: Option<String>) -> Option<Seq<char>> {
    match o {
        Some(s) => Some(s@),
        None => None,
    }
}

pub open spec fn record_view(r: Vec<(String, String)>) -> Seq<(Seq<char>, Seq<char>)> {
    r@.map_values(|p: (String, String)| (p.0@, p.1@))
}

/// The mapping that a record stands for: each field to its value, where a
/// later pair with the same field replaces an earlier one.
pub open spec fn record_map(rec: Seq<(Seq<char>, Seq<char>)>) -> Map<Seq<char>, Seq<char>>
    decreases rec.len(),
{
    if rec.len() == 0 {
        Map::empty()
    } else {
        record_map(rec.drop_last()).insert(rec.last().0, rec.last().1)
    }
}

pub open spec fn table_view(t: TableData) -> TableView {
    TableView {
        headers: t.table_headers@.map_values(|h: String| h@),
        rows: t.rows@.map_values(|r: Vec<(String, String)>| record_view(r)),
    }
}

pub open spec fn content_view(c: Content) -> ContentView
    decreases c,
{
    match c {
        Content::Node(n) => ContentView::Node(
            NodeView {
                tag: opt_view(n.tag),
                href: opt_view(n.href),
                text: opt_view(n.text),
                children: contents_view(n.children@),
                subpage: match n.link_subpage {
                    Some(b) => Some(Box::new(content_view(*b))),
                    None => None,
                },
            },
        ),
        Content::Table(t) => ContentView::Table(table_view(t)),
    }
}

pub open spec fn contents_view(s: Seq<Content>) -> Seq<ContentView>
    decreases s,
{
    if s.len() == 0 {
        Seq::empty()
    } else {
        contents_view(s.drop_last()).push(content_view(s.last()))
    }
}

} // verus!
