//! The parsed markup that the reducer reads: elements with a name,
//! attributes and ordered children, and text nodes.
use vstd::prelude::*;

verus! {

/// One node of a parsed document.
#[derive(Debug)]
pub enum HtmlNode {
    /// An element.
    Element(HtmlElement),
    /// A text node, with its raw text.
    Text(String),
    /// Anything else (a comment, a doctype, a processing instruction).
    Other,
}

/// An element: its tag name, its attributes in document order, its children.
#[derive(Debug)]
pub struct HtmlElement {
    pub name: String,
    pub attrs: Vec<(String, String)>,
    pub children: Vec<HtmlNode>,
}

} // verus!
