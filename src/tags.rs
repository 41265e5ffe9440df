//! Classification of element tag names.
use vstd::prelude::*;

verus! {

/// What the reducer does with an element, by its tag name.
#[derive(Clone, Copy, Debug, PartialEq, Eq, Structural)]
pub enum TagClass {
    /// The element and everything below it are dropped.
    Skip,
    /// The element is turned into a record set.
    Table,
    /// A node is emitted for the element.
    Retain,
    /// No node is emitted for the element; its reduced children take its place.
    Transparent,
}

/// What `str::to_lowercase` returns for `s`.
pub uninterp spec fn lower_of(s: Seq<char>) -> Seq<char>;

/// Relies on `str::to_lowercase`: the result depends on the characters alone.
#[verifier::external_body]
pub(crate) fn to_lower(s: &str) -> (r: String)
    ensures
        r@ == lower_of(s@),
{
    s.to_lowercase()
}

/// Whether `a` and `b` hold the same characters.
pub fn same_text(a: &str, b: &str) -> (r: bool)
    ensures
        r == (a@ == b@),
{
    let n = a.unicode_len();
    if n != b.unicode_len() {
        return false;
    }
    let mut i: usize = 0;
    while i < n
        invariant
            n == a@.len(),
            n == b@.len(),
            i <= n,
            a@.subrange(0, i as int) == b@.subrange(0, i as int),
        decreases n - i,
    {
        if a.get_char(i) != b.get_char(i) {
            assert(a@[i as int] != b@[i as int]);
            return false;
        }
        assert(a@.subrange(0, i + 1) =~= a@.subrange(0, i as int).push(a@[i as int]));
        assert(b@.subrange(0, i + 1) =~= b@.subrange(0, i as int).push(b@[i as int]));
        i = i + 1;
    }
    assert(a@ =~= a@.subrange(0, n as int));
    assert(b@ =~= b@.subrange(0, n as int));
    true
}

/// The tag names whose elements are dropped with all their descendants.
pub open spec fn is_skip_name(t: Seq<char>) -> bool {
    t == "script"@ || t == "style"@ || t == "meta"@ || t == "link"@ || t == "noscript"@ || t
        == "svg"@ || t == "iframe"@ || t == "nav"@ || t == "footer"@ || t == "header"@
}

/// The structural tag names for which a node is emitted.
pub open spec fn is_retain_name(t: Seq<char>) -> bool {
    t == "h1"@ || t == "h2"@ || t == "h3"@ || t == "h4"@ || t == "h5"@ || t == "h6"@ || t
        == "p"@ || t == "ul"@ || t == "ol"@ || t == "li"@ || t == "a"@
}

/// The class of an already lower-cased tag name.
pub open spec fn class_of(t: Seq<char>) -> TagClass {
    if is_skip_name(t) {
        TagClass::Skip
    } else if t == "table"@ {
        TagClass::Table
    } else if is_retain_name(t) {
        TagClass::Retain
    } else {
        TagClass::Transparent
    }
}

/// Whether the lower-cased `tag_name` is one whose element is skipped.
pub fn skip_tag(tag_name: &str) -> (r: bool)
    ensures
        r == is_skip_name(tag_name@),
{
    same_text(tag_name, "script") || same_text(tag_name, "style") || same_text(tag_name, "meta")
        || same_text(tag_name, "link") || same_text(tag_name, "noscript") || same_text(
        tag_name,
        "svg",
    ) || same_text(tag_name, "iframe") || same_text(tag_name, "nav") || same_text(
        tag_name,
        "footer",
    ) || same_text(tag_name, "header")
}

/// Whether the lower-cased `tag_name` is one of the retained structural tags.
pub fn is_target_tag(tag_name: &str) -> (r: bool)
    ensures
        r == is_retain_name(tag_name@),
{
    same_text(tag_name, "h1") || same_text(tag_name, "h2") || same_text(tag_name, "h3")
        || same_text(tag_name, "h4") || same_text(tag_name, "h5") || same_text(tag_name, "h6")
        || same_text(tag_name, "p") || same_text(tag_name, "ul") || same_text(tag_name, "ol")
        || same_text(tag_name, "li") || same_text(tag_name, "a")
}

/// The class of the lower-cased `tag_name`.
pub fn classify_lower(tag_name: &str) -> (r: TagClass)
    ensures
        r == class_of(tag_name@),
{
    if skip_tag(tag_name) {
        TagClass::Skip
    } else if same_text(tag_name, "table") {
        TagClass::Table
    } else if is_target_tag(tag_name) {
        TagClass::Retain
    } else {
        TagClass::Transparent
    }
}

/// The class of `tag_name`, whatever its letter case.
pub fn classify(tag_name: &str) -> (r: TagClass)
    ensures
        r == class_of(lower_of(tag_name@)),
{
    let lower = to_lower(tag_name);
    classify_lower(lower.as_str())
}

} // verus!
