//! One-hop link expansion. The links of a reduced tree are listed in
//! document order; the pages fetched for them are then attached, in the
//! same order, to the anchors they came from.
use vstd::prelude::*;
use crate::reduced::{Content, ContentView, DomNode, NodeView, TableData, content_view, contents_view};
use crate::table::strs_view;
use crate::html::{HtmlElement, HtmlNode};
use crate::reduce::{document_spec, lemma_contents_view_push, reduce_below, reduce_in, text_leaf};
use crate::table::table_spec;
use crate::config::{ReduceConfig, class_with};
use crate::tags::{TagClass, lower_of};
use crate::text::normalize_spec;
use crate::tags::same_text;

verus! {

broadcast use vstd::std_specs::vec::group_vec_axioms, vstd::seq::group_seq_axioms;

/// Whether `n` is an anchor with a link target.
pub open spec fn is_link_node(n: NodeView) -> bool {
    n.tag == Some("a"@) && n.href is Some
}

/// The link targets of the anchors in `c` and below it, in document order;
/// attached subpages are not looked into.
pub open spec fn links_of(c: ContentView) -> Seq<Seq<char>>
    decreases c,
{
    match c {
        ContentView::Node(n) => (if is_link_node(n) {
            seq![n.href->0]
        } else {
            Seq::empty()
        }) + links_in(n.children),
        ContentView::Table(_) => Seq::empty(),
    }
}

/// The link targets of the anchors in `s` and below, in document order.
pub open spec fn links_in(s: Seq<ContentView>) -> Seq<Seq<char>>
    decreases s,
{
    if s.len() == 0 {
        Seq::empty()
    } else {
        links_in(s.drop_last()) + links_of(s.last())
    }
}

/// `c` with the pages `p` attached to its anchors in document order: each
/// anchor with a link target takes the next page, or none where that is
/// absent; nothing else changes.
pub open spec fn attach(c: ContentView, p: Seq<Option<ContentView>>) -> ContentView
    decreases c,
{
    match c {
        ContentView::Node(n) => ContentView::Node(
            NodeView {
                tag: n.tag,
                href: n.href,
                text: n.text,
                children: attach_in(n.children, if is_link_node(n) { p.skip(1) } else { p }),
                subpage: if is_link_node(n) {
                    match p[0] {
                        Some(v) => Some(Box::new(v)),
                        None => None,
                    }
                } else {
                    n.subpage
                },
            },
        ),
        ContentView::Table(t) => c,
    }
}

/// The entries `s` with the pages `p` attached in document order.
pub open spec fn attach_in(s: Seq<ContentView>, p: Seq<Option<ContentView>>) -> Seq<ContentView>
    decreases s,
{
    if s.len() == 0 {
        Seq::empty()
    } else {
        attach_in(s.drop_last(), p).push(
            attach(s.last(), p.skip(links_in(s.drop_last()).len() as int)),
        )
    }
}

pub open spec fn page_view(o: Option<Content>) -> Option<ContentView> {
    match o {
        Some(c) => Some(content_view(c)),
        None => None,
    }
}

pub open spec fn pages_view(v: Seq<Option<Content>>) -> Seq<Option<ContentView>> {
    v.map_values(|o: Option<Content>| page_view(o))
}

/// The view of a sequence of entries is the sequence of their views.
pub proof fn lemma_contents_view_index(s: Seq<Content>)
    ensures
        contents_view(s).len() == s.len(),
        forall|j: int| 0 <= j < s.len() ==> #[trigger] contents_view(s)[j] == content_view(s[j]),
    decreases s.len(),
{
    if s.len() > 0 {
        lemma_contents_view_index(s.drop_last());
    }
}

/// The links of two sequences one after the other.
pub proof fn lemma_links_in_concat(a: Seq<ContentView>, b: Seq<ContentView>)
    ensures
        links_in(a + b) == links_in(a) + links_in(b),
    decreases b.len(),
{
    if b.len() == 0 {
        assert(a + b =~= a);
        assert(links_in(a) + links_in(b) =~= links_in(a));
    } else {
        lemma_links_in_concat(a, b.drop_last());
        assert((a + b).drop_last() =~= a + b.drop_last());
        assert((a + b).last() == b.last());
        assert(links_in(a + b) =~= links_in(a) + links_in(b));
    }
}

/// The number of entries in `c` and below it, `c` included.
pub open spec fn size_of(c: ContentView) -> nat
    decreases c,
{
    match c {
        ContentView::Node(n) => 1 + size_in(n.children),
        ContentView::Table(_) => 1,
    }
}

/// The number of entries in `s` and below.
pub open spec fn size_in(s: Seq<ContentView>) -> nat
    decreases s,
{
    if s.len() == 0 {
        0
    } else {
        size_in(s.drop_last()) + size_of(s.last())
    }
}

/// The entries of a traversal stack in the order they are popped.
pub open spec fn pending(st: Seq<&Content>) -> Seq<ContentView>
    decreases st.len(),
{
    if st.len() == 0 {
        Seq::empty()
    } else {
        seq![content_view(*st.last())] + pending(st.drop_last())
    }
}

/// The sizes of two sequences one after the other.
pub proof fn lemma_size_in_concat(a: Seq<ContentView>, b: Seq<ContentView>)
    ensures
        size_in(a + b) == size_in(a) + size_in(b),
    decreases b.len(),
{
    if b.len() == 0 {
        assert(a + b =~= a);
    } else {
        lemma_size_in_concat(a, b.drop_last());
        assert((a + b).drop_last() =~= a + b.drop_last());
        assert((a + b).last() == b.last());
    }
}

proof fn lemma_single(v: ContentView)
    ensures
        links_in(seq![v]) == links_of(v),
        size_in(seq![v]) == size_of(v),
{
    assert(seq![v].drop_last() =~= Seq::<ContentView>::empty());
    assert(links_in(Seq::<ContentView>::empty()) + links_of(v) =~= links_of(v));
    assert(seq![v].last() == v);
    assert(size_in(Seq::<ContentView>::empty()) == 0);
}

/// The link targets of the anchors in `root`, in document order: the
/// targets that the pages handed to `expand_one_hop` answer. The tree is
/// walked with an explicit stack; record sets are not looked into.
pub fn collect_links(root: &Content) -> (r: Vec<String>)
    ensures
        strs_view(r@) == links_of(content_view(*root)),
{
    let mut out: Vec<String> = Vec::new();
    let mut stack: Vec<&Content> = Vec::new();
    stack.push(root);
    proof {
        assert(stack@.drop_last() =~= Seq::<&Content>::empty());
        assert(stack@.last() == root);
        assert(pending(Seq::<&Content>::empty()) == Seq::<ContentView>::empty());
        assert(pending(stack@) =~= seq![content_view(*root)]);
        lemma_single(content_view(*root));
        assert(strs_view(out@) + links_of(content_view(*root)) =~= links_of(content_view(*root)));
    }
    while stack.len() > 0
        invariant
            strs_view(out@) + links_in(pending(stack@)) == links_of(content_view(*root)),
        decreases size_in(pending(stack@)),
    {
        let ghost old_stack = stack@;
        let ghost old_out = out@;
        let c = stack.pop().unwrap();
        let ghost rest = pending(stack@);
        proof {
            assert(old_stack.drop_last() =~= stack@);
            assert(pending(old_stack) == seq![content_view(*c)] + rest);
            lemma_links_in_concat(seq![content_view(*c)], rest);
            lemma_size_in_concat(seq![content_view(*c)], rest);
            lemma_single(content_view(*c));
        }
        match c {
            Content::Table(_) => {
                assert(strs_view(out@) + links_in(pending(stack@)) =~= links_of(content_view(*root)));
            },
            Content::Node(n) => {
                let ghost cv = contents_view(n.children@);
                proof {
                    lemma_contents_view_index(n.children@);
                }
                let is_link = match &n.tag {
                    Some(t) => same_text(t.as_str(), "a"),
                    None => false,
                };
                if is_link {
                    if let Some(h) = &n.href {
                        out.push(h.clone());
                    }
                }
                assert(strs_view(out@) =~= strs_view(old_out) + (if is_link_node(
                    content_view(*c)->Node_0,
                ) {
                    seq![content_view(*c)->Node_0.href->0]
                } else {
                    Seq::empty()
                }));
                let mut j: usize = n.children.len();
                assert(cv.subrange(j as int, cv.len() as int) =~= Seq::<ContentView>::empty());
                assert(pending(stack@) =~= cv.subrange(j as int, cv.len() as int) + rest);
                while j > 0
                    invariant
                        j <= n.children@.len(),
                        cv.len() == n.children@.len(),
                        forall|k: int|
                            0 <= k < n.children@.len() ==> #[trigger] cv[k] == content_view(
                                n.children@[k],
                            ),
                        pending(stack@) == cv.subrange(j as int, cv.len() as int) + rest,
                    decreases j,
                {
                    let ghost before = stack@;
                    stack.push(&n.children[j - 1]);
                    assert(stack@.drop_last() =~= before);
                    assert(pending(stack@) =~= cv.subrange(j - 1, cv.len() as int) + rest);
                    j = j - 1;
                }
                proof {
                    assert(cv.subrange(0, cv.len() as int) =~= cv);
                    lemma_links_in_concat(cv, rest);
                    lemma_size_in_concat(cv, rest);
                }
                assert(strs_view(out@) + links_in(pending(stack@)) =~= links_of(content_view(*root)));
            },
        }
    }
    assert(pending(stack@) =~= Seq::<ContentView>::empty());
    assert(strs_view(out@) + links_in(Seq::<ContentView>::empty()) =~= strs_view(out@));
    out
}

/// Whether every node of `c` that holds a subpage is an anchor.
pub open spec fn subpages_on_anchors(c: ContentView) -> bool
    decreases c,
{
    match c {
        ContentView::Node(n) => (n.subpage is Some ==> n.tag == Some("a"@))
            && subpages_on_anchors_in(n.children),
        ContentView::Table(_) => true,
    }
}

/// Whether every node in `s` and below that holds a subpage is an anchor.
pub open spec fn subpages_on_anchors_in(s: Seq<ContentView>) -> bool
    decreases s,
{
    s.len() == 0 || (subpages_on_anchors_in(s.drop_last()) && subpages_on_anchors(s.last()))
}

/// Expansion never gives a subpage to a node that is not an anchor: where
/// only anchors held subpages before, only anchors hold them after, for any
/// pages.
pub proof fn lemma_expansion_fills_anchors_only(c: ContentView, p: Seq<Option<ContentView>>)
    requires
        subpages_on_anchors(c),
    ensures
        subpages_on_anchors(attach(c, p)),
    decreases c,
{
    if let ContentView::Node(n) = c {
        lemma_expansion_fills_anchors_only_in(
            n.children,
            if is_link_node(n) {
                p.skip(1)
            } else {
                p
            },
        );
    }
}

/// The sequence form of `lemma_expansion_fills_anchors_only`.
pub proof fn lemma_expansion_fills_anchors_only_in(s: Seq<ContentView>, p: Seq<Option<ContentView>>)
    requires
        subpages_on_anchors_in(s),
    ensures
        subpages_on_anchors_in(attach_in(s, p)),
    decreases s,
{
    if s.len() > 0 {
        lemma_expansion_fills_anchors_only_in(s.drop_last(), p);
        lemma_expansion_fills_anchors_only(s.last(), p.skip(links_in(s.drop_last()).len() as int));
        let r = attach_in(s, p);
        assert(r.drop_last() =~= attach_in(s.drop_last(), p));
    }
}

/// Whether `r` is `o` with at most the subpages of anchors that have a
/// link target changed: every other node keeps its subpage, and tags, link
/// targets, texts, record sets and the shape of the tree stay as they are.
pub open spec fn keeps_other_subpages(o: ContentView, r: ContentView) -> bool
    decreases o,
{
    match o {
        ContentView::Node(on) => r is Node && r->Node_0.tag == on.tag && r->Node_0.href == on.href
            && r->Node_0.text == on.text && (!is_link_node(on) ==> r->Node_0.subpage
            == on.subpage) && keeps_other_subpages_in(on.children, r->Node_0.children),
        ContentView::Table(_) => r == o,
    }
}

/// The sequence form of `keeps_other_subpages`, entry by entry.
pub open spec fn keeps_other_subpages_in(a: Seq<ContentView>, b: Seq<ContentView>) -> bool
    decreases a,
{
    a.len() == b.len() && (a.len() == 0 || (keeps_other_subpages_in(a.drop_last(), b.drop_last())
        && keeps_other_subpages(a.last(), b.last())))
}

/// Expansion changes no subpage but those of anchors with a link target,
/// for any tree and any pages: a node whose tag is not the anchor tag keeps
/// the subpage it had.
pub proof fn lemma_expansion_keeps_other_subpages(c: ContentView, p: Seq<Option<ContentView>>)
    ensures
        keeps_other_subpages(c, attach(c, p)),
    decreases c,
{
    if let ContentView::Node(n) = c {
        lemma_expansion_keeps_other_subpages_in(
            n.children,
            if is_link_node(n) {
                p.skip(1)
            } else {
                p
            },
        );
    }
}

/// The sequence form of `lemma_expansion_keeps_other_subpages`.
pub proof fn lemma_expansion_keeps_other_subpages_in(
    s: Seq<ContentView>,
    p: Seq<Option<ContentView>>,
)
    ensures
        keeps_other_subpages_in(s, attach_in(s, p)),
    decreases s,
{
    if s.len() > 0 {
        lemma_expansion_keeps_other_subpages_in(s.drop_last(), p);
        lemma_expansion_keeps_other_subpages(
            s.last(),
            p.skip(links_in(s.drop_last()).len() as int),
        );
        let r = attach_in(s, p);
        assert(r.drop_last() =~= attach_in(s.drop_last(), p));
    }
}

proof fn lemma_anchors_in_concat(a: Seq<ContentView>, b: Seq<ContentView>)
    requires
        subpages_on_anchors_in(a),
        subpages_on_anchors_in(b),
    ensures
        subpages_on_anchors_in(a + b),
    decreases b.len(),
{
    if b.len() == 0 {
        assert(a + b =~= a);
    } else {
        lemma_anchors_in_concat(a, b.drop_last());
        assert((a + b).drop_last() =~= a + b.drop_last());
        assert((a + b).last() == b.last());
    }
}

proof fn lemma_anchors_in_single(v: ContentView)
    requires
        subpages_on_anchors(v),
    ensures
        subpages_on_anchors_in(seq![v]),
{
    assert(seq![v].drop_last() =~= Seq::<ContentView>::empty());
    assert(seq![v].last() == v);
    assert(subpages_on_anchors_in(Seq::<ContentView>::empty()));
    assert(subpages_on_anchors_in(seq![v]) == (subpages_on_anchors_in(seq![v].drop_last())
        && subpages_on_anchors(seq![v].last())));
}

/// A reduction holds no subpage at all, so only anchors hold one.
pub proof fn lemma_reduction_has_no_subpages(cfg: ReduceConfig, s: Seq<HtmlNode>)
    ensures
        subpages_on_anchors_in(reduce_in(cfg, s)),
    decreases s,
{
    if s.len() > 0 {
        lemma_reduction_has_no_subpages(cfg, s.drop_last());
        match s.last() {
            HtmlNode::Element(e) => {
                lemma_reduction_has_no_subpages(cfg, e.children@);
                let tag = lower_of(e.name@);
                match class_with(cfg, tag) {
                    TagClass::Skip => {},
                    TagClass::Table => {
                        lemma_anchors_in_single(ContentView::Table(table_spec(e)));
                    },
                    TagClass::Retain => {
                        lemma_anchors_in_single(reduce_below(cfg, s.last())[0]);
                        assert(reduce_below(cfg, s.last()) =~= seq![reduce_below(cfg, s.last())[0]]);
                    },
                    TagClass::Transparent => {},
                }
            },
            HtmlNode::Text(t) => {
                if let Some(c) = normalize_spec(t@) {
                    assert(subpages_on_anchors_in(Seq::<ContentView>::empty()));
                    lemma_anchors_in_single(text_leaf(c));
                }
            },
            HtmlNode::Other => {},
        }
        lemma_anchors_in_concat(reduce_in(cfg, s.drop_last()), reduce_below(cfg, s.last()));
    }
}

/// Expanding a reduced document gives subpages to anchors only, whatever
/// pages are attached.
pub proof fn lemma_expanded_document_anchors_only(
    cfg: ReduceConfig,
    root: Option<HtmlElement>,
    p: Seq<Option<ContentView>>,
)
    ensures
        subpages_on_anchors(attach(document_spec(cfg, root), p)),
{
    match root {
        Some(e) => lemma_reduction_has_no_subpages(cfg, e.children@),
        None => {
            assert(subpages_on_anchors_in(Seq::<ContentView>::empty()));
        },
    }
    lemma_expansion_fills_anchors_only(document_spec(cfg, root), p);
}

/// `c` with the pages at the front of `pages` attached to its anchors in
/// document order; those pages leave `pages`.
fn attach_node(c: Content, pages: &mut Vec<Option<Content>>) -> (r: Content)
    requires
        old(pages)@.len() >= links_of(content_view(c)).len(),
    ensures
        content_view(r) == attach(content_view(c), pages_view(old(pages)@)),
        final(pages)@ == old(pages)@.skip(links_of(content_view(c)).len() as int),
    decreases c,
{
    let ghost c0 = c;
    match c {
        Content::Table(t) => {
            assert(pages@ =~= old(pages)@.skip(0));
            Content::Table(t)
        },
        Content::Node(n) => {
            let ghost nv = content_view(c0)->Node_0;
            let ghost orig = n.children@;
            let ghost cv = contents_view(orig);
            proof {
                lemma_contents_view_index(orig);
            }
            let DomNode { tag, href, text, children, link_subpage } = n;
            let is_link = match &tag {
                Some(t) => same_text(t.as_str(), "a"),
                None => false,
            } && match &href {
                Some(_) => true,
                None => false,
            };
            assert(is_link == is_link_node(nv));
            let ghost p0 = pages_view(pages@);
            let ghost own: int = if is_link { 1 } else { 0 };
            let sub = if is_link {
                match pages.remove(0) {
                    Some(x) => Some(Box::new(x)),
                    None => None,
                }
            } else {
                link_subpage
            };
            let ghost start = pages@;
            assert(start =~= old(pages)@.skip(own));
            let ghost p1 = pages_view(start);
            assert(p1 =~= if is_link { p0.skip(1) } else { p0 });
            assert(links_of(content_view(c0)).len() == own + links_in(cv).len());
            let mut children = children;
            let mut result: Vec<Content> = Vec::new();
            let n_ch = children.len();
            let mut i: usize = 0;
            assert(cv.subrange(0, 0) =~= Seq::<ContentView>::empty());
            assert(start =~= start.skip(0));
            assert(contents_view(result@) =~= Seq::<ContentView>::empty());
            while i < n_ch
                invariant
                    c0 == c,
                    c0 is Node,
                    c0->Node_0.children@ == orig,
                    i <= n_ch,
                    n_ch == orig.len(),
                    cv == contents_view(orig),
                    cv.len() == orig.len(),
                    forall|j: int| 0 <= j < orig.len() ==> #[trigger] cv[j] == content_view(orig[j]),
                    children@ == orig.subrange(i as int, n_ch as int),
                    contents_view(result@) == attach_in(cv.subrange(0, i as int), p1),
                    pages@ == start.skip(links_in(cv.subrange(0, i as int)).len() as int),
                    links_in(cv).len() <= start.len(),
                    p1 == pages_view(start),
                decreases n_ch - i,
            {
                let ghost cur = cv.subrange(0, i + 1);
                let ghost pre = cv.subrange(0, i as int);
                assert(cur.drop_last() =~= pre);
                assert(cur.last() == cv[i as int]);
                proof {
                    lemma_links_in_concat(cur, cv.subrange(i + 1, n_ch as int));
                    assert(cur + cv.subrange(i + 1, n_ch as int) =~= cv);
                }
                let ghost before_pages = pages@;
                let child = children.remove(0);
                assert(child == orig[i as int]);
                proof {
                    assert(decreases_to!(c0 => c0->Node_0));
                    assert(decreases_to!(c0->Node_0 => c0->Node_0.children));
                    assert(decreases_to!(c0->Node_0.children => c0->Node_0.children[i as int]));
                    assert(c0->Node_0.children[i as int] == child);
                    assert(decreases_to!(c0 => child));
                }
                let done = attach_node(child, pages);
                assert(pages_view(before_pages) =~= p1.skip(links_in(pre).len() as int));
                proof {
                    lemma_contents_view_push(result@, done);
                }
                result.push(done);
                assert(contents_view(result@) == attach_in(cur, p1));
                assert(pages@ =~= start.skip(links_in(cur).len() as int));
                assert(children@ =~= orig.subrange(i + 1, n_ch as int));
                i = i + 1;
            }
            assert(cv.subrange(0, n_ch as int) =~= cv);
            let r = Content::Node(
                DomNode { tag, href, text, children: result, link_subpage: sub },
            );
            assert(pages@ =~= old(pages)@.skip(links_of(content_view(c0)).len() as int));
            r
        },
    }
}

/// Attaches to each anchor of `root` that has a link target the page at
/// its place in `pages`, which answers `collect_links(root)` one for one: a
/// reduced page, or `None` where the link was not followed or its fetch
/// failed. Nothing else in the tree changes, and attached pages are not
/// expanded themselves.
pub fn expand_one_hop(root: &mut Content, pages: Vec<Option<Content>>)
    requires
        pages@.len() == links_of(content_view(*old(root))).len(),
    ensures
        content_view(*final(root)) == attach(content_view(*old(root)), pages_view(pages@)),
{
    let mut taken = Content::Table(TableData { table_headers: Vec::new(), rows: Vec::new() });
    std::mem::swap(root, &mut taken);
    let mut pages = pages;
    let done = attach_node(taken, &mut pages);
    *root = done;
}

} // verus!
