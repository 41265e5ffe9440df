//! A batch of addresses: the list taken from the submitted text, and the
//! result of each item, where a failed item yields an error node and leaves
//! the others alone.
use vstd::prelude::*;
use vstd::string::StringExecFns;
use crate::reduced::{Content, ContentView, DomNode, NodeView, content_view, contents_view};
use crate::table::strs_view;
use crate::text::{trim_str, trim_ws};

verus! {

broadcast use vstd::std_specs::vec::group_vec_axioms, vstd::seq::group_seq_axioms;

/// The lines of `s` taken so far, and the line being read: carriage returns
/// are dropped, a newline ends a line, and a line that is empty once trimmed
/// is not kept.
pub open spec fn lines_fold(s: Seq<char>) -> (Seq<Seq<char>>, Seq<char>)
    decreases s.len(),
{
    if s.len() == 0 {
        (Seq::empty(), Seq::empty())
    } else {
        let prev = lines_fold(s.drop_last());
        let c = s.last();
        if c == '\r' {
            prev
        } else if c == '\n' {
            (
                if trim_ws(prev.1).len() > 0 {
                    prev.0.push(trim_ws(prev.1))
                } else {
                    prev.0
                },
                Seq::empty(),
            )
        } else {
            (prev.0, prev.1.push(c))
        }
    }
}

/// The addresses listed in `s`: one per line, trimmed, blank lines left out.
pub open spec fn url_lines(s: Seq<char>) -> Seq<Seq<char>> {
    let f = lines_fold(s);
    if trim_ws(f.1).len() > 0 {
        f.0.push(trim_ws(f.1))
    } else {
        f.0
    }
}

/// Appends the trimmed `line` to `lines` unless it is blank.
fn keep_line(lines: &mut Vec<String>, line: &String)
    ensures
        strs_view(final(lines)@) == if trim_ws(line@).len() > 0 {
            strs_view(old(lines)@).push(trim_ws(line@))
        } else {
            strs_view(old(lines)@)
        },
{
    let t = trim_str(line.as_str());
    if t.unicode_len() > 0 {
        lines.push(<String as StringExecFns>::from_str(t));
        assert(strs_view(lines@) =~= strs_view(old(lines)@).push(trim_ws(line@)));
    }
}

/// The addresses listed one per line in `text`, trimmed, blank lines and
/// carriage returns left out.
pub fn split_url_lines(text: &str) -> (r: Vec<String>)
    ensures
        strs_view(r@) == url_lines(text@),
{
    let n = text.unicode_len();
    let mut lines: Vec<String> = Vec::new();
    let mut cur = String::new();
    let mut i: usize = 0;
    assert(text@.subrange(0, 0) =~= Seq::<char>::empty());
    assert(strs_view(lines@) =~= Seq::<Seq<char>>::empty());
    while i < n
        invariant
            n == text@.len(),
            i <= n,
            lines_fold(text@.subrange(0, i as int)) == (strs_view(lines@), cur@),
        decreases n - i,
    {
        let c = text.get_char(i);
        let ghost cur_seq = text@.subrange(0, i + 1);
        assert(cur_seq.drop_last() =~= text@.subrange(0, i as int));
        assert(cur_seq.last() == c);
        if c == '\r' {
        } else if c == '\n' {
            keep_line(&mut lines, &cur);
            cur = String::new();
        } else {
            cur.append(text.substring_char(i, i + 1));
            assert(text@.subrange(i as int, i + 1) =~= seq![c]);
        }
        assert(lines_fold(cur_seq).1 =~= cur@);
        i = i + 1;
    }
    assert(text@.subrange(0, n as int) =~= text@);
    keep_line(&mut lines, &cur);
    lines
}

/// Why an item of a batch produced no page.
#[derive(Clone, Copy, Debug, PartialEq, Eq, Structural)]
pub enum ErrorKind {
    /// The address could not be parsed.
    UrlParse,
    /// The request for the page failed.
    Request,
    /// The body of the response could not be read.
    ReadBody,
    /// The worker that reduces the page failed.
    Worker,
}

/// The outcome of one item of a batch.
#[derive(Debug)]
pub enum ItemOutcome {
    /// The reduced page.
    Page(Content),
    /// The failure, with its kind and a description.
    Failed(ErrorKind, String),
}

/// The tag of the error node of a failure of kind `k`.
pub open spec fn error_tag(k: ErrorKind) -> Seq<char> {
    match k {
        ErrorKind::UrlParse => "ErrorURL"@,
        ErrorKind::Request => "ErrorFetch"@,
        ErrorKind::ReadBody => "ErrorFetch"@,
        ErrorKind::Worker => "ErrorSpawnBlock"@,
    }
}

/// The text that leads the description in the error node of a failure of
/// kind `k`.
pub open spec fn error_prefix(k: ErrorKind) -> Seq<char> {
    match k {
        ErrorKind::UrlParse => "URL parse error: "@,
        ErrorKind::Request => "Request error: "@,
        ErrorKind::ReadBody => "Error reading response: "@,
        ErrorKind::Worker => "spawn_blocking error: "@,
    }
}

/// The error node of a failure of kind `k` described by `detail`.
pub open spec fn error_view(k: ErrorKind, detail: Seq<char>) -> ContentView {
    ContentView::Node(
        NodeView {
            tag: Some(error_tag(k)),
            href: None,
            text: Some(error_prefix(k) + detail),
            children: Seq::empty(),
            subpage: None,
        },
    )
}

/// The entry that the outcome `o` yields in the batch's result.
pub open spec fn outcome_view(o: ItemOutcome) -> ContentView {
    match o {
        ItemOutcome::Page(c) => content_view(c),
        ItemOutcome::Failed(k, d) => error_view(k, d@),
    }
}

/// The error node of a failure of kind `kind` described by `detail`.
pub fn error_node(kind: ErrorKind, detail: &str) -> (r: Content)
    ensures
        content_view(r) == error_view(kind, detail@),
{
    let (tag, prefix) = match kind {
        ErrorKind::UrlParse => ("ErrorURL", "URL parse error: "),
        ErrorKind::Request => ("ErrorFetch", "Request error: "),
        ErrorKind::ReadBody => ("ErrorFetch", "Error reading response: "),
        ErrorKind::Worker => ("ErrorSpawnBlock", "spawn_blocking error: "),
    };
    let mut text = <String as StringExecFns>::from_str(prefix);
    text.append(detail);
    let r = Content::Node(
        DomNode {
            tag: Some(<String as StringExecFns>::from_str(tag)),
            href: None,
            text: Some(text),
            children: Vec::new(),
            link_subpage: None,
        },
    );
    assert(contents_view(Seq::<Content>::empty()) =~= Seq::empty());
    r
}

/// The result of a batch, one entry per item in order: the page of an item
/// that succeeded, the error node of one that failed. A failed item changes
/// no other item's entry.
pub fn batch_results(outcomes: Vec<ItemOutcome>) -> (r: Vec<Content>)
    ensures
        r@.len() == outcomes@.len(),
        forall|i: int|
            0 <= i < outcomes@.len() ==> #[trigger] content_view(r@[i]) == outcome_view(
                outcomes@[i],
            ),
{
    let ghost orig = outcomes@;
    let mut outcomes = outcomes;
    let n = outcomes.len();
    let mut r: Vec<Content> = Vec::new();
    let mut i: usize = 0;
    while i < n
        invariant
            n == orig.len(),
            i <= n,
            outcomes@ == orig.subrange(i as int, n as int),
            r@.len() == i,
            forall|j: int| 0 <= j < i ==> #[trigger] content_view(r@[j]) == outcome_view(orig[j]),
        decreases n - i,
    {
        let o = outcomes.remove(0);
        assert(o == orig[i as int]);
        let item = match o {
            ItemOutcome::Page(c) => c,
            ItemOutcome::Failed(k, d) => error_node(k, d.as_str()),
        };
        r.push(item);
        assert(outcomes@ =~= orig.subrange(i + 1, n as int));
        i = i + 1;
    }
    r
}

} // verus!
