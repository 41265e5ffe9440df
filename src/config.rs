//! The options of a reduction: which tags are kept, skipped or read as a
//! table, which link schemes are followed, and whether links are followed.
use vstd::prelude::*;
use vstd::string::StringExecFns;
use crate::table::strs_view;
use crate::tags::{TagClass, class_of, is_retain_name, is_skip_name, same_text};

verus! {

broadcast use vstd::std_specs::vec::group_vec_axioms, vstd::seq::group_seq_axioms;

/// The options of a reduction. Tag names are compared in lower case.
#[derive(Debug)]
pub struct ReduceConfig {
    /// The tags for which a node is emitted.
    pub retain_tags: Vec<String>,
    /// The tags whose elements are dropped with everything below them.
    pub skip_tags: Vec<String>,
    /// The tag whose elements are read as tables.
    pub table_tag: String,
    /// Whether the links of a page are followed one hop.
    pub expand_subpages: bool,
    /// The schemes of the links that are followed.
    pub allowed_link_schemes: Vec<String>,
}

/// The class of the lower-cased tag name `t` under `cfg`; a name that is
/// both skipped and kept is skipped.
pub open spec fn class_with(cfg: ReduceConfig, t: Seq<char>) -> TagClass {
    if strs_view(cfg.skip_tags@).contains(t) {
        TagClass::Skip
    } else if t == cfg.table_tag@ {
        TagClass::Table
    } else if strs_view(cfg.retain_tags@).contains(t) {
        TagClass::Retain
    } else {
        TagClass::Transparent
    }
}

/// Whether links of the scheme `s` are followed under `cfg`.
pub open spec fn scheme_allowed(cfg: ReduceConfig, s: Seq<char>) -> bool {
    strs_view(cfg.allowed_link_schemes@).contains(s)
}

/// The standard skipped tags, kept tags and followed schemes.
pub open spec fn standard_skip() -> Seq<Seq<char>> {
    seq![
        "script"@,
        "style"@,
        "meta"@,
        "link"@,
        "noscript"@,
        "svg"@,
        "iframe"@,
        "nav"@,
        "footer"@,
        "header"@,
    ]
}

pub open spec fn standard_retain() -> Seq<Seq<char>> {
    seq!["h1"@, "h2"@, "h3"@, "h4"@, "h5"@, "h6"@, "p"@, "ul"@, "ol"@, "li"@, "a"@]
}

pub open spec fn standard_schemes() -> Seq<Seq<char>> {
    seq!["http"@, "https"@]
}

/// Whether `cfg` holds the standard options, links not followed.
pub open spec fn is_standard(cfg: ReduceConfig) -> bool {
    &&& strs_view(cfg.skip_tags@) == standard_skip()
    &&& strs_view(cfg.retain_tags@) == standard_retain()
    &&& cfg.table_tag@ == "table"@
    &&& strs_view(cfg.allowed_link_schemes@) == standard_schemes()
    &&& !cfg.expand_subpages
}

/// Under the standard options a tag is classified as `class_of` says.
pub proof fn lemma_standard_classes(cfg: ReduceConfig, t: Seq<char>)
    requires
        is_standard(cfg),
    ensures
        class_with(cfg, t) == class_of(t),
{
    let sk = standard_skip();
    let re = standard_retain();
    if is_skip_name(t) {
        if t == "script"@ { assert(sk[0] == t); }
        if t == "style"@ { assert(sk[1] == t); }
        if t == "meta"@ { assert(sk[2] == t); }
        if t == "link"@ { assert(sk[3] == t); }
        if t == "noscript"@ { assert(sk[4] == t); }
        if t == "svg"@ { assert(sk[5] == t); }
        if t == "iframe"@ { assert(sk[6] == t); }
        if t == "nav"@ { assert(sk[7] == t); }
        if t == "footer"@ { assert(sk[8] == t); }
        if t == "header"@ { assert(sk[9] == t); }
    } else {
        assert(!sk.contains(t));
    }
    if is_retain_name(t) {
        if t == "h1"@ { assert(re[0] == t); }
        if t == "h2"@ { assert(re[1] == t); }
        if t == "h3"@ { assert(re[2] == t); }
        if t == "h4"@ { assert(re[3] == t); }
        if t == "h5"@ { assert(re[4] == t); }
        if t == "h6"@ { assert(re[5] == t); }
        if t == "p"@ { assert(re[6] == t); }
        if t == "ul"@ { assert(re[7] == t); }
        if t == "ol"@ { assert(re[8] == t); }
        if t == "li"@ { assert(re[9] == t); }
        if t == "a"@ { assert(re[10] == t); }
    } else {
        assert(!re.contains(t));
    }
}

/// Whether `list` holds `t`.
pub fn list_has(list: &Vec<String>, t: &str) -> (r: bool)
    ensures
        r == strs_view(list@).contains(t@),
{
    let mut i: usize = 0;
    while i < list.len()
        invariant
            i <= list@.len(),
            forall|j: int| 0 <= j < i ==> #[trigger] list@[j]@ != t@,
        decreases list@.len() - i,
    {
        if same_text(list[i].as_str(), t) {
            assert(strs_view(list@)[i as int] == t@);
            return true;
        }
        i = i + 1;
    }
    assert forall|j: int| 0 <= j < strs_view(list@).len() implies #[trigger] strs_view(list@)[j]
        != t@ by {
        assert(list@[j]@ != t@);
    }
    false
}

fn strings_of(items: &[&str]) -> (r: Vec<String>)
    ensures
        strs_view(r@) == items@.map_values(|s: &str| s@),
{
    let mut r: Vec<String> = Vec::new();
    let mut i: usize = 0;
    while i < items.len()
        invariant
            i <= items@.len(),
            strs_view(r@) == items@.subrange(0, i as int).map_values(|s: &str| s@),
        decreases items@.len() - i,
    {
        let ghost before = strs_view(r@);
        let ghost raw = r@;
        assert(before.len() == i);
        let item = <String as StringExecFns>::from_str(items[i]);
        assert(item@ == items@[i as int]@);
        r.push(item);
        assert(r@ == raw.push(item));
        assert(strs_view(r@).len() == i + 1);
        assert forall|j: int| 0 <= j < i + 1 implies #[trigger] strs_view(r@)[j] == items@.subrange(
            0,
            i + 1,
        ).map_values(|s: &str| s@)[j] by {
            if j < i {
                assert(strs_view(r@)[j] == before[j]);
            }
        }
        assert(strs_view(r@) =~= items@.subrange(0, i + 1).map_values(|s: &str| s@));
        i = i + 1;
    }
    assert(items@.subrange(0, items@.len() as int) =~= items@);
    r
}

impl ReduceConfig {
    /// The standard options: h1 to h6, p, ul, ol, li and a kept; script,
    /// style, meta, link, noscript, svg, iframe, nav, footer and header
    /// skipped; tables read from `table`; http and https followed; links not
    /// followed.
    pub fn standard() -> (r: ReduceConfig)
        ensures
            is_standard(r),
    {
        let skip = ["script", "style", "meta", "link", "noscript", "svg", "iframe", "nav", "footer", "header"];
        let retain = ["h1", "h2", "h3", "h4", "h5", "h6", "p", "ul", "ol", "li", "a"];
        let schemes = ["http", "https"];
        let r = ReduceConfig {
            retain_tags: strings_of(&retain),
            skip_tags: strings_of(&skip),
            table_tag: <String as StringExecFns>::from_str("table"),
            expand_subpages: false,
            allowed_link_schemes: strings_of(&schemes),
        };
        assert(strs_view(r.skip_tags@) =~= standard_skip());
        assert(strs_view(r.retain_tags@) =~= standard_retain());
        assert(strs_view(r.allowed_link_schemes@) =~= standard_schemes());
        r
    }
}

/// The class of the lower-cased tag name `tag_name` under `cfg`.
pub fn classify_with(cfg: &ReduceConfig, tag_name: &str) -> (r: TagClass)
    ensures
        r == class_with(*cfg, tag_name@),
{
    if list_has(&cfg.skip_tags, tag_name) {
        TagClass::Skip
    } else if same_text(tag_name, cfg.table_tag.as_str()) {
        TagClass::Table
    } else if list_has(&cfg.retain_tags, tag_name) {
        TagClass::Retain
    } else {
        TagClass::Transparent
    }
}

/// Whether links of the scheme `scheme` are followed under `cfg`.
pub fn allows_scheme(cfg: &ReduceConfig, scheme: &str) -> (r: bool)
    ensures
        r == scheme_allowed(*cfg, scheme@),
{
    list_has(&cfg.allowed_link_schemes, scheme)
}

} // verus!
