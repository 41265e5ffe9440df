//! Resolution of link targets against the page's address, and the choice
//! of which resolved links are followed.
use vstd::prelude::*;
use crate::config::{ReduceConfig, allows_scheme, scheme_allowed};
use crate::reduced::opt_view;
use crate::table::strs_view;

verus! {

broadcast use vstd::std_specs::vec::group_vec_axioms, vstd::seq::group_seq_axioms;

/// The serialization of the address that `url::Url::join` resolves `href`
/// to against the address `base`, or nothing where `base` does not parse
/// or `href` does not resolve.
pub uninterp spec fn joined_of(base: Seq<char>, href: Seq<char>) -> Option<Seq<char>>;

/// Relies on `url::Url::parse` of `base`, then `url::Url::join` of `href`
/// and `url::Url::as_str`: the resolved address as text, `None` on an error
/// of either call. The result depends on the two texts alone.
#[verifier::external_body]
fn join_href(base: &str, href: &str) -> (r: Option<String>)
    ensures
        opt_view(r) == joined_of(base@, href@),
{
    url::Url::parse(base).and_then(|b| b.join(href)).ok().map(|u| u.as_str().to_string())
}

/// The text of `u` before its first colon, all of `u` where it has none: for
/// the serialization of a URL, its scheme.
pub open spec fn scheme_prefix(u: Seq<char>) -> Seq<char>
    decreases u.len(),
{
    if u.len() == 0 {
        u
    } else if u[0] == ':' {
        Seq::empty()
    } else {
        seq![u[0]] + scheme_prefix(u.drop_first())
    }
}

/// The address that the link target `href` on the page at `base` is
/// followed at under `cfg`, if any.
pub open spec fn follow_target(cfg: ReduceConfig, base: Seq<char>, href: Seq<char>) -> Option<
    Seq<char>,
> {
    match joined_of(base, href) {
        Some(u) => if scheme_allowed(cfg, scheme_prefix(u)) {
            Some(u)
        } else {
            None
        },
        None => None,
    }
}

/// The scheme of the URL serialized as `u`: the text before its first colon.
pub fn url_scheme(u: &str) -> (r: &str)
    ensures
        r@ == scheme_prefix(u@),
{
    let n = u.unicode_len();
    let mut i: usize = 0;
    assert(u@.subrange(0, n as int) =~= u@);
    assert(u@.subrange(0, 0) + scheme_prefix(u@) =~= scheme_prefix(u@));
    while i < n
        invariant
            n == u@.len(),
            i <= n,
            scheme_prefix(u@) == u@.subrange(0, i as int) + scheme_prefix(
                u@.subrange(i as int, n as int),
            ),
        decreases n - i,
    {
        let ghost rest = u@.subrange(i as int, n as int);
        assert(rest[0] == u@[i as int]);
        if u.get_char(i) == ':' {
            assert(u@.subrange(0, i as int) + Seq::<char>::empty() =~= u@.subrange(0, i as int));
            return u.substring_char(0, i);
        }
        assert(rest.drop_first() =~= u@.subrange(i + 1, n as int));
        assert(u@.subrange(0, i as int) + seq![u@[i as int]] =~= u@.subrange(0, i + 1));
        assert(u@.subrange(0, i as int) + (seq![u@[i as int]] + scheme_prefix(rest.drop_first()))
            =~= u@.subrange(0, i + 1) + scheme_prefix(rest.drop_first()));
        i = i + 1;
    }
    assert(u@.subrange(i as int, n as int).len() == 0);
    assert(u@.subrange(0, n as int) + Seq::<char>::empty() =~= u@);
    u.substring_char(0, n)
}

/// The address to fetch for a link resolved to `target` with the scheme
/// `scheme`: `target` where `cfg` allows the scheme, `None` otherwise.
pub fn follow_decision(cfg: &ReduceConfig, scheme: &str, target: String) -> (r: Option<String>)
    ensures
        scheme_allowed(*cfg, scheme@) ==> r == Some(target),
        !scheme_allowed(*cfg, scheme@) ==> r is None,
{
    if allows_scheme(cfg, scheme) {
        Some(target)
    } else {
        None
    }
}

/// The absolute address to fetch for the link target `href` on the page at
/// `base`: `href` resolved against `base`; `None` where it does not resolve,
/// or resolves to a scheme that `cfg` does not allow, so that no fetch is
/// made.
pub fn resolve_link(cfg: &ReduceConfig, base: &str, href: &str) -> (r: Option<String>)
    ensures
        opt_view(r) == follow_target(*cfg, base@, href@),
{
    match join_href(base, href) {
        Some(u) => {
            let scheme = url_scheme(u.as_str());
            let s = <String as vstd::string::StringExecFns>::from_str(scheme);
            follow_decision(cfg, s.as_str(), u)
        },
        None => None,
    }
}

/// The address to fetch for each of `links`, the link targets of the page
/// at `base`, in order and one for one: where `cfg` asks for links to be
/// followed, the address that each resolves to with an allowed scheme, and
/// `None` for every other link; `None` for all where it does not.
pub fn fetch_targets(cfg: &ReduceConfig, base: &str, links: &Vec<String>) -> (r: Vec<
    Option<String>,
>)
    ensures
        r@.len() == links@.len(),
        forall|i: int|
            0 <= i < links@.len() ==> #[trigger] opt_view(r@[i]) == if cfg.expand_subpages {
                follow_target(*cfg, base@, links@[i]@)
            } else {
                None
            },
{
    let mut r: Vec<Option<String>> = Vec::new();
    let mut i: usize = 0;
    while i < links.len()
        invariant
            i <= links@.len(),
            r@.len() == i,
            forall|j: int|
                0 <= j < i ==> #[trigger] opt_view(r@[j]) == if cfg.expand_subpages {
                    follow_target(*cfg, base@, links@[j]@)
                } else {
                    None
                },
        decreases links@.len() - i,
    {
        let t = if cfg.expand_subpages {
            resolve_link(cfg, base, links[i].as_str())
        } else {
            None
        };
        r.push(t);
        i = i + 1;
    }
    r
}

} // verus!
