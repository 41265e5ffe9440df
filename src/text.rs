//! Text normalization: newlines become spaces, every maximal run of
//! whitespace becomes one space, and the ends are trimmed.
use vstd::prelude::*;
use vstd::string::StringExecFns;

verus! {

/// Whether `c` carries the Unicode `White_Space` property, the class that
/// both `char::is_whitespace` and the regex class `\s` match.
pub open spec fn is_ws(c: char) -> bool {
    ('\u{9}' <= c && c <= '\u{d}') || c == ' ' || c == '\u{85}' || c == '\u{a0}' || c
        == '\u{1680}' || ('\u{2000}' <= c && c <= '\u{200a}') || c == '\u{2028}' || c
        == '\u{2029}' || c == '\u{202f}' || c == '\u{205f}' || c == '\u{3000}'
}

/// Every newline of `s` replaced by a space.
pub open spec fn newlines_to_spaces(s: Seq<char>) -> Seq<char> {
    s.map_values(|c: char| if c == '\n' { ' ' } else { c })
}

/// Every maximal run of whitespace in `s` replaced by one space.
pub open spec fn collapse_ws(s: Seq<char>) -> Seq<char>
    decreases s.len(),
{
    if s.len() == 0 {
        s
    } else if !is_ws(s.last()) {
        collapse_ws(s.drop_last()).push(s.last())
    } else if s.len() > 1 && is_ws(s[s.len() - 2]) {
        collapse_ws(s.drop_last())
    } else {
        collapse_ws(s.drop_last()).push(' ')
    }
}

/// `s` without its leading whitespace.
pub open spec fn trim_start_ws(s: Seq<char>) -> Seq<char>
    decreases s.len(),
{
    if s.len() > 0 && is_ws(s[0]) {
        trim_start_ws(s.drop_first())
    } else {
        s
    }
}

/// `s` without its trailing whitespace.
pub open spec fn trim_end_ws(s: Seq<char>) -> Seq<char>
    decreases s.len(),
{
    if s.len() > 0 && is_ws(s.last()) {
        trim_end_ws(s.drop_last())
    } else {
        s
    }
}

/// `s` without leading and trailing whitespace.
pub open spec fn trim_ws(s: Seq<char>) -> Seq<char> {
    trim_start_ws(trim_end_ws(s))
}

/// The cleaned form of a raw text: single-spaced and trimmed.
pub open spec fn clean_spec(s: Seq<char>) -> Seq<char> {
    trim_ws(collapse_ws(newlines_to_spaces(s)))
}

/// The normalized form of a raw text: its cleaned form, or nothing when that
/// is empty.
pub open spec fn normalize_spec(s: Seq<char>) -> Option<Seq<char>> {
    let c = clean_spec(s);
    if c.len() == 0 {
        None
    } else {
        Some(c)
    }
}

/// Every whitespace character of `s` is a space that follows a
/// non-whitespace character.
pub open spec fn single_spaced(s: Seq<char>) -> bool {
    forall|i: int|
        0 <= i < s.len() && #[trigger] is_ws(s[i]) ==> s[i] == ' ' && i > 0 && !is_ws(s[i - 1])
}

/// Whitespace in `s` is single spaces strictly between other characters.
pub open spec fn is_tidy(s: Seq<char>) -> bool {
    &&& single_spaced(s)
    &&& s.len() > 0 ==> !is_ws(s.last())
}

/// Relies on `regex::Regex::replace_all` with the pattern `\s+`: each maximal
/// run of Unicode whitespace (leftmost, greedy) becomes one space.
#[verifier::external_body]
fn collapse_whitespace(s: &str) -> (r: String)
    ensures
        r@ == collapse_ws(s@),
{
    regex::Regex::new(r"\s+").unwrap().replace_all(s, " ").into_owned()
}

/// Relies on `str::trim`: drops leading and trailing Unicode whitespace.
#[verifier::external_body]
pub(crate) fn trim_str(s: &str) -> (r: &str)
    ensures
        r@ == trim_ws(s@),
{
    s.trim()
}

/// The cleaned text of `raw`; it may be empty.
pub fn clean_text(raw: &str) -> (r: String)
    ensures
        r@ == clean_spec(raw@),
{
    proof {
        lemma_newlines_collapse_alike(raw@);
    }
    let collapsed = collapse_whitespace(raw);
    let trimmed = trim_str(collapsed.as_str());
    <String as StringExecFns>::from_str(trimmed)
}

/// The normalized text of `raw`, or `None` where nothing but whitespace is left.
pub fn normalize(raw: &str) -> (r: Option<String>)
    ensures
        r matches Some(t) ==> normalize_spec(raw@) == Some(t@),
        r is None ==> normalize_spec(raw@) is None,
{
    let c = clean_text(raw);
    if c.as_str().unicode_len() == 0 {
        None
    } else {
        Some(c)
    }
}


/// Newlines are whitespace already, so turning them into spaces first
/// changes nothing once runs of whitespace are collapsed.
pub proof fn lemma_newlines_collapse_alike(s: Seq<char>)
    ensures
        collapse_ws(newlines_to_spaces(s)) == collapse_ws(s),
    decreases s.len(),
{
    if s.len() > 0 {
        let t = newlines_to_spaces(s);
        assert(t.drop_last() =~= newlines_to_spaces(s.drop_last()));
        lemma_newlines_collapse_alike(s.drop_last());
        assert(is_ws(t.last()) == is_ws(s.last()));
        assert(!is_ws(s.last()) ==> t.last() == s.last());
        if s.len() > 1 {
            assert(is_ws(t[s.len() - 2]) == is_ws(s[s.len() - 2]));
        }
    }
}

/// Every whitespace character of `s` is a space whose left neighbour, if
/// any, is not whitespace.
pub open spec fn no_ws_runs(s: Seq<char>) -> bool {
    forall|i: int|
        0 <= i < s.len() && #[trigger] is_ws(s[i]) ==> s[i] == ' ' && (i > 0 ==> !is_ws(s[i - 1]))
}

proof fn lemma_collapse_shape(s: Seq<char>)
    ensures
        no_ws_runs(collapse_ws(s)),
        collapse_ws(s).len() == 0 <==> s.len() == 0,
        s.len() > 0 ==> is_ws(collapse_ws(s).last()) == is_ws(s.last()),
    decreases s.len(),
{
    if s.len() > 0 {
        lemma_collapse_shape(s.drop_last());
        let r = collapse_ws(s);
        let p = collapse_ws(s.drop_last());
        assert forall|i: int| 0 <= i < r.len() && #[trigger] is_ws(r[i]) implies r[i] == ' ' && (i
            > 0 ==> !is_ws(r[i - 1])) by {
            if i < p.len() {
                assert(r[i] == p[i]);
                if i > 0 {
                    assert(r[i - 1] == p[i - 1]);
                }
            }
        }
    }
}

proof fn lemma_collapse_fixed(s: Seq<char>)
    requires
        no_ws_runs(s),
    ensures
        collapse_ws(s) == s,
    decreases s.len(),
{
    if s.len() > 0 {
        let p = s.drop_last();
        assert forall|i: int| 0 <= i < p.len() && #[trigger] is_ws(p[i]) implies p[i] == ' ' && (i
            > 0 ==> !is_ws(p[i - 1])) by {
            assert(s[i] == p[i]);
            if i > 0 {
                assert(s[i - 1] == p[i - 1]);
            }
        }
        lemma_collapse_fixed(p);
        assert(p.push(s.last()) =~= s);
        if is_ws(s.last()) {
            assert(is_ws(s[s.len() - 1]));
        }
    }
}

proof fn lemma_trim_end_shape(s: Seq<char>)
    requires
        no_ws_runs(s),
    ensures
        no_ws_runs(trim_end_ws(s)),
        trim_end_ws(s).len() > 0 ==> !is_ws(trim_end_ws(s).last()),
    decreases s.len(),
{
    if s.len() > 0 && is_ws(s.last()) {
        let p = s.drop_last();
        assert forall|i: int| 0 <= i < p.len() && #[trigger] is_ws(p[i]) implies p[i] == ' ' && (i
            > 0 ==> !is_ws(p[i - 1])) by {
            assert(s[i] == p[i]);
            if i > 0 {
                assert(s[i - 1] == p[i - 1]);
            }
        }
        lemma_trim_end_shape(p);
    }
}

proof fn lemma_trim_start_shape(s: Seq<char>)
    requires
        no_ws_runs(s),
        s.len() > 0 ==> !is_ws(s.last()),
    ensures
        is_tidy(trim_start_ws(s)),
        trim_start_ws(s).len() > 0 ==> !is_ws(trim_start_ws(s)[0]),
    decreases s.len(),
{
    if s.len() > 0 && is_ws(s[0]) {
        let p = s.drop_first();
        assert forall|i: int| 0 <= i < p.len() && #[trigger] is_ws(p[i]) implies p[i] == ' ' && (i
            > 0 ==> !is_ws(p[i - 1])) by {
            assert(s[i + 1] == p[i]);
            assert(is_ws(s[i + 1]));
            if i > 0 {
                assert(s[i] == p[i - 1]);
            }
        }
        if p.len() > 0 {
            assert(p.last() == s.last());
        }
        lemma_trim_start_shape(p);
    } else {
        assert forall|i: int| 0 <= i < s.len() && #[trigger] is_ws(s[i]) implies s[i] == ' ' && i
            > 0 && !is_ws(s[i - 1]) by {
            if i == 0 {
                assert(!is_ws(s[0]));
            }
        }
    }
}

/// The cleaned form of any text is tidy.
pub proof fn lemma_clean_is_tidy(s: Seq<char>)
    ensures
        is_tidy(clean_spec(s)),
        clean_spec(s).len() > 0 ==> !is_ws(clean_spec(s)[0]),
{
    let c = collapse_ws(newlines_to_spaces(s));
    lemma_collapse_shape(newlines_to_spaces(s));
    lemma_trim_end_shape(c);
    lemma_trim_start_shape(trim_end_ws(c));
}

/// Cleaning leaves a tidy text as it is.
pub proof fn lemma_tidy_is_clean(t: Seq<char>)
    requires
        is_tidy(t),
    ensures
        clean_spec(t) == t,
{
    assert forall|i: int| 0 <= i < t.len() implies #[trigger] newlines_to_spaces(t)[i] == t[i] by {
        if t[i] == '\n' {
            assert(is_ws(t[i]));
        }
    }
    assert(newlines_to_spaces(t) =~= t);
    lemma_collapse_fixed(t);
    if t.len() > 0 {
        if is_ws(t[0]) {
            assert(false);
        }
    }
}

/// Normalizing never yields an empty or whitespace-only text: a result
/// starts and ends with a character that is not whitespace.
pub proof fn lemma_normalize_has_content(s: Seq<char>)
    ensures
        normalize_spec(s) matches Some(t) ==> t.len() > 0 && !is_ws(t[0]) && !is_ws(t.last()),
{
    lemma_clean_is_tidy(s);
}

/// Normalizing is idempotent: normalizing a normalized text gives it back.
pub proof fn lemma_normalize_idempotent(s: Seq<char>)
    ensures
        clean_spec(clean_spec(s)) == clean_spec(s),
        normalize_spec(s) matches Some(t) ==> normalize_spec(t) == Some(t),
{
    lemma_clean_is_tidy(s);
    lemma_tidy_is_clean(clean_spec(s));
}

} // verus!
