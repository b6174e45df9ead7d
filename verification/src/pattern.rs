//! Regular expressions, as the `regex` crate matches them.
//!
//! The functions of this module call the `regex` crate. Verus takes their
//! contracts on trust: each says that its result is the one the crate gives
//! for the same pattern and text, and gives that result a name.

use vstd::prelude::*;

verus! {

/// Whether `regex::Regex::new` accepts `pattern`.
pub uninterp spec fn regex_accepts(pattern: Seq<char>) -> bool;

/// Whether the regular expression `pattern` matches somewhere in `text`,
/// as `regex::Regex::is_match` tells; `false` for a pattern that is not
/// accepted.
pub uninterp spec fn regex_is_match(pattern: Seq<char>, text: Seq<char>) -> bool;

/// The capture groups of the leftmost-first match of `pattern` in `text`, as
/// `regex::Regex::captures` gives them: group 0 is the whole match, and a
/// group that took no part in the match is `None`. `None` where there is no
/// match or the pattern is not accepted.
pub uninterp spec fn regex_captures(pattern: Seq<char>, text: Seq<char>) -> Option<
    Seq<Option<Seq<char>>>,
>;

/// `text` with the leftmost-first match of `pattern` replaced by `with`, as
/// `regex::Regex::replace` gives it; `text` itself for a pattern that is not
/// accepted.
pub uninterp spec fn regex_replace(pattern: Seq<char>, text: Seq<char>, with: Seq<char>) -> Seq<
    char,
>;

/// Calls `regex::Regex::new` and tells whether it returned a regular
/// expression rather than an error.
#[verifier::external_body]
pub(crate) fn accepts(pattern: &str) -> (b: bool)
    ensures
        b == regex_accepts(pattern@),
{
    regex::Regex::new(pattern).is_ok()
}

/// Compiles `pattern` once and calls `regex::Regex::is_match` on each of
/// `texts`: each result is the crate's answer to whether the pattern
/// matches anywhere in the text of the same index.
#[verifier::external_body]
pub(crate) fn is_match_each(pattern: &str, texts: &Vec<String>) -> (found: Vec<bool>)
    ensures
        found.len() == texts.len(),
        forall|i: int|
            0 <= i < texts.len() ==> #[trigger] found[i] == regex_is_match(pattern@, texts[i]@),
{
    match regex::Regex::new(pattern) {
        Ok(re) => texts.iter().map(|text| re.is_match(text)).collect(),
        Err(_) => texts.iter().map(|_| false).collect(),
    }
}

/// Compiles `pattern` once and calls `regex::Regex::captures` on each of
/// `texts`: each result copies the text of each group of the match found
/// in the text of the same index, in the order of the groups.
#[verifier::external_body]
pub(crate) fn captures_each(pattern: &str, texts: &Vec<String>) -> (found: Vec<
    Option<Vec<Option<String>>>,
>)
    ensures
        found.len() == texts.len(),
        forall|i: int|
            0 <= i < texts.len() ==> (#[trigger] found[i]).deep_view() == regex_captures(
                pattern@,
                texts[i]@,
            ),
{
    let groups = |c: regex::Captures| c.iter().map(|g| g.map(|m| m.as_str().to_string())).collect();
    match regex::Regex::new(pattern) {
        Ok(re) => texts.iter().map(|text| re.captures(text).map(groups)).collect(),
        Err(_) => texts.iter().map(|_| None).collect(),
    }
}

/// Compiles `pattern` once and calls `regex::Regex::replace` on each of
/// `texts`: each result is the text of the same index with the first
/// match replaced by `with`.
#[verifier::external_body]
pub(crate) fn replace_each(pattern: &str, texts: &Vec<String>, with: &str) -> (r: Vec<String>)
    ensures
        r.len() == texts.len(),
        forall|i: int|
            0 <= i < texts.len() ==> (#[trigger] r[i])@ == regex_replace(
                pattern@,
                texts[i]@,
                with@,
            ),
{
    match regex::Regex::new(pattern) {
        Ok(re) => texts.iter().map(|text| re.replace(text, with).into_owned()).collect(),
        Err(_) => texts.clone(),
    }
}

/// The one text `text`.
fn only(text: &str) -> (texts: Vec<String>)
    ensures
        texts.len() == 1,
        texts[0]@ == text@,
{
    let mut texts: Vec<String> = Vec::new();
    texts.push(text.to_string());
    texts
}

/// Whether `pattern` matches somewhere in `text`.
pub(crate) fn is_match(pattern: &str, text: &str) -> (b: bool)
    ensures
        b == regex_is_match(pattern@, text@),
{
    let texts = only(text);
    let found = is_match_each(pattern, &texts);
    found[0]
}

/// The capture groups of the first match of `pattern` in `text`.
pub(crate) fn captures(pattern: &str, text: &str) -> (groups: Option<Vec<Option<String>>>)
    ensures
        groups.deep_view() == regex_captures(pattern@, text@),
{
    let texts = only(text);
    let mut found = captures_each(pattern, &texts);
    assert(found[0].deep_view() == regex_captures(pattern@, text@));
    found.remove(0)
}

/// `text` with the first match of `pattern` replaced by `with`.
pub(crate) fn replace(pattern: &str, text: &str, with: &str) -> (r: String)
    ensures
        r@ == regex_replace(pattern@, text@, with@),
{
    let texts = only(text);
    let mut found = replace_each(pattern, &texts, with);
    assert(found[0]@ == regex_replace(pattern@, text@, with@));
    found.remove(0)
}

/// The group of index `i` among `groups`, where it took part in the match.
pub open spec fn group_at(groups: Seq<Option<Seq<char>>>, i: int) -> Option<Seq<char>> {
    if 0 <= i < groups.len() {
        groups[i]
    } else {
        None
    }
}

/// The text of the group of index `i`, where it took part in the match.
pub fn group(groups: &Vec<Option<String>>, i: usize) -> (r: Option<String>)
    ensures
        r.deep_view() == group_at(groups.deep_view(), i as int),
{
    if i < groups.len() {
        match &groups[i] {
            Some(s) => Some(s.clone()),
            None => None,
        }
    } else {
        None
    }
}

} // verus!
