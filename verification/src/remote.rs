//! What is read out of the answers of git: the URL of the remote and the
//! tag of the last commit.

use crate::consts::{GIT_TAG_PATTERN, HTTPS_REMOTE, SSH_REMOTE_PATTERN};
use crate::error::InvalidPattern;
use crate::pattern::{
    accepts, captures, group, group_at, regex_accepts, regex_captures, regex_replace, replace,
};
use vstd::prelude::*;

verus! {

/// The URL of a remote as a URL over HTTPS: a URL over SSH is rewritten,
/// every other URL stays as it is.
pub open spec fn normalized_url(url: Seq<char>) -> Result<Seq<char>, InvalidPattern> {
    if regex_accepts(SSH_REMOTE_PATTERN@) {
        Ok(regex_replace(SSH_REMOTE_PATTERN@, url, HTTPS_REMOTE@))
    } else {
        Err(InvalidPattern)
    }
}

/// The tag that the groups `found` of a list of refs show.
pub open spec fn tag_given(found: Option<Seq<Option<Seq<char>>>>) -> Option<Seq<char>> {
    match found {
        Some(groups) => group_at(groups, 1),
        None => None,
    }
}

/// The tag among the refs `refs` of a commit, where there is one.
pub open spec fn tag_in(refs: Seq<char>) -> Result<Option<Seq<char>>, InvalidPattern> {
    if regex_accepts(GIT_TAG_PATTERN@) {
        Ok(tag_given(regex_captures(GIT_TAG_PATTERN@, refs)))
    } else {
        Err(InvalidPattern)
    }
}

/// The outcome of rewriting a URL as plain values.
pub open spec fn url_view(r: Result<String, InvalidPattern>) -> Result<Seq<char>, InvalidPattern> {
    match r {
        Ok(url) => Ok(url@),
        Err(e) => Err(e),
    }
}

/// The outcome of looking for a tag as plain values.
pub open spec fn tag_view(r: Result<Option<String>, InvalidPattern>) -> Result<
    Option<Seq<char>>,
    InvalidPattern,
> {
    match r {
        Ok(tag) => Ok(tag.deep_view()),
        Err(e) => Err(e),
    }
}

/// The URL of a remote as a URL over HTTPS.
pub fn normalize_origin_url(url: &str) -> (r: Result<String, InvalidPattern>)
    ensures
        url_view(r) == normalized_url(url@),
{
    if !accepts(SSH_REMOTE_PATTERN) {
        return Err(InvalidPattern);
    }
    Ok(replace(SSH_REMOTE_PATTERN, url, HTTPS_REMOTE))
}

/// The tag that the groups `found` of a list of refs show.
pub fn tag_from(found: &Option<Vec<Option<String>>>) -> (tag: Option<String>)
    ensures
        tag.deep_view() == tag_given(found.deep_view()),
{
    match found {
        Some(groups) => group(groups, 1),
        None => None,
    }
}

/// The tag among the refs `refs` of a commit, where there is one.
pub fn git_tag(refs: &str) -> (r: Result<Option<String>, InvalidPattern>)
    ensures
        tag_view(r) == tag_in(refs@),
{
    if !accepts(GIT_TAG_PATTERN) {
        return Err(InvalidPattern);
    }
    let found = captures(GIT_TAG_PATTERN, refs);
    Ok(tag_from(&found))
}

} // verus!
