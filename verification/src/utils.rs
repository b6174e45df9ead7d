//! Small helpers of the parser and the renderer: URLs of a repository,
//! blank texts, and taking content off the front of a token sequence.

use crate::consts::{
    COMPARE_DOTS, COMPARE_PATH, GITHUB_RELEASE_PATH, GITHUB_URL, ITEM_MARK, NEWLINE, TAG_PATH,
};
use crate::error::ParseError;
use crate::text::{
    concat_all, concat_strings, is_blank, is_blank_str, join, join_with, skip, skip_chars,
    starts_with, trim, trim_of,
};
use crate::token::{Token, TokenKind, TokenView};
use vstd::prelude::*;

verus! {

/// The URL of the release `version` of the repository at `repo_url`: a
/// release page on GitHub, a tag page elsewhere.
pub open spec fn release_url(repo_url: Seq<char>, version: Seq<char>) -> Seq<char> {
    if GITHUB_URL@.is_prefix_of(repo_url) {
        repo_url + GITHUB_RELEASE_PATH@ + version
    } else {
        repo_url + TAG_PATH@ + version
    }
}

/// The URL that compares the ref `current` with the ref `previous` in the
/// repository at `repo_url`.
pub open spec fn compare_url(repo_url: Seq<char>, previous: Seq<char>, current: Seq<char>) -> Seq<
    char,
> {
    repo_url + COMPARE_PATH@ + previous + COMPARE_DOTS@ + current
}

/// The URL of the release `version` of the repository at `repo_url`.
pub fn get_git_release_url(repo_url: String, version: String) -> (url: String)
    ensures
        url@ == release_url(repo_url@, version@),
{
    let github = starts_with(repo_url.as_str(), GITHUB_URL);
    let mut url = repo_url;
    if github {
        url.append(GITHUB_RELEASE_PATH);
    } else {
        url.append(TAG_PATH);
    }
    url.append(version.as_str());
    url
}

/// The URL that compares the ref `current` with the ref `previous` in the
/// repository at `repo_url`.
pub fn get_git_compare_url(repo_url: String, previous: String, current: String) -> (url: String)
    ensures
        url@ == compare_url(repo_url@, previous@, current@),
{
    let mut url = repo_url;
    url.append(COMPARE_PATH);
    url.append(previous.as_str());
    url.append(COMPARE_DOTS);
    url.append(current.as_str());
    url
}

/// What is left of `text` after its first `from` characters, without the
/// white space around it.
pub fn substring(text: String, from: usize) -> (r: String)
    ensures
        r@ == trim_of(skip_chars(text@, from as int)),
{
    trim(skip(text.as_str(), from).as_str())
}

/// Whether `val` is empty or holds only white space.
pub fn is_empty_str(val: String) -> (b: bool)
    ensures
        b == is_blank(val@),
{
    is_blank_str(val.as_str())
}

/// Whether the strings of `val` together are empty or hold only white
/// space.
pub fn is_empty_str_vec(val: Vec<String>) -> (b: bool)
    ensures
        b == is_blank(concat_all(val.deep_view())),
{
    is_blank_str(concat_strings(&val).as_str())
}

/// The content of a token as one text: its lines with line breaks between
/// them.
pub open spec fn token_text(t: TokenView) -> Seq<char> {
    join_with(t.content, NEWLINE@)
}

/// A token as a line of running text: a list item gets its mark back.
pub open spec fn running_text(t: TokenView) -> Seq<char> {
    if t.kind == TokenKind::Li {
        ITEM_MARK@ + token_text(t)
    } else {
        token_text(t)
    }
}

/// Whether `t` belongs to running text: a paragraph or a list item.
pub open spec fn is_running(t: TokenView) -> bool {
    t.kind == TokenKind::P || t.kind == TokenKind::Li
}

/// The texts `acc` followed by the running text at the front of `tokens`,
/// and the tokens after it.
pub open spec fn running_from(tokens: Seq<TokenView>, acc: Seq<Seq<char>>) -> (Seq<Seq<char>>, Seq<
    TokenView,
>)
    decreases tokens.len(),
{
    if tokens.len() > 0 && is_running(tokens[0]) {
        running_from(tokens.drop_first(), acc.push(running_text(tokens[0])))
    } else {
        (acc, tokens)
    }
}

/// `text`, or nothing where `text` is empty.
pub open spec fn non_empty(text: Seq<char>) -> Option<Seq<char>> {
    if text.len() == 0 {
        None
    } else {
        Some(text)
    }
}

/// The running text at the front of `tokens`, its pieces on lines of their
/// own, and the tokens after it.
pub open spec fn text_content(tokens: Seq<TokenView>) -> (Option<Seq<char>>, Seq<TokenView>) {
    let (lines, rest) = running_from(tokens, Seq::<Seq<char>>::empty());
    (non_empty(join_with(lines, NEWLINE@)), rest)
}

/// The line that an error about the front of `tokens` names: that of the
/// first token, and 0 where there is none.
pub open spec fn front_line(tokens: Seq<TokenView>) -> usize {
    if tokens.len() > 0 {
        tokens[0].line
    } else {
        0
    }
}

/// The content of the first of `tokens` where its kind is among `kinds`,
/// and the tokens that are left.
///
/// A first token of another kind is left in place. A first token of such a
/// kind is taken even where its content is empty. Where `required` is set,
/// a token that is missing or empty is an error.
pub open spec fn content_of(tokens: Seq<TokenView>, kinds: Seq<TokenKind>, required: bool) -> (
    Result<Option<Seq<char>>, ParseError>,
    Seq<TokenView>,
) {
    if tokens.len() == 0 || !kinds.contains(tokens[0].kind) {
        if required {
            (Err(ParseError::MissingRequiredToken { line: front_line(tokens) }), tokens)
        } else {
            (Ok(None), tokens)
        }
    } else if token_text(tokens[0]).len() == 0 {
        if required {
            (Err(ParseError::MissingRequiredToken { line: tokens[0].line }), tokens.drop_first())
        } else {
            (Ok(None), tokens.drop_first())
        }
    } else {
        (Ok(Some(token_text(tokens[0]))), tokens.drop_first())
    }
}

/// The outcome of taking content as plain values.
pub open spec fn content_view(r: Result<Option<String>, ParseError>) -> Result<
    Option<Seq<char>>,
    ParseError,
> {
    match r {
        Ok(text) => Ok(text.deep_view()),
        Err(e) => Err(e),
    }
}

/// The line of the first of `tokens`, and 0 where there is none.
pub fn first_line(tokens: &Vec<Token>) -> (line: usize)
    ensures
        line == front_line(tokens.deep_view()),
{
    if tokens.len() > 0 {
        tokens[0].line
    } else {
        0
    }
}

/// Whether `kind` is among `kinds`.
pub fn has_kind(kinds: &Vec<TokenKind>, kind: TokenKind) -> (b: bool)
    ensures
        b == kinds@.contains(kind),
{
    let mut i: usize = 0;
    while i < kinds.len()
        invariant
            i <= kinds.len(),
            forall|k: int| 0 <= k < i ==> kinds@[k] != kind,
        decreases kinds.len() - i,
    {
        if kinds[i] == kind {
            return true;
        }
        i = i + 1;
    }
    false
}

/// Takes the first token off `tokens` and returns it.
fn take_first(tokens: &mut Vec<Token>) -> (token: Token)
    requires
        old(tokens).len() > 0,
    ensures
        token@ == old(tokens).deep_view()[0],
        final(tokens).deep_view() == old(tokens).deep_view().drop_first(),
        final(tokens).len() == old(tokens).len() - 1,
{
    let token = tokens.remove(0);
    assert(tokens.deep_view() =~= old(tokens).deep_view().drop_first());
    token
}

/// Takes the running text off the front of `tokens`: the paragraphs and
/// list items up to the first token of another kind, each on lines of its
/// own. Always succeeds; the result is `None` where there is no such text.
pub fn get_text_content(tokens: &mut Vec<Token>) -> (r: Result<Option<String>, ParseError>)
    ensures
        content_view(r) == Ok::<Option<Seq<char>>, ParseError>(
            text_content(old(tokens).deep_view()).0,
        ),
        final(tokens).deep_view() == text_content(old(tokens).deep_view()).1,
{
    let mut lines: Vec<String> = Vec::new();
    assert(lines.deep_view() =~= Seq::<Seq<char>>::empty());
    while tokens.len() > 0 && (tokens[0].kind == TokenKind::P || tokens[0].kind == TokenKind::Li)
        invariant
            running_from(tokens.deep_view(), lines.deep_view()) == running_from(
                old(tokens).deep_view(),
                Seq::<Seq<char>>::empty(),
            ),
        decreases tokens.len(),
    {
        let token = take_first(tokens);
        let text = join(&token.content, NEWLINE);
        let ghost before = lines.deep_view();
        if token.kind == TokenKind::Li {
            let mut line = ITEM_MARK.to_string();
            line.append(text.as_str());
            lines.push(line);
        } else {
            lines.push(text);
        }
        assert(lines.deep_view() =~= before.push(running_text(token@)));
    }
    let result = join(&lines, NEWLINE);
    if result.as_str().unicode_len() == 0 {
        return Ok(None);
    }
    Ok(Some(result))
}

/// Takes the content of the first of `tokens` where its kind is among
/// `kinds`.
pub fn get_content(tokens: &mut Vec<Token>, kinds: Vec<TokenKind>, required: bool) -> (r: Result<
    Option<String>,
    ParseError,
>)
    ensures
        content_view(r) == content_of(old(tokens).deep_view(), kinds@, required).0,
        final(tokens).deep_view() == content_of(old(tokens).deep_view(), kinds@, required).1,
{
    if tokens.len() == 0 || !has_kind(&kinds, tokens[0].kind) {
        if required {
            return Err(ParseError::MissingRequiredToken { line: first_line(tokens) });
        }
        return Ok(None);
    }
    let token = take_first(tokens);
    let result = join(&token.content, NEWLINE);
    if result.as_str().unicode_len() == 0 {
        if required {
            return Err(ParseError::MissingRequiredToken { line: token.line });
        }
        return Ok(None);
    }
    Ok(Some(result))
}

} // verus!
