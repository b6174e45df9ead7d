//! The tokenizer: from the text of a changelog to its structural tokens.
//!
//! Each line of the text is one heading, list item, link definition, flag
//! comment, horizontal rule or paragraph line. Lines that belong together
//! are then merged into one token, and tokens without content are dropped.

use crate::consts::{
    COMMENT_PATTERN, INDENT_PATTERN, LINK_LABEL_PATTERN, LINK_PATTERN, LINK_TARGET_PATTERN,
    PREFIX_H1, PREFIX_H2, PREFIX_H3, PREFIX_HR, PREFIX_LI, PREFIX_LI2,
};
use crate::error::TokenizeError;
use crate::pattern::{
    accepts, captures, captures_each, group, group_at, is_match, is_match_each, regex_accepts,
    regex_captures, regex_is_match, regex_replace, replace_each,
};
use crate::text::{
    concat_all, concat_strings, copy_lines, drop_blank_end, drop_blank_lines, drop_blank_start,
    is_blank, is_blank_str, lemma_concat_blank, skip, skip_chars, split, split_on, starts_with,
    trim, trim_end, trim_end_of, trim_of,
};
use vstd::prelude::*;

verus! {

/// What a token is.
#[derive(Debug, Clone, Copy, PartialEq, Eq, Structural)]
pub enum TokenKind {
    /// A first-level heading: the title.
    H1,
    /// A second-level heading: a release.
    H2,
    /// A third-level heading: a kind of change.
    H3,
    /// A list item.
    Li,
    /// A paragraph.
    P,
    /// A link definition.
    Link,
    /// A flag comment.
    Flag,
    /// A horizontal rule.
    Hr,
}

/// A token: the lines of one structural element of the text.
#[derive(Debug, Clone, PartialEq, Eq)]
pub struct Token {
    /// The number of the line the token starts on, counted from 1.
    pub line: usize,
    pub kind: TokenKind,
    pub content: Vec<String>,
}

/// A [`Token`] as plain values.
pub struct TokenView {
    pub line: usize,
    pub kind: TokenKind,
    pub content: Seq<Seq<char>>,
}

impl DeepView for Token {
    type V = TokenView;

    open spec fn deep_view(&self) -> TokenView {
        TokenView { line: self.line, kind: self.kind, content: self.content.deep_view() }
    }
}

impl View for Token {
    type V = TokenView;

    open spec fn view(&self) -> TokenView {
        self.deep_view()
    }
}

impl Token {
    /// The token of the given line, kind and content.
    pub fn new(line: usize, kind: TokenKind, content: Vec<String>) -> (t: Token)
        ensures
            t@ == (TokenView { line, kind, content: content.deep_view() }),
    {
        Token { line, kind, content }
    }
}

/// The token of one line and whether it took the next line with it.
pub struct LineToken {
    pub kind: TokenKind,
    pub content: String,
    pub takes_next: bool,
}

/// A [`LineToken`] as plain values.
pub struct LineTokenView {
    pub kind: TokenKind,
    pub content: Seq<char>,
    pub takes_next: bool,
}

impl DeepView for LineToken {
    type V = LineTokenView;

    open spec fn deep_view(&self) -> LineTokenView {
        LineTokenView { kind: self.kind, content: self.content@, takes_next: self.takes_next }
    }
}

impl View for LineToken {
    type V = LineTokenView;

    open spec fn view(&self) -> LineTokenView {
        self.deep_view()
    }
}

/// The token of a line that begins with the mark of a rule, a heading or a
/// list item; `None` for a line that begins with none of them.
pub open spec fn marked_line(line: Seq<char>) -> Option<LineTokenView> {
    if PREFIX_HR@.is_prefix_of(line) {
        Some(LineTokenView { kind: TokenKind::Hr, content: PREFIX_LI@, takes_next: false })
    } else if PREFIX_H1@.is_prefix_of(line) {
        Some(
            LineTokenView {
                kind: TokenKind::H1,
                content: trim_of(skip_chars(line, 1)),
                takes_next: false,
            },
        )
    } else if PREFIX_H2@.is_prefix_of(line) {
        Some(
            LineTokenView {
                kind: TokenKind::H2,
                content: trim_of(skip_chars(line, 2)),
                takes_next: false,
            },
        )
    } else if PREFIX_H3@.is_prefix_of(line) {
        Some(
            LineTokenView {
                kind: TokenKind::H3,
                content: trim_of(skip_chars(line, 3)),
                takes_next: false,
            },
        )
    } else if PREFIX_LI@.is_prefix_of(line) || PREFIX_LI2@.is_prefix_of(line) {
        Some(
            LineTokenView {
                kind: TokenKind::Li,
                content: trim_of(skip_chars(line, 1)),
                takes_next: false,
            },
        )
    } else {
        None
    }
}

/// The token of a line that begins with no mark, given what the patterns
/// found: `is_link` whether the line is a link definition with its target,
/// `is_label` whether it is the label of a link definition alone,
/// `next_is_target` whether the next line continues a label with a target,
/// and `comment` the groups of the line as one HTML comment.
///
/// A label that the next line does not continue is an error.
pub open spec fn unmarked_line(
    number: usize,
    line: Seq<char>,
    next: Option<Seq<char>>,
    is_link: bool,
    is_label: bool,
    next_is_target: bool,
    comment: Option<Seq<Option<Seq<char>>>>,
) -> Result<LineTokenView, TokenizeError> {
    if is_link {
        Ok(LineTokenView { kind: TokenKind::Link, content: trim_of(line), takes_next: false })
    } else if is_label {
        if next is Some && next_is_target {
            Ok(
                LineTokenView {
                    kind: TokenKind::Link,
                    content: trim_of(line) + seq!['\n'] + trim_end_of(next->0),
                    takes_next: true,
                },
            )
        } else {
            Err(TokenizeError::MalformedLinkContinuation { line: number })
        }
    } else if comment is Some && group_at(comment->0, 1) is Some {
        Ok(
            LineTokenView {
                kind: TokenKind::Flag,
                content: trim_of(group_at(comment->0, 1)->0),
                takes_next: false,
            },
        )
    } else {
        Ok(LineTokenView { kind: TokenKind::P, content: trim_end_of(line), takes_next: false })
    }
}

/// The token of the line `line` with number `number`, given what the
/// patterns found in it and in the line `next` after it: the token of its
/// mark where it begins with one, and the token of a line without mark
/// otherwise.
pub open spec fn classified_line(
    number: usize,
    line: Seq<char>,
    next: Option<Seq<char>>,
    is_link: bool,
    is_label: bool,
    next_is_target: bool,
    comment: Option<Seq<Option<Seq<char>>>>,
) -> Result<LineTokenView, TokenizeError> {
    match marked_line(line) {
        Some(t) => Ok(t),
        None => unmarked_line(number, line, next, is_link, is_label, next_is_target, comment),
    }
}

/// The token of the line `line` with number `number`, followed by the line
/// `next` where there is one.
pub open spec fn line_token(number: usize, line: Seq<char>, next: Option<Seq<char>>) -> Result<
    LineTokenView,
    TokenizeError,
> {
    classified_line(
        number,
        line,
        next,
        regex_is_match(LINK_PATTERN@, line),
        regex_is_match(LINK_LABEL_PATTERN@, line),
        next is Some && regex_is_match(LINK_TARGET_PATTERN@, next->0),
        regex_captures(COMMENT_PATTERN@, line),
    )
}

/// The tokens of the lines from index `i` on, after the tokens `acc` of the
/// lines before. `blank` tells that the line of index `i` was taken by the
/// line before it and counts as empty.
pub open spec fn lines_tokens(
    lines: Seq<Seq<char>>,
    i: int,
    blank: bool,
    acc: Seq<TokenView>,
) -> Result<Seq<TokenView>, TokenizeError>
    decreases lines.len() - i,
{
    if i < 0 || i >= lines.len() {
        Ok(acc)
    } else {
        let line = if blank {
            Seq::<char>::empty()
        } else {
            lines[i]
        };
        let next = if i + 1 < lines.len() {
            Some(lines[i + 1])
        } else {
            None
        };
        match line_token((i + 1) as usize, line, next) {
            Ok(t) => lines_tokens(
                lines,
                i + 1,
                t.takes_next,
                acc.push(
                    TokenView { line: (i + 1) as usize, kind: t.kind, content: seq![t.content] },
                ),
            ),
            Err(e) => Err(e),
        }
    }
}

/// Whether the patterns that recognise lines are regular expressions.
pub open spec fn line_patterns_accepted() -> bool {
    &&& regex_accepts(LINK_PATTERN@)
    &&& regex_accepts(LINK_LABEL_PATTERN@)
    &&& regex_accepts(COMMENT_PATTERN@)
    &&& regex_accepts(LINK_TARGET_PATTERN@)
}

/// One token for each line of `text` without the white space around it.
pub open spec fn raw_tokens(text: Seq<char>) -> Result<Seq<TokenView>, TokenizeError> {
    if !line_patterns_accepted() {
        Err(TokenizeError::InvalidPattern)
    } else {
        lines_tokens(split_on(trim_of(text), '\n'), 0, false, Seq::<TokenView>::empty())
    }
}

/// `t` with the line `line` added to its content.
pub open spec fn with_line(t: TokenView, line: Seq<char>) -> TokenView {
    TokenView { line: t.line, kind: t.kind, content: t.content.push(line) }
}

/// The first line of the content of `t`; empty where `t` has no content.
pub open spec fn first_line(t: TokenView) -> Seq<char> {
    if t.content.len() > 0 {
        t.content[0]
    } else {
        Seq::<char>::empty()
    }
}

/// The tokens `acc` followed by the token `t` of one line, given whether
/// the line of `t` is indented and what it is without its indentation: a
/// paragraph line after a paragraph goes into that paragraph; an indented
/// paragraph line after a list item goes into that item, without its
/// indentation; every other token stands for itself.
pub open spec fn merge_with(
    acc: Seq<TokenView>,
    t: TokenView,
    indented: bool,
    unindented: Seq<char>,
) -> Seq<TokenView> {
    if acc.len() > 0 && t.kind == TokenKind::P && acc.last().kind == TokenKind::P {
        acc.drop_last().push(with_line(acc.last(), first_line(t)))
    } else if acc.len() > 0 && t.kind == TokenKind::P && acc.last().kind == TokenKind::Li
        && indented {
        acc.drop_last().push(with_line(acc.last(), unindented))
    } else {
        acc.push(t)
    }
}

/// The tokens `acc` followed by the token `t` of one line. A line is
/// indented where it begins with two white-space characters.
pub open spec fn merge_one(acc: Seq<TokenView>, t: TokenView) -> Seq<TokenView> {
    merge_with(
        acc,
        t,
        regex_is_match(INDENT_PATTERN@, first_line(t)),
        regex_replace(INDENT_PATTERN@, first_line(t), Seq::<char>::empty()),
    )
}

/// The tokens `acc` followed by the one-line tokens from index `i` on,
/// merged.
pub open spec fn merge_from(tokens: Seq<TokenView>, i: int, acc: Seq<TokenView>) -> Seq<TokenView>
    decreases tokens.len() - i,
{
    if i < 0 || i >= tokens.len() {
        acc
    } else {
        merge_from(tokens, i + 1, merge_one(acc, tokens[i]))
    }
}

/// The tokens `acc` followed by `t` without the blank lines at both ends
/// of its content; `t` is left out where all its content is blank.
pub open spec fn clean_one(acc: Seq<TokenView>, t: TokenView) -> Seq<TokenView> {
    if is_blank(concat_all(t.content)) {
        acc
    } else {
        acc.push(
            TokenView {
                line: t.line,
                kind: t.kind,
                content: drop_blank_start(drop_blank_end(t.content)),
            },
        )
    }
}

/// The tokens `acc` followed by the tokens from index `i` on, cleaned.
pub open spec fn clean_from(tokens: Seq<TokenView>, i: int, acc: Seq<TokenView>) -> Seq<TokenView>
    decreases tokens.len() - i,
{
    if i < 0 || i >= tokens.len() {
        acc
    } else {
        clean_from(tokens, i + 1, clean_one(acc, tokens[i]))
    }
}

/// The tokens of `text`.
pub open spec fn tokens_of(text: Seq<char>) -> Result<Seq<TokenView>, TokenizeError> {
    match raw_tokens(text) {
        Err(e) => Err(e),
        Ok(raw) => if !regex_accepts(INDENT_PATTERN@) {
            Err(TokenizeError::InvalidPattern)
        } else {
            Ok(
                clean_from(
                    merge_from(raw, 0, Seq::<TokenView>::empty()),
                    0,
                    Seq::<TokenView>::empty(),
                ),
            )
        },
    }
}

/// The outcome of tokenizing as plain values.
pub open spec fn tokens_view(r: Result<Vec<Token>, TokenizeError>) -> Result<
    Seq<TokenView>,
    TokenizeError,
> {
    match r {
        Ok(tokens) => Ok(tokens.deep_view()),
        Err(e) => Err(e),
    }
}

/// The outcome of reading one line as plain values.
pub open spec fn line_view(r: Result<LineToken, TokenizeError>) -> Result<
    LineTokenView,
    TokenizeError,
> {
    match r {
        Ok(t) => Ok(t@),
        Err(e) => Err(e),
    }
}

/// Whether each of `tokens` has exactly one line of content.
pub open spec fn single_lines(tokens: Seq<TokenView>) -> bool {
    forall|i: int| 0 <= i < tokens.len() ==> (#[trigger] tokens[i]).content.len() == 1
}

/// No token of a text is without content, and the content of none begins
/// or ends with a blank line.
pub open spec fn well_cleaned(tokens: Seq<TokenView>) -> bool {
    forall|i: int|
        0 <= i < tokens.len() ==> {
            let c = (#[trigger] tokens[i]).content;
            c.len() > 0 && !is_blank(c[0]) && !is_blank(c.last())
        }
}

/// The token of a line that begins with the mark of a rule, a heading or a
/// list item.
pub fn marked_line_token(line: &str) -> (r: Option<LineToken>)
    ensures
        r.deep_view() == marked_line(line@),
{
    if starts_with(line, PREFIX_HR) {
        Some(LineToken { kind: TokenKind::Hr, content: PREFIX_LI.to_string(), takes_next: false })
    } else if starts_with(line, PREFIX_H1) {
        let content = trim(skip(line, 1).as_str());
        Some(LineToken { kind: TokenKind::H1, content, takes_next: false })
    } else if starts_with(line, PREFIX_H2) {
        let content = trim(skip(line, 2).as_str());
        Some(LineToken { kind: TokenKind::H2, content, takes_next: false })
    } else if starts_with(line, PREFIX_H3) {
        let content = trim(skip(line, 3).as_str());
        Some(LineToken { kind: TokenKind::H3, content, takes_next: false })
    } else if starts_with(line, PREFIX_LI) || starts_with(line, PREFIX_LI2) {
        let content = trim(skip(line, 1).as_str());
        Some(LineToken { kind: TokenKind::Li, content, takes_next: false })
    } else {
        None
    }
}

/// The token of a line that begins with no mark, given what the patterns
/// found in it and in the next line.
pub fn unmarked_line_token(
    number: usize,
    line: &str,
    next: Option<&str>,
    is_link: bool,
    is_label: bool,
    next_is_target: bool,
    comment: &Option<Vec<Option<String>>>,
) -> (r: Result<LineToken, TokenizeError>)
    ensures
        line_view(r) == unmarked_line(
            number,
            line@,
            next.deep_view(),
            is_link,
            is_label,
            next_is_target,
            comment.deep_view(),
        ),
{
    if is_link {
        return Ok(LineToken { kind: TokenKind::Link, content: trim(line), takes_next: false });
    }
    if is_label {
        return match next {
            Some(next_line) => {
                if next_is_target {
                    let mut content = trim(line);
                    content.append("\n");
                    content.append(trim_end(next_line).as_str());
                    proof {
                        reveal_strlit("\n");
                        assert("\n"@ =~= seq!['\n']);
                    }
                    Ok(LineToken { kind: TokenKind::Link, content, takes_next: true })
                } else {
                    Err(TokenizeError::MalformedLinkContinuation { line: number })
                }
            },
            None => Err(TokenizeError::MalformedLinkContinuation { line: number }),
        };
    }
    if let Some(groups) = comment {
        if let Some(inner) = group(groups, 1) {
            let content = trim(inner.as_str());
            return Ok(LineToken { kind: TokenKind::Flag, content, takes_next: false });
        }
    }
    Ok(LineToken { kind: TokenKind::P, content: trim_end(line), takes_next: false })
}

/// The token of the line `line` with number `number`, given what the
/// patterns found in it and in the line `next` after it.
pub fn classify_line(
    number: usize,
    line: &str,
    next: Option<&str>,
    is_link: bool,
    is_label: bool,
    next_is_target: bool,
    comment: &Option<Vec<Option<String>>>,
) -> (r: Result<LineToken, TokenizeError>)
    ensures
        line_view(r) == classified_line(
            number,
            line@,
            next.deep_view(),
            is_link,
            is_label,
            next_is_target,
            comment.deep_view(),
        ),
{
    match marked_line_token(line) {
        Some(t) => Ok(t),
        None => unmarked_line_token(
            number,
            line,
            next,
            is_link,
            is_label,
            next_is_target,
            comment,
        ),
    }
}

/// The token of the line `line` with number `number`, followed by the line
/// `next` where there is one.
pub fn read_line(number: usize, line: &str, next: Option<&str>) -> (r: Result<
    LineToken,
    TokenizeError,
>)
    ensures
        line_view(r) == line_token(number, line@, next.deep_view()),
{
    let is_link = is_match(LINK_PATTERN, line);
    let is_label = is_match(LINK_LABEL_PATTERN, line);
    let next_is_target = match next {
        Some(next_line) => is_match(LINK_TARGET_PATTERN, next_line),
        None => false,
    };
    let comment = captures(COMMENT_PATTERN, line);
    classify_line(number, line, next, is_link, is_label, next_is_target, &comment)
}

/// One token for each line of `markdown` without the white space around
/// it.
pub fn extract_tokens(markdown: String) -> (r: Result<Vec<Token>, TokenizeError>)
    ensures
        tokens_view(r) == raw_tokens(markdown@),
        r matches Ok(tokens) ==> single_lines(tokens.deep_view()),
{
    if !accepts(LINK_PATTERN) || !accepts(LINK_LABEL_PATTERN) || !accepts(COMMENT_PATTERN)
        || !accepts(LINK_TARGET_PATTERN) {
        return Err(TokenizeError::InvalidPattern);
    }
    let lines = split(trim(markdown.as_str()).as_str(), '\n');
    let links = is_match_each(LINK_PATTERN, &lines);
    let labels = is_match_each(LINK_LABEL_PATTERN, &lines);
    let targets = is_match_each(LINK_TARGET_PATTERN, &lines);
    let comments = captures_each(COMMENT_PATTERN, &lines);
    let empty = String::new();
    let empty_is_link = is_match(LINK_PATTERN, empty.as_str());
    let empty_is_label = is_match(LINK_LABEL_PATTERN, empty.as_str());
    let empty_comment = captures(COMMENT_PATTERN, empty.as_str());
    let mut tokens: Vec<Token> = Vec::new();
    let mut blank = false;
    let mut i: usize = 0;
    let ghost all = lines.deep_view();
    assert(tokens.deep_view() =~= Seq::<TokenView>::empty());
    while i < lines.len()
        invariant
            i <= lines.len(),
            all == lines.deep_view(),
            all == split_on(trim_of(markdown@), '\n'),
            line_patterns_accepted(),
            links.len() == lines.len(),
            labels.len() == lines.len(),
            targets.len() == lines.len(),
            comments.len() == lines.len(),
            forall|k: int|
                0 <= k < lines.len() ==> #[trigger] links[k] == regex_is_match(
                    LINK_PATTERN@,
                    lines[k]@,
                ),
            forall|k: int|
                0 <= k < lines.len() ==> #[trigger] labels[k] == regex_is_match(
                    LINK_LABEL_PATTERN@,
                    lines[k]@,
                ),
            forall|k: int|
                0 <= k < lines.len() ==> #[trigger] targets[k] == regex_is_match(
                    LINK_TARGET_PATTERN@,
                    lines[k]@,
                ),
            forall|k: int|
                0 <= k < lines.len() ==> (#[trigger] comments[k]).deep_view() == regex_captures(
                    COMMENT_PATTERN@,
                    lines[k]@,
                ),
            empty@ == Seq::<char>::empty(),
            empty_is_link == regex_is_match(LINK_PATTERN@, empty@),
            empty_is_label == regex_is_match(LINK_LABEL_PATTERN@, empty@),
            empty_comment.deep_view() == regex_captures(COMMENT_PATTERN@, empty@),
            lines_tokens(all, i as int, blank, tokens.deep_view()) == lines_tokens(
                all,
                0,
                false,
                Seq::<TokenView>::empty(),
            ),
            single_lines(tokens.deep_view()),
        decreases lines.len() - i,
    {
        let next: Option<&str> = if i + 1 < lines.len() {
            Some(lines[i + 1].as_str())
        } else {
            None
        };
        let next_is_target = i + 1 < lines.len() && targets[i + 1];
        let read = if blank {
            classify_line(
                i + 1,
                empty.as_str(),
                next,
                empty_is_link,
                empty_is_label,
                next_is_target,
                &empty_comment,
            )
        } else {
            classify_line(
                i + 1,
                lines[i].as_str(),
                next,
                links[i],
                labels[i],
                next_is_target,
                &comments[i],
            )
        };
        match read {
            Ok(t) => {
                let mut content: Vec<String> = Vec::new();
                content.push(t.content);
                assert(content.deep_view() =~= seq![t.content@]);
                let ghost before = tokens.deep_view();
                let token = Token::new(i + 1, t.kind, content);
                tokens.push(token);
                assert(tokens.deep_view() =~= before.push(token@));
                blank = t.takes_next;
            },
            Err(e) => {
                return Err(e);
            },
        }
        i = i + 1;
    }
    Ok(tokens)
}

/// Adds the line `line` to the content of the last of `tokens`.
fn extend_last(tokens: &mut Vec<Token>, line: String)
    requires
        old(tokens).len() > 0,
    ensures
        final(tokens).deep_view() == old(tokens).deep_view().drop_last().push(
            with_line(old(tokens).deep_view().last(), line@),
        ),
{
    let ghost before = tokens.deep_view();
    let mut last = tokens.pop().unwrap();
    assert(tokens.deep_view() =~= before.drop_last());
    assert(last@ == before.last());
    let ghost content = last.content.deep_view();
    last.content.push(line);
    assert(last.content.deep_view() =~= content.push(line@));
    let ghost rest = tokens.deep_view();
    tokens.push(last);
    assert(tokens.deep_view() =~= rest.push(last@));
}

/// The first line of the content of `token`; empty where it has no
/// content.
fn first_line_of(token: &Token) -> (line: String)
    ensures
        line@ == first_line(token@),
{
    if token.content.len() > 0 {
        token.content[0].clone()
    } else {
        String::new()
    }
}

/// Puts the token `token` of one line after the tokens `acc`, given
/// whether its line is indented and what the line is without its
/// indentation.
pub fn push_merged(acc: &mut Vec<Token>, token: Token, indented: bool, unindented: String)
    ensures
        final(acc).deep_view() == merge_with(
            old(acc).deep_view(),
            token@,
            indented,
            unindented@,
        ),
{
    let n = acc.len();
    if n > 0 && token.kind == TokenKind::P && acc[n - 1].kind == TokenKind::P {
        let line = first_line_of(&token);
        extend_last(acc, line);
    } else if n > 0 && token.kind == TokenKind::P && acc[n - 1].kind == TokenKind::Li && indented {
        extend_last(acc, unindented);
    } else {
        let ghost before = acc.deep_view();
        acc.push(token);
        assert(acc.deep_view() =~= before.push(token@));
    }
}

/// The tokens `tokens` of one line each with the lines that belong
/// together put into one token.
pub fn merge_tokens(tokens: Vec<Token>) -> (r: Vec<Token>)
    ensures
        r.deep_view() == merge_from(tokens.deep_view(), 0, Seq::<TokenView>::empty()),
{
    let ghost all = tokens.deep_view();
    let mut firsts: Vec<String> = Vec::new();
    let mut k: usize = 0;
    while k < tokens.len()
        invariant
            k <= tokens.len(),
            all == tokens.deep_view(),
            firsts.len() == k,
            forall|j: int| 0 <= j < k ==> (#[trigger] firsts[j])@ == first_line(all[j]),
        decreases tokens.len() - k,
    {
        assert(all[k as int] == tokens@[k as int]@);
        firsts.push(first_line_of(&tokens[k]));
        k = k + 1;
    }
    let indented = is_match_each(INDENT_PATTERN, &firsts);
    let empty = String::new();
    let unindented = replace_each(INDENT_PATTERN, &firsts, empty.as_str());
    let mut acc: Vec<Token> = Vec::new();
    let mut i: usize = 0;
    assert(acc.deep_view() =~= Seq::<TokenView>::empty());
    while i < tokens.len()
        invariant
            i <= tokens.len(),
            all == tokens.deep_view(),
            indented.len() == tokens.len(),
            unindented.len() == tokens.len(),
            forall|j: int|
                0 <= j < tokens.len() ==> #[trigger] indented[j] == regex_is_match(
                    INDENT_PATTERN@,
                    first_line(all[j]),
                ),
            forall|j: int|
                0 <= j < tokens.len() ==> (#[trigger] unindented[j])@ == regex_replace(
                    INDENT_PATTERN@,
                    first_line(all[j]),
                    Seq::<char>::empty(),
                ),
            merge_from(all, i as int, acc.deep_view()) == merge_from(
                all,
                0,
                Seq::<TokenView>::empty(),
            ),
        decreases tokens.len() - i,
    {
        assert(all[i as int] == tokens@[i as int]@);
        let content = copy_lines(&tokens[i].content, 0, tokens[i].content.len());
        assert(content.deep_view() =~= all[i as int].content);
        let token = Token::new(tokens[i].line, tokens[i].kind, content);
        push_merged(&mut acc, token, indented[i], unindented[i].clone());
        i = i + 1;
    }
    acc
}

/// The tokens `tokens` without those whose content is blank, and the
/// content of the others without the blank lines at its ends.
pub fn clean_tokens(tokens: Vec<Token>) -> (r: Vec<Token>)
    ensures
        r.deep_view() == clean_from(tokens.deep_view(), 0, Seq::<TokenView>::empty()),
        well_cleaned(r.deep_view()),
{
    let mut acc: Vec<Token> = Vec::new();
    let ghost all = tokens.deep_view();
    let mut i: usize = 0;
    assert(acc.deep_view() =~= Seq::<TokenView>::empty());
    while i < tokens.len()
        invariant
            i <= tokens.len(),
            all == tokens.deep_view(),
            well_cleaned(acc.deep_view()),
            clean_from(all, i as int, acc.deep_view()) == clean_from(
                all,
                0,
                Seq::<TokenView>::empty(),
            ),
        decreases tokens.len() - i,
    {
        assert(all[i as int] == tokens@[i as int]@);
        let blank = is_blank_str(concat_strings(&tokens[i].content).as_str());
        if !blank {
            let content = drop_blank_lines(&tokens[i].content);
            proof {
                lemma_cleaned_content(all[i as int].content);
            }
            let ghost before = acc.deep_view();
            let token = Token::new(tokens[i].line, tokens[i].kind, content);
            acc.push(token);
            assert(acc.deep_view() =~= before.push(token@));
        }
        i = i + 1;
    }
    acc
}

/// Content that is not blank keeps a line when the blank lines at its ends
/// are dropped, and then begins and ends with a line that is not blank.
proof fn lemma_cleaned_content(content: Seq<Seq<char>>)
    requires
        !is_blank(concat_all(content)),
    ensures
        ({
            let c = drop_blank_start(drop_blank_end(content));
            c.len() > 0 && !is_blank(c[0]) && !is_blank(c.last())
        }),
{
    lemma_concat_blank(content);
    let k = choose|k: int| 0 <= k < content.len() && !is_blank(#[trigger] content[k]);
    lemma_blank_end_keeps(content, k);
    let e = drop_blank_end(content);
    lemma_blank_start_keeps(e, k);
}

/// Dropping the blank lines at the end keeps every line up to one that is
/// not blank, and leaves a last line that is not blank.
proof fn lemma_blank_end_keeps(lines: Seq<Seq<char>>, k: int)
    requires
        0 <= k < lines.len(),
        !is_blank(lines[k]),
    ensures
        ({
            let e = drop_blank_end(lines);
            k < e.len() <= lines.len() && e == lines.take(e.len() as int) && !is_blank(e.last())
        }),
    decreases lines.len(),
{
    if is_blank(lines.last()) {
        let t = lines.drop_last();
        assert(t[k] == lines[k]);
        lemma_blank_end_keeps(t, k);
        let e = drop_blank_end(t);
        assert(t.take(e.len() as int) =~= lines.take(e.len() as int));
    } else {
        assert(lines.take(lines.len() as int) =~= lines);
    }
}

/// Dropping the blank lines at the start of lines that end with a line
/// that is not blank leaves lines that begin and end with such a line.
proof fn lemma_blank_start_keeps(lines: Seq<Seq<char>>, k: int)
    requires
        0 <= k < lines.len(),
        !is_blank(lines.last()),
    ensures
        ({
            let c = drop_blank_start(lines);
            c.len() > 0 && !is_blank(c[0]) && !is_blank(c.last())
        }),
    decreases lines.len(),
{
    if is_blank(lines[0]) {
        let t = lines.drop_first();
        assert(lines.len() > 1) by {
            if lines.len() == 1 {
                assert(lines.last() == lines[0]);
            }
        }
        assert(t.last() == lines.last());
        lemma_blank_start_keeps(t, 0);
    }
}

/// The tokens of `markdown`.
///
/// Each line gives one token; lines that belong together are then merged,
/// and tokens without content are dropped.
pub fn tokenize(markdown: String) -> (r: Result<Vec<Token>, TokenizeError>)
    ensures
        tokens_view(r) == tokens_of(markdown@),
        r matches Ok(tokens) ==> well_cleaned(tokens.deep_view()),
{
    let raw = match extract_tokens(markdown) {
        Ok(tokens) => tokens,
        Err(e) => {
            return Err(e);
        },
    };
    if !accepts(INDENT_PATTERN) {
        return Err(TokenizeError::InvalidPattern);
    }
    let merged = merge_tokens(raw);
    Ok(clean_tokens(merged))
}

} // verus!
