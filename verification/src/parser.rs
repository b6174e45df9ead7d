//! The parser: from the tokens of a text to the changelog it writes.
//!
//! The tokens are taken from the front in a fixed order: a flag comment,
//! the title, a description, the releases, the link definitions and a
//! footer. Nothing is taken twice and nothing may be left over.

use crate::changelog::{
    ChangeLogParseOptions, Changelog, ChangelogBuilder, ChangelogView, OptionsView,
};
use crate::changes::{ChangeKind, Changes, ChangesView, kind_of};
use crate::consts::{
    COMPARE_LINK_PATTERN, DATE_FORMAT, DEFAULT_HEAD, NEWLINE, RELEASE_PATTERN, UNRELEASED_PATTERN,
    UNRELEASED_WORD, YANKED_WORD,
};
use crate::date::{Date, chrono_parse_date};
use crate::error::ParseError;
use crate::link::{Link, LinkView, link_of};
use crate::pattern::{
    accepts, captures, captures_each, group, group_at, regex_accepts, regex_captures,
};
use crate::release::{Release, ReleaseView};
use crate::sorting::{
    after_unreleased, at_most_one_unreleased, descending, in_order, lemma_sorted_releases, sort,
    sorted_releases,
};
use crate::text::{
    contains, copy_optional_text, has_sub, join, lowercase_of, to_lowercase, trim, trim_of,
};
use crate::token::{Token, TokenKind, TokenView, tokenize, tokens_of};
use crate::utils::{
    content_of, content_view, first_line, front_line, get_content, get_text_content, is_running,
    running_from, running_text, text_content, token_text,
};
use crate::version::{Version, VersionView, semver_parse};
use vstd::prelude::*;

verus! {

/// The release of a heading with version and date, given what was read
/// from the two: a version or a date that could not be read is an error.
pub open spec fn dated_release(
    line: usize,
    version: Option<VersionView>,
    date: Option<Date>,
    yanked: bool,
) -> Result<ReleaseView, ParseError> {
    match version {
        None => Err(ParseError::UnparsableVersion { line }),
        Some(v) => match date {
            None => Err(ParseError::UnparsableDate { line }),
            Some(d) => Ok(
                ReleaseView { version: Some(v), yanked, date: Some(d), ..ReleaseView::empty() },
            ),
        },
    }
}

/// The version that stands in the group of index 1 of `groups`, where
/// there is such a group and it writes a version.
pub open spec fn optional_version(groups: Option<Seq<Option<Seq<char>>>>) -> Option<VersionView> {
    match groups {
        Some(g) => match group_at(g, 1) {
            Some(text) => semver_parse(trim_of(text)),
            None => None,
        },
        None => None,
    }
}

/// The release of the heading `heading`, all in lower case, on line
/// `line`, given the groups `dated` of the heading as that of a release
/// with version and date, and the groups `undated` of the heading as that
/// of the changes not yet released.
///
/// A heading with version and date gives a dated release. Any other
/// heading that holds the word "unreleased" gives a release without date;
/// it has a version where the heading names one. Every other heading is an
/// error.
pub open spec fn heading_release(
    line: usize,
    heading: Seq<char>,
    dated: Option<Seq<Option<Seq<char>>>>,
    undated: Option<Seq<Option<Seq<char>>>>,
) -> Result<ReleaseView, ParseError> {
    match dated {
        Some(groups) => match (group_at(groups, 1), group_at(groups, 2)) {
            (Some(version), Some(date)) => dated_release(
                line,
                semver_parse(trim_of(version)),
                chrono_parse_date(date, DATE_FORMAT@),
                group_at(groups, 3) is Some,
            ),
            _ => Err(ParseError::UnrecognizedRelease { line }),
        },
        None => if has_sub(heading, UNRELEASED_WORD@) {
            Ok(
                ReleaseView {
                    version: optional_version(undated),
                    yanked: has_sub(heading, YANKED_WORD@),
                    ..ReleaseView::empty()
                },
            )
        } else {
            Err(ParseError::UnrecognizedRelease { line })
        },
    }
}

/// The release of the heading `heading` on line `line`.
pub open spec fn release_of_heading(line: usize, heading: Seq<char>) -> Result<
    ReleaseView,
    ParseError,
> {
    let lowered = lowercase_of(heading);
    heading_release(
        line,
        lowered,
        regex_captures(RELEASE_PATTERN@, lowered),
        regex_captures(UNRELEASED_PATTERN@, lowered),
    )
}

/// The changes `changes` followed by the list items at the front of
/// `tokens` as entries of the kind `kind`, and the tokens after them.
pub open spec fn items_from(tokens: Seq<TokenView>, kind: ChangeKind, changes: ChangesView) -> (
    ChangesView,
    Seq<TokenView>,
)
    decreases tokens.len(),
{
    let (item, rest) = content_of(tokens, seq![TokenKind::Li], false);
    match item {
        Ok(Some(text)) => items_from(rest, kind, changes.with(kind, text)),
        _ => (changes, rest),
    }
}

/// Whether `rest` is what is left of `tokens` after some were taken off
/// the front.
pub open spec fn is_rest_of(rest: Seq<TokenView>, tokens: Seq<TokenView>) -> bool {
    rest.len() <= tokens.len() && rest == tokens.skip(tokens.len() - rest.len())
}

/// What is left of what is left of tokens is left of the tokens.
pub proof fn lemma_rest_of_rest(a: Seq<TokenView>, b: Seq<TokenView>, c: Seq<TokenView>)
    requires
        is_rest_of(a, b),
        is_rest_of(b, c),
    ensures
        is_rest_of(a, c),
{
    assert(c.skip(c.len() - b.len()).skip(b.len() - a.len()) =~= c.skip(c.len() - a.len()));
}

/// Taking the content of the first token leaves the tokens or those
/// after the first.
pub proof fn lemma_content_rest(tokens: Seq<TokenView>, kinds: Seq<TokenKind>, required: bool)
    ensures
        is_rest_of(content_of(tokens, kinds, required).1, tokens),
{
    assert(tokens.skip(0) =~= tokens);
    if tokens.len() > 0 {
        assert(tokens.skip(1) =~= tokens.drop_first());
    }
}

/// The list items at the front of tokens are taken off, and nothing is
/// added.
pub proof fn lemma_items_rest(tokens: Seq<TokenView>, kind: ChangeKind, changes: ChangesView)
    ensures
        is_rest_of(items_from(tokens, kind, changes).1, tokens),
    decreases tokens.len(),
{
    let (item, rest) = content_of(tokens, seq![TokenKind::Li], false);
    lemma_content_rest(tokens, seq![TokenKind::Li], false);
    match item {
        Ok(Some(text)) => {
            lemma_items_rest(rest, kind, changes.with(kind, text));
            lemma_rest_of_rest(items_from(tokens, kind, changes).1, rest, tokens);
        },
        _ => {},
    }
}

/// The changes `changes` followed by the sections of changes at the front
/// of `tokens`, and the tokens after them. Each section is a third-level
/// heading that names a kind of change, in whatever case, and the list
/// items after it. A heading that names no kind is an error.
pub open spec fn sections_from(tokens: Seq<TokenView>, changes: ChangesView) -> Result<
    (ChangesView, Seq<TokenView>),
    ParseError,
>
    decreases tokens.len(),
{
    let line = front_line(tokens);
    let (heading, rest) = content_of(tokens, seq![TokenKind::H3], false);
    match heading {
        Ok(Some(text)) => match kind_of(lowercase_of(text)) {
            Err(_) => Err(ParseError::UnknownChangeKind { line }),
            Ok(kind) => {
                proof {
                    lemma_items_rest(rest, kind, changes);
                }
                let (more, after) = items_from(rest, kind, changes);
                sections_from(after, more)
            },
        },
        _ => Ok((changes, rest)),
    }
}

/// The sections at the front of tokens are taken off, and nothing is
/// added.
pub proof fn lemma_sections_rest(tokens: Seq<TokenView>, changes: ChangesView)
    ensures
        sections_from(tokens, changes) matches Ok((_, rest)) ==> is_rest_of(rest, tokens),
    decreases tokens.len(),
{
    let (heading, rest) = content_of(tokens, seq![TokenKind::H3], false);
    lemma_content_rest(tokens, seq![TokenKind::H3], false);
    match heading {
        Ok(Some(text)) => match kind_of(lowercase_of(text)) {
            Err(_) => {},
            Ok(kind) => {
                lemma_items_rest(rest, kind, changes);
                let (more, after) = items_from(rest, kind, changes);
                lemma_sections_rest(after, more);
                lemma_rest_of_rest(after, rest, tokens);
                match sections_from(after, more) {
                    Ok((_, last)) => {
                        lemma_rest_of_rest(last, after, tokens);
                    },
                    Err(_) => {},
                }
            },
        },
        _ => {},
    }
}

/// The running text at the front of tokens is taken off, and nothing is
/// added.
pub proof fn lemma_running_rest(tokens: Seq<TokenView>, acc: Seq<Seq<char>>)
    ensures
        is_rest_of(running_from(tokens, acc).1, tokens),
    decreases tokens.len(),
{
    if tokens.len() > 0 && is_running(tokens[0]) {
        let rest = tokens.drop_first();
        lemma_running_rest(rest, acc.push(running_text(tokens[0])));
        assert(tokens.skip(1) =~= rest);
        lemma_rest_of_rest(running_from(tokens, acc).1, rest, tokens);
    } else {
        assert(tokens.skip(0) =~= tokens);
    }
}

/// The release `base` with the description and the changes that stand at
/// the front of `tokens`, and the tokens after them.
pub open spec fn release_body(tokens: Seq<TokenView>, base: ReleaseView) -> Result<
    (ReleaseView, Seq<TokenView>),
    ParseError,
> {
    let (description, rest) = text_content(tokens);
    match sections_from(rest, ChangesView::empty()) {
        Err(e) => Err(e),
        Ok((changes, after)) => Ok((ReleaseView { description, changes, ..base }, after)),
    }
}

/// The releases `acc` followed by the releases at the front of `tokens`,
/// and the tokens after them. Each release is a second-level heading, a
/// description and sections of changes.
pub open spec fn releases_from(tokens: Seq<TokenView>, acc: Seq<ReleaseView>) -> Result<
    (Seq<ReleaseView>, Seq<TokenView>),
    ParseError,
>
    decreases tokens.len(),
{
    let line = front_line(tokens);
    let (heading, rest) = content_of(tokens, seq![TokenKind::H2], false);
    match heading {
        Ok(Some(text)) => match release_of_heading(line, text) {
            Err(e) => Err(e),
            Ok(base) => match release_body(rest, base) {
                Err(e) => Err(e),
                Ok((release, after)) => {
                    proof {
                        lemma_running_rest(rest, Seq::<Seq<char>>::empty());
                        lemma_sections_rest(text_content(rest).1, ChangesView::empty());
                    }
                    releases_from(after, acc.push(release))
                },
            },
        },
        _ => Ok((acc, rest)),
    }
}

/// The URL of the repository after the link definition `text` was read:
/// the URL known before, and otherwise the one that the definition shows
/// where its target compares two refs, given the groups `compare` of the
/// definition as such a link.
pub open spec fn url_given(url: Option<Seq<char>>, compare: Option<Seq<Option<Seq<char>>>>) -> Option<
    Seq<char>,
> {
    match url {
        Some(known) => Some(known),
        None => match compare {
            Some(groups) => group_at(groups, 1),
            None => None,
        },
    }
}

/// The URL of the repository after the link definition `text` was read.
pub open spec fn url_after(url: Option<Seq<char>>, text: Seq<char>) -> Option<Seq<char>> {
    url_given(url, regex_captures(COMPARE_LINK_PATTERN@, text))
}

/// The link definitions `links` followed by those at the front of
/// `tokens`, the URL of the repository as known after them, and the tokens
/// after them. A link definition without target is an error.
pub open spec fn links_from(tokens: Seq<TokenView>, links: Seq<LinkView>, url: Option<Seq<char>>) -> Result<
    (Seq<LinkView>, Option<Seq<char>>, Seq<TokenView>),
    ParseError,
>
    decreases tokens.len(),
{
    let line = front_line(tokens);
    let (definition, rest) = content_of(tokens, seq![TokenKind::Link], false);
    match definition {
        Ok(Some(text)) => match link_of(text) {
            Err(_) => Err(ParseError::MalformedLink { line }),
            Ok(link) => links_from(rest, links.push(link), url_after(url, text)),
        },
        _ => Ok((links, url, rest)),
    }
}

/// The footer at the front of `tokens`: the running text after a
/// horizontal rule; and the tokens after it.
pub open spec fn footer_of(tokens: Seq<TokenView>) -> (Option<Seq<char>>, Seq<TokenView>) {
    let (rule, rest) = content_of(tokens, seq![TokenKind::Hr], false);
    match rule {
        Ok(Some(_)) => text_content(rest),
        _ => (None, rest),
    }
}

/// Whether the patterns that recognise headings and links are regular
/// expressions.
pub open spec fn parse_patterns_accepted() -> bool {
    &&& regex_accepts(COMPARE_LINK_PATTERN@)
    &&& regex_accepts(UNRELEASED_PATTERN@)
    &&& regex_accepts(RELEASE_PATTERN@)
}

/// The ref that stands for the changes not yet released: the one given,
/// and otherwise the default.
pub open spec fn head_of(head: Option<Seq<char>>) -> Seq<char> {
    match head {
        Some(h) => h,
        None => DEFAULT_HEAD@,
    }
}

/// The changelog that the tokens `tokens` write, under the options
/// `opts`.
///
/// In this order: an optional flag comment; the title, which is required;
/// a description; the releases, which are put in the order of a changelog;
/// the link definitions; a footer. Tokens that are left over are an error.
pub open spec fn parsed_tokens(tokens: Seq<TokenView>, opts: OptionsView) -> Result<
    ChangelogView,
    ParseError,
> {
    if !parse_patterns_accepted() {
        Err(ParseError::InvalidPattern)
    } else {
        let (flag, t1) = content_of(tokens, seq![TokenKind::Flag], false);
        let (title, t2) = content_of(t1, seq![TokenKind::H1], true);
        match (flag, title) {
            (Ok(flag), Ok(title)) => {
                let (description, t3) = text_content(t2);
                match releases_from(t3, Seq::<ReleaseView>::empty()) {
                    Err(e) => Err(e),
                    Ok((releases, t4)) => match links_from(
                        t4,
                        Seq::<LinkView>::empty(),
                        opts.url,
                    ) {
                        Err(e) => Err(e),
                        Ok((links, url, t5)) => {
                            let (footer, t6) = footer_of(t5);
                            if t6.len() > 0 {
                                Err(ParseError::UnexpectedTrailingTokens { line: t6[0].line })
                            } else {
                                Ok(
                                    ChangelogView {
                                        flag,
                                        title,
                                        description,
                                        head: head_of(opts.head),
                                        footer,
                                        url,
                                        releases: sorted_releases(releases),
                                        links,
                                        tag_prefix: opts.tag_prefix,
                                    },
                                )
                            }
                        },
                    },
                }
            },
            (Err(e), _) => Err(e),
            (_, Err(e)) => Err(e),
        }
    }
}

/// The changelog that the text `text` writes, under the options `opts`.
pub open spec fn parsed_text(text: Seq<char>, opts: OptionsView) -> Result<
    ChangelogView,
    ParseError,
> {
    match tokens_of(text) {
        Err(e) => Err(ParseError::Tokenize(e)),
        Ok(tokens) => parsed_tokens(tokens, opts),
    }
}

/// The releases of a changelog that was read are in order, whatever the
/// order of their headings: the first release without version and date
/// comes first, and the dates of the others never go up. Where the text
/// has at most one heading without version and date, this is the order
/// that a changelog keeps.
pub proof fn lemma_parsed_in_order(tokens: Seq<TokenView>, opts: OptionsView)
    ensures
        parsed_tokens(tokens, opts) matches Ok(c) ==> descending(after_unreleased(c.releases)),
        parsed_tokens(tokens, opts) matches Ok(c) ==> (at_most_one_unreleased(
            releases_read(tokens),
        ) ==> in_order(c.releases)),
{
    if parsed_tokens(tokens, opts) is Ok {
        lemma_sorted_releases(releases_read(tokens));
    }
}

/// The releases that the tokens `tokens` write, in the order of their
/// headings; none where the tokens write no changelog.
pub open spec fn releases_read(tokens: Seq<TokenView>) -> Seq<ReleaseView> {
    let t1 = content_of(tokens, seq![TokenKind::Flag], false).1;
    let t2 = content_of(t1, seq![TokenKind::H1], true).1;
    let t3 = text_content(t2).1;
    match releases_from(t3, Seq::<ReleaseView>::empty()) {
        Ok((releases, _)) => releases,
        Err(_) => Seq::<ReleaseView>::empty(),
    }
}

/// The outcome of parsing as plain values.
pub open spec fn changelog_view(r: Result<Changelog, ParseError>) -> Result<
    ChangelogView,
    ParseError,
> {
    match r {
        Ok(c) => Ok(c@),
        Err(e) => Err(e),
    }
}

/// The outcome of reading a release as plain values.
pub open spec fn release_view(r: Result<Release, ParseError>) -> Result<ReleaseView, ParseError> {
    match r {
        Ok(release) => Ok(release@),
        Err(e) => Err(e),
    }
}

/// The one kind `kind`.
fn only(kind: TokenKind) -> (kinds: Vec<TokenKind>)
    ensures
        kinds@ == seq![kind],
{
    let mut kinds: Vec<TokenKind> = Vec::new();
    kinds.push(kind);
    assert(kinds@ =~= seq![kind]);
    kinds
}

/// The release of a heading with version and date, given what was read
/// from the two.
pub fn release_with(line: usize, version: Option<Version>, date: Option<Date>, yanked: bool) -> (r:
    Result<Release, ParseError>)
    ensures
        release_view(r) == dated_release(line, version.deep_view(), date, yanked),
{
    match version {
        None => Err(ParseError::UnparsableVersion { line }),
        Some(v) => match date {
            None => Err(ParseError::UnparsableDate { line }),
            Some(d) => {
                let mut release = Release::new();
                release.version = Some(v);
                release.date = Some(d);
                release.yanked = yanked;
                Ok(release)
            },
        },
    }
}

/// The version that stands in the group of index 1 of `groups`.
fn version_in(groups: &Option<Vec<Option<String>>>) -> (r: Option<Version>)
    ensures
        r.deep_view() == optional_version(groups.deep_view()),
{
    match groups {
        Some(g) => match group(g, 1) {
            Some(text) => Version::parse(trim(text.as_str()).as_str()),
            None => None,
        },
        None => None,
    }
}

/// The release of the heading `heading`, all in lower case, on line
/// `line`, given the groups that the patterns of the two forms of heading
/// found in it.
pub fn release_from_heading(
    line: usize,
    heading: &str,
    dated: &Option<Vec<Option<String>>>,
    undated: &Option<Vec<Option<String>>>,
) -> (r: Result<Release, ParseError>)
    ensures
        release_view(r) == heading_release(
            line,
            heading@,
            dated.deep_view(),
            undated.deep_view(),
        ),
{
    match dated {
        Some(groups) => match (group(groups, 1), group(groups, 2)) {
            (Some(version), Some(date)) => {
                let version = Version::parse(trim(version.as_str()).as_str());
                let date = Date::parse(date.as_str());
                let yanked = group(groups, 3).is_some();
                release_with(line, version, date, yanked)
            },
            _ => Err(ParseError::UnrecognizedRelease { line }),
        },
        None => {
            if contains(heading, UNRELEASED_WORD) {
                let mut release = Release::new();
                release.version = version_in(undated);
                release.yanked = contains(heading, YANKED_WORD);
                Ok(release)
            } else {
                Err(ParseError::UnrecognizedRelease { line })
            }
        },
    }
}

/// The release of the heading `heading` on line `line`.
pub fn read_heading(line: usize, heading: &str) -> (r: Result<Release, ParseError>)
    ensures
        release_view(r) == release_of_heading(line, heading@),
{
    let lowered = to_lowercase(heading);
    let dated = captures(RELEASE_PATTERN, lowered.as_str());
    let undated = if dated.is_none() && contains(lowered.as_str(), UNRELEASED_WORD) {
        captures(UNRELEASED_PATTERN, lowered.as_str())
    } else {
        None
    };
    release_from_heading(line, lowered.as_str(), &dated, &undated)
}

/// Takes the list items at the front of `tokens` as entries of the kind
/// `kind` into `changes`.
pub fn take_items(tokens: &mut Vec<Token>, kind: ChangeKind, changes: &mut Changes)
    ensures
        (final(changes)@, final(tokens).deep_view()) == items_from(
            old(tokens).deep_view(),
            kind,
            old(changes)@,
        ),
{
    loop
        invariant
            items_from(tokens.deep_view(), kind, changes@) == items_from(
                old(tokens).deep_view(),
                kind,
                old(changes)@,
            ),
        decreases tokens.len(),
    {
        let ghost before = tokens.deep_view();
        match get_content(tokens, only(TokenKind::Li), false) {
            Ok(Some(text)) => {
                assert(tokens.deep_view().len() < before.len());
                changes.add(kind, text);
            },
            _ => {
                return ;
            },
        }
    }
}

/// Takes the sections of changes at the front of `tokens`.
pub fn take_sections(tokens: &mut Vec<Token>) -> (r: Result<Changes, ParseError>)
    ensures
        match sections_from(old(tokens).deep_view(), ChangesView::empty()) {
            Ok((changes, rest)) => r matches Ok(c) && c@ == changes && final(tokens).deep_view()
                == rest,
            Err(e) => r == Err::<Changes, ParseError>(e),
        },
{
    let mut changes = Changes::new();
    loop
        invariant
            sections_from(tokens.deep_view(), changes@) == sections_from(
                old(tokens).deep_view(),
                ChangesView::empty(),
            ),
        decreases tokens.len(),
    {
        let ghost before = tokens.deep_view();
        let ghost so_far = changes@;
        let line = first_line(tokens);
        match get_content(tokens, only(TokenKind::H3), false) {
            Ok(Some(heading)) => {
                let kind = match ChangeKind::from_str(to_lowercase(heading.as_str()).as_str()) {
                    Ok(kind) => kind,
                    Err(_) => {
                        return Err(ParseError::UnknownChangeKind { line });
                    },
                };
                proof {
                    lemma_items_rest(tokens.deep_view(), kind, so_far);
                }
                take_items(tokens, kind, &mut changes);
                assert(tokens.deep_view().len() < before.len());
            },
            _ => {
                return Ok(changes);
            },
        }
    }
}

/// The release of a heading and the description and changes after it
/// leave tokens that were there before.
pub proof fn lemma_release_rest(tokens: Seq<TokenView>, base: ReleaseView)
    ensures
        release_body(tokens, base) matches Ok((_, rest)) ==> is_rest_of(rest, tokens),
{
    lemma_running_rest(tokens, Seq::<Seq<char>>::empty());
    let after = text_content(tokens).1;
    lemma_sections_rest(after, ChangesView::empty());
    match sections_from(after, ChangesView::empty()) {
        Ok((_, rest)) => {
            lemma_rest_of_rest(rest, after, tokens);
        },
        Err(_) => {},
    }
}

/// The text of each of `tokens` in lower case.
fn lowered_texts(tokens: &Vec<Token>) -> (lowered: Vec<String>)
    ensures
        lowered.len() == tokens.len(),
        forall|j: int|
            0 <= j < tokens.len() ==> (#[trigger] lowered[j])@ == lowercase_of(
                token_text(tokens.deep_view()[j]),
            ),
{
    let mut lowered: Vec<String> = Vec::new();
    let mut k: usize = 0;
    while k < tokens.len()
        invariant
            k <= tokens.len(),
            lowered.len() == k,
            forall|j: int|
                0 <= j < k ==> (#[trigger] lowered[j])@ == lowercase_of(
                    token_text(tokens.deep_view()[j]),
                ),
        decreases tokens.len() - k,
    {
        assert(tokens.deep_view()[k as int] == tokens@[k as int]@);
        lowered.push(to_lowercase(join(&tokens[k].content, NEWLINE).as_str()));
        k = k + 1;
    }
    lowered
}

/// Takes the releases at the front of `tokens`.
pub fn take_releases(tokens: &mut Vec<Token>) -> (r: Result<Vec<Release>, ParseError>)
    ensures
        match releases_from(old(tokens).deep_view(), Seq::<ReleaseView>::empty()) {
            Ok((releases, rest)) => r matches Ok(v) && v.deep_view() == releases
                && final(tokens).deep_view() == rest,
            Err(e) => r == Err::<Vec<Release>, ParseError>(e),
        },
{
    let ghost given = tokens.deep_view();
    let total = tokens.len();
    let lowered = lowered_texts(tokens);
    let dated = captures_each(RELEASE_PATTERN, &lowered);
    let undated = captures_each(UNRELEASED_PATTERN, &lowered);
    let mut releases: Vec<Release> = Vec::new();
    assert(releases.deep_view() =~= Seq::<ReleaseView>::empty());
    assert(given.skip(0) =~= given);
    loop
        invariant
            given == old(tokens).deep_view(),
            total == given.len(),
            is_rest_of(tokens.deep_view(), given),
            tokens.len() == tokens.deep_view().len(),
            lowered.len() == total,
            dated.len() == total,
            undated.len() == total,
            forall|j: int|
                0 <= j < total ==> (#[trigger] lowered[j])@ == lowercase_of(token_text(given[j])),
            forall|j: int|
                0 <= j < total ==> (#[trigger] dated[j]).deep_view() == regex_captures(
                    RELEASE_PATTERN@,
                    lowered[j]@,
                ),
            forall|j: int|
                0 <= j < total ==> (#[trigger] undated[j]).deep_view() == regex_captures(
                    UNRELEASED_PATTERN@,
                    lowered[j]@,
                ),
            releases_from(tokens.deep_view(), releases.deep_view()) == releases_from(
                given,
                Seq::<ReleaseView>::empty(),
            ),
        decreases tokens.len(),
    {
        let ghost before = tokens.deep_view();
        let at = total - tokens.len();
        let line = first_line(tokens);
        match get_content(tokens, only(TokenKind::H2), false) {
            Ok(Some(heading)) => {
                assert(before[0] == given[at as int]);
                let mut release = match release_from_heading(
                    line,
                    lowered[at].as_str(),
                    &dated[at],
                    &undated[at],
                ) {
                    Ok(release) => release,
                    Err(e) => {
                        return Err(e);
                    },
                };
                let ghost after_heading = tokens.deep_view();
                proof {
                    lemma_content_rest(before, seq![TokenKind::H2], false);
                    lemma_release_rest(after_heading, release@);
                }
                release.description = match get_text_content(tokens) {
                    Ok(text) => text,
                    Err(e) => {
                        return Err(e);
                    },
                };
                release.changes = match take_sections(tokens) {
                    Ok(changes) => changes,
                    Err(e) => {
                        return Err(e);
                    },
                };
                let ghost so_far = releases.deep_view();
                releases.push(release);
                assert(releases.deep_view() =~= so_far.push(release@));
                proof {
                    lemma_rest_of_rest(tokens.deep_view(), after_heading, before);
                    lemma_rest_of_rest(tokens.deep_view(), before, given);
                }
            },
            _ => {
                return Ok(releases);
            },
        }
    }
}

/// The URL of the repository after a link definition was read, given the
/// groups of the definition as a link that compares two refs.
pub fn url_from(url: Option<String>, compare: &Option<Vec<Option<String>>>) -> (r: Option<String>)
    ensures
        r.deep_view() == url_given(url.deep_view(), compare.deep_view()),
{
    match url {
        Some(known) => Some(known),
        None => match compare {
            Some(groups) => group(groups, 1),
            None => None,
        },
    }
}

/// Takes the link definitions at the front of `tokens`. `url` is the URL
/// of the repository where it is known; otherwise it is taken from the
/// first definition whose target compares two refs.
pub fn take_links(tokens: &mut Vec<Token>, url: Option<String>) -> (r: Result<
    (Vec<Link>, Option<String>),
    ParseError,
>)
    ensures
        match links_from(old(tokens).deep_view(), Seq::<LinkView>::empty(), url.deep_view()) {
            Ok((links, found, rest)) => r matches Ok((v, u)) && v.deep_view() == links
                && u.deep_view() == found && final(tokens).deep_view() == rest,
            Err(e) => r == Err::<(Vec<Link>, Option<String>), ParseError>(e),
        },
{
    let mut links: Vec<Link> = Vec::new();
    let ghost given = url.deep_view();
    let mut known = url;
    assert(links.deep_view() =~= Seq::<LinkView>::empty());
    loop
        invariant
            links_from(tokens.deep_view(), links.deep_view(), known.deep_view()) == links_from(
                old(tokens).deep_view(),
                Seq::<LinkView>::empty(),
                given,
            ),
            given == url.deep_view(),
        decreases tokens.len(),
    {
        let ghost before = tokens.deep_view();
        let line = first_line(tokens);
        match get_content(tokens, only(TokenKind::Link), false) {
            Ok(Some(text)) => {
                let compare = if known.is_none() {
                    captures(COMPARE_LINK_PATTERN, text.as_str())
                } else {
                    None
                };
                known = url_from(known, &compare);
                let link = match Link::parse(text) {
                    Ok(link) => link,
                    Err(_) => {
                        return Err(ParseError::MalformedLink { line });
                    },
                };
                let ghost so_far = links.deep_view();
                links.push(link);
                assert(links.deep_view() =~= so_far.push(link@));
                assert(tokens.deep_view().len() < before.len());
            },
            _ => {
                return Ok((links, known));
            },
        }
    }
}

/// Takes the footer at the front of `tokens`: the running text after a
/// horizontal rule.
pub fn take_footer(tokens: &mut Vec<Token>) -> (footer: Option<String>)
    ensures
        (footer.deep_view(), final(tokens).deep_view()) == footer_of(old(tokens).deep_view()),
{
    match get_content(tokens, only(TokenKind::Hr), false) {
        Ok(Some(_)) => match get_text_content(tokens) {
            Ok(text) => text,
            Err(_) => None,
        },
        _ => None,
    }
}

/// The changelog that the tokens `tokens` write, under the options
/// `opts`.
pub fn process_tokens(tokens: Vec<Token>, opts: ChangeLogParseOptions) -> (r: Result<
    Changelog,
    ParseError,
>)
    ensures
        changelog_view(r) == parsed_tokens(tokens.deep_view(), opts@),
        r matches Ok(c) ==> descending(after_unreleased(c@.releases)),
{
    proof {
        lemma_parsed_in_order(tokens.deep_view(), opts@);
    }
    if !accepts(COMPARE_LINK_PATTERN) || !accepts(UNRELEASED_PATTERN) || !accepts(RELEASE_PATTERN) {
        return Err(ParseError::InvalidPattern);
    }
    let mut tokens = tokens;
    let flag = match get_content(&mut tokens, only(TokenKind::Flag), false) {
        Ok(flag) => flag,
        Err(e) => {
            return Err(e);
        },
    };
    let title = match get_content(&mut tokens, only(TokenKind::H1), true) {
        Ok(title) => title,
        Err(e) => {
            return Err(e);
        },
    };
    let description = match get_text_content(&mut tokens) {
        Ok(text) => text,
        Err(e) => {
            return Err(e);
        },
    };
    let releases = match take_releases(&mut tokens) {
        Ok(releases) => releases,
        Err(e) => {
            return Err(e);
        },
    };
    let (links, url) = match take_links(&mut tokens, copy_optional_text(&opts.url)) {
        Ok(found) => found,
        Err(e) => {
            return Err(e);
        },
    };
    let footer = take_footer(&mut tokens);
    if tokens.len() > 0 {
        return Err(ParseError::UnexpectedTrailingTokens { line: tokens[0].line });
    }
    let head = match opts.head {
        Some(head) => head,
        None => DEFAULT_HEAD.to_string(),
    };
    Ok(
        Changelog {
            flag,
            title,
            description,
            head,
            footer,
            url,
            releases: sort(releases),
            links,
            tag_prefix: opts.tag_prefix,
        },
    )
}

/// A parser at work: the tokens that are left, the options, and the
/// changelog as far as it is read.
pub struct Parser {
    builder: ChangelogBuilder,
    tokens: Vec<Token>,
    opts: ChangeLogParseOptions,
}

impl Parser {
    /// The changelog that the text `markdown` writes, under the options
    /// `opts`.
    pub fn parse(markdown: String, opts: ChangeLogParseOptions) -> (r: Result<
        Changelog,
        ParseError,
    >)
        ensures
            changelog_view(r) == parsed_text(markdown@, opts@),
            r matches Ok(c) ==> descending(after_unreleased(c@.releases)),
    {
        proof {
            match tokens_of(markdown@) {
                Ok(read) => {
                    lemma_parsed_in_order(read, opts@);
                },
                Err(_) => {},
            }
        }
        let tokens = match tokenize(markdown) {
            Ok(tokens) => tokens,
            Err(e) => {
                return Err(ParseError::Tokenize(e));
            },
        };
        if !accepts(COMPARE_LINK_PATTERN) || !accepts(UNRELEASED_PATTERN) || !accepts(
            RELEASE_PATTERN,
        ) {
            return Err(ParseError::InvalidPattern);
        }
        let mut parser = Parser { builder: ChangelogBuilder::new(), tokens, opts };
        parser.parse_opts();
        match parser.parse_meta() {
            Ok(_) => {},
            Err(e) => {
                return Err(e);
            },
        }
        match parser.parse_releases() {
            Ok(_) => {},
            Err(e) => {
                return Err(e);
            },
        }
        match parser.parse_links() {
            Ok(_) => {},
            Err(e) => {
                return Err(e);
            },
        }
        parser.parse_footer();
        parser.build()
    }

    /// Takes over what the options give: the URL of the repository, the
    /// prefix of its tags and the ref of the changes not yet released.
    fn parse_opts(&mut self)
        ensures
            final(self).builder@ == (ChangelogView {
                url: old(self).opts@.url,
                tag_prefix: old(self).opts@.tag_prefix,
                head: head_of(old(self).opts@.head),
                ..old(self).builder@
            }),
            final(self).tokens == old(self).tokens,
            final(self).opts == old(self).opts,
    {
        self.builder.changelog.url = copy_optional_text(&self.opts.url);
        self.builder.changelog.tag_prefix = copy_optional_text(&self.opts.tag_prefix);
        self.builder.changelog.head = match &self.opts.head {
            Some(head) => head.clone(),
            None => self.builder.default_head(),
        };
    }

    /// Reads the flag comment, the title and the description.
    fn parse_meta(&mut self) -> (r: Result<(), ParseError>)
        ensures
            final(self).opts == old(self).opts,
            ({
                let (flag, t1) = content_of(old(self).tokens.deep_view(), seq![TokenKind::Flag], false);
                let (title, t2) = content_of(t1, seq![TokenKind::H1], true);
                let (description, t3) = text_content(t2);
                match (flag, title) {
                    (Ok(flag), Ok(title)) => r is Ok && final(self).tokens.deep_view() == t3
                        && final(self).builder@ == (ChangelogView {
                        flag,
                        title,
                        description,
                        ..old(self).builder@
                    }),
                    (Err(e), _) => r == Err::<(), ParseError>(e),
                    (_, Err(e)) => r == Err::<(), ParseError>(e),
                }
            }),
    {
        let flag = match self.get_content(only(TokenKind::Flag), false) {
            Ok(flag) => flag,
            Err(e) => {
                return Err(e);
            },
        };
        let title = match self.get_content(only(TokenKind::H1), true) {
            Ok(title) => title,
            Err(e) => {
                return Err(e);
            },
        };
        let description = match self.get_text_content() {
            Ok(text) => text,
            Err(e) => {
                return Err(e);
            },
        };
        self.builder.changelog.flag = flag;
        self.builder.changelog.title = title;
        self.builder.changelog.description = description;
        Ok(())
    }

    /// Reads the releases and puts them in the order of a changelog.
    fn parse_releases(&mut self) -> (r: Result<(), ParseError>)
        ensures
            final(self).opts == old(self).opts,
            match releases_from(old(self).tokens.deep_view(), Seq::<ReleaseView>::empty()) {
                Ok((releases, rest)) => r is Ok && final(self).tokens.deep_view() == rest
                    && final(self).builder@ == (ChangelogView {
                    releases: sorted_releases(releases),
                    ..old(self).builder@
                }),
                Err(e) => r == Err::<(), ParseError>(e),
            },
    {
        let releases = match take_releases(&mut self.tokens) {
            Ok(releases) => releases,
            Err(e) => {
                return Err(e);
            },
        };
        self.builder.changelog.releases = sort(releases);
        Ok(())
    }

    /// Reads the link definitions, and takes the URL of the repository
    /// from them where the options give none.
    fn parse_links(&mut self) -> (r: Result<(), ParseError>)
        ensures
            final(self).opts == old(self).opts,
            match links_from(
                old(self).tokens.deep_view(),
                Seq::<LinkView>::empty(),
                old(self).opts@.url,
            ) {
                Ok((links, url, rest)) => r is Ok && final(self).tokens.deep_view() == rest
                    && final(self).builder@ == (ChangelogView { links, url, ..old(self).builder@ }),
                Err(e) => r == Err::<(), ParseError>(e),
            },
    {
        let (links, url) = match take_links(&mut self.tokens, copy_optional_text(&self.opts.url)) {
            Ok(found) => found,
            Err(e) => {
                return Err(e);
            },
        };
        self.builder.changelog.links = links;
        self.builder.changelog.url = url;
        Ok(())
    }

    /// Reads the footer.
    fn parse_footer(&mut self)
        ensures
            final(self).opts == old(self).opts,
            final(self).tokens.deep_view() == footer_of(old(self).tokens.deep_view()).1,
            final(self).builder@ == (ChangelogView {
                footer: footer_of(old(self).tokens.deep_view()).0,
                ..old(self).builder@
            }),
    {
        let footer = take_footer(&mut self.tokens);
        self.builder.changelog.footer = footer;
    }

    /// The changelog that was read; an error where tokens are left.
    fn build(&self) -> (r: Result<Changelog, ParseError>)
        ensures
            changelog_view(r) == if self.tokens.len() > 0 {
                Err::<ChangelogView, ParseError>(
                    ParseError::UnexpectedTrailingTokens { line: self.tokens[0].line },
                )
            } else {
                Ok::<ChangelogView, ParseError>(self.builder@)
            },
    {
        if self.tokens.len() > 0 {
            return Err(ParseError::UnexpectedTrailingTokens { line: self.tokens[0].line });
        }
        Ok(self.builder.build())
    }

    /// Takes the content of the first token where its kind is among
    /// `kinds`.
    fn get_content(&mut self, kinds: Vec<TokenKind>, required: bool) -> (r: Result<
        Option<String>,
        ParseError,
    >)
        ensures
            content_view(r) == content_of(
                old(self).tokens.deep_view(),
                kinds@,
                required,
            ).0,
            final(self).tokens.deep_view() == content_of(
                old(self).tokens.deep_view(),
                kinds@,
                required,
            ).1,
            final(self).builder == old(self).builder,
            final(self).opts == old(self).opts,
    {
        get_content(&mut self.tokens, kinds, required)
    }

    /// Takes the running text at the front of the tokens.
    fn get_text_content(&mut self) -> (r: Result<Option<String>, ParseError>)
        ensures
            content_view(r) == Ok::<Option<Seq<char>>, ParseError>(
                text_content(old(self).tokens.deep_view()).0,
            ),
            final(self).tokens.deep_view() == text_content(old(self).tokens.deep_view()).1,
            final(self).builder == old(self).builder,
            final(self).opts == old(self).opts,
    {
        get_text_content(&mut self.tokens)
    }
}

impl Changelog {
    /// The changelog that the text `markdown` writes, under the options
    /// `opts`.
    pub fn parse(markdown: &str, opts: ChangeLogParseOptions) -> (r: Result<Changelog, ParseError>)
        ensures
            changelog_view(r) == parsed_text(markdown@, opts@),
            r matches Ok(c) ==> descending(after_unreleased(c@.releases)),
    {
        let tokens = match tokenize(markdown.to_string()) {
            Ok(tokens) => tokens,
            Err(e) => {
                return Err(ParseError::Tokenize(e));
            },
        };
        process_tokens(tokens, opts)
    }
}

} // verus!
