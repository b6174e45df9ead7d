//! Reading back what was written.
//!
//! A changelog that is written and read again is the changelog it was.
//! This module proves how much of that follows from the way tokens are
//! read, and names what it takes from the reading of single lines.

use crate::changelog::{ChangelogView, OptionsView};
use crate::changes::{ChangeKind, ChangesView, UnknownChangeKind, kind_of, kind_title};
use crate::consts::{HEADING2_DATE, NEWLINE, PREFIX_LI, UNRELEASED};
use crate::date::date_text;
use crate::error::ParseError;
use crate::laws::{law_order_is_stable, law_split_then_join};
use crate::link::{LinkError, LinkView, link_of, link_text};
use crate::parser::{
    footer_of, items_from, lemma_items_rest, lemma_release_rest, links_from,
    parse_patterns_accepted, parsed_tokens, release_body, release_of_heading, releases_from,
    sections_from, url_after,
};
use crate::release::{ReleaseView, yanked_text};
use crate::sorting::in_order;
use crate::text::{join_with, lowercase_of, split_on};
use crate::token::{TokenKind, TokenView};
use crate::utils::{
    content_of, front_line, is_running, running_from, running_text, text_content, token_text,
};
use crate::version::version_text;
use vstd::prelude::*;

verus! {

/// Whether the tokens `a` and `b` are the same but for the numbers of
/// their lines.
pub open spec fn same_shape(a: Seq<TokenView>, b: Seq<TokenView>) -> bool {
    a.len() == b.len() && forall|i: int|
        0 <= i < a.len() ==> (#[trigger] a[i]).kind == b[i].kind && a[i].content == b[i].content
}

/// Tokens of the same shape have rests of the same shape.
proof fn lemma_shape_rest(a: Seq<TokenView>, b: Seq<TokenView>)
    requires
        same_shape(a, b),
        a.len() > 0,
    ensures
        same_shape(a.drop_first(), b.drop_first()),
{
    let x = a.drop_first();
    let y = b.drop_first();
    assert forall|i: int| 0 <= i < x.len() implies (#[trigger] x[i]).kind == y[i].kind
        && x[i].content == y[i].content by {
        assert(x[i] == a[i + 1]);
        assert(y[i] == b[i + 1]);
    }
}

/// The content of the first token does not depend on the numbers of the
/// lines, where it is there.
proof fn lemma_shape_content(
    a: Seq<TokenView>,
    b: Seq<TokenView>,
    kinds: Seq<TokenKind>,
    required: bool,
)
    requires
        same_shape(a, b),
    ensures
        same_shape(content_of(a, kinds, required).1, content_of(b, kinds, required).1),
        content_of(b, kinds, required).0 is Ok ==> content_of(a, kinds, required).0 == content_of(
            b,
            kinds,
            required,
        ).0,
{
    if a.len() > 0 {
        lemma_shape_rest(a, b);
        assert(a[0].kind == b[0].kind && a[0].content == b[0].content);
    }
}

/// Running text does not depend on the numbers of the lines.
proof fn lemma_shape_running(a: Seq<TokenView>, b: Seq<TokenView>, acc: Seq<Seq<char>>)
    requires
        same_shape(a, b),
    ensures
        running_from(a, acc).0 == running_from(b, acc).0,
        same_shape(running_from(a, acc).1, running_from(b, acc).1),
    decreases a.len(),
{
    if a.len() > 0 {
        assert(a[0].kind == b[0].kind && a[0].content == b[0].content);
        if is_running(a[0]) {
            lemma_shape_rest(a, b);
            lemma_shape_running(a.drop_first(), b.drop_first(), acc.push(running_text(a[0])));
        }
    }
}

/// The entries of a section do not depend on the numbers of the lines.
proof fn lemma_shape_items(
    a: Seq<TokenView>,
    b: Seq<TokenView>,
    kind: ChangeKind,
    changes: ChangesView,
)
    requires
        same_shape(a, b),
    ensures
        items_from(a, kind, changes).0 == items_from(b, kind, changes).0,
        same_shape(items_from(a, kind, changes).1, items_from(b, kind, changes).1),
    decreases a.len(),
{
    lemma_shape_content(a, b, seq![TokenKind::Li], false);
    let (item, rest) = content_of(a, seq![TokenKind::Li], false);
    let (other, other_rest) = content_of(b, seq![TokenKind::Li], false);
    match item {
        Ok(Some(text)) => {
            lemma_shape_items(rest, other_rest, kind, changes.with(kind, text));
        },
        _ => {},
    }
}

/// The sections of changes do not depend on the numbers of the lines,
/// where they are read without error.
proof fn lemma_shape_sections(a: Seq<TokenView>, b: Seq<TokenView>, changes: ChangesView)
    requires
        same_shape(a, b),
        sections_from(b, changes) is Ok,
    ensures
        sections_from(a, changes) is Ok,
        sections_from(a, changes)->Ok_0.0 == sections_from(b, changes)->Ok_0.0,
        same_shape(sections_from(a, changes)->Ok_0.1, sections_from(b, changes)->Ok_0.1),
    decreases a.len(),
{
    lemma_shape_content(a, b, seq![TokenKind::H3], false);
    let (heading, rest) = content_of(a, seq![TokenKind::H3], false);
    let (other, other_rest) = content_of(b, seq![TokenKind::H3], false);
    match heading {
        Ok(Some(text)) => match kind_of(lowercase_of(text)) {
            Err(_) => {},
            Ok(kind) => {
                lemma_shape_items(rest, other_rest, kind, changes);
                lemma_items_rest(rest, kind, changes);
                let (more, after) = items_from(rest, kind, changes);
                let (_, other_after) = items_from(other_rest, kind, changes);
                lemma_shape_sections(after, other_after, more);
            },
        },
        _ => {},
    }
}

/// A heading that is read without error is read the same on every line.
proof fn lemma_heading_any_line(line: usize, other: usize, heading: Seq<char>)
    requires
        release_of_heading(other, heading) is Ok,
    ensures
        release_of_heading(line, heading) == release_of_heading(other, heading),
{
}

/// The releases do not depend on the numbers of the lines, where they are
/// read without error.
proof fn lemma_shape_releases(a: Seq<TokenView>, b: Seq<TokenView>, acc: Seq<ReleaseView>)
    requires
        same_shape(a, b),
        releases_from(b, acc) is Ok,
    ensures
        releases_from(a, acc) is Ok,
        releases_from(a, acc)->Ok_0.0 == releases_from(b, acc)->Ok_0.0,
        same_shape(releases_from(a, acc)->Ok_0.1, releases_from(b, acc)->Ok_0.1),
    decreases a.len(),
{
    lemma_shape_content(a, b, seq![TokenKind::H2], false);
    let (heading, rest) = content_of(a, seq![TokenKind::H2], false);
    let (other, other_rest) = content_of(b, seq![TokenKind::H2], false);
    let line = front_line(a);
    let other_line = front_line(b);
    match heading {
        Ok(Some(text)) => {
            lemma_heading_any_line(line, other_line, text);
            let base = release_of_heading(line, text)->Ok_0;
            lemma_shape_running(rest, other_rest, Seq::<Seq<char>>::empty());
            let after_text = text_content(rest).1;
            let other_after_text = text_content(other_rest).1;
            lemma_shape_sections(after_text, other_after_text, ChangesView::empty());
            lemma_release_rest(rest, base);
            let (release, after) = release_body(rest, base)->Ok_0;
            let (_, other_after) = release_body(other_rest, base)->Ok_0;
            lemma_shape_releases(after, other_after, acc.push(release));
        },
        _ => {},
    }
}

/// The link definitions do not depend on the numbers of the lines, where
/// they are read without error.
proof fn lemma_shape_links(
    a: Seq<TokenView>,
    b: Seq<TokenView>,
    links: Seq<LinkView>,
    url: Option<Seq<char>>,
)
    requires
        same_shape(a, b),
        links_from(b, links, url) is Ok,
    ensures
        links_from(a, links, url) is Ok,
        links_from(a, links, url)->Ok_0.0 == links_from(b, links, url)->Ok_0.0,
        links_from(a, links, url)->Ok_0.1 == links_from(b, links, url)->Ok_0.1,
        same_shape(links_from(a, links, url)->Ok_0.2, links_from(b, links, url)->Ok_0.2),
    decreases a.len(),
{
    lemma_shape_content(a, b, seq![TokenKind::Link], false);
    let (definition, rest) = content_of(a, seq![TokenKind::Link], false);
    let (_, other_rest) = content_of(b, seq![TokenKind::Link], false);
    match definition {
        Ok(Some(text)) => match link_of(text) {
            Err(_) => {},
            Ok(link) => {
                lemma_shape_links(
                    rest,
                    other_rest,
                    links.push(link),
                    url_after(url, text),
                );
            },
        },
        _ => {},
    }
}

/// The footer does not depend on the numbers of the lines.
proof fn lemma_shape_footer(a: Seq<TokenView>, b: Seq<TokenView>)
    requires
        same_shape(a, b),
    ensures
        footer_of(a).0 == footer_of(b).0,
        same_shape(footer_of(a).1, footer_of(b).1),
{
    lemma_shape_content(a, b, seq![TokenKind::Hr], false);
    let (rule, rest) = content_of(a, seq![TokenKind::Hr], false);
    let (_, other_rest) = content_of(b, seq![TokenKind::Hr], false);
    match rule {
        Ok(Some(_)) => {
            lemma_shape_running(rest, other_rest, Seq::<Seq<char>>::empty());
        },
        _ => {},
    }
}

/// A changelog that is read without error does not depend on the numbers
/// of the lines of its tokens.
pub proof fn lemma_lines_do_not_matter(a: Seq<TokenView>, b: Seq<TokenView>, opts: OptionsView)
    requires
        same_shape(a, b),
        parsed_tokens(b, opts) is Ok,
    ensures
        parsed_tokens(a, opts) == parsed_tokens(b, opts),
{
    lemma_shape_content(a, b, seq![TokenKind::Flag], false);
    let a1 = content_of(a, seq![TokenKind::Flag], false).1;
    let b1 = content_of(b, seq![TokenKind::Flag], false).1;
    lemma_shape_content(a1, b1, seq![TokenKind::H1], true);
    let a2 = content_of(a1, seq![TokenKind::H1], true).1;
    let b2 = content_of(b1, seq![TokenKind::H1], true).1;
    lemma_shape_running(a2, b2, Seq::<Seq<char>>::empty());
    let a3 = text_content(a2).1;
    let b3 = text_content(b2).1;
    lemma_shape_releases(a3, b3, Seq::<ReleaseView>::empty());
    let a4 = releases_from(a3, Seq::<ReleaseView>::empty())->Ok_0.1;
    let b4 = releases_from(b3, Seq::<ReleaseView>::empty())->Ok_0.1;
    lemma_shape_links(a4, b4, Seq::<LinkView>::empty(), opts.url);
    let a5 = links_from(a4, Seq::<LinkView>::empty(), opts.url)->Ok_0.2;
    let b5 = links_from(b4, Seq::<LinkView>::empty(), opts.url)->Ok_0.2;
    lemma_shape_footer(a5, b5);
}

/// The token of the kind `kind` with the content `content`.
pub open spec fn token_of(kind: TokenKind, content: Seq<Seq<char>>) -> TokenView {
    TokenView { line: 0, kind, content }
}

/// The token of the kind `kind` whose content is the lines of `text`.
pub open spec fn text_token(kind: TokenKind, text: Seq<char>) -> TokenView {
    token_of(kind, split_on(text, '\n'))
}

/// The paragraph of the text `text`, where there is one, before `rest`.
pub open spec fn text_before(text: Option<Seq<char>>, rest: Seq<TokenView>) -> Seq<TokenView> {
    match text {
        Some(t) => seq![text_token(TokenKind::P, t)] + rest,
        None => rest,
    }
}

/// The list items that write the entries `entries`, before `rest`.
pub open spec fn entries_before(entries: Seq<Seq<char>>, rest: Seq<TokenView>) -> Seq<TokenView>
    decreases entries.len(),
{
    if entries.len() == 0 {
        rest
    } else {
        seq![text_token(TokenKind::Li, entries[0])] + entries_before(entries.drop_first(), rest)
    }
}

/// The tokens that write the entries `entries` of the kind `kind`, before
/// `rest`: a heading and the list items; nothing where there are no
/// entries.
pub open spec fn section_before(kind: ChangeKind, entries: Seq<Seq<char>>, rest: Seq<TokenView>) -> Seq<
    TokenView,
> {
    if entries.len() == 0 {
        rest
    } else {
        seq![token_of(TokenKind::H3, seq![kind_title(kind)])] + entries_before(entries, rest)
    }
}

/// The tokens that write the changes `c`, before `rest`.
pub open spec fn changes_before(c: ChangesView, rest: Seq<TokenView>) -> Seq<TokenView> {
    section_before(
        ChangeKind::Added,
        c.added,
        section_before(
            ChangeKind::Changed,
            c.changed,
            section_before(
                ChangeKind::Deprecated,
                c.deprecated,
                section_before(
                    ChangeKind::Removed,
                    c.removed,
                    section_before(
                        ChangeKind::Fixed,
                        c.fixed,
                        section_before(ChangeKind::Security, c.security, rest),
                    ),
                ),
            ),
        ),
    )
}

/// The heading that writes the release `r`, without the mark of a
/// heading.
pub open spec fn heading_of(r: ReleaseView) -> Seq<char> {
    match (r.version, r.date) {
        (Some(version), Some(date)) => seq!['['] + version_text(version) + HEADING2_DATE@
            + date_text(date) + yanked_text(r.yanked),
        _ => seq!['['] + UNRELEASED@ + seq![']'] + yanked_text(r.yanked),
    }
}

/// The tokens that write the release `r`, before `rest`: its heading, its
/// description and its changes.
pub open spec fn release_before(r: ReleaseView, rest: Seq<TokenView>) -> Seq<TokenView> {
    seq![token_of(TokenKind::H2, seq![heading_of(r)])] + text_before(
        r.description,
        changes_before(r.changes, rest),
    )
}

/// The tokens that write the releases `releases`, before `rest`.
pub open spec fn releases_before(releases: Seq<ReleaseView>, rest: Seq<TokenView>) -> Seq<TokenView>
    decreases releases.len(),
{
    if releases.len() == 0 {
        rest
    } else {
        release_before(releases[0], releases_before(releases.drop_first(), rest))
    }
}

/// The tokens that write the link definitions `links`, before `rest`.
pub open spec fn links_before(links: Seq<LinkView>, rest: Seq<TokenView>) -> Seq<TokenView>
    decreases links.len(),
{
    if links.len() == 0 {
        rest
    } else {
        seq![token_of(TokenKind::Link, seq![link_text(links[0])])] + links_before(
            links.drop_first(),
            rest,
        )
    }
}

/// The tokens that write the footer `footer`: a rule and the text.
pub open spec fn footer_tokens(footer: Option<Seq<char>>) -> Seq<TokenView> {
    match footer {
        Some(text) => seq![token_of(TokenKind::Hr, seq![PREFIX_LI@])] + seq![
            text_token(TokenKind::P, text),
        ],
        None => Seq::<TokenView>::empty(),
    }
}

/// The flag token of a changelog, where it has a flag, before `rest`.
pub open spec fn flag_before(flag: Option<Seq<char>>, rest: Seq<TokenView>) -> Seq<TokenView> {
    match flag {
        Some(text) => seq![token_of(TokenKind::Flag, seq![text])] + rest,
        None => rest,
    }
}

/// The title of a changelog, and nothing where it has none.
pub open spec fn title_of(c: ChangelogView) -> Seq<char> {
    match c.title {
        Some(title) => title,
        None => Seq::<char>::empty(),
    }
}

/// The tokens that write the changelog `c`, but for the numbers of their
/// lines: the flag, the title, the description, the releases, the link
/// definitions and the footer.
pub open spec fn written_tokens(c: ChangelogView) -> Seq<TokenView> {
    flag_before(
        c.flag,
        seq![token_of(TokenKind::H1, seq![title_of(c)])] + text_before(
            c.description,
            releases_before(c.releases, links_before(c.links, footer_tokens(c.footer))),
        ),
    )
}

/// Whether the text `text` is missing or not empty.
pub open spec fn some_text(text: Option<Seq<char>>) -> bool {
    text matches Some(t) ==> t.len() > 0
}

/// Whether none of `entries` is empty.
pub open spec fn some_entries(entries: Seq<Seq<char>>) -> bool {
    forall|i: int| 0 <= i < entries.len() ==> (#[trigger] entries[i]).len() > 0
}

/// Whether no entry of the changes `c` is empty.
pub open spec fn filled_changes(c: ChangesView) -> bool {
    some_entries(c.added) && some_entries(c.changed) && some_entries(c.deprecated)
        && some_entries(c.removed) && some_entries(c.fixed) && some_entries(c.security)
}

/// The release `r` as its heading alone writes it: without description
/// and changes.
pub open spec fn headed(r: ReleaseView) -> ReleaseView {
    ReleaseView { description: None, changes: ChangesView::empty(), ..r }
}

/// Whether the release `r` can be read back: it has both version and date
/// or neither, no text of it is empty, and its heading is read as the
/// release that it writes.
pub open spec fn release_is_read(r: ReleaseView) -> bool {
    &&& r.version is Some <==> r.date is Some
    &&& some_text(r.description)
    &&& filled_changes(r.changes)
    &&& release_of_heading(0, heading_of(r)) == Ok::<ReleaseView, ParseError>(
        headed(r),
    )
}

/// Whether the title of each kind of change is read as that kind.
pub open spec fn kinds_are_read() -> bool {
    forall|kind: ChangeKind|
        kind_of(lowercase_of(#[trigger] kind_title(kind))) == Ok::<
            ChangeKind,
            UnknownChangeKind,
        >(kind)
}

/// Whether each of the link definitions `links` is read as what it
/// writes.
pub open spec fn links_are_read(links: Seq<LinkView>) -> bool {
    forall|i: int|
        0 <= i < links.len() ==> link_of(link_text(#[trigger] links[i])) == Ok::<
            LinkView,
            LinkError,
        >(links[i])
}

/// Whether each of the releases `releases` can be read back.
pub open spec fn releases_are_read(releases: Seq<ReleaseView>) -> bool {
    forall|i: int| 0 <= i < releases.len() ==> release_is_read(#[trigger] releases[i])
}

/// Whether the URL `url` of the repository stays what it is when the link
/// definitions `links` are read: it is known, or no definition shows one.
pub open spec fn url_is_kept(url: Option<Seq<char>>, links: Seq<LinkView>) -> bool {
    url is None ==> forall|i: int|
        0 <= i < links.len() ==> url_after(None, link_text(#[trigger] links[i])) is None
}

/// Whether the changelog `c` can be read back from its tokens: it has a
/// title, the URL of the repository is known or shown by none of its link
/// definitions, no text of it is empty, its releases are in order, and
/// each of its headings and link definitions is read as what it writes.
pub open spec fn is_read_back(c: ChangelogView) -> bool {
    &&& parse_patterns_accepted()
    &&& kinds_are_read()
    &&& some_text(c.flag)
    &&& c.title is Some
    &&& c.title->0.len() > 0
    &&& some_text(c.description)
    &&& some_text(c.footer)
    &&& url_is_kept(c.url, c.links)
    &&& in_order(c.releases)
    &&& releases_are_read(c.releases)
    &&& links_are_read(c.links)
}

/// The options under which the changelog `c` is read back: its own URL,
/// tag prefix and head.
pub open spec fn options_of(c: ChangelogView) -> OptionsView {
    OptionsView { url: c.url, tag_prefix: c.tag_prefix, head: Some(c.head) }
}

/// Whether `tokens` begin with a token of the kind `kind`.
pub open spec fn begins_with(tokens: Seq<TokenView>, kind: TokenKind) -> bool {
    tokens.len() > 0 && tokens[0].kind == kind
}

/// The text of a token whose content is the lines of a text is that
/// text.
proof fn lemma_text_token(kind: TokenKind, text: Seq<char>)
    ensures
        token_text(text_token(kind, text)) == text,
{
    reveal_strlit("\n");
    assert(NEWLINE@ =~= seq!['\n']);
    law_split_then_join(text, '\n');
}

/// The text of a token of one line is that line.
proof fn lemma_line_token(kind: TokenKind, line: Seq<char>)
    ensures
        token_text(token_of(kind, seq![line])) == line,
{
    assert(seq![line][0] == line);
}

/// The content of a first token of the wanted kind is taken.
proof fn lemma_taken(t: TokenView, rest: Seq<TokenView>, kind: TokenKind, required: bool)
    requires
        t.kind == kind,
        token_text(t).len() > 0,
    ensures
        content_of(seq![t] + rest, seq![kind], required) == (
            Ok::<Option<Seq<char>>, ParseError>(Some(token_text(t))),
            rest,
        ),
{
    let tokens = seq![t] + rest;
    assert(tokens[0] == t);
    assert(seq![kind][0] == kind);
    assert(seq![kind].contains(kind));
    assert(tokens.drop_first() =~= rest);
}

/// A first token of another kind is left where none is required.
proof fn lemma_left(tokens: Seq<TokenView>, kind: TokenKind)
    requires
        !begins_with(tokens, kind),
    ensures
        content_of(tokens, seq![kind], false) == (
            Ok::<Option<Seq<char>>, ParseError>(None),
            tokens,
        ),
{
    if tokens.len() > 0 {
        if seq![kind].contains(tokens[0].kind) {
            let i = choose|i: int| 0 <= i < seq![kind].len() && seq![kind][i] == tokens[0].kind;
            assert(seq![kind][i] == kind);
        }
    }
}

/// Tokens that begin with no running text have none.
proof fn lemma_no_text(tokens: Seq<TokenView>)
    requires
        !begins_with(tokens, TokenKind::P),
        !begins_with(tokens, TokenKind::Li),
    ensures
        text_content(tokens) == (None::<Seq<char>>, tokens),
{
    assert(join_with(Seq::<Seq<char>>::empty(), NEWLINE@) =~= Seq::<char>::empty());
}

/// A paragraph before tokens that begin with no running text is the
/// running text.
proof fn lemma_one_text(text: Seq<char>, rest: Seq<TokenView>)
    requires
        text.len() > 0,
        !begins_with(rest, TokenKind::P),
        !begins_with(rest, TokenKind::Li),
    ensures
        text_content(seq![text_token(TokenKind::P, text)] + rest) == (Some(text), rest),
{
    let t = text_token(TokenKind::P, text);
    let tokens = seq![t] + rest;
    lemma_text_token(TokenKind::P, text);
    assert(tokens[0] == t);
    assert(tokens.drop_first() =~= rest);
    let none = Seq::<Seq<char>>::empty();
    assert(running_from(tokens, none) == running_from(rest, none.push(running_text(t))));
    assert(running_from(rest, none.push(text)) == (none.push(text), rest));
    assert(none.push(text)[0] == text);
    assert(join_with(none.push(text), NEWLINE@) == text);
}

/// The text `text`, where there is one, before tokens that begin with no
/// running text is the running text.
proof fn lemma_optional_text(text: Option<Seq<char>>, rest: Seq<TokenView>)
    requires
        some_text(text),
        !begins_with(rest, TokenKind::P),
        !begins_with(rest, TokenKind::Li),
    ensures
        text_content(text_before(text, rest)) == (text, rest),
{
    match text {
        Some(t) => {
            lemma_one_text(t, rest);
        },
        None => {
            lemma_no_text(rest);
        },
    }
}

/// The changes `c` with the entries `entries` added to those of the kind
/// `kind`.
pub open spec fn with_entries(c: ChangesView, kind: ChangeKind, entries: Seq<Seq<char>>) -> ChangesView
    decreases entries.len(),
{
    if entries.len() == 0 {
        c
    } else {
        with_entries(c.with(kind, entries[0]), kind, entries.drop_first())
    }
}

/// Adding entries of a kind puts them after the entries of that kind and
/// leaves the other kinds as they are.
proof fn lemma_with_entries(c: ChangesView, kind: ChangeKind, entries: Seq<Seq<char>>)
    ensures
        with_entries(c, kind, entries).of(kind) == c.of(kind) + entries,
        forall|other: ChangeKind|
            other != kind ==> #[trigger] with_entries(c, kind, entries).of(other) == c.of(other),
    decreases entries.len(),
{
    if entries.len() == 0 {
        assert(c.of(kind) + entries =~= c.of(kind));
    } else {
        let next = c.with(kind, entries[0]);
        lemma_with_entries(next, kind, entries.drop_first());
        assert(next.of(kind) == c.of(kind).push(entries[0]));
        assert(c.of(kind).push(entries[0]) + entries.drop_first() =~= c.of(kind) + entries);
        assert forall|other: ChangeKind| other != kind implies #[trigger] with_entries(
            c,
            kind,
            entries,
        ).of(other) == c.of(other) by {
            assert(next.of(other) == c.of(other));
        }
    }
}

/// The list items that write entries are read as these entries.
proof fn lemma_items_read(
    entries: Seq<Seq<char>>,
    rest: Seq<TokenView>,
    kind: ChangeKind,
    c: ChangesView,
)
    requires
        some_entries(entries),
        !begins_with(rest, TokenKind::Li),
    ensures
        items_from(entries_before(entries, rest), kind, c) == (
            with_entries(c, kind, entries),
            rest,
        ),
    decreases entries.len(),
{
    if entries.len() == 0 {
        lemma_left(rest, TokenKind::Li);
    } else {
        let t = text_token(TokenKind::Li, entries[0]);
        let later = entries.drop_first();
        let after = entries_before(later, rest);
        lemma_text_token(TokenKind::Li, entries[0]);
        lemma_taken(t, after, TokenKind::Li, false);
        assert forall|i: int| 0 <= i < later.len() implies (#[trigger] later[i]).len() > 0 by {
            assert(later[i] == entries[i + 1]);
        }
        lemma_items_read(later, rest, kind, c.with(kind, entries[0]));
    }
}

/// What tokens begin with after a section is put before them.
proof fn lemma_section_begins(kind: ChangeKind, entries: Seq<Seq<char>>, rest: Seq<TokenView>)
    ensures
        !begins_with(rest, TokenKind::Li) ==> !begins_with(
            section_before(kind, entries, rest),
            TokenKind::Li,
        ),
        !begins_with(rest, TokenKind::P) ==> !begins_with(
            section_before(kind, entries, rest),
            TokenKind::P,
        ),
{
    if entries.len() > 0 {
        assert(section_before(kind, entries, rest)[0].kind == TokenKind::H3);
    }
}

/// The title of a kind of change is not empty.
proof fn lemma_title_not_empty(kind: ChangeKind)
    ensures
        kind_title(kind).len() > 0,
{
    reveal_strlit("Added");
    reveal_strlit("Changed");
    reveal_strlit("Deprecated");
    reveal_strlit("Removed");
    reveal_strlit("Fixed");
    reveal_strlit("Security");
}

/// The section that writes entries of a kind is read as these entries.
proof fn lemma_section_read(
    kind: ChangeKind,
    entries: Seq<Seq<char>>,
    rest: Seq<TokenView>,
    c: ChangesView,
)
    requires
        kinds_are_read(),
        some_entries(entries),
        !begins_with(rest, TokenKind::Li),
    ensures
        sections_from(section_before(kind, entries, rest), c) == sections_from(
            rest,
            with_entries(c, kind, entries),
        ),
{
    if entries.len() > 0 {
        let heading = token_of(TokenKind::H3, seq![kind_title(kind)]);
        let after = entries_before(entries, rest);
        lemma_line_token(TokenKind::H3, kind_title(kind));
        assert(kind_of(lowercase_of(kind_title(kind))) == Ok::<
            ChangeKind,
            UnknownChangeKind,
        >(kind));
        lemma_title_not_empty(kind);
        lemma_taken(heading, after, TokenKind::H3, false);
        lemma_items_read(entries, rest, kind, c);
    }
}

/// The changes without entries after the entries of `c` were added kind
/// by kind.
pub open spec fn all_entries(c: ChangesView) -> ChangesView {
    let c1 = with_entries(ChangesView::empty(), ChangeKind::Added, c.added);
    let c2 = with_entries(c1, ChangeKind::Changed, c.changed);
    let c3 = with_entries(c2, ChangeKind::Deprecated, c.deprecated);
    let c4 = with_entries(c3, ChangeKind::Removed, c.removed);
    let c5 = with_entries(c4, ChangeKind::Fixed, c.fixed);
    with_entries(c5, ChangeKind::Security, c.security)
}

/// Adding the entries of changes kind by kind gives these changes.
proof fn lemma_all_entries(c: ChangesView)
    ensures
        all_entries(c) == c,
{
    let none = ChangesView::empty();
    let c1 = with_entries(none, ChangeKind::Added, c.added);
    let c2 = with_entries(c1, ChangeKind::Changed, c.changed);
    let c3 = with_entries(c2, ChangeKind::Deprecated, c.deprecated);
    let c4 = with_entries(c3, ChangeKind::Removed, c.removed);
    let c5 = with_entries(c4, ChangeKind::Fixed, c.fixed);
    let c6 = with_entries(c5, ChangeKind::Security, c.security);
    lemma_with_entries(none, ChangeKind::Added, c.added);
    lemma_with_entries(c1, ChangeKind::Changed, c.changed);
    lemma_with_entries(c2, ChangeKind::Deprecated, c.deprecated);
    lemma_with_entries(c3, ChangeKind::Removed, c.removed);
    lemma_with_entries(c4, ChangeKind::Fixed, c.fixed);
    lemma_with_entries(c5, ChangeKind::Security, c.security);
    assert(c1.of(ChangeKind::Added) =~= c.added);
    assert(c2.of(ChangeKind::Added) == c1.of(ChangeKind::Added));
    assert(c3.of(ChangeKind::Added) == c2.of(ChangeKind::Added));
    assert(c4.of(ChangeKind::Added) == c3.of(ChangeKind::Added));
    assert(c5.of(ChangeKind::Added) == c4.of(ChangeKind::Added));
    assert(c6.of(ChangeKind::Added) == c5.of(ChangeKind::Added));
    assert(c1.of(ChangeKind::Changed) == none.of(ChangeKind::Changed));
    assert(c2.of(ChangeKind::Changed) =~= c.changed);
    assert(c3.of(ChangeKind::Changed) == c2.of(ChangeKind::Changed));
    assert(c4.of(ChangeKind::Changed) == c3.of(ChangeKind::Changed));
    assert(c5.of(ChangeKind::Changed) == c4.of(ChangeKind::Changed));
    assert(c6.of(ChangeKind::Changed) == c5.of(ChangeKind::Changed));
    assert(c1.of(ChangeKind::Deprecated) == none.of(ChangeKind::Deprecated));
    assert(c2.of(ChangeKind::Deprecated) == c1.of(ChangeKind::Deprecated));
    assert(c3.of(ChangeKind::Deprecated) =~= c.deprecated);
    assert(c4.of(ChangeKind::Deprecated) == c3.of(ChangeKind::Deprecated));
    assert(c5.of(ChangeKind::Deprecated) == c4.of(ChangeKind::Deprecated));
    assert(c6.of(ChangeKind::Deprecated) == c5.of(ChangeKind::Deprecated));
    assert(c1.of(ChangeKind::Removed) == none.of(ChangeKind::Removed));
    assert(c2.of(ChangeKind::Removed) == c1.of(ChangeKind::Removed));
    assert(c3.of(ChangeKind::Removed) == c2.of(ChangeKind::Removed));
    assert(c4.of(ChangeKind::Removed) =~= c.removed);
    assert(c5.of(ChangeKind::Removed) == c4.of(ChangeKind::Removed));
    assert(c6.of(ChangeKind::Removed) == c5.of(ChangeKind::Removed));
    assert(c1.of(ChangeKind::Fixed) == none.of(ChangeKind::Fixed));
    assert(c2.of(ChangeKind::Fixed) == c1.of(ChangeKind::Fixed));
    assert(c3.of(ChangeKind::Fixed) == c2.of(ChangeKind::Fixed));
    assert(c4.of(ChangeKind::Fixed) == c3.of(ChangeKind::Fixed));
    assert(c5.of(ChangeKind::Fixed) =~= c.fixed);
    assert(c6.of(ChangeKind::Fixed) == c5.of(ChangeKind::Fixed));
    assert(c1.of(ChangeKind::Security) == none.of(ChangeKind::Security));
    assert(c2.of(ChangeKind::Security) == c1.of(ChangeKind::Security));
    assert(c3.of(ChangeKind::Security) == c2.of(ChangeKind::Security));
    assert(c4.of(ChangeKind::Security) == c3.of(ChangeKind::Security));
    assert(c5.of(ChangeKind::Security) == c4.of(ChangeKind::Security));
    assert(c6.of(ChangeKind::Security) =~= c.security);
    assert(c6.added == c.added);
    assert(c6.changed == c.changed);
    assert(c6.deprecated == c.deprecated);
    assert(c6.removed == c.removed);
    assert(c6.fixed == c.fixed);
    assert(c6.security == c.security);
}

/// What tokens begin with after changes are put before them.
proof fn lemma_changes_begin(c: ChangesView, rest: Seq<TokenView>)
    requires
        !begins_with(rest, TokenKind::Li),
        !begins_with(rest, TokenKind::P),
    ensures
        !begins_with(changes_before(c, rest), TokenKind::Li),
        !begins_with(changes_before(c, rest), TokenKind::P),
{
    let s6 = section_before(ChangeKind::Security, c.security, rest);
    let s5 = section_before(ChangeKind::Fixed, c.fixed, s6);
    let s4 = section_before(ChangeKind::Removed, c.removed, s5);
    let s3 = section_before(ChangeKind::Deprecated, c.deprecated, s4);
    let s2 = section_before(ChangeKind::Changed, c.changed, s3);
    lemma_section_begins(ChangeKind::Security, c.security, rest);
    lemma_section_begins(ChangeKind::Fixed, c.fixed, s6);
    lemma_section_begins(ChangeKind::Removed, c.removed, s5);
    lemma_section_begins(ChangeKind::Deprecated, c.deprecated, s4);
    lemma_section_begins(ChangeKind::Changed, c.changed, s3);
    lemma_section_begins(ChangeKind::Added, c.added, s2);
}

/// The tokens that write changes are read as these changes.
proof fn lemma_changes_read(c: ChangesView, rest: Seq<TokenView>)
    requires
        kinds_are_read(),
        filled_changes(c),
        !begins_with(rest, TokenKind::Li),
        !begins_with(rest, TokenKind::P),
        !begins_with(rest, TokenKind::H3),
    ensures
        sections_from(changes_before(c, rest), ChangesView::empty()) == Ok::<
            (ChangesView, Seq<TokenView>),
            ParseError,
        >((c, rest)),
{
    let none = ChangesView::empty();
    let s6 = section_before(ChangeKind::Security, c.security, rest);
    let s5 = section_before(ChangeKind::Fixed, c.fixed, s6);
    let s4 = section_before(ChangeKind::Removed, c.removed, s5);
    let s3 = section_before(ChangeKind::Deprecated, c.deprecated, s4);
    let s2 = section_before(ChangeKind::Changed, c.changed, s3);
    let c1 = with_entries(none, ChangeKind::Added, c.added);
    let c2 = with_entries(c1, ChangeKind::Changed, c.changed);
    let c3 = with_entries(c2, ChangeKind::Deprecated, c.deprecated);
    let c4 = with_entries(c3, ChangeKind::Removed, c.removed);
    let c5 = with_entries(c4, ChangeKind::Fixed, c.fixed);
    lemma_section_begins(ChangeKind::Security, c.security, rest);
    lemma_section_begins(ChangeKind::Fixed, c.fixed, s6);
    lemma_section_begins(ChangeKind::Removed, c.removed, s5);
    lemma_section_begins(ChangeKind::Deprecated, c.deprecated, s4);
    lemma_section_begins(ChangeKind::Changed, c.changed, s3);
    lemma_section_read(ChangeKind::Security, c.security, rest, c5);
    lemma_section_read(ChangeKind::Fixed, c.fixed, s6, c4);
    lemma_section_read(ChangeKind::Removed, c.removed, s5, c3);
    lemma_section_read(ChangeKind::Deprecated, c.deprecated, s4, c2);
    lemma_section_read(ChangeKind::Changed, c.changed, s3, c1);
    lemma_section_read(ChangeKind::Added, c.added, s2, none);
    lemma_all_entries(c);
    lemma_left(rest, TokenKind::H3);
}

/// Whether `tokens` begin with nothing that belongs to a release: no
/// running text, no section and no heading of a release.
pub open spec fn begins_after_releases(tokens: Seq<TokenView>) -> bool {
    !begins_with(tokens, TokenKind::P) && !begins_with(tokens, TokenKind::Li) && !begins_with(
        tokens,
        TokenKind::H3,
    ) && !begins_with(tokens, TokenKind::H2)
}

/// The tokens that write a release are read as this release.
proof fn lemma_release_read(r: ReleaseView, rest: Seq<TokenView>, acc: Seq<ReleaseView>)
    requires
        kinds_are_read(),
        release_is_read(r),
        !begins_with(rest, TokenKind::P),
        !begins_with(rest, TokenKind::Li),
        !begins_with(rest, TokenKind::H3),
    ensures
        releases_from(release_before(r, rest), acc) == releases_from(rest, acc.push(r)),
{
    let heading = token_of(TokenKind::H2, seq![heading_of(r)]);
    let changes = changes_before(r.changes, rest);
    let body = text_before(r.description, changes);
    let tokens = release_before(r, rest);
    lemma_line_token(TokenKind::H2, heading_of(r));
    lemma_taken(heading, body, TokenKind::H2, false);
    assert(tokens[0] == heading);
    assert(front_line(tokens) == 0);
    lemma_changes_begin(r.changes, rest);
    lemma_optional_text(r.description, changes);
    lemma_changes_read(r.changes, rest);
    assert(release_body(body, headed(r)) == Ok::<
        (ReleaseView, Seq<TokenView>),
        ParseError,
    >((r, rest)));
}

/// The tokens that write releases are read as these releases.
proof fn lemma_releases_read(
    releases: Seq<ReleaseView>,
    rest: Seq<TokenView>,
    acc: Seq<ReleaseView>,
)
    requires
        kinds_are_read(),
        releases_are_read(releases),
        begins_after_releases(rest),
    ensures
        releases_from(releases_before(releases, rest), acc) == Ok::<
            (Seq<ReleaseView>, Seq<TokenView>),
            ParseError,
        >((acc + releases, rest)),
    decreases releases.len(),
{
    if releases.len() == 0 {
        lemma_left(rest, TokenKind::H2);
        assert(acc + releases =~= acc);
    } else {
        let later = releases.drop_first();
        let after = releases_before(later, rest);
        assert forall|i: int| 0 <= i < later.len() implies release_is_read(
            #[trigger] later[i],
        ) by {
            assert(later[i] == releases[i + 1]);
        }
        if later.len() > 0 {
            assert(after[0].kind == TokenKind::H2);
        }
        lemma_release_read(releases[0], after, acc);
        lemma_releases_read(later, rest, acc.push(releases[0]));
        assert(acc.push(releases[0]) + later =~= acc + releases);
    }
}

/// The tokens that write link definitions are read as these
/// definitions, and leave the URL of the repository as it was known.
proof fn lemma_links_read(
    links: Seq<LinkView>,
    rest: Seq<TokenView>,
    acc: Seq<LinkView>,
    url: Option<Seq<char>>,
)
    requires
        url_is_kept(url, links),
        links_are_read(links),
        !begins_with(rest, TokenKind::Link),
    ensures
        links_from(links_before(links, rest), acc, url) == Ok::<
            (Seq<LinkView>, Option<Seq<char>>, Seq<TokenView>),
            ParseError,
        >((acc + links, url, rest)),
    decreases links.len(),
{
    if links.len() == 0 {
        lemma_left(rest, TokenKind::Link);
        assert(acc + links =~= acc);
    } else {
        let later = links.drop_first();
        let t = token_of(TokenKind::Link, seq![link_text(links[0])]);
        let after = links_before(later, rest);
        lemma_line_token(TokenKind::Link, link_text(links[0]));
        lemma_taken(t, after, TokenKind::Link, false);
        assert forall|i: int| 0 <= i < later.len() implies link_of(
            link_text(#[trigger] later[i]),
        ) == Ok::<LinkView, LinkError>(later[i]) by {
            assert(later[i] == links[i + 1]);
        }
        assert(url_after(url, link_text(links[0])) == url);
        assert(url_is_kept(url, later)) by {
            assert forall|i: int| 0 <= i < later.len() implies later[i] == links[i + 1] by {}
        }
        lemma_links_read(later, rest, acc.push(links[0]), url);
        assert(acc.push(links[0]) + later =~= acc + links);
    }
}

/// The tokens that write a footer are read as this footer, and nothing is
/// left.
proof fn lemma_footer_read(footer: Option<Seq<char>>)
    requires
        some_text(footer),
    ensures
        footer_of(footer_tokens(footer)) == (footer, Seq::<TokenView>::empty()),
{
    let none = Seq::<TokenView>::empty();
    match footer {
        Some(text) => {
            let rule = token_of(TokenKind::Hr, seq![PREFIX_LI@]);
            let after = seq![text_token(TokenKind::P, text)];
            lemma_line_token(TokenKind::Hr, PREFIX_LI@);
            reveal_strlit("-");
            lemma_taken(rule, after, TokenKind::Hr, false);
            lemma_one_text(text, none);
            assert(after + none =~= after);
        },
        None => {
            lemma_left(none, TokenKind::Hr);
        },
    }
}

/// What the tokens that write a changelog begin with after its releases.
proof fn lemma_end_begins(links: Seq<LinkView>, footer: Option<Seq<char>>)
    ensures
        begins_after_releases(links_before(links, footer_tokens(footer))),
        !begins_with(footer_tokens(footer), TokenKind::Link),
{
    let tokens = links_before(links, footer_tokens(footer));
    if links.len() > 0 {
        assert(tokens[0].kind == TokenKind::Link);
    } else if footer is Some {
        assert(tokens[0].kind == TokenKind::Hr);
    }
}

/// The flag and the title of the tokens that write a changelog are read
/// as they are.
proof fn lemma_top_read(c: ChangelogView, rest: Seq<TokenView>)
    requires
        some_text(c.flag),
        c.title is Some,
        c.title->0.len() > 0,
    ensures
        ({
            let titled = seq![token_of(TokenKind::H1, seq![title_of(c)])] + rest;
            &&& content_of(flag_before(c.flag, titled), seq![TokenKind::Flag], false) == (
                Ok::<Option<Seq<char>>, ParseError>(c.flag),
                titled,
            )
            &&& content_of(titled, seq![TokenKind::H1], true) == (
                Ok::<Option<Seq<char>>, ParseError>(c.title),
                rest,
            )
        }),
{
    let title = token_of(TokenKind::H1, seq![title_of(c)]);
    let titled = seq![title] + rest;
    match c.flag {
        Some(flag) => {
            let t = token_of(TokenKind::Flag, seq![flag]);
            lemma_line_token(TokenKind::Flag, flag);
            lemma_taken(t, titled, TokenKind::Flag, false);
        },
        None => {
            assert(titled[0].kind == TokenKind::H1);
            lemma_left(titled, TokenKind::Flag);
        },
    }
    lemma_line_token(TokenKind::H1, title_of(c));
    lemma_taken(title, rest, TokenKind::H1, true);
}

/// The description, the releases, the link definitions and the footer of
/// the tokens that write a changelog are read as they are.
proof fn lemma_body_read(c: ChangelogView)
    requires
        is_read_back(c),
    ensures
        ({
            let end = links_before(c.links, footer_tokens(c.footer));
            let body = releases_before(c.releases, end);
            &&& text_content(text_before(c.description, body)) == (c.description, body)
            &&& releases_from(body, Seq::<ReleaseView>::empty()) == Ok::<
                (Seq<ReleaseView>, Seq<TokenView>),
                ParseError,
            >((c.releases, end))
            &&& links_from(end, Seq::<LinkView>::empty(), c.url) == Ok::<
                (Seq<LinkView>, Option<Seq<char>>, Seq<TokenView>),
                ParseError,
            >((c.links, c.url, footer_tokens(c.footer)))
            &&& footer_of(footer_tokens(c.footer)) == (c.footer, Seq::<TokenView>::empty())
        }),
{
    let end = links_before(c.links, footer_tokens(c.footer));
    let body = releases_before(c.releases, end);
    lemma_end_begins(c.links, c.footer);
    if c.releases.len() > 0 {
        assert(body[0].kind == TokenKind::H2);
    }
    lemma_optional_text(c.description, body);
    lemma_releases_read(c.releases, end, Seq::<ReleaseView>::empty());
    assert(Seq::<ReleaseView>::empty() + c.releases =~= c.releases);
    lemma_links_read(c.links, footer_tokens(c.footer), Seq::<LinkView>::empty(), c.url);
    assert(Seq::<LinkView>::empty() + c.links =~= c.links);
    lemma_footer_read(c.footer);
}

/// The tokens that write a changelog are read as this changelog, where
/// each of its headings, titles and link definitions is read as what it
/// writes.
pub proof fn law_written_tokens_are_read_back(c: ChangelogView)
    requires
        is_read_back(c),
    ensures
        parsed_tokens(written_tokens(c), options_of(c)) == Ok::<
            ChangelogView,
            ParseError,
        >(c),
{
    let end = links_before(c.links, footer_tokens(c.footer));
    let body = releases_before(c.releases, end);
    lemma_top_read(c, text_before(c.description, body));
    lemma_body_read(c);
    law_order_is_stable(c.releases);
}

} // verus!
