//! What holds of the library as a whole, proved from the definitions of
//! its functions: the order of the releases, and what becomes of a
//! changelog that is written and read again.

use crate::changelog::{
    ChangelogView, bottom_text, changelog_text, is_kept, kept_links_text, link_at, links_text,
    releases_text, top_text, written_description, written_title,
};
use crate::chunks::lemma_chunk_tokens;
use crate::consts::{INDENT_PATTERN, LINK_SEPARATOR, NEWLINE};
use crate::error::ParseError;
use crate::link::{LinkError, LinkView, link_cut_at, link_of, link_text};
use crate::parser::parsed_text;
use crate::pattern::regex_accepts;
use crate::release::{ReleaseView, release_text};
use crate::round_trip::{
    is_read_back, law_written_tokens_are_read_back, lemma_lines_do_not_matter, options_of,
    written_tokens,
};
use crate::sorting::{
    after_unreleased, all_released, descending, first_unreleased, in_order, insert_by_date,
    lemma_add_release_in_order, lemma_position, lemma_sorted_releases, lemma_unreleased_from,
    position_from, sort_into, sorted_releases,
};
use crate::text::{
    has_sub, is_first_occurrence, join_with, lemma_first_occurrence, occurs_at, split_on,
    without_chars,
};
use crate::token::{line_patterns_accepted, tokens_of};
use crate::lines::lemma_tight_trim;
use crate::written::{
    as_written, changelog_chunk, derived_links, lemma_changelog_chunk, lemma_written_top,
    plain_changelog, written_links,
};
use vstd::prelude::*;

verus! {

/// The releases `releases` after the release `r` was added.
pub open spec fn with_release(releases: Seq<ReleaseView>, r: ReleaseView) -> Seq<ReleaseView> {
    sorted_releases(releases.insert(0, r))
}

/// The releases `releases` after the releases `added` were added one
/// after the other.
pub open spec fn with_releases(releases: Seq<ReleaseView>, added: Seq<ReleaseView>) -> Seq<
    ReleaseView,
>
    decreases added.len(),
{
    if added.len() == 0 {
        releases
    } else {
        with_release(with_releases(releases, added.drop_last()), added.last())
    }
}

/// Whether at most one release without version and date is among
/// `releases` and `added` together, none of them in `added` where there is
/// one in `releases`.
pub open spec fn one_unreleased_at_most(releases: Seq<ReleaseView>, added: Seq<ReleaseView>) -> bool {
    forall|i: int|
        0 <= i < added.len() && (#[trigger] added[i]).is_unreleased() ==> all_released(releases)
            && all_released(added.take(i))
}

/// Adding a release keeps every release, and adds no other.
proof fn lemma_with_release_holds(releases: Seq<ReleaseView>, r: ReleaseView)
    ensures
        all_released(with_release(releases, r)) <==> all_released(releases) && !r.is_unreleased(),
{
    broadcast use vstd::seq_lib::group_to_multiset_ensures;
    broadcast use vstd::multiset::group_multiset_axioms;

    let all = releases.insert(0, r);
    let out = with_release(releases, r);
    lemma_sorted_releases(all);
    assert(out.to_multiset() == all.to_multiset());
    if all_released(out) {
        assert forall|i: int| 0 <= i < all.len() implies !(#[trigger] all[i]).is_unreleased() by {
            assert(all.to_multiset().count(all[i]) > 0);
            assert(out.contains(all[i]));
            let j = choose|j: int| 0 <= j < out.len() && out[j] == all[i];
            assert(!out[j].is_unreleased());
        }
        assert(all[0] == r);
        assert forall|i: int| 0 <= i < releases.len() implies !(
        #[trigger] releases[i]).is_unreleased() by {
            assert(all[i + 1] == releases[i]);
        }
    }
    if all_released(releases) && !r.is_unreleased() {
        assert forall|j: int| 0 <= j < out.len() implies !(#[trigger] out[j]).is_unreleased() by {
            assert(out.to_multiset().count(out[j]) > 0);
            assert(all.contains(out[j]));
            let i = choose|i: int| 0 <= i < all.len() && all[i] == out[j];
            if i > 0 {
                assert(all[i] == releases[i - 1]);
            }
        }
    }
}

/// After any sequence of added releases, the releases are in the order
/// that a changelog keeps: at most one release is without version and
/// date, that one is the first, and the dates of the others never go up.
///
/// This holds where the releases were in order before and at most one
/// release without version and date is among them and the added ones.
pub proof fn law_order_is_kept(releases: Seq<ReleaseView>, added: Seq<ReleaseView>)
    requires
        in_order(releases),
        one_unreleased_at_most(releases, added),
    ensures
        in_order(with_releases(releases, added)),
        all_released(with_releases(releases, added)) <==> all_released(releases) && all_released(
            added,
        ),
        with_releases(releases, added).len() == releases.len() + added.len(),
    decreases added.len(),
{
    if added.len() > 0 {
        let before = added.drop_last();
        let r = added.last();
        assert forall|i: int|
            0 <= i < before.len() && (#[trigger] before[i]).is_unreleased() implies all_released(
            releases,
        ) && all_released(before.take(i)) by {
            assert(before[i] == added[i]);
            assert(before.take(i) =~= added.take(i));
        }
        law_order_is_kept(releases, before);
        let so_far = with_releases(releases, before);
        lemma_with_release_holds(so_far, r);
        lemma_sorted_releases(so_far.insert(0, r));
        if r.is_unreleased() {
            assert(added[added.len() - 1].is_unreleased());
            assert(added.take(added.len() - 1) =~= before);
        }
        lemma_add_release_in_order(so_far, r);
        if all_released(added) {
            assert forall|i: int| 0 <= i < before.len() implies !(
            #[trigger] before[i]).is_unreleased() by {
                assert(before[i] == added[i]);
            }
        }
        if all_released(before) && !r.is_unreleased() {
            assert forall|i: int| 0 <= i < added.len() implies !(
            #[trigger] added[i]).is_unreleased() by {
                if i < before.len() {
                    assert(before[i] == added[i]);
                }
            }
        }
    }
}

/// Releases whose dates never go up stay as they are when they are put in
/// by date after releases of dates that are not earlier.
proof fn lemma_sort_into_descending(releases: Seq<ReleaseView>, acc: Seq<ReleaseView>)
    requires
        descending(acc + releases),
    ensures
        sort_into(releases, acc) == acc + releases,
    decreases releases.len(),
{
    let all = acc + releases;
    if releases.len() == 0 {
        assert(all =~= acc);
    } else {
        let r = releases[0];
        lemma_position(acc, r.date, 0);
        let p = position_from(acc, r.date, 0);
        if p < acc.len() {
            assert(all[p] == acc[p]);
            assert(all[acc.len() as int] == r);
        }
        assert(insert_by_date(acc, r) =~= acc.push(r));
        assert(acc.push(r) + releases.drop_first() =~= all);
        lemma_sort_into_descending(releases.drop_first(), acc.push(r));
    }
}

/// Putting releases in order changes nothing where they are in order
/// already: what was read from a changelog is written back in the same
/// order.
pub proof fn law_order_is_stable(releases: Seq<ReleaseView>)
    requires
        in_order(releases),
    ensures
        sorted_releases(releases) == releases,
{
    let empty = Seq::<ReleaseView>::empty();
    lemma_unreleased_from(releases, 0);
    let tail = after_unreleased(releases);
    if releases.len() > 0 && releases[0].is_unreleased() {
        assert(first_unreleased(releases) == Some(0int));
        assert(releases.remove(0) =~= tail);
        assert(empty + tail =~= tail);
        lemma_sort_into_descending(tail, empty);
        assert(seq![releases[0]] + tail =~= releases);
    } else {
        assert(tail == releases);
        match first_unreleased(releases) {
            Some(k) => {
                assert(releases[k].is_unreleased());
                assert(!tail[k].is_unreleased());
            },
            None => {},
        }
        assert(empty + releases =~= releases);
        lemma_sort_into_descending(releases, empty);
    }
}

/// Those of the link definitions from index `i` on that are kept when a
/// changelog is written.
pub open spec fn kept_links(links: Seq<LinkView>, i: int) -> Seq<LinkView>
    decreases links.len() - i,
{
    if i < 0 || i >= links.len() {
        Seq::<LinkView>::empty()
    } else if is_kept(links[i]) {
        seq![links[i]] + kept_links(links, i + 1)
    } else {
        kept_links(links, i + 1)
    }
}

/// Writing link definitions after a first one is writing the first and
/// then the others.
proof fn lemma_links_text_shift(first: LinkView, rest: Seq<LinkView>, j: int, text: Seq<char>)
    requires
        0 <= j <= rest.len(),
    ensures
        links_text(seq![first] + rest, j + 1, text) == links_text(rest, j, text),
    decreases rest.len() - j,
{
    let all = seq![first] + rest;
    if j < rest.len() {
        assert(all[j + 1] == rest[j]);
        lemma_links_text_shift(first, rest, j + 1, text + NEWLINE@ + link_text(rest[j]));
    }
}

/// The link definitions that are kept are written as if there were no
/// others.
pub proof fn lemma_kept_links_text(links: Seq<LinkView>, i: int, text: Seq<char>, any: bool)
    requires
        0 <= i <= links.len(),
    ensures
        kept_links_text(links, i, text, any) == (
            links_text(kept_links(links, i), 0, text),
            any || kept_links(links, i).len() > 0,
        ),
    decreases links.len() - i,
{
    if i < links.len() {
        if is_kept(links[i]) {
            let next = text + NEWLINE@ + link_text(links[i]);
            lemma_kept_links_text(links, i + 1, next, true);
            let rest = kept_links(links, i + 1);
            lemma_links_text_shift(links[i], rest, 0, next);
            assert((seq![links[i]] + rest)[0] == links[i]);
        } else {
            lemma_kept_links_text(links, i + 1, text, any);
        }
    }
}

/// Whether the changelogs `a` and `b` have the same releases and make
/// the same links of them: they have the same URL of the repository, the
/// same prefix of tags and the same ref for the changes not yet released.
pub open spec fn same_releases(a: ChangelogView, b: ChangelogView) -> bool {
    &&& a.releases == b.releases
    &&& a.url == b.url
    &&& a.tag_prefix == b.tag_prefix
    &&& a.head == b.head
}

/// The releases are written, and their links made, without regard to
/// anything else in the changelog.
proof fn lemma_releases_text_same(
    a: ChangelogView,
    b: ChangelogView,
    i: int,
    text: Seq<char>,
    links: Seq<LinkView>,
)
    requires
        same_releases(a, b),
    ensures
        releases_text(a, i, text, links) == releases_text(b, i, text, links),
    decreases a.releases.len() - i,
{
    if 0 <= i < a.releases.len() {
        assert(link_at(a, i) == link_at(b, i));
        match link_at(a, i) {
            Err(_) => {},
            Ok(link) => match release_text(a.releases[i]) {
                Err(_) => {},
                Ok(release) => {
                    lemma_releases_text_same(
                        a,
                        b,
                        i + 1,
                        text + NEWLINE@ + release,
                        match link {
                            Some(l) => links.push(l),
                            None => links,
                        },
                    );
                },
            },
        }
    }
}

/// Two changelogs with the same top, the same releases and the same
/// footer, whose link definitions that are kept are the same, are written
/// as the same text.
proof fn lemma_same_text(a: ChangelogView, b: ChangelogView)
    requires
        top_text(a) == top_text(b),
        same_releases(a, b),
        a.footer == b.footer,
        kept_links(a.links, 0) == kept_links(b.links, 0),
    ensures
        changelog_text(a) == changelog_text(b),
{
    let none = Seq::<LinkView>::empty();
    assert(bottom_text(a) == bottom_text(b));
    lemma_releases_text_same(a, b, 0, top_text(a), none);
    match releases_text(a, 0, top_text(a), none) {
        Err(_) => {},
        Ok((body, derived)) => {
            lemma_kept_links_text(a.links, 0, body + NEWLINE@, false);
            lemma_kept_links_text(b.links, 0, body + NEWLINE@, false);
        },
    }
}

/// A changelog is written without regard to those link definitions of the
/// text that are not kept: two changelogs that differ in nothing but such
/// link definitions are written as the same text. So the links of the
/// releases, which are made anew whenever a changelog is written, need not
/// be kept when a changelog is read.
pub proof fn law_dropped_links_are_not_written(a: ChangelogView, b: ChangelogView)
    requires
        b == (ChangelogView { links: b.links, ..a }),
        kept_links(a.links, 0) == kept_links(b.links, 0),
    ensures
        changelog_text(a) == changelog_text(b),
{
    assert(top_text(a) == top_text(b));
    lemma_same_text(a, b);
}

/// A text without the characters `a` and `b` stays as it is when these
/// are taken out.
proof fn lemma_without_chars_same(s: Seq<char>, a: char, b: char)
    requires
        !s.contains(a),
        !s.contains(b),
    ensures
        without_chars(s, a, b) == s,
    decreases s.len(),
{
    if s.len() > 0 {
        let t = s.drop_last();
        assert(s[s.len() - 1] == s.last());
        assert forall|i: int| 0 <= i < t.len() implies t[i] != a && t[i] != b by {
            assert(t[i] == s[i]);
        }
        assert(!t.contains(a) && !t.contains(b));
        lemma_without_chars_same(t, a, b);
        assert(t.push(s.last()) =~= s);
    }
}

/// Taking square brackets out of a text in square brackets leaves the
/// text, where it holds none itself.
proof fn lemma_without_brackets(anchor: Seq<char>)
    requires
        !anchor.contains('['),
        !anchor.contains(']'),
    ensures
        without_chars(seq!['['] + anchor + seq![']'], '[', ']') == anchor,
    decreases anchor.len(),
{
    let whole = seq!['['] + anchor + seq![']'];
    let open = seq!['['] + anchor;
    assert(whole.drop_last() =~= open);
    assert(whole.last() == ']');
    lemma_open_bracket(anchor);
}

/// Taking square brackets out of a text after an opening bracket leaves
/// the text, where it holds none itself.
proof fn lemma_open_bracket(anchor: Seq<char>)
    requires
        !anchor.contains('['),
        !anchor.contains(']'),
    ensures
        without_chars(seq!['['] + anchor, '[', ']') == anchor,
    decreases anchor.len(),
{
    let open = seq!['['] + anchor;
    if anchor.len() == 0 {
        assert(open.drop_last() =~= Seq::<char>::empty());
        assert(open.last() == '[');
        assert(without_chars(open.drop_last(), '[', ']') =~= Seq::<char>::empty());
    } else {
        let t = anchor.drop_last();
        assert(anchor[anchor.len() - 1] == anchor.last());
        assert forall|i: int| 0 <= i < t.len() implies t[i] != '[' && t[i] != ']' by {
            assert(t[i] == anchor[i]);
        }
        assert(!t.contains('[') && !t.contains(']'));
        lemma_open_bracket(t);
        assert(open.drop_last() =~= seq!['['] + t);
        assert(open.last() == anchor.last());
        assert(t.push(anchor.last()) =~= anchor);
    }
}

/// A link definition that is written and read again is the link
/// definition it was, where its anchor holds neither square brackets nor
/// a colon followed by a space.
pub proof fn law_link_is_read_as_written(link: LinkView)
    requires
        !link.anchor.contains('['),
        !link.anchor.contains(']'),
        !has_sub(link.anchor, LINK_SEPARATOR@),
    ensures
        link_of(link_text(link)) == Ok::<LinkView, LinkError>(link),
{
    reveal_strlit(": ");
    let sep = seq![':', ' '];
    assert(LINK_SEPARATOR@ =~= sep);
    let text = link_text(link);
    let n = link.anchor.len() as int;
    let at = n + 2;
    assert(text.len() == n + 4 + link.url.len());
    assert(text[0] == '[');
    assert(text[n + 1] == ']');
    assert(text[n + 2] == ':');
    assert(text[n + 3] == ' ');
    assert(text.subrange(at, at + 2) =~= sep);
    assert(occurs_at(text, sep, at));
    assert forall|j: int| 0 <= j < at implies !occurs_at(text, sep, j) by {
        if occurs_at(text, sep, j) {
            let found = text.subrange(j, j + 2);
            assert(found[0] == ':' && found[1] == ' ');
            assert(text[j] == ':' && text[j + 1] == ' ');
            if j == 0 {
            } else if j + 1 <= n {
                assert(text[j] == link.anchor[j - 1]);
                assert(text[j + 1] == link.anchor[j]);
                assert(link.anchor.subrange(j - 1, j + 1) =~= sep);
                assert(occurs_at(link.anchor, sep, j - 1));
            } else {
            }
        }
    }
    assert(is_first_occurrence(text, sep, at));
    lemma_first_occurrence(text, sep, at);
    assert(text.subrange(0, at) =~= seq!['['] + link.anchor + seq![']']);
    lemma_without_brackets(link.anchor);
    assert(text.subrange(at + 2, text.len() as int) =~= link.url);
    assert(link_cut_at(text, at) == link);
}

/// Among link definitions after others, those that are kept are those
/// that are kept among the one and among the other.
proof fn lemma_kept_after(a: Seq<LinkView>, b: Seq<LinkView>, j: int)
    requires
        0 <= j <= b.len(),
    ensures
        kept_links(a + b, a.len() + j) == kept_links(b, j),
    decreases b.len() - j,
{
    if j < b.len() {
        assert((a + b)[a.len() + j] == b[j]);
        lemma_kept_after(a, b, j + 1);
    }
}

/// Among link definitions after others, those that are kept are those
/// that are kept among the one and among the other.
proof fn lemma_kept_add(a: Seq<LinkView>, b: Seq<LinkView>, i: int)
    requires
        0 <= i <= a.len(),
    ensures
        kept_links(a + b, i) == kept_links(a, i) + kept_links(b, 0),
    decreases a.len() - i,
{
    if i < a.len() {
        assert((a + b)[i] == a[i]);
        lemma_kept_add(a, b, i + 1);
        if is_kept(a[i]) {
            assert(seq![a[i]] + (kept_links(a, i + 1) + kept_links(b, 0)) =~= (seq![a[i]]
                + kept_links(a, i + 1)) + kept_links(b, 0));
        }
    } else {
        lemma_kept_after(a, b, 0);
        assert(kept_links(a, i) + kept_links(b, 0) =~= kept_links(b, 0));
    }
}

/// The link definitions that are kept are all kept.
proof fn lemma_kept_are_kept(links: Seq<LinkView>, i: int)
    requires
        0 <= i <= links.len(),
    ensures
        forall|j: int|
            0 <= j < kept_links(links, i).len() ==> is_kept(#[trigger] kept_links(links, i)[j]),
    decreases links.len() - i,
{
    if i < links.len() {
        lemma_kept_are_kept(links, i + 1);
        let later = kept_links(links, i + 1);
        let all = kept_links(links, i);
        assert forall|j: int| 0 <= j < all.len() implies is_kept(#[trigger] all[j]) by {
            if is_kept(links[i]) {
                if j > 0 {
                    assert(all[j] == later[j - 1]);
                }
            }
        }
    }
}

/// Of link definitions that are all kept, all are kept.
proof fn lemma_kept_all(links: Seq<LinkView>, i: int)
    requires
        0 <= i <= links.len(),
        forall|j: int| 0 <= j < links.len() ==> is_kept(#[trigger] links[j]),
    ensures
        kept_links(links, i) == links.skip(i),
    decreases links.len() - i,
{
    if i < links.len() {
        lemma_kept_all(links, i + 1);
        assert(seq![links[i]] + links.skip(i + 1) =~= links.skip(i));
    } else {
        assert(links.skip(i) =~= Seq::<LinkView>::empty());
    }
}

/// Of link definitions of which none is kept, none is kept.
proof fn lemma_kept_none(links: Seq<LinkView>, i: int)
    requires
        0 <= i <= links.len(),
        forall|j: int| 0 <= j < links.len() ==> !is_kept(#[trigger] links[j]),
    ensures
        kept_links(links, i) == Seq::<LinkView>::empty(),
    decreases links.len() - i,
{
    if i < links.len() {
        lemma_kept_none(links, i + 1);
    }
}

/// A changelog that is written and read again is the changelog as it is
/// written: with the title and the description that it is written with,
/// which are the usual ones where it has none of its own, and with the
/// link definitions that are written with it, which are those of its own
/// that are kept and the links of its releases. Its flag, its releases, its
/// footer, the URL of the repository, the prefix of tags and the ref for
/// the changes not yet released are what they were.
///
/// The law reduces the reading of a whole text to the reading of its
/// lines. Its conditions say of the changelog that it can be written, that
/// the URL of the repository is known or shown by none of its link
/// definitions, that its releases are in order, and that none of its texts
/// is blank; and they say of each line that is written how it is read: a
/// line of a description or of the footer as a line of a paragraph, an
/// indented line of an entry as the continuation of its list item, a link
/// definition as a link definition, the flag as the flag, the heading of a
/// release as that release, and the title of a kind of change as that
/// kind. Headings, list items and rules are read by their marks; of them
/// the law asks nothing.
pub proof fn law_changelog_is_read_as_written(c: ChangelogView)
    requires
        line_patterns_accepted(),
        regex_accepts(INDENT_PATTERN@),
        plain_changelog(c),
        is_read_back(as_written(c)),
    ensures
        changelog_text(c) is Ok,
        parsed_text(changelog_text(c)->Ok_0, options_of(c)) == Ok::<
            ChangelogView,
            ParseError,
        >(as_written(c)),
{
    let text = changelog_text(c)->Ok_0;
    let read = as_written(c);
    lemma_changelog_chunk(c);
    lemma_chunk_tokens(text, changelog_chunk(c));
    law_written_tokens_are_read_back(read);
    assert(options_of(read) == options_of(c));
    lemma_lines_do_not_matter(tokens_of(text)->Ok_0, written_tokens(read), options_of(c));
}

/// Whether none of the links of the releases of the changelog `c` is
/// kept when a changelog is written: each is made anew.
pub open spec fn links_are_made_anew(c: ChangelogView) -> bool {
    forall|i: int|
        0 <= i < derived_links(c, 0).len() ==> !is_kept(#[trigger] derived_links(c, 0)[i])
}

/// Of the link definitions that are written with a changelog, those that
/// are kept are those of its own that are kept, where none of the links of
/// its releases is.
pub proof fn lemma_written_links_kept(c: ChangelogView)
    requires
        links_are_made_anew(c),
    ensures
        kept_links(written_links(c), 0) == kept_links(c.links, 0),
{
    let kept = kept_links(c.links, 0);
    let derived = derived_links(c, 0);
    lemma_kept_add(kept, derived, 0);
    lemma_kept_are_kept(c.links, 0);
    lemma_kept_all(kept, 0);
    assert(kept.skip(0) =~= kept);
    lemma_kept_none(derived, 0);
    assert(kept + Seq::<LinkView>::empty() =~= kept);
}

/// Of a changelog that is written and read again, the link definitions
/// that are kept are those that were kept of the changelog that was
/// written, in their order; its title and its description are written as
/// those of the changelog that was written, which are the usual ones where
/// that changelog had none; and the rest is what it was.
///
/// This holds of a changelog that is read as it is written, where none of
/// the links of its releases is kept when it is written again: their
/// anchors look like versions or name the changes not yet released.
pub proof fn law_read_back_keeps_what_is_written(c: ChangelogView)
    requires
        line_patterns_accepted(),
        regex_accepts(INDENT_PATTERN@),
        plain_changelog(c),
        is_read_back(as_written(c)),
        links_are_made_anew(c),
    ensures
        parsed_text(changelog_text(c)->Ok_0, options_of(c)) matches Ok(read) && {
            &&& kept_links(read.links, 0) == kept_links(c.links, 0)
            &&& written_title(read) == written_title(c)
            &&& written_description(read) == written_description(c)
            &&& read.flag == c.flag
            &&& read.releases == c.releases
            &&& read.footer == c.footer
            &&& read.url == c.url
            &&& read.tag_prefix == c.tag_prefix
            &&& read.head == c.head
        },
{
    law_changelog_is_read_as_written(c);
    lemma_written_links_kept(c);
    lemma_written_top(c);
    lemma_tight_trim(written_description(c));
}

/// A changelog that is written, read and written again is written as the
/// same text, whether or not it has a title and a description of its own.
///
/// This holds of a changelog that is read as it is written, where none of
/// the links of its releases is kept when it is written again: their
/// anchors look like versions or name the changes not yet released.
pub proof fn law_written_again_is_the_same(c: ChangelogView)
    requires
        line_patterns_accepted(),
        regex_accepts(INDENT_PATTERN@),
        plain_changelog(c),
        is_read_back(as_written(c)),
        links_are_made_anew(c),
    ensures
        parsed_text(changelog_text(c)->Ok_0, options_of(c)) is Ok,
        changelog_text(parsed_text(changelog_text(c)->Ok_0, options_of(c))->Ok_0)
            == changelog_text(c),
{
    law_changelog_is_read_as_written(c);
    lemma_written_links_kept(c);
    lemma_written_top(c);
    lemma_tight_trim(written_description(c));
    assert(top_text(as_written(c)) == top_text(c));
    lemma_same_text(c, as_written(c));
}

/// The pieces of a split text are never none.
pub proof fn lemma_split_some(s: Seq<char>, sep: char)
    ensures
        split_on(s, sep).len() > 0,
    decreases s.len(),
{
    if s.len() > 0 {
        lemma_split_some(s.drop_last(), sep);
    }
}

/// A text that is cut at a separator and put together again with the
/// separator is the text it was: the lines of an entry are kept when it is
/// written on several lines.
pub proof fn law_split_then_join(s: Seq<char>, sep: char)
    ensures
        join_with(split_on(s, sep), seq![sep]) == s,
    decreases s.len(),
{
    let parts = split_on(s, sep);
    if s.len() == 0 {
        assert(parts[0] =~= s);
    } else {
        let t = s.drop_last();
        let before = split_on(t, sep);
        lemma_split_some(t, sep);
        law_split_then_join(t, sep);
        lemma_join_last(before, seq![sep]);
        if s.last() == sep {
            assert(parts.drop_last() =~= before);
            assert(parts.last() =~= Seq::<char>::empty());
            assert(join_with(parts, seq![sep]) =~= t + seq![sep]);
            assert(t + seq![sep] =~= s);
        } else {
            let last = before.last().push(s.last());
            assert(parts =~= before.drop_last().push(last));
            lemma_join_last(parts, seq![sep]);
            assert(parts.drop_last() =~= before.drop_last());
            if before.len() == 1 {
                assert(before[0] == t);
                assert(parts[0] =~= s);
            } else {
                assert(join_with(parts, seq![sep]) =~= join_with(before.drop_last(), seq![sep])
                    + seq![sep] + last);
                assert(join_with(before, seq![sep]) =~= join_with(before.drop_last(), seq![sep])
                    + seq![sep] + before.last());
                assert(join_with(parts, seq![sep]) =~= t.push(s.last()));
                assert(t.push(s.last()) =~= s);
            }
        }
    }
}

/// Pieces put together end with the last piece.
proof fn lemma_join_last(parts: Seq<Seq<char>>, sep: Seq<char>)
    requires
        parts.len() > 0,
    ensures
        parts.len() == 1 ==> join_with(parts, sep) == parts[0],
        parts.len() > 1 ==> join_with(parts, sep) == join_with(parts.drop_last(), sep) + sep
            + parts.last(),
{
}

} // verus!
