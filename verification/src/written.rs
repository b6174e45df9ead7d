//! The lines of a changelog as it is written, piece by piece.

use crate::changelog::{
    ChangelogView, bottom_text, changelog_text, link_at, links_text, releases_text, top_text,
    written_description, written_title,
};
use crate::changes::{
    ChangeKind, ChangesView, changes_text, entries_text, entry_lines, entry_text, kind_title,
    section_text,
};
use crate::chunks::{
    Chunk, blank_chunk, blank_is_read, chunk_add, continues_item, ends_clean, headed_chunk,
    indented_lines, item_chunk, lemma_blank_chunk, lemma_headed_chunk, lemma_item_chunk,
    lemma_line_chunk, lemma_no_chunk, lemma_sound_add, line_chunk, no_chunk, read_as_paragraph,
    sound,
};
use crate::consts::{
    CHANGELOG_DESCRIPTION, CHANGELOG_TITLE, COMMENT_CLOSE, COMMENT_OPEN, HEADING1,
    HEADING2_DATE, HEADING2_OPEN, HEADING2_UNRELEASED,
    HEADING3, ITEM_INDENT, ITEM_MARK, NEWLINE, PREFIX_H2, PREFIX_LI, RULE, UNRELEASED,
};
use crate::date::date_text;
use crate::error::RenderError;
use crate::laws::{kept_links, lemma_kept_links_text, lemma_split_some};
use crate::lines::{
    lemma_first_line_some, lemma_join_split, lemma_split_add, lemma_split_one,
    lemma_split_pieces, lemma_tight_trim, lemma_trimmed_tight, line_break, lines_of,
    one_line_text, tight,
};
use crate::link::{LinkView, link_text};
use crate::marks::{
    lemma_entry_line, lemma_heading1_read, lemma_heading2_read, lemma_heading3_read,
    lemma_item_read, lemma_rule_read,
};
use crate::merging::reads_as;
use crate::release::{ReleaseView, description_text, heading_text, release_text, yanked_text};
use crate::round_trip::{
    changes_before, entries_before, flag_before, footer_tokens, heading_of, links_before,
    release_before, releases_before, section_before, text_before, text_token, title_of, token_of,
    written_tokens,
};
use crate::text::{decimal_of, is_blank, is_space, trim_of, zero_padded};
use crate::version::version_text;
use crate::token::{TokenKind, TokenView};
use vstd::prelude::*;

verus! {

/// The line break is one character.
pub proof fn lemma_line_break()
    ensures
        NEWLINE@ == line_break(),
{
    reveal_strlit("\n");
    assert(NEWLINE@ =~= seq!['\n']);
}

/// The lines of a line, a line break and a text are the line and the
/// lines of the text.
pub proof fn lemma_lines_after_line(line: Seq<char>, rest: Seq<char>)
    requires
        one_line_text(line),
    ensures
        lines_of(line + NEWLINE@ + rest) == seq![line] + lines_of(rest),
{
    lemma_line_break();
    lemma_split_add(line, rest, '\n');
    lemma_split_one(line, '\n');
}

/// The lines of a text, a line break and another text are the lines of
/// the one and of the other.
pub proof fn lemma_lines_after_text(text: Seq<char>, rest: Seq<char>)
    ensures
        lines_of(text + NEWLINE@ + rest) == lines_of(text) + lines_of(rest),
{
    lemma_line_break();
    lemma_split_add(text, rest, '\n');
}

/// A piece after or before the piece without lines is that piece.
pub proof fn lemma_chunk_none(a: Chunk)
    ensures
        chunk_add(a, no_chunk()) == a,
        chunk_add(no_chunk(), a) == a,
{
    let none = no_chunk();
    assert(a.lines + none.lines =~= a.lines);
    assert(a.raws + none.raws =~= a.raws);
    assert(a.tokens + none.tokens =~= a.tokens);
    assert(none.lines + a.lines =~= a.lines);
    assert(none.raws + a.raws =~= a.raws);
    assert(none.tokens + a.tokens =~= a.tokens);
}

/// Whether the entry `entry` is written as it is: none of its lines
/// begins or ends with white space, and each line after the first, when
/// it is indented, continues the list item.
pub open spec fn plain_entry(entry: Seq<char>) -> bool {
    let lines = lines_of(entry);
    &&& forall|i: int| 0 <= i < lines.len() ==> tight(#[trigger] lines[i])
    &&& forall|i: int|
        0 < i < lines.len() ==> continues_item(ITEM_INDENT@ + #[trigger] lines[i], lines[i])
}

/// Whether each of `entries` is written as it is.
pub open spec fn plain_entries(entries: Seq<Seq<char>>) -> bool {
    forall|i: int| 0 <= i < entries.len() ==> plain_entry(#[trigger] entries[i])
}

/// The piece that writes the entry `entry`.
pub open spec fn entry_chunk(entry: Seq<char>) -> Chunk {
    item_chunk(ITEM_MARK@, ITEM_INDENT@, lines_of(entry))
}

/// An entry is written as the lines of its piece, and the piece is what
/// it says.
pub proof fn lemma_entry_chunk(entry: Seq<char>)
    requires
        plain_entry(entry),
    ensures
        sound(entry_chunk(entry)),
        lines_of(entry_text(entry)) == entry_chunk(entry).lines,
        entry_chunk(entry).tokens == seq![text_token(TokenKind::Li, entry)],
{
    let lines = lines_of(entry);
    lemma_split_some(entry, '\n');
    lemma_split_pieces(entry, '\n');
    lemma_item_read(lines[0]);
    assert forall|i: int| 0 <= i < lines.len() implies (#[trigger] lines[i]).len() > 0
        && !is_space(lines[i].last()) by {
        assert(tight(lines[i]));
    }
    lemma_tight_trim(lines[0]);
    lemma_item_chunk(ITEM_MARK@, ITEM_INDENT@, lines);
    let written = entry_lines(lines);
    let chunk = entry_chunk(entry);
    assert(written.len() == chunk.lines.len());
    reveal_strlit("- ");
    reveal_strlit("  ");
    assert forall|i: int| 0 <= i < written.len() implies written[i] == chunk.lines[i]
        && !(#[trigger] written[i]).contains('\n') by {
        assert(tight(lines[i]));
        lemma_entry_line(lines[i], i == 0);
        if i > 0 {
            assert(chunk.lines[i] == indented_lines(ITEM_INDENT@, lines)[i - 1]);
        }
        assert(!lines[i].contains('\n'));
        if written[i].contains('\n') {
            let k = choose|k: int| 0 <= k < written[i].len() && written[i][k] == '\n';
            if k >= 2 {
                assert(lines[i][k - 2] == '\n');
            }
        }
    }
    assert(written =~= chunk.lines);
    lemma_line_break();
    lemma_join_split(written, '\n');
}

/// The piece that writes the entries `entries`.
pub open spec fn entries_chunk(entries: Seq<Seq<char>>) -> Chunk
    decreases entries.len(),
{
    if entries.len() == 0 {
        no_chunk()
    } else {
        chunk_add(entry_chunk(entries[0]), entries_chunk(entries.drop_first()))
    }
}

/// Entries are written the first, a line break, and the others.
proof fn lemma_entries_front(entries: Seq<Seq<char>>)
    requires
        entries.len() > 0,
    ensures
        entries_text(entries) == entry_text(entries[0]) + NEWLINE@ + entries_text(
            entries.drop_first(),
        ),
    decreases entries.len(),
{
    let later = entries.drop_first();
    if entries.len() == 1 {
        assert(entries.drop_last() =~= Seq::<Seq<char>>::empty());
        assert(entries.last() == entries[0]);
        assert(entries_text(entries.drop_last()) =~= Seq::<char>::empty());
        assert(entries_text(entries) =~= entry_text(entries[0]) + NEWLINE@);
        assert(entries_text(later) =~= Seq::<char>::empty());
        assert(entry_text(entries[0]) + NEWLINE@ + entries_text(later) =~= entry_text(entries[0])
            + NEWLINE@);
    } else {
        let before = entries.drop_last();
        assert(before[0] == entries[0]);
        lemma_entries_front(before);
        assert(before.drop_first() =~= later.drop_last());
        assert(later.last() == entries.last());
        assert(entries_text(later) == entries_text(later.drop_last()) + entry_text(later.last())
            + NEWLINE@);
        assert(entries_text(entries) =~= entry_text(entries[0]) + NEWLINE@ + entries_text(later));
    }
}

/// Entries before a text are written as the lines of their piece and the
/// lines of the text.
pub proof fn lemma_entries_chunk(entries: Seq<Seq<char>>, rest: Seq<char>)
    requires
        plain_entries(entries),
    ensures
        sound(entries_chunk(entries)),
        lines_of(entries_text(entries) + rest) == entries_chunk(entries).lines + lines_of(rest),
        forall|after: Seq<TokenView>|
            #[trigger] (entries_chunk(entries).tokens + after) == entries_before(entries, after),
    decreases entries.len(),
{
    if entries.len() == 0 {
        lemma_no_chunk();
        assert(entries_text(entries) + rest =~= rest);
        assert(no_chunk().lines + lines_of(rest) =~= lines_of(rest));
        assert forall|after: Seq<TokenView>|
            #[trigger] (entries_chunk(entries).tokens + after) == entries_before(
                entries,
                after,
            ) by {
            assert(no_chunk().tokens + after =~= after);
        }
    } else {
        let later = entries.drop_first();
        let first = entry_chunk(entries[0]);
        assert(plain_entry(entries[0]));
        assert forall|i: int| 0 <= i < later.len() implies plain_entry(#[trigger] later[i]) by {
            assert(later[i] == entries[i + 1]);
        }
        lemma_entry_chunk(entries[0]);
        lemma_entries_chunk(later, rest);
        lemma_sound_add(first, entries_chunk(later));
        lemma_entries_front(entries);
        let tail = entries_text(later) + rest;
        assert(entries_text(entries) + rest =~= entry_text(entries[0]) + NEWLINE@ + tail);
        lemma_lines_after_text(entry_text(entries[0]), tail);
        assert(first.lines + (entries_chunk(later).lines + lines_of(rest)) =~= (first.lines
            + entries_chunk(later).lines) + lines_of(rest));
        assert forall|after: Seq<TokenView>|
            #[trigger] (entries_chunk(entries).tokens + after) == entries_before(
                entries,
                after,
            ) by {
            assert(entries_chunk(later).tokens + after == entries_before(later, after));
            assert((first.tokens + entries_chunk(later).tokens) + after =~= first.tokens + (
            entries_chunk(later).tokens + after));
        }
    }
}

/// The kinds of change with their entries, in the order in which they
/// are written.
pub open spec fn six(c: ChangesView) -> Seq<(ChangeKind, Seq<Seq<char>>)> {
    seq![
        (ChangeKind::Added, c.added),
        (ChangeKind::Changed, c.changed),
        (ChangeKind::Deprecated, c.deprecated),
        (ChangeKind::Removed, c.removed),
        (ChangeKind::Fixed, c.fixed),
        (ChangeKind::Security, c.security),
    ]
}

/// The sections `sections` as they are written one after the other;
/// `printed` tells whether a section stands before them.
pub open spec fn sections_text(sections: Seq<(ChangeKind, Seq<Seq<char>>)>, printed: bool) -> Seq<
    char,
>
    decreases sections.len(),
{
    if sections.len() == 0 {
        Seq::<char>::empty()
    } else {
        section_text(printed, kind_title(sections[0].0), sections[0].1) + sections_text(
            sections.drop_first(),
            printed || sections[0].1.len() > 0,
        )
    }
}

/// The tokens that write the sections `sections`, before `after`.
pub open spec fn sections_before(
    sections: Seq<(ChangeKind, Seq<Seq<char>>)>,
    after: Seq<TokenView>,
) -> Seq<TokenView>
    decreases sections.len(),
{
    if sections.len() == 0 {
        after
    } else {
        section_before(
            sections[0].0,
            sections[0].1,
            sections_before(sections.drop_first(), after),
        )
    }
}

/// The empty line between two sections, where `printed` tells that a
/// section stands before.
pub open spec fn gap_chunk(printed: bool) -> Chunk {
    if printed {
        blank_chunk()
    } else {
        no_chunk()
    }
}

/// The piece that writes the heading of the kind `kind`.
pub open spec fn kind_chunk(kind: ChangeKind) -> Chunk {
    line_chunk(HEADING3@ + kind_title(kind), TokenKind::H3, kind_title(kind))
}

/// The piece that writes the sections `sections` and the empty line
/// after them.
pub open spec fn sections_chunk(sections: Seq<(ChangeKind, Seq<Seq<char>>)>, printed: bool) -> Chunk
    decreases sections.len(),
{
    if sections.len() == 0 {
        blank_chunk()
    } else if sections[0].1.len() == 0 {
        sections_chunk(sections.drop_first(), printed)
    } else {
        chunk_add(
            gap_chunk(printed),
            chunk_add(
                kind_chunk(sections[0].0),
                chunk_add(
                    entries_chunk(sections[0].1),
                    sections_chunk(sections.drop_first(), true),
                ),
            ),
        )
    }
}

/// Six texts put one after the other in whatever grouping are the same
/// text.
proof fn lemma_six_texts(
    a: Seq<char>,
    b: Seq<char>,
    c: Seq<char>,
    d: Seq<char>,
    e: Seq<char>,
    f: Seq<char>,
)
    ensures
        a + b + c + d + e + f == a + (b + (c + (d + (e + (f + Seq::<char>::empty()))))),
{
    assert(f + Seq::<char>::empty() =~= f);
    assert(a + b + c + d + e + f =~= a + (b + (c + (d + (e + f)))));
}

/// The six kinds of change one after the other.
proof fn lemma_six(c: ChangesView)
    ensures
        ({
            let s0 = six(c);
            let s1 = s0.drop_first();
            let s2 = s1.drop_first();
            let s3 = s2.drop_first();
            let s4 = s3.drop_first();
            let s5 = s4.drop_first();
            &&& s0.len() == 6 && s0[0] == (ChangeKind::Added, c.added)
            &&& s1.len() == 5 && s1[0] == (ChangeKind::Changed, c.changed)
            &&& s2.len() == 4 && s2[0] == (ChangeKind::Deprecated, c.deprecated)
            &&& s3.len() == 3 && s3[0] == (ChangeKind::Removed, c.removed)
            &&& s4.len() == 2 && s4[0] == (ChangeKind::Fixed, c.fixed)
            &&& s5.len() == 1 && s5[0] == (ChangeKind::Security, c.security)
            &&& s5.drop_first().len() == 0
        }),
{
}

/// The changes are written as their sections one after the other.
pub proof fn lemma_changes_sections(c: ChangesView)
    ensures
        changes_text(c) == sections_text(six(c), false),
{
    lemma_six(c);
    let s0 = six(c);
    let s1 = s0.drop_first();
    let s2 = s1.drop_first();
    let s3 = s2.drop_first();
    let s4 = s3.drop_first();
    let s5 = s4.drop_first();
    let s6 = s5.drop_first();
    let p1 = c.added.len() > 0;
    let p2 = p1 || c.changed.len() > 0;
    let p3 = p2 || c.deprecated.len() > 0;
    let p4 = p3 || c.removed.len() > 0;
    let p5 = p4 || c.fixed.len() > 0;
    let p6 = p5 || c.security.len() > 0;
    let x1 = section_text(false, kind_title(ChangeKind::Added), c.added);
    let x2 = section_text(p1, kind_title(ChangeKind::Changed), c.changed);
    let x3 = section_text(p2, kind_title(ChangeKind::Deprecated), c.deprecated);
    let x4 = section_text(p3, kind_title(ChangeKind::Removed), c.removed);
    let x5 = section_text(p4, kind_title(ChangeKind::Fixed), c.fixed);
    let x6 = section_text(p5, kind_title(ChangeKind::Security), c.security);
    assert(sections_text(s6, p6) == Seq::<char>::empty());
    assert(sections_text(s5, p5) == x6 + sections_text(s6, p6));
    assert(sections_text(s4, p4) == x5 + sections_text(s5, p5));
    assert(sections_text(s3, p3) == x4 + sections_text(s4, p4));
    assert(sections_text(s2, p2) == x3 + sections_text(s3, p3));
    assert(sections_text(s1, p1) == x2 + sections_text(s2, p2));
    assert(sections_text(s0, false) == x1 + sections_text(s1, p1));
    lemma_six_texts(x1, x2, x3, x4, x5, x6);
    assert(changes_text(c) == x1 + x2 + x3 + x4 + x5 + x6);
}

/// The tokens that write changes are those of their sections one after
/// the other.
pub proof fn lemma_changes_tokens(c: ChangesView, after: Seq<TokenView>)
    ensures
        changes_before(c, after) == sections_before(six(c), after),
{
    lemma_six(c);
    let s0 = six(c);
    let s1 = s0.drop_first();
    let s2 = s1.drop_first();
    let s3 = s2.drop_first();
    let s4 = s3.drop_first();
    let s5 = s4.drop_first();
    let s6 = s5.drop_first();
    let b6 = sections_before(s6, after);
    assert(b6 == after);
    let b5 = sections_before(s5, after);
    assert(b5 == section_before(ChangeKind::Security, c.security, b6));
    let b4 = sections_before(s4, after);
    assert(b4 == section_before(ChangeKind::Fixed, c.fixed, b5));
    let b3 = sections_before(s3, after);
    assert(b3 == section_before(ChangeKind::Removed, c.removed, b4));
    let b2 = sections_before(s2, after);
    assert(b2 == section_before(ChangeKind::Deprecated, c.deprecated, b3));
    let b1 = sections_before(s1, after);
    assert(b1 == section_before(ChangeKind::Changed, c.changed, b2));
    assert(sections_before(s0, after) == section_before(ChangeKind::Added, c.added, b1));
}

/// The title of a kind of change is one line that neither begins nor
/// ends with white space.
pub proof fn lemma_title_tight(kind: ChangeKind)
    ensures
        tight(kind_title(kind)),
        one_line_text(HEADING3@ + kind_title(kind)),
{
    reveal_strlit("Added");
    reveal_strlit("Changed");
    reveal_strlit("Deprecated");
    reveal_strlit("Removed");
    reveal_strlit("Fixed");
    reveal_strlit("Security");
    reveal_strlit("### ");
    let title = kind_title(kind);
    let line = HEADING3@ + title;
    assert(!is_space(title[0]));
    assert(!is_space(title[title.len() - 1]));
    assert forall|i: int| 0 <= i < line.len() implies line[i] != '\n' by {
        if i >= 4 {
            assert(line[i] == title[i - 4]);
        }
    }
}

/// The heading of a kind of change is a piece that is what it says.
pub proof fn lemma_kind_chunk(kind: ChangeKind)
    ensures
        sound(kind_chunk(kind)),
{
    lemma_title_tight(kind);
    let title = kind_title(kind);
    lemma_heading3_read(title);
    lemma_tight_trim(title);
    assert((HEADING3@ + title).last() == title.last());
    lemma_line_chunk(HEADING3@ + title, TokenKind::H3, title);
}

/// Whether the entries of each of `sections` are written as they are.
pub open spec fn plain_sections(sections: Seq<(ChangeKind, Seq<Seq<char>>)>) -> bool {
    forall|i: int| 0 <= i < sections.len() ==> plain_entries((#[trigger] sections[i]).1)
}

/// Sections are written as the lines of their piece, and the piece is
/// what it says.
pub proof fn lemma_sections_chunk(sections: Seq<(ChangeKind, Seq<Seq<char>>)>, printed: bool)
    requires
        blank_is_read(),
        plain_sections(sections),
    ensures
        sound(sections_chunk(sections, printed)),
        lines_of(sections_text(sections, printed)) == sections_chunk(sections, printed).lines,
        forall|after: Seq<TokenView>|
            #[trigger] (sections_chunk(sections, printed).tokens + after) == sections_before(
                sections,
                after,
            ),
    decreases sections.len(),
{
    let chunk = sections_chunk(sections, printed);
    if sections.len() == 0 {
        lemma_blank_chunk();
        assert forall|after: Seq<TokenView>|
            #[trigger] (chunk.tokens + after) == sections_before(sections, after) by {
            assert(blank_chunk().tokens + after =~= after);
        }
    } else {
        let kind = sections[0].0;
        let entries = sections[0].1;
        let later = sections.drop_first();
        assert(plain_entries(sections[0].1));
        assert forall|i: int| 0 <= i < later.len() implies plain_entries(
            (#[trigger] later[i]).1,
        ) by {
            assert(later[i] == sections[i + 1]);
        }
        if entries.len() == 0 {
            lemma_sections_chunk(later, printed);
            assert(sections_text(sections, printed) =~= sections_text(later, printed));
        } else {
            let tail = sections_chunk(later, true);
            let items = entries_chunk(entries);
            let heading = kind_chunk(kind);
            let gap = gap_chunk(printed);
            let tail_text = sections_text(later, true);
            lemma_sections_chunk(later, true);
            lemma_entries_chunk(entries, tail_text);
            lemma_kind_chunk(kind);
            lemma_title_tight(kind);
            if printed {
                lemma_blank_chunk();
            } else {
                lemma_no_chunk();
            }
            lemma_sound_add(items, tail);
            lemma_sound_add(heading, chunk_add(items, tail));
            lemma_sound_add(gap, chunk_add(heading, chunk_add(items, tail)));
            let line = HEADING3@ + kind_title(kind);
            let body = entries_text(entries) + tail_text;
            lemma_lines_after_line(line, body);
            let headed = line + NEWLINE@ + body;
            assert(lines_of(headed) == seq![line] + (items.lines + tail.lines));
            if printed {
                assert(sections_text(sections, printed) =~= Seq::<char>::empty() + NEWLINE@
                    + headed);
                lemma_lines_after_text(Seq::<char>::empty(), headed);
            } else {
                assert(sections_text(sections, printed) =~= headed);
                assert(gap.lines + (heading.lines + (items.lines + tail.lines))
                    =~= heading.lines + (items.lines + tail.lines));
            }
            assert forall|after: Seq<TokenView>|
                #[trigger] (chunk.tokens + after) == sections_before(sections, after) by {
                let rest = sections_before(later, after);
                assert(tail.tokens + after == rest);
                assert(items.tokens + rest == entries_before(entries, rest));
                assert(chunk.tokens + after =~= heading.tokens + (items.tokens + (tail.tokens
                    + after)));
            }
        }
    }
}

/// Whether the text `text` is written as one paragraph: each of its
/// lines is read as a line of a paragraph that holds the line as it is,
/// none ends with white space, and neither the first nor the last is
/// blank.
pub open spec fn plain_text(text: Seq<char>) -> bool {
    let lines = lines_of(text);
    &&& read_as_paragraph(lines)
    &&& ends_clean(lines)
    &&& !is_blank(lines[0])
    &&& !is_blank(lines.last())
}

/// Whether the release `r` is written as it is: it has both version and
/// date or neither, its heading is one line, and its description and its
/// entries are written as they are.
pub open spec fn plain_release(r: ReleaseView) -> bool {
    &&& r.version is Some <==> r.date is Some
    &&& one_line_text(heading_of(r))
    &&& r.description matches Some(d) ==> plain_text(d)
    &&& plain_sections(six(r.changes))
}

/// A number that is written ends with a digit.
proof fn lemma_decimal_ends(n: nat)
    ensures
        decimal_of(n).len() > 0,
        !is_space(decimal_of(n).last()),
{
}

/// A number that is written with zeros before it ends with a digit.
proof fn lemma_padded_ends(n: nat, width: nat)
    ensures
        zero_padded(n, width).len() > 0,
        !is_space(zero_padded(n, width).last()),
{
    lemma_decimal_ends(n);
    let digits = decimal_of(n);
    if digits.len() < width {
        let zeros = Seq::new((width - digits.len()) as nat, |i: int| '0');
        assert((zeros + digits).last() == digits.last());
    }
}

/// The heading of a release neither begins nor ends with white space.
proof fn lemma_heading_tight(r: ReleaseView)
    ensures
        tight(heading_of(r)),
{
    reveal_strlit(" [YANKED]");
    reveal_strlit("Unreleased");
    let h = heading_of(r);
    assert(h[0] == '[');
    let mark = yanked_text(r.yanked);
    if r.yanked {
        assert(mark.last() == ']');
        assert(h.last() == mark.last());
    } else {
        assert(mark =~= Seq::<char>::empty());
        match (r.version, r.date) {
            (Some(version), Some(date)) => {
                let written = date_text(date);
                lemma_padded_ends(date.day as nat, 2);
                assert(written.last() == zero_padded(date.day as nat, 2).last());
                assert(h =~= seq!['['] + version_text(version) + HEADING2_DATE@ + written);
                assert(h.last() == written.last());
            },
            _ => {
                assert(h =~= seq!['['] + UNRELEASED@ + seq![']']);
                assert(h.last() == ']');
            },
        }
    }
}

/// The piece that writes the heading and the description of the release
/// `r`.
pub open spec fn head_chunk(r: ReleaseView) -> Chunk {
    let line = PREFIX_H2@ + heading_of(r);
    match r.description {
        Some(d) => headed_chunk(line, TokenKind::H2, heading_of(r), lines_of(d)),
        None => line_chunk(line, TokenKind::H2, heading_of(r)),
    }
}

/// The piece that writes the release `r` and the empty line after it.
pub open spec fn release_chunk(r: ReleaseView) -> Chunk {
    chunk_add(head_chunk(r), sections_chunk(six(r.changes), false))
}

/// The heading of a release is written as the mark of a heading, the
/// text of the heading and a line break.
proof fn lemma_heading_line(r: ReleaseView)
    requires
        r.version is Some <==> r.date is Some,
    ensures
        heading_text(r) == Ok::<Seq<char>, RenderError>(
            PREFIX_H2@ + heading_of(r) + NEWLINE@,
        ),
{
    reveal_strlit("## ");
    reveal_strlit("## [");
    reveal_strlit("## [Unreleased]");
    reveal_strlit("Unreleased");
    assert(HEADING2_OPEN@ =~= PREFIX_H2@ + seq!['[']);
    assert(HEADING2_UNRELEASED@ =~= PREFIX_H2@ + seq!['['] + UNRELEASED@ + seq![']']);
    let written = heading_text(r)->Ok_0;
    assert(written =~= PREFIX_H2@ + heading_of(r) + NEWLINE@);
}

/// The mark of a second-level heading holds no line break.
proof fn lemma_heading2_line(heading: Seq<char>)
    requires
        one_line_text(heading),
        tight(heading),
    ensures
        one_line_text(PREFIX_H2@ + heading),
        !is_space((PREFIX_H2@ + heading).last()),
{
    reveal_strlit("## ");
    let line = PREFIX_H2@ + heading;
    assert forall|i: int| 0 <= i < line.len() implies line[i] != '\n' by {
        if i >= 3 {
            assert(line[i] == heading[i - 3]);
        }
    }
    assert(line.last() == heading.last());
}

/// The heading and the description of a release are written as the
/// lines of their piece, and the piece is what it says.
proof fn lemma_head_chunk(r: ReleaseView, rest: Seq<char>)
    requires
        plain_release(r),
    ensures
        sound(head_chunk(r)),
        lines_of(PREFIX_H2@ + heading_of(r) + NEWLINE@ + description_text(r.description) + rest)
            == head_chunk(r).lines + lines_of(rest),
{
    let h = heading_of(r);
    let line = PREFIX_H2@ + h;
    lemma_heading_tight(r);
    lemma_heading2_line(h);
    lemma_heading2_read(h);
    lemma_tight_trim(h);
    match r.description {
        Some(d) => {
            let lines = lines_of(d);
            lemma_split_some(d, '\n');
            lemma_headed_chunk(line, TokenKind::H2, h, lines);
            let body = d + NEWLINE@ + rest;
            assert(line + NEWLINE@ + description_text(r.description) + rest =~= line + NEWLINE@
                + body);
            lemma_lines_after_line(line, body);
            lemma_lines_after_text(d, rest);
            assert(seq![line] + (lines + lines_of(rest)) =~= (seq![line] + lines) + lines_of(
                rest,
            ));
        },
        None => {
            lemma_line_chunk(line, TokenKind::H2, h);
            assert(line + NEWLINE@ + description_text(r.description) + rest =~= line + NEWLINE@
                + rest);
            lemma_lines_after_line(line, rest);
        },
    }
}

/// The tokens of the piece of the heading and the description of a
/// release are those that write them.
proof fn lemma_head_tokens(r: ReleaseView, after: Seq<TokenView>)
    ensures
        head_chunk(r).tokens + after == seq![token_of(TokenKind::H2, seq![heading_of(r)])]
            + text_before(r.description, after),
{
    let h = heading_of(r);
    match r.description {
        Some(d) => {
            assert(head_chunk(r).tokens + after =~= seq![token_of(TokenKind::H2, seq![h])] + (
            seq![text_token(TokenKind::P, d)] + after));
        },
        None => {},
    }
}

/// A release is written as the lines of its piece, and the piece is what
/// it says.
pub proof fn lemma_release_chunk(r: ReleaseView)
    requires
        blank_is_read(),
        plain_release(r),
    ensures
        sound(release_chunk(r)),
        release_text(r) is Ok,
        lines_of(release_text(r)->Ok_0) == release_chunk(r).lines,
{
    let head = head_chunk(r);
    let sections = sections_chunk(six(r.changes), false);
    let changes = changes_text(r.changes);
    lemma_heading_line(r);
    lemma_head_chunk(r, changes);
    lemma_sections_chunk(six(r.changes), false);
    lemma_changes_sections(r.changes);
    lemma_sound_add(head, sections);
    assert(release_text(r)->Ok_0 =~= PREFIX_H2@ + heading_of(r) + NEWLINE@ + description_text(
        r.description,
    ) + changes);
}

/// The tokens of the piece of a release are those that write it.
pub proof fn lemma_release_tokens(r: ReleaseView, after: Seq<TokenView>)
    requires
        blank_is_read(),
        plain_release(r),
    ensures
        release_chunk(r).tokens + after == release_before(r, after),
{
    let head = head_chunk(r);
    let sections = sections_chunk(six(r.changes), false);
    lemma_sections_chunk(six(r.changes), false);
    lemma_changes_tokens(r.changes, after);
    let rest = changes_before(r.changes, after);
    assert(sections.tokens + after == rest);
    lemma_head_tokens(r, rest);
    assert((head.tokens + sections.tokens) + after =~= head.tokens + (sections.tokens + after));
}

/// The piece that writes the releases `releases`, each after an empty
/// line.
pub open spec fn releases_chunk(releases: Seq<ReleaseView>) -> Chunk
    decreases releases.len(),
{
    if releases.len() == 0 {
        no_chunk()
    } else {
        chunk_add(release_chunk(releases[0]), releases_chunk(releases.drop_first()))
    }
}

/// Whether each of `releases` is written as it is.
pub open spec fn plain_releases(releases: Seq<ReleaseView>) -> bool {
    forall|i: int| 0 <= i < releases.len() ==> plain_release(#[trigger] releases[i])
}

/// The piece of releases is what it says, and its tokens are those that
/// write the releases.
pub proof fn lemma_releases_chunk(releases: Seq<ReleaseView>)
    requires
        blank_is_read(),
        plain_releases(releases),
    ensures
        sound(releases_chunk(releases)),
        forall|after: Seq<TokenView>|
            #[trigger] (releases_chunk(releases).tokens + after) == releases_before(
                releases,
                after,
            ),
    decreases releases.len(),
{
    if releases.len() == 0 {
        lemma_no_chunk();
        assert forall|after: Seq<TokenView>|
            #[trigger] (releases_chunk(releases).tokens + after) == releases_before(
                releases,
                after,
            ) by {
            assert(no_chunk().tokens + after =~= after);
        }
    } else {
        let later = releases.drop_first();
        let first = release_chunk(releases[0]);
        assert(plain_release(releases[0]));
        assert forall|i: int| 0 <= i < later.len() implies plain_release(#[trigger] later[i]) by {
            assert(later[i] == releases[i + 1]);
        }
        lemma_release_chunk(releases[0]);
        lemma_releases_chunk(later);
        lemma_sound_add(first, releases_chunk(later));
        assert forall|after: Seq<TokenView>|
            #[trigger] (releases_chunk(releases).tokens + after) == releases_before(
                releases,
                after,
            ) by {
            let rest = releases_before(later, after);
            assert(releases_chunk(later).tokens + after == rest);
            lemma_release_tokens(releases[0], rest);
            assert((first.tokens + releases_chunk(later).tokens) + after =~= first.tokens + (
            releases_chunk(later).tokens + after));
        }
    }
}

/// The links of the releases of the changelog `c` from index `i` on.
pub open spec fn derived_links(c: ChangelogView, i: int) -> Seq<LinkView>
    decreases c.releases.len() - i,
{
    if i < 0 || i >= c.releases.len() {
        Seq::<LinkView>::empty()
    } else {
        match link_at(c, i) {
            Ok(Some(link)) => seq![link] + derived_links(c, i + 1),
            _ => derived_links(c, i + 1),
        }
    }
}

/// The releases from index `i` on are written after the text `text` as
/// the lines of their piece, where they can be written; and their links
/// are put after the links `links`.
pub proof fn lemma_releases_written(
    c: ChangelogView,
    i: int,
    text: Seq<char>,
    links: Seq<LinkView>,
)
    requires
        0 <= i <= c.releases.len(),
        blank_is_read(),
        plain_releases(c.releases),
        releases_text(c, i, text, links) is Ok,
    ensures
        lines_of(releases_text(c, i, text, links)->Ok_0.0) == lines_of(text) + releases_chunk(
            c.releases.skip(i),
        ).lines,
        releases_text(c, i, text, links)->Ok_0.1 == links + derived_links(c, i),
    decreases c.releases.len() - i,
{
    let rest = c.releases.skip(i);
    if i >= c.releases.len() {
        assert(rest =~= Seq::<ReleaseView>::empty());
        assert(lines_of(text) + no_chunk().lines =~= lines_of(text));
        assert(links + derived_links(c, i) =~= links);
    } else {
        let r = c.releases[i];
        assert(rest[0] == r);
        assert(rest.drop_first() =~= c.releases.skip(i + 1));
        assert(plain_release(r));
        lemma_release_chunk(r);
        let written = release_text(r)->Ok_0;
        let next = text + NEWLINE@ + written;
        let link = link_at(c, i)->Ok_0;
        let more = match link {
            Some(l) => links.push(l),
            None => links,
        };
        lemma_releases_written(c, i + 1, next, more);
        lemma_lines_after_text(text, written);
        let later = releases_chunk(c.releases.skip(i + 1));
        assert((lines_of(text) + release_chunk(r).lines) + later.lines =~= lines_of(text) + (
        release_chunk(r).lines + later.lines));
        match link {
            Some(l) => {
                assert(links.push(l) + derived_links(c, i + 1) =~= links + (seq![l]
                    + derived_links(c, i + 1)));
            },
            None => {},
        }
    }
}

/// The lines of a text and a line break are the lines of the text and an
/// empty line.
pub proof fn lemma_lines_ended(text: Seq<char>)
    ensures
        lines_of(text + NEWLINE@) == lines_of(text) + seq![Seq::<char>::empty()],
{
    lemma_lines_after_text(text, Seq::<char>::empty());
    assert(text + NEWLINE@ + Seq::<char>::empty() =~= text + NEWLINE@);
}

/// The line that writes the flag `flag`.
pub open spec fn flag_line(flag: Seq<char>) -> Seq<char> {
    COMMENT_OPEN@ + flag + COMMENT_CLOSE@
}

/// Whether the flag `flag` is written as it is: its line is one line that
/// is read as the flag, and the flag is not blank.
pub open spec fn plain_flag(flag: Option<Seq<char>>) -> bool {
    flag matches Some(f) ==> {
        &&& reads_as(flag_line(f), TokenKind::Flag, f)
        &&& one_line_text(flag_line(f))
        &&& !is_blank(f)
    }
}

/// The piece that writes the flag `flag`.
pub open spec fn flag_chunk(flag: Option<Seq<char>>) -> Chunk {
    match flag {
        Some(f) => line_chunk(flag_line(f), TokenKind::Flag, f),
        None => no_chunk(),
    }
}

/// The piece that writes the title and the description of the changelog
/// `c`.
pub open spec fn title_chunk(c: ChangelogView) -> Chunk {
    headed_chunk(
        HEADING1@ + written_title(c),
        TokenKind::H1,
        written_title(c),
        lines_of(written_description(c)),
    )
}

/// The piece that writes the top of the changelog `c` and the empty line
/// after it.
pub open spec fn top_chunk(c: ChangelogView) -> Chunk {
    chunk_add(flag_chunk(c.flag), chunk_add(title_chunk(c), blank_chunk()))
}

/// Whether the top of the changelog `c` is written as it is: the flag; a
/// title, where it has one, of one line that neither begins nor ends with
/// white space; and a description that is written as one paragraph.
pub open spec fn plain_top(c: ChangelogView) -> bool {
    &&& plain_flag(c.flag)
    &&& c.title matches Some(t) ==> tight(t) && one_line_text(t)
    &&& plain_text(written_description(c))
}

/// The usual title is one line that neither begins nor ends with white
/// space, and the usual description neither begins nor ends with white
/// space.
pub proof fn lemma_usual_top()
    ensures
        tight(CHANGELOG_TITLE@),
        one_line_text(CHANGELOG_TITLE@),
        tight(CHANGELOG_DESCRIPTION@),
{
    reveal_strlit("Changelog");
    reveal_strlit(
        "All notable changes to this project will be documented in this file.\nThe format is based on [Keep a Changelog](https://keepachangelog.com/)\nand this project adheres to [Semantic Versioning](https://semver.org/).",
    );
    let title = CHANGELOG_TITLE@;
    assert(title.len() == 9);
    assert(title[0] == 'C');
    assert(title.last() == 'g');
    assert forall|i: int| 0 <= i < title.len() implies title[i] != '\n' by {}
    let usual = CHANGELOG_DESCRIPTION@;
    assert(usual[0] == 'A');
    assert(usual.last() == '.');
}

/// The title and the description that a changelog is written with
/// neither begin nor end with white space, and the title is one line.
pub proof fn lemma_written_top(c: ChangelogView)
    requires
        plain_top(c),
    ensures
        tight(written_title(c)),
        one_line_text(written_title(c)),
        tight(written_description(c)),
{
    lemma_usual_top();
    match c.description {
        Some(d) => {
            let first = lines_of(trim_of(d))[0];
            assert(first.len() > 0) by {
                if first.len() == 0 {
                    assert(is_blank(first));
                }
            }
            lemma_first_line_some(trim_of(d));
            lemma_trimmed_tight(d);
        },
        None => {},
    }
}

/// The top of a changelog is written as the lines of its piece, and the
/// piece is what it says.
pub proof fn lemma_top_chunk(c: ChangelogView)
    requires
        blank_is_read(),
        plain_top(c),
    ensures
        sound(top_chunk(c)),
        lines_of(top_text(c)) == top_chunk(c).lines,
        top_chunk(c).lines.len() > 0,
        top_chunk(c).lines[0].len() > 0,
        !is_space(top_chunk(c).lines[0][0]),
        top_chunk(c).raws.len() > 0,
        top_chunk(c).raws[0].kind != TokenKind::P,
{
    reveal_strlit("# ");
    reveal_strlit("<!-- ");
    reveal_strlit(" -->");
    let title = written_title(c);
    let d = written_description(c);
    let line = HEADING1@ + title;
    let paragraph = lines_of(d);
    let titled = title_chunk(c);
    let flag = flag_chunk(c.flag);
    lemma_written_top(c);
    lemma_split_some(d, '\n');
    lemma_heading1_read(title);
    lemma_tight_trim(title);
    lemma_tight_trim(d);
    assert(line.last() == title.last());
    assert forall|i: int| 0 <= i < line.len() implies line[i] != '\n' by {
        if i >= 2 {
            assert(line[i] == title[i - 2]);
        }
    }
    lemma_headed_chunk(line, TokenKind::H1, title, paragraph);
    lemma_blank_chunk();
    lemma_sound_add(titled, blank_chunk());
    let body = d + NEWLINE@;
    let under = line + NEWLINE@ + body;
    lemma_lines_after_line(line, body);
    lemma_lines_ended(d);
    assert(lines_of(under) =~= titled.lines + blank_chunk().lines);
    assert(titled.lines[0] == line);
    assert(line[0] == '#');
    assert(titled.raws[0].kind == TokenKind::H1);
    match c.flag {
        Some(f) => {
            let written = flag_line(f);
            assert(written.last() == '>');
            assert(written[0] == '<');
            lemma_line_chunk(written, TokenKind::Flag, f);
            assert(top_text(c) =~= written + NEWLINE@ + under);
            lemma_lines_after_line(written, under);
            assert(top_chunk(c).lines[0] == written);
            assert(top_chunk(c).raws[0].kind == TokenKind::Flag);
        },
        None => {
            lemma_no_chunk();
            assert(top_text(c) =~= under);
            lemma_chunk_none(chunk_add(titled, blank_chunk()));
            assert(top_chunk(c).lines[0] == line);
            assert(top_chunk(c).raws[0] == titled.raws[0]);
        },
    }
    lemma_sound_add(flag, chunk_add(titled, blank_chunk()));
}

/// The tokens of the piece of the top of a changelog are those that
/// write it.
pub proof fn lemma_top_tokens(c: ChangelogView, after: Seq<TokenView>)
    ensures
        top_chunk(c).tokens + after == flag_before(
            c.flag,
            seq![token_of(TokenKind::H1, seq![written_title(c)])] + text_before(
                Some(written_description(c)),
                after,
            ),
        ),
{
    let titled = title_chunk(c);
    let under = seq![token_of(TokenKind::H1, seq![written_title(c)])] + text_before(
        Some(written_description(c)),
        after,
    );
    assert((titled.tokens + blank_chunk().tokens) + after =~= under);
    match c.flag {
        Some(f) => {
            assert(top_chunk(c).tokens + after =~= seq![token_of(TokenKind::Flag, seq![f])]
                + under);
        },
        None => {
            assert(top_chunk(c).tokens + after =~= under);
        },
    }
}

/// Whether the link definition `link` is written as it is: its line is
/// one line that is read as a link definition and does not end with
/// white space.
pub open spec fn plain_link(link: LinkView) -> bool {
    &&& one_line_text(link_text(link))
    &&& reads_as(link_text(link), TokenKind::Link, link_text(link))
    &&& !is_space(link_text(link).last())
}

/// Whether each of `links` is written as it is.
pub open spec fn plain_links(links: Seq<LinkView>) -> bool {
    forall|i: int| 0 <= i < links.len() ==> plain_link(#[trigger] links[i])
}

/// The piece that writes the link definition `link`.
pub open spec fn link_chunk(link: LinkView) -> Chunk {
    line_chunk(link_text(link), TokenKind::Link, link_text(link))
}

/// The piece that writes the link definitions `links`.
pub open spec fn links_chunk(links: Seq<LinkView>) -> Chunk
    decreases links.len(),
{
    if links.len() == 0 {
        no_chunk()
    } else {
        chunk_add(link_chunk(links[0]), links_chunk(links.drop_first()))
    }
}

/// The piece of link definitions is what it says, and its tokens are
/// those that write the definitions.
pub proof fn lemma_links_chunk(links: Seq<LinkView>)
    requires
        plain_links(links),
    ensures
        sound(links_chunk(links)),
        forall|after: Seq<TokenView>|
            #[trigger] (links_chunk(links).tokens + after) == links_before(links, after),
    decreases links.len(),
{
    if links.len() == 0 {
        lemma_no_chunk();
        assert forall|after: Seq<TokenView>|
            #[trigger] (links_chunk(links).tokens + after) == links_before(links, after) by {
            assert(no_chunk().tokens + after =~= after);
        }
    } else {
        let later = links.drop_first();
        let first = link_chunk(links[0]);
        let line = link_text(links[0]);
        assert(plain_link(links[0]));
        assert forall|i: int| 0 <= i < later.len() implies plain_link(#[trigger] later[i]) by {
            assert(later[i] == links[i + 1]);
        }
        assert(line[0] == '[');
        assert(!is_blank(line)) by {
            if is_blank(line) {
                assert(is_space(line[0]));
            }
        }
        lemma_line_chunk(line, TokenKind::Link, line);
        lemma_links_chunk(later);
        lemma_sound_add(first, links_chunk(later));
        assert forall|after: Seq<TokenView>|
            #[trigger] (links_chunk(links).tokens + after) == links_before(links, after) by {
            let rest = links_before(later, after);
            assert(links_chunk(later).tokens + after == rest);
            assert((first.tokens + links_chunk(later).tokens) + after =~= first.tokens + (
            links_chunk(later).tokens + after));
        }
    }
}

/// The link definitions from index `i` on are written after the text
/// `text` as the lines of their piece.
pub proof fn lemma_links_written(links: Seq<LinkView>, i: int, text: Seq<char>)
    requires
        0 <= i <= links.len(),
        plain_links(links),
    ensures
        lines_of(links_text(links, i, text)) == lines_of(text) + links_chunk(links.skip(i)).lines,
    decreases links.len() - i,
{
    let rest = links.skip(i);
    if i >= links.len() {
        assert(rest =~= Seq::<LinkView>::empty());
        assert(lines_of(text) + no_chunk().lines =~= lines_of(text));
    } else {
        let line = link_text(links[i]);
        assert(rest[0] == links[i]);
        assert(rest.drop_first() =~= links.skip(i + 1));
        assert(plain_link(links[i]));
        let next = text + NEWLINE@ + line;
        lemma_links_written(links, i + 1, next);
        lemma_lines_after_text(text, line);
        lemma_split_one(line, '\n');
        let later = links_chunk(links.skip(i + 1));
        assert((lines_of(text) + seq![line]) + later.lines =~= lines_of(text) + (seq![line]
            + later.lines));
    }
}

/// The tokens that write link definitions after others are those of the
/// one and of the other.
pub proof fn lemma_links_before_add(a: Seq<LinkView>, b: Seq<LinkView>, after: Seq<TokenView>)
    ensures
        links_before(a + b, after) == links_before(a, links_before(b, after)),
    decreases a.len(),
{
    if a.len() == 0 {
        assert(a + b =~= b);
    } else {
        assert((a + b)[0] == a[0]);
        assert((a + b).drop_first() =~= a.drop_first() + b);
        lemma_links_before_add(a.drop_first(), b, after);
    }
}

/// The piece that writes the footer `footer` and the empty lines at the
/// end.
pub open spec fn bottom_chunk(footer: Option<Seq<char>>) -> Chunk {
    match footer {
        Some(f) => chunk_add(
            headed_chunk(RULE@, TokenKind::Hr, PREFIX_LI@, lines_of(f)),
            chunk_add(blank_chunk(), blank_chunk()),
        ),
        None => blank_chunk(),
    }
}

/// The bottom of a changelog is written after the text `text` as the
/// lines of its piece, and the piece is what it says.
pub proof fn lemma_bottom_chunk(c: ChangelogView, text: Seq<char>)
    requires
        blank_is_read(),
        c.footer matches Some(f) ==> plain_text(f),
    ensures
        sound(bottom_chunk(c.footer)),
        lines_of(text + bottom_text(c)) == lines_of(text) + bottom_chunk(c.footer).lines,
        bottom_chunk(c.footer).tokens == footer_tokens(c.footer),
{
    lemma_blank_chunk();
    let blank = blank_chunk();
    let none = Seq::<char>::empty();
    match c.footer {
        Some(f) => {
            reveal_strlit("---");
            let lines = lines_of(f);
            lemma_split_some(f, '\n');
            lemma_rule_read();
            let ruled = headed_chunk(RULE@, TokenKind::Hr, PREFIX_LI@, lines);
            lemma_headed_chunk(RULE@, TokenKind::Hr, PREFIX_LI@, lines);
            lemma_sound_add(blank, blank);
            lemma_sound_add(ruled, chunk_add(blank, blank));
            let end = none + NEWLINE@ + none;
            let foot = f + NEWLINE@ + end;
            let under = RULE@ + NEWLINE@ + foot;
            assert(text + bottom_text(c) =~= text + NEWLINE@ + under);
            lemma_lines_after_text(text, under);
            assert(one_line_text(RULE@));
            lemma_lines_after_line(RULE@, foot);
            lemma_lines_after_text(f, end);
            lemma_lines_after_text(none, none);
            assert(lines_of(under) =~= ruled.lines + (blank.lines + blank.lines));
            assert(ruled.tokens + (blank.tokens + blank.tokens) =~= footer_tokens(c.footer));
        },
        None => {
            lemma_lines_ended(text);
        },
    }
}

/// The link definitions that are written with the changelog `c`: those
/// of its own that are kept, and the links of its releases.
pub open spec fn written_links(c: ChangelogView) -> Seq<LinkView> {
    kept_links(c.links, 0) + derived_links(c, 0)
}

/// The changelog `c` as it is written: with the title and the
/// description that it is written with, and with the link definitions that
/// are written with it.
pub open spec fn as_written(c: ChangelogView) -> ChangelogView {
    ChangelogView {
        title: Some(written_title(c)),
        description: Some(written_description(c)),
        links: written_links(c),
        ..c
    }
}

/// Whether the changelog `c` is written as it is: it can be written, and
/// its top, its releases, the link definitions that are written with it
/// and its footer are written as they are.
pub open spec fn plain_changelog(c: ChangelogView) -> bool {
    &&& blank_is_read()
    &&& changelog_text(c) is Ok
    &&& plain_top(c)
    &&& plain_releases(c.releases)
    &&& plain_links(written_links(c))
    &&& c.footer matches Some(f) ==> plain_text(f)
}

/// The piece that writes the changelog `c`.
pub open spec fn changelog_chunk(c: ChangelogView) -> Chunk {
    let kept = kept_links(c.links, 0);
    let above = chunk_add(chunk_add(top_chunk(c), releases_chunk(c.releases)), blank_chunk());
    let linked = chunk_add(
        chunk_add(chunk_add(above, links_chunk(kept)), gap_chunk(kept.len() > 0)),
        links_chunk(derived_links(c, 0)),
    );
    chunk_add(linked, bottom_chunk(c.footer))
}

/// Link definitions that are written as they are, are so one by one.
proof fn lemma_plain_links_parts(a: Seq<LinkView>, b: Seq<LinkView>)
    requires
        plain_links(a + b),
    ensures
        plain_links(a),
        plain_links(b),
{
    let all = a + b;
    assert forall|i: int| 0 <= i < a.len() implies plain_link(#[trigger] a[i]) by {
        assert(all[i] == a[i]);
    }
    assert forall|i: int| 0 <= i < b.len() implies plain_link(#[trigger] b[i]) by {
        assert(all[a.len() + i] == b[i]);
    }
}

/// The piece of a changelog is what it says.
proof fn lemma_changelog_sound(c: ChangelogView)
    requires
        plain_changelog(c),
    ensures
        sound(changelog_chunk(c)),
        changelog_chunk(c).lines.len() > 0,
        changelog_chunk(c).lines[0] == top_chunk(c).lines[0],
        changelog_chunk(c).raws[0] == top_chunk(c).raws[0],
{
    let kept = kept_links(c.links, 0);
    let derived = derived_links(c, 0);
    let top = top_chunk(c);
    let releases = releases_chunk(c.releases);
    let blank = blank_chunk();
    lemma_plain_links_parts(kept, derived);
    lemma_top_chunk(c);
    lemma_releases_chunk(c.releases);
    lemma_blank_chunk();
    lemma_no_chunk();
    lemma_links_chunk(kept);
    lemma_links_chunk(derived);
    lemma_bottom_chunk(c, Seq::<char>::empty());
    let a1 = chunk_add(top, releases);
    lemma_sound_add(top, releases);
    let a2 = chunk_add(a1, blank);
    lemma_sound_add(a1, blank);
    let a3 = chunk_add(a2, links_chunk(kept));
    lemma_sound_add(a2, links_chunk(kept));
    let a4 = chunk_add(a3, gap_chunk(kept.len() > 0));
    lemma_sound_add(a3, gap_chunk(kept.len() > 0));
    let a5 = chunk_add(a4, links_chunk(derived));
    lemma_sound_add(a4, links_chunk(derived));
    lemma_sound_add(a5, bottom_chunk(c.footer));
    assert(a1.lines[0] == top.lines[0]);
    assert(a1.raws[0] == top.raws[0]);
}

/// A changelog is written as the lines of its piece.
proof fn lemma_changelog_lines(c: ChangelogView)
    requires
        plain_changelog(c),
    ensures
        lines_of(changelog_text(c)->Ok_0) == changelog_chunk(c).lines,
{
    let none = Seq::<LinkView>::empty();
    let kept = kept_links(c.links, 0);
    let derived = derived_links(c, 0);
    let top = top_chunk(c);
    let releases = releases_chunk(c.releases);
    let blank = blank_chunk();
    lemma_plain_links_parts(kept, derived);
    lemma_top_chunk(c);
    let t0 = top_text(c);
    lemma_releases_written(c, 0, t0, none);
    assert(c.releases.skip(0) =~= c.releases);
    assert(none + derived =~= derived);
    let body = releases_text(c, 0, t0, none)->Ok_0.0;
    assert(lines_of(body) == top.lines + releases.lines);
    let t1 = body + NEWLINE@;
    lemma_lines_ended(body);
    assert(lines_of(t1) == lines_of(body) + blank.lines);
    lemma_kept_links_text(c.links, 0, t1, false);
    let kept_text = links_text(kept, 0, t1);
    lemma_links_written(kept, 0, t1);
    assert(kept.skip(0) =~= kept);
    assert(lines_of(kept_text) == lines_of(t1) + links_chunk(kept).lines);
    let any = kept.len() > 0;
    let spaced = if any {
        kept_text + NEWLINE@
    } else {
        kept_text
    };
    if any {
        lemma_lines_ended(kept_text);
    } else {
        assert(lines_of(kept_text) + no_chunk().lines =~= lines_of(kept_text));
    }
    assert(lines_of(spaced) == lines_of(kept_text) + gap_chunk(any).lines);
    let t2 = links_text(derived, 0, spaced);
    lemma_links_written(derived, 0, spaced);
    assert(derived.skip(0) =~= derived);
    assert(lines_of(t2) == lines_of(spaced) + links_chunk(derived).lines);
    lemma_bottom_chunk(c, t2);
    assert(changelog_text(c)->Ok_0 == t2 + bottom_text(c));
}

/// Tokens put one after the other in whatever grouping are the same
/// tokens.
proof fn lemma_token_groups(
    a: Seq<TokenView>,
    b: Seq<TokenView>,
    k: Seq<TokenView>,
    d: Seq<TokenView>,
    f: Seq<TokenView>,
)
    ensures
        ({
            let none = Seq::<TokenView>::empty();
            ((((((a + b) + none) + k) + none) + d) + f) == a + (b + (k + (d + f)))
        }),
{
    let none = Seq::<TokenView>::empty();
    assert((a + b) + none =~= a + b);
    assert(((a + b) + k) + none =~= (a + b) + k);
    assert((((a + b) + k) + d) + f =~= a + (b + (k + (d + f))));
}

/// The tokens of the piece of a changelog, grouped from the end.
proof fn lemma_changelog_grouped(c: ChangelogView)
    ensures
        ({
            let kept = kept_links(c.links, 0);
            changelog_chunk(c).tokens == top_chunk(c).tokens + (releases_chunk(
                c.releases,
            ).tokens + (links_chunk(kept).tokens + (links_chunk(derived_links(c, 0)).tokens
                + bottom_chunk(c.footer).tokens)))
        }),
{
    let kept = kept_links(c.links, 0);
    let gap = gap_chunk(kept.len() > 0);
    assert(gap.tokens =~= Seq::<TokenView>::empty());
    assert(blank_chunk().tokens =~= Seq::<TokenView>::empty());
    lemma_token_groups(
        top_chunk(c).tokens,
        releases_chunk(c.releases).tokens,
        links_chunk(kept).tokens,
        links_chunk(derived_links(c, 0)).tokens,
        bottom_chunk(c.footer).tokens,
    );
}

/// The tokens of the piece of a changelog are those that write the
/// changelog with the link definitions that are written with it.
proof fn lemma_changelog_tokens(c: ChangelogView)
    requires
        plain_changelog(c),
    ensures
        changelog_chunk(c).tokens == written_tokens(as_written(c)),
{
    let kept = kept_links(c.links, 0);
    let derived = derived_links(c, 0);
    let x6 = footer_tokens(c.footer);
    let x5 = links_before(derived, x6);
    let x4 = links_before(kept, x5);
    let x2 = releases_before(c.releases, x4);
    lemma_plain_links_parts(kept, derived);
    assert(bottom_chunk(c.footer).tokens == x6) by {
        lemma_bottom_chunk(c, Seq::<char>::empty());
    }
    assert(links_chunk(derived).tokens + x6 == x5) by {
        lemma_links_chunk(derived);
    }
    assert(links_chunk(kept).tokens + x5 == x4) by {
        lemma_links_chunk(kept);
    }
    assert(x4 == links_before(written_links(c), x6)) by {
        lemma_links_before_add(kept, derived, x6);
    }
    assert(releases_chunk(c.releases).tokens + x4 == x2) by {
        lemma_releases_chunk(c.releases);
    }
    lemma_top_tokens(c, x2);
    lemma_changelog_grouped(c);
    assert(title_of(as_written(c)) == written_title(c));
}

/// A changelog that is written as it is, is written as the lines of a
/// piece that gives the tokens that write the changelog.
pub proof fn lemma_changelog_chunk(c: ChangelogView)
    requires
        plain_changelog(c),
    ensures
        sound(changelog_chunk(c)),
        lines_of(changelog_text(c)->Ok_0) == changelog_chunk(c).lines,
        changelog_chunk(c).tokens == written_tokens(as_written(c)),
        changelog_chunk(c).lines.len() > 0,
        changelog_chunk(c).lines[0].len() > 0,
        !is_space(changelog_chunk(c).lines[0][0]),
        changelog_chunk(c).raws[0].kind != TokenKind::P,
{
    lemma_changelog_sound(c);
    lemma_changelog_lines(c);
    lemma_changelog_tokens(c);
    lemma_top_chunk(c);
}

} // verus!
