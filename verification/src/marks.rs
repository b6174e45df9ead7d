//! Lines that begin with a mark: headings, list items and rules are read
//! by their mark alone.

use crate::changes::entry_line;
use crate::consts::{
    HEADING1, HEADING3, ITEM_INDENT, ITEM_MARK, PREFIX_H1, PREFIX_H2, PREFIX_H3, PREFIX_HR,
    PREFIX_LI, PREFIX_LI2, RULE,
};
use crate::error::TokenizeError;
use crate::lines::{lemma_trim_after_space, lemma_trim_end_same, tight};
use crate::merging::reads_as;
use crate::text::{is_blank, is_space, skip_chars};
use crate::token::{LineTokenView, TokenKind, line_token, marked_line};
use vstd::prelude::*;

verus! {

/// What the marks are.
proof fn lemma_marks()
    ensures
        PREFIX_HR@ == seq!['-', '-', '-'],
        PREFIX_H1@ == seq!['#', ' '],
        PREFIX_H2@ == seq!['#', '#', ' '],
        PREFIX_H3@ == seq!['#', '#', '#', ' '],
        PREFIX_LI@ == seq!['-'],
        PREFIX_LI2@ == seq!['*'],
        HEADING1@ == seq!['#', ' '],
        HEADING3@ == seq!['#', '#', '#', ' '],
        ITEM_MARK@ == seq!['-', ' '],
        ITEM_INDENT@ == seq![' ', ' '],
        RULE@ == seq!['-', '-', '-'],
{
    reveal_strlit("---");
    reveal_strlit("# ");
    reveal_strlit("## ");
    reveal_strlit("### ");
    reveal_strlit("-");
    reveal_strlit("*");
    reveal_strlit("- ");
    reveal_strlit("  ");
    assert(PREFIX_HR@ =~= seq!['-', '-', '-']);
    assert(PREFIX_H1@ =~= seq!['#', ' ']);
    assert(PREFIX_H2@ =~= seq!['#', '#', ' ']);
    assert(PREFIX_H3@ =~= seq!['#', '#', '#', ' ']);
    assert(PREFIX_LI@ =~= seq!['-']);
    assert(PREFIX_LI2@ =~= seq!['*']);
    assert(ITEM_MARK@ =~= seq!['-', ' ']);
    assert(ITEM_INDENT@ =~= seq![' ', ' ']);
}

/// A mark is at the start of a line that begins with its characters, and
/// of no line that differs from it in one of them.
proof fn lemma_prefix(mark: Seq<char>, line: Seq<char>)
    ensures
        (mark.len() <= line.len() && forall|i: int| 0 <= i < mark.len() ==> mark[i] == line[i])
            ==> mark.is_prefix_of(line),
        (exists|i: int| 0 <= i < mark.len() && i < line.len() && mark[i] != line[i])
            ==> !mark.is_prefix_of(line),
{
    if mark.len() <= line.len() && forall|i: int| 0 <= i < mark.len() ==> mark[i] == line[i] {
        assert(mark =~= line.subrange(0, mark.len() as int));
    }
    if exists|i: int| 0 <= i < mark.len() && i < line.len() && mark[i] != line[i] {
        let i = choose|i: int| 0 <= i < mark.len() && i < line.len() && mark[i] != line[i];
        if mark.is_prefix_of(line) {
            assert(line.subrange(0, mark.len() as int)[i] == line[i]);
        }
    }
}

/// A line that is read by its mark is read so wherever it stands.
proof fn lemma_marked_reads(line: Seq<char>, kind: TokenKind, content: Seq<char>)
    requires
        marked_line(line) == Some(LineTokenView { kind, content, takes_next: false }),
    ensures
        reads_as(line, kind, content),
{
    assert forall|number: usize, next: Option<Seq<char>>| #[trigger]
        line_token(number, line, next) == Ok::<LineTokenView, TokenizeError>(
            LineTokenView { kind, content, takes_next: false },
        ) by {}
}

/// A first-level heading is read as its text.
pub proof fn lemma_heading1_read(title: Seq<char>)
    requires
        tight(title),
    ensures
        reads_as(HEADING1@ + title, TokenKind::H1, title),
{
    lemma_marks();
    let line = HEADING1@ + title;
    assert(line[0] == '#' && line[1] == ' ');
    assert(PREFIX_HR@[0] == '-');
    lemma_prefix(PREFIX_HR@, line);
    lemma_prefix(PREFIX_H1@, line);
    assert(skip_chars(line, 1) =~= seq![' '] + title);
    lemma_trim_after_space(title);
    lemma_marked_reads(line, TokenKind::H1, title);
}

/// A second-level heading is read as its text.
pub proof fn lemma_heading2_read(heading: Seq<char>)
    requires
        tight(heading),
    ensures
        reads_as(PREFIX_H2@ + heading, TokenKind::H2, heading),
{
    lemma_marks();
    let line = PREFIX_H2@ + heading;
    assert(line[0] == '#' && line[1] == '#' && line[2] == ' ');
    assert(PREFIX_HR@[0] == '-');
    assert(PREFIX_H1@[1] == ' ');
    lemma_prefix(PREFIX_HR@, line);
    lemma_prefix(PREFIX_H1@, line);
    lemma_prefix(PREFIX_H2@, line);
    assert(skip_chars(line, 2) =~= seq![' '] + heading);
    lemma_trim_after_space(heading);
    lemma_marked_reads(line, TokenKind::H2, heading);
}

/// A third-level heading is read as its text.
pub proof fn lemma_heading3_read(title: Seq<char>)
    requires
        tight(title),
    ensures
        reads_as(HEADING3@ + title, TokenKind::H3, title),
{
    lemma_marks();
    let line = HEADING3@ + title;
    assert(line[0] == '#' && line[1] == '#' && line[2] == '#' && line[3] == ' ');
    assert(PREFIX_HR@[0] == '-');
    assert(PREFIX_H1@[1] == ' ');
    assert(PREFIX_H2@[2] == ' ');
    lemma_prefix(PREFIX_HR@, line);
    lemma_prefix(PREFIX_H1@, line);
    lemma_prefix(PREFIX_H2@, line);
    lemma_prefix(PREFIX_H3@, line);
    assert(skip_chars(line, 3) =~= seq![' '] + title);
    lemma_trim_after_space(title);
    lemma_marked_reads(line, TokenKind::H3, title);
}

/// A list item is read as its text.
pub proof fn lemma_item_read(text: Seq<char>)
    requires
        tight(text),
    ensures
        reads_as(ITEM_MARK@ + text, TokenKind::Li, text),
{
    lemma_marks();
    let line = ITEM_MARK@ + text;
    assert(line[0] == '-' && line[1] == ' ');
    assert(PREFIX_HR@[1] == '-');
    assert(PREFIX_H1@[0] == '#');
    assert(PREFIX_H2@[0] == '#');
    assert(PREFIX_H3@[0] == '#');
    lemma_prefix(PREFIX_HR@, line);
    lemma_prefix(PREFIX_H1@, line);
    lemma_prefix(PREFIX_H2@, line);
    lemma_prefix(PREFIX_H3@, line);
    lemma_prefix(PREFIX_LI@, line);
    assert(skip_chars(line, 1) =~= seq![' '] + text);
    lemma_trim_after_space(text);
    lemma_marked_reads(line, TokenKind::Li, text);
}

/// A rule is read as a rule.
pub proof fn lemma_rule_read()
    ensures
        reads_as(RULE@, TokenKind::Hr, PREFIX_LI@),
        !is_blank(PREFIX_LI@),
        !is_space(RULE@.last()),
{
    lemma_marks();
    lemma_prefix(PREFIX_HR@, RULE@);
    lemma_marked_reads(RULE@, TokenKind::Hr, PREFIX_LI@);
    assert(!is_space(PREFIX_LI@[0]));
}

/// The first line of an entry is written after the mark of a list item,
/// and every other line after two spaces, where the line neither begins
/// nor ends with white space.
pub proof fn lemma_entry_line(line: Seq<char>, first: bool)
    requires
        tight(line),
    ensures
        entry_line(line, first) == if first {
            ITEM_MARK@ + line
        } else {
            ITEM_INDENT@ + line
        },
{
    lemma_marks();
    let indented = ITEM_INDENT@ + line;
    assert(indented.last() == line.last());
    lemma_trim_end_same(indented);
    assert(skip_chars(indented, 1) =~= seq![' '] + line);
    lemma_trim_after_space(line);
}

} // verus!
