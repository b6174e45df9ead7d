//! The lines of a text, and what trimming does to them.

use crate::laws::{law_split_then_join, lemma_split_some};
use crate::text::{
    is_blank, is_space, join_with, lemma_trim_end, lemma_trim_start, split_on, trim_end_of, trim_of,
    trim_start_of,
};
use vstd::prelude::*;

verus! {

/// The lines of the text `text`.
pub open spec fn lines_of(text: Seq<char>) -> Seq<Seq<char>> {
    split_on(text, '\n')
}

/// The line break as a text.
pub open spec fn line_break() -> Seq<char> {
    seq!['\n']
}

/// Whether the text `text` holds no line break.
pub open spec fn one_line_text(text: Seq<char>) -> bool {
    !text.contains('\n')
}

/// Whether the text `text` is not empty and neither begins nor ends with
/// white space.
pub open spec fn tight(text: Seq<char>) -> bool {
    text.len() > 0 && !is_space(text[0]) && !is_space(text.last())
}

/// The pieces of a text before a separator and of a text after it are
/// the pieces of the whole.
pub proof fn lemma_split_add(a: Seq<char>, b: Seq<char>, sep: char)
    ensures
        split_on(a + seq![sep] + b, sep) == split_on(a, sep) + split_on(b, sep),
    decreases b.len(),
{
    let whole = a + seq![sep] + b;
    if b.len() == 0 {
        assert(whole.drop_last() =~= a);
        assert(whole.last() == sep);
        assert(split_on(b, sep) =~= seq![Seq::<char>::empty()]);
        assert(split_on(a, sep).push(Seq::<char>::empty()) =~= split_on(a, sep) + split_on(
            b,
            sep,
        ));
    } else {
        let shorter = b.drop_last();
        let c = b.last();
        assert(whole.drop_last() =~= a + seq![sep] + shorter);
        assert(whole.last() == c);
        lemma_split_add(a, shorter, sep);
        lemma_split_some(shorter, sep);
        let left = split_on(a, sep);
        let right = split_on(shorter, sep);
        let before = left + right;
        if c == sep {
            assert(before.push(Seq::<char>::empty()) =~= left + right.push(
                Seq::<char>::empty(),
            ));
        } else {
            assert(before.last() == right.last());
            assert(before.drop_last() =~= left + right.drop_last());
            assert(before.drop_last().push(before.last().push(c)) =~= left
                + right.drop_last().push(right.last().push(c)));
        }
    }
}

/// A text without separator is its own single piece.
pub proof fn lemma_split_one(line: Seq<char>, sep: char)
    requires
        !line.contains(sep),
    ensures
        split_on(line, sep) == seq![line],
    decreases line.len(),
{
    if line.len() == 0 {
        assert(line =~= Seq::<char>::empty());
        assert(split_on(line, sep) =~= seq![line]);
    } else {
        let shorter = line.drop_last();
        assert(line[line.len() - 1] == line.last());
        assert forall|i: int| 0 <= i < shorter.len() implies shorter[i] != sep by {
            assert(shorter[i] == line[i]);
        }
        assert(!shorter.contains(sep));
        lemma_split_one(shorter, sep);
        let before = split_on(shorter, sep);
        assert(before.last() == shorter);
        assert(shorter.push(line.last()) =~= line);
        assert(before.drop_last().push(before.last().push(line.last())) =~= seq![line]);
    }
}

/// No piece of a split text holds the separator.
pub proof fn lemma_split_pieces(text: Seq<char>, sep: char)
    ensures
        forall|i: int|
            0 <= i < split_on(text, sep).len() ==> !(#[trigger] split_on(text, sep)[i]).contains(
                sep,
            ),
    decreases text.len(),
{
    let pieces = split_on(text, sep);
    if text.len() > 0 {
        let before = split_on(text.drop_last(), sep);
        lemma_split_pieces(text.drop_last(), sep);
        lemma_split_some(text.drop_last(), sep);
        assert forall|i: int| 0 <= i < pieces.len() implies !(#[trigger] pieces[i]).contains(
            sep,
        ) by {
            if i < before.len() - 1 {
                assert(pieces[i] == before[i]);
            } else if text.last() == sep {
                if i < before.len() {
                    assert(pieces[i] == before[i]);
                }
            } else {
                let last = before.last().push(text.last());
                assert(pieces[i] == last);
                assert(!before[before.len() - 1].contains(sep));
                if last.contains(sep) {
                    let k = choose|k: int| 0 <= k < last.len() && last[k] == sep;
                    if k < last.len() - 1 {
                        assert(before.last()[k] == sep);
                    }
                }
            }
        }
    }
}

/// Lines put together with line breaks are, split again, these lines.
pub proof fn lemma_join_split(lines: Seq<Seq<char>>, sep: char)
    requires
        lines.len() > 0,
        forall|i: int| 0 <= i < lines.len() ==> !(#[trigger] lines[i]).contains(sep),
    ensures
        split_on(join_with(lines, seq![sep]), sep) == lines,
    decreases lines.len(),
{
    if lines.len() == 1 {
        lemma_split_one(lines[0], sep);
        assert(seq![lines[0]] =~= lines);
    } else {
        let before = lines.drop_last();
        assert forall|i: int| 0 <= i < before.len() implies !(#[trigger] before[i]).contains(
            sep,
        ) by {
            assert(before[i] == lines[i]);
        }
        lemma_join_split(before, sep);
        assert(lines[lines.len() - 1] == lines.last());
        lemma_split_one(lines.last(), sep);
        lemma_split_add(join_with(before, seq![sep]), lines.last(), sep);
        assert(before + seq![lines.last()] =~= lines);
    }
}

/// A text that neither begins nor ends with white space is what it is
/// when it is trimmed.
pub proof fn lemma_tight_trim(text: Seq<char>)
    requires
        tight(text),
    ensures
        trim_of(text) == text,
        trim_end_of(text) == text,
        !is_blank(text),
{
    assert(text[text.len() - 1] == text.last());
    if is_blank(text) {
        assert(is_space(text[0]));
    }
}

/// What is left of a text without the white space before it is empty or
/// begins with no white space.
proof fn lemma_trim_start_begins(text: Seq<char>)
    ensures
        trim_start_of(text).len() == 0 || !is_space(trim_start_of(text)[0]),
    decreases text.len(),
{
    if text.len() > 0 && is_space(text[0]) {
        lemma_trim_start_begins(text.drop_first());
    }
}

/// What is left of a text without the white space after it is empty, or
/// ends with no white space and begins as the text does.
proof fn lemma_trim_end_ends(text: Seq<char>)
    ensures
        trim_end_of(text).len() == 0 || (text.len() > 0 && !is_space(trim_end_of(text).last())
            && trim_end_of(text)[0] == text[0]),
    decreases text.len(),
{
    if text.len() > 0 && is_space(text.last()) {
        lemma_trim_end_ends(text.drop_last());
    }
}

/// A trimmed text is empty, or neither begins nor ends with white space.
pub proof fn lemma_trimmed_tight(text: Seq<char>)
    ensures
        trim_of(text).len() == 0 || tight(trim_of(text)),
{
    lemma_trim_start_begins(text);
    lemma_trim_end_ends(trim_start_of(text));
}

/// A text whose first line is not empty is not empty.
pub proof fn lemma_first_line_some(text: Seq<char>)
    requires
        lines_of(text)[0].len() > 0,
    ensures
        text.len() > 0,
{
    if text.len() == 0 {
        assert(lines_of(text)[0] =~= Seq::<char>::empty());
    }
}

/// A text that does not end with white space is what it is when its end
/// is trimmed.
pub proof fn lemma_trim_end_same(text: Seq<char>)
    requires
        text.len() == 0 || !is_space(text.last()),
    ensures
        trim_end_of(text) == text,
{
}

/// Trimming takes white space away that stands before a text that
/// neither begins nor ends with white space.
pub proof fn lemma_trim_after_space(text: Seq<char>)
    requires
        tight(text),
    ensures
        trim_of(seq![' '] + text) == text,
{
    let spaced = seq![' '] + text;
    assert(spaced[0] == ' ');
    assert(is_space(' '));
    assert(spaced.drop_first() =~= text);
    assert(trim_start_of(spaced) == trim_start_of(text));
    lemma_tight_trim(text);
}

/// Whether each of `lines` is empty.
pub open spec fn all_empty(lines: Seq<Seq<char>>) -> bool {
    forall|i: int| 0 <= i < lines.len() ==> (#[trigger] lines[i]).len() == 0
}

/// Lines followed by empty lines are, put together, the lines put
/// together followed by line breaks.
proof fn lemma_join_empty_lines(lines: Seq<Seq<char>>, empty: Seq<Seq<char>>)
    requires
        lines.len() > 0,
        all_empty(empty),
    ensures
        join_with(lines + empty, line_break()) == join_with(lines, line_break()) + Seq::new(
            empty.len(),
            |i: int| '\n',
        ),
    decreases empty.len(),
{
    let all = lines + empty;
    if empty.len() == 0 {
        assert(all =~= lines);
        assert(join_with(lines, line_break()) + Seq::new(0nat, |i: int| '\n') =~= join_with(
            lines,
            line_break(),
        ));
    } else {
        let fewer = empty.drop_last();
        assert(all.drop_last() =~= lines + fewer);
        assert(all.last() == empty.last());
        assert(empty[empty.len() - 1] == empty.last());
        assert forall|i: int| 0 <= i < fewer.len() implies (#[trigger] fewer[i]).len() == 0 by {
            assert(fewer[i] == empty[i]);
        }
        lemma_join_empty_lines(lines, fewer);
        assert(all.last() =~= Seq::<char>::empty());
        assert(join_with(all, line_break()) =~= join_with(lines, line_break()) + Seq::new(
            empty.len(),
            |i: int| '\n',
        ));
    }
}

/// Lines put together end with the last line, where it is not empty.
proof fn lemma_join_ends(lines: Seq<Seq<char>>)
    requires
        lines.len() > 0,
        lines.last().len() > 0,
    ensures
        join_with(lines, line_break()).len() > 0,
        join_with(lines, line_break()).last() == lines.last().last(),
{
    if lines.len() == 1 {
        assert(lines[0] == lines.last());
    }
}

/// Lines put together begin with the first line, where it is not empty.
proof fn lemma_join_begins(lines: Seq<Seq<char>>)
    requires
        lines.len() > 0,
        lines[0].len() > 0,
    ensures
        join_with(lines, line_break()).len() > 0,
        join_with(lines, line_break())[0] == lines[0][0],
    decreases lines.len(),
{
    if lines.len() > 1 {
        let before = lines.drop_last();
        assert(before[0] == lines[0]);
        lemma_join_begins(before);
    }
}

/// The lines of a trimmed text are the lines of the text without the
/// empty lines at its end, where the text begins with no white space and
/// its last line that is not empty ends with none.
pub proof fn lemma_trimmed_lines(text: Seq<char>, lines: Seq<Seq<char>>, empty: Seq<Seq<char>>)
    requires
        lines_of(text) == lines + empty,
        all_empty(empty),
        lines.len() > 0,
        lines[0].len() > 0,
        !is_space(lines[0][0]),
        lines.last().len() > 0,
        !is_space(lines.last().last()),
    ensures
        lines_of(trim_of(text)) == lines,
{
    law_split_then_join(text, '\n');
    lemma_join_empty_lines(lines, empty);
    let body = join_with(lines, line_break());
    let tail = Seq::new(empty.len(), |i: int| '\n');
    assert(text == body + tail);
    lemma_join_begins(lines);
    lemma_join_ends(lines);
    assert(text[0] == body[0]);
    lemma_trim_start(text, 0);
    assert(text.skip(0) =~= text);
    assert forall|k: int| body.len() <= k < text.len() implies is_space(#[trigger] text[k]) by {
        assert(text[k] == tail[k - body.len()]);
        assert(is_space('\n'));
    }
    assert(text[body.len() - 1] == body.last());
    lemma_trim_end(text, body.len() as int);
    assert(text.take(body.len() as int) =~= body);
    lemma_split_pieces(text, '\n');
    assert forall|i: int| 0 <= i < lines.len() implies !(#[trigger] lines[i]).contains('\n') by {
        assert(lines[i] == (lines + empty)[i]);
    }
    lemma_join_split(lines, '\n');
}

} // verus!
