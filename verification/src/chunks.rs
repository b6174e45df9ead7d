//! Pieces of a written text: their lines, and the tokens that come of
//! them.
//!
//! A piece holds whole lines. Whatever stands before it, it ends the
//! token that was pending and leaves tokens of its own, so that the
//! tokens of pieces put one after the other are the tokens of each.

use crate::consts::INDENT_PATTERN;
use crate::error::TokenizeError;
use crate::lines::{all_empty, lemma_trimmed_lines, lines_of};
use crate::merging::{
    lemma_after_merged, lemma_after_new, lemma_after_none, lemma_merged_after, lemma_settled_add,
    lemma_settled_one, lemma_tokens_of_lines, merged, one_line, read_as_tokens, reads_as, settled,
    settled_all, tokens_after,
};
use crate::pattern::{regex_accepts, regex_is_match, regex_replace};
use crate::round_trip::{same_shape, token_of};
use crate::text::{
    concat_all, drop_blank_end, drop_blank_start, is_blank, is_space, lemma_concat_blank,
};
use crate::token::{
    LineTokenView, TokenKind, TokenView, first_line, line_patterns_accepted, line_token, merge_one,
    tokens_of, with_line,
};
use vstd::prelude::*;

verus! {

/// Whether the tokens `raws` of one line each, after whatever token is
/// pending, leave what is left of that token and then `tokens`.
pub open spec fn gives(raws: Seq<TokenView>, tokens: Seq<TokenView>) -> bool {
    forall|pending: TokenView| #[trigger]
        tokens_after(raws, pending) == settled(pending) + tokens
}

/// Whether none of `lines` ends with white space.
pub open spec fn ends_clean(lines: Seq<Seq<char>>) -> bool {
    forall|i: int|
        0 <= i < lines.len() ==> (#[trigger] lines[i]).len() == 0 || !is_space(lines[i].last())
}

/// A piece of a written text: its lines, the token that each line is
/// read as, and the tokens that come of them.
pub struct Chunk {
    pub lines: Seq<Seq<char>>,
    pub raws: Seq<TokenView>,
    pub tokens: Seq<TokenView>,
}

/// Whether the piece `c` is what it says: each line is read as its token,
/// the tokens come of these, and no line ends with white space.
pub open spec fn sound(c: Chunk) -> bool {
    read_as_tokens(c.lines, c.raws) && gives(c.raws, c.tokens) && ends_clean(c.lines)
}

/// The piece `a` followed by the piece `b`.
pub open spec fn chunk_add(a: Chunk, b: Chunk) -> Chunk {
    Chunk { lines: a.lines + b.lines, raws: a.raws + b.raws, tokens: a.tokens + b.tokens }
}

/// The piece without lines.
pub open spec fn no_chunk() -> Chunk {
    Chunk { lines: Seq::empty(), raws: Seq::empty(), tokens: Seq::empty() }
}

/// Merging tokens after others is merging the first and then the
/// second.
pub proof fn lemma_merged_add(a: Seq<TokenView>, b: Seq<TokenView>, acc: Seq<TokenView>)
    ensures
        merged(a + b, acc) == merged(b, merged(a, acc)),
    decreases a.len(),
{
    if a.len() == 0 {
        assert(a + b =~= b);
    } else {
        assert((a + b)[0] == a[0]);
        assert((a + b).drop_first() =~= a.drop_first() + b);
        lemma_merged_add(a.drop_first(), b, merge_one(acc, a[0]));
    }
}

/// Merging into tokens leaves tokens.
pub proof fn lemma_merged_some(raws: Seq<TokenView>, acc: Seq<TokenView>)
    requires
        acc.len() > 0,
    ensures
        merged(raws, acc).len() > 0,
    decreases raws.len(),
{
    if raws.len() > 0 {
        lemma_merged_some(raws.drop_first(), merge_one(acc, raws[0]));
    }
}

/// The tokens of pieces put one after the other are the tokens of each.
pub proof fn lemma_gives_add(
    a: Seq<TokenView>,
    x: Seq<TokenView>,
    b: Seq<TokenView>,
    y: Seq<TokenView>,
)
    requires
        gives(a, x),
        gives(b, y),
    ensures
        gives(a + b, x + y),
{
    assert forall|pending: TokenView| #[trigger]
        tokens_after(a + b, pending) == settled(pending) + (x + y) by {
        let m = merged(a, seq![pending]);
        lemma_merged_add(a, b, seq![pending]);
        lemma_merged_some(a, seq![pending]);
        let q = m.last();
        let before = m.drop_last();
        assert(m =~= before + seq![q]);
        lemma_merged_after(b, before, seq![q]);
        lemma_settled_add(before, merged(b, seq![q]));
        lemma_settled_add(before, seq![q]);
        lemma_settled_one(q);
        assert(tokens_after(b, q) == settled(q) + y);
        assert(tokens_after(a, pending) == settled(pending) + x);
        assert(settled_all(before) + (settled(q) + y) =~= settled_all(before) + settled(q) + y);
        assert(settled(pending) + x + y =~= settled(pending) + (x + y));
    }
}

/// Lines that are read as tokens, after others, are read as the tokens
/// after the others.
pub proof fn lemma_read_add(
    a: Seq<Seq<char>>,
    x: Seq<TokenView>,
    b: Seq<Seq<char>>,
    y: Seq<TokenView>,
)
    requires
        read_as_tokens(a, x),
        read_as_tokens(b, y),
    ensures
        read_as_tokens(a + b, x + y),
{
    let lines = a + b;
    let raws = x + y;
    assert forall|i: int| 0 <= i < lines.len() implies (#[trigger] raws[i]).content.len() == 1
        && reads_as(lines[i], raws[i].kind, raws[i].content[0]) by {
        if i < a.len() {
            assert(raws[i] == x[i] && lines[i] == a[i]);
        } else {
            assert(raws[i] == y[i - a.len()] && lines[i] == b[i - a.len()]);
        }
    }
}

/// Pieces that are what they say are so one after the other.
pub proof fn lemma_sound_add(a: Chunk, b: Chunk)
    requires
        sound(a),
        sound(b),
    ensures
        sound(chunk_add(a, b)),
{
    lemma_gives_add(a.raws, a.tokens, b.raws, b.tokens);
    lemma_read_add(a.lines, a.raws, b.lines, b.raws);
    let lines = a.lines + b.lines;
    assert forall|i: int| 0 <= i < lines.len() implies (#[trigger] lines[i]).len() == 0
        || !is_space(lines[i].last()) by {
        if i < a.lines.len() {
            assert(lines[i] == a.lines[i]);
        } else {
            assert(lines[i] == b.lines[i - a.lines.len()]);
        }
    }
}

/// The piece without lines is what it says.
pub proof fn lemma_no_chunk()
    ensures
        sound(no_chunk()),
{
    assert forall|pending: TokenView| #[trigger]
        tokens_after(Seq::<TokenView>::empty(), pending) == settled(pending)
            + Seq::<TokenView>::empty() by {
        lemma_after_none(pending);
        assert(settled(pending) + Seq::<TokenView>::empty() =~= settled(pending));
    }
}

/// A token of one line that is not blank is left as it is.
pub proof fn lemma_settled_line(kind: TokenKind, line: Seq<char>)
    requires
        !is_blank(line),
    ensures
        settled(one_line(kind, line)) == seq![one_line(kind, line)],
{
    let content = seq![line];
    assert(content.drop_last() =~= Seq::<Seq<char>>::empty());
    assert(content.last() == line);
    assert(concat_all(Seq::<Seq<char>>::empty()) =~= Seq::<char>::empty());
    assert(concat_all(content) =~= line);
    assert(content[0] == line);
    assert(drop_blank_end(content) == content);
    assert(drop_blank_start(content) == content);
}

/// A token whose content neither begins nor ends with a blank line is
/// left as it is.
pub proof fn lemma_settled_lines(kind: TokenKind, content: Seq<Seq<char>>)
    requires
        content.len() > 0,
        !is_blank(content[0]),
        !is_blank(content.last()),
    ensures
        settled(token_of(kind, content)) == seq![token_of(kind, content)],
{
    lemma_concat_blank(content);
    assert(drop_blank_end(content) == content);
    assert(drop_blank_start(content) == content);
}

/// An empty line more at the end of a token changes nothing of what is
/// left of it.
pub proof fn lemma_settled_blank_line(t: TokenView)
    ensures
        settled(with_line(t, Seq::<char>::empty())) == settled(t),
{
    let empty = Seq::<char>::empty();
    let longer = t.content.push(empty);
    assert(longer.drop_last() =~= t.content);
    assert(longer.last() == empty);
    assert(is_blank(empty));
    assert(concat_all(longer) =~= concat_all(t.content));
    assert(drop_blank_end(longer) == drop_blank_end(t.content));
}

/// The piece of one line that is read as a token of another kind than a
/// paragraph.
pub open spec fn line_chunk(line: Seq<char>, kind: TokenKind, content: Seq<char>) -> Chunk {
    Chunk {
        lines: seq![line],
        raws: seq![one_line(kind, content)],
        tokens: seq![one_line(kind, content)],
    }
}

/// A line that is read as a token of another kind than a paragraph gives
/// that token.
pub proof fn lemma_line_chunk(line: Seq<char>, kind: TokenKind, content: Seq<char>)
    requires
        reads_as(line, kind, content),
        kind != TokenKind::P,
        !is_blank(content),
        line.len() == 0 || !is_space(line.last()),
    ensures
        sound(line_chunk(line, kind, content)),
{
    let t = one_line(kind, content);
    let none = Seq::<TokenView>::empty();
    let c = line_chunk(line, kind, content);
    assert(c.raws[0] == t);
    assert(t.content[0] == content);
    assert(c.lines[0] == line);
    assert forall|pending: TokenView| #[trigger]
        tokens_after(seq![t], pending) == settled(pending) + seq![t] by {
        assert(seq![t] + none =~= seq![t]);
        lemma_after_new(t, none, pending);
        lemma_after_none(t);
        lemma_settled_line(kind, content);
    }
}

/// The piece of one empty line.
pub open spec fn blank_chunk() -> Chunk {
    Chunk {
        lines: seq![Seq::<char>::empty()],
        raws: seq![one_line(TokenKind::P, Seq::<char>::empty())],
        tokens: Seq::empty(),
    }
}

/// Whether an empty line is read as an empty paragraph that continues
/// no list item.
pub open spec fn blank_is_read() -> bool {
    reads_as(Seq::<char>::empty(), TokenKind::P, Seq::<char>::empty()) && !regex_is_match(
        INDENT_PATTERN@,
        Seq::<char>::empty(),
    )
}

/// An empty line gives no token.
pub proof fn lemma_blank_chunk()
    requires
        blank_is_read(),
    ensures
        sound(blank_chunk()),
{
    let empty = Seq::<char>::empty();
    let t = one_line(TokenKind::P, empty);
    let none = Seq::<TokenView>::empty();
    let c = blank_chunk();
    assert(c.raws[0] == t);
    assert(t.content[0] == empty);
    assert(c.lines[0] == empty);
    assert(first_line(t) == empty);
    assert forall|pending: TokenView| #[trigger]
        tokens_after(seq![t], pending) == settled(pending) + none by {
        assert(seq![t] + none =~= seq![t]);
        let acc = seq![pending];
        assert(acc.last() == pending);
        assert(acc.drop_last() =~= none);
        if pending.kind == TokenKind::P {
            assert(merge_one(acc, t) =~= seq![with_line(pending, empty)]);
            lemma_after_merged(t, none, pending, empty);
            lemma_after_none(with_line(pending, empty));
            lemma_settled_blank_line(pending);
        } else {
            assert(merge_one(acc, t) == acc.push(t));
            lemma_after_new(t, none, pending);
            lemma_after_none(t);
            assert(is_blank(empty));
            assert(t.content.drop_last() =~= Seq::<Seq<char>>::empty());
            assert(concat_all(Seq::<Seq<char>>::empty()) =~= Seq::<char>::empty());
            assert(t.content.last() == empty);
            assert(concat_all(t.content) =~= empty);
            assert(settled(t) =~= none);
        }
        assert(settled(pending) + none =~= settled(pending));
    }
}

/// The paragraph lines `lines` as tokens of one line each.
pub open spec fn paragraph_raws(lines: Seq<Seq<char>>) -> Seq<TokenView> {
    Seq::new(lines.len(), |i: int| one_line(TokenKind::P, lines[i]))
}

/// Whether each of `lines` is read as a line of a paragraph that holds
/// the line as it is.
pub open spec fn read_as_paragraph(lines: Seq<Seq<char>>) -> bool {
    forall|i: int| 0 <= i < lines.len() ==> reads_as(#[trigger] lines[i], TokenKind::P, lines[i])
}

/// Paragraph lines after a paragraph make it longer.
proof fn lemma_paragraph_merged(lines: Seq<Seq<char>>, from: int)
    requires
        0 < from <= lines.len(),
    ensures
        tokens_after(paragraph_raws(lines).skip(from), token_of(TokenKind::P, lines.take(from)))
            == settled(token_of(TokenKind::P, lines)),
    decreases lines.len() - from,
{
    let raws = paragraph_raws(lines).skip(from);
    let pending = token_of(TokenKind::P, lines.take(from));
    if from == lines.len() {
        assert(raws =~= Seq::<TokenView>::empty());
        assert(lines.take(from) =~= lines);
        lemma_after_none(pending);
    } else {
        let t = one_line(TokenKind::P, lines[from]);
        let rest = paragraph_raws(lines).skip(from + 1);
        assert(raws =~= seq![t] + rest);
        assert(first_line(t) == lines[from]);
        let acc = seq![pending];
        assert(acc.last() == pending);
        assert(acc.drop_last() =~= Seq::<TokenView>::empty());
        assert(merge_one(acc, t) =~= seq![with_line(pending, lines[from])]);
        lemma_after_merged(t, rest, pending, lines[from]);
        assert(lines.take(from).push(lines[from]) =~= lines.take(from + 1));
        lemma_paragraph_merged(lines, from + 1);
    }
}

/// The piece of a line that is read as a token of the kind `kind`, and of
/// a paragraph after it.
pub open spec fn headed_chunk(
    line: Seq<char>,
    kind: TokenKind,
    content: Seq<char>,
    paragraph: Seq<Seq<char>>,
) -> Chunk {
    Chunk {
        lines: seq![line] + paragraph,
        raws: seq![one_line(kind, content)] + paragraph_raws(paragraph),
        tokens: seq![one_line(kind, content)] + seq![token_of(TokenKind::P, paragraph)],
    }
}

/// A line that is read as a heading, a flag or a rule gives that token,
/// and the paragraph after it gives one paragraph.
pub proof fn lemma_headed_chunk(
    line: Seq<char>,
    kind: TokenKind,
    content: Seq<char>,
    paragraph: Seq<Seq<char>>,
)
    requires
        reads_as(line, kind, content),
        kind != TokenKind::P,
        kind != TokenKind::Li,
        !is_blank(content),
        line.len() == 0 || !is_space(line.last()),
        paragraph.len() > 0,
        read_as_paragraph(paragraph),
        !is_blank(paragraph[0]),
        !is_blank(paragraph.last()),
        ends_clean(paragraph),
    ensures
        sound(headed_chunk(line, kind, content, paragraph)),
{
    let t = one_line(kind, content);
    let c = headed_chunk(line, kind, content, paragraph);
    let raws = paragraph_raws(paragraph);
    assert forall|i: int| 0 <= i < c.lines.len() implies (#[trigger] c.raws[i]).content.len() == 1
        && reads_as(c.lines[i], c.raws[i].kind, c.raws[i].content[0]) by {
        if i == 0 {
            assert(c.raws[0] == t);
            assert(t.content[0] == content);
        } else {
            assert(c.raws[i] == raws[i - 1]);
            assert(c.lines[i] == paragraph[i - 1]);
            assert(raws[i - 1].content[0] == paragraph[i - 1]);
        }
    }
    assert forall|i: int| 0 <= i < c.lines.len() implies (#[trigger] c.lines[i]).len() == 0
        || !is_space(c.lines[i].last()) by {
        if i > 0 {
            assert(c.lines[i] == paragraph[i - 1]);
        }
    }
    assert forall|pending: TokenView| #[trigger]
        tokens_after(c.raws, pending) == settled(pending) + c.tokens by {
        lemma_after_new(t, raws, pending);
        let first = one_line(TokenKind::P, paragraph[0]);
        let later = raws.skip(1);
        assert(raws =~= seq![first] + later);
        let acc = seq![t];
        assert(acc.last() == t);
        assert(merge_one(acc, first) == acc.push(first));
        lemma_after_new(first, later, t);
        assert(paragraph.take(1) =~= seq![paragraph[0]]);
        lemma_paragraph_merged(paragraph, 1);
        lemma_settled_line(kind, content);
        lemma_settled_lines(TokenKind::P, paragraph);
        assert(settled(pending) + (settled(t) + settled(token_of(TokenKind::P, paragraph)))
            =~= settled(pending) + c.tokens);
    }
}

/// The lines `lines` after the first, each after the indentation
/// `indent`.
pub open spec fn indented_lines(indent: Seq<char>, lines: Seq<Seq<char>>) -> Seq<Seq<char>> {
    Seq::new((lines.len() - 1) as nat, |i: int| indent + lines[i + 1])
}

/// Whether the line `line` continues a list item with the text
/// `content`: it is read as a paragraph line, it is indented, and without
/// its indentation it is `content`.
pub open spec fn continues_item(line: Seq<char>, content: Seq<char>) -> bool {
    &&& reads_as(line, TokenKind::P, line)
    &&& regex_is_match(INDENT_PATTERN@, line)
    &&& regex_replace(INDENT_PATTERN@, line, Seq::<char>::empty()) == content
}

/// Indented lines after a list item make it longer.
proof fn lemma_item_merged(indent: Seq<char>, lines: Seq<Seq<char>>, from: int)
    requires
        0 < from <= lines.len(),
        forall|i: int| 0 < i < lines.len() ==> continues_item(indent + #[trigger] lines[i], lines[i]),
    ensures
        tokens_after(
            paragraph_raws(indented_lines(indent, lines)).skip(from - 1),
            token_of(TokenKind::Li, lines.take(from)),
        ) == settled(token_of(TokenKind::Li, lines)),
    decreases lines.len() - from,
{
    let conts = indented_lines(indent, lines);
    let raws = paragraph_raws(conts).skip(from - 1);
    let pending = token_of(TokenKind::Li, lines.take(from));
    if from == lines.len() {
        assert(raws =~= Seq::<TokenView>::empty());
        assert(lines.take(from) =~= lines);
        lemma_after_none(pending);
    } else {
        let line = indent + lines[from];
        let t = one_line(TokenKind::P, line);
        let rest = paragraph_raws(conts).skip(from);
        assert(conts[from - 1] == line);
        assert(raws =~= seq![t] + rest);
        assert(first_line(t) == line);
        assert(continues_item(line, lines[from]));
        let acc = seq![pending];
        assert(acc.last() == pending);
        assert(acc.drop_last() =~= Seq::<TokenView>::empty());
        assert(merge_one(acc, t) =~= seq![with_line(pending, lines[from])]);
        lemma_after_merged(t, rest, pending, lines[from]);
        assert(lines.take(from).push(lines[from]) =~= lines.take(from + 1));
        lemma_item_merged(indent, lines, from + 1);
    }
}

/// The piece of a list item of the lines `lines`: the first after the
/// mark `mark`, the others after the indentation `indent`.
pub open spec fn item_chunk(mark: Seq<char>, indent: Seq<char>, lines: Seq<Seq<char>>) -> Chunk {
    Chunk {
        lines: seq![mark + lines[0]] + indented_lines(indent, lines),
        raws: seq![one_line(TokenKind::Li, lines[0])] + paragraph_raws(
            indented_lines(indent, lines),
        ),
        tokens: seq![token_of(TokenKind::Li, lines)],
    }
}

/// A list item whose further lines are indented gives one list item.
pub proof fn lemma_item_chunk(mark: Seq<char>, indent: Seq<char>, lines: Seq<Seq<char>>)
    requires
        lines.len() > 0,
        reads_as(mark + lines[0], TokenKind::Li, lines[0]),
        forall|i: int| 0 < i < lines.len() ==> continues_item(indent + #[trigger] lines[i], lines[i]),
        forall|i: int|
            0 <= i < lines.len() ==> (#[trigger] lines[i]).len() > 0 && !is_space(lines[i].last()),
        !is_blank(lines[0]),
    ensures
        sound(item_chunk(mark, indent, lines)),
{
    let t = one_line(TokenKind::Li, lines[0]);
    let c = item_chunk(mark, indent, lines);
    let conts = indented_lines(indent, lines);
    let raws = paragraph_raws(conts);
    assert forall|i: int| 0 <= i < c.lines.len() implies (#[trigger] c.raws[i]).content.len() == 1
        && reads_as(c.lines[i], c.raws[i].kind, c.raws[i].content[0]) by {
        if i == 0 {
            assert(c.raws[0] == t);
            assert(t.content[0] == lines[0]);
        } else {
            assert(c.raws[i] == raws[i - 1]);
            assert(c.lines[i] == conts[i - 1]);
            assert(raws[i - 1].content[0] == conts[i - 1]);
            assert(continues_item(indent + lines[i], lines[i]));
        }
    }
    assert forall|i: int| 0 <= i < c.lines.len() implies (#[trigger] c.lines[i]).len() == 0
        || !is_space(c.lines[i].last()) by {
        if i == 0 {
            assert((mark + lines[0]).last() == lines[0].last());
        } else {
            assert(c.lines[i] == indent + lines[i]);
            assert((indent + lines[i]).last() == lines[i].last());
        }
    }
    assert forall|pending: TokenView| #[trigger]
        tokens_after(c.raws, pending) == settled(pending) + c.tokens by {
        lemma_after_new(t, raws, pending);
        assert(lines.take(1) =~= seq![lines[0]]);
        assert(raws.skip(0) =~= raws);
        lemma_item_merged(indent, lines, 1);
        assert(!is_blank(lines.last())) by {
            let last = lines[lines.len() - 1];
            assert(last == lines.last());
            if is_blank(last) {
                assert(is_space(last[last.len() - 1]));
            }
        }
        lemma_settled_lines(TokenKind::Li, lines);
    }
}

/// The number of `lines` without the empty lines at their end.
pub open spec fn full_lines(lines: Seq<Seq<char>>) -> int
    decreases lines.len(),
{
    if lines.len() == 0 {
        0
    } else if lines.last().len() > 0 {
        lines.len() as int
    } else {
        full_lines(lines.drop_last())
    }
}

/// After the lines that are counted without the empty lines at the end,
/// only empty lines follow, and the last of them is not empty.
proof fn lemma_full_lines(lines: Seq<Seq<char>>)
    ensures
        0 <= full_lines(lines) <= lines.len(),
        all_empty(lines.skip(full_lines(lines))),
        full_lines(lines) > 0 ==> lines[full_lines(lines) - 1].len() > 0,
        forall|i: int| 0 <= i < lines.len() && (#[trigger] lines[i]).len() > 0 ==> i < full_lines(
            lines,
        ),
    decreases lines.len(),
{
    let k = full_lines(lines);
    if lines.len() == 0 {
    } else if lines.last().len() > 0 {
        assert(lines.skip(k) =~= Seq::<Seq<char>>::empty());
    } else {
        let shorter = lines.drop_last();
        lemma_full_lines(shorter);
        let tail = lines.skip(k);
        assert forall|i: int| 0 <= i < tail.len() implies (#[trigger] tail[i]).len() == 0 by {
            if k + i < shorter.len() {
                assert(tail[i] == shorter.skip(k)[i]);
            } else {
                assert(tail[i] == lines.last());
            }
        }
        if k > 0 {
            assert(lines[k - 1] == shorter[k - 1]);
        }
        assert forall|i: int| 0 <= i < lines.len() && (#[trigger] lines[i]).len() > 0 implies i
            < k by {
            if i < shorter.len() {
                assert(shorter[i] == lines[i]);
            }
        }
    }
}

/// Whether each of `raws` is a paragraph of one empty line.
pub open spec fn all_blank(raws: Seq<TokenView>) -> bool {
    forall|i: int|
        0 <= i < raws.len() ==> (#[trigger] raws[i]).kind == TokenKind::P && raws[i].content
            == seq![Seq::<char>::empty()]
}

/// Empty lines at the end leave no token.
proof fn lemma_blank_tail(tail: Seq<TokenView>, acc: Seq<TokenView>)
    requires
        all_blank(tail),
        acc.len() > 0,
        !regex_is_match(INDENT_PATTERN@, Seq::<char>::empty()),
    ensures
        settled_all(merged(tail, acc)) == settled_all(acc),
    decreases tail.len(),
{
    if tail.len() > 0 {
        let empty = Seq::<char>::empty();
        let none = Seq::<TokenView>::empty();
        let t = tail[0];
        let later = tail.drop_first();
        assert(t.content == seq![empty]);
        assert(t.content[0] == empty);
        assert(first_line(t) == empty);
        assert forall|i: int| 0 <= i < later.len() implies (#[trigger] later[i]).kind
            == TokenKind::P && later[i].content == seq![empty] by {
            assert(later[i] == tail[i + 1]);
        }
        let next = merge_one(acc, t);
        let last = acc.last();
        let before = acc.drop_last();
        assert(acc =~= before + seq![last]);
        lemma_settled_add(before, seq![last]);
        lemma_settled_one(last);
        if last.kind == TokenKind::P {
            let longer = with_line(last, empty);
            assert(next =~= before + seq![longer]);
            lemma_settled_add(before, seq![longer]);
            lemma_settled_one(longer);
            lemma_settled_blank_line(last);
        } else {
            assert(next =~= acc + seq![t]);
            lemma_settled_add(acc, seq![t]);
            lemma_settled_one(t);
            assert(t.content.drop_last() =~= Seq::<Seq<char>>::empty());
            assert(t.content.last() == empty);
            assert(concat_all(Seq::<Seq<char>>::empty()) =~= empty);
            assert(concat_all(t.content) =~= empty);
            assert(is_blank(empty));
            assert(settled(t) =~= none);
            assert(settled_all(acc) + none =~= settled_all(acc));
        }
        lemma_blank_tail(later, next);
    }
}

/// A line is read as one token only.
proof fn lemma_read_once(
    line: Seq<char>,
    kind: TokenKind,
    content: Seq<char>,
    other: TokenKind,
    text: Seq<char>,
)
    requires
        reads_as(line, kind, content),
        reads_as(line, other, text),
    ensures
        kind == other,
        content == text,
{
    let read = line_token(0, line, None);
    assert(read == Ok::<LineTokenView, TokenizeError>(
        LineTokenView { kind, content, takes_next: false },
    ));
    assert(read == Ok::<LineTokenView, TokenizeError>(
        LineTokenView { kind: other, content: text, takes_next: false },
    ));
}

/// The tokens of a text whose lines are those of a piece are the tokens
/// of the piece, but for the numbers of the lines, where the piece
/// begins with a line that is no paragraph and with no white space.
pub proof fn lemma_chunk_tokens(text: Seq<char>, chunk: Chunk)
    requires
        line_patterns_accepted(),
        regex_accepts(INDENT_PATTERN@),
        blank_is_read(),
        sound(chunk),
        lines_of(text) == chunk.lines,
        chunk.lines.len() > 0,
        chunk.lines[0].len() > 0,
        !is_space(chunk.lines[0][0]),
        chunk.raws[0].kind != TokenKind::P,
    ensures
        tokens_of(text) is Ok,
        same_shape(tokens_of(text)->Ok_0, chunk.tokens),
{
    let empty = Seq::<char>::empty();
    let none = Seq::<TokenView>::empty();
    let lines = chunk.lines;
    let raws = chunk.raws;
    let k = full_lines(lines);
    lemma_full_lines(lines);
    let kept = lines.take(k);
    let tail = lines.skip(k);
    assert(lines =~= kept + tail);
    assert(kept[0] == lines[0]);
    assert(kept.last() == lines[k - 1]);
    lemma_trimmed_lines(text, kept, tail);
    let read = raws.take(k);
    let rest = raws.skip(k);
    assert(raws =~= read + rest);
    assert forall|i: int| 0 <= i < kept.len() implies (#[trigger] read[i]).content.len() == 1
        && reads_as(kept[i], read[i].kind, read[i].content[0]) by {
        assert(read[i] == raws[i] && kept[i] == lines[i]);
    }
    assert forall|i: int| 0 <= i < rest.len() implies (#[trigger] rest[i]).kind == TokenKind::P
        && rest[i].content == seq![empty] by {
        assert(rest[i] == raws[k + i]);
        assert(tail[i] == lines[k + i]);
        assert(tail[i] =~= empty);
        assert(reads_as(lines[k + i], raws[k + i].kind, raws[k + i].content[0]));
        lemma_read_once(empty, TokenKind::P, empty, raws[k + i].kind, raws[k + i].content[0]);
        assert(raws[k + i].content =~= seq![empty]);
    }
    lemma_tokens_of_lines(text, read);
    let blank = one_line(TokenKind::P, empty);
    assert(tokens_after(raws, blank) == settled(blank) + chunk.tokens);
    lemma_merged_add(read, rest, seq![blank]);
    lemma_merged_some(read, seq![blank]);
    lemma_blank_tail(rest, merged(read, seq![blank]));
    let first = read[0];
    assert(first == raws[0]);
    let later = read.drop_first();
    assert(merge_one(seq![blank], first) =~= seq![blank] + seq![first]);
    assert(merge_one(none, first) =~= seq![first]);
    lemma_merged_after(later, seq![blank], seq![first]);
    lemma_settled_add(seq![blank], merged(later, seq![first]));
    lemma_settled_one(blank);
    assert(blank.content.drop_last() =~= Seq::<Seq<char>>::empty());
    assert(blank.content.last() == empty);
    assert(concat_all(Seq::<Seq<char>>::empty()) =~= empty);
    assert(concat_all(blank.content) =~= empty);
    assert(is_blank(empty));
    assert(settled(blank) =~= none);
    assert(none + settled_all(merged(later, seq![first])) =~= settled_all(
        merged(later, seq![first]),
    ));
    assert(none + chunk.tokens =~= chunk.tokens);
}

} // verus!
