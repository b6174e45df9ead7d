//! How the tokens of a text come about line after line.
//!
//! The tokenizer reads the lines, merges them and drops what is blank in
//! three passes. This module shows what the passes give together for
//! lines of which each is known to be read as one token, whatever the
//! numbers of the lines.

use crate::consts::INDENT_PATTERN;
use crate::error::TokenizeError;
use crate::pattern::regex_accepts;
use crate::round_trip::{same_shape, token_of};
use crate::text::{split_on, trim_of};
use crate::token::{
    LineTokenView, TokenKind, TokenView, clean_from, clean_one, line_patterns_accepted, line_token,
    lines_tokens, merge_from, merge_one, raw_tokens, tokens_of, with_line,
};
use vstd::prelude::*;

verus! {

/// Whether the line `line` is read as one token of the kind `kind` with
/// the content `content`, on whatever line and before whatever line it
/// stands.
pub open spec fn reads_as(line: Seq<char>, kind: TokenKind, content: Seq<char>) -> bool {
    forall|number: usize, next: Option<Seq<char>>| #[trigger]
        line_token(number, line, next) == Ok::<LineTokenView, TokenizeError>(
            LineTokenView { kind, content, takes_next: false },
        )
}

/// The token of the kind `kind` whose content is the one line `line`.
pub open spec fn one_line(kind: TokenKind, line: Seq<char>) -> TokenView {
    token_of(kind, seq![line])
}

/// Whether each of `lines` is read as the token of `raws` at the same
/// place, which has one line.
pub open spec fn read_as_tokens(lines: Seq<Seq<char>>, raws: Seq<TokenView>) -> bool {
    lines.len() == raws.len() && forall|i: int|
        0 <= i < lines.len() ==> (#[trigger] raws[i]).content.len() == 1 && reads_as(
            lines[i],
            raws[i].kind,
            raws[i].content[0],
        )
}

/// Lines that are read as tokens give these tokens, but for the numbers
/// of their lines.
proof fn lemma_lines_read(lines: Seq<Seq<char>>, raws: Seq<TokenView>, i: int, acc: Seq<TokenView>)
    requires
        read_as_tokens(lines, raws),
        0 <= i <= lines.len(),
        same_shape(acc, raws.take(i)),
    ensures
        lines_tokens(lines, i, false, acc) is Ok,
        same_shape(lines_tokens(lines, i, false, acc)->Ok_0, raws),
    decreases lines.len() - i,
{
    if i < lines.len() {
        let next = if i + 1 < lines.len() {
            Some(lines[i + 1])
        } else {
            None
        };
        let number = (i + 1) as usize;
        assert(reads_as(lines[i], raws[i].kind, raws[i].content[0]));
        let read = line_token(number, lines[i], next);
        assert(read == Ok::<LineTokenView, TokenizeError>(
            LineTokenView { kind: raws[i].kind, content: raws[i].content[0], takes_next: false },
        ));
        let t = TokenView { line: number, kind: raws[i].kind, content: seq![raws[i].content[0]] };
        let more = acc.push(t);
        assert(seq![raws[i].content[0]] =~= raws[i].content);
        assert forall|k: int| 0 <= k < more.len() implies (#[trigger] more[k]).kind == raws.take(
            i + 1,
        )[k].kind && more[k].content == raws.take(i + 1)[k].content by {
            if k < i {
                assert(acc[k].kind == raws.take(i)[k].kind);
                assert(acc[k].content == raws.take(i)[k].content);
            }
        }
        lemma_lines_read(lines, raws, i + 1, more);
    } else {
        assert(raws.take(i) =~= raws);
    }
}

/// Merging does not depend on the numbers of the lines.
proof fn lemma_shape_merge_one(a: Seq<TokenView>, b: Seq<TokenView>, t: TokenView, u: TokenView)
    requires
        same_shape(a, b),
        t.kind == u.kind,
        t.content == u.content,
    ensures
        same_shape(merge_one(a, t), merge_one(b, u)),
{
    let x = merge_one(a, t);
    let y = merge_one(b, u);
    if a.len() > 0 {
        assert(a[a.len() - 1].kind == b[b.len() - 1].kind);
        assert(a[a.len() - 1].content == b[b.len() - 1].content);
    }
    assert(x.len() == y.len());
    assert forall|i: int| 0 <= i < x.len() implies (#[trigger] x[i]).kind == y[i].kind
        && x[i].content == y[i].content by {
        if i < a.len() - 1 {
            assert(a[i].kind == b[i].kind && a[i].content == b[i].content);
        } else if i < a.len() {
            assert(a[i].kind == b[i].kind && a[i].content == b[i].content);
        }
    }
}

/// Merging does not depend on the numbers of the lines.
proof fn lemma_shape_merge(
    a: Seq<TokenView>,
    b: Seq<TokenView>,
    i: int,
    x: Seq<TokenView>,
    y: Seq<TokenView>,
)
    requires
        same_shape(a, b),
        same_shape(x, y),
        0 <= i <= a.len(),
    ensures
        same_shape(merge_from(a, i, x), merge_from(b, i, y)),
    decreases a.len() - i,
{
    if i < a.len() {
        assert(a[i].kind == b[i].kind && a[i].content == b[i].content);
        lemma_shape_merge_one(x, y, a[i], b[i]);
        lemma_shape_merge(a, b, i + 1, merge_one(x, a[i]), merge_one(y, b[i]));
    }
}

/// Dropping what is blank does not depend on the numbers of the lines.
proof fn lemma_shape_clean(
    a: Seq<TokenView>,
    b: Seq<TokenView>,
    i: int,
    x: Seq<TokenView>,
    y: Seq<TokenView>,
)
    requires
        same_shape(a, b),
        same_shape(x, y),
        0 <= i <= a.len(),
    ensures
        same_shape(clean_from(a, i, x), clean_from(b, i, y)),
    decreases a.len() - i,
{
    if i < a.len() {
        assert(a[i].kind == b[i].kind && a[i].content == b[i].content);
        let p = clean_one(x, a[i]);
        let q = clean_one(y, b[i]);
        assert forall|k: int| 0 <= k < p.len() implies (#[trigger] p[k]).kind == q[k].kind
            && p[k].content == q[k].content by {
            if k < x.len() {
                assert(x[k].kind == y[k].kind && x[k].content == y[k].content);
            }
        }
        lemma_shape_clean(a, b, i + 1, p, q);
    }
}

/// What is left of one token when what is blank is dropped: nothing for
/// a token whose content is blank, and otherwise the token without the
/// blank lines at the ends of its content.
pub open spec fn settled(t: TokenView) -> Seq<TokenView> {
    clean_one(Seq::<TokenView>::empty(), t)
}

/// What is left of `tokens` when what is blank is dropped.
pub open spec fn settled_all(tokens: Seq<TokenView>) -> Seq<TokenView>
    decreases tokens.len(),
{
    if tokens.len() == 0 {
        Seq::<TokenView>::empty()
    } else {
        settled(tokens[0]) + settled_all(tokens.drop_first())
    }
}

/// The pass that drops what is blank gives what is left of each token,
/// one after the other.
proof fn lemma_clean_settles(tokens: Seq<TokenView>, i: int, acc: Seq<TokenView>)
    requires
        0 <= i <= tokens.len(),
    ensures
        clean_from(tokens, i, acc) == acc + settled_all(tokens.skip(i)),
    decreases tokens.len() - i,
{
    let rest = tokens.skip(i);
    if i < tokens.len() {
        assert(rest[0] == tokens[i]);
        assert(rest.drop_first() =~= tokens.skip(i + 1));
        lemma_clean_settles(tokens, i + 1, clean_one(acc, tokens[i]));
        assert(clean_one(acc, tokens[i]) =~= acc + settled(tokens[i]));
        assert(acc + settled(tokens[i]) + settled_all(tokens.skip(i + 1)) =~= acc + (settled(
            tokens[i],
        ) + settled_all(tokens.skip(i + 1))));
    } else {
        assert(acc + settled_all(rest) =~= acc);
    }
}

/// What is left of tokens put one after the other is what is left of
/// each.
pub proof fn lemma_settled_add(a: Seq<TokenView>, b: Seq<TokenView>)
    ensures
        settled_all(a + b) == settled_all(a) + settled_all(b),
    decreases a.len(),
{
    if a.len() == 0 {
        assert(a + b =~= b);
        assert(settled_all(a) + settled_all(b) =~= settled_all(b));
    } else {
        assert((a + b)[0] == a[0]);
        assert((a + b).drop_first() =~= a.drop_first() + b);
        lemma_settled_add(a.drop_first(), b);
        assert(settled(a[0]) + (settled_all(a.drop_first()) + settled_all(b)) =~= settled(a[0])
            + settled_all(a.drop_first()) + settled_all(b));
    }
}

/// What is left of one token alone.
pub proof fn lemma_settled_one(t: TokenView)
    ensures
        settled_all(seq![t]) == settled(t),
{
    let one = seq![t];
    assert(one[0] == t);
    assert(one.drop_first() =~= Seq::<TokenView>::empty());
    assert(settled_all(one.drop_first()) =~= Seq::<TokenView>::empty());
    assert(settled(t) + settled_all(one.drop_first()) =~= settled(t));
}

/// The tokens `acc` after the tokens `raws` of one line each were merged
/// into them one after the other.
pub open spec fn merged(raws: Seq<TokenView>, acc: Seq<TokenView>) -> Seq<TokenView>
    decreases raws.len(),
{
    if raws.len() == 0 {
        acc
    } else {
        merged(raws.drop_first(), merge_one(acc, raws[0]))
    }
}

/// The pass that merges gives what merging one token after the other
/// gives.
proof fn lemma_merge_from(tokens: Seq<TokenView>, i: int, acc: Seq<TokenView>)
    requires
        0 <= i <= tokens.len(),
    ensures
        merge_from(tokens, i, acc) == merged(tokens.skip(i), acc),
    decreases tokens.len() - i,
{
    let rest = tokens.skip(i);
    if i < tokens.len() {
        assert(rest[0] == tokens[i]);
        assert(rest.drop_first() =~= tokens.skip(i + 1));
        lemma_merge_from(tokens, i + 1, merge_one(acc, tokens[i]));
    }
}

/// Merging leaves all tokens but the last as they are.
pub proof fn lemma_merged_after(raws: Seq<TokenView>, before: Seq<TokenView>, acc: Seq<TokenView>)
    requires
        acc.len() > 0,
    ensures
        merged(raws, before + acc) == before + merged(raws, acc),
    decreases raws.len(),
{
    if raws.len() > 0 {
        let t = raws[0];
        assert((before + acc).last() == acc.last());
        assert((before + acc).drop_last() =~= before + acc.drop_last());
        assert(merge_one(before + acc, t) =~= before + merge_one(acc, t));
        lemma_merged_after(raws.drop_first(), before, merge_one(acc, t));
    }
}

/// The tokens that come of the tokens `raws` of one line each after the
/// token `pending`: merged, and without what is blank.
pub open spec fn tokens_after(raws: Seq<TokenView>, pending: TokenView) -> Seq<TokenView> {
    settled_all(merged(raws, seq![pending]))
}

/// After the last line, what is left of the pending token remains.
pub proof fn lemma_after_none(pending: TokenView)
    ensures
        tokens_after(Seq::<TokenView>::empty(), pending) == settled(pending),
{
    lemma_settled_one(pending);
}

/// A token that is not merged into the pending one ends it and is
/// pending in its turn.
pub proof fn lemma_after_new(t: TokenView, rest: Seq<TokenView>, pending: TokenView)
    requires
        merge_one(seq![pending], t) == seq![pending].push(t),
    ensures
        tokens_after(seq![t] + rest, pending) == settled(pending) + tokens_after(rest, t),
{
    let raws = seq![t] + rest;
    assert(raws[0] == t);
    assert(raws.drop_first() =~= rest);
    assert(seq![pending].push(t) =~= seq![pending] + seq![t]);
    lemma_merged_after(rest, seq![pending], seq![t]);
    lemma_settled_add(seq![pending], merged(rest, seq![t]));
    lemma_settled_one(pending);
}

/// A line that is merged into the pending token makes it longer.
pub proof fn lemma_after_merged(
    t: TokenView,
    rest: Seq<TokenView>,
    pending: TokenView,
    line: Seq<char>,
)
    requires
        merge_one(seq![pending], t) == seq![with_line(pending, line)],
    ensures
        tokens_after(seq![t] + rest, pending) == tokens_after(rest, with_line(pending, line)),
{
    let raws = seq![t] + rest;
    assert(raws[0] == t);
    assert(raws.drop_first() =~= rest);
}

/// The tokens of a text whose lines are read as the tokens `raws` of one
/// line each are what comes of these tokens, but for the numbers of the
/// lines.
pub proof fn lemma_tokens_of_lines(text: Seq<char>, raws: Seq<TokenView>)
    requires
        line_patterns_accepted(),
        regex_accepts(INDENT_PATTERN@),
        read_as_tokens(split_on(trim_of(text), '\n'), raws),
    ensures
        tokens_of(text) is Ok,
        same_shape(
            tokens_of(text)->Ok_0,
            settled_all(merged(raws, Seq::<TokenView>::empty())),
        ),
{
    let none = Seq::<TokenView>::empty();
    let lines = split_on(trim_of(text), '\n');
    assert(raws.take(0) =~= none);
    lemma_lines_read(lines, raws, 0, none);
    let raw = raw_tokens(text)->Ok_0;
    lemma_shape_merge(raw, raws, 0, none, none);
    let m = merge_from(raw, 0, none);
    let n = merge_from(raws, 0, none);
    lemma_shape_clean(m, n, 0, none, none);
    lemma_merge_from(raws, 0, none);
    assert(raws.skip(0) =~= raws);
    lemma_clean_settles(n, 0, none);
    assert(n.skip(0) =~= n);
    assert(none + settled_all(n) =~= settled_all(n));
}

} // verus!
