//! The tree of a series file covers its tokens.
//!
//! Every rule of the parser puts the tokens that it reads into the tree,
//! each once and in order, and reads no `EOF` token. So the text of the tree
//! of a series file is the text of its tokens up to the `EOF` token, and that
//! is the text of the file.
use crate::edit::builder::{no_step, Step};
use crate::edit::green::{elem_text, elems_text, lemma_elems_text_append, Elem, Tree};
use crate::edit::quilt::lex::{text_upto, tokens_of, SyntaxKind};
use crate::edit::quilt::parse::{
    after, blanks_step, comment_step, entry_step, has_options, item_of, kind_at,
    lemma_entry_advances, lemma_stop_index, lemma_tokens_of, line_rest, optional, options_items,
    patch_step, readable, series_step, series_tree, stop_index, token_elem,
};
use vstd::prelude::*;

verus! {

/// The texts of the tokens from index `from` up to index `to`, one after
/// another.
pub open spec fn text_from(tokens: Seq<(SyntaxKind, Seq<u8>)>, from: int, to: int) -> Seq<u8>
    decreases to - from,
{
    if to <= from || from < 0 || to > tokens.len() {
        Seq::empty()
    } else {
        text_from(tokens, from, to - 1) + tokens[to - 1].1
    }
}

/// A step covers the tokens that it reads: it ends within the tokens, at
/// or behind its start, the text of its elements is the text of the tokens
/// from its start up to its end, and none of these is an `EOF` token.
pub open spec fn covered(tokens: Seq<(SyntaxKind, Seq<u8>)>, i: int, step: Step) -> bool {
    &&& 0 <= i <= step.end <= tokens.len()
    &&& elems_text(step.elems) == text_from(tokens, i, step.end)
    &&& forall|k: int| i <= k < step.end ==> (#[trigger] tokens[k]).0 != SyntaxKind::EOF
}

/// The text between two tokens is the text up to a token between them,
/// followed by the text from there on.
pub proof fn lemma_text_join(tokens: Seq<(SyntaxKind, Seq<u8>)>, i: int, j: int, k: int)
    requires
        0 <= i <= j <= k <= tokens.len(),
    ensures
        text_from(tokens, i, j) + text_from(tokens, j, k) == text_from(tokens, i, k),
    decreases k - j,
{
    if j < k {
        lemma_text_join(tokens, i, j, k - 1);
        assert(text_from(tokens, i, j) + (text_from(tokens, j, k - 1) + tokens[k - 1].1) =~= (
        text_from(tokens, i, j) + text_from(tokens, j, k - 1)) + tokens[k - 1].1);
    } else {
        assert(text_from(tokens, i, j) + text_from(tokens, j, k) =~= text_from(tokens, i, j));
    }
}

/// The text between the first token and another is the text up to that
/// token.
pub proof fn lemma_text_from_start(tokens: Seq<(SyntaxKind, Seq<u8>)>, n: int)
    requires
        0 <= n <= tokens.len(),
    ensures
        text_from(tokens, 0, n) == text_upto(tokens, n),
    decreases n,
{
    if n > 0 {
        lemma_text_from_start(tokens, n - 1);
    }
}

/// The text of one element.
proof fn lemma_one(e: Elem)
    ensures
        elems_text(seq![e]) == elem_text(e),
{
    assert(seq![e].drop_last() =~= Seq::<Elem>::empty());
    assert(elems_text(seq![e].drop_last()) =~= Seq::<u8>::empty());
    assert(elems_text(seq![e]) =~= elem_text(e));
}

/// One token that is no `EOF` token covers itself.
proof fn lemma_token(tokens: Seq<(SyntaxKind, Seq<u8>)>, i: int)
    requires
        readable(tokens, i),
    ensures
        covered(tokens, i, Step { elems: seq![token_elem(tokens, i)], end: i + 1 }),
{
    lemma_one(token_elem(tokens, i));
    assert(text_from(tokens, i, i) =~= Seq::<u8>::empty());
    assert(text_from(tokens, i, i + 1) =~= tokens[i].1);
}

/// A node covers what its children cover.
proof fn lemma_node(tokens: Seq<(SyntaxKind, Seq<u8>)>, i: int, kind: SyntaxKind, inner: Step)
    requires
        covered(tokens, i, inner),
    ensures
        covered(
            tokens,
            i,
            Step {
                elems: seq![Elem::Node(Tree { kind: kind.raw(), children: inner.elems })],
                end: inner.end,
            },
        ),
{
    lemma_one(Elem::Node(Tree { kind: kind.raw(), children: inner.elems }));
}

/// Two steps, one after the other, cover what the first and the second
/// cover.
proof fn lemma_both(tokens: Seq<(SyntaxKind, Seq<u8>)>, i: int, first: Step, next: Step)
    requires
        covered(tokens, i, first),
        covered(tokens, first.end, next),
    ensures
        covered(tokens, i, Step { elems: first.elems + next.elems, end: next.end }),
{
    lemma_elems_text_append(first.elems, next.elems);
    lemma_text_join(tokens, i, first.end, next.end);
}

/// The runs of tokens that the parser reads cover their tokens.
pub proof fn lemma_runs_cover(tokens: Seq<(SyntaxKind, Seq<u8>)>, i: int)
    requires
        0 <= i <= tokens.len(),
    ensures
        covered(tokens, i, blanks_step(tokens, i)),
        covered(tokens, i, options_items(tokens, i)),
        covered(tokens, i, line_rest(tokens, i)),
    decreases tokens.len() - i,
{
    assert(text_from(tokens, i, i) =~= Seq::<u8>::empty());
    if i < tokens.len() {
        lemma_runs_cover(tokens, i + 1);
        let one = Step { elems: seq![token_elem(tokens, i)], end: i + 1 };
        if readable(tokens, i) {
            lemma_token(tokens, i);
            lemma_both(tokens, i, one, blanks_step(tokens, i + 1));
            lemma_both(tokens, i, one, options_items(tokens, i + 1));
            lemma_both(tokens, i, one, line_rest(tokens, i + 1));
            lemma_node(tokens, i, SyntaxKind::OPTION_ITEM, one);
            lemma_both(
                tokens,
                i,
                Step { elems: seq![item_of(tokens, i)], end: i + 1 },
                options_items(tokens, i + 1),
            );
        }
    }
}

/// A token that is read if it is of a kind, and is no `EOF` token, covers
/// itself.
proof fn lemma_optional(tokens: Seq<(SyntaxKind, Seq<u8>)>, i: int, kind: SyntaxKind)
    requires
        0 <= i <= tokens.len(),
        kind != SyntaxKind::EOF,
    ensures
        covered(tokens, i, optional(tokens, i, kind)),
{
    assert(text_from(tokens, i, i) =~= Seq::<u8>::empty());
    if kind_at(tokens, i) == Some(kind) {
        lemma_token(tokens, i);
    }
}

/// A comment covers its tokens.
pub proof fn lemma_comment_covers(tokens: Seq<(SyntaxKind, Seq<u8>)>, i: int)
    requires
        kind_at(tokens, i) == Some(SyntaxKind::HASH),
    ensures
        covered(tokens, i, comment_step(tokens, i)),
{
    let one = Step { elems: seq![token_elem(tokens, i)], end: i + 1 };
    lemma_token(tokens, i);
    let blanks = blanks_step(tokens, i + 1);
    lemma_runs_cover(tokens, i + 1);
    let text = optional(tokens, blanks.end, SyntaxKind::TEXT);
    lemma_optional(tokens, blanks.end, SyntaxKind::TEXT);
    let end = optional(tokens, text.end, SyntaxKind::NEWLINE);
    lemma_optional(tokens, text.end, SyntaxKind::NEWLINE);
    let a = Step { elems: one.elems + blanks.elems, end: blanks.end };
    lemma_both(tokens, i, one, blanks);
    let b = Step { elems: a.elems + text.elems, end: text.end };
    lemma_both(tokens, i, a, text);
    let c = Step { elems: b.elems + end.elems, end: end.end };
    lemma_both(tokens, i, b, end);
    lemma_node(tokens, i, SyntaxKind::COMMENT_LINE, c);
}

/// A patch covers its tokens.
pub proof fn lemma_patch_covers(tokens: Seq<(SyntaxKind, Seq<u8>)>, i: int)
    requires
        kind_at(tokens, i) == Some(SyntaxKind::PATCH_NAME),
    ensures
        covered(tokens, i, patch_step(tokens, i)),
{
    let one = Step { elems: seq![token_elem(tokens, i)], end: i + 1 };
    lemma_token(tokens, i);
    lemma_runs_cover(tokens, i + 1);
    let items = options_items(tokens, i + 1);
    lemma_node(tokens, i + 1, SyntaxKind::OPTIONS, items);
    assert(text_from(tokens, i + 1, i + 1) =~= Seq::<u8>::empty());
    let options = if has_options(tokens, i + 1) {
        Step {
            elems: seq![
                Elem::Node(Tree { kind: SyntaxKind::OPTIONS.raw(), children: items.elems }),
            ],
            end: items.end,
        }
    } else {
        no_step(i + 1)
    };
    let end = optional(tokens, options.end, SyntaxKind::NEWLINE);
    lemma_optional(tokens, options.end, SyntaxKind::NEWLINE);
    let a = Step { elems: one.elems + options.elems, end: options.end };
    lemma_both(tokens, i, one, options);
    let b = Step { elems: a.elems + end.elems, end: end.end };
    lemma_both(tokens, i, a, end);
    lemma_node(tokens, i, SyntaxKind::PATCH_ENTRY, b);
}

/// An entry covers its tokens.
pub proof fn lemma_entry_covers(tokens: Seq<(SyntaxKind, Seq<u8>)>, i: int)
    requires
        0 <= i <= tokens.len(),
    ensures
        covered(tokens, i, entry_step(tokens, i)),
{
    let blanks = blanks_step(tokens, i);
    lemma_runs_cover(tokens, i);
    let kind = kind_at(tokens, blanks.end);
    assert(text_from(tokens, blanks.end, blanks.end) =~= Seq::<u8>::empty());
    let body = if kind == Some(SyntaxKind::NEWLINE) {
        no_step(blanks.end)
    } else if kind == Some(SyntaxKind::HASH) {
        lemma_comment_covers(tokens, blanks.end);
        comment_step(tokens, blanks.end)
    } else if kind == Some(SyntaxKind::PATCH_NAME) {
        lemma_patch_covers(tokens, blanks.end);
        patch_step(tokens, blanks.end)
    } else {
        lemma_runs_cover(tokens, blanks.end);
        line_rest(tokens, blanks.end)
    };
    lemma_both(tokens, i, blanks, body);
    lemma_node(
        tokens,
        i,
        SyntaxKind::SERIES_ENTRY,
        Step { elems: blanks.elems + body.elems, end: body.end },
    );
}

/// The parser stops where it stops from any token further on that no
/// `EOF` token stands before.
proof fn lemma_stop_from(tokens: Seq<(SyntaxKind, Seq<u8>)>, i: int, j: int)
    requires
        0 <= i <= j <= tokens.len(),
        forall|k: int| i <= k < j ==> (#[trigger] tokens[k]).0 != SyntaxKind::EOF,
    ensures
        stop_index(tokens, i) == stop_index(tokens, j),
    decreases j - i,
{
    if i < j {
        assert(tokens[i].0 != SyntaxKind::EOF);
        lemma_stop_from(tokens, i + 1, j);
    }
}

/// The children of the root cover the tokens from a token on, up to where
/// the parser stops.
pub proof fn lemma_series_covers(tokens: Seq<(SyntaxKind, Seq<u8>)>, i: int)
    requires
        0 <= i <= tokens.len(),
    ensures
        elems_text(series_step(tokens, i).0) == text_from(tokens, i, stop_index(tokens, i)),
    decreases tokens.len() - i,
{
    lemma_stop_index(tokens, i);
    if !readable(tokens, i) {
        assert(text_from(tokens, i, i) =~= Seq::<u8>::empty());
    } else if kind_at(tokens, i) == Some(SyntaxKind::NEWLINE) {
        lemma_token(tokens, i);
        lemma_series_covers(tokens, i + 1);
        lemma_stop_index(tokens, i + 1);
        lemma_elems_text_append(seq![token_elem(tokens, i)], series_step(tokens, i + 1).0);
        lemma_text_join(tokens, i, i + 1, stop_index(tokens, i));
    } else {
        lemma_entry_advances(tokens, i);
        lemma_entry_covers(tokens, i);
        let entry = entry_step(tokens, i);
        lemma_series_covers(tokens, entry.end);
        lemma_stop_from(tokens, i, entry.end);
        lemma_stop_index(tokens, entry.end);
        lemma_elems_text_append(entry.elems, series_step(tokens, entry.end).0);
        lemma_text_join(tokens, i, entry.end, stop_index(tokens, i));
    }
}

/// The tree of a series file holds the bytes of the file, each once and
/// in order, whatever the bytes are.
pub proof fn lemma_round_trip(bytes: Seq<u8>)
    ensures
        series_tree(tokens_of(bytes)).text() == bytes,
{
    let tokens = tokens_of(bytes);
    lemma_series_covers(tokens, 0);
    lemma_tokens_of(bytes);
    lemma_text_from_start(tokens, tokens.len() - 1);
}

} // verus!
