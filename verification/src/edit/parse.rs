//! Parser for patch files
//!
//! The parser reads the tokens of a patch file into a tree. It accepts
//! unified diffs, context diffs, ed scripts and normal diffs, also mixed in
//! one input, and never fails: what it cannot place becomes part of the
//! tree all the same, so that the tree always covers the whole input.
use crate::bytes::{equal, has_prefix, starts_with};
use crate::edit::builder::{no_step, Step, TreeBuilder};
use crate::edit::grammar::{
    ahead, bare_context_hunk_step, change_end, context_file_step, context_hunk_step,
    context_hunks_step, ed_command_step, ed_lines_step, has_range, header_step, hunk_header_step,
    hunk_step, hunks_step, item_step, items_step, lemma_context_steps, lemma_hunk, lemma_item,
    lemma_groups, lemma_line_end, lemma_line_end_run, lemma_lines, lemma_span_extend,
    lemma_span_short, closing_end, line_end, line_step, lines_step, marked_header_step,
    marked_lines_step, new_lines_ahead, node, normal_hunk_step, patch_file_step, patch_tree,
    path_step, plain, range_end, range_step, section_step, sections_step, separator_step, side_step,
    signed_range_step, skipped_end, span, token_elem, wrapped,
};
use crate::edit::green::{checkpoint_index, node_tree, Elem, Tree};
use crate::edit::kind::SyntaxKind;
use crate::edit::lex::token_views;
use vstd::prelude::*;
use vstd::string::StringExecFns;
use vstd::utf8::encode_utf8;

verus! {

/// Three dashes.
pub const DASHES: [u8; 3] = [0x2d, 0x2d, 0x2d];

/// Three plus signs.
pub const PLUSES: [u8; 3] = [0x2b, 0x2b, 0x2b];

/// Two at signs.
pub const ATS: [u8; 2] = [0x40, 0x40];

/// Three stars.
pub const STARS: [u8; 3] = [0x2a, 0x2a, 0x2a];

/// The texts of the first `n` tokens, one after another.
pub open spec fn text_upto(tokens: Seq<(SyntaxKind, Seq<u8>)>, n: int) -> Seq<u8>
    decreases n,
{
    if n <= 0 || n > tokens.len() {
        Seq::empty()
    } else {
        text_upto(tokens, n - 1) + tokens[n - 1].1
    }
}

/// The texts of the tokens from index `from` up to index `to`, one after
/// another.
pub open spec fn text_between(tokens: Seq<(SyntaxKind, Seq<u8>)>, from: int, to: int) -> Seq<u8>
    decreases to - from,
{
    if to <= from || from < 0 || to > tokens.len() {
        Seq::empty()
    } else {
        text_between(tokens, from, to - 1) + tokens[to - 1].1
    }
}

/// The text of more tokens is longer.
pub proof fn lemma_text_upto_grows(tokens: Seq<(SyntaxKind, Seq<u8>)>, n: int, m: int)
    requires
        0 <= n <= m <= tokens.len(),
    ensures
        text_upto(tokens, n).len() <= text_upto(tokens, m).len(),
    decreases m - n,
{
    if n < m {
        lemma_text_upto_grows(tokens, n, m - 1);
    }
}

/// The text up to a token is the text up to an earlier one, followed by
/// the text between the two.
pub proof fn lemma_text_upto_split(tokens: Seq<(SyntaxKind, Seq<u8>)>, n: int, m: int)
    requires
        0 <= n <= m <= tokens.len(),
    ensures
        text_upto(tokens, m) == text_upto(tokens, n) + text_between(tokens, n, m),
    decreases m - n,
{
    if n < m {
        lemma_text_upto_split(tokens, n, m - 1);
        assert(text_upto(tokens, n) + (text_between(tokens, n, m - 1) + tokens[m - 1].1) =~= (
        text_upto(tokens, n) + text_between(tokens, n, m - 1)) + tokens[m - 1].1);
    } else {
        assert(text_upto(tokens, n) + text_between(tokens, n, m) =~= text_upto(tokens, n));
    }
}

/// The text of all tokens is their texts put together.
pub proof fn lemma_text_upto_all(tokens: Seq<(SyntaxKind, Seq<u8>)>, n: int)
    requires
        0 <= n <= tokens.len(),
    ensures
        text_upto(tokens, n) == crate::bytes::concat(
            crate::edit::lex::token_texts(tokens).subrange(0, n),
        ),
    decreases n,
{
    let texts = crate::edit::lex::token_texts(tokens);
    if n > 0 {
        lemma_text_upto_all(tokens, n - 1);
        assert(texts.subrange(0, n).drop_last() =~= texts.subrange(0, n - 1));
        assert(texts.subrange(0, n).last() == tokens[n - 1].1);
    }
}

/// The UTF-8 encoding of two texts, one after the other, is the encoding
/// of the first followed by the encoding of the second.
pub proof fn lemma_encode_append(a: Seq<char>, b: Seq<char>)
    ensures
        encode_utf8(a + b) == encode_utf8(a) + encode_utf8(b),
    decreases a.len(),
{
    if a.len() == 0 {
        assert(a + b =~= b);
        assert(encode_utf8(a) + encode_utf8(b) =~= encode_utf8(b));
    } else {
        lemma_encode_append(a.drop_first(), b);
        assert((a + b).drop_first() =~= a.drop_first() + b);
        assert((a + b)[0] == a[0]);
        assert(vstd::utf8::encode_scalar(a[0] as u32) + (encode_utf8(a.drop_first())
            + encode_utf8(b)) =~= (vstd::utf8::encode_scalar(a[0] as u32) + encode_utf8(
            a.drop_first(),
        )) + encode_utf8(b));
    }
}

/// A class of tokens that the parser reads as a run.
#[derive(Clone, Copy, PartialEq, Eq, Structural)]
pub enum Class {
    /// `WHITESPACE`
    Blank,
    /// `STAR`
    Star,
    /// `MINUS`
    Minus,
    /// `NUMBER` and `COMMA`
    Range,
    /// What can stand in the path of a unified header.
    Path,
    /// What can stand in the path of a context header: as `Path`, and
    /// `MINUS` and `STAR`.
    ContextPath,
    /// Everything but `NEWLINE`.
    InLine,
}

impl Class {
    /// Whether a token of kind `kind` belongs to the class.
    pub open spec fn holds(self, kind: SyntaxKind) -> bool {
        match self {
            Class::Blank => kind == SyntaxKind::WHITESPACE,
            Class::Star => kind == SyntaxKind::STAR,
            Class::Minus => kind == SyntaxKind::MINUS,
            Class::Range => kind == SyntaxKind::NUMBER || kind == SyntaxKind::COMMA,
            Class::Path => kind == SyntaxKind::TEXT || kind == SyntaxKind::SLASH || kind
                == SyntaxKind::DOT || kind == SyntaxKind::NUMBER || kind == SyntaxKind::COLON
                || kind == SyntaxKind::BACKSLASH,
            Class::ContextPath => kind == SyntaxKind::TEXT || kind == SyntaxKind::SLASH || kind
                == SyntaxKind::DOT || kind == SyntaxKind::NUMBER || kind == SyntaxKind::MINUS
                || kind == SyntaxKind::STAR || kind == SyntaxKind::COLON || kind
                == SyntaxKind::BACKSLASH,
            Class::InLine => kind != SyntaxKind::NEWLINE,
        }
    }

    /// Whether a token of kind `kind` belongs to the class.
    pub fn contains(self, kind: SyntaxKind) -> (r: bool)
        ensures
            r == self.holds(kind),
    {
        match self {
            Class::Blank => kind == SyntaxKind::WHITESPACE,
            Class::Star => kind == SyntaxKind::STAR,
            Class::Minus => kind == SyntaxKind::MINUS,
            Class::Range => kind == SyntaxKind::NUMBER || kind == SyntaxKind::COMMA,
            Class::Path => kind == SyntaxKind::TEXT || kind == SyntaxKind::SLASH || kind
                == SyntaxKind::DOT || kind == SyntaxKind::NUMBER || kind == SyntaxKind::COLON
                || kind == SyntaxKind::BACKSLASH,
            Class::ContextPath => kind == SyntaxKind::TEXT || kind == SyntaxKind::SLASH || kind
                == SyntaxKind::DOT || kind == SyntaxKind::NUMBER || kind == SyntaxKind::MINUS
                || kind == SyntaxKind::STAR || kind == SyntaxKind::COLON || kind
                == SyntaxKind::BACKSLASH,
            Class::InLine => kind != SyntaxKind::NEWLINE,
        }
    }
}

/// The kind of token `i`, if there is such a token.
pub open spec fn kind_at(tokens: Seq<(SyntaxKind, Seq<u8>)>, i: int) -> Option<SyntaxKind> {
    if 0 <= i < tokens.len() {
        Some(tokens[i].0)
    } else {
        None
    }
}

/// The index behind the run of tokens of class `class` that starts at
/// index `i`.
pub open spec fn run_end(tokens: Seq<(SyntaxKind, Seq<u8>)>, i: int, class: Class) -> int
    decreases tokens.len() - i,
{
    if i < 0 || i >= tokens.len() || !class.holds(tokens[i].0) {
        i
    } else {
        run_end(tokens, i + 1, class)
    }
}

/// A run ends at or behind its start, within the tokens.
pub proof fn lemma_run_end(tokens: Seq<(SyntaxKind, Seq<u8>)>, i: int, class: Class)
    requires
        0 <= i <= tokens.len(),
    ensures
        i <= run_end(tokens, i, class) <= tokens.len(),
    decreases tokens.len() - i,
{
    if i < tokens.len() && class.holds(tokens[i].0) {
        lemma_run_end(tokens, i + 1, class);
    }
}

/// The marker with which a text starts: three dashes, three plus signs or
/// two at signs in a text of two bytes or more, or three stars.
pub open spec fn marker_of(text: Seq<u8>) -> Option<Seq<u8>> {
    if text.len() >= 2 && has_prefix(text, DASHES@) {
        Some(DASHES@)
    } else if text.len() >= 2 && has_prefix(text, PLUSES@) {
        Some(PLUSES@)
    } else if text.len() >= 2 && has_prefix(text, ATS@) {
        Some(ATS@)
    } else if text.len() >= 3 && has_prefix(text, STARS@) {
        Some(STARS@)
    } else {
        None
    }
}

/// What the parser sees `offset` tokens ahead of index `cursor`: the marker
/// that the first one, two or three tokens from there spell, and else the
/// text of the token `offset` tokens further on from there.
pub open spec fn peek_spec(tokens: Seq<(SyntaxKind, Seq<u8>)>, cursor: int, offset: int) -> Option<
    Seq<u8>,
> {
    let start = cursor + offset;
    let fallback = if 0 <= start + offset < tokens.len() {
        Some(tokens[start + offset].1)
    } else {
        None
    };
    if start < 0 || start >= tokens.len() {
        fallback
    } else if marker_of(tokens[start].1) is Some {
        marker_of(tokens[start].1)
    } else if start + 1 >= tokens.len() {
        fallback
    } else if marker_of(tokens[start].1 + tokens[start + 1].1) is Some {
        marker_of(tokens[start].1 + tokens[start + 1].1)
    } else if start + 2 >= tokens.len() {
        fallback
    } else if marker_of(tokens[start].1 + tokens[start + 1].1 + tokens[start + 2].1) is Some {
        marker_of(tokens[start].1 + tokens[start + 1].1 + tokens[start + 2].1)
    } else {
        fallback
    }
}

/// The token at `cursor` is of kind `kind`.
pub open spec fn at_kind(tokens: Seq<(SyntaxKind, Seq<u8>)>, cursor: int, kind: SyntaxKind) -> bool {
    kind_at(tokens, cursor) == Some(kind)
}

/// The tokens from `cursor` on start with the marker `marker`, whose first
/// token is of kind `kind`.
pub open spec fn at_marker(
    tokens: Seq<(SyntaxKind, Seq<u8>)>,
    cursor: int,
    kind: SyntaxKind,
    marker: Seq<u8>,
) -> bool {
    at_kind(tokens, cursor, kind) && peek_spec(tokens, cursor, 0) == Some(marker)
}

/// A hunk ends before `@@`, `---` and `+++`.
pub open spec fn hunk_end_spec(tokens: Seq<(SyntaxKind, Seq<u8>)>, cursor: int) -> bool {
    at_marker(tokens, cursor, SyntaxKind::AT, ATS@) || at_marker(
        tokens,
        cursor,
        SyntaxKind::MINUS,
        DASHES@,
    ) || at_marker(tokens, cursor, SyntaxKind::PLUS, PLUSES@)
}

/// A line of fifteen stars or more, and nothing else: the separator between
/// the hunks of a context diff.
pub open spec fn hunk_separator_spec(tokens: Seq<(SyntaxKind, Seq<u8>)>, cursor: int) -> bool {
    let end = run_end(tokens, cursor, Class::Star);
    end - cursor >= 15 && (kind_at(tokens, end) == Some(SyntaxKind::NEWLINE) || kind_at(
        tokens,
        end,
    ) is None)
}

/// A section of a context hunk ends before `---`, `***` and a separator.
pub open spec fn section_end_spec(tokens: Seq<(SyntaxKind, Seq<u8>)>, cursor: int) -> bool {
    at_marker(tokens, cursor, SyntaxKind::MINUS, DASHES@) || (at_kind(
        tokens,
        cursor,
        SyntaxKind::STAR,
    ) && (peek_spec(tokens, cursor, 0) == Some(STARS@) || hunk_separator_spec(tokens, cursor)))
}

/// The line of a section of a context hunk: the marker `marker`, a range
/// that starts with a number, and three or more tokens of class `tail`.
pub open spec fn section_header_spec(
    tokens: Seq<(SyntaxKind, Seq<u8>)>,
    cursor: int,
    kind: SyntaxKind,
    marker: Seq<u8>,
    tail: Class,
) -> bool {
    let a = run_end(tokens, cursor + 3, Class::Blank);
    let b = run_end(tokens, a, Class::Range);
    let c = run_end(tokens, b, Class::Blank);
    at_marker(tokens, cursor, kind, marker) && kind_at(tokens, a) == Some(SyntaxKind::NUMBER)
        && run_end(tokens, c, tail) - c >= 3
}

/// One of the three letters of an ed command.
pub open spec fn is_command_letter(kind: Option<SyntaxKind>) -> bool {
    kind == Some(SyntaxKind::LETTER_A) || kind == Some(SyntaxKind::LETTER_C) || kind == Some(
        SyntaxKind::LETTER_D,
    )
}

/// The line of an ed command: a range that starts with a number, and a
/// letter.
pub open spec fn ed_command_spec(tokens: Seq<(SyntaxKind, Seq<u8>)>, cursor: int) -> bool {
    kind_at(tokens, cursor) == Some(SyntaxKind::NUMBER) && is_command_letter(
        kind_at(tokens, run_end(tokens, cursor, Class::Range)),
    )
}

/// The line of a normal diff: as an ed command, with a number behind the
/// letter.
pub open spec fn normal_diff_spec(tokens: Seq<(SyntaxKind, Seq<u8>)>, cursor: int) -> bool {
    ed_command_spec(tokens, cursor) && kind_at(
        tokens,
        run_end(tokens, cursor, Class::Range) + 1,
    ) == Some(SyntaxKind::NUMBER)
}

/// The parser: the tokens, the index of the next one, and the tree built
/// from the tokens before it.
pub struct Parser<'a> {
    tokens: Vec<(SyntaxKind, &'a str)>,
    cursor: usize,
    builder: TreeBuilder,
    errors: Vec<String>,
}

impl<'a> Parser<'a> {
    /// The tokens, each as its kind and the bytes of its text.
    pub closed spec fn tokens(&self) -> Seq<(SyntaxKind, Seq<u8>)> {
        token_views(self.tokens@)
    }

    /// The index of the next token.
    pub closed spec fn pos(&self) -> int {
        self.cursor as int
    }

    /// The builder of the tree.
    pub closed spec fn tree(&self) -> TreeBuilder {
        self.builder
    }

    /// The elements that are finished and stand below no finished node.
    pub open spec fn built(&self) -> Seq<Elem> {
        self.tree().children()
    }

    /// The number of errors recorded.
    pub closed spec fn error_count(&self) -> nat {
        self.errors@.len()
    }

    /// The tree built so far covers exactly the tokens read so far, and the
    /// text of all tokens can be counted in 32 bits.
    #[verifier::opaque]
    pub open spec fn covers(&self) -> bool {
        &&& self.tree().wf()
        &&& self.tree().text() == text_upto(self.tokens(), self.pos())
        &&& text_upto(self.tokens(), self.tokens().len() as int).len() <= u32::MAX
    }

    /// The parser stands within its tokens, and its tree covers the tokens
    /// before that place.
    pub open spec fn wf(&self) -> bool {
        &&& 0 <= self.pos() <= self.tokens().len()
        &&& self.covers()
    }

    /// What every step of the parser keeps: the tokens, the open nodes and
    /// the absence of errors.
    pub open spec fn keeps(&self, before: &Self) -> bool {
        &&& self.wf()
        &&& self.tokens() == before.tokens()
        &&& self.tree().parents() == before.tree().parents()
        &&& self.error_count() == before.error_count()
    }

    /// The parser has made the step `step` from the state `before`: it has
    /// added the elements of the step and stands where the step ends.
    pub open spec fn stepped(&self, before: &Self, step: Step) -> bool {
        &&& self.keeps(before)
        &&& self.built() == before.built() + step.elems
        &&& self.pos() == step.end
    }

    /// A parser at the first of `tokens`.
    pub fn new(tokens: Vec<(SyntaxKind, &'a str)>) -> (r: Self)
        requires
            text_upto(token_views(tokens@), tokens@.len() as int).len() <= u32::MAX,
        ensures
            r.wf(),
            r.tokens() == token_views(tokens@),
            r.pos() == 0,
            r.error_count() == 0,
            r.built() == Seq::<Elem>::empty(),
            r.tree().parents() == Seq::<(u16, nat)>::empty(),
    {
        reveal(Parser::covers);
        Self { tokens, cursor: 0, builder: TreeBuilder::new(), errors: Vec::new() }
    }

    /// Opens a node.
    fn start_node(&mut self, kind: SyntaxKind)
        requires
            old(self).wf(),
        ensures
            final(self).wf(),
            final(self).tokens() == old(self).tokens(),
            final(self).pos() == old(self).pos(),
            final(self).error_count() == old(self).error_count(),
            final(self).built() == old(self).built(),
            final(self).tree().parents().len() > 0,
            final(self).tree().parents().drop_last() == old(self).tree().parents(),
            final(self).tree().parents().last() == (kind.raw(), old(self).built().len()),
    {
        reveal(Parser::covers);
        proof {
            let x = (kind.raw(), self.tree().children().len());
            assert(self.tree().parents().push(x).drop_last() =~= self.tree().parents());
        }
        self.builder.start_node(kind.to_raw());
    }

    /// Opens a node at a mark.
    fn start_node_at(&mut self, checkpoint: rowan::Checkpoint, kind: SyntaxKind)
        requires
            old(self).wf(),
            checkpoint_index(checkpoint) <= old(self).built().len(),
            old(self).tree().parents().len() > 0 ==> old(self).tree().parents().last().1
                <= checkpoint_index(checkpoint),
        ensures
            final(self).wf(),
            final(self).tokens() == old(self).tokens(),
            final(self).pos() == old(self).pos(),
            final(self).error_count() == old(self).error_count(),
            final(self).built() == old(self).built(),
            final(self).tree().parents().len() > 0,
            final(self).tree().parents().drop_last() == old(self).tree().parents(),
            final(self).tree().parents().last() == (kind.raw(), checkpoint_index(checkpoint)),
    {
        reveal(Parser::covers);
        proof {
            let x = (kind.raw(), checkpoint_index(checkpoint));
            assert(self.tree().parents().push(x).drop_last() =~= self.tree().parents());
        }
        self.builder.start_node_at(checkpoint, kind.to_raw());
    }

    /// A mark behind what is finished.
    fn checkpoint(&self) -> (c: rowan::Checkpoint)
        requires
            self.wf(),
        ensures
            checkpoint_index(c) == self.built().len(),
            self.tree().parents().len() > 0 ==> self.tree().parents().last().1
                <= checkpoint_index(c),
    {
        reveal(Parser::covers);
        self.builder.checkpoint()
    }

    /// Closes the innermost open node, which was opened behind the
    /// elements `base`: what has been added since becomes its children.
    fn finish_node(&mut self, Ghost(base): Ghost<Seq<Elem>>, Ghost(inner): Ghost<Seq<Elem>>)
        requires
            old(self).wf(),
            old(self).tree().parents().len() > 0,
            old(self).tree().parents().last().1 == base.len(),
            old(self).built() == base + inner,
        ensures
            final(self).wf(),
            final(self).tokens() == old(self).tokens(),
            final(self).pos() == old(self).pos(),
            final(self).error_count() == old(self).error_count(),
            final(self).tree().parents() == old(self).tree().parents().drop_last(),
            final(self).built() == base + seq![
                Elem::Node(Tree { kind: old(self).tree().parents().last().0, children: inner }),
            ],
    {
        reveal(Parser::covers);
        proof {
            assert((base + inner).subrange(0, base.len() as int) =~= base);
            assert((base + inner).subrange(base.len() as int, (base + inner).len() as int)
                =~= inner);
        }
        self.builder.finish_node();
        proof {
            let made = Elem::Node(
                Tree { kind: old(self).tree().parents().last().0, children: inner },
            );
            assert(base.push(made) =~= base + seq![made]);
        }
    }

    /// The kind of the token `offset` tokens ahead.
    fn peek_kind(&self, offset: usize) -> (r: Option<SyntaxKind>)
        requires
            self.wf(),
        ensures
            r == kind_at(self.tokens(), self.pos() + offset),
    {
        if offset < self.tokens.len() - self.cursor {
            Some(self.tokens[self.cursor + offset].0)
        } else {
            None
        }
    }

    /// The kind of the next token.
    fn current_kind(&self) -> (r: Option<SyntaxKind>)
        requires
            self.wf(),
        ensures
            r == kind_at(self.tokens(), self.pos()),
    {
        self.peek_kind(0)
    }

    /// Whether the next token is of kind `kind`.
    fn at(&self, kind: SyntaxKind) -> (r: bool)
        requires
            self.wf(),
        ensures
            r == at_kind(self.tokens(), self.pos(), kind),
    {
        match self.current_kind() {
            Some(k) => k == kind,
            None => false,
        }
    }

    /// Whether no token is left.
    fn at_end(&self) -> (r: bool)
        requires
            self.wf(),
        ensures
            r == (self.pos() >= self.tokens().len()),
    {
        self.cursor >= self.tokens.len()
    }

    /// The marker that a text starts with.
    fn marker(text: &Vec<u8>) -> (r: Option<&'static [u8]>)
        ensures
            match marker_of(text@) {
                Some(m) => r is Some && r.unwrap()@ == m,
                None => r is None,
            },
    {
        if text.len() >= 2 && starts_with(text.as_slice(), DASHES.as_slice()) {
            Some(DASHES.as_slice())
        } else if text.len() >= 2 && starts_with(text.as_slice(), PLUSES.as_slice()) {
            Some(PLUSES.as_slice())
        } else if text.len() >= 2 && starts_with(text.as_slice(), ATS.as_slice()) {
            Some(ATS.as_slice())
        } else if text.len() >= 3 && starts_with(text.as_slice(), STARS.as_slice()) {
            Some(STARS.as_slice())
        } else {
            None
        }
    }

    /// What stands `offset` tokens ahead: a marker, or the text of a token.
    fn peek_text(&self, offset: usize) -> (r: Option<&[u8]>)
        requires
            self.wf(),
            offset <= 3,
        ensures
            match peek_spec(self.tokens(), self.pos(), offset as int) {
                Some(text) => r is Some && r.unwrap()@ == text,
                None => r is None,
            },
    {
        let len = self.tokens.len();
        let left = len - self.cursor;
        let mut text: Vec<u8> = Vec::new();
        if offset < left {
            let start = self.cursor + offset;
            crate::bytes::extend(&mut text, self.tokens[start].1.as_bytes());
            assert(text@ =~= self.tokens()[start as int].1);
            if let Some(m) = Self::marker(&text) {
                return Some(m);
            }
            if offset + 1 < left {
                crate::bytes::extend(&mut text, self.tokens[start + 1].1.as_bytes());
                if let Some(m) = Self::marker(&text) {
                    return Some(m);
                }
                if offset + 2 < left {
                    crate::bytes::extend(&mut text, self.tokens[start + 2].1.as_bytes());
                    if let Some(m) = Self::marker(&text) {
                        return Some(m);
                    }
                }
            }
        }
        if offset < left && offset < left - offset {
            Some(self.tokens[self.cursor + offset + offset].1.as_bytes())
        } else {
            None
        }
    }

    /// Whether the next token is of kind `kind` and starts the marker
    /// `marker`.
    fn at_mark(&self, kind: SyntaxKind, marker: &[u8]) -> (r: bool)
        requires
            self.wf(),
        ensures
            r == at_marker(self.tokens(), self.pos(), kind, marker@),
    {
        if !self.at(kind) {
            return false;
        }
        match self.peek_text(0) {
            Some(text) => equal(text, marker),
            None => false,
        }
    }

    /// The index behind the run of tokens of class `class` that starts
    /// `offset` tokens ahead.
    fn run(&self, offset: usize, class: Class) -> (r: usize)
        requires
            self.wf(),
            self.pos() + offset <= self.tokens().len(),
        ensures
            self.pos() + r == run_end(self.tokens(), self.pos() + offset, class),
            offset <= r,
            self.pos() + r <= self.tokens().len(),
    {
        let mut end: usize = offset;
        while end < self.tokens.len() - self.cursor && class.contains(
            self.tokens[self.cursor + end].0,
        )
            invariant
                self.wf(),
                offset <= end,
                self.pos() + end <= self.tokens().len(),
                run_end(self.tokens(), self.pos() + offset, class) == run_end(
                    self.tokens(),
                    self.pos() + end,
                    class,
                ),
            decreases self.tokens.len() - self.cursor - end,
        {
            end += 1;
        }
        end
    }

    /// Puts the next token into the tree, if there is one.
    fn advance(&mut self)
        requires
            old(self).wf(),
        ensures
            final(self).stepped(
                old(self),
                plain(
                    old(self).tokens(),
                    old(self).pos(),
                    ahead(old(self).tokens(), old(self).pos(), 1),
                ),
            ),
    {
        reveal(Parser::covers);
        if self.cursor < self.tokens.len() {
            let (kind, text) = self.tokens[self.cursor];
            proof {
                lemma_text_upto_grows(
                    self.tokens(),
                    self.pos() + 1,
                    self.tokens().len() as int,
                );
            }
            self.builder.token(kind.to_raw(), text);
            self.cursor += 1;
            proof {
                let e = token_elem(old(self).tokens(), old(self).pos());
                lemma_span_short(old(self).tokens(), old(self).pos());
                assert(old(self).built().push(e) =~= old(self).built() + seq![e]);
            }
        } else {
            proof {
                lemma_span_short(old(self).tokens(), old(self).pos());
                lemma_groups(self.built(), Seq::empty(), Seq::empty(), Seq::empty(), Seq::empty());
            }
        }
    }

    /// Puts the tokens up to index `end` into the tree as one token of kind
    /// `PATH`.
    fn emit_path(&mut self, end: usize)
        requires
            old(self).wf(),
            old(self).pos() < end <= old(self).tokens().len(),
        ensures
            final(self).keeps(old(self)),
            final(self).pos() == end,
            final(self).built() == old(self).built() + seq![
                Elem::Token(
                    SyntaxKind::PATH.raw(),
                    text_between(old(self).tokens(), old(self).pos(), end as int),
                ),
            ],
    {
        reveal(Parser::covers);
        let mut path = String::new();
        let mut i: usize = self.cursor;
        proof {
            assert(encode_utf8(path@) =~= Seq::<u8>::empty());
        }
        while i < end
            invariant
                self.wf(),
                self.pos() <= i <= end <= self.tokens().len(),
                encode_utf8(path@) == text_between(self.tokens(), self.pos(), i as int),
            decreases end - i,
        {
            let ghost before = path@;
            let part = self.tokens[i].1;
            path.append(part);
            proof {
                lemma_encode_append(before, part@);
            }
            i += 1;
        }
        proof {
            lemma_text_upto_split(self.tokens(), self.pos(), end as int);
            lemma_text_upto_grows(self.tokens(), end as int, self.tokens().len() as int);
        }
        self.builder.token(SyntaxKind::PATH.to_raw(), path.as_str());
        self.cursor = end;
        proof {
            let e = Elem::Token(
                SyntaxKind::PATH.raw(),
                text_between(old(self).tokens(), old(self).pos(), end as int),
            );
            assert(old(self).built().push(e) =~= old(self).built() + seq![e]);
        }
    }

    /// Puts the run of tokens of class `class` into the tree.
    fn eat(&mut self, class: Class)
        requires
            old(self).wf(),
        ensures
            final(self).stepped(
                old(self),
                plain(
                    old(self).tokens(),
                    old(self).pos(),
                    run_end(old(self).tokens(), old(self).pos(), class),
                ),
            ),
    {
        let ghost tokens = self.tokens();
        let ghost start = self.pos();
        proof {
            lemma_span_short(tokens, start);
            lemma_groups(self.built(), Seq::empty(), Seq::empty(), Seq::empty(), Seq::empty());
        }
        loop
            invariant
                self.keeps(old(self)),
                tokens == self.tokens(),
                start == old(self).pos(),
                start <= self.pos(),
                self.built() == old(self).built() + span(tokens, start, self.pos()),
                run_end(tokens, start, class) == run_end(tokens, self.pos(), class),
            ensures
                self.keeps(old(self)),
                self.built() == old(self).built() + span(tokens, start, self.pos()),
                self.pos() == run_end(tokens, start, class),
            decreases self.tokens().len() - self.pos(),
        {
            match self.current_kind() {
                Some(kind) => {
                    if !class.contains(kind) {
                        break ;
                    }
                },
                None => {
                    break ;
                },
            }
            let ghost at = self.pos();
            self.advance();
            proof {
                lemma_span_extend(old(self).built(), tokens, start, at, at + 1);
            }
        }
    }

    /// Puts the blanks before the next token into the tree.
    fn skip_whitespace(&mut self)
        requires
            old(self).wf(),
        ensures
            final(self).stepped(
                old(self),
                plain(
                    old(self).tokens(),
                    old(self).pos(),
                    run_end(old(self).tokens(), old(self).pos(), Class::Blank),
                ),
            ),
    {
        self.eat(Class::Blank);
    }

    /// Puts the rest of the line into the tree, with the `NEWLINE` that
    /// ends it.
    fn skip_to_eol(&mut self)
        requires
            old(self).wf(),
        ensures
            final(self).stepped(
                old(self),
                plain(
                    old(self).tokens(),
                    old(self).pos(),
                    line_end(old(self).tokens(), old(self).pos()),
                ),
            ),
    {
        let ghost tokens = self.tokens();
        let ghost start = self.pos();
        proof {
            lemma_run_end(tokens, start, Class::InLine);
        }
        self.eat(Class::InLine);
        let ghost mid = self.pos();
        if self.at(SyntaxKind::NEWLINE) {
            self.advance();
            proof {
                lemma_span_extend(old(self).built(), tokens, start, mid, mid + 1);
            }
        }
    }

    /// As `skip_to_eol`: what the parser does with a line that it cannot
    /// place.
    fn skip_to_next_line(&mut self)
        requires
            old(self).wf(),
        ensures
            final(self).stepped(
                old(self),
                plain(
                    old(self).tokens(),
                    old(self).pos(),
                    line_end(old(self).tokens(), old(self).pos()),
                ),
            ),
    {
        self.skip_to_eol();
    }

    /// Whether a hunk ends here.
    fn is_hunk_end(&self) -> (r: bool)
        requires
            self.wf(),
        ensures
            r == hunk_end_spec(self.tokens(), self.pos()),
    {
        self.at_mark(SyntaxKind::AT, ATS.as_slice()) || self.at_mark(
            SyntaxKind::MINUS,
            DASHES.as_slice(),
        ) || self.at_mark(SyntaxKind::PLUS, PLUSES.as_slice())
    }

    /// Whether a line of an ed command starts here.
    fn looks_like_ed_command(&self) -> (r: bool)
        requires
            self.wf(),
        ensures
            r == ed_command_spec(self.tokens(), self.pos()),
    {
        match self.peek_kind(0) {
            Some(SyntaxKind::NUMBER) => {},
            _ => {
                return false;
            },
        }
        let offset = self.run(0, Class::Range);
        match self.peek_kind(offset) {
            Some(SyntaxKind::LETTER_A) | Some(SyntaxKind::LETTER_C) | Some(
                SyntaxKind::LETTER_D,
            ) => true,
            _ => false,
        }
    }

    /// Whether a line of a normal diff starts here.
    fn looks_like_normal_diff(&self) -> (r: bool)
        requires
            self.wf(),
        ensures
            r == normal_diff_spec(self.tokens(), self.pos()),
    {
        if !self.looks_like_ed_command() {
            return false;
        }
        let offset = self.run(0, Class::Range);
        let left = self.tokens.len() - self.cursor;
        assert(offset < left);
        match self.peek_kind(offset + 1) {
            Some(SyntaxKind::NUMBER) => true,
            _ => false,
        }
    }

    /// Whether a separator between context hunks starts here.
    fn looks_like_context_hunk_separator(&self) -> (r: bool)
        requires
            self.wf(),
        ensures
            r == hunk_separator_spec(self.tokens(), self.pos()),
    {
        let end = self.run(0, Class::Star);
        end >= 15 && (match self.peek_kind(end) {
            Some(SyntaxKind::NEWLINE) | None => true,
            _ => false,
        })
    }

    /// Whether the line of a section starts here.
    fn looks_like_section(&self, kind: SyntaxKind, marker: &[u8], tail: Class) -> (r: bool)
        requires
            self.wf(),
        ensures
            r == section_header_spec(self.tokens(), self.pos(), kind, marker@, tail),
    {
        if !self.at_mark(kind, marker) {
            return false;
        }
        if self.tokens.len() - self.cursor < 3 {
            proof {
                let tokens = self.tokens();
                let a = run_end(tokens, self.pos() + 3, Class::Blank);
                assert(a == self.pos() + 3);
                assert(kind_at(tokens, a) is None);
            }
            return false;
        }
        let a = self.run(3, Class::Blank);
        match self.peek_kind(a) {
            Some(SyntaxKind::NUMBER) => {},
            _ => {
                return false;
            },
        }
        let b = self.run(a, Class::Range);
        let c = self.run(b, Class::Blank);
        let d = self.run(c, tail);
        d - c >= 3
    }

    /// Whether the line of the old section of a context hunk starts here:
    /// `*** 1,4 ****`.
    fn looks_like_context_hunk_range(&self) -> (r: bool)
        requires
            self.wf(),
        ensures
            r == section_header_spec(
                self.tokens(),
                self.pos(),
                SyntaxKind::STAR,
                STARS@,
                Class::Star,
            ),
    {
        self.looks_like_section(SyntaxKind::STAR, STARS.as_slice(), Class::Star)
    }

    /// Whether the line of the new section of a context hunk starts here:
    /// `--- 1,4 ----`.
    fn looks_like_context_new_section(&self) -> (r: bool)
        requires
            self.wf(),
        ensures
            r == section_header_spec(
                self.tokens(),
                self.pos(),
                SyntaxKind::MINUS,
                DASHES@,
                Class::Minus,
            ),
    {
        self.looks_like_section(SyntaxKind::MINUS, DASHES.as_slice(), Class::Minus)
    }

    /// Whether a section of a context hunk ends here.
    fn is_context_section_end(&self) -> (r: bool)
        requires
            self.wf(),
        ensures
            r == section_end_spec(self.tokens(), self.pos()),
    {
        if self.at_mark(SyntaxKind::MINUS, DASHES.as_slice()) {
            return true;
        }
        if !self.at(SyntaxKind::STAR) {
            return false;
        }
        let stars = match self.peek_text(0) {
            Some(text) => equal(text, STARS.as_slice()),
            None => false,
        };
        stars || self.looks_like_context_hunk_separator()
    }

    /// Reads the path of a header: the run of tokens of class `class`
    /// becomes one `PATH` token.
    fn parse_path(&mut self, class: Class)
        requires
            old(self).wf(),
        ensures
            final(self).stepped(old(self), path_step(old(self).tokens(), old(self).pos(), class)),
    {
        let end = self.run(0, class);
        let left = self.tokens.len() - self.cursor;
        if end > 0 {
            assert(end <= left);
            self.emit_path(self.cursor + end);
        } else {
            proof {
                lemma_groups(self.built(), Seq::empty(), Seq::empty(), Seq::empty(), Seq::empty());
            }
        }
    }

    /// Reads the path of a context header.
    fn parse_file_path(&mut self)
        requires
            old(self).wf(),
        ensures
            final(self).stepped(
                old(self),
                path_step(old(self).tokens(), old(self).pos(), Class::ContextPath),
            ),
    {
        self.parse_path(Class::ContextPath);
    }

    /// Puts the next two tokens into the tree.
    fn skip_two(&mut self)
        requires
            old(self).wf(),
        ensures
            final(self).stepped(
                old(self),
                plain(
                    old(self).tokens(),
                    old(self).pos(),
                    ahead(old(self).tokens(), old(self).pos(), 2),
                ),
            ),
    {
        let ghost tokens = self.tokens();
        let ghost i = self.pos();
        self.advance();
        let ghost first = self.pos();
        self.advance();
        proof {
            lemma_span_extend(old(self).built(), tokens, i, first, self.pos());
        }
    }

    /// Puts the next three tokens into the tree.
    fn skip_three(&mut self)
        requires
            old(self).wf(),
        ensures
            final(self).stepped(
                old(self),
                plain(
                    old(self).tokens(),
                    old(self).pos(),
                    ahead(old(self).tokens(), old(self).pos(), 3),
                ),
            ),
    {
        let ghost tokens = self.tokens();
        let ghost i = self.pos();
        self.skip_two();
        let ghost second = self.pos();
        self.advance();
        proof {
            lemma_span_extend(old(self).built(), tokens, i, second, self.pos());
        }
    }

    /// Puts the next three tokens and the blanks behind them into the
    /// tree: a marker at the start of a line.
    fn skip_marker(&mut self)
        requires
            old(self).wf(),
        ensures
            final(self).stepped(
                old(self),
                plain(
                    old(self).tokens(),
                    old(self).pos(),
                    run_end(
                        old(self).tokens(),
                        ahead(old(self).tokens(), old(self).pos(), 3),
                        Class::Blank,
                    ),
                ),
            ),
    {
        let ghost tokens = self.tokens();
        let ghost i = self.pos();
        self.skip_three();
        proof {
            lemma_run_end(tokens, self.pos(), Class::Blank);
        }
        let ghost third = self.pos();
        self.skip_whitespace();
        proof {
            lemma_span_extend(old(self).built(), tokens, i, third, self.pos());
        }
    }

    /// Reads a header line of a unified diff into a node of kind `kind`:
    /// the three signs, blanks, the path, and the rest of the line.
    fn parse_header_line(&mut self, kind: SyntaxKind)
        requires
            old(self).wf(),
        ensures
            final(self).stepped(
                old(self),
                header_step(old(self).tokens(), old(self).pos(), kind, Class::Path),
            ),
    {
        let ghost tokens = self.tokens();
        let ghost i = self.pos();
        let ghost base = self.built();
        self.start_node(kind);
        self.skip_marker();
        self.parse_path(Class::Path);
        self.skip_to_eol();
        let ghost blanks = run_end(tokens, ahead(tokens, i, 3), Class::Blank);
        let ghost path = path_step(tokens, blanks, Class::Path);
        let ghost inner = span(tokens, i, blanks) + path.elems + span(
            tokens,
            path.end,
            line_end(tokens, path.end),
        );
        proof {
            lemma_groups(
                base,
                span(tokens, i, blanks),
                path.elems,
                span(tokens, path.end, line_end(tokens, path.end)),
                Seq::empty(),
            );
        }
        self.finish_node(Ghost(base), Ghost(inner));
    }

    /// Reads the header of the old file: `--- path`.
    fn parse_old_file(&mut self)
        requires
            old(self).wf(),
        ensures
            final(self).stepped(
                old(self),
                header_step(
                    old(self).tokens(),
                    old(self).pos(),
                    SyntaxKind::OLD_FILE,
                    Class::Path,
                ),
            ),
    {
        self.parse_header_line(SyntaxKind::OLD_FILE);
    }

    /// Reads the header of the new file: `+++ path`.
    fn parse_new_file(&mut self)
        requires
            old(self).wf(),
        ensures
            final(self).stepped(
                old(self),
                header_step(
                    old(self).tokens(),
                    old(self).pos(),
                    SyntaxKind::NEW_FILE,
                    Class::Path,
                ),
            ),
    {
        self.parse_header_line(SyntaxKind::NEW_FILE);
    }

    /// Reads a range: a sign, a number, and a comma with a second number.
    fn parse_hunk_range(&mut self)
        requires
            old(self).wf(),
        ensures
            final(self).stepped(old(self), range_step(old(self).tokens(), old(self).pos())),
    {
        let ghost tokens = self.tokens();
        let ghost i = self.pos();
        let ghost base = self.built();
        self.start_node(SyntaxKind::HUNK_RANGE);
        self.advance();
        let ghost a = self.pos();
        assert(self.built() == base + span(tokens, i, a));
        if self.at(SyntaxKind::NUMBER) {
            self.advance();
            proof {
                lemma_span_extend(base, tokens, i, a, a + 1);
            }
        }
        let ghost b = self.pos();
        assert(self.built() == base + span(tokens, i, b));
        if self.at(SyntaxKind::COMMA) {
            self.advance();
            proof {
                lemma_span_extend(base, tokens, i, b, b + 1);
            }
            if self.at(SyntaxKind::NUMBER) {
                self.advance();
                proof {
                    lemma_span_extend(base, tokens, i, b + 1, b + 2);
                }
            }
        }
        assert(self.pos() == range_end(tokens, i));
        assert(self.built() == base + span(tokens, i, self.pos()));
        self.finish_node(Ghost(base), Ghost(span(tokens, i, range_end(tokens, i))));
    }

    /// Reads the blanks and, if a token of kind `sign` follows them, a
    /// range.
    fn parse_signed_range(&mut self, sign: SyntaxKind)
        requires
            old(self).wf(),
        ensures
            final(self).stepped(
                old(self),
                signed_range_step(old(self).tokens(), old(self).pos(), sign),
            ),
    {
        let ghost tokens = self.tokens();
        let ghost i = self.pos();
        self.skip_whitespace();
        if self.at(sign) {
            self.parse_hunk_range();
            proof {
                let blanks = run_end(tokens, i, Class::Blank);
                lemma_groups(
                    old(self).built(),
                    span(tokens, i, blanks),
                    range_step(tokens, blanks).elems,
                    Seq::empty(),
                    Seq::empty(),
                );
            }
        }
    }

    /// Puts the blanks, two tokens of a marker if an `AT` token starts it,
    /// and the rest of the line into the tree.
    fn skip_closing(&mut self)
        requires
            old(self).wf(),
        ensures
            final(self).stepped(
                old(self),
                plain(
                    old(self).tokens(),
                    old(self).pos(),
                    closing_end(old(self).tokens(), old(self).pos()),
                ),
            ),
    {
        let ghost tokens = self.tokens();
        let ghost i = self.pos();
        proof {
            lemma_run_end(tokens, i, Class::Blank);
        }
        self.skip_whitespace();
        let ghost blanks = self.pos();
        if self.at(SyntaxKind::AT) {
            self.skip_two();
            proof {
                lemma_span_extend(old(self).built(), tokens, i, blanks, self.pos());
            }
        }
        let ghost closed = self.pos();
        proof {
            lemma_line_end(tokens, closed);
        }
        self.skip_to_eol();
        proof {
            lemma_span_extend(old(self).built(), tokens, i, closed, self.pos());
        }
    }

    /// Reads the header of a hunk: `@@ -1,3 +1,4 @@` and the rest of the
    /// line.
    fn parse_hunk_header(&mut self)
        requires
            old(self).wf(),
        ensures
            final(self).stepped(old(self), hunk_header_step(old(self).tokens(), old(self).pos())),
    {
        let ghost tokens = self.tokens();
        let ghost i = self.pos();
        let ghost base = self.built();
        self.start_node(SyntaxKind::HUNK_HEADER);
        self.skip_two();
        self.parse_signed_range(SyntaxKind::MINUS);
        self.parse_signed_range(SyntaxKind::PLUS);
        self.skip_closing();
        let ghost first = ahead(tokens, i, 2);
        let ghost old_range = signed_range_step(tokens, first, SyntaxKind::MINUS);
        let ghost new_range = signed_range_step(tokens, old_range.end, SyntaxKind::PLUS);
        let ghost tail = span(tokens, new_range.end, closing_end(tokens, new_range.end));
        let ghost inner = span(tokens, i, first) + old_range.elems + new_range.elems + tail;
        proof {
            lemma_groups(base, span(tokens, i, first), old_range.elems, new_range.elems, tail);
        }
        self.finish_node(Ghost(base), Ghost(inner));
    }

    /// Reads one line into a node whose kind the first token decides. An
    /// exclamation mark starts a line of its own kind in a context diff only.
    fn parse_line(&mut self, context_diff: bool)
        requires
            old(self).wf(),
        ensures
            final(self).stepped(
                old(self),
                line_step(old(self).tokens(), old(self).pos(), context_diff),
            ),
    {
        let ghost tokens = self.tokens();
        let ghost i = self.pos();
        let ghost base = self.built();
        let checkpoint = self.checkpoint();
        match self.current_kind() {
            Some(SyntaxKind::SPACE) => {
                self.start_node_at(checkpoint, SyntaxKind::CONTEXT_LINE);
                self.advance();
            },
            Some(SyntaxKind::PLUS) => {
                self.start_node_at(checkpoint, SyntaxKind::ADD_LINE);
                self.advance();
            },
            Some(SyntaxKind::MINUS) => {
                self.start_node_at(checkpoint, SyntaxKind::DELETE_LINE);
                self.advance();
            },
            Some(SyntaxKind::EXCLAMATION) => {
                if context_diff {
                    self.start_node_at(checkpoint, SyntaxKind::CONTEXT_CHANGE_LINE);
                    self.advance();
                } else {
                    self.start_node_at(checkpoint, SyntaxKind::CONTEXT_LINE);
                }
            },
            _ => {
                self.start_node_at(checkpoint, SyntaxKind::CONTEXT_LINE);
            },
        }
        let ghost first = self.pos();
        proof {
            lemma_span_short(tokens, i);
            lemma_groups(base, Seq::empty(), Seq::empty(), Seq::empty(), Seq::empty());
            assert(self.built() == base + span(tokens, i, first));
            lemma_line_end(tokens, first);
            if first > i {
                assert(tokens[i].0 != SyntaxKind::NEWLINE);
                assert(line_end(tokens, i) == line_end(tokens, first));
            }
        }
        self.skip_to_eol();
        let ghost inner = span(tokens, i, line_end(tokens, i));
        proof {
            lemma_span_extend(base, tokens, i, first, line_end(tokens, i));
        }
        self.finish_node(Ghost(base), Ghost(inner));
    }

    /// Reads a line of a hunk of a unified diff.
    fn parse_hunk_line(&mut self)
        requires
            old(self).wf(),
        ensures
            final(self).stepped(old(self), line_step(old(self).tokens(), old(self).pos(), false)),
    {
        self.parse_line(false);
    }

    /// Reads a line of a section of a context hunk.
    fn parse_context_line(&mut self)
        requires
            old(self).wf(),
        ensures
            final(self).stepped(old(self), line_step(old(self).tokens(), old(self).pos(), true)),
    {
        self.parse_line(true);
    }

    /// Reads the lines of a hunk, up to where the hunk ends or, in a
    /// context diff, the section.
    fn parse_lines(&mut self, context_diff: bool)
        requires
            old(self).wf(),
        ensures
            final(self).stepped(
                old(self),
                lines_step(old(self).tokens(), old(self).pos(), context_diff),
            ),
    {
        let ghost tokens = self.tokens();
        let ghost whole = lines_step(tokens, self.pos(), context_diff);
        let ghost mut done: Seq<Elem> = Seq::empty();
        proof {
            lemma_groups(self.built(), whole.elems, Seq::empty(), Seq::empty(), Seq::empty());
        }
        loop
            invariant
                self.keeps(old(self)),
                tokens == self.tokens(),
                self.built() == old(self).built() + done,
                whole.elems == done + lines_step(tokens, self.pos(), context_diff).elems,
                whole.end == lines_step(tokens, self.pos(), context_diff).end,
            ensures
                self.keeps(old(self)),
                self.built() == old(self).built() + whole.elems,
                self.pos() == whole.end,
            decreases self.tokens().len() - self.pos(),
        {
            let stop = self.at_end() || if context_diff {
                self.is_context_section_end()
            } else {
                self.is_hunk_end()
            };
            if stop {
                proof {
            lemma_groups(done, Seq::empty(), Seq::empty(), Seq::empty(), Seq::empty());
        }
                break ;
            }
            let ghost at = self.pos();
            proof {
                lemma_line_end(tokens, at);
            }
            if context_diff {
                self.parse_context_line();
            } else {
                self.parse_hunk_line();
            }
            proof {
                let line = line_step(tokens, at, context_diff).elems;
                let rest = lines_step(tokens, line_end(tokens, at), context_diff).elems;
                lemma_groups(done, line, rest, Seq::empty(), Seq::empty());
                lemma_groups(old(self).built(), done, line, Seq::empty(), Seq::empty());
                done = done + line;
            }
        }
    }

    /// Puts the lines up to the next hunk or file into the tree as they
    /// are.
    fn skip_lines(&mut self)
        requires
            old(self).wf(),
        ensures
            final(self).stepped(
                old(self),
                plain(
                    old(self).tokens(),
                    old(self).pos(),
                    skipped_end(old(self).tokens(), old(self).pos()),
                ),
            ),
    {
        let ghost tokens = self.tokens();
        let ghost start = self.pos();
        proof {
            lemma_span_short(tokens, start);
            lemma_groups(self.built(), Seq::empty(), Seq::empty(), Seq::empty(), Seq::empty());
        }
        while !self.at_end() && !self.is_hunk_end()
            invariant
                self.keeps(old(self)),
                tokens == self.tokens(),
                start == old(self).pos(),
                start <= self.pos(),
                self.built() == old(self).built() + span(tokens, start, self.pos()),
                skipped_end(tokens, start) == skipped_end(tokens, self.pos()),
            decreases self.tokens().len() - self.pos(),
        {
            let ghost at = self.pos();
            proof {
                lemma_line_end(tokens, at);
            }
            self.skip_to_next_line();
            proof {
                lemma_span_extend(old(self).built(), tokens, start, at, line_end(tokens, at));
            }
        }
    }

        /// Reads a hunk of a unified diff. A header without a range is no
    /// hunk: its line and the lines up to the next hunk or file are put into
    /// an `ERROR` node.
    fn parse_hunk(&mut self)
        requires
            old(self).wf(),
        ensures
            final(self).stepped(old(self), hunk_step(old(self).tokens(), old(self).pos())),
    {
        let ghost tokens = self.tokens();
        let ghost i = self.pos();
        let ghost base = self.built();
        let checkpoint = self.checkpoint();
        let left = self.tokens.len() - self.cursor;
        let has_valid_range = if left < 2 {
            false
        } else {
            let at = self.run(2, Class::Blank);
            let sign = match self.peek_kind(at) {
                Some(SyntaxKind::MINUS) | Some(SyntaxKind::PLUS) => true,
                _ => false,
            };
            sign && at < left && (match self.peek_kind(at + 1) {
                Some(SyntaxKind::NUMBER) => true,
                _ => false,
            })
        };
        assert(has_valid_range == has_range(tokens, i));
                if !has_valid_range {
            self.start_node_at(checkpoint, SyntaxKind::ERROR);
            self.skip_to_next_line();
            proof {
                lemma_line_end(tokens, i);
                lemma_lines(tokens, line_end(tokens, i), false);
            }
            self.skip_lines();
            proof {
                let head = line_end(tokens, i);
                let end = skipped_end(tokens, head);
                                lemma_span_extend(base, tokens, i, head, end);
            }
            let ghost skipped = span(tokens, i, skipped_end(tokens, line_end(tokens, i)));
            self.finish_node(Ghost(base), Ghost(skipped));
            return ;
        }
        self.start_node_at(checkpoint, SyntaxKind::HUNK);
        self.parse_hunk_header();
        self.parse_lines(false);
        let ghost header = hunk_header_step(tokens, i);
        let ghost inner = header.elems + lines_step(tokens, header.end, false).elems;
        proof {
            lemma_groups(
                base,
                header.elems,
                lines_step(tokens, header.end, false).elems,
                Seq::empty(),
                Seq::empty(),
            );
        }
        self.finish_node(Ghost(base), Ghost(inner));
    }

    /// Reads the hunks of a file of a unified diff.
    fn parse_hunks(&mut self)
        requires
            old(self).wf(),
        ensures
            final(self).stepped(old(self), hunks_step(old(self).tokens(), old(self).pos())),
    {
        let ghost tokens = self.tokens();
        let ghost whole = hunks_step(tokens, self.pos());
        let ghost mut done: Seq<Elem> = Seq::empty();
        proof {
            lemma_groups(self.built(), whole.elems, Seq::empty(), Seq::empty(), Seq::empty());
        }
        while self.at_mark(SyntaxKind::AT, ATS.as_slice())
            invariant
                self.keeps(old(self)),
                tokens == self.tokens(),
                self.built() == old(self).built() + done,
                whole.elems == done + hunks_step(tokens, self.pos()).elems,
                whole.end == hunks_step(tokens, self.pos()).end,
            decreases self.tokens().len() - self.pos(),
        {
            let ghost at = self.pos();
            proof {
                lemma_hunk(tokens, at);
            }
            self.parse_hunk();
            proof {
                let hunk = hunk_step(tokens, at);
                let rest = hunks_step(tokens, hunk.end).elems;
                lemma_groups(done, hunk.elems, rest, Seq::empty(), Seq::empty());
                lemma_groups(old(self).built(), done, hunk.elems, Seq::empty(), Seq::empty());
                done = done + hunk.elems;
            }
        }
        proof {
            lemma_groups(done, Seq::empty(), Seq::empty(), Seq::empty(), Seq::empty());
        }
    }

    /// Reads the patch of one file of a unified diff: the two headers, as
    /// far as they are there, and the hunks.
    fn parse_patch_file(&mut self)
        requires
            old(self).wf(),
        ensures
            final(self).stepped(old(self), patch_file_step(old(self).tokens(), old(self).pos())),
    {
        let ghost tokens = self.tokens();
        let ghost i = self.pos();
        let ghost base = self.built();
        self.start_node(SyntaxKind::PATCH_FILE);
        if self.at_mark(SyntaxKind::MINUS, DASHES.as_slice()) {
            self.parse_old_file();
        } else {
            proof {
                lemma_groups(self.built(), Seq::empty(), Seq::empty(), Seq::empty(), Seq::empty());
            }
        }
        let ghost old_file = marked_header_step(
            tokens,
            i,
            SyntaxKind::MINUS,
            DASHES@,
            SyntaxKind::OLD_FILE,
            Class::Path,
        );
        assert(self.built() == base + old_file.elems);
        let ghost before = self.built();
        if self.at_mark(SyntaxKind::PLUS, PLUSES.as_slice()) {
            self.parse_new_file();
        } else {
            proof {
                lemma_groups(self.built(), Seq::empty(), Seq::empty(), Seq::empty(), Seq::empty());
            }
        }
        let ghost new_file = marked_header_step(
            tokens,
            old_file.end,
            SyntaxKind::PLUS,
            PLUSES@,
            SyntaxKind::NEW_FILE,
            Class::Path,
        );
        assert(self.built() == before + new_file.elems);
        self.parse_hunks();
        let ghost inner = old_file.elems + new_file.elems + hunks_step(tokens, new_file.end).elems;
        proof {
            lemma_groups(
                base,
                old_file.elems,
                new_file.elems,
                hunks_step(tokens, new_file.end).elems,
                Seq::empty(),
            );
        }
        self.finish_node(Ghost(base), Ghost(inner));
    }

    /// Reads a header line of a context diff into a node of kind `kind`.
    fn parse_context_header(&mut self, kind: SyntaxKind)
        requires
            old(self).wf(),
        ensures
            final(self).stepped(
                old(self),
                header_step(old(self).tokens(), old(self).pos(), kind, Class::ContextPath),
            ),
    {
        let ghost tokens = self.tokens();
        let ghost i = self.pos();
        let ghost base = self.built();
        self.start_node(kind);
        self.skip_marker();
        self.parse_file_path();
        self.skip_to_eol();
        let ghost blanks = run_end(tokens, ahead(tokens, i, 3), Class::Blank);
        let ghost path = path_step(tokens, blanks, Class::ContextPath);
        let ghost inner = span(tokens, i, blanks) + path.elems + span(
            tokens,
            path.end,
            line_end(tokens, path.end),
        );
        proof {
            lemma_groups(
                base,
                span(tokens, i, blanks),
                path.elems,
                span(tokens, path.end, line_end(tokens, path.end)),
                Seq::empty(),
            );
        }
        self.finish_node(Ghost(base), Ghost(inner));
    }

    /// Reads the header of the old file of a context diff: `*** path`.
    fn parse_context_old_file(&mut self)
        requires
            old(self).wf(),
        ensures
            final(self).stepped(
                old(self),
                header_step(
                    old(self).tokens(),
                    old(self).pos(),
                    SyntaxKind::CONTEXT_OLD_FILE,
                    Class::ContextPath,
                ),
            ),
    {
        self.parse_context_header(SyntaxKind::CONTEXT_OLD_FILE);
    }

    /// Reads the header of the new file of a context diff: `--- path`.
    fn parse_context_new_file(&mut self)
        requires
            old(self).wf(),
        ensures
            final(self).stepped(
                old(self),
                header_step(
                    old(self).tokens(),
                    old(self).pos(),
                    SyntaxKind::CONTEXT_NEW_FILE,
                    Class::ContextPath,
                ),
            ),
    {
        self.parse_context_header(SyntaxKind::CONTEXT_NEW_FILE);
    }

    /// Reads a section of a context hunk into a node of kind `kind`: its
    /// line with the range, and the lines up to the end of the section.
    fn parse_context_section(&mut self, kind: SyntaxKind)
        requires
            old(self).wf(),
        ensures
            final(self).stepped(old(self), section_step(old(self).tokens(), old(self).pos(), kind)),
    {
        let ghost tokens = self.tokens();
        let ghost i = self.pos();
        let ghost base = self.built();
        self.start_node(kind);
        self.skip_marker();
        self.parse_hunk_range();
        self.skip_to_eol();
        self.parse_lines(true);
        let ghost blanks = run_end(tokens, ahead(tokens, i, 3), Class::Blank);
        let ghost range = range_step(tokens, blanks);
        let ghost head = line_end(tokens, range.end);
        let ghost inner = span(tokens, i, blanks) + range.elems + span(tokens, range.end, head)
            + lines_step(tokens, head, true).elems;
        proof {
            lemma_groups(
                base,
                span(tokens, i, blanks),
                range.elems,
                span(tokens, range.end, head),
                lines_step(tokens, head, true).elems,
            );
        }
        self.finish_node(Ghost(base), Ghost(inner));
    }

    /// Reads the old section of a context hunk: `*** 1,3 ****` and its
    /// lines.
    fn parse_context_old_section(&mut self)
        requires
            old(self).wf(),
        ensures
            final(self).stepped(
                old(self),
                section_step(old(self).tokens(), old(self).pos(), SyntaxKind::CONTEXT_OLD_SECTION),
            ),
    {
        self.parse_context_section(SyntaxKind::CONTEXT_OLD_SECTION);
    }

    /// Reads the new section of a context hunk: `--- 1,3 ----` and its
    /// lines.
    fn parse_context_new_section(&mut self)
        requires
            old(self).wf(),
        ensures
            final(self).stepped(
                old(self),
                section_step(old(self).tokens(), old(self).pos(), SyntaxKind::CONTEXT_NEW_SECTION),
            ),
    {
        self.parse_context_section(SyntaxKind::CONTEXT_NEW_SECTION);
    }

    /// Reads the two sections of a context hunk, as far as they are there.
    fn parse_context_sections(&mut self)
        requires
            old(self).wf(),
        ensures
            final(self).stepped(old(self), sections_step(old(self).tokens(), old(self).pos())),
    {
        let ghost base = self.built();
        if self.at_mark(SyntaxKind::STAR, STARS.as_slice()) {
            self.parse_context_old_section();
        } else {
            proof {
                lemma_groups(self.built(), Seq::empty(), Seq::empty(), Seq::empty(), Seq::empty());
            }
        }
        let ghost first = self.built();
        if self.at_mark(SyntaxKind::MINUS, DASHES.as_slice()) {
            self.parse_context_new_section();
        } else {
            proof {
                lemma_groups(self.built(), Seq::empty(), Seq::empty(), Seq::empty(), Seq::empty());
            }
        }
        proof {
            let tokens = old(self).tokens();
            let i = old(self).pos();
            let old_section = if at_marker(tokens, i, SyntaxKind::STAR, STARS@) {
                section_step(tokens, i, SyntaxKind::CONTEXT_OLD_SECTION)
            } else {
                no_step(i)
            };
            let new_section = if at_marker(tokens, old_section.end, SyntaxKind::MINUS, DASHES@) {
                section_step(tokens, old_section.end, SyntaxKind::CONTEXT_NEW_SECTION)
            } else {
                no_step(old_section.end)
            };
            lemma_groups(base, old_section.elems, new_section.elems, Seq::empty(), Seq::empty());
        }
    }

    /// Reads a context hunk: the line of stars, and the two sections.
    fn parse_context_hunk(&mut self)
        requires
            old(self).wf(),
        ensures
            final(self).stepped(old(self), context_hunk_step(old(self).tokens(), old(self).pos())),
    {
        let ghost tokens = self.tokens();
        let ghost i = self.pos();
        let ghost base = self.built();
        self.start_node(SyntaxKind::CONTEXT_HUNK);
        self.start_node(SyntaxKind::CONTEXT_HUNK_HEADER);
        proof {
            lemma_run_end(tokens, i, Class::Star);
        }
        self.eat(Class::Star);
        self.skip_to_eol();
        let ghost stars = run_end(tokens, i, Class::Star);
        let ghost head = line_end(tokens, stars);
        proof {
            lemma_line_end(tokens, stars);
            lemma_span_extend(base, tokens, i, stars, head);
        }
        self.finish_node(Ghost(base), Ghost(span(tokens, i, head)));
        self.parse_context_sections();
        let ghost inner = seq![node(SyntaxKind::CONTEXT_HUNK_HEADER, span(tokens, i, head))]
            + sections_step(tokens, head).elems;
        proof {
            lemma_groups(
                base,
                seq![node(SyntaxKind::CONTEXT_HUNK_HEADER, span(tokens, i, head))],
                sections_step(tokens, head).elems,
                Seq::empty(),
                Seq::empty(),
            );
        }
        self.finish_node(Ghost(base), Ghost(inner));
    }

    /// Reads a context hunk that no line of stars introduces.
    fn parse_context_hunk_without_separator(&mut self)
        requires
            old(self).wf(),
        ensures
            final(self).stepped(
                old(self),
                bare_context_hunk_step(old(self).tokens(), old(self).pos()),
            ),
    {
        let ghost base = self.built();
        let ghost inner = sections_step(self.tokens(), self.pos()).elems;
        self.start_node(SyntaxKind::CONTEXT_HUNK);
        self.parse_context_sections();
        self.finish_node(Ghost(base), Ghost(inner));
    }

    /// Reads the hunks of a file of a context diff.
    fn parse_context_hunks(&mut self)
        requires
            old(self).wf(),
        ensures
            final(self).stepped(old(self), context_hunks_step(old(self).tokens(), old(self).pos())),
    {
        let ghost tokens = self.tokens();
        let ghost whole = context_hunks_step(tokens, self.pos());
        let ghost mut done: Seq<Elem> = Seq::empty();
        proof {
            lemma_groups(self.built(), whole.elems, Seq::empty(), Seq::empty(), Seq::empty());
        }
        while self.at(SyntaxKind::STAR) && self.looks_like_context_hunk_separator()
            invariant
                self.keeps(old(self)),
                tokens == self.tokens(),
                self.built() == old(self).built() + done,
                whole.elems == done + context_hunks_step(tokens, self.pos()).elems,
                whole.end == context_hunks_step(tokens, self.pos()).end,
            decreases self.tokens().len() - self.pos(),
        {
            let ghost at = self.pos();
            proof {
                lemma_context_steps(tokens, at);
            }
            self.parse_context_hunk();
            proof {
                let hunk = context_hunk_step(tokens, at);
                let rest = context_hunks_step(tokens, hunk.end).elems;
                lemma_groups(done, hunk.elems, rest, Seq::empty(), Seq::empty());
                lemma_groups(old(self).built(), done, hunk.elems, Seq::empty(), Seq::empty());
                done = done + hunk.elems;
            }
        }
        proof {
            lemma_groups(done, Seq::empty(), Seq::empty(), Seq::empty(), Seq::empty());
        }
    }

    /// Reads the patch of one file of a context diff: the two headers, as
    /// far as they are there, and the hunks.
    fn parse_context_diff_file(&mut self)
        requires
            old(self).wf(),
        ensures
            final(self).stepped(old(self), context_file_step(old(self).tokens(), old(self).pos())),
    {
        let ghost tokens = self.tokens();
        let ghost i = self.pos();
        let ghost base = self.built();
        self.start_node(SyntaxKind::CONTEXT_DIFF_FILE);
        if self.at_mark(SyntaxKind::STAR, STARS.as_slice()) {
            self.parse_context_old_file();
        } else {
            proof {
                lemma_groups(self.built(), Seq::empty(), Seq::empty(), Seq::empty(), Seq::empty());
            }
        }
        let ghost old_file = marked_header_step(
            tokens,
            i,
            SyntaxKind::STAR,
            STARS@,
            SyntaxKind::CONTEXT_OLD_FILE,
            Class::ContextPath,
        );
        assert(self.built() == base + old_file.elems);
        let ghost before = self.built();
        if self.at_mark(SyntaxKind::MINUS, DASHES.as_slice()) {
            self.parse_context_new_file();
        } else {
            proof {
                lemma_groups(self.built(), Seq::empty(), Seq::empty(), Seq::empty(), Seq::empty());
            }
        }
        let ghost new_file = marked_header_step(
            tokens,
            old_file.end,
            SyntaxKind::MINUS,
            DASHES@,
            SyntaxKind::CONTEXT_NEW_FILE,
            Class::ContextPath,
        );
        assert(self.built() == before + new_file.elems);
        self.parse_context_hunks();
        let ghost inner = old_file.elems + new_file.elems + context_hunks_step(tokens, new_file.end).elems;
        proof {
            lemma_groups(
                base,
                old_file.elems,
                new_file.elems,
                context_hunks_step(tokens, new_file.end).elems,
                Seq::empty(),
            );
        }
        self.finish_node(Ghost(base), Ghost(inner));
    }

    /// Reads the lines that an ed command adds, up to the line that holds
    /// a single dot.
    fn parse_ed_content_lines(&mut self)
        requires
            old(self).wf(),
        ensures
            final(self).stepped(old(self), ed_lines_step(old(self).tokens(), old(self).pos())),
    {
        let ghost tokens = self.tokens();
        let ghost whole = ed_lines_step(tokens, self.pos());
        let ghost mut done: Seq<Elem> = Seq::empty();
        proof {
            lemma_groups(self.built(), whole.elems, Seq::empty(), Seq::empty(), Seq::empty());
        }
        loop
            invariant_except_break
                self.built() == old(self).built() + done,
                whole.elems == done + ed_lines_step(tokens, self.pos()).elems,
                whole.end == ed_lines_step(tokens, self.pos()).end,
            invariant
                self.keeps(old(self)),
                tokens == self.tokens(),
            ensures
                self.keeps(old(self)),
                self.built() == old(self).built() + whole.elems,
                self.pos() == whole.end,
            decreases self.tokens().len() - self.pos(),
        {
            if self.at_end() {
                proof {
            lemma_groups(done, Seq::empty(), Seq::empty(), Seq::empty(), Seq::empty());
        }
                break ;
            }
            let ghost at = self.pos();
            let ghost before = self.built();
            let dot = self.at(SyntaxKind::DOT) && (match self.peek_kind(1) {
                Some(SyntaxKind::NEWLINE) => true,
                _ => false,
            });
            if dot {
                self.skip_two();
                proof {
                    lemma_groups(
                        old(self).built(),
                        done,
                        span(tokens, at, at + 2),
                        Seq::empty(),
                        Seq::empty(),
                    );
                }
                break ;
            }
            proof {
                lemma_line_end(tokens, at);
            }
            self.start_node(SyntaxKind::ED_CONTENT_LINE);
            self.skip_to_eol();
            self.finish_node(Ghost(before), Ghost(span(tokens, at, line_end(tokens, at))));
            proof {
                let line = seq![
                    node(SyntaxKind::ED_CONTENT_LINE, span(tokens, at, line_end(tokens, at))),
                ];
                let rest = ed_lines_step(tokens, line_end(tokens, at)).elems;
                lemma_groups(done, line, rest, Seq::empty(), Seq::empty());
                lemma_groups(old(self).built(), done, line, Seq::empty(), Seq::empty());
                done = done + line;
            }
        }
    }

    /// Reads an ed command: the range, the letter, the rest of the line,
    /// and for `a` and `c` the lines to add.
    fn parse_ed_command(&mut self)
        requires
            old(self).wf(),
        ensures
            final(self).stepped(old(self), ed_command_step(old(self).tokens(), old(self).pos())),
    {
        let ghost tokens = self.tokens();
        let ghost i = self.pos();
        let ghost base = self.built();
        self.start_node(SyntaxKind::ED_COMMAND);
        let checkpoint = self.checkpoint();
        proof {
            lemma_run_end(tokens, i, Class::Range);
            lemma_line_end_run(tokens, i, Class::Range);
        }
        self.eat(Class::Range);
        let ghost letter = self.pos();
        let ghost head = line_end(tokens, i);
        match self.current_kind() {
            Some(SyntaxKind::LETTER_A) => {
                self.start_node_at(checkpoint, SyntaxKind::ED_ADD_COMMAND);
                self.advance();
                self.skip_to_eol();
                proof {
                    lemma_line_end(tokens, letter + 1);
                    lemma_span_extend(base, tokens, i, letter, letter + 1);
                    lemma_span_extend(base, tokens, i, letter + 1, head);
                }
                self.parse_ed_content_lines();
                let ghost inner = span(tokens, i, head) + ed_lines_step(tokens, head).elems;
                proof {
                    lemma_groups(
                        base,
                        span(tokens, i, head),
                        ed_lines_step(tokens, head).elems,
                        Seq::empty(),
                        Seq::empty(),
                    );
                }
                self.finish_node(Ghost(base), Ghost(inner));
                let ghost command = seq![node(SyntaxKind::ED_ADD_COMMAND, inner)];
                self.finish_node(Ghost(base), Ghost(command));
            },
            Some(SyntaxKind::LETTER_D) => {
                self.start_node_at(checkpoint, SyntaxKind::ED_DELETE_COMMAND);
                self.advance();
                self.skip_to_eol();
                proof {
                    lemma_line_end(tokens, letter + 1);
                    lemma_span_extend(base, tokens, i, letter, letter + 1);
                    lemma_span_extend(base, tokens, i, letter + 1, head);
                }
                let ghost inner = span(tokens, i, head);
                self.finish_node(Ghost(base), Ghost(inner));
                let ghost command = seq![node(SyntaxKind::ED_DELETE_COMMAND, inner)];
                self.finish_node(Ghost(base), Ghost(command));
            },
            Some(SyntaxKind::LETTER_C) => {
                self.start_node_at(checkpoint, SyntaxKind::ED_CHANGE_COMMAND);
                self.advance();
                self.skip_to_eol();
                proof {
                    lemma_line_end(tokens, letter + 1);
                    lemma_span_extend(base, tokens, i, letter, letter + 1);
                    lemma_span_extend(base, tokens, i, letter + 1, head);
                }
                self.parse_ed_content_lines();
                let ghost inner = span(tokens, i, head) + ed_lines_step(tokens, head).elems;
                proof {
                    lemma_groups(
                        base,
                        span(tokens, i, head),
                        ed_lines_step(tokens, head).elems,
                        Seq::empty(),
                        Seq::empty(),
                    );
                }
                self.finish_node(Ghost(base), Ghost(inner));
                let ghost command = seq![node(SyntaxKind::ED_CHANGE_COMMAND, inner)];
                self.finish_node(Ghost(base), Ghost(command));
            },
            _ => {
                self.skip_to_eol();
                proof {
                    lemma_line_end(tokens, letter);
                    lemma_span_extend(base, tokens, i, letter, head);
                }
                self.finish_node(Ghost(base), Ghost(span(tokens, i, head)));
            },
        }
    }

    /// Reads the lines of a normal diff that start with the token `lead`
    /// into a node of kind `kind`, each line into a node of kind `line`.
    fn parse_normal_lines(&mut self, lead: SyntaxKind, kind: SyntaxKind, line: SyntaxKind)
        requires
            old(self).wf(),
            lead != SyntaxKind::NEWLINE,
        ensures
            final(self).stepped(
                old(self),
                wrapped(
                    kind,
                    marked_lines_step(old(self).tokens(), old(self).pos(), lead, line).elems,
                    marked_lines_step(old(self).tokens(), old(self).pos(), lead, line).end,
                ),
            ),
    {
        let ghost tokens = self.tokens();
        let ghost base = self.built();
        let ghost whole = marked_lines_step(tokens, self.pos(), lead, line);
        let ghost mut done: Seq<Elem> = Seq::empty();
        self.start_node(kind);
        proof {
            lemma_groups(self.built(), whole.elems, Seq::empty(), Seq::empty(), Seq::empty());
        }
        while self.at(lead)
            invariant
                self.wf(),
                tokens == self.tokens(),
                self.tokens() == old(self).tokens(),
                self.error_count() == old(self).error_count(),
                base == old(self).built(),
                lead != SyntaxKind::NEWLINE,
                self.tree().parents().len() > 0,
                self.tree().parents().drop_last() == old(self).tree().parents(),
                self.tree().parents().last() == (kind.raw(), base.len()),
                self.built() == base + done,
                whole.elems == done + marked_lines_step(tokens, self.pos(), lead, line).elems,
                whole.end == marked_lines_step(tokens, self.pos(), lead, line).end,
            decreases self.tokens().len() - self.pos(),
        {
            let ghost at = self.pos();
            let ghost before = self.built();
            let ghost end = line_end(tokens, at);
            proof {
                lemma_line_end(tokens, at);
                lemma_run_end(tokens, at + 1, Class::Blank);
                lemma_line_end_run(tokens, at + 1, Class::Blank);
                assert(line_end(tokens, at) == line_end(tokens, at + 1));
            }
            self.start_node(line);
            self.advance();
            self.skip_whitespace();
            let ghost blanks = self.pos();
            proof {
                lemma_line_end(tokens, blanks);
            }
            self.skip_to_eol();
            proof {
                lemma_span_extend(before, tokens, at, at + 1, blanks);
                lemma_span_extend(before, tokens, at, blanks, end);
            }
            self.finish_node(Ghost(before), Ghost(span(tokens, at, end)));
            proof {
                let one = seq![node(line, span(tokens, at, end))];
                let rest = marked_lines_step(tokens, end, lead, line).elems;
                lemma_groups(done, one, rest, Seq::empty(), Seq::empty());
                lemma_groups(base, done, one, Seq::empty(), Seq::empty());
                done = done + one;
            }
        }
        proof {
            lemma_groups(done, Seq::empty(), Seq::empty(), Seq::empty(), Seq::empty());
        }
        self.finish_node(Ghost(base), Ghost(done));
    }

    /// Reads the `<` lines of a normal diff.
    fn parse_normal_old_lines(&mut self)
        requires
            old(self).wf(),
            kind_at(old(self).tokens(), old(self).pos()) == Some(SyntaxKind::LESS_THAN),
        ensures
            final(self).stepped(
                old(self),
                side_step(
                    old(self).tokens(),
                    old(self).pos(),
                    SyntaxKind::LESS_THAN,
                    SyntaxKind::NORMAL_OLD_LINES,
                    SyntaxKind::DELETE_LINE,
                ),
            ),
    {
        self.parse_normal_lines(
            SyntaxKind::LESS_THAN,
            SyntaxKind::NORMAL_OLD_LINES,
            SyntaxKind::DELETE_LINE,
        );
    }

    /// Reads the `>` lines of a normal diff.
    fn parse_normal_new_lines(&mut self)
        requires
            old(self).wf(),
            kind_at(old(self).tokens(), old(self).pos()) == Some(SyntaxKind::GREATER_THAN),
        ensures
            final(self).stepped(
                old(self),
                side_step(
                    old(self).tokens(),
                    old(self).pos(),
                    SyntaxKind::GREATER_THAN,
                    SyntaxKind::NORMAL_NEW_LINES,
                    SyntaxKind::ADD_LINE,
                ),
            ),
    {
        self.parse_normal_lines(
            SyntaxKind::GREATER_THAN,
            SyntaxKind::NORMAL_NEW_LINES,
            SyntaxKind::ADD_LINE,
        );
    }

    /// Reads the `---` line between the old and the new lines of a normal
    /// diff.
    fn parse_normal_separator(&mut self)
        requires
            old(self).wf(),
            at_marker(old(self).tokens(), old(self).pos(), SyntaxKind::MINUS, DASHES@),
        ensures
            final(self).stepped(old(self), separator_step(old(self).tokens(), old(self).pos())),
    {
        let ghost tokens = self.tokens();
        let ghost i = self.pos();
        let ghost base = self.built();
        self.start_node(SyntaxKind::NORMAL_SEPARATOR);
        self.skip_three();
        let ghost third = self.pos();
        proof {
            lemma_line_end(tokens, third);
        }
        self.skip_to_eol();
        let ghost end = line_end(tokens, third);
        proof {
            lemma_span_extend(base, tokens, i, third, end);
        }
        self.finish_node(Ghost(base), Ghost(span(tokens, i, end)));
    }

    /// Reads a hunk of a normal diff: the command line, the old lines, the
    /// separator and the new lines, as far as they are there.
    fn parse_normal_hunk(&mut self)
        requires
            old(self).wf(),
        ensures
            final(self).stepped(old(self), normal_hunk_step(old(self).tokens(), old(self).pos())),
    {
        let ghost tokens = self.tokens();
        let ghost i = self.pos();
        let ghost base = self.built();
        self.start_node(SyntaxKind::NORMAL_HUNK);
        self.start_node(SyntaxKind::NORMAL_CHANGE_COMMAND);
        proof {
            lemma_run_end(tokens, i, Class::Range);
        }
        self.eat(Class::Range);
        let ghost letter = self.pos();
        match self.current_kind() {
            Some(SyntaxKind::LETTER_A) | Some(SyntaxKind::LETTER_C) | Some(
                SyntaxKind::LETTER_D,
            ) => {
                self.advance();
            },
            _ => {
                proof {
                lemma_groups(self.built(), Seq::empty(), Seq::empty(), Seq::empty(), Seq::empty());
            }
            },
        }
        let ghost second = self.pos();
        proof {
            lemma_span_extend(base, tokens, i, letter, second);
            lemma_run_end(tokens, second, Class::Range);
        }
        self.eat(Class::Range);
        let ghost range = self.pos();
        proof {
            lemma_line_end(tokens, range);
        }
        self.skip_to_eol();
        let ghost head = change_end(tokens, i);
        proof {
            lemma_span_extend(base, tokens, i, second, range);
            lemma_span_extend(base, tokens, i, range, head);
        }
        self.finish_node(Ghost(base), Ghost(span(tokens, i, head)));
        let ghost command = seq![node(SyntaxKind::NORMAL_CHANGE_COMMAND, span(tokens, i, head))];
        if self.at(SyntaxKind::LESS_THAN) {
            self.parse_normal_old_lines();
        } else {
            proof {
                lemma_groups(self.built(), Seq::empty(), Seq::empty(), Seq::empty(), Seq::empty());
            }
        }
        let ghost old_lines = side_step(
            tokens,
            head,
            SyntaxKind::LESS_THAN,
            SyntaxKind::NORMAL_OLD_LINES,
            SyntaxKind::DELETE_LINE,
        );
        assert(self.built() == base + command + old_lines.elems);
        if self.at_mark(SyntaxKind::MINUS, DASHES.as_slice()) {
            self.parse_normal_separator();
        } else {
            proof {
                lemma_groups(self.built(), Seq::empty(), Seq::empty(), Seq::empty(), Seq::empty());
            }
        }
        let ghost separator = separator_step(tokens, old_lines.end);
        assert(self.built() == base + command + old_lines.elems + separator.elems);
        if self.at(SyntaxKind::GREATER_THAN) {
            self.parse_normal_new_lines();
        } else {
            proof {
                lemma_groups(self.built(), Seq::empty(), Seq::empty(), Seq::empty(), Seq::empty());
            }
        }
        let ghost new_lines = side_step(
            tokens,
            separator.end,
            SyntaxKind::GREATER_THAN,
            SyntaxKind::NORMAL_NEW_LINES,
            SyntaxKind::ADD_LINE,
        );
        let ghost inner = command + old_lines.elems + separator.elems + new_lines.elems;
        proof {
            lemma_groups(base, command, old_lines.elems, separator.elems, new_lines.elems);
        }
        self.finish_node(Ghost(base), Ghost(inner));
    }

    /// Whether the token three tokens ahead starts with `>`.
    fn new_lines_follow(&self) -> (r: bool)
        requires
            self.wf(),
        ensures
            r == new_lines_ahead(self.tokens(), self.pos()),
    {
        match self.peek_text(3) {
            Some(text) => {
                proof {
                    if text@.len() > 0 {
                        assert(text@.subrange(0, 1) =~= seq![text@[0]]);
                        assert(seq![text@[0]][0] == text@[0]);
                        if has_prefix(text@, seq![0x3eu8]) {
                            assert(text@.subrange(0, 1)[0] == 0x3eu8);
                        }
                    }
                }
                text.len() > 0 && text[0] == 0x3e
            },
            None => false,
        }
    }

    /// Reads what stands at the next token: a file of one of the formats,
    /// a hunk, a command, or a line that belongs to none of them and is put
    /// into the tree as it is.
    fn parse_item(&mut self)
        requires
            old(self).wf(),
        ensures
            final(self).stepped(old(self), item_step(old(self).tokens(), old(self).pos())),
    {
        let ghost tokens = self.tokens();
        let ghost i = self.pos();
        let ghost base = self.built();
        if self.at_mark(SyntaxKind::STAR, STARS.as_slice()) {
            if self.looks_like_context_hunk_range() {
                self.start_node(SyntaxKind::CONTEXT_DIFF_FILE);
                self.parse_context_hunk_without_separator();
                self.finish_node(Ghost(base), Ghost(bare_context_hunk_step(tokens, i).elems));
            } else {
                self.parse_context_diff_file();
            }
        } else if self.at_mark(SyntaxKind::MINUS, DASHES.as_slice()) && !self.new_lines_follow()
            && !self.looks_like_context_new_section() {
            self.parse_patch_file();
        } else if self.at_mark(SyntaxKind::PLUS, PLUSES.as_slice()) {
            self.parse_patch_file();
        } else if self.looks_like_normal_diff() {
            self.parse_normal_hunk();
        } else if self.looks_like_ed_command() {
            self.parse_ed_command();
        } else {
            self.skip_to_next_line();
        }
    }

    /// Reads all tokens: at the start of every line the parser decides
    /// anew which format it has before it.
    fn parse_patch(&mut self)
        requires
            old(self).wf(),
        ensures
            final(self).stepped(old(self), items_step(old(self).tokens(), old(self).pos())),
            final(self).pos() == final(self).tokens().len(),
    {
        let ghost tokens = self.tokens();
        let ghost whole = items_step(tokens, self.pos());
        let ghost mut done: Seq<Elem> = Seq::empty();
        proof {
            lemma_groups(self.built(), whole.elems, Seq::empty(), Seq::empty(), Seq::empty());
        }
        while !self.at_end()
            invariant
                self.keeps(old(self)),
                tokens == self.tokens(),
                self.built() == old(self).built() + done,
                whole.elems == done + items_step(tokens, self.pos()).elems,
                whole.end == items_step(tokens, self.pos()).end,
            decreases self.tokens().len() - self.pos(),
        {
            let ghost at = self.pos();
            proof {
                lemma_item(tokens, at);
            }
            self.parse_item();
            proof {
                let item = item_step(tokens, at);
                let rest = items_step(tokens, item.end).elems;
                lemma_groups(done, item.elems, rest, Seq::empty(), Seq::empty());
                lemma_groups(old(self).built(), done, item.elems, Seq::empty(), Seq::empty());
                done = done + item.elems;
            }
        }
        proof {
            lemma_groups(done, Seq::empty(), Seq::empty(), Seq::empty(), Seq::empty());
        }
    }

    /// Reads all tokens into a tree with a `ROOT` node at its top. The tree
    /// is the tree that the grammar gives for the tokens; it covers the text
    /// of all tokens, and no error is recorded.
    pub fn parse(self) -> (r: (rowan::GreenNode, Vec<String>))
        requires
            self.wf(),
            self.pos() == 0,
            self.error_count() == 0,
            self.built() == Seq::<Elem>::empty(),
            self.tree().parents() == Seq::<(u16, nat)>::empty(),
        ensures
            node_tree(r.0) == patch_tree(self.tokens()),
            node_tree(r.0).text() == text_upto(self.tokens(), self.tokens().len() as int),
            r.1@.len() == 0,
    {
        let mut parser = self;
        let ghost tokens = self.tokens();
        parser.start_node(SyntaxKind::ROOT);
        parser.parse_patch();
        let ghost inner = items_step(tokens, 0).elems;
        proof {
            lemma_groups(Seq::empty(), inner, Seq::empty(), Seq::empty(), Seq::empty());
        }
        parser.finish_node(Ghost(Seq::empty()), Ghost(inner));
        reveal(Parser::covers);
        proof {
            lemma_groups(
                Seq::empty(),
                seq![Elem::Node(patch_tree(tokens))],
                Seq::empty(),
                Seq::empty(),
                Seq::empty(),
            );
        }
        (parser.builder.finish(), parser.errors)
    }
}

} // verus!
