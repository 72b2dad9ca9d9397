//! Lexer for quilt series files
use crate::edit::lex::{at_boundary, lemma_after_ascii, slice};
use vstd::prelude::*;
use vstd::string::{StringExecFns, StringSliceAdditionalSpecFns};
use vstd::utf8::{encode_utf8, encode_utf8_valid_utf8, valid_first_scalar};

pub use crate::edit::quilt::kind::SyntaxKind;

verus! {

/// A byte that ends a patch name or an option: a space, a tab or a line
/// feed.
pub open spec fn ends_word(b: u8) -> bool {
    b == 0x20 || b == 0x09 || b == 0x0a
}

/// The end of the word that starts at `pos`.
pub open spec fn word_end(bytes: Seq<u8>, pos: int) -> int
    decreases bytes.len() - pos,
{
    if pos < 0 || pos >= bytes.len() || ends_word(bytes[pos]) {
        pos
    } else {
        word_end(bytes, pos + 1)
    }
}

/// The end of the line that holds `pos`: the index of the next line feed.
pub open spec fn line_end(bytes: Seq<u8>, pos: int) -> int
    decreases bytes.len() - pos,
{
    if pos < 0 || pos >= bytes.len() || bytes[pos] == 0x0a {
        pos
    } else {
        line_end(bytes, pos + 1)
    }
}

/// A token as the lexer finds it: its kind, the index behind its last byte,
/// and whether the lexer is inside a comment afterwards.
pub struct Lexeme {
    pub kind: SyntaxKind,
    pub end: int,
    pub in_comment: bool,
}

/// The token that starts at index `pos`, which lies within the input.
///
/// `#`, space, tab and line feed are tokens of their own; `#` starts a
/// comment, which the line feed ends. Inside a comment everything else is
/// text up to the end of the line. Outside, a word at the start of a line or
/// behind a blank is an option if it starts with `-`, and else a patch name;
/// any other word is text up to the end of the line.
pub open spec fn token_at(bytes: Seq<u8>, pos: int, in_comment: bool) -> Lexeme {
    let b = bytes[pos];
    if b == 0x23 {
        Lexeme { kind: SyntaxKind::HASH, end: pos + 1, in_comment: true }
    } else if b == 0x20 {
        Lexeme { kind: SyntaxKind::SPACE, end: pos + 1, in_comment }
    } else if b == 0x09 {
        Lexeme { kind: SyntaxKind::TAB, end: pos + 1, in_comment }
    } else if b == 0x0a {
        Lexeme { kind: SyntaxKind::NEWLINE, end: pos + 1, in_comment: false }
    } else if in_comment {
        Lexeme { kind: SyntaxKind::TEXT, end: line_end(bytes, pos), in_comment }
    } else if pos == 0 || ends_word(bytes[pos - 1]) {
        Lexeme {
            kind: if b == 0x2d {
                SyntaxKind::OPTION
            } else {
                SyntaxKind::PATCH_NAME
            },
            end: word_end(bytes, pos),
            in_comment,
        }
    } else {
        Lexeme { kind: SyntaxKind::TEXT, end: line_end(bytes, pos), in_comment }
    }
}

/// Words and lines end at or behind their start, within the input.
pub proof fn lemma_ends(bytes: Seq<u8>, pos: int)
    requires
        0 <= pos <= bytes.len(),
    ensures
        pos <= word_end(bytes, pos) <= bytes.len(),
        pos <= line_end(bytes, pos) <= bytes.len(),
        word_end(bytes, pos) < bytes.len() ==> ends_word(bytes[word_end(bytes, pos)]),
        line_end(bytes, pos) < bytes.len() ==> bytes[line_end(bytes, pos)] == 0x0a,
    decreases bytes.len() - pos,
{
    if pos < bytes.len() {
        lemma_ends(bytes, pos + 1);
    }
}

/// A token holds at least one byte and ends within the input.
pub proof fn lemma_token_advances(bytes: Seq<u8>, pos: int, in_comment: bool)
    requires
        0 <= pos < bytes.len(),
    ensures
        pos < token_at(bytes, pos, in_comment).end <= bytes.len(),
{
    lemma_ends(bytes, pos + 1);
}

/// The tokens of the input from index `pos` on, each with its text.
pub open spec fn tokens_from(bytes: Seq<u8>, pos: int, in_comment: bool) -> Seq<
    (SyntaxKind, Seq<u8>),
>
    decreases bytes.len() - pos,
{
    if pos < 0 || pos >= bytes.len() {
        Seq::empty()
    } else {
        let t = token_at(bytes, pos, in_comment);
        proof {
            lemma_token_advances(bytes, pos, in_comment);
        }
        seq![(t.kind, bytes.subrange(pos, t.end))] + tokens_from(bytes, t.end, t.in_comment)
    }
}

/// The tokens of an input: those that cover it, and an `EOF` token without
/// text behind them.
pub open spec fn tokens_of(bytes: Seq<u8>) -> Seq<(SyntaxKind, Seq<u8>)> {
    tokens_from(bytes, 0, false).push((SyntaxKind::EOF, Seq::empty()))
}

/// The texts of the first `n` tokens, one after another.
pub open spec fn text_upto(tokens: Seq<(SyntaxKind, Seq<u8>)>, n: int) -> Seq<u8>
    decreases n,
{
    if n <= 0 || n > tokens.len() {
        Seq::empty()
    } else {
        text_upto(tokens, n - 1) + tokens[n - 1].1
    }
}

/// The tokens from `pos` on cover the input from `pos` on, and none of
/// them is an `EOF` token.
pub proof fn lemma_tokens_cover(bytes: Seq<u8>, pos: int, in_comment: bool)
    requires
        0 <= pos <= bytes.len(),
    ensures
        text_upto(
            tokens_from(bytes, pos, in_comment),
            tokens_from(bytes, pos, in_comment).len() as int,
        ) == bytes.subrange(pos, bytes.len() as int),
        forall|i: int|
            0 <= i < tokens_from(bytes, pos, in_comment).len() ==> (#[trigger] tokens_from(
                bytes,
                pos,
                in_comment,
            )[i]).0 != SyntaxKind::EOF,
    decreases bytes.len() - pos,
{
    let all = tokens_from(bytes, pos, in_comment);
    if pos >= bytes.len() {
        assert(bytes.subrange(pos, bytes.len() as int) =~= Seq::<u8>::empty());
    } else {
        let t = token_at(bytes, pos, in_comment);
        lemma_token_advances(bytes, pos, in_comment);
        lemma_tokens_cover(bytes, t.end, t.in_comment);
        let rest = tokens_from(bytes, t.end, t.in_comment);
        let head = (t.kind, bytes.subrange(pos, t.end));
        lemma_text_upto_prepend(head, rest, rest.len() as int);
        assert(seq![head] + rest =~= all);
        assert(head.1 + bytes.subrange(t.end, bytes.len() as int) =~= bytes.subrange(
            pos,
            bytes.len() as int,
        ));
        assert forall|i: int| 0 <= i < all.len() implies (#[trigger] all[i]).0
            != SyntaxKind::EOF by {
            if i > 0 {
                assert(all[i] == rest[i - 1]);
            }
        }
    }
}

/// The text of a token followed by the text of others.
proof fn lemma_text_upto_prepend(
    head: (SyntaxKind, Seq<u8>),
    rest: Seq<(SyntaxKind, Seq<u8>)>,
    n: int,
)
    requires
        0 <= n <= rest.len(),
    ensures
        text_upto(seq![head] + rest, n + 1) == head.1 + text_upto(rest, n),
    decreases n,
{
    let all = seq![head] + rest;
    if n == 0 {
        assert(text_upto(all, 0) =~= Seq::<u8>::empty());
        assert(text_upto(all, 1) =~= head.1);
        assert(head.1 + text_upto(rest, 0) =~= head.1);
    } else {
        lemma_text_upto_prepend(head, rest, n - 1);
        assert(all[n] == rest[n - 1]);
        assert(head.1 + (text_upto(rest, n - 1) + rest[n - 1].1) =~= (head.1 + text_upto(
            rest,
            n - 1,
        )) + rest[n - 1].1);
    }
}

/// Lexer for quilt series files
pub struct Lexer<'a> {
    input: &'a str,
    byte_pos: usize,
    in_comment: bool,
}

/// The views of a sequence of tokens: each kind with the bytes of its text.
pub open spec fn token_views(tokens: Seq<(SyntaxKind, String)>) -> Seq<(SyntaxKind, Seq<u8>)> {
    tokens.map_values(|t: (SyntaxKind, String)| (t.0, encode_utf8(t.1@)))
}

impl<'a> Lexer<'a> {
    /// The bytes of the text.
    pub closed spec fn bytes(&self) -> Seq<u8> {
        self.input.spec_bytes()
    }

    /// The index of the next byte.
    pub closed spec fn pos(&self) -> int {
        self.byte_pos as int
    }

    /// Whether the lexer is inside a comment.
    pub closed spec fn commenting(&self) -> bool {
        self.in_comment
    }

    /// The lexer stands at a place where a token may start.
    pub open spec fn well_formed(&self) -> bool {
        at_boundary(self.bytes(), self.pos())
    }

    /// Create a new lexer for the given input text
    pub fn new(input: &'a str) -> (r: Self)
        ensures
            r.well_formed(),
            r.bytes() == input.spec_bytes(),
            r.pos() == 0,
            !r.commenting(),
    {
        proof {
            encode_utf8_valid_utf8(input@);
            if input.spec_bytes().len() > 0 {
                assert(valid_first_scalar(input.spec_bytes()));
            }
        }
        Self { input, byte_pos: 0, in_comment: false }
    }

    /// The next byte, if there is one.
    pub fn current_char(&self) -> (r: Option<u8>)
        requires
            self.well_formed(),
        ensures
            r == if self.pos() < self.bytes().len() {
                Some(self.bytes()[self.pos()])
            } else {
                None
            },
    {
        let bytes = self.input.as_bytes();
        if self.byte_pos < bytes.len() {
            Some(bytes[self.byte_pos])
        } else {
            None
        }
    }

    /// Passes over one byte below 128.
    pub fn advance(&mut self)
        requires
            old(self).well_formed(),
            old(self).pos() < old(self).bytes().len(),
            old(self).bytes()[old(self).pos()] <= 0x7f,
        ensures
            final(self).well_formed(),
            final(self).bytes() == old(self).bytes(),
            final(self).pos() == old(self).pos() + 1,
            final(self).commenting() == old(self).commenting(),
    {
        let len = self.input.as_bytes().len();
        proof {
            encode_utf8_valid_utf8(self.input@);
            if self.pos() + 1 < self.bytes().len() {
                lemma_after_ascii(self.bytes(), self.pos());
            }
        }
        self.byte_pos += 1;
    }

    /// Takes one byte below 128 as the text of a token.
    fn take_one(&mut self) -> (r: String)
        requires
            old(self).well_formed(),
            old(self).pos() < old(self).bytes().len(),
            old(self).bytes()[old(self).pos()] <= 0x7f,
        ensures
            final(self).well_formed(),
            final(self).bytes() == old(self).bytes(),
            final(self).pos() == old(self).pos() + 1,
            final(self).commenting() == old(self).commenting(),
            encode_utf8(r@) == old(self).bytes().subrange(old(self).pos(), old(self).pos() + 1),
    {
        let start = self.byte_pos;
        self.advance();
        String::from_str(slice(self.input, start, self.byte_pos))
    }

    /// Whether the next byte starts a line.
    pub fn at_line_start(&self) -> (r: bool)
        requires
            self.well_formed(),
        ensures
            r == (self.pos() == 0 || self.bytes()[self.pos() - 1] == 0x0a),
    {
        self.byte_pos == 0 || self.input.as_bytes()[self.byte_pos - 1] == 0x0a
    }

    /// Whether the byte before the next one is a space or a tab.
    pub fn prev_is_whitespace(&self) -> (r: bool)
        requires
            self.well_formed(),
        ensures
            r == (self.pos() > 0 && (self.bytes()[self.pos() - 1] == 0x20 || self.bytes()[self.pos()
                - 1] == 0x09)),
    {
        if self.byte_pos == 0 {
            return false;
        }
        let prev = self.input.as_bytes()[self.byte_pos - 1];
        prev == 0x20 || prev == 0x09
    }

    /// Whether the next byte starts an option.
    pub fn peek_option(&self) -> (r: bool)
        requires
            self.well_formed(),
        ensures
            r == (self.pos() < self.bytes().len() && self.bytes()[self.pos()] == 0x2d),
    {
        match self.current_char() {
            Some(c) => c == 0x2d,
            None => false,
        }
    }

    /// Takes the bytes up to the next space, tab or line feed, or up to
    /// the next line feed only.
    fn read_run(&mut self, whole_line: bool) -> (r: String)
        requires
            old(self).well_formed(),
        ensures
            final(self).well_formed(),
            final(self).bytes() == old(self).bytes(),
            final(self).commenting() == old(self).commenting(),
            final(self).pos() == if whole_line {
                line_end(old(self).bytes(), old(self).pos())
            } else {
                word_end(old(self).bytes(), old(self).pos())
            },
            encode_utf8(r@) == old(self).bytes().subrange(old(self).pos(), final(self).pos()),
    {
        let bytes = self.input.as_bytes();
        let start = self.byte_pos;
        let mut end = start;
        while end < bytes.len() && bytes[end] != 0x0a && (whole_line || (bytes[end] != 0x20
            && bytes[end] != 0x09))
            invariant
                start <= end <= bytes@.len(),
                bytes@ == self.input.spec_bytes(),
                whole_line ==> line_end(bytes@, start as int) == line_end(bytes@, end as int),
                !whole_line ==> word_end(bytes@, start as int) == word_end(bytes@, end as int),
            decreases bytes.len() - end,
        {
            end += 1;
        }
        self.byte_pos = end;
        let text = slice(self.input, start, end);
        String::from_str(text)
    }

    /// Takes an option: the bytes up to the next space, tab or line feed.
    pub fn read_option(&mut self) -> (r: (SyntaxKind, String))
        requires
            old(self).well_formed(),
        ensures
            final(self).well_formed(),
            final(self).bytes() == old(self).bytes(),
            final(self).commenting() == old(self).commenting(),
            final(self).pos() == word_end(old(self).bytes(), old(self).pos()),
            r.0 == SyntaxKind::OPTION,
            encode_utf8(r.1@) == old(self).bytes().subrange(old(self).pos(), final(self).pos()),
    {
        let text = self.read_run(false);
        (SyntaxKind::OPTION, text)
    }

    /// Takes a patch name: the bytes up to the next space, tab or line
    /// feed.
    pub fn read_patch_name(&mut self) -> (r: (SyntaxKind, String))
        requires
            old(self).well_formed(),
        ensures
            final(self).well_formed(),
            final(self).bytes() == old(self).bytes(),
            final(self).commenting() == old(self).commenting(),
            final(self).pos() == word_end(old(self).bytes(), old(self).pos()),
            r.0 == SyntaxKind::PATCH_NAME,
            encode_utf8(r.1@) == old(self).bytes().subrange(old(self).pos(), final(self).pos()),
    {
        let text = self.read_run(false);
        (SyntaxKind::PATCH_NAME, text)
    }

    /// Takes text: the bytes up to the next line feed.
    pub fn read_text(&mut self) -> (r: (SyntaxKind, String))
        requires
            old(self).well_formed(),
        ensures
            final(self).well_formed(),
            final(self).bytes() == old(self).bytes(),
            final(self).commenting() == old(self).commenting(),
            final(self).pos() == line_end(old(self).bytes(), old(self).pos()),
            r.0 == SyntaxKind::TEXT,
            encode_utf8(r.1@) == old(self).bytes().subrange(old(self).pos(), final(self).pos()),
    {
        let text = self.read_run(true);
        (SyntaxKind::TEXT, text)
    }

    /// The next token of a text that has not ended.
    pub fn next_token(&mut self) -> (r: (SyntaxKind, String))
        requires
            old(self).well_formed(),
            old(self).pos() < old(self).bytes().len(),
        ensures
            final(self).well_formed(),
            final(self).bytes() == old(self).bytes(),
            ({
                let t = token_at(old(self).bytes(), old(self).pos(), old(self).commenting());
                &&& r.0 == t.kind
                &&& encode_utf8(r.1@) == old(self).bytes().subrange(old(self).pos(), t.end)
                &&& final(self).pos() == t.end
                &&& final(self).commenting() == t.in_comment
            }),
    {
        let ghost bytes = self.bytes();
        let ghost pos = self.pos();
        match self.current_char() {
            Some(0x23) => {
                let text = self.take_one();
                self.in_comment = true;
                (SyntaxKind::HASH, text)
            },
            Some(0x20) => (SyntaxKind::SPACE, self.take_one()),
            Some(0x09) => (SyntaxKind::TAB, self.take_one()),
            Some(0x0a) => {
                let text = self.take_one();
                self.in_comment = false;
                (SyntaxKind::NEWLINE, text)
            },
            Some(_) => {
                if self.in_comment {
                    self.read_text()
                } else if self.at_line_start() || self.prev_is_whitespace() {
                    if self.peek_option() {
                        self.read_option()
                    } else {
                        self.read_patch_name()
                    }
                } else {
                    self.read_text()
                }
            },
            None => (SyntaxKind::ERROR, String::new()),
        }
    }

    /// Tokenize the entire input
    pub fn tokenize(&mut self) -> (r: Vec<(SyntaxKind, String)>)
        requires
            old(self).well_formed(),
        ensures
            token_views(r@) == tokens_from(
                old(self).bytes(),
                old(self).pos(),
                old(self).commenting(),
            ).push((SyntaxKind::EOF, Seq::empty())),
            final(self).bytes() == old(self).bytes(),
    {
        let ghost bytes = self.bytes();
        let ghost all = tokens_from(bytes, self.pos(), self.commenting());
        let mut tokens: Vec<(SyntaxKind, String)> = Vec::new();
        assert(token_views(tokens@) + all =~= all);
        while self.byte_pos < self.input.as_bytes().len()
            invariant
                self.well_formed(),
                self.bytes() == bytes,
                0 <= self.pos() <= bytes.len(),
                all == token_views(tokens@) + tokens_from(bytes, self.pos(), self.commenting()),
            decreases bytes.len() - self.pos(),
        {
            let ghost pos = self.pos();
            let ghost commenting = self.commenting();
            let ghost before = tokens@;
            let token = self.next_token();
            proof {
                lemma_token_advances(bytes, pos, commenting);
                let t = token_at(bytes, pos, commenting);
                assert(token_views(before.push(token)) =~= token_views(before).push(
                    (token.0, encode_utf8(token.1@)),
                ));
                assert(token_views(before) + (seq![(t.kind, bytes.subrange(pos, t.end))]
                    + tokens_from(bytes, t.end, t.in_comment)) =~= token_views(before).push(
                    (t.kind, bytes.subrange(pos, t.end)),
                ) + tokens_from(bytes, t.end, t.in_comment));
            }
            tokens.push(token);
        }
        let ghost before = tokens@;
        let end = (SyntaxKind::EOF, String::new());
        proof {
            assert(encode_utf8(end.1@) =~= Seq::<u8>::empty());
            assert(token_views(before) + Seq::<(SyntaxKind, Seq<u8>)>::empty() =~= token_views(
                before,
            ));
            assert(token_views(before.push(end)) =~= token_views(before).push(
                (SyntaxKind::EOF, Seq::empty()),
            ));
        }
        tokens.push(end);
        tokens
    }
}

} // verus!
