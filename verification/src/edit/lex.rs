//! Lexer for patch files
//!
//! The lexer cuts a text into tokens that cover it: every byte of the text
//! belongs to exactly one token, in order. It works on the bytes of the
//! text; a character of more than one byte can only stand inside a `TEXT`
//! token, so every token is text of its own. The lexer reports no errors: a
//! control character that it gives no meaning to becomes an `ERROR` token.
use crate::bytes::{concat, is_digit, lemma_concat_append, lemma_concat_one};
use vstd::prelude::*;
use vstd::string::StringSliceAdditionalSpecFns;
use vstd::utf8::{
    encode_utf8_valid_utf8, is_char_boundary_iff_not_is_continuation_byte,
    is_char_boundary_start_end_of_seq, is_continuation_byte, length_of_first_scalar,
    pop_first_scalar, valid_first_scalar, valid_utf8,
};

pub use crate::edit::kind::SyntaxKind;

verus! {

/// A control character that the lexer gives no meaning to: one of ASCII
/// that is no line feed, carriage return or tab.
pub open spec fn is_control(b: u8) -> bool {
    (b < 0x20 && b != 0x09 && b != 0x0a && b != 0x0d) || b == 0x7f
}

/// A byte that ends a run of text wherever it stands: a line end, a blank,
/// one of the signs that are tokens of their own, or a control character.
pub open spec fn is_delimiter(b: u8) -> bool {
    b == 0x0a || b == 0x0d || b == 0x20 || b == 0x09 || b == 0x2d || b == 0x2b || b == 0x40 || b
        == 0x2c || b == 0x3a || b == 0x2e || b == 0x2f || b == 0x2a || b == 0x21 || b == 0x3c || b
        == 0x3e || b == 0x5c || is_control(b)
}

/// A space or a tab.
pub open spec fn is_blank(b: u8) -> bool {
    b == 0x20 || b == 0x09
}

/// One of the letters `a`, `c` and `d` stands at `pos`, right behind a
/// digit: the letter of an ed command.
pub open spec fn ed_letter_at(bytes: Seq<u8>, pos: int) -> bool {
    0 < pos < bytes.len() && (bytes[pos] == 0x61 || bytes[pos] == 0x63 || bytes[pos] == 0x64)
        && is_digit(bytes[pos - 1])
}

/// The end of the run of digits that starts at `pos`.
pub open spec fn digits_end(bytes: Seq<u8>, pos: int) -> int
    decreases bytes.len() - pos,
{
    if pos < 0 || pos >= bytes.len() || !is_digit(bytes[pos]) {
        pos
    } else {
        digits_end(bytes, pos + 1)
    }
}

/// The end of the run of spaces and tabs that starts at `pos`.
pub open spec fn blanks_end(bytes: Seq<u8>, pos: int) -> int
    decreases bytes.len() - pos,
{
    if pos < 0 || pos >= bytes.len() || !is_blank(bytes[pos]) {
        pos
    } else {
        blanks_end(bytes, pos + 1)
    }
}

/// The end of the run of text that starts at `pos`: the next delimiter or
/// letter of an ed command, or the end of the input.
pub open spec fn text_end(bytes: Seq<u8>, pos: int) -> int
    decreases bytes.len() - pos,
{
    if pos < 0 || pos >= bytes.len() || is_delimiter(bytes[pos]) || ed_letter_at(bytes, pos) {
        pos
    } else {
        text_end(bytes, pos + 1)
    }
}

/// A token as the lexer finds it: its kind, the index behind its last byte,
/// and whether the next token starts a line.
pub struct Lexeme {
    pub kind: SyntaxKind,
    pub end: int,
    pub start_of_line: bool,
}

/// The token that starts at index `pos`, which lies within the input.
///
/// A line feed, a carriage return, and the two together are a `NEWLINE`.
/// A space at the start of a line is a `SPACE`; any other run of spaces and
/// tabs is `WHITESPACE`. The signs are tokens of one byte. A run of digits is
/// a `NUMBER`. One of `a`, `c`, `d` behind a digit is the letter of an ed
/// command. A control character is an `ERROR` token of one byte. Anything
/// else is `TEXT` up to the next delimiter.
pub open spec fn token_at(bytes: Seq<u8>, pos: int, start_of_line: bool) -> Lexeme {
    let b = bytes[pos];
    let one = pos + 1;
    if b == 0x0a {
        Lexeme { kind: SyntaxKind::NEWLINE, end: one, start_of_line: true }
    } else if b == 0x0d {
        Lexeme {
            kind: SyntaxKind::NEWLINE,
            end: if one < bytes.len() && bytes[one] == 0x0a {
                one + 1
            } else {
                one
            },
            start_of_line: true,
        }
    } else if b == 0x20 && start_of_line {
        Lexeme { kind: SyntaxKind::SPACE, end: one, start_of_line: false }
    } else if b == 0x20 || b == 0x09 {
        Lexeme { kind: SyntaxKind::WHITESPACE, end: blanks_end(bytes, pos), start_of_line }
    } else if b == 0x2d {
        Lexeme { kind: SyntaxKind::MINUS, end: one, start_of_line: false }
    } else if b == 0x2b {
        Lexeme { kind: SyntaxKind::PLUS, end: one, start_of_line: false }
    } else if b == 0x40 {
        Lexeme { kind: SyntaxKind::AT, end: one, start_of_line: false }
    } else if b == 0x2c {
        Lexeme { kind: SyntaxKind::COMMA, end: one, start_of_line }
    } else if b == 0x3a {
        Lexeme { kind: SyntaxKind::COLON, end: one, start_of_line }
    } else if b == 0x2e {
        Lexeme { kind: SyntaxKind::DOT, end: one, start_of_line }
    } else if b == 0x2f {
        Lexeme { kind: SyntaxKind::SLASH, end: one, start_of_line }
    } else if b == 0x2a {
        Lexeme { kind: SyntaxKind::STAR, end: one, start_of_line: false }
    } else if b == 0x21 {
        Lexeme { kind: SyntaxKind::EXCLAMATION, end: one, start_of_line: false }
    } else if b == 0x3c {
        Lexeme { kind: SyntaxKind::LESS_THAN, end: one, start_of_line: false }
    } else if b == 0x3e {
        Lexeme { kind: SyntaxKind::GREATER_THAN, end: one, start_of_line: false }
    } else if b == 0x5c {
        Lexeme { kind: SyntaxKind::BACKSLASH, end: one, start_of_line }
    } else if ed_letter_at(bytes, pos) {
        Lexeme {
            kind: if b == 0x61 {
                SyntaxKind::LETTER_A
            } else if b == 0x63 {
                SyntaxKind::LETTER_C
            } else {
                SyntaxKind::LETTER_D
            },
            end: one,
            start_of_line,
        }
    } else if is_digit(b) {
        Lexeme { kind: SyntaxKind::NUMBER, end: digits_end(bytes, pos), start_of_line }
    } else if is_control(b) {
        Lexeme { kind: SyntaxKind::ERROR, end: one, start_of_line: false }
    } else {
        Lexeme { kind: SyntaxKind::TEXT, end: text_end(bytes, pos), start_of_line: false }
    }
}

/// Every run ends at or behind its start, and within the input.
pub proof fn lemma_runs(bytes: Seq<u8>, pos: int)
    requires
        0 <= pos <= bytes.len(),
    ensures
        pos <= digits_end(bytes, pos) <= bytes.len(),
        pos <= blanks_end(bytes, pos) <= bytes.len(),
        pos <= text_end(bytes, pos) <= bytes.len(),
        forall|k: int| pos <= k < digits_end(bytes, pos) ==> is_digit(#[trigger] bytes[k]),
        forall|k: int| pos <= k < blanks_end(bytes, pos) ==> is_blank(#[trigger] bytes[k]),
        digits_end(bytes, pos) < bytes.len() ==> !is_digit(bytes[digits_end(bytes, pos)]),
        blanks_end(bytes, pos) < bytes.len() ==> !is_blank(bytes[blanks_end(bytes, pos)]),
        text_end(bytes, pos) < bytes.len() ==> is_delimiter(bytes[text_end(bytes, pos)])
            || ed_letter_at(bytes, text_end(bytes, pos)),
    decreases bytes.len() - pos,
{
    if pos < bytes.len() {
        lemma_runs(bytes, pos + 1);
    }
}

/// A token holds at least one byte and ends within the input.
pub proof fn lemma_token_advances(bytes: Seq<u8>, pos: int, start_of_line: bool)
    requires
        0 <= pos < bytes.len(),
    ensures
        pos < token_at(bytes, pos, start_of_line).end <= bytes.len(),
{
    lemma_runs(bytes, pos);
    lemma_runs(bytes, pos + 1);
}

/// The tokens of the input from index `pos` on, each with its text.
pub open spec fn tokens_from(bytes: Seq<u8>, pos: int, start_of_line: bool) -> Seq<
    (SyntaxKind, Seq<u8>),
>
    decreases bytes.len() - pos,
{
    if pos < 0 || pos >= bytes.len() {
        Seq::empty()
    } else {
        let t = token_at(bytes, pos, start_of_line);
        proof {
            lemma_token_advances(bytes, pos, start_of_line);
        }
        seq![(t.kind, bytes.subrange(pos, t.end))] + tokens_from(bytes, t.end, t.start_of_line)
    }
}

/// The tokens of an input.
pub open spec fn tokens_of(bytes: Seq<u8>) -> Seq<(SyntaxKind, Seq<u8>)> {
    tokens_from(bytes, 0, true)
}

/// The texts of a sequence of tokens.
pub open spec fn token_texts(tokens: Seq<(SyntaxKind, Seq<u8>)>) -> Seq<Seq<u8>> {
    tokens.map_values(|t: (SyntaxKind, Seq<u8>)| t.1)
}

/// The tokens from `pos` on cover the input from `pos` on: their texts, one
/// after another, are that part of the input, and none is empty.
pub proof fn lemma_tokens_cover(bytes: Seq<u8>, pos: int, start_of_line: bool)
    requires
        0 <= pos <= bytes.len(),
    ensures
        concat(token_texts(tokens_from(bytes, pos, start_of_line))) == bytes.subrange(
            pos,
            bytes.len() as int,
        ),
        forall|i: int|
            0 <= i < tokens_from(bytes, pos, start_of_line).len() ==> (#[trigger] tokens_from(
                bytes,
                pos,
                start_of_line,
            )[i]).1.len() > 0,
    decreases bytes.len() - pos,
{
    if pos >= bytes.len() {
        assert(bytes.subrange(pos, bytes.len() as int) =~= Seq::<u8>::empty());
        assert(token_texts(tokens_from(bytes, pos, start_of_line)) =~= Seq::<Seq<u8>>::empty());
    } else {
        let t = token_at(bytes, pos, start_of_line);
        lemma_token_advances(bytes, pos, start_of_line);
        lemma_tokens_cover(bytes, t.end, t.start_of_line);
        let head = bytes.subrange(pos, t.end);
        let rest = tokens_from(bytes, t.end, t.start_of_line);
        let all = tokens_from(bytes, pos, start_of_line);
        assert(token_texts(all) =~= seq![head] + token_texts(rest));
        lemma_concat_append(seq![head], token_texts(rest));
        lemma_concat_one(head);
        assert(head + bytes.subrange(t.end, bytes.len() as int) =~= bytes.subrange(
            pos,
            bytes.len() as int,
        ));
        assert forall|i: int| 0 <= i < all.len() implies (#[trigger] all[i]).1.len() > 0 by {
            if i > 0 {
                assert(all[i] == rest[i - 1]);
            }
        }
    }
}

/// The tokens of an input cover it.
pub proof fn lemma_lex_round_trip(bytes: Seq<u8>)
    ensures
        concat(token_texts(tokens_of(bytes))) == bytes,
{
    lemma_tokens_cover(bytes, 0, true);
    assert(bytes.subrange(0, bytes.len() as int) =~= bytes);
}

/// In well-formed UTF-8 the byte behind a byte below 128 starts a
/// character.
pub proof fn lemma_after_ascii(bytes: Seq<u8>, i: int)
    requires
        valid_utf8(bytes),
        0 <= i,
        i + 1 < bytes.len(),
        bytes[i] <= 0x7f,
    ensures
        !is_continuation_byte(bytes[i + 1]),
    decreases bytes.len(),
{
    let n = length_of_first_scalar(bytes);
    let rest = pop_first_scalar(bytes);
    assert(valid_first_scalar(bytes));
    assert(valid_utf8(rest));
    if i == 0 {
        assert(n == 1);
        assert(rest.len() > 0);
        assert(valid_first_scalar(rest));
        assert(rest[0] == bytes[1]);
    } else if i < n {
        assert(is_continuation_byte(bytes[i]));
    } else {
        assert(rest[i - n] == bytes[i]);
        assert(rest[i - n + 1] == bytes[i + 1]);
        lemma_after_ascii(rest, i - n);
    }
}

/// An index of a text at which a token may start or end: the end of the
/// text, or a byte that starts a character.
pub open spec fn at_boundary(bytes: Seq<u8>, pos: int) -> bool {
    0 <= pos <= bytes.len() && (pos < bytes.len() ==> !is_continuation_byte(bytes[pos]))
}

/// The part of `s` between two boundaries.
pub fn slice<'a>(s: &'a str, from: usize, to: usize) -> (r: &'a str)
    requires
        from <= to,
        at_boundary(s.spec_bytes(), from as int),
        at_boundary(s.spec_bytes(), to as int),
    ensures
        r.spec_bytes() == s.spec_bytes().subrange(from as int, to as int),
{
    let ghost bytes = s.spec_bytes();
    proof {
        encode_utf8_valid_utf8(s@);
        is_char_boundary_start_end_of_seq(bytes);
        if to < bytes.len() {
            is_char_boundary_iff_not_is_continuation_byte(bytes, to as int);
        }
    }
    let (head, _) = s.split_at(to);
    proof {
        encode_utf8_valid_utf8(head@);
        is_char_boundary_start_end_of_seq(head.spec_bytes());
        if from < to {
            is_char_boundary_iff_not_is_continuation_byte(head.spec_bytes(), from as int);
        }
    }
    let (_, r) = head.split_at(from);
    assert(r.spec_bytes() =~= bytes.subrange(from as int, to as int));
    r
}

/// A run of bytes of one class.
#[derive(Clone, Copy, PartialEq, Eq, Structural)]
pub enum Run {
    /// ASCII digits.
    Digits,
    /// Spaces and tabs.
    Blanks,
}

impl Run {
    /// Whether `b` belongs to the class.
    pub open spec fn holds(self, b: u8) -> bool {
        match self {
            Run::Digits => is_digit(b),
            Run::Blanks => is_blank(b),
        }
    }

    /// Whether `b` belongs to the class.
    pub fn contains(self, b: u8) -> (r: bool)
        ensures
            r == self.holds(b),
    {
        match self {
            Run::Digits => b >= 0x30 && b <= 0x39,
            Run::Blanks => b == 0x20 || b == 0x09,
        }
    }

    /// The end of the run of the class that starts at `pos`.
    pub open spec fn end(self, bytes: Seq<u8>, pos: int) -> int {
        match self {
            Run::Digits => digits_end(bytes, pos),
            Run::Blanks => blanks_end(bytes, pos),
        }
    }
}

/// The lexer: the text, the index of the next byte, and whether the next
/// token starts a line.
pub struct Lexer<'a> {
    input: &'a str,
    cursor: usize,
    start_of_line: bool,
}

impl<'a> Lexer<'a> {
    /// The bytes of the text.
    pub closed spec fn bytes(&self) -> Seq<u8> {
        self.input.spec_bytes()
    }

    /// The index of the next byte.
    pub closed spec fn pos(&self) -> int {
        self.cursor as int
    }

    /// Whether the next token starts a line.
    pub closed spec fn line_start(&self) -> bool {
        self.start_of_line
    }

    /// The lexer stands at a place where a token may start.
    pub open spec fn well_formed(&self) -> bool {
        at_boundary(self.bytes(), self.pos())
    }

    /// A lexer at the start of `input`.
    pub fn new(input: &'a str) -> (r: Self)
        ensures
            r.well_formed(),
            r.bytes() == input.spec_bytes(),
            r.pos() == 0,
            r.line_start(),
    {
        proof {
            encode_utf8_valid_utf8(input@);
            if input.spec_bytes().len() > 0 {
                assert(valid_first_scalar(input.spec_bytes()));
            }
        }
        Self { input, cursor: 0, start_of_line: true }
    }

    /// The next byte, if there is one.
    pub fn current_char(&self) -> (r: Option<u8>)
        requires
            self.well_formed(),
        ensures
            r == if self.pos() < self.bytes().len() {
                Some(self.bytes()[self.pos()])
            } else {
                None
            },
    {
        let bytes = self.input.as_bytes();
        if self.cursor < bytes.len() {
            Some(bytes[self.cursor])
        } else {
            None
        }
    }

    /// Whether the byte before the next one is a digit.
    pub fn could_be_ed_command(&self) -> (r: bool)
        requires
            self.well_formed(),
        ensures
            r == (self.pos() > 0 && is_digit(self.bytes()[self.pos() - 1])),
    {
        if self.cursor == 0 {
            return false;
        }
        let prev = self.input.as_bytes()[self.cursor - 1];
        prev >= 0x30 && prev <= 0x39
    }

    /// Takes the next `n` bytes as a token; they are below 128, or run up
    /// to a boundary.
    pub fn advance(&mut self, n: usize) -> (r: &'a str)
        requires
            old(self).well_formed(),
            old(self).pos() + n <= old(self).bytes().len(),
            at_boundary(old(self).bytes(), old(self).pos() + n),
        ensures
            final(self).well_formed(),
            final(self).bytes() == old(self).bytes(),
            final(self).pos() == old(self).pos() + n,
            final(self).line_start() == old(self).line_start(),
            r.spec_bytes() == old(self).bytes().subrange(old(self).pos(), old(self).pos() + n),
    {
        let len = self.input.as_bytes().len();
        let start = self.cursor;
        assert(start + n <= len);
        self.cursor = self.cursor + n;
        slice(self.input, start, self.cursor)
    }

    /// Takes the run of the given class that starts at the next byte.
    pub fn consume_while(&mut self, class: Run) -> (r: &'a str)
        requires
            old(self).well_formed(),
        ensures
            final(self).well_formed(),
            final(self).bytes() == old(self).bytes(),
            final(self).pos() == class.end(old(self).bytes(), old(self).pos()),
            final(self).line_start() == old(self).line_start(),
            r.spec_bytes() == old(self).bytes().subrange(old(self).pos(), final(self).pos()),
    {
        let bytes = self.input.as_bytes();
        let start = self.cursor;
        let mut end = start;
        while end < bytes.len() && class.contains(bytes[end])
            invariant
                start <= end <= bytes@.len(),
                bytes@ == self.input.spec_bytes(),
                class.end(bytes@, start as int) == class.end(bytes@, end as int),
                forall|k: int| start <= k < end ==> bytes@[k] <= 0x7f,
            decreases bytes.len() - end,
        {
            end += 1;
        }
        proof {
            encode_utf8_valid_utf8(self.input@);
            if start < end && end < bytes@.len() {
                lemma_after_ascii(bytes@, end - 1);
            }
        }
        self.cursor = end;
        slice(self.input, start, end)
    }

    /// Takes a run of digits.
    pub fn lex_number(&mut self) -> (r: (SyntaxKind, &'a str))
        requires
            old(self).well_formed(),
        ensures
            final(self).well_formed(),
            final(self).bytes() == old(self).bytes(),
            final(self).pos() == digits_end(old(self).bytes(), old(self).pos()),
            final(self).line_start() == old(self).line_start(),
            r.0 == SyntaxKind::NUMBER,
            r.1.spec_bytes() == old(self).bytes().subrange(old(self).pos(), final(self).pos()),
    {
        let text = self.consume_while(Run::Digits);
        (SyntaxKind::NUMBER, text)
    }

    /// Takes a run of spaces and tabs.
    pub fn lex_whitespace(&mut self) -> (r: (SyntaxKind, &'a str))
        requires
            old(self).well_formed(),
        ensures
            final(self).well_formed(),
            final(self).bytes() == old(self).bytes(),
            final(self).pos() == blanks_end(old(self).bytes(), old(self).pos()),
            final(self).line_start() == old(self).line_start(),
            r.0 == SyntaxKind::WHITESPACE,
            r.1.spec_bytes() == old(self).bytes().subrange(old(self).pos(), final(self).pos()),
    {
        let text = self.consume_while(Run::Blanks);
        (SyntaxKind::WHITESPACE, text)
    }

    /// Takes a run of text.
    fn lex_text(&mut self) -> (r: (SyntaxKind, &'a str))
        requires
            old(self).well_formed(),
        ensures
            final(self).well_formed(),
            final(self).bytes() == old(self).bytes(),
            final(self).pos() == text_end(old(self).bytes(), old(self).pos()),
            !final(self).line_start(),
            r.0 == SyntaxKind::TEXT,
            r.1.spec_bytes() == old(self).bytes().subrange(old(self).pos(), final(self).pos()),
    {
        let bytes = self.input.as_bytes();
        let start = self.cursor;
        let mut end = start;
        loop
            invariant
                start <= end <= bytes@.len(),
                bytes@ == self.input.spec_bytes(),
                text_end(bytes@, start as int) == text_end(bytes@, end as int),
            ensures
                end == text_end(bytes@, start as int),
                start <= end <= bytes@.len(),
                end < bytes@.len() ==> bytes@[end as int] <= 0x7f,
            decreases bytes.len() - end,
        {
            if end >= bytes.len() {
                break ;
            }
            let b = bytes[end];
            if b == 0x0a || b == 0x0d || b == 0x20 || b == 0x09 || b == 0x2d || b == 0x2b || b
                == 0x40 || b == 0x2c || b == 0x3a || b == 0x2e || b == 0x2f || b == 0x2a || b
                == 0x21 || b == 0x3c || b == 0x3e || b == 0x5c || b < 0x20 || b == 0x7f {
                break ;
            }
            if (b == 0x61 || b == 0x63 || b == 0x64) && end > 0 && bytes[end - 1] >= 0x30
                && bytes[end - 1] <= 0x39 {
                break ;
            }
            end += 1;
        }
        self.cursor = end;
        self.start_of_line = false;
        (SyntaxKind::TEXT, slice(self.input, start, end))
    }

    /// The next token, if the text has not ended.
    pub fn next(&mut self) -> (r: Option<(SyntaxKind, &'a str)>)
        requires
            old(self).well_formed(),
        ensures
            final(self).well_formed(),
            final(self).bytes() == old(self).bytes(),
            old(self).pos() >= old(self).bytes().len() ==> r is None && final(self).pos() == old(self).pos() && final(self).line_start() == old(self).line_start(),
            old(self).pos() < old(self).bytes().len() ==> r is Some && ({
                let t = token_at(old(self).bytes(), old(self).pos(), old(self).line_start());
                &&& r.unwrap().0 == t.kind
                &&& r.unwrap().1.spec_bytes() == old(self).bytes().subrange(old(self).pos(), t.end)
                &&& final(self).pos() == t.end
                &&& final(self).line_start() == t.start_of_line
            }),
    {
        let c = match self.current_char() {
            Some(c) => c,
            None => {
                return None;
            },
        };
        let ghost bytes = self.bytes();
        let ghost pos = self.pos();
        proof {
            encode_utf8_valid_utf8(self.input@);
            lemma_runs(bytes, pos);
            if c <= 0x7f && pos + 1 < bytes.len() {
                lemma_after_ascii(bytes, pos);
            }
        }
        if c == 0x0a {
            self.start_of_line = true;
            Some((SyntaxKind::NEWLINE, self.advance(1)))
        } else if c == 0x0d {
            self.start_of_line = true;
            let input = self.input.as_bytes();
            let len = input.len();
            assert(self.cursor < len);
            if self.cursor + 1 < len && input[self.cursor + 1] == 0x0a {
                proof {
                    if pos + 2 < bytes.len() {
                        lemma_after_ascii(bytes, pos + 1);
                    }
                }
                Some((SyntaxKind::NEWLINE, self.advance(2)))
            } else {
                Some((SyntaxKind::NEWLINE, self.advance(1)))
            }
        } else if c == 0x20 {
            if self.start_of_line {
                self.start_of_line = false;
                Some((SyntaxKind::SPACE, self.advance(1)))
            } else {
                Some(self.lex_whitespace())
            }
        } else if c == 0x09 {
            Some(self.lex_whitespace())
        } else if c == 0x2d {
            self.start_of_line = false;
            Some((SyntaxKind::MINUS, self.advance(1)))
        } else if c == 0x2b {
            self.start_of_line = false;
            Some((SyntaxKind::PLUS, self.advance(1)))
        } else if c == 0x40 {
            self.start_of_line = false;
            Some((SyntaxKind::AT, self.advance(1)))
        } else if c == 0x2c {
            Some((SyntaxKind::COMMA, self.advance(1)))
        } else if c == 0x3a {
            Some((SyntaxKind::COLON, self.advance(1)))
        } else if c == 0x2e {
            Some((SyntaxKind::DOT, self.advance(1)))
        } else if c == 0x2f {
            Some((SyntaxKind::SLASH, self.advance(1)))
        } else if c == 0x2a {
            self.start_of_line = false;
            Some((SyntaxKind::STAR, self.advance(1)))
        } else if c == 0x21 {
            self.start_of_line = false;
            Some((SyntaxKind::EXCLAMATION, self.advance(1)))
        } else if c == 0x3c {
            self.start_of_line = false;
            Some((SyntaxKind::LESS_THAN, self.advance(1)))
        } else if c == 0x3e {
            self.start_of_line = false;
            Some((SyntaxKind::GREATER_THAN, self.advance(1)))
        } else if c == 0x5c {
            Some((SyntaxKind::BACKSLASH, self.advance(1)))
        } else if (c == 0x61 || c == 0x63 || c == 0x64) && self.could_be_ed_command() {
            let kind = if c == 0x61 {
                SyntaxKind::LETTER_A
            } else if c == 0x63 {
                SyntaxKind::LETTER_C
            } else {
                SyntaxKind::LETTER_D
            };
            Some((kind, self.advance(1)))
        } else if c >= 0x30 && c <= 0x39 {
            Some(self.lex_number())
        } else if c < 0x20 || c == 0x7f {
            self.start_of_line = false;
            Some((SyntaxKind::ERROR, self.advance(1)))
        } else {
            Some(self.lex_text())
        }
    }
}

/// The views of a sequence of tokens: each kind with the bytes of its text.
pub open spec fn token_views(tokens: Seq<(SyntaxKind, &str)>) -> Seq<(SyntaxKind, Seq<u8>)> {
    tokens.map_values(|t: (SyntaxKind, &str)| (t.0, t.1.spec_bytes()))
}

/// Lex a patch file into tokens
pub fn lex<'a>(input: &'a str) -> (r: Vec<(SyntaxKind, &'a str)>)
    ensures
        token_views(r@) == tokens_of(input.spec_bytes()),
        concat(token_texts(token_views(r@))) == input.spec_bytes(),
{
    let ghost bytes = input.spec_bytes();
    let mut lexer = Lexer::new(input);
    let mut tokens: Vec<(SyntaxKind, &'a str)> = Vec::new();
    assert(token_views(tokens@) + tokens_of(bytes) =~= tokens_of(bytes));
    loop
        invariant
            lexer.well_formed(),
            lexer.bytes() == bytes,
            0 <= lexer.pos() <= bytes.len(),
            tokens_of(bytes) == token_views(tokens@) + tokens_from(
                bytes,
                lexer.pos(),
                lexer.line_start(),
            ),
        ensures
            tokens_of(bytes) == token_views(tokens@),
        decreases bytes.len() - lexer.pos(),
    {
        let ghost pos = lexer.pos();
        let ghost sol = lexer.line_start();
        let ghost before = tokens@;
        match lexer.next() {
            Some(token) => {
                proof {
                    lemma_token_advances(bytes, pos, sol);
                    let t = token_at(bytes, pos, sol);
                    assert(token_views(before.push(token)) =~= token_views(before).push(
                        (token.0, token.1.spec_bytes()),
                    ));
                    assert(token_views(before) + (seq![(t.kind, bytes.subrange(pos, t.end))]
                        + tokens_from(bytes, t.end, t.start_of_line)) =~= token_views(
                        before,
                    ).push((t.kind, bytes.subrange(pos, t.end))) + tokens_from(
                        bytes,
                        t.end,
                        t.start_of_line,
                    ));
                }
                tokens.push(token);
            },
            None => {
                assert(token_views(tokens@) + Seq::<(SyntaxKind, Seq<u8>)>::empty()
                    =~= token_views(tokens@));
                break ;
            },
        }
    }
    proof {
        lemma_lex_round_trip(bytes);
    }
    tokens
}

} // verus!
