//! Parser for quilt series files
use crate::edit::builder::{no_step, Step, TreeBuilder};
use crate::edit::green::{node_tree, Elem, Tree};
use crate::edit::quilt::lex::{
    lemma_tokens_cover, text_upto, token_views, tokens_from, tokens_of, Lexer, SyntaxKind,
};
use crate::edit::quilt::lossless::SeriesFile;
use crate::parse::Parse;
use vstd::prelude::*;
use vstd::string::{StringExecFns, StringSliceAdditionalSpecFns};
use vstd::utf8::encode_utf8;

verus! {

/// The index of the first `EOF` token at or behind index `i`, or the number
/// of tokens where there is none: where the parser stops.
pub open spec fn stop_index(tokens: Seq<(SyntaxKind, Seq<u8>)>, i: int) -> int
    decreases tokens.len() - i,
{
    if i < 0 || i >= tokens.len() || tokens[i].0 == SyntaxKind::EOF {
        i
    } else {
        stop_index(tokens, i + 1)
    }
}

/// The parser stops at or behind where it stands, within the tokens.
pub proof fn lemma_stop_index(tokens: Seq<(SyntaxKind, Seq<u8>)>, i: int)
    requires
        0 <= i <= tokens.len(),
    ensures
        i <= stop_index(tokens, i) <= tokens.len(),
    decreases tokens.len() - i,
{
    if i < tokens.len() && tokens[i].0 != SyntaxKind::EOF {
        lemma_stop_index(tokens, i + 1);
    }
}

/// The text of more tokens is longer.
pub proof fn lemma_text_upto_grows(tokens: Seq<(SyntaxKind, Seq<u8>)>, n: int, m: int)
    requires
        0 <= n <= m <= tokens.len(),
    ensures
        text_upto(tokens, n).len() <= text_upto(tokens, m).len(),
    decreases m - n,
{
    if n < m {
        lemma_text_upto_grows(tokens, n, m - 1);
    }
}

/// The text of the first tokens does not depend on the tokens behind them.
pub proof fn lemma_text_upto_prefix(
    a: Seq<(SyntaxKind, Seq<u8>)>,
    b: Seq<(SyntaxKind, Seq<u8>)>,
    n: int,
)
    requires
        0 <= n <= a.len() <= b.len(),
        forall|i: int| 0 <= i < a.len() ==> a[i] == b[i],
    ensures
        text_upto(a, n) == text_upto(b, n),
    decreases n,
{
    if n > 0 {
        lemma_text_upto_prefix(a, b, n - 1);
    }
}

/// The tokens of a text end where the parser stops, and their text up to
/// there is the text.
pub proof fn lemma_tokens_of(bytes: Seq<u8>)
    ensures
        stop_index(tokens_of(bytes), 0) == tokens_of(bytes).len() - 1,
        text_upto(tokens_of(bytes), tokens_of(bytes).len() - 1) == bytes,
        text_upto(tokens_of(bytes), tokens_of(bytes).len() as int) == bytes,
{
    let body = tokens_from(bytes, 0, false);
    let all = tokens_of(bytes);
    lemma_tokens_cover(bytes, 0, false);
    lemma_text_upto_prefix(body, all, body.len() as int);
    assert(bytes.subrange(0, bytes.len() as int) =~= bytes);
    assert(text_upto(all, all.len() as int) =~= bytes);
    lemma_stop_is(all, 0, body.len() as int);
}

/// The kind of token `i`, if there is such a token.
pub open spec fn kind_at(tokens: Seq<(SyntaxKind, Seq<u8>)>, i: int) -> Option<SyntaxKind> {
    if 0 <= i < tokens.len() {
        Some(tokens[i].0)
    } else {
        None
    }
}

/// Token `i` as an element of the tree.
pub open spec fn token_elem(tokens: Seq<(SyntaxKind, Seq<u8>)>, i: int) -> Elem {
    Elem::Token(tokens[i].0.raw(), tokens[i].1)
}

/// Token `i` is there to be read: it is no `EOF` token.
pub open spec fn readable(tokens: Seq<(SyntaxKind, Seq<u8>)>, i: int) -> bool {
    kind_at(tokens, i) is Some && kind_at(tokens, i) != Some(SyntaxKind::EOF)
}

/// Token `i` is a space or a tab.
pub open spec fn blank_at(tokens: Seq<(SyntaxKind, Seq<u8>)>, i: int) -> bool {
    kind_at(tokens, i) == Some(SyntaxKind::SPACE) || kind_at(tokens, i) == Some(SyntaxKind::TAB)
}

/// A step with the element `e` before the elements of `rest`.
pub open spec fn after(e: Elem, rest: Step) -> Step {
    Step { elems: seq![e] + rest.elems, end: rest.end }
}

/// The spaces and tabs from token `i` on.
pub open spec fn blanks_step(tokens: Seq<(SyntaxKind, Seq<u8>)>, i: int) -> Step
    decreases tokens.len() - i,
{
    if blank_at(tokens, i) {
        after(token_elem(tokens, i), blanks_step(tokens, i + 1))
    } else {
        no_step(i)
    }
}

/// Token `i`, if it is of kind `kind`.
pub open spec fn optional(tokens: Seq<(SyntaxKind, Seq<u8>)>, i: int, kind: SyntaxKind) -> Step {
    if kind_at(tokens, i) == Some(kind) {
        Step { elems: seq![token_elem(tokens, i)], end: i + 1 }
    } else {
        no_step(i)
    }
}

/// An option in a node of its own.
pub open spec fn item_of(tokens: Seq<(SyntaxKind, Seq<u8>)>, i: int) -> Elem {
    Elem::Node(
        Tree { kind: SyntaxKind::OPTION_ITEM.raw(), children: seq![token_elem(tokens, i)] },
    )
}

/// The spaces, tabs and options from token `i` on, each option in a node
/// of its own.
pub open spec fn options_items(tokens: Seq<(SyntaxKind, Seq<u8>)>, i: int) -> Step
    decreases tokens.len() - i,
{
    if blank_at(tokens, i) {
        after(token_elem(tokens, i), options_items(tokens, i + 1))
    } else if kind_at(tokens, i) == Some(SyntaxKind::OPTION) {
        after(item_of(tokens, i), options_items(tokens, i + 1))
    } else {
        no_step(i)
    }
}

/// Whether an option follows the spaces and tabs from token `i` on.
pub open spec fn has_options(tokens: Seq<(SyntaxKind, Seq<u8>)>, i: int) -> bool {
    kind_at(tokens, blanks_step(tokens, i).end) == Some(SyntaxKind::OPTION)
}

/// A comment that starts with the `#` at token `i`: the `#`, spaces and
/// tabs, a text and the end of the line, as far as they are there.
pub open spec fn comment_step(tokens: Seq<(SyntaxKind, Seq<u8>)>, i: int) -> Step {
    let blanks = blanks_step(tokens, i + 1);
    let text = optional(tokens, blanks.end, SyntaxKind::TEXT);
    let end = optional(tokens, text.end, SyntaxKind::NEWLINE);
    Step {
        elems: seq![
            Elem::Node(
                Tree {
                    kind: SyntaxKind::COMMENT_LINE.raw(),
                    children: seq![token_elem(tokens, i)] + blanks.elems + text.elems + end.elems,
                },
            ),
        ],
        end: end.end,
    }
}

/// A patch that starts with the name at token `i`: the name, the options
/// in a node of their own if there are any, and the end of the line if it is
/// there.
pub open spec fn patch_step(tokens: Seq<(SyntaxKind, Seq<u8>)>, i: int) -> Step {
    let options = if has_options(tokens, i + 1) {
        Step {
            elems: seq![
                Elem::Node(
                    Tree {
                        kind: SyntaxKind::OPTIONS.raw(),
                        children: options_items(tokens, i + 1).elems,
                    },
                ),
            ],
            end: options_items(tokens, i + 1).end,
        }
    } else {
        no_step(i + 1)
    };
    let end = optional(tokens, options.end, SyntaxKind::NEWLINE);
    Step {
        elems: seq![
            Elem::Node(
                Tree {
                    kind: SyntaxKind::PATCH_ENTRY.raw(),
                    children: seq![token_elem(tokens, i)] + options.elems + end.elems,
                },
            ),
        ],
        end: end.end,
    }
}

/// The tokens from token `i` up to the end of the line.
pub open spec fn line_rest(tokens: Seq<(SyntaxKind, Seq<u8>)>, i: int) -> Step
    decreases tokens.len() - i,
{
    if readable(tokens, i) && kind_at(tokens, i) != Some(SyntaxKind::NEWLINE) {
        after(token_elem(tokens, i), line_rest(tokens, i + 1))
    } else {
        no_step(i)
    }
}

/// Whether what follows the spaces and tabs from token `i` on is neither
/// the end of the line nor a comment nor a patch: an error.
pub open spec fn is_bad_entry(tokens: Seq<(SyntaxKind, Seq<u8>)>, i: int) -> bool {
    let kind = kind_at(tokens, blanks_step(tokens, i).end);
    kind != Some(SyntaxKind::NEWLINE) && kind != Some(SyntaxKind::HASH) && kind != Some(
        SyntaxKind::PATCH_NAME,
    )
}

/// An entry of the series from token `i` on: spaces and tabs, and then a
/// comment or a patch, or nothing before the end of the line, or whatever
/// stands on the line.
pub open spec fn entry_step(tokens: Seq<(SyntaxKind, Seq<u8>)>, i: int) -> Step {
    let blanks = blanks_step(tokens, i);
    let kind = kind_at(tokens, blanks.end);
    let body = if kind == Some(SyntaxKind::NEWLINE) {
        no_step(blanks.end)
    } else if kind == Some(SyntaxKind::HASH) {
        comment_step(tokens, blanks.end)
    } else if kind == Some(SyntaxKind::PATCH_NAME) {
        patch_step(tokens, blanks.end)
    } else {
        line_rest(tokens, blanks.end)
    };
    Step {
        elems: seq![
            Elem::Node(
                Tree { kind: SyntaxKind::SERIES_ENTRY.raw(), children: blanks.elems + body.elems },
            ),
        ],
        end: body.end,
    }
}

/// The steps end at or behind their start, and read no `EOF` token.
pub proof fn lemma_steps(tokens: Seq<(SyntaxKind, Seq<u8>)>, i: int)
    requires
        0 <= i <= tokens.len(),
    ensures
        i <= blanks_step(tokens, i).end <= tokens.len(),
        i <= options_items(tokens, i).end <= tokens.len(),
        i <= line_rest(tokens, i).end <= tokens.len(),
        !blank_at(tokens, blanks_step(tokens, i).end),
        blank_at(tokens, i) ==> blanks_step(tokens, i).end > i,
        readable(tokens, i) && kind_at(tokens, i) != Some(SyntaxKind::NEWLINE) ==> line_rest(
            tokens,
            i,
        ).end > i,
    decreases tokens.len() - i,
{
    if i < tokens.len() {
        lemma_steps(tokens, i + 1);
    }
}

/// An entry that starts at a token that is there to be read, and is not
/// the end of a line, reads at least one token.
pub proof fn lemma_entry_advances(tokens: Seq<(SyntaxKind, Seq<u8>)>, i: int)
    requires
        readable(tokens, i),
        kind_at(tokens, i) != Some(SyntaxKind::NEWLINE),
    ensures
        i < entry_step(tokens, i).end <= tokens.len(),
{
    lemma_steps(tokens, i);
    let b = blanks_step(tokens, i).end;
    lemma_steps(tokens, b);
    if b < tokens.len() {
        lemma_steps(tokens, b + 1);
        let t = blanks_step(tokens, b + 1).end;
        lemma_steps(tokens, t);
    }
}

/// The children of the root from token `i` on, and the number of entries
/// among them that are errors: ends of lines and entries, up to the `EOF`
/// token.
pub open spec fn series_step(tokens: Seq<(SyntaxKind, Seq<u8>)>, i: int) -> (Seq<Elem>, nat)
    decreases tokens.len() - i,
{
    if i < 0 || !readable(tokens, i) {
        (Seq::empty(), 0)
    } else if kind_at(tokens, i) == Some(SyntaxKind::NEWLINE) {
        (
            seq![token_elem(tokens, i)] + series_step(tokens, i + 1).0,
            series_step(tokens, i + 1).1,
        )
    } else {
        proof {
            lemma_entry_advances(tokens, i);
        }
        let rest = series_step(tokens, entry_step(tokens, i).end);
        (
            entry_step(tokens, i).elems + rest.0,
            rest.1 + if is_bad_entry(tokens, i) {
                1nat
            } else {
                0nat
            },
        )
    }
}

/// The tree of a series file with the given tokens.
pub open spec fn series_tree(tokens: Seq<(SyntaxKind, Seq<u8>)>) -> Tree {
    Tree { kind: SyntaxKind::ROOT.raw(), children: series_step(tokens, 0).0 }
}

/// The message for a token that is not of the kind that was expected:
/// the name of that kind, and what was found in its place.
pub open spec fn unexpected_message(expected: SyntaxKind, found: Option<SyntaxKind>) -> Seq<char> {
    "Expected "@ + expected.spelled() + ", found "@ + match found {
        Some(kind) => "Some("@ + kind.spelled() + ")"@,
        None => "None"@,
    }
}

/// The message for an entry that is neither a comment nor a patch, as
/// often as there are such entries.
pub open spec fn bad_entry_messages(n: nat) -> Seq<Seq<char>> {
    Seq::new(n, |i: int| "Expected patch name or comment"@)
}

/// The texts of the messages.
pub open spec fn message_texts(messages: Seq<String>) -> Seq<Seq<char>> {
    messages.map_values(|m: String| m@)
}

/// The parser: the tokens, the index of the next one, the tree built from
/// the tokens before it, and the errors found.
pub struct Parser<'a> {
    tokens: &'a [(SyntaxKind, String)],
    pos: usize,
    builder: TreeBuilder,
    errors: Vec<String>,
}

impl<'a> Parser<'a> {
    /// The tokens, each as its kind and the bytes of its text.
    pub closed spec fn tokens(&self) -> Seq<(SyntaxKind, Seq<u8>)> {
        token_views(self.tokens@)
    }

    /// The index of the next token.
    pub closed spec fn place(&self) -> int {
        self.pos as int
    }

    /// The builder of the tree.
    pub closed spec fn tree(&self) -> TreeBuilder {
        self.builder
    }

    /// The elements that are finished and stand below no finished node.
    pub open spec fn built(&self) -> Seq<Elem> {
        self.tree().children()
    }

    /// The messages of the errors found.
    pub closed spec fn messages(&self) -> Seq<Seq<char>> {
        message_texts(self.errors@)
    }

    /// The tree built so far covers exactly the tokens read so far, none
    /// of which is an `EOF` token, and the text of all tokens can be counted
    /// in 32 bits.
    #[verifier::opaque]
    pub open spec fn covers(&self) -> bool {
        &&& self.tree().wf()
        &&& self.tree().text() == text_upto(self.tokens(), self.place())
        &&& text_upto(self.tokens(), self.tokens().len() as int).len() <= u32::MAX
        &&& forall|k: int|
            0 <= k < self.place() ==> (#[trigger] self.tokens()[k]).0 != SyntaxKind::EOF
    }

    /// The parser stands within its tokens, and its tree covers the tokens
    /// before that place.
    pub open spec fn wf(&self) -> bool {
        &&& 0 <= self.place() <= self.tokens().len()
        &&& self.covers()
    }

    /// The kind of the next token, if there is one.
    pub open spec fn next_kind(&self) -> Option<SyntaxKind> {
        kind_at(self.tokens(), self.place())
    }

    /// No token is left to read: none at all, or the `EOF` token only.
    pub open spec fn ended(&self) -> bool {
        !readable(self.tokens(), self.place())
    }

    /// What every step of the parser keeps: the tokens and the open nodes.
    pub open spec fn follows(&self, before: &Self) -> bool {
        &&& self.wf()
        &&& self.tokens() == before.tokens()
        &&& self.tree().parents() == before.tree().parents()
    }

    /// The parser has made the step `step` from the state `before`: it has
    /// added the elements of the step and stands where the step ends, and has
    /// found no error.
    pub open spec fn stepped(&self, before: &Self, step: Step) -> bool {
        &&& self.follows(before)
        &&& self.built() == before.built() + step.elems
        &&& self.place() == step.end
        &&& self.messages() == before.messages()
    }

    /// A parser at the first of `tokens`.
    pub fn new(tokens: &'a [(SyntaxKind, String)]) -> (r: Self)
        requires
            text_upto(token_views(tokens@), tokens@.len() as int).len() <= u32::MAX,
        ensures
            r.wf(),
            r.tokens() == token_views(tokens@),
            r.place() == 0,
            r.built() == Seq::<Elem>::empty(),
            r.tree().parents() == Seq::<(u16, nat)>::empty(),
            r.messages() == Seq::<Seq<char>>::empty(),
    {
        reveal(Parser::covers);
        let r = Self { tokens, pos: 0, builder: TreeBuilder::new(), errors: Vec::new() };
        assert(r.messages() =~= Seq::<Seq<char>>::empty());
        r
    }

    /// Opens a node.
    fn start_node(&mut self, kind: SyntaxKind)
        requires
            old(self).wf(),
        ensures
            final(self).wf(),
            final(self).tokens() == old(self).tokens(),
            final(self).place() == old(self).place(),
            final(self).messages() == old(self).messages(),
            final(self).built() == old(self).built(),
            final(self).tree().parents().len() > 0,
            final(self).tree().parents().drop_last() == old(self).tree().parents(),
            final(self).tree().parents().last() == (kind.raw(), old(self).built().len()),
    {
        reveal(Parser::covers);
        proof {
            let x = (kind.raw(), self.tree().children().len());
            assert(self.tree().parents().push(x).drop_last() =~= self.tree().parents());
        }
        self.builder.start_node(kind.to_raw());
    }

    /// Closes the innermost open node, which was opened behind the
    /// elements `base`: what has been added since becomes its children.
    fn finish_node(&mut self, Ghost(base): Ghost<Seq<Elem>>, Ghost(inner): Ghost<Seq<Elem>>)
        requires
            old(self).wf(),
            old(self).tree().parents().len() > 0,
            old(self).tree().parents().last().1 == base.len(),
            old(self).built() == base + inner,
        ensures
            final(self).wf(),
            final(self).tokens() == old(self).tokens(),
            final(self).place() == old(self).place(),
            final(self).messages() == old(self).messages(),
            final(self).tree().parents() == old(self).tree().parents().drop_last(),
            final(self).built() == base + seq![
                Elem::Node(Tree { kind: old(self).tree().parents().last().0, children: inner }),
            ],
    {
        reveal(Parser::covers);
        proof {
            assert((base + inner).subrange(0, base.len() as int) =~= base);
            assert((base + inner).subrange(base.len() as int, (base + inner).len() as int)
                =~= inner);
        }
        self.builder.finish_node();
        proof {
            let node = Elem::Node(
                Tree { kind: old(self).tree().parents().last().0, children: inner },
            );
            assert(base.push(node) =~= base + seq![node]);
        }
    }

    /// The kind of the next token.
    fn current_kind(&self) -> (r: Option<SyntaxKind>)
        requires
            self.wf(),
        ensures
            r == self.next_kind(),
    {
        if self.pos < self.tokens.len() {
            Some(self.tokens[self.pos].0)
        } else {
            None
        }
    }

    /// Whether the next token is of kind `kind`.
    fn at(&self, kind: SyntaxKind) -> (r: bool)
        requires
            self.wf(),
        ensures
            r == (self.next_kind() == Some(kind)),
    {
        match self.current_kind() {
            Some(k) => k == kind,
            None => false,
        }
    }

    /// Whether the next token is a space or a tab.
    fn at_blank(&self) -> (r: bool)
        requires
            self.wf(),
        ensures
            r == blank_at(self.tokens(), self.place()),
    {
        self.at(SyntaxKind::SPACE) || self.at(SyntaxKind::TAB)
    }

    /// Whether the tokens have ended: none is left, or the next is `EOF`.
    fn at_end(&self) -> (r: bool)
        requires
            self.wf(),
        ensures
            r == self.ended(),
    {
        self.pos >= self.tokens.len() || self.at(SyntaxKind::EOF)
    }

    /// Puts the next token into the tree.
    fn consume(&mut self)
        requires
            old(self).wf(),
            !old(self).ended(),
        ensures
            final(self).stepped(
                old(self),
                Step {
                    elems: seq![token_elem(old(self).tokens(), old(self).place())],
                    end: old(self).place() + 1,
                },
            ),
    {
        reveal(Parser::covers);
        proof {
            lemma_text_upto_grows(self.tokens(), self.place() + 1, self.tokens().len() as int);
        }
        let token = &self.tokens[self.pos];
        self.builder.token(token.0.to_raw(), token.1.as_str());
        self.pos += 1;
        proof {
            let e = token_elem(old(self).tokens(), old(self).place());
            assert(old(self).built().push(e) =~= old(self).built() + seq![e]);
        }
    }

    /// Records an error.
    fn error(&mut self, message: &str)
        requires
            old(self).wf(),
        ensures
            final(self).wf(),
            final(self).tokens() == old(self).tokens(),
            final(self).place() == old(self).place(),
            final(self).tree() == old(self).tree(),
            final(self).messages() == old(self).messages().push(message@),
    {
        reveal(Parser::covers);
        self.errors.push(String::from_str(message));
        assert(self.messages() =~= old(self).messages().push(message@));
    }

    /// Puts the next token into the tree if it is of kind `expected`; else
    /// records an error and puts an `ERROR` token without text in its place.
    fn expect(&mut self, expected: SyntaxKind)
        requires
            old(self).wf(),
            expected != SyntaxKind::EOF,
        ensures
            final(self).follows(old(self)),
            old(self).next_kind() == Some(expected) ==> final(self).stepped(
                old(self),
                Step {
                    elems: seq![token_elem(old(self).tokens(), old(self).place())],
                    end: old(self).place() + 1,
                },
            ),
            old(self).next_kind() != Some(expected) ==> {
                &&& final(self).place() == old(self).place()
                &&& final(self).built() == old(self).built().push(
                    Elem::Token(SyntaxKind::ERROR.raw(), Seq::empty()),
                )
                &&& final(self).messages() == old(self).messages().push(
                    unexpected_message(expected, old(self).next_kind()),
                )
            },
    {
        let found = self.current_kind();
        let fits = match found {
            Some(kind) => kind == expected,
            None => false,
        };
        if fits {
            self.consume();
        } else {
            let mut message = String::from_str("Expected ");
            message.append(expected.name());
            message.append(", found ");
            match found {
                Some(kind) => {
                    message.append("Some(");
                    message.append(kind.name());
                    message.append(")");
                },
                None => {
                    message.append("None");
                },
            }
            proof {
                let tail = match found {
                    Some(kind) => "Some("@ + kind.spelled() + ")"@,
                    None => "None"@,
                };
                assert(message@ =~= "Expected "@ + expected.spelled() + ", found "@ + tail);
            }
            self.error(message.as_str());
            reveal(Parser::covers);
            proof {
                reveal_strlit("");
                assert(""@ =~= Seq::<char>::empty());
                assert(encode_utf8(""@) =~= Seq::<u8>::empty());
                assert(self.tree().text() + "".spec_bytes() =~= self.tree().text());
            }
            self.builder.token(SyntaxKind::ERROR.to_raw(), "");
        }
    }

    /// Whether an option follows the blanks at this place.
    fn has_options_ahead(&self) -> (r: bool)
        requires
            self.wf(),
        ensures
            r == has_options(self.tokens(), self.place()),
    {
        let mut pos = self.pos;
        while pos < self.tokens.len() && (self.tokens[pos].0 == SyntaxKind::SPACE
            || self.tokens[pos].0 == SyntaxKind::TAB)
            invariant
                self.place() <= pos <= self.tokens().len(),
                self.tokens().len() == self.tokens@.len(),
                forall|k: int| 0 <= k < self.tokens@.len() ==> self.tokens()[k].0 == self.tokens@[k].0,
                blanks_step(self.tokens(), self.place()).end == blanks_step(
                    self.tokens(),
                    pos as int,
                ).end,
            decreases self.tokens.len() - pos,
        {
            pos += 1;
        }
        pos < self.tokens.len() && self.tokens[pos].0 == SyntaxKind::OPTION
    }

    /// Puts the blanks at this place into the tree.
    fn skip_blanks(&mut self)
        requires
            old(self).wf(),
        ensures
            final(self).stepped(old(self), blanks_step(old(self).tokens(), old(self).place())),
    {
        let ghost tokens = self.tokens();
        let ghost whole = blanks_step(tokens, self.place());
        assert(self.built() + whole.elems =~= old(self).built() + whole.elems);
        while self.at_blank()
            invariant
                self.follows(old(self)),
                tokens == self.tokens(),
                self.messages() == old(self).messages(),
                whole == blanks_step(tokens, old(self).place()),
                whole.end == blanks_step(tokens, self.place()).end,
                old(self).built() + whole.elems == self.built() + blanks_step(
                    tokens,
                    self.place(),
                ).elems,
            decreases self.tokens().len() - self.place(),
        {
            let ghost before = self.built();
            let ghost at = self.place();
            self.consume();
            proof {
                let e = token_elem(tokens, at);
                let rest = blanks_step(tokens, at + 1).elems;
                assert(before + (seq![e] + rest) =~= (before + seq![e]) + rest);
            }
        }
        assert(self.built() + Seq::<Elem>::empty() =~= self.built());
    }

    /// Reads the options of a patch: the blanks and the options behind the
    /// name, each option in a node of its own.
    fn parse_options(&mut self)
        requires
            old(self).wf(),
        ensures
            final(self).stepped(
                old(self),
                Step {
                    elems: seq![
                        Elem::Node(
                            Tree {
                                kind: SyntaxKind::OPTIONS.raw(),
                                children: options_items(
                                    old(self).tokens(),
                                    old(self).place(),
                                ).elems,
                            },
                        ),
                    ],
                    end: options_items(old(self).tokens(), old(self).place()).end,
                },
            ),
    {
        let ghost tokens = self.tokens();
        let ghost base = self.built();
        let ghost whole = options_items(tokens, self.place());
        let ghost mut inner: Seq<Elem> = Seq::empty();
        self.start_node(SyntaxKind::OPTIONS);
        assert(inner + whole.elems =~= whole.elems);
        assert(base + inner =~= base);
        while self.at_blank() || self.at(SyntaxKind::OPTION)
            invariant
                self.wf(),
                tokens == self.tokens(),
                self.tokens() == old(self).tokens(),
                self.messages() == old(self).messages(),
                base == old(self).built(),
                self.built() == base + inner,
                whole == options_items(tokens, old(self).place()),
                whole.end == options_items(tokens, self.place()).end,
                whole.elems == inner + options_items(tokens, self.place()).elems,
                self.tree().parents().len() > 0,
                self.tree().parents().drop_last() == old(self).tree().parents(),
                self.tree().parents().last() == (SyntaxKind::OPTIONS.raw(), base.len()),
            decreases self.tokens().len() - self.place(),
        {
            let ghost at = self.place();
            let ghost before = self.built();
            let ghost rest = options_items(tokens, at + 1).elems;
            if self.at(SyntaxKind::OPTION) {
                self.start_node(SyntaxKind::OPTION_ITEM);
                self.consume();
                let ghost one = seq![token_elem(tokens, at)];
                self.finish_node(Ghost(before), Ghost(one));
                proof {
                    let e = item_of(tokens, at);
                    assert(inner + (seq![e] + rest) =~= (inner + seq![e]) + rest);
                    assert(base + inner + seq![e] =~= base + (inner + seq![e]));
                    inner = inner + seq![e];
                }
            } else {
                self.consume();
                proof {
                    let e = token_elem(tokens, at);
                    assert(inner + (seq![e] + rest) =~= (inner + seq![e]) + rest);
                    assert(base + inner + seq![e] =~= base + (inner + seq![e]));
                    inner = inner + seq![e];
                }
            }
        }
        assert(inner + Seq::<Elem>::empty() =~= inner);
        self.finish_node(Ghost(base), Ghost(inner));
    }

    /// Puts the next token into the tree, if it is of kind `kind`.
    fn eat(&mut self, kind: SyntaxKind)
        requires
            old(self).wf(),
            kind != SyntaxKind::EOF,
        ensures
            final(self).stepped(old(self), optional(old(self).tokens(), old(self).place(), kind)),
    {
        if self.at(kind) {
            self.consume();
        } else {
            assert(self.built() + Seq::<Elem>::empty() =~= self.built());
        }
    }

    /// Reads a comment: `#`, blanks, the text and the end of the line.
    fn parse_comment(&mut self)
        requires
            old(self).wf(),
            old(self).next_kind() == Some(SyntaxKind::HASH),
        ensures
            final(self).stepped(old(self), comment_step(old(self).tokens(), old(self).place())),
    {
        let ghost tokens = self.tokens();
        let ghost at = self.place();
        let ghost base = self.built();
        self.start_node(SyntaxKind::COMMENT_LINE);
        self.expect(SyntaxKind::HASH);
        self.skip_blanks();
        self.eat(SyntaxKind::TEXT);
        self.eat(SyntaxKind::NEWLINE);
        let ghost blanks = blanks_step(tokens, at + 1);
        let ghost text = optional(tokens, blanks.end, SyntaxKind::TEXT);
        let ghost end = optional(tokens, text.end, SyntaxKind::NEWLINE);
        let ghost inner = seq![token_elem(tokens, at)] + blanks.elems + text.elems + end.elems;
        proof {
            assert(self.built() =~= base + inner);
        }
        self.finish_node(Ghost(base), Ghost(inner));
    }

    /// Reads a patch: its name, its options and the end of the line.
    fn parse_patch_entry(&mut self)
        requires
            old(self).wf(),
            old(self).next_kind() == Some(SyntaxKind::PATCH_NAME),
        ensures
            final(self).stepped(old(self), patch_step(old(self).tokens(), old(self).place())),
    {
        let ghost tokens = self.tokens();
        let ghost at = self.place();
        let ghost base = self.built();
        self.start_node(SyntaxKind::PATCH_ENTRY);
        self.expect(SyntaxKind::PATCH_NAME);
        let ghost options = if has_options(tokens, at + 1) {
            Step {
                elems: seq![
                    Elem::Node(
                        Tree {
                            kind: SyntaxKind::OPTIONS.raw(),
                            children: options_items(tokens, at + 1).elems,
                        },
                    ),
                ],
                end: options_items(tokens, at + 1).end,
            }
        } else {
            no_step(at + 1)
        };
        if self.has_options_ahead() {
            self.parse_options();
        } else {
            assert(self.built() + Seq::<Elem>::empty() =~= self.built());
        }
        self.eat(SyntaxKind::NEWLINE);
        let ghost end = optional(tokens, options.end, SyntaxKind::NEWLINE);
        let ghost inner = seq![token_elem(tokens, at)] + options.elems + end.elems;
        proof {
            assert(self.built() =~= base + inner);
        }
        self.finish_node(Ghost(base), Ghost(inner));
    }

    /// Puts the tokens up to the end of the line into the tree.
    fn skip_line(&mut self)
        requires
            old(self).wf(),
        ensures
            final(self).stepped(old(self), line_rest(old(self).tokens(), old(self).place())),
    {
        let ghost tokens = self.tokens();
        let ghost whole = line_rest(tokens, self.place());
        assert(self.built() + whole.elems =~= old(self).built() + whole.elems);
        while !self.at(SyntaxKind::NEWLINE) && !self.at_end()
            invariant
                self.follows(old(self)),
                tokens == self.tokens(),
                self.messages() == old(self).messages(),
                whole == line_rest(tokens, old(self).place()),
                whole.end == line_rest(tokens, self.place()).end,
                old(self).built() + whole.elems == self.built() + line_rest(
                    tokens,
                    self.place(),
                ).elems,
            decreases self.tokens().len() - self.place(),
        {
            let ghost before = self.built();
            let ghost at = self.place();
            self.consume();
            proof {
                let e = token_elem(tokens, at);
                let rest = line_rest(tokens, at + 1).elems;
                assert(before + (seq![e] + rest) =~= (before + seq![e]) + rest);
            }
        }
        assert(self.built() + Seq::<Elem>::empty() =~= self.built());
    }

    /// Reads one entry of the series: blanks, and then a comment or a
    /// patch. A line that is neither is an error; it is put into the tree up
    /// to its end.
    fn parse_entry(&mut self)
        requires
            old(self).wf(),
        ensures
            final(self).follows(old(self)),
            final(self).built() == old(self).built() + entry_step(
                old(self).tokens(),
                old(self).place(),
            ).elems,
            final(self).place() == entry_step(old(self).tokens(), old(self).place()).end,
            final(self).messages() == if is_bad_entry(old(self).tokens(), old(self).place()) {
                old(self).messages().push("Expected patch name or comment"@)
            } else {
                old(self).messages()
            },
    {
        let ghost tokens = self.tokens();
        let ghost base = self.built();
        let ghost blanks = blanks_step(tokens, self.place());
        self.start_node(SyntaxKind::SERIES_ENTRY);
        self.skip_blanks();
        let ghost body_base = self.built();
        if self.at(SyntaxKind::NEWLINE) {
            assert(self.built() + Seq::<Elem>::empty() =~= self.built());
        } else if self.at(SyntaxKind::HASH) {
            self.parse_comment();
        } else if self.at(SyntaxKind::PATCH_NAME) {
            self.parse_patch_entry();
        } else {
            self.error("Expected patch name or comment");
            self.skip_line();
        }
        let ghost kind = kind_at(tokens, blanks.end);
        let ghost body = if kind == Some(SyntaxKind::NEWLINE) {
            no_step(blanks.end)
        } else if kind == Some(SyntaxKind::HASH) {
            comment_step(tokens, blanks.end)
        } else if kind == Some(SyntaxKind::PATCH_NAME) {
            patch_step(tokens, blanks.end)
        } else {
            line_rest(tokens, blanks.end)
        };
        let ghost inner = blanks.elems + body.elems;
        proof {
            assert(self.built() =~= base + inner);
        }
        self.finish_node(Ghost(base), Ghost(inner));
    }

    /// Reads all tokens up to the `EOF` token into a tree with a `ROOT`
    /// node at its top, and gives the tree and the errors: one message for
    /// every entry that is neither a comment nor a patch.
    pub fn parse(self) -> (r: (rowan::GreenNode, Vec<String>))
        requires
            self.wf(),
            self.place() == 0,
            self.built() == Seq::<Elem>::empty(),
            self.tree().parents() == Seq::<(u16, nat)>::empty(),
            self.messages() == Seq::<Seq<char>>::empty(),
        ensures
            node_tree(r.0) == series_tree(self.tokens()),
            node_tree(r.0).text() == text_upto(self.tokens(), stop_index(self.tokens(), 0)),
            message_texts(r.1@) == bad_entry_messages(series_step(self.tokens(), 0).1),
    {
        let mut parser = self;
        let ghost tokens = self.tokens();
        let ghost whole = series_step(tokens, 0);
        parser.start_node(SyntaxKind::ROOT);
        assert(parser.built() + whole.0 =~= whole.0);
        assert(parser.messages() + bad_entry_messages(whole.1) =~= bad_entry_messages(whole.1));
        while !parser.at_end()
            invariant
                parser.wf(),
                tokens == parser.tokens(),
                parser.tokens() == self.tokens(),
                whole == series_step(tokens, 0),
                whole.0 == parser.built() + series_step(tokens, parser.place()).0,
                bad_entry_messages(whole.1) == parser.messages() + bad_entry_messages(
                    series_step(tokens, parser.place()).1,
                ),
                parser.tree().parents().len() > 0,
                parser.tree().parents().drop_last() == self.tree().parents(),
                parser.tree().parents().last() == (SyntaxKind::ROOT.raw(), 0nat),
            decreases parser.tokens().len() - parser.place(),
        {
            let ghost at = parser.place();
            let ghost before = parser.built();
            let ghost heard = parser.messages();
            if parser.at(SyntaxKind::NEWLINE) {
                parser.consume();
                proof {
                    let e = token_elem(tokens, at);
                    let rest = series_step(tokens, at + 1).0;
                    assert(before + (seq![e] + rest) =~= (before + seq![e]) + rest);
                }
                continue ;
            }
            proof {
                lemma_entry_advances(tokens, at);
            }
            parser.parse_entry();
            proof {
                let entry = entry_step(tokens, at);
                let rest = series_step(tokens, entry.end);
                assert(before + (entry.elems + rest.0) =~= (before + entry.elems) + rest.0);
                if is_bad_entry(tokens, at) {
                    let message = "Expected patch name or comment"@;
                    assert(heard + bad_entry_messages(rest.1 + 1) =~= heard.push(message)
                        + bad_entry_messages(rest.1));
                }
            }
        }
        proof {
            assert(parser.built() + Seq::<Elem>::empty() =~= parser.built());
            assert(parser.messages() + bad_entry_messages(0) =~= parser.messages());
            assert(Seq::<Elem>::empty() + parser.built() =~= parser.built());
        }
        let ghost top = parser.built();
        parser.finish_node(Ghost(Seq::empty()), Ghost(top));
        reveal(Parser::covers);
        proof {
            lemma_stop_is(parser.tokens(), 0, parser.place());
            assert(Seq::<Elem>::empty() + seq![Elem::Node(series_tree(tokens))] =~= seq![
                Elem::Node(series_tree(tokens)),
            ]);
        }
        (parser.builder.finish(), parser.errors)
    }
}

/// The parser stops at the first place behind which no `EOF` token lies
/// and at which the tokens end or an `EOF` token stands.
pub proof fn lemma_stop_is(tokens: Seq<(SyntaxKind, Seq<u8>)>, i: int, at: int)
    requires
        0 <= i <= at <= tokens.len(),
        at < tokens.len() ==> tokens[at].0 == SyntaxKind::EOF,
        forall|k: int| i <= k < at ==> (#[trigger] tokens[k]).0 != SyntaxKind::EOF,
    ensures
        stop_index(tokens, i) == at,
    decreases at - i,
{
    if i < at {
        lemma_stop_is(tokens, i + 1, at);
    }
}

/// Parse a quilt series file into a lossless AST
///
/// The tree is the tree of the tokens of the text, and covers the text
/// byte for byte. There is one error for every entry that is neither a
/// comment nor a patch.
pub fn parse_series(text: &str) -> (r: Parse<SeriesFile>)
    requires
        text.spec_bytes().len() <= u32::MAX,
    ensures
        r.root() == series_tree(tokens_of(text.spec_bytes())),
        r.root().text() == text.spec_bytes(),
        r.root().kind == SyntaxKind::ROOT.raw(),
        message_texts(r.messages()) == bad_entry_messages(
            series_step(tokens_of(text.spec_bytes()), 0).1,
        ),
        r.positioned().len() == 0,
{
    let mut lexer = Lexer::new(text);
    let tokens = lexer.tokenize();
    proof {
        lemma_tokens_of(text.spec_bytes());
    }
    let parser = Parser::new(tokens.as_slice());
    let (green, errors) = parser.parse();
    Parse::new(green, errors)
}

} // verus!
