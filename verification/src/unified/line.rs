//! One line of a hunk: context, insertion or removal.
use crate::bytes::{extend, has_suffix, to_vec, LF, MINUS, PLUS, SP};
use crate::text::{bytes_list, push_bytes_list};
use vstd::prelude::*;
use vstd::string::StringExecFns;

verus! {

/// The line that marks its predecessor as lacking a final newline:
/// `\ No newline at end of file`, with its own newline.
pub const NO_NL: [u8; 28] = [
    0x5c, 0x20, 0x4e, 0x6f, 0x20, 0x6e, 0x65, 0x77, 0x6c, 0x69, 0x6e, 0x65, 0x20, 0x61,
    0x74, 0x20, 0x65, 0x6e, 0x64, 0x20, 0x6f, 0x66, 0x20, 0x66, 0x69, 0x6c, 0x65, 0x0a,
];

/// A line in a hunk
#[derive(Clone, Debug, PartialEq, Eq)]
pub enum HunkLine {
    /// A line that is unchanged
    ContextLine(Vec<u8>),
    /// A line that was inserted
    InsertLine(Vec<u8>),
    /// A line that was removed
    RemoveLine(Vec<u8>),
}

/// A hunk line as a mathematical value: its kind and its payload.
pub enum LineView {
    Context(Seq<u8>),
    Insert(Seq<u8>),
    Remove(Seq<u8>),
}

impl LineView {
    /// The payload, whatever the kind.
    pub open spec fn payload(self) -> Seq<u8> {
        match self {
            LineView::Context(p) => p,
            LineView::Insert(p) => p,
            LineView::Remove(p) => p,
        }
    }

    /// The byte that introduces a line of this kind.
    pub open spec fn lead(self) -> u8 {
        match self {
            LineView::Context(_) => SP,
            LineView::Insert(_) => PLUS,
            LineView::Remove(_) => MINUS,
        }
    }

    /// The line belongs to the original file (context or removal).
    pub open spec fn in_orig(self) -> bool {
        !(self is Insert)
    }

    /// The line belongs to the modified file (context or insertion).
    pub open spec fn in_mod(self) -> bool {
        !(self is Remove)
    }

    /// The line as it stands in a patch: lead byte, payload, and, for a
    /// payload without a final newline, a newline and the marker line.
    pub open spec fn bytes(self) -> Seq<u8> {
        let body = seq![self.lead()] + self.payload();
        if has_suffix(self.payload(), seq![LF]) {
            body
        } else {
            body + seq![LF] + NO_NL@
        }
    }
}

impl View for HunkLine {
    type V = LineView;

    open spec fn view(&self) -> LineView {
        match self {
            HunkLine::ContextLine(p) => LineView::Context(p@),
            HunkLine::InsertLine(p) => LineView::Insert(p@),
            HunkLine::RemoveLine(p) => LineView::Remove(p@),
        }
    }
}

/// The views of a sequence of hunk lines.
pub open spec fn line_views(lines: Seq<HunkLine>) -> Seq<LineView> {
    lines.map_values(|l: HunkLine| l@)
}

/// What a patch line says: a line feed first makes the whole line an (empty)
/// context line; otherwise the first byte picks the kind and the rest is the
/// payload. `None` for any other line.
pub open spec fn parse_line_spec(line: Seq<u8>) -> Option<LineView> {
    if line.len() == 0 {
        None
    } else if line[0] == LF {
        Some(LineView::Context(line))
    } else if line[0] == SP {
        Some(LineView::Context(line.subrange(1, line.len() as int)))
    } else if line[0] == PLUS {
        Some(LineView::Insert(line.subrange(1, line.len() as int)))
    } else if line[0] == MINUS {
        Some(LineView::Remove(line.subrange(1, line.len() as int)))
    } else {
        None
    }
}

/// An error that occurs when parsing a hunk line
#[derive(Clone, Debug, PartialEq, Eq)]
pub struct MalformedLine(pub Vec<u8>);

impl MalformedLine {
    /// The error in words.
    pub fn message(&self) -> (r: String)
        ensures
            r@ == "Malformed line: "@ + bytes_list(self.0@),
    {
        let mut text = String::from_str("Malformed line: ");
        push_bytes_list(&mut text, self.0.as_slice());
        text
    }
}

impl HunkLine {
    /// Get the character that represents this hunk line
    pub fn char(&self) -> (c: u8)
        ensures
            c == self@.lead(),
    {
        match self {
            HunkLine::ContextLine(_) => SP,
            HunkLine::InsertLine(_) => PLUS,
            HunkLine::RemoveLine(_) => MINUS,
        }
    }

    /// Get the contents of this hunk line
    pub fn contents(&self) -> (c: &[u8])
        ensures
            c@ == self@.payload(),
    {
        match self {
            HunkLine::ContextLine(bytes) => bytes.as_slice(),
            HunkLine::InsertLine(bytes) => bytes.as_slice(),
            HunkLine::RemoveLine(bytes) => bytes.as_slice(),
        }
    }

    /// Serialize this hunk line to a byte vector
    pub fn as_bytes(&self) -> (r: Vec<u8>)
        ensures
            r@ == self@.bytes(),
    {
        let contents = self.contents();
        let mut r: Vec<u8> = Vec::new();
        r.push(self.char());
        extend(&mut r, contents);
        let ends_in_newline = contents.len() > 0 && contents[contents.len() - 1] == LF;
        proof {
            let p = self@.payload();
            if p.len() > 0 {
                assert(p.subrange(p.len() - 1, p.len() as int) =~= seq![p[p.len() - 1]]);
                assert(seq![p[p.len() - 1]][0] == p[p.len() - 1]);
            }
            assert(ends_in_newline == has_suffix(p, seq![LF]));
            assert(r@ =~= seq![self@.lead()] + p);
        }
        if !ends_in_newline {
            r.push(LF);
            extend(&mut r, NO_NL.as_slice());
            assert(r@ =~= seq![self@.lead()] + self@.payload() + seq![LF] + NO_NL@);
        }
        r
    }

    /// Parse a hunk line
    pub fn parse_line(line: &[u8]) -> (r: Result<Self, MalformedLine>)
        ensures
            match parse_line_spec(line@) {
                Some(v) => r is Ok && r.unwrap()@ == v,
                None => r is Err && r.unwrap_err().0@ == line@,
            },
    {
        if line.len() == 0 {
            return Err(MalformedLine(to_vec(line)));
        }
        let first = line[0];
        if first == LF {
            Ok(HunkLine::ContextLine(to_vec(line)))
        } else if first == SP {
            Ok(HunkLine::ContextLine(to_vec(vstd::slice::slice_subrange(line, 1, line.len()))))
        } else if first == PLUS {
            Ok(HunkLine::InsertLine(to_vec(vstd::slice::slice_subrange(line, 1, line.len()))))
        } else if first == MINUS {
            Ok(HunkLine::RemoveLine(to_vec(vstd::slice::slice_subrange(line, 1, line.len()))))
        } else {
            Err(MalformedLine(to_vec(line)))
        }
    }
}

} // verus!
