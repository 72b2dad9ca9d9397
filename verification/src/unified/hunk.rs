//! Hunks: the `@@ -A,B +C,D @@` header, its lines, and how a hunk moves
//! positions of the original file.
use crate::bytes::{
    concat, decimal_digits, decimal_value, extend, find_byte, first_index_from, format_decimal,
    is_decimal, is_digit, lemma_concat_push, lemma_decimal_roundtrip, lemma_first_index_is,
    parse_decimal, to_vec, AT, COMMA, LF, MINUS, PLUS, SP,
};
use crate::text::{lossy, lossy_text};
use crate::unified::line::{line_views, HunkLine, LineView};
use vstd::prelude::*;
use vstd::string::StringExecFns;
use vstd::slice::slice_subrange;

verus! {

/// An error that occurs when parsing a hunk header
#[derive(Clone, Debug, PartialEq, Eq)]
pub struct MalformedHunkHeader(pub &'static str, pub Vec<u8>);

/// An error that occurs when a range is not `A` or `A,B` in decimal
#[derive(Clone, Copy, Debug, PartialEq, Eq)]
pub struct MalformedRange;

/// The text with which a stream reports a malformed hunk header: the
/// message of the fault and the line, the line read as UTF-8 with a
/// replacement character for every malformed sequence.
pub open spec fn malformed_header_text(message: Seq<char>, line: Seq<u8>) -> Seq<char> {
    "Malformed hunk header: "@ + message + ": "@ + lossy_text(line)
}

impl MalformedHunkHeader {
    /// The error in words.
    pub fn message(&self) -> (r: String)
        ensures
            r@ == malformed_header_text(self.0@, self.1@),
    {
        let mut text = String::from_str("Malformed hunk header: ");
        text.append(self.0);
        text.append(": ");
        text.append(lossy(self.1.as_slice()).as_str());
        text
    }
}

/// A hunk in a patch
#[derive(PartialEq, Eq, Debug, Clone)]
pub struct Hunk {
    /// Position in the original file
    pub orig_pos: usize,
    /// Number of lines in the original file
    pub orig_range: usize,
    /// Position in the modified file
    pub mod_pos: usize,
    /// Number of lines in the modified file
    pub mod_range: usize,
    /// Tail of the hunk header
    pub tail: Option<Vec<u8>>,
    /// Lines in the hunk
    pub lines: Vec<HunkLine>,
}

/// A hunk as a mathematical value.
pub struct HunkView {
    pub orig_pos: nat,
    pub orig_range: nat,
    pub mod_pos: nat,
    pub mod_range: nat,
    pub tail: Option<Seq<u8>>,
    pub lines: Seq<LineView>,
}

/// Why a line is no hunk header.
pub enum HeaderFault {
    /// The line has no `@@ ... @@` frame, or the frame does not hold two
    /// fields.
    Format,
    /// The first field does not start with `-`, or the second not with `+`.
    Sign,
    /// The original range is not `A` or `A,B` in decimal.
    OrigRange,
    /// The modified range is not `C` or `C,D` in decimal.
    ModRange,
}

impl HeaderFault {
    /// The message that reports this fault.
    pub open spec fn message(self) -> Seq<char> {
        match self {
            HeaderFault::Format => "Does not match format."@,
            HeaderFault::Sign => "Positions don't start with + or -."@,
            HeaderFault::OrigRange => "Original range is not a number."@,
            HeaderFault::ModRange => "Modified range is not a number."@,
        }
    }
}

/// The number of lines of `lines` that belong to the original file.
pub open spec fn orig_count(lines: Seq<LineView>) -> nat
    decreases lines.len(),
{
    if lines.len() == 0 {
        0
    } else {
        orig_count(lines.drop_last()) + if lines.last().in_orig() {
            1nat
        } else {
            0nat
        }
    }
}

/// The number of lines of `lines` that belong to the modified file.
pub open spec fn mod_count(lines: Seq<LineView>) -> nat
    decreases lines.len(),
{
    if lines.len() == 0 {
        0
    } else {
        mod_count(lines.drop_last()) + if lines.last().in_mod() {
            1nat
        } else {
            0nat
        }
    }
}

/// The serialisations of `lines`, one after another.
pub open spec fn lines_bytes(lines: Seq<LineView>) -> Seq<u8> {
    concat(lines.map_values(|l: LineView| l.bytes()))
}

/// A range as a header writes it: the count is left out when it is 1.
pub open spec fn range_text(pos: nat, range: nat) -> Seq<u8> {
    if range == 1 {
        decimal_digits(pos)
    } else {
        decimal_digits(pos) + seq![COMMA] + decimal_digits(range)
    }
}

/// A number without the one `+` that may stand before its digits.
pub open spec fn unsigned(s: Seq<u8>) -> Seq<u8> {
    if s.len() > 0 && s[0] == PLUS {
        s.subrange(1, s.len() as int)
    } else {
        s
    }
}

/// A decimal number that fits into `usize`: digits, which one `+` may
/// precede.
pub open spec fn is_index(s: Seq<u8>) -> bool {
    is_decimal(unsigned(s)) && decimal_value(unsigned(s)) <= usize::MAX
}

/// The value of such a number.
pub open spec fn index_value(s: Seq<u8>) -> nat {
    decimal_value(unsigned(s))
}

/// What a range text says: `A` is position `A` with count 1, `A,B` is
/// position `A` with count `B`; both are numbers within `usize`. What
/// follows a second comma is not read.
pub open spec fn parse_range_spec(s: Seq<u8>) -> Option<(nat, nat)> {
    let c = first_index_from(s, COMMA, 0);
    if c == s.len() {
        if is_index(s) {
            Some((index_value(s), 1nat))
        } else {
            None
        }
    } else {
        let a = s.subrange(0, c);
        let b = s.subrange(c + 1, first_index_from(s, COMMA, c + 1));
        if is_index(a) && is_index(b) {
            Some((index_value(a), index_value(b)))
        } else {
            None
        }
    }
}

/// The frame of a header that starts at index `i` of `line`:
/// `@@ `, a field without `@`, ` @@`, then either the newline or a space, a
/// tail and the newline. Gives the field and the tail.
pub open spec fn frame_at(line: Seq<u8>, i: int) -> Option<(Seq<u8>, Option<Seq<u8>>)> {
    if !(0 <= i && i + 3 <= line.len() && line[i] == AT && line[i + 1] == AT && line[i + 2]
        == SP) {
        None
    } else {
        let j = first_index_from(line, AT, i + 3);
        if !(i + 4 <= j && j + 2 < line.len() && line[j - 1] == SP && line[j + 1] == AT) {
            None
        } else if line[j + 2] == LF {
            Some((line.subrange(i + 3, j - 1), None))
        } else if line[j + 2] == SP {
            let q = first_index_from(line, LF, j + 3);
            if q < line.len() {
                Some((line.subrange(i + 3, j - 1), Some(line.subrange(j + 3, q))))
            } else {
                None
            }
        } else {
            None
        }
    }
}

/// The first frame in `line` at or after index `i`.
pub open spec fn frame_from(line: Seq<u8>, i: int) -> Option<(Seq<u8>, Option<Seq<u8>>)>
    decreases line.len() - i,
{
    if i < 0 || i + 3 > line.len() {
        None
    } else if frame_at(line, i) is Some {
        frame_at(line, i)
    } else {
        frame_from(line, i + 1)
    }
}

/// What a header line says, or why it is none. The lines of the hunk are
/// not part of its header: the result has none.
pub open spec fn parse_header_spec(line: Seq<u8>) -> Result<HunkView, HeaderFault> {
    match frame_from(line, 0) {
        None => Err(HeaderFault::Format),
        Some((field, tail)) => {
            let sp = first_index_from(field, SP, 0);
            let modi = field.subrange(sp + 1, field.len() as int);
            if sp == field.len() || first_index_from(modi, SP, 0) < modi.len() {
                Err(HeaderFault::Format)
            } else {
                let orig = field.subrange(0, sp);
                if orig.len() == 0 || orig[0] != MINUS || modi.len() == 0 || modi[0] != PLUS {
                    Err(HeaderFault::Sign)
                } else {
                    match parse_range_spec(orig.subrange(1, orig.len() as int)) {
                        None => Err(HeaderFault::OrigRange),
                        Some((orig_pos, orig_range)) => match parse_range_spec(
                            modi.subrange(1, modi.len() as int),
                        ) {
                            None => Err(HeaderFault::ModRange),
                            Some((mod_pos, mod_range)) => Ok(
                                HunkView {
                                    orig_pos,
                                    orig_range,
                                    mod_pos,
                                    mod_range,
                                    tail,
                                    lines: Seq::empty(),
                                },
                            ),
                        },
                    }
                }
            }
        },
    }
}

/// A header line around a field and a tail: `@@ `, the field, ` @@`, then
/// a space and the tail if there is one, and a newline.
pub open spec fn framed(field: Seq<u8>, tail: Option<Seq<u8>>) -> Seq<u8> {
    seq![AT, AT, SP] + field + seq![SP, AT, AT] + (match tail {
        Some(t) => seq![SP] + t,
        None => Seq::empty(),
    }) + seq![LF]
}

impl HunkView {
    /// The header line: `@@ -A[,B] +C[,D] @@[ tail]` and a newline.
    pub open spec fn header(self) -> Seq<u8> {
        framed(
            seq![MINUS] + range_text(self.orig_pos, self.orig_range) + seq![SP, PLUS] + range_text(
                self.mod_pos,
                self.mod_range,
            ),
            self.tail,
        )
    }

    /// The header followed by the lines.
    pub open spec fn bytes(self) -> Seq<u8> {
        self.header() + lines_bytes(self.lines)
    }

    /// The hunk without its lines.
    pub open spec fn without_lines(self) -> HunkView {
        HunkView { lines: Seq::empty(), ..self }
    }

    /// The counts of the header are those of the lines.
    pub open spec fn well_formed(self) -> bool {
        &&& orig_count(self.lines) == self.orig_range
        &&& mod_count(self.lines) == self.mod_range
    }

    /// By how many lines the hunk moves position `pos` of the original file
    /// (counted from 0), or `None` where the hunk removes that line.
    pub open spec fn shift(self, pos: int) -> Option<int> {
        if pos < self.orig_pos - 1 {
            Some(0int)
        } else if pos > self.orig_pos + self.orig_range - 1 {
            Some(self.mod_range - self.orig_range)
        } else {
            shift_walk(self.lines, 0, self.orig_pos - 1, 0, pos)
        }
    }
}

/// Walks the lines from index `k`, at position `position` of the original
/// file and with `shift` lines gained so far: an insertion gains a line, a
/// removal loses one and passes a position, a context line passes a position.
/// The walk ends once the position is beyond `pos`, and gives `None` at a
/// removal of position `pos` itself.
pub open spec fn shift_walk(
    lines: Seq<LineView>,
    k: int,
    position: int,
    shift: int,
    pos: int,
) -> Option<int>
    decreases lines.len() - k,
{
    if k < 0 || k >= lines.len() {
        Some(shift)
    } else {
        match lines[k] {
            LineView::Insert(_) => if position > pos {
                Some(shift + 1)
            } else {
                shift_walk(lines, k + 1, position, shift + 1, pos)
            },
            LineView::Remove(_) => if position == pos {
                None
            } else if position + 1 > pos {
                Some(shift - 1)
            } else {
                shift_walk(lines, k + 1, position + 1, shift - 1, pos)
            },
            LineView::Context(_) => if position + 1 > pos {
                Some(shift)
            } else {
                shift_walk(lines, k + 1, position + 1, shift, pos)
            },
        }
    }
}

impl View for Hunk {
    type V = HunkView;

    open spec fn view(&self) -> HunkView {
        HunkView {
            orig_pos: self.orig_pos as nat,
            orig_range: self.orig_range as nat,
            mod_pos: self.mod_pos as nat,
            mod_range: self.mod_range as nat,
            tail: match self.tail {
                Some(t) => Some(t@),
                None => None,
            },
            lines: line_views(self.lines@),
        }
    }
}

/// The views of a sequence of hunks.
pub open spec fn hunk_views(hunks: Seq<Hunk>) -> Seq<HunkView> {
    hunks.map_values(|h: Hunk| h@)
}

/// Reads a number: digits, which one `+` may precede.
fn parse_index(text: &[u8]) -> (r: Option<usize>)
    ensures
        r is Some <==> is_index(text@),
        r is Some ==> r.unwrap() == index_value(text@),
{
    if text.len() > 0 && text[0] == PLUS {
        parse_decimal(slice_subrange(text, 1, text.len()))
    } else {
        parse_decimal(text)
    }
}

/// Parse a patch range, handling the "1" special-case
pub fn parse_range(textrange: &[u8]) -> (r: Result<(usize, usize), MalformedRange>)
    ensures
        match parse_range_spec(textrange@) {
            Some((pos, range)) => r is Ok && r.unwrap().0 == pos && r.unwrap().1 == range,
            None => r is Err,
        },
{
    let c = find_byte(textrange, COMMA, 0);
    if c == textrange.len() {
        match parse_index(textrange) {
            Some(pos) => Ok((pos, 1)),
            None => Err(MalformedRange),
        }
    } else {
        let d = find_byte(textrange, COMMA, c + 1);
        let a = parse_index(slice_subrange(textrange, 0, c));
        let b = parse_index(slice_subrange(textrange, c + 1, d));
        match (a, b) {
            (Some(pos), Some(range)) => Ok((pos, range)),
            _ => Err(MalformedRange),
        }
    }
}

/// Finds the frame of a header that starts at index `i`.
fn find_frame_at<'a>(line: &'a [u8], i: usize) -> (r: Option<(&'a [u8], Option<&'a [u8]>)>)
    requires
        i + 3 <= line@.len(),
    ensures
        match frame_at(line@, i as int) {
            Some((field, tail)) => r is Some && r.unwrap().0@ == field && match tail {
                Some(t) => r.unwrap().1 is Some && r.unwrap().1.unwrap()@ == t,
                None => r.unwrap().1 is None,
            },
            None => r is None,
        },
{
    if !(line[i] == AT && line[i + 1] == AT && line[i + 2] == SP) {
        return None;
    }
    let j = find_byte(line, AT, i + 3);
    if !(j - i >= 4 && j < line.len() && line.len() - j > 2) {
        return None;
    }
    if !(line[j - 1] == SP && line[j + 1] == AT) {
        return None;
    }
    let field = slice_subrange(line, i + 3, j - 1);
    if line[j + 2] == LF {
        Some((field, None))
    } else if line[j + 2] == SP {
        let q = find_byte(line, LF, j + 3);
        if q < line.len() {
            Some((field, Some(slice_subrange(line, j + 3, q))))
        } else {
            None
        }
    } else {
        None
    }
}

/// Finds the first frame of a header in `line`.
fn find_frame<'a>(line: &'a [u8]) -> (r: Option<(&'a [u8], Option<&'a [u8]>)>)
    ensures
        match frame_from(line@, 0) {
            Some((field, tail)) => r is Some && r.unwrap().0@ == field && match tail {
                Some(t) => r.unwrap().1 is Some && r.unwrap().1.unwrap()@ == t,
                None => r.unwrap().1 is None,
            },
            None => r is None,
        },
{
    let mut i: usize = 0;
    while line.len() >= 3 && i <= line.len() - 3
        invariant
            frame_from(line@, 0) == frame_from(line@, i as int),
            i <= line@.len(),
        decreases line@.len() - i,
    {
        let found = find_frame_at(line, i);
        if found.is_some() {
            return found;
        }
        i += 1;
    }
    None
}

impl Hunk {
    /// Create a new hunk
    pub fn new(
        orig_pos: usize,
        orig_range: usize,
        mod_pos: usize,
        mod_range: usize,
        tail: Option<Vec<u8>>,
    ) -> (r: Self)
        ensures
            r.orig_pos == orig_pos,
            r.orig_range == orig_range,
            r.mod_pos == mod_pos,
            r.mod_range == mod_range,
            r.tail == tail,
            r.lines@.len() == 0,
    {
        Self { orig_pos, orig_range, mod_pos, mod_range, tail, lines: Vec::new() }
    }

    /// Parse a hunk header
    pub fn from_header(line: &[u8]) -> (r: Result<Self, MalformedHunkHeader>)
        ensures
            match parse_header_spec(line@) {
                Ok(h) => r is Ok && r.unwrap()@ == h,
                Err(fault) => r is Err && r.unwrap_err().0@ == fault.message()
                    && r.unwrap_err().1@ == line@,
            },
    {
        let (field, tail) = match find_frame(line) {
            Some(frame) => frame,
            None => {
                return Err(MalformedHunkHeader("Does not match format.", to_vec(line)));
            },
        };
        let sp = find_byte(field, SP, 0);
        if sp == field.len() {
            return Err(MalformedHunkHeader("Does not match format.", to_vec(line)));
        }
        let orig = slice_subrange(field, 0, sp);
        let modi = slice_subrange(field, sp + 1, field.len());
        if find_byte(modi, SP, 0) < modi.len() {
            return Err(MalformedHunkHeader("Does not match format.", to_vec(line)));
        }
        if orig.len() == 0 || orig[0] != MINUS || modi.len() == 0 || modi[0] != PLUS {
            return Err(
                MalformedHunkHeader("Positions don't start with + or -.", to_vec(line)),
            );
        }
        let (orig_pos, orig_range) = match parse_range(slice_subrange(orig, 1, orig.len())) {
            Ok(range) => range,
            Err(_) => {
                return Err(
                    MalformedHunkHeader("Original range is not a number.", to_vec(line)),
                );
            },
        };
        let (mod_pos, mod_range) = match parse_range(slice_subrange(modi, 1, modi.len())) {
            Ok(range) => range,
            Err(_) => {
                return Err(
                    MalformedHunkHeader("Modified range is not a number.", to_vec(line)),
                );
            },
        };
        let tail = match tail {
            Some(t) => Some(to_vec(t)),
            None => None,
        };
        let hunk = Self::new(orig_pos, orig_range, mod_pos, mod_range, tail);
        assert(hunk@.lines =~= Seq::empty());
        Ok(hunk)
    }

    /// Get the lines in this hunk
    pub fn lines(&self) -> (r: &[HunkLine])
        ensures
            r@ == self.lines@,
    {
        self.lines.as_slice()
    }

    /// A range as the header writes it.
    pub fn range_str(&self, pos: usize, range: usize) -> (r: Vec<u8>)
        ensures
            r@ == range_text(pos as nat, range as nat),
    {
        let mut r = format_decimal(pos);
        if range != 1 {
            r.push(COMMA);
            let digits = format_decimal(range);
            extend(&mut r, digits.as_slice());
        }
        r
    }

    /// Get the header of this hunk
    pub fn get_header(&self) -> (r: Vec<u8>)
        ensures
            r@ == self@.header(),
    {
        let mut r: Vec<u8> = Vec::new();
        r.push(AT);
        r.push(AT);
        r.push(SP);
        r.push(MINUS);
        let orig = self.range_str(self.orig_pos, self.orig_range);
        extend(&mut r, orig.as_slice());
        r.push(SP);
        r.push(PLUS);
        let modi = self.range_str(self.mod_pos, self.mod_range);
        extend(&mut r, modi.as_slice());
        r.push(SP);
        r.push(AT);
        r.push(AT);
        assert(r@ =~= seq![AT, AT, SP, MINUS] + range_text(self@.orig_pos, self@.orig_range)
            + seq![SP, PLUS] + range_text(self@.mod_pos, self@.mod_range) + seq![SP, AT, AT]);
        match &self.tail {
            Some(tail) => {
                r.push(SP);
                extend(&mut r, tail.as_slice());
                r.push(LF);
                assert(r@ =~= self@.header());
            },
            None => {
                r.push(LF);
                assert(r@ =~= self@.header());
            },
        }
        r
    }

    /// Write this hunk to a writer
    ///
    /// The bytes of the hunk are appended to the writer.
    pub fn write(&self, w: &mut Vec<u8>) -> (r: Result<(), crate::WriteError>)
        ensures
            r is Ok,
            final(w)@ == old(w)@ + self@.bytes(),
    {
        let bytes = self.as_bytes();
        extend(w, bytes.as_slice());
        Ok(())
    }

    /// Serialize this hunk to a byte vector
    pub fn as_bytes(&self) -> (r: Vec<u8>)
        ensures
            r@ == self@.bytes(),
    {
        let mut r = self.get_header();
        let mut i: usize = 0;
        while i < self.lines.len()
            invariant
                i <= self.lines.len(),
                r@ == self@.header() + lines_bytes(self@.lines.subrange(0, i as int)),
            decreases self.lines.len() - i,
        {
            let line = self.lines[i].as_bytes();
            extend(&mut r, line.as_slice());
            proof {
                let done = self@.lines.subrange(0, i as int);
                let next = self@.lines.subrange(0, i + 1);
                assert(next.map_values(|l: LineView| l.bytes()) =~= done.map_values(
                    |l: LineView| l.bytes(),
                ).push(self@.lines[i as int].bytes()));
                lemma_concat_push(
                    done.map_values(|l: LineView| l.bytes()),
                    self@.lines[i as int].bytes(),
                );
                assert(r@ =~= self@.header() + lines_bytes(next));
            }
            i += 1;
        }
        assert(self@.lines.subrange(0, self.lines.len() as int) =~= self@.lines);
        r
    }

    /// Shift a position to the modified file
    pub fn shift_to_mod(&self, pos: usize) -> (r: Option<isize>)
        requires
            self.orig_range <= isize::MAX,
            self.mod_range <= isize::MAX,
            self.lines@.len() <= isize::MAX,
        ensures
            match self@.shift(pos as int) {
                Some(s) => r is Some && r.unwrap() == s,
                None => r is None,
            },
            pos < self.orig_pos - 1 ==> r == Some(0isize),
            pos > self.orig_pos + self.orig_range - 1 ==> r is Some && r.unwrap()
                == self.mod_range - self.orig_range,
    {
        if self.orig_pos >= 1 && pos < self.orig_pos - 1 {
            Some(0)
        } else if self.orig_range <= usize::MAX - self.orig_pos && pos >= self.orig_pos
            + self.orig_range {
            Some((self.mod_range as isize) - (self.orig_range as isize))
        } else {
            self.shift_to_mod_lines(pos)
        }
    }

    /// Walks the lines of the hunk up to position `pos` of the original
    /// file and counts the lines gained or lost on the way.
    pub fn shift_to_mod_lines(&self, pos: usize) -> (r: Option<isize>)
        requires
            self.lines@.len() <= isize::MAX,
            self.orig_pos - 1 <= pos,
        ensures
            match shift_walk(self@.lines, 0, self.orig_pos - 1, 0, pos as int) {
                Some(s) => r is Some && r.unwrap() == s,
                None => r is None,
            },
    {
        let target: i128 = pos as i128;
        let mut position: i128 = self.orig_pos as i128 - 1;
        let mut shift: isize = 0;
        let mut k: usize = 0;
        while k < self.lines.len()
            invariant
                k <= self.lines.len(),
                self.lines@.len() <= isize::MAX,
                target == pos,
                -1 <= position <= target,
                -k <= shift <= k,
                shift_walk(self@.lines, 0, self.orig_pos - 1, 0, pos as int) == shift_walk(
                    self@.lines,
                    k as int,
                    position as int,
                    shift as int,
                    pos as int,
                ),
            decreases self.lines.len() - k,
        {
            assert(self@.lines[k as int] == self.lines@[k as int]@);
            match &self.lines[k] {
                HunkLine::InsertLine(_) => {
                    shift += 1;
                },
                HunkLine::RemoveLine(_) => {
                    if position == target {
                        return None;
                    }
                    shift -= 1;
                    position += 1;
                },
                HunkLine::ContextLine(_) => {
                    position += 1;
                },
            }
            k += 1;
            if position > target {
                return Some(shift);
            }
        }
        Some(shift)
    }
}

/// A range text holds digits and commas only.
proof fn lemma_range_text_bytes(pos: nat, range: nat)
    ensures
        range_text(pos, range).len() > 0,
        forall|i: int|
            0 <= i < range_text(pos, range).len() ==> is_digit(#[trigger] range_text(pos, range)[i])
                || range_text(pos, range)[i] == COMMA,
{
    lemma_decimal_roundtrip(pos);
    lemma_decimal_roundtrip(range);
    let p = decimal_digits(pos);
    let r = decimal_digits(range);
    let t = range_text(pos, range);
    assert forall|i: int| 0 <= i < t.len() implies is_digit(#[trigger] t[i]) || t[i] == COMMA by {
        if range != 1 {
            if i < p.len() {
                assert(t[i] == p[i]);
            } else if i > p.len() {
                assert(t[i] == r[i - p.len() - 1]);
            }
        }
    }
}

/// Reading a range text gives back the position and the count it was
/// written from.
pub proof fn lemma_range_roundtrip(pos: nat, range: nat)
    requires
        pos <= usize::MAX,
        range <= usize::MAX,
    ensures
        parse_range_spec(range_text(pos, range)) == Some((pos, range)),
{
    lemma_decimal_roundtrip(pos);
    lemma_decimal_roundtrip(range);
    let p = decimal_digits(pos);
    let r = decimal_digits(range);
    let t = range_text(pos, range);
    assert(is_digit(p[0]) && is_digit(r[0]));
    if range == 1 {
        assert forall|k: int| 0 <= k < t.len() implies t[k] != COMMA by {
            assert(is_digit(p[k]));
        }
        lemma_first_index_is(t, COMMA, 0, t.len() as int);
    } else {
        assert forall|k: int| 0 <= k < p.len() implies t[k] != COMMA by {
            assert(is_digit(p[k]));
            assert(t[k] == p[k]);
        }
        assert(t[p.len() as int] == COMMA);
        lemma_first_index_is(t, COMMA, 0, p.len() as int);
        assert forall|k: int| p.len() + 1 <= k < t.len() implies t[k] != COMMA by {
            assert(is_digit(r[k - p.len() - 1]));
            assert(t[k] == r[k - p.len() - 1]);
        }
        lemma_first_index_is(t, COMMA, p.len() as int + 1, t.len() as int);
        assert(t.subrange(0, p.len() as int) =~= p);
        assert(t.subrange(p.len() as int + 1, t.len() as int) =~= r);
    }
}

/// A line that frames `field` and `tail` is read as that frame, when the
/// field holds no `@` and the tail no newline.
proof fn lemma_frame_of(field: Seq<u8>, tail: Option<Seq<u8>>)
    requires
        field.len() > 0,
        forall|k: int| 0 <= k < field.len() ==> field[k] != AT,
        match tail {
            Some(t) => forall|i: int| 0 <= i < t.len() ==> t[i] != LF,
            None => true,
        },
    ensures
        frame_from(framed(field, tail), 0) == Some((field, tail)),
{
    let s = framed(field, tail);
    let j: int = field.len() as int + 4;
    assert(s.len() >= j + 3);
    assert(s[0] == AT && s[1] == AT && s[2] == SP);
    assert forall|k: int| 3 <= k < j implies s[k] != AT by {
        if k < 3 + field.len() {
            assert(s[k] == field[k - 3]);
        }
    }
    assert(s[j] == AT);
    assert(s[j - 1] == SP);
    assert(s[j + 1] == AT);
    lemma_first_index_is(s, AT, 3, j);
    assert(s.subrange(3, j - 1) =~= field);
    match tail {
        Some(t) => {
            let q: int = j + 3 + t.len();
            assert(s[j + 2] == SP);
            assert forall|k: int| j + 3 <= k < q implies s[k] != LF by {
                assert(s[k] == t[k - j - 3]);
            }
            assert(s[q] == LF);
            lemma_first_index_is(s, LF, j + 3, q);
            assert(s.subrange(j + 3, q) =~= t);
        },
        None => {
            assert(s[j + 2] == LF);
        },
    }
}

/// The field `-orig +modi` splits at its one space.
proof fn lemma_field_split(ot: Seq<u8>, mt: Seq<u8>)
    requires
        forall|k: int| 0 <= k < ot.len() ==> is_digit(#[trigger] ot[k]) || ot[k] == COMMA,
        forall|k: int| 0 <= k < mt.len() ==> is_digit(#[trigger] mt[k]) || mt[k] == COMMA,
    ensures
        ({
            let field = seq![MINUS] + ot + seq![SP, PLUS] + mt;
            let sp = first_index_from(field, SP, 0);
            let modi = field.subrange(sp + 1, field.len() as int);
            &&& sp == ot.len() + 1
            &&& field.subrange(0, sp) == seq![MINUS] + ot
            &&& modi == seq![PLUS] + mt
            &&& first_index_from(modi, SP, 0) == modi.len()
            &&& forall|k: int| 0 <= k < field.len() ==> field[k] != AT
        }),
{
    let field = seq![MINUS] + ot + seq![SP, PLUS] + mt;
    let orig = seq![MINUS] + ot;
    let modi = seq![PLUS] + mt;
    assert forall|k: int| 0 <= k < orig.len() implies field[k] != SP by {
        if k >= 1 {
            assert(field[k] == ot[k - 1]);
        }
    }
    assert(field[orig.len() as int] == SP);
    lemma_first_index_is(field, SP, 0, orig.len() as int);
    assert(field.subrange(0, orig.len() as int) =~= orig);
    assert(field.subrange(orig.len() as int + 1, field.len() as int) =~= modi);
    assert forall|k: int| 0 <= k < modi.len() implies modi[k] != SP by {
        if k >= 1 {
            assert(modi[k] == mt[k - 1]);
        }
    }
    lemma_first_index_is(modi, SP, 0, modi.len() as int);
    assert forall|k: int| 0 <= k < field.len() implies field[k] != AT by {
        if 1 <= k < orig.len() {
            assert(field[k] == ot[k - 1]);
        } else if k > orig.len() + 1 {
            assert(field[k] == mt[k - orig.len() - 2]);
        }
    }
}

/// Reading the header that a hunk writes gives back the hunk, without its
/// lines, provided that its tail holds no newline.
pub proof fn lemma_header_roundtrip(h: Hunk)
    requires
        match h@.tail {
            Some(t) => forall|i: int| 0 <= i < t.len() ==> t[i] != LF,
            None => true,
        },
    ensures
        parse_header_spec(h@.header()) == Ok::<HunkView, HeaderFault>(h@.without_lines()),
{
    let v = h@;
    let ot = range_text(v.orig_pos, v.orig_range);
    let mt = range_text(v.mod_pos, v.mod_range);
    lemma_range_text_bytes(v.orig_pos, v.orig_range);
    lemma_range_text_bytes(v.mod_pos, v.mod_range);
    lemma_range_roundtrip(v.orig_pos, v.orig_range);
    lemma_range_roundtrip(v.mod_pos, v.mod_range);
    let field = seq![MINUS] + ot + seq![SP, PLUS] + mt;
    lemma_field_split(ot, mt);
    lemma_frame_of(field, v.tail);
    assert(framed(field, v.tail) =~= v.header());
    let orig = seq![MINUS] + ot;
    let modi = seq![PLUS] + mt;
    assert(orig.subrange(1, orig.len() as int) =~= ot);
    assert(modi.subrange(1, modi.len() as int) =~= mt);
}

/// A position before the hunk is not moved, and a position behind it is
/// moved by the difference of the two counts.
pub proof fn lemma_shift_outside(h: HunkView, pos: int)
    ensures
        pos < h.orig_pos - 1 ==> h.shift(pos) == Some(0int),
        pos > h.orig_pos + h.orig_range - 1 ==> h.shift(pos) == Some(
            h.mod_range - h.orig_range,
        ),
{
}

} // verus!
