//! The patch of one file, and what can go wrong when reading one.
use crate::bytes::{concat, extend, lemma_concat_push, LF, MINUS, PLUS, SP, TAB};
use crate::text::{bytes_list, lossy, lossy_text, push_bytes_list};
use crate::unified::hunk::{hunk_views, Hunk, HunkView};
use vstd::prelude::*;
use vstd::string::StringExecFns;

verus! {

/// Errors that can occur while parsing a patch
#[derive(Debug, PartialEq, Eq)]
pub enum Error {
    /// The files are binary and differ
    BinaryFiles(Vec<u8>, Vec<u8>),
    /// A syntax error in the patch
    PatchSyntax(&'static str, Vec<u8>),
    /// A malformed patch header
    MalformedPatchHeader(&'static str, Vec<u8>),
    /// A malformed hunk header
    MalformedHunkHeader(String, Vec<u8>),
}

/// A parse error as a mathematical value.
pub enum ErrorView {
    BinaryFiles(Seq<u8>, Seq<u8>),
    PatchSyntax(Seq<char>, Seq<u8>),
    MalformedPatchHeader(Seq<char>, Seq<u8>),
    MalformedHunkHeader(Seq<char>, Seq<u8>),
}

impl ErrorView {
    /// The error in words. A line is written as text where the error is in
    /// a header, and as the numbers of its bytes where it is in the syntax.
    pub open spec fn message(self) -> Seq<char> {
        match self {
            ErrorView::BinaryFiles(old_name, new_name) => "Binary files "@ + lossy_text(old_name)
                + " and "@ + lossy_text(new_name) + " differ"@,
            ErrorView::PatchSyntax(what, line) => "Patch syntax error: "@ + what + " in "@
                + bytes_list(line),
            ErrorView::MalformedPatchHeader(what, line) => "Malformed patch header: "@ + what
                + " in "@ + lossy_text(line),
            ErrorView::MalformedHunkHeader(what, line) => "Malformed hunk header: "@ + what
                + " in "@ + lossy_text(line),
        }
    }
}

impl Error {
    /// The error in words.
    pub fn message(&self) -> (r: String)
        ensures
            r@ == self@.message(),
    {
        match self {
            Error::BinaryFiles(old_name, new_name) => {
                let mut text = String::from_str("Binary files ");
                text.append(lossy(old_name.as_slice()).as_str());
                text.append(" and ");
                text.append(lossy(new_name.as_slice()).as_str());
                text.append(" differ");
                text
            },
            Error::PatchSyntax(what, line) => {
                let mut text = String::from_str("Patch syntax error: ");
                text.append(what);
                text.append(" in ");
                push_bytes_list(&mut text, line.as_slice());
                text
            },
            Error::MalformedPatchHeader(what, line) => {
                let mut text = String::from_str("Malformed patch header: ");
                text.append(what);
                text.append(" in ");
                text.append(lossy(line.as_slice()).as_str());
                text
            },
            Error::MalformedHunkHeader(what, line) => {
                let mut text = String::from_str("Malformed hunk header: ");
                text.append(what.as_str());
                text.append(" in ");
                text.append(lossy(line.as_slice()).as_str());
                text
            },
        }
    }
}

impl View for Error {
    type V = ErrorView;

    open spec fn view(&self) -> ErrorView {
        match self {
            Error::BinaryFiles(a, b) => ErrorView::BinaryFiles(a@, b@),
            Error::PatchSyntax(m, l) => ErrorView::PatchSyntax(m@, l@),
            Error::MalformedPatchHeader(m, l) => ErrorView::MalformedPatchHeader(m@, l@),
            Error::MalformedHunkHeader(m, l) => ErrorView::MalformedHunkHeader(m@, l@),
        }
    }
}

/// A binary patch
#[derive(Clone, Debug, PartialEq, Eq)]
pub struct BinaryPatch(pub Vec<u8>, pub Vec<u8>);

/// A unified diff style patch
#[derive(Clone, Debug, PartialEq, Eq)]
pub struct UnifiedPatch {
    /// Name of the original file
    pub orig_name: Vec<u8>,
    /// Timestamp for the original file
    pub orig_ts: Option<Vec<u8>>,
    /// Name of the modified file
    pub mod_name: Vec<u8>,
    /// Timestamp for the modified file
    pub mod_ts: Option<Vec<u8>>,
    /// List of hunks
    pub hunks: Vec<Hunk>,
}

/// A unified patch as a mathematical value.
pub struct PatchView {
    pub orig_name: Seq<u8>,
    pub orig_ts: Option<Seq<u8>>,
    pub mod_name: Seq<u8>,
    pub mod_ts: Option<Seq<u8>>,
    pub hunks: Seq<HunkView>,
}

/// The view of an optional byte vector.
pub open spec fn opt_view(v: Option<Vec<u8>>) -> Option<Seq<u8>> {
    match v {
        Some(b) => Some(b@),
        None => None,
    }
}

/// A file header line: three lead bytes and a space, the name, a tab and
/// the timestamp if there is one, and a newline.
pub open spec fn file_header(lead: u8, name: Seq<u8>, ts: Option<Seq<u8>>) -> Seq<u8> {
    seq![lead, lead, lead, SP] + name + (match ts {
        Some(t) => seq![TAB] + t,
        None => Seq::empty(),
    }) + seq![LF]
}

/// The serialisations of `hunks`, one after another.
pub open spec fn hunks_bytes(hunks: Seq<HunkView>) -> Seq<u8> {
    concat(hunks.map_values(|h: HunkView| h.bytes()))
}

impl PatchView {
    /// The patch as it stands in a file: both headers, then the hunks.
    pub open spec fn bytes(self) -> Seq<u8> {
        file_header(MINUS, self.orig_name, self.orig_ts) + file_header(
            PLUS,
            self.mod_name,
            self.mod_ts,
        ) + hunks_bytes(self.hunks)
    }
}

impl View for UnifiedPatch {
    type V = PatchView;

    open spec fn view(&self) -> PatchView {
        PatchView {
            orig_name: self.orig_name@,
            orig_ts: opt_view(self.orig_ts),
            mod_name: self.mod_name@,
            mod_ts: opt_view(self.mod_ts),
            hunks: hunk_views(self.hunks@),
        }
    }
}

/// A patch that can be applied to a single file
#[derive(Debug, PartialEq, Eq)]
pub enum PlainOrBinaryPatch {
    /// A unified patch
    Plain(UnifiedPatch),
    /// An indication that two binary files differ
    Binary(BinaryPatch),
}

/// A patch of either kind as a mathematical value.
pub enum AnyPatchView {
    Plain(PatchView),
    Binary(Seq<u8>, Seq<u8>),
}

impl View for PlainOrBinaryPatch {
    type V = AnyPatchView;

    open spec fn view(&self) -> AnyPatchView {
        match self {
            PlainOrBinaryPatch::Plain(p) => AnyPatchView::Plain(p@),
            PlainOrBinaryPatch::Binary(b) => AnyPatchView::Binary(b.0@, b.1@),
        }
    }
}

/// Appends a file header line to `out`.
fn write_file_header(out: &mut Vec<u8>, lead: u8, name: &Vec<u8>, ts: &Option<Vec<u8>>)
    ensures
        final(out)@ == old(out)@ + file_header(lead, name@, opt_view(*ts)),
{
    let ghost before = out@;
    out.push(lead);
    out.push(lead);
    out.push(lead);
    out.push(SP);
    extend(out, name.as_slice());
    match ts {
        Some(t) => {
            out.push(TAB);
            extend(out, t.as_slice());
        },
        None => {},
    }
    out.push(LF);
    assert(out@ =~= before + file_header(lead, name@, opt_view(*ts)));
}

impl UnifiedPatch {
    /// Create a new patch
    pub fn new(
        orig_name: Vec<u8>,
        orig_ts: Option<Vec<u8>>,
        mod_name: Vec<u8>,
        mod_ts: Option<Vec<u8>>,
    ) -> (r: Self)
        ensures
            r.orig_name == orig_name,
            r.orig_ts == orig_ts,
            r.mod_name == mod_name,
            r.mod_ts == mod_ts,
            r.hunks@.len() == 0,
    {
        Self { orig_name, orig_ts, mod_name, mod_ts, hunks: Vec::new() }
    }

    /// Write this patch to a writer
    ///
    /// The bytes of the patch are appended to the writer.
    pub fn write(&self, w: &mut Vec<u8>) -> (r: Result<(), crate::WriteError>)
        ensures
            r is Ok,
            final(w)@ == old(w)@ + self@.bytes(),
    {
        let bytes = self.as_bytes();
        extend(w, bytes.as_slice());
        Ok(())
    }

    /// Serialize this patch to a byte vector
    pub fn as_bytes(&self) -> (r: Vec<u8>)
        ensures
            r@ == self@.bytes(),
    {
        let mut r: Vec<u8> = Vec::new();
        write_file_header(&mut r, MINUS, &self.orig_name, &self.orig_ts);
        write_file_header(&mut r, PLUS, &self.mod_name, &self.mod_ts);
        let ghost head = r@;
        let mut i: usize = 0;
        while i < self.hunks.len()
            invariant
                i <= self.hunks.len(),
                r@ == head + hunks_bytes(self@.hunks.subrange(0, i as int)),
            decreases self.hunks.len() - i,
        {
            let hunk = self.hunks[i].as_bytes();
            extend(&mut r, hunk.as_slice());
            proof {
                let done = self@.hunks.subrange(0, i as int);
                let next = self@.hunks.subrange(0, i + 1);
                assert(next.map_values(|h: HunkView| h.bytes()) =~= done.map_values(
                    |h: HunkView| h.bytes(),
                ).push(self@.hunks[i as int].bytes()));
                lemma_concat_push(
                    done.map_values(|h: HunkView| h.bytes()),
                    self@.hunks[i as int].bytes(),
                );
                assert(r@ =~= head + hunks_bytes(next));
            }
            i += 1;
        }
        assert(self@.hunks.subrange(0, self.hunks.len() as int) =~= self@.hunks);
        r
    }
}

} // verus!
