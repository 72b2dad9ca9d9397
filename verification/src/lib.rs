//! A crate for parsing and manipulating patches.
//!
//! Two cores share this crate. The first reads unified diffs and ed scripts
//! into hunks, applies them exactly to the content of a file and writes them
//! back byte for byte. The second reads patch files and quilt series files
//! into a syntax tree that keeps every byte of its input.
use vstd::prelude::*;
use vstd::string::StringExecFns;

pub mod bytes;
pub mod ed;
pub mod edit;
pub mod parse;
pub mod quilt;
pub mod text;
pub mod timestamp;
pub mod unified;

verus! {

/// Strip the specified number of components from the beginning of the
/// components of a path; all of them where there are no more.
pub fn strip_components<'a>(components: &'a [&'a str], n: usize) -> (r: &'a [&'a str])
    ensures
        r@ == components@.subrange(
            if n < components@.len() {
                n as int
            } else {
                components@.len() as int
            },
            components@.len() as int,
        ),
{
    let from = if n < components.len() {
        n
    } else {
        components.len()
    };
    vstd::slice::slice_subrange(components, from, components.len())
}

/// Error that occurs when applying a patch
#[derive(Debug)]
pub enum ApplyError {
    /// A conflict occurred
    Conflict(String),
    /// The patch is unapplyable
    Unapplyable,
}

/// Why a patch could not be applied, as a mathematical value.
pub enum ApplyFault {
    /// The content is not what the patch expects; the text says where.
    Conflict(Seq<char>),
    /// The patch has no content that could be applied.
    Unapplyable,
}

impl ApplyFault {
    /// The fault in words.
    pub open spec fn message(self) -> Seq<char> {
        match self {
            ApplyFault::Conflict(reason) => "Conflict: "@ + reason,
            ApplyFault::Unapplyable => "Patch unapplyable"@,
        }
    }
}

impl ApplyError {
    /// The error in words.
    pub fn message(&self) -> (r: String)
        ensures
            r@ == self@.message(),
    {
        match self {
            ApplyError::Conflict(reason) => {
                let mut text = String::from_str("Conflict: ");
                text.append(reason.as_str());
                text
            },
            ApplyError::Unapplyable => String::from_str("Patch unapplyable"),
        }
    }
}

impl View for ApplyError {
    type V = ApplyFault;

    open spec fn view(&self) -> ApplyFault {
        match self {
            ApplyError::Conflict(text) => ApplyFault::Conflict(text@),
            ApplyError::Unapplyable => ApplyFault::Unapplyable,
        }
    }
}

/// What can go wrong when bytes are appended to a buffer in memory:
/// nothing.
#[derive(Debug, Clone, Copy, PartialEq, Eq)]
pub struct WriteError;

/// A patch that can be applied to file content
pub trait ContentPatch {
    /// The contents to which the patch can be applied at all.
    spec fn can_apply(&self, orig: Seq<u8>) -> bool;

    /// What applying the patch to `orig` gives.
    spec fn outcome(&self, orig: Seq<u8>) -> Result<Seq<u8>, ApplyFault>;

    /// Apply this patch to a file
    fn apply_exact(&self, orig: &[u8]) -> (r: Result<Vec<u8>, ApplyError>)
        requires
            self.can_apply(orig@),
        ensures
            match self.outcome(orig@) {
                Ok(bytes) => r is Ok && r.unwrap()@ == bytes,
                Err(fault) => r is Err && r.unwrap_err()@ == fault,
            },
    ;
}

/// A patch to a single file
pub trait SingleFilePatch: ContentPatch {
    /// The name of the file before the change.
    spec fn old_name(&self) -> Seq<u8>;

    /// The name of the file after the change.
    spec fn new_name(&self) -> Seq<u8>;

    /// Old file name
    fn oldname(&self) -> (r: &[u8])
        ensures
            r@ == self.old_name(),
    ;

    /// New file name
    fn newname(&self) -> (r: &[u8])
        ensures
            r@ == self.new_name(),
    ;
}

} // verus!
