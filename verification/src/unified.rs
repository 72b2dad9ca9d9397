//! Parsing of unified patches
pub mod apply;
pub mod hunk;
pub mod line;
pub mod parse;
pub mod patch;
pub mod stream;

pub use apply::{difference_index, iter_exact_patched_from_hunks, ConflictView, PatchConflict};
pub use hunk::{parse_range, Hunk, HunkView, MalformedHunkHeader, MalformedRange};
pub use line::{HunkLine, LineView, MalformedLine, NO_NL};
pub use parse::{
    binary_file_names, get_patch_names, iter_hunks, iter_lines_handle_nl, parse_patch, splitlines,
    try_lines_handle_nl,
};
pub use patch::{BinaryPatch, Error, ErrorView, PatchView, PlainOrBinaryPatch, UnifiedPatch};
pub use stream::{iter_file_patch, parse_patches, EntryView, FileEntry, FileEntryIter};
