//! The kinds of tokens and nodes in the syntax tree of a quilt series file.
use vstd::prelude::*;

verus! {

/// Token types and syntax node kinds for quilt series files
#[derive(Debug, Clone, Copy, PartialEq, Eq, Hash, Structural)]
#[allow(non_camel_case_types)]
pub enum SyntaxKind {
    /// Hash/pound sign for comments
    HASH,
    /// Space character
    SPACE,
    /// Tab character
    TAB,
    /// Newline character
    NEWLINE,
    /// Whitespace characters (spaces and tabs)
    WHITESPACE,
    /// Patch file name/path
    PATCH_NAME,
    /// Patch option (e.g., -p1, --reverse)
    OPTION,
    /// Text content (for comments)
    TEXT,
    /// Error token
    ERROR,
    /// End of file
    EOF,
    /// Root node of the syntax tree
    ROOT,
    /// A series entry (either patch or comment)
    SERIES_ENTRY,
    /// A patch entry with name and options
    PATCH_ENTRY,
    /// A comment line
    COMMENT_LINE,
    /// Patch options section
    OPTIONS,
    /// Individual option
    OPTION_ITEM,
}

impl SyntaxKind {
    /// The number that stands for the kind in a tree: its place in the list
    /// of kinds, counted from 0.
    pub open spec fn raw(self) -> u16 {
        match self {
            SyntaxKind::HASH => 0,
            SyntaxKind::SPACE => 1,
            SyntaxKind::TAB => 2,
            SyntaxKind::NEWLINE => 3,
            SyntaxKind::WHITESPACE => 4,
            SyntaxKind::PATCH_NAME => 5,
            SyntaxKind::OPTION => 6,
            SyntaxKind::TEXT => 7,
            SyntaxKind::ERROR => 8,
            SyntaxKind::EOF => 9,
            SyntaxKind::ROOT => 10,
            SyntaxKind::SERIES_ENTRY => 11,
            SyntaxKind::PATCH_ENTRY => 12,
            SyntaxKind::COMMENT_LINE => 13,
            SyntaxKind::OPTIONS => 14,
            SyntaxKind::OPTION_ITEM => 15,
        }
    }

    /// The kind that a number stands for, if it stands for one.
    pub open spec fn of_raw(raw: u16) -> Option<SyntaxKind> {
        if raw == 0 {
            Some(SyntaxKind::HASH)
        } else if raw == 1 {
            Some(SyntaxKind::SPACE)
        } else if raw == 2 {
            Some(SyntaxKind::TAB)
        } else if raw == 3 {
            Some(SyntaxKind::NEWLINE)
        } else if raw == 4 {
            Some(SyntaxKind::WHITESPACE)
        } else if raw == 5 {
            Some(SyntaxKind::PATCH_NAME)
        } else if raw == 6 {
            Some(SyntaxKind::OPTION)
        } else if raw == 7 {
            Some(SyntaxKind::TEXT)
        } else if raw == 8 {
            Some(SyntaxKind::ERROR)
        } else if raw == 9 {
            Some(SyntaxKind::EOF)
        } else if raw == 10 {
            Some(SyntaxKind::ROOT)
        } else if raw == 11 {
            Some(SyntaxKind::SERIES_ENTRY)
        } else if raw == 12 {
            Some(SyntaxKind::PATCH_ENTRY)
        } else if raw == 13 {
            Some(SyntaxKind::COMMENT_LINE)
        } else if raw == 14 {
            Some(SyntaxKind::OPTIONS)
        } else if raw == 15 {
            Some(SyntaxKind::OPTION_ITEM)
        } else {
            None
        }
    }

    /// The number that stands for the kind in a tree.
    pub fn to_raw(self) -> (r: u16)
        ensures
            r == self.raw(),
            SyntaxKind::of_raw(r) == Some(self),
    {
        match self {
            SyntaxKind::HASH => 0,
            SyntaxKind::SPACE => 1,
            SyntaxKind::TAB => 2,
            SyntaxKind::NEWLINE => 3,
            SyntaxKind::WHITESPACE => 4,
            SyntaxKind::PATCH_NAME => 5,
            SyntaxKind::OPTION => 6,
            SyntaxKind::TEXT => 7,
            SyntaxKind::ERROR => 8,
            SyntaxKind::EOF => 9,
            SyntaxKind::ROOT => 10,
            SyntaxKind::SERIES_ENTRY => 11,
            SyntaxKind::PATCH_ENTRY => 12,
            SyntaxKind::COMMENT_LINE => 13,
            SyntaxKind::OPTIONS => 14,
            SyntaxKind::OPTION_ITEM => 15,
        }
    }

    /// The kind that a number stands for, if it stands for one.
    pub fn from_raw(raw: u16) -> (r: Option<SyntaxKind>)
        ensures
            r == SyntaxKind::of_raw(raw),
            r is Some ==> r.unwrap().raw() == raw,
    {
        match raw {
            0 => Some(SyntaxKind::HASH),
            1 => Some(SyntaxKind::SPACE),
            2 => Some(SyntaxKind::TAB),
            3 => Some(SyntaxKind::NEWLINE),
            4 => Some(SyntaxKind::WHITESPACE),
            5 => Some(SyntaxKind::PATCH_NAME),
            6 => Some(SyntaxKind::OPTION),
            7 => Some(SyntaxKind::TEXT),
            8 => Some(SyntaxKind::ERROR),
            9 => Some(SyntaxKind::EOF),
            10 => Some(SyntaxKind::ROOT),
            11 => Some(SyntaxKind::SERIES_ENTRY),
            12 => Some(SyntaxKind::PATCH_ENTRY),
            13 => Some(SyntaxKind::COMMENT_LINE),
            14 => Some(SyntaxKind::OPTIONS),
            15 => Some(SyntaxKind::OPTION_ITEM),
            _ => None,
        }
    }

    /// The name of the kind, as it is written here, letter by letter.
    pub open spec fn spelled(self) -> Seq<char> {
        match self {
            SyntaxKind::HASH => "HASH"@,
            SyntaxKind::SPACE => "SPACE"@,
            SyntaxKind::TAB => "TAB"@,
            SyntaxKind::NEWLINE => "NEWLINE"@,
            SyntaxKind::WHITESPACE => "WHITESPACE"@,
            SyntaxKind::PATCH_NAME => "PATCH_NAME"@,
            SyntaxKind::OPTION => "OPTION"@,
            SyntaxKind::TEXT => "TEXT"@,
            SyntaxKind::ERROR => "ERROR"@,
            SyntaxKind::EOF => "EOF"@,
            SyntaxKind::ROOT => "ROOT"@,
            SyntaxKind::SERIES_ENTRY => "SERIES_ENTRY"@,
            SyntaxKind::PATCH_ENTRY => "PATCH_ENTRY"@,
            SyntaxKind::COMMENT_LINE => "COMMENT_LINE"@,
            SyntaxKind::OPTIONS => "OPTIONS"@,
            SyntaxKind::OPTION_ITEM => "OPTION_ITEM"@,
        }
    }

    /// The name of the kind, as it is written here.
    pub(crate) fn name(self) -> (r: &'static str)
        ensures
            r@ == self.spelled(),
    {
        match self {
            SyntaxKind::HASH => "HASH",
            SyntaxKind::SPACE => "SPACE",
            SyntaxKind::TAB => "TAB",
            SyntaxKind::NEWLINE => "NEWLINE",
            SyntaxKind::WHITESPACE => "WHITESPACE",
            SyntaxKind::PATCH_NAME => "PATCH_NAME",
            SyntaxKind::OPTION => "OPTION",
            SyntaxKind::TEXT => "TEXT",
            SyntaxKind::ERROR => "ERROR",
            SyntaxKind::EOF => "EOF",
            SyntaxKind::ROOT => "ROOT",
            SyntaxKind::SERIES_ENTRY => "SERIES_ENTRY",
            SyntaxKind::PATCH_ENTRY => "PATCH_ENTRY",
            SyntaxKind::COMMENT_LINE => "COMMENT_LINE",
            SyntaxKind::OPTIONS => "OPTIONS",
            SyntaxKind::OPTION_ITEM => "OPTION_ITEM",
        }
    }
}

} // verus!
