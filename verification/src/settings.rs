//! Configuration: which comment styles and rewrites the scanner performs.

use vstd::prelude::*;

verus! {

/// Selects which categories of non-standard JSON content the scanner rewrites.
///
/// Each flag enables one independent category.  A disabled line-comment or
/// block-comment opener found at top level is treated as ordinary content
/// (in particular it interrupts a pending trailing comma); a disabled style
/// reached after a `/` that already opened a comment is an error, because no
/// other reading of the text remains.
#[derive(Clone, Copy, PartialEq, Eq, Structural, Debug)]
pub struct CommentSettings {
    /// Rewrite C-style block comments (`/* ... */`).
    pub block_comments: bool,
    /// Rewrite C-style line comments (`// ...`).
    pub slash_line_comments: bool,
    /// Rewrite shell-style line comments (`# ...`).
    pub hash_line_comments: bool,
    /// Rewrite trailing commas before `}` and `]`.
    pub trailing_commas: bool,
}

impl CommentSettings {
    /// Every category enabled: the configuration of [`crate::strip_buf`] and
    /// of [`Self::default`].
    pub open spec fn all_spec() -> CommentSettings {
        CommentSettings {
            block_comments: true,
            slash_line_comments: true,
            hash_line_comments: true,
            trailing_commas: true,
        }
    }

    /// Every category enabled.
    pub fn all() -> (r: CommentSettings)
        ensures
            r == CommentSettings::all_spec(),
    {
        CommentSettings {
            block_comments: true,
            slash_line_comments: true,
            hash_line_comments: true,
            trailing_commas: true,
        }
    }

    /// Only shell-style `#` line comments are rewritten; trailing commas are
    /// kept.
    pub fn hash_only() -> (r: CommentSettings)
        ensures
            r == (CommentSettings {
                block_comments: false,
                slash_line_comments: false,
                hash_line_comments: true,
                trailing_commas: false,
            }),
    {
        CommentSettings {
            block_comments: false,
            slash_line_comments: false,
            hash_line_comments: true,
            trailing_commas: false,
        }
    }

    /// C-style comments (`/* ... */` and `// ...`) and trailing commas are
    /// rewritten; `#` is ordinary content.
    pub fn c_style() -> (r: CommentSettings)
        ensures
            r == (CommentSettings {
                block_comments: true,
                slash_line_comments: true,
                hash_line_comments: false,
                trailing_commas: true,
            }),
    {
        CommentSettings {
            block_comments: true,
            slash_line_comments: true,
            hash_line_comments: false,
            trailing_commas: true,
        }
    }
}

impl Default for CommentSettings {
    /// The default enables every category.
    fn default() -> (r: CommentSettings)
        ensures
            r == CommentSettings::all_spec(),
    {
        CommentSettings::all()
    }
}

} // verus!
