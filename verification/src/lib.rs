//! Strip comments and trailing commas out of JSON-like text, in place.
//!
//! JSON with C-style block comments (`/* ... */`), C-style line comments
//! (`// ...`), shell-style line comments (`# ...`) or trailing commas is not
//! accepted by strict JSON parsers.  This crate rewrites exactly those byte
//! ranges to ASCII spaces, so the result has the same length as the input,
//! keeps its line structure, and can be handed to any standard JSON parser.
//!
//! The transform is a single-pass finite-state scanner over bytes.  Its
//! behaviour is specified by the functions in [`scanner`], and the
//! general guarantees of the transform (length preservation, what may be
//! rewritten, how string literals are protected, how chunked scanning
//! composes) are stated and proved in [`lemmas`].

pub mod lemmas;
pub mod scanner;
pub mod settings;
pub mod stream;

pub use scanner::Error;
pub use scanner::ScanState;
pub use scanner::scan;
pub use scanner::strip;
pub use scanner::strip_buf;
pub use scanner::strip_slice;
pub use settings::CommentSettings;
pub use stream::StripComments;
