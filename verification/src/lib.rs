//! Locating and rewriting of shortcode directives in source text.
//!
//! Authors embed directives in two delimiter styles: a self-closing form
//! (`{{ name(args) }}`) and a body-carrying form (`{% name(args) %} ... {% end %}`).
//! The library scans a source string for every top-level directive, parses its
//! name and typed arguments, captures a body-carrying directive's raw inner
//! text, and rewrites each occurrence into a fixed-width placeholder so that
//! positions in the rewritten string stay predictable.  It also provides the
//! offset arithmetic needed to re-anchor a recorded directive position after
//! an unrelated edit elsewhere in the string.

pub mod args;
pub mod locate;
pub mod newpost;
pub mod parse;
pub mod tag;

pub use args::ArgValue;
pub use locate::{fetch_shortcodes, shortcode_placeholder};
pub use newpost::{post_file_name, post_front_matter};
pub use parse::{range_shift, RangeToPositionRelation, ShortcodeContext, Span};
